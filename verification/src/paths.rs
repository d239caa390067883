//! Paths as byte strings, with slashes between their steps: components, parent, prefix
//! tests and joining.
//! A path is compared by its components, so doubled separators, trailing
//! separators and inner `.` steps make no difference.

use vstd::prelude::*;

use crate::text;

verus! {

pub const SLASH: u8 = 47;

pub const DOT: u8 = 46;

pub const COLON: u8 = 58;

pub const BACKSLASH: u8 = 92;

/// The index of the first separator of `p` at or after `i`, or the length of `p`.
pub open spec fn step_end(p: Seq<u8>, i: int) -> int
    decreases p.len() - i,
{
    if i >= p.len() || p[i] == SLASH {
        i
    } else {
        step_end(p, i + 1)
    }
}

/// Where the named steps of `p` at or after `i` lie: the non-empty runs of bytes
/// between separators, other than `.`.
pub open spec fn steps_from(p: Seq<u8>, i: int) -> Seq<(int, int)>
    decreases p.len() - i,
{
    if i < 0 || i >= p.len() {
        Seq::empty()
    } else if p[i] == SLASH {
        steps_from(p, i + 1)
    } else {
        proof {
            lemma_step_end(p, i + 1);
        }
        let end = step_end(p, i + 1);
        let rest = steps_from(p, end);
        if p.subrange(i, end) == seq![DOT] {
            rest
        } else {
            seq![(i, end)] + rest
        }
    }
}

/// Where the named steps of `p` lie.
pub open spec fn steps(p: Seq<u8>) -> Seq<(int, int)> {
    steps_from(p, 0)
}

/// Whether `p` starts at the root.
pub open spec fn rooted(p: Seq<u8>) -> bool {
    p.len() > 0 && p[0] == SLASH
}

/// Whether a byte separates steps on Windows.
pub open spec fn parts(b: u8) -> bool {
    b == SLASH || b == BACKSLASH
}

/// Whether `p` starts with a drive and its root, such as `C:\`.
pub open spec fn on_drive(p: Seq<u8>) -> bool {
    &&& p.len() >= 3
    &&& 65 <= p[0] <= 90 || 97 <= p[0] <= 122
    &&& p[1] == COLON
    &&& parts(p[2])
}

/// Whether `p` starts with two separators and two names with one between them, such as
/// `\\server\share`, `\\.\device` or `\\?\C:`.
pub open spec fn on_share(p: Seq<u8>) -> bool {
    exists|k: int|
        2 < k < p.len() - 1 && parts(p[0]) && parts(p[1]) && parts(#[trigger] p[k]) && !parts(
            p[k + 1],
        ) && forall|j: int| 2 <= j < k ==> !parts(#[trigger] p[j])
}

/// Whether `p` means the same place whatever the current directory is.
pub open spec fn absolute(p: Seq<u8>, windows: bool) -> bool {
    if windows {
        on_drive(p) || on_share(p)
    } else {
        rooted(p)
    }
}

/// Whether `p` starts with the step `.`.
pub open spec fn dotted(p: Seq<u8>) -> bool {
    p.len() > 0 && p[0] == DOT && (p.len() == 1 || p[1] == SLASH)
}

/// What stands before the named steps of `p`: the root, a leading `.`, or nothing.
pub open spec fn head(p: Seq<u8>) -> Seq<Seq<u8>> {
    if rooted(p) {
        seq![seq![SLASH]]
    } else if dotted(p) {
        seq![seq![DOT]]
    } else {
        Seq::empty()
    }
}

/// The components of `p`.
pub open spec fn components(p: Seq<u8>) -> Seq<Seq<u8>> {
    head(p) + steps(p).map_values(|s: (int, int)| p.subrange(s.0, s.1))
}

/// `p` without its last component; none where `p` is empty or the root.
pub open spec fn parent(p: Seq<u8>) -> Option<Seq<u8>> {
    let s = steps(p);
    if s.len() >= 2 {
        Some(p.take(s[s.len() - 2].1))
    } else if s.len() == 1 {
        Some(p.take(head(p).len() as int))
    } else if dotted(p) {
        Some(Seq::empty())
    } else {
        None
    }
}

/// The last component of `p` where it is a name, that is not the root, `.` or `..`.
pub open spec fn file_name(p: Seq<u8>) -> Option<Seq<u8>> {
    let s = steps(p);
    if s.len() > 0 && p.subrange(s.last().0, s.last().1) != seq![DOT, DOT] {
        Some(p.subrange(s.last().0, s.last().1))
    } else {
        None
    }
}

/// Whether the components of `base` come first among those of `p`.
pub open spec fn starts_with(p: Seq<u8>, base: Seq<u8>) -> bool {
    components(base).is_prefix_of(components(p))
}

/// Whether `a` and `b` have the same components.
pub open spec fn same_path(a: Seq<u8>, b: Seq<u8>) -> bool {
    components(a) == components(b)
}

/// `tail` taken from the directory `base`. A rooted `tail` stands for itself.
pub open spec fn joined(base: Seq<u8>, tail: Seq<u8>) -> Seq<u8> {
    if rooted(tail) {
        tail
    } else if base.len() > 0 && base.last() != SLASH {
        base.push(SLASH) + tail
    } else {
        base + tail
    }
}

/// What is left of `p` after the components of `base`.
pub open spec fn below(p: Seq<u8>, base: Seq<u8>) -> Option<Seq<u8>> {
    let s = steps(p);
    let used = components(base).len() - head(p).len();
    if !starts_with(p, base) {
        None
    } else if components(base).len() == 0 {
        Some(p.take(if s.len() > 0 { s.last().1 } else { head(p).len() as int }))
    } else if used < s.len() {
        Some(p.subrange(s[used].0, s.last().1))
    } else {
        Some(Seq::empty())
    }
}

pub proof fn lemma_step_end(p: Seq<u8>, i: int)
    requires
        0 <= i <= p.len(),
    ensures
        i <= step_end(p, i) <= p.len(),
        forall|k: int| i <= k < step_end(p, i) ==> p[k] != SLASH,
        step_end(p, i) < p.len() ==> p[step_end(p, i)] == SLASH,
    decreases p.len() - i,
{
    if i < p.len() && p[i] != SLASH {
        lemma_step_end(p, i + 1);
    }
}

/// Steps are non-empty, in order, and inside the path.
pub proof fn lemma_steps_from(p: Seq<u8>, i: int)
    requires
        0 <= i <= p.len(),
    ensures
        forall|k: int|
            0 <= k < steps_from(p, i).len() ==> i <= (#[trigger] steps_from(p, i)[k]).0
                < steps_from(p, i)[k].1 <= p.len(),
    decreases p.len() - i,
{
    if i < p.len() {
        if p[i] == SLASH {
            lemma_steps_from(p, i + 1);
            assert(steps_from(p, i) == steps_from(p, i + 1));
        } else {
            lemma_step_end(p, i + 1);
            let end = step_end(p, i + 1);
            lemma_steps_from(p, end);
            if p.subrange(i, end) == seq![DOT] {
                assert(steps_from(p, i) == steps_from(p, end));
            } else {
                assert(steps_from(p, i) == seq![(i, end)] + steps_from(p, end));
                assert forall|k: int| 0 <= k < steps_from(p, i).len() implies i <= (
                #[trigger] steps_from(p, i)[k]).0 < steps_from(p, i)[k].1 <= p.len() by {
                    if k > 0 {
                        assert(steps_from(p, i)[k] == steps_from(p, end)[k - 1]);
                    }
                }
            }
        }
    }
}

/// Whether a byte separates steps on Windows.
fn is_part(b: u8) -> (r: bool)
    ensures
        r == parts(b),
{
    b == SLASH || b == BACKSLASH
}

/// Whether `p` starts with two separators and two names with one between them.
fn is_on_share(p: &[u8]) -> (r: bool)
    ensures
        r == on_share(p@),
{
    if p.len() < 2 || !is_part(p[0]) || !is_part(p[1]) {
        return false;
    }
    let mut k: usize = 2;
    while k < p.len() && !is_part(p[k])
        invariant
            2 <= k <= p@.len(),
            forall|j: int| 2 <= j < k ==> !parts(#[trigger] p@[j]),
        decreases p@.len() - k,
    {
        k = k + 1;
    }
    let r = 2 < k && k < p.len() - 1 && !is_part(p[k + 1]);
    proof {
        if on_share(p@) {
            let m = choose|m: int|
                2 < m < p@.len() - 1 && parts(p@[0]) && parts(p@[1]) && parts(#[trigger] p@[m])
                    && !parts(p@[m + 1]) && forall|j: int| 2 <= j < m ==> !parts(#[trigger] p@[j]);
            assert(m == k);
        }
        if r {
            assert(parts(p@[k as int]));
        }
    }
    r
}

/// Whether `p` means the same place whatever the current directory is.
pub fn is_absolute(p: &[u8], windows: bool) -> (r: bool)
    ensures
        r == absolute(p@, windows),
{
    if windows {
        p.len() >= 3 && (65 <= p[0] && p[0] <= 90 || 97 <= p[0] && p[0] <= 122) && p[1] == COLON
            && is_part(p[2]) || is_on_share(p)
    } else {
        is_rooted(p)
    }
}

/// The spans of the named steps of `p`.
fn find_steps(p: &[u8]) -> (r: Vec<(usize, usize)>)
    ensures
        r@.map_values(|s: (usize, usize)| (s.0 as int, s.1 as int)) == steps(p@),
        forall|k: int| 0 <= k < r@.len() ==> (#[trigger] r@[k]).0 < r@[k].1 <= p@.len(),
{
    let ghost ints = |s: (usize, usize)| (s.0 as int, s.1 as int);
    let mut found: Vec<(usize, usize)> = Vec::new();
    let mut i: usize = 0;
    assert(found@.map_values(ints) =~= Seq::<(int, int)>::empty());
    assert(Seq::<(int, int)>::empty() + steps(p@) =~= steps(p@));
    while i < p.len()
        invariant
            i <= p@.len(),
            ints == (|s: (usize, usize)| (s.0 as int, s.1 as int)),
            found@.map_values(ints) + steps_from(p@, i as int) == steps(p@),
            forall|k: int| 0 <= k < found@.len() ==> (#[trigger] found@[k]).0 < found@[k].1 <= p@.len(),
        decreases p@.len() - i,
    {
        if p[i] == SLASH {
            i = i + 1;
        } else {
            let start = i;
            i = i + 1;
            proof {
                lemma_step_end(p@, start + 1);
            }
            while i < p.len() && p[i] != SLASH
                invariant
                    start < i <= p@.len(),
                    step_end(p@, start + 1) == step_end(p@, i as int),
                decreases p@.len() - i,
            {
                i = i + 1;
            }
            let ghost rest = steps_from(p@, i as int);
            let ghost before = found@.map_values(ints);
            if i - start == 1 && p[start] == DOT {
                assert(p@.subrange(start as int, i as int) =~= seq![DOT]);
            } else {
                assert(p@.subrange(start as int, i as int) != seq![DOT]) by {
                    if p@.subrange(start as int, i as int) == seq![DOT] {
                        assert(p@.subrange(start as int, i as int).len() == 1);
                        assert(p@.subrange(start as int, i as int)[0] == DOT);
                    }
                }
                found.push((start, i));
                assert(found@.map_values(ints) =~= before.push((start as int, i as int)));
                assert(before.push((start as int, i as int)) + rest =~= before + (seq![
                    (start as int, i as int),
                ] + rest));
            }
        }
    }
    assert(found@.map_values(ints) + steps_from(p@, i as int) =~= found@.map_values(ints));
    found
}

/// A copy of bytes `from` to `to` of `p`.
fn copy_range(p: &[u8], from: usize, to: usize) -> (r: Vec<u8>)
    requires
        from <= to <= p@.len(),
    ensures
        r@ == p@.subrange(from as int, to as int),
{
    let mut r: Vec<u8> = Vec::new();
    let mut i: usize = from;
    while i < to
        invariant
            from <= i <= to <= p@.len(),
            r@ == p@.subrange(from as int, i as int),
        decreases to - i,
    {
        r.push(p[i]);
        i = i + 1;
        assert(p@.subrange(from as int, i as int) =~= p@.subrange(from as int, i - 1).push(p@[i - 1]));
    }
    r
}

/// Whether a path starts at the root.
pub fn is_rooted(p: &[u8]) -> (r: bool)
    ensures
        r == rooted(p@),
{
    p.len() > 0 && p[0] == SLASH
}

fn is_dotted(p: &[u8]) -> (r: bool)
    ensures
        r == dotted(p@),
{
    p.len() > 0 && p[0] == DOT && (p.len() == 1 || p[1] == SLASH)
}

/// The components of a path.
pub fn components_of(p: &[u8]) -> (r: Vec<Vec<u8>>)
    ensures
        r@.map_values(|c: Vec<u8>| c@) == components(p@),
{
    let ghost view = |c: Vec<u8>| c@;
    let ghost cut = |s: (int, int)| p@.subrange(s.0, s.1);
    let ghost ints = |s: (usize, usize)| (s.0 as int, s.1 as int);
    let mut r: Vec<Vec<u8>> = Vec::new();
    if is_rooted(p) {
        let mut c: Vec<u8> = Vec::new();
        c.push(SLASH);
        assert(c@ =~= seq![SLASH]);
        r.push(c);
    } else if is_dotted(p) {
        let mut c: Vec<u8> = Vec::new();
        c.push(DOT);
        assert(c@ =~= seq![DOT]);
        r.push(c);
    }
    assert(r@.map_values(view) =~= head(p@));
    let found = find_steps(p);
    let mut i: usize = 0;
    assert(steps(p@).take(0).map_values(cut) =~= Seq::<Seq<u8>>::empty());
    assert(head(p@) + Seq::<Seq<u8>>::empty() =~= head(p@));
    while i < found.len()
        invariant
            i <= found@.len(),
            view == (|c: Vec<u8>| c@),
            cut == (|s: (int, int)| p@.subrange(s.0, s.1)),
            found@.map_values(|s: (usize, usize)| (s.0 as int, s.1 as int)) == steps(p@),
            forall|k: int| 0 <= k < found@.len() ==> (#[trigger] found@[k]).0 < found@[k].1 <= p@.len(),
            r@.map_values(view) == head(p@) + steps(p@).take(i as int).map_values(cut),
        decreases found@.len() - i,
    {
        let (start, end) = found[i];
        assert(found@[i as int].0 < found@[i as int].1 <= p@.len());
        assert(steps(p@)[i as int] == (start as int, end as int));
        let ghost before = r@.map_values(view);
        r.push(copy_range(p, start, end));
        i = i + 1;
        assert(steps(p@).take(i as int).map_values(cut) =~= steps(p@).take(i - 1).map_values(cut).push(
            p@.subrange(start as int, end as int),
        ));
        assert(r@.map_values(view) =~= before.push(p@.subrange(start as int, end as int)));
        assert(r@.map_values(view) =~= head(p@) + steps(p@).take(i as int).map_values(cut));
    }
    assert(steps(p@).len() == found@.len());
    assert(steps(p@).take(i as int) =~= steps(p@));
    r
}

/// Whether the components of `base` come first among those of `p`.
pub fn path_starts_with(p: &[u8], base: &[u8]) -> (r: bool)
    ensures
        r == starts_with(p@, base@),
{
    let a = components_of(p);
    let b = components_of(base);
    let ghost view = |c: Vec<u8>| c@;
    assert(a@.map_values(view) == components(p@));
    assert(b@.map_values(view) == components(base@));
    if a.len() < b.len() {
        return false;
    }
    let mut i: usize = 0;
    while i < b.len()
        invariant
            i <= b@.len() <= a@.len(),
            view == (|c: Vec<u8>| c@),
            a@.map_values(view) == components(p@),
            b@.map_values(view) == components(base@),
            forall|j: int| 0 <= j < i ==> components(p@)[j] == components(base@)[j],
        decreases b@.len() - i,
    {
        assert(components(p@)[i as int] == a@[i as int]@);
        assert(components(base@)[i as int] == b@[i as int]@);
        if !text::same_bytes(a[i].as_slice(), b[i].as_slice()) {
            return false;
        }
        i = i + 1;
    }
    true
}

/// Whether two paths have the same components.
pub fn is_same_path(a: &[u8], b: &[u8]) -> (r: bool)
    ensures
        r == same_path(a@, b@),
{
    let ab = path_starts_with(a, b);
    let ba = path_starts_with(b, a);
    proof {
        if ab && ba {
            assert(components(a@) =~= components(b@));
        }
    }
    ab && ba
}

/// A path without its last component.
pub fn parent_of(p: &[u8]) -> (r: Option<Vec<u8>>)
    ensures
        match r {
            Some(q) => parent(p@) == Some(q@),
            None => parent(p@) is None,
        },
{
    let found = find_steps(p);
    let n = found.len();
    assert(steps(p@).len() == n);
    if n >= 2 {
        let end = found[n - 2].1;
        assert(found@[n - 2].1 <= p@.len());
        assert(steps(p@)[n - 2].1 == end);
        assert(p@.subrange(0, end as int) =~= p@.take(end as int));
        Some(copy_range(p, 0, end))
    } else if n == 1 {
        let end: usize = if is_rooted(p) || is_dotted(p) { 1 } else { 0 };
        assert(p@.subrange(0, end as int) =~= p@.take(end as int));
        Some(copy_range(p, 0, end))
    } else if is_dotted(p) {
        let r: Vec<u8> = Vec::new();
        assert(r@ =~= Seq::<u8>::empty());
        Some(r)
    } else {
        None
    }
}

/// The last component of a path where it is a name.
pub fn file_name_of(p: &[u8]) -> (r: Option<Vec<u8>>)
    ensures
        match r {
            Some(q) => file_name(p@) == Some(q@),
            None => file_name(p@) is None,
        },
{
    let found = find_steps(p);
    let n = found.len();
    assert(steps(p@).len() == n);
    if n == 0 {
        return None;
    }
    let (start, end) = found[n - 1];
    assert(found@[n - 1].0 < found@[n - 1].1 <= p@.len());
    assert(steps(p@)[n - 1] == (start as int, end as int));
    let name = copy_range(p, start, end);
    if name.len() == 2 && name[0] == DOT && name[1] == DOT {
        assert(name@ =~= seq![DOT, DOT]);
        None
    } else {
        assert(name@ != seq![DOT, DOT]) by {
            if name@ == seq![DOT, DOT] {
                assert(name@.len() == 2 && name@[0] == DOT && name@[1] == DOT);
            }
        }
        Some(name)
    }
}

/// `tail` taken from the directory `base`.
pub fn join(base: &[u8], tail: &[u8]) -> (r: Vec<u8>)
    ensures
        r@ == joined(base@, tail@),
{
    if is_rooted(tail) {
        let r = copy_range(tail, 0, tail.len());
        assert(r@ =~= tail@);
        return r;
    }
    let mut r = copy_range(base, 0, base.len());
    assert(r@ =~= base@);
    if base.len() > 0 && base[base.len() - 1] != SLASH {
        r.push(SLASH);
    }
    let ghost front = r@;
    let mut i: usize = 0;
    while i < tail.len()
        invariant
            i <= tail@.len(),
            r@ == front + tail@.take(i as int),
        decreases tail@.len() - i,
    {
        r.push(tail[i]);
        i = i + 1;
        assert(front + tail@.take(i as int) =~= (front + tail@.take(i - 1)).push(tail@[i - 1]));
    }
    assert(front + tail@.take(i as int) =~= front + tail@);
    r
}

/// What is left of `p` after the components of `base`.
pub fn strip_prefix(p: &[u8], base: &[u8]) -> (r: Option<Vec<u8>>)
    ensures
        match r {
            Some(q) => below(p@, base@) == Some(q@),
            None => below(p@, base@) is None,
        },
{
    if !path_starts_with(p, base) {
        return None;
    }
    let found = find_steps(p);
    let n = found.len();
    let lead: usize = if is_rooted(p) || is_dotted(p) { 1 } else { 0 };
    let taken = components_of(base).len();
    let ghost ints = |s: (usize, usize)| (s.0 as int, s.1 as int);
    assert(found@.map_values(ints) == steps(p@));
    assert(steps(p@).len() == n);
    assert(head(p@).len() == lead);
    assert(components(base@).len() == taken);
    proof {
        if n > 0 {
            assert(steps(p@)[n - 1] == ints(found@[n - 1]));
            assert(found@[n - 1].0 < found@[n - 1].1 <= p@.len());
        }
    }
    if taken == 0 {
        let end = if n > 0 { found[n - 1].1 } else { lead };
        assert(p@.subrange(0, end as int) =~= p@.take(end as int));
        return Some(copy_range(p, 0, end));
    }
    let used = taken - lead;
    if used < n {
        let start = found[used].0;
        let end = found[n - 1].1;
        proof {
            lemma_steps_in_order(p@, 0, used as int, n - 1);
            assert(steps(p@)[used as int] == ints(found@[used as int]));
        }
        Some(copy_range(p, start, end))
    } else {
        let r: Vec<u8> = Vec::new();
        assert(r@ =~= Seq::<u8>::empty());
        Some(r)
    }
}

/// Later steps lie further on.
pub proof fn lemma_steps_in_order(p: Seq<u8>, i: int, a: int, b: int)
    requires
        0 <= i <= p.len(),
        0 <= a <= b < steps_from(p, i).len(),
    ensures
        steps_from(p, i)[a].0 <= steps_from(p, i)[b].0 < steps_from(p, i)[b].1,
    decreases p.len() - i,
{
    lemma_steps_from(p, i);
    if i < p.len() {
        if p[i] == SLASH {
            lemma_steps_in_order(p, i + 1, a, b);
        } else {
            lemma_step_end(p, i + 1);
            let end = step_end(p, i + 1);
            lemma_steps_from(p, end);
            if p.subrange(i, end) == seq![DOT] {
                lemma_steps_in_order(p, end, a, b);
            } else if a > 0 {
                lemma_steps_in_order(p, end, a - 1, b - 1);
            }
        }
    }
}

/// Whether `q` goes on after `p` with a new step: it ends there, or there is a separator
/// on one side of the cut.
pub open spec fn cut(p: Seq<u8>, q: Seq<u8>) -> bool {
    &&& p.is_prefix_of(q)
    &&& p.len() == q.len() || q[p.len() as int] == SLASH || (p.len() > 0 && p.last() == SLASH)
}

/// A step that ends before a cut, or at it, ends in the same place in both paths.
proof fn lemma_step_end_at_cut(p: Seq<u8>, q: Seq<u8>, i: int)
    requires
        cut(p, q),
        0 < i <= p.len(),
        p[i - 1] != SLASH,
    ensures
        step_end(q, i) == step_end(p, i),
    decreases p.len() - i,
{
    if i < p.len() {
        assert(p[i] == q[i]);
        if p[i] != SLASH {
            lemma_step_end_at_cut(p, q, i + 1);
        }
    }
}

/// The steps of a path are those before a cut and those after it.
proof fn lemma_steps_at_cut(p: Seq<u8>, q: Seq<u8>, i: int)
    requires
        cut(p, q),
        0 <= i <= p.len(),
    ensures
        steps_from(q, i) == steps_from(p, i) + steps_from(q, p.len() as int),
    decreases p.len() - i,
{
    let rest = steps_from(q, p.len() as int);
    if i == p.len() {
        assert(steps_from(p, i) + rest =~= rest);
    } else {
        assert(p[i] == q[i]);
        if p[i] == SLASH {
            lemma_steps_at_cut(p, q, i + 1);
        } else {
            lemma_step_end(p, i + 1);
            lemma_step_end_at_cut(p, q, i + 1);
            let end = step_end(p, i + 1);
            lemma_steps_at_cut(p, q, end);
            assert(p.subrange(i, end) =~= q.subrange(i, end));
            assert(seq![(i, end)] + (steps_from(p, end) + rest) =~= (seq![(i, end)] + steps_from(
                p,
                end,
            )) + rest);
        }
    }
}

/// A step starts where the search for it starts, or after a separator, and ends before a
/// separator or at the end.
proof fn lemma_step_bounds(p: Seq<u8>, i: int, k: int)
    requires
        0 <= i <= p.len(),
        0 <= k < steps_from(p, i).len(),
    ensures
        ({
            let (a, b) = steps_from(p, i)[k];
            &&& i <= a < b <= p.len()
            &&& a == i || p[a - 1] == SLASH
            &&& b == p.len() || p[b] == SLASH
            &&& p[a] != SLASH
        }),
    decreases p.len() - i,
{
    if i < p.len() {
        if p[i] == SLASH {
            lemma_step_bounds(p, i + 1, k);
        } else {
            lemma_step_end(p, i + 1);
            let end = step_end(p, i + 1);
            if p.subrange(i, end) == seq![DOT] {
                lemma_step_bounds(p, end, k);
            } else if k > 0 {
                lemma_step_bounds(p, end, k - 1);
                assert(steps_from(p, i)[k] == steps_from(p, end)[k - 1]);
            }
        }
    }
}

/// A path taken from a directory starts with the components of the directory. Each
/// further component is a leading `.`, or a run of bytes of the second part between
/// separators or its ends.
pub proof fn joining_extends(base: Seq<u8>, tail: Seq<u8>)
    requires
        !rooted(tail),
    ensures
        starts_with(joined(base, tail), base),
        forall|i: int|
            components(base).len() <= i < components(joined(base, tail)).len()
                ==> #[trigger] components(joined(base, tail))[i] == seq![DOT] || stands_in(
                tail,
                components(joined(base, tail))[i],
            ),
{
    let q = joined(base, tail);
    let n = base.len() as int;
    let o = q.len() - tail.len();
    assert(base.is_prefix_of(q));
    assert(cut(base, q) || n == 0);
    let rest = steps_from(q, n);
    let f = |s: (int, int)| q.subrange(s.0, s.1);
    let g = |s: (int, int)| base.subrange(s.0, s.1);
    if n > 0 {
        lemma_steps_at_cut(base, q, 0);
        assert(base[0] == q[0]);
        if n > 1 {
            assert(base[1] == q[1]);
        }
        assert(head(q) == head(base));
        lemma_steps_from(base, 0);
        assert(components(base) =~= components(q).take(components(base).len() as int)) by {
            assert forall|k: int| 0 <= k < steps(base).len() implies g(#[trigger] steps(base)[k])
                == f(steps(q)[k]) by {
                let (a, b) = steps(base)[k];
                assert(base.subrange(a, b) =~= q.subrange(a, b));
            }
        }
    } else {
        assert(components(base) =~= Seq::<Seq<u8>>::empty());
    }
    assert forall|i: int| components(base).len() <= i < components(q).len() implies
        #[trigger] components(q)[i] == seq![DOT] || stands_in(tail, components(q)[i]) by {
        if i >= head(q).len() {
            let k = i - (components(q).len() - rest.len());
            assert(components(q).len() == head(q).len() + steps(q).len());
            assert(n > 0 ==> steps(q).len() == steps(base).len() + rest.len());
            assert(0 <= k < rest.len());
            assert(steps(q)[i - head(q).len()] == rest[k]);
            lemma_step_bounds(q, n, k);
            let (a, b) = rest[k];
            assert(components(q)[i] == q.subrange(a, b));
            assert(o <= a);
            assert(forall|j: int| o <= j < q.len() ==> #[trigger] q[j] == tail[j - o]);
            assert(q.subrange(a, b) =~= tail.subrange(a - o, b - o));
            assert(a - o == 0 || tail[a - o - 1] == SLASH);
            assert(b - o == tail.len() || tail[b - o] == SLASH);
            assert(run_of(tail, a - o, b - o));
        }
    }
}

/// Whether the bytes from `a` to `b` stand between separators or the ends of `p`.
pub open spec fn run_of(p: Seq<u8>, a: int, b: int) -> bool {
    &&& 0 <= a <= b <= p.len()
    &&& a == 0 || p[a - 1] == SLASH
    &&& b == p.len() || p[b] == SLASH
}

/// Whether `x` stands in `p` between separators or the ends of `p`.
pub open spec fn stands_in(p: Seq<u8>, x: Seq<u8>) -> bool {
    exists|a: int, b: int| #[trigger] run_of(p, a, b) && p.subrange(a, b) == x
}

/// The last step of a path that ends in a name ends where the path does.
proof fn lemma_last_step(p: Seq<u8>, i: int)
    requires
        0 <= i < p.len(),
        p.last() != SLASH,
        p.last() == DOT ==> i < p.len() - 1 && p[p.len() - 2] != SLASH,
    ensures
        steps_from(p, i).len() > 0,
        steps_from(p, i).last().1 == p.len(),
    decreases p.len() - i,
{
    if p[i] == SLASH {
        lemma_last_step(p, i + 1);
    } else {
        lemma_step_end(p, i + 1);
        let end = step_end(p, i + 1);
        if end == p.len() {
            assert(p.subrange(i, end) != seq![DOT]) by {
                if p.subrange(i, end) == seq![DOT] {
                    assert(p.subrange(i, end).len() == 1);
                    assert(p.subrange(i, end)[0] == DOT);
                }
            }
            assert(steps_from(p, end) =~= Seq::<(int, int)>::empty());
            assert(steps_from(p, i) =~= seq![(i, end)]);
        } else {
            lemma_last_step(p, end);
            let rest = steps_from(p, end);
            assert((seq![(i, end)] + rest).last() == rest.last());
        }
    }
}

/// A path that is not empty has a component.
proof fn lemma_some_component(p: Seq<u8>)
    requires
        p.len() > 0,
    ensures
        components(p).len() > 0,
{
    if !rooted(p) && !dotted(p) {
        lemma_step_end(p, 1);
        let end = step_end(p, 1);
        assert(p.subrange(0, end) != seq![DOT]) by {
            if p.subrange(0, end) == seq![DOT] {
                assert(p.subrange(0, end).len() == 1);
                assert(p.subrange(0, end)[0] == DOT);
            }
        }
        assert(steps(p).len() > 0);
    }
}

/// Whether a path starts and ends with a name: no separator and no step `.` stands first
/// or last.
pub open spec fn trim_path(p: Seq<u8>) -> bool {
    &&& p.len() > 0
    &&& !rooted(p)
    &&& !dotted(p)
    &&& p.last() != SLASH
    &&& p.last() == DOT ==> p[p.len() - 2] != SLASH
}

/// What lies below a directory, of a path that was taken from it, is what was taken.
pub proof fn below_undoes_joining(base: Seq<u8>, tail: Seq<u8>)
    requires
        base.len() > 0,
        trim_path(tail),
    ensures
        below(joined(base, tail), base) == Some(tail),
{
    let q = joined(base, tail);
    let n = base.len() as int;
    let o = q.len() - tail.len();
    joining_extends(base, tail);
    assert(cut(base, q));
    lemma_steps_at_cut(base, q, 0);
    assert(base[0] == q[0]);
    if n > 1 {
        assert(base[1] == q[1]);
    }
    assert(head(q) == head(base));
    let rest = steps_from(q, n);
    assert(rest == steps_from(q, o)) by {
        if o > n {
            assert(q[n] == SLASH);
        }
    }
    assert(forall|j: int| o <= j < q.len() ==> #[trigger] q[j] == tail[j - o]);
    lemma_step_end(q, o + 1);
    let end = step_end(q, o + 1);
    assert(q[o] == tail[0]);
    assert(q.subrange(o, end) != seq![DOT]) by {
        if q.subrange(o, end) == seq![DOT] {
            assert(q.subrange(o, end).len() == 1);
            assert(q.subrange(o, end)[0] == DOT);
            assert(tail.len() == 1 || tail[1] == SLASH);
        }
    }
    assert(rest[0] == (o, end));
    assert(q.last() == tail.last());
    if tail.len() > 1 {
        assert(q[q.len() - 2] == tail[tail.len() - 2]);
    }
    lemma_last_step(q, o);
    let s = steps(q);
    let used = components(base).len() - head(q).len();
    assert(components(base).len() == head(base).len() + steps(base).len());
    assert(s[used] == rest[0]);
    assert(s.last() == rest.last());
    assert(q.subrange(o, q.len() as int) =~= tail);
    lemma_some_component(base);
}

/// Nothing of a path lies below itself.
pub proof fn lemma_below_itself(p: Seq<u8>)
    requires
        p.len() > 0,
    ensures
        below(p, p) == Some(Seq::<u8>::empty()),
{
    lemma_some_component(p);
}

/// Whether a byte string is a single name: not empty, without a separator, and not `.`.
pub open spec fn is_name(x: Seq<u8>) -> bool {
    &&& x.len() > 0
    &&& forall|i: int| 0 <= i < x.len() ==> #[trigger] x[i] != 47
    &&& x != seq![46u8]
}

/// The components of a path that goes on after a cut start with those before it.
proof fn lemma_components_at_cut(p: Seq<u8>, q: Seq<u8>)
    requires
        cut(p, q),
        p.len() > 0,
    ensures
        head(q) == head(p),
        steps(q) == steps(p) + steps_from(q, p.len() as int),
        components(q) == components(p) + steps_from(q, p.len() as int).map_values(
            |s: (int, int)| q.subrange(s.0, s.1),
        ),
{
    let f = |s: (int, int)| q.subrange(s.0, s.1);
    let g = |s: (int, int)| p.subrange(s.0, s.1);
    let rest = steps_from(q, p.len() as int);
    lemma_steps_at_cut(p, q, 0);
    lemma_steps_from(p, 0);
    assert(p[0] == q[0]);
    if p.len() > 1 {
        assert(p[1] == q[1]);
    }
    assert(head(q) == head(p));
    assert(components(q) =~= components(p) + rest.map_values(f)) by {
        assert forall|k: int| 0 <= k < steps(p).len() implies g(#[trigger] steps(p)[k]) == f(
            steps(q)[k],
        ) by {
            let (a, b) = steps(p)[k];
            assert(p.subrange(a, b) =~= q.subrange(a, b));
        }
    }
}

/// The empty path has no components, and the root and `.` have one each.
pub proof fn the_shortest_paths()
    ensures
        components(Seq::<u8>::empty()).len() == 0,
        components(seq![47u8]) == seq![seq![47u8]],
        components(seq![46u8]) == seq![seq![46u8]],
        parent(Seq::<u8>::empty()) is None,
        parent(seq![47u8]) is None,
        parent(seq![46u8]) == Some(Seq::<u8>::empty()),
        file_name(Seq::<u8>::empty()) is None,
        file_name(seq![47u8]) is None,
        file_name(seq![46u8]) is None,
{
    let root = seq![47u8];
    let here = seq![46u8];
    reveal_with_fuel(steps_from, 3);
    reveal_with_fuel(step_end, 3);
    assert(steps(root) =~= Seq::<(int, int)>::empty());
    assert(here.subrange(0, 1) =~= here);
    assert(steps(here) =~= Seq::<(int, int)>::empty());
    assert(components(root) =~= seq![root]);
    assert(components(here) =~= seq![here]);
}

proof fn lemma_one_step(q: Seq<u8>, o: int)
    requires
        0 <= o < q.len(),
        is_name(q.subrange(o, q.len() as int)),
    ensures
        steps_from(q, o) == seq![(o, q.len() as int)],
{
    let n = q.len() as int;
    let x = q.subrange(o, n);
    assert forall|i: int| o <= i < n implies #[trigger] q[i] != SLASH by {
        assert(x[i - o] == q[i]);
    }
    lemma_step_end(q, o + 1);
    assert(step_end(q, o + 1) == n);
    assert(seq![DOT] == seq![46u8]);
    assert(steps_from(q, n) =~= Seq::<(int, int)>::empty());
    assert(steps_from(q, o) =~= seq![(o, n)]);
}

proof fn lemma_name_joined(base: Seq<u8>, name: Seq<u8>)
    requires
        base.len() > 0,
        is_name(name),
    ensures
        ({
            let q = joined(base, name);
            let o = q.len() - name.len();
            &&& 0 < o < q.len()
            &&& cut(base, q)
            &&& head(q) == head(base)
            &&& q.subrange(o, q.len() as int) == name
            &&& steps(q) == steps(base).push((o, q.len() as int))
            &&& components(q) == components(base).push(name)
        }),
{
    let q = joined(base, name);
    let n = base.len() as int;
    let o = q.len() - name.len();
    let f = |s: (int, int)| q.subrange(s.0, s.1);
    let last = (o, q.len() as int);
    assert(name[0] != 47);
    assert(!rooted(name));
    assert(base.is_prefix_of(q));
    assert(cut(base, q));
    lemma_components_at_cut(base, q);
    assert(q.subrange(o, q.len() as int) =~= name);
    lemma_one_step(q, o);
    let rest = steps_from(q, n);
    assert(rest == seq![last]) by {
        if o > n {
            assert(q[n] == SLASH);
            assert(steps_from(q, n) == steps_from(q, n + 1));
        }
    }
    assert(rest.len() == 1 && rest[0] == last);
    assert(steps(q) =~= steps(base).push(last));
    assert(rest.map_values(f).len() == 1 && rest.map_values(f)[0] == f(last));
    assert(f(last) == name);
    assert(rest.map_values(f) =~= seq![name]);
    assert(components(base) + seq![name] =~= components(base).push(name));
}

/// A name taken from a directory is one more component. Its file name is that name, unless
/// it is `..`, and its parent is the directory.
pub proof fn names_add_one_component(base: Seq<u8>, name: Seq<u8>)
    requires
        base.len() > 0,
        is_name(name),
    ensures
        components(joined(base, name)) == components(base).push(name),
        name != seq![46u8, 46u8] ==> file_name(joined(base, name)) == Some(name),
        name == seq![46u8, 46u8] ==> file_name(joined(base, name)) is None,
        parent(joined(base, name)) matches Some(q) && components(q) == components(base),
        starts_with(joined(base, name), base),
{
    let q = joined(base, name);
    lemma_name_joined(base, name);
    let s = steps(q);
    assert(components(q).take(components(base).len() as int) =~= components(base));
    assert(s.drop_last() =~= steps(base));
    assert(seq![DOT, DOT] == seq![46u8, 46u8]);
    lemma_parent_steps(base, q);
}

proof fn lemma_parent_steps(base: Seq<u8>, q: Seq<u8>)
    requires
        base.len() > 0,
        cut(base, q),
        head(q) == head(base),
        steps(q).len() == steps(base).len() + 1,
        steps(q).drop_last() == steps(base),
    ensures
        parent(q) matches Some(r) && components(r) == components(base),
{
    let b = steps(base);
    let s = steps(q);
    if b.len() > 0 {
        let e = b.last().1;
        let r = base.take(e);
        assert(s[s.len() - 2] == b.last());
        lemma_step_bounds(base, 0, b.len() - 1);
        assert(q.take(e) =~= r);
        assert(cut(r, base));
        lemma_components_at_cut(r, base);
        let rest = steps_from(base, e);
        if rest.len() > 0 {
            lemma_step_bounds(base, e, rest.len() - 1);
            assert(b.last() == rest.last());
        }
        assert(components(base) =~= components(r));
    } else {
        the_shortest_paths();
        assert(components(base) =~= head(base));
        assert(q[0] == base[0]);
        lemma_some_component(base);
        let r = q.take(head(q).len() as int);
        if rooted(q) {
            assert(r =~= seq![47u8]);
            assert(seq![SLASH] == seq![47u8]);
        } else {
            assert(r =~= seq![46u8]);
            assert(seq![DOT] == seq![46u8]);
        }
    }
}

/// A name by itself is its only component, and lies in the empty path.
pub proof fn single_names_stand_alone(name: Seq<u8>)
    requires
        is_name(name),
    ensures
        components(name) == seq![name],
        parent(name) == Some(Seq::<u8>::empty()),
        name != seq![46u8, 46u8] ==> file_name(name) == Some(name),
        name == seq![46u8, 46u8] ==> file_name(name) is None,
{
    assert(name.subrange(0, name.len() as int) =~= name);
    lemma_one_step(name, 0);
    assert(name[0] != 47);
    if dotted(name) {
        if name.len() == 1 {
            assert(name =~= seq![46u8]);
        } else {
            assert(name[1] != 47);
        }
    }
    assert(components(name) =~= seq![name]);
    assert(seq![DOT, DOT] == seq![46u8, 46u8]);
    assert(name.take(0) =~= Seq::<u8>::empty());
}

/// A separator at the end of a path makes no difference, nor does a last step `.`.
pub proof fn endings_make_no_difference(p: Seq<u8>)
    requires
        p.len() > 0,
    ensures
        components(p.push(47)) == components(p),
        components(p + seq![47u8, 46u8]) == components(p),
        file_name(p.push(47)) == file_name(p),
        file_name(p + seq![47u8, 46u8]) == file_name(p),
        parent(p.push(47)) == parent(p),
        parent(p + seq![47u8, 46u8]) == parent(p),
{
    let n = p.len() as int;
    let q = p.push(47);
    let none = Seq::<(int, int)>::empty();
    assert(p.is_prefix_of(q));
    lemma_components_at_cut(p, q);
    assert(steps_from(q, n + 1) =~= none);
    assert(steps_from(q, n) =~= none);
    assert(components(q) =~= components(p));
    assert(steps(q) =~= steps(p));
    lemma_same_ends(p, q);
    let r = p + seq![47u8, 46u8];
    assert(r[n] == 47 && r[n + 1] == 46);
    assert(p.is_prefix_of(r));
    lemma_components_at_cut(p, r);
    lemma_step_end(r, n + 2);
    assert(r.subrange(n + 1, n + 2) =~= seq![DOT]);
    assert(steps_from(r, n + 2) =~= none);
    assert(steps_from(r, n + 1) =~= none);
    assert(steps_from(r, n) =~= none);
    assert(components(r) =~= components(p));
    assert(steps(r) =~= steps(p));
    lemma_same_ends(p, r);
}

proof fn lemma_same_ends(p: Seq<u8>, q: Seq<u8>)
    requires
        p.len() > 0,
        cut(p, q),
        head(q) == head(p),
        steps(q) == steps(p),
    ensures
        file_name(q) == file_name(p),
        parent(q) == parent(p),
{
    let s = steps(p);
    let n = s.len() as int;
    lemma_steps_from(p, 0);
    assert(p[0] == q[0]);
    if n > 0 {
        assert(s[n - 1].1 <= p.len());
        assert(q.subrange(s[n - 1].0, s[n - 1].1) =~= p.subrange(s[n - 1].0, s[n - 1].1));
        assert(q.take(head(q).len() as int) =~= p.take(head(p).len() as int));
    }
    if n > 1 {
        assert(s[n - 2].1 <= p.len());
        assert(q.take(s[n - 2].1) =~= p.take(s[n - 2].1));
    }
    if p.len() > 1 {
        assert(p[1] == q[1]);
    }
}

/// Joining puts exactly one separator between a directory and what is taken from it,
/// unless what is taken starts at the root and stands for itself.
pub proof fn joining_puts_one_separator(base: Seq<u8>, tail: Seq<u8>)
    ensures
        tail.len() > 0 && tail[0] == 47 ==> joined(base, tail) == tail,
        (tail.len() == 0 || tail[0] != 47) && base.len() > 0 && base.last() != 47 ==> joined(
            base,
            tail,
        ) == base + seq![47u8] + tail,
        (tail.len() == 0 || tail[0] != 47) && (base.len() == 0 || base.last() == 47) ==> joined(
            base,
            tail,
        ) == base + tail,
{
    assert(base.push(SLASH) =~= base + seq![47u8]);
}

/// A path lies below a directory exactly where the components of the directory come first
/// among its own.
pub proof fn below_means_starting_with(p: Seq<u8>, base: Seq<u8>)
    ensures
        below(p, base) is Some <==> components(base).len() <= components(p).len() && forall|i: int|
            0 <= i < components(base).len() ==> #[trigger] components(base)[i] == components(p)[i],
        starts_with(p, base) <==> below(p, base) is Some,
        same_path(p, base) <==> components(p) == components(base),
{
    if components(base).len() <= components(p).len() && forall|i: int|
        0 <= i < components(base).len() ==> #[trigger] components(base)[i] == components(p)[i] {
        assert(components(base) =~= components(p).take(components(base).len() as int));
    }
    if components(base).is_prefix_of(components(p)) {
        assert forall|i: int| 0 <= i < components(base).len() implies #[trigger] components(base)[i]
            == components(p)[i] by {
            assert(components(base)[i] == components(p).take(components(base).len() as int)[i]);
        }
    }
}

/// A path is absolute where it starts with a slash; on Windows, where it starts with a
/// drive, a colon and a separator, or with two separators and two names.
pub proof fn absolute_paths_start_at_a_root(p: Seq<u8>)
    ensures
        absolute(p, false) <==> p.len() > 0 && p[0] == 47,
        p.len() >= 3 && p[1] == 58 && (p[2] == 47 || p[2] == 92) ==> (absolute(p, true) <==> 65
            <= p[0] <= 90 || 97 <= p[0] <= 122),
        absolute(p, true) ==> p.len() >= 3 && (p[1] == 58 || p[1] == 47 || p[1] == 92),
        p.len() > 0 && p[0] != 47 && p[0] != 92 && absolute(p, true) ==> (65 <= p[0] <= 90 || 97
            <= p[0] <= 122) && p[1] == 58 && (p[2] == 47 || p[2] == 92),
{
}

/// On Windows a path that starts with two separators is absolute where two names follow
/// with a separator between them.
pub proof fn shares_are_absolute(p: Seq<u8>, k: int)
    requires
        2 < k < p.len() - 1,
        p[0] == 47 || p[0] == 92,
        p[1] == 47 || p[1] == 92,
        p[k] == 47 || p[k] == 92,
        forall|j: int| 2 <= j < k ==> #[trigger] p[j] != 47 && p[j] != 92,
    ensures
        absolute(p, true) <==> p[k + 1] != 47 && p[k + 1] != 92,
{
    assert(parts(p[0]) && parts(p[1]) && parts(p[k]));
    assert forall|j: int| 2 <= j < k implies !parts(#[trigger] p[j]) by {}
    if on_share(p) {
        let i = choose|i: int|
            2 < i < p.len() - 1 && parts(p[0]) && parts(p[1]) && parts(#[trigger] p[i]) && !parts(
                p[i + 1],
            ) && forall|j: int| 2 <= j < i ==> !parts(#[trigger] p[j]);
        if i < k {
            assert(!parts(p[i]));
        } else if k < i {
            assert(!parts(p[k]));
        }
    }
}

/// Every path lies below the empty path, whole, where it starts and ends with a name.
pub proof fn all_lies_below_the_empty_path(p: Seq<u8>)
    requires
        trim_path(p),
    ensures
        below(p, Seq::empty()) == Some(p),
{
    lemma_last_step(p, 0);
    the_shortest_paths();
    assert(components(Seq::<u8>::empty()) =~= Seq::<Seq<u8>>::empty());
    assert(components(Seq::<u8>::empty()) =~= components(p).take(0));
    assert(p.take(p.len() as int) =~= p);
}

/// How a directory is written makes no difference to what lies below it, and neither does
/// a separator at the end of the path.
pub proof fn spelling_makes_no_difference(p: Seq<u8>, base: Seq<u8>, other: Seq<u8>)
    requires
        components(base) == components(other),
        p.len() > 0,
    ensures
        below(p, base) == below(p, other),
        starts_with(p, base) == starts_with(p, other),
        below(p.push(47), base) == below(p, base),
        below(p + seq![47u8, 46u8], base) == below(p, base),
{
    let n = p.len() as int;
    let q = p.push(47);
    let r = p + seq![47u8, 46u8];
    let none = Seq::<(int, int)>::empty();
    endings_make_no_difference(p);
    assert(p.is_prefix_of(q));
    lemma_components_at_cut(p, q);
    assert(steps_from(q, n + 1) =~= none);
    assert(steps_from(q, n) =~= none);
    assert(steps(q) =~= steps(p));
    lemma_same_below(p, q, base);
    assert(r[n] == 47 && r[n + 1] == 46);
    assert(p.is_prefix_of(r));
    lemma_components_at_cut(p, r);
    lemma_step_end(r, n + 2);
    assert(r.subrange(n + 1, n + 2) =~= seq![DOT]);
    assert(steps_from(r, n + 2) =~= none);
    assert(steps_from(r, n + 1) =~= none);
    assert(steps_from(r, n) =~= none);
    assert(steps(r) =~= steps(p));
    lemma_same_below(p, r, base);
}

proof fn lemma_same_below(p: Seq<u8>, q: Seq<u8>, base: Seq<u8>)
    requires
        p.len() > 0,
        cut(p, q),
        head(q) == head(p),
        steps(q) == steps(p),
        components(q) == components(p),
    ensures
        below(q, base) == below(p, base),
{
    let s = steps(p);
    let n = s.len() as int;
    lemma_steps_from(p, 0);
    assert(q.take(head(q).len() as int) =~= p.take(head(p).len() as int));
    if n > 0 {
        assert(s[n - 1].1 <= p.len());
        assert(q.take(s.last().1) =~= p.take(s.last().1));
        let used = components(base).len() - head(p).len();
        if 0 <= used < n {
            lemma_steps_in_order(p, 0, used, n - 1);
            assert(0 <= s[used].0);
            assert(q.subrange(s[used].0, s.last().1) =~= p.subrange(s[used].0, s.last().1));
        }
    }
}

} // verus!
