//! Stable sorting by a text key, in the order of the keys' UTF-8 bytes.

use vstd::prelude::*;
use vstd::utf8::*;

verus! {

/// Whether `a` comes before `b` or equals it, byte by byte.
pub open spec fn bytes_le(a: Seq<u8>, b: Seq<u8>) -> bool
    decreases a.len(),
{
    if a.len() == 0 {
        true
    } else if b.len() == 0 || a[0] > b[0] {
        false
    } else {
        a[0] < b[0] || bytes_le(a.skip(1), b.skip(1))
    }
}

/// Whether the text `a` comes before `b` or equals it.
pub open spec fn text_le(a: Seq<char>, b: Seq<char>) -> bool {
    bytes_le(encode_utf8(a), encode_utf8(b))
}

/// Things that are listed in the order of a text.
pub trait Keyed: View + Sized {
    spec fn key_in(v: Self::V) -> Seq<char>;

    fn key(&self) -> (r: &str)
        ensures
            r@ == Self::key_in(self@),
    ;
}

/// The views of the elements of a vector.
pub open spec fn rows<T: View>(v: Seq<T>) -> Seq<T::V> {
    v.map_values(|t: T| t@)
}

/// `s` with `x` put in before the elements at its end that have a greater key.
pub open spec fn insert<A>(s: Seq<A>, x: A, key: spec_fn(A) -> Seq<char>) -> Seq<A>
    decreases s.len(),
{
    if s.len() == 0 || text_le(key(s.last()), key(x)) {
        s.push(x)
    } else {
        insert(s.drop_last(), x, key).push(s.last())
    }
}

/// `s` in the order of its keys; elements with equal keys keep their order.
pub open spec fn arranged<A>(s: Seq<A>, key: spec_fn(A) -> Seq<char>) -> Seq<A>
    decreases s.len(),
{
    if s.len() == 0 {
        s
    } else {
        insert(arranged(s.drop_last(), key), s.last(), key)
    }
}

/// Two sequences merged from their ends; on equal keys the element of `a` comes first.
pub open spec fn merged<A>(a: Seq<A>, b: Seq<A>, key: spec_fn(A) -> Seq<char>) -> Seq<A>
    decreases a.len() + b.len(),
{
    if a.len() == 0 {
        b
    } else if b.len() == 0 {
        a
    } else if text_le(key(a.last()), key(b.last())) {
        merged(a, b.drop_last(), key).push(b.last())
    } else {
        merged(a.drop_last(), b, key).push(a.last())
    }
}

/// The order of byte strings is total.
pub proof fn bytes_le_total(a: Seq<u8>, b: Seq<u8>)
    ensures
        bytes_le(a, b) || bytes_le(b, a),
    decreases a.len(),
{
    if a.len() > 0 && b.len() > 0 {
        bytes_le_total(a.skip(1), b.skip(1));
    }
}

/// The order of byte strings is transitive.
pub proof fn bytes_le_transitive(a: Seq<u8>, b: Seq<u8>, c: Seq<u8>)
    requires
        bytes_le(a, b),
        bytes_le(b, c),
    ensures
        bytes_le(a, c),
    decreases a.len(),
{
    if a.len() > 0 && a[0] == b[0] && b[0] == c[0] {
        bytes_le_transitive(a.skip(1), b.skip(1), c.skip(1));
    }
}

/// Byte strings that are not after one another are equal.
pub proof fn bytes_le_antisymmetric(a: Seq<u8>, b: Seq<u8>)
    requires
        bytes_le(a, b),
        bytes_le(b, a),
    ensures
        a == b,
    decreases a.len(),
{
    if a.len() > 0 {
        bytes_le_antisymmetric(a.skip(1), b.skip(1));
        assert(a =~= seq![a[0]] + a.skip(1));
        assert(b =~= seq![b[0]] + b.skip(1));
    } else {
        assert(a =~= b);
    }
}

proof fn lemma_insert_merged<A>(a: Seq<A>, b: Seq<A>, x: A, key: spec_fn(A) -> Seq<char>)
    ensures
        insert(merged(a, b, key), x, key) == merged(a, insert(b, x, key), key),
    decreases a.len() + b.len(),
{
    if a.len() == 0 {
    } else if b.len() == 0 || text_le(key(b.last()), key(x)) {
        let bx = b.push(x);
        assert(insert(b, x, key) == bx);
        assert(bx.drop_last() =~= b);
        if text_le(key(a.last()), key(x)) {
            assert(merged(a, bx, key) == merged(a, b, key).push(x));
        } else {
            bytes_le_total(encode_utf8(key(a.last())), encode_utf8(key(x)));
            if b.len() > 0 && text_le(key(a.last()), key(b.last())) {
                bytes_le_transitive(
                    encode_utf8(key(a.last())),
                    encode_utf8(key(b.last())),
                    encode_utf8(key(x)),
                );
            }
            let m = merged(a.drop_last(), b, key);
            if b.len() == 0 {
                assert(a =~= a.drop_last().push(a.last()));
                if a.drop_last().len() == 0 {
                    assert(m =~= a.drop_last());
                }
            }
            assert(merged(a, b, key) == m.push(a.last()));
            assert(m.push(a.last()).drop_last() =~= m);
            lemma_insert_merged(a.drop_last(), b, x, key);
        }
    } else {
        let rest = insert(b.drop_last(), x, key);
        let bx = rest.push(b.last());
        assert(insert(b, x, key) == bx);
        assert(bx.drop_last() =~= rest);
        bytes_le_total(encode_utf8(key(b.last())), encode_utf8(key(x)));
        if text_le(key(a.last()), key(b.last())) {
            let m = merged(a, b.drop_last(), key);
            assert(merged(a, b, key) == m.push(b.last()));
            assert(m.push(b.last()).drop_last() =~= m);
            lemma_insert_merged(a, b.drop_last(), x, key);
        } else {
            if text_le(key(a.last()), key(x)) {
                bytes_le_transitive(
                    encode_utf8(key(a.last())),
                    encode_utf8(key(x)),
                    encode_utf8(key(b.last())),
                );
            }
            let m = merged(a.drop_last(), b, key);
            assert(merged(a, b, key) == m.push(a.last()));
            assert(m.push(a.last()).drop_last() =~= m);
            lemma_insert_merged(a.drop_last(), b, x, key);
        }
    }
}

/// Arranging two halves and merging them arranges the whole.
proof fn lemma_arranged_halves<A>(a: Seq<A>, b: Seq<A>, key: spec_fn(A) -> Seq<char>)
    ensures
        arranged(a + b, key) == merged(arranged(a, key), arranged(b, key), key),
    decreases b.len(),
{
    if b.len() == 0 {
        assert(a + b =~= a);
        if arranged(a, key).len() == 0 {
            assert(arranged(a, key) =~= arranged(b, key));
        }
    } else {
        assert((a + b).drop_last() =~= a + b.drop_last());
        lemma_arranged_halves(a, b.drop_last(), key);
        lemma_insert_merged(arranged(a, key), arranged(b.drop_last(), key), b.last(), key);
    }
}

/// Whether the keys of `s` never descend.
pub open spec fn ascending<A>(s: Seq<A>, key: spec_fn(A) -> Seq<char>) -> bool {
    forall|i: int, j: int| 0 <= i < j < s.len() ==> text_le(key(#[trigger] s[i]), key(#[trigger] s[j]))
}

proof fn lemma_insert_ascending<A>(s: Seq<A>, x: A, key: spec_fn(A) -> Seq<char>)
    requires
        ascending(s, key),
    ensures
        ascending(insert(s, x, key), key),
        insert(s, x, key).to_multiset() == s.to_multiset().insert(x),
        insert(s, x, key).len() == s.len() + 1,
        forall|y: A| s.contains(y) ==> insert(s, x, key).contains(y),
        forall|i: int|
            0 <= i < insert(s, x, key).len() ==> (#[trigger] insert(s, x, key)[i]) == x || s.contains(
                insert(s, x, key)[i],
            ),
    decreases s.len(),
{
    broadcast use vstd::seq_lib::group_to_multiset_ensures;

    let r = insert(s, x, key);
    if s.len() == 0 || text_le(key(s.last()), key(x)) {
        assert forall|i: int, j: int| 0 <= i < j < r.len() implies text_le(
            key(#[trigger] r[i]),
            key(#[trigger] r[j]),
        ) by {
            if j == s.len() && i < s.len() - 1 {
                bytes_le_transitive(
                    encode_utf8(key(s[i])),
                    encode_utf8(key(s.last())),
                    encode_utf8(key(x)),
                );
            }
        }
        assert forall|y: A| s.contains(y) implies r.contains(y) by {
            let k = s.index_of(y);
            assert(r[k] == y);
        }
    } else {
        let front = s.drop_last();
        let q = insert(front, x, key);
        lemma_insert_ascending(front, x, key);
        bytes_le_total(encode_utf8(key(s.last())), encode_utf8(key(x)));
        assert forall|i: int, j: int| 0 <= i < j < r.len() implies text_le(
            key(#[trigger] r[i]),
            key(#[trigger] r[j]),
        ) by {
            if j == q.len() {
                assert(r[i] == q[i]);
                if q[i] != x {
                    let k = front.index_of(q[i]);
                    assert(s[k] == q[i]);
                }
            } else {
                assert(r[i] == q[i] && r[j] == q[j]);
            }
        }
        assert(s =~= front.push(s.last()));
        assert(r.to_multiset() =~= s.to_multiset().insert(x));
        assert forall|y: A| s.contains(y) implies r.contains(y) by {
            let k = s.index_of(y);
            if k < front.len() {
                assert(front[k] == y);
                assert(front.contains(y));
                let m = q.index_of(y);
                assert(r[m] == y);
            } else {
                assert(r[q.len() as int] == y);
            }
        }
        assert forall|i: int| 0 <= i < r.len() implies (#[trigger] r[i]) == x || s.contains(r[i]) by {
            if i < q.len() {
                assert(r[i] == q[i]);
                if q[i] != x {
                    let k = front.index_of(q[i]);
                    assert(s[k] == q[i]);
                }
            } else {
                assert(s[s.len() - 1] == r[i]);
            }
        }
    }
}

/// An arrangement has ascending keys and the same elements as what was arranged.
pub proof fn arranged_ascending<A>(s: Seq<A>, key: spec_fn(A) -> Seq<char>)
    ensures
        ascending(arranged(s, key), key),
        arranged(s, key).to_multiset() == s.to_multiset(),
        arranged(s, key).len() == s.len(),
    decreases s.len(),
{
    broadcast use vstd::seq_lib::group_to_multiset_ensures;

    if s.len() > 0 {
        arranged_ascending(s.drop_last(), key);
        lemma_insert_ascending(arranged(s.drop_last(), key), s.last(), key);
        assert(s =~= s.drop_last().push(s.last()));
    }
}

/// Putting an element in adds it and takes nothing away.
proof fn lemma_insert_kept<A>(s: Seq<A>, x: A, key: spec_fn(A) -> Seq<char>)
    ensures
        insert(s, x, key).to_multiset() == s.to_multiset().insert(x),
    decreases s.len(),
{
    s.to_multiset_ensures();
    if s.len() > 0 && !text_le(key(s.last()), key(x)) {
        let t = s.drop_last();
        lemma_insert_kept(t, x, key);
        t.to_multiset_ensures();
        insert(t, x, key).to_multiset_ensures();
        assert(s =~= t.push(s.last()));
        assert(insert(s, x, key).to_multiset() =~= s.to_multiset().insert(x));
    }
}

/// Arranging neither adds nor loses anything.
pub proof fn arranged_same_elements<A>(s: Seq<A>, key: spec_fn(A) -> Seq<char>)
    ensures
        arranged(s, key).to_multiset() == s.to_multiset(),
        arranged(s, key).len() == s.len(),
    decreases s.len(),
{
    if s.len() > 0 {
        let t = s.drop_last();
        arranged_same_elements(t, key);
        lemma_insert_kept(arranged(t, key), s.last(), key);
        t.to_multiset_ensures();
        assert(s =~= t.push(s.last()));
    }
    s.to_multiset_ensures();
    arranged(s, key).to_multiset_ensures();
}

/// Filtering a sequence with one more element at its end.
pub proof fn lemma_filter_push<A>(s: Seq<A>, x: A, p: spec_fn(A) -> bool)
    ensures
        s.push(x).filter(p) == if p(x) {
            s.filter(p).push(x)
        } else {
            s.filter(p)
        },
{
    reveal(Seq::filter);
    assert(s.push(x).drop_last() =~= s);
}

/// A filter keeps exactly the elements that satisfy its test.
pub proof fn filter_keeps<A>(s: Seq<A>, p: spec_fn(A) -> bool, x: A)
    ensures
        s.filter(p).contains(x) == (s.contains(x) && p(x)),
    decreases s.len(),
{
    if s.len() == 0 {
        reveal(Seq::filter);
        assert(s.filter(p) =~= Seq::<A>::empty());
    } else {
        let front = s.drop_last();
        let last = s.last();
        assert(s =~= front.push(last));
        filter_keeps(front, p, x);
        lemma_filter_push(front, last, p);
        let kept = front.filter(p);
        assert(front.push(last).contains(x) == (front.contains(x) || last == x)) by {
            if front.contains(x) {
                let i = choose|i: int| 0 <= i < front.len() && front[i] == x;
                assert(front.push(last)[i] == x);
            }
            assert(front.push(last)[front.len() as int] == last);
        }
        assert(kept.push(last).contains(x) == (kept.contains(x) || last == x)) by {
            if kept.contains(x) {
                let i = choose|i: int| 0 <= i < kept.len() && kept[i] == x;
                assert(kept.push(last)[i] == x);
            }
            assert(kept.push(last)[kept.len() as int] == last);
        }
    }
}

proof fn lemma_insert_stable<A>(s: Seq<A>, x: A, key: spec_fn(A) -> Seq<char>, k: Seq<char>)
    requires
        ascending(s, key),
    ensures
        insert(s, x, key).filter(|y: A| key(y) == k) == s.push(x).filter(|y: A| key(y) == k),
    decreases s.len(),
{
    let p = |y: A| key(y) == k;
    if s.len() > 0 && !text_le(key(s.last()), key(x)) {
        let front = s.drop_last();
        let last = s.last();
        let q = insert(front, x, key);
        lemma_insert_stable(front, x, key, k);
        lemma_filter_push(q, last, p);
        lemma_filter_push(front, x, p);
        lemma_filter_push(s, x, p);
        lemma_filter_push(front, last, p);
        assert(s =~= front.push(last));
        assert(q.filter(p) == front.push(x).filter(p));
        bytes_le_total(encode_utf8(key(last)), encode_utf8(key(x)));
        assert(insert(s, x, key) == q.push(last));
    }
}

/// Elements with the same key keep their order in an arrangement.
pub proof fn arranged_stable<A>(s: Seq<A>, key: spec_fn(A) -> Seq<char>, k: Seq<char>)
    ensures
        arranged(s, key).filter(|y: A| key(y) == k) == s.filter(|y: A| key(y) == k),
    decreases s.len(),
{
    if s.len() > 0 {
        let front = s.drop_last();
        let p = |y: A| key(y) == k;
        arranged_stable(front, key, k);
        arranged_ascending(front, key);
        lemma_insert_stable(arranged(front, key), s.last(), key, k);
        lemma_filter_push(arranged(front, key), s.last(), p);
        lemma_filter_push(front, s.last(), p);
        assert(s =~= front.push(s.last()));
    }
}

/// Whether the text `a` comes before `b` or equals it.
pub fn comes_first(a: &str, b: &str) -> (r: bool)
    ensures
        r == text_le(a@, b@),
{
    let x = a.as_bytes();
    let y = b.as_bytes();
    let mut i: usize = 0;
    assert(x@.skip(0) =~= x@);
    assert(y@.skip(0) =~= y@);
    while i < x.len()
        invariant
            i <= x@.len(),
            i <= y@.len(),
            x@ == encode_utf8(a@),
            y@ == encode_utf8(b@),
            bytes_le(x@, y@) == bytes_le(x@.skip(i as int), y@.skip(i as int)),
        decreases x@.len() - i,
    {
        if i == y.len() || x[i] > y[i] {
            return false;
        }
        if x[i] < y[i] {
            return true;
        }
        assert(x@.skip(i as int).skip(1) =~= x@.skip(i + 1));
        assert(y@.skip(i as int).skip(1) =~= y@.skip(i + 1));
        i = i + 1;
    }
    true
}

/// Two vectors merged from their ends.
fn merge<T: Keyed>(a: Vec<T>, b: Vec<T>) -> (r: Vec<T>)
    ensures
        rows(r@) == merged(rows(a@), rows(b@), |v: T::V| T::key_in(v)),
{
    let ghost key = |v: T::V| T::key_in(v);
    let mut a = a;
    let mut b = b;
    let ghost whole = merged(rows(a@), rows(b@), key);
    let mut back: Vec<T> = Vec::new();
    assert(rows(back@).reverse() =~= Seq::<T::V>::empty());
    assert(whole + Seq::<T::V>::empty() =~= whole);
    while a.len() > 0 && b.len() > 0
        invariant
            key == (|v: T::V| T::key_in(v)),
            whole == merged(rows(a@), rows(b@), key) + rows(back@).reverse(),
        decreases a@.len() + b@.len(),
    {
        let ghost ra = rows(a@);
        let ghost rb = rows(b@);
        let ghost done = rows(back@).reverse();
        let first = comes_first(a[a.len() - 1].key(), b[b.len() - 1].key());
        assert(ra.last() == a@.last()@);
        assert(rb.last() == b@.last()@);
        let next = if first {
            b.pop()
        } else {
            a.pop()
        };
        match next {
            Some(t) => {
                assert(rows(a@) =~= if first { ra } else { ra.drop_last() });
                assert(rows(b@) =~= if first { rb.drop_last() } else { rb });
                let ghost m = merged(rows(a@), rows(b@), key);
                assert(m.push(t@) + done =~= m + (seq![t@] + done));
                back.push(t);
                assert(rows(back@).reverse() =~= seq![t@] + done);
            },
            None => {},
        }
    }
    let ghost m = merged(rows(a@), rows(b@), key);
    let mut rest = if a.len() > 0 {
        a
    } else {
        b
    };
    assert(rows(rest@) =~= m);
    while back.len() > 0
        invariant
            whole == rows(rest@) + rows(back@).reverse(),
        decreases back@.len(),
    {
        let ghost rb = rows(back@);
        let ghost rr = rows(rest@);
        match back.pop() {
            Some(t) => {
                assert(rows(back@) =~= rb.drop_last());
                assert(rb.reverse() =~= seq![t@] + rows(back@).reverse());
                rest.push(t);
                assert(rows(rest@) =~= rr.push(t@));
                assert(rr + (seq![t@] + rows(back@).reverse()) =~= rr.push(t@) + rows(
                    back@,
                ).reverse());
            },
            None => {},
        }
    }
    assert(rows(rest@) + rows(back@).reverse() =~= rows(rest@));
    rest
}

/// A vector in the order of its keys.
pub fn arrange<T: Keyed>(v: Vec<T>) -> (r: Vec<T>)
    ensures
        rows(r@) == arranged(rows(v@), |w: T::V| T::key_in(w)),
    decreases v@.len(),
{
    let ghost key = |w: T::V| T::key_in(w);
    let n = v.len();
    if n < 2 {
        proof {
            reveal_with_fuel(arranged, 3);
            reveal_with_fuel(insert, 2);
            if n == 1 {
                assert(rows(v@).drop_last() =~= Seq::<T::V>::empty());
                assert(arranged(rows(v@), key) =~= rows(v@));
            }
        }
        return v;
    }
    let mut front = v;
    let back = front.split_off(n / 2);
    assert(rows(v@) =~= rows(front@) + rows(back@));
    proof {
        lemma_arranged_halves(rows(front@), rows(back@), key);
    }
    merge(arrange(front), arrange(back))
}

/// What a filter keeps of a list in order is in order.
pub proof fn lemma_filter_ascending<A>(
    s: Seq<A>,
    key: spec_fn(A) -> Seq<char>,
    p: spec_fn(A) -> bool,
)
    requires
        ascending(s, key),
    ensures
        ascending(s.filter(p), key),
    decreases s.len(),
{
    if s.len() == 0 {
        reveal(Seq::filter);
    } else {
        let front = s.drop_last();
        let x = s.last();
        assert(s =~= front.push(x));
        assert forall|i: int, j: int| 0 <= i < j < front.len() implies text_le(
            key(#[trigger] front[i]),
            key(#[trigger] front[j]),
        ) by {
            assert(front[i] == s[i] && front[j] == s[j]);
        }
        lemma_filter_ascending(front, key, p);
        lemma_filter_push(front, x, p);
        let kept = front.filter(p);
        if p(x) {
            let all = kept.push(x);
            assert forall|i: int, j: int| 0 <= i < j < all.len() implies text_le(
                key(#[trigger] all[i]),
                key(#[trigger] all[j]),
            ) by {
                assert(all[i] == kept[i]);
                if j == kept.len() {
                    filter_keeps(front, p, kept[i]);
                    assert(kept.contains(kept[i]));
                    let k = choose|k: int| 0 <= k < front.len() && front[k] == kept[i];
                    assert(s[k] == kept[i] && s[s.len() - 1] == x);
                } else {
                    assert(all[j] == kept[j]);
                }
            }
        }
    }
}

/// The first byte that differs decides which of two byte strings comes first, and a byte
/// string comes before those that go on after it.
pub proof fn the_first_difference_decides(a: Seq<u8>, b: Seq<u8>, k: int)
    requires
        0 <= k <= a.len(),
        k <= b.len(),
        a.take(k) == b.take(k),
    ensures
        k == a.len() ==> bytes_le(a, b),
        k == a.len() && k < b.len() ==> !bytes_le(b, a),
        k < a.len() && k < b.len() && a[k] < b[k] ==> bytes_le(a, b) && !bytes_le(b, a),
    decreases k,
{
    if k > 0 {
        assert(a[0] == a.take(k)[0] && b[0] == b.take(k)[0]);
        let x = a.skip(1);
        let y = b.skip(1);
        assert(x.take(k - 1) =~= y.take(k - 1)) by {
            assert forall|i: int| 0 <= i < k - 1 implies #[trigger] x.take(k - 1)[i] == y.take(
                k - 1,
            )[i] by {
                assert(a.take(k)[i + 1] == a[i + 1]);
                assert(b.take(k)[i + 1] == b[i + 1]);
            }
        }
        the_first_difference_decides(x, y, k - 1);
    }
}

/// Texts are compared by their bytes.
pub proof fn texts_are_compared_by_their_bytes(a: Seq<char>, b: Seq<char>, k: int)
    requires
        0 <= k <= encode_utf8(a).len(),
        k <= encode_utf8(b).len(),
        encode_utf8(a).take(k) == encode_utf8(b).take(k),
    ensures
        k == encode_utf8(a).len() ==> text_le(a, b),
        k == encode_utf8(a).len() && k < encode_utf8(b).len() ==> !text_le(b, a),
        k < encode_utf8(a).len() && k < encode_utf8(b).len() && encode_utf8(a)[k] < encode_utf8(
            b,
        )[k] ==> text_le(a, b) && !text_le(b, a),
{
    the_first_difference_decides(encode_utf8(a), encode_utf8(b), k);
}

/// A filter keeps of two lists, one after the other, what it keeps of each.
pub proof fn lemma_filter_parts<A>(a: Seq<A>, b: Seq<A>, p: spec_fn(A) -> bool)
    ensures
        (a + b).filter(p) == a.filter(p) + b.filter(p),
    decreases b.len(),
{
    if b.len() == 0 {
        reveal(Seq::filter);
        assert(a + b =~= a);
        assert(a.filter(p) + b.filter(p) =~= a.filter(p));
    } else {
        let fewer = b.drop_last();
        let x = b.last();
        lemma_filter_parts(a, fewer, p);
        assert(a + b =~= (a + fewer).push(x));
        assert(b =~= fewer.push(x));
        lemma_filter_push(a + fewer, x, p);
        lemma_filter_push(fewer, x, p);
        assert((a + b).filter(p) =~= a.filter(p) + b.filter(p));
    }
}

} // verus!
