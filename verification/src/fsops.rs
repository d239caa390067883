//! Desk files: which file a request names, whether it may be touched, and what a
//! directory listing shows. What the file system says comes in as plain values.

use vstd::prelude::*;
use vstd::utf8::*;

use crate::order;
use crate::order::Keyed;
use crate::paths;
use crate::reply;
use crate::text;

verus! {

/// The largest file that can be written, in bytes.
pub const MAX_FILE: usize = 12_582_912;

/// What the file system says of a sandbox root and of a path in question.
#[derive(Debug)]
pub struct Lookup {
    /// The root with all links resolved, if that was possible.
    pub root_canon: Option<Vec<u8>>,
    /// Whether the path in question exists.
    pub exists: bool,
    /// The path in question with all links resolved, if that was possible.
    pub canon: Option<Vec<u8>>,
    /// Its parent with all links resolved, if that was possible.
    pub parent_canon: Option<Vec<u8>>,
    /// Whether the path in question is a directory.
    pub is_dir: bool,
}

/// An entry of a directory listing.
#[derive(Debug)]
pub struct TreeEntry {
    pub path: String,
    pub dir: bool,
    pub size: u64,
}

/// What the file system says of an entry.
#[derive(Clone, Copy, Debug)]
pub struct Meta {
    pub dir: bool,
    pub file: bool,
    pub len: u64,
}

/// An entry met on a walk below a directory.
#[derive(Debug)]
pub struct WalkEntry {
    pub path: Vec<u8>,
    pub meta: Result<Meta, String>,
}

/// Where a file is to be written, and the directory that has to be there.
#[derive(Debug)]
pub struct WritePlan {
    pub dest: String,
    pub parent: Option<Vec<u8>>,
}

/// What is to be removed.
#[derive(Debug)]
pub enum Removal {
    Directory(String),
    File(String),
}

pub struct LookupV {
    pub root_canon: Option<Seq<u8>>,
    pub exists: bool,
    pub canon: Option<Seq<u8>>,
    pub parent_canon: Option<Seq<u8>>,
    pub is_dir: bool,
}

pub struct TreeEntryV {
    pub path: Seq<char>,
    pub dir: bool,
    pub size: u64,
}

pub struct WalkEntryV {
    pub path: Seq<u8>,
    pub meta: Result<Meta, Seq<char>>,
}

pub struct WritePlanV {
    pub dest: Seq<char>,
    pub parent: Option<Seq<u8>>,
}

pub enum RemovalV {
    Directory(Seq<char>),
    File(Seq<char>),
}

/// The view of optional bytes.
pub open spec fn opt_bytes(b: Option<Vec<u8>>) -> Option<Seq<u8>> {
    match b {
        Some(v) => Some(v@),
        None => None,
    }
}

impl View for Lookup {
    type V = LookupV;

    open spec fn view(&self) -> LookupV {
        LookupV {
            root_canon: opt_bytes(self.root_canon),
            exists: self.exists,
            canon: opt_bytes(self.canon),
            parent_canon: opt_bytes(self.parent_canon),
            is_dir: self.is_dir,
        }
    }
}

impl View for TreeEntry {
    type V = TreeEntryV;

    open spec fn view(&self) -> TreeEntryV {
        TreeEntryV { path: self.path@, dir: self.dir, size: self.size }
    }
}

impl View for WalkEntry {
    type V = WalkEntryV;

    open spec fn view(&self) -> WalkEntryV {
        WalkEntryV {
            path: self.path@,
            meta: match self.meta {
                Ok(m) => Ok(m),
                Err(e) => Err(e@),
            },
        }
    }
}

impl View for WritePlan {
    type V = WritePlanV;

    open spec fn view(&self) -> WritePlanV {
        WritePlanV { dest: self.dest@, parent: opt_bytes(self.parent) }
    }
}

impl View for Removal {
    type V = RemovalV;

    open spec fn view(&self) -> RemovalV {
        match *self {
            Removal::Directory(s) => RemovalV::Directory(s@),
            Removal::File(s) => RemovalV::File(s@),
        }
    }
}

impl Keyed for TreeEntry {
    open spec fn key_in(v: TreeEntryV) -> Seq<char> {
        v.path
    }

    fn key(&self) -> (r: &str) {
        self.path.as_str()
    }
}

/// A resolved path, or the path itself where it could not be resolved.
pub open spec fn resolved(canon: Option<Seq<u8>>, plain: Seq<u8>) -> Seq<u8> {
    match canon {
        Some(r) => r,
        None => plain,
    }
}

/// Where a path in question lies: itself resolved if it exists, else its name in its
/// resolved parent.
pub open spec fn location(candidate: Seq<u8>, seen: LookupV) -> Seq<u8> {
    if seen.exists {
        resolved(seen.canon, candidate)
    } else {
        match paths::parent(candidate) {
            Some(parent) => paths::joined(
                resolved(seen.parent_canon, parent),
                match paths::file_name(candidate) {
                    Some(name) => name,
                    None => Seq::empty(),
                },
            ),
            None => candidate,
        }
    }
}

/// Whether a path in question lies inside the root.
pub open spec fn inside(root: Seq<u8>, candidate: Seq<u8>, seen: LookupV) -> bool {
    paths::starts_with(location(candidate, seen), resolved(seen.root_canon, root))
}

/// Whether a relative path has a step `..`, with either slash between the steps.
pub open spec fn climbs(rel: Seq<char>) -> bool {
    text::pieces(rel, |c: char| c == '/' || c == '\\').contains(".."@)
}

/// A relative text path taken from a directory.
pub open spec fn join_text(base: Seq<char>, tail: Seq<char>) -> Seq<char> {
    if base.len() > 0 && base.last() != '/' {
        base.push('/') + tail
    } else {
        base + tail
    }
}

/// The file below `root` that `rel` names.
pub open spec fn dest(root: Seq<char>, rel: Seq<char>) -> Seq<char> {
    let tail = text::drop_front(rel, |c: char| c == '/');
    if tail.len() == 0 {
        root
    } else {
        join_text(root, tail)
    }
}

/// The outcome of naming a file below a root.
pub open spec fn named(root: Seq<char>, rel: Seq<char>, seen: LookupV) -> Result<
    Seq<char>,
    Seq<char>,
> {
    if climbs(rel) || !inside(encode_utf8(root), encode_utf8(dest(root, rel)), seen) {
        Err("path escapes the sandbox"@)
    } else {
        Ok(dest(root, rel))
    }
}

/// The file that may be read.
pub open spec fn readable(root: Seq<char>, rel: Seq<char>, seen: LookupV) -> Result<
    Seq<char>,
    Seq<char>,
> {
    match named(root, rel, seen) {
        Ok(d) => if seen.is_dir {
            Err("is a directory"@)
        } else {
            Ok(d)
        },
        Err(e) => Err(e),
    }
}

/// The file that may be written with this many bytes.
pub open spec fn writable(root: Seq<char>, rel: Seq<char>, size: nat, seen: LookupV) -> Result<
    WritePlanV,
    Seq<char>,
> {
    if size > MAX_FILE {
        Err("file too large"@)
    } else {
        match named(root, rel, seen) {
            Ok(d) => Ok(WritePlanV { dest: d, parent: paths::parent(encode_utf8(d)) }),
            Err(e) => Err(e),
        }
    }
}

/// What may be removed.
pub open spec fn removable(root: Seq<char>, rel: Seq<char>, seen: LookupV) -> Result<
    RemovalV,
    Seq<char>,
> {
    match named(root, rel, seen) {
        Ok(d) => if paths::same_path(encode_utf8(d), encode_utf8(root)) {
            Err("refused"@)
        } else if seen.is_dir {
            Ok(RemovalV::Directory(d))
        } else {
            Ok(RemovalV::File(d))
        },
        Err(e) => Err(e),
    }
}

/// What a walk shows of an entry: nothing of the root itself and of what has a step
/// `.git`; else its path below the root with forward slashes.
pub open spec fn listed(root: Seq<u8>, e: WalkEntryV) -> Result<Option<TreeEntryV>, Seq<char>> {
    if paths::same_path(e.path, root) {
        Ok(None)
    } else {
        match paths::below(e.path, root) {
            None => Err("prefix not found"@),
            Some(rel) => {
                let name = text::reads_as(rel).map_values(
                    |c: char|
                        if c == '\\' {
                            '/'
                        } else {
                            c
                        },
                );
                if text::pieces(name, |c: char| c == '/').contains(".git"@) {
                    Ok(None)
                } else {
                    match e.meta {
                        Err(m) => Err(m),
                        Ok(m) => Ok(
                            Some(
                                TreeEntryV {
                                    path: name,
                                    dir: m.dir,
                                    size: if m.file {
                                        m.len
                                    } else {
                                        0
                                    },
                                },
                            ),
                        ),
                    }
                }
            },
        }
    }
}

/// What a walk shows, in the order of the walk, or the first thing that went wrong.
pub open spec fn listing(root: Seq<u8>, walk: Seq<WalkEntryV>) -> Result<
    Seq<TreeEntryV>,
    Seq<char>,
>
    decreases walk.len(),
{
    if walk.len() == 0 {
        Ok(Seq::empty())
    } else {
        match listing(root, walk.drop_last()) {
            Err(e) => Err(e),
            Ok(before) => match listed(root, walk.last()) {
                Err(e) => Err(e),
                Ok(None) => Ok(before),
                Ok(Some(t)) => Ok(before.push(t)),
            },
        }
    }
}

/// A listing by path.
pub open spec fn tree(root: Seq<u8>, walk: Seq<WalkEntryV>) -> Result<Seq<TreeEntryV>, Seq<char>> {
    match listing(root, walk) {
        Ok(v) => Ok(order::arranged(v, |t: TreeEntryV| t.path)),
        Err(e) => Err(e),
    }
}

/// The bytes of a resolved path, or of the path itself.
fn resolve(canon: &Option<Vec<u8>>, plain: &[u8]) -> (r: Vec<u8>)
    ensures
        r@ == resolved(opt_bytes(*canon), plain@),
{
    match canon {
        Some(v) => vstd::slice::slice_to_vec(v.as_slice()),
        None => vstd::slice::slice_to_vec(plain),
    }
}

/// Whether a path in question lies inside a root.
pub fn contained(root: &[u8], candidate: &[u8], seen: &Lookup) -> (r: bool)
    ensures
        r == inside(root@, candidate@, seen@),
{
    let base = resolve(&seen.root_canon, root);
    let place = if seen.exists {
        resolve(&seen.canon, candidate)
    } else {
        match paths::parent_of(candidate) {
            Some(parent) => {
                let dir = resolve(&seen.parent_canon, parent.as_slice());
                match paths::file_name_of(candidate) {
                    Some(name) => paths::join(dir.as_slice(), name.as_slice()),
                    None => {
                        let none: Vec<u8> = Vec::new();
                        assert(none@ =~= Seq::<u8>::empty());
                        paths::join(dir.as_slice(), none.as_slice())
                    },
                }
            },
            None => vstd::slice::slice_to_vec(candidate),
        }
    };
    paths::path_starts_with(place.as_slice(), base.as_slice())
}

/// The file below `root` that `rel` names, before the file system is asked about it.
pub fn destination(root: &str, rel: &str) -> (r: Result<String, String>)
    ensures
        reply::told(r) == if climbs(rel@) {
            Err::<Seq<char>, Seq<char>>("path escapes the sandbox"@)
        } else {
            Ok(dest(root@, rel@))
        },
{
    if text::has_piece(rel, '/', '\\', "..") {
        return Err("path escapes the sandbox".to_string());
    }
    let tail = text::without_leading(rel, '/');
    let ghost p = |x: char| x == '/';
    let ghost q = |c: char| c == '/';
    assert(p =~= q);
    if tail.as_str().is_empty() {
        return Ok(root.to_string());
    }
    let mut d = root.to_string();
    let v = text::chars_of(root);
    if v.len() > 0 && v[v.len() - 1] != '/' {
        d.push('/');
    }
    d.append(tail.as_str());
    Ok(d)
}

/// The file below `root` that `rel` names, if it lies inside the root.
pub fn join_rel(root: &str, rel: &str, seen: &Lookup) -> (r: Result<String, String>)
    ensures
        reply::told(r) == named(root@, rel@, seen@),
{
    match destination(root, rel) {
        Ok(d) => {
            if !contained(root.as_bytes(), d.as_str().as_bytes(), seen) {
                return Err("path escapes the sandbox".to_string());
            }
            Ok(d)
        },
        Err(e) => Err(e),
    }
}

/// The listing of what a walk below `root` met.
pub fn list_tree(root: &[u8], walk: &Vec<WalkEntry>) -> (r: Result<Vec<TreeEntry>, String>)
    ensures
        match r {
            Ok(v) => tree(root@, order::rows(walk@)) == Ok::<Seq<TreeEntryV>, Seq<char>>(
                order::rows(v@),
            ),
            Err(e) => tree(root@, order::rows(walk@)) == Err::<Seq<TreeEntryV>, Seq<char>>(e@),
        },
{
    let ghost all = order::rows(walk@);
    let mut out: Vec<TreeEntry> = Vec::new();
    let mut i: usize = 0;
    assert(all.take(0) =~= Seq::<WalkEntryV>::empty());
    assert(order::rows(out@) =~= Seq::<TreeEntryV>::empty());
    while i < walk.len()
        invariant
            i <= walk@.len(),
            all == order::rows(walk@),
            listing(root@, all.take(i as int)) == Ok::<Seq<TreeEntryV>, Seq<char>>(
                order::rows(out@),
            ),
        decreases walk@.len() - i,
    {
        assert(all.take(i + 1).drop_last() =~= all.take(i as int));
        assert(all.take(i + 1).last() == walk@[i as int]@);
        match list_entry(root, &walk[i]) {
            Err(e) => {
                proof {
                    lemma_listing_stops(root@, all, i + 1);
                }
                return Err(e);
            },
            Ok(None) => {},
            Ok(Some(t)) => {
                let ghost before = order::rows(out@);
                out.push(t);
                assert(order::rows(out@) =~= before.push(t@));
            },
        }
        i = i + 1;
    }
    assert(all.take(i as int) =~= all);
    let ghost a = |w: TreeEntryV| TreeEntry::key_in(w);
    let ghost b = |t: TreeEntryV| t.path;
    assert(a =~= b);
    Ok(order::arrange(out))
}

/// What a walk shows of an entry.
fn list_entry(root: &[u8], e: &WalkEntry) -> (r: Result<Option<TreeEntry>, String>)
    ensures
        match r {
            Ok(Some(t)) => listed(root@, e@) == Ok::<Option<TreeEntryV>, Seq<char>>(Some(t@)),
            Ok(None) => listed(root@, e@) == Ok::<Option<TreeEntryV>, Seq<char>>(None),
            Err(m) => listed(root@, e@) == Err::<Option<TreeEntryV>, Seq<char>>(m@),
        },
{
    if paths::is_same_path(e.path.as_slice(), root) {
        return Ok(None);
    }
    match paths::strip_prefix(e.path.as_slice(), root) {
        None => Err("prefix not found".to_string()),
        Some(rel) => {
            let raw = text::reading(rel.as_slice());
            let name = text::replaced(raw.as_str(), '\\', '/');
            let ghost f = |c: char|
                if c == '\\' {
                    '/'
                } else {
                    c
                };
            assert(name@ == text::reads_as(rel@).map_values(f));
            let ghost p = |c: char| c == '/' || c == '/';
            let ghost q = |c: char| c == '/';
            assert(p =~= q);
            if text::has_piece(name.as_str(), '/', '/', ".git") {
                return Ok(None);
            }
            match &e.meta {
                Err(m) => Err(m.clone()),
                Ok(m) => Ok(
                    Some(
                        TreeEntry {
                            path: name,
                            dir: m.dir,
                            size: if m.file {
                                m.len
                            } else {
                                0
                            },
                        },
                    ),
                ),
            }
        },
    }
}

/// What goes wrong early on a walk is what the walk fails with.
proof fn lemma_listing_stops(root: Seq<u8>, walk: Seq<WalkEntryV>, n: int)
    requires
        0 <= n <= walk.len(),
        listing(root, walk.take(n)) is Err,
    ensures
        listing(root, walk) == listing(root, walk.take(n)),
    decreases walk.len(),
{
    if n == walk.len() {
        assert(walk.take(n) =~= walk);
    } else {
        assert(walk.drop_last().take(n) =~= walk.take(n));
        lemma_listing_stops(root, walk.drop_last(), n);
    }
}

/// The file that may be read.
pub fn read_file(root: &str, rel: &str, seen: &Lookup) -> (r: Result<String, String>)
    ensures
        reply::told(r) == readable(root@, rel@, seen@),
{
    match join_rel(root, rel, seen) {
        Ok(d) => {
            if seen.is_dir {
                return Err("is a directory".to_string());
            }
            Ok(d)
        },
        Err(e) => Err(e),
    }
}

/// The file that may be written with `bytes`.
pub fn write_file(root: &str, rel: &str, bytes: &[u8], seen: &Lookup) -> (r: Result<
    WritePlan,
    String,
>)
    ensures
        reply::told(r) == writable(root@, rel@, bytes@.len(), seen@),
{
    if bytes.len() > MAX_FILE {
        return Err("file too large".to_string());
    }
    match join_rel(root, rel, seen) {
        Ok(d) => {
            let parent = paths::parent_of(d.as_str().as_bytes());
            Ok(WritePlan { dest: d, parent })
        },
        Err(e) => Err(e),
    }
}

/// What may be removed.
pub fn remove_path(root: &str, rel: &str, seen: &Lookup) -> (r: Result<Removal, String>)
    ensures
        reply::told(r) == removable(root@, rel@, seen@),
{
    match join_rel(root, rel, seen) {
        Ok(d) => {
            if paths::is_same_path(d.as_str().as_bytes(), root.as_bytes()) {
                return Err("refused".to_string());
            }
            if seen.is_dir {
                Ok(Removal::Directory(d))
            } else {
                Ok(Removal::File(d))
            }
        },
        Err(e) => Err(e),
    }
}

// ---------------------------------------------------------------------------
// What holds of the paths that are named
// ---------------------------------------------------------------------------

/// What is left of a text without characters at its start is its end.
proof fn lemma_drop_front(s: Seq<char>, p: spec_fn(char) -> bool)
    ensures
        ({
            let n = s.len() - text::drop_front(s, p).len();
            &&& 0 <= n <= s.len()
            &&& text::drop_front(s, p) == s.skip(n)
            &&& forall|k: int| 0 <= k < n ==> p(#[trigger] s[k])
            &&& n < s.len() ==> !p(s[n])
        }),
    decreases s.len(),
{
    if s.len() > 0 && p(s[0]) {
        let t = s.skip(1);
        lemma_drop_front(t, p);
        let n = s.len() - text::drop_front(s, p).len();
        assert(t.skip(n - 1) =~= s.skip(n));
        assert forall|k: int| 0 <= k < n implies p(#[trigger] s[k]) by {
            if k > 0 {
                assert(t[k - 1] == s[k]);
            }
        }
    } else {
        assert(s.skip(0) =~= s);
    }
}

/// The first byte of a text is a separator only where its first character is one.
proof fn lemma_not_rooted(s: Seq<char>)
    requires
        s.len() > 0,
        s[0] != '/',
    ensures
        !paths::rooted(encode_utf8(s)),
{
    if paths::rooted(encode_utf8(s)) {
        text::lemma_ascii_at(s, 0);
        let k = choose|k: int|
            0 <= k < s.len() && encode_utf8(#[trigger] s.take(k)).len() == 0 && s[k] as int
                == encode_utf8(s)[0] as int;
        if k > 0 {
            text::lemma_encode_grows(s, 0, k);
        }
        assert(s[0] == '/');
    }
}

/// The last byte of a text is a separator exactly where its last character is one.
proof fn lemma_ends_with_slash(s: Seq<char>)
    requires
        s.len() > 0,
    ensures
        encode_utf8(s).len() > 0,
        (encode_utf8(s).last() == paths::SLASH) == (s.last() == '/'),
{
    let n = s.len() - 1;
    let bytes = encode_utf8(s);
    assert(s.take(s.len() as int) =~= s);
    text::lemma_encode_grows(s, n, s.len() as int);
    if bytes.last() == paths::SLASH {
        let i = bytes.len() - 1;
        text::lemma_ascii_at(s, i);
        let k = choose|k: int|
            0 <= k < s.len() && encode_utf8(#[trigger] s.take(k)).len() == i && s[k] as int
                == bytes[i] as int;
        if k < n {
            text::lemma_encode_grows(s, k, n);
        }
        assert(s.last() == '/');
    }
    if s.last() == '/' {
        lemma_encode_slash();
        assert(s =~= s.take(n) + seq!['/']);
        text::lemma_encode_concat(s.take(n), seq!['/']);
    }
}

/// The UTF-8 form of a slash is the separator.
proof fn lemma_encode_slash()
    ensures
        encode_utf8(seq!['/']) == seq![paths::SLASH],
{
    reveal_with_fuel(encode_utf8, 2);
    assert(47u32 & 0x7f == 47u32) by (bit_vector);
    assert(seq!['/'].drop_first() =~= Seq::<char>::empty());
    assert(encode_utf8(seq!['/']) =~= seq![paths::SLASH]);
}

/// A text path below a directory is, as bytes, the path taken from the directory.
pub proof fn lemma_join_text(base: Seq<char>, tail: Seq<char>)
    requires
        tail.len() > 0,
        tail[0] != '/',
    ensures
        encode_utf8(join_text(base, tail)) == paths::joined(encode_utf8(base), encode_utf8(tail)),
{
    lemma_not_rooted(tail);
    if base.len() > 0 {
        lemma_ends_with_slash(base);
        if base.last() != '/' {
            lemma_encode_slash();
            assert(base.push('/') =~= base + seq!['/']);
            text::lemma_encode_concat(base, seq!['/']);
            text::lemma_encode_concat(base.push('/'), tail);
            assert(encode_utf8(base).push(paths::SLASH) =~= encode_utf8(base) + seq![paths::SLASH]);
        } else {
            text::lemma_encode_concat(base, tail);
        }
    } else {
        text::lemma_encode_concat(base, tail);
    }
}

/// A step `..` among the bytes of the end of a text is a step `..` of the text.
proof fn lemma_no_climbing(rel: Seq<char>, tail: Seq<char>)
    requires
        tail == text::drop_front(rel, |c: char| c == '/'),
        paths::stands_in(encode_utf8(tail), seq![paths::DOT, paths::DOT]),
    ensures
        climbs(rel),
{
    let sep = |c: char| c == '/' || c == '\\';
    let slash = |c: char| c == '/';
    let bytes = encode_utf8(tail);
    let n = rel.len() - tail.len();
    lemma_drop_front(rel, slash);
    let (a, b) = choose|a: int, b: int| #[trigger]
        paths::run_of(bytes, a, b) && bytes.subrange(a, b) == seq![paths::DOT, paths::DOT];
    let run = bytes.subrange(a, b);
    assert(run.len() == 2 && run[0] == paths::DOT && run[1] == paths::DOT);
    assert(b == a + 2);
    assert(bytes[a] == paths::DOT && bytes[a + 1] == paths::DOT);
    text::lemma_ascii_at(tail, a);
    let k = choose|k: int|
        0 <= k < tail.len() && encode_utf8(#[trigger] tail.take(k)).len() == a && tail[k] as int
            == bytes[a] as int;
    assert(tail[k] == '.');
    text::lemma_encode_grows(tail, k, k + 1);
    assert(tail.take(tail.len() as int) =~= tail);
    lemma_char_at(tail, a + 1, k + 1);
    assert(tail[k + 1] == '.');
    text::lemma_encode_grows(tail, k + 1, k + 2);
    if b < bytes.len() {
        lemma_char_at(tail, b, k + 2);
        assert(tail[k + 2] == '/');
    } else if k + 2 < tail.len() {
        text::lemma_encode_grows(tail, k + 2, tail.len() as int);
    }
    if a > 0 {
        text::lemma_ascii_at(tail, a - 1);
        let j = choose|j: int|
            0 <= j < tail.len() && encode_utf8(#[trigger] tail.take(j)).len() == a - 1 && tail[j] as int
                == bytes[a - 1] as int;
        assert(tail[j] == '/');
        text::lemma_encode_grows(tail, j, j + 1);
        if j + 1 < k {
            text::lemma_encode_grows(tail, j + 1, k);
        } else if k < j + 1 {
            text::lemma_encode_grows(tail, k, j + 1);
        }
        assert(k == j + 1);
    } else if k > 0 {
        text::lemma_encode_grows(tail, 0, k);
    }
    reveal_strlit("..");
    assert(rel[n + k] == tail[k] && rel[n + k + 1] == tail[k + 1]);
    if n + k > 0 {
        if k > 0 {
            assert(rel[n + k - 1] == tail[k - 1]);
        } else {
            assert(slash(rel[n - 1]));
        }
    }
    if n + k + 2 < rel.len() {
        assert(rel[n + k + 2] == tail[k + 2]);
    }
    text::lemma_piece(rel, sep, n + k, n + k + 2);
    assert(rel.subrange(n + k, n + k + 2) =~= ".."@);
}

/// Where the first characters take up so many bytes, the next byte of the ASCII range is
/// the next character.
proof fn lemma_char_at(s: Seq<char>, i: int, k: int)
    requires
        0 <= i < encode_utf8(s).len(),
        encode_utf8(s)[i] < 128,
        0 <= k <= s.len(),
        encode_utf8(s.take(k)).len() == i,
    ensures
        k < s.len(),
        s[k] as int == encode_utf8(s)[i] as int,
{
    text::lemma_ascii_at(s, i);
    let j = choose|j: int|
        0 <= j < s.len() && encode_utf8(#[trigger] s.take(j)).len() == i && s[j] as int
            == encode_utf8(s)[i] as int;
    if j < k {
        text::lemma_encode_grows(s, j, k);
    } else if k < j {
        text::lemma_encode_grows(s, k, j);
    }
}

/// A path that is named starts with the root of the sandbox and does not climb: none of
/// its further components is `..`. What the file system says of it lies inside the root.
pub proof fn named_paths_stay_below_the_root(root: Seq<char>, rel: Seq<char>, seen: LookupV)
    requires
        named(root, rel, seen) is Ok,
    ensures
        ({
            let base = encode_utf8(root);
            let path = encode_utf8(named(root, rel, seen)->Ok_0);
            &&& inside(base, path, seen)
            &&& paths::starts_with(path, base)
            &&& forall|i: int|
                paths::components(base).len() <= i < paths::components(path).len()
                    ==> #[trigger] paths::components(path)[i] != seq![paths::DOT, paths::DOT]
        }),
{
    let slash = |c: char| c == '/';
    let tail = text::drop_front(rel, slash);
    let base = encode_utf8(root);
    let path = encode_utf8(dest(root, rel));
    lemma_drop_front(rel, slash);
    if tail.len() > 0 {
        assert(tail[0] == rel[rel.len() - tail.len()]);
        lemma_join_text(root, tail);
        lemma_not_rooted(tail);
        paths::joining_extends(base, encode_utf8(tail));
        assert forall|i: int|
            paths::components(base).len() <= i < paths::components(path).len() implies
            #[trigger] paths::components(path)[i] != seq![paths::DOT, paths::DOT] by {
            if paths::components(path)[i] == seq![paths::DOT, paths::DOT] {
                assert(seq![paths::DOT].len() == 1);
                lemma_no_climbing(rel, tail);
            }
        }
    }
}

/// What is read, written or removed is a path that is named in the sandbox. No more than
/// twelve mebibytes are written, directories are not read, and the root itself is not
/// removed.
pub proof fn files_are_used_within_limits(
    root: Seq<char>,
    rel: Seq<char>,
    size: nat,
    seen: LookupV,
)
    ensures
        readable(root, rel, seen) matches Ok(d) ==> named(root, rel, seen) == Ok::<
            Seq<char>,
            Seq<char>,
        >(d) && !seen.is_dir,
        writable(root, rel, size, seen) matches Ok(w) ==> named(root, rel, seen) == Ok::<
            Seq<char>,
            Seq<char>,
        >(w.dest) && size <= 12 * 1024 * 1024,
        removable(root, rel, seen) matches Ok(r) ==> ({
            let d = match r {
                RemovalV::Directory(d) => d,
                RemovalV::File(d) => d,
            };
            &&& named(root, rel, seen) == Ok::<Seq<char>, Seq<char>>(d)
            &&& !paths::same_path(encode_utf8(d), encode_utf8(root))
            &&& (r is Directory) == seen.is_dir
        }),
{
}

/// Slashes in front of a relative path change nothing.
pub proof fn leading_slashes_change_nothing(
    root: Seq<char>,
    slashes: Seq<char>,
    rel: Seq<char>,
    seen: LookupV,
)
    requires
        forall|i: int| 0 <= i < slashes.len() ==> #[trigger] slashes[i] == '/',
    ensures
        dest(root, slashes + rel) == dest(root, rel),
        climbs(slashes + rel) == climbs(rel),
        named(root, slashes + rel, seen) == named(root, rel, seen),
    decreases slashes.len(),
{
    if slashes.len() == 0 {
        assert(slashes + rel =~= rel);
    } else {
        let fewer = slashes.skip(1);
        let rest = fewer + rel;
        assert forall|i: int| 0 <= i < fewer.len() implies #[trigger] fewer[i] == '/' by {
            assert(fewer[i] == slashes[i + 1]);
        }
        leading_slashes_change_nothing(root, fewer, rel, seen);
        assert(slashes + rel =~= seq!['/'] + rest);
        assert((slashes + rel).skip(1) =~= rest);
        let sep = |c: char| c == '/' || c == '\\';
        text::lemma_leading_separator('/', rest, sep);
        let before = text::pieces(rest, sep);
        let after = seq![Seq::<char>::empty()] + before;
        reveal_strlit("..");
        if before.contains(".."@) {
            let i = choose|i: int| 0 <= i < before.len() && before[i] == ".."@;
            assert(after[i + 1] == ".."@);
        }
        if after.contains(".."@) {
            let i = choose|i: int| 0 <= i < after.len() && after[i] == ".."@;
            assert(before[i - 1] == ".."@);
        }
    }
}

/// Whether the file system sees a path, and the root, in the same places at two times. It
/// does where no link was put in the way.
pub open spec fn settled_path(
    root: Seq<char>,
    rel: Seq<char>,
    seen: LookupV,
    then: LookupV,
) -> bool {
    let base = encode_utf8(root);
    let path = encode_utf8(dest(root, rel));
    &&& paths::same_path(location(path, then), location(path, seen))
    &&& paths::same_path(resolved(then.root_canon, base), resolved(seen.root_canon, base))
}

/// Where a file could be written it can be read, and is not refused, unless it is a
/// directory by then.
pub proof fn writable_files_are_readable(
    root: Seq<char>,
    rel: Seq<char>,
    size: nat,
    seen: LookupV,
    then: LookupV,
)
    requires
        writable(root, rel, size, seen) is Ok,
        settled_path(root, rel, seen, then),
    ensures
        readable(root, rel, then) == if then.is_dir {
            Err::<Seq<char>, Seq<char>>("is a directory"@)
        } else {
            Ok(writable(root, rel, size, seen)->Ok_0.dest)
        },
{
}

/// What is written under a name is what is read, and what is removed, under that name,
/// whatever the file system says each time. The directory that is made first is the one
/// that the file lies in.
pub proof fn same_name_same_file(
    root: Seq<char>,
    rel: Seq<char>,
    size: nat,
    seen: LookupV,
    then: LookupV,
)
    requires
        writable(root, rel, size, seen) is Ok,
    ensures
        ({
            let plan = writable(root, rel, size, seen)->Ok_0;
            &&& readable(root, rel, then) matches Ok(d) ==> d == plan.dest
            &&& removable(root, rel, then) matches Ok(RemovalV::File(d)) ==> d == plan.dest
            &&& plan.parent == paths::parent(encode_utf8(plan.dest))
        }),
{
}

/// Whether an entry may stand in a listing: it has no step `.git` and no backslash.
pub open spec fn presentable(e: TreeEntryV) -> bool {
    &&& !text::pieces(e.path, |c: char| c == '/').contains(".git"@)
    &&& !e.path.contains('\\')
}

/// Everything that a walk shows is presentable.
proof fn lemma_listing_presentable(root: Seq<u8>, walk: Seq<WalkEntryV>)
    ensures
        listing(root, walk) matches Ok(v) ==> forall|i: int|
            0 <= i < v.len() ==> presentable(#[trigger] v[i]),
    decreases walk.len(),
{
    if walk.len() > 0 {
        lemma_listing_presentable(root, walk.drop_last());
    }
}

/// A listing is in the order of its paths, and shows neither what lies in a directory
/// `.git` nor a backslash.
pub proof fn listings_are_presentable_and_in_order(root: Seq<u8>, walk: Seq<WalkEntryV>)
    ensures
        tree(root, walk) matches Ok(v) ==> order::ascending(v, |t: TreeEntryV| t.path) && forall|
            i: int,
        | 0 <= i < v.len() ==> presentable(#[trigger] v[i]),
{
    if let Ok(v) = listing(root, walk) {
        let key = |t: TreeEntryV| t.path;
        lemma_listing_presentable(root, walk);
        order::arranged_ascending(v, key);
        order::arranged_same_elements(v, key);
        let w = order::arranged(v, key);
        v.to_multiset_ensures();
        w.to_multiset_ensures();
        assert forall|i: int| 0 <= i < w.len() implies presentable(#[trigger] w[i]) by {
            assert(w.contains(w[i]));
            assert(w.to_multiset().count(w[i]) > 0);
            assert(v.contains(w[i]));
        }
    }
}

/// A file is named exactly where its path has no step `..` and lies inside the root, and
/// the name is the root with the path below it.
pub proof fn names_are_refused_only_outside(root: Seq<char>, rel: Seq<char>, seen: LookupV)
    ensures
        named(root, rel, seen) is Ok <==> !climbs(rel) && inside(
            encode_utf8(root),
            encode_utf8(dest(root, rel)),
            seen,
        ),
        named(root, rel, seen) matches Ok(d) ==> d == dest(root, rel),
        named(root, rel, seen) matches Err(e) ==> e == "path escapes the sandbox"@,
{
}

/// A file may be written exactly where it is named in the sandbox and is no larger than
/// twelve mebibytes, whether or not it is there already. It is written where it is named,
/// and its size is judged first.
pub proof fn files_are_written_wherever_they_are_named(
    root: Seq<char>,
    rel: Seq<char>,
    size: nat,
    seen: LookupV,
)
    ensures
        writable(root, rel, size, seen) is Ok <==> size <= 12 * 1024 * 1024 && named(
            root,
            rel,
            seen,
        ) is Ok,
        writable(root, rel, size, seen) matches Ok(plan) ==> {
            &&& Ok::<Seq<char>, Seq<char>>(plan.dest) == named(root, rel, seen)
            &&& plan.parent == paths::parent(encode_utf8(plan.dest))
        },
        size > 12 * 1024 * 1024 ==> writable(root, rel, size, seen) == Err::<
            WritePlanV,
            Seq<char>,
        >("file too large"@),
        size <= 12 * 1024 * 1024 ==> (named(root, rel, seen) matches Err(e) ==> writable(
            root,
            rel,
            size,
            seen,
        ) == Err::<WritePlanV, Seq<char>>(e)),
{
}

/// A file may be read exactly where it is named in the sandbox and is no directory.
pub proof fn files_are_read_wherever_they_are_named(root: Seq<char>, rel: Seq<char>, seen: LookupV)
    ensures
        readable(root, rel, seen) is Ok <==> named(root, rel, seen) is Ok && !seen.is_dir,
        readable(root, rel, seen) is Ok ==> readable(root, rel, seen) == named(root, rel, seen),
        named(root, rel, seen) is Err ==> readable(root, rel, seen) == named(root, rel, seen),
        named(root, rel, seen) is Ok && seen.is_dir ==> readable(root, rel, seen) == Err::<
            Seq<char>,
            Seq<char>,
        >("is a directory"@),
{
}

/// Whatever is named in the sandbox may be removed, but for the root itself: a directory as
/// a directory, anything else as a file.
pub proof fn files_are_removed_wherever_they_are_named(
    root: Seq<char>,
    rel: Seq<char>,
    seen: LookupV,
)
    ensures
        removable(root, rel, seen) is Ok <==> (named(root, rel, seen) matches Ok(d)
            && paths::components(encode_utf8(d)) != paths::components(encode_utf8(root))),
        removable(root, rel, seen) matches Ok(RemovalV::Directory(d)) ==> seen.is_dir && named(
            root,
            rel,
            seen,
        ) == Ok::<Seq<char>, Seq<char>>(d),
        removable(root, rel, seen) matches Ok(RemovalV::File(d)) ==> !seen.is_dir && named(
            root,
            rel,
            seen,
        ) == Ok::<Seq<char>, Seq<char>>(d),
        removable(root, rel, seen) matches Err(e) ==> e == match named(root, rel, seen) {
            Ok(_) => "refused"@,
            Err(why) => why,
        },
{
}

/// A file whose size is within the limit may be written whatever its size: the size plays
/// no other part.
pub proof fn only_the_limit_counts(
    root: Seq<char>,
    rel: Seq<char>,
    size: nat,
    other: nat,
    seen: LookupV,
)
    requires
        size <= 12 * 1024 * 1024,
        other <= 12 * 1024 * 1024,
    ensures
        writable(root, rel, size, seen) == writable(root, rel, other, seen),
{
}

/// A path that is there is judged by where its links lead; one that is not, by where the
/// links of its parent lead.
pub proof fn links_decide_what_is_inside(root: Seq<u8>, candidate: Seq<u8>, seen: LookupV)
    ensures
        ({
            let base = match seen.root_canon {
                Some(r) => r,
                None => root,
            };
            &&& seen.exists && seen.canon is Some ==> (inside(root, candidate, seen)
                <==> paths::components(base).is_prefix_of(paths::components(seen.canon->0)))
            &&& seen.exists && seen.canon is None ==> (inside(root, candidate, seen)
                <==> paths::components(base).is_prefix_of(paths::components(candidate)))
            &&& !seen.exists && paths::parent(candidate) is None ==> (inside(root, candidate, seen)
                <==> paths::components(base).is_prefix_of(paths::components(candidate)))
            &&& !seen.exists && paths::parent(candidate) is Some ==> ({
                let above = match seen.parent_canon {
                    Some(r) => r,
                    None => paths::parent(candidate)->0,
                };
                let name = match paths::file_name(candidate) {
                    Some(x) => x,
                    None => Seq::empty(),
                };
                inside(root, candidate, seen) <==> paths::components(base).is_prefix_of(
                    paths::components(paths::joined(above, name)),
                )
            })
        }),
{
}

/// A relative path climbs exactly where `..` stands between separators, or between one
/// and an end of the path, whichever slash separates.
pub proof fn only_whole_steps_climb(rel: Seq<char>)
    ensures
        climbs(rel) <==> exists|a: int, b: int|
            {
                &&& #[trigger] text::stretch(rel, a, b) == ".."@
                &&& 0 <= a <= b <= rel.len()
                &&& a == 0 || rel[a - 1] == '/' || rel[a - 1] == '\\'
                &&& b == rel.len() || rel[b] == '/' || rel[b] == '\\'
            },
{
    let sep = |c: char| c == '/' || c == '\\';
    reveal_strlit("..");
    let all = text::pieces(rel, sep);
    if climbs(rel) {
        let i = choose|i: int| 0 <= i < all.len() && all[i] == ".."@;
        text::pieces_are_runs(rel, sep, i);
        let (a, b) = choose|a: int, b: int|
            {
                &&& #[trigger] text::stretch(rel, a, b) == all[i]
                &&& 0 <= a <= b <= rel.len()
                &&& a == 0 || sep(rel[a - 1])
                &&& b == rel.len() || sep(rel[b])
            };
        assert(text::stretch(rel, a, b) == ".."@);
    }
    if exists|a: int, b: int|
        {
            &&& #[trigger] text::stretch(rel, a, b) == ".."@
            &&& 0 <= a <= b <= rel.len()
            &&& a == 0 || rel[a - 1] == '/' || rel[a - 1] == '\\'
            &&& b == rel.len() || rel[b] == '/' || rel[b] == '\\'
        } {
        let (a, b) = choose|a: int, b: int|
            {
                &&& #[trigger] text::stretch(rel, a, b) == ".."@
                &&& 0 <= a <= b <= rel.len()
                &&& a == 0 || rel[a - 1] == '/' || rel[a - 1] == '\\'
                &&& b == rel.len() || rel[b] == '/' || rel[b] == '\\'
            };
        let run = text::stretch(rel, a, b);
        assert(run.len() == 2 && run[0] == '.' && run[1] == '.');
        assert(rel[a] == '.' && rel[a + 1] == '.');
        text::lemma_piece(rel, sep, a, b);
    }
}

/// The file that a path names is the root and the path with one slash between them; the
/// slashes in front of the path do not count, and an empty path names the root.
pub proof fn names_join_root_and_path(root: Seq<char>, rel: Seq<char>)
    requires
        rel.len() > 0,
        rel[0] != '/',
    ensures
        root.len() > 0 && root.last() != '/' ==> dest(root, rel) == root + seq!['/'] + rel,
        root.len() > 0 && root.last() == '/' ==> dest(root, rel) == root + rel,
        root.len() == 0 ==> dest(root, rel) == rel,
        dest(root, Seq::empty()) == root,
{
    assert(root.push('/') =~= root + seq!['/']);
    if root.len() == 0 {
        assert(root + rel =~= rel);
    }
}

/// Whether an entry of a walk belongs into the listing: it is not the root, and no step of
/// its path below the root is `.git`.
pub open spec fn belongs(root: Seq<u8>, e: WalkEntryV) -> bool {
    &&& paths::components(e.path) != paths::components(root)
    &&& paths::below(e.path, root) is Some
    &&& !text::pieces(shown_path(root, e), |c: char| c == '/').contains(".git"@)
}

/// The path of an entry below the root as it is shown, with forward slashes.
pub open spec fn shown_path(root: Seq<u8>, e: WalkEntryV) -> Seq<char> {
    let plain = text::reads_as(paths::below(e.path, root)->0);
    Seq::new(
        plain.len(),
        |i: int|
            if plain[i] == '\\' {
                '/'
            } else {
                plain[i]
            },
    )
}

/// Whether an entry of a walk is shown as this entry of a listing: under its path, as a
/// directory or not, and with its length where it is a plain file.
pub open spec fn shown_as(root: Seq<u8>, e: WalkEntryV, t: TreeEntryV) -> bool {
    &&& belongs(root, e)
    &&& t.path == shown_path(root, e)
    &&& e.meta matches Ok(m) && {
        &&& t.dir == m.dir
        &&& m.file ==> t.size == m.len
        &&& !m.file ==> t.size == 0
    }
}

/// Whether an entry of a walk spoils the listing: it does not lie below the root, or it
/// belongs into the listing and the file system cannot tell what it is.
pub open spec fn spoils(root: Seq<u8>, e: WalkEntryV) -> bool {
    &&& paths::components(e.path) != paths::components(root)
    &&& paths::below(e.path, root) is None || (belongs(root, e) && e.meta is Err)
}

/// How often a walk meets what is shown as this entry.
pub open spec fn met(root: Seq<u8>, walk: Seq<WalkEntryV>, t: TreeEntryV) -> nat {
    walk.filter(|e: WalkEntryV| shown_as(root, e, t)).len()
}

proof fn lemma_listed(root: Seq<u8>, e: WalkEntryV)
    ensures
        listed(root, e) is Err <==> spoils(root, e),
        listed(root, e) matches Ok(shown) ==> (shown is Some <==> belongs(root, e)),
        listed(root, e) matches Ok(Some(t)) ==> shown_as(root, e, t) && forall|u: TreeEntryV| #[trigger]
            shown_as(root, e, u) ==> u == t,
        listed(root, e) == Ok::<Option<TreeEntryV>, Seq<char>>(None) ==> forall|u: TreeEntryV| !(
        #[trigger] shown_as(root, e, u)),
{
    if paths::below(e.path, root) is Some {
        let name = text::reads_as(paths::below(e.path, root)->0).map_values(
            |c: char|
                if c == '\\' {
                    '/'
                } else {
                    c
                },
        );
        assert(name =~= shown_path(root, e));
    }
    if let Ok(Some(t)) = listed(root, e) {
        assert forall|u: TreeEntryV| #[trigger] shown_as(root, e, u) implies u == t by {
            assert(u.path == t.path && u.dir == t.dir && u.size == t.size);
        }
    }
}

proof fn lemma_listing_counts(root: Seq<u8>, walk: Seq<WalkEntryV>, t: TreeEntryV)
    ensures
        listing(root, walk) is Ok <==> forall|i: int|
            0 <= i < walk.len() ==> !spoils(root, #[trigger] walk[i]),
        listing(root, walk) matches Ok(v) ==> v.to_multiset().count(t) == met(root, walk, t),
    decreases walk.len(),
{
    let p = |e: WalkEntryV| shown_as(root, e, t);
    reveal(Seq::filter);
    if walk.len() > 0 {
        let fewer = walk.drop_last();
        let e = walk.last();
        lemma_listing_counts(root, fewer, t);
        lemma_listed(root, e);
        assert(walk =~= fewer.push(e));
        assert forall|i: int| 0 <= i < fewer.len() implies fewer[i] == #[trigger] walk[i] by {}
        if listing(root, fewer) is Err {
            let i = choose|i: int| 0 <= i < fewer.len() && spoils(root, #[trigger] fewer[i]);
            assert(walk[i] == fewer[i]);
        } else if spoils(root, e) {
            assert(walk[walk.len() - 1] == e);
        } else {
            assert forall|i: int| 0 <= i < walk.len() implies !spoils(root, #[trigger] walk[i]) by {
                if i < fewer.len() {
                    assert(walk[i] == fewer[i]);
                }
            }
            let before = listing(root, fewer)->Ok_0;
            before.to_multiset_ensures();
            order::lemma_filter_push(fewer, e, p);
            if let Ok(Some(u)) = listed(root, e) {
                assert(before.push(u).to_multiset() =~= before.to_multiset().insert(u));
                assert(p(e) <==> u == t);
            } else {
                assert(!p(e));
            }
        }
    } else {
        let none = Seq::<TreeEntryV>::empty();
        none.to_multiset_ensures();
        assert(!none.contains(t));
    }
}

/// A listing is complete: everything that the walk met stands in it as often as it was
/// met, but for the root and for what has a step `.git`; each with its path below the
/// root, its kind and its length; and nothing else stands in it. There is no listing where
/// something does not lie below the root, or where the file system cannot tell what
/// something is that belongs into it.
pub proof fn listings_are_complete(root: Seq<u8>, walk: Seq<WalkEntryV>)
    ensures
        tree(root, walk) is Ok <==> forall|i: int|
            0 <= i < walk.len() ==> !spoils(root, #[trigger] walk[i]),
        tree(root, walk) matches Ok(v) ==> {
            &&& forall|t: TreeEntryV| #[trigger]
                v.to_multiset().count(t) == met(root, walk, t)
            &&& forall|i: int, t: TreeEntryV|
                0 <= i < walk.len() && #[trigger] shown_as(root, walk[i], t) ==> v.contains(t)
            &&& forall|k: int|
                0 <= k < v.len() ==> exists|i: int|
                    0 <= i < walk.len() && shown_as(root, #[trigger] walk[i], #[trigger] v[k])
        },
{
    let key = |t: TreeEntryV| t.path;
    assert forall|t: TreeEntryV| listing(root, walk) is Ok implies #[trigger] tree(
        root,
        walk,
    )->Ok_0.to_multiset().count(t) == met(root, walk, t) by {
        lemma_listing_counts(root, walk, t);
        order::arranged_same_elements(listing(root, walk)->Ok_0, key);
    }
    lemma_listing_counts(root, walk, arbitrary());
    if let Ok(v) = tree(root, walk) {
        v.to_multiset_ensures();
        assert forall|i: int, t: TreeEntryV|
            0 <= i < walk.len() && #[trigger] shown_as(root, walk[i], t) implies v.contains(t) by {
            let p = |e: WalkEntryV| shown_as(root, e, t);
            order::filter_keeps(walk, p, walk[i]);
            assert(walk.contains(walk[i]));
            assert(walk.filter(p).contains(walk[i]));
            assert(v.to_multiset().count(t) == met(root, walk, t));
        }
        assert forall|k: int| 0 <= k < v.len() implies exists|i: int|
            0 <= i < walk.len() && shown_as(root, #[trigger] walk[i], #[trigger] v[k]) by {
            let t = v[k];
            let p = |e: WalkEntryV| shown_as(root, e, t);
            assert(v.contains(t));
            assert(v.to_multiset().count(t) == met(root, walk, t));
            let kept = walk.filter(p);
            let e = kept[0];
            assert(kept.contains(e));
            order::filter_keeps(walk, p, e);
            let i = choose|i: int| 0 <= i < walk.len() && walk[i] == e;
            assert(shown_as(root, walk[i], v[k]));
        }
    }
}

/// What goes wrong first on a walk is what is told of it.
pub proof fn the_first_failure_is_told(
    root: Seq<u8>,
    before: Seq<WalkEntryV>,
    e: WalkEntryV,
    after: Seq<WalkEntryV>,
)
    requires
        forall|i: int| 0 <= i < before.len() ==> !spoils(root, #[trigger] before[i]),
        spoils(root, e),
    ensures
        paths::below(e.path, root) is None ==> tree(root, before.push(e) + after) == Err::<
            Seq<TreeEntryV>,
            Seq<char>,
        >("prefix not found"@),
        paths::below(e.path, root) is Some ==> (e.meta matches Err(why) && tree(
            root,
            before.push(e) + after,
        ) == Err::<Seq<TreeEntryV>, Seq<char>>(why)),
    decreases after.len(),
{
    let walk = before.push(e) + after;
    if after.len() == 0 {
        assert(walk =~= before.push(e));
        assert(walk.drop_last() =~= before);
        lemma_listing_counts(root, before, arbitrary());
        lemma_listed(root, e);
        if paths::below(e.path, root) is Some {
            let name = text::reads_as(paths::below(e.path, root)->0).map_values(
                |c: char|
                    if c == '\\' {
                        '/'
                    } else {
                        c
                    },
            );
            assert(name =~= shown_path(root, e));
        }
    } else {
        the_first_failure_is_told(root, before, e, after.drop_last());
        assert(walk.drop_last() =~= before.push(e) + after.drop_last());
    }
}

/// What the file system says, and what is planned, is told with all that it holds.
pub proof fn plans_are_told_field_by_field(
    l: Lookup,
    t: TreeEntry,
    w: WalkEntry,
    p: WritePlan,
    r: Removal,
)
    ensures
        l@.exists == l.exists && l@.is_dir == l.is_dir,
        l.root_canon matches Some(b) ==> l@.root_canon == Some(b@),
        l.root_canon is None ==> l@.root_canon is None,
        l.canon matches Some(b) ==> l@.canon == Some(b@),
        l.canon is None ==> l@.canon is None,
        l.parent_canon matches Some(b) ==> l@.parent_canon == Some(b@),
        l.parent_canon is None ==> l@.parent_canon is None,
        t@.path == t.path@ && t@.dir == t.dir && t@.size == t.size,
        w@.path == w.path@,
        w.meta matches Ok(m) ==> w@.meta == Ok::<Meta, Seq<char>>(m),
        w.meta matches Err(e) ==> w@.meta == Err::<Meta, Seq<char>>(e@),
        p@.dest == p.dest@,
        p.parent matches Some(b) ==> p@.parent == Some(b@),
        p.parent is None ==> p@.parent is None,
        r matches Removal::Directory(s) ==> r@ == RemovalV::Directory(s@),
        r matches Removal::File(s) ==> r@ == RemovalV::File(s@),
{
}

/// An entry of a walk as it is shown, where the file system can tell what it is.
pub open spec fn appearance(root: Seq<u8>, e: WalkEntryV) -> TreeEntryV {
    let m = e.meta->Ok_0;
    TreeEntryV {
        path: shown_path(root, e),
        dir: m.dir,
        size: if m.file {
            m.len
        } else {
            0
        },
    }
}

/// What a walk shows stands in the order of the walk, one entry for each that belongs into
/// the listing; what has the same path in the listing is still in that order.
pub proof fn listings_keep_the_order_of_the_walk(
    root: Seq<u8>,
    walk: Seq<WalkEntryV>,
    path: Seq<char>,
)
    ensures
        tree(root, walk) matches Ok(v) ==> v.filter(|t: TreeEntryV| t.path == path) == walk.filter(
            |e: WalkEntryV| belongs(root, e),
        ).map_values(|e: WalkEntryV| appearance(root, e)).filter(|t: TreeEntryV| t.path == path),
{
    if let Ok(v) = listing(root, walk) {
        let key = |t: TreeEntryV| t.path;
        lemma_listing_in_order(root, walk);
        order::arranged_stable(v, key, path);
        let p = |t: TreeEntryV| key(t) == path;
        let q = |t: TreeEntryV| t.path == path;
        assert(p =~= q);
    }
}

proof fn lemma_listing_in_order(root: Seq<u8>, walk: Seq<WalkEntryV>)
    ensures
        listing(root, walk) matches Ok(v) ==> v == walk.filter(
            |e: WalkEntryV| belongs(root, e),
        ).map_values(|e: WalkEntryV| appearance(root, e)),
    decreases walk.len(),
{
    let p = |e: WalkEntryV| belongs(root, e);
    let f = |e: WalkEntryV| appearance(root, e);
    reveal(Seq::filter);
    if walk.len() == 0 {
        assert(walk.filter(p).map_values(f) =~= Seq::<TreeEntryV>::empty());
    } else {
        let fewer = walk.drop_last();
        let e = walk.last();
        assert(walk =~= fewer.push(e));
        lemma_listing_in_order(root, fewer);
        order::lemma_filter_push(fewer, e, p);
        lemma_listed(root, e);
        if let Ok(Some(t)) = listed(root, e) {
            assert(shown_as(root, e, appearance(root, e)));
            assert(fewer.filter(p).push(e).map_values(f) =~= fewer.filter(p).map_values(f).push(
                f(e),
            ));
        }
    }
}

} // verus!
