//! The files of a sandbox: who may look at and change them, and what is answered.
//!
//! A request goes through steps between which the file system is asked. The first step
//! finds the root of the sandbox, if its files may be used. The next one names the path
//! to look up, and the one after that says what to do there.

use vstd::prelude::*;
use vstd::utf8::*;

use crate::api;
use crate::api::AppState;
use crate::fsops;
use crate::fsops::{Lookup, LookupV, Removal, TreeEntry, WalkEntry, WritePlan, WritePlanV};
use crate::order;
use crate::pty;
use crate::reply;
use crate::reply::{ApiError, Refusal};
use crate::tables;
use crate::tables::{SandboxV, Tables};

verus! {

/// A request for a file.
#[derive(Debug)]
pub struct FileQ {
    pub path: String,
}

/// A request to write a file: its bytes in base64, or else its text.
#[derive(Debug)]
pub struct FilePut {
    pub path: String,
    pub content: Option<String>,
    pub b64: Option<String>,
}

/// What a use of files needs.
#[derive(Clone, Copy, Debug, PartialEq, Eq, Structural)]
pub enum Need {
    /// Leave to read or to write.
    Look,
    /// Leave to write.
    Change,
}

/// The sandbox whose files may be used, or the refusal.
pub open spec fn file_place(
    t: Tables,
    h: Option<Seq<u8>>,
    id: Seq<char>,
    need: Need,
    now: i64,
) -> Result<SandboxV, Refusal> {
    match api::requester(t, h, now) {
        Err(e) => Err(e),
        Ok(u) => match api::access(t, u, id) {
            Err(e) => Err(e),
            Ok(g) => if need == Need::Look && !g.can_read && !g.can_write {
                Err(reply::refusal(reply::FORBIDDEN, "no file access"))
            } else if need == Need::Change && !g.can_write {
                Err(reply::refusal(reply::FORBIDDEN, "read only"))
            } else {
                match t.place(id) {
                    Some(s) => Ok(s),
                    None => Err(reply::refusal(reply::NOT_FOUND, "no such sandbox")),
                }
            },
        },
    }
}

/// The root of a sandbox whose files may be used.
pub fn file_root(state: &AppState, header: Option<&[u8]>, id: &str, need: Need, now: i64) -> (r:
    Result<String, ApiError>)
    ensures
        reply::shown(r) == match file_place(state.db@, api::header_view(header), id@, need, now) {
            Ok(s) => Ok(s.path),
            Err(e) => Err(e),
        },
{
    let user = api::auth(state, header, now)?;
    let g = api::grant_for(state, &user, id)?;
    match need {
        Need::Look => {
            if !g.can_read && !g.can_write {
                return Err(reply::err(reply::FORBIDDEN, "no file access"));
            }
        },
        Need::Change => {
            if !g.can_write {
                return Err(reply::err(reply::FORBIDDEN, "read only"));
            }
        },
    }
    match state.db.sandbox(id) {
        Some(s) => Ok(s.path),
        None => Err(reply::err(reply::NOT_FOUND, "no such sandbox")),
    }
}

/// A result whose error becomes a refusal with this status.
pub open spec fn blamed<V>(status: u16, r: Result<V, Seq<char>>) -> Result<V, Refusal> {
    match r {
        Ok(v) => Ok(v),
        Err(e) => Err((status, e)),
    }
}

/// A result whose error becomes a refusal with this status.
pub(crate) fn blame<T: View>(status: u16, r: Result<T, String>) -> (s: Result<T, ApiError>)
    ensures
        reply::shown(s) == blamed(status, reply::told(r)),
        r matches Ok(v) ==> s == Ok::<T, ApiError>(v),
{
    match r {
        Ok(v) => Ok(v),
        Err(e) => Err(ApiError { status, error: e }),
    }
}

/// The listing of a sandbox, given the outcome of making its root and what a walk below
/// it met.
pub fn tree(root: &str, made: Result<(), String>, walk: &Vec<WalkEntry>) -> (r: Result<
    Vec<TreeEntry>,
    ApiError,
>)
    ensures
        api::shown_list(r) == match made {
            Err(e) => Err((reply::BAD_REQUEST, e@)),
            Ok(_) => blamed(
                reply::BAD_REQUEST,
                fsops::tree(encode_utf8(root@), order::rows(walk@)),
            ),
        },
{
    match made {
        Err(e) => Err(ApiError { status: reply::BAD_REQUEST, error: e }),
        Ok(_) => match fsops::list_tree(root.as_bytes(), walk) {
            Ok(v) => Ok(v),
            Err(e) => Err(ApiError { status: reply::BAD_REQUEST, error: e }),
        },
    }
}

/// The path that is asked for, before the file system is asked about it.
pub open spec fn aimed(root: Seq<char>, rel: Seq<char>) -> Result<Seq<char>, Seq<char>> {
    if fsops::climbs(rel) {
        Err("path escapes the sandbox"@)
    } else {
        Ok(fsops::dest(root, rel))
    }
}

/// The path to look up before a file is read.
pub fn get_target(root: &str, q: &FileQ) -> (r: Result<String, ApiError>)
    ensures
        reply::shown(r) == blamed(reply::NOT_FOUND, aimed(root@, q.path@)),
{
    blame(reply::NOT_FOUND, fsops::destination(root, q.path.as_str()))
}

/// The file to read, given what the file system says of it.
pub fn get_file(root: &str, q: &FileQ, seen: &Lookup) -> (r: Result<String, ApiError>)
    ensures
        reply::shown(r) == blamed(reply::NOT_FOUND, fsops::readable(root@, q.path@, seen@)),
{
    blame(reply::NOT_FOUND, fsops::read_file(root, q.path.as_str(), seen))
}

/// The answer to a request for a file, given the outcome of reading it.
pub fn get_reply(read: Result<Vec<u8>, String>) -> (r: Result<Vec<u8>, ApiError>)
    ensures
        reply::shown(r) == blamed(reply::NOT_FOUND, reply::told(read)),
        read matches Ok(v) ==> r == Ok::<Vec<u8>, ApiError>(v),
{
    blame(reply::NOT_FOUND, read)
}

/// The bytes that are to be written.
pub open spec fn contents(body: FilePut) -> Result<Seq<u8>, Refusal> {
    match body.b64 {
        Some(s) => blamed(reply::BAD_REQUEST, pty::b64_bytes(s@)),
        None => Ok(encode_utf8(tables::or_keep(tables::opt(body.content), Seq::empty()))),
    }
}

/// The bytes that are to be written.
pub fn put_bytes(body: &FilePut) -> (r: Result<Vec<u8>, ApiError>)
    ensures
        reply::shown(r) == contents(*body),
{
    match &body.b64 {
        Some(s) => blame(reply::BAD_REQUEST, pty::b64_decode(s.as_str())),
        None => match &body.content {
            Some(s) => Ok(vstd::slice::slice_to_vec(s.as_str().as_bytes())),
            None => {
                let s = String::new();
                assert(s@ =~= Seq::<char>::empty());
                Ok(vstd::slice::slice_to_vec(s.as_str().as_bytes()))
            },
        },
    }
}

/// The path to look up before a file is written with `bytes`.
pub fn put_target(root: &str, body: &FilePut, bytes: &[u8]) -> (r: Result<String, ApiError>)
    ensures
        reply::shown(r) == if bytes@.len() > fsops::MAX_FILE {
            Err(reply::refusal(reply::BAD_REQUEST, "file too large"))
        } else {
            blamed(reply::BAD_REQUEST, aimed(root@, body.path@))
        },
{
    if bytes.len() > fsops::MAX_FILE {
        return Err(reply::err(reply::BAD_REQUEST, "file too large"));
    }
    blame(reply::BAD_REQUEST, fsops::destination(root, body.path.as_str()))
}

/// What to write where, given what the file system says of the path.
pub fn put_file(root: &str, body: &FilePut, bytes: &[u8], seen: &Lookup) -> (r: Result<
    WritePlan,
    ApiError,
>)
    ensures
        reply::shown(r) == blamed(
            reply::BAD_REQUEST,
            fsops::writable(root@, body.path@, bytes@.len(), seen@),
        ),
{
    blame(reply::BAD_REQUEST, fsops::write_file(root, body.path.as_str(), bytes, seen))
}

/// The path to look up before a file is removed.
pub fn del_target(root: &str, q: &FileQ) -> (r: Result<String, ApiError>)
    ensures
        reply::shown(r) == blamed(reply::BAD_REQUEST, aimed(root@, q.path@)),
{
    blame(reply::BAD_REQUEST, fsops::destination(root, q.path.as_str()))
}

/// What to remove, given what the file system says of the path.
pub fn del_file(root: &str, q: &FileQ, seen: &Lookup) -> (r: Result<Removal, ApiError>)
    ensures
        reply::shown(r) == blamed(
            reply::BAD_REQUEST,
            fsops::removable(root@, q.path@, seen@),
        ),
{
    blame(reply::BAD_REQUEST, fsops::remove_path(root, q.path.as_str(), seen))
}

/// The answer to a request to write or to remove, given its outcome.
pub fn change_reply(done: Result<(), String>) -> (r: Result<u16, ApiError>)
    ensures
        reply::shown(r) == match done {
            Ok(_) => Ok(reply::NO_CONTENT),
            Err(e) => Err((reply::BAD_REQUEST, e@)),
        },
{
    blame(reply::BAD_REQUEST, done)?;
    Ok(reply::NO_CONTENT)
}

/// Bytes that are sent in base64 are written as they were.
pub proof fn base64_contents_arrive(body: FilePut, bytes: Seq<u8>)
    requires
        body.b64 matches Some(s) && s@ == pty::b64_text(bytes),
    ensures
        contents(body) == Ok::<Seq<u8>, Refusal>(bytes),
{
    pty::b64_decodes_what_it_encodes(bytes);
}

/// What reading each path gives, after the bytes of a plan were written.
pub open spec fn stored(
    disk: spec_fn(Seq<char>) -> Result<Seq<u8>, Seq<char>>,
    plan: WritePlanV,
    bytes: Seq<u8>,
) -> spec_fn(Seq<char>) -> Result<Seq<u8>, Seq<char>> {
    |path: Seq<char>|
        if path == plan.dest {
            Ok(bytes)
        } else {
            disk(path)
        }
}

/// The answer to a request for a file: what reading the file gives, where it may be read.
pub open spec fn fetched(
    root: Seq<char>,
    rel: Seq<char>,
    seen: LookupV,
    disk: spec_fn(Seq<char>) -> Result<Seq<u8>, Seq<char>>,
) -> Result<Seq<u8>, Refusal> {
    match fsops::readable(root, rel, seen) {
        Ok(path) => blamed(reply::NOT_FOUND, disk(path)),
        Err(e) => Err((reply::NOT_FOUND, e)),
    }
}

/// A file that was written is read back under the same name byte for byte, be it empty or
/// longer or shorter than the one before it, where reading a path gives what was last
/// written to that path and no link was put in the way. A name that leads to a directory
/// is refused.
pub proof fn written_files_are_read_back(
    root: Seq<char>,
    body: FilePut,
    bytes: Seq<u8>,
    seen: LookupV,
    then: LookupV,
    disk: spec_fn(Seq<char>) -> Result<Seq<u8>, Seq<char>>,
)
    requires
        contents(body) == Ok::<Seq<u8>, Refusal>(bytes),
        fsops::writable(root, body.path@, bytes.len(), seen) is Ok,
        fsops::settled_path(root, body.path@, seen, then),
    ensures
        ({
            let plan = fsops::writable(root, body.path@, bytes.len(), seen)->Ok_0;
            fetched(root, body.path@, then, stored(disk, plan, bytes)) == if then.is_dir {
                Err::<Seq<u8>, Refusal>(reply::refusal(reply::NOT_FOUND, "is a directory"))
            } else {
                Ok(bytes)
            }
        }),
{
    fsops::writable_files_are_readable(root, body.path@, bytes.len(), seen, then);
}

/// Files may be used exactly by whoever is signed in and has leave for it: to look, leave
/// to read or to write; to change, leave to write. What is used is the sandbox that was
/// asked for, and each refusal says what is missing.
pub proof fn leave_decides_on_files(
    t: Tables,
    h: Option<Seq<u8>>,
    id: Seq<char>,
    need: Need,
    now: i64,
    s: SandboxV,
)
    ensures
        file_place(t, h, id, need, now) == Ok::<SandboxV, Refusal>(s) <==> (api::requester(
            t,
            h,
            now,
        ) matches Ok(u) && (api::access(t, u, id) matches Ok(g) && {
            &&& g.can_write || (g.can_read && need is Look)
            &&& t.place(id) == Some(s)
        })),
        api::requester(t, h, now) matches Err(e) ==> file_place(t, h, id, need, now) == Err::<
            SandboxV,
            Refusal,
        >(e),
        api::requester(t, h, now) matches Ok(u) ==> {
            &&& api::access(t, u, id) matches Err(e) ==> file_place(t, h, id, need, now) == Err::<
                SandboxV,
                Refusal,
            >(e)
            &&& api::access(t, u, id) matches Ok(g) ==> {
                &&& need is Look && !g.can_read && !g.can_write ==> file_place(t, h, id, need, now)
                    == Err::<SandboxV, Refusal>((403u16, "no file access"@))
                &&& need is Change && !g.can_write ==> file_place(t, h, id, need, now) == Err::<
                    SandboxV,
                    Refusal,
                >((403u16, "read only"@))
                &&& g.can_write && t.place(id) is None ==> file_place(t, h, id, need, now) == Err::<
                    SandboxV,
                    Refusal,
                >((404u16, "no such sandbox"@))
            }
        },
{
}

/// Whoever may change files may look at them, in the same place.
pub proof fn who_may_change_may_look(t: Tables, h: Option<Seq<u8>>, id: Seq<char>, now: i64)
    requires
        file_place(t, h, id, Need::Change, now) is Ok,
    ensures
        file_place(t, h, id, Need::Look, now) == file_place(t, h, id, Need::Change, now),
{
}

/// The path that is looked up is the one that is used afterwards, whatever the file system
/// says of it; what is refused before it is asked would be refused after it as well.
pub proof fn what_is_looked_up_is_used(root: Seq<char>, rel: Seq<char>, seen: LookupV)
    ensures
        aimed(root, rel) is Ok <==> !fsops::climbs(rel),
        fsops::named(root, rel, seen) matches Ok(d) ==> aimed(root, rel) == Ok::<
            Seq<char>,
            Seq<char>,
        >(d),
        aimed(root, rel) matches Ok(d) ==> d == fsops::dest(root, rel),
        aimed(root, rel) matches Err(e) ==> e == "path escapes the sandbox"@ && fsops::named(
            root,
            rel,
            seen,
        ) == Err::<Seq<char>, Seq<char>>(e),
{
}

/// What is written is what base64 says where base64 is given, else the text that is given,
/// else nothing at all. Base64 that does not decode is a bad request.
pub proof fn what_is_written_is_what_was_sent(body: FilePut)
    ensures
        body.b64 matches Some(s) ==> contents(body) == match pty::b64_bytes(s@) {
            Ok(b) => Ok::<Seq<u8>, Refusal>(b),
            Err(e) => Err((400u16, e)),
        },
        body.b64 is None ==> (body.content matches Some(c) ==> contents(body) == Ok::<
            Seq<u8>,
            Refusal,
        >(encode_utf8(c@))),
        body.b64 is None && body.content is None ==> contents(body) == Ok::<Seq<u8>, Refusal>(
            Seq::empty(),
        ),
{
    assert(encode_utf8(Seq::<char>::empty()) =~= Seq::<u8>::empty());
}

/// Blame is put on failures only, and keeps their words.
pub proof fn only_failures_are_blamed(status: u16, v: Seq<u8>, e: Seq<char>)
    ensures
        blamed(status, Ok::<Seq<u8>, Seq<char>>(v)) == Ok::<Seq<u8>, Refusal>(v),
        blamed(status, Err::<Seq<u8>, Seq<char>>(e)) == Err::<Seq<u8>, Refusal>((status, e)),
{
}

} // verus!
