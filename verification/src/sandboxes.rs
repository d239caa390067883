//! Sandboxes, and the grants that say what users may do in them.

use vstd::prelude::*;
use vstd::utf8::*;

use crate::accounts;
use crate::api;
use crate::api::{AppState, Outcome};
use crate::paths;
use crate::reply;
use crate::reply::{ApiError, Refusal};
use crate::secrets;
use crate::tables;
use crate::tables::{ChangeV, Grant, GrantV, Sandbox, SandboxRowV, SandboxV, Tables};
use crate::text;

verus! {

/// A request for a sandbox.
#[derive(Debug)]
pub struct NewSandbox {
    pub name: String,
    pub path: String,
    pub description: Option<String>,
}

/// A request to change a sandbox: what is not given stays.
#[derive(Debug)]
pub struct PatchSandbox {
    pub name: Option<String>,
    pub path: Option<String>,
    pub description: Option<String>,
}

/// A request to say what a user may do in a sandbox.
#[derive(Debug)]
pub struct GrantBody {
    pub user_id: String,
    pub sandbox_id: String,
    pub can_read: bool,
    pub can_write: bool,
    pub can_shell: bool,
    pub can_admin: Option<bool>,
}

// ---------------------------------------------------------------------------
// Sandboxes
// ---------------------------------------------------------------------------

/// The sandboxes that an administrator sees. Members find theirs in their profile.
pub fn sandboxes(state: &AppState, header: Option<&[u8]>, now: i64) -> (r: Result<
    Vec<Sandbox>,
    ApiError,
>)
    ensures
        api::shown_list(r) == match api::admin_requester(
            state.db@,
            api::header_view(header),
            now,
        ) {
            Ok(u) => Ok(accounts::visible(state.db@, u)),
            Err(e) => Err(e),
        },
{
    api::auth_admin(state, header, now)?;
    let body = accounts::me(state, header, now)?;
    Ok(body.sandboxes)
}

/// Why a sandbox may not be created, if it may not.
pub open spec fn sandbox_objection(
    t: Tables,
    h: Option<Seq<u8>>,
    body: NewSandbox,
    windows: bool,
    now: i64,
) -> Option<Refusal> {
    match api::admin_requester(t, h, now) {
        Err(e) => Some(e),
        Ok(_) => if !paths::absolute(encode_utf8(text::trim(body.path@)), windows) {
            Some(reply::refusal(reply::BAD_REQUEST, "sandbox path must be absolute"))
        } else {
            None
        },
    }
}

/// What a request for a sandbox leads to, given the outcome of making its directory and
/// its identifier.
pub open spec fn provided(
    t: Tables,
    h: Option<Seq<u8>>,
    body: NewSandbox,
    made: Result<(), Seq<char>>,
    id: Seq<char>,
    windows: bool,
    now: i64,
) -> Outcome<SandboxV> {
    match (sandbox_objection(t, h, body, windows, now), made) {
        (Some(e), _) => api::refused(e),
        (None, Err(e)) => api::refused((reply::BAD_REQUEST, e)),
        (None, Ok(_)) => {
            let s = SandboxRowV {
                id,
                name: text::trim(body.name@),
                path: text::trim(body.path@),
                description: tables::or_keep(tables::opt(body.description), Seq::empty()),
                created_at: now,
            };
            api::attempt(t, ChangeV::InsertSandbox(s), s.place())
        },
    }
}

/// The directory to make for a new sandbox, for an administrator.
pub fn create_sandbox_path(state: &AppState, header: Option<&[u8]>, body: &NewSandbox, now: i64) -> (r:
    Result<String, ApiError>)
    ensures
        reply::shown(r) == match sandbox_objection(
            state.db@,
            api::header_view(header),
            *body,
            state.windows,
            now,
        ) {
            Some(e) => Err(e),
            None => Ok(text::trim(body.path@)),
        },
{
    api::auth_admin(state, header, now)?;
    let path = text::trimmed(body.path.as_str());
    if !paths::is_absolute(path.as_str().as_bytes(), state.windows) {
        return Err(reply::err(reply::BAD_REQUEST, "sandbox path must be absolute"));
    }
    Ok(path)
}

/// Creates a sandbox under the given identifier; `made` is the outcome of making its
/// directory.
pub fn create_sandbox_with(
    state: &mut AppState,
    header: Option<&[u8]>,
    body: &NewSandbox,
    made: Result<(), String>,
    id: String,
    now: i64,
) -> (r: Result<Sandbox, ApiError>)
    ensures
        final(state).reached(
            old(state),
            reply::shown(r),
            provided(
                old(state).db@,
                api::header_view(header),
                *body,
                reply::told(made),
                id@,
                old(state).windows,
                now,
            ),
        ),
{
    proof {
        api::lemma_nothing(state);
    }
    let path = create_sandbox_path(state, header, body, now)?;
    match made {
        Err(e) => {
            return Err(ApiError { status: reply::BAD_REQUEST, error: e });
        },
        Ok(_) => {},
    }
    let name = text::trimmed(body.name.as_str());
    let description = match &body.description {
        Some(d) => d.clone(),
        None => {
            let s = String::new();
            assert(s@ =~= Seq::<char>::empty());
            s
        },
    };
    let ghost c = ChangeV::InsertSandbox(
        SandboxRowV {
            id: id@,
            name: name@,
            path: path@,
            description: description@,
            created_at: now,
        },
    );
    proof {
        api::lemma_single(state.db@, state.db.changes(), c);
    }
    match state.db.insert_sandbox(
        id.as_str(),
        name.as_str(),
        path.as_str(),
        description.as_str(),
        now,
    ) {
        Ok(_) => Ok(Sandbox { id, name, path, description }),
        Err(_) => Err(reply::db_failure()),
    }
}

/// Creates a sandbox, for an administrator; `made` is the outcome of making its
/// directory.
pub fn create_sandbox(
    state: &mut AppState,
    header: Option<&[u8]>,
    body: &NewSandbox,
    made: Result<(), String>,
    now: i64,
) -> (r: Result<Sandbox, ApiError>)
    ensures
        exists|id: Seq<char>| #[trigger]
            secrets::is_id("box"@, id) && final(state).reached(
                old(state),
                reply::shown(r),
                provided(
                    old(state).db@,
                    api::header_view(header),
                    *body,
                    reply::told(made),
                    id,
                    old(state).windows,
                    now,
                ),
            ),
{
    let id = secrets::new_id("box");
    create_sandbox_with(state, header, body, made, id, now)
}

/// Why a sandbox may not be changed, if it may not.
pub open spec fn sandbox_patch_objection(
    t: Tables,
    h: Option<Seq<u8>>,
    body: PatchSandbox,
    windows: bool,
    now: i64,
) -> Option<Refusal> {
    match api::admin_requester(t, h, now) {
        Err(e) => Some(e),
        Ok(_) => match body.path {
            Some(p) if !paths::absolute(encode_utf8(p@), windows) => Some(
                reply::refusal(reply::BAD_REQUEST, "sandbox path must be absolute"),
            ),
            _ => None,
        },
    }
}

/// What a request to change a sandbox leads to, given the outcome of making its new
/// directory, where there is one.
pub open spec fn refitted(
    t: Tables,
    h: Option<Seq<u8>>,
    id: Seq<char>,
    body: PatchSandbox,
    made: Result<(), Seq<char>>,
    windows: bool,
    now: i64,
) -> Outcome<SandboxV> {
    match (sandbox_patch_objection(t, h, body, windows, now), body.path, made) {
        (Some(e), _, _) => api::refused(e),
        (None, Some(_), Err(e)) => api::refused((reply::BAD_REQUEST, e)),
        _ => {
            let c = ChangeV::UpdateSandbox {
                id,
                name: tables::opt(body.name),
                path: tables::opt(body.path),
                description: tables::opt(body.description),
            };
            (
                seq![c],
                match t.run(c).place(id) {
                    Some(s) => Ok(s),
                    None => Err(reply::refusal(reply::NOT_FOUND, "no such sandbox")),
                },
            )
        },
    }
}

/// The directory to make before a sandbox is changed, where its path changes.
pub fn patch_sandbox_path(state: &AppState, header: Option<&[u8]>, body: &PatchSandbox, now: i64) -> (r:
    Result<Option<String>, ApiError>)
    ensures
        api::shown_opt(r) == match sandbox_patch_objection(
            state.db@,
            api::header_view(header),
            *body,
            state.windows,
            now,
        ) {
            Some(e) => Err(e),
            None => Ok(tables::opt(body.path)),
        },
{
    api::auth_admin(state, header, now)?;
    match &body.path {
        Some(p) => {
            if !paths::is_absolute(p.as_str().as_bytes(), state.windows) {
                return Err(reply::err(reply::BAD_REQUEST, "sandbox path must be absolute"));
            }
            Ok(Some(p.clone()))
        },
        None => Ok(None),
    }
}

/// Changes a sandbox, for an administrator; `made` is the outcome of making its new
/// directory, where there is one.
pub fn patch_sandbox(
    state: &mut AppState,
    header: Option<&[u8]>,
    id: &str,
    body: &PatchSandbox,
    made: Result<(), String>,
    now: i64,
) -> (r: Result<Sandbox, ApiError>)
    ensures
        final(state).reached(
            old(state),
            reply::shown(r),
            refitted(
                old(state).db@,
                api::header_view(header),
                id@,
                *body,
                reply::told(made),
                old(state).windows,
                now,
            ),
        ),
{
    let ghost c = ChangeV::UpdateSandbox {
        id: id@,
        name: tables::opt(body.name),
        path: tables::opt(body.path),
        description: tables::opt(body.description),
    };
    proof {
        api::lemma_nothing(state);
        api::lemma_single(state.db@, state.db.changes(), c);
    }
    if patch_sandbox_path(state, header, body, now)?.is_some() {
        match made {
            Err(e) => {
                return Err(ApiError { status: reply::BAD_REQUEST, error: e });
            },
            Ok(_) => {},
        }
    }
    state.db.update_sandbox(
        id,
        api::borrowed(&body.name),
        api::borrowed(&body.path),
        api::borrowed(&body.description),
    );
    match state.db.sandbox(id) {
        Some(s) => Ok(s),
        None => Err(reply::err(reply::NOT_FOUND, "no such sandbox")),
    }
}

/// What a change that only administrators may make leads to.
pub open spec fn ordered(t: Tables, h: Option<Seq<u8>>, c: ChangeV, now: i64) -> Outcome<u16> {
    match api::admin_requester(t, h, now) {
        Err(e) => api::refused(e),
        Ok(_) => (seq![c], Ok(reply::NO_CONTENT)),
    }
}

/// Deletes a sandbox, for an administrator.
pub fn delete_sandbox(state: &mut AppState, header: Option<&[u8]>, id: &str, now: i64) -> (r: Result<
    u16,
    ApiError,
>)
    ensures
        final(state).reached(
            old(state),
            reply::shown(r),
            ordered(
                old(state).db@,
                api::header_view(header),
                ChangeV::DeleteSandbox { id: id@ },
                now,
            ),
        ),
{
    proof {
        api::lemma_nothing(state);
        api::lemma_single(state.db@, state.db.changes(), ChangeV::DeleteSandbox { id: id@ });
    }
    api::auth_admin(state, header, now)?;
    state.db.delete_sandbox(id);
    Ok(reply::NO_CONTENT)
}

// ---------------------------------------------------------------------------
// Grants
// ---------------------------------------------------------------------------

/// All grants, for an administrator.
pub fn grants(state: &AppState, header: Option<&[u8]>, now: i64) -> (r: Result<Vec<Grant>, ApiError>)
    ensures
        api::shown_list(r) == match api::admin_requester(state.db@, api::header_view(header), now) {
            Ok(_) => Ok(state.db@.grants),
            Err(e) => Err(e),
        },
{
    api::auth_admin(state, header, now)?;
    Ok(state.db.grants())
}

/// The grant that is asked for.
pub open spec fn asked_grant(body: GrantBody) -> GrantV {
    GrantV {
        user_id: body.user_id@,
        sandbox_id: body.sandbox_id@,
        can_read: body.can_read,
        can_write: body.can_write,
        can_shell: body.can_shell,
        can_admin: body.can_admin == Some(true),
    }
}

/// What a request for a grant leads to.
pub open spec fn granted(t: Tables, h: Option<Seq<u8>>, body: GrantBody, now: i64) -> Outcome<GrantV> {
    match api::admin_requester(t, h, now) {
        Err(e) => api::refused(e),
        Ok(_) => api::attempt(t, ChangeV::PutGrant(asked_grant(body)), asked_grant(body)),
    }
}

/// Sets what a user may do in a sandbox, for an administrator.
pub fn put_grant(state: &mut AppState, header: Option<&[u8]>, body: GrantBody, now: i64) -> (r: Result<
    Grant,
    ApiError,
>)
    ensures
        final(state).reached(
            old(state),
            reply::shown(r),
            granted(old(state).db@, api::header_view(header), body, now),
        ),
{
    proof {
        api::lemma_nothing(state);
        api::lemma_single(state.db@, state.db.changes(), ChangeV::PutGrant(asked_grant(body)));
    }
    api::auth_admin(state, header, now)?;
    let can_admin = match body.can_admin {
        Some(b) => b,
        None => false,
    };
    let g = Grant {
        user_id: body.user_id,
        sandbox_id: body.sandbox_id,
        can_read: body.can_read,
        can_write: body.can_write,
        can_shell: body.can_shell,
        can_admin,
    };
    match state.db.put_grant(&g) {
        Ok(_) => Ok(g),
        Err(_) => Err(reply::db_failure()),
    }
}

/// Takes back what a user may do in a sandbox, for an administrator.
pub fn delete_grant(
    state: &mut AppState,
    header: Option<&[u8]>,
    user_id: &str,
    sandbox_id: &str,
    now: i64,
) -> (r: Result<u16, ApiError>)
    ensures
        final(state).reached(
            old(state),
            reply::shown(r),
            ordered(
                old(state).db@,
                api::header_view(header),
                ChangeV::DeleteGrant { user_id: user_id@, sandbox_id: sandbox_id@ },
                now,
            ),
        ),
{
    proof {
        api::lemma_nothing(state);
        api::lemma_single(
            state.db@,
            state.db.changes(),
            ChangeV::DeleteGrant { user_id: user_id@, sandbox_id: sandbox_id@ },
        );
    }
    api::auth_admin(state, header, now)?;
    state.db.delete_grant(user_id, sandbox_id);
    Ok(reply::NO_CONTENT)
}

} // verus!
