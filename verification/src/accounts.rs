//! Accounts and sessions: the first account, signing in and out, and what administrators
//! do with the accounts of others.

use vstd::prelude::*;
use vstd::utf8::*;

use crate::api;
use crate::api::{AppState, Outcome};
use crate::order;
use crate::paths;
use crate::reply;
use crate::reply::{ApiError, Refusal};
use crate::secrets;
use crate::tables;
use crate::tables::{
    ChangeV, Grant, Sandbox, SandboxRowV, SandboxV, SessionRowV, Tables, User, UserRowV, UserV,
};
use crate::text;

verus! {

/// How long a session lasts, in seconds: fourteen days.
pub const SESSION_SECONDS: i64 = 1_209_600;

/// A request to create the first account.
#[derive(Debug)]
pub struct SetupBody {
    /// The name of the organisation. Nothing is done with it.
    pub org: Option<String>,
    pub username: String,
    pub password: String,
    pub display_name: Option<String>,
}

/// A session that was begun.
#[derive(Debug)]
pub struct SessionBody {
    pub token: String,
    pub user: User,
}

/// A request to sign in.
#[derive(Debug)]
pub struct LoginBody {
    pub username: String,
    pub password: String,
}

/// The account of a client and the sandboxes that it can see.
#[derive(Debug)]
pub struct MeBody {
    pub user: User,
    pub sandboxes: Vec<Sandbox>,
    pub default_sandbox_id: Option<String>,
}

/// A request for an account.
#[derive(Debug)]
pub struct NewUser {
    pub username: String,
    pub password: String,
    pub display_name: Option<String>,
    pub role: Option<String>,
}

/// A request to change an account: what is not given stays.
#[derive(Debug)]
pub struct PatchUser {
    pub display_name: Option<String>,
    pub role: Option<String>,
    pub password: Option<String>,
}

pub struct SessionBodyV {
    pub token: Seq<char>,
    pub user: UserV,
}

pub struct MeBodyV {
    pub user: UserV,
    pub sandboxes: Seq<SandboxV>,
    pub default_sandbox_id: Option<Seq<char>>,
}

impl View for SessionBody {
    type V = SessionBodyV;

    open spec fn view(&self) -> SessionBodyV {
        SessionBodyV { token: self.token@, user: self.user@ }
    }
}

impl View for MeBody {
    type V = MeBodyV;

    open spec fn view(&self) -> MeBodyV {
        MeBodyV {
            user: self.user@,
            sandboxes: order::rows(self.sandboxes@),
            default_sandbox_id: tables::opt(self.default_sandbox_id),
        }
    }
}

/// Whether a username or a password is too short for an account.
pub open spec fn too_short(username: Seq<char>, password: Seq<char>) -> bool {
    encode_utf8(text::trim(username)).len() < 2 || encode_utf8(password).len() < 8
}

/// Whether a username or a password is too short for an account.
fn is_too_short(username: &str, password: &str) -> (r: bool)
    ensures
        r == too_short(username@, password@),
{
    text::byte_len(text::trimmed(username).as_str()) < 2 || text::byte_len(password) < 8
}

/// The row of a new account.
pub open spec fn account(
    id: Seq<char>,
    username: Seq<char>,
    display_name: Option<Seq<char>>,
    password_hash: Seq<char>,
    role: Seq<char>,
    now: i64,
) -> UserRowV {
    UserRowV {
        id,
        username: text::trim(username),
        display_name: tables::or_keep(display_name, username),
        password_hash,
        role,
        created_at: now,
    }
}

/// Why the first account may not be created, if it may not.
pub open spec fn setup_objection(t: Tables, body: SetupBody) -> Option<Refusal> {
    if t.users.len() > 0 {
        Some(reply::refusal(reply::CONFLICT, "already set up"))
    } else if too_short(body.username@, body.password@) {
        Some(reply::refusal(reply::BAD_REQUEST, "username or password too short"))
    } else {
        None
    }
}

/// What a request for the first account leads to, given its identifier and the outcome
/// of hashing its password.
pub open spec fn founding(
    t: Tables,
    body: SetupBody,
    id: Seq<char>,
    hash: Result<Seq<char>, Refusal>,
    now: i64,
) -> Outcome<UserV> {
    match (setup_objection(t, body), hash) {
        (Some(e), _) => api::refused(e),
        (None, Err(e)) => api::refused(e),
        (None, Ok(h)) => {
            let u = account(id, body.username@, tables::opt(body.display_name), h, "admin"@, now);
            api::attempt(t, ChangeV::InsertUser(u), u.person())
        },
    }
}

/// The display name of a new account: the one that is asked for, else the username.
fn display(asked: &Option<String>, username: &str) -> (r: String)
    ensures
        r@ == tables::or_keep(tables::opt(*asked), username@),
{
    match asked {
        Some(d) => d.clone(),
        None => username.to_string(),
    }
}

/// Creates the first account under the given identifier and password hash.
pub fn setup_with(
    state: &mut AppState,
    body: &SetupBody,
    id: String,
    hash: Result<String, ApiError>,
    now: i64,
) -> (r: Result<User, ApiError>)
    ensures
        final(state).reached(
            old(state),
            reply::shown(r),
            founding(old(state).db@, *body, id@, reply::shown(hash), now),
        ),
{
    proof {
        api::lemma_nothing(state);
    }
    if state.db.user_count() > 0 {
        return Err(reply::err(reply::CONFLICT, "already set up"));
    }
    if is_too_short(body.username.as_str(), body.password.as_str()) {
        return Err(reply::err(reply::BAD_REQUEST, "username or password too short"));
    }
    let hash = hash?;
    let username = text::trimmed(body.username.as_str());
    let display_name = display(&body.display_name, body.username.as_str());
    let ghost c = ChangeV::InsertUser(
        account(id@, body.username@, tables::opt(body.display_name), hash@, "admin"@, now),
    );
    proof {
        api::lemma_single(state.db@, state.db.changes(), c);
    }
    match state.db.insert_user(
        id.as_str(),
        username.as_str(),
        display_name.as_str(),
        hash.as_str(),
        "admin",
        now,
    ) {
        Ok(_) => Ok(User { id, username, display_name, role: "admin".to_string() }),
        Err(_) => Err(reply::db_failure()),
    }
}

/// Creates the first account, which is an administrator's.
pub fn setup(state: &mut AppState, body: &SetupBody, now: i64) -> (r: Result<User, ApiError>)
    ensures
        match setup_objection(old(state).db@, *body) {
            Some(e) => final(state).reached(old(state), reply::shown(r), api::refused(e)),
            None => exists|id: Seq<char>, hash: Result<Seq<char>, Refusal>|
                #[trigger] secrets::is_id("user"@, id) && #[trigger] secrets::hashed(
                    body.password@,
                    hash,
                ) && final(state).reached(
                    old(state),
                    reply::shown(r),
                    founding(old(state).db@, *body, id, hash, now),
                ),
        },
{
    proof {
        api::lemma_nothing(state);
    }
    if state.db.user_count() > 0 {
        return Err(reply::err(reply::CONFLICT, "already set up"));
    }
    if is_too_short(body.username.as_str(), body.password.as_str()) {
        return Err(reply::err(reply::BAD_REQUEST, "username or password too short"));
    }
    let id = secrets::new_id("user");
    let hash = secrets::hash_password(body.password.as_str());
    setup_with(state, body, id, hash, now)
}

/// The directory of the desk that is made for the owner of a personal server.
pub open spec fn desk_path(state: AppState) -> Seq<u8> {
    paths::joined(state.data_dir@, encode_utf8("desk"@))
}

/// The directory to make before a personal server has its first sandbox, if it needs
/// one.
pub fn desk_to_make(state: &AppState) -> (r: Option<Vec<u8>>)
    ensures
        match r {
            Some(p) => state.personal && state.db@.sandboxes.len() == 0 && p@ == desk_path(*state),
            None => !(state.personal && state.db@.sandboxes.len() == 0),
        },
{
    if state.personal && no_sandboxes(state) {
        Some(paths::join(state.data_dir.as_slice(), "desk".as_bytes()))
    } else {
        None
    }
}

/// Whether there are no sandboxes.
fn no_sandboxes(state: &AppState) -> (r: bool)
    ensures
        r == (state.db@.sandboxes.len() == 0),
{
    let all = state.db.sandboxes();
    proof {
        order::arranged_same_elements(
            state.db@.sandboxes.map_values(|s: SandboxRowV| s.place()),
            |s: SandboxV| s.name,
        );
    }
    all.len() == 0
}

/// What is done to give the owner of a personal server a desk, where there is no sandbox
/// yet: given the outcome of making its directory and the identifier of the sandbox, the
/// sandbox and a grant of everything are added.
pub open spec fn desk_given(
    state: AppState,
    user_id: Seq<char>,
    made: Result<(), Seq<char>>,
    id: Seq<char>,
    now: i64,
) -> Outcome<()> {
    let t = state.db@;
    if t.sandboxes.len() > 0 {
        (Seq::empty(), Ok(()))
    } else {
        match made {
            Err(e) => api::refused((reply::INTERNAL_SERVER_ERROR, e)),
            Ok(_) => {
                let c = ChangeV::InsertSandbox(
                    SandboxRowV {
                        id,
                        name: "Desk"@,
                        path: text::reads_as(desk_path(state)),
                        description: "Personal desk"@,
                        created_at: now,
                    },
                );
                let g = ChangeV::PutGrant(api::full_grant(user_id, id));
                if t.run(c).violation(g) is Some {
                    (seq![c], Err(reply::refusal(reply::INTERNAL_SERVER_ERROR, "db")))
                } else {
                    (seq![c, g], Ok(()))
                }
            },
        }
    }
}

/// Gives the owner of a personal server a desk under the given identifier, if there is
/// no sandbox yet.
pub fn ensure_personal_sandbox_with(
    state: &mut AppState,
    user_id: &str,
    made: Result<(), String>,
    id: String,
    now: i64,
) -> (r: Result<(), ApiError>)
    ensures
        final(state).reached(
            old(state),
            reply::shown(r),
            desk_given(*old(state), user_id@, reply::told(made), id@, now),
        ),
{
    let ghost t = state.db@;
    let ghost log = state.db.changes();
    proof {
        api::lemma_nothing(state);
    }
    if !no_sandboxes(state) {
        return Ok(());
    }
    match made {
        Err(e) => {
            return Err(ApiError { status: reply::INTERNAL_SERVER_ERROR, error: e });
        },
        Ok(_) => {},
    }
    let path = paths::join(state.data_dir.as_slice(), "desk".as_bytes());
    let path = text::reading(path.as_slice());
    let g = Grant {
        user_id: user_id.to_string(),
        sandbox_id: id.clone(),
        can_read: true,
        can_write: true,
        can_shell: true,
        can_admin: true,
    };
    let ghost s = SandboxRowV {
        id: id@,
        name: "Desk"@,
        path: path@,
        description: "Personal desk"@,
        created_at: now,
    };
    let ghost c = ChangeV::InsertSandbox(s);
    proof {
        api::lemma_single(t, log, c);
        let p = |s: SandboxRowV| s.id == id@;
        tables::lemma_first_push(t.sandboxes, s, p);
        api::lemma_pair(t, log, c, ChangeV::PutGrant(g@));
    }
    if state.db.insert_sandbox(id.as_str(), "Desk", path.as_str(), "Personal desk", now).is_err() {
        return Err(reply::db_failure());
    }
    if state.db.put_grant(&g).is_err() {
        return Err(reply::db_failure());
    }
    Ok(())
}

/// Gives the owner of a personal server a desk, if there is no sandbox yet.
pub fn ensure_personal_sandbox(
    state: &mut AppState,
    user_id: &str,
    made: Result<(), String>,
    now: i64,
) -> (r: Result<(), ApiError>)
    ensures
        exists|id: Seq<char>| #[trigger]
            secrets::is_id("box"@, id) && final(state).reached(
                old(state),
                reply::shown(r),
                desk_given(*old(state), user_id@, reply::told(made), id, now),
            ),
{
    let id = secrets::new_id("box");
    ensure_personal_sandbox_with(state, user_id, made, id, now)
}

/// What beginning a session with this token leads to.
pub open spec fn session_begun(t: Tables, user: UserV, token: Seq<char>, now: i64) -> Outcome<
    SessionBodyV,
> {
    api::attempt(
        t,
        ChangeV::InsertSession(
            SessionRowV {
                token,
                user_id: user.id,
                created_at: now,
                expires_at: (now + SESSION_SECONDS) as i64,
            },
        ),
        SessionBodyV { token, user },
    )
}

/// Begins a session of a user with the given token.
pub fn issue_with(state: &mut AppState, user: &User, token: String, now: i64) -> (r: Result<
    SessionBody,
    ApiError,
>)
    requires
        now + SESSION_SECONDS <= i64::MAX,
    ensures
        final(state).reached(
            old(state),
            reply::shown(r),
            session_begun(old(state).db@, user@, token@, now),
        ),
{
    let ghost c = ChangeV::InsertSession(
        SessionRowV {
            token: token@,
            user_id: user.id@,
            created_at: now,
            expires_at: (now + SESSION_SECONDS) as i64,
        },
    );
    proof {
        api::lemma_nothing(state);
        api::lemma_single(state.db@, state.db.changes(), c);
    }
    match state.db.put_session(token.as_str(), user.id.as_str(), SESSION_SECONDS, now) {
        Ok(_) => Ok(SessionBody { token, user: user.copy() }),
        Err(_) => Err(reply::db_failure()),
    }
}

/// Begins a session of a user.
pub fn issue(state: &mut AppState, user: &User, now: i64) -> (r: Result<SessionBody, ApiError>)
    requires
        now + SESSION_SECONDS <= i64::MAX,
    ensures
        exists|token: Seq<char>| #[trigger]
            secrets::is_token(token) && final(state).reached(
                old(state),
                reply::shown(r),
                session_begun(old(state).db@, user@, token, now),
            ),
{
    let token = secrets::new_token();
    issue_with(state, user, token, now)
}

/// What follows the creation of the first account: on a personal server the desk is
/// given, and a session of the user begins.
pub open spec fn settled(
    state: AppState,
    user: UserV,
    made: Result<(), Seq<char>>,
    id: Seq<char>,
    token: Seq<char>,
    now: i64,
) -> Outcome<SessionBodyV> {
    let desk: Outcome<()> = if state.personal {
        desk_given(state, user.id, made, id, now)
    } else {
        (Seq::empty(), Ok(()))
    };
    match desk.1 {
        Err(e) => (desk.0, Err(e)),
        Ok(_) => {
            let begun = session_begun(state.db@.run_all(desk.0), user, token, now);
            (desk.0 + begun.0, begun.1)
        },
    }
}

/// Completes the creation of the first account with the given identifier of the desk and
/// the given token.
pub fn setup_finish_with(
    state: &mut AppState,
    user: &User,
    made: Result<(), String>,
    id: String,
    token: String,
    now: i64,
) -> (r: Result<SessionBody, ApiError>)
    requires
        now + SESSION_SECONDS <= i64::MAX,
    ensures
        final(state).reached(
            old(state),
            reply::shown(r),
            settled(*old(state), user@, reply::told(made), id@, token@, now),
        ),
{
    let ghost before = *state;
    let ghost desk: Outcome<()> = if before.personal {
        desk_given(before, user@.id, reply::told(made), id@, now)
    } else {
        (Seq::empty(), Ok(()))
    };
    proof {
        api::lemma_nothing(state);
    }
    if state.personal {
        ensure_personal_sandbox_with(state, user.id.as_str(), made, id, now)?;
    }
    let ghost begun = session_begun(state.db@, user@, token@, now);
    proof {
        tables::changes_in_sequence(before.db@, desk.0, begun.0);
        assert(before.db.changes() + desk.0 + begun.0 =~= before.db.changes() + (desk.0
            + begun.0));
    }
    issue_with(state, user, token, now)
}

/// Completes the creation of the first account: `made` is the outcome of making the
/// directory of the desk, where there was one to make.
pub fn setup_finish(state: &mut AppState, user: &User, made: Result<(), String>, now: i64) -> (r:
    Result<SessionBody, ApiError>)
    requires
        now + SESSION_SECONDS <= i64::MAX,
    ensures
        exists|id: Seq<char>, token: Seq<char>|
            #![trigger secrets::is_id("box"@, id), secrets::is_token(token)]
            secrets::is_id("box"@, id) && secrets::is_token(token) && final(state).reached(
                old(state),
                reply::shown(r),
                settled(*old(state), user@, reply::told(made), id, token, now),
            ),
{
    let id = secrets::new_id("box");
    let token = secrets::new_token();
    setup_finish_with(state, user, made, id, token, now)
}

/// Why a user may not sign in, if they may not.
pub open spec fn login_objection(t: Tables, body: LoginBody) -> Option<Refusal> {
    match t.user_row_named(text::trim(body.username@)) {
        Some(row) if secrets::opens(body.password@, row.password_hash) => None,
        _ => Some(reply::refusal(reply::UNAUTHORIZED, "invalid username or password")),
    }
}

/// What signing in leads to, given the token of the session.
pub open spec fn signed_in(t: Tables, body: LoginBody, token: Seq<char>, now: i64) -> Outcome<
    SessionBodyV,
> {
    match (login_objection(t, body), t.user_row_named(text::trim(body.username@))) {
        (None, Some(row)) => session_begun(t, row.person(), token, now),
        _ => api::refused(reply::refusal(reply::UNAUTHORIZED, "invalid username or password")),
    }
}

/// The account that the name and the password belong to.
fn known(state: &AppState, body: &LoginBody) -> (r: Result<User, ApiError>)
    ensures
        match login_objection(state.db@, *body) {
            Some(e) => r matches Err(f) && f@ == e,
            None => r matches Ok(u) && (state.db@.user_row_named(text::trim(body.username@)) matches Some(
                row,
            ) && row.person() == u@),
        },
{
    let username = text::trimmed(body.username.as_str());
    match state.db.user_by_username(username.as_str()) {
        Some((user, hash)) => {
            if secrets::verify_password(body.password.as_str(), hash.as_str()) {
                Ok(user)
            } else {
                Err(reply::err(reply::UNAUTHORIZED, "invalid username or password"))
            }
        },
        None => Err(reply::err(reply::UNAUTHORIZED, "invalid username or password")),
    }
}

/// Signs a user in with the given token.
pub fn login_with(state: &mut AppState, body: &LoginBody, token: String, now: i64) -> (r: Result<
    SessionBody,
    ApiError,
>)
    requires
        now + SESSION_SECONDS <= i64::MAX,
    ensures
        final(state).reached(
            old(state),
            reply::shown(r),
            signed_in(old(state).db@, *body, token@, now),
        ),
{
    proof {
        api::lemma_nothing(state);
    }
    let user = known(state, body)?;
    issue_with(state, &user, token, now)
}

/// Signs a user in.
pub fn login(state: &mut AppState, body: &LoginBody, now: i64) -> (r: Result<SessionBody, ApiError>)
    requires
        now + SESSION_SECONDS <= i64::MAX,
    ensures
        match login_objection(old(state).db@, *body) {
            Some(e) => final(state).reached(old(state), reply::shown(r), api::refused(e)),
            None => exists|token: Seq<char>| #[trigger]
                secrets::is_token(token) && final(state).reached(
                    old(state),
                    reply::shown(r),
                    signed_in(old(state).db@, *body, token, now),
                ),
        },
{
    proof {
        api::lemma_nothing(state);
    }
    let user = known(state, body)?;
    issue(state, &user, now)
}

/// What signing out leads to.
pub open spec fn signed_out(h: Option<Seq<u8>>) -> Outcome<u16> {
    match api::bearer_token(h) {
        Some(token) => (seq![ChangeV::DeleteSession { token }], Ok(reply::NO_CONTENT)),
        None => (Seq::empty(), Ok(reply::NO_CONTENT)),
    }
}

/// Ends the session that a request belongs to, if any.
pub fn logout(state: &mut AppState, header: Option<&[u8]>) -> (r: Result<u16, ApiError>)
    ensures
        final(state).reached(old(state), reply::shown(r), signed_out(api::header_view(header))),
{
    proof {
        api::lemma_nothing(state);
    }
    if let Some(token) = api::bearer(header) {
        proof {
            api::lemma_single(
                state.db@,
                state.db.changes(),
                ChangeV::DeleteSession { token: token@ },
            );
        }
        state.db.delete_session(token.as_str());
    }
    Ok(reply::NO_CONTENT)
}

/// Whether some grant lets a user read, write or use a shell in a sandbox.
pub open spec fn may_see(t: Tables, user_id: Seq<char>, sandbox_id: Seq<char>) -> bool {
    exists|i: int|
        0 <= i < t.grants.len() && (#[trigger] t.grants[i]).user_id == user_id
            && t.grants[i].sandbox_id == sandbox_id && (t.grants[i].can_read
            || t.grants[i].can_write || t.grants[i].can_shell)
}

/// The sandboxes that a user sees: all for an administrator, and for others those in
/// which some grant lets them read, write or use a shell.
pub open spec fn visible(t: Tables, u: UserV) -> Seq<SandboxV> {
    if api::is_admin(u) {
        t.places()
    } else {
        t.places().filter(|s: SandboxV| may_see(t, u.id, s.id))
    }
}

/// What a user is told about themselves.
pub open spec fn profile(t: Tables, u: UserV) -> MeBodyV {
    let sandboxes = visible(t, u);
    MeBodyV {
        user: u,
        sandboxes,
        default_sandbox_id: if sandboxes.len() > 0 {
            Some(sandboxes[0].id)
        } else {
            None
        },
    }
}

/// Whether some of the grants lets a user read, write or use a shell in a sandbox.
fn is_allowed(grants: &Vec<Grant>, user_id: &str, sandbox_id: &str, Ghost(t): Ghost<Tables>) -> (r:
    bool)
    requires
        order::rows(grants@) == t.grants,
    ensures
        r == may_see(t, user_id@, sandbox_id@),
{
    assert(t.grants.len() == grants@.len());
    let mut i: usize = 0;
    while i < grants.len()
        invariant
            i <= grants@.len(),
            order::rows(grants@) == t.grants,
            t.grants.len() == grants@.len(),
            forall|j: int|
                0 <= j < i ==> !((#[trigger] t.grants[j]).user_id == user_id@
                    && t.grants[j].sandbox_id == sandbox_id@ && (t.grants[j].can_read
                    || t.grants[j].can_write || t.grants[j].can_shell)),
        decreases grants@.len() - i,
    {
        let g = &grants[i];
        assert(t.grants[i as int] == g@);
        if text::same(g.user_id.as_str(), user_id) && (g.can_read || g.can_write || g.can_shell)
            && text::same(g.sandbox_id.as_str(), sandbox_id) {
            return true;
        }
        i = i + 1;
    }
    false
}

/// The account that a request comes from, with the sandboxes that it sees.
pub fn me(state: &AppState, header: Option<&[u8]>, now: i64) -> (r: Result<MeBody, ApiError>)
    ensures
        reply::shown(r) == match api::requester(state.db@, api::header_view(header), now) {
            Ok(u) => Ok(profile(state.db@, u)),
            Err(e) => Err(e),
        },
{
    let user = api::auth(state, header, now)?;
    let all = state.db.sandboxes();
    let sandboxes = if text::same(user.role.as_str(), "admin") {
        all
    } else {
        let grants = state.db.grants();
        let ghost t = state.db@;
        let ghost p = |s: SandboxV| may_see(t, user@.id, s.id);
        let ghost rows = order::rows(all@);
        let mut v: Vec<Sandbox> = Vec::new();
        let mut i: usize = 0;
        proof {
            reveal(Seq::filter);
            assert(rows.take(0).filter(p) =~= Seq::<SandboxV>::empty());
            assert(order::rows(v@) =~= Seq::<SandboxV>::empty());
        }
        while i < all.len()
            invariant
                i <= all@.len(),
                t == state.db@,
                rows == order::rows(all@),
                p == (|s: SandboxV| may_see(t, user@.id, s.id)),
                order::rows(grants@) == t.grants,
                order::rows(v@) == rows.take(i as int).filter(p),
            decreases all@.len() - i,
        {
            let ghost x = rows[i as int];
            assert(x == all@[i as int]@);
            proof {
                assert(rows.take(i + 1) =~= rows.take(i as int).push(x));
                order::lemma_filter_push(rows.take(i as int), x, p);
            }
            if is_allowed(&grants, user.id.as_str(), all[i].id.as_str(), Ghost(t)) {
                let ghost w = v@;
                v.push(all[i].copy());
                assert(order::rows(v@) =~= order::rows(w).push(x));
            }
            i = i + 1;
        }
        assert(rows.take(i as int) =~= rows);
        v
    };
    assert(order::rows(sandboxes@) == visible(state.db@, user@));
    assert(sandboxes@.len() == visible(state.db@, user@).len());
    let default_sandbox_id = if sandboxes.len() > 0 {
        assert(order::rows(sandboxes@)[0] == sandboxes@[0]@);
        Some(sandboxes[0].id.clone())
    } else {
        None
    };
    Ok(MeBody { user, sandboxes, default_sandbox_id })
}

/// All accounts, for an administrator.
pub fn users(state: &AppState, header: Option<&[u8]>, now: i64) -> (r: Result<Vec<User>, ApiError>)
    ensures
        api::shown_list(r) == match api::admin_requester(state.db@, api::header_view(header), now) {
            Ok(_) => Ok(state.db@.people()),
            Err(e) => Err(e),
        },
{
    api::auth_admin(state, header, now)?;
    Ok(state.db.users())
}

/// Why an account may not be created, if it may not.
pub open spec fn create_objection(t: Tables, h: Option<Seq<u8>>, body: NewUser, now: i64) -> Option<
    Refusal,
> {
    match api::admin_requester(t, h, now) {
        Err(e) => Some(e),
        Ok(_) => if too_short(body.username@, body.password@) {
            Some(reply::refusal(reply::BAD_REQUEST, "username or password too short"))
        } else {
            None
        },
    }
}

/// The role of a new account: an administrator's where that is asked for, else a
/// member's.
pub open spec fn role_for(asked: Option<Seq<char>>) -> Seq<char> {
    if asked == Some("admin"@) {
        "admin"@
    } else {
        "member"@
    }
}

/// What a request for an account leads to, given its identifier and the outcome of
/// hashing its password.
pub open spec fn enrolled(
    t: Tables,
    h: Option<Seq<u8>>,
    body: NewUser,
    id: Seq<char>,
    hash: Result<Seq<char>, Refusal>,
    now: i64,
) -> Outcome<UserV> {
    match (create_objection(t, h, body, now), hash) {
        (Some(e), _) => api::refused(e),
        (None, Err(e)) => api::refused(e),
        (None, Ok(x)) => {
            let u = account(
                id,
                body.username@,
                tables::opt(body.display_name),
                x,
                role_for(tables::opt(body.role)),
                now,
            );
            match t.violation(ChangeV::InsertUser(u)) {
                Some(e) => api::refused((reply::CONFLICT, e.spec_text())),
                None => (seq![ChangeV::InsertUser(u)], Ok(u.person())),
            }
        },
    }
}

/// Refuses an account that may not be created.
fn check_new_user(state: &AppState, header: Option<&[u8]>, body: &NewUser, now: i64) -> (r: Result<
    (),
    ApiError,
>)
    ensures
        match create_objection(state.db@, api::header_view(header), *body, now) {
            Some(e) => r matches Err(f) && f@ == e,
            None => r is Ok,
        },
{
    api::auth_admin(state, header, now)?;
    if is_too_short(body.username.as_str(), body.password.as_str()) {
        return Err(reply::err(reply::BAD_REQUEST, "username or password too short"));
    }
    Ok(())
}

/// The role of a new account.
fn role_of(asked: &Option<String>) -> (r: String)
    ensures
        r@ == role_for(tables::opt(*asked)),
{
    match asked {
        Some(s) => {
            if text::same(s.as_str(), "admin") {
                "admin".to_string()
            } else {
                "member".to_string()
            }
        },
        None => "member".to_string(),
    }
}

/// Creates an account under the given identifier and password hash.
pub fn create_user_with(
    state: &mut AppState,
    header: Option<&[u8]>,
    body: &NewUser,
    id: String,
    hash: Result<String, ApiError>,
    now: i64,
) -> (r: Result<User, ApiError>)
    ensures
        final(state).reached(
            old(state),
            reply::shown(r),
            enrolled(old(state).db@, api::header_view(header), *body, id@, reply::shown(hash), now),
        ),
{
    proof {
        api::lemma_nothing(state);
    }
    check_new_user(state, header, body, now)?;
    let hash = hash?;
    let role = role_of(&body.role);
    let username = text::trimmed(body.username.as_str());
    let display_name = display(&body.display_name, body.username.as_str());
    let ghost c = ChangeV::InsertUser(
        account(id@, body.username@, tables::opt(body.display_name), hash@, role@, now),
    );
    proof {
        api::lemma_single(state.db@, state.db.changes(), c);
    }
    match state.db.insert_user(
        id.as_str(),
        username.as_str(),
        display_name.as_str(),
        hash.as_str(),
        role.as_str(),
        now,
    ) {
        Ok(_) => Ok(User { id, username, display_name, role }),
        Err(e) => Err(ApiError { status: reply::CONFLICT, error: e.text() }),
    }
}

/// Creates an account, for an administrator.
pub fn create_user(state: &mut AppState, header: Option<&[u8]>, body: &NewUser, now: i64) -> (r:
    Result<User, ApiError>)
    ensures
        match create_objection(old(state).db@, api::header_view(header), *body, now) {
            Some(e) => final(state).reached(old(state), reply::shown(r), api::refused(e)),
            None => exists|id: Seq<char>, hash: Result<Seq<char>, Refusal>|
                #[trigger] secrets::is_id("user"@, id) && #[trigger] secrets::hashed(
                    body.password@,
                    hash,
                ) && final(state).reached(
                    old(state),
                    reply::shown(r),
                    enrolled(old(state).db@, api::header_view(header), *body, id, hash, now),
                ),
        },
{
    proof {
        api::lemma_nothing(state);
    }
    check_new_user(state, header, body, now)?;
    let id = secrets::new_id("user");
    let hash = secrets::hash_password(body.password.as_str());
    create_user_with(state, header, body, id, hash, now)
}

/// Why an account may not be changed, if it may not, before a new password is hashed.
pub open spec fn patch_objection(t: Tables, h: Option<Seq<u8>>, body: PatchUser, now: i64) -> Option<
    Refusal,
> {
    match api::admin_requester(t, h, now) {
        Err(e) => Some(e),
        Ok(_) => match body.password {
            Some(p) if encode_utf8(p@).len() < 8 => Some(
                reply::refusal(reply::BAD_REQUEST, "password too short"),
            ),
            _ => None,
        },
    }
}

/// Whether `hash` is what hashing the new password can give, where there is one.
pub open spec fn rehashed(body: PatchUser, hash: Result<Option<Seq<char>>, Refusal>) -> bool {
    match body.password {
        Some(p) => exists|x: Result<Seq<char>, Refusal>| #[trigger]
            secrets::hashed(p@, x) && hash == (match x {
                Ok(s) => Ok::<Option<Seq<char>>, Refusal>(Some(s)),
                Err(e) => Err(e),
            }),
        None => hash == Ok::<Option<Seq<char>>, Refusal>(None),
    }
}

/// What a request to change an account leads to, given the outcome of hashing the new
/// password.
pub open spec fn amended(
    t: Tables,
    h: Option<Seq<u8>>,
    id: Seq<char>,
    body: PatchUser,
    hash: Result<Option<Seq<char>>, Refusal>,
    now: i64,
) -> Outcome<UserV> {
    let role = tables::opt(body.role);
    match (patch_objection(t, h, body, now), hash) {
        (Some(e), _) => api::refused(e),
        (None, Err(e)) => api::refused(e),
        (None, Ok(password_hash)) => if role is Some && role != Some("admin"@) && role != Some(
            "member"@,
        ) {
            api::refused(reply::refusal(reply::BAD_REQUEST, "role must be admin or member"))
        } else {
            let c = ChangeV::UpdateUser {
                id,
                display_name: tables::opt(body.display_name),
                role,
                password_hash,
            };
            (
                seq![c],
                match t.run(c).user(id) {
                    Some(u) => Ok(u),
                    None => Err(reply::refusal(reply::NOT_FOUND, "no such user")),
                },
            )
        },
    }
}

/// Refuses a change of an account that may not be made.
fn check_patch(state: &AppState, header: Option<&[u8]>, body: &PatchUser, now: i64) -> (r: Result<
    (),
    ApiError,
>)
    ensures
        match patch_objection(state.db@, api::header_view(header), *body, now) {
            Some(e) => r matches Err(f) && f@ == e,
            None => r is Ok,
        },
{
    api::auth_admin(state, header, now)?;
    if let Some(p) = &body.password {
        if text::byte_len(p.as_str()) < 8 {
            return Err(reply::err(reply::BAD_REQUEST, "password too short"));
        }
    }
    Ok(())
}

/// Changes an account, given the outcome of hashing the new password, where there is one.
pub fn patch_user_with(
    state: &mut AppState,
    header: Option<&[u8]>,
    id: &str,
    body: &PatchUser,
    hash: Result<Option<String>, ApiError>,
    now: i64,
) -> (r: Result<User, ApiError>)
    ensures
        final(state).reached(
            old(state),
            reply::shown(r),
            amended(old(state).db@, api::header_view(header), id@, *body, api::shown_opt(hash), now),
        ),
{
    proof {
        api::lemma_nothing(state);
    }
    check_patch(state, header, body, now)?;
    let hash = hash?;
    let role = api::borrowed(&body.role);
    if let Some(r) = role {
        if !text::same(r, "admin") && !text::same(r, "member") {
            return Err(reply::err(reply::BAD_REQUEST, "role must be admin or member"));
        }
    }
    let ghost c = ChangeV::UpdateUser {
        id: id@,
        display_name: tables::opt(body.display_name),
        role: tables::opt(body.role),
        password_hash: tables::opt(hash),
    };
    proof {
        api::lemma_single(state.db@, state.db.changes(), c);
    }
    state.db.update_user(id, api::borrowed(&body.display_name), role, api::borrowed(&hash));
    match state.db.user_by_id(id) {
        Some(u) => Ok(u),
        None => Err(reply::err(reply::NOT_FOUND, "no such user")),
    }
}

/// Changes an account, for an administrator.
pub fn patch_user(
    state: &mut AppState,
    header: Option<&[u8]>,
    id: &str,
    body: &PatchUser,
    now: i64,
) -> (r: Result<User, ApiError>)
    ensures
        match patch_objection(old(state).db@, api::header_view(header), *body, now) {
            Some(e) => final(state).reached(old(state), reply::shown(r), api::refused(e)),
            None => exists|hash: Result<Option<Seq<char>>, Refusal>| #[trigger]
                rehashed(*body, hash) && final(state).reached(
                    old(state),
                    reply::shown(r),
                    amended(old(state).db@, api::header_view(header), id@, *body, hash, now),
                ),
        },
{
    proof {
        api::lemma_nothing(state);
    }
    check_patch(state, header, body, now)?;
    let hash: Result<Option<String>, ApiError> = match &body.password {
        Some(p) => match secrets::hash_password(p.as_str()) {
            Ok(h) => Ok(Some(h)),
            Err(e) => Err(e),
        },
        None => Ok(None),
    };
    assert(rehashed(*body, api::shown_opt(hash)));
    patch_user_with(state, header, id, body, hash, now)
}

/// What a request to delete an account leads to.
pub open spec fn expelled(t: Tables, h: Option<Seq<u8>>, id: Seq<char>, now: i64) -> Outcome<u16> {
    match api::admin_requester(t, h, now) {
        Err(e) => api::refused(e),
        Ok(u) => if u.id == id {
            api::refused(reply::refusal(reply::BAD_REQUEST, "cannot delete yourself"))
        } else {
            (seq![ChangeV::DeleteUser { id }], Ok(reply::NO_CONTENT))
        },
    }
}

/// Deletes an account, for an administrator.
pub fn delete_user(state: &mut AppState, header: Option<&[u8]>, id: &str, now: i64) -> (r: Result<
    u16,
    ApiError,
>)
    ensures
        final(state).reached(
            old(state),
            reply::shown(r),
            expelled(old(state).db@, api::header_view(header), id@, now),
        ),
{
    proof {
        api::lemma_nothing(state);
        api::lemma_single(state.db@, state.db.changes(), ChangeV::DeleteUser { id: id@ });
    }
    let actor = api::auth_admin(state, header, now)?;
    if text::same(actor.id.as_str(), id) {
        return Err(reply::err(reply::BAD_REQUEST, "cannot delete yourself"));
    }
    state.db.delete_user(id);
    Ok(reply::NO_CONTENT)
}

/// An answer is told with all that it holds.
pub proof fn answers_are_told_field_by_field(s: SessionBody, m: MeBody)
    ensures
        s@.token == s.token@ && s@.user == s.user@,
        m@.user == m.user@,
        m@.sandboxes.len() == m.sandboxes@.len(),
        forall|i: int| 0 <= i < m.sandboxes@.len() ==> #[trigger] m@.sandboxes[i]
            == m.sandboxes@[i]@,
        m@.default_sandbox_id is Some <==> m.default_sandbox_id is Some,
        m.default_sandbox_id matches Some(x) ==> m@.default_sandbox_id == Some(x@),
{
}

/// A password that is changed is hashed, and nothing is hashed where none is given.
pub proof fn new_passwords_are_hashed(body: PatchUser, hash: Result<Option<Seq<char>>, Refusal>)
    requires
        rehashed(body, hash),
    ensures
        body.password is None ==> hash == Ok::<Option<Seq<char>>, Refusal>(None),
        body.password matches Some(p) ==> {
            &&& hash is Ok <==> encode_utf8(p@).len() <= 0xFFFF_FFFF
            &&& hash is Ok ==> (hash->Ok_0 matches Some(x) && secrets::opens(p@, x))
            &&& hash matches Err(e) ==> e == (500u16, "password hash failed"@)
        },
{
}

} // verus!
