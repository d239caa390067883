//! What holds of the server as a whole: how requests that follow each other relate, and
//! what no request can bring about.

use vstd::prelude::*;
use vstd::utf8::*;

use crate::accounts;
use crate::accounts::{LoginBody, NewUser, PatchUser, SetupBody, SESSION_SECONDS};
use crate::api;
use crate::api::{AppState, Outcome};
use crate::config;
use crate::files;
use crate::files::Need;
use crate::order;
use crate::paths;
use crate::reply;
use crate::reply::Refusal;
use crate::sandboxes;
use crate::sandboxes::{GrantBody, NewSandbox, PatchSandbox};
use crate::secrets;
use crate::tables;
use crate::tables::{ChangeV, GrantV, SandboxRowV, SandboxV, SessionRowV, Tables, UserRowV, UserV};
use crate::term;
use crate::text;

verus! {

// ---------------------------------------------------------------------------
// Sessions
// ---------------------------------------------------------------------------

/// A list of one change, spelled out.
pub(crate) proof fn lemma_one(t: Tables, c: ChangeV)
    ensures
        t.run_all(seq![c]) == t.run(c),
        t.run_all(Seq::empty()) == t,
{
    api::lemma_single(t, Seq::empty(), c);
}

/// A session that was entered is found under its token until it expires, and not after.
pub(crate) proof fn lemma_session_entered(t: Tables, s: SessionRowV, k: Seq<char>, then: i64)
    requires
        t.violation(ChangeV::InsertSession(s)) is None,
    ensures
        t.run(ChangeV::InsertSession(s)).session_user(k, then) == if k == s.token {
            if s.expires_at > then {
                t.user(s.user_id)
            } else {
                None
            }
        } else {
            t.session_user(k, then)
        },
{
    let p = |x: SessionRowV| x.token == k && x.expires_at > then;
    tables::lemma_first_push(t.sessions, s, p);
    if k == s.token {
        let q = |x: SessionRowV| x.token == k;
        tables::lemma_first(t.sessions, q);
        tables::lemma_first(t.sessions, p);
    }
}

/// The token of a session that begins signs its owner in for fourteen days. From then on
/// it is refused.
pub proof fn token_signs_in_until_it_expires(
    t: Tables,
    user: UserV,
    token: Seq<char>,
    now: i64,
    then: i64,
)
    requires
        now + 14 * 24 * 60 * 60 <= i64::MAX,
        accounts::session_begun(t, user, token, now).1 is Ok,
    ensures
        ({
            let after = t.run_all(accounts::session_begun(t, user, token, now).0);
            let owner = api::token_owner(after, Some(token), then);
            if then < now + 14 * 24 * 60 * 60 {
                t.user(user.id) matches Some(u) && owner == Ok::<UserV, Refusal>(u)
            } else {
                owner == Err::<UserV, Refusal>(reply::refusal(reply::UNAUTHORIZED, "sign in"))
            }
        }),
{
    let s = SessionRowV {
        token,
        user_id: user.id,
        created_at: now,
        expires_at: (now + SESSION_SECONDS) as i64,
    };
    lemma_one(t, ChangeV::InsertSession(s));
    lemma_session_entered(t, s, token, then);
}

/// Beginning a session changes nothing for the tokens of others.
pub proof fn sessions_do_not_disturb_each_other(
    t: Tables,
    user: UserV,
    token: Seq<char>,
    now: i64,
    other: Seq<char>,
    then: i64,
)
    requires
        other != token,
    ensures
        api::token_owner(
            t.run_all(accounts::session_begun(t, user, token, now).0),
            Some(other),
            then,
        ) == api::token_owner(t, Some(other), then),
{
    let s = SessionRowV {
        token,
        user_id: user.id,
        created_at: now,
        expires_at: (now + SESSION_SECONDS) as i64,
    };
    lemma_one(t, ChangeV::InsertSession(s));
    if t.violation(ChangeV::InsertSession(s)) is None {
        lemma_session_entered(t, s, other, then);
    }
}

/// In tables that keep their rules, a row found by its username is the one found by its
/// identifier.
pub(crate) proof fn lemma_named(t: Tables, name: Seq<char>)
    requires
        t.wf(),
    ensures
        t.user_row_named(name) matches Some(row) ==> row.username == name && t.user_row(row.id)
            == Some(row),
{
    let p = |u: UserRowV| u.username == name;
    tables::lemma_first(t.users, p);
    if let Some(row) = t.user_row_named(name) {
        let k = choose|k: int|
            0 <= k < t.users.len() && (#[trigger] t.users[k]) == row && forall|j: int|
                0 <= j < k ==> !p(#[trigger] t.users[j]);
        let q = |u: UserRowV| u.id == row.id;
        let names = |a: UserRowV, b: UserRowV| a.id != b.id && a.username != b.username;
        assert forall|j: int| 0 <= j < k implies !q(#[trigger] t.users[j]) by {
            assert(names(t.users[j], t.users[k]));
        }
        tables::lemma_first_at(t.users, q, k);
    }
}

/// Whoever signs in is then taken for the owner of the account whose name and password
/// they gave, for fourteen days.
pub proof fn signing_in_works(t: Tables, body: LoginBody, token: Seq<char>, now: i64, then: i64)
    requires
        t.wf(),
        then < now + SESSION_SECONDS <= i64::MAX,
        accounts::signed_in(t, body, token, now).1 is Ok,
    ensures
        t.user_row_named(text::trim(body.username@)) matches Some(row) && secrets::opens(
            body.password@,
            row.password_hash,
        ) && accounts::signed_in(t, body, token, now).1 == Ok::<
            accounts::SessionBodyV,
            Refusal,
        >(accounts::SessionBodyV { token, user: row.person() }) && api::token_owner(
            t.run_all(accounts::signed_in(t, body, token, now).0),
            Some(token),
            then,
        ) == Ok::<UserV, Refusal>(row.person()),
{
    lemma_named(t, text::trim(body.username@));
    let row = t.user_row_named(text::trim(body.username@))->0;
    token_signs_in_until_it_expires(t, row.person(), token, now, then);
}

/// A wrong name or password is refused, always in the same words, and changes nothing.
pub proof fn wrong_credentials_are_refused(t: Tables, body: LoginBody, token: Seq<char>, now: i64)
    requires
        t.user_row_named(text::trim(body.username@)) matches Some(row) ==> !secrets::opens(
            body.password@,
            row.password_hash,
        ),
    ensures
        accounts::signed_in(t, body, token, now) == api::refused::<accounts::SessionBodyV>(
            reply::refusal(reply::UNAUTHORIZED, "invalid username or password"),
        ),
{
}

/// Signing out ends the session of the token that the request carries, and no other.
pub proof fn signing_out_ends_one_session(
    t: Tables,
    h: Option<Seq<u8>>,
    token: Seq<char>,
    other: Seq<char>,
    then: i64,
)
    requires
        api::bearer_token(h) == Some(token),
        other != token,
    ensures
        ({
            let after = t.run_all(accounts::signed_out(h).0);
            &&& api::token_owner(after, Some(token), then) == Err::<UserV, Refusal>(
                reply::refusal(reply::UNAUTHORIZED, "sign in"),
            )
            &&& api::token_owner(after, Some(other), then) == api::token_owner(
                t,
                Some(other),
                then,
            )
        }),
{
    let c = ChangeV::DeleteSession { token };
    lemma_one(t, c);
    let keep = |s: SessionRowV| s.token != token;
    let p = |s: SessionRowV| s.token == token && s.expires_at > then;
    let q = |s: SessionRowV| s.token == other && s.expires_at > then;
    tables::lemma_first_filter(t.sessions, keep, p);
    tables::lemma_first(t.sessions, |s: SessionRowV| keep(s) && p(s));
    tables::lemma_first_filter(t.sessions, keep, q);
    tables::lemma_first_same(t.sessions, |s: SessionRowV| keep(s) && q(s), q);
}

// ---------------------------------------------------------------------------
// Accounts
// ---------------------------------------------------------------------------

/// The first account is an administrator's, and there is no second first account.
pub proof fn setup_happens_once(
    t: Tables,
    body: SetupBody,
    id: Seq<char>,
    hash: Result<Seq<char>, Refusal>,
    now: i64,
    again: SetupBody,
    id2: Seq<char>,
    hash2: Result<Seq<char>, Refusal>,
    later: i64,
)
    requires
        accounts::founding(t, body, id, hash, now).1 is Ok,
    ensures
        ({
            let after = t.run_all(accounts::founding(t, body, id, hash, now).0);
            &&& t.users.len() == 0
            &&& after.users.len() == 1
            &&& api::is_admin(after.users[0].person())
            &&& accounts::founding(after, again, id2, hash2, later) == api::refused::<UserV>(
                reply::refusal(reply::CONFLICT, "already set up"),
            )
        }),
{
    let u = accounts::account(
        id,
        body.username@,
        tables::opt(body.display_name),
        hash->Ok_0,
        "admin"@,
        now,
    );
    lemma_one(t, ChangeV::InsertUser(u));
}

/// On a server without accounts, whoever asks for the first one with a name and a password
/// that are not too short is given it.
pub proof fn setup_succeeds(
    t: Tables,
    body: SetupBody,
    id: Seq<char>,
    hash: Result<Seq<char>, Refusal>,
    now: i64,
)
    requires
        t.users.len() == 0,
        !accounts::too_short(body.username@, body.password@),
        encode_utf8(body.password@).len() <= secrets::LONGEST_PASSWORD,
        secrets::hashed(body.password@, hash),
    ensures
        accounts::founding(t, body, id, hash, now).1 is Ok,
{
}

/// An administrator who asks for an account with a name that is not taken, and with a name
/// and a password that are not too short, is given it, unless its identifier is taken.
pub proof fn creating_an_account_succeeds(
    t: Tables,
    h: Option<Seq<u8>>,
    body: NewUser,
    id: Seq<char>,
    hash: Result<Seq<char>, Refusal>,
    now: i64,
)
    requires
        api::admin_requester(t, h, now) is Ok,
        !accounts::too_short(body.username@, body.password@),
        encode_utf8(body.password@).len() <= secrets::LONGEST_PASSWORD,
        secrets::hashed(body.password@, hash),
        t.user_row_named(text::trim(body.username@)) is None,
        t.user_row(id) is None,
    ensures
        accounts::enrolled(t, h, body, id, hash, now).1 is Ok,
{
}

/// An administrator can give any account a new password that is not too short.
pub proof fn changing_a_password_succeeds(
    t: Tables,
    h: Option<Seq<u8>>,
    id: Seq<char>,
    body: PatchUser,
    hash: Result<Option<Seq<char>>, Refusal>,
    now: i64,
)
    requires
        api::admin_requester(t, h, now) is Ok,
        t.user_row(id) is Some,
        body.password matches Some(p) && 8 <= encode_utf8(p@).len() <= secrets::LONGEST_PASSWORD,
        body.role is None,
        accounts::rehashed(body, hash),
    ensures
        accounts::amended(t, h, id, body, hash, now).1 is Ok,
{
    lemma_account_changed(t, id, tables::opt(body.display_name), None, hash->Ok_0, id);
}

/// On a server without accounts, the administrator that is asked for at the start is
/// created.
pub proof fn bootstrap_succeeds(
    t: Tables,
    username: Seq<char>,
    password: Seq<char>,
    hash: Result<Seq<char>, Seq<char>>,
    id: Seq<char>,
    now: i64,
)
    requires
        t.users.len() == 0,
        encode_utf8(password).len() <= secrets::LONGEST_PASSWORD,
        secrets::salted(password, hash),
    ensures
        config::appointed(t, username, hash, id, now).1 == Ok::<Seq<char>, Seq<char>>(id),
{
}

/// An entered account is found by its name, and other accounts as before.
pub(crate) proof fn lemma_account_entered(t: Tables, u: UserRowV, name: Seq<char>)
    requires
        t.violation(ChangeV::InsertUser(u)) is None,
    ensures
        t.run(ChangeV::InsertUser(u)).user_row_named(name) == if name == u.username {
            Some(u)
        } else {
            t.user_row_named(name)
        },
        t.run(ChangeV::InsertUser(u)).user_row(u.id) == Some(u),
{
    tables::lemma_first_push(t.users, u, |x: UserRowV| x.username == name);
    tables::lemma_first_push(t.users, u, |x: UserRowV| x.id == u.id);
}

/// Whoever sets the server up can sign in with the name and the password that they chose.
pub proof fn founder_can_sign_in(
    t: Tables,
    body: SetupBody,
    id: Seq<char>,
    hash: Result<Seq<char>, Refusal>,
    now: i64,
    login: LoginBody,
)
    requires
        secrets::hashed(body.password@, hash),
        accounts::founding(t, body, id, hash, now).1 is Ok,
        text::trim(login.username@) == text::trim(body.username@),
        login.password@ == body.password@,
    ensures
        accounts::login_objection(
            t.run_all(accounts::founding(t, body, id, hash, now).0),
            login,
        ) is None,
{
    let u = accounts::account(
        id,
        body.username@,
        tables::opt(body.display_name),
        hash->Ok_0,
        "admin"@,
        now,
    );
    lemma_one(t, ChangeV::InsertUser(u));
    lemma_account_entered(t, u, u.username);
}

/// Whoever was given an account can sign in with the name and the password of the
/// account.
pub proof fn created_user_can_sign_in(
    t: Tables,
    h: Option<Seq<u8>>,
    body: NewUser,
    id: Seq<char>,
    hash: Result<Seq<char>, Refusal>,
    now: i64,
    login: LoginBody,
)
    requires
        secrets::hashed(body.password@, hash),
        accounts::enrolled(t, h, body, id, hash, now).1 is Ok,
        text::trim(login.username@) == text::trim(body.username@),
        login.password@ == body.password@,
    ensures
        accounts::login_objection(
            t.run_all(accounts::enrolled(t, h, body, id, hash, now).0),
            login,
        ) is None,
{
    let u = accounts::account(
        id,
        body.username@,
        tables::opt(body.display_name),
        hash->Ok_0,
        accounts::role_for(tables::opt(body.role)),
        now,
    );
    lemma_one(t, ChangeV::InsertUser(u));
    lemma_account_entered(t, u, u.username);
}

/// An administrator that was created at the start of the server can sign in with the name
/// and the password that were given, where the name has no white space at its ends.
pub proof fn appointed_administrator_can_sign_in(
    t: Tables,
    username: Seq<char>,
    password: Seq<char>,
    hash: Result<Seq<char>, Seq<char>>,
    id: Seq<char>,
    now: i64,
    login: LoginBody,
)
    requires
        secrets::salted(password, hash),
        config::appointed(t, username, hash, id, now).1 is Ok,
        text::trim(login.username@) == username,
        login.password@ == password,
    ensures
        ({
            let after = t.run_all(config::appointed(t, username, hash, id, now).0);
            &&& accounts::login_objection(after, login) is None
            &&& after.user(id) matches Some(u) && api::is_admin(u)
        }),
{
    let u = UserRowV {
        id,
        username,
        display_name: username,
        password_hash: hash->Ok_0,
        role: "admin"@,
        created_at: now,
    };
    lemma_one(t, ChangeV::InsertUser(u));
    lemma_account_entered(t, u, username);
}

/// A name that is taken is refused for another account.
pub proof fn usernames_are_given_once(
    t: Tables,
    h: Option<Seq<u8>>,
    body: NewUser,
    id: Seq<char>,
    hash: Result<Seq<char>, Refusal>,
    now: i64,
)
    requires
        t.user_row_named(text::trim(body.username@)) is Some,
        accounts::create_objection(t, h, body, now) is None,
        hash is Ok,
    ensures
        accounts::enrolled(t, h, body, id, hash, now) == api::refused::<UserV>(
            (reply::CONFLICT, "UNIQUE constraint failed: users.username"@),
        ),
{
}

/// How a change of an account rewrites its row.
pub open spec fn rewritten(
    u: UserRowV,
    display_name: Option<Seq<char>>,
    role: Option<Seq<char>>,
    password_hash: Option<Seq<char>>,
) -> UserRowV {
    UserRowV {
        display_name: tables::or_keep(display_name, u.display_name),
        role: tables::or_keep(role, u.role),
        password_hash: tables::or_keep(password_hash, u.password_hash),
        ..u
    }
}

/// A change of an account rewrites its row and no other.
pub(crate) proof fn lemma_account_changed(
    t: Tables,
    id: Seq<char>,
    display_name: Option<Seq<char>>,
    role: Option<Seq<char>>,
    password_hash: Option<Seq<char>>,
    k: Seq<char>,
)
    ensures
        ({
            let after = t.run(ChangeV::UpdateUser { id, display_name, role, password_hash });
            &&& after.user_row(k) == match t.user_row(k) {
                Some(u) => Some(
                    if k == id {
                        rewritten(u, display_name, role, password_hash)
                    } else {
                        u
                    },
                ),
                None => None,
            }
            &&& after.user_row_named(k) == match t.user_row_named(k) {
                Some(u) => Some(
                    if u.id == id {
                        rewritten(u, display_name, role, password_hash)
                    } else {
                        u
                    },
                ),
                None => None,
            }
        }),
{
    let f = |u: UserRowV|
        if u.id == id {
            UserRowV {
                display_name: tables::or_keep(display_name, u.display_name),
                role: tables::or_keep(role, u.role),
                password_hash: tables::or_keep(password_hash, u.password_hash),
                ..u
            }
        } else {
            u
        };
    let p = |x: UserRowV| x.id == k;
    let q = |x: UserRowV| x.username == k;
    tables::lemma_first_map(t.users, f, p);
    tables::lemma_first_map(t.users, f, q);
    tables::lemma_first(t.users, p);
}

/// Changing an account changes what is asked for and nothing else: not the name, and not
/// the other accounts.
pub proof fn changing_an_account_keeps_the_rest(
    t: Tables,
    h: Option<Seq<u8>>,
    id: Seq<char>,
    body: PatchUser,
    hash: Result<Option<Seq<char>>, Refusal>,
    now: i64,
    other: Seq<char>,
)
    requires
        accounts::amended(t, h, id, body, hash, now).1 is Ok,
        other != id,
    ensures
        ({
            let after = t.run_all(accounts::amended(t, h, id, body, hash, now).0);
            &&& t.user_row(id) matches Some(u) && after.user_row(id) == Some(
                rewritten(u, tables::opt(body.display_name), tables::opt(body.role), hash->Ok_0),
            )
            &&& after.user_row(other) == t.user_row(other)
            &&& after.sessions == t.sessions
            &&& after.sandboxes == t.sandboxes
            &&& after.grants == t.grants
        }),
{
    let display_name = tables::opt(body.display_name);
    let role = tables::opt(body.role);
    let password_hash = hash->Ok_0;
    lemma_one(t, ChangeV::UpdateUser { id, display_name, role, password_hash });
    lemma_account_changed(t, id, display_name, role, password_hash, id);
    lemma_account_changed(t, id, display_name, role, password_hash, other);
}

/// Whoever has a new password can sign in with it.
pub proof fn new_password_signs_in(
    t: Tables,
    h: Option<Seq<u8>>,
    id: Seq<char>,
    body: PatchUser,
    hash: Result<Option<Seq<char>>, Refusal>,
    now: i64,
    login: LoginBody,
)
    requires
        t.wf(),
        accounts::rehashed(body, hash),
        accounts::amended(t, h, id, body, hash, now).1 is Ok,
        body.password matches Some(p) && p@ == login.password@,
        t.user_row(id) matches Some(u) && u.username == text::trim(login.username@),
    ensures
        accounts::login_objection(
            t.run_all(accounts::amended(t, h, id, body, hash, now).0),
            login,
        ) is None,
{
    let display_name = tables::opt(body.display_name);
    let role = tables::opt(body.role);
    let password_hash = hash->Ok_0;
    let name = text::trim(login.username@);
    lemma_one(t, ChangeV::UpdateUser { id, display_name, role, password_hash });
    lemma_account_changed(t, id, display_name, role, password_hash, name);
    lemma_by_id(t, id);
}

/// In tables that keep their rules, a row found by its identifier is the one found by its
/// username.
pub(crate) proof fn lemma_by_id(t: Tables, id: Seq<char>)
    requires
        t.wf(),
    ensures
        t.user_row(id) matches Some(row) ==> row.id == id && t.user_row_named(row.username) == Some(
            row,
        ),
{
    let p = |u: UserRowV| u.id == id;
    tables::lemma_first(t.users, p);
    if let Some(row) = t.user_row(id) {
        let k = choose|k: int|
            0 <= k < t.users.len() && (#[trigger] t.users[k]) == row && forall|j: int|
                0 <= j < k ==> !p(#[trigger] t.users[j]);
        let q = |u: UserRowV| u.username == row.username;
        let names = |a: UserRowV, b: UserRowV| a.id != b.id && a.username != b.username;
        assert forall|j: int| 0 <= j < k implies !q(#[trigger] t.users[j]) by {
            assert(names(t.users[j], t.users[k]));
        }
        tables::lemma_first_at(t.users, q, k);
    }
}

/// The tables after an account is deleted, read.
proof fn lemma_account_gone(t: Tables, id: Seq<char>, k: Seq<char>, b: Seq<char>)
    ensures
        ({
            let after = t.run(ChangeV::DeleteUser { id });
            &&& after.user_row(k) == if k == id {
                None
            } else {
                t.user_row(k)
            }
            &&& after.grant_row(k, b) == if k == id {
                None
            } else {
                t.grant_row(k, b)
            }
        }),
{
    let keep = |u: UserRowV| u.id != id;
    let p = |u: UserRowV| u.id == k;
    let both = |u: UserRowV| keep(u) && p(u);
    tables::lemma_first_filter(t.users, keep, p);
    let keep_g = |g: GrantV| g.user_id != id;
    let p_g = |g: GrantV| g.user_id == k && g.sandbox_id == b;
    let both_g = |g: GrantV| keep_g(g) && p_g(g);
    tables::lemma_first_filter(t.grants, keep_g, p_g);
    if k == id {
        tables::lemma_first(t.users, both);
        tables::lemma_first(t.grants, both_g);
    } else {
        tables::lemma_first_same(t.users, both, p);
        tables::lemma_first_same(t.grants, both_g, p_g);
    }
}

/// A deleted account is gone with its sessions and its grants, and no token signs anyone
/// in as its owner.
pub proof fn deleted_account_is_gone(
    t: Tables,
    h: Option<Seq<u8>>,
    id: Seq<char>,
    now: i64,
    token: Seq<char>,
    then: i64,
    sandbox_id: Seq<char>,
)
    requires
        accounts::expelled(t, h, id, now).1 is Ok,
    ensures
        ({
            let after = t.run_all(accounts::expelled(t, h, id, now).0);
            &&& after.user_row(id) is None
            &&& after.grant_row(id, sandbox_id) is None
            &&& tables::every(after.sessions, |s: SessionRowV| s.user_id != id)
            &&& api::token_owner(after, Some(token), then) matches Ok(u) ==> u.id != id
        }),
{
    lemma_one(t, ChangeV::DeleteUser { id });
    lemma_account_gone(t, id, id, sandbox_id);
    let keep = |s: SessionRowV| s.user_id != id;
    tables::lemma_every_filter(t.sessions, keep, keep);
    let after = t.run(ChangeV::DeleteUser { id });
    let p = |s: SessionRowV| s.token == token && s.expires_at > then;
    tables::lemma_first(after.sessions, p);
    if let Some(s) = tables::first(after.sessions, p) {
        assert(keep(s));
        tables::lemma_first(after.users, |u: UserRowV| u.id == s.user_id);
    }
}

/// Whoever deletes an account keeps their own, and all other accounts and grants stay.
pub proof fn deleting_keeps_other_accounts(
    t: Tables,
    h: Option<Seq<u8>>,
    id: Seq<char>,
    now: i64,
    other: Seq<char>,
    sandbox_id: Seq<char>,
)
    requires
        accounts::expelled(t, h, id, now).1 is Ok,
        other != id,
    ensures
        ({
            let after = t.run_all(accounts::expelled(t, h, id, now).0);
            &&& after.user_row(other) == t.user_row(other)
            &&& after.grant_row(other, sandbox_id) == t.grant_row(other, sandbox_id)
            &&& after.sandboxes == t.sandboxes
            &&& api::requester(t, h, now) matches Ok(u) && u.id != id && after.user(u.id) == Some(u)
        }),
{
    lemma_one(t, ChangeV::DeleteUser { id });
    lemma_account_gone(t, id, other, sandbox_id);
    let actor = api::requester(t, h, now)->Ok_0;
    let token = api::bearer_token(h)->0;
    let p = |s: SessionRowV| s.token == token && s.expires_at > now;
    let s = tables::first(t.sessions, p)->0;
    tables::lemma_first(t.users, |u: UserRowV| u.id == s.user_id);
    lemma_account_gone(t, id, actor.id, sandbox_id);
}

// ---------------------------------------------------------------------------
// Roles
// ---------------------------------------------------------------------------

/// Whether every account is an administrator's or a member's.
pub open spec fn roles_known(t: Tables) -> bool {
    tables::every(t.users, |u: UserRowV| u.role == "admin"@ || u.role == "member"@)
}

/// Whether a change sets no role but an administrator's or a member's.
pub open spec fn sets_known_role(c: ChangeV) -> bool {
    match c {
        ChangeV::InsertUser(u) => u.role == "admin"@ || u.role == "member"@,
        ChangeV::UpdateUser { role, .. } => role is None || role == Some("admin"@) || role == Some(
            "member"@,
        ),
        _ => true,
    }
}

proof fn lemma_roles(t: Tables, c: ChangeV)
    requires
        roles_known(t),
        sets_known_role(c),
    ensures
        roles_known(t.run(c)),
{
    let p = |u: UserRowV| u.role == "admin"@ || u.role == "member"@;
    let after = t.run(c);
    match c {
        ChangeV::DeleteUser { id } => {
            let keep = |u: UserRowV| u.id != id;
            assert forall|i: int| 0 <= i < t.users.len() implies (|x: UserRowV| keep(x) ==> p(x))(
                #[trigger] t.users[i],
            ) by {
                assert(p(t.users[i]));
            }
            tables::lemma_every_filter(t.users, keep, p);
        },
        _ => {
            assert forall|i: int| 0 <= i < after.users.len() implies p(#[trigger] after.users[i]) by {
                if i < t.users.len() {
                    assert(p(t.users[i]));
                }
            }
        },
    }
}

/// Requests for the first account, for an account and for a change of one leave every
/// account an administrator's or a member's. No other request touches roles.
pub proof fn roles_stay_known(
    t: Tables,
    h: Option<Seq<u8>>,
    setup: SetupBody,
    create: NewUser,
    patch: PatchUser,
    id: Seq<char>,
    hash: Result<Seq<char>, Refusal>,
    rehash: Result<Option<Seq<char>>, Refusal>,
    now: i64,
)
    requires
        roles_known(t),
    ensures
        roles_known(t.run_all(accounts::founding(t, setup, id, hash, now).0)),
        roles_known(t.run_all(accounts::enrolled(t, h, create, id, hash, now).0)),
        roles_known(t.run_all(accounts::amended(t, h, id, patch, rehash, now).0)),
        roles_known(t.run_all(accounts::expelled(t, h, id, now).0)),
{
    let a = accounts::founding(t, setup, id, hash, now).0;
    let b = accounts::enrolled(t, h, create, id, hash, now).0;
    let c = accounts::amended(t, h, id, patch, rehash, now).0;
    let d = accounts::expelled(t, h, id, now).0;
    assert(t.run_all(Seq::empty()) == t);
    if a.len() > 0 {
        lemma_one(t, a[0]);
        lemma_roles(t, a[0]);
    }
    if b.len() > 0 {
        lemma_one(t, b[0]);
        lemma_roles(t, b[0]);
    }
    if c.len() > 0 {
        lemma_one(t, c[0]);
        lemma_roles(t, c[0]);
    }
    if d.len() > 0 {
        lemma_one(t, d[0]);
        lemma_roles(t, d[0]);
    }
}

// ---------------------------------------------------------------------------
// What is for administrators
// ---------------------------------------------------------------------------

/// The refusal of whoever is not known.
pub open spec fn unknown() -> Refusal {
    reply::refusal(reply::UNAUTHORIZED, "sign in")
}

/// The refusal of members where only administrators are served.
pub open spec fn not_admin() -> Refusal {
    reply::refusal(reply::FORBIDDEN, "admin only")
}

/// Whether a request is answered with this refusal, whatever it asks for, as far as it is
/// one of those for administrators, and changes nothing.
pub open spec fn all_refused(t: Tables, h: Option<Seq<u8>>, now: i64, e: Refusal) -> bool {
    &&& api::admin_requester(t, h, now) == Err::<UserV, Refusal>(e)
    &&& forall|body: NewUser, id: Seq<char>, hash: Result<Seq<char>, Refusal>|
        #[trigger] accounts::enrolled(t, h, body, id, hash, now) == api::refused::<UserV>(e)
    &&& forall|id: Seq<char>, body: PatchUser, hash: Result<Option<Seq<char>>, Refusal>|
        #[trigger] accounts::amended(t, h, id, body, hash, now) == api::refused::<UserV>(e)
    &&& forall|id: Seq<char>| #[trigger]
        accounts::expelled(t, h, id, now) == api::refused::<u16>(e)
    &&& forall|body: NewSandbox, made: Result<(), Seq<char>>, id: Seq<char>, windows: bool|
        #[trigger] sandboxes::provided(t, h, body, made, id, windows, now) == api::refused::<SandboxV>(e)
    &&& forall|id: Seq<char>, body: PatchSandbox, made: Result<(), Seq<char>>, windows: bool|
        #[trigger] sandboxes::refitted(t, h, id, body, made, windows, now) == api::refused::<SandboxV>(e)
    &&& forall|c: ChangeV| #[trigger]
        sandboxes::ordered(t, h, c, now) == api::refused::<u16>(e)
    &&& forall|body: GrantBody| #[trigger]
        sandboxes::granted(t, h, body, now) == api::refused::<GrantV>(e)
}

/// A member is refused whatever is for administrators, and changes nothing by asking.
pub proof fn members_do_not_administer(t: Tables, h: Option<Seq<u8>>, now: i64)
    requires
        api::requester(t, h, now) matches Ok(u) && !api::is_admin(u),
    ensures
        all_refused(t, h, now, not_admin()),
{
}

/// Whoever is not signed in is refused whatever is for administrators, and learns nothing
/// of files and sandboxes.
pub proof fn strangers_are_refused(
    t: Tables,
    h: Option<Seq<u8>>,
    now: i64,
    id: Seq<char>,
    need: Need,
)
    requires
        api::bearer_token(h) matches Some(k) ==> t.session_user(k, now) is None,
    ensures
        api::requester(t, h, now) == Err::<UserV, Refusal>(unknown()),
        all_refused(t, h, now, unknown()),
        files::file_place(t, h, id, need, now) == Err::<SandboxV, Refusal>(unknown()),
        term::term_place(t, api::bearer_token(h), id, now) == Err::<SandboxV, Refusal>(unknown()),
{
}

// ---------------------------------------------------------------------------
// Grants
// ---------------------------------------------------------------------------

/// The grants after one is set, read.
pub(crate) proof fn lemma_grant_set(t: Tables, g: GrantV, u: Seq<char>, b: Seq<char>)
    ensures
        t.run(ChangeV::PutGrant(g)).grant_row(u, b) == if u == g.user_id && b == g.sandbox_id {
            Some(g)
        } else {
            t.grant_row(u, b)
        },
{
    let p = |h: GrantV| h.user_id == u && h.sandbox_id == b;
    if t.grant_row(g.user_id, g.sandbox_id) is Some {
        let f = |h: GrantV|
            if h.user_id == g.user_id && h.sandbox_id == g.sandbox_id {
                g
            } else {
                h
            };
        tables::lemma_first_map(t.grants, f, p);
        tables::lemma_first(t.grants, p);
    } else {
        tables::lemma_first_push(t.grants, g, p);
    }
}

/// The grants after one is taken back, read.
proof fn lemma_grant_taken(t: Tables, u0: Seq<char>, b0: Seq<char>, u: Seq<char>, b: Seq<char>)
    ensures
        t.run(ChangeV::DeleteGrant { user_id: u0, sandbox_id: b0 }).grant_row(u, b) == if u == u0
            && b == b0 {
            None
        } else {
            t.grant_row(u, b)
        },
{
    let keep = |g: GrantV| !(g.user_id == u0 && g.sandbox_id == b0);
    let p = |g: GrantV| g.user_id == u && g.sandbox_id == b;
    let both = |g: GrantV| keep(g) && p(g);
    tables::lemma_first_filter(t.grants, keep, p);
    if u == u0 && b == b0 {
        tables::lemma_first(t.grants, both);
    } else {
        tables::lemma_first_same(t.grants, both, p);
    }
}

/// A grant that was set is the one that holds, leave by leave, whatever was granted
/// before, and is the answer; what others were granted, and what was granted elsewhere,
/// stays.
pub proof fn grant_reads_back(
    t: Tables,
    h: Option<Seq<u8>>,
    body: GrantBody,
    now: i64,
    other_user: Seq<char>,
    other_sandbox: Seq<char>,
)
    requires
        sandboxes::granted(t, h, body, now).1 is Ok,
        other_user != body.user_id@ || other_sandbox != body.sandbox_id@,
    ensures
        ({
            let after = t.run_all(sandboxes::granted(t, h, body, now).0);
            &&& after.grant_row(body.user_id@, body.sandbox_id@) matches Some(g) && {
                &&& g.user_id == body.user_id@
                &&& g.sandbox_id == body.sandbox_id@
                &&& g.can_read == body.can_read
                &&& g.can_write == body.can_write
                &&& g.can_shell == body.can_shell
                &&& g.can_admin == (body.can_admin == Some(true))
                &&& sandboxes::granted(t, h, body, now).1 == Ok::<GrantV, Refusal>(g)
            }
            &&& after.grant_row(body.user_id@, body.sandbox_id@) == Some(
                sandboxes::asked_grant(body),
            )
            &&& after.grant_row(other_user, other_sandbox) == t.grant_row(
                other_user,
                other_sandbox,
            )
            &&& after.users == t.users
            &&& after.sandboxes == t.sandboxes
            &&& after.sessions == t.sessions
        }),
{
    let g = sandboxes::asked_grant(body);
    lemma_one(t, ChangeV::PutGrant(g));
    lemma_grant_set(t, g, body.user_id@, body.sandbox_id@);
    lemma_grant_set(t, g, other_user, other_sandbox);
}

/// A grant that was taken back is gone, and no other.
pub proof fn grant_taken_back_is_gone(
    t: Tables,
    h: Option<Seq<u8>>,
    user: UserV,
    sandbox_id: Seq<char>,
    now: i64,
    other_user: Seq<char>,
    other_sandbox: Seq<char>,
)
    requires
        api::admin_requester(t, h, now) is Ok,
        !api::is_admin(user),
        other_user != user.id || other_sandbox != sandbox_id,
    ensures
        ({
            let c = ChangeV::DeleteGrant { user_id: user.id, sandbox_id };
            let after = t.run_all(sandboxes::ordered(t, h, c, now).0);
            &&& api::access(after, user, sandbox_id) == Err::<GrantV, Refusal>(
                reply::refusal(reply::FORBIDDEN, "no access to this sandbox"),
            )
            &&& after.grant_row(other_user, other_sandbox) == t.grant_row(
                other_user,
                other_sandbox,
            )
        }),
{
    lemma_one(t, ChangeV::DeleteGrant { user_id: user.id, sandbox_id });
    lemma_grant_taken(t, user.id, sandbox_id, user.id, sandbox_id);
    lemma_grant_taken(t, user.id, sandbox_id, other_user, other_sandbox);
}

/// A deleted sandbox is gone with all grants for it; no other sandbox and no other grant
/// is touched.
pub proof fn deleted_sandbox_is_gone(
    t: Tables,
    h: Option<Seq<u8>>,
    id: Seq<char>,
    now: i64,
    user_id: Seq<char>,
    other: Seq<char>,
)
    requires
        api::admin_requester(t, h, now) is Ok,
        other != id,
    ensures
        ({
            let after = t.run_all(
                sandboxes::ordered(t, h, ChangeV::DeleteSandbox { id }, now).0,
            );
            &&& after.place(id) is None
            &&& after.grant_row(user_id, id) is None
            &&& after.place(other) == t.place(other)
            &&& after.grant_row(user_id, other) == t.grant_row(user_id, other)
        }),
{
    lemma_one(t, ChangeV::DeleteSandbox { id });
    let keep = |s: SandboxRowV| s.id != id;
    let p = |s: SandboxRowV| s.id == id;
    let q = |s: SandboxRowV| s.id == other;
    tables::lemma_first_filter(t.sandboxes, keep, p);
    tables::lemma_first(t.sandboxes, |s: SandboxRowV| keep(s) && p(s));
    tables::lemma_first_filter(t.sandboxes, keep, q);
    tables::lemma_first_same(t.sandboxes, |s: SandboxRowV| keep(s) && q(s), q);
    let keep = |g: GrantV| g.sandbox_id != id;
    let p = |g: GrantV| g.user_id == user_id && g.sandbox_id == id;
    let q = |g: GrantV| g.user_id == user_id && g.sandbox_id == other;
    tables::lemma_first_filter(t.grants, keep, p);
    tables::lemma_first(t.grants, |g: GrantV| keep(g) && p(g));
    tables::lemma_first_filter(t.grants, keep, q);
    tables::lemma_first_same(t.grants, |g: GrantV| keep(g) && q(g), q);
}

/// A sandbox that was created is found with the name, the path and the description that
/// were asked for.
pub proof fn created_sandbox_reads_back(
    t: Tables,
    h: Option<Seq<u8>>,
    body: NewSandbox,
    made: Result<(), Seq<char>>,
    id: Seq<char>,
    windows: bool,
    now: i64,
)
    requires
        sandboxes::provided(t, h, body, made, id, windows, now).1 is Ok,
    ensures
        ({
            let after = t.run_all(sandboxes::provided(t, h, body, made, id, windows, now).0);
            let s = SandboxV {
                id,
                name: text::trim(body.name@),
                path: text::trim(body.path@),
                description: match body.description {
                    Some(d) => d@,
                    None => Seq::empty(),
                },
            };
            &&& sandboxes::provided(t, h, body, made, id, windows, now).1 == Ok::<SandboxV, Refusal>(s)
            &&& after.place(id) == Some(s)
            &&& paths::absolute(encode_utf8(s.path), windows)
        }),
{
    let s = SandboxRowV {
        id,
        name: text::trim(body.name@),
        path: text::trim(body.path@),
        description: tables::or_keep(tables::opt(body.description), Seq::empty()),
        created_at: now,
    };
    lemma_one(t, ChangeV::InsertSandbox(s));
    tables::lemma_first_push(t.sandboxes, s, |x: SandboxRowV| x.id == id);
}

/// Whether the path of every sandbox is absolute.
pub open spec fn paths_absolute(t: Tables, windows: bool) -> bool {
    tables::every(t.sandboxes, |s: SandboxRowV| paths::absolute(encode_utf8(s.path), windows))
}

/// Requests to create, to change and to delete a sandbox leave the path of every sandbox
/// absolute.
pub proof fn sandbox_paths_stay_absolute(
    t: Tables,
    h: Option<Seq<u8>>,
    create: NewSandbox,
    patch: PatchSandbox,
    made: Result<(), Seq<char>>,
    id: Seq<char>,
    windows: bool,
    now: i64,
)
    requires
        paths_absolute(t, windows),
    ensures
        paths_absolute(t.run_all(sandboxes::provided(t, h, create, made, id, windows, now).0), windows),
        paths_absolute(t.run_all(sandboxes::refitted(t, h, id, patch, made, windows, now).0), windows),
        paths_absolute(
            t.run_all(sandboxes::ordered(t, h, ChangeV::DeleteSandbox { id }, now).0),
            windows,
        ),
{
    let p = |s: SandboxRowV| paths::absolute(encode_utf8(s.path), windows);
    let a = sandboxes::provided(t, h, create, made, id, windows, now).0;
    let b = sandboxes::refitted(t, h, id, patch, made, windows, now).0;
    assert(t.run_all(Seq::empty()) == t);
    if a.len() > 0 {
        lemma_one(t, a[0]);
        let after = t.run(a[0]);
        assert forall|i: int| 0 <= i < after.sandboxes.len() implies p(
            #[trigger] after.sandboxes[i],
        ) by {
            if i < t.sandboxes.len() {
                assert(p(t.sandboxes[i]));
            }
        }
    }
    if b.len() > 0 {
        lemma_one(t, b[0]);
        let after = t.run(b[0]);
        assert forall|i: int| 0 <= i < after.sandboxes.len() implies p(
            #[trigger] after.sandboxes[i],
        ) by {
            assert(p(t.sandboxes[i]));
        }
    }
    lemma_one(t, ChangeV::DeleteSandbox { id });
    let keep = |s: SandboxRowV| s.id != id;
    assert forall|i: int| 0 <= i < t.sandboxes.len() implies (|x: SandboxRowV| keep(x) ==> p(x))(
        #[trigger] t.sandboxes[i],
    ) by {
        assert(p(t.sandboxes[i]));
    }
    tables::lemma_every_filter(t.sandboxes, keep, p);
}

// ---------------------------------------------------------------------------
// What members can use
// ---------------------------------------------------------------------------

/// Without a grant, a member can use neither the files nor a terminal of a sandbox.
pub proof fn nothing_without_a_grant(
    t: Tables,
    h: Option<Seq<u8>>,
    user: UserV,
    id: Seq<char>,
    need: Need,
    now: i64,
)
    requires
        api::requester(t, h, now) == Ok::<UserV, Refusal>(user),
        !api::is_admin(user),
        t.grant_row(user.id, id) is None,
    ensures
        ({
            let e = reply::refusal(reply::FORBIDDEN, "no access to this sandbox");
            &&& files::file_place(t, h, id, need, now) == Err::<SandboxV, Refusal>(e)
            &&& term::term_place(t, api::bearer_token(h), id, now) == Err::<SandboxV, Refusal>(e)
        }),
{
}

/// A member can do in a sandbox exactly what a grant says: look at files with leave to
/// read or to write, change them with leave to write, and open a terminal with leave to
/// use a shell.
pub proof fn grants_decide(
    t: Tables,
    h: Option<Seq<u8>>,
    user: UserV,
    id: Seq<char>,
    g: GrantV,
    now: i64,
)
    requires
        api::requester(t, h, now) == Ok::<UserV, Refusal>(user),
        !api::is_admin(user),
        t.grant_row(user.id, id) == Some(g),
        t.place(id) is Some,
    ensures
        files::file_place(t, h, id, Need::Look, now) is Ok <==> g.can_read || g.can_write,
        files::file_place(t, h, id, Need::Change, now) is Ok <==> g.can_write,
        term::term_place(t, api::bearer_token(h), id, now) is Ok <==> g.can_shell,
{
}

/// Administrators can use the files and a terminal of every sandbox.
pub proof fn administrators_use_everything(
    t: Tables,
    h: Option<Seq<u8>>,
    user: UserV,
    id: Seq<char>,
    need: Need,
    now: i64,
)
    requires
        api::requester(t, h, now) == Ok::<UserV, Refusal>(user),
        api::is_admin(user),
        t.place(id) is Some,
    ensures
        files::file_place(t, h, id, need, now) == Ok::<SandboxV, Refusal>(t.place(id)->0),
        term::term_place(t, api::bearer_token(h), id, now) == Ok::<SandboxV, Refusal>(
            t.place(id)->0,
        ),
{
}

/// In tables that keep their rules, the grant for a user and a sandbox is the only one.
pub(crate) proof fn lemma_only_grant(t: Tables, user_id: Seq<char>, id: Seq<char>)
    requires
        t.wf(),
    ensures
        accounts::may_see(t, user_id, id) == (t.grant_row(user_id, id) matches Some(g) && (
        g.can_read || g.can_write || g.can_shell)),
{
    let p = |g: GrantV| g.user_id == user_id && g.sandbox_id == id;
    let pairs = |a: GrantV, b: GrantV| a.user_id != b.user_id || a.sandbox_id != b.sandbox_id;
    tables::lemma_first(t.grants, p);
    if accounts::may_see(t, user_id, id) {
        let i = choose|i: int|
            0 <= i < t.grants.len() && (#[trigger] t.grants[i]).user_id == user_id
                && t.grants[i].sandbox_id == id && (t.grants[i].can_read || t.grants[i].can_write
                || t.grants[i].can_shell);
        assert forall|j: int| 0 <= j < i implies !p(#[trigger] t.grants[j]) by {
            assert(pairs(t.grants[j], t.grants[i]));
        }
        tables::lemma_first_at(t.grants, p, i);
    }
}

/// A member sees a sandbox exactly where a grant lets them read, write or use a shell; an
/// administrator sees all.
pub proof fn members_see_what_they_were_granted(t: Tables, u: UserV, s: SandboxV)
    requires
        t.wf(),
    ensures
        accounts::visible(t, u).contains(s) == (t.places().contains(s) && (api::is_admin(u) || (
        t.grant_row(u.id, s.id) matches Some(g) && (g.can_read || g.can_write || g.can_shell)))),
{
    let p = |x: SandboxV| accounts::may_see(t, u.id, x.id);
    lemma_only_grant(t, u.id, s.id);
    order::filter_keeps(t.places(), p, s);
}

/// Every sandbox whose files or terminals someone can use is among those that they see.
pub proof fn what_is_used_is_seen(
    t: Tables,
    h: Option<Seq<u8>>,
    u: UserV,
    id: Seq<char>,
    need: Need,
    now: i64,
    s: SandboxV,
)
    requires
        t.wf(),
        api::requester(t, h, now) == Ok::<UserV, Refusal>(u),
        files::file_place(t, h, id, need, now) == Ok::<SandboxV, Refusal>(s) || term::term_place(
            t,
            api::bearer_token(h),
            id,
            now,
        ) == Ok::<SandboxV, Refusal>(s),
    ensures
        s.id == id,
        accounts::visible(t, u).contains(s),
{
    let p = |x: SandboxRowV| x.id == id;
    tables::lemma_first(t.sandboxes, p);
    lemma_listed(t, id);
    members_see_what_they_were_granted(t, u, s);
    if !api::is_admin(u) {
        let q = |g: GrantV| g.user_id == u.id && g.sandbox_id == id;
        tables::lemma_first(t.grants, q);
    }
}

/// A sandbox that is there stands in the list of all.
pub(crate) proof fn lemma_listed(t: Tables, id: Seq<char>)
    ensures
        t.place(id) matches Some(s) ==> t.places().contains(s),
{
    let p = |x: SandboxRowV| x.id == id;
    tables::lemma_first(t.sandboxes, p);
    if let Some(row) = t.sandbox_row(id) {
        let f = |s: SandboxRowV| s.place();
        let all = t.sandboxes.map_values(f);
        let k = choose|k: int|
            0 <= k < t.sandboxes.len() && (#[trigger] t.sandboxes[k]) == row && forall|j: int|
                0 <= j < k ==> !p(#[trigger] t.sandboxes[j]);
        assert(all[k] == row.place());
        order::arranged_same_elements(all, |s: SandboxV| s.name);
        all.to_multiset_ensures();
        t.places().to_multiset_ensures();
        assert(all.contains(row.place()));
        assert(all.to_multiset().count(row.place()) > 0);
    }
}

/// The lists of accounts and of sandboxes are in order, and nothing is missing from them
/// or stands in them twice as often as it should.
pub proof fn lists_are_complete_and_in_order(t: Tables)
    ensures
        order::ascending(t.people(), |u: UserV| u.username),
        t.people().to_multiset() == t.users.map_values(|u: UserRowV| u.person()).to_multiset(),
        order::ascending(t.places(), |s: SandboxV| s.name),
        t.places().to_multiset() == t.sandboxes.map_values(
            |s: SandboxRowV| s.place(),
        ).to_multiset(),
{
    let u = t.users.map_values(|u: UserRowV| u.person());
    let s = t.sandboxes.map_values(|s: SandboxRowV| s.place());
    order::arranged_ascending(u, |u: UserV| u.username);
    order::arranged_same_elements(u, |u: UserV| u.username);
    order::arranged_ascending(s, |s: SandboxV| s.name);
    order::arranged_same_elements(s, |s: SandboxV| s.name);
}

// ---------------------------------------------------------------------------
// Refusals
// ---------------------------------------------------------------------------

/// Whether an outcome leaves the tables alone if it is a refusal.
pub open spec fn harmless<V>(t: Tables, o: Outcome<V>) -> bool {
    o.1 is Err ==> t.run_all(o.0) == t
}

/// A request that is refused leaves the tables as they were: one for the first account,
/// to sign in, to create, change or delete an account or a sandbox, or to grant.
pub proof fn refusals_change_nothing(
    t: Tables,
    h: Option<Seq<u8>>,
    setup: SetupBody,
    login: LoginBody,
    create: NewUser,
    patch: PatchUser,
    place: NewSandbox,
    refit: PatchSandbox,
    grant: GrantBody,
    id: Seq<char>,
    token: Seq<char>,
    hash: Result<Seq<char>, Refusal>,
    rehash: Result<Option<Seq<char>>, Refusal>,
    made: Result<(), Seq<char>>,
    windows: bool,
    now: i64,
)
    ensures
        harmless(t, accounts::founding(t, setup, id, hash, now)),
        harmless(t, accounts::signed_in(t, login, token, now)),
        harmless(t, accounts::enrolled(t, h, create, id, hash, now)),
        harmless(t, accounts::amended(t, h, id, patch, rehash, now)),
        harmless(t, accounts::expelled(t, h, id, now)),
        harmless(t, sandboxes::provided(t, h, place, made, id, windows, now)),
        harmless(t, sandboxes::refitted(t, h, id, refit, made, windows, now)),
        harmless(t, sandboxes::granted(t, h, grant, now)),
{
    let amend = accounts::amended(t, h, id, patch, rehash, now);
    if amend.0.len() > 0 && amend.1 is Err {
        let c = amend.0[0];
        lemma_one(t, c);
        lemma_account_changed(
            t,
            id,
            tables::opt(patch.display_name),
            tables::opt(patch.role),
            rehash->Ok_0,
            id,
        );
        tables::lemma_first(t.users, |u: UserRowV| u.id == id);
        assert(t.run(c).users =~= t.users);
    }
    let fit = sandboxes::refitted(t, h, id, refit, made, windows, now);
    if fit.0.len() > 0 && fit.1 is Err {
        let c = fit.0[0];
        lemma_one(t, c);
        lemma_sandbox_changed(
            t,
            id,
            tables::opt(refit.name),
            tables::opt(refit.path),
            tables::opt(refit.description),
            id,
        );
        tables::lemma_first(t.sandboxes, |s: SandboxRowV| s.id == id);
        assert(t.run(c).sandboxes =~= t.sandboxes);
    }
}

/// How a change of a sandbox rewrites its row.
pub open spec fn redone(
    s: SandboxRowV,
    name: Option<Seq<char>>,
    path: Option<Seq<char>>,
    description: Option<Seq<char>>,
) -> SandboxRowV {
    SandboxRowV {
        name: tables::or_keep(name, s.name),
        path: tables::or_keep(path, s.path),
        description: tables::or_keep(description, s.description),
        ..s
    }
}

/// A change of a sandbox rewrites its row and no other.
pub(crate) proof fn lemma_sandbox_changed(
    t: Tables,
    id: Seq<char>,
    name: Option<Seq<char>>,
    path: Option<Seq<char>>,
    description: Option<Seq<char>>,
    k: Seq<char>,
)
    ensures
        t.run(ChangeV::UpdateSandbox { id, name, path, description }).sandbox_row(k)
            == match t.sandbox_row(k) {
            Some(s) => Some(
                if k == id {
                    redone(s, name, path, description)
                } else {
                    s
                },
            ),
            None => None,
        },
{
    let f = |s: SandboxRowV|
        if s.id == id {
            SandboxRowV {
                name: tables::or_keep(name, s.name),
                path: tables::or_keep(path, s.path),
                description: tables::or_keep(description, s.description),
                ..s
            }
        } else {
            s
        };
    let p = |x: SandboxRowV| x.id == k;
    tables::lemma_first_map(t.sandboxes, f, p);
    tables::lemma_first(t.sandboxes, p);
}

/// Changing a sandbox changes what is asked for and nothing else.
pub proof fn changing_a_sandbox_keeps_the_rest(
    t: Tables,
    h: Option<Seq<u8>>,
    id: Seq<char>,
    body: PatchSandbox,
    made: Result<(), Seq<char>>,
    windows: bool,
    now: i64,
    other: Seq<char>,
)
    requires
        sandboxes::refitted(t, h, id, body, made, windows, now).1 is Ok,
        other != id,
    ensures
        ({
            let after = t.run_all(sandboxes::refitted(t, h, id, body, made, windows, now).0);
            &&& t.sandbox_row(id) matches Some(s) && after.sandbox_row(id) == Some(
                redone(
                    s,
                    tables::opt(body.name),
                    tables::opt(body.path),
                    tables::opt(body.description),
                ),
            )
            &&& after.sandbox_row(other) == t.sandbox_row(other)
            &&& after.users == t.users
            &&& after.sessions == t.sessions
            &&& after.grants == t.grants
        }),
{
    let name = tables::opt(body.name);
    let path = tables::opt(body.path);
    let description = tables::opt(body.description);
    lemma_one(t, ChangeV::UpdateSandbox { id, name, path, description });
    lemma_sandbox_changed(t, id, name, path, description, id);
    lemma_sandbox_changed(t, id, name, path, description, other);
}

// ---------------------------------------------------------------------------
// Personal servers
// ---------------------------------------------------------------------------

/// Where a personal server is set up, its owner has a desk under the directory of the
/// data, with leave to do everything in it, and is signed in.
pub proof fn owner_of_a_personal_server_has_a_desk(
    state: AppState,
    user: UserV,
    id: Seq<char>,
    token: Seq<char>,
    now: i64,
)
    requires
        state.personal,
        state.db@.sandboxes.len() == 0,
        state.db@.sessions.len() == 0,
        state.db@.user(user.id) == Some(user),
        now + SESSION_SECONDS <= i64::MAX,
    ensures
        ({
            let o = accounts::settled(state, user, Ok(()), id, token, now);
            let after = state.db@.run_all(o.0);
            &&& o.1 == Ok::<accounts::SessionBodyV, Refusal>(accounts::SessionBodyV { token, user })
            &&& after.place(id) == Some(
                SandboxV {
                    id,
                    name: "Desk"@,
                    path: text::reads_as(accounts::desk_path(state)),
                    description: "Personal desk"@,
                },
            )
            &&& after.grant_row(user.id, id) == Some(api::full_grant(user.id, id))
            &&& after.grant_row(user.id, id) matches Some(g) && g.user_id == user.id && g.sandbox_id
                == id && g.can_read && g.can_write && g.can_shell && g.can_admin
            &&& api::token_owner(after, Some(token), now) == Ok::<UserV, Refusal>(user)
        }),
{
    let t = state.db@;
    let s = SandboxRowV {
        id,
        name: "Desk"@,
        path: text::reads_as(accounts::desk_path(state)),
        description: "Personal desk"@,
        created_at: now,
    };
    let g = api::full_grant(user.id, id);
    let c = ChangeV::InsertSandbox(s);
    let d = ChangeV::PutGrant(g);
    let desk = seq![c, d];
    api::lemma_pair(t, Seq::empty(), c, d);
    tables::lemma_first_push(t.sandboxes, s, |x: SandboxRowV| x.id == id);
    lemma_grant_set(t.run(c), g, user.id, id);
    let there = t.run_all(desk);
    assert(there.users == t.users && there.sessions == t.sessions);
    let begun = accounts::session_begun(there, user, token, now);
    tables::changes_in_sequence(t, desk, begun.0);
    token_signs_in_until_it_expires(there, user, token, now, now);
    let e = ChangeV::InsertSession(
        SessionRowV {
            token,
            user_id: user.id,
            created_at: now,
            expires_at: (now + SESSION_SECONDS) as i64,
        },
    );
    lemma_one(there, e);
}

} // verus!
