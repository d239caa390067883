//! What each request comes to: when it succeeds, what is answered, and which rows are
//! there afterwards.

use vstd::prelude::*;
use vstd::utf8::*;

use crate::accounts;
use crate::accounts::{LoginBody, NewUser, PatchUser, SetupBody};
use crate::api;
use crate::api::AppState;
use crate::laws;
use crate::order;
use crate::paths;
use crate::reply::Refusal;
use crate::sandboxes;
use crate::sandboxes::{GrantBody, NewSandbox, PatchSandbox};
use crate::secrets;
use crate::tables;
use crate::tables::{ChangeV, GrantV, SandboxRowV, SandboxV, SessionRowV, Tables, UserRowV, UserV};
use crate::text;

verus! {

// ---------------------------------------------------------------------------
// Accounts
// ---------------------------------------------------------------------------

/// Whether a name and a password are long enough: two bytes and eight.
pub open spec fn long_enough(username: Seq<char>, password: Seq<char>) -> bool {
    encode_utf8(text::trim(username)).len() >= 2 && encode_utf8(password).len() >= 8
}

/// The server is set up exactly where it has no account, the name and the password are
/// long enough and the password could be hashed. The only account is then that of an
/// administrator, with the trimmed name and the display name that were chosen.
pub proof fn setup_enters_the_first_administrator(
    t: Tables,
    body: SetupBody,
    id: Seq<char>,
    hash: Result<Seq<char>, Refusal>,
    now: i64,
)
    ensures
        ({
            let o = accounts::founding(t, body, id, hash, now);
            let after = t.run_all(o.0);
            let fine = long_enough(body.username@, body.password@);
            &&& o.1 is Ok <==> t.users.len() == 0 && fine && hash is Ok
            &&& o.1 matches Ok(u) ==> {
                &&& after.users.len() == 1
                &&& after.users[0].id == id && u.id == id
                &&& after.users[0].username == text::trim(body.username@)
                &&& u.username == text::trim(body.username@)
                &&& after.users[0].display_name == match body.display_name {
                    Some(d) => d@,
                    None => body.username@,
                }
                &&& u.display_name == after.users[0].display_name
                &&& hash == Ok::<Seq<char>, Refusal>(after.users[0].password_hash)
                &&& after.users[0].role == "admin"@ && u.role == "admin"@
                &&& after.users[0].created_at == now
                &&& after.sessions == t.sessions
                &&& after.sandboxes == t.sandboxes
                &&& after.grants == t.grants
            }
            &&& o.1 is Err ==> after == t
            &&& t.users.len() > 0 ==> o.1 == Err::<UserV, Refusal>((409u16, "already set up"@))
            &&& t.users.len() == 0 && !fine ==> o.1 == Err::<UserV, Refusal>(
                (400u16, "username or password too short"@),
            )
            &&& t.users.len() == 0 && fine ==> (hash matches Err(e) ==> o.1 == Err::<UserV, Refusal>(
                e,
            ))
        }),
{
    let u = accounts::account(
        id,
        body.username@,
        tables::opt(body.display_name),
        hash->Ok_0,
        "admin"@,
        now,
    );
    laws::lemma_one(t, ChangeV::InsertUser(u));
}

/// A session begins exactly where its token is new and its user is there. It starts at
/// once and lasts fourteen days, and the answer is its token and its user.
pub proof fn sessions_last_two_weeks(t: Tables, user: UserV, token: Seq<char>, now: i64)
    requires
        now + 14 * 24 * 60 * 60 <= i64::MAX,
    ensures
        ({
            let o = accounts::session_begun(t, user, token, now);
            let after = t.run_all(o.0);
            &&& o.1 is Ok <==> t.session_row(token) is None && t.user_row(user.id) is Some
            &&& o.1 matches Ok(b) ==> {
                &&& b.token == token
                &&& b.user == user
                &&& after.sessions.drop_last() == t.sessions
                &&& after.sessions.len() == t.sessions.len() + 1
                &&& after.sessions.last().token == token
                &&& after.sessions.last().user_id == user.id
                &&& after.sessions.last().created_at == now
                &&& after.sessions.last().expires_at - now == 14 * 24 * 60 * 60
                &&& after.users == t.users
                &&& after.sandboxes == t.sandboxes
                &&& after.grants == t.grants
            }
            &&& o.1 matches Err(e) ==> e == (500u16, "db"@) && after == t
        }),
{
    let s = SessionRowV {
        token,
        user_id: user.id,
        created_at: now,
        expires_at: (now + accounts::SESSION_SECONDS) as i64,
    };
    laws::lemma_one(t, ChangeV::InsertSession(s));
    assert(t.sessions.push(s).drop_last() =~= t.sessions);
}

/// Somebody signs in exactly where an account has the trimmed name, its hash accepts the
/// password, and the new token is not taken. They are signed in as the owner of that
/// account.
pub proof fn the_right_password_signs_in(t: Tables, body: LoginBody, token: Seq<char>, now: i64)
    requires
        t.wf(),
    ensures
        ({
            let o = accounts::signed_in(t, body, token, now);
            let name = text::trim(body.username@);
            let known = exists|i: int|
                0 <= i < t.users.len() && (#[trigger] t.users[i]).username == name && secrets::opens(
                    body.password@,
                    t.users[i].password_hash,
                );
            &&& o.1 is Ok <==> known && t.session_row(token) is None
            &&& o.1 matches Ok(b) ==> b.token == token && exists|i: int|
                0 <= i < t.users.len() && (#[trigger] t.users[i]).username == name && secrets::opens(
                    body.password@,
                    t.users[i].password_hash,
                ) && b.user.id == t.users[i].id && b.user.username == name && b.user.display_name
                    == t.users[i].display_name && b.user.role == t.users[i].role && o
                    == accounts::session_begun(t, b.user, token, now)
            &&& !known ==> o.1 == Err::<accounts::SessionBodyV, Refusal>(
                (401u16, "invalid username or password"@),
            ) && t.run_all(o.0) == t
        }),
{
    let name = text::trim(body.username@);
    laws::lemma_one(t, ChangeV::DeleteSession { token });
    laws::lemma_named(t, name);
    tables::lemma_first(t.users, |u: UserRowV| u.username == name);
    if let Some(row) = t.user_row_named(name) {
        tables::accounts_are_found(t, name, row);
        let k = choose|k: int| 0 <= k < t.users.len() && (#[trigger] t.users[k]) == row;
        assert(t.users[k].username == name);
        assert forall|i: int|
            0 <= i < t.users.len() && (#[trigger] t.users[i]).username == name implies t.users[i]
            == row by {
            tables::accounts_are_found(t, name, t.users[i]);
        }
    } else {
        tables::accounts_are_found(t, name, arbitrary());
    }
}

/// Signing out always succeeds and ends the session of the token in the header, and no
/// other; without a token nothing happens.
pub proof fn signing_out_ends_that_session_only(t: Tables, h: Option<Seq<u8>>, s: SessionRowV)
    ensures
        accounts::signed_out(h).1 == Ok::<u16, Refusal>(204u16),
        ({
            let after = t.run_all(accounts::signed_out(h).0);
            &&& api::bearer_token(h) matches Some(k) ==> (after.sessions.contains(s)
                <==> t.sessions.contains(s) && s.token != k)
            &&& api::bearer_token(h) is None ==> after == t
            &&& after.users == t.users
            &&& after.sandboxes == t.sandboxes
            &&& after.grants == t.grants
        }),
{
    let k = match api::bearer_token(h) {
        Some(k) => k,
        None => Seq::empty(),
    };
    laws::lemma_one(t, ChangeV::DeleteSession { token: k });
    tables::other_deletions_are_exact(t, k, s, Seq::empty(), Seq::empty(), arbitrary());
}

/// A profile shows its owner and what they see, by name, and leads to the first sandbox
/// in it.
pub proof fn profiles_lead_to_the_first_sandbox(t: Tables, u: UserV)
    ensures
        ({
            let me = accounts::profile(t, u);
            &&& me.user == u
            &&& me.sandboxes == accounts::visible(t, u)
            &&& me.sandboxes.len() == 0 ==> me.default_sandbox_id is None
            &&& me.sandboxes.len() > 0 ==> me.default_sandbox_id == Some(me.sandboxes[0].id)
        }),
{
}

/// Whoever sees a sandbox sees it as it is: a member those that a grant shows them, an
/// administrator all of them.
pub proof fn sandboxes_are_seen_as_they_are(t: Tables, u: UserV, s: SandboxV)
    requires
        t.wf(),
    ensures
        accounts::visible(t, u).contains(s) <==> {
            &&& exists|i: int|
                0 <= i < t.sandboxes.len() && (#[trigger] t.sandboxes[i]).id == s.id
                    && t.sandboxes[i].name == s.name && t.sandboxes[i].path == s.path
                    && t.sandboxes[i].description == s.description
            &&& u.role == "admin"@ || exists|j: int|
                0 <= j < t.grants.len() && (#[trigger] t.grants[j]).user_id == u.id
                    && t.grants[j].sandbox_id == s.id && (t.grants[j].can_read
                    || t.grants[j].can_write || t.grants[j].can_shell)
        },
        u.role == "admin"@ ==> accounts::visible(t, u).len() == t.sandboxes.len(),
        order::ascending(accounts::visible(t, u), |x: SandboxV| x.name),
{
    let rows = t.sandboxes.map_values(|x: SandboxRowV| x.place());
    let key = |x: SandboxV| x.name;
    let p = |x: SandboxV| accounts::may_see(t, u.id, x.id);
    order::arranged_same_elements(rows, key);
    order::arranged_ascending(rows, key);
    rows.to_multiset_ensures();
    t.places().to_multiset_ensures();
    assert(t.places().len() == t.places().to_multiset().len());
    assert(rows.len() == rows.to_multiset().len());
    order::filter_keeps(t.places(), p, s);
    order::lemma_filter_ascending(t.places(), key, p);
    assert(t.places().contains(s) <==> t.places().to_multiset().count(s) > 0);
    assert(rows.contains(s) <==> rows.to_multiset().count(s) > 0);
    if rows.contains(s) {
        let i = choose|i: int| 0 <= i < rows.len() && rows[i] == s;
        assert(t.sandboxes[i].place() == s);
    }
    if exists|i: int|
        0 <= i < t.sandboxes.len() && (#[trigger] t.sandboxes[i]).id == s.id && t.sandboxes[i].name
            == s.name && t.sandboxes[i].path == s.path && t.sandboxes[i].description
            == s.description {
        let i = choose|i: int|
            0 <= i < t.sandboxes.len() && (#[trigger] t.sandboxes[i]).id == s.id
                && t.sandboxes[i].name == s.name && t.sandboxes[i].path == s.path
                && t.sandboxes[i].description == s.description;
        assert(rows[i] == s);
    }
}

/// An account is created exactly where an administrator asks, the name and the password
/// are long enough, the password could be hashed, and neither the trimmed name nor the
/// identifier is taken. It has the names that were asked for, and is an administrator's
/// only where that role was asked for.
pub proof fn created_accounts_are_as_asked(
    t: Tables,
    h: Option<Seq<u8>>,
    body: NewUser,
    id: Seq<char>,
    hash: Result<Seq<char>, Refusal>,
    now: i64,
)
    ensures
        ({
            let o = accounts::enrolled(t, h, body, id, hash, now);
            let after = t.run_all(o.0);
            let name = text::trim(body.username@);
            let fine = long_enough(body.username@, body.password@);
            let asker = api::admin_requester(t, h, now);
            &&& o.1 is Ok <==> asker is Ok && fine && hash is Ok && t.user_row_named(name) is None
                && t.user_row(id) is None
            &&& o.1 matches Ok(u) ==> {
                let row = after.users.last();
                &&& after.users.drop_last() == t.users
                &&& after.users.len() == t.users.len() + 1
                &&& row.id == id && u.id == id
                &&& row.username == name && u.username == name
                &&& row.display_name == match body.display_name {
                    Some(d) => d@,
                    None => body.username@,
                }
                &&& u.display_name == row.display_name
                &&& hash == Ok::<Seq<char>, Refusal>(row.password_hash)
                &&& row.role == if tables::opt(body.role) == Some("admin"@) {
                    "admin"@
                } else {
                    "member"@
                }
                &&& u.role == row.role
                &&& row.created_at == now
                &&& after.sessions == t.sessions
                &&& after.sandboxes == t.sandboxes
                &&& after.grants == t.grants
            }
            &&& o.1 is Err ==> after == t
            &&& asker matches Err(e) ==> o.1 == Err::<UserV, Refusal>(e)
            &&& asker is Ok && !fine ==> o.1 == Err::<UserV, Refusal>(
                (400u16, "username or password too short"@),
            )
            &&& asker is Ok && fine ==> (hash matches Err(e) ==> o.1 == Err::<UserV, Refusal>(e))
            &&& asker is Ok && fine && hash is Ok && t.user_row_named(name) is Some ==> o.1 == Err::<
                UserV,
                Refusal,
            >((409u16, "UNIQUE constraint failed: users.username"@))
            &&& asker is Ok && fine && hash is Ok && t.user_row_named(name) is None && t.user_row(
                id,
            ) is Some ==> o.1 == Err::<UserV, Refusal>(
                (409u16, "UNIQUE constraint failed: users.id"@),
            )
        }),
{
    let u = accounts::account(
        id,
        body.username@,
        tables::opt(body.display_name),
        hash->Ok_0,
        accounts::role_for(tables::opt(body.role)),
        now,
    );
    laws::lemma_one(t, ChangeV::InsertUser(u));
    assert(t.users.push(u).drop_last() =~= t.users);
}

/// An account is changed exactly where an administrator asks, a new password is long
/// enough and could be hashed, a new role is one of the two roles, and the account is
/// there. What is given is changed, what is not given stays, and the answer is the account
/// as it is then.
pub proof fn changed_accounts_are_as_asked(
    t: Tables,
    h: Option<Seq<u8>>,
    id: Seq<char>,
    body: PatchUser,
    hash: Result<Option<Seq<char>>, Refusal>,
    now: i64,
)
    ensures
        ({
            let o = accounts::amended(t, h, id, body, hash, now);
            let after = t.run_all(o.0);
            let asker = api::admin_requester(t, h, now);
            let fine = body.password matches Some(p) ==> encode_utf8(p@).len() >= 8;
            let known = body.role matches Some(r) ==> r@ == "admin"@ || r@ == "member"@;
            &&& o.1 is Ok <==> asker is Ok && fine && hash is Ok && known && t.user_row(id) is Some
            &&& o.1 matches Ok(u) ==> (t.user_row(id) matches Some(old_row) && (after.user_row(
                id,
            ) matches Some(row) && {
                &&& row.id == id && u.id == id
                &&& row.username == old_row.username && u.username == row.username
                &&& row.display_name == match body.display_name {
                    Some(d) => d@,
                    None => old_row.display_name,
                }
                &&& u.display_name == row.display_name
                &&& row.role == match body.role {
                    Some(r) => r@,
                    None => old_row.role,
                }
                &&& u.role == row.role
                &&& row.password_hash == match hash->Ok_0 {
                    Some(x) => x,
                    None => old_row.password_hash,
                }
                &&& row.created_at == old_row.created_at
            }))
            &&& asker matches Err(e) ==> o.1 == Err::<UserV, Refusal>(e)
            &&& asker is Ok && !fine ==> o.1 == Err::<UserV, Refusal>(
                (400u16, "password too short"@),
            )
            &&& asker is Ok && fine ==> (hash matches Err(e) ==> o.1 == Err::<UserV, Refusal>(e))
            &&& asker is Ok && fine && hash is Ok && !known ==> o.1 == Err::<UserV, Refusal>(
                (400u16, "role must be admin or member"@),
            )
            &&& asker is Ok && fine && hash is Ok && known && t.user_row(id) is None ==> o.1 == Err::<
                UserV,
                Refusal,
            >((404u16, "no such user"@))
        }),
{
    let display_name = tables::opt(body.display_name);
    let role = tables::opt(body.role);
    let password_hash = hash->Ok_0;
    laws::lemma_one(t, ChangeV::UpdateUser { id, display_name, role, password_hash });
    laws::lemma_account_changed(t, id, display_name, role, password_hash, id);
    tables::lemma_first(t.users, |x: UserRowV| x.id == id);
}

/// An account is deleted exactly where an administrator asks who does not own it, whether
/// or not it is there. Its row, its sessions and its grants go, and nothing else.
pub proof fn deleting_an_account_takes_what_is_its_own(
    t: Tables,
    h: Option<Seq<u8>>,
    id: Seq<char>,
    now: i64,
    u: UserRowV,
    s: SessionRowV,
    g: GrantV,
)
    ensures
        ({
            let o = accounts::expelled(t, h, id, now);
            let after = t.run_all(o.0);
            let asker = api::admin_requester(t, h, now);
            &&& o.1 is Ok <==> (asker matches Ok(a) && a.id != id)
            &&& o.1 matches Ok(status) ==> {
                &&& status == 204
                &&& after.users.contains(u) <==> t.users.contains(u) && u.id != id
                &&& after.sessions.contains(s) <==> t.sessions.contains(s) && s.user_id != id
                &&& after.grants.contains(g) <==> t.grants.contains(g) && g.user_id != id
                &&& after.sandboxes == t.sandboxes
            }
            &&& o.1 is Err ==> after == t
            &&& asker matches Err(e) ==> o.1 == Err::<u16, Refusal>(e)
            &&& (asker matches Ok(a) && a.id == id) ==> o.1 == Err::<u16, Refusal>(
                (400u16, "cannot delete yourself"@),
            )
        }),
{
    laws::lemma_one(t, ChangeV::DeleteUser { id });
    tables::account_deletions_are_exact(t, id, u, s, g);
}

// ---------------------------------------------------------------------------
// A personal desk
// ---------------------------------------------------------------------------

/// A desk is given exactly once: where there is no sandbox yet, its directory could be
/// made and its owner is there. It lies in `desk` below the directory of the data, and its
/// owner may do everything in it.
pub proof fn desks_are_given_once(
    state: AppState,
    user_id: Seq<char>,
    made: Result<(), Seq<char>>,
    id: Seq<char>,
    now: i64,
)
    ensures
        ({
            let t = state.db@;
            let o = accounts::desk_given(state, user_id, made, id, now);
            let after = t.run_all(o.0);
            &&& t.sandboxes.len() > 0 ==> o.1 is Ok && after == t
            &&& t.sandboxes.len() == 0 ==> (made matches Err(e) ==> o.1 == Err::<(), Refusal>(
                (500u16, e),
            ) && after == t)
            &&& t.sandboxes.len() == 0 && made is Ok ==> {
                let row = after.sandboxes[0];
                &&& o.1 is Ok <==> t.user_row(user_id) is Some || t.grant_row(user_id, id) is Some
                &&& o.1 matches Err(e) ==> e == (500u16, "db"@)
                &&& after.sandboxes.len() == 1
                &&& row.id == id
                &&& row.name == "Desk"@
                &&& row.description == "Personal desk"@
                &&& row.created_at == now
                &&& row.path == text::reads_as(
                    paths::joined(state.data_dir@, encode_utf8("desk"@)),
                )
                &&& after.users == t.users
                &&& after.sessions == t.sessions
                &&& o.1 is Ok ==> (after.grant_row(user_id, id) matches Some(g) && g.user_id
                    == user_id && g.sandbox_id == id && g.can_read && g.can_write && g.can_shell
                    && g.can_admin)
            }
        }),
{
    let t = state.db@;
    let s = SandboxRowV {
        id,
        name: "Desk"@,
        path: text::reads_as(accounts::desk_path(state)),
        description: "Personal desk"@,
        created_at: now,
    };
    let g = api::full_grant(user_id, id);
    let c = ChangeV::InsertSandbox(s);
    let d = ChangeV::PutGrant(g);
    laws::lemma_one(t, c);
    api::lemma_pair(t, Seq::empty(), c, d);
    tables::lemma_first_push(t.sandboxes, s, |x: SandboxRowV| x.id == id);
    laws::lemma_grant_set(t.run(c), g, user_id, id);
}

/// Whoever set the server up is signed in; on a personal server that has no sandbox yet
/// they are given a desk first, and on any other nothing but the session is new.
pub proof fn settling_gives_a_desk_on_personal_servers_only(
    state: AppState,
    user: UserV,
    made: Result<(), Seq<char>>,
    id: Seq<char>,
    token: Seq<char>,
    now: i64,
)
    ensures
        ({
            let t = state.db@;
            let o = accounts::settled(state, user, made, id, token, now);
            let desk = accounts::desk_given(state, user.id, made, id, now);
            &&& !state.personal || t.sandboxes.len() > 0 ==> o == accounts::session_begun(
                t,
                user,
                token,
                now,
            )
            &&& state.personal ==> (desk.1 matches Err(e) ==> o == (desk.0, Err::<
                accounts::SessionBodyV,
                Refusal,
            >(e)))
            &&& state.personal && desk.1 is Ok ==> {
                let begun = accounts::session_begun(t.run_all(desk.0), user, token, now);
                &&& o.1 == begun.1
                &&& t.run_all(o.0) == t.run_all(desk.0).run_all(begun.0)
            }
        }),
{
    let t = state.db@;
    let desk = accounts::desk_given(state, user.id, made, id, now);
    let begun = accounts::session_begun(t.run_all(desk.0), user, token, now);
    let plain = accounts::session_begun(t, user, token, now);
    laws::lemma_one(t, ChangeV::DeleteSession { token });
    tables::changes_in_sequence(t, desk.0, begun.0);
    assert(Seq::<ChangeV>::empty() + plain.0 =~= plain.0);
}

// ---------------------------------------------------------------------------
// Sandboxes and grants
// ---------------------------------------------------------------------------

/// A sandbox is created exactly where an administrator asks, its trimmed path is absolute,
/// its directory could be made and its identifier is new. It has the trimmed name and path
/// and the description that were asked for.
pub proof fn created_sandboxes_are_as_asked(
    t: Tables,
    h: Option<Seq<u8>>,
    body: NewSandbox,
    made: Result<(), Seq<char>>,
    id: Seq<char>,
    windows: bool,
    now: i64,
)
    ensures
        ({
            let o = sandboxes::provided(t, h, body, made, id, windows, now);
            let after = t.run_all(o.0);
            let asker = api::admin_requester(t, h, now);
            let fine = paths::absolute(encode_utf8(text::trim(body.path@)), windows);
            &&& o.1 is Ok <==> asker is Ok && fine && made is Ok && t.sandbox_row(id) is None
            &&& o.1 matches Ok(s) ==> {
                let row = after.sandboxes.last();
                &&& after.sandboxes.drop_last() == t.sandboxes
                &&& after.sandboxes.len() == t.sandboxes.len() + 1
                &&& row.id == id && s.id == id
                &&& row.name == text::trim(body.name@) && s.name == row.name
                &&& row.path == text::trim(body.path@) && s.path == row.path
                &&& row.description == match body.description {
                    Some(d) => d@,
                    None => Seq::empty(),
                }
                &&& s.description == row.description
                &&& row.created_at == now
                &&& after.users == t.users
                &&& after.sessions == t.sessions
                &&& after.grants == t.grants
            }
            &&& o.1 is Err ==> after == t
            &&& asker matches Err(e) ==> o.1 == Err::<SandboxV, Refusal>(e)
            &&& asker is Ok && !fine ==> o.1 == Err::<SandboxV, Refusal>(
                (400u16, "sandbox path must be absolute"@),
            )
            &&& asker is Ok && fine ==> (made matches Err(e) ==> o.1 == Err::<SandboxV, Refusal>(
                (400u16, e),
            ))
            &&& asker is Ok && fine && made is Ok && t.sandbox_row(id) is Some ==> o.1 == Err::<
                SandboxV,
                Refusal,
            >((500u16, "db"@))
        }),
{
    let s = SandboxRowV {
        id,
        name: text::trim(body.name@),
        path: text::trim(body.path@),
        description: tables::or_keep(tables::opt(body.description), Seq::empty()),
        created_at: now,
    };
    laws::lemma_one(t, ChangeV::InsertSandbox(s));
    assert(t.sandboxes.push(s).drop_last() =~= t.sandboxes);
}

/// A sandbox is changed exactly where an administrator asks, a new path is absolute and
/// its directory could be made, and the sandbox is there. What is given is changed as it
/// is, what is not given stays, and the answer is the sandbox as it is then.
pub proof fn changed_sandboxes_are_as_asked(
    t: Tables,
    h: Option<Seq<u8>>,
    id: Seq<char>,
    body: PatchSandbox,
    made: Result<(), Seq<char>>,
    windows: bool,
    now: i64,
)
    ensures
        ({
            let o = sandboxes::refitted(t, h, id, body, made, windows, now);
            let after = t.run_all(o.0);
            let asker = api::admin_requester(t, h, now);
            let fine = body.path matches Some(p) ==> paths::absolute(encode_utf8(p@), windows);
            let there = body.path is None || made is Ok;
            &&& o.1 is Ok <==> asker is Ok && fine && there && t.sandbox_row(id) is Some
            &&& o.1 matches Ok(s) ==> (t.sandbox_row(id) matches Some(old_row)
                && (after.sandbox_row(id) matches Some(row) && {
                &&& row.id == id && s.id == id
                &&& row.name == match body.name {
                    Some(n) => n@,
                    None => old_row.name,
                }
                &&& s.name == row.name
                &&& row.path == match body.path {
                    Some(p) => p@,
                    None => old_row.path,
                }
                &&& s.path == row.path
                &&& row.description == match body.description {
                    Some(d) => d@,
                    None => old_row.description,
                }
                &&& s.description == row.description
                &&& row.created_at == old_row.created_at
            }))
            &&& asker matches Err(e) ==> o.1 == Err::<SandboxV, Refusal>(e)
            &&& asker is Ok && !fine ==> o.1 == Err::<SandboxV, Refusal>(
                (400u16, "sandbox path must be absolute"@),
            )
            &&& asker is Ok && fine && !there ==> o.1 == Err::<SandboxV, Refusal>(
                (400u16, made->Err_0),
            )
            &&& asker is Ok && fine && there && t.sandbox_row(id) is None ==> o.1 == Err::<
                SandboxV,
                Refusal,
            >((404u16, "no such sandbox"@))
        }),
{
    let name = tables::opt(body.name);
    let path = tables::opt(body.path);
    let description = tables::opt(body.description);
    laws::lemma_one(t, ChangeV::UpdateSandbox { id, name, path, description });
    laws::lemma_sandbox_changed(t, id, name, path, description, id);
    tables::lemma_first(t.sandboxes, |x: SandboxRowV| x.id == id);
}

/// What an administrator orders is done and answered with an empty success, whatever is
/// there; nobody else's order is carried out.
pub proof fn orders_are_carried_out(t: Tables, h: Option<Seq<u8>>, c: ChangeV, now: i64)
    ensures
        ({
            let o = sandboxes::ordered(t, h, c, now);
            let asker = api::admin_requester(t, h, now);
            &&& asker is Ok ==> o.1 == Ok::<u16, Refusal>(204u16) && t.run_all(o.0) == t.run(c)
            &&& asker matches Err(e) ==> o.1 == Err::<u16, Refusal>(e) && t.run_all(o.0) == t
        }),
{
    laws::lemma_one(t, c);
}

/// A grant is set exactly where an administrator asks and its user and its sandbox are
/// there, or it is there already. What is granted is what was asked for, leave by leave,
/// and each leave by itself; no leave to administer is given unless it is asked for.
pub proof fn grants_are_set_as_asked(
    t: Tables,
    h: Option<Seq<u8>>,
    body: GrantBody,
    now: i64,
    other: GrantV,
)
    ensures
        ({
            let o = sandboxes::granted(t, h, body, now);
            let after = t.run_all(o.0);
            let asker = api::admin_requester(t, h, now);
            let fine = t.grant_row(body.user_id@, body.sandbox_id@) is Some || (t.user_row(
                body.user_id@,
            ) is Some && t.sandbox_row(body.sandbox_id@) is Some);
            &&& o.1 is Ok <==> asker is Ok && fine
            &&& o.1 matches Ok(g) ==> {
                &&& g.user_id == body.user_id@
                &&& g.sandbox_id == body.sandbox_id@
                &&& g.can_read == body.can_read
                &&& g.can_write == body.can_write
                &&& g.can_shell == body.can_shell
                &&& g.can_admin == (body.can_admin == Some(true))
                &&& after.grant_row(body.user_id@, body.sandbox_id@) == Some(g)
                &&& after.grants.contains(g)
                &&& other.user_id != g.user_id || other.sandbox_id != g.sandbox_id ==> (
                after.grants.contains(other) <==> t.grants.contains(other))
                &&& after.users == t.users
                &&& after.sessions == t.sessions
                &&& after.sandboxes == t.sandboxes
            }
            &&& o.1 is Err ==> after == t
            &&& asker matches Err(e) ==> o.1 == Err::<GrantV, Refusal>(e)
            &&& asker is Ok && !fine ==> o.1 == Err::<GrantV, Refusal>((500u16, "db"@))
        }),
{
    let g = sandboxes::asked_grant(body);
    laws::lemma_one(t, ChangeV::PutGrant(g));
    laws::lemma_grant_set(t, g, body.user_id@, body.sandbox_id@);
    tables::granting_is_exact(t, g, other);
}

/// Nobody sees a sandbox twice.
pub proof fn sandboxes_are_seen_once(t: Tables, u: UserV)
    requires
        t.wf(),
    ensures
        forall|i: int, j: int|
            0 <= i < j < accounts::visible(t, u).len() ==> (#[trigger] accounts::visible(t, u)[i]).id
                != (#[trigger] accounts::visible(t, u)[j]).id,
{
    let rows = t.sandboxes.map_values(|x: SandboxRowV| x.place());
    let key = |x: SandboxV| x.name;
    let p = |x: SandboxV| accounts::may_see(t, u.id, x.id);
    let ids = |a: SandboxRowV, b: SandboxRowV| a.id != b.id;
    let all = t.places();
    assert forall|i: int, j: int| 0 <= i < rows.len() && 0 <= j < rows.len() && i != j implies
        (#[trigger] rows[i]).id != (#[trigger] rows[j]).id by {
        if i < j {
            assert(ids(t.sandboxes[i], t.sandboxes[j]));
        } else {
            assert(ids(t.sandboxes[j], t.sandboxes[i]));
        }
    }
    assert(rows.no_duplicates());
    order::arranged_same_elements(rows, key);
    rows.lemma_multiset_has_no_duplicates();
    all.lemma_multiset_has_no_duplicates_conv();
    rows.to_multiset_ensures();
    all.to_multiset_ensures();
    assert forall|i: int, j: int| 0 <= i < j < all.len() implies (#[trigger] all[i]).id != (
    #[trigger] all[j]).id by {
        assert(all.contains(all[i]) && all.contains(all[j]));
        assert(all.to_multiset().count(all[i]) > 0 && all.to_multiset().count(all[j]) > 0);
        assert(rows.contains(all[i]) && rows.contains(all[j]));
        let a = choose|a: int| 0 <= a < rows.len() && rows[a] == all[i];
        let b = choose|b: int| 0 <= b < rows.len() && rows[b] == all[j];
        assert(all[i] != all[j]);
        assert(a != b);
    }
    tables::lemma_apart_filter(all, p, |a: SandboxV, b: SandboxV| a.id != b.id);
    let apart = |a: SandboxV, b: SandboxV| a.id != b.id;
    assert(tables::apart(accounts::visible(t, u), apart));
    assert forall|i: int, j: int| 0 <= i < j < accounts::visible(t, u).len() implies (
    #[trigger] accounts::visible(t, u)[i]).id != (#[trigger] accounts::visible(t, u)[j]).id by {
        assert(apart(accounts::visible(t, u)[i], accounts::visible(t, u)[j]));
    }
}

/// Sandboxes with the same name are listed in the order in which they were created.
pub proof fn namesakes_keep_their_order(t: Tables, name: Seq<char>)
    ensures
        t.places().filter(|s: SandboxV| s.name == name) == t.sandboxes.map_values(
            |s: SandboxRowV| s.place(),
        ).filter(|s: SandboxV| s.name == name),
{
    let rows = t.sandboxes.map_values(|x: SandboxRowV| x.place());
    let key = |x: SandboxV| x.name;
    order::arranged_stable(rows, key, name);
    let p = |s: SandboxV| key(s) == name;
    let q = |s: SandboxV| s.name == name;
    assert(p =~= q);
}

} // verus!
