//! The requests of clients: who they come from, what they may do, what they change in
//! the tables, and what is answered.

use vstd::prelude::*;
use vstd::utf8::*;

use crate::db::Db;
use crate::order;
use crate::pty::PtyHub;
use crate::reply;
use crate::reply::{ApiError, Refusal};
use crate::secrets;
use crate::tables;
use crate::tables::{ChangeV, Grant, GrantV, Tables, User, UserV};
use crate::text;

verus! {

/// What the server works on.
pub struct AppState {
    pub db: Db,
    pub pty: PtyHub,
    /// The directory of the server's own data.
    pub data_dir: Vec<u8>,
    pub org_name: String,
    pub personal: bool,
    /// Whether the machine has the paths of Windows.
    pub windows: bool,
    /// Where the user interface is fetched from, if it is served at all.
    pub ui_origin: Option<String>,
}

impl AppState {
    /// Whether everything but the tables is as it was.
    pub open spec fn kept(&self, before: &AppState) -> bool {
        &&& self.pty == before.pty
        &&& self.data_dir == before.data_dir
        &&& self.org_name == before.org_name
        &&& self.personal == before.personal
        &&& self.windows == before.windows
        &&& self.ui_origin == before.ui_origin
    }

    /// Whether the outcome was reached: its changes were made, and its result given.
    pub open spec fn reached<V>(
        &self,
        before: &AppState,
        r: Result<V, Refusal>,
        outcome: Outcome<V>,
    ) -> bool {
        self.did(before, outcome.0) && r == outcome.1
    }

    /// Whether exactly these changes were made to the tables, and nothing else.
    pub open spec fn did(&self, before: &AppState, log: Seq<ChangeV>) -> bool {
        self.kept(before) && self.db.performed(&before.db, log)
    }
}

/// What a request leads to: the changes to the tables, and what is answered.
pub type Outcome<V> = (Seq<ChangeV>, Result<V, Refusal>);

/// A request that is refused and changes nothing.
pub open spec fn refused<V>(e: Refusal) -> Outcome<V> {
    (Seq::empty(), Err(e))
}

/// A change that is made where it breaks no rule of the tables, and refused otherwise.
pub open spec fn attempt<V>(t: Tables, c: ChangeV, v: V) -> Outcome<V> {
    match t.violation(c) {
        Some(_) => refused(reply::refusal(reply::INTERNAL_SERVER_ERROR, "db")),
        None => (seq![c], Ok(v)),
    }
}

/// What a client sees of an optional text, or the refusal.
pub open spec fn shown_opt(r: Result<Option<String>, ApiError>) -> Result<
    Option<Seq<char>>,
    Refusal,
> {
    match r {
        Ok(s) => Ok(tables::opt(s)),
        Err(e) => Err(e@),
    }
}

/// A list as clients see it, or the refusal.
pub open spec fn shown_list<T: View>(r: Result<Vec<T>, ApiError>) -> Result<Seq<T::V>, Refusal> {
    match r {
        Ok(v) => Ok(order::rows(v@)),
        Err(e) => Err(e@),
    }
}

// ---------------------------------------------------------------------------
// Who a request comes from
// ---------------------------------------------------------------------------

/// Whether a byte of a header is a visible character, a space or a tab.
pub open spec fn is_visible(b: u8) -> bool {
    32 <= b < 127 || b == 9
}

/// The optional bytes of a header by their view.
pub open spec fn header_view(h: Option<&[u8]>) -> Option<Seq<u8>> {
    match h {
        Some(b) => Some(b@),
        None => None,
    }
}

/// The token in an `Authorization` header: what follows `Bearer `, without white space
/// at its ends, if the header is all visible characters.
pub open spec fn bearer_token(h: Option<Seq<u8>>) -> Option<Seq<char>> {
    match h {
        Some(b) => {
            let s = b.map_values(|x: u8| x as char);
            if (forall|i: int| 0 <= i < b.len() ==> is_visible(#[trigger] b[i]))
                && "Bearer "@.is_prefix_of(s) {
                Some(text::trim(s.skip("Bearer "@.len() as int)))
            } else {
                None
            }
        },
        None => None,
    }
}

/// A request changes the tables as its outcome says, records every change in order, is
/// answered as its outcome says, and leaves all else of the server as it was.
pub proof fn requests_do_what_their_outcome_says<V>(
    before: &AppState,
    after: &AppState,
    r: Result<V, Refusal>,
    outcome: Outcome<V>,
)
    requires
        after.reached(before, r, outcome),
    ensures
        r == outcome.1,
        after.db@ == before.db@.run_all(outcome.0),
        after.db.changes() == before.db.changes() + outcome.0,
        after.pty == before.pty,
        after.data_dir == before.data_dir,
        after.org_name == before.org_name,
        after.personal == before.personal,
        after.windows == before.windows,
        after.ui_origin == before.ui_origin,
{
}

/// A header carries a token exactly where it is made of printable characters and starts
/// with `Bearer` and a space; the token is all that follows, without white space around it.
pub proof fn tokens_follow_the_word_bearer(b: Seq<u8>)
    ensures
        bearer_token(None) is None,
        bearer_token(Some(b)) is Some <==> {
            &&& b.len() >= 7
            &&& b[0] == 66 && b[1] == 101 && b[2] == 97 && b[3] == 114 && b[4] == 101 && b[5] == 114
            &&& b[6] == 32
            &&& forall|i: int| 0 <= i < b.len() ==> 32 <= #[trigger] b[i] < 127 || b[i] == 9
        },
        bearer_token(Some(b)) matches Some(k) ==> k == text::trim(
            Seq::new((b.len() - 7) as nat, |i: int| b[i + 7] as char),
        ),
{
    reveal_strlit("Bearer ");
    let s = b.map_values(|x: u8| x as char);
    let word = "Bearer "@;
    assert(word.len() == 7);
    if bearer_token(Some(b)) is Some {
        assert(word.is_prefix_of(s));
        assert(s[0] == word[0] && s[1] == word[1] && s[2] == word[2] && s[3] == word[3] && s[4]
            == word[4] && s[5] == word[5] && s[6] == word[6]);
        assert forall|i: int| 0 <= i < b.len() implies 32 <= #[trigger] b[i] < 127 || b[i] == 9 by {
            assert(is_visible(b[i]));
        }
        assert(s.skip(7) =~= Seq::new((b.len() - 7) as nat, |i: int| b[i + 7] as char));
    } else if b.len() >= 7 && b[0] == 66 && b[1] == 101 && b[2] == 97 && b[3] == 114 && b[4] == 101
        && b[5] == 114 && b[6] == 32 {
        assert(s.take(7) =~= word);
        assert(word.is_prefix_of(s));
    }
}

/// A request is refused unless it carries a token that stands for somebody; an
/// administrator's request is refused of everybody whose role is not `admin`.
pub proof fn requests_come_from_their_owners(t: Tables, h: Option<Seq<u8>>, now: i64, u: UserV)
    ensures
        requester(t, h, now) == Ok::<UserV, Refusal>(u) <==> (bearer_token(h) matches Some(k)
            && t.session_user(k, now) == Some(u)),
        requester(t, h, now) matches Err(e) ==> e == (401u16, "sign in"@),
        admin_requester(t, h, now) == Ok::<UserV, Refusal>(u) <==> requester(t, h, now) == Ok::<
            UserV,
            Refusal,
        >(u) && u.role == "admin"@,
        requester(t, h, now) matches Err(e) ==> admin_requester(t, h, now) == Err::<UserV, Refusal>(
            e,
        ),
        (requester(t, h, now) matches Ok(v) && v.role != "admin"@) ==> admin_requester(t, h, now)
            == Err::<UserV, Refusal>((403u16, "admin only"@)),
{
}

/// What a user may do in a sandbox: an administrator everything; anybody else what the
/// grant for them says, as long as it says anything.
pub proof fn access_is_what_was_granted(t: Tables, u: UserV, id: Seq<char>, g: GrantV)
    requires
        t.wf(),
    ensures
        u.role == "admin"@ ==> (access(t, u, id) matches Ok(a) && a.user_id == u.id && a.sandbox_id
            == id && a.can_read && a.can_write && a.can_shell && a.can_admin),
        u.role != "admin"@ ==> (access(t, u, id) == Ok::<GrantV, Refusal>(g) <==> {
            &&& t.grants.contains(g)
            &&& g.user_id == u.id
            &&& g.sandbox_id == id
            &&& g.can_read || g.can_write || g.can_shell || g.can_admin
        }),
        access(t, u, id) matches Err(e) ==> e == (403u16, "no access to this sandbox"@),
{
    tables::grants_are_found(t, u.id, id, g);
}

/// A header with `Bearer ` and a session token carries that token.
pub proof fn header_carries_its_token(token: Seq<char>)
    requires
        secrets::is_token(token),
    ensures
        bearer_token(Some(encode_utf8("Bearer "@ + token))) == Some(token),
{
    reveal_strlit("Bearer ");
    secrets::token_shape(token);
    let s = "Bearer "@ + token;
    let b = encode_utf8(s);
    assert(is_ascii_chars(s)) by {
        assert forall|i: int| 0 <= i < s.len() implies '\0' <= #[trigger] s[i] <= '\u{7f}' by {
            if i >= 7 {
                assert(secrets::is_hex_digit(token[i - 7]));
            }
        }
    }
    is_ascii_chars_encode_utf8(s);
    let f = |x: u8| x as char;
    assert forall|i: int| 0 <= i < s.len() implies is_visible(#[trigger] b[i]) && f(b[i]) == s[i] by {
        if i >= 7 {
            assert(secrets::is_hex_digit(token[i - 7]));
        }
    }
    assert(b.map_values(f) =~= s);
    assert("Bearer "@.is_prefix_of(s));
    assert(s.skip(7) =~= token);
    assert(secrets::is_hex_digit(token[0]) && secrets::is_hex_digit(token[63]));
    let white = |c: char| text::is_white(c);
    assert(text::drop_front(token, white) == token);
    assert(text::drop_back(token, white) == token);
}

/// The user whom a token stands for, or the refusal.
pub open spec fn token_owner(t: Tables, token: Option<Seq<char>>, now: i64) -> Result<
    UserV,
    Refusal,
> {
    match token {
        Some(k) => match t.session_user(k, now) {
            Some(u) => Ok(u),
            None => Err(reply::refusal(reply::UNAUTHORIZED, "sign in")),
        },
        None => Err(reply::refusal(reply::UNAUTHORIZED, "sign in")),
    }
}

/// The user whom a request comes from, or the refusal.
pub open spec fn requester(t: Tables, h: Option<Seq<u8>>, now: i64) -> Result<UserV, Refusal> {
    token_owner(t, bearer_token(h), now)
}

pub open spec fn is_admin(u: UserV) -> bool {
    u.role == "admin"@
}

/// The administrator whom a request comes from, or the refusal.
pub open spec fn admin_requester(t: Tables, h: Option<Seq<u8>>, now: i64) -> Result<
    UserV,
    Refusal,
> {
    match requester(t, h, now) {
        Ok(u) => if is_admin(u) {
            Ok(u)
        } else {
            Err(reply::refusal(reply::FORBIDDEN, "admin only"))
        },
        Err(e) => Err(e),
    }
}

/// A grant of everything.
pub open spec fn full_grant(user_id: Seq<char>, sandbox_id: Seq<char>) -> GrantV {
    GrantV { user_id, sandbox_id, can_read: true, can_write: true, can_shell: true, can_admin: true }
}

/// What a user may do in a sandbox: everything for an administrator, and for others what
/// a grant says that gives them something.
pub open spec fn access(t: Tables, u: UserV, sandbox_id: Seq<char>) -> Result<GrantV, Refusal> {
    if is_admin(u) {
        Ok(full_grant(u.id, sandbox_id))
    } else {
        match t.grant_row(u.id, sandbox_id) {
            Some(g) => if g.can_read || g.can_write || g.can_shell || g.can_admin {
                Ok(g)
            } else {
                Err(reply::refusal(reply::FORBIDDEN, "no access to this sandbox"))
            },
            None => Err(reply::refusal(reply::FORBIDDEN, "no access to this sandbox")),
        }
    }
}

/// The token in an `Authorization` header.
pub fn bearer(header: Option<&[u8]>) -> (r: Option<String>)
    ensures
        tables::opt(r) == bearer_token(header_view(header)),
{
    match header {
        Some(b) => {
            let ghost f = |x: u8| x as char;
            let mut s = String::new();
            let mut i: usize = 0;
            while i < b.len()
                invariant
                    i <= b@.len(),
                    header == Some(b),
                    f == (|x: u8| x as char),
                    forall|j: int| 0 <= j < i ==> is_visible(#[trigger] b@[j]),
                    s@ == b@.take(i as int).map_values(f),
                decreases b@.len() - i,
            {
                let x = b[i];
                if !(32 <= x && x < 127 || x == 9) {
                    return None;
                }
                s.push(x as char);
                i = i + 1;
                assert(b@.take(i as int).map_values(f) =~= b@.take(i - 1).map_values(f).push(
                    x as char,
                ));
            }
            assert(b@.take(i as int) =~= b@);
            match text::after_prefix(s.as_str(), "Bearer ") {
                Some(rest) => {
                    assert(s@.skip("Bearer "@.len() as int) =~= rest@);
                    assert("Bearer "@.is_prefix_of(s@));
                    Some(text::trimmed(rest.as_str()))
                },
                None => None,
            }
        },
        None => None,
    }
}

/// The user whom a request comes from.
pub fn auth(state: &AppState, header: Option<&[u8]>, now: i64) -> (r: Result<User, ApiError>)
    ensures
        reply::shown(r) == requester(state.db@, header_view(header), now),
{
    owner(state, bearer(header), now)
}

/// The user whom a token stands for.
pub(crate) fn owner(state: &AppState, token: Option<String>, now: i64) -> (r: Result<User, ApiError>)
    ensures
        reply::shown(r) == token_owner(state.db@, tables::opt(token), now),
{
    match token {
        Some(k) => match state.db.session_user(k.as_str(), now) {
            Some(u) => Ok(u),
            None => Err(reply::err(reply::UNAUTHORIZED, "sign in")),
        },
        None => Err(reply::err(reply::UNAUTHORIZED, "sign in")),
    }
}

/// Refuses everyone but administrators.
pub fn admin(user: &User) -> (r: Result<(), ApiError>)
    ensures
        match r {
            Ok(_) => is_admin(user@),
            Err(e) => !is_admin(user@) && e@ == reply::refusal(reply::FORBIDDEN, "admin only"),
        },
{
    if text::same(user.role.as_str(), "admin") {
        Ok(())
    } else {
        Err(reply::err(reply::FORBIDDEN, "admin only"))
    }
}

/// The administrator whom a request comes from.
pub(crate) fn auth_admin(state: &AppState, header: Option<&[u8]>, now: i64) -> (r: Result<User, ApiError>)
    ensures
        reply::shown(r) == admin_requester(state.db@, header_view(header), now),
{
    let user = auth(state, header, now)?;
    admin(&user)?;
    Ok(user)
}

/// What a user may do in a sandbox.
pub fn grant_for(state: &AppState, user: &User, sandbox_id: &str) -> (r: Result<Grant, ApiError>)
    ensures
        reply::shown(r) == access(state.db@, user@, sandbox_id@),
{
    if text::same(user.role.as_str(), "admin") {
        return Ok(
            Grant {
                user_id: user.id.clone(),
                sandbox_id: sandbox_id.to_string(),
                can_read: true,
                can_write: true,
                can_shell: true,
                can_admin: true,
            },
        );
    }
    match state.db.grant(user.id.as_str(), sandbox_id) {
        Some(g) => {
            if g.can_read || g.can_write || g.can_shell || g.can_admin {
                Ok(g)
            } else {
                Err(reply::err(reply::FORBIDDEN, "no access to this sandbox"))
            }
        },
        None => Err(reply::err(reply::FORBIDDEN, "no access to this sandbox")),
    }
}

// ---------------------------------------------------------------------------
// Facts about outcomes
// ---------------------------------------------------------------------------

/// Changing nothing is an empty list of changes.
pub proof fn lemma_no_changes(db: &Db)
    ensures
        db.performed(db, Seq::empty()),
{
    assert(db.changes() + Seq::<ChangeV>::empty() =~= db.changes());
}

/// Changing nothing is an empty list of changes.
pub proof fn lemma_nothing(s: &AppState)
    ensures
        s.did(s, Seq::empty()),
{
    lemma_no_changes(&s.db);
}

/// One change is a list of one.
pub proof fn lemma_single(t: Tables, log: Seq<ChangeV>, c: ChangeV)
    ensures
        t.run_all(seq![c]) == t.run(c),
        log + seq![c] == log.push(c),
{
    reveal_with_fuel(Tables::run_all, 2);
    assert(seq![c].drop_last() =~= Seq::<ChangeV>::empty());
    assert(log + seq![c] =~= log.push(c));
}

/// Two changes are a list of two.
pub proof fn lemma_pair(t: Tables, log: Seq<ChangeV>, c: ChangeV, d: ChangeV)
    ensures
        t.run_all(seq![c, d]) == t.run(c).run(d),
        log + seq![c, d] == log.push(c).push(d),
{
    reveal_with_fuel(Tables::run_all, 3);
    assert(seq![c, d].drop_last() =~= seq![c]);
    assert(seq![c].drop_last() =~= Seq::<ChangeV>::empty());
    assert(log + seq![c, d] =~= log.push(c).push(d));
}

/// An optional text, borrowed.
pub(crate) fn borrowed(s: &Option<String>) -> (r: Option<&str>)
    ensures
        tables::opt_ref(r) == tables::opt(*s),
{
    match s {
        Some(t) => Some(t.as_str()),
        None => None,
    }
}

/// What is told about the server before anyone signs in.
#[derive(Debug)]
pub struct WellKnown {
    pub name: String,
    pub product: String,
    pub api: String,
    pub auth: String,
    pub setup_required: bool,
    pub personal: bool,
}

/// What the server tells about itself. Where the stored tables could not be read, it
/// takes itself for one without accounts.
pub fn well_known(state: &AppState, readable: bool) -> (r: WellKnown)
    ensures
        r.name@ == state.org_name@,
        r.product@ == "works"@,
        r.api@ == "/v1"@,
        r.auth@ == "bearer"@,
        r.setup_required == (!readable || state.db@.users.len() == 0),
        r.personal == state.personal,
{
    WellKnown {
        name: state.org_name.clone(),
        product: "works".to_string(),
        api: "/v1".to_string(),
        auth: "bearer".to_string(),
        setup_required: !readable || state.db.user_count() == 0,
        personal: state.personal,
    }
}

/// The answer of a server that runs.
pub fn health() -> (r: &'static str)
    ensures
        r@ == "ok"@,
{
    "ok"
}

} // verus!
