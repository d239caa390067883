//! What the tables of the desk server hold: accounts, sessions, sandboxes and grants,
//! the changes that can be made to them, and the rules that keep them consistent.

use vstd::prelude::*;

use crate::order;

verus! {

/// An account as clients see it.
#[derive(Clone, Debug)]
pub struct User {
    pub id: String,
    pub username: String,
    pub display_name: String,
    pub role: String,
}

/// A directory that users can be let into.
#[derive(Clone, Debug)]
pub struct Sandbox {
    pub id: String,
    pub name: String,
    pub path: String,
    pub description: String,
}

/// What one user may do in one sandbox.
#[derive(Clone, Debug)]
pub struct Grant {
    pub user_id: String,
    pub sandbox_id: String,
    pub can_read: bool,
    pub can_write: bool,
    pub can_shell: bool,
    pub can_admin: bool,
}

/// A row of the table of accounts.
#[derive(Debug)]
pub struct UserRow {
    pub id: String,
    pub username: String,
    pub display_name: String,
    pub password_hash: String,
    pub role: String,
    pub created_at: i64,
}

/// A row of the table of sessions.
#[derive(Debug)]
pub struct SessionRow {
    pub token: String,
    pub user_id: String,
    pub created_at: i64,
    pub expires_at: i64,
}

/// A row of the table of sandboxes.
#[derive(Debug)]
pub struct SandboxRow {
    pub id: String,
    pub name: String,
    pub path: String,
    pub description: String,
    pub created_at: i64,
}

/// One change to the tables.
#[derive(Debug)]
pub enum Change {
    InsertUser(UserRow),
    UpdateUser {
        id: String,
        display_name: Option<String>,
        role: Option<String>,
        password_hash: Option<String>,
    },
    DeleteUser { id: String },
    InsertSession(SessionRow),
    DeleteSession { token: String },
    InsertSandbox(SandboxRow),
    UpdateSandbox {
        id: String,
        name: Option<String>,
        path: Option<String>,
        description: Option<String>,
    },
    DeleteSandbox { id: String },
    PutGrant(Grant),
    DeleteGrant { user_id: String, sandbox_id: String },
}

/// Which rule of the tables a change would break.
#[derive(Clone, Copy, Debug, PartialEq, Eq, Structural)]
pub enum DbError {
    UserIdTaken,
    UsernameTaken,
    TokenTaken,
    SandboxIdTaken,
    MissingReference,
}

// ---------------------------------------------------------------------------
// Models
// ---------------------------------------------------------------------------

pub struct UserV {
    pub id: Seq<char>,
    pub username: Seq<char>,
    pub display_name: Seq<char>,
    pub role: Seq<char>,
}

pub struct SandboxV {
    pub id: Seq<char>,
    pub name: Seq<char>,
    pub path: Seq<char>,
    pub description: Seq<char>,
}

pub struct GrantV {
    pub user_id: Seq<char>,
    pub sandbox_id: Seq<char>,
    pub can_read: bool,
    pub can_write: bool,
    pub can_shell: bool,
    pub can_admin: bool,
}

pub struct UserRowV {
    pub id: Seq<char>,
    pub username: Seq<char>,
    pub display_name: Seq<char>,
    pub password_hash: Seq<char>,
    pub role: Seq<char>,
    pub created_at: i64,
}

pub struct SessionRowV {
    pub token: Seq<char>,
    pub user_id: Seq<char>,
    pub created_at: i64,
    pub expires_at: i64,
}

pub struct SandboxRowV {
    pub id: Seq<char>,
    pub name: Seq<char>,
    pub path: Seq<char>,
    pub description: Seq<char>,
    pub created_at: i64,
}

pub enum ChangeV {
    InsertUser(UserRowV),
    UpdateUser {
        id: Seq<char>,
        display_name: Option<Seq<char>>,
        role: Option<Seq<char>>,
        password_hash: Option<Seq<char>>,
    },
    DeleteUser { id: Seq<char> },
    InsertSession(SessionRowV),
    DeleteSession { token: Seq<char> },
    InsertSandbox(SandboxRowV),
    UpdateSandbox {
        id: Seq<char>,
        name: Option<Seq<char>>,
        path: Option<Seq<char>>,
        description: Option<Seq<char>>,
    },
    DeleteSandbox { id: Seq<char> },
    PutGrant(GrantV),
    DeleteGrant { user_id: Seq<char>, sandbox_id: Seq<char> },
}

impl View for User {
    type V = UserV;

    open spec fn view(&self) -> UserV {
        UserV {
            id: self.id@,
            username: self.username@,
            display_name: self.display_name@,
            role: self.role@,
        }
    }
}

impl View for Sandbox {
    type V = SandboxV;

    open spec fn view(&self) -> SandboxV {
        SandboxV {
            id: self.id@,
            name: self.name@,
            path: self.path@,
            description: self.description@,
        }
    }
}

impl View for Grant {
    type V = GrantV;

    open spec fn view(&self) -> GrantV {
        GrantV {
            user_id: self.user_id@,
            sandbox_id: self.sandbox_id@,
            can_read: self.can_read,
            can_write: self.can_write,
            can_shell: self.can_shell,
            can_admin: self.can_admin,
        }
    }
}

impl View for UserRow {
    type V = UserRowV;

    open spec fn view(&self) -> UserRowV {
        UserRowV {
            id: self.id@,
            username: self.username@,
            display_name: self.display_name@,
            password_hash: self.password_hash@,
            role: self.role@,
            created_at: self.created_at,
        }
    }
}

impl View for SessionRow {
    type V = SessionRowV;

    open spec fn view(&self) -> SessionRowV {
        SessionRowV {
            token: self.token@,
            user_id: self.user_id@,
            created_at: self.created_at,
            expires_at: self.expires_at,
        }
    }
}

impl View for SandboxRow {
    type V = SandboxRowV;

    open spec fn view(&self) -> SandboxRowV {
        SandboxRowV {
            id: self.id@,
            name: self.name@,
            path: self.path@,
            description: self.description@,
            created_at: self.created_at,
        }
    }
}

/// The view of an optional text.
pub open spec fn opt(s: Option<String>) -> Option<Seq<char>> {
    match s {
        Some(t) => Some(t@),
        None => None,
    }
}

/// The view of an optional borrowed text.
pub open spec fn opt_ref(s: Option<&str>) -> Option<Seq<char>> {
    match s {
        Some(t) => Some(t@),
        None => None,
    }
}

impl View for Change {
    type V = ChangeV;

    open spec fn view(&self) -> ChangeV {
        match *self {
            Change::InsertUser(u) => ChangeV::InsertUser(u@),
            Change::UpdateUser { id, display_name, role, password_hash } => ChangeV::UpdateUser {
                id: id@,
                display_name: opt(display_name),
                role: opt(role),
                password_hash: opt(password_hash),
            },
            Change::DeleteUser { id } => ChangeV::DeleteUser { id: id@ },
            Change::InsertSession(s) => ChangeV::InsertSession(s@),
            Change::DeleteSession { token } => ChangeV::DeleteSession { token: token@ },
            Change::InsertSandbox(s) => ChangeV::InsertSandbox(s@),
            Change::UpdateSandbox { id, name, path, description } => ChangeV::UpdateSandbox {
                id: id@,
                name: opt(name),
                path: opt(path),
                description: opt(description),
            },
            Change::DeleteSandbox { id } => ChangeV::DeleteSandbox { id: id@ },
            Change::PutGrant(g) => ChangeV::PutGrant(g@),
            Change::DeleteGrant { user_id, sandbox_id } => ChangeV::DeleteGrant {
                user_id: user_id@,
                sandbox_id: sandbox_id@,
            },
        }
    }
}

impl UserRowV {
    /// The account as clients see it.
    pub open spec fn person(self) -> UserV {
        UserV {
            id: self.id,
            username: self.username,
            display_name: self.display_name,
            role: self.role,
        }
    }
}

impl SandboxRowV {
    /// The sandbox as clients see it.
    pub open spec fn place(self) -> SandboxV {
        SandboxV {
            id: self.id,
            name: self.name,
            path: self.path,
            description: self.description,
        }
    }
}

/// The first element of `s` that satisfies `p`.
pub open spec fn first<A>(s: Seq<A>, p: spec_fn(A) -> bool) -> Option<A>
    decreases s.len(),
{
    if s.len() == 0 {
        None
    } else if p(s[0]) {
        Some(s[0])
    } else {
        first(s.skip(1), p)
    }
}

/// Whether every two elements of `s`, the earlier one first, stand in the relation `r`.
pub open spec fn apart<A>(s: Seq<A>, r: spec_fn(A, A) -> bool) -> bool {
    forall|i: int, j: int| 0 <= i < j < s.len() ==> r(#[trigger] s[i], #[trigger] s[j])
}

/// Whether every element of `s` satisfies `p`.
pub open spec fn every<A>(s: Seq<A>, p: spec_fn(A) -> bool) -> bool {
    forall|i: int| 0 <= i < s.len() ==> p(#[trigger] s[i])
}

/// `new` where it is given, else `old`.
pub open spec fn or_keep(new: Option<Seq<char>>, old: Seq<char>) -> Seq<char> {
    match new {
        Some(t) => t,
        None => old,
    }
}

/// The contents of the tables, each in the order in which rows were added.
#[verifier::ext_equal]
pub struct Tables {
    pub users: Seq<UserRowV>,
    pub sessions: Seq<SessionRowV>,
    pub sandboxes: Seq<SandboxRowV>,
    pub grants: Seq<GrantV>,
}

impl Tables {
    pub open spec fn empty() -> Tables {
        Tables {
            users: Seq::empty(),
            sessions: Seq::empty(),
            sandboxes: Seq::empty(),
            grants: Seq::empty(),
        }
    }

    pub open spec fn user_row(self, id: Seq<char>) -> Option<UserRowV> {
        first(self.users, |u: UserRowV| u.id == id)
    }

    pub open spec fn user_row_named(self, username: Seq<char>) -> Option<UserRowV> {
        first(self.users, |u: UserRowV| u.username == username)
    }

    pub open spec fn session_row(self, token: Seq<char>) -> Option<SessionRowV> {
        first(self.sessions, |s: SessionRowV| s.token == token)
    }

    pub open spec fn sandbox_row(self, id: Seq<char>) -> Option<SandboxRowV> {
        first(self.sandboxes, |s: SandboxRowV| s.id == id)
    }

    pub open spec fn grant_row(self, user_id: Seq<char>, sandbox_id: Seq<char>) -> Option<GrantV> {
        first(self.grants, |g: GrantV| g.user_id == user_id && g.sandbox_id == sandbox_id)
    }

    pub open spec fn user(self, id: Seq<char>) -> Option<UserV> {
        match self.user_row(id) {
            Some(u) => Some(u.person()),
            None => None,
        }
    }

    pub open spec fn place(self, id: Seq<char>) -> Option<SandboxV> {
        match self.sandbox_row(id) {
            Some(s) => Some(s.place()),
            None => None,
        }
    }

    /// The user whom `token` stands for at the time `now`: the owner of a session with
    /// that token which has not expired.
    pub open spec fn session_user(self, token: Seq<char>, now: i64) -> Option<UserV> {
        match first(self.sessions, |s: SessionRowV| s.token == token && s.expires_at > now) {
            Some(s) => self.user(s.user_id),
            None => None,
        }
    }

    /// All accounts, by username.
    pub open spec fn people(self) -> Seq<UserV> {
        order::arranged(
            self.users.map_values(|u: UserRowV| u.person()),
            |u: UserV| u.username,
        )
    }

    /// All sandboxes, by name.
    pub open spec fn places(self) -> Seq<SandboxV> {
        order::arranged(
            self.sandboxes.map_values(|s: SandboxRowV| s.place()),
            |s: SandboxV| s.name,
        )
    }

    /// Which rule a change would break, if any.
    pub open spec fn violation(self, c: ChangeV) -> Option<DbError> {
        match c {
            ChangeV::InsertUser(u) => if self.user_row_named(u.username) is Some {
                Some(DbError::UsernameTaken)
            } else if self.user_row(u.id) is Some {
                Some(DbError::UserIdTaken)
            } else {
                None
            },
            ChangeV::InsertSession(s) => if self.session_row(s.token) is Some {
                Some(DbError::TokenTaken)
            } else if self.user_row(s.user_id) is None {
                Some(DbError::MissingReference)
            } else {
                None
            },
            ChangeV::InsertSandbox(s) => if self.sandbox_row(s.id) is Some {
                Some(DbError::SandboxIdTaken)
            } else {
                None
            },
            ChangeV::PutGrant(g) => if self.grant_row(g.user_id, g.sandbox_id) is None && (
            self.user_row(g.user_id) is None || self.sandbox_row(g.sandbox_id) is None) {
                Some(DbError::MissingReference)
            } else {
                None
            },
            _ => None,
        }
    }

    /// The tables after a change.
    pub open spec fn run(self, c: ChangeV) -> Tables {
        match c {
            ChangeV::InsertUser(u) => Tables { users: self.users.push(u), ..self },
            ChangeV::UpdateUser { id, display_name, role, password_hash } => Tables {
                users: self.users.map_values(
                    |u: UserRowV|
                        if u.id == id {
                            UserRowV {
                                display_name: or_keep(display_name, u.display_name),
                                role: or_keep(role, u.role),
                                password_hash: or_keep(password_hash, u.password_hash),
                                ..u
                            }
                        } else {
                            u
                        },
                ),
                ..self
            },
            ChangeV::DeleteUser { id } => Tables {
                users: self.users.filter(|u: UserRowV| u.id != id),
                sessions: self.sessions.filter(|s: SessionRowV| s.user_id != id),
                grants: self.grants.filter(|g: GrantV| g.user_id != id),
                ..self
            },
            ChangeV::InsertSession(s) => Tables { sessions: self.sessions.push(s), ..self },
            ChangeV::DeleteSession { token } => Tables {
                sessions: self.sessions.filter(|s: SessionRowV| s.token != token),
                ..self
            },
            ChangeV::InsertSandbox(s) => Tables { sandboxes: self.sandboxes.push(s), ..self },
            ChangeV::UpdateSandbox { id, name, path, description } => Tables {
                sandboxes: self.sandboxes.map_values(
                    |s: SandboxRowV|
                        if s.id == id {
                            SandboxRowV {
                                name: or_keep(name, s.name),
                                path: or_keep(path, s.path),
                                description: or_keep(description, s.description),
                                ..s
                            }
                        } else {
                            s
                        },
                ),
                ..self
            },
            ChangeV::DeleteSandbox { id } => Tables {
                sandboxes: self.sandboxes.filter(|s: SandboxRowV| s.id != id),
                grants: self.grants.filter(|g: GrantV| g.sandbox_id != id),
                ..self
            },
            ChangeV::PutGrant(g) => if self.grant_row(g.user_id, g.sandbox_id) is Some {
                Tables {
                    grants: self.grants.map_values(
                        |h: GrantV|
                            if h.user_id == g.user_id && h.sandbox_id == g.sandbox_id {
                                g
                            } else {
                                h
                            },
                    ),
                    ..self
                }
            } else {
                Tables { grants: self.grants.push(g), ..self }
            },
            ChangeV::DeleteGrant { user_id, sandbox_id } => Tables {
                grants: self.grants.filter(
                    |g: GrantV| !(g.user_id == user_id && g.sandbox_id == sandbox_id),
                ),
                ..self
            },
        }
    }

    /// The tables after several changes, one after the other.
    pub open spec fn run_all(self, log: Seq<ChangeV>) -> Tables
        decreases log.len(),
    {
        if log.len() == 0 {
            self
        } else {
            self.run_all(log.drop_last()).run(log.last())
        }
    }

    /// The rules of the tables: identifiers, usernames and tokens stand for one row
    /// each, and there is one grant for a user and a sandbox.
    pub open spec fn wf(self) -> bool {
        &&& apart(
            self.users,
            |a: UserRowV, b: UserRowV| a.id != b.id && a.username != b.username,
        )
        &&& apart(self.sessions, |a: SessionRowV, b: SessionRowV| a.token != b.token)
        &&& apart(self.sandboxes, |a: SandboxRowV, b: SandboxRowV| a.id != b.id)
        &&& apart(
            self.grants,
            |a: GrantV, b: GrantV| a.user_id != b.user_id || a.sandbox_id != b.sandbox_id,
        )
    }

    /// Whether sessions and grants name users and sandboxes that exist. Rows that some
    /// other program left in the stored tables need not; no change adds such rows.
    pub open spec fn linked(self) -> bool {
        &&& every(self.sessions, |s: SessionRowV| self.user_row(s.user_id) is Some)
        &&& every(
            self.grants,
            |g: GrantV|
                self.user_row(g.user_id) is Some && self.sandbox_row(g.sandbox_id) is Some,
        )
    }
}

/// Making two lists of changes one after the other is making their concatenation.
pub proof fn changes_in_sequence(t: Tables, a: Seq<ChangeV>, b: Seq<ChangeV>)
    ensures
        t.run_all(a + b) == t.run_all(a).run_all(b),
    decreases b.len(),
{
    if b.len() == 0 {
        assert(a + b =~= a);
    } else {
        changes_in_sequence(t, a, b.drop_last());
        assert((a + b).drop_last() =~= a + b.drop_last());
    }
}

// ---------------------------------------------------------------------------
// Facts about sequences of rows
// ---------------------------------------------------------------------------

/// The first match stands somewhere, after elements that do not match; without one,
/// nothing matches.
pub proof fn lemma_first<A>(s: Seq<A>, p: spec_fn(A) -> bool)
    ensures
        match first(s, p) {
            Some(x) => p(x) && exists|k: int|
                0 <= k < s.len() && (#[trigger] s[k]) == x && forall|j: int|
                    0 <= j < k ==> !p(#[trigger] s[j]),
            None => forall|j: int| 0 <= j < s.len() ==> !p(#[trigger] s[j]),
        },
    decreases s.len(),
{
    if s.len() > 0 && !p(s[0]) {
        let t = s.skip(1);
        lemma_first(t, p);
        match first(t, p) {
            Some(x) => {
                let k = choose|k: int|
                    0 <= k < t.len() && (#[trigger] t[k]) == x && forall|j: int|
                        0 <= j < k ==> !p(#[trigger] t[j]);
                assert(s[k + 1] == x);
                assert forall|j: int| 0 <= j < k + 1 implies !p(#[trigger] s[j]) by {
                    if j > 0 {
                        assert(t[j - 1] == s[j]);
                    }
                }
            },
            None => {
                assert forall|j: int| 0 <= j < s.len() implies !p(#[trigger] s[j]) by {
                    if j > 0 {
                        assert(t[j - 1] == s[j]);
                    }
                }
            },
        }
    } else if s.len() > 0 {
        assert(s[0] == s[0]);
    }
}

/// An element that matches, after elements that do not, is the first match.
pub proof fn lemma_first_at<A>(s: Seq<A>, p: spec_fn(A) -> bool, k: int)
    requires
        0 <= k < s.len(),
        p(s[k]),
        forall|j: int| 0 <= j < k ==> !p(#[trigger] s[j]),
    ensures
        first(s, p) == Some(s[k]),
    decreases s.len(),
{
    if k > 0 {
        assert(!p(s[0]));
        let t = s.skip(1);
        assert forall|j: int| 0 <= j < k - 1 implies !p(#[trigger] t[j]) by {
            assert(t[j] == s[j + 1]);
        }
        lemma_first_at(t, p, k - 1);
    }
}

pub proof fn lemma_first_push<A>(s: Seq<A>, x: A, p: spec_fn(A) -> bool)
    ensures
        first(s.push(x), p) == if first(s, p) is Some {
            first(s, p)
        } else if p(x) {
            Some(x)
        } else {
            None
        },
    decreases s.len(),
{
    if s.len() == 0 {
        assert(s.push(x).skip(1) =~= Seq::<A>::empty());
        assert(s.push(x)[0] == x);
        reveal_with_fuel(first, 2);
    } else {
        assert(s.push(x)[0] == s[0]);
        assert(s.push(x).skip(1) =~= s.skip(1).push(x));
        lemma_first_push(s.skip(1), x, p);
    }
}

pub proof fn lemma_first_filter<A>(
    s: Seq<A>,
    keep: spec_fn(A) -> bool,
    p: spec_fn(A) -> bool,
)
    ensures
        first(s.filter(keep), p) == first(s, |x: A| keep(x) && p(x)),
    decreases s.len(),
{
    let q = |x: A| keep(x) && p(x);
    if s.len() == 0 {
        reveal(Seq::filter);
    } else {
        let front = s.drop_last();
        let last = s.last();
        assert(s =~= front.push(last));
        lemma_first_filter(front, keep, p);
        order::lemma_filter_push(front, last, keep);
        lemma_first_push(front, last, q);
        lemma_first_push(front.filter(keep), last, p);
    }
}

pub proof fn lemma_first_map<A>(s: Seq<A>, f: spec_fn(A) -> A, p: spec_fn(A) -> bool)
    requires
        forall|x: A| p(#[trigger] f(x)) == p(x),
    ensures
        first(s.map_values(f), p) == match first(s, p) {
            Some(x) => Some(f(x)),
            None => None,
        },
    decreases s.len(),
{
    if s.len() > 0 {
        assert(s.map_values(f)[0] == f(s[0]));
        assert(s.map_values(f).skip(1) =~= s.skip(1).map_values(f));
        lemma_first_map(s.skip(1), f, p);
    }
}

pub proof fn lemma_first_same<A>(s: Seq<A>, p: spec_fn(A) -> bool, q: spec_fn(A) -> bool)
    requires
        forall|i: int| 0 <= i < s.len() ==> p(#[trigger] s[i]) == q(s[i]),
    ensures
        first(s, p) == first(s, q),
    decreases s.len(),
{
    if s.len() > 0 {
        assert(p(s[0]) == q(s[0]));
        let t = s.skip(1);
        assert forall|i: int| 0 <= i < t.len() implies p(#[trigger] t[i]) == q(t[i]) by {
            assert(t[i] == s[i + 1]);
        }
        lemma_first_same(t, p, q);
    }
}

pub proof fn lemma_apart_push<A>(s: Seq<A>, x: A, r: spec_fn(A, A) -> bool)
    requires
        apart(s, r),
        every(s, |y: A| r(y, x)),
    ensures
        apart(s.push(x), r),
{
    let t = s.push(x);
    assert forall|i: int, j: int| 0 <= i < j < t.len() implies r(#[trigger] t[i], #[trigger] t[j]) by {
        assert(t[i] == s[i]);
        if j < s.len() {
            assert(t[j] == s[j]);
        } else {
            let p = |y: A| r(y, x);
            assert(p(s[i]));
        }
    }
}

pub proof fn lemma_every_filter<A>(s: Seq<A>, keep: spec_fn(A) -> bool, p: spec_fn(A) -> bool)
    requires
        every(s, |x: A| keep(x) ==> p(x)),
    ensures
        every(s.filter(keep), p),
    decreases s.len(),
{
    if s.len() == 0 {
        reveal(Seq::filter);
    } else {
        let front = s.drop_last();
        let last = s.last();
        let q = |x: A| keep(x) ==> p(x);
        assert(s =~= front.push(last));
        assert(q(s[s.len() - 1]));
        assert forall|i: int| 0 <= i < front.len() implies q(#[trigger] front[i]) by {
            assert(q(s[i]));
        }
        lemma_every_filter(front, keep, p);
        order::lemma_filter_push(front, last, keep);
        let t = s.filter(keep);
        assert forall|i: int| 0 <= i < t.len() implies p(#[trigger] t[i]) by {
            if i < front.filter(keep).len() {
                assert(t[i] == front.filter(keep)[i]);
            }
        }
    }
}

pub proof fn lemma_apart_filter<A>(s: Seq<A>, keep: spec_fn(A) -> bool, r: spec_fn(A, A) -> bool)
    requires
        apart(s, r),
    ensures
        apart(s.filter(keep), r),
    decreases s.len(),
{
    if s.len() == 0 {
        reveal(Seq::filter);
    } else {
        let front = s.drop_last();
        let last = s.last();
        assert(s =~= front.push(last));
        assert forall|i: int, j: int| 0 <= i < j < front.len() implies r(
            #[trigger] front[i],
            #[trigger] front[j],
        ) by {
            assert(front[i] == s[i] && front[j] == s[j]);
        }
        lemma_apart_filter(front, keep, r);
        order::lemma_filter_push(front, last, keep);
        let p = |x: A| r(x, last);
        let q = |x: A| keep(x) ==> p(x);
        assert forall|i: int| 0 <= i < front.len() implies q(#[trigger] front[i]) by {
            assert(front[i] == s[i]);
            assert(r(s[i], s[s.len() - 1]));
        }
        lemma_every_filter(front, keep, p);
        if keep(last) {
            lemma_apart_push(front.filter(keep), last, r);
        }
    }
}

pub proof fn lemma_apart_map<A>(s: Seq<A>, f: spec_fn(A) -> A, r: spec_fn(A, A) -> bool)
    requires
        apart(s, r),
        forall|x: A, y: A| r(x, y) ==> #[trigger] r(f(x), f(y)),
    ensures
        apart(s.map_values(f), r),
{
    let t = s.map_values(f);
    assert forall|i: int, j: int| 0 <= i < j < t.len() implies r(#[trigger] t[i], #[trigger] t[j]) by {
        assert(t[i] == f(s[i]) && t[j] == f(s[j]));
        assert(r(s[i], s[j]));
    }
}

// ---------------------------------------------------------------------------
// What every change keeps
// ---------------------------------------------------------------------------

impl Tables {
    /// A change that breaks no rule leaves the rules of the tables intact.
    pub proof fn run_keeps_rules(self, c: ChangeV)
        requires
            self.wf(),
            self.violation(c) is None,
        ensures
            self.run(c).wf(),
    {
        let names = |a: UserRowV, b: UserRowV| a.id != b.id && a.username != b.username;
        let tokens = |a: SessionRowV, b: SessionRowV| a.token != b.token;
        let boxes = |a: SandboxRowV, b: SandboxRowV| a.id != b.id;
        let pairs = |a: GrantV, b: GrantV| a.user_id != b.user_id || a.sandbox_id != b.sandbox_id;
        match c {
            ChangeV::InsertUser(u) => {
                lemma_first(self.users, |x: UserRowV| x.id == u.id);
                lemma_first(self.users, |x: UserRowV| x.username == u.username);
                lemma_apart_push(self.users, u, names);
            },
            ChangeV::UpdateUser { id, display_name, role, password_hash } => {
                let f = |u: UserRowV|
                    if u.id == id {
                        UserRowV {
                            display_name: or_keep(display_name, u.display_name),
                            role: or_keep(role, u.role),
                            password_hash: or_keep(password_hash, u.password_hash),
                            ..u
                        }
                    } else {
                        u
                    };
                lemma_apart_map(self.users, f, names);
            },
            ChangeV::DeleteUser { id } => {
                lemma_apart_filter(self.users, |u: UserRowV| u.id != id, names);
                lemma_apart_filter(self.sessions, |s: SessionRowV| s.user_id != id, tokens);
                lemma_apart_filter(self.grants, |g: GrantV| g.user_id != id, pairs);
            },
            ChangeV::InsertSession(s) => {
                self.lemma_session_fits(s);
            },
            ChangeV::DeleteSession { token } => {
                lemma_apart_filter(self.sessions, |s: SessionRowV| s.token != token, tokens);
            },
            ChangeV::InsertSandbox(s) => {
                lemma_first(self.sandboxes, |x: SandboxRowV| x.id == s.id);
                lemma_apart_push(self.sandboxes, s, boxes);
            },
            ChangeV::UpdateSandbox { id, name, path, description } => {
                let f = |s: SandboxRowV|
                    if s.id == id {
                        SandboxRowV {
                            name: or_keep(name, s.name),
                            path: or_keep(path, s.path),
                            description: or_keep(description, s.description),
                            ..s
                        }
                    } else {
                        s
                    };
                lemma_apart_map(self.sandboxes, f, boxes);
            },
            ChangeV::DeleteSandbox { id } => {
                lemma_apart_filter(self.sandboxes, |s: SandboxRowV| s.id != id, boxes);
                lemma_apart_filter(self.grants, |g: GrantV| g.sandbox_id != id, pairs);
            },
            ChangeV::PutGrant(g) => {
                if self.grant_row(g.user_id, g.sandbox_id) is Some {
                    let f = |h: GrantV|
                        if h.user_id == g.user_id && h.sandbox_id == g.sandbox_id {
                            g
                        } else {
                            h
                        };
                    lemma_apart_map(self.grants, f, pairs);
                } else {
                    self.lemma_grant_fits(g);
                }
            },
            ChangeV::DeleteGrant { user_id, sandbox_id } => {
                let keep = |g: GrantV| !(g.user_id == user_id && g.sandbox_id == sandbox_id);
                lemma_apart_filter(self.grants, keep, pairs);
            },
        }
    }

    /// What a change that breaks no rule keeps.
    pub(crate) proof fn lemma_kept(self, c: ChangeV)
        requires
            self.violation(c) is None,
        ensures
            self.wf() ==> self.run(c).wf(),
            self.linked() ==> self.run(c).linked(),
    {
        if self.wf() {
            self.run_keeps_rules(c);
        }
        if self.linked() {
            self.run_keeps_links(c);
        }
    }

    /// A session with a token of its own can be added.
    pub(crate) proof fn lemma_session_fits(self, s: SessionRowV)
        requires
            self.wf(),
            self.session_row(s.token) is None,
        ensures
            (Tables { sessions: self.sessions.push(s), ..self }).wf(),
    {
        let tokens = |a: SessionRowV, b: SessionRowV| a.token != b.token;
        lemma_first(self.sessions, |x: SessionRowV| x.token == s.token);
        lemma_apart_push(self.sessions, s, tokens);
    }

    /// A grant for a user and a sandbox that have none can be added.
    pub(crate) proof fn lemma_grant_fits(self, g: GrantV)
        requires
            self.wf(),
            self.grant_row(g.user_id, g.sandbox_id) is None,
        ensures
            (Tables { grants: self.grants.push(g), ..self }).wf(),
    {
        let pairs = |a: GrantV, b: GrantV| a.user_id != b.user_id || a.sandbox_id != b.sandbox_id;
        lemma_first(
            self.grants,
            |h: GrantV| h.user_id == g.user_id && h.sandbox_id == g.sandbox_id,
        );
        lemma_apart_push(self.grants, g, pairs);
    }

    /// A change that breaks no rule adds no session and no grant that names what does not
    /// exist, and leaves none behind.
    pub proof fn run_keeps_links(self, c: ChangeV)
        requires
            self.linked(),
            self.violation(c) is None,
        ensures
            self.run(c).linked(),
    {
        let t = self.run(c);
        let owned = |s: SessionRowV| self.user_row(s.user_id) is Some;
        let owned2 = |s: SessionRowV| t.user_row(s.user_id) is Some;
        let known = |g: GrantV|
            self.user_row(g.user_id) is Some && self.sandbox_row(g.sandbox_id) is Some;
        let known2 = |g: GrantV|
            t.user_row(g.user_id) is Some && t.sandbox_row(g.sandbox_id) is Some;
        match c {
            ChangeV::InsertUser(u) => {
                self.lemma_users_grow(u);
            },
            ChangeV::UpdateUser { id, display_name, role, password_hash } => {
                let f = |u: UserRowV|
                    if u.id == id {
                        UserRowV {
                            display_name: or_keep(display_name, u.display_name),
                            role: or_keep(role, u.role),
                            password_hash: or_keep(password_hash, u.password_hash),
                            ..u
                        }
                    } else {
                        u
                    };
                assert forall|k: Seq<char>| t.user_row(k) is Some == self.user_row(k) is Some by {
                    lemma_first_map(self.users, f, |x: UserRowV| x.id == k);
                }
            },
            ChangeV::DeleteUser { id } => {
                assert forall|k: Seq<char>| k != id implies t.user_row(k) == self.user_row(k) by {
                    lemma_first_filter(
                        self.users,
                        |u: UserRowV| u.id != id,
                        |x: UserRowV| x.id == k,
                    );
                    lemma_first_same(
                        self.users,
                        |x: UserRowV|
                            (|u: UserRowV| u.id != id)(x) && (|x: UserRowV| x.id == k)(x),
                        |x: UserRowV| x.id == k,
                    );
                }
                assert forall|i: int| 0 <= i < self.sessions.len() implies (
                |s: SessionRowV| s.user_id != id ==> owned2(s))(#[trigger] self.sessions[i]) by {
                    assert(owned(self.sessions[i]));
                }
                lemma_every_filter(self.sessions, |s: SessionRowV| s.user_id != id, owned2);
                assert forall|i: int| 0 <= i < self.grants.len() implies (
                |g: GrantV| g.user_id != id ==> known2(g))(#[trigger] self.grants[i]) by {
                    assert(known(self.grants[i]));
                }
                lemma_every_filter(self.grants, |g: GrantV| g.user_id != id, known2);
            },
            ChangeV::InsertSession(s) => {
                assert forall|i: int| 0 <= i < t.sessions.len() implies owned2(
                    #[trigger] t.sessions[i],
                ) by {
                    if i < self.sessions.len() {
                        assert(owned(self.sessions[i]));
                    }
                }
            },
            ChangeV::DeleteSession { token } => {
                assert forall|i: int| 0 <= i < self.sessions.len() implies (
                |s: SessionRowV| s.token != token ==> owned2(s))(#[trigger] self.sessions[i]) by {
                    assert(owned(self.sessions[i]));
                }
                lemma_every_filter(self.sessions, |s: SessionRowV| s.token != token, owned2);
            },
            ChangeV::InsertSandbox(s) => {
                self.lemma_sandboxes_grow(s);
            },
            ChangeV::UpdateSandbox { id, name, path, description } => {
                let f = |s: SandboxRowV|
                    if s.id == id {
                        SandboxRowV {
                            name: or_keep(name, s.name),
                            path: or_keep(path, s.path),
                            description: or_keep(description, s.description),
                            ..s
                        }
                    } else {
                        s
                    };
                assert forall|k: Seq<char>|
                    t.sandbox_row(k) is Some == self.sandbox_row(k) is Some by {
                    lemma_first_map(self.sandboxes, f, |x: SandboxRowV| x.id == k);
                }
            },
            ChangeV::DeleteSandbox { id } => {
                assert forall|k: Seq<char>| k != id implies t.sandbox_row(k) == self.sandbox_row(
                    k,
                ) by {
                    lemma_first_filter(
                        self.sandboxes,
                        |s: SandboxRowV| s.id != id,
                        |x: SandboxRowV| x.id == k,
                    );
                    lemma_first_same(
                        self.sandboxes,
                        |x: SandboxRowV|
                            (|s: SandboxRowV| s.id != id)(x) && (|x: SandboxRowV| x.id == k)(x),
                        |x: SandboxRowV| x.id == k,
                    );
                }
                assert forall|i: int| 0 <= i < self.grants.len() implies (
                |g: GrantV| g.sandbox_id != id ==> known2(g))(#[trigger] self.grants[i]) by {
                    assert(known(self.grants[i]));
                }
                lemma_every_filter(self.grants, |g: GrantV| g.sandbox_id != id, known2);
            },
            ChangeV::PutGrant(g) => {
                lemma_first(
                    self.grants,
                    |h: GrantV| h.user_id == g.user_id && h.sandbox_id == g.sandbox_id,
                );
                if self.grant_row(g.user_id, g.sandbox_id) is Some {
                    let f = |h: GrantV|
                        if h.user_id == g.user_id && h.sandbox_id == g.sandbox_id {
                            g
                        } else {
                            h
                        };
                    } else {
                    }
                assert forall|i: int| 0 <= i < t.grants.len() implies known2(
                    #[trigger] t.grants[i],
                ) by {
                    if i < self.grants.len() {
                        assert(known(self.grants[i]));
                    }
                }
            },
            ChangeV::DeleteGrant { user_id, sandbox_id } => {
                let keep = |g: GrantV| !(g.user_id == user_id && g.sandbox_id == sandbox_id);
                assert forall|i: int| 0 <= i < self.grants.len() implies (
                |g: GrantV| keep(g) ==> known2(g))(#[trigger] self.grants[i]) by {
                    assert(known(self.grants[i]));
                }
                lemma_every_filter(self.grants, keep, known2);
            },
        }
    }

    proof fn lemma_users_grow(self, u: UserRowV)
        requires
            self.linked(),
            self.user_row(u.id) is None,
        ensures
            ({
                let t = self.run(ChangeV::InsertUser(u));
                &&& every(t.sessions, |s: SessionRowV| t.user_row(s.user_id) is Some)
                &&& every(
                    t.grants,
                    |g: GrantV|
                        t.user_row(g.user_id) is Some && t.sandbox_row(g.sandbox_id) is Some,
                )
            }),
    {
        let t = self.run(ChangeV::InsertUser(u));
        let owned = |s: SessionRowV| self.user_row(s.user_id) is Some;
        let known = |g: GrantV|
            self.user_row(g.user_id) is Some && self.sandbox_row(g.sandbox_id) is Some;
        assert forall|k: Seq<char>| self.user_row(k) is Some implies t.user_row(k) is Some by {
            lemma_first_push(self.users, u, |x: UserRowV| x.id == k);
        }
        assert forall|i: int| 0 <= i < t.sessions.len() implies t.user_row(
            (#[trigger] t.sessions[i]).user_id,
        ) is Some by {
            assert(owned(self.sessions[i]));
        }
        assert forall|i: int| 0 <= i < t.grants.len() implies t.user_row(
            (#[trigger] t.grants[i]).user_id,
        ) is Some && t.sandbox_row(t.grants[i].sandbox_id) is Some by {
            assert(known(self.grants[i]));
        }
    }

    proof fn lemma_sandboxes_grow(self, s: SandboxRowV)
        requires
            self.linked(),
        ensures
            ({
                let t = self.run(ChangeV::InsertSandbox(s));
                every(
                    t.grants,
                    |g: GrantV|
                        t.user_row(g.user_id) is Some && t.sandbox_row(g.sandbox_id) is Some,
                )
            }),
    {
        let t = self.run(ChangeV::InsertSandbox(s));
        let known = |g: GrantV|
            self.user_row(g.user_id) is Some && self.sandbox_row(g.sandbox_id) is Some;
        assert forall|k: Seq<char>| self.sandbox_row(k) is Some implies t.sandbox_row(
            k,
        ) is Some by {
            lemma_first_push(self.sandboxes, s, |x: SandboxRowV| x.id == k);
        }
        assert forall|i: int| 0 <= i < t.grants.len() implies t.user_row(
            (#[trigger] t.grants[i]).user_id,
        ) is Some && t.sandbox_row(t.grants[i].sandbox_id) is Some by {
            assert(known(self.grants[i]));
        }
    }
}

// ---------------------------------------------------------------------------
// Rows that cannot be added one by one break the rules as a whole
// ---------------------------------------------------------------------------

impl Tables {
    pub(crate) proof fn lemma_user_clash(self, whole: Tables, k: int)
        requires
            0 <= k < whole.users.len(),
            self.users == whole.users.take(k),
            self.violation(ChangeV::InsertUser(whole.users[k])) is Some,
        ensures
            !whole.wf(),
    {
        let u = whole.users[k];
        lemma_first(self.users, |x: UserRowV| x.id == u.id);
        lemma_first(self.users, |x: UserRowV| x.username == u.username);
        let names = |a: UserRowV, b: UserRowV| a.id != b.id && a.username != b.username;
        if whole.wf() {
            assert forall|j: int| 0 <= j < k implies self.users[j].id != u.id
                && self.users[j].username != u.username by {
                assert(names(whole.users[j], whole.users[k]));
            }
        }
    }

    pub(crate) proof fn lemma_session_clash(self, whole: Tables, k: int)
        requires
            0 <= k < whole.sessions.len(),
            self.sessions == whole.sessions.take(k),
            self.session_row(whole.sessions[k].token) is Some,
        ensures
            !whole.wf(),
    {
        let s = whole.sessions[k];
        lemma_first(self.sessions, |x: SessionRowV| x.token == s.token);
        let tokens = |a: SessionRowV, b: SessionRowV| a.token != b.token;
        if whole.wf() {
            assert forall|j: int| 0 <= j < k implies self.sessions[j].token != s.token by {
                assert(tokens(whole.sessions[j], whole.sessions[k]));
            }
        }
    }

    pub(crate) proof fn lemma_sandbox_clash(self, whole: Tables, k: int)
        requires
            0 <= k < whole.sandboxes.len(),
            self.sandboxes == whole.sandboxes.take(k),
            self.violation(ChangeV::InsertSandbox(whole.sandboxes[k])) is Some,
        ensures
            !whole.wf(),
    {
        let s = whole.sandboxes[k];
        lemma_first(self.sandboxes, |x: SandboxRowV| x.id == s.id);
        let boxes = |a: SandboxRowV, b: SandboxRowV| a.id != b.id;
        if whole.wf() {
            assert forall|j: int| 0 <= j < k implies self.sandboxes[j].id != s.id by {
                assert(boxes(whole.sandboxes[j], whole.sandboxes[k]));
            }
        }
    }

    pub(crate) proof fn lemma_grant_clash(self, whole: Tables, k: int)
        requires
            0 <= k < whole.grants.len(),
            self.grants == whole.grants.take(k),
            self.grant_row(whole.grants[k].user_id, whole.grants[k].sandbox_id) is Some,
        ensures
            !whole.wf(),
    {
        let g = whole.grants[k];
        lemma_first(
            self.grants,
            |h: GrantV| h.user_id == g.user_id && h.sandbox_id == g.sandbox_id,
        );
        let pairs = |a: GrantV, b: GrantV| a.user_id != b.user_id || a.sandbox_id != b.sandbox_id;
        if whole.wf() {
            assert forall|j: int| 0 <= j < k implies !(self.grants[j].user_id == g.user_id
                && self.grants[j].sandbox_id == g.sandbox_id) by {
                assert(pairs(whole.grants[j], whole.grants[k]));
            }
        }
    }
}

// ---------------------------------------------------------------------------
// What the tables answer, and what a change does to them
// ---------------------------------------------------------------------------

/// Where no two elements match, the first match is the only one.
proof fn lemma_only_match<A>(s: Seq<A>, p: spec_fn(A) -> bool, x: A)
    requires
        forall|i: int, j: int|
            0 <= i < j < s.len() ==> !(p(#[trigger] s[i]) && p(#[trigger] s[j])),
    ensures
        first(s, p) == Some(x) <==> s.contains(x) && p(x),
        first(s, p) is None <==> forall|i: int| 0 <= i < s.len() ==> !p(#[trigger] s[i]),
{
    lemma_first(s, p);
    if s.contains(x) && p(x) {
        let k = choose|k: int| 0 <= k < s.len() && s[k] == x;
        assert forall|j: int| 0 <= j < k implies !p(#[trigger] s[j]) by {
            assert(p(s[k]));
        }
        lemma_first_at(s, p, k);
    }
}

/// An account is found by its identifier and by its username exactly where it is there,
/// and is shown with its own identifier, names and role.
pub proof fn accounts_are_found(t: Tables, key: Seq<char>, u: UserRowV)
    requires
        t.wf(),
    ensures
        t.user_row(key) == Some(u) <==> t.users.contains(u) && u.id == key,
        t.user_row(key) is None <==> forall|i: int|
            0 <= i < t.users.len() ==> (#[trigger] t.users[i]).id != key,
        t.user_row_named(key) == Some(u) <==> t.users.contains(u) && u.username == key,
        t.user_row_named(key) is None <==> forall|i: int|
            0 <= i < t.users.len() ==> (#[trigger] t.users[i]).username != key,
        t.user(key) is Some <==> t.user_row(key) is Some,
        t.users.contains(u) && u.id == key ==> (t.user(key) matches Some(p) && {
            &&& p.id == u.id
            &&& p.username == u.username
            &&& p.display_name == u.display_name
            &&& p.role == u.role
        }),
{
    let by_id = |x: UserRowV| x.id == key;
    let by_name = |x: UserRowV| x.username == key;
    let names = |a: UserRowV, b: UserRowV| a.id != b.id && a.username != b.username;
    assert forall|i: int, j: int| 0 <= i < j < t.users.len() implies !(by_id(
        #[trigger] t.users[i],
    ) && by_id(#[trigger] t.users[j])) by {
        assert(names(t.users[i], t.users[j]));
    }
    assert forall|i: int, j: int| 0 <= i < j < t.users.len() implies !(by_name(
        #[trigger] t.users[i],
    ) && by_name(#[trigger] t.users[j])) by {
        assert(names(t.users[i], t.users[j]));
    }
    lemma_only_match(t.users, by_id, u);
    lemma_only_match(t.users, by_name, u);
    if t.user_row(key) is None {
        assert forall|i: int| 0 <= i < t.users.len() implies (#[trigger] t.users[i]).id != key by {
            assert(!by_id(t.users[i]));
        }
    }
    if t.user_row_named(key) is None {
        assert forall|i: int| 0 <= i < t.users.len() implies (#[trigger] t.users[i]).username
            != key by {
            assert(!by_name(t.users[i]));
        }
    }
}

/// A sandbox is found by its identifier exactly where it is there, and is shown with its
/// own identifier, name, path and description.
pub proof fn sandboxes_are_found(t: Tables, key: Seq<char>, s: SandboxRowV)
    requires
        t.wf(),
    ensures
        t.sandbox_row(key) == Some(s) <==> t.sandboxes.contains(s) && s.id == key,
        t.sandbox_row(key) is None <==> forall|i: int|
            0 <= i < t.sandboxes.len() ==> (#[trigger] t.sandboxes[i]).id != key,
        t.place(key) is Some <==> t.sandbox_row(key) is Some,
        t.sandboxes.contains(s) && s.id == key ==> (t.place(key) matches Some(p) && {
            &&& p.id == s.id
            &&& p.name == s.name
            &&& p.path == s.path
            &&& p.description == s.description
        }),
{
    let by_id = |x: SandboxRowV| x.id == key;
    let ids = |a: SandboxRowV, b: SandboxRowV| a.id != b.id;
    assert forall|i: int, j: int| 0 <= i < j < t.sandboxes.len() implies !(by_id(
        #[trigger] t.sandboxes[i],
    ) && by_id(#[trigger] t.sandboxes[j])) by {
        assert(ids(t.sandboxes[i], t.sandboxes[j]));
    }
    lemma_only_match(t.sandboxes, by_id, s);
    if t.sandbox_row(key) is None {
        assert forall|i: int| 0 <= i < t.sandboxes.len() implies (#[trigger] t.sandboxes[i]).id
            != key by {
            assert(!by_id(t.sandboxes[i]));
        }
    }
}

/// A grant is found by its user and its sandbox exactly where it is there.
pub proof fn grants_are_found(t: Tables, user_id: Seq<char>, sandbox_id: Seq<char>, g: GrantV)
    requires
        t.wf(),
    ensures
        t.grant_row(user_id, sandbox_id) == Some(g) <==> t.grants.contains(g) && g.user_id
            == user_id && g.sandbox_id == sandbox_id,
        t.grant_row(user_id, sandbox_id) is None <==> forall|i: int|
            0 <= i < t.grants.len() ==> (#[trigger] t.grants[i]).user_id != user_id
                || t.grants[i].sandbox_id != sandbox_id,
{
    let p = |x: GrantV| x.user_id == user_id && x.sandbox_id == sandbox_id;
    let keys = |a: GrantV, b: GrantV| a.user_id != b.user_id || a.sandbox_id != b.sandbox_id;
    assert forall|i: int, j: int| 0 <= i < j < t.grants.len() implies !(p(#[trigger] t.grants[i])
        && p(#[trigger] t.grants[j])) by {
        assert(keys(t.grants[i], t.grants[j]));
    }
    lemma_only_match(t.grants, p, g);
    if t.grant_row(user_id, sandbox_id) is None {
        assert forall|i: int| 0 <= i < t.grants.len() implies (#[trigger] t.grants[i]).user_id
            != user_id || t.grants[i].sandbox_id != sandbox_id by {
            assert(!p(t.grants[i]));
        }
    }
}

/// A token stands for the owner of its session as long as the session has not expired,
/// and for nobody else at any time.
pub proof fn tokens_stand_for_owners(t: Tables, token: Seq<char>, now: i64, s: SessionRowV)
    requires
        t.wf(),
    ensures
        t.session_row(token) == Some(s) <==> t.sessions.contains(s) && s.token == token,
        t.session_row(token) is None <==> forall|i: int|
            0 <= i < t.sessions.len() ==> (#[trigger] t.sessions[i]).token != token,
        t.sessions.contains(s) && s.token == token && s.expires_at > now ==> t.session_user(
            token,
            now,
        ) == t.user(s.user_id),
        t.sessions.contains(s) && s.token == token && s.expires_at <= now ==> t.session_user(
            token,
            now,
        ) is None,
        t.session_row(token) is None ==> t.session_user(token, now) is None,
{
    let p = |x: SessionRowV| x.token == token;
    let q = |x: SessionRowV| x.token == token && x.expires_at > now;
    let tokens = |a: SessionRowV, b: SessionRowV| a.token != b.token;
    assert forall|i: int, j: int| 0 <= i < j < t.sessions.len() implies !(p(
        #[trigger] t.sessions[i],
    ) && p(#[trigger] t.sessions[j])) by {
        assert(tokens(t.sessions[i], t.sessions[j]));
    }
    assert forall|i: int, j: int| 0 <= i < j < t.sessions.len() implies !(q(
        #[trigger] t.sessions[i],
    ) && q(#[trigger] t.sessions[j])) by {
        assert(tokens(t.sessions[i], t.sessions[j]));
    }
    lemma_only_match(t.sessions, p, s);
    lemma_only_match(t.sessions, q, s);
    lemma_first(t.sessions, q);
    if t.session_row(token) is None {
        assert forall|i: int| 0 <= i < t.sessions.len() implies (#[trigger] t.sessions[i]).token
            != token by {
            assert(!p(t.sessions[i]));
        }
    }
    if t.sessions.contains(s) && s.token == token && s.expires_at <= now {
        if let Some(x) = first(t.sessions, q) {
            lemma_only_match(t.sessions, p, x);
        }
    }
}

/// A row that is added comes last, and nothing else changes.
pub proof fn added_rows_come_last(t: Tables, u: UserRowV, s: SessionRowV, b: SandboxRowV)
    ensures
        ({
            let after = t.run(ChangeV::InsertUser(u));
            &&& after.users.len() == t.users.len() + 1
            &&& after.users.last() == u
            &&& after.users.drop_last() == t.users
            &&& after.sessions == t.sessions && after.sandboxes == t.sandboxes && after.grants
                == t.grants
        }),
        ({
            let after = t.run(ChangeV::InsertSession(s));
            &&& after.sessions.len() == t.sessions.len() + 1
            &&& after.sessions.last() == s
            &&& after.sessions.drop_last() == t.sessions
            &&& after.users == t.users && after.sandboxes == t.sandboxes && after.grants == t.grants
        }),
        ({
            let after = t.run(ChangeV::InsertSandbox(b));
            &&& after.sandboxes.len() == t.sandboxes.len() + 1
            &&& after.sandboxes.last() == b
            &&& after.sandboxes.drop_last() == t.sandboxes
            &&& after.users == t.users && after.sessions == t.sessions && after.grants == t.grants
        }),
{
    assert(t.users.push(u).drop_last() =~= t.users);
    assert(t.sessions.push(s).drop_last() =~= t.sessions);
    assert(t.sandboxes.push(b).drop_last() =~= t.sandboxes);
}

/// A change of an account changes what is given of the row with its identifier, row by
/// row, and nothing else: not the identifier, not the username, not the time of creation.
pub proof fn account_changes_are_exact(
    t: Tables,
    id: Seq<char>,
    display_name: Option<Seq<char>>,
    role: Option<Seq<char>>,
    password_hash: Option<Seq<char>>,
)
    ensures
        ({
            let after = t.run(ChangeV::UpdateUser { id, display_name, role, password_hash });
            &&& after.users.len() == t.users.len()
            &&& forall|i: int|
                0 <= i < t.users.len() ==> ({
                    let old = t.users[i];
                    let new = #[trigger] after.users[i];
                    &&& old.id != id ==> new == old
                    &&& new.id == old.id
                    &&& new.username == old.username
                    &&& new.created_at == old.created_at
                    &&& old.id == id ==> {
                        &&& display_name matches Some(x) ==> new.display_name == x
                        &&& display_name is None ==> new.display_name == old.display_name
                        &&& role matches Some(x) ==> new.role == x
                        &&& role is None ==> new.role == old.role
                        &&& password_hash matches Some(x) ==> new.password_hash == x
                        &&& password_hash is None ==> new.password_hash == old.password_hash
                    }
                })
            &&& after.sessions == t.sessions && after.sandboxes == t.sandboxes && after.grants
                == t.grants
        }),
{
}

/// A change of a sandbox changes what is given of the row with its identifier, row by row,
/// and nothing else: not the identifier, not the time of creation.
pub proof fn sandbox_changes_are_exact(
    t: Tables,
    id: Seq<char>,
    name: Option<Seq<char>>,
    path: Option<Seq<char>>,
    description: Option<Seq<char>>,
)
    ensures
        ({
            let after = t.run(ChangeV::UpdateSandbox { id, name, path, description });
            &&& after.sandboxes.len() == t.sandboxes.len()
            &&& forall|i: int|
                0 <= i < t.sandboxes.len() ==> ({
                    let old = t.sandboxes[i];
                    let new = #[trigger] after.sandboxes[i];
                    &&& old.id != id ==> new == old
                    &&& new.id == old.id
                    &&& new.created_at == old.created_at
                    &&& old.id == id ==> {
                        &&& name matches Some(x) ==> new.name == x
                        &&& name is None ==> new.name == old.name
                        &&& path matches Some(x) ==> new.path == x
                        &&& path is None ==> new.path == old.path
                        &&& description matches Some(x) ==> new.description == x
                        &&& description is None ==> new.description == old.description
                    }
                })
            &&& after.users == t.users && after.sessions == t.sessions && after.grants == t.grants
        }),
{
}

/// Deleting an account deletes its row, its sessions and its grants, and no other.
pub proof fn account_deletions_are_exact(
    t: Tables,
    id: Seq<char>,
    u: UserRowV,
    s: SessionRowV,
    g: GrantV,
)
    ensures
        ({
            let after = t.run(ChangeV::DeleteUser { id });
            &&& after.users.contains(u) <==> t.users.contains(u) && u.id != id
            &&& after.sessions.contains(s) <==> t.sessions.contains(s) && s.user_id != id
            &&& after.grants.contains(g) <==> t.grants.contains(g) && g.user_id != id
            &&& after.sandboxes == t.sandboxes
        }),
{
    order::filter_keeps(t.users, |x: UserRowV| x.id != id, u);
    order::filter_keeps(t.sessions, |x: SessionRowV| x.user_id != id, s);
    order::filter_keeps(t.grants, |x: GrantV| x.user_id != id, g);
}

/// Deleting a sandbox deletes its row and its grants, and no other.
pub proof fn sandbox_deletions_are_exact(t: Tables, id: Seq<char>, b: SandboxRowV, g: GrantV)
    ensures
        ({
            let after = t.run(ChangeV::DeleteSandbox { id });
            &&& after.sandboxes.contains(b) <==> t.sandboxes.contains(b) && b.id != id
            &&& after.grants.contains(g) <==> t.grants.contains(g) && g.sandbox_id != id
            &&& after.users == t.users && after.sessions == t.sessions
        }),
{
    order::filter_keeps(t.sandboxes, |x: SandboxRowV| x.id != id, b);
    order::filter_keeps(t.grants, |x: GrantV| x.sandbox_id != id, g);
}

/// Deleting a session deletes the one with its token, and taking a grant back deletes the
/// one for its user and sandbox; nothing else is deleted.
pub proof fn other_deletions_are_exact(
    t: Tables,
    token: Seq<char>,
    s: SessionRowV,
    user_id: Seq<char>,
    sandbox_id: Seq<char>,
    g: GrantV,
)
    ensures
        ({
            let after = t.run(ChangeV::DeleteSession { token });
            &&& after.sessions.contains(s) <==> t.sessions.contains(s) && s.token != token
            &&& after.users == t.users && after.sandboxes == t.sandboxes && after.grants == t.grants
        }),
        ({
            let after = t.run(ChangeV::DeleteGrant { user_id, sandbox_id });
            &&& after.grants.contains(g) <==> t.grants.contains(g) && !(g.user_id == user_id
                && g.sandbox_id == sandbox_id)
            &&& after.users == t.users && after.sandboxes == t.sandboxes && after.sessions
                == t.sessions
        }),
{
    order::filter_keeps(t.sessions, |x: SessionRowV| x.token != token, s);
    order::filter_keeps(
        t.grants,
        |x: GrantV| !(x.user_id == user_id && x.sandbox_id == sandbox_id),
        g,
    );
}

/// Setting a grant puts it in the place of the one for the same user and sandbox, or adds
/// it, and leaves every other grant.
pub proof fn granting_is_exact(t: Tables, g: GrantV, h: GrantV)
    ensures
        ({
            let after = t.run(ChangeV::PutGrant(g));
            &&& after.grants.contains(g)
            &&& h.user_id != g.user_id || h.sandbox_id != g.sandbox_id ==> (after.grants.contains(h)
                <==> t.grants.contains(h))
            &&& h.user_id == g.user_id && h.sandbox_id == g.sandbox_id && after.grants.contains(h)
                ==> h == g
            &&& after.users == t.users && after.sandboxes == t.sandboxes && after.sessions
                == t.sessions
        }),
{
    let after = t.run(ChangeV::PutGrant(g)).grants;
    let same = |x: GrantV| x.user_id == g.user_id && x.sandbox_id == g.sandbox_id;
    lemma_first(t.grants, same);
    if t.grant_row(g.user_id, g.sandbox_id) is Some {
        let k = choose|k: int|
            0 <= k < t.grants.len() && (#[trigger] t.grants[k]) == first(t.grants, same)->0;
        assert(after[k] == g);
        if t.grants.contains(h) && !same(h) {
            let i = choose|i: int| 0 <= i < t.grants.len() && t.grants[i] == h;
            assert(after[i] == h);
        }
        if after.contains(h) {
            let i = choose|i: int| 0 <= i < after.len() && after[i] == h;
            assert(after[i] == if same(t.grants[i]) {
                g
            } else {
                t.grants[i]
            });
        }
    } else {
        assert(after[after.len() - 1] == g);
        if t.grants.contains(h) {
            let i = choose|i: int| 0 <= i < t.grants.len() && t.grants[i] == h;
            assert(after[i] == h);
        }
        if after.contains(h) {
            let i = choose|i: int| 0 <= i < after.len() && after[i] == h;
            if i < t.grants.len() {
                assert(t.grants[i] == h);
                assert(!same(t.grants[i]));
            }
        }
    }
}

/// An account is refused exactly where its username or its identifier is taken, a session
/// where its token is taken or its user is missing, a sandbox where its identifier is
/// taken, and a grant where it is new and its user or its sandbox is missing. Nothing else
/// is refused.
pub proof fn refused_changes_break_a_rule(
    t: Tables,
    u: UserRowV,
    s: SessionRowV,
    b: SandboxRowV,
    g: GrantV,
    c: ChangeV,
)
    requires
        t.wf(),
    ensures
        t.violation(ChangeV::InsertUser(u)) == (if exists|i: int|
            0 <= i < t.users.len() && (#[trigger] t.users[i]).username == u.username {
            Some(DbError::UsernameTaken)
        } else if exists|i: int| 0 <= i < t.users.len() && (#[trigger] t.users[i]).id == u.id {
            Some(DbError::UserIdTaken)
        } else {
            None
        }),
        t.violation(ChangeV::InsertSession(s)) == (if exists|i: int|
            0 <= i < t.sessions.len() && (#[trigger] t.sessions[i]).token == s.token {
            Some(DbError::TokenTaken)
        } else if !exists|i: int| 0 <= i < t.users.len() && (#[trigger] t.users[i]).id == s.user_id {
            Some(DbError::MissingReference)
        } else {
            None
        }),
        t.violation(ChangeV::InsertSandbox(b)) == (if exists|i: int|
            0 <= i < t.sandboxes.len() && (#[trigger] t.sandboxes[i]).id == b.id {
            Some(DbError::SandboxIdTaken)
        } else {
            None
        }),
        t.violation(ChangeV::PutGrant(g)) is None <==> (exists|i: int|
            0 <= i < t.grants.len() && (#[trigger] t.grants[i]).user_id == g.user_id
                && t.grants[i].sandbox_id == g.sandbox_id) || ((exists|i: int|
            0 <= i < t.users.len() && (#[trigger] t.users[i]).id == g.user_id) && exists|i: int|
            0 <= i < t.sandboxes.len() && (#[trigger] t.sandboxes[i]).id == g.sandbox_id),
        t.violation(ChangeV::PutGrant(g)) matches Some(e) ==> e == DbError::MissingReference,
        !(c is InsertUser) && !(c is InsertSession) && !(c is InsertSandbox) && !(c is PutGrant)
            ==> t.violation(c) is None,
{
    accounts_are_found(t, u.username, u);
    accounts_are_found(t, u.id, u);
    accounts_are_found(t, s.user_id, u);
    accounts_are_found(t, g.user_id, u);
    tokens_stand_for_owners(t, s.token, 0, s);
    sandboxes_are_found(t, b.id, b);
    sandboxes_are_found(t, g.sandbox_id, b);
    grants_are_found(t, g.user_id, g.sandbox_id, g);
}

/// What is said of a grant, an account or a sandbox is said of its own fields.
pub proof fn what_clients_see_is_told_field_by_field(g: Grant, u: User, s: Sandbox)
    ensures
        g@.user_id == g.user_id@ && g@.sandbox_id == g.sandbox_id@,
        g@.can_read == g.can_read && g@.can_write == g.can_write && g@.can_shell == g.can_shell,
        g@.can_admin == g.can_admin,
        u@.id == u.id@ && u@.username == u.username@ && u@.display_name == u.display_name@,
        u@.role == u.role@,
        s@.id == s.id@ && s@.name == s.name@ && s@.path == s.path@,
        s@.description == s.description@,
{
}

/// What is said of a row is said of its own fields.
pub proof fn rows_are_told_field_by_field(u: UserRow, s: SessionRow, b: SandboxRow)
    ensures
        u@.id == u.id@ && u@.username == u.username@ && u@.display_name == u.display_name@,
        u@.password_hash == u.password_hash@ && u@.role == u.role@ && u@.created_at == u.created_at,
        s@.token == s.token@ && s@.user_id == s.user_id@,
        s@.created_at == s.created_at && s@.expires_at == s.expires_at,
        b@.id == b.id@ && b@.name == b.name@ && b@.path == b.path@,
        b@.description == b.description@ && b@.created_at == b.created_at,
{
}

/// A change is told as what it is and with all that it holds.
pub proof fn changes_are_told_field_by_field(c: Change)
    ensures
        c matches Change::InsertUser(u) ==> c@ == ChangeV::InsertUser(u@),
        c matches Change::InsertSession(s) ==> c@ == ChangeV::InsertSession(s@),
        c matches Change::InsertSandbox(s) ==> c@ == ChangeV::InsertSandbox(s@),
        c matches Change::PutGrant(g) ==> c@ == ChangeV::PutGrant(g@),
        c matches Change::DeleteUser { id } ==> c@ == (ChangeV::DeleteUser { id: id@ }),
        c matches Change::DeleteSandbox { id } ==> c@ == (ChangeV::DeleteSandbox { id: id@ }),
        c matches Change::DeleteSession { token } ==> c@ == (ChangeV::DeleteSession {
            token: token@,
        }),
        c matches Change::DeleteGrant { user_id, sandbox_id } ==> c@ == (ChangeV::DeleteGrant {
            user_id: user_id@,
            sandbox_id: sandbox_id@,
        }),
        c matches Change::UpdateUser { id, display_name, role, password_hash } ==> (
        c@ matches ChangeV::UpdateUser { id: i, display_name: d, role: r, password_hash: p } && {
            &&& i == id@
            &&& (d is Some <==> display_name is Some) && (d is Some ==> d->0 == display_name->0@)
            &&& (r is Some <==> role is Some) && (r is Some ==> r->0 == role->0@)
            &&& (p is Some <==> password_hash is Some) && (p is Some ==> p->0 == password_hash->0@)
        }),
        c matches Change::UpdateSandbox { id, name, path, description } ==> (
        c@ matches ChangeV::UpdateSandbox { id: i, name: n, path: p, description: d } && {
            &&& i == id@
            &&& (n is Some <==> name is Some) && (n is Some ==> n->0 == name->0@)
            &&& (p is Some <==> path is Some) && (p is Some ==> p->0 == path->0@)
            &&& (d is Some <==> description is Some) && (d is Some ==> d->0 == description->0@)
        }),
{
}

/// The rules of the tables are that identifiers, usernames and tokens stand for one row
/// each, and that there is one grant for a user and a sandbox; nothing else is asked of the
/// rows.
pub proof fn the_rules_ask_for_uniqueness_only(t: Tables)
    ensures
        t.wf() <==> {
            &&& forall|i: int, j: int|
                0 <= i < j < t.users.len() ==> (#[trigger] t.users[i]).id != (
                #[trigger] t.users[j]).id && t.users[i].username != t.users[j].username
            &&& forall|i: int, j: int|
                0 <= i < j < t.sessions.len() ==> (#[trigger] t.sessions[i]).token != (
                #[trigger] t.sessions[j]).token
            &&& forall|i: int, j: int|
                0 <= i < j < t.sandboxes.len() ==> (#[trigger] t.sandboxes[i]).id != (
                #[trigger] t.sandboxes[j]).id
            &&& forall|i: int, j: int|
                0 <= i < j < t.grants.len() ==> (#[trigger] t.grants[i]).user_id != (
                #[trigger] t.grants[j]).user_id || t.grants[i].sandbox_id != t.grants[j].sandbox_id
        },
{
    let a = |a: UserRowV, b: UserRowV| a.id != b.id && a.username != b.username;
    let b = |a: SessionRowV, b: SessionRowV| a.token != b.token;
    let c = |a: SandboxRowV, b: SandboxRowV| a.id != b.id;
    let d = |a: GrantV, b: GrantV| a.user_id != b.user_id || a.sandbox_id != b.sandbox_id;
    if t.wf() {
        assert forall|i: int, j: int| 0 <= i < j < t.users.len() implies (
        #[trigger] t.users[i]).id != (#[trigger] t.users[j]).id && t.users[i].username
            != t.users[j].username by {
            assert(a(t.users[i], t.users[j]));
        }
        assert forall|i: int, j: int| 0 <= i < j < t.sessions.len() implies (
        #[trigger] t.sessions[i]).token != (#[trigger] t.sessions[j]).token by {
            assert(b(t.sessions[i], t.sessions[j]));
        }
        assert forall|i: int, j: int| 0 <= i < j < t.sandboxes.len() implies (
        #[trigger] t.sandboxes[i]).id != (#[trigger] t.sandboxes[j]).id by {
            assert(c(t.sandboxes[i], t.sandboxes[j]));
        }
        assert forall|i: int, j: int| 0 <= i < j < t.grants.len() implies (
        #[trigger] t.grants[i]).user_id != (#[trigger] t.grants[j]).user_id
            || t.grants[i].sandbox_id != t.grants[j].sandbox_id by {
            assert(d(t.grants[i], t.grants[j]));
        }
    }
}

} // verus!
