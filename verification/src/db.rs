//! The tables in memory. Each operation that alters them also records the change, so
//! that the program can carry it out on the stored tables.

use vstd::prelude::*;

use crate::order;
use crate::order::Keyed;
use crate::tables;
use crate::tables::{ChangeV, GrantV, SandboxRowV, SandboxV, SessionRowV, Tables, UserRowV, UserV};
use crate::text;

pub use crate::tables::{Change, DbError, Grant, Sandbox, SandboxRow, SessionRow, User, UserRow};

verus! {

/// `Utc::now` gives the current time, and `timestamp` its whole seconds since the start
/// of 1970. It is never before that, because it panics where the clock of the machine is,
/// and a date is at most in the year 262142. Which second it is rests with that clock and
/// is not stated.
#[verifier::external_body]
fn utc_seconds() -> (r: i64)
    ensures
        0 <= r <= LAST_SECOND,
{
    chrono::Utc::now().timestamp()
}

/// The last second that a date can stand for.
pub const LAST_SECOND: i64 = 8_210_266_876_799;

/// The current time in seconds.
pub fn now() -> (r: i64)
    ensures
        0 <= r <= LAST_SECOND,
{
    utc_seconds()
}

/// The rows of the stored tables, each in the order in which they were added.
pub struct Stored {
    pub users: Vec<UserRow>,
    pub sessions: Vec<SessionRow>,
    pub sandboxes: Vec<SandboxRow>,
    pub grants: Vec<Grant>,
}

impl View for Stored {
    type V = Tables;

    open spec fn view(&self) -> Tables {
        Tables {
            users: order::rows(self.users@),
            sessions: order::rows(self.sessions@),
            sandboxes: order::rows(self.sandboxes@),
            grants: order::rows(self.grants@),
        }
    }
}

/// The tables, and the changes made to them that were not handed out yet.
pub struct Db {
    stored: Stored,
    log: Vec<Change>,
}

impl View for Db {
    type V = Tables;

    closed spec fn view(&self) -> Tables {
        self.stored@
    }
}

/// The index of the first element of `v` that `f` finds.
fn find<T: View, F: Fn(&T) -> bool>(v: &Vec<T>, f: F, Ghost(p): Ghost<spec_fn(T::V) -> bool>) -> (r:
    Option<usize>)
    requires
        forall|t: &T| f.requires((t,)),
        forall|t: &T, b: bool| f.ensures((t,), b) ==> b == p(t@),
    ensures
        match r {
            Some(i) => i < v@.len() && p(v@[i as int]@) && tables::first(order::rows(v@), p) == Some(
                v@[i as int]@,
            ),
            None => tables::first(order::rows(v@), p) is None,
        },
{
    let ghost all = order::rows(v@);
    let mut i: usize = 0;
    while i < v.len()
        invariant
            i <= v@.len(),
            all == order::rows(v@),
            forall|t: &T| f.requires((t,)),
            forall|t: &T, b: bool| f.ensures((t,), b) ==> b == p(t@),
            forall|j: int| 0 <= j < i ==> !p(#[trigger] all[j]),
        decreases v@.len() - i,
    {
        assert(all[i as int] == v@[i as int]@);
        if f(&v[i]) {
            proof {
                tables::lemma_first_at(all, p, i as int);
            }
            return Some(i);
        }
        i = i + 1;
    }
    proof {
        tables::lemma_first(all, p);
    }
    None
}

/// Takes out of `v` the elements that `f` does not keep.
fn retain<T: View, F: Fn(&T) -> bool>(v: &mut Vec<T>, f: F, Ghost(p): Ghost<spec_fn(T::V) -> bool>)
    requires
        forall|t: &T| f.requires((t,)),
        forall|t: &T, b: bool| f.ensures((t,), b) ==> b == p(t@),
    ensures
        order::rows(final(v)@) == order::rows(old(v)@).filter(p),
{
    let ghost all = order::rows(v@);
    let n = v.len();
    let mut seen: usize = 0;
    let mut i: usize = 0;
    proof {
        reveal(Seq::filter);
        assert(all.take(0) =~= Seq::<T::V>::empty());
        assert(order::rows(v@) =~= all.take(0).filter(p) + all.skip(0));
    }
    while seen < n
        invariant
            n == all.len(),
            i <= seen <= n,
            i == all.take(seen as int).filter(p).len(),
            order::rows(v@) == all.take(seen as int).filter(p) + all.skip(seen as int),
            forall|t: &T| f.requires((t,)),
            forall|t: &T, b: bool| f.ensures((t,), b) ==> b == p(t@),
        decreases n - seen,
    {
        let ghost done = all.take(seen as int).filter(p);
        let ghost x = all[seen as int];
        proof {
            assert(all.take(seen + 1) =~= all.take(seen as int).push(x));
            order::lemma_filter_push(all.take(seen as int), x, p);
            assert(order::rows(v@).len() == v@.len());
            assert(order::rows(v@)[i as int] == x);
            assert(order::rows(v@)[i as int] == v@[i as int]@);
        }
        if f(&v[i]) {
            assert(done + all.skip(seen as int) =~= done.push(x) + all.skip(seen + 1));
            i = i + 1;
        } else {
            let ghost before = order::rows(v@);
            v.remove(i);
            assert(order::rows(v@) =~= before.remove(i as int));
            assert(before.remove(i as int) =~= done + all.skip(seen + 1));
        }
        seen = seen + 1;
    }
    assert(all.take(seen as int) =~= all);
    assert(all.filter(p) + all.skip(seen as int) =~= all.filter(p));
}

/// A copy of an optional text.
fn copy_opt(s: Option<&str>) -> (r: Option<String>)
    ensures
        tables::opt(r) == tables::opt_ref(s),
{
    match s {
        Some(t) => Some(t.to_string()),
        None => None,
    }
}

impl User {
    pub fn copy(&self) -> (r: User)
        ensures
            r@ == self@,
    {
        User {
            id: self.id.clone(),
            username: self.username.clone(),
            display_name: self.display_name.clone(),
            role: self.role.clone(),
        }
    }
}

impl Grant {
    pub fn copy(&self) -> (r: Grant)
        ensures
            r@ == self@,
    {
        Grant {
            user_id: self.user_id.clone(),
            sandbox_id: self.sandbox_id.clone(),
            can_read: self.can_read,
            can_write: self.can_write,
            can_shell: self.can_shell,
            can_admin: self.can_admin,
        }
    }
}

impl Sandbox {
    pub fn copy(&self) -> (r: Sandbox)
        ensures
            r@ == self@,
    {
        Sandbox {
            id: self.id.clone(),
            name: self.name.clone(),
            path: self.path.clone(),
            description: self.description.clone(),
        }
    }
}

impl UserRow {
    fn copy(&self) -> (r: UserRow)
        ensures
            r@ == self@,
    {
        UserRow {
            id: self.id.clone(),
            username: self.username.clone(),
            display_name: self.display_name.clone(),
            password_hash: self.password_hash.clone(),
            role: self.role.clone(),
            created_at: self.created_at,
        }
    }

    fn person(&self) -> (r: User)
        ensures
            r@ == self@.person(),
    {
        User {
            id: self.id.clone(),
            username: self.username.clone(),
            display_name: self.display_name.clone(),
            role: self.role.clone(),
        }
    }
}

impl SessionRow {
    fn copy(&self) -> (r: SessionRow)
        ensures
            r@ == self@,
    {
        SessionRow {
            token: self.token.clone(),
            user_id: self.user_id.clone(),
            created_at: self.created_at,
            expires_at: self.expires_at,
        }
    }
}

impl SandboxRow {
    fn copy(&self) -> (r: SandboxRow)
        ensures
            r@ == self@,
    {
        SandboxRow {
            id: self.id.clone(),
            name: self.name.clone(),
            path: self.path.clone(),
            description: self.description.clone(),
            created_at: self.created_at,
        }
    }

    fn place(&self) -> (r: Sandbox)
        ensures
            r@ == self@.place(),
    {
        Sandbox {
            id: self.id.clone(),
            name: self.name.clone(),
            path: self.path.clone(),
            description: self.description.clone(),
        }
    }
}

impl Keyed for User {
    open spec fn key_in(v: UserV) -> Seq<char> {
        v.username
    }

    fn key(&self) -> (r: &str) {
        self.username.as_str()
    }
}

impl Keyed for Sandbox {
    open spec fn key_in(v: SandboxV) -> Seq<char> {
        v.name
    }

    fn key(&self) -> (r: &str) {
        self.name.as_str()
    }
}

impl DbError {
    /// The text of the rule that was broken.
    pub open spec fn spec_text(self) -> Seq<char> {
        match self {
            DbError::UserIdTaken => "UNIQUE constraint failed: users.id"@,
            DbError::UsernameTaken => "UNIQUE constraint failed: users.username"@,
            DbError::TokenTaken => "UNIQUE constraint failed: sessions.token"@,
            DbError::SandboxIdTaken => "UNIQUE constraint failed: sandboxes.id"@,
            DbError::MissingReference => "FOREIGN KEY constraint failed"@,
        }
    }

    /// The text of the rule that was broken.
    pub fn text(&self) -> (r: String)
        ensures
            r@ == self.spec_text(),
    {
        match self {
            DbError::UserIdTaken => "UNIQUE constraint failed: users.id".to_string(),
            DbError::UsernameTaken => "UNIQUE constraint failed: users.username".to_string(),
            DbError::TokenTaken => "UNIQUE constraint failed: sessions.token".to_string(),
            DbError::SandboxIdTaken => "UNIQUE constraint failed: sandboxes.id".to_string(),
            DbError::MissingReference => "FOREIGN KEY constraint failed".to_string(),
        }
    }
}

impl Db {
    /// The changes that were made and not handed out yet.
    pub closed spec fn changes(&self) -> Seq<ChangeV> {
        order::rows(self.log@)
    }

    /// What trying a change does: a change that breaks a rule is refused and leaves
    /// everything as it was; any other is made and recorded.
    pub open spec fn tried(&self, before: &Db, c: ChangeV, r: Result<(), DbError>) -> bool {
        &&& match before@.violation(c) {
            Some(e) => r == Err::<(), DbError>(e) && self@ == before@ && self.changes()
                == before.changes(),
            None => r == Ok::<(), DbError>(()) && self.made(before, c),
        }
        &&& before@.wf() ==> self@.wf()
        &&& before@.linked() ==> self@.linked()
    }

    /// What making a change does.
    pub open spec fn made(&self, before: &Db, c: ChangeV) -> bool {
        &&& self@ == before@.run(c)
        &&& self.changes() == before.changes().push(c)
        &&& before@.wf() ==> self@.wf()
        &&& before@.linked() ==> self@.linked()
    }

    /// What making several changes, one after the other, does.
    pub open spec fn performed(&self, before: &Db, log: Seq<ChangeV>) -> bool {
        &&& self@ == before@.run_all(log)
        &&& self.changes() == before.changes() + log
        &&& before@.wf() ==> self@.wf()
        &&& before@.linked() ==> self@.linked()
    }

    /// Tables without rows.
    pub fn new() -> (r: Db)
        ensures
            r@ == Tables::empty(),
            r@.wf(),
            r@.linked(),
            r.changes() == Seq::<ChangeV>::empty(),
    {
        let r = Db {
            stored: Stored {
                users: Vec::new(),
                sessions: Vec::new(),
                sandboxes: Vec::new(),
                grants: Vec::new(),
            },
            log: Vec::new(),
        };
        assert(r@ =~= Tables::empty());
        assert(r.changes() =~= Seq::<ChangeV>::empty());
        r
    }

    /// The tables with the rows that were stored, if those keep the rules of the tables.
    /// Sessions and grants may name users and sandboxes that are gone.
    pub fn open(stored: Stored) -> (r: Option<Db>)
        ensures
            match r {
                Some(db) => stored@.wf() && db@ == stored@ && db.changes() == Seq::<
                    ChangeV,
                >::empty(),
                None => !stored@.wf(),
            },
    {
        let ghost whole = stored@;
        let mut db = Db::new();
        let mut i: usize = 0;
        assert(whole.users.take(0) =~= Seq::<UserRowV>::empty());
        while i < stored.users.len()
            invariant
                i <= stored.users@.len(),
                whole == stored@,
                db@ == (Tables { users: whole.users.take(i as int), ..Tables::empty() }),
                db@.wf(),
            decreases stored.users@.len() - i,
        {
            let ghost u = stored.users@[i as int]@;
            let ghost before = db@;
            assert(whole.users[i as int] == u);
            if db.add_user(stored.users[i].copy()).is_err() {
                proof {
                    before.lemma_user_clash(whole, i as int);
                }
                return None;
            }
            i = i + 1;
            assert(whole.users.take(i as int) =~= whole.users.take(i - 1).push(u));
        }
        assert(whole.users.take(i as int) =~= whole.users);
        i = 0;
        assert(whole.sessions.take(0) =~= Seq::<SessionRowV>::empty());
        while i < stored.sessions.len()
            invariant
                i <= stored.sessions@.len(),
                whole == stored@,
                db@ == (Tables {
                    users: whole.users,
                    sessions: whole.sessions.take(i as int),
                    ..Tables::empty()
                }),
                db@.wf(),
            decreases stored.sessions@.len() - i,
        {
            let ghost s = stored.sessions@[i as int]@;
            let ghost before = db@;
            assert(whole.sessions[i as int] == s);
            if db.find_session(stored.sessions[i].token.as_str()).is_some() {
                proof {
                    before.lemma_session_clash(whole, i as int);
                }
                return None;
            }
            proof {
                before.lemma_session_fits(s);
            }
            db.stored.sessions.push(stored.sessions[i].copy());
            assert(db@ =~= (Tables { sessions: before.sessions.push(s), ..before }));
            i = i + 1;
            assert(whole.sessions.take(i as int) =~= whole.sessions.take(i - 1).push(s));
        }
        assert(whole.sessions.take(i as int) =~= whole.sessions);
        i = 0;
        assert(whole.sandboxes.take(0) =~= Seq::<SandboxRowV>::empty());
        while i < stored.sandboxes.len()
            invariant
                i <= stored.sandboxes@.len(),
                whole == stored@,
                db@ == (Tables {
                    sandboxes: whole.sandboxes.take(i as int),
                    grants: Seq::empty(),
                    ..whole
                }),
                db@.wf(),
            decreases stored.sandboxes@.len() - i,
        {
            let ghost s = stored.sandboxes@[i as int]@;
            let ghost before = db@;
            assert(whole.sandboxes[i as int] == s);
            if db.add_sandbox(stored.sandboxes[i].copy()).is_err() {
                proof {
                    before.lemma_sandbox_clash(whole, i as int);
                }
                return None;
            }
            i = i + 1;
            assert(whole.sandboxes.take(i as int) =~= whole.sandboxes.take(i - 1).push(s));
        }
        assert(whole.sandboxes.take(i as int) =~= whole.sandboxes);
        i = 0;
        assert(whole.grants.take(0) =~= Seq::<GrantV>::empty());
        while i < stored.grants.len()
            invariant
                i <= stored.grants@.len(),
                whole == stored@,
                db@ == (Tables { grants: whole.grants.take(i as int), ..whole }),
                db@.wf(),
            decreases stored.grants@.len() - i,
        {
            let ghost g = stored.grants@[i as int]@;
            let ghost before = db@;
            assert(whole.grants[i as int] == g);
            if db.find_grant(
                stored.grants[i].user_id.as_str(),
                stored.grants[i].sandbox_id.as_str(),
            ).is_some() {
                proof {
                    before.lemma_grant_clash(whole, i as int);
                }
                return None;
            }
            proof {
                before.lemma_grant_fits(g);
            }
            db.stored.grants.push(stored.grants[i].copy());
            assert(db@ =~= (Tables { grants: before.grants.push(g), ..before }));
            i = i + 1;
            assert(whole.grants.take(i as int) =~= whole.grants.take(i - 1).push(g));
        }
        assert(whole.grants.take(i as int) =~= whole.grants);
        db.log = Vec::new();
        assert(db.changes() =~= Seq::<ChangeV>::empty());
        Some(db)
    }

    /// Hands out the changes made since they were last handed out, oldest first.
    pub fn take_changes(&mut self) -> (r: Vec<Change>)
        ensures
            order::rows(r@) == old(self).changes(),
            final(self)@ == old(self)@,
            final(self).changes() == Seq::<ChangeV>::empty(),
    {
        let mut log: Vec<Change> = Vec::new();
        std::mem::swap(&mut log, &mut self.log);
        assert(self.changes() =~= Seq::<ChangeV>::empty());
        log
    }

    fn record(&mut self, c: Change)
        ensures
            final(self).stored == old(self).stored,
            final(self).changes() == old(self).changes().push(c@),
    {
        let ghost before = self.changes();
        self.log.push(c);
        assert(self.changes() =~= before.push(c@));
    }

    /// The number of accounts.
    pub fn user_count(&self) -> (r: usize)
        ensures
            r == self@.users.len(),
    {
        self.stored.users.len()
    }

    fn find_user(&self, id: &str) -> (r: Option<usize>)
        ensures
            match r {
                Some(i) => i < self.stored.users@.len() && self@.user_row(id@) == Some(
                    self.stored.users@[i as int]@,
                ),
                None => self@.user_row(id@) is None,
            },
    {
        let test = |u: &UserRow| -> (b: bool)
            ensures
                b == (u@.id == id@),
        { text::same(u.id.as_str(), id) };
        find(&self.stored.users, test, Ghost(|u: UserRowV| u.id == id@))
    }

    fn find_named(&self, username: &str) -> (r: Option<usize>)
        ensures
            match r {
                Some(i) => i < self.stored.users@.len() && self@.user_row_named(username@) == Some(
                    self.stored.users@[i as int]@,
                ),
                None => self@.user_row_named(username@) is None,
            },
    {
        let test = |u: &UserRow| -> (b: bool)
            ensures
                b == (u@.username == username@),
        { text::same(u.username.as_str(), username) };
        find(&self.stored.users, test, Ghost(|u: UserRowV| u.username == username@))
    }

    fn find_session(&self, token: &str) -> (r: Option<usize>)
        ensures
            match r {
                Some(i) => i < self.stored.sessions@.len() && self@.session_row(token@) == Some(
                    self.stored.sessions@[i as int]@,
                ),
                None => self@.session_row(token@) is None,
            },
    {
        let test = |s: &SessionRow| -> (b: bool)
            ensures
                b == (s@.token == token@),
        { text::same(s.token.as_str(), token) };
        find(&self.stored.sessions, test, Ghost(|s: SessionRowV| s.token == token@))
    }

    fn find_sandbox(&self, id: &str) -> (r: Option<usize>)
        ensures
            match r {
                Some(i) => i < self.stored.sandboxes@.len() && self@.sandbox_row(id@) == Some(
                    self.stored.sandboxes@[i as int]@,
                ),
                None => self@.sandbox_row(id@) is None,
            },
    {
        let test = |s: &SandboxRow| -> (b: bool)
            ensures
                b == (s@.id == id@),
        { text::same(s.id.as_str(), id) };
        find(&self.stored.sandboxes, test, Ghost(|s: SandboxRowV| s.id == id@))
    }

    fn find_grant(&self, user_id: &str, sandbox_id: &str) -> (r: Option<usize>)
        ensures
            match r {
                Some(i) => i < self.stored.grants@.len() && self@.grant_row(user_id@, sandbox_id@)
                    == Some(self.stored.grants@[i as int]@),
                None => self@.grant_row(user_id@, sandbox_id@) is None,
            },
    {
        let test = |g: &Grant| -> (b: bool)
            ensures
                b == (g@.user_id == user_id@ && g@.sandbox_id == sandbox_id@),
        { text::same(g.user_id.as_str(), user_id) && text::same(g.sandbox_id.as_str(), sandbox_id) };
        let ghost p = |g: GrantV| g.user_id == user_id@ && g.sandbox_id == sandbox_id@;
        find(&self.stored.grants, test, Ghost(p))
    }

    fn add_user(&mut self, row: UserRow) -> (r: Result<(), DbError>)
        ensures
            final(self).tried(old(self), ChangeV::InsertUser(row@), r),
    {
        let ghost c = ChangeV::InsertUser(row@);
        if self.find_named(row.username.as_str()).is_some() {
            return Err(DbError::UsernameTaken);
        }
        if self.find_user(row.id.as_str()).is_some() {
            return Err(DbError::UserIdTaken);
        }
        let ghost before = *self;
        self.record(Change::InsertUser(row.copy()));
        self.stored.users.push(row);
        assert(self@ =~= before@.run(c));
        proof {
            before@.lemma_kept(c);
        }
        Ok(())
    }

    /// Adds an account.
    pub fn insert_user(
        &mut self,
        id: &str,
        username: &str,
        display_name: &str,
        password_hash: &str,
        role: &str,
        now: i64,
    ) -> (r: Result<(), DbError>)
        ensures
            final(self).tried(
                old(self),
                ChangeV::InsertUser(
                    (UserRowV {
                        id: id@,
                        username: username@,
                        display_name: display_name@,
                        password_hash: password_hash@,
                        role: role@,
                        created_at: now,
                    }),
                ),
                r,
            ),
    {
        self.add_user(
            UserRow {
                id: id.to_string(),
                username: username.to_string(),
                display_name: display_name.to_string(),
                password_hash: password_hash.to_string(),
                role: role.to_string(),
                created_at: now,
            },
        )
    }

    /// The account with this username, and its password hash.
    pub fn user_by_username(&self, username: &str) -> (r: Option<(User, String)>)
        ensures
            match r {
                Some((u, h)) => match self@.user_row_named(username@) {
                    Some(row) => u@ == row.person() && h@ == row.password_hash,
                    None => false,
                },
                None => self@.user_row_named(username@) is None,
            },
    {
        match self.find_named(username) {
            Some(i) => Some(
                (self.stored.users[i].person(), self.stored.users[i].password_hash.clone()),
            ),
            None => None,
        }
    }

    /// The account with this identifier.
    pub fn user_by_id(&self, id: &str) -> (r: Option<User>)
        ensures
            match r {
                Some(u) => self@.user(id@) == Some(u@),
                None => self@.user(id@) is None,
            },
    {
        match self.find_user(id) {
            Some(i) => Some(self.stored.users[i].person()),
            None => None,
        }
    }

    /// All accounts, by username.
    pub fn users(&self) -> (r: Vec<User>)
        ensures
            order::rows(r@) == self@.people(),
    {
        let ghost f = |u: UserRowV| u.person();
        let mut v: Vec<User> = Vec::new();
        let mut i: usize = 0;
        while i < self.stored.users.len()
            invariant
                i <= self.stored.users@.len(),
                v@.len() == i,
                forall|j: int| 0 <= j < i ==> (#[trigger] v@[j])@ == self@.users[j].person(),
            decreases self.stored.users@.len() - i,
        {
            assert(self@.users[i as int] == self.stored.users@[i as int]@);
            v.push(self.stored.users[i].person());
            i = i + 1;
        }
        assert(order::rows(v@) =~= self@.users.map_values(f));
        let ghost a = |w: UserV| User::key_in(w);
        let ghost b = |u: UserV| u.username;
        assert(a =~= b);
        order::arrange(v)
    }

    /// Changes what is given of the account with this identifier.
    pub fn update_user(
        &mut self,
        id: &str,
        display_name: Option<&str>,
        role: Option<&str>,
        password_hash: Option<&str>,
    )
        ensures
            final(self).made(
                old(self),
                ChangeV::UpdateUser {
                    id: id@,
                    display_name: tables::opt_ref(display_name),
                    role: tables::opt_ref(role),
                    password_hash: tables::opt_ref(password_hash),
                },
            ),
    {
        let ghost c = ChangeV::UpdateUser {
            id: id@,
            display_name: tables::opt_ref(display_name),
            role: tables::opt_ref(role),
            password_hash: tables::opt_ref(password_hash),
        };
        let ghost before = *self;
        self.record(
            Change::UpdateUser {
                id: id.to_string(),
                display_name: copy_opt(display_name),
                role: copy_opt(role),
                password_hash: copy_opt(password_hash),
            },
        );
        let ghost old_rows = before@.users;
        let ghost new_rows = before@.run(c).users;
        let n = self.stored.users.len();
        let mut i: usize = 0;
        while i < n
            invariant
                i <= n == self.stored.users@.len() == old_rows.len() == new_rows.len(),
                old_rows == before@.users,
                new_rows == before@.run(c).users,
                c == (ChangeV::UpdateUser {
                    id: id@,
                    display_name: tables::opt_ref(display_name),
                    role: tables::opt_ref(role),
                    password_hash: tables::opt_ref(password_hash),
                }),
                self.stored.sessions == before.stored.sessions,
                self.stored.sandboxes == before.stored.sandboxes,
                self.stored.grants == before.stored.grants,
                self.changes() == before.changes().push(c),
                forall|j: int|
                    0 <= j < n ==> (#[trigger] self.stored.users@[j])@ == if j < i {
                        new_rows[j]
                    } else {
                        old_rows[j]
                    },
            decreases n - i,
        {
            if text::same(self.stored.users[i].id.as_str(), id) {
                let mut row = self.stored.users[i].copy();
                if let Some(t) = display_name {
                    row.display_name = t.to_string();
                }
                if let Some(t) = role {
                    row.role = t.to_string();
                }
                if let Some(t) = password_hash {
                    row.password_hash = t.to_string();
                }
                assert(row@ == new_rows[i as int]);
                self.stored.users.set(i, row);
            }
            i = i + 1;
        }
        assert(self@.users =~= new_rows);
        assert(self@ =~= before@.run(c));
        proof {
            before@.lemma_kept(c);
        }
    }

    /// Removes an account with its sessions and grants.
    pub fn delete_user(&mut self, id: &str)
        ensures
            final(self).made(old(self), ChangeV::DeleteUser { id: id@ }),
    {
        let ghost c = ChangeV::DeleteUser { id: id@ };
        let ghost before = *self;
        self.record(Change::DeleteUser { id: id.to_string() });
        let test = |s: &SessionRow| -> (b: bool)
            ensures
                b == (s@.user_id != id@),
        { !text::same(s.user_id.as_str(), id) };
        retain(&mut self.stored.sessions, test, Ghost(|s: SessionRowV| s.user_id != id@));
        let test = |g: &Grant| -> (b: bool)
            ensures
                b == (g@.user_id != id@),
        { !text::same(g.user_id.as_str(), id) };
        retain(&mut self.stored.grants, test, Ghost(|g: GrantV| g.user_id != id@));
        let test = |u: &UserRow| -> (b: bool)
            ensures
                b == (u@.id != id@),
        { !text::same(u.id.as_str(), id) };
        retain(&mut self.stored.users, test, Ghost(|u: UserRowV| u.id != id@));
        assert(self@ =~= before@.run(c));
        proof {
            before@.lemma_kept(c);
        }
    }

    fn add_session(&mut self, row: SessionRow) -> (r: Result<(), DbError>)
        ensures
            final(self).tried(old(self), ChangeV::InsertSession(row@), r),
    {
        let ghost c = ChangeV::InsertSession(row@);
        if self.find_session(row.token.as_str()).is_some() {
            return Err(DbError::TokenTaken);
        }
        if self.find_user(row.user_id.as_str()).is_none() {
            return Err(DbError::MissingReference);
        }
        let ghost before = *self;
        self.record(Change::InsertSession(row.copy()));
        self.stored.sessions.push(row);
        assert(self@ =~= before@.run(c));
        proof {
            before@.lemma_kept(c);
        }
        Ok(())
    }

    /// Adds a session that lasts `ttl_secs` seconds from `now`.
    pub fn put_session(&mut self, token: &str, user_id: &str, ttl_secs: i64, now: i64) -> (r: Result<
        (),
        DbError,
    >)
        requires
            i64::MIN <= now + ttl_secs <= i64::MAX,
        ensures
            final(self).tried(
                old(self),
                ChangeV::InsertSession(
                    (SessionRowV {
                        token: token@,
                        user_id: user_id@,
                        created_at: now,
                        expires_at: (now + ttl_secs) as i64,
                    }),
                ),
                r,
            ),
    {
        self.add_session(
            SessionRow {
                token: token.to_string(),
                user_id: user_id.to_string(),
                created_at: now,
                expires_at: now + ttl_secs,
            },
        )
    }

    /// The user whom a token stands for at the time `now`.
    pub fn session_user(&self, token: &str, now: i64) -> (r: Option<User>)
        ensures
            match r {
                Some(u) => self@.session_user(token@, now) == Some(u@),
                None => self@.session_user(token@, now) is None,
            },
    {
        let test = |s: &SessionRow| -> (b: bool)
            ensures
                b == (s@.token == token@ && s@.expires_at > now),
        { text::same(s.token.as_str(), token) && s.expires_at > now };
        let found = find(&self.stored.sessions, test, Ghost(|s: SessionRowV| s.token == token@ && s.expires_at > now));
        match found {
            Some(i) => self.user_by_id(self.stored.sessions[i].user_id.as_str()),
            None => None,
        }
    }

    /// Ends the session with this token.
    pub fn delete_session(&mut self, token: &str)
        ensures
            final(self).made(old(self), ChangeV::DeleteSession { token: token@ }),
    {
        let ghost c = ChangeV::DeleteSession { token: token@ };
        let ghost before = *self;
        self.record(Change::DeleteSession { token: token.to_string() });
        let test = |s: &SessionRow| -> (b: bool)
            ensures
                b == (s@.token != token@),
        { !text::same(s.token.as_str(), token) };
        retain(&mut self.stored.sessions, test, Ghost(|s: SessionRowV| s.token != token@));
        assert(self@ =~= before@.run(c));
        proof {
            before@.lemma_kept(c);
        }
    }

    fn add_sandbox(&mut self, row: SandboxRow) -> (r: Result<(), DbError>)
        ensures
            final(self).tried(old(self), ChangeV::InsertSandbox(row@), r),
    {
        let ghost c = ChangeV::InsertSandbox(row@);
        if self.find_sandbox(row.id.as_str()).is_some() {
            return Err(DbError::SandboxIdTaken);
        }
        let ghost before = *self;
        self.record(Change::InsertSandbox(row.copy()));
        self.stored.sandboxes.push(row);
        assert(self@ =~= before@.run(c));
        proof {
            before@.lemma_kept(c);
        }
        Ok(())
    }

    /// Adds a sandbox.
    pub fn insert_sandbox(
        &mut self,
        id: &str,
        name: &str,
        path: &str,
        description: &str,
        now: i64,
    ) -> (r: Result<(), DbError>)
        ensures
            final(self).tried(
                old(self),
                ChangeV::InsertSandbox(
                    (SandboxRowV {
                        id: id@,
                        name: name@,
                        path: path@,
                        description: description@,
                        created_at: now,
                    }),
                ),
                r,
            ),
    {
        self.add_sandbox(
            SandboxRow {
                id: id.to_string(),
                name: name.to_string(),
                path: path.to_string(),
                description: description.to_string(),
                created_at: now,
            },
        )
    }

    /// The sandbox with this identifier.
    pub fn sandbox(&self, id: &str) -> (r: Option<Sandbox>)
        ensures
            match r {
                Some(s) => self@.place(id@) == Some(s@),
                None => self@.place(id@) is None,
            },
    {
        match self.find_sandbox(id) {
            Some(i) => Some(self.stored.sandboxes[i].place()),
            None => None,
        }
    }

    /// All sandboxes, by name.
    pub fn sandboxes(&self) -> (r: Vec<Sandbox>)
        ensures
            order::rows(r@) == self@.places(),
    {
        let ghost f = |s: SandboxRowV| s.place();
        let mut v: Vec<Sandbox> = Vec::new();
        let mut i: usize = 0;
        while i < self.stored.sandboxes.len()
            invariant
                i <= self.stored.sandboxes@.len(),
                v@.len() == i,
                forall|j: int| 0 <= j < i ==> (#[trigger] v@[j])@ == self@.sandboxes[j].place(),
            decreases self.stored.sandboxes@.len() - i,
        {
            assert(self@.sandboxes[i as int] == self.stored.sandboxes@[i as int]@);
            v.push(self.stored.sandboxes[i].place());
            i = i + 1;
        }
        assert(order::rows(v@) =~= self@.sandboxes.map_values(f));
        let ghost a = |w: SandboxV| Sandbox::key_in(w);
        let ghost b = |s: SandboxV| s.name;
        assert(a =~= b);
        order::arrange(v)
    }

    /// Changes what is given of the sandbox with this identifier.
    pub fn update_sandbox(
        &mut self,
        id: &str,
        name: Option<&str>,
        path: Option<&str>,
        description: Option<&str>,
    )
        ensures
            final(self).made(
                old(self),
                ChangeV::UpdateSandbox {
                    id: id@,
                    name: tables::opt_ref(name),
                    path: tables::opt_ref(path),
                    description: tables::opt_ref(description),
                },
            ),
    {
        let ghost c = ChangeV::UpdateSandbox {
            id: id@,
            name: tables::opt_ref(name),
            path: tables::opt_ref(path),
            description: tables::opt_ref(description),
        };
        let ghost before = *self;
        self.record(
            Change::UpdateSandbox {
                id: id.to_string(),
                name: copy_opt(name),
                path: copy_opt(path),
                description: copy_opt(description),
            },
        );
        let ghost old_rows = before@.sandboxes;
        let ghost new_rows = before@.run(c).sandboxes;
        let n = self.stored.sandboxes.len();
        let mut i: usize = 0;
        while i < n
            invariant
                i <= n == self.stored.sandboxes@.len() == old_rows.len() == new_rows.len(),
                old_rows == before@.sandboxes,
                new_rows == before@.run(c).sandboxes,
                c == (ChangeV::UpdateSandbox {
                    id: id@,
                    name: tables::opt_ref(name),
                    path: tables::opt_ref(path),
                    description: tables::opt_ref(description),
                }),
                self.stored.sessions == before.stored.sessions,
                self.stored.users == before.stored.users,
                self.stored.grants == before.stored.grants,
                self.changes() == before.changes().push(c),
                forall|j: int|
                    0 <= j < n ==> (#[trigger] self.stored.sandboxes@[j])@ == if j < i {
                        new_rows[j]
                    } else {
                        old_rows[j]
                    },
            decreases n - i,
        {
            if text::same(self.stored.sandboxes[i].id.as_str(), id) {
                let mut row = self.stored.sandboxes[i].copy();
                if let Some(t) = name {
                    row.name = t.to_string();
                }
                if let Some(t) = path {
                    row.path = t.to_string();
                }
                if let Some(t) = description {
                    row.description = t.to_string();
                }
                assert(row@ == new_rows[i as int]);
                self.stored.sandboxes.set(i, row);
            }
            i = i + 1;
        }
        assert(self@.sandboxes =~= new_rows);
        assert(self@ =~= before@.run(c));
        proof {
            before@.lemma_kept(c);
        }
    }

    /// Removes a sandbox with the grants on it.
    pub fn delete_sandbox(&mut self, id: &str)
        ensures
            final(self).made(old(self), ChangeV::DeleteSandbox { id: id@ }),
    {
        let ghost c = ChangeV::DeleteSandbox { id: id@ };
        let ghost before = *self;
        self.record(Change::DeleteSandbox { id: id.to_string() });
        let test = |g: &Grant| -> (b: bool)
            ensures
                b == (g@.sandbox_id != id@),
        { !text::same(g.sandbox_id.as_str(), id) };
        retain(&mut self.stored.grants, test, Ghost(|g: GrantV| g.sandbox_id != id@));
        let test = |s: &SandboxRow| -> (b: bool)
            ensures
                b == (s@.id != id@),
        { !text::same(s.id.as_str(), id) };
        retain(&mut self.stored.sandboxes, test, Ghost(|s: SandboxRowV| s.id != id@));
        assert(self@ =~= before@.run(c));
        proof {
            before@.lemma_kept(c);
        }
    }

    /// Sets what a user may do in a sandbox.
    pub fn put_grant(&mut self, g: &Grant) -> (r: Result<(), DbError>)
        ensures
            final(self).tried(old(self), ChangeV::PutGrant(g@), r),
    {
        let ghost c = ChangeV::PutGrant(g@);
        let ghost before = *self;
        let there = self.find_grant(g.user_id.as_str(), g.sandbox_id.as_str()).is_some();
        if !there && (self.find_user(g.user_id.as_str()).is_none() || self.find_sandbox(
            g.sandbox_id.as_str(),
        ).is_none()) {
            return Err(DbError::MissingReference);
        }
        self.record(Change::PutGrant(g.copy()));
        if there {
            let ghost old_rows = before@.grants;
            let ghost new_rows = before@.run(c).grants;
            let n = self.stored.grants.len();
            let mut i: usize = 0;
            while i < n
                invariant
                    i <= n == self.stored.grants@.len() == old_rows.len() == new_rows.len(),
                    old_rows == before@.grants,
                    new_rows == before@.run(c).grants,
                    c == ChangeV::PutGrant(g@),
                    before@.grant_row(g@.user_id, g@.sandbox_id) is Some,
                    self.stored.sessions == before.stored.sessions,
                    self.stored.users == before.stored.users,
                    self.stored.sandboxes == before.stored.sandboxes,
                    self.changes() == before.changes().push(c),
                    forall|j: int|
                        0 <= j < n ==> (#[trigger] self.stored.grants@[j])@ == if j < i {
                            new_rows[j]
                        } else {
                            old_rows[j]
                        },
                decreases n - i,
            {
                if text::same(self.stored.grants[i].user_id.as_str(), g.user_id.as_str())
                    && text::same(self.stored.grants[i].sandbox_id.as_str(), g.sandbox_id.as_str()) {
                    let row = g.copy();
                    assert(row@ == new_rows[i as int]);
                    self.stored.grants.set(i, row);
                }
                i = i + 1;
            }
            assert(self@.grants =~= new_rows);
        } else {
            self.stored.grants.push(g.copy());
        }
        assert(self@ =~= before@.run(c));
        proof {
            before@.lemma_kept(c);
        }
        Ok(())
    }

    /// Takes back what a user may do in a sandbox.
    pub fn delete_grant(&mut self, user_id: &str, sandbox_id: &str)
        ensures
            final(self).made(
                old(self),
                ChangeV::DeleteGrant { user_id: user_id@, sandbox_id: sandbox_id@ },
            ),
    {
        let ghost c = ChangeV::DeleteGrant { user_id: user_id@, sandbox_id: sandbox_id@ };
        let ghost before = *self;
        self.record(
            Change::DeleteGrant {
                user_id: user_id.to_string(),
                sandbox_id: sandbox_id.to_string(),
            },
        );
        let test = |g: &Grant| -> (b: bool)
            ensures
                b == !(g@.user_id == user_id@ && g@.sandbox_id == sandbox_id@),
        { !(text::same(g.user_id.as_str(), user_id) && text::same( g.sandbox_id.as_str(), sandbox_id, )) };
        retain(&mut self.stored.grants, test, Ghost(|g: GrantV| !(g.user_id == user_id@ && g.sandbox_id == sandbox_id@)));
        assert(self@ =~= before@.run(c));
        proof {
            before@.lemma_kept(c);
        }
    }

    /// All grants, in the order in which they were first made.
    pub fn grants(&self) -> (r: Vec<Grant>)
        ensures
            order::rows(r@) == self@.grants,
    {
        let mut v: Vec<Grant> = Vec::new();
        let mut i: usize = 0;
        while i < self.stored.grants.len()
            invariant
                i <= self.stored.grants@.len(),
                v@.len() == i,
                forall|j: int| 0 <= j < i ==> (#[trigger] v@[j])@ == self@.grants[j],
            decreases self.stored.grants@.len() - i,
        {
            assert(self@.grants[i as int] == self.stored.grants@[i as int]@);
            v.push(self.stored.grants[i].copy());
            i = i + 1;
        }
        assert(order::rows(v@) =~= self@.grants);
        v
    }

    /// What a user may do in a sandbox, if anything was ever said of it.
    pub fn grant(&self, user_id: &str, sandbox_id: &str) -> (r: Option<Grant>)
        ensures
            match r {
                Some(g) => self@.grant_row(user_id@, sandbox_id@) == Some(g@),
                None => self@.grant_row(user_id@, sandbox_id@) is None,
            },
    {
        match self.find_grant(user_id, sandbox_id) {
            Some(i) => Some(self.stored.grants[i].copy()),
            None => None,
        }
    }
}

/// A change that breaks a rule is refused and leaves no trace; any other is made, and
/// recorded behind those that were made before it.
pub proof fn changes_are_made_and_recorded(
    before: &Db,
    after: &Db,
    c: ChangeV,
    r: Result<(), DbError>,
)
    requires
        after.tried(before, c, r),
    ensures
        r is Ok <==> before@.violation(c) is None,
        r is Ok ==> after@ == before@.run(c) && after.changes() == before.changes().push(c),
        r matches Err(e) ==> before@.violation(c) == Some(e) && after@ == before@ && after.changes()
            == before.changes(),
{
}

/// A change that can break no rule is made, and recorded behind those that were made before
/// it.
pub proof fn free_changes_are_made_and_recorded(before: &Db, after: &Db, c: ChangeV)
    requires
        after.made(before, c),
    ensures
        after@ == before@.run(c),
        after.changes() == before.changes().push(c),
{
}

/// The tables hold the rows that they were opened with, each as it is and in its place.
pub proof fn stored_rows_are_told_one_by_one(s: Stored)
    ensures
        s@.users.len() == s.users@.len(),
        forall|i: int| 0 <= i < s.users@.len() ==> #[trigger] s@.users[i] == s.users@[i]@,
        s@.sessions.len() == s.sessions@.len(),
        forall|i: int| 0 <= i < s.sessions@.len() ==> #[trigger] s@.sessions[i] == s.sessions@[i]@,
        s@.sandboxes.len() == s.sandboxes@.len(),
        forall|i: int|
            0 <= i < s.sandboxes@.len() ==> #[trigger] s@.sandboxes[i] == s.sandboxes@[i]@,
        s@.grants.len() == s.grants@.len(),
        forall|i: int| 0 <= i < s.grants@.len() ==> #[trigger] s@.grants[i] == s.grants@[i]@,
{
}

/// Each broken rule is told in the words of the database.
pub proof fn broken_rules_are_told_apart(e: DbError)
    ensures
        e == DbError::UserIdTaken ==> e.spec_text() == "UNIQUE constraint failed: users.id"@,
        e == DbError::UsernameTaken ==> e.spec_text()
            == "UNIQUE constraint failed: users.username"@,
        e == DbError::TokenTaken ==> e.spec_text() == "UNIQUE constraint failed: sessions.token"@,
        e == DbError::SandboxIdTaken ==> e.spec_text() == "UNIQUE constraint failed: sandboxes.id"@,
        e == DbError::MissingReference ==> e.spec_text() == "FOREIGN KEY constraint failed"@,
{
}

} // verus!
