//! What the server is started with: where its data lie, its first administrator, and
//! which web pages may use it.

use vstd::prelude::*;
use vstd::utf8::*;

use crate::api;
use crate::db::Db;
use crate::fsops;
use crate::paths;
use crate::reply;
use crate::secrets;
use crate::tables;
use crate::tables::{ChangeV, Grant, SandboxRowV, Tables, UserRowV};
use crate::text;

verus! {

// ---------------------------------------------------------------------------
// Data
// ---------------------------------------------------------------------------

/// Where the data lie: where that is said, there; on a personal server below the home
/// directory of the user, where one is known; else in the place for all of the machine.
pub open spec fn data_place(
    personal: bool,
    said: Option<Seq<u8>>,
    home: Option<Seq<u8>>,
    profile: Option<Seq<u8>>,
) -> Seq<u8> {
    match (said, home, profile) {
        (Some(p), _, _) => p,
        (None, Some(h), _) if personal => paths::joined(h, encode_utf8(".local/share/works"@)),
        (None, None, Some(p)) if personal => paths::joined(
            p,
            encode_utf8("AppData/Local/Works"@),
        ),
        _ => encode_utf8("/var/lib/works"@),
    }
}

/// The directory of the data; `home` and `profile` are the home directories that the
/// environment names on Unix and on Windows.
pub fn data_dir(
    personal: bool,
    override_path: Option<Vec<u8>>,
    home: Option<Vec<u8>>,
    profile: Option<Vec<u8>>,
) -> (r: Vec<u8>)
    ensures
        r@ == data_place(
            personal,
            fsops::opt_bytes(override_path),
            fsops::opt_bytes(home),
            fsops::opt_bytes(profile),
        ),
{
    if let Some(p) = override_path {
        return p;
    }
    if personal {
        if let Some(h) = home {
            return paths::join(h.as_slice(), ".local/share/works".as_bytes());
        }
        if let Some(p) = profile {
            return paths::join(p.as_slice(), "AppData/Local/Works".as_bytes());
        }
    }
    vstd::slice::slice_to_vec("/var/lib/works".as_bytes())
}

// ---------------------------------------------------------------------------
// The first administrator
// ---------------------------------------------------------------------------

/// The name and password of the administrator to create, if both are given and there is
/// no account yet.
pub fn bootstrap_due(db: &Db, username: Option<String>, password: Option<String>) -> (r: Option<
    (String, String),
>)
    ensures
        match r {
            Some((u, p)) => db@.users.len() == 0 && username == Some(u) && password == Some(p),
            None => db@.users.len() > 0 || username is None || password is None,
        },
{
    match (username, password) {
        (Some(u), Some(p)) => {
            if db.user_count() == 0 {
                Some((u, p))
            } else {
                None
            }
        },
        _ => None,
    }
}

/// What creating an administrator at the start leads to, given the identifier and the
/// outcome of hashing the password: the changes, and the identifier or what went wrong.
pub open spec fn appointed(
    t: Tables,
    username: Seq<char>,
    hash: Result<Seq<char>, Seq<char>>,
    id: Seq<char>,
    now: i64,
) -> (Seq<ChangeV>, Result<Seq<char>, Seq<char>>) {
    match hash {
        Err(e) => (Seq::empty(), Err(e)),
        Ok(password_hash) => {
            let c = ChangeV::InsertUser(
                UserRowV {
                    id,
                    username,
                    display_name: username,
                    password_hash,
                    role: "admin"@,
                    created_at: now,
                },
            );
            match t.violation(c) {
                Some(e) => (Seq::empty(), Err(e.spec_text())),
                None => (seq![c], Ok(id)),
            }
        },
    }
}

/// Creates an administrator under the given identifier and password hash.
pub fn bootstrap_admin_with(
    db: &mut Db,
    username: &str,
    hash: Result<String, String>,
    id: String,
    now: i64,
) -> (r: Result<String, String>)
    ensures
        ({
            let (log, told) = appointed(old(db)@, username@, reply::told(hash), id@, now);
            final(db).performed(old(db), log) && reply::told(r) == told
        }),
{
    proof {
        api::lemma_no_changes(db);
    }
    let hash = hash?;
    let ghost c = ChangeV::InsertUser(
        UserRowV {
            id: id@,
            username: username@,
            display_name: username@,
            password_hash: hash@,
            role: "admin"@,
            created_at: now,
        },
    );
    proof {
        api::lemma_single(db@, db.changes(), c);
    }
    match db.insert_user(id.as_str(), username, username, hash.as_str(), "admin", now) {
        Ok(_) => Ok(id),
        Err(e) => Err(e.text()),
    }
}

/// Creates an administrator at the start, and gives its identifier.
pub fn bootstrap_admin(db: &mut Db, username: &str, password: &str, now: i64) -> (r: Result<
    String,
    String,
>)
    ensures
        exists|hash: Result<Seq<char>, Seq<char>>, id: Seq<char>|
            #![trigger secrets::salted(password@, hash), secrets::is_id("user"@, id)]
            secrets::salted(password@, hash) && secrets::is_id("user"@, id) && ({
                let (log, told) = appointed(old(db)@, username@, hash, id, now);
                final(db).performed(old(db), log) && reply::told(r) == told
            }),
{
    let hash = secrets::salted_hash(password);
    let id = secrets::new_id("user");
    bootstrap_admin_with(db, username, hash, id, now)
}

/// The directory of the desk that an administrator created at the start is given.
pub fn bootstrap_desk_path(data: &[u8]) -> (r: Vec<u8>)
    ensures
        r@ == paths::joined(data@, encode_utf8("desk"@)),
{
    paths::join(data, "desk".as_bytes())
}

/// What giving an administrator created at the start a desk leads to, given the outcome
/// of making its directory and its identifier.
pub open spec fn furnished(
    t: Tables,
    data: Seq<u8>,
    user_id: Seq<char>,
    made: Result<(), Seq<char>>,
    id: Seq<char>,
    now: i64,
) -> (Seq<ChangeV>, Result<(), Seq<char>>) {
    match made {
        Err(e) => (Seq::empty(), Err(e)),
        Ok(_) => {
            let c = ChangeV::InsertSandbox(
                SandboxRowV {
                    id,
                    name: "Desk"@,
                    path: text::reads_as(paths::joined(data, encode_utf8("desk"@))),
                    description: "Personal desk"@,
                    created_at: now,
                },
            );
            let g = ChangeV::PutGrant(api::full_grant(user_id, id));
            match (t.violation(c), t.run(c).violation(g)) {
                (Some(e), _) => (Seq::empty(), Err(e.spec_text())),
                (None, Some(e)) => (seq![c], Err(e.spec_text())),
                (None, None) => (seq![c, g], Ok(())),
            }
        },
    }
}

/// Gives an administrator created at the start a desk under the given identifier.
pub fn bootstrap_desk_with(
    db: &mut Db,
    data: &[u8],
    user_id: &str,
    made: Result<(), String>,
    id: String,
    now: i64,
) -> (r: Result<(), String>)
    ensures
        ({
            let (log, told) = furnished(
                old(db)@,
                data@,
                user_id@,
                reply::told(made),
                id@,
                now,
            );
            final(db).performed(old(db), log) && reply::told(r) == told
        }),
{
    proof {
        api::lemma_no_changes(db);
    }
    made?;
    let path = bootstrap_desk_path(data);
    let path = text::reading(path.as_slice());
    let g = Grant {
        user_id: user_id.to_string(),
        sandbox_id: id.clone(),
        can_read: true,
        can_write: true,
        can_shell: true,
        can_admin: true,
    };
    let ghost c = ChangeV::InsertSandbox(
        SandboxRowV {
            id: id@,
            name: "Desk"@,
            path: path@,
            description: "Personal desk"@,
            created_at: now,
        },
    );
    proof {
        api::lemma_single(db@, db.changes(), c);
        api::lemma_pair(db@, db.changes(), c, ChangeV::PutGrant(g@));
    }
    match db.insert_sandbox(id.as_str(), "Desk", path.as_str(), "Personal desk", now) {
        Ok(_) => {},
        Err(e) => {
            return Err(e.text());
        },
    }
    match db.put_grant(&g) {
        Ok(_) => Ok(()),
        Err(e) => Err(e.text()),
    }
}

/// The directory to make once an administrator was asked for at the start, given what came
/// of that: that of their desk, on a personal server where they were created.
pub fn bootstrap_desk_to_make(data: &[u8], personal: bool, first: &Result<String, String>) -> (r:
    Option<Vec<u8>>)
    ensures
        fsops::opt_bytes(r) == if personal && first is Ok {
            Some(paths::joined(data@, encode_utf8("desk"@)))
        } else {
            None
        },
{
    if personal && first.is_ok() {
        Some(bootstrap_desk_path(data))
    } else {
        None
    }
}

/// What completes the creation of an administrator at the start, given what came of it: on
/// a personal server where they were created, the desk is given.
pub open spec fn installed(
    t: Tables,
    data: Seq<u8>,
    personal: bool,
    first: Result<Seq<char>, Seq<char>>,
    made: Result<(), Seq<char>>,
    id: Seq<char>,
    now: i64,
) -> (Seq<ChangeV>, Result<(), Seq<char>>) {
    match first {
        Err(e) => (Seq::empty(), Err(e)),
        Ok(user_id) => if personal {
            furnished(t, data, user_id, made, id, now)
        } else {
            (Seq::empty(), Ok(()))
        },
    }
}

/// Completes the creation of an administrator at the start with the given identifier of the
/// desk.
pub fn bootstrap_finish_with(
    db: &mut Db,
    data: &[u8],
    personal: bool,
    first: Result<String, String>,
    made: Result<(), String>,
    id: String,
    now: i64,
) -> (r: Result<(), String>)
    ensures
        ({
            let (log, told) = installed(
                old(db)@,
                data@,
                personal,
                reply::told(first),
                reply::told(made),
                id@,
                now,
            );
            final(db).performed(old(db), log) && reply::told(r) == told
        }),
{
    proof {
        api::lemma_no_changes(db);
    }
    let user_id = first?;
    if personal {
        bootstrap_desk_with(db, data, user_id.as_str(), made, id, now)
    } else {
        Ok(())
    }
}

/// Completes the creation of an administrator at the start: `first` is what came of it, and
/// `made` the outcome of making the directory of the desk, where there was one to make.
pub fn bootstrap_finish(
    db: &mut Db,
    data: &[u8],
    personal: bool,
    first: Result<String, String>,
    made: Result<(), String>,
    now: i64,
) -> (r: Result<(), String>)
    ensures
        exists|id: Seq<char>| #[trigger]
            secrets::is_id("box"@, id) && ({
                let (log, told) = installed(
                    old(db)@,
                    data@,
                    personal,
                    reply::told(first),
                    reply::told(made),
                    id,
                    now,
                );
                final(db).performed(old(db), log) && reply::told(r) == told
            }),
{
    let id = secrets::new_id("box");
    bootstrap_finish_with(db, data, personal, first, made, id, now)
}

// ---------------------------------------------------------------------------
// Web pages
// ---------------------------------------------------------------------------

/// Where the user interface is fetched from, if it is served: the origin without slashes
/// at its end.
pub fn ui_origin(api_only: bool, origin: &str) -> (r: Option<String>)
    ensures
        tables::opt(r) == if !api_only && origin@.len() > 0 {
            Some(text::drop_back(origin@, |c: char| c == '/'))
        } else {
            None
        },
{
    if !api_only && !origin.is_empty() {
        let ghost p = |x: char| x == '/';
        let ghost q = |c: char| c == '/';
        assert(p =~= q);
        Some(text::without_trailing(origin, '/'))
    } else {
        None
    }
}

/// The origins of web pages that may always use a server.
pub open spec fn usual_origins() -> Seq<Seq<char>> {
    seq![
        "https://works.scalattice.com"@,
        "http://localhost:5173"@,
        "http://127.0.0.1:5173"@,
        "http://localhost:4173"@,
        "tauri://localhost"@,
        "https://tauri.localhost"@,
        "http://tauri.localhost"@,
    ]
}

/// The origins in a list with commas: what stands between the commas, without white
/// space at its ends, where that is not empty.
pub open spec fn listed_origins(extra: Seq<char>) -> Seq<Seq<char>> {
    text::pieces(extra, |c: char| c == ',').map_values(|s: Seq<char>| text::trim(s)).filter(
        |s: Seq<char>| s.len() > 0,
    )
}

/// The origins of web pages that may use the server, or `None` where all may.
pub fn cors_origins(personal: bool, extra: &str) -> (r: Option<Vec<String>>)
    ensures
        match r {
            Some(v) => !personal && text::texts(v@) == usual_origins() + listed_origins(extra@),
            None => personal,
        },
{
    if personal {
        return None;
    }
    let mut v: Vec<String> = Vec::new();
    v.push("https://works.scalattice.com".to_string());
    v.push("http://localhost:5173".to_string());
    v.push("http://127.0.0.1:5173".to_string());
    v.push("http://localhost:4173".to_string());
    v.push("tauri://localhost".to_string());
    v.push("https://tauri.localhost".to_string());
    v.push("http://tauri.localhost".to_string());
    assert(text::texts(v@) =~= usual_origins());
    let ghost f = |s: Seq<char>| text::trim(s);
    let ghost p = |s: Seq<char>| s.len() > 0;
    let parts = text::split(extra, ',', ',');
    let ghost a = |c: char| c == ',' || c == ',';
    let ghost b = |c: char| c == ',';
    assert(a =~= b);
    let ghost all = text::texts(parts@).map_values(f);
    let mut i: usize = 0;
    proof {
        reveal(Seq::filter);
        assert(all.take(0).filter(p) =~= Seq::<Seq<char>>::empty());
        assert(usual_origins() + all.take(0).filter(p) =~= usual_origins());
    }
    while i < parts.len()
        invariant
            i <= parts@.len(),
            f == (|s: Seq<char>| text::trim(s)),
            p == (|s: Seq<char>| s.len() > 0),
            all == text::texts(parts@).map_values(f),
            text::texts(v@) == usual_origins() + all.take(i as int).filter(p),
        decreases parts@.len() - i,
    {
        let s = text::trimmed(parts[i].as_str());
        assert(all[i as int] == s@);
        proof {
            assert(all.take(i + 1) =~= all.take(i as int).push(s@));
            crate::order::lemma_filter_push(all.take(i as int), s@, p);
        }
        if !s.as_str().is_empty() {
            let ghost before = v@;
            let ghost x = s@;
            v.push(s);
            assert(text::texts(v@) =~= text::texts(before).push(x));
            assert(text::texts(before).push(x) =~= usual_origins() + all.take(i as int).filter(
                p,
            ).push(x));
        }
        i = i + 1;
    }
    assert(all.take(i as int) =~= all);
    Some(v)
}

/// The address to open in a browser: this machine where the server listens there or
/// everywhere, else the address that it listens on.
pub fn open_url(local: bool, addr: &str, port: &str) -> (r: String)
    ensures
        r@ == if local {
            "http://127.0.0.1:"@ + port@
        } else {
            "http://"@ + addr@
        },
{
    if local {
        text::concat("http://127.0.0.1:", port)
    } else {
        text::concat("http://", addr)
    }
}

// ---------------------------------------------------------------------------
// What holds of every start
// ---------------------------------------------------------------------------

/// The data lie where that is said. Else a personal server keeps them below the home
/// directory, the one of Unix before the one of Windows, and where there is none, or the
/// server is not personal, they lie in the place for all of the machine.
pub proof fn data_lie_where_they_belong(
    personal: bool,
    said: Option<Seq<u8>>,
    home: Option<Seq<u8>>,
    profile: Option<Seq<u8>>,
)
    ensures
        ({
            let place = data_place(personal, said, home, profile);
            &&& said matches Some(p) ==> place == p
            &&& said is None && personal ==> {
                &&& home matches Some(h) ==> place == paths::joined(
                    h,
                    encode_utf8(".local/share/works"@),
                )
                &&& home is None ==> (profile matches Some(p) ==> place == paths::joined(
                    p,
                    encode_utf8("AppData/Local/Works"@),
                ))
            }
            &&& said is None && (!personal || (home is None && profile is None)) ==> place
                == encode_utf8("/var/lib/works"@)
        }),
{
}

/// An administrator is created at the start exactly where the password could be hashed and
/// neither the name nor the identifier is taken. The name stays as it was given, and is the
/// display name too.
pub proof fn the_first_administrator_is_as_asked(
    t: Tables,
    username: Seq<char>,
    hash: Result<Seq<char>, Seq<char>>,
    id: Seq<char>,
    now: i64,
)
    ensures
        ({
            let o = appointed(t, username, hash, id, now);
            let after = t.run_all(o.0);
            &&& o.1 is Ok <==> hash is Ok && t.user_row_named(username) is None && t.user_row(
                id,
            ) is None
            &&& o.1 matches Ok(x) ==> {
                let row = after.users.last();
                &&& x == id
                &&& after.users.len() == t.users.len() + 1
                &&& after.users.drop_last() == t.users
                &&& row.id == id
                &&& row.username == username
                &&& row.display_name == username
                &&& hash == Ok::<Seq<char>, Seq<char>>(row.password_hash)
                &&& row.role == "admin"@
                &&& row.created_at == now
                &&& after.sessions == t.sessions
                &&& after.sandboxes == t.sandboxes
                &&& after.grants == t.grants
            }
            &&& o.1 is Err ==> after == t
            &&& hash matches Err(e) ==> o.1 == Err::<Seq<char>, Seq<char>>(e)
            &&& hash is Ok && t.user_row_named(username) is Some ==> o.1 == Err::<
                Seq<char>,
                Seq<char>,
            >("UNIQUE constraint failed: users.username"@)
            &&& hash is Ok && t.user_row_named(username) is None && t.user_row(id) is Some ==> o.1
                == Err::<Seq<char>, Seq<char>>("UNIQUE constraint failed: users.id"@)
        }),
{
    let u = UserRowV {
        id,
        username,
        display_name: username,
        password_hash: hash->Ok_0,
        role: "admin"@,
        created_at: now,
    };
    api::lemma_single(t, Seq::empty(), ChangeV::InsertUser(u));
    assert(t.users.push(u).drop_last() =~= t.users);
}

/// An administrator who was created at the start is given a desk in `desk` below the
/// directory of the data, where its directory could be made, its identifier is new and
/// they are there; they may do everything in it.
pub proof fn the_first_desk_is_as_asked(
    t: Tables,
    data: Seq<u8>,
    user_id: Seq<char>,
    made: Result<(), Seq<char>>,
    id: Seq<char>,
    now: i64,
)
    requires
        t.user_row(user_id) is Some,
    ensures
        ({
            let o = furnished(t, data, user_id, made, id, now);
            let after = t.run_all(o.0);
            &&& o.1 is Ok <==> made is Ok && t.sandbox_row(id) is None
            &&& o.1 is Ok ==> {
                let row = after.sandboxes.last();
                &&& after.sandboxes.len() == t.sandboxes.len() + 1
                &&& after.sandboxes.drop_last() == t.sandboxes
                &&& row.id == id
                &&& row.name == "Desk"@
                &&& row.description == "Personal desk"@
                &&& row.created_at == now
                &&& row.path == text::reads_as(paths::joined(data, encode_utf8("desk"@)))
                &&& after.grant_row(user_id, id) matches Some(g) && g.user_id == user_id
                    && g.sandbox_id == id && g.can_read && g.can_write && g.can_shell && g.can_admin
                &&& after.users == t.users
                &&& after.sessions == t.sessions
            }
            &&& o.1 is Err ==> after == t
            &&& made matches Err(e) ==> o.1 == Err::<(), Seq<char>>(e)
            &&& made is Ok && t.sandbox_row(id) is Some ==> o.1 == Err::<(), Seq<char>>(
                "UNIQUE constraint failed: sandboxes.id"@,
            )
        }),
{
    let s = SandboxRowV {
        id,
        name: "Desk"@,
        path: text::reads_as(paths::joined(data, encode_utf8("desk"@))),
        description: "Personal desk"@,
        created_at: now,
    };
    let g = api::full_grant(user_id, id);
    let c = ChangeV::InsertSandbox(s);
    api::lemma_single(t, Seq::empty(), c);
    api::lemma_pair(t, Seq::empty(), c, ChangeV::PutGrant(g));
    tables::lemma_first_push(t.sandboxes, s, |x: SandboxRowV| x.id == id);
    crate::laws::lemma_grant_set(t.run(c), g, user_id, id);
    assert(t.sandboxes.push(s).drop_last() =~= t.sandboxes);
    assert(t.run_all(Seq::<ChangeV>::empty()) == t);
}

/// A desk is given at the start of a personal server only, and to nobody where the
/// administrator could not be created.
pub proof fn only_personal_servers_start_with_a_desk(
    t: Tables,
    data: Seq<u8>,
    personal: bool,
    first: Result<Seq<char>, Seq<char>>,
    made: Result<(), Seq<char>>,
    id: Seq<char>,
    now: i64,
)
    ensures
        ({
            let o = installed(t, data, personal, first, made, id, now);
            &&& first matches Err(e) ==> o.1 == Err::<(), Seq<char>>(e) && t.run_all(o.0) == t
            &&& first is Ok && !personal ==> o.1 is Ok && t.run_all(o.0) == t
            &&& first is Ok && personal ==> o == furnished(t, data, first->Ok_0, made, id, now)
        }),
{
    assert(t.run_all(Seq::<ChangeV>::empty()) == t);
}

/// The pages that may always use a server are those of the product, of its development and
/// of its desktop program.
pub proof fn some_pages_may_always_use_a_server()
    ensures
        usual_origins() == seq![
            "https://works.scalattice.com"@,
            "http://localhost:5173"@,
            "http://127.0.0.1:5173"@,
            "http://localhost:4173"@,
            "tauri://localhost"@,
            "https://tauri.localhost"@,
            "http://tauri.localhost"@,
        ],
{
}

/// Origins are listed one by one between commas, in their order: each without white space
/// at its ends, and none that is empty.
pub proof fn origins_are_listed_one_by_one(a: Seq<char>, b: Seq<char>, one: Seq<char>)
    requires
        forall|i: int| 0 <= i < one.len() ==> #[trigger] one[i] != ',',
    ensures
        listed_origins(a.push(',') + b) == listed_origins(a) + listed_origins(b),
        text::trim(one).len() > 0 ==> listed_origins(one) == seq![text::trim(one)],
        text::trim(one).len() == 0 ==> listed_origins(one).len() == 0,
{
    let comma = |c: char| c == ',';
    let f = |s: Seq<char>| text::trim(s);
    let p = |s: Seq<char>| s.len() > 0;
    let none = Seq::<Seq<char>>::empty();
    text::separators_part_texts(a, ',', b, comma);
    let x = text::pieces(a, comma).map_values(f);
    let y = text::pieces(b, comma).map_values(f);
    assert(text::pieces(a.push(',') + b, comma).map_values(f) =~= x + y);
    crate::order::lemma_filter_parts(x, y, p);
    text::unbroken_text_is_one_piece(one, comma);
    assert(text::pieces(one, comma).map_values(f) =~= none.push(text::trim(one)));
    reveal(Seq::filter);
    assert(none.filter(p) =~= none);
    crate::order::lemma_filter_push(none, text::trim(one), p);
    assert(none.push(text::trim(one)) =~= seq![text::trim(one)]);
}

} // verus!
