use works_server::db::{
    now, Change, Db, DbError, Grant, SandboxRow, SessionRow, Stored, UserRow,
};

const NOW: i64 = 1_700_000_000;

fn user(id: &str, username: &str) -> UserRow {
    UserRow {
        id: id.to_string(),
        username: username.to_string(),
        display_name: "D".to_string(),
        password_hash: "h".to_string(),
        role: "member".to_string(),
        created_at: NOW,
    }
}

fn session(token: &str, user_id: &str) -> SessionRow {
    SessionRow {
        token: token.to_string(),
        user_id: user_id.to_string(),
        created_at: NOW,
        expires_at: NOW + 100,
    }
}

fn place(id: &str, name: &str) -> SandboxRow {
    SandboxRow {
        id: id.to_string(),
        name: name.to_string(),
        path: "/p".to_string(),
        description: String::new(),
        created_at: NOW,
    }
}

fn grant(user_id: &str, sandbox_id: &str) -> Grant {
    Grant {
        user_id: user_id.to_string(),
        sandbox_id: sandbox_id.to_string(),
        can_read: true,
        can_write: false,
        can_shell: false,
        can_admin: false,
    }
}

fn stored() -> Stored {
    Stored {
        users: vec![user("u1", "ada"), user("u2", "bob")],
        sessions: vec![session("k1", "u1")],
        sandboxes: vec![place("b1", "One"), place("b2", "Two")],
        grants: vec![grant("u2", "b1")],
    }
}

#[test]
fn clock_tells_seconds() {
    let t = now();
    assert!(t > 1_600_000_000);
    assert!(t < 8_210_266_876_799);
}

#[test]
fn stored_rows_are_taken_over() {
    let mut db = Db::open(stored()).unwrap();
    assert_eq!(db.user_count(), 2);
    assert_eq!(db.user_by_username("bob").unwrap().0.id, "u2");
    assert_eq!(db.session_user("k1", NOW).unwrap().username, "ada");
    assert!(db.session_user("k1", NOW + 100).is_none());
    assert!(db.grant("u2", "b1").unwrap().can_read);
    assert!(db.grant("u1", "b1").is_none());
    assert!(db.take_changes().is_empty());
}

#[test]
fn rows_that_break_rules_are_not_taken_over() {
    let mut s = stored();
    s.users.push(user("u1", "cyd"));
    assert!(Db::open(s).is_none());
    let mut s = stored();
    s.users.push(user("u3", "ada"));
    assert!(Db::open(s).is_none());
    let mut s = stored();
    s.sessions.push(session("k1", "u2"));
    assert!(Db::open(s).is_none());
    let mut s = stored();
    s.sandboxes.push(place("b1", "Three"));
    assert!(Db::open(s).is_none());
    let mut s = stored();
    s.grants.push(grant("u2", "b1"));
    assert!(Db::open(s).is_none());
}

#[test]
fn rules_of_the_tables() {
    let mut db = Db::open(stored()).unwrap();
    let r = db.insert_user("u3", "ada", "", "", "member", NOW);
    assert_eq!(r, Err(DbError::UsernameTaken));
    let r = db.insert_user("u1", "cyd", "", "", "member", NOW);
    assert_eq!(r, Err(DbError::UserIdTaken));
    // A row that is taken in both ways is refused for its name.
    let r = db.insert_user("u1", "ada", "", "", "member", NOW);
    assert_eq!(r, Err(DbError::UsernameTaken));
    assert_eq!(db.put_session("k1", "u2", 1, NOW), Err(DbError::TokenTaken));
    assert_eq!(db.put_session("k2", "u9", 1, NOW), Err(DbError::MissingReference));
    assert_eq!(db.insert_sandbox("b1", "x", "/x", "", NOW), Err(DbError::SandboxIdTaken));
    assert_eq!(db.put_grant(&grant("u9", "b1")), Err(DbError::MissingReference));
    assert_eq!(db.put_grant(&grant("u1", "b9")), Err(DbError::MissingReference));
    assert!(db.take_changes().is_empty());
}

#[test]
fn broken_rules_are_named() {
    let texts = [
        (DbError::UserIdTaken, "UNIQUE constraint failed: users.id"),
        (DbError::UsernameTaken, "UNIQUE constraint failed: users.username"),
        (DbError::TokenTaken, "UNIQUE constraint failed: sessions.token"),
        (DbError::SandboxIdTaken, "UNIQUE constraint failed: sandboxes.id"),
        (DbError::MissingReference, "FOREIGN KEY constraint failed"),
    ];
    for (e, text) in texts {
        assert_eq!(e.text(), text);
    }
}

#[test]
fn changes_are_recorded_in_order() {
    let mut db = Db::new();
    db.insert_user("u1", "ada", "Ada", "h", "admin", NOW).unwrap();
    db.update_user("u1", Some("Countess"), None, None);
    db.put_session("k", "u1", 5, NOW).unwrap();
    db.delete_session("k");
    db.insert_sandbox("b1", "One", "/one", "", NOW).unwrap();
    db.update_sandbox("b1", Some("Uno"), None, Some("d"));
    db.put_grant(&grant("u1", "b1")).unwrap();
    db.delete_grant("u1", "b1");
    db.delete_sandbox("b1");
    db.delete_user("u1");
    let log = db.take_changes();
    assert_eq!(log.len(), 10);
    assert!(matches!(&log[0], Change::InsertUser(u) if u.username == "ada" && u.created_at == NOW));
    assert!(matches!(
        &log[1],
        Change::UpdateUser { display_name: Some(d), role: None, password_hash: None, .. }
            if d == "Countess"
    ));
    assert!(matches!(&log[2], Change::InsertSession(s) if s.expires_at == NOW + 5));
    assert!(matches!(&log[5], Change::UpdateSandbox { path: None, .. }));
    assert!(matches!(&log[9], Change::DeleteUser { id } if id == "u1"));
    assert!(db.take_changes().is_empty());
    assert_eq!(db.user_count(), 0);
}

#[test]
fn deleting_takes_along_what_depends() {
    let mut db = Db::open(stored()).unwrap();
    db.delete_user("u1");
    assert!(db.session_user("k1", NOW).is_none());
    assert!(db.grant("u2", "b1").is_some());
    db.delete_sandbox("b1");
    assert!(db.grant("u2", "b1").is_none());
    assert!(db.sandbox("b2").is_some());
}

#[test]
fn lists_are_complete_and_in_order() {
    let mut db = Db::new();
    for (id, name) in [("u1", "bob"), ("u2", "Zed"), ("u3", "éva"), ("u4", "ada")] {
        db.insert_user(id, name, "", "", "member", NOW).unwrap();
    }
    let names: Vec<String> = db.users().into_iter().map(|u| u.username).collect();
    assert_eq!(names, vec!["Zed", "ada", "bob", "éva"]);
    for (id, name) in [("b1", "x"), ("b2", "a"), ("b3", "x"), ("b4", "m")] {
        db.insert_sandbox(id, name, "/p", "", NOW).unwrap();
    }
    let ids: Vec<String> = db.sandboxes().into_iter().map(|s| s.id).collect();
    assert_eq!(ids, vec!["b2", "b4", "b1", "b3"]);
}

#[test]
fn grant_is_replaced_in_its_place() {
    let mut db = Db::open(stored()).unwrap();
    db.put_grant(&grant("u1", "b2")).unwrap();
    db.put_grant(&Grant { can_write: true, ..grant("u2", "b1") }).unwrap();
    let all = db.grants();
    assert_eq!(all.len(), 2);
    assert_eq!(all[0].user_id, "u2");
    assert!(all[0].can_write);
}

#[test]
fn rows_that_name_nothing_are_taken_over() {
    let mut s = stored();
    s.sessions.push(session("k2", "u9"));
    s.grants.push(grant("u2", "b9"));
    let mut db = Db::open(s).unwrap();
    assert!(db.session_user("k2", NOW).is_none());
    assert_eq!(db.put_session("k2", "u1", 1, NOW), Err(DbError::TokenTaken));
    assert_eq!(db.grants().len(), 2);
    // A grant that is there can be set anew; another one like it cannot be added.
    let wider = Grant { can_write: true, ..grant("u2", "b9") };
    assert_eq!(db.put_grant(&wider), Ok(()));
    assert!(db.grant("u2", "b9").unwrap().can_write);
    assert_eq!(db.put_grant(&grant("u1", "b9")), Err(DbError::MissingReference));
    // The session comes to life with an account of that identifier.
    db.insert_user("u9", "zoe", "Zoe", "h", "member", NOW).unwrap();
    assert_eq!(db.session_user("k2", NOW).unwrap().username, "zoe");
}
