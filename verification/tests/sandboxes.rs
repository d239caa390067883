use works_server::api::AppState;
use works_server::db::{Change, Db, Grant, Stored};
use works_server::files::{file_root, Need};
use works_server::pty::PtyHub;
use works_server::reply::ApiError;
use works_server::sandboxes::{
    create_sandbox, create_sandbox_path, create_sandbox_with, delete_grant, delete_sandbox, grants,
    patch_sandbox, patch_sandbox_path, put_grant, sandboxes, GrantBody, NewSandbox, PatchSandbox,
};

const NOW: i64 = 1_700_000_000;

fn peopled() -> AppState {
    let mut db = Db::new();
    db.insert_user("user_a", "ada", "Ada", "x", "admin", NOW).unwrap();
    db.insert_user("user_b", "bob", "Bob", "y", "member", NOW).unwrap();
    db.put_session("ka", "user_a", 100, NOW).unwrap();
    db.put_session("kb", "user_b", 100, NOW).unwrap();
    db.insert_sandbox("b1", "One", "/one", "first", NOW).unwrap();
    db.insert_sandbox("b2", "Two", "/two", "second", NOW).unwrap();
    db.take_changes();
    AppState {
        db,
        pty: PtyHub::new(),
        data_dir: b"/srv/works".to_vec(),
        org_name: "Acme".to_string(),
        personal: false,
        windows: false,
        ui_origin: None,
    }
}

const ADA: Option<&[u8]> = Some(b"Bearer ka");
const BOB: Option<&[u8]> = Some(b"Bearer kb");

fn refusal<T>(r: Result<T, ApiError>) -> (u16, String) {
    match r {
        Ok(_) => panic!("not refused"),
        Err(e) => (e.status, e.error),
    }
}

fn says(status: u16, text: &str) -> (u16, String) {
    (status, text.to_string())
}

fn new_sandbox(name: &str, path: &str) -> NewSandbox {
    NewSandbox { name: name.to_string(), path: path.to_string(), description: None }
}

fn asked(read: bool, write: bool, shell: bool, admin: Option<bool>) -> GrantBody {
    GrantBody {
        user_id: "user_b".to_string(),
        sandbox_id: "b1".to_string(),
        can_read: read,
        can_write: write,
        can_shell: shell,
        can_admin: admin,
    }
}

#[test]
fn created_sandbox_reads_back() {
    let mut state = peopled();
    let body = new_sandbox(" Lab ", " /srv/lab ");
    assert_eq!(create_sandbox_path(&state, ADA, &body, NOW).unwrap(), "/srv/lab");
    let s = create_sandbox_with(&mut state, ADA, &body, Ok(()), "b9".to_string(), NOW).unwrap();
    assert_eq!((s.name.as_str(), s.path.as_str()), ("Lab", "/srv/lab"));
    assert_eq!(s.description, "");
    let found = state.db.sandbox("b9").unwrap();
    assert_eq!((found.name.as_str(), found.path.as_str()), ("Lab", "/srv/lab"));
    let s = create_sandbox(&mut state, ADA, &body, Ok(()), NOW).unwrap();
    assert!(s.id.starts_with("box_"));
}

#[test]
fn sandboxes_that_are_refused() {
    let mut state = peopled();
    let e = says(400, "sandbox path must be absolute");
    assert_eq!(refusal(create_sandbox_path(&state, ADA, &new_sandbox("x", "lab"), NOW)), e);
    assert_eq!(refusal(create_sandbox_path(&state, ADA, &new_sandbox("x", "  "), NOW)), e);
    let body = new_sandbox("x", "/lab");
    let r = create_sandbox(&mut state, ADA, &body, Err("Permission denied".to_string()), NOW);
    assert_eq!(refusal(r), says(400, "Permission denied"));
    let r = create_sandbox(&mut state, BOB, &body, Ok(()), NOW);
    assert_eq!(refusal(r), says(403, "admin only"));
    let r = create_sandbox_with(&mut state, ADA, &body, Ok(()), "b1".to_string(), NOW);
    assert_eq!(refusal(r), says(500, "db"));
    assert_eq!(state.db.sandboxes().len(), 2);
    assert!(state.db.take_changes().is_empty());
}

#[test]
fn changing_a_sandbox_keeps_the_rest() {
    let mut state = peopled();
    let body = PatchSandbox {
        name: None,
        path: Some("/new".to_string()),
        description: None,
    };
    assert_eq!(patch_sandbox_path(&state, ADA, &body, NOW).unwrap(), Some("/new".to_string()));
    let s = patch_sandbox(&mut state, ADA, "b1", &body, Ok(()), NOW).unwrap();
    assert_eq!((s.name.as_str(), s.path.as_str()), ("One", "/new"));
    assert_eq!(s.description, "first");
    assert_eq!(state.db.sandbox("b2").unwrap().path, "/two");
}

#[test]
fn changes_of_sandboxes_that_are_refused() {
    let mut state = peopled();
    let body = |path: Option<&str>| PatchSandbox {
        name: Some("N".to_string()),
        path: path.map(|p| p.to_string()),
        description: None,
    };
    let e = says(400, "sandbox path must be absolute");
    // The path of a change is taken as it is, white space and all.
    assert_eq!(refusal(patch_sandbox_path(&state, ADA, &body(Some(" /x")), NOW)), e);
    let bad = Err("no room".to_string());
    let r = patch_sandbox(&mut state, ADA, "b1", &body(Some("/x")), bad, NOW);
    assert_eq!(refusal(r), says(400, "no room"));
    let r = patch_sandbox(&mut state, ADA, "b7", &body(None), Ok(()), NOW);
    assert_eq!(refusal(r), says(404, "no such sandbox"));
    let r = patch_sandbox(&mut state, BOB, "b1", &body(None), Ok(()), NOW);
    assert_eq!(refusal(r), says(403, "admin only"));
    assert_eq!(state.db.sandbox("b1").unwrap().name, "One");
    assert_eq!(patch_sandbox_path(&state, ADA, &body(None), NOW).unwrap(), None);
}

#[test]
fn deleted_sandbox_is_gone() {
    let mut state = peopled();
    put_grant(&mut state, ADA, asked(true, false, false, None), NOW).unwrap();
    assert_eq!(delete_sandbox(&mut state, ADA, "b1", NOW).unwrap(), 204);
    assert!(state.db.sandbox("b1").is_none());
    assert!(state.db.sandbox("b2").is_some());
    assert!(state.db.grants().is_empty());
    assert_eq!(refusal(delete_sandbox(&mut state, BOB, "b2", NOW)), says(403, "admin only"));
    assert_eq!(delete_sandbox(&mut state, ADA, "unknown", NOW).unwrap(), 204);
}

#[test]
fn sandboxes_are_listed_for_administrators() {
    let mut state = peopled();
    put_grant(&mut state, ADA, asked(false, true, false, None), NOW).unwrap();
    let all = sandboxes(&state, ADA, NOW).unwrap();
    let ids: Vec<&str> = all.iter().map(|s| s.id.as_str()).collect();
    assert_eq!(ids, vec!["b1", "b2"]);
    assert_eq!(refusal(sandboxes(&state, BOB, NOW)), says(403, "admin only"));
    assert_eq!(refusal(sandboxes(&state, None, NOW)), says(401, "sign in"));
}

#[test]
fn grant_reads_back() {
    let mut state = peopled();
    let g = put_grant(&mut state, ADA, asked(true, false, true, None), NOW).unwrap();
    assert!(g.can_read && !g.can_write && g.can_shell && !g.can_admin);
    let other = Grant {
        user_id: "user_b".to_string(),
        sandbox_id: "b2".to_string(),
        can_read: true,
        can_write: true,
        can_shell: true,
        can_admin: true,
    };
    state.db.put_grant(&other).unwrap();
    put_grant(&mut state, ADA, asked(false, true, false, Some(true)), NOW).unwrap();
    let g = state.db.grant("user_b", "b1").unwrap();
    assert!(!g.can_read && g.can_write && !g.can_shell && g.can_admin);
    assert!(state.db.grant("user_b", "b2").unwrap().can_read);
    let all = grants(&state, ADA, NOW).unwrap();
    let ids: Vec<&str> = all.iter().map(|g| g.sandbox_id.as_str()).collect();
    assert_eq!(ids, vec!["b1", "b2"]);
    assert_eq!(refusal(grants(&state, BOB, NOW)), says(403, "admin only"));
}

#[test]
fn grants_for_nobody_are_refused() {
    let mut state = peopled();
    let body = GrantBody { user_id: "nobody".to_string(), ..asked(true, true, true, None) };
    assert_eq!(refusal(put_grant(&mut state, ADA, body, NOW)), says(500, "db"));
    let body = GrantBody { sandbox_id: "nowhere".to_string(), ..asked(true, true, true, None) };
    assert_eq!(refusal(put_grant(&mut state, ADA, body, NOW)), says(500, "db"));
    let body = asked(true, true, true, None);
    assert_eq!(refusal(put_grant(&mut state, BOB, body, NOW)), says(403, "admin only"));
    assert!(state.db.grants().is_empty());
}

#[test]
fn grant_taken_back_is_gone() {
    let mut state = peopled();
    put_grant(&mut state, ADA, asked(true, true, true, None), NOW).unwrap();
    assert_eq!(delete_grant(&mut state, ADA, "user_b", "b1", NOW).unwrap(), 204);
    assert!(state.db.grant("user_b", "b1").is_none());
    let r = delete_grant(&mut state, BOB, "user_b", "b1", NOW);
    assert_eq!(refusal(r), says(403, "admin only"));
    let changes = state.db.take_changes();
    assert_eq!(changes.len(), 2);
    assert!(matches!(&changes[0], Change::PutGrant(g) if g.can_write));
    assert!(matches!(&changes[1], Change::DeleteGrant { user_id, .. } if user_id == "user_b"));
}

#[test]
fn sandbox_paths_stay_absolute() {
    let mut state = peopled();
    create_sandbox(&mut state, ADA, &new_sandbox("Lab", "/srv/lab"), Ok(()), NOW).unwrap();
    let _ = create_sandbox(&mut state, ADA, &new_sandbox("Bad", "srv/lab"), Ok(()), NOW);
    let relative = PatchSandbox { name: None, path: Some("two".to_string()), description: None };
    let _ = patch_sandbox(&mut state, ADA, "b2", &relative, Ok(()), NOW);
    assert_eq!(state.db.sandboxes().len(), 3);
    assert!(state.db.sandboxes().iter().all(|s| s.path.starts_with('/')));
}

#[test]
fn drives_are_absolute_on_windows() {
    let mut state = peopled();
    let drive = new_sandbox("Lab", "C:\\lab");
    let e = says(400, "sandbox path must be absolute");
    assert_eq!(refusal(create_sandbox_path(&state, ADA, &drive, NOW)), e);
    state.windows = true;
    assert_eq!(create_sandbox_path(&state, ADA, &drive, NOW).unwrap(), "C:\\lab");
    let s = create_sandbox(&mut state, ADA, &drive, Ok(()), NOW).unwrap();
    assert_eq!(s.path, "C:\\lab");
    let rooted = new_sandbox("Lab", "\\lab");
    assert_eq!(refusal(create_sandbox_path(&state, ADA, &rooted, NOW)), e);
    let patch = |p: &str| PatchSandbox {
        name: None,
        path: Some(p.to_string()),
        description: None,
    };
    assert!(patch_sandbox_path(&state, ADA, &patch("d:/x"), NOW).is_ok());
    assert_eq!(refusal(patch_sandbox_path(&state, ADA, &patch("d:x"), NOW)), e);
}

#[test]
fn grants_on_missing_sandboxes_are_served() {
    let mut state = peopled();
    let g = Grant {
        user_id: "user_b".to_string(),
        sandbox_id: "gone".to_string(),
        can_read: true,
        can_write: true,
        can_shell: false,
        can_admin: false,
    };
    let stored = Stored {
        users: vec![],
        sessions: vec![],
        sandboxes: vec![],
        grants: vec![g.clone()],
    };
    let mut orphaned = Db::open(stored).unwrap();
    assert_eq!(orphaned.grants().len(), 1);
    orphaned.insert_user("user_b", "bob", "Bob", "y", "member", NOW).unwrap();
    orphaned.put_session("kb", "user_b", 100, NOW).unwrap();
    state.db = orphaned;
    let r = file_root(&state, BOB, "gone", Need::Look, NOW);
    assert_eq!(refusal(r), says(404, "no such sandbox"));
}
