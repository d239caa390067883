use works_server::accounts::{
    create_user, create_user_with, delete_user, desk_to_make, ensure_personal_sandbox,
    ensure_personal_sandbox_with, issue, issue_with, login, login_with, logout, me, patch_user,
    patch_user_with, setup, setup_finish, setup_finish_with, setup_with, users, LoginBody, NewUser,
    PatchUser, SetupBody, SESSION_SECONDS,
};
use works_server::api::{admin, auth, bearer, grant_for, health, well_known, AppState};
use works_server::db::{Change, Db, Grant, User};
use works_server::pty::PtyHub;
use works_server::reply::ApiError;
use works_server::secrets::{hash_password, new_id, new_token, verify_password};

const NOW: i64 = 1_700_000_000;

fn empty(personal: bool) -> AppState {
    AppState {
        db: Db::new(),
        pty: PtyHub::new(),
        data_dir: b"/srv/works".to_vec(),
        org_name: "Acme".to_string(),
        personal,
        windows: false,
        ui_origin: None,
    }
}

fn header(token: &str) -> Vec<u8> {
    format!("Bearer {token}").into_bytes()
}

/// A server with an administrator `ada` and a member `bob`, both signed in.
fn peopled() -> AppState {
    let mut state = empty(false);
    state.db.insert_user("user_a", "ada", "Ada", "x", "admin", NOW).unwrap();
    state.db.insert_user("user_b", "bob", "Bob", "y", "member", NOW).unwrap();
    state.db.put_session("ka", "user_a", 100, NOW).unwrap();
    state.db.put_session("kb", "user_b", 100, NOW).unwrap();
    state.db.take_changes();
    state
}

fn setup_body(username: &str, password: &str) -> SetupBody {
    SetupBody {
        org: None,
        username: username.to_string(),
        password: password.to_string(),
        display_name: None,
    }
}

fn new_user(username: &str, password: &str, role: Option<&str>) -> NewUser {
    NewUser {
        username: username.to_string(),
        password: password.to_string(),
        display_name: None,
        role: role.map(|r| r.to_string()),
    }
}

fn login_body(username: &str, password: &str) -> LoginBody {
    LoginBody { username: username.to_string(), password: password.to_string() }
}

fn patch(display: Option<&str>, role: Option<&str>, password: Option<&str>) -> PatchUser {
    PatchUser {
        display_name: display.map(|s| s.to_string()),
        role: role.map(|s| s.to_string()),
        password: password.map(|s| s.to_string()),
    }
}

fn refusal<T>(r: Result<T, ApiError>) -> (u16, String) {
    match r {
        Ok(_) => panic!("not refused"),
        Err(e) => (e.status, e.error),
    }
}

fn says(status: u16, text: &str) -> (u16, String) {
    (status, text.to_string())
}

#[test]
fn bearer_takes_the_token_out_of_the_header() {
    assert_eq!(bearer(Some(b"Bearer abc")), Some("abc".to_string()));
    assert_eq!(bearer(Some(b"Bearer  abc\t ")), Some("abc".to_string()));
    assert_eq!(bearer(Some(b"Bearer ")), Some(String::new()));
    assert_eq!(bearer(Some(b"bearer abc")), None);
    assert_eq!(bearer(Some(b"Basic abc")), None);
    assert_eq!(bearer(Some(b"Bearer")), None);
    assert_eq!(bearer(Some(b"Bearer a\xffb")), None);
    assert_eq!(bearer(Some(b"Bearer a\nb")), None);
    assert_eq!(bearer(None), None);
}

#[test]
fn header_carries_an_issued_token() {
    let token = new_token();
    assert_eq!(bearer(Some(&header(&token))), Some(token));
}

#[test]
fn tokens_and_identifiers_have_their_form() {
    let token = new_token();
    assert_eq!(token.len(), 64);
    assert!(token.chars().all(|c| c.is_ascii_digit() || ('a'..='f').contains(&c)));
    assert_ne!(token, new_token());
    let id = new_id("box");
    assert_eq!(id.len(), 36);
    assert!(id.starts_with("box_"));
    assert_eq!(&id[16..17], "4");
    assert!(["8", "9", "a", "b"].contains(&&id[20..21]));
    assert_ne!(id, new_id("box"));
}

#[test]
fn passwords_match_their_own_hash_only() {
    let h = hash_password("correct horse").unwrap();
    assert_ne!(h, "correct horse");
    assert!(h.starts_with("$argon2id$"));
    assert!(verify_password("correct horse", &h));
    assert!(!verify_password("wrong horse", &h));
    assert!(!verify_password("correct horse", "no hash"));
    assert_ne!(h, hash_password("correct horse").unwrap());
}

#[test]
fn texts_that_are_no_hashes_belong_to_no_password() {
    let h = hash_password("correct horse").unwrap();
    for bad in ["", "correct horse", "$", "$argon2id", "$argon2id$v=19$m=19456,t=2,p=1"] {
        assert!(!verify_password("correct horse", bad));
    }
    assert!(!verify_password("correct horse", &h[1..]));
    assert!(!verify_password("correct horse", &format!("{h}$x")));
    assert!(!verify_password("correct horse", &format!("x{h}")));
    // Numbers of lanes that are not lawful, small and large.
    for lanes in ["0", "16777216", "99999999", "536870912", "4294967295"] {
        let other = h.replace("p=1$", &format!("p={lanes}$"));
        assert_ne!(other, h);
        assert!(!verify_password("correct horse", &other));
    }
    let two = h.replace("p=1$", "p=2$");
    assert!(!verify_password("correct horse", &two));
}

#[test]
fn hashing_succeeds_for_every_length() {
    for password in ["", "x", "pässword", &"long ".repeat(1000)] {
        let h = hash_password(password).unwrap();
        assert_eq!(h.split('$').count(), 6);
        assert!(verify_password(password, &h));
    }
}

#[test]
fn requests_come_from_the_owner_of_the_session() {
    let state = peopled();
    assert_eq!(auth(&state, Some(&header("kb")), NOW).unwrap().id, "user_b");
    assert_eq!(refusal(auth(&state, Some(&header("kc")), NOW)), says(401, "sign in"));
    assert_eq!(refusal(auth(&state, None, NOW)), says(401, "sign in"));
    assert_eq!(refusal(auth(&state, Some(&header("kb")), NOW + 100)), says(401, "sign in"));
}

#[test]
fn only_administrators_pass() {
    let state = peopled();
    let ada = auth(&state, Some(&header("ka")), NOW).unwrap();
    let bob = auth(&state, Some(&header("kb")), NOW).unwrap();
    assert!(admin(&ada).is_ok());
    assert_eq!(refusal(admin(&bob)), says(403, "admin only"));
}

#[test]
fn grants_are_looked_up_for_members() {
    let mut state = peopled();
    let ada = auth(&state, Some(&header("ka")), NOW).unwrap();
    let bob = auth(&state, Some(&header("kb")), NOW).unwrap();
    let g = grant_for(&state, &ada, "nowhere").unwrap();
    assert!(g.can_read && g.can_write && g.can_shell && g.can_admin);
    assert_eq!((g.user_id.as_str(), g.sandbox_id.as_str()), ("user_a", "nowhere"));
    assert_eq!(refusal(grant_for(&state, &bob, "box_1")), says(403, "no access to this sandbox"));
    state.db.insert_sandbox("box_1", "One", "/one", "", NOW).unwrap();
    let none = Grant {
        user_id: "user_b".to_string(),
        sandbox_id: "box_1".to_string(),
        can_read: false,
        can_write: false,
        can_shell: false,
        can_admin: false,
    };
    state.db.put_grant(&none).unwrap();
    assert_eq!(refusal(grant_for(&state, &bob, "box_1")), says(403, "no access to this sandbox"));
    state.db.put_grant(&Grant { can_admin: true, ..none }).unwrap();
    assert!(grant_for(&state, &bob, "box_1").unwrap().can_admin);
}

#[test]
fn server_introduces_itself() {
    let mut state = empty(true);
    let w = well_known(&state, true);
    assert_eq!((w.name.as_str(), w.product.as_str()), ("Acme", "works"));
    assert_eq!((w.api.as_str(), w.auth.as_str()), ("/v1", "bearer"));
    assert!(w.setup_required && w.personal);
    state.db.insert_user("u", "ada", "Ada", "h", "admin", NOW).unwrap();
    assert!(!well_known(&state, true).setup_required);
    assert!(well_known(&state, false).setup_required);
    assert_eq!(health(), "ok");
}

#[test]
fn setup_happens_once() {
    let mut state = empty(false);
    let user = setup(&mut state, &setup_body(" ada ", "12345678"), NOW).unwrap();
    assert_eq!(user.username, "ada");
    assert_eq!(user.display_name, " ada ");
    assert_eq!(user.role, "admin");
    assert!(user.id.starts_with("user_"));
    let again = setup(&mut state, &setup_body("eve", "12345678"), NOW);
    assert_eq!(refusal(again), says(409, "already set up"));
    assert_eq!(state.db.user_count(), 1);
}

#[test]
fn setup_refuses_what_is_too_short() {
    let mut state = empty(false);
    let e = says(400, "username or password too short");
    assert_eq!(refusal(setup(&mut state, &setup_body(" a ", "12345678"), NOW)), e);
    assert_eq!(refusal(setup(&mut state, &setup_body("ada", "1234567"), NOW)), e);
    assert_eq!(state.db.user_count(), 0);
    assert!(state.db.take_changes().is_empty());
    // Lengths count bytes.
    assert!(setup(&mut state, &setup_body("é", "ééééé"), NOW).is_ok());
}

#[test]
fn setup_passes_on_a_failed_hash() {
    let mut state = empty(false);
    let failed = Err(ApiError { status: 500, error: "password hash failed".to_string() });
    let r = setup_with(&mut state, &setup_body("ada", "12345678"), "u".to_string(), failed, NOW);
    assert_eq!(refusal(r), says(500, "password hash failed"));
    assert_eq!(state.db.user_count(), 0);
}

#[test]
fn founder_can_sign_in() {
    let mut state = empty(false);
    setup(&mut state, &setup_body("ada", "correct horse"), NOW).unwrap();
    let s = login(&mut state, &login_body(" ada", "correct horse"), NOW).unwrap();
    assert_eq!(s.user.username, "ada");
    assert_eq!(auth(&state, Some(&header(&s.token)), NOW).unwrap().id, s.user.id);
}

#[test]
fn owner_of_a_personal_server_has_a_desk() {
    let mut state = empty(true);
    let body = setup_body("ada", "12345678");
    let user = setup_with(&mut state, &body, "u1".to_string(), Ok("h".to_string()), NOW).unwrap();
    assert_eq!(desk_to_make(&state), Some(b"/srv/works/desk".to_vec()));
    let s = setup_finish_with(&mut state, &user, Ok(()), "b1".to_string(), "t1".to_string(), NOW)
        .unwrap();
    assert_eq!(s.token, "t1");
    assert_eq!(s.user.id, "u1");
    let place = state.db.sandbox("b1").unwrap();
    assert_eq!(place.name, "Desk");
    assert_eq!(place.path, "/srv/works/desk");
    assert_eq!(place.description, "Personal desk");
    let g = state.db.grant("u1", "b1").unwrap();
    assert!(g.can_read && g.can_write && g.can_shell && g.can_admin);
    assert_eq!(desk_to_make(&state), None);
}

#[test]
fn desk_is_not_given_twice() {
    let mut state = empty(true);
    state.db.insert_user("u1", "ada", "Ada", "h", "admin", NOW).unwrap();
    state.db.insert_sandbox("b0", "Other", "/other", "", NOW).unwrap();
    let made = Err("not used".to_string());
    assert!(ensure_personal_sandbox(&mut state, "u1", made, NOW).is_ok());
    assert_eq!(state.db.sandboxes().len(), 1);
}

#[test]
fn desk_that_cannot_be_made_is_reported() {
    let mut state = empty(true);
    state.db.insert_user("u1", "ada", "Ada", "h", "admin", NOW).unwrap();
    let user = state.db.user_by_id("u1").unwrap();
    let r = setup_finish(&mut state, &user, Err("disk full".to_string()), NOW);
    assert_eq!(refusal(r), says(500, "disk full"));
    assert_eq!(state.db.sandboxes().len(), 0);
    let r = ensure_personal_sandbox_with(&mut state, "nobody", Ok(()), "b".to_string(), NOW);
    assert_eq!(refusal(r), says(500, "db"));
    assert_eq!(state.db.sandboxes().len(), 1);
}

#[test]
fn company_server_makes_no_desk() {
    let mut state = empty(false);
    let user = setup(&mut state, &setup_body("ada", "12345678"), NOW).unwrap();
    assert_eq!(desk_to_make(&state), None);
    let s = setup_finish(&mut state, &user, Ok(()), NOW).unwrap();
    assert_eq!(s.token.len(), 64);
    assert!(state.db.sandboxes().is_empty());
}

#[test]
fn token_signs_in_until_it_expires() {
    let mut state = peopled();
    let ada = state.db.user_by_id("user_a").unwrap();
    issue_with(&mut state, &ada, "fresh".to_string(), NOW).unwrap();
    assert_eq!(SESSION_SECONDS, 14 * 24 * 60 * 60);
    let h = header("fresh");
    assert!(auth(&state, Some(&h), NOW + SESSION_SECONDS - 1).is_ok());
    assert_eq!(refusal(auth(&state, Some(&h), NOW + SESSION_SECONDS)), says(401, "sign in"));
    let again = issue_with(&mut state, &ada, "fresh".to_string(), NOW);
    assert_eq!(refusal(again), says(500, "db"));
    assert!(issue(&mut state, &ada, NOW).is_ok());
    let ghost = User {
        id: "gone".to_string(),
        username: "gone".to_string(),
        display_name: String::new(),
        role: "member".to_string(),
    };
    assert_eq!(refusal(issue(&mut state, &ghost, NOW)), says(500, "db"));
}

#[test]
fn wrong_credentials_are_refused() {
    let mut state = empty(false);
    setup(&mut state, &setup_body("ada", "correct horse"), NOW).unwrap();
    let e = says(401, "invalid username or password");
    assert_eq!(refusal(login(&mut state, &login_body("ada", "wrong horse"), NOW)), e);
    assert_eq!(refusal(login(&mut state, &login_body("eve", "correct horse"), NOW)), e);
    let r = login_with(&mut state, &login_body("eve", "x"), "t".to_string(), NOW);
    assert_eq!(refusal(r), e);
}

#[test]
fn sessions_do_not_disturb_each_other() {
    let mut state = peopled();
    let bob = state.db.user_by_id("user_b").unwrap();
    issue_with(&mut state, &bob, "second".to_string(), NOW).unwrap();
    assert_eq!(auth(&state, Some(&header("ka")), NOW).unwrap().id, "user_a");
    assert_eq!(auth(&state, Some(&header("kb")), NOW).unwrap().id, "user_b");
    assert_eq!(auth(&state, Some(&header("second")), NOW).unwrap().id, "user_b");
}

#[test]
fn signing_out_ends_one_session() {
    let mut state = peopled();
    assert_eq!(logout(&mut state, Some(&header("kb"))).unwrap(), 204);
    assert!(auth(&state, Some(&header("kb")), NOW).is_err());
    assert!(auth(&state, Some(&header("ka")), NOW).is_ok());
    assert_eq!(logout(&mut state, None).unwrap(), 204);
    assert_eq!(logout(&mut state, Some(b"nonsense")).unwrap(), 204);
    let changes = state.db.take_changes();
    assert_eq!(changes.len(), 1);
    assert!(matches!(&changes[0], Change::DeleteSession { token } if token == "kb"));
}

#[test]
fn members_see_what_they_were_granted() {
    let mut state = peopled();
    state.db.insert_sandbox("b1", "Zeta", "/z", "", NOW).unwrap();
    state.db.insert_sandbox("b2", "Alpha", "/a", "", NOW).unwrap();
    state.db.insert_sandbox("b3", "Mid", "/m", "", NOW).unwrap();
    let grant = |b: &str, r: bool, w: bool, s: bool, a: bool| Grant {
        user_id: "user_b".to_string(),
        sandbox_id: b.to_string(),
        can_read: r,
        can_write: w,
        can_shell: s,
        can_admin: a,
    };
    state.db.put_grant(&grant("b1", false, false, true, false)).unwrap();
    state.db.put_grant(&grant("b3", false, false, false, true)).unwrap();
    let bob = me(&state, Some(&header("kb")), NOW).unwrap();
    let names: Vec<&str> = bob.sandboxes.iter().map(|s| s.name.as_str()).collect();
    assert_eq!(names, vec!["Zeta"]);
    assert_eq!(bob.default_sandbox_id, Some("b1".to_string()));
    let ada = me(&state, Some(&header("ka")), NOW).unwrap();
    let names: Vec<&str> = ada.sandboxes.iter().map(|s| s.name.as_str()).collect();
    assert_eq!(names, vec!["Alpha", "Mid", "Zeta"]);
    assert_eq!(ada.default_sandbox_id, Some("b2".to_string()));
    assert_eq!(ada.user.username, "ada");
    assert_eq!(refusal(me(&state, None, NOW)), says(401, "sign in"));
}

#[test]
fn profile_without_sandboxes_has_no_default() {
    let state = peopled();
    let bob = me(&state, Some(&header("kb")), NOW).unwrap();
    assert!(bob.sandboxes.is_empty());
    assert_eq!(bob.default_sandbox_id, None);
}

#[test]
fn accounts_are_listed_by_name() {
    let mut state = peopled();
    state.db.insert_user("user_c", "Zed", "Z", "z", "member", NOW).unwrap();
    let all = users(&state, Some(&header("ka")), NOW).unwrap();
    let names: Vec<&str> = all.iter().map(|u| u.username.as_str()).collect();
    assert_eq!(names, vec!["Zed", "ada", "bob"]);
    assert_eq!(refusal(users(&state, Some(&header("kb")), NOW)), says(403, "admin only"));
}

#[test]
fn created_user_can_sign_in() {
    let mut state = peopled();
    let h = header("ka");
    let u = create_user(&mut state, Some(&h), &new_user(" cyd ", "12345678", None), NOW).unwrap();
    assert_eq!((u.username.as_str(), u.display_name.as_str()), ("cyd", " cyd "));
    assert_eq!(u.role, "member");
    let s = login(&mut state, &login_body("cyd", "12345678"), NOW).unwrap();
    assert_eq!(s.user.id, u.id);
}

#[test]
fn roles_of_new_accounts() {
    let mut state = peopled();
    let h = header("ka");
    let hash = || Ok("h".to_string());
    let u = create_user_with(
        &mut state,
        Some(&h),
        &new_user("cyd", "12345678", Some("admin")),
        "u1".to_string(),
        hash(),
        NOW,
    );
    assert_eq!(u.unwrap().role, "admin");
    let u = create_user_with(
        &mut state,
        Some(&h),
        &new_user("dee", "12345678", Some("Admin")),
        "u2".to_string(),
        hash(),
        NOW,
    );
    assert_eq!(u.unwrap().role, "member");
}

#[test]
fn usernames_are_given_once() {
    let mut state = peopled();
    let h = header("ka");
    let r = create_user_with(
        &mut state,
        Some(&h),
        &new_user("bob", "12345678", None),
        "u1".to_string(),
        Ok("h".to_string()),
        NOW,
    );
    assert_eq!(refusal(r), says(409, "UNIQUE constraint failed: users.username"));
    let r = create_user_with(
        &mut state,
        Some(&h),
        &new_user("cyd", "12345678", None),
        "user_b".to_string(),
        Ok("h".to_string()),
        NOW,
    );
    assert_eq!(refusal(r), says(409, "UNIQUE constraint failed: users.id"));
    let short = create_user(&mut state, Some(&h), &new_user("c", "12345678", None), NOW);
    assert_eq!(refusal(short), says(400, "username or password too short"));
    assert_eq!(state.db.user_count(), 2);
}

#[test]
fn changing_an_account_keeps_the_rest() {
    let mut state = peopled();
    let h = header("ka");
    let u = patch_user(&mut state, Some(&h), "user_b", &patch(Some("Robert"), None, None), NOW);
    let u = u.unwrap();
    assert_eq!((u.username.as_str(), u.display_name.as_str()), ("bob", "Robert"));
    assert_eq!(u.role, "member");
    assert_eq!(state.db.user_by_username("bob").unwrap().1, "y");
    assert_eq!(state.db.user_by_id("user_a").unwrap().display_name, "Ada");
    let u = patch_user(&mut state, Some(&h), "user_b", &patch(None, Some("admin"), None), NOW);
    assert_eq!(u.unwrap().role, "admin");
}

#[test]
fn new_password_signs_in() {
    let mut state = peopled();
    let h = header("ka");
    let body = patch(None, None, Some("new password"));
    assert!(patch_user(&mut state, Some(&h), "user_b", &body, NOW).is_ok());
    assert!(login(&mut state, &login_body("bob", "new password"), NOW).is_ok());
    assert!(login(&mut state, &login_body("bob", "old password"), NOW).is_err());
}

#[test]
fn changes_of_accounts_that_are_refused() {
    let mut state = peopled();
    let h = header("ka");
    let r = patch_user(&mut state, Some(&h), "user_b", &patch(None, None, Some("short")), NOW);
    assert_eq!(refusal(r), says(400, "password too short"));
    let r = patch_user(&mut state, Some(&h), "user_b", &patch(None, Some("root"), None), NOW);
    assert_eq!(refusal(r), says(400, "role must be admin or member"));
    let r = patch_user(&mut state, Some(&h), "nobody", &patch(Some("N"), None, None), NOW);
    assert_eq!(refusal(r), says(404, "no such user"));
    let failed = Err(ApiError { status: 500, error: "password hash failed".to_string() });
    let body = patch(None, Some("root"), Some("long enough"));
    let r = patch_user_with(&mut state, Some(&h), "user_b", &body, failed, NOW);
    assert_eq!(refusal(r), says(500, "password hash failed"));
    let r = patch_user(&mut state, Some(&header("kb")), "user_b", &body, NOW);
    assert_eq!(refusal(r), says(403, "admin only"));
    assert_eq!(state.db.user_by_id("user_b").unwrap().role, "member");
}

#[test]
fn deleted_account_is_gone() {
    let mut state = peopled();
    state.db.insert_sandbox("b1", "One", "/one", "", NOW).unwrap();
    let g = Grant {
        user_id: "user_b".to_string(),
        sandbox_id: "b1".to_string(),
        can_read: true,
        can_write: false,
        can_shell: false,
        can_admin: false,
    };
    state.db.put_grant(&g).unwrap();
    assert_eq!(delete_user(&mut state, Some(&header("ka")), "user_b", NOW).unwrap(), 204);
    assert!(state.db.user_by_id("user_b").is_none());
    assert!(state.db.grants().is_empty());
    assert_eq!(refusal(auth(&state, Some(&header("kb")), NOW)), says(401, "sign in"));
    assert!(auth(&state, Some(&header("ka")), NOW).is_ok());
}

#[test]
fn nobody_deletes_themselves() {
    let mut state = peopled();
    let r = delete_user(&mut state, Some(&header("ka")), "user_a", NOW);
    assert_eq!(refusal(r), says(400, "cannot delete yourself"));
    let r = delete_user(&mut state, Some(&header("kb")), "user_a", NOW);
    assert_eq!(refusal(r), says(403, "admin only"));
    assert_eq!(state.db.user_count(), 2);
}

#[test]
fn members_do_not_administer() {
    let mut state = peopled();
    let h = header("kb");
    let e = says(403, "admin only");
    assert_eq!(refusal(create_user(&mut state, Some(&h), &new_user("x", "y", None), NOW)), e);
    assert_eq!(refusal(users(&state, Some(&h), NOW)), e);
    assert!(state.db.take_changes().is_empty());
}
