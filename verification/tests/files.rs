use works_server::api::AppState;
use works_server::db::{Db, Grant};
use works_server::files::{
    change_reply, del_file, del_target, file_root, get_file, get_reply, get_target, put_bytes,
    put_file, put_target, tree, FilePut, FileQ, Need,
};
use works_server::fsops::{
    contained, destination, join_rel, list_tree, read_file, remove_path, write_file, Lookup, Meta,
    Removal, WalkEntry, MAX_FILE,
};
use works_server::pty::{b64, PtyHub};
use works_server::reply::ApiError;

const NOW: i64 = 1_700_000_000;
const ADA: Option<&[u8]> = Some(b"Bearer ka");
const BOB: Option<&[u8]> = Some(b"Bearer kb");

fn server(read: bool, write: bool, shell: bool) -> AppState {
    let mut db = Db::new();
    db.insert_user("user_a", "ada", "Ada", "x", "admin", NOW).unwrap();
    db.insert_user("user_b", "bob", "Bob", "y", "member", NOW).unwrap();
    db.put_session("ka", "user_a", 100, NOW).unwrap();
    db.put_session("kb", "user_b", 100, NOW).unwrap();
    db.insert_sandbox("b1", "One", "/srv/one", "", NOW).unwrap();
    let g = Grant {
        user_id: "user_b".to_string(),
        sandbox_id: "b1".to_string(),
        can_read: read,
        can_write: write,
        can_shell: shell,
        can_admin: false,
    };
    db.put_grant(&g).unwrap();
    AppState {
        db,
        pty: PtyHub::new(),
        data_dir: b"/srv/works".to_vec(),
        org_name: "Acme".to_string(),
        personal: false,
        windows: false,
        ui_origin: None,
    }
}

fn refusal<T>(r: Result<T, ApiError>) -> (u16, String) {
    match r {
        Ok(_) => panic!("not refused"),
        Err(e) => (e.status, e.error),
    }
}

fn says(status: u16, text: &str) -> (u16, String) {
    (status, text.to_string())
}

fn complaint<T>(r: Result<T, String>) -> String {
    match r {
        Ok(_) => panic!("no complaint"),
        Err(e) => e,
    }
}

/// What is known of a path that is just where it says.
fn plain(path: &str, is_dir: bool) -> Lookup {
    Lookup {
        root_canon: Some(b"/srv/one".to_vec()),
        exists: true,
        canon: Some(path.as_bytes().to_vec()),
        parent_canon: None,
        is_dir,
    }
}

/// What is known of a path that is not there yet, in a directory that is.
fn fresh(parent: &str) -> Lookup {
    Lookup {
        root_canon: Some(b"/srv/one".to_vec()),
        exists: false,
        canon: None,
        parent_canon: Some(parent.as_bytes().to_vec()),
        is_dir: false,
    }
}

fn ask(path: &str) -> FileQ {
    FileQ { path: path.to_string() }
}

fn put(path: &str, content: Option<&str>, coded: Option<&str>) -> FilePut {
    FilePut {
        path: path.to_string(),
        content: content.map(|s| s.to_string()),
        b64: coded.map(|s| s.to_string()),
    }
}

fn entry(path: &str, dir: bool, file: bool, len: u64) -> WalkEntry {
    WalkEntry { path: path.as_bytes().to_vec(), meta: Ok(Meta { dir, file, len }) }
}

#[test]
fn grants_decide_who_uses_files() {
    let reader = server(true, false, false);
    assert_eq!(file_root(&reader, BOB, "b1", Need::Look, NOW).unwrap(), "/srv/one");
    let r = file_root(&reader, BOB, "b1", Need::Change, NOW);
    assert_eq!(refusal(r), says(403, "read only"));
    let writer = server(false, true, false);
    assert!(file_root(&writer, BOB, "b1", Need::Look, NOW).is_ok());
    assert!(file_root(&writer, BOB, "b1", Need::Change, NOW).is_ok());
    let typist = server(false, false, true);
    let r = file_root(&typist, BOB, "b1", Need::Look, NOW);
    assert_eq!(refusal(r), says(403, "no file access"));
    let r = file_root(&typist, BOB, "b1", Need::Change, NOW);
    assert_eq!(refusal(r), says(403, "read only"));
    let nobody = server(false, false, false);
    let r = file_root(&nobody, BOB, "b1", Need::Look, NOW);
    assert_eq!(refusal(r), says(403, "no access to this sandbox"));
    assert!(file_root(&nobody, ADA, "b1", Need::Change, NOW).is_ok());
}

#[test]
fn files_of_unknown_sandboxes_and_strangers() {
    let s = server(true, true, true);
    assert_eq!(refusal(file_root(&s, ADA, "b2", Need::Look, NOW)), says(404, "no such sandbox"));
    let r = file_root(&s, BOB, "b2", Need::Look, NOW);
    assert_eq!(refusal(r), says(403, "no access to this sandbox"));
    assert_eq!(refusal(file_root(&s, None, "b1", Need::Look, NOW)), says(401, "sign in"));
}

#[test]
fn destinations_below_a_root() {
    assert_eq!(destination("/srv/one", "a/b.txt").unwrap(), "/srv/one/a/b.txt");
    assert_eq!(destination("/srv/one", "//a").unwrap(), "/srv/one/a");
    assert_eq!(destination("/srv/one", "").unwrap(), "/srv/one");
    assert_eq!(destination("/srv/one", "/").unwrap(), "/srv/one");
    assert_eq!(destination("/", "a").unwrap(), "/a");
    assert_eq!(destination("/srv/one", "a..b/...").unwrap(), "/srv/one/a..b/...");
    for rel in ["..", "../x", "a/../b", "a/..", "a\\..\\b", "..\\x"] {
        assert_eq!(complaint(destination("/srv/one", rel)), "path escapes the sandbox");
    }
}

#[test]
fn named_paths_stay_below_the_root() {
    let d = join_rel("/srv/one", "/a/b", &plain("/srv/one/a/b", false)).unwrap();
    assert_eq!(d, "/srv/one/a/b");
    // A link that leads out of the root.
    let r = join_rel("/srv/one", "link", &plain("/etc/passwd", false));
    assert_eq!(complaint(r), "path escapes the sandbox");
    // A name that only looks like the root.
    let r = join_rel("/srv/one", "x", &plain("/srv/onerous/x", false));
    assert_eq!(complaint(r), "path escapes the sandbox");
    // A new file in a directory that a link moves out of the root.
    let r = join_rel("/srv/one", "link/new", &fresh("/etc"));
    assert_eq!(complaint(r), "path escapes the sandbox");
    assert!(join_rel("/srv/one", "sub/new", &fresh("/srv/one/sub")).is_ok());
}

#[test]
fn containment_falls_back_to_the_plain_path() {
    let unknown = Lookup {
        root_canon: None,
        exists: false,
        canon: None,
        parent_canon: None,
        is_dir: false,
    };
    assert!(contained(b"/srv/one", b"/srv/one/a", &unknown));
    assert!(!contained(b"/srv/one", b"/srv/two/a", &unknown));
    assert!(!contained(b"/srv/one", b"/", &unknown));
    assert!(contained(b"", b"x", &unknown));
}

#[test]
fn files_that_may_be_read() {
    assert_eq!(
        read_file("/srv/one", "a", &plain("/srv/one/a", false)).unwrap(),
        "/srv/one/a"
    );
    let r = read_file("/srv/one", "a", &plain("/srv/one/a", true));
    assert_eq!(complaint(r), "is a directory");
    let q = ask("a");
    assert_eq!(get_target("/srv/one", &q).unwrap(), "/srv/one/a");
    assert_eq!(get_file("/srv/one", &q, &plain("/srv/one/a", false)).unwrap(), "/srv/one/a");
    let r = get_file("/srv/one", &q, &plain("/srv/one/a", true));
    assert_eq!(refusal(r), says(404, "is a directory"));
    let r = get_target("/srv/one", &ask("../a"));
    assert_eq!(refusal(r), says(404, "path escapes the sandbox"));
    assert_eq!(get_reply(Ok(vec![1, 2])).unwrap(), vec![1, 2]);
    assert_eq!(refusal(get_reply(Err("No such file".to_string()))), says(404, "No such file"));
}

#[test]
fn base64_contents_arrive() {
    let bytes = vec![0u8, 1, 250, 251, 252];
    let coded = b64(&bytes);
    assert_eq!(put_bytes(&put("a", Some("text"), Some(&coded))).unwrap(), bytes);
    assert_eq!(put_bytes(&put("a", Some("né"), None)).unwrap(), "né".as_bytes());
    assert_eq!(put_bytes(&put("a", None, None)).unwrap(), Vec::<u8>::new());
    let (status, text) = refusal(put_bytes(&put("a", None, Some("*"))));
    assert_eq!(status, 400);
    assert!(!text.is_empty());
    assert_ne!(text, "*");
}

#[test]
fn files_that_may_be_written() {
    let plan = write_file("/srv/one", "sub/a", b"hi", &fresh("/srv/one/sub")).unwrap();
    assert_eq!(plan.dest, "/srv/one/sub/a");
    assert_eq!(plan.parent, Some(b"/srv/one/sub".to_vec()));
    let body = put("sub/a", Some("hi"), None);
    assert_eq!(put_target("/srv/one", &body, b"hi").unwrap(), "/srv/one/sub/a");
    assert!(put_file("/srv/one", &body, b"hi", &fresh("/srv/one/sub")).is_ok());
    let r = put_file("/srv/one", &body, b"hi", &fresh("/tmp"));
    assert_eq!(refusal(r), says(400, "path escapes the sandbox"));
}

#[test]
fn large_files_are_not_written() {
    assert_eq!(MAX_FILE, 12 * 1024 * 1024);
    let most = vec![0u8; MAX_FILE];
    assert!(write_file("/srv/one", "a", &most, &fresh("/srv/one")).is_ok());
    let more = vec![0u8; MAX_FILE + 1];
    let r = write_file("/srv/one", "../a", &more, &fresh("/srv/one"));
    assert_eq!(complaint(r), "file too large");
    let r = put_target("/srv/one", &put("../a", None, None), &more);
    assert_eq!(refusal(r), says(400, "file too large"));
    let r = put_target("/srv/one", &put("../a", None, None), &most);
    assert_eq!(refusal(r), says(400, "path escapes the sandbox"));
}

#[test]
fn things_that_may_be_removed() {
    let r = remove_path("/srv/one", "a", &plain("/srv/one/a", false)).unwrap();
    assert!(matches!(r, Removal::File(d) if d == "/srv/one/a"));
    let r = remove_path("/srv/one", "a", &plain("/srv/one/a", true)).unwrap();
    assert!(matches!(r, Removal::Directory(d) if d == "/srv/one/a"));
    for rel in ["", "/", "./", "//."] {
        let r = remove_path("/srv/one", rel, &plain("/srv/one", true));
        assert_eq!(complaint(r), "refused");
    }
    assert_eq!(del_target("/srv/one", &ask("a")).unwrap(), "/srv/one/a");
    let r = del_file("/srv/one", &ask("/"), &plain("/srv/one", true));
    assert_eq!(refusal(r), says(400, "refused"));
    let r = del_target("/srv/one", &ask(".."));
    assert_eq!(refusal(r), says(400, "path escapes the sandbox"));
    assert!(del_file("/srv/one", &ask("a"), &plain("/srv/one/a", false)).is_ok());
}

#[test]
fn outcomes_of_changes_are_answered() {
    assert_eq!(change_reply(Ok(())).unwrap(), 204);
    assert_eq!(refusal(change_reply(Err("disk full".to_string()))), says(400, "disk full"));
}

#[test]
fn listings_are_presentable_and_in_order() {
    let walk = vec![
        entry("/srv/one", true, false, 0),
        entry("/srv/one/zeta", false, true, 7),
        entry("/srv/one/.git", true, false, 0),
        entry("/srv/one/.git/config", false, true, 3),
        entry("/srv/one/sub", true, false, 4096),
        entry("/srv/one/sub/.git", false, true, 1),
        entry("/srv/one/sub/back\\slash", false, true, 2),
        entry("/srv/one/.gitignore", false, true, 5),
        entry("/srv/one/link", false, false, 9),
    ];
    let v = list_tree(b"/srv/one", &walk).unwrap();
    let shown: Vec<(&str, bool, u64)> = v.iter().map(|e| (e.path.as_str(), e.dir, e.size)).collect();
    assert_eq!(
        shown,
        vec![
            (".gitignore", false, 5),
            ("link", false, 0),
            ("sub", true, 0),
            ("sub/back/slash", false, 2),
            ("zeta", false, 7),
        ]
    );
    assert_eq!(tree("/srv/one", Ok(()), &walk).unwrap().len(), 5);
}

#[test]
fn names_that_are_not_text_are_shown_as_well_as_possible() {
    let walk = vec![WalkEntry {
        path: b"/srv/one/a\xff".to_vec(),
        meta: Ok(Meta { dir: false, file: true, len: 1 }),
    }];
    let v = list_tree(b"/srv/one", &walk).unwrap();
    assert_eq!(v[0].path, "a\u{fffd}");
}

#[test]
fn listings_that_fail() {
    let r = tree("/srv/one", Err("Permission denied".to_string()), &vec![]);
    assert_eq!(refusal(r), says(400, "Permission denied"));
    let broken = WalkEntry { path: b"/srv/one/x".to_vec(), meta: Err("gone".to_string()) };
    let r = tree("/srv/one", Ok(()), &vec![broken]);
    assert_eq!(refusal(r), says(400, "gone"));
    let hidden = WalkEntry { path: b"/srv/one/.git/x".to_vec(), meta: Err("gone".to_string()) };
    assert!(tree("/srv/one", Ok(()), &vec![hidden]).unwrap().is_empty());
    let astray = entry("/srv/two/x", false, true, 1);
    assert_eq!(complaint(list_tree(b"/srv/one", &vec![astray])), "prefix not found");
}

#[test]
fn same_name_same_file() {
    let plan = write_file("/srv/one", "//sub/a", b"hi", &fresh("/srv/one/sub")).unwrap();
    let seen = plain("/srv/one/sub/a", false);
    assert_eq!(read_file("/srv/one", "//sub/a", &seen).unwrap(), plan.dest);
    let gone = remove_path("/srv/one", "//sub/a", &seen).unwrap();
    assert!(matches!(gone, Removal::File(d) if d == plan.dest));
}

#[test]
fn leading_slashes_change_nothing() {
    let seen = plain("/srv/one/a", false);
    for rel in ["a", "/a", "///a"] {
        assert_eq!(join_rel("/srv/one", rel, &seen).unwrap(), "/srv/one/a");
    }
    for rel in ["../a", "/../a", "//../a"] {
        assert!(join_rel("/srv/one", rel, &seen).is_err());
    }
}

#[test]
fn written_files_are_read_back() {
    for text in ["", "short", "rather longer than before"] {
        let body = put("new/dir/a", Some(text), None);
        let bytes = put_bytes(&body).unwrap();
        let plan = put_file("/srv/one", &body, &bytes, &fresh("/srv/one/new/dir")).unwrap();
        let seen = plain("/srv/one/new/dir/a", false);
        let path = get_file("/srv/one", &ask("new/dir/a"), &seen).unwrap();
        assert_eq!(path, plan.dest);
        assert_eq!(get_reply(Ok(bytes)).unwrap(), text.as_bytes());
    }
    let seen = plain("/srv/one/new/dir", true);
    let r = get_file("/srv/one", &ask("new/dir"), &seen);
    assert_eq!(refusal(r), says(404, "is a directory"));
}
