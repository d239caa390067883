use works_server::config::{
    bootstrap_admin, bootstrap_admin_with, bootstrap_desk_path, bootstrap_desk_to_make,
    bootstrap_desk_with, bootstrap_due, bootstrap_finish, bootstrap_finish_with, cors_origins,
    data_dir, open_url, ui_origin,
};
use works_server::db::Db;
use works_server::paths::{
    components_of, file_name_of, is_absolute, is_rooted, is_same_path, join, parent_of, path_starts_with,
    strip_prefix,
};
use works_server::secrets::verify_password;
use works_server::text::{
    after_prefix, byte_len, has_piece, reading, replaced, same, split, trimmed, without_leading,
    without_trailing,
};
use works_server::ui::{
    error_page, fallback, relay_failure, relay_headers, relay_status, Fallback, Header,
};

const NOW: i64 = 1_700_000_000;

fn bytes(s: &str) -> Option<Vec<u8>> {
    Some(s.as_bytes().to_vec())
}

#[test]
fn data_lie_where_they_should() {
    let at = |personal, said, home, profile| {
        String::from_utf8(data_dir(personal, said, home, profile)).unwrap()
    };
    assert_eq!(at(true, bytes("/d"), bytes("/home/a"), None), "/d");
    assert_eq!(at(true, None, bytes("/home/a"), bytes("C:")), "/home/a/.local/share/works");
    assert_eq!(at(true, None, None, bytes("/p/")), "/p/AppData/Local/Works");
    assert_eq!(at(true, None, None, None), "/var/lib/works");
    assert_eq!(at(false, None, bytes("/home/a"), None), "/var/lib/works");
}

#[test]
fn first_administrator_is_created_when_due() {
    let mut db = Db::new();
    let name = || Some("ada".to_string());
    let word = || Some("pw".to_string());
    assert_eq!(bootstrap_due(&db, name(), None), None);
    assert_eq!(bootstrap_due(&db, None, word()), None);
    let due = bootstrap_due(&db, name(), word()).unwrap();
    assert_eq!(due, ("ada".to_string(), "pw".to_string()));
    let id = bootstrap_admin(&mut db, &due.0, &due.1, NOW).unwrap();
    let (user, hash) = db.user_by_username("ada").unwrap();
    assert_eq!((user.id.as_str(), user.role.as_str()), (id.as_str(), "admin"));
    assert_eq!(user.display_name, "ada");
    assert!(verify_password("pw", &hash));
    assert_eq!(bootstrap_due(&db, name(), word()), None);
}

#[test]
fn first_administrator_that_cannot_be_created() {
    let mut db = Db::new();
    let r = bootstrap_admin_with(&mut db, "ada", Err("bad salt".to_string()), "u".to_string(), NOW);
    assert_eq!(r, Err("bad salt".to_string()));
    let hash = Ok("h".to_string());
    let r = bootstrap_admin_with(&mut db, "ada", hash, "u".to_string(), NOW);
    assert_eq!(r, Ok("u".to_string()));
    let hash = Ok("h".to_string());
    let r = bootstrap_admin_with(&mut db, "ada", hash, "v".to_string(), NOW);
    assert_eq!(r, Err("UNIQUE constraint failed: users.username".to_string()));
}

#[test]
fn first_administrator_has_a_desk() {
    let mut db = Db::new();
    db.insert_user("u", "ada", "ada", "h", "admin", NOW).unwrap();
    assert_eq!(bootstrap_desk_path(b"/d"), b"/d/desk".to_vec());
    let r = bootstrap_desk_with(
        &mut db,
        b"/d",
        "u",
        Err("no room".to_string()),
        "b".to_string(),
        NOW,
    );
    assert_eq!(r, Err("no room".to_string()));
    let r = bootstrap_desk_with(&mut db, b"/d", "u", Ok(()), "b".to_string(), NOW);
    assert_eq!(r, Ok(()));
    assert_eq!(db.sandbox("b").unwrap().path, "/d/desk");
    assert!(db.grant("u", "b").unwrap().can_admin);
    let r = bootstrap_desk_with(&mut db, b"/d", "u", Ok(()), "b".to_string(), NOW);
    assert_eq!(r, Err("UNIQUE constraint failed: sandboxes.id".to_string()));
    let r = bootstrap_desk_with(&mut db, b"/d\xff", "v", Ok(()), "c".to_string(), NOW);
    assert_eq!(r, Err("FOREIGN KEY constraint failed".to_string()));
    assert_eq!(db.sandbox("c").unwrap().path, "/d\u{fffd}/desk");
}

#[test]
fn bootstrap_is_completed_on_personal_servers() {
    let first = || Ok("u".to_string());
    let failed = || Err("bad salt".to_string());
    assert_eq!(bootstrap_desk_to_make(b"/d", true, &first()), bytes("/d/desk"));
    assert_eq!(bootstrap_desk_to_make(b"/d", false, &first()), None);
    assert_eq!(bootstrap_desk_to_make(b"/d", true, &failed()), None);
    let mut db = Db::new();
    db.insert_user("u", "ada", "ada", "h", "admin", NOW).unwrap();
    let r = bootstrap_finish(&mut db, b"/d", true, failed(), Ok(()), NOW);
    assert_eq!(r, Err("bad salt".to_string()));
    assert_eq!(bootstrap_finish(&mut db, b"/d", false, first(), Ok(()), NOW), Ok(()));
    assert!(db.sandboxes().is_empty());
    let made = Err("no room".to_string());
    let r = bootstrap_finish(&mut db, b"/d", true, first(), made, NOW);
    assert_eq!(r, Err("no room".to_string()));
    let id = "b".to_string();
    assert_eq!(bootstrap_finish_with(&mut db, b"/d", true, first(), Ok(()), id, NOW), Ok(()));
    assert!(db.grant("u", "b").unwrap().can_shell);
    assert_eq!(bootstrap_finish(&mut db, b"/d", true, first(), Ok(()), NOW), Ok(()));
    assert_eq!(db.sandboxes().len(), 2);
}

#[test]
fn user_interface_is_served_unless_it_is_switched_off() {
    assert_eq!(ui_origin(false, "https://ui.example//"), Some("https://ui.example".to_string()));
    assert_eq!(ui_origin(true, "https://ui.example"), None);
    assert_eq!(ui_origin(false, ""), None);
    assert_eq!(ui_origin(false, "/"), Some(String::new()));
}

#[test]
fn origins_that_may_use_the_server() {
    assert_eq!(cors_origins(true, "https://x"), None);
    let v = cors_origins(false, " https://x , ,https://y").unwrap();
    assert_eq!(v.len(), 9);
    assert_eq!(v[0], "https://works.scalattice.com");
    assert_eq!(v[6], "http://tauri.localhost");
    assert_eq!(&v[7..], ["https://x", "https://y"]);
    assert_eq!(cors_origins(false, "").unwrap().len(), 7);
}

#[test]
fn address_to_open() {
    assert_eq!(open_url(true, "0.0.0.0:8787", "8787"), "http://127.0.0.1:8787");
    assert_eq!(open_url(false, "10.0.0.1:80", "80"), "http://10.0.0.1:80");
}

#[test]
fn other_requests_are_passed_on() {
    let o = Some("https://ui.example");
    assert!(matches!(
        fallback(o, "GET", Some("/a?b=c")),
        Fallback::Fetch(u) if u == "https://ui.example/a?b=c"
    ));
    assert!(matches!(fallback(o, "HEAD", None), Fallback::Fetch(u) if u == "https://ui.example/"));
    assert!(matches!(
        fallback(o, "POST", Some("/")),
        Fallback::Answer(r) if r.status == 405 && r.text == "GET"
    ));
    assert!(matches!(
        fallback(None, "GET", Some("/")),
        Fallback::Answer(r) if r.status == 404 && r.text == "API only"
    ));
}

#[test]
fn only_skipped_headers_are_lost() {
    let h = |name: &str| Header { name: name.to_string(), value: vec![1] };
    let kept = relay_headers(vec![h("te"), h("etag"), h("content-length"), h("set-cookie"), h("host")]);
    let names: Vec<&str> = kept.iter().map(|h| h.name.as_str()).collect();
    assert_eq!(names, vec!["etag", "set-cookie"]);
    assert_eq!(kept[0].value, vec![1]);
    for name in [
        "connection",
        "keep-alive",
        "proxy-authenticate",
        "proxy-authorization",
        "trailers",
        "transfer-encoding",
        "content-encoding",
    ] {
        assert!(relay_headers(vec![h(name)]).is_empty());
    }
}

#[test]
fn answers_that_cannot_be_passed_on() {
    assert_eq!(relay_status(304), 304);
    assert_eq!(relay_status(99), 502);
    assert_eq!(relay_status(1000), 502);
    let r = relay_failure();
    assert_eq!((r.status, r.text.as_str()), (502, "ui proxy"));
    let page = error_page("https://ui.example", "timed out");
    assert!(page.starts_with("<!doctype html><meta charset=utf-8><title>Works</title><body style='"));
    assert!(page.contains("could not load the UI from https://ui.example.</p><p>timed out</p><p>API"));
    assert!(page.ends_with("/.well-known/works.json</a>.</p>"));
}

#[test]
fn paths_are_compared_by_their_components() {
    let c = |p: &str| {
        components_of(p.as_bytes())
            .into_iter()
            .map(|b| String::from_utf8(b).unwrap())
            .collect::<Vec<String>>()
    };
    assert_eq!(c("/a//b/./c/"), vec!["/", "a", "b", "c"]);
    assert_eq!(c("./a/.."), vec![".", "a", ".."]);
    assert_eq!(c(""), Vec::<String>::new());
    assert!(is_rooted(b"/a"));
    assert!(!is_rooted(b"a"));
    assert!(is_same_path(b"/a/b/", b"//a/./b"));
    assert!(!is_same_path(b"./a", b"a"));
    assert!(path_starts_with(b"/a/b", b"/a"));
    assert!(!path_starts_with(b"/ab", b"/a"));
}

#[test]
fn paths_are_taken_apart_and_joined() {
    assert_eq!(parent_of(b"/a/b"), bytes("/a"));
    assert_eq!(parent_of(b"/a"), bytes("/"));
    assert_eq!(parent_of(b"a"), bytes(""));
    assert_eq!(parent_of(b"/"), None);
    assert_eq!(file_name_of(b"/a/b/"), bytes("b"));
    assert_eq!(file_name_of(b"/a/.."), None);
    assert_eq!(join(b"/a", b"b"), b"/a/b".to_vec());
    assert_eq!(join(b"/a/", b"b"), b"/a/b".to_vec());
    assert_eq!(join(b"/a", b"/b"), b"/b".to_vec());
    assert_eq!(strip_prefix(b"/a/b//c", b"/a"), bytes("b//c"));
    assert_eq!(strip_prefix(b"/a", b"/a/"), bytes(""));
    assert_eq!(strip_prefix(b"/b", b"/a"), None);
}

#[test]
fn absolute_paths_of_each_kind_of_machine() {
    assert!(is_absolute(b"/lab", false));
    assert!(!is_absolute(b"lab", false));
    assert!(!is_absolute(b"C:\\lab", false));
    for p in ["C:\\lab", "c:/", "\\\\server\\share", "//server/share/x", "\\\\?\\C:", "\\\\.\\COM42"] {
        assert!(is_absolute(p.as_bytes(), true));
    }
    for p in ["", "C:", "c:temp", "\\temp", "/lab", "1:\\x", "\\\\server", "\\\\server\\", "\\\\\\x\\y"] {
        assert!(!is_absolute(p.as_bytes(), true));
    }
}

#[test]
fn bytes_are_read_as_text() {
    assert_eq!(reading("né/a".as_bytes()), "né/a");
    assert_eq!(reading(b""), "");
    assert_eq!(reading(b"a\xffb"), "a\u{fffd}b");
}

#[test]
fn texts_are_cut_and_compared() {
    assert_eq!(trimmed(" \u{3000}a b\u{a0}\n"), "a b");
    assert_eq!(trimmed(" \t "), "");
    assert_eq!(without_leading("//a/", '/'), "a/");
    assert_eq!(without_trailing("//a//", '/'), "//a");
    assert_eq!(after_prefix("Bearer x", "Bearer "), Some("x".to_string()));
    assert_eq!(after_prefix("Bear", "Bearer "), None);
    assert_eq!(split("a,b,,", ',', ','), vec!["a", "b", "", ""]);
    assert!(has_piece("a/b\\..", '/', '\\', ".."));
    assert!(!has_piece("a/b..", '/', '\\', ".."));
    assert_eq!(replaced("a\\b\\", '\\', '/'), "a/b/");
    assert!(same("é", "é"));
    assert!(!same("é", "e"));
    assert_eq!(byte_len("é"), 2);
}
