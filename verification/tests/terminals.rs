use works_server::api::AppState;
use works_server::db::{Db, Grant};
use works_server::fsops::Lookup;
use works_server::pty::{
    b64, b64_decode, build_command, default_shell, has_bwrap, probed_paths, Host, PtyHub,
};
use works_server::reply::ApiError;
use works_server::term::{
    heed, read_message, term_root, term_session, term_target, term_ws, term_ws_with, Action,
    ClientMessage, Event, Phase, Running, ServerMessage, TermQ,
};

const NOW: i64 = 1_700_000_000;

fn server(shell: bool) -> AppState {
    let mut db = Db::new();
    db.insert_user("user_b", "bob", "Bob", "y", "member", NOW).unwrap();
    db.put_session("kb", "user_b", 100, NOW).unwrap();
    db.insert_sandbox("b1", "One", "/srv/one", "", NOW).unwrap();
    let g = Grant {
        user_id: "user_b".to_string(),
        sandbox_id: "b1".to_string(),
        can_read: true,
        can_write: true,
        can_shell: shell,
        can_admin: false,
    };
    db.put_grant(&g).unwrap();
    AppState {
        db,
        pty: PtyHub::new(),
        data_dir: b"/srv/works".to_vec(),
        org_name: "Acme".to_string(),
        personal: false,
        windows: false,
        ui_origin: None,
    }
}

fn refusal<T>(r: Result<T, ApiError>) -> (u16, String) {
    match r {
        Ok(_) => panic!("not refused"),
        Err(e) => (e.status, e.error),
    }
}

fn says(status: u16, text: &str) -> (u16, String) {
    (status, text.to_string())
}

fn ask(token: Option<&str>, cwd: Option<&str>) -> TermQ {
    TermQ {
        token: token.map(|s| s.to_string()),
        cols: None,
        rows: None,
        cwd: cwd.map(|s| s.to_string()),
    }
}

fn plain(path: &str) -> Lookup {
    Lookup {
        root_canon: Some(b"/srv/one".to_vec()),
        exists: true,
        canon: Some(path.as_bytes().to_vec()),
        parent_canon: None,
        is_dir: true,
    }
}

fn host(present: &[&str]) -> Host {
    Host {
        sandboxing: true,
        windows: false,
        shell: Some("/bin/zsh".to_string()),
        present: present.iter().map(|s| s.to_string()).collect(),
    }
}

fn message(kind: &str) -> ClientMessage {
    ClientMessage { kind: Some(kind.to_string()), data: None, b64: None, cols: None, rows: None }
}

#[test]
fn base64_round_trip() {
    assert_eq!(b64(b""), "");
    assert_eq!(b64(b"f"), "Zg==");
    assert_eq!(b64(b"fo"), "Zm8=");
    assert_eq!(b64(b"foobar"), "Zm9vYmFy");
    assert_eq!(b64(&[255, 239]), "/+8=");
    for n in 0..40u8 {
        let bytes: Vec<u8> = (0..n).map(|i| i.wrapping_mul(37)).collect();
        assert_eq!(b64_decode(&b64(&bytes)).unwrap(), bytes);
    }
    for bad in ["Zg", "Zg=", "Zh==", "Z!==", "Zg==\n"] {
        assert!(b64_decode(bad).is_err());
    }
}

#[test]
fn either_token_will_do() {
    let s = server(true);
    let h: Option<&[u8]> = Some(b"Bearer kb");
    assert_eq!(term_root(&s, h, "b1", &ask(None, None), NOW).unwrap(), "/srv/one");
    assert_eq!(term_root(&s, None, "b1", &ask(Some("kb"), None), NOW).unwrap(), "/srv/one");
    // The token of the request comes first, right or wrong.
    let r = term_root(&s, h, "b1", &ask(Some("wrong"), None), NOW);
    assert_eq!(refusal(r), says(401, "sign in"));
    let r = term_root(&s, None, "b1", &ask(None, None), NOW);
    assert_eq!(refusal(r), says(401, "sign in"));
}

#[test]
fn shells_need_leave() {
    let q = ask(Some("kb"), None);
    let r = term_root(&server(false), None, "b1", &q, NOW);
    assert_eq!(refusal(r), says(403, "no shell on this sandbox"));
    let r = term_root(&server(true), None, "b2", &q, NOW);
    assert_eq!(refusal(r), says(403, "no access to this sandbox"));
    let mut s = server(true);
    s.db.insert_user("user_a", "ada", "Ada", "x", "admin", NOW).unwrap();
    s.db.put_session("ka", "user_a", 100, NOW).unwrap();
    let r = term_root(&s, None, "b2", &ask(Some("ka"), None), NOW);
    assert_eq!(refusal(r), says(404, "no such sandbox"));
}

#[test]
fn terminals_start_where_they_are_asked_to() {
    let q = ask(None, Some("sub"));
    assert_eq!(term_target("/srv/one", &q).unwrap(), "/srv/one/sub");
    let t = term_ws_with("/srv/one", &q, &plain("/srv/one/sub"), "t1".to_string()).unwrap();
    assert_eq!((t.sid.as_str(), t.root.as_str(), t.cwd.as_str()), ("t1", "/srv/one", "/srv/one/sub"));
    assert_eq!((t.cols, t.rows), (80, 24));
    let q = TermQ { cols: Some(132), rows: Some(50), ..ask(None, Some("")) };
    assert_eq!(term_target("/srv/one", &q).unwrap(), "/srv/one");
    let t = term_ws("/srv/one", &q, &plain("/elsewhere")).unwrap();
    assert!(t.sid.starts_with("term_"));
    assert_eq!((t.cwd.as_str(), t.cols, t.rows), ("/srv/one", 132, 50));
    let q = ask(None, Some("a/../.."));
    let e = says(400, "path escapes the sandbox");
    assert_eq!(refusal(term_target("/srv/one", &q)), e);
    let q = ask(None, Some("link"));
    assert_eq!(refusal(term_ws("/srv/one", &q, &plain("/etc"))), e);
}

#[test]
fn wrapped_shells_live_in_the_sandbox() {
    let h = host(&["/usr/local/bin/bwrap", "/usr", "/etc"]);
    assert!(has_bwrap(&h));
    let (name, cmd) = build_command("/srv/one/sub/x", "/srv/one", &h);
    assert_eq!(name, "bwrap:/bin/zsh");
    assert_eq!(cmd.program, "bwrap");
    assert_eq!(
        cmd.args,
        vec![
            "--die-with-parent",
            "--unshare-pid",
            "--dev",
            "/dev",
            "--proc",
            "/proc",
            "--tmpfs",
            "/tmp",
            "--bind",
            "/srv/one",
            "/work",
            "--chdir",
            "/work/sub/x",
            "--ro-bind",
            "/usr",
            "/usr",
            "--ro-bind",
            "/etc",
            "/etc",
            "/bin/zsh",
        ]
    );
    assert_eq!(cmd.cwd, None);
    let (_, cmd) = build_command("/srv/one", "/srv/one", &h);
    assert_eq!(cmd.args[12], "/work");
}

#[test]
fn plain_shells_start_in_the_directory() {
    let (name, cmd) = build_command("/srv/one/sub", "/srv/one", &host(&["/usr"]));
    assert_eq!((name.as_str(), cmd.program.as_str()), ("/bin/zsh", "/bin/zsh"));
    assert_eq!(cmd.cwd, Some("/srv/one/sub".to_string()));
    let mac = Host { sandboxing: false, ..host(&["/usr/bin/bwrap"]) };
    assert_eq!(build_command("/a", "/a", &mac).0, "/bin/zsh");
    let bare = Host { shell: None, ..host(&[]) };
    assert_eq!(default_shell(&bare).0, "/bin/bash");
    let windows = Host { windows: true, sandboxing: false, ..host(&[]) };
    let (name, cmd) = default_shell(&windows);
    assert_eq!(name, "powershell.exe");
    assert_eq!(cmd.args, vec!["-NoLogo"]);
    assert_eq!(probed_paths().len(), 7);
}

#[test]
fn hub_keeps_track_of_terminals() {
    let mut hub = PtyHub::default();
    assert_eq!(hub.write("t1"), Err("no session".to_string()));
    assert_eq!(hub.opened("t1", 7), None);
    assert_eq!(hub.opened("t2", 8), None);
    assert_eq!(hub.write("t1"), Ok(7));
    assert_eq!(hub.resize("t2"), Ok(8));
    assert_eq!(hub.opened("t1", 9), Some(7));
    assert_eq!(hub.close("t1"), Some(9));
    assert_eq!(hub.close("t1"), None);
    assert_eq!(hub.resize("t1"), Err("no session".to_string()));
    assert_eq!(hub.write("t2"), Ok(8));
}

#[test]
fn terminals_open_inside() {
    let hub = PtyHub::new();
    let h = host(&[]);
    let plan = hub.open("/srv/one", "/srv/one/sub", 80, 24, &plain("/srv/one/sub"), &h).unwrap();
    assert_eq!(plan.shell, "/bin/zsh");
    assert_eq!(plan.cwd, "/srv/one/sub");
    assert_eq!((plan.cols, plan.rows), (80, 24));
    let r = hub.open("/srv/one", "/srv/one/link", 80, 24, &plain("/etc"), &h);
    assert_eq!(r.unwrap_err(), "cwd outside sandbox");
}

#[test]
fn messages_are_read() {
    let m = read_message(r#"{"type":"input","data":"ls\n","b64":false}"#);
    assert_eq!(m.kind.as_deref(), Some("input"));
    assert_eq!(m.data.as_deref(), Some("ls\n"));
    assert_eq!(m.b64, Some(false));
    let m = read_message(r#"{"type":"resize","cols":100,"rows":-3}"#);
    assert_eq!((m.cols, m.rows), (Some(100), None));
    let m = read_message(r#"{"type":7,"data":null,"b64":"yes","cols":1.5}"#);
    assert_eq!((m.kind, m.data, m.b64, m.cols), (None, None, None, None));
    for text in ["", "nonsense", "[1]", "\"input\"", "{\"type\":\"input\""] {
        assert_eq!(read_message(text).kind, None);
    }
}

#[test]
fn messages_are_heeded() {
    let m = ClientMessage { data: Some("né".to_string()), ..message("input") };
    assert!(matches!(heed(&m), (Phase::Running, Action::Write(b)) if b == "né".as_bytes()));
    let m = ClientMessage {
        data: Some("Zm9v".to_string()),
        b64: Some(true),
        ..message("input")
    };
    assert!(matches!(heed(&m), (Phase::Running, Action::Write(b)) if b == b"foo"));
    let m = ClientMessage { data: Some("*".to_string()), b64: Some(true), ..message("input") };
    assert!(matches!(heed(&m), (Phase::Running, Action::Write(b)) if b.is_empty()));
    assert!(matches!(heed(&message("input")), (Phase::Running, Action::Wait)));
    assert!(matches!(
        heed(&message("resize")),
        (Phase::Running, Action::Resize { cols: 80, rows: 24 })
    ));
    let m = ClientMessage { cols: Some(65_636), rows: Some(7), ..message("resize") };
    assert!(matches!(heed(&m), (Phase::Running, Action::Resize { cols: 100, rows: 7 })));
    assert!(matches!(heed(&message("close")), (Phase::Ended, Action::Close)));
    assert!(matches!(heed(&message("other")), (Phase::Running, Action::Wait)));
    let m = ClientMessage { kind: None, ..message("") };
    assert!(matches!(heed(&m), (Phase::Running, Action::Wait)));
}

#[test]
fn terminal_that_opens() {
    let opened = Event::Opened(Ok(Running {
        shell: "/bin/zsh".to_string(),
        cwd: "/srv/one".to_string(),
        os: "linux".to_string(),
    }));
    let (phase, action) = term_session(Phase::Opening, opened);
    assert_eq!(phase, Phase::Greeting);
    assert!(matches!(
        action,
        Action::Send(ServerMessage::Info { cwd, shell, os })
            if cwd == "/srv/one" && shell == "/bin/zsh" && os == "linux"
    ));
    let (phase, action) = term_session(phase, Event::Sent(true));
    assert_eq!(phase, Phase::Running);
    assert!(matches!(action, Action::Wait));
    let (phase, action) = term_session(phase, Event::Output(b"foo".to_vec()));
    assert!(matches!(action, Action::Send(ServerMessage::Output(s)) if s == "Zm9v"));
    let (phase, action) = term_session(phase, Event::Sent(true));
    assert!(matches!(action, Action::Wait));
    let (phase, action) = term_session(phase, Event::Binary(vec![3]));
    assert!(matches!(action, Action::Write(b) if b == vec![3]));
    let (phase, action) = term_session(phase, Event::Other);
    assert!(matches!(action, Action::Wait));
    let text = r#"{"type":"close"}"#.to_string();
    let (phase, action) = term_session(phase, Event::Text(text));
    assert_eq!(phase, Phase::Ended);
    assert!(matches!(action, Action::Close));
}

#[test]
fn terminal_ends_once() {
    let (phase, action) = term_session(Phase::Running, Event::Left);
    assert_eq!(phase, Phase::Ended);
    assert!(matches!(action, Action::Close));
    for event in [Event::Left, Event::Sent(false), Event::Text("{\"type\":\"close\"}".to_string())] {
        let (phase, action) = term_session(phase, event);
        assert_eq!(phase, Phase::Ended);
        assert!(matches!(action, Action::Wait));
    }
}

#[test]
fn terminal_that_cannot_open() {
    let failed = Event::Opened(Err("cwd outside sandbox".to_string()));
    let (phase, action) = term_session(Phase::Opening, failed);
    assert_eq!(phase, Phase::Failing);
    assert!(matches!(action, Action::Send(ServerMessage::Error(e)) if e == "cwd outside sandbox"));
    let (phase, action) = term_session(phase, Event::Sent(true));
    assert_eq!(phase, Phase::Ended);
    assert!(matches!(action, Action::Stop));
}

#[test]
fn terminal_whose_client_is_gone() {
    for phase in [Phase::Greeting, Phase::Running] {
        let (phase, action) = term_session(phase, Event::Sent(false));
        assert_eq!(phase, Phase::Ended);
        assert!(matches!(action, Action::Close));
    }
}
