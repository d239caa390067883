//! Terminals: who may open one, and how the client of one and its shell are connected.

use vstd::prelude::*;
use vstd::utf8::*;

use crate::api;
use crate::api::AppState;
use crate::files;
use crate::fsops;
use crate::fsops::Lookup;
use crate::pty;
use crate::reply;
use crate::reply::{ApiError, Refusal};
use crate::secrets;
use crate::tables;
use crate::tables::{SandboxV, Tables};
use crate::text;

verus! {

// ---------------------------------------------------------------------------
// Opening a terminal
// ---------------------------------------------------------------------------

/// A request for a terminal.
#[derive(Debug)]
pub struct TermQ {
    pub token: Option<String>,
    pub cols: Option<u16>,
    pub rows: Option<u16>,
    pub cwd: Option<String>,
}

/// What a terminal is opened with.
#[derive(Debug)]
pub struct TermStart {
    pub sid: String,
    pub root: String,
    pub cwd: String,
    pub cols: u16,
    pub rows: u16,
}

pub struct TermStartV {
    pub sid: Seq<char>,
    pub root: Seq<char>,
    pub cwd: Seq<char>,
    pub cols: u16,
    pub rows: u16,
}

impl View for TermStart {
    type V = TermStartV;

    open spec fn view(&self) -> TermStartV {
        TermStartV {
            sid: self.sid@,
            root: self.root@,
            cwd: self.cwd@,
            cols: self.cols,
            rows: self.rows,
        }
    }
}

/// The token that a request for a terminal carries: its own, else that of its header.
pub open spec fn term_token(q: TermQ, h: Option<Seq<u8>>) -> Option<Seq<char>> {
    match q.token {
        Some(k) => Some(k@),
        None => api::bearer_token(h),
    }
}

/// The sandbox that a terminal may be opened in, or the refusal.
pub open spec fn term_place(t: Tables, token: Option<Seq<char>>, id: Seq<char>, now: i64) -> Result<
    SandboxV,
    Refusal,
> {
    match api::token_owner(t, token, now) {
        Err(e) => Err(e),
        Ok(u) => match api::access(t, u, id) {
            Err(e) => Err(e),
            Ok(g) => if !g.can_shell {
                Err(reply::refusal(reply::FORBIDDEN, "no shell on this sandbox"))
            } else {
                match t.place(id) {
                    Some(s) => Ok(s),
                    None => Err(reply::refusal(reply::NOT_FOUND, "no such sandbox")),
                }
            },
        },
    }
}

/// The root of a sandbox that a terminal may be opened in.
pub fn term_root(state: &AppState, header: Option<&[u8]>, id: &str, q: &TermQ, now: i64) -> (r:
    Result<String, ApiError>)
    ensures
        reply::shown(r) == match term_place(
            state.db@,
            term_token(*q, api::header_view(header)),
            id@,
            now,
        ) {
            Ok(s) => Ok(s.path),
            Err(e) => Err(e),
        },
{
    let token = match &q.token {
        Some(k) => Some(k.clone()),
        None => api::bearer(header),
    };
    let user = api::owner(state, token, now)?;
    let g = api::grant_for(state, &user, id)?;
    if !g.can_shell {
        return Err(reply::err(reply::FORBIDDEN, "no shell on this sandbox"));
    }
    match state.db.sandbox(id) {
        Some(s) => Ok(s.path),
        None => Err(reply::err(reply::NOT_FOUND, "no such sandbox")),
    }
}

/// The directory that is asked for, if it is not the root.
pub open spec fn asked_cwd(q: TermQ) -> Option<Seq<char>> {
    match q.cwd {
        Some(c) if c@.len() > 0 => Some(c@),
        _ => None,
    }
}

/// The directory to look up before a terminal is opened.
pub fn term_target(root: &str, q: &TermQ) -> (r: Result<String, ApiError>)
    ensures
        reply::shown(r) == match asked_cwd(*q) {
            Some(rel) => files::blamed(reply::BAD_REQUEST, files::aimed(root@, rel)),
            None => Ok(root@),
        },
{
    match &q.cwd {
        Some(c) => {
            if c.as_str().is_empty() {
                Ok(root.to_string())
            } else {
                files::blame(reply::BAD_REQUEST, fsops::destination(root, c.as_str()))
            }
        },
        None => Ok(root.to_string()),
    }
}

/// What a terminal is opened with, given what the file system says of its directory and
/// the identifier of the terminal.
pub open spec fn started(root: Seq<char>, q: TermQ, seen: fsops::LookupV, sid: Seq<char>) -> Result<
    TermStartV,
    Refusal,
> {
    let cwd = match asked_cwd(q) {
        Some(rel) => files::blamed(reply::BAD_REQUEST, fsops::named(root, rel, seen)),
        None => Ok(root),
    };
    match cwd {
        Err(e) => Err(e),
        Ok(cwd) => Ok(
            TermStartV {
                sid,
                root,
                cwd,
                cols: match q.cols {
                    Some(n) => n,
                    None => 80,
                },
                rows: match q.rows {
                    Some(n) => n,
                    None => 24,
                },
            },
        ),
    }
}

/// What a terminal with the given identifier is opened with.
pub fn term_ws_with(root: &str, q: &TermQ, seen: &Lookup, sid: String) -> (r: Result<
    TermStart,
    ApiError,
>)
    ensures
        reply::shown(r) == started(root@, *q, seen@, sid@),
{
    let cwd = match &q.cwd {
        Some(c) => {
            if c.as_str().is_empty() {
                root.to_string()
            } else {
                files::blame(reply::BAD_REQUEST, fsops::join_rel(root, c.as_str(), seen))?
            }
        },
        None => root.to_string(),
    };
    let cols: u16 = match q.cols {
        Some(n) => n,
        None => 80,
    };
    let rows: u16 = match q.rows {
        Some(n) => n,
        None => 24,
    };
    Ok(TermStart { sid, root: root.to_string(), cwd, cols, rows })
}

/// What a new terminal is opened with.
pub fn term_ws(root: &str, q: &TermQ, seen: &Lookup) -> (r: Result<TermStart, ApiError>)
    ensures
        exists|sid: Seq<char>| #[trigger]
            secrets::is_id("term"@, sid) && reply::shown(r) == started(root@, *q, seen@, sid),
{
    let sid = secrets::new_id("term");
    term_ws_with(root, q, seen, sid)
}

// ---------------------------------------------------------------------------
// Messages of the client
// ---------------------------------------------------------------------------

/// The text in the member `key` of the JSON object that `text` is, if there is one.
pub uninterp spec fn json_text(text: Seq<char>, key: Seq<char>) -> Option<Seq<char>>;

/// The truth value in the member `key` of the JSON object that `text` is, if there is
/// one.
pub uninterp spec fn json_flag(text: Seq<char>, key: Seq<char>) -> Option<bool>;

/// The number in the member `key` of the JSON object that `text` is, if there is one
/// that is a non-negative integer of sixty-four bits.
pub uninterp spec fn json_number(text: Seq<char>, key: Seq<char>) -> Option<u64>;

/// `serde_json::from_str` parses the text, `Value::get` finds a member and
/// `Value::as_str` takes a text out of it. The result depends on the text and the key
/// alone; it is `None` where the text does not parse, is no object, has no such member,
/// or the member is no text.
#[verifier::external_body]
fn member_text(text: &str, key: &str) -> (r: Option<String>)
    ensures
        tables::opt(r) == json_text(text@, key@),
{
    let v = serde_json::from_str::<serde_json::Value>(text).ok()?;
    v.get(key).and_then(|x| x.as_str()).map(|s| s.to_string())
}

/// `serde_json::from_str` parses the text, `Value::get` finds a member and
/// `Value::as_bool` takes a truth value out of it. The result depends on the text and
/// the key alone; it is `None` where there is no such value.
#[verifier::external_body]
fn member_flag(text: &str, key: &str) -> (r: Option<bool>)
    ensures
        r == json_flag(text@, key@),
{
    let v = serde_json::from_str::<serde_json::Value>(text).ok()?;
    v.get(key).and_then(|x| x.as_bool())
}

/// `serde_json::from_str` parses the text, `Value::get` finds a member and
/// `Value::as_u64` takes a number out of it. The result depends on the text and the key
/// alone; it is `None` where there is no such number.
#[verifier::external_body]
fn member_number(text: &str, key: &str) -> (r: Option<u64>)
    ensures
        r == json_number(text@, key@),
{
    let v = serde_json::from_str::<serde_json::Value>(text).ok()?;
    v.get(key).and_then(|x| x.as_u64())
}

/// What matters in a message of the client, as far as its members are of the right kind.
#[derive(Debug)]
pub struct ClientMessage {
    pub kind: Option<String>,
    pub data: Option<String>,
    pub b64: Option<bool>,
    pub cols: Option<u64>,
    pub rows: Option<u64>,
}

pub struct ClientMessageV {
    pub kind: Option<Seq<char>>,
    pub data: Option<Seq<char>>,
    pub b64: Option<bool>,
    pub cols: Option<u64>,
    pub rows: Option<u64>,
}

impl View for ClientMessage {
    type V = ClientMessageV;

    open spec fn view(&self) -> ClientMessageV {
        ClientMessageV {
            kind: tables::opt(self.kind),
            data: tables::opt(self.data),
            b64: self.b64,
            cols: self.cols,
            rows: self.rows,
        }
    }
}

/// What matters in a text from the client.
pub open spec fn understood(text: Seq<char>) -> ClientMessageV {
    ClientMessageV {
        kind: json_text(text, "type"@),
        data: json_text(text, "data"@),
        b64: json_flag(text, "b64"@),
        cols: json_number(text, "cols"@),
        rows: json_number(text, "rows"@),
    }
}

/// Reads a text from the client.
pub fn read_message(text: &str) -> (r: ClientMessage)
    ensures
        r@ == understood(text@),
{
    ClientMessage {
        kind: member_text(text, "type"),
        data: member_text(text, "data"),
        b64: member_flag(text, "b64"),
        cols: member_number(text, "cols"),
        rows: member_number(text, "rows"),
    }
}

// ---------------------------------------------------------------------------
// The course of a terminal
// ---------------------------------------------------------------------------

/// A message to the client.
#[derive(Debug)]
pub enum ServerMessage {
    /// The terminal could not be opened.
    Error(String),
    /// The terminal runs this shell in this directory, on this operating system.
    Info { cwd: String, shell: String, os: String },
    /// What the shell wrote, in base64.
    Output(String),
}

pub enum ServerMessageV {
    Error(Seq<char>),
    Info { cwd: Seq<char>, shell: Seq<char>, os: Seq<char> },
    Output(Seq<char>),
}

impl View for ServerMessage {
    type V = ServerMessageV;

    open spec fn view(&self) -> ServerMessageV {
        match *self {
            ServerMessage::Error(e) => ServerMessageV::Error(e@),
            ServerMessage::Info { cwd, shell, os } => ServerMessageV::Info {
                cwd: cwd@,
                shell: shell@,
                os: os@,
            },
            ServerMessage::Output(s) => ServerMessageV::Output(s@),
        }
    }
}

/// How far a terminal has come.
#[derive(Clone, Copy, Debug, PartialEq, Eq, Structural)]
pub enum Phase {
    /// It is being opened.
    Opening,
    /// It could not be opened, and the client is being told.
    Failing,
    /// It is open, and the client is being told.
    Greeting,
    /// The client and the shell are connected.
    Running,
    /// It has ended.
    Ended,
}

/// A terminal that was opened: its shell, its directory, and the operating system that it
/// runs on.
#[derive(Debug)]
pub struct Running {
    pub shell: String,
    pub cwd: String,
    pub os: String,
}

pub struct RunningV {
    pub shell: Seq<char>,
    pub cwd: Seq<char>,
    pub os: Seq<char>,
}

impl View for Running {
    type V = RunningV;

    open spec fn view(&self) -> RunningV {
        RunningV { shell: self.shell@, cwd: self.cwd@, os: self.os@ }
    }
}

/// Something that happened to a terminal.
#[derive(Debug)]
pub enum Event {
    /// It was opened, or could not be.
    Opened(Result<Running, String>),
    /// A message to the client was sent, or could not be.
    Sent(bool),
    /// The shell wrote this.
    Output(Vec<u8>),
    /// The client sent this text.
    Text(String),
    /// The client sent these bytes.
    Binary(Vec<u8>),
    /// The client left.
    Left,
    /// Anything else.
    Other,
}

pub enum EventV {
    Opened(Result<RunningV, Seq<char>>),
    Sent(bool),
    Output(Seq<u8>),
    Text(Seq<char>),
    Binary(Seq<u8>),
    Left,
    Other,
}

impl View for Event {
    type V = EventV;

    open spec fn view(&self) -> EventV {
        match *self {
            Event::Opened(r) => EventV::Opened(reply::told(r)),
            Event::Sent(b) => EventV::Sent(b),
            Event::Output(b) => EventV::Output(b@),
            Event::Text(s) => EventV::Text(s@),
            Event::Binary(b) => EventV::Binary(b@),
            Event::Left => EventV::Left,
            Event::Other => EventV::Other,
        }
    }
}

/// What to do next for a terminal.
#[derive(Debug)]
pub enum Action {
    /// Send a message to the client.
    Send(ServerMessage),
    /// Write bytes to the shell.
    Write(Vec<u8>),
    /// Tell the shell its size.
    Resize { cols: u16, rows: u16 },
    /// Wait for what happens next.
    Wait,
    /// End the shell and stop.
    Close,
    /// Stop; there is no shell.
    Stop,
}

pub enum ActionV {
    Send(ServerMessageV),
    Write(Seq<u8>),
    Resize { cols: u16, rows: u16 },
    Wait,
    Close,
    Stop,
}

impl View for Action {
    type V = ActionV;

    open spec fn view(&self) -> ActionV {
        match *self {
            Action::Send(m) => ActionV::Send(m@),
            Action::Write(b) => ActionV::Write(b@),
            Action::Resize { cols, rows } => ActionV::Resize { cols, rows },
            Action::Wait => ActionV::Wait,
            Action::Close => ActionV::Close,
            Action::Stop => ActionV::Stop,
        }
    }
}

/// A number as a size of a terminal: what its lowest sixteen bits say, or `usual` where
/// there is none.
pub open spec fn size_of_screen(n: Option<u64>, usual: u16) -> u16 {
    match n {
        Some(x) => (x % 65536) as u16,
        None => usual,
    }
}

/// The bytes that a message brings for the shell: its data as they are, or decoded where
/// it says that they are in base64. Data that do not decode are no bytes at all.
pub open spec fn typed(m: ClientMessageV, data: Seq<char>) -> Seq<u8> {
    if m.b64 == Some(true) {
        match pty::b64_bytes(data) {
            Ok(b) => b,
            Err(_) => Seq::empty(),
        }
    } else {
        encode_utf8(data)
    }
}

/// What follows from a message of the client.
pub open spec fn heeded(m: ClientMessageV) -> (Phase, ActionV) {
    if m.kind == Some("input"@) {
        match m.data {
            Some(data) => (Phase::Running, ActionV::Write(typed(m, data))),
            None => (Phase::Running, ActionV::Wait),
        }
    } else if m.kind == Some("resize"@) {
        (
            Phase::Running,
            ActionV::Resize {
                cols: size_of_screen(m.cols, 80),
                rows: size_of_screen(m.rows, 24),
            },
        )
    } else if m.kind == Some("close"@) {
        (Phase::Ended, ActionV::Close)
    } else {
        (Phase::Running, ActionV::Wait)
    }
}

/// What follows from an event.
pub open spec fn course(phase: Phase, event: EventV) -> (Phase, ActionV) {
    match (phase, event) {
        (Phase::Opening, EventV::Opened(Ok(t))) => (
            Phase::Greeting,
            ActionV::Send(ServerMessageV::Info { cwd: t.cwd, shell: t.shell, os: t.os }),
        ),
        (Phase::Opening, EventV::Opened(Err(e))) => (
            Phase::Failing,
            ActionV::Send(ServerMessageV::Error(e)),
        ),
        (Phase::Failing, EventV::Sent(_)) => (Phase::Ended, ActionV::Stop),
        (Phase::Greeting, EventV::Sent(ok)) | (Phase::Running, EventV::Sent(ok)) => if ok {
            (Phase::Running, ActionV::Wait)
        } else {
            (Phase::Ended, ActionV::Close)
        },
        (Phase::Running, EventV::Output(bytes)) => (
            Phase::Running,
            ActionV::Send(ServerMessageV::Output(pty::b64_text(bytes))),
        ),
        (Phase::Running, EventV::Text(text)) => heeded(understood(text)),
        (Phase::Running, EventV::Binary(bytes)) => (Phase::Running, ActionV::Write(bytes)),
        (Phase::Running, EventV::Left) => (Phase::Ended, ActionV::Close),
        _ => (phase, ActionV::Wait),
    }
}

/// A number as a size of a terminal.
fn screen(n: Option<u64>, usual: u16) -> (r: u16)
    ensures
        r == size_of_screen(n, usual),
{
    match n {
        Some(x) => (x % 65536) as u16,
        None => usual,
    }
}

/// What follows from a message of the client.
pub fn heed(m: &ClientMessage) -> (r: (Phase, Action))
    ensures
        (r.0, r.1@) == heeded(m@),
{
    let kind = match &m.kind {
        Some(k) => k.as_str(),
        None => {
            return (Phase::Running, Action::Wait);
        },
    };
    if text::same(kind, "input") {
        match &m.data {
            Some(data) => {
                let coded = match m.b64 {
                    Some(b) => b,
                    None => false,
                };
                let bytes = if coded {
                    match pty::b64_decode(data.as_str()) {
                        Ok(b) => b,
                        Err(_) => {
                            let none: Vec<u8> = Vec::new();
                            assert(none@ =~= Seq::<u8>::empty());
                            none
                        },
                    }
                } else {
                    vstd::slice::slice_to_vec(data.as_str().as_bytes())
                };
                (Phase::Running, Action::Write(bytes))
            },
            None => (Phase::Running, Action::Wait),
        }
    } else if text::same(kind, "resize") {
        let cols = screen(m.cols, 80);
        let rows = screen(m.rows, 24);
        (Phase::Running, Action::Resize { cols, rows })
    } else if text::same(kind, "close") {
        (Phase::Ended, Action::Close)
    } else {
        (Phase::Running, Action::Wait)
    }
}

/// What follows from an event.
pub fn term_session(phase: Phase, event: Event) -> (r: (Phase, Action))
    requires
        event matches Event::Output(b) ==> pty::b64_text(b@).len() <= isize::MAX,
    ensures
        (r.0, r.1@) == course(phase, event@),
{
    match (phase, event) {
        (Phase::Opening, Event::Opened(Ok(t))) => (
            Phase::Greeting,
            Action::Send(ServerMessage::Info { cwd: t.cwd, shell: t.shell, os: t.os }),
        ),
        (Phase::Opening, Event::Opened(Err(e))) => (
            Phase::Failing,
            Action::Send(ServerMessage::Error(e)),
        ),
        (Phase::Failing, Event::Sent(_)) => (Phase::Ended, Action::Stop),
        (Phase::Greeting, Event::Sent(ok)) | (Phase::Running, Event::Sent(ok)) => {
            if ok {
                (Phase::Running, Action::Wait)
            } else {
                (Phase::Ended, Action::Close)
            }
        },
        (Phase::Running, Event::Output(bytes)) => (
            Phase::Running,
            Action::Send(ServerMessage::Output(pty::b64(bytes.as_slice()))),
        ),
        (Phase::Running, Event::Text(text)) => heed(&read_message(text.as_str())),
        (Phase::Running, Event::Binary(bytes)) => (Phase::Running, Action::Write(bytes)),
        (Phase::Running, Event::Left) => (Phase::Ended, Action::Close),
        _ => (phase, Action::Wait),
    }
}

// ---------------------------------------------------------------------------
// What holds of every terminal
// ---------------------------------------------------------------------------

/// How far a terminal has come after several events.
pub open spec fn phase_after(events: Seq<EventV>) -> Phase
    decreases events.len(),
{
    if events.len() == 0 {
        Phase::Opening
    } else {
        course(phase_after(events.drop_last()), events.last()).0
    }
}

/// What follows from the event with this number.
pub open spec fn action_after(events: Seq<EventV>, i: int) -> ActionV {
    course(phase_after(events.take(i)), events[i]).1
}

/// Whether an action is the last one of a terminal.
pub open spec fn is_end(a: ActionV) -> bool {
    a is Close || a is Stop
}

/// A terminal that has ended stays ended.
proof fn lemma_ended(events: Seq<EventV>, i: int, j: int)
    requires
        0 <= i <= j <= events.len(),
        phase_after(events.take(i)) == Phase::Ended,
    ensures
        phase_after(events.take(j)) == Phase::Ended,
    decreases j - i,
{
    if i < j {
        lemma_ended(events, i, j - 1);
        assert(events.take(j).drop_last() =~= events.take(j - 1));
    }
}

/// A terminal ends once: after the action that ends it there is nothing left to do.
pub proof fn terminal_ends_once(events: Seq<EventV>, i: int, j: int)
    requires
        0 <= i < j < events.len(),
        is_end(action_after(events, i)),
    ensures
        action_after(events, j) is Wait,
{
    assert(events.take(i + 1).drop_last() =~= events.take(i));
    assert(events.take(i + 1).last() == events[i]);
    lemma_ended(events, i + 1, j);
}

/// A shell is told to end only where the terminal had been opened; where it could not be,
/// the client is told and the terminal stops.
pub proof fn only_opened_terminals_are_closed(events: Seq<EventV>, i: int)
    requires
        0 <= i < events.len(),
        action_after(events, i) is Close,
    ensures
        exists|k: int| 0 <= k < i && (#[trigger] events[k]) matches EventV::Opened(Ok(_)),
{
    lemma_connected(events, i);
}

/// Whether the terminal was opened by the event with this number.
pub open spec fn opened_by(events: Seq<EventV>, k: int) -> bool {
    &&& 0 <= k < events.len()
    &&& phase_after(events.take(k)) == Phase::Opening
    &&& events[k] matches EventV::Opened(Ok(_))
}

/// A terminal that was opened is connected with its client until it ends.
proof fn lemma_stays_open(events: Seq<EventV>, k: int, i: int)
    requires
        opened_by(events, k),
        k < i <= events.len(),
    ensures
        ({
            let phase = phase_after(events.take(i));
            phase == Phase::Greeting || phase == Phase::Running || phase == Phase::Ended
        }),
    decreases i,
{
    assert(events.take(i).drop_last() =~= events.take(i - 1));
    assert(events.take(i).last() == events[i - 1]);
    if i > k + 1 {
        lemma_stays_open(events, k, i - 1);
    }
}

/// A terminal that was opened ends by closing its shell, never by merely stopping; and
/// where it has ended, its shell was closed.
pub proof fn opened_terminals_end_by_closing(events: Seq<EventV>, k: int)
    requires
        opened_by(events, k),
    ensures
        forall|i: int|
            k < i < events.len() && is_end(#[trigger] action_after(events, i)) ==> action_after(
                events,
                i,
            ) is Close,
        phase_after(events) == Phase::Ended ==> exists|i: int|
            k < i < events.len() && (#[trigger] action_after(events, i)) is Close,
{
    assert forall|i: int| k < i < events.len() && is_end(#[trigger] action_after(events, i)) implies
        action_after(events, i) is Close by {
        lemma_stays_open(events, k, i);
    }
    assert(events.take(events.len() as int) =~= events);
    if phase_after(events) == Phase::Ended {
        lemma_was_closed(events, k, events.len() as int);
    }
}

proof fn lemma_was_closed(events: Seq<EventV>, k: int, n: int)
    requires
        opened_by(events, k),
        k < n <= events.len(),
        phase_after(events.take(n)) == Phase::Ended,
    ensures
        exists|i: int| k < i < n && (#[trigger] action_after(events, i)) is Close,
    decreases n,
{
    assert(events.take(n).drop_last() =~= events.take(n - 1));
    assert(events.take(n).last() == events[n - 1]);
    if n > k + 1 {
        lemma_stays_open(events, k, n - 1);
        if phase_after(events.take(n - 1)) == Phase::Ended {
            lemma_was_closed(events, k, n - 1);
            let i = choose|i: int| k < i < n - 1 && (#[trigger] action_after(events, i)) is Close;
            assert(k < i < n);
        } else {
            assert(action_after(events, n - 1) is Close);
        }
    }
}

proof fn lemma_connected(events: Seq<EventV>, i: int)
    requires
        0 <= i <= events.len(),
        phase_after(events.take(i)) == Phase::Greeting || phase_after(events.take(i))
            == Phase::Running,
    ensures
        exists|k: int| 0 <= k < i && (#[trigger] events[k]) matches EventV::Opened(Ok(_)),
    decreases i,
{
    if i > 0 {
        assert(events.take(i).drop_last() =~= events.take(i - 1));
        assert(events.take(i).last() == events[i - 1]);
        let before = phase_after(events.take(i - 1));
        if before == Phase::Greeting || before == Phase::Running {
            lemma_connected(events, i - 1);
            let k = choose|k: int|
                0 <= k < i - 1 && (#[trigger] events[k]) matches EventV::Opened(Ok(_));
            assert(0 <= k < i);
        }
    }
}

/// Whatever the shell writes can be read back from the message that brings it, and
/// whatever the client sends reaches the shell as it is: bytes, text, and base64.
pub proof fn bytes_pass_unchanged(bytes: Seq<u8>, data: Seq<char>, m: ClientMessageV)
    requires
        m.kind == Some("input"@),
    ensures
        course(Phase::Running, EventV::Output(bytes)).1 matches ActionV::Send(
            ServerMessageV::Output(s),
        ) && pty::b64_bytes(s) == Ok::<Seq<u8>, Seq<char>>(bytes),
        course(Phase::Running, EventV::Binary(bytes)) == (Phase::Running, ActionV::Write(bytes)),
        m.data == Some(data) && m.b64 != Some(true) ==> heeded(m) == (
            Phase::Running,
            ActionV::Write(encode_utf8(data)),
        ),
        m.data == Some(pty::b64_text(bytes)) && m.b64 == Some(true) ==> heeded(m) == (
            Phase::Running,
            ActionV::Write(bytes),
        ),
{
    pty::b64_decodes_what_it_encodes(bytes);
}

/// A terminal may be asked for with the token in the request as well as with the token in
/// its header.
pub proof fn either_token_will_do(
    t: Tables,
    by_header: TermQ,
    h: Option<Seq<u8>>,
    by_query: TermQ,
    other: Option<Seq<u8>>,
    id: Seq<char>,
    now: i64,
)
    requires
        by_header.token is None,
        by_query.token matches Some(k) && api::bearer_token(h) == Some(k@),
    ensures
        term_place(t, term_token(by_header, h), id, now) == term_place(
            t,
            term_token(by_query, other),
            id,
            now,
        ),
{
}

/// A text from the client says what its members say, each under its own name.
pub proof fn texts_say_what_their_members_say(text: Seq<char>)
    ensures
        understood(text).kind == json_text(text, "type"@),
        understood(text).data == json_text(text, "data"@),
        understood(text).b64 == json_flag(text, "b64"@),
        understood(text).cols == json_number(text, "cols"@),
        understood(text).rows == json_number(text, "rows"@),
        course(Phase::Running, EventV::Text(text)) == heeded(understood(text)),
{
}

/// A client that asks for a size gets that size, number for number, and the terminal
/// goes on. Of a number beyond sixteen bits the lowest sixteen count, and where a number
/// is missing the terminal gets eighty columns or twenty-four rows.
pub proof fn sizes_are_set_as_asked(m: ClientMessageV)
    requires
        m.kind == Some("resize"@),
    ensures
        heeded(m).0 == Phase::Running,
        heeded(m).1 matches ActionV::Resize { cols, rows } && {
            &&& m.cols matches Some(n) ==> (n <= 65535 ==> cols == n) && cols as int == n as int
                % 65536
            &&& m.rows matches Some(n) ==> (n <= 65535 ==> rows == n) && rows as int == n as int
                % 65536
            &&& m.cols is None ==> cols == 80
            &&& m.rows is None ==> rows == 24
        },
{
    reveal_strlit("input");
    reveal_strlit("resize");
    assert("input"@.len() != "resize"@.len());
}

/// Two requests for a size that differ in one number differ in that number of the answer,
/// as long as both fit.
pub proof fn different_sizes_stay_different(m: ClientMessageV, other: ClientMessageV)
    requires
        m.kind == Some("resize"@),
        other.kind == Some("resize"@),
        m.cols is Some && m.rows is Some && other.cols is Some && other.rows is Some,
        m.cols->0 <= 65535 && m.rows->0 <= 65535,
        other.cols->0 <= 65535 && other.rows->0 <= 65535,
        heeded(m) == heeded(other),
    ensures
        m.cols == other.cols,
        m.rows == other.rows,
{
    sizes_are_set_as_asked(m);
    sizes_are_set_as_asked(other);
}

/// What a client types reaches the shell whole: as it is, or decoded where it says that it
/// is in base64, and nothing of what does not decode. Without data there is nothing to do.
pub proof fn what_is_typed_is_written(m: ClientMessageV)
    requires
        m.kind == Some("input"@),
    ensures
        heeded(m).0 == Phase::Running,
        m.data is None ==> heeded(m).1 is Wait,
        m.data matches Some(data) ==> (heeded(m).1 matches ActionV::Write(bytes) && {
            &&& m.b64 != Some(true) ==> bytes == encode_utf8(data)
            &&& m.b64 == Some(true) ==> match pty::b64_bytes(data) {
                Ok(decoded) => bytes == decoded,
                Err(_) => bytes.len() == 0,
            }
        }),
{
}

/// A terminal ends at a client's word only where the word is `close`, and a message of no
/// known kind changes nothing.
pub proof fn only_close_closes(m: ClientMessageV)
    ensures
        (heeded(m).0 == Phase::Ended) <==> m.kind == Some("close"@),
        (heeded(m).1 is Close) <==> m.kind == Some("close"@),
        heeded(m).0 == Phase::Ended || heeded(m).0 == Phase::Running,
        m.kind != Some("input"@) && m.kind != Some("resize"@) && m.kind != Some("close"@)
            ==> heeded(m) == (Phase::Running, ActionV::Wait),
{
    reveal_strlit("input");
    reveal_strlit("resize");
    reveal_strlit("close");
    assert("input"@[0] != "close"@[0]);
    assert("resize"@.len() != "close"@.len());
}

/// A terminal that was opened greets its client with its directory, its shell and the
/// kind of machine; one that was not tells why, and stops once that was sent.
pub proof fn clients_are_greeted_or_told_why(t: RunningV, e: Seq<char>, sent: bool)
    ensures
        course(Phase::Opening, EventV::Opened(Ok(t))).0 == Phase::Greeting,
        course(Phase::Opening, EventV::Opened(Ok(t))).1 matches ActionV::Send(
            ServerMessageV::Info { cwd, shell, os },
        ) && cwd == t.cwd && shell == t.shell && os == t.os,
        course(Phase::Opening, EventV::Opened(Err(e))) == (
            Phase::Failing,
            ActionV::Send(ServerMessageV::Error(e)),
        ),
        course(Phase::Failing, EventV::Sent(sent)) == (Phase::Ended, ActionV::Stop),
{
}

/// A connection lasts as long as what is sent arrives and the client stays: a message that
/// did not arrive closes the terminal, and so does a client that leaves.
pub proof fn connections_last_while_messages_arrive(phase: Phase)
    requires
        phase == Phase::Greeting || phase == Phase::Running,
    ensures
        course(phase, EventV::Sent(true)) == (Phase::Running, ActionV::Wait),
        course(phase, EventV::Sent(false)) == (Phase::Ended, ActionV::Close),
        phase == Phase::Running ==> course(phase, EventV::Left) == (Phase::Ended, ActionV::Close),
{
}

/// While a terminal runs, what its shell writes is sent on at once and it runs on.
pub proof fn output_is_sent_on(bytes: Seq<u8>)
    ensures
        course(Phase::Running, EventV::Output(bytes)).0 == Phase::Running,
        course(Phase::Running, EventV::Output(bytes)).1 matches ActionV::Send(
            ServerMessageV::Output(s),
        ) && s == pty::b64_text(bytes),
{
}

/// An event that comes out of its time changes nothing.
pub proof fn untimely_events_change_nothing(phase: Phase, event: EventV)
    requires
        event is Opened ==> phase != Phase::Opening,
        event is Sent ==> phase == Phase::Opening || phase == Phase::Ended,
        !(event is Opened) && !(event is Sent) ==> phase != Phase::Running,
    ensures
        course(phase, event) == (phase, ActionV::Wait),
{
}

/// A terminal may be opened exactly by whoever has leave to use a shell in the sandbox, and
/// each refusal says what is missing.
pub proof fn leave_decides_on_terminals(
    t: Tables,
    token: Option<Seq<char>>,
    id: Seq<char>,
    now: i64,
    s: SandboxV,
)
    ensures
        term_place(t, token, id, now) == Ok::<SandboxV, Refusal>(s) <==> (token matches Some(k) && (
        t.session_user(k, now) matches Some(u) && (api::access(t, u, id) matches Ok(g) && g.can_shell
            && t.place(id) == Some(s)))),
        token is None || t.session_user(token->0, now) is None ==> term_place(t, token, id, now)
            == Err::<SandboxV, Refusal>((401u16, "sign in"@)),
        (token is Some && t.session_user(token->0, now) is Some) ==> ({
            let found = api::access(t, t.session_user(token->0, now)->0, id);
            &&& found matches Err(e) ==> term_place(t, token, id, now) == Err::<SandboxV, Refusal>(
                e,
            )
            &&& found matches Ok(g) ==> {
                &&& !g.can_shell ==> term_place(t, token, id, now) == Err::<SandboxV, Refusal>(
                    (403u16, "no shell on this sandbox"@),
                )
                &&& g.can_shell && t.place(id) is None ==> term_place(t, token, id, now) == Err::<
                    SandboxV,
                    Refusal,
                >((404u16, "no such sandbox"@))
            }
        }),
{
}

/// The token in the request counts before the one in the header.
pub proof fn the_token_in_the_request_counts_first(q: TermQ, h: Option<Seq<u8>>)
    ensures
        q.token matches Some(k) ==> term_token(q, h) == Some(k@),
        q.token is None ==> term_token(q, h) == api::bearer_token(h),
{
}

/// A terminal starts with the size that was asked for, or eighty columns and twenty-four
/// rows, in the root of its sandbox or in the directory that was asked for below it.
pub proof fn terminals_start_as_asked(
    root: Seq<char>,
    q: TermQ,
    seen: fsops::LookupV,
    sid: Seq<char>,
)
    ensures
        started(root, q, seen, sid) matches Ok(s) ==> {
            &&& s.sid == sid
            &&& s.root == root
            &&& q.cols matches Some(n) ==> s.cols == n
            &&& q.cols is None ==> s.cols == 80
            &&& q.rows matches Some(n) ==> s.rows == n
            &&& q.rows is None ==> s.rows == 24
            &&& q.cwd is None || q.cwd->0@.len() == 0 ==> s.cwd == root
            &&& q.cwd is Some && q.cwd->0@.len() > 0 ==> fsops::named(root, q.cwd->0@, seen) == Ok::<
                Seq<char>,
                Seq<char>,
            >(s.cwd)
        },
        started(root, q, seen, sid) is Ok <==> q.cwd is None || q.cwd->0@.len() == 0
            || fsops::named(root, q.cwd->0@, seen) is Ok,
        started(root, q, seen, sid) matches Err(e) ==> fsops::named(root, q.cwd->0@, seen) == Err::<
            Seq<char>,
            Seq<char>,
        >(e.1) && e.0 == 400,
        asked_cwd(q) is Some <==> q.cwd is Some && q.cwd->0@.len() > 0,
        asked_cwd(q) matches Some(rel) ==> rel == q.cwd->0@,
{
}

/// Of what is neither text nor bytes nor a farewell, a running terminal takes no notice.
pub proof fn other_frames_are_ignored(phase: Phase)
    ensures
        course(phase, EventV::Other) == (phase, ActionV::Wait),
{
}

/// What is told of a terminal is told with all that it holds.
pub proof fn terminals_are_told_field_by_field(
    s: TermStart,
    m: ClientMessage,
    a: Action,
    told: ServerMessage,
    e: Event,
)
    ensures
        s@.sid == s.sid@ && s@.root == s.root@ && s@.cwd == s.cwd@,
        s@.cols == s.cols && s@.rows == s.rows,
        m@.b64 == m.b64 && m@.cols == m.cols && m@.rows == m.rows,
        m.kind matches Some(k) ==> m@.kind == Some(k@),
        m.kind is None ==> m@.kind is None,
        m.data matches Some(d) ==> m@.data == Some(d@),
        m.data is None ==> m@.data is None,
        a matches Action::Send(x) ==> a@ == ActionV::Send(x@),
        a matches Action::Write(b) ==> a@ == ActionV::Write(b@),
        a matches Action::Resize { cols, rows } ==> a@ == (ActionV::Resize { cols, rows }),
        a is Wait ==> a@ is Wait,
        a is Close ==> a@ is Close,
        a is Stop ==> a@ is Stop,
        told matches ServerMessage::Error(x) ==> told@ == ServerMessageV::Error(x@),
        told matches ServerMessage::Output(x) ==> told@ == ServerMessageV::Output(x@),
        told matches ServerMessage::Info { cwd, shell, os } ==> told@ == (ServerMessageV::Info {
            cwd: cwd@,
            shell: shell@,
            os: os@,
        }),
        e matches Event::Opened(Ok(r)) ==> (e@ matches EventV::Opened(Ok(v)) && v.shell == r.shell@
            && v.cwd == r.cwd@ && v.os == r.os@),
        e matches Event::Opened(Err(x)) ==> e@ == EventV::Opened(Err(x@)),
        e matches Event::Sent(ok) ==> e@ == EventV::Sent(ok),
        e matches Event::Output(b) ==> e@ == EventV::Output(b@),
        e matches Event::Text(x) ==> e@ == EventV::Text(x@),
        e matches Event::Binary(b) ==> e@ == EventV::Binary(b@),
        e is Left ==> e@ is Left,
        e is Other ==> e@ is Other,
{
}

} // verus!
