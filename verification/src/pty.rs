//! Terminals: the command that a terminal runs, the sessions that are open, and the
//! base64 form in which terminal bytes travel.

use vstd::prelude::*;
use vstd::utf8::*;

use base64::engine::general_purpose::STANDARD;
use base64::Engine;

use crate::fsops;
use crate::fsops::Lookup;
use crate::paths;
use crate::reply;
use crate::text;

verus! {

// ---------------------------------------------------------------------------
// Base64
// ---------------------------------------------------------------------------

/// The character of the standard base64 alphabet for a number below sixty-four.
pub open spec fn b64_char(n: int) -> char {
    if n < 26 {
        (65 + n) as char
    } else if n < 52 {
        (71 + n) as char
    } else if n < 62 {
        (n - 4) as char
    } else if n == 62 {
        '+'
    } else {
        '/'
    }
}

/// Byte `i` of `data`, or zero past its end.
pub open spec fn byte_at(data: Seq<u8>, i: int) -> int {
    if i < data.len() {
        data[i] as int
    } else {
        0
    }
}

/// Character `i` of the base64 form of `data`: three bytes make four characters of six
/// bits each, and `=` stands for characters that hold no bit of the data.
pub open spec fn b64_at(data: Seq<u8>, i: int) -> char {
    let j = i / 4 * 3;
    if i % 4 == 0 {
        b64_char(byte_at(data, j) / 4)
    } else if i % 4 == 1 {
        b64_char(byte_at(data, j) % 4 * 16 + byte_at(data, j + 1) / 16)
    } else if i % 4 == 2 {
        if j + 1 < data.len() {
            b64_char(byte_at(data, j + 1) % 16 * 4 + byte_at(data, j + 2) / 64)
        } else {
            '='
        }
    } else {
        if j + 2 < data.len() {
            b64_char(byte_at(data, j + 2) % 64)
        } else {
            '='
        }
    }
}

/// The base64 form of `data`, with padding.
pub open spec fn b64_text(data: Seq<u8>) -> Seq<char> {
    Seq::new((data.len() + 2) / 3 * 4, |i: int| b64_at(data, i))
}

/// The text of the error when `s` is not base64.
pub uninterp spec fn b64_complaint(s: Seq<char>) -> Seq<char>;

/// `STANDARD.encode` writes bytes in the standard alphabet with padding. It panics where
/// the text would be longer than any buffer can be.
#[verifier::external_body]
fn standard_encode(data: &[u8]) -> (r: String)
    requires
        b64_text(data@).len() <= isize::MAX,
    ensures
        r@ == b64_text(data@),
{
    STANDARD.encode(data)
}

/// `STANDARD.decode` gives the bytes whose padded form the text is. Any other text,
/// also one with missing padding or with bits set that hold no data, is an error whose
/// text depends on the text alone. What that text says is not stated.
#[verifier::external_body]
fn standard_decode(s: &str) -> (r: Result<Vec<u8>, String>)
    ensures
        match r {
            Ok(v) => s@ == b64_text(v@),
            Err(e) => e@ == b64_complaint(s@) && forall|v: Seq<u8>| s@ != #[trigger] b64_text(v),
        },
{
    STANDARD.decode(s).map_err(|e| e.to_string())
}

/// Bytes in base64.
pub fn b64(data: &[u8]) -> (r: String)
    requires
        b64_text(data@).len() <= isize::MAX,
    ensures
        r@ == b64_text(data@),
{
    standard_encode(data)
}

/// The bytes whose base64 form is `s`, or the complaint that there are none.
pub open spec fn b64_bytes(s: Seq<char>) -> Result<Seq<u8>, Seq<char>> {
    if exists|v: Seq<u8>| s == #[trigger] b64_text(v) {
        Ok(choose|v: Seq<u8>| s == #[trigger] b64_text(v))
    } else {
        Err(b64_complaint(s))
    }
}

/// The bytes that a base64 text stands for.
pub fn b64_decode(s: &str) -> (r: Result<Vec<u8>, String>)
    ensures
        reply::told(r) == b64_bytes(s@),
        r matches Ok(v) ==> s@ == b64_text(v@),
{
    let r = standard_decode(s);
    proof {
        if let Ok(ref v) = r {
            let w = choose|w: Seq<u8>| s@ == #[trigger] b64_text(w);
            assert(s@ == b64_text(v@));
            b64_forms_differ(v@, w);
        }
    }
    r
}

proof fn lemma_b64_char(a: int, b: int)
    requires
        0 <= a < 64,
        0 <= b < 64,
        b64_char(a) == b64_char(b),
    ensures
        a == b,
{
}

/// Decoding the base64 form of bytes gives the bytes back.
pub proof fn b64_decodes_what_it_encodes(a: Seq<u8>)
    ensures
        b64_bytes(b64_text(a)) == Ok::<Seq<u8>, Seq<char>>(a),
{
    let w = choose|w: Seq<u8>| b64_text(a) == #[trigger] b64_text(w);
    b64_forms_differ(a, w);
}

/// Different bytes have different base64 forms.
pub proof fn b64_forms_differ(a: Seq<u8>, b: Seq<u8>)
    requires
        b64_text(a) == b64_text(b),
    ensures
        a == b,
{
    let s = b64_text(a);
    let t = b64_text(b);
    lemma_b64_len(a, b);
    assert forall|k: int| 0 <= k < a.len() implies a[k] == b[k] by {
        let g = k / 3;
        assert(0 <= 4 * g && 4 * g + 3 < s.len());
        assert(s[4 * g] == t[4 * g] && s[4 * g + 1] == t[4 * g + 1] && s[4 * g + 2] == t[4 * g + 2]
            && s[4 * g + 3] == t[4 * g + 3]);
        assert((4 * g) / 4 * 3 == 3 * g && (4 * g + 1) / 4 * 3 == 3 * g && (4 * g + 2) / 4 * 3 == 3
            * g && (4 * g + 3) / 4 * 3 == 3 * g);
        let (a0, a1, a2) = (byte_at(a, 3 * g), byte_at(a, 3 * g + 1), byte_at(a, 3 * g + 2));
        let (b0, b1, b2) = (byte_at(b, 3 * g), byte_at(b, 3 * g + 1), byte_at(b, 3 * g + 2));
        assert(s[4 * g] == b64_at(a, 4 * g) && t[4 * g] == b64_at(b, 4 * g));
        assert(s[4 * g + 1] == b64_at(a, 4 * g + 1) && t[4 * g + 1] == b64_at(b, 4 * g + 1));
        assert(s[4 * g + 2] == b64_at(a, 4 * g + 2) && t[4 * g + 2] == b64_at(b, 4 * g + 2));
        assert(s[4 * g + 3] == b64_at(a, 4 * g + 3) && t[4 * g + 3] == b64_at(b, 4 * g + 3));
        lemma_b64_char(a0 / 4, b0 / 4);
        lemma_b64_char(a0 % 4 * 16 + a1 / 16, b0 % 4 * 16 + b1 / 16);
        assert(a0 == b0 && a1 / 16 == b1 / 16);
        if k == 3 * g + 1 {
            lemma_b64_char(a1 % 16 * 4 + a2 / 64, b1 % 16 * 4 + b2 / 64);
            assert(a1 == b1);
        }
        if k == 3 * g + 2 {
            lemma_b64_char(a1 % 16 * 4 + a2 / 64, b1 % 16 * 4 + b2 / 64);
            lemma_b64_char(a2 % 64, b2 % 64);
            assert(a2 == b2);
        }
    }
    assert(a =~= b);
}

/// The padding tells how many bytes there are.
proof fn lemma_b64_len(a: Seq<u8>, b: Seq<u8>)
    requires
        b64_text(a) == b64_text(b),
    ensures
        a.len() == b.len(),
{
    let s = b64_text(a);
    let t = b64_text(b);
    let n = (a.len() + 2) / 3;
    assert(s.len() == t.len());
    assert((b.len() + 2) / 3 == n);
    if n > 0 {
        let i = 4 * n - 2;
        let j = 4 * n - 1;
        assert(s[i] == t[i] && s[j] == t[j]);
        assert(i / 4 * 3 == 3 * n - 3 && j / 4 * 3 == 3 * n - 3);
        assert(s[i] == b64_at(a, i) && t[i] == b64_at(b, i));
        assert(s[j] == b64_at(a, j) && t[j] == b64_at(b, j));
        assert forall|m: int| 0 <= m < 64 implies #[trigger] b64_char(m) != '=' by {}
        let m = 3 * n - 3;
        assert(0 <= byte_at(a, m + 1) % 16 * 4 + byte_at(a, m + 2) / 64 < 64);
        assert(0 <= byte_at(b, m + 1) % 16 * 4 + byte_at(b, m + 2) / 64 < 64);
        assert(0 <= byte_at(a, m + 2) % 64 < 64);
        assert(0 <= byte_at(b, m + 2) % 64 < 64);
        assert((m + 1 < a.len()) == (s[i] != '='));
        assert((m + 1 < b.len()) == (t[i] != '='));
        assert((m + 2 < a.len()) == (s[j] != '='));
        assert((m + 2 < b.len()) == (t[j] != '='));
    }
}

// ---------------------------------------------------------------------------
// The command of a terminal
// ---------------------------------------------------------------------------

/// What is known of the machine that terminals run on.
#[derive(Debug)]
pub struct Host {
    /// Whether it is a Unix other than macOS.
    pub sandboxing: bool,
    /// Whether it is Windows.
    pub windows: bool,
    /// The user's shell, if one is set.
    pub shell: Option<String>,
    /// Those of the probed paths that exist.
    pub present: Vec<String>,
}

/// A program with its arguments and the directory that it starts in.
#[derive(Debug)]
pub struct ShellCommand {
    pub program: String,
    pub args: Vec<String>,
    pub cwd: Option<String>,
}

pub struct ShellCommandV {
    pub program: Seq<char>,
    pub args: Seq<Seq<char>>,
    pub cwd: Option<Seq<char>>,
}

impl View for ShellCommand {
    type V = ShellCommandV;

    open spec fn view(&self) -> ShellCommandV {
        ShellCommandV {
            program: self.program@,
            args: text::texts(self.args@),
            cwd: match self.cwd {
                Some(c) => Some(c@),
                None => None,
            },
        }
    }
}

/// The paths whose presence matters for the command of a terminal.
pub open spec fn probed() -> Seq<Seq<char>> {
    seq![
        "/usr/bin/bwrap"@,
        "/usr/local/bin/bwrap"@,
        "/usr"@,
        "/bin"@,
        "/lib"@,
        "/lib64"@,
        "/etc"@,
    ]
}

/// The paths whose presence matters for the command of a terminal.
pub fn probed_paths() -> (r: Vec<String>)
    ensures
        text::texts(r@) == probed(),
{
    let mut v: Vec<String> = Vec::new();
    v.push("/usr/bin/bwrap".to_string());
    v.push("/usr/local/bin/bwrap".to_string());
    v.push("/usr".to_string());
    v.push("/bin".to_string());
    v.push("/lib".to_string());
    v.push("/lib64".to_string());
    v.push("/etc".to_string());
    assert(text::texts(v@) =~= probed());
    v
}

impl Host {
    /// Whether a probed path exists.
    pub open spec fn has(&self, path: Seq<char>) -> bool {
        text::texts(self.present@).contains(path)
    }

    /// The shell to run on a Unix machine.
    pub open spec fn unix_shell(&self) -> Seq<char> {
        match self.shell {
            Some(s) => s@,
            None => "/bin/bash"@,
        }
    }

    /// Whether a probed path exists.
    pub fn is_there(&self, path: &str) -> (r: bool)
        ensures
            r == self.has(path@),
    {
        let mut i: usize = 0;
        while i < self.present.len()
            invariant
                i <= self.present@.len(),
                forall|j: int| 0 <= j < i ==> (#[trigger] self.present@[j])@ != path@,
            decreases self.present@.len() - i,
        {
            if text::same(self.present[i].as_str(), path) {
                assert(text::texts(self.present@)[i as int] == path@);
                return true;
            }
            i = i + 1;
        }
        assert forall|j: int| 0 <= j < self.present@.len() implies text::texts(self.present@)[j]
            != path@ by {
            assert(text::texts(self.present@)[j] == self.present@[j]@);
        }
        false
    }

    fn shell_name(&self) -> (r: String)
        ensures
            r@ == self.unix_shell(),
    {
        match &self.shell {
            Some(s) => s.clone(),
            None => "/bin/bash".to_string(),
        }
    }
}

/// The program that wraps shells on Linux is in one of two places.
pub open spec fn bwrap_there(host: &Host) -> bool {
    host.has("/usr/bin/bwrap"@) || host.has("/usr/local/bin/bwrap"@)
}

/// Whether the program that wraps shells is installed.
pub fn has_bwrap(host: &Host) -> (r: bool)
    ensures
        r == bwrap_there(host),
{
    host.is_there("/usr/bin/bwrap") || host.is_there("/usr/local/bin/bwrap")
}

/// A shell without a wrapper, by its name and command.
pub open spec fn plain_shell(host: &Host) -> (Seq<char>, ShellCommandV) {
    if host.windows {
        (
            "powershell.exe"@,
            ShellCommandV { program: "powershell.exe"@, args: seq!["-NoLogo"@], cwd: None },
        )
    } else {
        (
            host.unix_shell(),
            ShellCommandV { program: host.unix_shell(), args: Seq::empty(), cwd: None },
        )
    }
}

/// A shell without a wrapper.
pub fn default_shell(host: &Host) -> (r: (String, ShellCommand))
    ensures
        (r.0@, r.1@) == plain_shell(host),
{
    let mut args: Vec<String> = Vec::new();
    let name = if host.windows {
        args.push("-NoLogo".to_string());
        "powershell.exe".to_string()
    } else {
        host.shell_name()
    };
    let program = name.clone();
    let cmd = ShellCommand { program, args, cwd: None };
    assert(cmd@.args =~= plain_shell(host).1.args);
    (name, cmd)
}

/// Where the wrapped shell starts: the place below `/work` that `cwd` has below `root`.
pub open spec fn jail_dir(cwd: Seq<char>, root: Seq<char>) -> Seq<char> {
    match paths::below(encode_utf8(cwd), encode_utf8(root)) {
        Some(rel) => if rel.len() == 0 {
            "/work"@
        } else {
            "/work/"@ + text::reads_as(rel)
        },
        None => "/work"@,
    }
}

/// The arguments that show a directory of the machine read-only, if it is there.
pub open spec fn read_only(host: &Host, dir: Seq<char>) -> Seq<Seq<char>> {
    if host.has(dir) {
        seq!["--ro-bind"@, dir, dir]
    } else {
        Seq::empty()
    }
}

/// The arguments of the wrapper. The sandbox root stands at `/work`.
pub open spec fn jail_args(cwd: Seq<char>, root: Seq<char>, host: &Host) -> Seq<Seq<char>> {
    seq![
        "--die-with-parent"@,
        "--unshare-pid"@,
        "--dev"@,
        "/dev"@,
        "--proc"@,
        "/proc"@,
        "--tmpfs"@,
        "/tmp"@,
        "--bind"@,
        root,
        "/work"@,
        "--chdir"@,
        jail_dir(cwd, root),
    ] + read_only(host, "/usr"@) + read_only(host, "/bin"@) + read_only(host, "/lib"@) + read_only(
        host,
        "/lib64"@,
    ) + read_only(host, "/etc"@) + seq![host.unix_shell()]
}

/// What a terminal runs, by its name and command.
pub open spec fn terminal_command(cwd: Seq<char>, root: Seq<char>, host: &Host) -> (
    Seq<char>,
    ShellCommandV,
) {
    if host.sandboxing && bwrap_there(host) {
        (
            "bwrap:"@ + host.unix_shell(),
            ShellCommandV { program: "bwrap"@, args: jail_args(cwd, root, host), cwd: None },
        )
    } else {
        (plain_shell(host).0, ShellCommandV { cwd: Some(cwd), ..plain_shell(host).1 })
    }
}

/// The directories of the machine that are shown to a wrapped shell, where they are there.
pub open spec fn shown_dirs() -> Seq<Seq<char>> {
    seq!["/usr"@, "/bin"@, "/lib"@, "/lib64"@, "/etc"@]
}

/// Whether arguments do nothing but show directories of the machine read-only, each in its
/// own place.
pub open spec fn only_shows(args: Seq<Seq<char>>, host: &Host) -> bool {
    &&& args.len() % 3 == 0
    &&& forall|i: int|
        0 <= i < args.len() && i % 3 == 0 ==> #[trigger] args[i] == "--ro-bind"@ && args[i + 1]
            == args[i + 2] && host.has(args[i + 1]) && shown_dirs().contains(args[i + 1])
}

proof fn lemma_shows_more(args: Seq<Seq<char>>, host: &Host, k: int)
    requires
        only_shows(args, host),
        0 <= k < shown_dirs().len(),
    ensures
        only_shows(args + read_only(host, shown_dirs()[k]), host),
{
    let dir = shown_dirs()[k];
    let all = args + read_only(host, dir);
    assert(shown_dirs().contains(dir));
    assert forall|i: int| 0 <= i < all.len() && i % 3 == 0 implies #[trigger] all[i] == "--ro-bind"@
        && all[i + 1] == all[i + 2] && host.has(all[i + 1]) && shown_dirs().contains(
        all[i + 1],
    ) by {
        if i < args.len() {
            assert(all[i] == args[i] && all[i + 1] == args[i + 1] && all[i + 2] == args[i + 2]);
        } else {
            assert(i == args.len());
        }
    }
}

/// Where shells can be wrapped, they are: the root of the sandbox is shown at `/work` and
/// is all that can be written to besides the temporary files; of the machine only some
/// directories are shown, read-only; and the shell starts at `/work` or below.
pub proof fn wrapped_shells_live_in_the_sandbox(cwd: Seq<char>, root: Seq<char>, host: &Host)
    requires
        host.sandboxing,
        bwrap_there(host),
    ensures
        ({
            let command = terminal_command(cwd, root, host).1;
            let args = command.args;
            let n = args.len() as int;
            &&& command.program == "bwrap"@
            &&& n >= 14
            &&& args.take(12) == seq![
                "--die-with-parent"@,
                "--unshare-pid"@,
                "--dev"@,
                "/dev"@,
                "--proc"@,
                "/proc"@,
                "--tmpfs"@,
                "/tmp"@,
                "--bind"@,
                root,
                "/work"@,
                "--chdir"@,
            ]
            &&& args[12] == "/work"@ || "/work/"@.is_prefix_of(args[12])
            &&& only_shows(args.subrange(13, n - 1), host)
            &&& args.last() == host.unix_shell()
        }),
{
    let args = jail_args(cwd, root, host);
    let s0 = Seq::<Seq<char>>::empty();
    let s1 = s0 + read_only(host, shown_dirs()[0]);
    let s2 = s1 + read_only(host, shown_dirs()[1]);
    let s3 = s2 + read_only(host, shown_dirs()[2]);
    let s4 = s3 + read_only(host, shown_dirs()[3]);
    let s5 = s4 + read_only(host, shown_dirs()[4]);
    lemma_shows_more(s0, host, 0);
    lemma_shows_more(s1, host, 1);
    lemma_shows_more(s2, host, 2);
    lemma_shows_more(s3, host, 3);
    lemma_shows_more(s4, host, 4);
    let fixed = args.take(13);
    assert(args =~= fixed + s5 + seq![host.unix_shell()]);
    assert(args.subrange(13, args.len() - 1) =~= s5);
    assert(args[12] == jail_dir(cwd, root));
    assert(args.take(12) =~= seq![
        "--die-with-parent"@,
        "--unshare-pid"@,
        "--dev"@,
        "/dev"@,
        "--proc"@,
        "/proc"@,
        "--tmpfs"@,
        "/tmp"@,
        "--bind"@,
        root,
        "/work"@,
        "--chdir"@,
    ]);
}

/// A wrapped shell for a directory below the root starts in the same place below `/work`,
/// where the way there starts and ends with a name.
pub proof fn wrapped_shells_start_where_asked(root: Seq<char>, rel: Seq<char>)
    requires
        root.len() > 0,
        rel.len() > 0,
        rel[0] != '/',
        paths::trim_path(encode_utf8(rel)),
    ensures
        jail_dir(fsops::join_text(root, rel), root) == "/work/"@ + rel,
        jail_dir(root, root) == "/work"@,
{
    let base = encode_utf8(root);
    fsops::lemma_join_text(root, rel);
    assert(base.len() > 0) by {
        assert(root.take(root.len() as int) =~= root);
        text::lemma_encode_grows(root, 0, root.len() as int);
    }
    paths::below_undoes_joining(base, encode_utf8(rel));
    text::texts_read_as_themselves(rel);
    paths::lemma_below_itself(base);
}

/// Whether arguments show a directory of the machine read-only in its own place.
pub open spec fn shows(args: Seq<Seq<char>>, dir: Seq<char>) -> bool {
    exists|i: int|
        0 <= i < args.len() - 2 && #[trigger] args[i] == "--ro-bind"@ && args[i + 1] == dir && args[
        i + 2] == dir
}

/// One if a directory is there, else none.
pub open spec fn tally(host: &Host, dir: Seq<char>) -> int {
    if host.has(dir) {
        1
    } else {
        0
    }
}

/// A wrapped shell sees every directory of the machine that it needs: of the programs, the
/// libraries and the settings each directory that is there is shown, and each only once.
pub proof fn wrapped_shells_see_the_machine(
    cwd: Seq<char>,
    root: Seq<char>,
    host: &Host,
    dir: Seq<char>,
)
    requires
        host.sandboxing,
        bwrap_there(host),
        dir == "/usr"@ || dir == "/bin"@ || dir == "/lib"@ || dir == "/lib64"@ || dir == "/etc"@,
    ensures
        host.has(dir) ==> shows(terminal_command(cwd, root, host).1.args, dir),
        terminal_command(cwd, root, host).1.args.len() == 14 + 3 * (tally(host, "/usr"@) + tally(
            host,
            "/bin"@,
        ) + tally(host, "/lib"@) + tally(host, "/lib64"@) + tally(host, "/etc"@)),
{
    let args = jail_args(cwd, root, host);
    let usr: int = 13;
    let bin: int = usr + read_only(host, "/usr"@).len();
    let lib: int = bin + read_only(host, "/bin"@).len();
    let lib64: int = lib + read_only(host, "/lib"@).len();
    let etc: int = lib64 + read_only(host, "/lib64"@).len();
    if host.has(dir) {
        let i: int = if dir == "/usr"@ {
            usr
        } else if dir == "/bin"@ {
            bin
        } else if dir == "/lib"@ {
            lib
        } else if dir == "/lib64"@ {
            lib64
        } else {
            etc
        };
        assert(args[i] == "--ro-bind"@ && args[i + 1] == dir && args[i + 2] == dir);
    }
}

/// Whatever the command of a terminal depends on is looked for.
pub proof fn all_that_matters_is_looked_for()
    ensures
        probed().contains("/usr/bin/bwrap"@),
        probed().contains("/usr/local/bin/bwrap"@),
        probed().contains("/usr"@),
        probed().contains("/bin"@),
        probed().contains("/lib"@),
        probed().contains("/lib64"@),
        probed().contains("/etc"@),
{
    let s = probed();
    assert(s[0] == "/usr/bin/bwrap"@ && s[1] == "/usr/local/bin/bwrap"@ && s[2] == "/usr"@ && s[3]
        == "/bin"@ && s[4] == "/lib"@ && s[5] == "/lib64"@ && s[6] == "/etc"@);
}

/// Shells are wrapped where that is wanted and the wrapper is in one of its two places,
/// and nowhere else. A wrapped shell is named after the shell in it; a shell without a
/// wrapper is the user's own, or the usual one of the machine, and starts in the directory
/// that was asked for.
pub proof fn shells_are_those_of_the_machine(cwd: Seq<char>, root: Seq<char>, host: &Host)
    ensures
        ({
            let (name, command) = terminal_command(cwd, root, host);
            let own = match host.shell {
                Some(s) => s@,
                None => "/bin/bash"@,
            };
            let wrapped = host.sandboxing && (host.has("/usr/bin/bwrap"@) || host.has(
                "/usr/local/bin/bwrap"@,
            ));
            &&& wrapped ==> {
                &&& name == "bwrap:"@ + own
                &&& command.program == "bwrap"@
                &&& command.cwd is None
                &&& command.args.last() == own
            }
            &&& !wrapped && host.windows ==> {
                &&& name == "powershell.exe"@
                &&& command.program == "powershell.exe"@
                &&& command.args == seq!["-NoLogo"@]
                &&& command.cwd == Some(cwd)
            }
            &&& !wrapped && !host.windows ==> {
                &&& name == own
                &&& command.program == own
                &&& command.args.len() == 0
                &&& command.cwd == Some(cwd)
            }
        }),
{
}

/// What is shown to a wrapped shell does not depend on where the sandbox lies or where the
/// shell starts.
pub proof fn all_wrapped_shells_see_the_same_machine(
    cwd: Seq<char>,
    root: Seq<char>,
    cwd2: Seq<char>,
    root2: Seq<char>,
    host: &Host,
)
    requires
        host.sandboxing,
        bwrap_there(host),
    ensures
        terminal_command(cwd, root, host).1.args.skip(13) == terminal_command(
            cwd2,
            root2,
            host,
        ).1.args.skip(13),
{
    let a = jail_args(cwd, root, host);
    let b = jail_args(cwd2, root2, host);
    assert(a.skip(13) =~= b.skip(13));
}

/// A wrapped shell for a directory that does not lie below the root starts at `/work`.
pub proof fn wrapped_shells_start_at_the_top_otherwise(cwd: Seq<char>, root: Seq<char>)
    requires
        !paths::starts_with(encode_utf8(cwd), encode_utf8(root)),
    ensures
        jail_dir(cwd, root) == "/work"@,
{
}

/// A terminal is opened with the directory and the size that were asked for, and with the
/// shell of its sandbox; outside the root it is refused in one way only.
pub proof fn terminals_open_as_asked(
    root: Seq<char>,
    cwd: Seq<char>,
    cols: u16,
    rows: u16,
    seen: fsops::LookupV,
    host: &Host,
)
    ensures
        opening(root, cwd, cols, rows, seen, host) matches Ok(plan) ==> {
            &&& plan.cwd == cwd
            &&& plan.cols == cols
            &&& plan.rows == rows
            &&& plan.shell == terminal_command(cwd, root, host).0
            &&& plan.command == terminal_command(cwd, root, host).1
        },
        opening(root, cwd, cols, rows, seen, host) matches Err(e) ==> e == "cwd outside sandbox"@,
{
}

/// A terminal opens only in a directory inside the root of its sandbox.
pub proof fn terminals_open_inside(
    root: Seq<char>,
    cwd: Seq<char>,
    cols: u16,
    rows: u16,
    seen: fsops::LookupV,
    host: &Host,
)
    ensures
        opening(root, cwd, cols, rows, seen, host) is Ok <==> fsops::inside(
            encode_utf8(root),
            encode_utf8(cwd),
            seen,
        ),
{
}

fn add_arg(args: &mut Vec<String>, arg: &str)
    ensures
        text::texts(final(args)@) == text::texts(old(args)@).push(arg@),
{
    let ghost before = text::texts(args@);
    args.push(arg.to_string());
    assert(text::texts(args@) =~= before.push(arg@));
}

fn add_read_only(args: &mut Vec<String>, host: &Host, dir: &str)
    ensures
        text::texts(final(args)@) == text::texts(old(args)@) + read_only(host, dir@),
{
    let ghost before = text::texts(args@);
    if host.is_there(dir) {
        add_arg(args, "--ro-bind");
        add_arg(args, dir);
        add_arg(args, dir);
    }
    assert(text::texts(args@) =~= before + read_only(host, dir@));
}

/// What a terminal in the directory `cwd` of the sandbox at `root` runs.
pub fn build_command(cwd: &str, root: &str, host: &Host) -> (r: (String, ShellCommand))
    ensures
        (r.0@, r.1@) == terminal_command(cwd@, root@, host),
{
    if host.sandboxing && has_bwrap(host) {
        let shell = host.shell_name();
        let chdir = match paths::strip_prefix(cwd.as_bytes(), root.as_bytes()) {
            Some(rel) => {
                if rel.len() == 0 {
                    "/work".to_string()
                } else {
                    text::concat("/work/", text::reading(rel.as_slice()).as_str())
                }
            },
            None => "/work".to_string(),
        };
        assert(chdir@ == jail_dir(cwd@, root@));
        let mut args: Vec<String> = Vec::new();
        add_arg(&mut args, "--die-with-parent");
        add_arg(&mut args, "--unshare-pid");
        add_arg(&mut args, "--dev");
        add_arg(&mut args, "/dev");
        add_arg(&mut args, "--proc");
        add_arg(&mut args, "/proc");
        add_arg(&mut args, "--tmpfs");
        add_arg(&mut args, "/tmp");
        add_arg(&mut args, "--bind");
        add_arg(&mut args, root);
        add_arg(&mut args, "/work");
        add_arg(&mut args, "--chdir");
        add_arg(&mut args, chdir.as_str());
        assert(text::texts(args@) =~= seq![
            "--die-with-parent"@,
            "--unshare-pid"@,
            "--dev"@,
            "/dev"@,
            "--proc"@,
            "/proc"@,
            "--tmpfs"@,
            "/tmp"@,
            "--bind"@,
            root@,
            "/work"@,
            "--chdir"@,
            jail_dir(cwd@, root@),
        ]);
        add_read_only(&mut args, host, "/usr");
        add_read_only(&mut args, host, "/bin");
        add_read_only(&mut args, host, "/lib");
        add_read_only(&mut args, host, "/lib64");
        add_read_only(&mut args, host, "/etc");
        add_arg(&mut args, shell.as_str());
        assert(text::texts(args@) =~= jail_args(cwd@, root@, host));
        let name = text::concat("bwrap:", shell.as_str());
        return (name, ShellCommand { program: "bwrap".to_string(), args, cwd: None });
    }
    let (name, mut cmd) = default_shell(host);
    cmd.cwd = Some(cwd.to_string());
    (name, cmd)
}

// ---------------------------------------------------------------------------
// Open terminals
// ---------------------------------------------------------------------------

/// How to open a terminal.
#[derive(Debug)]
pub struct OpenPlan {
    /// What the client is told that the terminal runs.
    pub shell: String,
    /// The directory that the terminal starts in. It has to be there.
    pub cwd: String,
    pub command: ShellCommand,
    pub cols: u16,
    pub rows: u16,
}

pub struct OpenPlanV {
    pub shell: Seq<char>,
    pub cwd: Seq<char>,
    pub command: ShellCommandV,
    pub cols: u16,
    pub rows: u16,
}

impl View for OpenPlan {
    type V = OpenPlanV;

    open spec fn view(&self) -> OpenPlanV {
        OpenPlanV {
            shell: self.shell@,
            cwd: self.cwd@,
            command: self.command@,
            cols: self.cols,
            rows: self.rows,
        }
    }
}

/// The outcome of asking for a terminal.
pub open spec fn opening(
    root: Seq<char>,
    cwd: Seq<char>,
    cols: u16,
    rows: u16,
    seen: fsops::LookupV,
    host: &Host,
) -> Result<OpenPlanV, Seq<char>> {
    if fsops::inside(encode_utf8(root), encode_utf8(cwd), seen) {
        let (shell, command) = terminal_command(cwd, root, host);
        Ok(OpenPlanV { shell, cwd, command, cols, rows })
    } else {
        Err("cwd outside sandbox"@)
    }
}

/// The terminals that are open. Each has a handle by which the program finds it.
pub struct PtyHub {
    sessions: Vec<(String, u64)>,
}

/// The handles in a list of named handles; a later entry takes the place of an earlier one.
pub open spec fn handles(v: Seq<(String, u64)>) -> Map<Seq<char>, u64>
    decreases v.len(),
{
    if v.len() == 0 {
        Map::empty()
    } else {
        handles(v.drop_last()).insert(v.last().0@, v.last().1)
    }
}

impl View for PtyHub {
    type V = Map<Seq<char>, u64>;

    closed spec fn view(&self) -> Map<Seq<char>, u64> {
        handles(self.sessions@)
    }
}

proof fn lemma_handles_remove(v: Seq<(String, u64)>, k: int)
    requires
        0 <= k < v.len(),
        forall|j: int| 0 <= j < v.len() && j != k ==> (#[trigger] v[j]).0@ != v[k].0@,
    ensures
        handles(v.remove(k)) == handles(v).remove(v[k].0@),
        handles(v).contains_key(v[k].0@),
        handles(v)[v[k].0@] == v[k].1,
    decreases v.len(),
{
    let key = v[k].0@;
    if k == v.len() - 1 {
        assert(v.remove(k) =~= v.drop_last());
        lemma_handles_absent(v.drop_last(), key);
        assert(handles(v).remove(key) =~= handles(v.drop_last()));
    } else {
        let w = v.drop_last();
        assert(w[k] == v[k]);
        assert forall|j: int| 0 <= j < w.len() && j != k implies (#[trigger] w[j]).0@ != w[k].0@ by {
            assert(w[j] == v[j]);
        }
        lemma_handles_remove(w, k);
        assert(v.remove(k).drop_last() =~= w.remove(k));
        assert(v.remove(k).last() == v.last());
        assert(handles(v.remove(k)) =~= handles(v).remove(key));
    }
}

proof fn lemma_handles_absent(v: Seq<(String, u64)>, key: Seq<char>)
    requires
        forall|j: int| 0 <= j < v.len() ==> (#[trigger] v[j]).0@ != key,
    ensures
        !handles(v).contains_key(key),
    decreases v.len(),
{
    if v.len() > 0 {
        let w = v.drop_last();
        assert forall|j: int| 0 <= j < w.len() implies (#[trigger] w[j]).0@ != key by {
            assert(w[j] == v[j]);
        }
        lemma_handles_absent(w, key);
        assert(v[v.len() - 1].0@ != key);
    }
}

impl Default for PtyHub {
    fn default() -> (r: PtyHub)
        ensures
            r@ == Map::<Seq<char>, u64>::empty(),
    {
        PtyHub::new()
    }
}

impl PtyHub {
    /// No name stands twice in the list.
    #[verifier::type_invariant]
    spec fn distinct(&self) -> bool {
        forall|i: int, j: int|
            0 <= i < j < self.sessions@.len() ==> (#[trigger] self.sessions@[i]).0@ != (
            #[trigger] self.sessions@[j]).0@
    }

    pub fn new() -> (r: PtyHub)
        ensures
            r@ == Map::<Seq<char>, u64>::empty(),
    {
        PtyHub { sessions: Vec::new() }
    }

    fn find(&self, id: &str) -> (r: Option<usize>)
        ensures
            match r {
                Some(i) => i < self.sessions@.len() && self.sessions@[i as int].0@ == id@
                    && self@.contains_key(id@) && self@[id@] == self.sessions@[i as int].1,
                None => !self@.contains_key(id@),
            },
    {
        proof {
            use_type_invariant(self);
        }
        let mut i: usize = 0;
        while i < self.sessions.len()
            invariant
                i <= self.sessions@.len(),
                self.distinct(),
                forall|j: int| 0 <= j < i ==> (#[trigger] self.sessions@[j]).0@ != id@,
            decreases self.sessions@.len() - i,
        {
            if text::same(self.sessions[i].0.as_str(), id) {
                proof {
                    lemma_handles_remove(self.sessions@, i as int);
                }
                return Some(i);
            }
            i = i + 1;
        }
        proof {
            lemma_handles_absent(self.sessions@, id@);
        }
        None
    }

    /// How to open a terminal in the directory `cwd` of the sandbox at `root`.
    pub fn open(
        &self,
        root: &str,
        cwd: &str,
        cols: u16,
        rows: u16,
        seen: &Lookup,
        host: &Host,
    ) -> (r: Result<OpenPlan, String>)
        ensures
            reply::told(r) == opening(root@, cwd@, cols, rows, seen@, host),
    {
        if !fsops::contained(root.as_bytes(), cwd.as_bytes(), seen) {
            return Err("cwd outside sandbox".to_string());
        }
        let (shell, command) = build_command(cwd, root, host);
        Ok(OpenPlan { shell, cwd: cwd.to_string(), command, cols, rows })
    }

    /// Enters a terminal that was opened. A terminal of that name that was there before
    /// is handed back.
    pub fn opened(&mut self, id: &str, handle: u64) -> (r: Option<u64>)
        ensures
            final(self)@ == old(self)@.insert(id@, handle),
            match r {
                Some(h) => old(self)@.contains_key(id@) && h == old(self)@[id@],
                None => !old(self)@.contains_key(id@),
            },
    {
        let before = self.close(id);
        let mut list: Vec<(String, u64)> = Vec::new();
        proof {
            use_type_invariant(&*self);
            assert forall|j: int| 0 <= j < self.sessions@.len() implies (
            #[trigger] self.sessions@[j]).0@ != id@ by {
                if self.sessions@[j].0@ == id@ {
                    lemma_handles_remove(self.sessions@, j);
                }
            }
        }
        let ghost rest = self.sessions@;
        std::mem::swap(&mut list, &mut self.sessions);
        list.push((id.to_string(), handle));
        assert(list@.drop_last() =~= rest);
        self.sessions = list;
        assert(self@ =~= old(self)@.insert(id@, handle));
        before
    }

    /// The terminal to write to.
    pub fn write(&self, id: &str) -> (r: Result<u64, String>)
        ensures
            match r {
                Ok(h) => self@.contains_key(id@) && h == self@[id@],
                Err(e) => !self@.contains_key(id@) && e@ == "no session"@,
            },
    {
        match self.find(id) {
            Some(i) => Ok(self.sessions[i].1),
            None => Err("no session".to_string()),
        }
    }

    /// The terminal to resize.
    pub fn resize(&self, id: &str) -> (r: Result<u64, String>)
        ensures
            match r {
                Ok(h) => self@.contains_key(id@) && h == self@[id@],
                Err(e) => !self@.contains_key(id@) && e@ == "no session"@,
            },
    {
        self.write(id)
    }

    /// Takes a terminal off the list. The terminal to end is handed back.
    pub fn close(&mut self, id: &str) -> (r: Option<u64>)
        ensures
            final(self)@ == old(self)@.remove(id@),
            match r {
                Some(h) => old(self)@.contains_key(id@) && h == old(self)@[id@],
                None => !old(self)@.contains_key(id@),
            },
    {
        match self.find(id) {
            Some(i) => {
                proof {
                    use_type_invariant(&*self);
                    lemma_handles_remove(self.sessions@, i as int);
                }
                let mut list: Vec<(String, u64)> = Vec::new();
                std::mem::swap(&mut list, &mut self.sessions);
                let (name, handle) = list.remove(i);
                self.sessions = list;
                Some(handle)
            },
            None => {
                assert(self@.remove(id@) =~= self@);
                None
            },
        }
    }
}

/// A command and a plan are told with all that they hold, and a path is there where it is
/// among those that were found.
pub proof fn commands_are_told_field_by_field(c: ShellCommand, p: OpenPlan, host: &Host, path: Seq<char>)
    ensures
        c@.program == c.program@,
        c@.args.len() == c.args@.len(),
        forall|i: int| 0 <= i < c.args@.len() ==> #[trigger] c@.args[i] == c.args@[i]@,
        c.cwd matches Some(d) ==> c@.cwd == Some(d@),
        c.cwd is None ==> c@.cwd is None,
        p@.shell == p.shell@ && p@.cwd == p.cwd@ && p@.command == p.command@,
        p@.cols == p.cols && p@.rows == p.rows,
        host.has(path) <==> exists|i: int|
            0 <= i < host.present@.len() && (#[trigger] host.present@[i])@ == path,
{
    let all = text::texts(host.present@);
    if host.has(path) {
        let i = choose|i: int| 0 <= i < all.len() && all[i] == path;
        assert(host.present@[i]@ == path);
    }
    if exists|i: int| 0 <= i < host.present@.len() && (#[trigger] host.present@[i])@ == path {
        let i = choose|i: int|
            0 <= i < host.present@.len() && (#[trigger] host.present@[i])@ == path;
        assert(all[i] == path);
    }
}

} // verus!
