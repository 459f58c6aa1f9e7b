//! The macOS user LaunchAgent: its plist, the status report built from
//! launchd and the daemon socket, and the reading of `launchctl` output.
use vstd::prelude::*;
use vstd::string::*;

use crate::config::{join, join_path, AppPaths};
use crate::logging::{log_tail_of, tail_content, LogTail};
use crate::text::{
    chars_of, contains, from_utf8_lossy, owned, push_char, push_chars, push_str, signed_decimal,
    str_contains, str_eq, string_of_range, trim, trim_str, utf8_lossy, lemma_lines_cons,
    lemma_trim_after_spaces, lines, strip_cr,
};

verus! {

/// The launchd label of the agent.
pub const LABEL: &'static str = "com.faronan.signalpane";

/// File name of the agent's plist.
pub const PLIST_FILE_NAME: &'static str = "com.faronan.signalpane.plist";

/// What launchd and the daemon socket report about the agent.
#[derive(Debug, Clone, PartialEq, Eq)]
pub struct LaunchAgentStatus {
    pub label: String,
    pub loaded: bool,
    pub daemon_ipc: DaemonIpcStatus,
    pub socket_path: String,
    pub log_path: String,
    pub plist_path: String,
    pub binary_path: String,
    pub warnings: Vec<String>,
}

/// Whether the daemon answered on its socket.
#[derive(Debug, Clone, Copy, PartialEq, Eq, Structural)]
pub enum DaemonIpcStatus {
    Responsive,
    Unreachable,
}

/// The word shown for each IPC state.
pub open spec fn ipc_status_text(s: DaemonIpcStatus) -> Seq<char> {
    match s {
        DaemonIpcStatus::Responsive => "responsive"@,
        DaemonIpcStatus::Unreachable => "unreachable"@,
    }
}

impl DaemonIpcStatus {
    /// `responsive` or `unreachable`.
    pub fn as_str(self) -> (r: &'static str)
        ensures
            r@ == ipc_status_text(self),
    {
        match self {
            DaemonIpcStatus::Responsive => "responsive",
            DaemonIpcStatus::Unreachable => "unreachable",
        }
    }
}

/// The tail of the daemon log that the agent writes.
pub type LaunchAgentLogs = LogTail;

/// The last `lines` lines of the daemon log, given its text (`None` when the
/// file does not exist).
pub fn logs(paths: &AppPaths, lines: usize, log_text: Option<String>) -> (r: LaunchAgentLogs)
    ensures
        r.log_path@ == paths.daemon_log@,
        r.exists == log_text is Some,
        r.content@ == match log_text {
            Some(t) => tail_content(t@, lines as nat),
            None => Seq::<char>::empty(),
        },
{
    log_tail_of(paths.daemon_log.clone(), log_text, lines)
}

/// `~/Library/LaunchAgents/com.faronan.signalpane.plist` under `home`.
pub open spec fn launch_agent_path_spec(home: Seq<char>) -> Seq<char> {
    join(join(join(home, "Library"@), "LaunchAgents"@), PLIST_FILE_NAME@)
}

/// The only plist location used: the user's own LaunchAgents directory.
pub fn launch_agent_path_from_home(home: &str) -> (r: String)
    ensures
        r@ == launch_agent_path_spec(home@),
{
    let a = join_path(home, "Library");
    let b = join_path(a.as_str(), "LaunchAgents");
    join_path(b.as_str(), PLIST_FILE_NAME)
}

/// The plist location for the value of `HOME`, which must be set.
pub fn launch_agent_path_from_env(home: Option<String>) -> (r: Result<String, String>)
    ensures
        home is None <==> r is Err,
        r is Ok ==> r->Ok_0@ == launch_agent_path_spec(home->Some_0@),
        r is Err ==> r->Err_0@ == "HOME is required to resolve the signalpane LaunchAgent path"@,
{
    match home {
        Some(h) => Ok(launch_agent_path_from_home(h.as_str())),
        None => Err(owned("HOME is required to resolve the signalpane LaunchAgent path")),
    }
}

// ---------------------------------------------------------------------------
// XML escaping
// ---------------------------------------------------------------------------

/// The XML text for one character.
pub open spec fn escape_char(c: char) -> Seq<char> {
    if c == '&' {
        seq!['&', 'a', 'm', 'p', ';']
    } else if c == '<' {
        seq!['&', 'l', 't', ';']
    } else if c == '>' {
        seq!['&', 'g', 't', ';']
    } else if c == '"' {
        seq!['&', 'q', 'u', 'o', 't', ';']
    } else if c == '\'' {
        seq!['&', 'a', 'p', 'o', 's', ';']
    } else {
        seq![c]
    }
}

/// `s` with the five XML special characters written as entities.
pub open spec fn escape(s: Seq<char>) -> Seq<char>
    decreases s.len(),
{
    if s.len() == 0 {
        seq![]
    } else {
        escape(s.drop_last()) + escape_char(s.last())
    }
}

proof fn lemma_escape_concat(a: Seq<char>, b: Seq<char>)
    ensures
        escape(a + b) == escape(a) + escape(b),
    decreases b.len(),
{
    if b.len() == 0 {
        assert(a + b =~= a);
    } else {
        assert((a + b).drop_last() =~= a + b.drop_last());
        lemma_escape_concat(a, b.drop_last());
    }
}

proof fn lemma_escape_cons(s: Seq<char>)
    requires
        s.len() > 0,
    ensures
        escape(s) == escape_char(s[0]) + escape(s.drop_first()),
{
    lemma_escape_concat(seq![s[0]], s.drop_first());
    assert(seq![s[0]] + s.drop_first() =~= s);
    assert(seq![s[0]].drop_last() =~= Seq::<char>::empty());
    assert(escape(Seq::<char>::empty()) == Seq::<char>::empty());
    assert(escape(seq![s[0]]) =~= escape_char(s[0]));
}

/// Escapes a value for a plist `<string>`.
pub fn escape_plist_string(value: &str) -> (r: String)
    ensures
        r@ == escape(value@),
{
    let v = chars_of(value);
    let mut out = String::new();
    let mut i: usize = 0;
    while i < v.len()
        invariant
            i <= v.len(),
            v@ == value@,
            out@ == escape(v@.take(i as int)),
        decreases v.len() - i,
    {
        let c = v[i];
        if c == '&' {
            push_str(&mut out, "&amp;");
        } else if c == '<' {
            push_str(&mut out, "&lt;");
        } else if c == '>' {
            push_str(&mut out, "&gt;");
        } else if c == '"' {
            push_str(&mut out, "&quot;");
        } else if c == '\'' {
            push_str(&mut out, "&apos;");
        } else {
            push_char(&mut out, c);
        }
        proof {
            reveal_strlit("&amp;");
            reveal_strlit("&lt;");
            reveal_strlit("&gt;");
            reveal_strlit("&quot;");
            reveal_strlit("&apos;");
            assert(v@.take(i + 1).drop_last() =~= v@.take(i as int));
        }
        i += 1;
    }
    assert(v@.take(v.len() as int) =~= v@);
    out
}

/// Index of the first `;` in `s`, or its length when there is none.
pub open spec fn semicolon_at(s: Seq<char>) -> int
    decreases s.len(),
{
    if s.len() == 0 {
        0
    } else if s[0] == ';' {
        0
    } else {
        1 + semicolon_at(s.drop_first())
    }
}

pub proof fn lemma_semicolon_bounds(s: Seq<char>)
    ensures
        0 <= semicolon_at(s) <= s.len(),
    decreases s.len(),
{
    if s.len() > 0 && s[0] != ';' {
        lemma_semicolon_bounds(s.drop_first());
    }
}

proof fn lemma_semicolon_at(s: Seq<char>, k: int)
    requires
        0 <= k <= s.len(),
        k < s.len() ==> s[k] == ';',
        forall|j: int| 0 <= j < k ==> s[j] != ';',
    ensures
        semicolon_at(s) == k,
    decreases s.len(),
{
    if s.len() > 0 && s[0] != ';' {
        lemma_semicolon_at(s.drop_first(), k - 1);
    }
}

/// The character that an entity stands for, or the entity itself when it is
/// not one of the five that `escape` writes.
pub open spec fn decode_entity(e: Seq<char>) -> Seq<char> {
    if e == seq!['&', 'a', 'm', 'p', ';'] {
        seq!['&']
    } else if e == seq!['&', 'l', 't', ';'] {
        seq!['<']
    } else if e == seq!['&', 'g', 't', ';'] {
        seq!['>']
    } else if e == seq!['&', 'q', 'u', 'o', 't', ';'] {
        seq!['"']
    } else if e == seq!['&', 'a', 'p', 'o', 's', ';'] {
        seq!['\'']
    } else {
        e
    }
}

/// `s` with entities decoded: each `&` up to the next `;` is an entity; an
/// `&` with no `;` after it stays as it is.
pub open spec fn unescape(s: Seq<char>) -> Seq<char>
    decreases s.len(),
{
    if s.len() == 0 {
        seq![]
    } else if s[0] != '&' {
        seq![s[0]] + unescape(s.drop_first())
    } else {
        proof {
            lemma_semicolon_bounds(s);
        }
        let k = semicolon_at(s);
        if k >= s.len() {
            seq!['&'] + unescape(s.drop_first())
        } else {
            decode_entity(s.take(k + 1)) + unescape(s.skip(k + 1))
        }
    }
}

/// Decoding what was escaped gives back the original text.
pub proof fn lemma_unescape_escape(s: Seq<char>)
    ensures
        unescape(escape(s)) == s,
    decreases s.len(),
{
    if s.len() > 0 {
        lemma_escape_cons(s);
        let c = s[0];
        let rest = escape(s.drop_first());
        let e = escape_char(c);
        let whole = e + rest;
        lemma_unescape_escape(s.drop_first());
        if c == '&' || c == '<' || c == '>' || c == '"' || c == '\'' {
            lemma_semicolon_at(whole, e.len() - 1);
            assert(whole.take(e.len() as int) =~= e);
            assert(whole.skip(e.len() as int) =~= rest);
        } else {
            assert(whole.drop_first() =~= rest);
        }
        assert(seq![c] + s.drop_first() =~= s);
    }
}

fn entity_at(v: &Vec<char>, i: usize, k: usize) -> (r: Option<char>)
    requires
        i <= k < v.len(),
    ensures
        match r {
            Some(c) => decode_entity(v@.subrange(i as int, k + 1)) == seq![c] && v@.subrange(
                i as int,
                k + 1,
            ) != seq![c],
            None => decode_entity(v@.subrange(i as int, k + 1)) == v@.subrange(i as int, k + 1),
        },
{
    let ghost e = v@.subrange(i as int, k + 1);
    let n = k - i + 1;
    assert(e.len() == n);
    assert(forall|j: int| 0 <= j < e.len() ==> e[j] == v@[i + j]);
    if n == 5 && v[i] == '&' && v[i + 1] == 'a' && v[i + 2] == 'm' && v[i + 3] == 'p' && v[i + 4]
        == ';' {
        assert(e =~= seq!['&', 'a', 'm', 'p', ';']);
        return Some('&');
    }
    if n == 4 && v[i] == '&' && v[i + 1] == 'l' && v[i + 2] == 't' && v[i + 3] == ';' {
        assert(e =~= seq!['&', 'l', 't', ';']);
        return Some('<');
    }
    if n == 4 && v[i] == '&' && v[i + 1] == 'g' && v[i + 2] == 't' && v[i + 3] == ';' {
        assert(e =~= seq!['&', 'g', 't', ';']);
        return Some('>');
    }
    if n == 6 && v[i] == '&' && v[i + 1] == 'q' && v[i + 2] == 'u' && v[i + 3] == 'o' && v[i + 4]
        == 't' && v[i + 5] == ';' {
        assert(e =~= seq!['&', 'q', 'u', 'o', 't', ';']);
        return Some('"');
    }
    if n == 6 && v[i] == '&' && v[i + 1] == 'a' && v[i + 2] == 'p' && v[i + 3] == 'o' && v[i + 4]
        == 's' && v[i + 5] == ';' {
        assert(e =~= seq!['&', 'a', 'p', 'o', 's', ';']);
        return Some('\'');
    }
    assert(e != seq!['&', 'a', 'm', 'p', ';']) by {
        if e == seq!['&', 'a', 'm', 'p', ';'] {
            assert(e[1] == 'a' && e[2] == 'm' && e[3] == 'p' && e[4] == ';');
        }
    }
    assert(e != seq!['&', 'l', 't', ';']) by {
        if e == seq!['&', 'l', 't', ';'] {
            assert(e[1] == 'l' && e[2] == 't' && e[3] == ';');
        }
    }
    assert(e != seq!['&', 'g', 't', ';']) by {
        if e == seq!['&', 'g', 't', ';'] {
            assert(e[1] == 'g' && e[2] == 't' && e[3] == ';');
        }
    }
    assert(e != seq!['&', 'q', 'u', 'o', 't', ';']) by {
        if e == seq!['&', 'q', 'u', 'o', 't', ';'] {
            assert(e[1] == 'q' && e[2] == 'u' && e[3] == 'o' && e[4] == 't' && e[5] == ';');
        }
    }
    assert(e != seq!['&', 'a', 'p', 'o', 's', ';']) by {
        if e == seq!['&', 'a', 'p', 'o', 's', ';'] {
            assert(e[1] == 'a' && e[2] == 'p' && e[3] == 'o' && e[4] == 's' && e[5] == ';');
        }
    }
    None
}

/// Decodes the entities of a plist `<string>` value.
pub fn unescape_plist_string(value: &str) -> (r: String)
    ensures
        r@ == unescape(value@),
{
    let v = chars_of(value);
    let mut out = String::new();
    let mut i: usize = 0;
    assert(v@.skip(0) =~= v@);
    while i < v.len()
        invariant
            i <= v.len(),
            v@ == value@,
            out@ + unescape(v@.skip(i as int)) == unescape(v@),
        decreases v.len() - i,
    {
        let ghost rest = v@.skip(i as int);
        let ghost out0 = out@;
        assert(rest[0] == v@[i as int]);
        if v[i] != '&' {
            push_char(&mut out, v[i]);
            assert(rest.drop_first() =~= v@.skip(i + 1));
            assert(out@ + unescape(v@.skip(i + 1)) =~= out0 + unescape(rest));
            i += 1;
        } else {
            let mut k = i + 1;
            while k < v.len() && v[k] != ';'
                invariant
                    i < k <= v.len(),
                    forall|j: int| i < j < k ==> v@[j] != ';',
                decreases v.len() - k,
            {
                k += 1;
            }
            proof {
                lemma_semicolon_at(rest, k - i);
            }
            if k == v.len() {
                push_char(&mut out, '&');
                assert(rest.drop_first() =~= v@.skip(i + 1));
                assert(out@ + unescape(v@.skip(i + 1)) =~= out0 + unescape(rest));
                i += 1;
            } else {
                assert(rest.take(k - i + 1) =~= v@.subrange(i as int, k + 1));
                assert(rest.skip(k - i + 1) =~= v@.skip(k + 1));
                match entity_at(&v, i, k) {
                    Some(c) => push_char(&mut out, c),
                    None => {
                        let e = string_of_range(&v, i, k + 1);
                        push_str(&mut out, e.as_str());
                    },
                }
                assert(out@ + unescape(v@.skip(k + 1)) =~= out0 + unescape(rest));
                i = k + 1;
            }
        }
    }
    assert(out@ + unescape(v@.skip(i as int)) =~= out@);
    out
}

// ---------------------------------------------------------------------------
// The plist
// ---------------------------------------------------------------------------

/// The lines of the plist before the line of the program path.
pub open spec fn head_lines() -> Seq<Seq<char>> {
    seq![
        "<?xml version=\"1.0\" encoding=\"UTF-8\"?>"@,
        "<!DOCTYPE plist PUBLIC \"-//Apple//DTD PLIST 1.0//EN\" \"http://www.apple.com/DTDs/PropertyList-1.0.dtd\">"@,
        "<plist version=\"1.0\">"@,
        "<dict>"@,
        "  <key>Label</key>"@,
        "  <string>"@ + LABEL@ + "</string>"@,
        "  <key>ProgramArguments</key>"@,
        "  <array>"@,
    ]
}

/// The plist text before the program path: the head lines, each with its
/// line feed, and the opening of the program path's `<string>`.
pub open spec fn plist_head() -> Seq<char> {
    "<?xml version=\"1.0\" encoding=\"UTF-8\"?>"@ + seq!['\n']
        + "<!DOCTYPE plist PUBLIC \"-//Apple//DTD PLIST 1.0//EN\" \"http://www.apple.com/DTDs/PropertyList-1.0.dtd\">"@
        + seq!['\n'] + "<plist version=\"1.0\">"@ + seq!['\n'] + "<dict>"@ + seq!['\n']
        + "  <key>Label</key>"@ + seq!['\n'] + "  <string>"@ + LABEL@ + "</string>"@ + seq!['\n']
        + "  <key>ProgramArguments</key>"@ + seq!['\n'] + "  <array>"@ + seq!['\n'] + "    <string>"@
}

/// The plist text after the line of the program path, up to the log path.
pub open spec fn plist_after_program() -> Seq<char> {
    "    <string>daemon</string>\n    <string>--foreground</string>\n  </array>\n  <key>RunAtLoad</key>\n  <true/>\n  <key>KeepAlive</key>\n  <true/>\n  <key>StandardOutPath</key>\n  <string>"@
}

/// The plist text between the two copies of the log path.
pub open spec fn plist_between_logs() -> Seq<char> {
    "</string>\n  <key>StandardErrorPath</key>\n  <string>"@
}

/// The plist text after the log path.
pub open spec fn plist_tail() -> Seq<char> {
    "</string>\n</dict>\n</plist>\n"@
}

/// The plist that runs `program daemon --foreground` at load, keeps it alive,
/// and sends its output to the daemon log.
pub open spec fn plist_text(program: Seq<char>, daemon_log: Seq<char>) -> Seq<char> {
    plist_head() + escape(program) + "</string>"@ + seq!['\n'] + plist_after_program() + escape(
        daemon_log,
    ) + plist_between_logs() + escape(daemon_log) + plist_tail()
}

fn push_line(r: &mut String, line: &str)
    ensures
        final(r)@ == old(r)@ + line@ + seq!['\n'],
{
    push_str(r, line);
    push_char(r, '\n');
}

/// The LaunchAgent plist for the given binary and paths.
pub fn render_plist(program_path: &str, paths: &AppPaths) -> (r: String)
    ensures
        r@ == plist_text(program_path@, paths.daemon_log@),
{
    let program = escape_plist_string(program_path);
    let daemon_log = escape_plist_string(paths.daemon_log.as_str());
    let mut r = owned("<?xml version=\"1.0\" encoding=\"UTF-8\"?>");
    push_char(&mut r, '\n');
    push_line(
        &mut r,
        "<!DOCTYPE plist PUBLIC \"-//Apple//DTD PLIST 1.0//EN\" \"http://www.apple.com/DTDs/PropertyList-1.0.dtd\">",
    );
    push_line(&mut r, "<plist version=\"1.0\">");
    push_line(&mut r, "<dict>");
    push_line(&mut r, "  <key>Label</key>");
    push_str(&mut r, "  <string>");
    push_str(&mut r, LABEL);
    push_line(&mut r, "</string>");
    push_line(&mut r, "  <key>ProgramArguments</key>");
    push_line(&mut r, "  <array>");
    push_str(&mut r, "    <string>");
    push_str(&mut r, program.as_str());
    push_line(&mut r, "</string>");
    push_str(
        &mut r,
        "    <string>daemon</string>\n    <string>--foreground</string>\n  </array>\n  <key>RunAtLoad</key>\n  <true/>\n  <key>KeepAlive</key>\n  <true/>\n  <key>StandardOutPath</key>\n  <string>",
    );
    push_str(&mut r, daemon_log.as_str());
    push_str(&mut r, "</string>\n  <key>StandardErrorPath</key>\n  <string>");
    push_str(&mut r, daemon_log.as_str());
    push_str(&mut r, "</string>\n</dict>\n</plist>\n");
    r
}

/// The value of a line that is exactly `<string>value</string>`.
pub open spec fn string_value(line: Seq<char>) -> Option<Seq<char>> {
    if line.len() >= 17 && line.take(8) == "<string>"@ && line.skip(line.len() - 9)
        == "</string>"@ {
        Some(line.subrange(8, line.len() - 9))
    } else {
        None
    }
}

/// The registered binary path found among the plist's lines: the first
/// `<string>` of the `ProgramArguments` array, decoded.
pub open spec fn program_from_lines(ls: Seq<Seq<char>>, in_arguments: bool) -> Option<Seq<char>>
    decreases ls.len(),
{
    if ls.len() == 0 {
        None
    } else {
        let line = trim(ls[0]);
        if line == "<key>ProgramArguments</key>"@ {
            program_from_lines(ls.drop_first(), true)
        } else if !in_arguments || line == "<array>"@ {
            program_from_lines(ls.drop_first(), in_arguments)
        } else if line == "</array>"@ {
            None
        } else {
            match string_value(line) {
                Some(v) => Some(unescape(v)),
                None => None,
            }
        }
    }
}

fn plist_string_value(line: &str) -> (r: Option<String>)
    ensures
        match r {
            Some(v) => string_value(line@) == Some(v@),
            None => string_value(line@) is None,
        },
{
    let v = chars_of(line);
    let open = chars_of("<string>");
    let close = chars_of("</string>");
    proof {
        reveal_strlit("<string>");
        reveal_strlit("</string>");
    }
    assert(open.len() == 8);
    assert(close.len() == 9);
    let n = v.len();
    if n < 17 {
        return None;
    }
    let mut i: usize = 0;
    while i < 8
        invariant
            i <= 8,
            v@ == line@,
            n == v.len(),
            n >= 17,
            open@ == "<string>"@,
            open.len() == 8,
            forall|j: int| 0 <= j < i ==> v@[j] == open@[j],
        decreases 8 - i,
    {
        if v[i] != open[i] {
            assert(v@.take(8)[i as int] != "<string>"@[i as int]);
            return None;
        }
        i += 1;
    }
    assert(v@.take(8) =~= "<string>"@);
    let mut j: usize = 0;
    while j < 9
        invariant
            j <= 9,
            v@ == line@,
            v@.take(8) == "<string>"@,
            n == v.len(),
            n >= 17,
            close@ == "</string>"@,
            close.len() == 9,
            forall|m: int| 0 <= m < j ==> v@[n - 9 + m] == close@[m],
        decreases 9 - j,
    {
        if v[n - 9 + j] != close[j] {
            assert(v@.skip(n - 9)[j as int] != "</string>"@[j as int]);
            return None;
        }
        j += 1;
    }
    assert(v@.skip(n - 9) =~= "</string>"@);
    Some(string_of_range(&v, 8, n - 9))
}

/// The binary that a plist registers: the first `<string>` inside the
/// `ProgramArguments` array, with entities decoded.
pub fn registered_binary_path_from_plist(plist: &str) -> (r: Option<String>)
    ensures
        match r {
            Some(p) => program_from_lines(crate::text::lines(plist@), false) == Some(p@),
            None => program_from_lines(crate::text::lines(plist@), false) is None,
        },
{
    let ls = crate::text::split_lines(plist);
    let ghost all = ls.deep_view();
    let mut in_arguments = false;
    let mut k: usize = 0;
    assert(all.skip(0) =~= all);
    while k < ls.len()
        invariant
            k <= ls.len(),
            all == ls.deep_view(),
            all == crate::text::lines(plist@),
            program_from_lines(all, false) == program_from_lines(all.skip(k as int), in_arguments),
        decreases ls.len() - k,
    {
        let line = trim_str(ls[k].as_str());
        let ghost rest = all.skip(k as int);
        assert(rest[0] == ls[k as int]@);
        assert(rest.drop_first() =~= all.skip(k + 1));
        if str_eq(line.as_str(), "<key>ProgramArguments</key>") {
            in_arguments = true;
        } else if !in_arguments || str_eq(line.as_str(), "<array>") {
        } else if str_eq(line.as_str(), "</array>") {
            return None;
        } else {
            return match plist_string_value(line.as_str()) {
                Some(v) => Some(unescape_plist_string(v.as_str())),
                None => None,
            };
        }
        k += 1;
    }
    None
}

/// A text without line feeds.
pub open spec fn single_line(s: Seq<char>) -> bool {
    forall|k: int| 0 <= k < s.len() ==> s[k] != '\n'
}

proof fn lemma_escape_single_line(s: Seq<char>)
    requires
        single_line(s),
    ensures
        single_line(escape(s)),
    decreases s.len(),
{
    if s.len() > 0 {
        assert(single_line(s.drop_last())) by {
            assert forall|k: int| 0 <= k < s.drop_last().len() implies s.drop_last()[k] != '\n' by {
                assert(s.drop_last()[k] == s[k]);
            }
        }
        lemma_escape_single_line(s.drop_last());
        let a = escape(s.drop_last());
        let b = escape_char(s.last());
        assert(s.last() == s[s.len() - 1]);
        assert(single_line(b));
        assert forall|k: int| 0 <= k < (a + b).len() implies (a + b)[k] != '\n' by {
            if k >= a.len() {
                assert((a + b)[k] == b[k - a.len()]);
            }
        }
    }
}

proof fn lemma_program_step(a: Seq<char>, t: Seq<Seq<char>>, in_arguments: bool)
    ensures
        program_from_lines(seq![a] + t, in_arguments) == (if trim(a)
            == "<key>ProgramArguments</key>"@ {
            program_from_lines(t, true)
        } else if !in_arguments || trim(a) == "<array>"@ {
            program_from_lines(t, in_arguments)
        } else if trim(a) == "</array>"@ {
            None
        } else {
            match string_value(trim(a)) {
                Some(v) => Some(unescape(v)),
                None => None,
            }
        }),
{
    assert((seq![a] + t).drop_first() =~= t);
    assert((seq![a] + t)[0] == a);
}

proof fn lemma_head_lines_single()
    ensures
        forall|i: int|
            0 <= i < head_lines().len() ==> single_line(#[trigger] head_lines()[i])
                && strip_cr(head_lines()[i]) == head_lines()[i],
        head_lines().len() == 8,
{
    reveal_strlit("<?xml version=\"1.0\" encoding=\"UTF-8\"?>");
    reveal_strlit(
        "<!DOCTYPE plist PUBLIC \"-//Apple//DTD PLIST 1.0//EN\" \"http://www.apple.com/DTDs/PropertyList-1.0.dtd\">",
    );
    reveal_strlit("<plist version=\"1.0\">");
    reveal_strlit("<dict>");
    reveal_strlit("  <key>Label</key>");
    reveal_strlit("  <string>");
    reveal_strlit("com.faronan.signalpane");
    reveal_strlit("</string>");
    reveal_strlit("  <key>ProgramArguments</key>");
    reveal_strlit("  <array>");
}

proof fn lemma_head_lines_trimmed()
    ensures
        trim(head_lines()[0]) != "<key>ProgramArguments</key>"@,
        trim(head_lines()[1]) != "<key>ProgramArguments</key>"@,
        trim(head_lines()[2]) != "<key>ProgramArguments</key>"@,
        trim(head_lines()[3]) != "<key>ProgramArguments</key>"@,
        trim(head_lines()[4]) != "<key>ProgramArguments</key>"@,
        trim(head_lines()[5]) != "<key>ProgramArguments</key>"@,
        trim(head_lines()[6]) == "<key>ProgramArguments</key>"@,
        trim(head_lines()[7]) != "<key>ProgramArguments</key>"@,
        trim(head_lines()[7]) == "<array>"@,
{
    let pa = "<key>ProgramArguments</key>"@;
    reveal_strlit("<key>ProgramArguments</key>");
    reveal_strlit("<array>");
    reveal_strlit("<?xml version=\"1.0\" encoding=\"UTF-8\"?>");
    reveal_strlit(
        "<!DOCTYPE plist PUBLIC \"-//Apple//DTD PLIST 1.0//EN\" \"http://www.apple.com/DTDs/PropertyList-1.0.dtd\">",
    );
    reveal_strlit("<plist version=\"1.0\">");
    reveal_strlit("<dict>");
    reveal_strlit("  <key>Label</key>");
    reveal_strlit("  <string>");
    reveal_strlit("com.faronan.signalpane");
    reveal_strlit("</string>");
    reveal_strlit("  <key>ProgramArguments</key>");
    reveal_strlit("  <array>");
    let h = head_lines();
    lemma_trim_after_spaces(h[0], 0);
    lemma_trim_after_spaces(h[1], 0);
    lemma_trim_after_spaces(h[2], 0);
    lemma_trim_after_spaces(h[3], 0);
    lemma_trim_after_spaces(h[4], 2);
    lemma_trim_after_spaces(h[5], 2);
    lemma_trim_after_spaces(h[6], 2);
    lemma_trim_after_spaces(h[7], 2);
    assert(h[0].skip(0).len() != pa.len());
    assert(h[1].skip(0).len() != pa.len());
    assert(h[2].skip(0).len() != pa.len());
    assert(h[3].skip(0).len() != pa.len());
    assert(h[4].skip(2).len() != pa.len());
    assert(h[5].skip(2).len() != pa.len());
    assert(h[6].skip(2) =~= pa);
    assert(h[7].skip(2).len() != pa.len());
    assert(h[7].skip(2) =~= "<array>"@);
}

/// The line of the program path.
pub open spec fn program_line(program: Seq<char>) -> Seq<char> {
    "    <string>"@ + escape(program) + "</string>"@
}

/// What follows the line of the program path.
pub open spec fn plist_rest(daemon_log: Seq<char>) -> Seq<char> {
    plist_after_program() + escape(daemon_log) + plist_between_logs() + escape(daemon_log)
        + plist_tail()
}

proof fn lemma_program_line(program: Seq<char>)
    requires
        single_line(program),
    ensures
        single_line(program_line(program)),
        strip_cr(program_line(program)) == program_line(program),
        trim(program_line(program)) != "<key>ProgramArguments</key>"@,
        trim(program_line(program)) != "<array>"@,
        trim(program_line(program)) != "</array>"@,
        string_value(trim(program_line(program))) == Some(escape(program)),
{
    reveal_strlit("    <string>");
    reveal_strlit("</string>");
    reveal_strlit("<string>");
    reveal_strlit("<key>ProgramArguments</key>");
    reveal_strlit("<array>");
    reveal_strlit("</array>");
    let e = escape(program);
    let x = program_line(program);
    lemma_escape_single_line(program);
    assert forall|k: int| 0 <= k < x.len() implies x[k] != '\n' by {
        if 12 <= k < 12 + e.len() {
            assert(x[k] == e[k - 12]);
        }
    }
    assert(x[4] == '<');
    assert(x.last() == '>');
    lemma_trim_after_spaces(x, 4);
    let y = x.skip(4);
    assert(y =~= "<string>"@ + e + "</string>"@);
    assert(y[1] == 's');
    assert("<key>ProgramArguments</key>"@[1] == 'k');
    assert("<array>"@[1] == 'a');
    assert("</array>"@[1] == '/');
    assert(y.take(8) =~= "<string>"@);
    assert(y.skip(y.len() - 9) =~= "</string>"@);
    assert(y.subrange(8, y.len() - 9) =~= e);
}

proof fn lemma_join_head(t: Seq<char>)
    ensures
        plist_head() + t =~= head_lines()[0] + seq!['\n'] + (head_lines()[1] + seq!['\n'] + (
        head_lines()[2] + seq!['\n'] + (head_lines()[3] + seq!['\n'] + (head_lines()[4] + seq![
            '\n',
        ] + (head_lines()[5] + seq!['\n'] + (head_lines()[6] + seq!['\n'] + (head_lines()[7]
            + seq!['\n'] + ("    <string>"@ + t)))))))),
{
}

proof fn lemma_plist_lines(program: Seq<char>, daemon_log: Seq<char>)
    requires
        single_line(program),
    ensures
        lines(plist_text(program, daemon_log)) == head_lines() + seq![program_line(program)]
            + lines(plist_rest(daemon_log)),
{
    let h = head_lines();
    let x = program_line(program);
    let rest = plist_rest(daemon_log);
    let nl = seq!['\n'];
    let t8 = x + nl + rest;
    assert("    <string>"@ + (escape(program) + "</string>"@ + nl + rest) =~= t8);
    lemma_join_head(escape(program) + "</string>"@ + nl + rest);
    assert(plist_text(program, daemon_log) =~= plist_head() + (escape(program) + "</string>"@
        + nl + rest));
    lemma_head_lines_single();
    lemma_program_line(program);
    let t7 = h[7] + nl + t8;
    let t6 = h[6] + nl + t7;
    let t5 = h[5] + nl + t6;
    let t4 = h[4] + nl + t5;
    let t3 = h[3] + nl + t4;
    let t2 = h[2] + nl + t3;
    let t1 = h[1] + nl + t2;
    let t0 = h[0] + nl + t1;
    assert(single_line(h[0]) && single_line(h[1]) && single_line(h[2]) && single_line(h[3]));
    assert(single_line(h[4]) && single_line(h[5]) && single_line(h[6]) && single_line(h[7]));
    lemma_lines_cons(x, rest);
    lemma_lines_cons(h[7], t8);
    lemma_lines_cons(h[6], t7);
    lemma_lines_cons(h[5], t6);
    lemma_lines_cons(h[4], t5);
    lemma_lines_cons(h[3], t4);
    lemma_lines_cons(h[2], t3);
    lemma_lines_cons(h[1], t2);
    lemma_lines_cons(h[0], t1);
    assert(lines(t0) =~= h + seq![x] + lines(rest));
}

/// The binary that a rendered plist registers is the one it was rendered
/// for, where that path holds no line feed.
pub proof fn lemma_registered_binary_of_rendered(program: Seq<char>, daemon_log: Seq<char>)
    requires
        single_line(program),
    ensures
        program_from_lines(lines(plist_text(program, daemon_log)), false) == Some(program),
{
    lemma_plist_lines(program, daemon_log);
    lemma_head_lines_trimmed();
    lemma_program_line(program);
    lemma_unescape_escape(program);
    let h = head_lines();
    let x = program_line(program);
    let r = lines(plist_rest(daemon_log));
    let s8 = seq![x] + r;
    let s7 = seq![h[7]] + s8;
    let s6 = seq![h[6]] + s7;
    let s5 = seq![h[5]] + s6;
    let s4 = seq![h[4]] + s5;
    let s3 = seq![h[3]] + s4;
    let s2 = seq![h[2]] + s3;
    let s1 = seq![h[1]] + s2;
    let s0 = seq![h[0]] + s1;
    lemma_head_lines_single();
    assert(h + seq![x] + r =~= s0);
    lemma_program_step(x, r, true);
    lemma_program_step(h[7], s8, true);
    lemma_program_step(h[6], s7, false);
    lemma_program_step(h[5], s6, false);
    lemma_program_step(h[4], s5, false);
    lemma_program_step(h[3], s4, false);
    lemma_program_step(h[2], s3, false);
    lemma_program_step(h[1], s2, false);
    lemma_program_step(h[0], s1, false);
}

// ---------------------------------------------------------------------------
// Status
// ---------------------------------------------------------------------------

/// A daemon answers on the socket although launchd has not loaded the agent:
/// a foreground daemon owns the socket.
pub open spec fn socket_conflict(loaded: bool, daemon_ipc: DaemonIpcStatus) -> bool {
    !loaded && daemon_ipc == DaemonIpcStatus::Responsive
}

/// A daemon answers on the socket although launchd has not loaded the agent.
pub fn foreground_socket_conflict(loaded: bool, daemon_ipc: DaemonIpcStatus) -> (r: bool)
    ensures
        r == socket_conflict(loaded, daemon_ipc),
{
    !loaded && daemon_ipc == DaemonIpcStatus::Responsive
}

/// The warning and error text for a foreground daemon on `socket`.
pub open spec fn foreground_conflict_message(socket: Seq<char>) -> Seq<char> {
    "foreground daemon appears to be running at "@ + socket
        + "; stop it before launch-agent install or restart"@
}

fn foreground_conflict_text(socket_path: &str) -> (r: String)
    ensures
        r@ == foreground_conflict_message(socket_path@),
{
    let mut r = owned("foreground daemon appears to be running at ");
    push_str(&mut r, socket_path);
    push_str(&mut r, "; stop it before launch-agent install or restart");
    r
}

/// Refuses to install or restart while a foreground daemon owns the socket.
pub fn ensure_no_foreground_socket_conflict(
    loaded: bool,
    daemon_ipc: DaemonIpcStatus,
    socket_path: &str,
) -> (r: Result<(), String>)
    ensures
        r is Err <==> socket_conflict(loaded, daemon_ipc),
        r is Err ==> r->Err_0@ == foreground_conflict_message(socket_path@),
{
    if foreground_socket_conflict(loaded, daemon_ipc) {
        return Err(foreground_conflict_text(socket_path));
    }
    Ok(())
}

/// The warning shown when the plist registers another binary than the one running.
pub open spec fn binary_differs_message(current: Seq<char>) -> Seq<char> {
    "registered binary differs from current executable: current="@ + current
}

/// The binary path a status reports: the one registered in the plist text,
/// else the current executable.
pub open spec fn status_binary_path(plist_text: Option<String>, current: Seq<char>) -> Seq<char> {
    match plist_text {
        Some(t) => match program_from_lines(crate::text::lines(t@), false) {
            Some(p) => p,
            None => current,
        },
        None => current,
    }
}

/// The warnings a status reports.
pub open spec fn status_warnings(
    socket: Seq<char>,
    binary: Seq<char>,
    current: Seq<char>,
    loaded: bool,
    daemon_ipc: DaemonIpcStatus,
) -> Seq<Seq<char>> {
    (if binary != current {
        seq![binary_differs_message(current)]
    } else {
        seq![]
    }) + (if socket_conflict(loaded, daemon_ipc) {
        seq![foreground_conflict_message(socket)]
    } else {
        seq![]
    })
}

/// The status of the agent, given the text of its plist (`None` when it cannot
/// be read), whether launchd has it loaded, the running executable, and
/// whether the daemon answers on its socket.
pub fn build_status(
    paths: &AppPaths,
    plist_path: String,
    plist_text: Option<String>,
    loaded: bool,
    current_binary_path: String,
    daemon_ipc: DaemonIpcStatus,
) -> (r: LaunchAgentStatus)
    ensures
        r.label@ == LABEL@,
        r.loaded == loaded,
        r.daemon_ipc == daemon_ipc,
        r.socket_path@ == paths.socket_file@,
        r.log_path@ == paths.daemon_log@,
        r.plist_path@ == plist_path@,
        r.binary_path@ == status_binary_path(plist_text, current_binary_path@),
        r.warnings.deep_view() == status_warnings(
            paths.socket_file@,
            r.binary_path@,
            current_binary_path@,
            loaded,
            daemon_ipc,
        ),
{
    let registered = match &plist_text {
        Some(t) => registered_binary_path_from_plist(t.as_str()),
        None => None,
    };
    let binary_path = match registered {
        Some(p) => p,
        None => current_binary_path.clone(),
    };
    let mut warnings: Vec<String> = Vec::new();
    if binary_path != current_binary_path {
        let mut w = owned("registered binary differs from current executable: current=");
        push_str(&mut w, current_binary_path.as_str());
        warnings.push(w);
    }
    if foreground_socket_conflict(loaded, daemon_ipc) {
        warnings.push(foreground_conflict_text(paths.socket_file.as_str()));
    }
    assert(warnings.deep_view() =~= status_warnings(
        paths.socket_file@,
        binary_path@,
        current_binary_path@,
        loaded,
        daemon_ipc,
    ));
    LaunchAgentStatus {
        label: owned(LABEL),
        loaded,
        daemon_ipc,
        socket_path: paths.socket_file.clone(),
        log_path: paths.daemon_log.clone(),
        plist_path,
        binary_path,
        warnings,
    }
}

// ---------------------------------------------------------------------------
// launchctl
// ---------------------------------------------------------------------------

/// What a finished command left: whether it succeeded, its exit code (none
/// when a signal ended it), the text of its exit status, and its output.
#[derive(Debug, Clone, PartialEq, Eq)]
pub struct CommandOutput {
    pub success: bool,
    pub code: Option<i32>,
    pub status_text: String,
    pub stdout: Vec<u8>,
    pub stderr: Vec<u8>,
}

/// `gui/<uid>`: the user's launchd domain.
pub open spec fn gui_domain_spec(uid: Seq<char>) -> Seq<char> {
    "gui/"@ + uid
}

/// The user's launchd domain.
pub fn gui_domain(uid: &str) -> (r: String)
    ensures
        r@ == gui_domain_spec(uid@),
{
    let mut r = owned("gui/");
    push_str(&mut r, uid);
    r
}

/// `gui/<uid>/com.faronan.signalpane`: the agent's launchd service.
pub fn service_target(uid: &str) -> (r: String)
    ensures
        r@ == gui_domain_spec(uid@) + seq!['/'] + LABEL@,
{
    let mut r = gui_domain(uid);
    push_char(&mut r, '/');
    push_str(&mut r, LABEL);
    r
}

/// The parts joined with single spaces.
pub open spec fn join_spaced(a: Seq<char>, b: Seq<char>) -> Seq<char> {
    if a.len() == 0 {
        b
    } else if b.len() == 0 {
        a
    } else {
        a + seq![' '] + b
    }
}

/// What a command said: its trimmed standard error and standard output, the
/// empty ones left out, joined with a space.
pub open spec fn output_message_spec(out: CommandOutput) -> Seq<char> {
    join_spaced(trim(utf8_lossy(out.stderr@)), trim(utf8_lossy(out.stdout@)))
}

/// What a command said on its standard error and output.
pub fn launchctl_output_message(output: &CommandOutput) -> (r: String)
    ensures
        r@ == output_message_spec(*output),
{
    let stderr = from_utf8_lossy(&output.stderr);
    let stdout = from_utf8_lossy(&output.stdout);
    let e = trim_str(stderr.as_str());
    let o = trim_str(stdout.as_str());
    if e.as_str().unicode_len() == 0 {
        o
    } else if o.as_str().unicode_len() == 0 {
        e
    } else {
        let mut r = e;
        push_char(&mut r, ' ');
        push_str(&mut r, o.as_str());
        r
    }
}

/// launchctl reports that it has no such service: exit code 113 and that message.
pub open spec fn service_not_found(out: CommandOutput) -> bool {
    out.code == Some(113i32) && contains(output_message_spec(out), "Could not find service"@)
}

/// launchctl reports that it has no such service.
pub fn is_service_not_found(output: &CommandOutput) -> (r: bool)
    ensures
        r == service_not_found(*output),
{
    if output.code != Some(113i32) {
        return false;
    }
    let message = launchctl_output_message(output);
    str_contains(message.as_str(), "Could not find service")
}

/// The error for a failed command.
pub open spec fn failure_message(out: CommandOutput, description: Seq<char>) -> Seq<char> {
    if output_message_spec(out).len() == 0 {
        description + " failed with status "@ + out.status_text@
    } else {
        description + " failed: "@ + output_message_spec(out)
    }
}

/// The output of a command that succeeded, or the error that names it.
pub fn ensure_success(output: CommandOutput, description: &str) -> (r: Result<
    CommandOutput,
    String,
>)
    ensures
        output.success ==> r == Ok::<CommandOutput, String>(output),
        !output.success ==> r is Err && r->Err_0@ == failure_message(output, description@),
{
    if output.success {
        return Ok(output);
    }
    let message = launchctl_output_message(&output);
    let mut r = owned(description);
    if message.as_str().unicode_len() == 0 {
        push_str(&mut r, " failed with status ");
        push_str(&mut r, output.status_text.as_str());
    } else {
        push_str(&mut r, " failed: ");
        push_str(&mut r, message.as_str());
    }
    Err(r)
}

/// Whether `launchctl print` shows the service loaded: success means loaded,
/// "not found" means not loaded, anything else is an error.
pub fn print_output_loaded(output: CommandOutput) -> (r: Result<bool, String>)
    ensures
        output.success ==> r == Ok::<bool, String>(true),
        !output.success && service_not_found(output) ==> r == Ok::<bool, String>(false),
        !output.success && !service_not_found(output) ==> r is Err && r->Err_0@
            == failure_message(output, "launchctl print"@),
{
    if output.success {
        return Ok(true);
    }
    if is_service_not_found(&output) {
        return Ok(false);
    }
    match ensure_success(output, "launchctl print") {
        Ok(_) => Ok(true),
        Err(e) => Err(e),
    }
}

/// Whether `launchctl bootout` did its work: success or "not found" are fine.
pub fn ensure_bootout_success(output: CommandOutput) -> (r: Result<(), String>)
    ensures
        (output.success || service_not_found(output)) ==> r is Ok,
        !(output.success || service_not_found(output)) ==> r is Err && r->Err_0@
            == failure_message(output, "launchctl bootout"@),
{
    if output.success || is_service_not_found(&output) {
        return Ok(());
    }
    match ensure_success(output, "launchctl bootout") {
        Ok(_) => Ok(()),
        Err(e) => Err(e),
    }
}

} // verus!
