//! The daemon log: secret redaction, the lines appended to it, the tail shown
//! to users, and the in-place cap that keeps the file small.
use vstd::prelude::*;
use vstd::string::*;
use vstd::utf8::{char_is_scalar, encode_scalar, encode_utf8};

use crate::config::Secrets;
use crate::text::{
    chars_of, contains, decimal, from_utf8_lossy, utf8_lossy, lemma_replace_absent, lines, owned, push_char, push_str, push_u64,
    replace_all, replace_str, split_lines, starts_with, trim, trim_str, lex_lt, lex_lt_exec, lemma_lex_irreflexive,
    lemma_lex_transitive, lemma_lex_total, clear_of, lemma_replace_keeps_absent,
    lemma_replace_removes,
};

verus! {

/// Lines shown by `signalpane log` unless `--lines` says otherwise.
pub const DEFAULT_LOG_LINES: usize = 100;

/// The daemon log is capped at startup once it is larger than this.
pub const MAX_DAEMON_LOG_BYTES: u64 = 1048576;

/// About this many bytes from the end of the log survive a cap.
pub const RETAIN_DAEMON_LOG_BYTES: u64 = 524288;

/// What a secret is replaced with.
pub const REDACTED: &'static str = "[REDACTED]";

/// The tail of the daemon log.
#[derive(Debug, Clone, PartialEq, Eq)]
pub struct LogTail {
    pub log_path: String,
    pub exists: bool,
    pub content: String,
}

/// What capping the log did.
#[derive(Debug, Clone, Copy, PartialEq, Eq)]
pub enum LogCapOutcome {
    Missing,
    Unchanged { bytes: u64 },
    Capped { original_bytes: u64, retained_bytes: u64 },
}

// ---------------------------------------------------------------------------
// Ordering of secret values
// ---------------------------------------------------------------------------

/// The UTF-8 length of a string, as `str::len` counts it.
pub open spec fn byte_len(s: Seq<char>) -> nat {
    encode_utf8(s).len()
}

/// `a` is replaced before `b`: longer values first, and among values of one
/// length in lexicographic order.
pub open spec fn redact_before(a: Seq<char>, b: Seq<char>) -> bool {
    byte_len(a) > byte_len(b) || (byte_len(a) == byte_len(b) && lex_lt(a, b))
}

/// Each value comes strictly before every later one.
pub open spec fn strictly_ordered(s: Seq<Seq<char>>) -> bool {
    forall|i: int, j: int| 0 <= i < j < s.len() ==> redact_before(#[trigger] s[i], #[trigger] s[j])
}

proof fn lemma_before_transitive(a: Seq<char>, b: Seq<char>, c: Seq<char>)
    requires
        redact_before(a, b),
        redact_before(b, c),
    ensures
        redact_before(a, c),
{
    if byte_len(a) == byte_len(b) && byte_len(b) == byte_len(c) {
        lemma_lex_transitive(a, b, c);
    }
}

proof fn lemma_before_total(a: Seq<char>, b: Seq<char>)
    requires
        a != b,
    ensures
        redact_before(a, b) || redact_before(b, a),
{
    lemma_lex_total(a, b);
}

/// The UTF-8 width of one character.
fn utf8_width(c: char) -> (w: u128)
    ensures
        w == encode_scalar(c as u32).len(),
{
    proof {
        char_is_scalar(c);
    }
    let v = c as u32;
    if v <= 0x7f {
        1
    } else if v <= 0x7ff {
        2
    } else if v <= 0xffff {
        3
    } else {
        4
    }
}

/// The UTF-8 length of the characters in `v`.
fn utf8_len(v: &Vec<char>) -> (n: u128)
    ensures
        n == byte_len(v@),
{
    let mut i: usize = v.len();
    let mut acc: u128 = 0;
    assert(v@.skip(v.len() as int) =~= Seq::<char>::empty());
    while i > 0
        invariant
            i <= v.len(),
            acc == encode_utf8(v@.skip(i as int)).len(),
            acc <= 4 * (v.len() - i),
        decreases i,
    {
        let w = utf8_width(v[i - 1]);
        assert(v@.skip(i - 1).drop_first() =~= v@.skip(i as int));
        assert(v@.skip(i - 1)[0] == v@[i - 1]);
        acc = acc + w;
        i -= 1;
    }
    assert(v@.skip(0) =~= v@);
    acc
}

fn redact_before_exec(a: &String, b: &String) -> (r: bool)
    ensures
        r == redact_before(a@, b@),
{
    let va = chars_of(a.as_str());
    let vb = chars_of(b.as_str());
    let la = utf8_len(&va);
    let lb = utf8_len(&vb);
    if la != lb {
        la > lb
    } else {
        lex_lt_exec(&va, &vb)
    }
}

/// `t` equals `out[p]`, or comes before it.
fn stops_at(out: &Vec<String>, p: usize, t: &String) -> (r: bool)
    requires
        p < out.len(),
    ensures
        r == (out@[p as int]@ == t@ || redact_before(t@, out@[p as int]@)),
{
    out[p] == *t || redact_before_exec(t, &out[p])
}

// ---------------------------------------------------------------------------
// Redaction
// ---------------------------------------------------------------------------

/// The values that a redactor built from `values` replaces: each value
/// trimmed, where something remains.
pub open spec fn redaction_set(values: Seq<Seq<char>>) -> Set<Seq<char>> {
    Set::new(|t: Seq<char>| exists|i: int| 0 <= i < values.len() && trim(#[trigger] values[i]) == t && t.len() > 0)
}

/// `msg` with each value of `values` replaced by `[REDACTED]`, one value after
/// the other in order.
pub open spec fn redact_all(msg: Seq<char>, values: Seq<Seq<char>>) -> Seq<char>
    decreases values.len(),
{
    if values.len() == 0 {
        msg
    } else {
        redact_all(replace_all(msg, values[0], REDACTED@), values.drop_first())
    }
}

/// Replaces known secret values in text before it is logged or stored.
#[derive(Debug, Clone, PartialEq, Eq)]
pub struct SecretRedactor {
    values: Vec<String>,
}

/// The secret values, in the order in which they are replaced.
pub open spec fn secret_values_of(secrets: Secrets) -> Seq<Seq<char>> {
    let a = match secrets.github_token {
        Some(v) => seq![v@],
        None => seq![],
    };
    let b = match secrets.slack_user_token {
        Some(v) => seq![v@],
        None => seq![],
    };
    let c = match secrets.slack_user_id {
        Some(v) => seq![v@],
        None => seq![],
    };
    a + b + c
}

impl SecretRedactor {
    /// The values replaced, in the order in which they are replaced.
    pub closed spec fn values(self) -> Seq<Seq<char>> {
        self.values.deep_view()
    }

    /// The values are exactly those that a redactor built from `values` holds,
    /// longest first.
    pub open spec fn built_from(self, values: Seq<Seq<char>>) -> bool {
        &&& self.values().to_set() == redaction_set(values)
        &&& strictly_ordered(self.values())
    }

    /// Every value is non-empty, so that replacing it is well defined.
    pub open spec fn wf(self) -> bool {
        forall|i: int| 0 <= i < self.values().len() ==> (#[trigger] self.values()[i]).len() > 0
    }

    /// A redactor that replaces nothing.
    pub fn new() -> (r: Self)
        ensures
            r.values().len() == 0,
            r.wf(),
    {
        let r = SecretRedactor { values: Vec::new() };
        assert(r.values() =~= Seq::<Seq<char>>::empty());
        r
    }

    /// A redactor for the given values: each is trimmed, blank ones are
    /// dropped, duplicates kept once, and the rest ordered longest first
    /// (by UTF-8 length, ties in lexicographic order).
    pub fn from_values(values: Vec<String>) -> (r: Self)
        ensures
            r.built_from(values.deep_view()),
            r.wf(),
    {
        let ghost input = values.deep_view();
        let mut out: Vec<String> = Vec::new();
        let mut k: usize = 0;
        assert(out.deep_view().to_set() =~= Set::<Seq<char>>::empty());
        while k < values.len()
            invariant
                k <= values.len(),
                input == values.deep_view(),
                strictly_ordered(out.deep_view()),
                forall|i: int| 0 <= i < out.deep_view().len() ==> (#[trigger] out.deep_view()[i]).len() > 0,
                out.deep_view().to_set() == redaction_set(input.take(k as int)),
            decreases values.len() - k,
        {
            let t = trim_str(values[k].as_str());
            let ghost before_set = redaction_set(input.take(k as int));
            let ghost tv = t@;
            assert(input[k as int] == values[k as int]@);
            if t.as_str().unicode_len() > 0 {
                // Look for `t`, and for the first position that `t` comes before.
                let mut p: usize = 0;
                while p < out.len() && !stops_at(&out, p, &t)
                    invariant
                        p <= out.len(),
                        tv == t@,
                        strictly_ordered(out.deep_view()),
                        forall|i: int| 0 <= i < p ==> #[trigger] redact_before(out.deep_view()[i], tv),
                    decreases out.len() - p,
                {
                    proof {
                        lemma_before_total(out.deep_view()[p as int], tv);
                    }
                    p += 1;
                }
                let found = p < out.len() && out[p] == t;
                if !found {
                    let ghost old_out = out.deep_view();
                    proof {
                        assert forall|j: int| p <= j < old_out.len() implies #[trigger] redact_before(tv, old_out[j]) by {
                            if j > p {
                                lemma_before_transitive(tv, old_out[p as int], old_out[j]);
                            }
                        }
                    }
                    out.insert(p, t);
                    let ghost new_out = out.deep_view();
                    assert(new_out =~= old_out.insert(p as int, tv));
                    assert forall|i: int, j: int| 0 <= i < j < new_out.len() implies redact_before(#[trigger] new_out[i], #[trigger] new_out[j]) by {
                        if j < p {
                        } else if i < p && j == p {
                        } else if i < p && j > p {
                            assert(new_out[j] == old_out[j - 1]);
                        } else if i == p {
                            assert(new_out[j] == old_out[j - 1]);
                        } else {
                            assert(new_out[i] == old_out[i - 1]);
                            assert(new_out[j] == old_out[j - 1]);
                        }
                    }
                    assert(new_out.to_set() =~= old_out.to_set().insert(tv)) by {
                        assert forall|x: Seq<char>| new_out.to_set().contains(x) implies old_out.to_set().insert(tv).contains(x) by {
                            let i = choose|i: int| 0 <= i < new_out.len() && new_out[i] == x;
                            if i < p {
                                assert(old_out[i] == x);
                            } else if i > p {
                                assert(old_out[i - 1] == x);
                            }
                        }
                        assert forall|x: Seq<char>| old_out.to_set().insert(tv).contains(x) implies new_out.to_set().contains(x) by {
                            if x == tv {
                                assert(new_out[p as int] == x);
                            } else {
                                let i = choose|i: int| 0 <= i < old_out.len() && old_out[i] == x;
                                if i < p {
                                    assert(new_out[i] == x);
                                } else {
                                    assert(new_out[i + 1] == x);
                                }
                            }
                        }
                    }
                } else {
                    assert(out.deep_view()[p as int] == tv);
                    assert(out.deep_view().to_set().insert(tv) =~= out.deep_view().to_set());
                }
                assert(redaction_set(input.take(k + 1)) =~= before_set.insert(tv)) by {
                    assert forall|x: Seq<char>| redaction_set(input.take(k + 1)).contains(x) implies before_set.insert(tv).contains(x) by {
                        let i = choose|i: int| 0 <= i < k + 1 && trim(#[trigger] input.take(k + 1)[i]) == x && x.len() > 0;
                        if i < k {
                            assert(input.take(k as int)[i] == input.take(k + 1)[i]);
                        }
                    }
                    assert forall|x: Seq<char>| before_set.insert(tv).contains(x) implies redaction_set(input.take(k + 1)).contains(x) by {
                        if x == tv {
                            assert(input.take(k + 1)[k as int] == input[k as int]);
                        } else {
                            let i = choose|i: int| 0 <= i < k && trim(#[trigger] input.take(k as int)[i]) == x && x.len() > 0;
                            assert(input.take(k + 1)[i] == input.take(k as int)[i]);
                        }
                    }
                }
            } else {
                assert(redaction_set(input.take(k + 1)) =~= before_set) by {
                    assert forall|x: Seq<char>| redaction_set(input.take(k + 1)).contains(x) implies before_set.contains(x) by {
                        let i = choose|i: int| 0 <= i < k + 1 && trim(#[trigger] input.take(k + 1)[i]) == x && x.len() > 0;
                        if i < k {
                            assert(input.take(k as int)[i] == input.take(k + 1)[i]);
                        } else {
                            assert(input.take(k + 1)[i] == input[k as int]);
                        }
                    }
                    assert forall|x: Seq<char>| before_set.contains(x) implies redaction_set(input.take(k + 1)).contains(x) by {
                        let i = choose|i: int| 0 <= i < k && trim(#[trigger] input.take(k as int)[i]) == x && x.len() > 0;
                        assert(input.take(k + 1)[i] == input.take(k as int)[i]);
                    }
                }
            }
            k += 1;
        }
        assert(input.take(values.len() as int) =~= input);
        SecretRedactor { values: out }
    }

    /// A redactor for the secrets that are present.
    pub fn from_secrets(secrets: &Secrets) -> (r: Self)
        ensures
            r.built_from(secret_values_of(*secrets)),
            r.wf(),
    {
        let mut values: Vec<String> = Vec::new();
        if let Some(v) = &secrets.github_token {
            values.push(v.clone());
        }
        if let Some(v) = &secrets.slack_user_token {
            values.push(v.clone());
        }
        if let Some(v) = &secrets.slack_user_id {
            values.push(v.clone());
        }
        assert(values.deep_view() =~= secret_values_of(*secrets));
        Self::from_values(values)
    }

    /// `message` with every known secret value replaced by `[REDACTED]`.
    pub fn redact(&self, message: &str) -> (r: String)
        requires
            self.wf(),
        ensures
            r@ == redact_all(message@, self.values()),
    {
        let mut redacted = owned(message);
        let mut i: usize = 0;
        assert(self.values().skip(0) =~= self.values());
        while i < self.values.len()
            invariant
                i <= self.values.len(),
                self.wf(),
                redact_all(message@, self.values()) == redact_all(
                    redacted@,
                    self.values().skip(i as int),
                ),
            decreases self.values.len() - i,
        {
            assert(self.values()[i as int] == self.values[i as int]@);
            assert(self.values().skip(i as int).drop_first() =~= self.values().skip(i + 1));
            redacted = replace_str(redacted.as_str(), self.values[i].as_str(), REDACTED);
            i += 1;
        }
        assert(self.values().skip(self.values.len() as int).len() == 0);
        redacted
    }
}

impl Default for SecretRedactor {
    fn default() -> (r: Self)
        ensures
            r.values().len() == 0,
            r.wf(),
    {
        Self::new()
    }
}

/// Text in which no secret value occurs passes through redaction unchanged.
pub proof fn lemma_redact_without_secrets(msg: Seq<char>, values: Seq<Seq<char>>)
    requires
        forall|i: int| 0 <= i < values.len() ==> !contains(msg, #[trigger] values[i]),
    ensures
        redact_all(msg, values) == msg,
    decreases values.len(),
{
    if values.len() > 0 {
        lemma_replace_absent(msg, values[0], REDACTED@);
        assert forall|i: int| 0 <= i < values.drop_first().len() implies !contains(
            msg,
            #[trigger] values.drop_first()[i],
        ) by {
            assert(values.drop_first()[i] == values[i + 1]);
        }
        lemma_redact_without_secrets(msg, values.drop_first());
    }
}

proof fn lemma_redact_keeps_absent(msg: Seq<char>, values: Seq<Seq<char>>, q: Seq<char>)
    requires
        clear_of(q, REDACTED@),
        !contains(msg, q),
    ensures
        !contains(redact_all(msg, values), q),
    decreases values.len(),
{
    if values.len() > 0 {
        lemma_replace_keeps_absent(msg, values[0], REDACTED@, q);
        lemma_redact_keeps_absent(replace_all(msg, values[0], REDACTED@), values.drop_first(), q);
    }
}

/// After redaction no secret value is left in the text: this holds of every
/// value that does not overlap the marker, that is, that holds neither `[`
/// nor `]` and is not part of `[REDACTED]` (tokens are letters, digits, `-`
/// and `_`). A value that overlaps the marker can be formed anew by it.
pub proof fn lemma_redaction_hides_values(msg: Seq<char>, values: Seq<Seq<char>>, i: int)
    requires
        0 <= i < values.len(),
        clear_of(values[i], REDACTED@),
    ensures
        !contains(redact_all(msg, values), values[i]),
    decreases values.len(),
{
    let first = replace_all(msg, values[0], REDACTED@);
    if i == 0 {
        lemma_replace_removes(msg, values[0], REDACTED@);
        lemma_redact_keeps_absent(first, values.drop_first(), values[0]);
    } else {
        assert(values.drop_first()[i - 1] == values[i]);
        lemma_redaction_hides_values(first, values.drop_first(), i - 1);
    }
}

// ---------------------------------------------------------------------------
// Log lines and tails
// ---------------------------------------------------------------------------

/// One line of the daemon log: the time, a space, the redacted message.
pub open spec fn log_line_spec(now: Seq<char>, message: Seq<char>, values: Seq<Seq<char>>) -> Seq<
    char,
> {
    now + seq![' '] + redact_all(message, values) + seq!['\n']
}

/// The line that `append_log` writes for `message` at time `now` (RFC 3339).
pub fn log_line(now: &str, message: &str, redactor: &SecretRedactor) -> (r: String)
    requires
        redactor.wf(),
    ensures
        r@ == log_line_spec(now@, message@, redactor.values()),
{
    let mut r = owned(now);
    push_char(&mut r, ' ');
    let body = redactor.redact(message);
    push_str(&mut r, body.as_str());
    push_char(&mut r, '\n');
    r
}

/// The parts joined with line feeds between them.
pub open spec fn join_lines(parts: Seq<Seq<char>>) -> Seq<char>
    decreases parts.len(),
{
    if parts.len() == 0 {
        seq![]
    } else if parts.len() == 1 {
        parts[0]
    } else {
        join_lines(parts.drop_last()) + seq!['\n'] + parts.last()
    }
}

/// The last `n` lines of `text`, each followed by a line feed (none at all
/// when the kept lines join to nothing).
pub open spec fn tail_content(text: Seq<char>, n: nat) -> Seq<char> {
    if n == 0 {
        seq![]
    } else {
        let ls = lines(text);
        let kept = if ls.len() > n {
            ls.skip(ls.len() - n)
        } else {
            ls
        };
        let c = join_lines(kept);
        if c.len() > 0 {
            c.push('\n')
        } else {
            c
        }
    }
}

/// The last `n` lines of `text`, as `signalpane log` shows them.
pub fn tail_text(text: &str, n: usize) -> (r: String)
    ensures
        r@ == tail_content(text@, n as nat),
{
    if n == 0 {
        return String::new();
    }
    let ls = split_lines(text);
    let start: usize = if ls.len() > n {
        ls.len() - n
    } else {
        0
    };
    let ghost all = ls.deep_view();
    let ghost kept = all.skip(start as int);
    assert(start == 0 ==> kept =~= all);
    let mut out = String::new();
    let mut k: usize = start;
    while k < ls.len()
        invariant
            start <= k <= ls.len(),
            all == ls.deep_view(),
            kept == all.skip(start as int),
            out@ == join_lines(kept.take(k - start)),
        decreases ls.len() - k,
    {
        assert(kept.take(k + 1 - start).drop_last() =~= kept.take(k - start));
        assert(kept.take(k + 1 - start).last() == ls[k as int]@);
        if k > start {
            push_char(&mut out, '\n');
        } else {
            assert(kept.take(1) =~= seq![kept[0]]);
        }
        push_str(&mut out, ls[k].as_str());
        k += 1;
    }
    assert(kept.take(ls.len() - start) =~= kept);
    if out.as_str().unicode_len() > 0 {
        push_char(&mut out, '\n');
    }
    out
}

/// The lines kept for a tail of `n` lines: the last `min(n, k)` of the `k`
/// lines of `text`.
pub open spec fn last_lines(text: Seq<char>, n: nat) -> Seq<Seq<char>> {
    let ls = lines(text);
    if ls.len() > n {
        ls.skip(ls.len() - n)
    } else {
        ls
    }
}

/// Each of the lines followed by a line feed.
pub open spec fn each_with_newline(ls: Seq<Seq<char>>) -> Seq<char>
    decreases ls.len(),
{
    if ls.len() == 0 {
        seq![]
    } else {
        each_with_newline(ls.drop_last()) + ls.last() + seq!['\n']
    }
}

proof fn lemma_join_newline(ls: Seq<Seq<char>>)
    requires
        ls.len() > 0,
    ensures
        join_lines(ls).push('\n') == each_with_newline(ls),
    decreases ls.len(),
{
    if ls.len() == 1 {
        assert(ls.drop_last() =~= Seq::<Seq<char>>::empty());
        assert(each_with_newline(ls.drop_last()) =~= Seq::<char>::empty());
        assert(join_lines(ls).push('\n') =~= each_with_newline(ls));
    } else {
        lemma_join_newline(ls.drop_last());
        assert(join_lines(ls).push('\n') =~= join_lines(ls.drop_last()).push('\n') + ls.last()
            + seq!['\n']);
    }
}

proof fn lemma_join_empty(ls: Seq<Seq<char>>)
    ensures
        (join_lines(ls).len() == 0) <==> (ls.len() == 0 || (ls.len() == 1 && ls[0].len() == 0)),
    decreases ls.len(),
{
    if ls.len() > 1 {
        lemma_join_empty(ls.drop_last());
    }
}

/// The tail of a log: with `n` lines asked for, the last `min(n, k)` of its
/// `k` lines, each followed by a line feed; nothing when `n` is zero. The
/// one text that is left out is a tail made of a single empty line, which
/// shows as nothing at all, as the lines joined with line feeds do.
pub proof fn lemma_log_tail(text: Seq<char>, n: nat)
    ensures
        last_lines(text, n).len() == (if lines(text).len() > n {
            n as int
        } else {
            lines(text).len() as int
        }),
        last_lines(text, n) == lines(text).skip(lines(text).len() - last_lines(text, n).len()),
        tail_content(text, n) == (if n == 0 || last_lines(text, n) == seq![Seq::<char>::empty()] {
            Seq::<char>::empty()
        } else {
            each_with_newline(last_lines(text, n))
        }),
{
    let ls = lines(text);
    let kept = last_lines(text, n);
    if ls.len() <= n {
        assert(ls.skip(0) =~= ls);
    }
    if n > 0 {
        lemma_join_empty(kept);
        if kept.len() == 0 {
            assert(join_lines(kept).len() == 0);
        } else if kept == seq![Seq::<char>::empty()] {
        } else {
            assert(!(kept.len() == 1 && kept[0].len() == 0)) by {
                if kept.len() == 1 && kept[0].len() == 0 {
                    assert(kept[0] =~= Seq::<char>::empty());
                    assert(kept =~= seq![Seq::<char>::empty()]);
                }
            }
            lemma_join_newline(kept);
        }
    }
}

/// The tail of the log at `log_path`, given its text, or `None` when the file
/// does not exist.
pub fn log_tail_of(log_path: String, text: Option<String>, lines: usize) -> (r: LogTail)
    ensures
        r.log_path@ == log_path@,
        r.exists == text is Some,
        r.content@ == match text {
            Some(t) => tail_content(t@, lines as nat),
            None => Seq::<char>::empty(),
        },
{
    match text {
        Some(t) => LogTail { log_path, exists: true, content: tail_text(t.as_str(), lines) },
        None => LogTail { log_path, exists: false, content: String::new() },
    }
}

// ---------------------------------------------------------------------------
// Capping
// ---------------------------------------------------------------------------

/// What capping a log of a given size does.
#[derive(Debug, Clone, Copy, PartialEq, Eq)]
pub enum CapPlan {
    /// The log is small enough and stays as it is.
    Keep,
    /// The log is rewritten from the bytes from `start` on.
    Rewrite { start: u64 },
}

/// Decides whether a log of `original_bytes` bytes is capped, and from which
/// offset its end is kept.
pub fn cap_plan(original_bytes: u64, max_bytes: u64, retain_bytes: u64) -> (r: CapPlan)
    ensures
        original_bytes <= max_bytes ==> r == CapPlan::Keep,
        original_bytes > max_bytes ==> r == (CapPlan::Rewrite {
            start: if original_bytes > retain_bytes {
                (original_bytes - retain_bytes) as u64
            } else {
                0
            },
        }),
{
    if original_bytes <= max_bytes {
        CapPlan::Keep
    } else {
        CapPlan::Rewrite { start: original_bytes.saturating_sub(retain_bytes) }
    }
}

/// Index of the first line feed byte, or the length when there is none.
pub open spec fn first_newline(bytes: Seq<u8>) -> int
    decreases bytes.len(),
{
    if bytes.len() == 0 {
        0
    } else if bytes[0] == 10 {
        0
    } else {
        1 + first_newline(bytes.drop_first())
    }
}

/// The kept bytes after dropping a partial first line: everything after the
/// first line feed when the cut was not at the start of the file.
pub open spec fn kept_bytes(bytes: Seq<u8>, start: u64) -> Seq<u8> {
    if start == 0 {
        bytes
    } else if first_newline(bytes) < bytes.len() {
        bytes.skip(first_newline(bytes) + 1)
    } else {
        Seq::<u8>::empty()
    }
}

proof fn lemma_first_newline_at(s: Seq<u8>, k: int)
    requires
        0 <= k <= s.len(),
        k < s.len() ==> s[k] == 10,
        forall|j: int| 0 <= j < k ==> s[j] != 10,
    ensures
        first_newline(s) == k,
    decreases s.len(),
{
    if s.len() > 0 && s[0] != 10 {
        lemma_first_newline_at(s.drop_first(), k - 1);
    }
}

fn drop_partial_line(bytes: &Vec<u8>, start: u64) -> (r: Vec<u8>)
    ensures
        r@ == kept_bytes(bytes@, start),
{
    if start == 0 {
        return bytes.clone();
    }
    let mut i: usize = 0;
    while i < bytes.len()
        invariant
            start != 0,
            i <= bytes.len(),
            forall|j: int| 0 <= j < i ==> bytes@[j] != 10,
        decreases bytes.len() - i,
    {
        if bytes[i] == 10 {
            proof {
                lemma_first_newline_at(bytes@, i as int);
            }
            let mut out: Vec<u8> = Vec::new();
            let mut k = i + 1;
            while k < bytes.len()
                invariant
                    i + 1 <= k <= bytes.len(),
                    out@ == bytes@.subrange(i + 1, k as int),
                decreases bytes.len() - k,
            {
                out.push(bytes[k]);
                assert(bytes@.subrange(i + 1, k as int).push(bytes@[k as int]) =~= bytes@.subrange(
                    i + 1,
                    k + 1,
                ));
                k += 1;
            }
            assert(out@ =~= bytes@.skip(i + 1));
            return out;
        }
        i += 1;
    }
    proof {
        lemma_first_newline_at(bytes@, bytes@.len() as int);
    }
    Vec::new()
}

/// The first line of a capped log.
pub open spec fn cap_header(now: Seq<char>, original: u64, max: u64, retain: u64) -> Seq<char> {
    now + " log capped original_bytes="@ + decimal(original as nat) + " max_bytes="@ + decimal(
        max as nat,
    ) + " retained_target_bytes="@ + decimal(retain as nat) + seq!['\n']
}

/// The text that replaces a capped log.
pub open spec fn capped_text(
    now: Seq<char>,
    original: u64,
    max: u64,
    retain: u64,
    start: u64,
    tail: Seq<u8>,
    values: Seq<Seq<char>>,
) -> Seq<char> {
    cap_header(now, original, max, retain) + redact_all(
        utf8_lossy(kept_bytes(tail, start)),
        values,
    )
}

/// The new contents of a log that is capped, given the bytes from `start` to
/// its end, and the outcome to report (the new size in bytes).
pub fn capped_log(
    now: &str,
    original_bytes: u64,
    max_bytes: u64,
    retain_bytes: u64,
    start: u64,
    tail: &Vec<u8>,
    redactor: &SecretRedactor,
) -> (r: (String, LogCapOutcome))
    requires
        redactor.wf(),
    ensures
        r.0@ == capped_text(
            now@,
            original_bytes,
            max_bytes,
            retain_bytes,
            start,
            tail@,
            redactor.values(),
        ),
        r.1 == (LogCapOutcome::Capped {
            original_bytes,
            retained_bytes: byte_len(r.0@) as u64,
        }),
{
    let kept = drop_partial_line(tail, start);
    let text = from_utf8_lossy(&kept);
    let retained = redactor.redact(text.as_str());
    let mut capped = owned(now);
    push_str(&mut capped, " log capped original_bytes=");
    push_u64(&mut capped, original_bytes);
    push_str(&mut capped, " max_bytes=");
    push_u64(&mut capped, max_bytes);
    push_str(&mut capped, " retained_target_bytes=");
    push_u64(&mut capped, retain_bytes);
    push_char(&mut capped, '\n');
    push_str(&mut capped, retained.as_str());
    let n = utf8_len(&chars_of(capped.as_str()));
    (capped, LogCapOutcome::Capped { original_bytes, retained_bytes: n as u64 })
}

proof fn lemma_first_newline_bounds(s: Seq<u8>)
    ensures
        0 <= first_newline(s) <= s.len(),
        first_newline(s) < s.len() ==> s[first_newline(s)] == 10,
        forall|j: int| 0 <= j < first_newline(s) ==> s[j] != 10,
    decreases s.len(),
{
    if s.len() > 0 && s[0] != 10 {
        lemma_first_newline_bounds(s.drop_first());
        assert forall|j: int| 0 <= j < first_newline(s) implies s[j] != 10 by {
            if j > 0 {
                assert(s[j] == s.drop_first()[j - 1]);
            }
        }
    }
}

/// Capping a log of bytes `bytes` that is larger than `max`: the window of
/// the last `retain` bytes is read (the whole log when it is shorter), and
/// what is kept is a suffix of the log of at most `retain` bytes that begins
/// a line: where the window does not begin the log, its first, partial line
/// is dropped up to and including its first line feed (all of it when it has
/// none before its last byte). The new log is one header line that names the
/// sizes, followed by the kept bytes, decoded and redacted.
pub proof fn lemma_cap_log(
    now: Seq<char>,
    bytes: Seq<u8>,
    max: u64,
    retain: u64,
    values: Seq<Seq<char>>,
)
    requires
        bytes.len() <= u64::MAX,
        bytes.len() > max,
    ensures
        ({
            let n = bytes.len() as int;
            let start: u64 = if n > retain {
                (n - retain) as u64
            } else {
                0
            };
            let kept = kept_bytes(bytes.skip(start as int), start);
            &&& kept.len() <= retain
            &&& kept =~= bytes.skip(n - kept.len())
            &&& (start > 0 && kept.len() > 0) ==> bytes[n - kept.len() - 1] == 10
            &&& start > 0 ==> forall|j: int|
                start <= j < n - kept.len() - 1 ==> #[trigger] bytes[j] != 10
            &&& capped_text(now, n as u64, max, retain, start, bytes.skip(start as int), values)
                == cap_header(now, n as u64, max, retain) + redact_all(utf8_lossy(kept), values)
            &&& starts_with(
                cap_header(now, n as u64, max, retain),
                now + " log capped original_bytes="@ + decimal(n as nat),
            )
        }),
{
    let n = bytes.len() as int;
    let start: u64 = if n > retain {
        (n - retain) as u64
    } else {
        0
    };
    let tail = bytes.skip(start as int);
    let kept = kept_bytes(tail, start);
    if start == 0 {
        assert(bytes.skip(0) =~= bytes);
        assert(bytes.skip(n - kept.len()) =~= bytes);
    } else {
        lemma_first_newline_bounds(tail);
        let f = first_newline(tail);
        if f < tail.len() {
            assert(kept =~= bytes.skip(start + f + 1));
            assert forall|j: int| start <= j < n - kept.len() - 1 implies #[trigger] bytes[j] != 10 by {
                assert(bytes[j] == tail[j - start]);
            }
            assert(bytes[n - kept.len() - 1] == tail[f]);
        } else {
            assert(kept.len() == 0);
            assert(bytes.skip(n) =~= kept);
            assert forall|j: int| start <= j < n - kept.len() - 1 implies #[trigger] bytes[j] != 10 by {
                assert(bytes[j] == tail[j - start]);
            }
        }
    }
    let h = cap_header(now, n as u64, max, retain);
    let p = now + " log capped original_bytes="@ + decimal(n as nat);
    assert(h.take(p.len() as int) =~= p);
}

} // verus!
