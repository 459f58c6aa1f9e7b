//! Character-level text operations shared by the rest of the library:
//! whitespace trimming, substring search and replacement, line splitting,
//! and decimal formatting and parsing.
use vstd::prelude::*;
use vstd::string::*;
use vstd::utf8::{decode_utf8, valid_utf8};

verus! {

// ---------------------------------------------------------------------------
// Conversions between strings and character vectors
// ---------------------------------------------------------------------------

/// `String::push`: appends one character.
#[verifier::external_body]
pub(crate) fn push_char(s: &mut String, c: char)
    ensures
        final(s)@ == old(s)@.push(c),
{
    s.push(c)
}

/// The characters of a string slice, in order.
pub fn chars_of(s: &str) -> (v: Vec<char>)
    ensures
        v@ == s@,
{
    let mut v: Vec<char> = Vec::new();
    for c in it: s.chars()
        invariant
            v@ == it.seq().take(it.index() as int),
    {
        v.push(c);
    }
    v
}

/// The string made of the given characters.
pub fn string_of(v: &Vec<char>) -> (s: String)
    ensures
        s@ == v@,
{
    let mut s = String::new();
    let mut i: usize = 0;
    while i < v.len()
        invariant
            i <= v.len(),
            s@ == v@.take(i as int),
        decreases v.len() - i,
    {
        push_char(&mut s, v[i]);
        assert(v@.take(i as int).push(v@[i as int]) =~= v@.take(i + 1));
        i += 1;
    }
    assert(v@.take(v.len() as int) =~= v@);
    s
}

/// The string made of the characters of `v` in the range `[from, to)`.
pub fn string_of_range(v: &Vec<char>, from: usize, to: usize) -> (s: String)
    requires
        from <= to <= v.len(),
    ensures
        s@ == v@.subrange(from as int, to as int),
{
    let mut s = String::new();
    let mut i: usize = from;
    while i < to
        invariant
            from <= i <= to <= v.len(),
            s@ == v@.subrange(from as int, i as int),
        decreases to - i,
    {
        push_char(&mut s, v[i]);
        assert(v@.subrange(from as int, i as int).push(v@[i as int]) =~= v@.subrange(
            from as int,
            i + 1,
        ));
        i += 1;
    }
    s
}

/// Appends all characters of `v` to `s`.
pub fn push_chars(s: &mut String, v: &Vec<char>)
    ensures
        final(s)@ == old(s)@ + v@,
{
    let mut i: usize = 0;
    while i < v.len()
        invariant
            i <= v.len(),
            s@ == old(s)@ + v@.take(i as int),
        decreases v.len() - i,
    {
        push_char(s, v[i]);
        assert(old(s)@ + v@.take(i as int).push(v@[i as int]) =~= old(s)@ + v@.take(i + 1));
        i += 1;
    }
    assert(v@.take(v.len() as int) =~= v@);
}

/// Appends a string slice to `s`.
pub fn push_str(s: &mut String, t: &str)
    ensures
        final(s)@ == old(s)@ + t@,
{
    s.append(t);
}

/// A fresh string equal to `t`.
pub fn owned(t: &str) -> (s: String)
    ensures
        s@ == t@,
{
    String::from_str(t)
}

/// Two string slices are equal.
pub fn str_eq(a: &str, b: &str) -> (r: bool)
    ensures
        r == (a@ == b@),
{
    let x = owned(a);
    let y = owned(b);
    x == y
}

/// The text of the given bytes, with invalid UTF-8 replaced, as
/// `String::from_utf8_lossy` gives it.
pub uninterp spec fn utf8_lossy(bytes: Seq<u8>) -> Seq<char>;

/// `String::from_utf8_lossy`: the text of `bytes`, in which each invalid UTF-8
/// sequence becomes U+FFFD. Valid UTF-8 decodes to its own characters.
#[verifier::external_body]
pub(crate) fn from_utf8_lossy(bytes: &Vec<u8>) -> (r: String)
    ensures
        r@ == utf8_lossy(bytes@),
        valid_utf8(bytes@) ==> r@ == decode_utf8(bytes@),
{
    String::from_utf8_lossy(bytes).into_owned()
}

// ---------------------------------------------------------------------------
// Whitespace
// ---------------------------------------------------------------------------

/// The Unicode `White_Space` property, which `char::is_whitespace` tests.
pub open spec fn is_ws(c: char) -> bool {
    ||| '\u{9}' <= c <= '\u{d}'
    ||| c == ' '
    ||| c == '\u{85}'
    ||| c == '\u{a0}'
    ||| c == '\u{1680}'
    ||| '\u{2000}' <= c <= '\u{200a}'
    ||| c == '\u{2028}'
    ||| c == '\u{2029}'
    ||| c == '\u{202f}'
    ||| c == '\u{205f}'
    ||| c == '\u{3000}'
}

/// Executable test of the Unicode `White_Space` property.
pub fn is_whitespace(c: char) -> (r: bool)
    ensures
        r == is_ws(c),
{
    ('\u{9}' <= c && c <= '\u{d}') || c == ' ' || c == '\u{85}' || c == '\u{a0}' || c
        == '\u{1680}' || ('\u{2000}' <= c && c <= '\u{200a}') || c == '\u{2028}' || c
        == '\u{2029}' || c == '\u{202f}' || c == '\u{205f}' || c == '\u{3000}'
}

/// `s` without its leading whitespace.
pub open spec fn trim_start(s: Seq<char>) -> Seq<char>
    decreases s.len(),
{
    if s.len() > 0 && is_ws(s[0]) {
        trim_start(s.drop_first())
    } else {
        s
    }
}

/// `s` without its trailing whitespace.
pub open spec fn trim_end(s: Seq<char>) -> Seq<char>
    decreases s.len(),
{
    if s.len() > 0 && is_ws(s.last()) {
        trim_end(s.drop_last())
    } else {
        s
    }
}

/// `s` without leading and trailing whitespace, as `str::trim` gives it.
pub open spec fn trim(s: Seq<char>) -> Seq<char> {
    trim_end(trim_start(s))
}

proof fn lemma_trim_start_skip(s: Seq<char>, i: int)
    requires
        0 <= i <= s.len(),
        forall|j: int| 0 <= j < i ==> is_ws(#[trigger] s[j]),
    ensures
        trim_start(s) == trim_start(s.skip(i)),
    decreases i,
{
    if i > 0 {
        assert(s.drop_first().skip(i - 1) =~= s.skip(i));
        lemma_trim_start_skip(s.drop_first(), i - 1);
    } else {
        assert(s.skip(0) =~= s);
    }
}

proof fn lemma_trim_end_take(s: Seq<char>, i: int)
    requires
        0 <= i <= s.len(),
        forall|j: int| i <= j < s.len() ==> is_ws(#[trigger] s[j]),
    ensures
        trim_end(s) == trim_end(s.take(i)),
    decreases s.len() - i,
{
    if i < s.len() {
        assert(s.drop_last().take(i) =~= s.take(i));
        lemma_trim_end_take(s.drop_last(), i);
    } else {
        assert(s.take(i) =~= s);
    }
}

/// The range `[lo, hi)` of `v` that remains after trimming whitespace.
pub fn trim_bounds(v: &Vec<char>) -> (r: (usize, usize))
    ensures
        r.0 <= r.1 <= v.len(),
        v@.subrange(r.0 as int, r.1 as int) == trim(v@),
{
    let mut lo: usize = 0;
    while lo < v.len() && is_whitespace(v[lo])
        invariant
            lo <= v.len(),
            forall|j: int| 0 <= j < lo ==> is_ws(#[trigger] v@[j]),
        decreases v.len() - lo,
    {
        lo += 1;
    }
    proof {
        lemma_trim_start_skip(v@, lo as int);
    }
    let ghost rest = v@.skip(lo as int);
    assert(trim_start(rest) == rest);
    let mut hi: usize = v.len();
    while hi > lo && is_whitespace(v[hi - 1])
        invariant
            lo <= hi <= v.len(),
            forall|j: int| hi <= j < v.len() ==> is_ws(#[trigger] v@[j]),
        decreases hi,
    {
        hi -= 1;
    }
    proof {
        assert forall|j: int| hi - lo <= j < rest.len() implies is_ws(#[trigger] rest[j]) by {
            assert(rest[j] == v@[j + lo]);
        }
        lemma_trim_end_take(rest, hi - lo);
        assert(rest.take(hi - lo) =~= v@.subrange(lo as int, hi as int));
    }
    (lo, hi)
}

/// `str::trim`, as an owned string.
pub fn trim_str(s: &str) -> (r: String)
    ensures
        r@ == trim(s@),
{
    let v = chars_of(s);
    let (lo, hi) = trim_bounds(&v);
    string_of_range(&v, lo, hi)
}

/// The string is empty or holds only whitespace.
pub fn is_blank(s: &str) -> (r: bool)
    ensures
        r == (trim(s@).len() == 0),
{
    let v = chars_of(s);
    let (lo, hi) = trim_bounds(&v);
    lo == hi
}

// ---------------------------------------------------------------------------
// Control characters in single-line values
// ---------------------------------------------------------------------------

/// A line feed, carriage return or tab becomes a space.
pub open spec fn sanitize_char(c: char) -> char {
    if c == '\n' || c == '\r' || c == '\t' {
        ' '
    } else {
        c
    }
}

/// `s` with every line feed, carriage return and tab replaced by a space.
pub open spec fn sanitize(s: Seq<char>) -> Seq<char> {
    Seq::new(s.len(), |i: int| sanitize_char(s[i]))
}

/// Replaces line feeds, carriage returns and tabs by spaces, so that the value
/// fits on one `key=value` line.
pub fn sanitize_cli_value(value: &str) -> (r: String)
    ensures
        r@ == sanitize(value@),
{
    let v = chars_of(value);
    let mut out = String::new();
    let mut i: usize = 0;
    while i < v.len()
        invariant
            i <= v.len(),
            v@ == value@,
            out@ == sanitize(v@.take(i as int)),
        decreases v.len() - i,
    {
        let c = v[i];
        let d = if c == '\n' || c == '\r' || c == '\t' {
            ' '
        } else {
            c
        };
        push_char(&mut out, d);
        assert(sanitize(v@.take(i as int)).push(d) =~= sanitize(v@.take(i + 1)));
        i += 1;
    }
    assert(v@.take(v.len() as int) =~= v@);
    out
}

/// A sanitized value holds no line feed, carriage return or tab.
pub proof fn lemma_sanitize_has_no_control(s: Seq<char>)
    ensures
        forall|i: int|
            0 <= i < sanitize(s).len() ==> #[trigger] sanitize(s)[i] != '\n' && sanitize(s)[i]
                != '\r' && sanitize(s)[i] != '\t',
{
}

// ---------------------------------------------------------------------------
// Substrings
// ---------------------------------------------------------------------------

/// `p` occurs in `s` at position `i`.
pub open spec fn occurs_at(s: Seq<char>, p: Seq<char>, i: int) -> bool {
    0 <= i && i + p.len() <= s.len() && s.subrange(i, i + p.len()) == p
}

/// `p` occurs somewhere in `s`, as `str::contains` tests.
pub open spec fn contains(s: Seq<char>, p: Seq<char>) -> bool {
    exists|i: int| occurs_at(s, p, i)
}

/// `s` begins with `p`.
pub open spec fn starts_with(s: Seq<char>, p: Seq<char>) -> bool {
    p.len() <= s.len() && s.take(p.len() as int) == p
}

/// `p` occurs in `v` at position `i`.
pub fn occurs_at_exec(v: &Vec<char>, p: &Vec<char>, i: usize) -> (r: bool)
    ensures
        r == occurs_at(v@, p@, i as int),
{
    if i > v.len() || p.len() > v.len() - i {
        return false;
    }
    let mut j: usize = 0;
    while j < p.len()
        invariant
            i + p.len() <= v.len(),
            j <= p.len(),
            forall|k: int| 0 <= k < j ==> v@[i + k] == p@[k],
        decreases p.len() - j,
    {
        if v[i + j] != p[j] {
            assert(v@.subrange(i as int, i + p.len())[j as int] != p@[j as int]);
            return false;
        }
        j += 1;
    }
    assert(v@.subrange(i as int, i + p.len()) =~= p@);
    true
}

/// `p` occurs somewhere in `v`.
pub fn contains_exec(v: &Vec<char>, p: &Vec<char>) -> (r: bool)
    ensures
        r == contains(v@, p@),
{
    if p.len() > v.len() {
        assert forall|i: int| !occurs_at(v@, p@, i) by {}
        return false;
    }
    if p.len() == 0 {
        assert(v@.subrange(0, 0) =~= p@);
        assert(occurs_at(v@, p@, 0));
        return true;
    }
    let mut i: usize = 0;
    while i <= v.len() - p.len()
        invariant
            0 < p.len() <= v.len(),
            i <= v.len() - p.len() + 1,
            forall|k: int| 0 <= k < i ==> !occurs_at(v@, p@, k),
        decreases v.len() - p.len() + 1 - i,
    {
        if occurs_at_exec(v, p, i) {
            return true;
        }
        i += 1;
    }
    assert forall|k: int| !occurs_at(v@, p@, k) by {
        if 0 <= k && k + p.len() <= v.len() {
        }
    }
    false
}

/// `str::contains` on string slices.
pub fn str_contains(s: &str, p: &str) -> (r: bool)
    ensures
        r == contains(s@, p@),
{
    let v = chars_of(s);
    let w = chars_of(p);
    contains_exec(&v, &w)
}

/// `str::starts_with` on string slices.
pub fn str_starts_with(s: &str, p: &str) -> (r: bool)
    ensures
        r == starts_with(s@, p@),
{
    let v = chars_of(s);
    let w = chars_of(p);
    let r = occurs_at_exec(&v, &w, 0);
    assert(r ==> v@.subrange(0, w@.len() as int) =~= v@.take(w@.len() as int));
    assert(starts_with(s@, p@) ==> v@.subrange(0, w@.len() as int) =~= v@.take(
        w@.len() as int,
    ));
    r
}

// ---------------------------------------------------------------------------
// Replacement
// ---------------------------------------------------------------------------

/// `s` with every occurrence of `p` replaced by `r`, scanning left to right and
/// never overlapping, as `str::replace` does for a non-empty pattern.
pub open spec fn replace_all(s: Seq<char>, p: Seq<char>, r: Seq<char>) -> Seq<char>
    decreases s.len(),
{
    if p.len() == 0 || s.len() == 0 {
        s
    } else if starts_with(s, p) {
        r + replace_all(s.skip(p.len() as int), p, r)
    } else {
        seq![s[0]] + replace_all(s.drop_first(), p, r)
    }
}

proof fn lemma_starts_with_skip(s: Seq<char>, p: Seq<char>, i: int)
    requires
        0 <= i <= s.len(),
    ensures
        starts_with(s.skip(i), p) == occurs_at(s, p, i),
{
    if starts_with(s.skip(i), p) {
        assert(s.subrange(i, i + p.len()) =~= s.skip(i).take(p.len() as int));
    }
    if occurs_at(s, p, i) {
        assert(s.subrange(i, i + p.len()) =~= s.skip(i).take(p.len() as int));
    }
}

/// Replaces every non-overlapping occurrence of `p` in `s` by `rep`,
/// left to right, as `str::replace` does.
pub fn replace_str(s: &str, p: &str, rep: &str) -> (out: String)
    requires
        p@.len() > 0,
    ensures
        out@ == replace_all(s@, p@, rep@),
{
    let v = chars_of(s);
    let w = chars_of(p);
    let mut out = String::new();
    let mut i: usize = 0;
    assert(v@.skip(0) =~= v@);
    while i < v.len()
        invariant
            i <= v.len(),
            v@ == s@,
            w@ == p@,
            w@.len() > 0,
            out@ + replace_all(v@.skip(i as int), w@, rep@) == replace_all(v@, w@, rep@),
        decreases v.len() - i,
    {
        let ghost rest = v@.skip(i as int);
        let ghost out0 = out@;
        proof {
            lemma_starts_with_skip(v@, w@, i as int);
        }
        if occurs_at_exec(&v, &w, i) {
            push_str(&mut out, rep);
            assert(rest.skip(w@.len() as int) =~= v@.skip(i + w@.len()));
            assert(out@ + replace_all(v@.skip(i + w@.len()), w@, rep@) =~= out0
                + replace_all(rest, w@, rep@)) by {
                assert(replace_all(rest, w@, rep@) == rep@ + replace_all(
                    rest.skip(w@.len() as int),
                    w@,
                    rep@,
                ));
            }
            i = i + w.len();
        } else {
            push_char(&mut out, v[i]);
            assert(rest.drop_first() =~= v@.skip(i + 1));
            assert(replace_all(rest, w@, rep@) == seq![rest[0]] + replace_all(
                rest.drop_first(),
                w@,
                rep@,
            ));
            assert(out@ + replace_all(v@.skip(i + 1), w@, rep@) =~= out0 + replace_all(
                rest,
                w@,
                rep@,
            ));
            i = i + 1;
        }
    }
    assert(v@.skip(i as int).len() == 0);
    assert(out@ + replace_all(v@.skip(i as int), w@, rep@) =~= out@);
    out
}

/// Where `p` does not occur, replacing it changes nothing.
pub proof fn lemma_replace_absent(s: Seq<char>, p: Seq<char>, r: Seq<char>)
    requires
        !contains(s, p),
    ensures
        replace_all(s, p, r) == s,
    decreases s.len(),
{
    if p.len() == 0 || s.len() == 0 {
    } else {
        lemma_starts_with_skip(s, p, 0);
        assert(s.skip(0) =~= s);
        assert(!occurs_at(s, p, 0));
        assert(!contains(s.drop_first(), p)) by {
            if contains(s.drop_first(), p) {
                let k = choose|k: int| occurs_at(s.drop_first(), p, k);
                assert(s.drop_first().subrange(k, k + p.len()) =~= s.subrange(
                    k + 1,
                    k + 1 + p.len(),
                ));
                assert(occurs_at(s, p, k + 1));
            }
        }
        lemma_replace_absent(s.drop_first(), p, r);
        assert(seq![s[0]] + s.drop_first() =~= s);
    }
}

/// `q` can only occur in a text that has `r` spliced in away from `r`: it is
/// not empty, has neither the first nor the last character of `r`, and is not
/// part of `r`.
pub open spec fn clear_of(q: Seq<char>, r: Seq<char>) -> bool {
    &&& q.len() > 0
    &&& r.len() > 0
    &&& forall|k: int| 0 <= k < q.len() ==> #[trigger] q[k] != r[0] && q[k] != r[r.len() - 1]
    &&& !contains(r, q)
}

proof fn lemma_occurs_in_tail(a: Seq<char>, b: Seq<char>, q: Seq<char>, i: int)
    requires
        occurs_at(a + b, q, i),
        i >= a.len(),
    ensures
        occurs_at(b, q, i - a.len()),
{
    assert((a + b).subrange(i, i + q.len()) =~= b.subrange(i - a.len(), i - a.len() + q.len()));
}

proof fn lemma_occurs_in_head(a: Seq<char>, b: Seq<char>, q: Seq<char>, i: int)
    requires
        occurs_at(a + b, q, i),
        i + q.len() <= a.len(),
    ensures
        occurs_at(a, q, i),
{
    assert((a + b).subrange(i, i + q.len()) =~= a.subrange(i, i + q.len()));
}

proof fn lemma_occurs_shift(s: Seq<char>, q: Seq<char>, k: int, j: int)
    requires
        0 <= k <= s.len(),
        occurs_at(s.skip(k), q, j),
    ensures
        occurs_at(s, q, j + k),
{
    assert(s.skip(k).subrange(j, j + q.len()) =~= s.subrange(j + k, j + k + q.len()));
}

/// A result of replacement that begins with `q` comes from a text that
/// begins with `q`, where `q` does not hold the first character of `r`.
proof fn lemma_replaced_prefix(s: Seq<char>, p: Seq<char>, r: Seq<char>, q: Seq<char>)
    requires
        q.len() > 0,
        r.len() > 0,
        forall|k: int| 0 <= k < q.len() ==> #[trigger] q[k] != r[0],
        starts_with(replace_all(s, p, r), q),
    ensures
        starts_with(s, q),
    decreases s.len(),
{
    let t = replace_all(s, p, r);
    if p.len() == 0 || s.len() == 0 {
    } else if starts_with(s, p) {
        assert(t[0] == r[0]);
        assert(t.take(q.len() as int)[0] == q[0]);
    } else {
        let tail = replace_all(s.drop_first(), p, r);
        assert(t == seq![s[0]] + tail);
        assert(t.take(q.len() as int)[0] == q[0]);
        if q.len() > 1 {
            let q1 = q.drop_first();
            assert(tail.take(q1.len() as int) =~= q1) by {
                assert forall|k: int| 0 <= k < q1.len() implies tail.take(q1.len() as int)[k]
                    == q1[k] by {
                    assert(t.take(q.len() as int)[k + 1] == q[k + 1]);
                }
            }
            assert forall|k: int| 0 <= k < q1.len() implies #[trigger] q1[k] != r[0] by {
                assert(q1[k] == q[k + 1]);
            }
            lemma_replaced_prefix(s.drop_first(), p, r, q1);
            assert(s.take(q.len() as int) =~= q) by {
                assert forall|k: int| 0 <= k < q.len() implies s.take(q.len() as int)[k] == q[k] by {
                    if k > 0 {
                        assert(s.drop_first().take(q1.len() as int)[k - 1] == q1[k - 1]);
                    }
                }
            }
        } else {
            assert(s.take(q.len() as int) =~= q);
        }
    }
}

proof fn lemma_no_occurrence_across_r(r: Seq<char>, t: Seq<char>, q: Seq<char>, i: int)
    requires
        clear_of(q, r),
        i < r.len(),
    ensures
        !occurs_at(r + t, q, i),
{
    if !occurs_at(r + t, q, i) {
    } else if i + q.len() <= r.len() {
        lemma_occurs_in_head(r, t, q, i);
    } else {
        let k = r.len() - 1 - i;
        assert((r + t).subrange(i, i + q.len())[k] == q[k]);
        assert(q[k] == r[r.len() - 1]);
    }
}

/// Replacing `p` by `r` leaves no occurrence of `p`, where `p` is clear of `r`.
pub proof fn lemma_replace_removes(s: Seq<char>, p: Seq<char>, r: Seq<char>)
    requires
        clear_of(p, r),
    ensures
        !contains(replace_all(s, p, r), p),
    decreases s.len(),
{
    let t = replace_all(s, p, r);
    if s.len() == 0 {
    } else if starts_with(s, p) {
        let tail = replace_all(s.skip(p.len() as int), p, r);
        lemma_replace_removes(s.skip(p.len() as int), p, r);
        if contains(t, p) {
            let i = choose|i: int| occurs_at(t, p, i);
            if i < r.len() {
                lemma_no_occurrence_across_r(r, tail, p, i);
            } else {
                lemma_occurs_in_tail(r, tail, p, i);
            }
        }
    } else {
        let tail = replace_all(s.drop_first(), p, r);
        lemma_replace_removes(s.drop_first(), p, r);
        if contains(t, p) {
            let i = choose|i: int| occurs_at(t, p, i);
            if i >= 1 {
                lemma_occurs_in_tail(seq![s[0]], tail, p, i);
            } else {
                assert(t.take(p.len() as int) =~= p) by {
                    assert(t.subrange(0, p.len() as int) =~= t.take(p.len() as int));
                }
                assert forall|k: int| 0 <= k < p.len() implies #[trigger] p[k] != r[0] by {}
                lemma_replaced_prefix(s, p, r, p);
            }
        }
    }
}

/// Replacing `p` by `r` brings in no occurrence of a `q` that is clear of `r`.
pub proof fn lemma_replace_keeps_absent(s: Seq<char>, p: Seq<char>, r: Seq<char>, q: Seq<char>)
    requires
        clear_of(q, r),
        !contains(s, q),
    ensures
        !contains(replace_all(s, p, r), q),
    decreases s.len(),
{
    let t = replace_all(s, p, r);
    if p.len() == 0 || s.len() == 0 {
    } else if starts_with(s, p) {
        let rest = s.skip(p.len() as int);
        let tail = replace_all(rest, p, r);
        assert(!contains(rest, q)) by {
            if contains(rest, q) {
                let j = choose|j: int| occurs_at(rest, q, j);
                lemma_occurs_shift(s, q, p.len() as int, j);
            }
        }
        lemma_replace_keeps_absent(rest, p, r, q);
        if contains(t, q) {
            let i = choose|i: int| occurs_at(t, q, i);
            if i < r.len() {
                lemma_no_occurrence_across_r(r, tail, q, i);
            } else {
                lemma_occurs_in_tail(r, tail, q, i);
            }
        }
    } else {
        let rest = s.drop_first();
        let tail = replace_all(rest, p, r);
        assert(!contains(rest, q)) by {
            if contains(rest, q) {
                let j = choose|j: int| occurs_at(rest, q, j);
                assert(rest =~= s.skip(1));
                lemma_occurs_shift(s, q, 1, j);
            }
        }
        lemma_replace_keeps_absent(rest, p, r, q);
        if contains(t, q) {
            let i = choose|i: int| occurs_at(t, q, i);
            if i >= 1 {
                lemma_occurs_in_tail(seq![s[0]], tail, q, i);
            } else {
                assert(t.take(q.len() as int) =~= q) by {
                    assert(t.subrange(0, q.len() as int) =~= t.take(q.len() as int));
                }
                assert forall|k: int| 0 <= k < q.len() implies #[trigger] q[k] != r[0] by {}
                lemma_replaced_prefix(s, p, r, q);
                assert(occurs_at(s, q, 0)) by {
                    assert(s.subrange(0, q.len() as int) =~= s.take(q.len() as int));
                }
            }
        }
    }
}

// ---------------------------------------------------------------------------
// Lines
// ---------------------------------------------------------------------------

/// Index of the first line feed in `s`, or its length when there is none.
pub open spec fn line_end(s: Seq<char>) -> int
    decreases s.len(),
{
    if s.len() == 0 {
        0
    } else if s[0] == '\n' {
        0
    } else {
        1 + line_end(s.drop_first())
    }
}

/// A line without its final carriage return.
pub open spec fn strip_cr(line: Seq<char>) -> Seq<char> {
    if line.len() > 0 && line.last() == '\r' {
        line.drop_last()
    } else {
        line
    }
}

/// The lines of `s`, as `str::lines` and `BufRead::lines` give them: split at
/// each line feed, with one carriage return before it removed; a final line
/// feed ends the last line and opens no new one.
pub open spec fn lines(s: Seq<char>) -> Seq<Seq<char>>
    decreases s.len(),
{
    if s.len() == 0 {
        seq![]
    } else {
        proof {
            lemma_line_end_bounds(s);
        }
        let k = line_end(s);
        if k < s.len() {
            seq![strip_cr(s.take(k))] + lines(s.skip(k + 1))
        } else {
            seq![s]
        }
    }
}

pub proof fn lemma_line_end_bounds(s: Seq<char>)
    ensures
        0 <= line_end(s) <= s.len(),
        line_end(s) < s.len() ==> s[line_end(s)] == '\n',
        forall|j: int| 0 <= j < line_end(s) ==> s[j] != '\n',
    decreases s.len(),
{
    if s.len() > 0 && s[0] != '\n' {
        lemma_line_end_bounds(s.drop_first());
        assert forall|j: int| 0 <= j < line_end(s) implies s[j] != '\n' by {
            if j > 0 {
                assert(s[j] == s.drop_first()[j - 1]);
            }
        }
    }
}

proof fn lemma_line_end_at(s: Seq<char>, k: int)
    requires
        0 <= k <= s.len(),
        k < s.len() ==> s[k] == '\n',
        forall|j: int| 0 <= j < k ==> s[j] != '\n',
    ensures
        line_end(s) == k,
    decreases s.len(),
{
    if s.len() > 0 && s[0] != '\n' {
        lemma_line_end_at(s.drop_first(), k - 1);
    }
}

/// A line, its line feed, and more text: the line comes first among the
/// lines, without a final carriage return.
pub proof fn lemma_lines_cons(x: Seq<char>, rest: Seq<char>)
    requires
        forall|k: int| 0 <= k < x.len() ==> x[k] != '\n',
    ensures
        lines(x + seq!['\n'] + rest) == seq![strip_cr(x)] + lines(rest),
{
    let s = x + seq!['\n'] + rest;
    lemma_line_end_at(s, x.len() as int);
    assert(s.take(x.len() as int) =~= x);
    assert(s.skip(x.len() as int + 1) =~= rest);
}

/// Text that ends its last line with a line feed keeps its lines when more
/// text follows.
pub proof fn lemma_lines_concat(a: Seq<char>, b: Seq<char>)
    requires
        a.len() == 0 || a.last() == '\n',
    ensures
        lines(a + b) == lines(a) + lines(b),
    decreases a.len(),
{
    if a.len() == 0 {
        assert(a + b =~= b);
        assert(lines(a) =~= Seq::<Seq<char>>::empty());
        assert(lines(a) + lines(b) =~= lines(b));
    } else {
        lemma_line_end_bounds(a);
        assert(a[a.len() - 1] == '\n');
        let k = line_end(a);
        assert(k < a.len());
        let s = a + b;
        assert forall|j: int| 0 <= j < k implies s[j] != '\n' by {
            assert(s[j] == a[j]);
        }
        assert(s[k] == a[k]);
        lemma_line_end_at(s, k);
        assert(s.take(k) =~= a.take(k));
        let a2 = a.skip(k + 1);
        assert(s.skip(k + 1) =~= a2 + b);
        assert(a2.len() == 0 || a2.last() == '\n') by {
            if a2.len() > 0 {
                assert(a2.last() == a.last());
            }
        }
        lemma_lines_concat(a2, b);
        assert(lines(s) == seq![strip_cr(s.take(k))] + lines(a2 + b));
        assert(lines(a) == seq![strip_cr(a.take(k))] + lines(a2));
        assert(lines(s) =~= lines(a) + lines(b));
    }
}

/// A text without line feeds, ended by one, is one line.
pub proof fn lemma_lines_single(x: Seq<char>)
    requires
        forall|k: int| 0 <= k < x.len() ==> x[k] != '\n',
    ensures
        lines(x + seq!['\n']) == seq![strip_cr(x)],
{
    lemma_lines_cons(x, Seq::<char>::empty());
    assert(x + seq!['\n'] + Seq::<char>::empty() =~= x + seq!['\n']);
    assert(lines(Seq::<char>::empty()) =~= Seq::<Seq<char>>::empty());
    assert(seq![strip_cr(x)] + Seq::<Seq<char>>::empty() =~= seq![strip_cr(x)]);
}

/// A text of spaces followed by `s[k..]`, which neither begins nor ends with
/// whitespace, trims to `s[k..]`.
pub proof fn lemma_trim_after_spaces(s: Seq<char>, k: int)
    requires
        0 <= k < s.len(),
        forall|j: int| 0 <= j < k ==> s[j] == ' ',
        !is_ws(s[k]),
        !is_ws(s.last()),
    ensures
        trim(s) == s.skip(k),
{
    lemma_trim_start_skip(s, k);
    let t = s.skip(k);
    assert(t[0] == s[k]);
    assert(trim_start(t) == t);
    assert(t.last() == s.last());
    assert(trim_end(t) == t);
}

/// Splits text into lines, as `str::lines` does.
pub fn split_lines(s: &str) -> (out: Vec<String>)
    ensures
        out.deep_view() == lines(s@),
{
    let v = chars_of(s);
    let mut out: Vec<String> = Vec::new();
    let mut start: usize = 0;
    let mut i: usize = 0;
    assert(v@.skip(0) =~= v@);
    assert(out.deep_view() =~= Seq::<Seq<char>>::empty());
    while i < v.len()
        invariant
            start <= i <= v.len(),
            v@ == s@,
            forall|j: int| start <= j < i ==> v@[j] != '\n',
            out.deep_view() + lines(v@.skip(start as int)) == lines(v@),
        decreases v.len() - i,
    {
        if v[i] == '\n' {
            let ghost rest = v@.skip(start as int);
            proof {
                lemma_line_end_at(rest, i - start);
                assert(rest.take(i - start) =~= v@.subrange(start as int, i as int));
                assert(rest.skip(i - start + 1) =~= v@.skip(i + 1));
            }
            let mut end = i;
            if end > start && v[end - 1] == '\r' {
                end = end - 1;
            }
            let line = string_of_range(&v, start, end);
            assert(line@ == strip_cr(v@.subrange(start as int, i as int)));
            let ghost out0 = out.deep_view();
            let ghost lv = line@;
            out.push(line);
            assert(out.deep_view() =~= out0.push(lv));
            assert(out.deep_view() + lines(v@.skip(i + 1)) =~= out0 + lines(
                rest,
            ));
            start = i + 1;
        }
        i += 1;
    }
    if start < v.len() {
        let ghost rest = v@.skip(start as int);
        proof {
            lemma_line_end_at(rest, rest.len() as int);
        }
        let line = string_of_range(&v, start, v.len());
        assert(line@ =~= rest);
        let ghost out0 = out.deep_view();
        let ghost lv = line@;
        out.push(line);
        assert(out.deep_view() =~= out0.push(lv));
    } else {
        assert(v@.skip(start as int).len() == 0);
        assert(out.deep_view() + lines(v@.skip(start as int)) =~= out.deep_view());
    }
    out
}

// ---------------------------------------------------------------------------
// Lexicographic order
// ---------------------------------------------------------------------------

/// Lexicographic order by character, which is the byte order of UTF-8 text
/// and so the order of `String`'s `Ord`.
pub open spec fn lex_lt(a: Seq<char>, b: Seq<char>) -> bool
    decreases a.len(),
{
    if a.len() == 0 {
        b.len() > 0
    } else if b.len() == 0 {
        false
    } else if a[0] != b[0] {
        (a[0] as int) < (b[0] as int)
    } else {
        lex_lt(a.drop_first(), b.drop_first())
    }
}

pub proof fn lemma_lex_irreflexive(a: Seq<char>)
    ensures
        !lex_lt(a, a),
    decreases a.len(),
{
    if a.len() > 0 {
        lemma_lex_irreflexive(a.drop_first());
    }
}

pub proof fn lemma_lex_transitive(a: Seq<char>, b: Seq<char>, c: Seq<char>)
    requires
        lex_lt(a, b),
        lex_lt(b, c),
    ensures
        lex_lt(a, c),
    decreases a.len(),
{
    if a.len() > 0 && b.len() > 0 && c.len() > 0 && a[0] == b[0] && b[0] == c[0] {
        lemma_lex_transitive(a.drop_first(), b.drop_first(), c.drop_first());
    }
}

pub proof fn lemma_lex_total(a: Seq<char>, b: Seq<char>)
    requires
        a != b,
    ensures
        lex_lt(a, b) || lex_lt(b, a),
    decreases a.len(),
{
    if a.len() > 0 && b.len() > 0 && a[0] == b[0] {
        if a.drop_first() == b.drop_first() {
            assert(a =~= seq![a[0]] + a.drop_first());
            assert(b =~= seq![b[0]] + b.drop_first());
        }
        lemma_lex_total(a.drop_first(), b.drop_first());
    } else if a.len() == 0 && b.len() == 0 {
        assert(a =~= b);
    }
}

/// `a` comes before `b` in lexicographic order.
pub fn lex_lt_exec(a: &Vec<char>, b: &Vec<char>) -> (r: bool)
    ensures
        r == lex_lt(a@, b@),
{
    let mut i: usize = 0;
    assert(a@.skip(0) =~= a@);
    assert(b@.skip(0) =~= b@);
    while i < a.len() && i < b.len() && a[i] == b[i]
        invariant
            i <= a.len(),
            i <= b.len(),
            lex_lt(a@, b@) == lex_lt(a@.skip(i as int), b@.skip(i as int)),
        decreases a.len() - i,
    {
        assert(a@.skip(i as int).drop_first() =~= a@.skip(i + 1));
        assert(b@.skip(i as int).drop_first() =~= b@.skip(i + 1));
        i += 1;
    }
    let ghost sa = a@.skip(i as int);
    let ghost sb = b@.skip(i as int);
    if i == a.len() {
        assert(sa.len() == 0);
        i < b.len()
    } else if i == b.len() {
        assert(sa.len() > 0 && sb.len() == 0);
        false
    } else {
        assert(sa[0] == a@[i as int]);
        assert(sb[0] == b@[i as int]);
        assert(sa.len() > 0 && sb.len() > 0 && sa[0] != sb[0]);
        let x = a[i];
        let y = b[i];
        x < y
    }
}

// ---------------------------------------------------------------------------
// Searching for a character
// ---------------------------------------------------------------------------

/// Index of the first `c` in `s`, or its length when there is none.
pub open spec fn index_of(s: Seq<char>, c: char) -> int
    decreases s.len(),
{
    if s.len() == 0 {
        0
    } else if s[0] == c {
        0
    } else {
        1 + index_of(s.drop_first(), c)
    }
}

pub proof fn lemma_index_of_bounds(s: Seq<char>, c: char)
    ensures
        0 <= index_of(s, c) <= s.len(),
    decreases s.len(),
{
    if s.len() > 0 && s[0] != c {
        lemma_index_of_bounds(s.drop_first(), c);
    }
}

pub proof fn lemma_index_of_at(s: Seq<char>, c: char, k: int)
    requires
        0 <= k <= s.len(),
        k < s.len() ==> s[k] == c,
        forall|j: int| 0 <= j < k ==> s[j] != c,
    ensures
        index_of(s, c) == k,
    decreases s.len(),
{
    if s.len() > 0 && s[0] != c {
        lemma_index_of_at(s.drop_first(), c, k - 1);
    }
}

/// Index of the first `c` in `v`, or its length when there is none.
pub fn find_char(v: &Vec<char>, c: char) -> (r: usize)
    ensures
        r == index_of(v@, c),
{
    let mut i: usize = 0;
    while i < v.len() && v[i] != c
        invariant
            i <= v.len(),
            forall|j: int| 0 <= j < i ==> v@[j] != c,
        decreases v.len() - i,
    {
        i += 1;
    }
    proof {
        lemma_index_of_at(v@, c, i as int);
    }
    i
}

// ---------------------------------------------------------------------------
// Decimal numbers
// ---------------------------------------------------------------------------

/// The decimal digit for `d`.
pub open spec fn digit_char(d: nat) -> char {
    if d == 0 {
        '0'
    } else if d == 1 {
        '1'
    } else if d == 2 {
        '2'
    } else if d == 3 {
        '3'
    } else if d == 4 {
        '4'
    } else if d == 5 {
        '5'
    } else if d == 6 {
        '6'
    } else if d == 7 {
        '7'
    } else if d == 8 {
        '8'
    } else {
        '9'
    }
}

/// The decimal representation of `n`, without leading zeros.
pub open spec fn decimal(n: nat) -> Seq<char>
    decreases n,
{
    if n < 10 {
        seq![digit_char(n)]
    } else {
        decimal(n / 10).push(digit_char(n % 10))
    }
}

/// The decimal representation of a signed integer.
pub open spec fn signed_decimal(n: int) -> Seq<char> {
    if n < 0 {
        seq!['-'] + decimal((-n) as nat)
    } else {
        decimal(n as nat)
    }
}

fn digit(d: u64) -> (c: char)
    requires
        d < 10,
    ensures
        c == digit_char(d as nat),
{
    if d == 0 {
        '0'
    } else if d == 1 {
        '1'
    } else if d == 2 {
        '2'
    } else if d == 3 {
        '3'
    } else if d == 4 {
        '4'
    } else if d == 5 {
        '5'
    } else if d == 6 {
        '6'
    } else if d == 7 {
        '7'
    } else if d == 8 {
        '8'
    } else {
        '9'
    }
}

/// Appends the decimal representation of `n` to `s`.
pub fn push_u64(s: &mut String, n: u64)
    ensures
        final(s)@ == old(s)@ + decimal(n as nat),
    decreases n,
{
    if n < 10 {
        push_char(s, digit(n));
        assert(old(s)@.push(digit_char(n as nat)) =~= old(s)@ + decimal(n as nat));
    } else {
        push_u64(s, n / 10);
        push_char(s, digit(n % 10));
        assert((old(s)@ + decimal((n / 10) as nat)).push(digit_char((n % 10) as nat)) =~= old(
            s,
        )@ + decimal(n as nat));
    }
}

/// Appends the decimal representation of a signed integer to `s`.
pub fn push_i64(s: &mut String, n: i64)
    ensures
        final(s)@ == old(s)@ + signed_decimal(n as int),
{
    if n < 0 {
        push_char(s, '-');
        let m: u64 = if n == i64::MIN {
            9223372036854775808u64
        } else {
            (-n) as u64
        };
        push_u64(s, m);
        assert(old(s)@.push('-') + decimal(m as nat) =~= old(s)@ + (seq!['-'] + decimal(
            m as nat,
        )));
    } else {
        push_u64(s, n as u64);
    }
}

/// All characters of `s` are ASCII decimal digits.
pub open spec fn all_digits(s: Seq<char>) -> bool {
    forall|i: int| 0 <= i < s.len() ==> '0' <= #[trigger] s[i] <= '9'
}

/// The number that the decimal digits `s` denote.
pub open spec fn digits_value(s: Seq<char>) -> nat
    decreases s.len(),
{
    if s.len() == 0 {
        0
    } else {
        digits_value(s.drop_last()) * 10 + (s.last() as nat - '0' as nat) as nat
    }
}

/// The sign and digits of a decimal numeral: an optional sign (`-` only where
/// `signed`), then at least one digit, as the integer `FromStr` impls accept it.
pub open spec fn numeral_digits(s: Seq<char>, signed: bool) -> Option<(bool, Seq<char>)> {
    if s.len() > 0 && s[0] == '+' {
        if s.len() > 1 && all_digits(s.drop_first()) {
            Some((false, s.drop_first()))
        } else {
            None
        }
    } else if signed && s.len() > 0 && s[0] == '-' {
        if s.len() > 1 && all_digits(s.drop_first()) {
            Some((true, s.drop_first()))
        } else {
            None
        }
    } else if s.len() > 0 && all_digits(s) {
        Some((false, s))
    } else {
        None
    }
}

/// The value that `u64::from_str` gives for `s`, or `None` where it fails.
pub open spec fn parse_u64_spec(s: Seq<char>) -> Option<u64> {
    match numeral_digits(s, false) {
        Some((_, d)) => if digits_value(d) <= u64::MAX {
            Some(digits_value(d) as u64)
        } else {
            None
        },
        None => None,
    }
}

/// The value that `i64::from_str` gives for `s`, or `None` where it fails.
pub open spec fn parse_i64_spec(s: Seq<char>) -> Option<i64> {
    match numeral_digits(s, true) {
        Some((neg, d)) => if neg {
            if digits_value(d) <= 9223372036854775808 {
                Some((-(digits_value(d) as int)) as i64)
            } else {
                None
            }
        } else if digits_value(d) <= i64::MAX {
            Some(digits_value(d) as i64)
        } else {
            None
        },
        None => None,
    }
}

/// Reads the digits of `v` in `[from, v.len())`, failing when the value passes `limit`.
fn digits_up_to(v: &Vec<char>, from: usize, limit: u64) -> (r: Option<u64>)
    requires
        limit >= 9,
        from <= v.len(),
        all_digits(v@.skip(from as int)),
    ensures
        match r {
            Some(x) => x == digits_value(v@.skip(from as int)) && x <= limit,
            None => digits_value(v@.skip(from as int)) > limit,
        },
{
    let mut acc: u64 = 0;
    let mut i: usize = from;
    while i < v.len()
        invariant
            from <= i <= v.len(),
            limit >= 9,
            all_digits(v@.skip(from as int)),
            acc == digits_value(v@.subrange(from as int, i as int)),
            acc <= limit,
        decreases v.len() - i,
    {
        assert(v@.skip(from as int)[i - from] == v@[i as int]);
        assert('0' <= v@.skip(from as int)[i - from] <= '9');
        let c = v[i];
        assert('0' <= c <= '9');
        assert(c as u32 >= 48 && c as u32 <= 57);
        let d = (c as u32 - 48) as u64;
        assert(d <= 9);
        let ghost next = v@.subrange(from as int, i + 1);
        assert(next.drop_last() =~= v@.subrange(from as int, i as int));
        assert(digits_value(next) == acc * 10 + d);
        if acc > (limit - d) / 10 {
            proof {
                lemma_digits_prefix_le(v@.skip(from as int), i + 1 - from);
                assert(v@.skip(from as int).take(i + 1 - from) =~= next);
                assert(acc * 10 + d > limit) by (nonlinear_arith)
                    requires
                        acc > (limit - d) / 10,
                        d <= limit || d <= 9,
                ;
            }
            return None;
        }
        assert(acc * 10 + d <= limit) by (nonlinear_arith)
            requires
                acc <= (limit - d) / 10,
                d <= limit,
        ;
        acc = acc * 10 + d;
        i += 1;
    }
    assert(v@.subrange(from as int, v.len() as int) =~= v@.skip(from as int));
    Some(acc)
}

proof fn lemma_digits_prefix_le(s: Seq<char>, k: int)
    requires
        0 <= k <= s.len(),
        all_digits(s),
    ensures
        digits_value(s.take(k)) <= digits_value(s),
    decreases s.len(),
{
    if k < s.len() {
        assert(s.drop_last().take(k) =~= s.take(k));
        assert(all_digits(s.drop_last()));
        lemma_digits_prefix_le(s.drop_last(), k);
    } else {
        assert(s.take(k) =~= s);
    }
}

fn all_digits_from(v: &Vec<char>, from: usize) -> (r: bool)
    requires
        from <= v.len(),
    ensures
        r == all_digits(v@.skip(from as int)),
{
    let mut i = from;
    while i < v.len()
        invariant
            from <= i <= v.len(),
            forall|j: int| from <= j < i ==> '0' <= #[trigger] v@[j] <= '9',
        decreases v.len() - i,
    {
        if !('0' <= v[i] && v[i] <= '9') {
            assert(v@.skip(from as int)[i - from] == v@[i as int]);
            return false;
        }
        i += 1;
    }
    assert forall|j: int| 0 <= j < v@.skip(from as int).len() implies '0' <= #[trigger] v@.skip(
        from as int,
    )[j] <= '9' by {
        assert(v@.skip(from as int)[j] == v@[j + from]);
    }
    true
}

/// `u64::from_str`.
pub fn parse_u64(s: &str) -> (r: Option<u64>)
    ensures
        r == parse_u64_spec(s@),
{
    let v = chars_of(s);
    let from: usize = if v.len() > 0 && v[0] == '+' {
        1
    } else {
        0
    };
    assert(v@.skip(0) =~= v@);
    assert(v@.skip(1) =~= v@.drop_first()) ;
    if from >= v.len() || !all_digits_from(&v, from) {
        if from == 0 && v.len() > 0 {
            assert(v@[0] != '+');
        }
        return None;
    }
    digits_up_to(&v, from, u64::MAX)
}

/// `usize::from_str`.
pub fn parse_usize(s: &str) -> (r: Option<usize>)
    ensures
        match r {
            Some(x) => parse_u64_spec(s@) == Some(x as u64),
            None => parse_u64_spec(s@) is None || parse_u64_spec(s@).unwrap() > usize::MAX,
        },
{
    match parse_u64(s) {
        Some(x) => if x <= usize::MAX as u64 {
            Some(x as usize)
        } else {
            None
        },
        None => None,
    }
}

/// `i64::from_str`.
pub fn parse_i64(s: &str) -> (r: Option<i64>)
    ensures
        r == parse_i64_spec(s@),
{
    let v = chars_of(s);
    assert(v@.skip(0) =~= v@);
    assert(v@.skip(1) =~= v@.drop_first());
    if v.len() > 0 && v[0] == '-' {
        if v.len() < 2 || !all_digits_from(&v, 1) {
            return None;
        }
        match digits_up_to(&v, 1, 9223372036854775808u64) {
            Some(x) => {
                if x == 9223372036854775808u64 {
                    Some(i64::MIN)
                } else {
                    Some(-(x as i64))
                }
            },
            None => None,
        }
    } else {
        let from: usize = if v.len() > 0 && v[0] == '+' {
            1
        } else {
            0
        };
        if from >= v.len() || !all_digits_from(&v, from) {
            if from == 0 && v.len() > 0 {
                assert(v@[0] != '+');
            }
            return None;
        }
        match digits_up_to(&v, from, i64::MAX as u64) {
            Some(x) => Some(x as i64),
            None => None,
        }
    }
}

} // verus!
