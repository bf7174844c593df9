//! Text: trimming, searching, numbers and replacement, stated over sequences of
//! characters.

use vstd::prelude::*;
use vstd::string::*;

verus! {

// ---------------------------------------------------------------------------
// What the operations mean
// ---------------------------------------------------------------------------

/// The Unicode `White_Space` property.
pub open spec fn is_whitespace(c: char) -> bool {
    ||| '\u{9}' <= c <= '\u{d}'
    ||| c == ' '
    ||| c == '\u{85}'
    ||| c == '\u{a0}'
    ||| c == '\u{1680}'
    ||| '\u{2000}' <= c <= '\u{200a}'
    ||| c == '\u{2028}'
    ||| c == '\u{2029}'
    ||| c == '\u{202f}'
    ||| c == '\u{205f}'
    ||| c == '\u{3000}'
}

/// `s` without its leading white space.
pub open spec fn trim_start(s: Seq<char>) -> Seq<char>
    decreases s.len(),
{
    if s.len() > 0 && is_whitespace(s[0]) {
        trim_start(s.drop_first())
    } else {
        s
    }
}

/// `s` without its trailing white space.
pub open spec fn trim_end(s: Seq<char>) -> Seq<char>
    decreases s.len(),
{
    if s.len() > 0 && is_whitespace(s.last()) {
        trim_end(s.drop_last())
    } else {
        s
    }
}

/// `s` without leading or trailing white space.
pub open spec fn trim(s: Seq<char>) -> Seq<char> {
    trim_end(trim_start(s))
}

/// `pat` stands in `s` at position `i`.
pub open spec fn occurs_at(s: Seq<char>, pat: Seq<char>, i: int) -> bool {
    0 <= i && i + pat.len() <= s.len() && s.subrange(i, i + pat.len()) == pat
}

/// `pat` stands somewhere in `s`.
pub open spec fn contains(s: Seq<char>, pat: Seq<char>) -> bool {
    exists|i: int| occurs_at(s, pat, i)
}

/// `s` begins with `pat`.
pub open spec fn starts_with(s: Seq<char>, pat: Seq<char>) -> bool {
    occurs_at(s, pat, 0)
}

/// What follows `pat` in `s`, if `s` begins with it.
pub open spec fn strip_prefix(s: Seq<char>, pat: Seq<char>) -> Option<Seq<char>> {
    if starts_with(s, pat) {
        Some(s.skip(pat.len() as int))
    } else {
        None
    }
}

pub open spec fn is_digit(c: char) -> bool {
    '0' <= c <= '9'
}

pub open spec fn digit_value(c: char) -> nat {
    (c as int - '0' as int) as nat
}

pub open spec fn digit_char(d: nat) -> char {
    ('0' as int + d) as char
}

/// `n` written in decimal, without leading zeros.
pub open spec fn decimal(n: nat) -> Seq<char>
    decreases n,
{
    if n < 10 {
        seq![digit_char(n)]
    } else {
        decimal(n / 10).push(digit_char(n % 10))
    }
}

/// The number that the decimal digits `s` stand for.
pub open spec fn decimal_value(s: Seq<char>) -> nat
    decreases s.len(),
{
    if s.len() == 0 {
        0
    } else {
        10 * decimal_value(s.drop_last()) + digit_value(s.last())
    }
}

pub open spec fn all_digits(s: Seq<char>) -> bool {
    forall|i: int| 0 <= i < s.len() ==> is_digit(#[trigger] s[i])
}

/// `s` without a leading plus sign.
pub open spec fn unsigned_part(s: Seq<char>) -> Seq<char> {
    if s.len() > 0 && s[0] == '+' {
        s.drop_first()
    } else {
        s
    }
}

/// The 32-bit number written in `s`: an optional plus sign, then digits only.
pub open spec fn parse_number(s: Seq<char>) -> Option<u32> {
    let body = unsigned_part(s);
    if body.len() > 0 && all_digits(body) && decimal_value(body) <= u32::MAX {
        Some(decimal_value(body) as u32)
    } else {
        None
    }
}

/// `s` with every occurrence of `pat`, found from left to right, replaced by `with`.
pub open spec fn replace(s: Seq<char>, pat: Seq<char>, with: Seq<char>) -> Seq<char>
    recommends
        pat.len() > 0,
    decreases s.len(),
{
    if s.len() == 0 || pat.len() == 0 {
        s
    } else if starts_with(s, pat) {
        with + replace(s.skip(pat.len() as int), pat, with)
    } else {
        seq![s[0]] + replace(s.drop_first(), pat, with)
    }
}

/// How many characters of `s` come before its first line feed.
pub open spec fn line_len(s: Seq<char>) -> nat
    decreases s.len(),
{
    if s.len() == 0 || s[0] == '\n' {
        0
    } else {
        1 + line_len(s.drop_first())
    }
}

/// The first line of `s` without its terminator, a line feed that a carriage
/// return may precede.
pub open spec fn first_line(s: Seq<char>) -> Seq<char> {
    let line = s.take(line_len(s) as int);
    if line_len(s) < s.len() && line.len() > 0 && line.last() == '\r' {
        line.drop_last()
    } else {
        line
    }
}

/// What follows the first line of `s`.
pub open spec fn after_first_line(s: Seq<char>) -> Seq<char> {
    if line_len(s) < s.len() {
        s.skip(line_len(s) as int + 1)
    } else {
        Seq::empty()
    }
}

/// The lines of `s`.
pub open spec fn lines(s: Seq<char>) -> Seq<Seq<char>>
    decreases s.len(),
    via lines_decreases
{
    if s.len() == 0 {
        Seq::empty()
    } else {
        seq![first_line(s)] + lines(after_first_line(s))
    }
}

#[via_fn]
proof fn lines_decreases(s: Seq<char>) {
    lemma_line_len(s);
}

/// How many characters of `s` come before its first white space.
pub open spec fn word_len(s: Seq<char>) -> nat
    decreases s.len(),
{
    if s.len() == 0 || is_whitespace(s[0]) {
        0
    } else {
        1 + word_len(s.drop_first())
    }
}

/// The maximal runs of `s` that hold no white space.
pub open spec fn words(s: Seq<char>) -> Seq<Seq<char>>
    decreases s.len(),
    via words_decreases
{
    let t = trim_start(s);
    if t.len() == 0 {
        Seq::empty()
    } else {
        seq![t.take(word_len(t) as int)] + words(t.skip(word_len(t) as int))
    }
}

#[via_fn]
proof fn words_decreases(s: Seq<char>) {
    lemma_trim_start(s);
    lemma_word_len(trim_start(s));
}

/// `parts` in one text, with `sep` between each two of them.
pub open spec fn join(parts: Seq<Seq<char>>, sep: Seq<char>) -> Seq<char>
    decreases parts.len(),
{
    if parts.len() == 0 {
        Seq::empty()
    } else if parts.len() == 1 {
        parts[0]
    } else {
        join(parts.drop_last(), sep) + sep + parts.last()
    }
}

// ---------------------------------------------------------------------------
// Lemmas
// ---------------------------------------------------------------------------

proof fn lemma_line_len(s: Seq<char>)
    ensures
        line_len(s) <= s.len(),
        forall|i: int| 0 <= i < line_len(s) ==> s[i] != '\n',
        line_len(s) < s.len() ==> s[line_len(s) as int] == '\n',
    decreases s.len(),
{
    if s.len() > 0 && s[0] != '\n' {
        let t = s.drop_first();
        lemma_line_len(t);
        assert forall|i: int| 0 <= i < line_len(s) implies s[i] != '\n' by {
            if i > 0 {
                assert(t[i - 1] == s[i]);
            }
        }
    }
}

pub proof fn lemma_trim_start(s: Seq<char>)
    ensures
        trim_start(s).len() <= s.len(),
        trim_start(s) == s.skip(s.len() - trim_start(s).len()),
        trim_start(s).len() > 0 ==> !is_whitespace(trim_start(s)[0]),
    decreases s.len(),
{
    if s.len() > 0 && is_whitespace(s[0]) {
        lemma_trim_start(s.drop_first());
    }
    assert(trim_start(s) =~= s.skip(s.len() - trim_start(s).len()));
}

pub proof fn lemma_trim_end(s: Seq<char>)
    ensures
        trim_end(s).len() <= s.len(),
        trim_end(s) == s.take(trim_end(s).len() as int),
        trim_end(s).len() > 0 ==> !is_whitespace(trim_end(s).last()),
    decreases s.len(),
{
    if s.len() > 0 && is_whitespace(s.last()) {
        lemma_trim_end(s.drop_last());
    }
    assert(trim_end(s) =~= s.take(trim_end(s).len() as int));
}

/// No line holds a line feed.
pub proof fn lemma_lines_hold_no_newline(s: Seq<char>)
    ensures
        forall|i: int, k: int|
            0 <= i < lines(s).len() && 0 <= k < lines(s)[i].len() ==> #[trigger] lines(s)[i][k]
                != '\n',
    decreases s.len(),
{
    if s.len() > 0 {
        let rest = after_first_line(s);
        lemma_line_len(s);
        lemma_lines_hold_no_newline(rest);
        assert forall|i: int, k: int|
            0 <= i < lines(s).len() && 0 <= k < lines(s)[i].len() implies #[trigger] lines(s)[i][k]
            != '\n' by {
            if i == 0 {
                assert(first_line(s)[k] == s[k]);
            } else {
                assert(lines(s)[i] == lines(rest)[i - 1]);
                assert(lines(rest)[i - 1][k] != '\n');
            }
        }
    }
}

proof fn lemma_word_len(s: Seq<char>)
    ensures
        word_len(s) <= s.len(),
        s.len() > 0 && !is_whitespace(s[0]) ==> word_len(s) > 0,
    decreases s.len(),
{
    if s.len() > 0 && !is_whitespace(s[0]) {
        lemma_word_len(s.drop_first());
    }
}

proof fn lemma_decimal_value_prefix(s: Seq<char>, n: int)
    requires
        0 <= n <= s.len(),
    ensures
        decimal_value(s.take(n)) <= decimal_value(s),
    decreases s.len(),
{
    if n < s.len() {
        lemma_decimal_value_prefix(s.drop_last(), n);
        assert(s.drop_last().take(n) =~= s.take(n));
    } else {
        assert(s.take(n) =~= s);
    }
}

proof fn lemma_decimal_shape(n: nat)
    ensures
        decimal(n).len() > 0,
        all_digits(decimal(n)),
        decimal_value(decimal(n)) == n,
    decreases n,
{
    let d = decimal(n);
    if n < 10 {
        assert(d.drop_last() =~= Seq::empty());
        assert(decimal_value(d.drop_last()) == 0);
    } else {
        lemma_decimal_shape(n / 10);
        assert(d.drop_last() =~= decimal(n / 10));
    }
}

/// A number that was written in decimal is read back unchanged.
pub proof fn law_parse_decimal(n: u32)
    ensures
        parse_number(decimal(n as nat)) == Some(n),
{
    let d = decimal(n as nat);
    lemma_decimal_shape(n as nat);
    assert(is_digit(d[0]));
    assert(unsigned_part(d) == d);
}


// ---------------------------------------------------------------------------
// Operations
// ---------------------------------------------------------------------------

/// `String::push` appends one character to the end of the text.
pub assume_specification[ String::push ](s: &mut String, c: char)
    ensures
        final(s)@ == old(s)@.push(c),
;

/// The characters of `s`, in order.
pub fn chars_of(s: &str) -> (r: Vec<char>)
    ensures
        r@ == s@,
{
    let mut out: Vec<char> = Vec::new();
    for c in it: s.chars()
        invariant
            out@ == it.seq().take(it.index()),
            it.seq() == s@,
    {
        out.push(c);
    }
    out
}

/// The text made of the characters `v[from..to]`.
pub fn string_of(v: &Vec<char>, from: usize, to: usize) -> (r: String)
    requires
        from <= to <= v.len(),
    ensures
        r@ == v@.subrange(from as int, to as int),
{
    let mut out: String = String::new();
    let mut i: usize = from;
    while i < to
        invariant
            from <= i <= to <= v.len(),
            out@ == v@.subrange(from as int, i as int),
        decreases to - i,
    {
        out.push(v[i]);
        i = i + 1;
    }
    out
}

/// `a` and `b` in one text.
pub fn concat2(a: &str, b: &str) -> (r: String)
    ensures
        r@ == a@ + b@,
{
    let mut out: String = String::from_str(a);
    out.append(b);
    out
}

/// `a`, `b` and `c` in one text.
pub fn concat3(a: &str, b: &str, c: &str) -> (r: String)
    ensures
        r@ == a@ + b@ + c@,
{
    let mut out: String = String::from_str(a);
    out.append(b);
    out.append(c);
    out
}

/// Whether `a` and `b` hold the same characters.
pub fn same_text(a: &str, b: &str) -> (r: bool)
    ensures
        r == (a@ == b@),
{
    let x: Vec<char> = chars_of(a);
    let y: Vec<char> = chars_of(b);
    if x.len() != y.len() {
        return false;
    }
    let r: bool = matches_at(&x, &y, 0);
    proof {
        assert(x@.subrange(0, y@.len() as int) =~= x@);
    }
    r
}

/// Whether `pat` stands in `v` at position `at`.
fn matches_at(v: &Vec<char>, pat: &Vec<char>, at: usize) -> (r: bool)
    requires
        at <= v.len(),
    ensures
        r == occurs_at(v@, pat@, at as int),
{
    if pat.len() > v.len() - at {
        return false;
    }
    let mut i: usize = 0;
    while i < pat.len()
        invariant
            i <= pat.len() <= v.len() - at,
            at <= v.len(),
            v@.subrange(at as int, at + i) == pat@.take(i as int),
        decreases pat.len() - i,
    {
        if v[at + i] != pat[i] {
            proof {
                assert(v@.subrange(at as int, at + pat@.len())[i as int] == v@[at + i]);
            }
            return false;
        }
        proof {
            assert(v@.subrange(at as int, at + i + 1) =~= v@.subrange(at as int, at + i).push(
                v@[at + i],
            ));
            assert(pat@.take(i + 1) =~= pat@.take(i as int).push(pat@[i as int]));
        }
        i = i + 1;
    }
    proof {
        assert(pat@.take(pat@.len() as int) =~= pat@);
    }
    true
}

/// Whether `c` is white space.
pub fn char_is_whitespace(c: char) -> (r: bool)
    ensures
        r == is_whitespace(c),
{
    ('\u{9}' <= c && c <= '\u{d}') || c == ' ' || c == '\u{85}' || c == '\u{a0}' || c
        == '\u{1680}' || ('\u{2000}' <= c && c <= '\u{200a}') || c == '\u{2028}' || c
        == '\u{2029}' || c == '\u{202f}' || c == '\u{205f}' || c == '\u{3000}'
}

/// `s` without leading or trailing white space.
pub fn trimmed(s: &str) -> (r: String)
    ensures
        r@ == trim(s@),
{
    let v: Vec<char> = chars_of(s);
    let mut from: usize = 0;
    proof {
        assert(v@.skip(0) =~= v@);
    }
    while from < v.len() && char_is_whitespace(v[from])
        invariant
            from <= v.len(),
            trim_start(v@.skip(from as int)) == trim_start(v@),
        decreases v.len() - from,
    {
        proof {
            assert(v@.skip(from as int).drop_first() =~= v@.skip(from + 1));
        }
        from = from + 1;
    }
    let ghost t = v@.skip(from as int);
    proof {
        assert(trim_start(v@) == t);
    }
    let mut to: usize = v.len();
    proof {
        assert(t.take(t.len() as int) =~= t);
    }
    while to > from && char_is_whitespace(v[to - 1])
        invariant
            from <= to <= v.len(),
            t == v@.skip(from as int),
            trim_end(t.take(to - from)) == trim_end(t),
        decreases to,
    {
        proof {
            assert(t.take(to - from).drop_last() =~= t.take(to - from - 1));
            assert(t.take(to - from).last() == v@[to - 1]);
        }
        to = to - 1;
    }
    proof {
        let u = t.take(to - from);
        if u.len() > 0 {
            assert(u.last() == v@[to - 1]);
        }
        assert(trim_end(u) == u);
        assert(u =~= v@.subrange(from as int, to as int));
    }
    string_of(&v, from, to)
}

/// Whether `pat` stands somewhere in `s`.
pub fn has(s: &str, pat: &str) -> (r: bool)
    ensures
        r == contains(s@, pat@),
{
    let v: Vec<char> = chars_of(s);
    let p: Vec<char> = chars_of(pat);
    if p.len() > v.len() {
        return false;
    }
    let last: usize = v.len() - p.len();
    let mut i: usize = 0;
    while i < last
        invariant
            i <= last == v.len() - p.len(),
            p.len() <= v.len(),
            v@ == s@,
            p@ == pat@,
            forall|j: int| 0 <= j < i ==> !occurs_at(v@, p@, j),
        decreases last - i,
    {
        if matches_at(&v, &p, i) {
            return true;
        }
        i = i + 1;
    }
    matches_at(&v, &p, last)
}

/// Whether `s` begins with `pat`.
pub fn has_prefix(s: &str, pat: &str) -> (r: bool)
    ensures
        r == starts_with(s@, pat@),
{
    let v: Vec<char> = chars_of(s);
    let p: Vec<char> = chars_of(pat);
    matches_at(&v, &p, 0)
}

/// What follows `pat` in `s`, if `s` begins with it.
pub fn without_prefix(s: &str, pat: &str) -> (r: Option<String>)
    ensures
        r.deep_view() == strip_prefix(s@, pat@),
{
    let v: Vec<char> = chars_of(s);
    let p: Vec<char> = chars_of(pat);
    if matches_at(&v, &p, 0) {
        let rest: String = string_of(&v, p.len(), v.len());
        proof {
            assert(rest@ =~= s@.skip(pat@.len() as int));
        }
        Some(rest)
    } else {
        None
    }
}

/// `n` in decimal.
pub fn decimal_text(n: u64) -> (r: String)
    ensures
        r@ == decimal(n as nat),
    decreases n,
{
    let d: u8 = (n % 10) as u8;
    let c: char = (48u8 + d) as char;
    let mut out: String = if n < 10 {
        String::new()
    } else {
        decimal_text(n / 10)
    };
    out.push(c);
    proof {
        if n < 10 {
            assert(out@ =~= decimal(n as nat));
        }
    }
    out
}

/// The 32-bit number written in `s`, if `s` is one: an optional plus sign, then
/// digits only.
pub fn number_in(s: &str) -> (r: Option<u32>)
    ensures
        r == parse_number(s@),
{
    let v: Vec<char> = chars_of(s);
    let start: usize = if v.len() > 0 && v[0] == '+' {
        1
    } else {
        0
    };
    let ghost body = v@.skip(start as int);
    proof {
        assert(unsigned_part(v@) =~= body);
    }
    if start == v.len() {
        return None;
    }
    let mut value: u64 = 0;
    let mut i: usize = start;
    while i < v.len()
        invariant
            start <= i <= v.len(),
            start <= 1,
            body == v@.skip(start as int),
            unsigned_part(v@) == body,
            v@ == s@,
            all_digits(body.take(i - start)),
            value == decimal_value(body.take(i - start)),
            value <= u32::MAX,
        decreases v.len() - i,
    {
        let c: char = v[i];
        let ghost seen = body.take(i - start);
        let ghost more = body.take(i - start + 1);
        proof {
            assert(body[i - start] == c);
            assert(more.drop_last() =~= seen);
            assert(more.last() == c);
        }
        if c < '0' || '9' < c {
            proof {
                assert(!is_digit(body[i - start]));
            }
            return None;
        }
        value = value * 10 + (c as u64 - '0' as u64);
        if value > u32::MAX as u64 {
            proof {
                lemma_decimal_value_prefix(body, i - start + 1);
            }
            return None;
        }
        proof {
            assert forall|j: int| 0 <= j < more.len() implies is_digit(#[trigger] more[j]) by {
                if j < i - start {
                    assert(more[j] == seen[j]);
                }
            }
        }
        i = i + 1;
    }
    proof {
        assert(body.take(i - start) =~= body);
    }
    Some(value as u32)
}

/// `s` with every occurrence of `pat` replaced by `with`.
pub fn replaced(s: &str, pat: &str, with: &str) -> (r: String)
    requires
        pat@.len() > 0,
    ensures
        r@ == replace(s@, pat@, with@),
{
    let v: Vec<char> = chars_of(s);
    let p: Vec<char> = chars_of(pat);
    let mut out: String = String::new();
    let mut i: usize = 0;
    proof {
        assert(v@.skip(0) =~= v@);
    }
    while i < v.len()
        invariant
            i <= v.len(),
            p@.len() > 0,
            replace(v@, p@, with@) == out@ + replace(v@.skip(i as int), p@, with@),
        decreases v.len() - i,
    {
        let ghost rest = v@.skip(i as int);
        let ghost before = out@;
        let found: bool = matches_at(&v, &p, i);
        proof {
            assert(occurs_at(v@, p@, i as int) == starts_with(rest, p@)) by {
                if i + p@.len() <= v@.len() {
                    assert(rest.subrange(0, p@.len() as int) =~= v@.subrange(
                        i as int,
                        i + p@.len(),
                    ));
                }
            }
        }
        if found {
            out.append(with);
            proof {
                assert(rest.skip(p@.len() as int) =~= v@.skip(i + p@.len()));
                let tail = replace(v@.skip(i + p@.len()), p@, with@);
                assert(before + (with@ + tail) =~= before + with@ + tail);
            }
            i = i + p.len();
        } else {
            out.push(v[i]);
            proof {
                assert(rest.drop_first() =~= v@.skip(i + 1));
                let tail = replace(v@.skip(i + 1), p@, with@);
                assert(before + (seq![v@[i as int]] + tail) =~= before.push(v@[i as int]) + tail);
            }
            i = i + 1;
        }
    }
    proof {
        assert(v@.skip(i as int) =~= Seq::empty());
        assert(out@ + replace(v@.skip(i as int), p@, with@) =~= out@);
    }
    out
}

/// The lines of `s`.
pub fn split_lines(s: &str) -> (r: Vec<String>)
    ensures
        r.deep_view() == lines(s@),
{
    let v: Vec<char> = chars_of(s);
    let mut out: Vec<String> = Vec::new();
    let mut i: usize = 0;
    proof {
        assert(v@.skip(0) =~= v@);
        assert(out.deep_view() =~= Seq::empty());
    }
    while i < v.len()
        invariant
            i <= v.len(),
            lines(v@) == out.deep_view() + lines(v@.skip(i as int)),
        decreases v.len() - i,
    {
        let ghost rest = v@.skip(i as int);
        let ghost before = out.deep_view();
        let mut j: usize = i;
        while j < v.len() && v[j] != '\n'
            invariant
                i <= j <= v.len(),
                forall|k: int| i <= k < j ==> v@[k] != '\n',
            decreases v.len() - j,
        {
            j = j + 1;
        }
        proof {
            lemma_line_len(rest);
            assert(line_len(rest) == j - i) by {
                if line_len(rest) < j - i {
                    assert(v@[i + line_len(rest)] == rest[line_len(rest) as int]);
                } else if line_len(rest) > j - i {
                    assert(rest[j - i] == v@[j as int]);
                }
            }
        }
        let mut end: usize = j;
        if j < v.len() && j > i && v[j - 1] == '\r' {
            end = j - 1;
        }
        let line: String = string_of(&v, i, end);
        proof {
            let full = rest.take(j - i);
            assert(j > i ==> full.last() == v@[j - 1]);
            assert(line@ =~= first_line(rest));
        }
        out.push(line);
        i = if j < v.len() {
            j + 1
        } else {
            j
        };
        proof {
            assert(out.deep_view() =~= before.push(first_line(rest)));
            assert(after_first_line(rest) =~= v@.skip(i as int));
            let tail = lines(v@.skip(i as int));
            assert(before + (seq![first_line(rest)] + tail) =~= before.push(first_line(rest))
                + tail);
        }
    }
    proof {
        assert(v@.skip(i as int) =~= Seq::empty());
        assert(out.deep_view() + lines(v@.skip(i as int)) =~= out.deep_view());
    }
    out
}

/// The runs of `s` that white space separates.
pub fn split_words(s: &str) -> (r: Vec<String>)
    ensures
        r.deep_view() == words(s@),
{
    let v: Vec<char> = chars_of(s);
    let mut out: Vec<String> = Vec::new();
    let mut i: usize = 0;
    proof {
        assert(v@.skip(0) =~= v@);
        assert(out.deep_view() =~= Seq::empty());
    }
    while i < v.len()
        invariant
            i <= v.len(),
            words(v@) == out.deep_view() + words(v@.skip(i as int)),
        decreases v.len() - i,
    {
        let ghost rest = v@.skip(i as int);
        let ghost before = out.deep_view();
        if char_is_whitespace(v[i]) {
            proof {
                assert(rest.drop_first() =~= v@.skip(i + 1));
                assert(trim_start(rest) == trim_start(rest.drop_first()));
            }
            i = i + 1;
        } else {
            let start: usize = i;
            let mut j: usize = i;
            proof {
                assert(rest.skip(0) =~= rest);
            }
            while j < v.len() && !char_is_whitespace(v[j])
                invariant
                    start <= j <= v.len(),
                    rest == v@.skip(start as int),
                    word_len(rest) == (j - start) + word_len(v@.skip(j as int)),
                decreases v.len() - j,
            {
                proof {
                    assert(v@.skip(j as int).drop_first() =~= v@.skip(j + 1));
                }
                j = j + 1;
            }
            let word: String = string_of(&v, start, j);
            out.push(word);
            proof {
                assert(word_len(v@.skip(j as int)) == 0);
                assert(trim_start(rest) == rest);
                assert(word@ =~= rest.take(word_len(rest) as int));
                assert(rest.skip(word_len(rest) as int) =~= v@.skip(j as int));
                assert(out.deep_view() =~= before.push(word@));
                let tail = words(v@.skip(j as int));
                assert(before + (seq![word@] + tail) =~= before.push(word@) + tail);
                if word_len(rest) == 0 {
                    lemma_word_len(rest);
                }
            }
            i = j;
        }
    }
    proof {
        assert(v@.skip(i as int) =~= Seq::empty());
        assert(trim_start(v@.skip(i as int)).len() == 0);
        assert(out.deep_view() + words(v@.skip(i as int)) =~= out.deep_view());
    }
    out
}

/// `parts` in one text, with `sep` between each two of them.
pub fn joined(parts: &Vec<String>, sep: &str) -> (r: String)
    ensures
        r@ == join(parts.deep_view(), sep@),
{
    let ghost all = parts.deep_view();
    let mut out: String = String::new();
    let mut i: usize = 0;
    proof {
        assert(out@ =~= join(all.take(0), sep@));
    }
    while i < parts.len()
        invariant
            i <= parts.len(),
            all == parts.deep_view(),
            out@ == join(all.take(i as int), sep@),
        decreases parts.len() - i,
    {
        proof {
            assert(all.take(i + 1).drop_last() =~= all.take(i as int));
            assert(all.take(i + 1).last() == parts@[i as int]@);
        }
        if i > 0 {
            out.append(sep);
        }
        out.append(parts[i].as_str());
        proof {
            if i == 0 {
                assert(out@ =~= all[0]);
            }
        }
        i = i + 1;
    }
    proof {
        assert(all.take(i as int) =~= all);
    }
    out
}

// ---------------------------------------------------------------------------
// Laws
// ---------------------------------------------------------------------------

/// The characters that count as white space.
pub proof fn law_whitespace(c: char)
    ensures
        c <= '\u{7f}' ==> (is_whitespace(c) <==> c == '\t' || c == '\n' || c == '\u{b}' || c
            == '\u{c}' || c == '\r' || c == ' '),
        is_whitespace(c) && c > '\u{7f}' <==> seq![
            '\u{85}',
            '\u{a0}',
            '\u{1680}',
            '\u{2000}',
            '\u{2001}',
            '\u{2002}',
            '\u{2003}',
            '\u{2004}',
            '\u{2005}',
            '\u{2006}',
            '\u{2007}',
            '\u{2008}',
            '\u{2009}',
            '\u{200a}',
            '\u{2028}',
            '\u{2029}',
            '\u{202f}',
            '\u{205f}',
            '\u{3000}',
        ].contains(c),
{
    let all = seq![
        '\u{85}',
        '\u{a0}',
        '\u{1680}',
        '\u{2000}',
        '\u{2001}',
        '\u{2002}',
        '\u{2003}',
        '\u{2004}',
        '\u{2005}',
        '\u{2006}',
        '\u{2007}',
        '\u{2008}',
        '\u{2009}',
        '\u{200a}',
        '\u{2028}',
        '\u{2029}',
        '\u{202f}',
        '\u{205f}',
        '\u{3000}',
    ];
    if is_whitespace(c) && c > '\u{7f}' {
        if c == '\u{85}' {
            assert(all[0] == c);
        } else if c == '\u{a0}' {
            assert(all[1] == c);
        } else if c == '\u{1680}' {
            assert(all[2] == c);
        } else if c <= '\u{200a}' {
            assert(all[c as int - 0x2000 + 3] == c);
        } else if c == '\u{2028}' {
            assert(all[14] == c);
        } else if c == '\u{2029}' {
            assert(all[15] == c);
        } else if c == '\u{202f}' {
            assert(all[16] == c);
        } else if c == '\u{205f}' {
            assert(all[17] == c);
        } else {
            assert(all[18] == c);
        }
    }
}

/// Trimming takes away white space at both ends, all of it, and nothing else.
pub proof fn law_trim(before: Seq<char>, s: Seq<char>, after: Seq<char>)
    requires
        forall|i: int| 0 <= i < before.len() ==> is_whitespace(#[trigger] before[i]),
        forall|i: int| 0 <= i < after.len() ==> is_whitespace(#[trigger] after[i]),
        s.len() > 0 ==> !is_whitespace(s[0]) && !is_whitespace(s.last()),
    ensures
        trim(before + s + after) == s,
    decreases before.len() + after.len(),
{
    let t = before + s + after;
    if before.len() > 0 {
        let rest = before.drop_first();
        assert(is_whitespace(before[0]));
        assert forall|i: int| 0 <= i < rest.len() implies is_whitespace(#[trigger] rest[i]) by {
            assert(is_whitespace(before[i + 1]));
        }
        assert(t.drop_first() =~= rest + s + after);
        law_trim(rest, s, after);
    } else if s.len() > 0 {
        assert(t[0] == s[0]);
        assert(trim_start(t) == t);
        if after.len() > 0 {
            let rest = after.drop_last();
            assert(is_whitespace(after[after.len() - 1]));
            assert forall|i: int| 0 <= i < rest.len() implies is_whitespace(#[trigger] rest[i]) by {
                assert(is_whitespace(after[i]));
            }
            assert(t.drop_last() =~= before + s + rest);
            law_trim(before, s, rest);
            let fewer = before + s + rest;
            assert(fewer[0] == s[0]);
            assert(trim_start(fewer) == fewer);
        } else {
            assert(t =~= s);
        }
    } else if after.len() > 0 {
        let rest = after.drop_first();
        assert(is_whitespace(after[0]));
        assert forall|i: int| 0 <= i < rest.len() implies is_whitespace(#[trigger] rest[i]) by {
            assert(is_whitespace(after[i + 1]));
        }
        assert(t.drop_first() =~= before + s + rest);
        law_trim(before, s, rest);
    } else {
        assert(t =~= s);
    }
}

/// A text stands in another exactly if there is something before and behind it, be it
/// nothing, that makes up the whole.
pub proof fn law_contains(s: Seq<char>, pat: Seq<char>)
    ensures
        contains(s, pat) <==> exists|before: Seq<char>, after: Seq<char>|
            s == #[trigger] (before + pat + after),
{
    if contains(s, pat) {
        let i = choose|i: int| occurs_at(s, pat, i);
        let before = s.take(i);
        let after = s.skip(i + pat.len());
        assert forall|j: int| 0 <= j < pat.len() implies s[i + j] == #[trigger] pat[j] by {
            assert(s.subrange(i, i + pat.len())[j] == pat[j]);
        }
        assert(s =~= before + pat + after);
    }
    if exists|before: Seq<char>, after: Seq<char>| s == #[trigger] (before + pat + after) {
        let (before, after) = choose|before: Seq<char>, after: Seq<char>|
            s == #[trigger] (before + pat + after);
        assert(s.subrange(before.len() as int, (before.len() + pat.len()) as int) =~= pat);
        assert(occurs_at(s, pat, before.len() as int));
    }
}

/// What follows a prefix is found, and there is a prefix only where something follows
/// it, be it nothing.
pub proof fn law_prefix(pat: Seq<char>, rest: Seq<char>, s: Seq<char>)
    ensures
        starts_with(pat + rest, pat),
        strip_prefix(pat + rest, pat) == Some(rest),
        starts_with(s, pat) ==> strip_prefix(s, pat) is Some && s == pat + strip_prefix(s, pat)->0,
        !starts_with(s, pat) ==> strip_prefix(s, pat) is None,
{
    assert((pat + rest).subrange(0, pat.len() as int) =~= pat);
    assert((pat + rest).skip(pat.len() as int) =~= rest);
    if starts_with(s, pat) {
        assert(s =~= s.subrange(0, pat.len() as int) + s.skip(pat.len() as int));
    }
}

/// Decimal notation: a digit for each number below ten, and the last digit behind the
/// others for any greater one.
pub proof fn law_decimal(n: nat, d: nat)
    requires
        d < 10,
    ensures
        decimal(d).len() == 1 && decimal(d)[0] as int == 48 + d,
        n > 0 ==> decimal(10 * n + d) == decimal(n) + decimal(d),
        decimal(n)[0] == '0' ==> n == 0,
{
    if n > 0 {
        assert((10 * n + d) / 10 == n && (10 * n + d) % 10 == d);
        assert(decimal(10 * n + d) =~= decimal(n) + decimal(d));
    }
    lemma_no_leading_zero(n);
}

/// A number in decimal is made of digits, at least one.
pub proof fn law_decimal_digits(n: nat)
    ensures
        decimal(n).len() > 0,
        forall|i: int| 0 <= i < decimal(n).len() ==> '0' <= #[trigger] decimal(n)[i] <= '9',
{
    lemma_decimal_shape(n);
    assert forall|i: int| 0 <= i < decimal(n).len() implies '0' <= #[trigger] decimal(n)[i]
        <= '9' by {
        assert(is_digit(decimal(n)[i]));
    }
}

proof fn lemma_no_leading_zero(n: nat)
    ensures
        decimal(n).len() > 0,
        decimal(n)[0] == '0' ==> n == 0,
    decreases n,
{
    if n >= 10 {
        lemma_no_leading_zero(n / 10);
    }
}

/// Of what is written in decimal, numbers of 32 bits are read and greater ones are not;
/// zeros and one plus sign in front make no difference.
pub proof fn law_parse_number(n: nat, s: Seq<char>)
    ensures
        parse_number(decimal(n)) == if n <= 0xffff_ffff {
            Some(n as u32)
        } else {
            None
        },
        s.len() > 0 && all_digits(s) ==> parse_number(seq!['0'] + s) == parse_number(s)
            && parse_number(seq!['+'] + s) == parse_number(s),
        parse_number(s) is Some ==> s.len() > 0 && forall|i: int|
            0 <= i < s.len() ==> '0' <= #[trigger] s[i] <= '9' || (i == 0 && s[i] == '+' && s.len()
                > 1),
{
    let d = decimal(n);
    lemma_decimal_shape(n);
    assert(is_digit(d[0]));
    assert(unsigned_part(d) == d);
    if s.len() > 0 && all_digits(s) {
        assert(is_digit(s[0]));
        assert(unsigned_part(s) == s);
        let zero = seq!['0'] + s;
        assert(unsigned_part(zero) == zero);
        assert forall|i: int| 0 <= i < zero.len() implies is_digit(#[trigger] zero[i]) by {
            if i > 0 {
                assert(is_digit(s[i - 1]));
            }
        }
        lemma_leading_zero(s);
        let plus = seq!['+'] + s;
        assert(plus.drop_first() =~= s);
    }
    if parse_number(s) is Some {
        let body = unsigned_part(s);
        assert forall|i: int| 0 <= i < s.len() implies '0' <= #[trigger] s[i] <= '9' || (i == 0
            && s[i] == '+' && s.len() > 1) by {
            if s[0] == '+' {
                if i > 0 {
                    assert(is_digit(body[i - 1]));
                }
            } else {
                assert(is_digit(body[i]));
            }
        }
    }
}

proof fn lemma_leading_zero(s: Seq<char>)
    ensures
        decimal_value(seq!['0'] + s) == decimal_value(s),
    decreases s.len(),
{
    let zero = seq!['0'] + s;
    if s.len() > 0 {
        lemma_leading_zero(s.drop_last());
        assert(zero.drop_last() =~= seq!['0'] + s.drop_last());
    } else {
        assert(zero.drop_last() =~= Seq::empty());
        assert(decimal_value(zero.drop_last()) == 0);
    }
}

/// Replacing takes the first occurrence, then goes on behind it.
pub proof fn law_replace_first(before: Seq<char>, pat: Seq<char>, with: Seq<char>, after: Seq<char>)
    requires
        pat.len() > 0,
        forall|i: int|
            0 <= i < before.len() ==> !(#[trigger] occurs_at(before + pat + after, pat, i)),
    ensures
        replace(before + pat + after, pat, with) == before + with + replace(after, pat, with),
    decreases before.len(),
{
    let s = before + pat + after;
    let tail = replace(after, pat, with);
    if before.len() == 0 {
        assert(s =~= pat + after);
        assert(s.subrange(0, pat.len() as int) =~= pat);
        assert(s.skip(pat.len() as int) =~= after);
        assert(with + tail =~= before + with + tail);
    } else {
        let rest = before.drop_first();
        let t = rest + pat + after;
        assert(s.drop_first() =~= t);
        assert(!occurs_at(s, pat, 0));
        assert forall|i: int| 0 <= i < rest.len() implies !(#[trigger] occurs_at(t, pat, i)) by {
            assert(!occurs_at(s, pat, i + 1));
            assert(t.subrange(i, i + pat.len()) =~= s.subrange(i + 1, i + 1 + pat.len()));
        }
        law_replace_first(rest, pat, with, after);
        assert(seq![s[0]] + (rest + with + tail) =~= before + with + tail);
    }
}

/// A text without occurrences stays as it is.
pub proof fn law_replace_nothing(s: Seq<char>, pat: Seq<char>, with: Seq<char>)
    requires
        !contains(s, pat),
    ensures
        replace(s, pat, with) == s,
    decreases s.len(),
{
    if s.len() > 0 && pat.len() > 0 {
        let rest = s.drop_first();
        assert(!occurs_at(s, pat, 0));
        if contains(rest, pat) {
            let i = choose|i: int| occurs_at(rest, pat, i);
            assert(rest.subrange(i, i + pat.len()) =~= s.subrange(i + 1, i + 1 + pat.len()));
            assert(occurs_at(s, pat, i + 1));
        }
        law_replace_nothing(rest, pat, with);
        assert(seq![s[0]] + rest =~= s);
    }
}

proof fn lemma_line_len_at(s: Seq<char>, n: int)
    requires
        0 <= n <= s.len(),
        n < s.len() ==> s[n] == '\n',
        forall|i: int| 0 <= i < n ==> #[trigger] s[i] != '\n',
    ensures
        line_len(s) == n,
    decreases n,
{
    if n > 0 {
        let t = s.drop_first();
        assert(s[0] != '\n');
        assert forall|i: int| 0 <= i < n - 1 implies #[trigger] t[i] != '\n' by {
            assert(s[i + 1] != '\n');
        }
        lemma_line_len_at(t, n - 1);
    }
}

/// A line ends at the first line feed, which a carriage return may precede; what is
/// left behind the last line feed is a line too, unless it is empty.
pub proof fn law_lines(line: Seq<char>, rest: Seq<char>)
    requires
        forall|i: int| 0 <= i < line.len() ==> #[trigger] line[i] != '\n',
    ensures
        lines(line + seq!['\r', '\n'] + rest) == seq![line] + lines(rest),
        line.len() == 0 || line.last() != '\r' ==> lines(line + seq!['\n'] + rest) == seq![line]
            + lines(rest),
        line.len() > 0 ==> lines(line) == seq![line],
        lines(Seq::empty()).len() == 0,
{
    let s = line + seq!['\r', '\n'] + rest;
    let n = line.len() + 1;
    assert(s[n as int] == '\n');
    assert forall|i: int| 0 <= i < n implies #[trigger] s[i] != '\n' by {
        if i < line.len() {
            assert(s[i] == line[i]);
        }
    }
    lemma_line_len_at(s, n as int);
    assert(s.take(n as int).last() == '\r');
    assert(first_line(s) =~= line);
    assert(after_first_line(s) =~= rest);
    if line.len() == 0 || line.last() != '\r' {
        let t = line + seq!['\n'] + rest;
        assert forall|i: int| 0 <= i < line.len() implies #[trigger] t[i] != '\n' by {
            assert(t[i] == line[i]);
        }
        lemma_line_len_at(t, line.len() as int);
        assert(t.take(line.len() as int) =~= line);
        assert(after_first_line(t) =~= rest);
    }
    if line.len() > 0 {
        lemma_line_len_at(line, line.len() as int);
        assert(line.take(line.len() as int) =~= line);
        assert(after_first_line(line) =~= Seq::empty());
        assert(lines(Seq::<char>::empty()) =~= Seq::empty());
        assert(seq![line] + Seq::<Seq<char>>::empty() =~= seq![line]);
        assert(lines(line) =~= seq![line]);
    }
}

/// The lines of two texts, of which the first ends in a line feed, are those of the one
/// and then those of the other.
pub proof fn law_lines_append(a: Seq<char>, b: Seq<char>)
    requires
        a.len() == 0 || a.last() == '\n',
    ensures
        lines(a + b) == lines(a) + lines(b),
    decreases a.len(),
{
    if a.len() == 0 {
        assert(a + b =~= b);
        assert(lines(a) + lines(b) =~= lines(b));
    } else {
        lemma_line_len(a);
        let n = line_len(a) as int;
        if n == a.len() {
            assert(a[a.len() - 1] != '\n');
        }
        let s = a + b;
        assert forall|i: int| 0 <= i < n implies #[trigger] s[i] != '\n' by {
            assert(a[i] != '\n');
        }
        assert(s[n] == a[n]);
        lemma_line_len_at(s, n);
        let rest = after_first_line(a);
        assert(s.take(n) =~= a.take(n));
        assert(after_first_line(s) =~= rest + b);
        if rest.len() > 0 {
            assert(rest.last() == a.last());
        }
        law_lines_append(rest, b);
        assert(lines(s) =~= lines(a) + lines(b));
    }
}

proof fn lemma_word_len_at(s: Seq<char>, n: int)
    requires
        0 <= n <= s.len(),
        n < s.len() ==> is_whitespace(s[n]),
        forall|i: int| 0 <= i < n ==> !is_whitespace(#[trigger] s[i]),
    ensures
        word_len(s) == n,
    decreases n,
{
    if n > 0 {
        let t = s.drop_first();
        assert(!is_whitespace(s[0]));
        assert forall|i: int| 0 <= i < n - 1 implies !is_whitespace(#[trigger] t[i]) by {
            assert(!is_whitespace(s[i + 1]));
        }
        lemma_word_len_at(t, n - 1);
    }
}

/// Words are what stands between white space.
pub proof fn law_words(word: Seq<char>, c: char, rest: Seq<char>)
    requires
        is_whitespace(c),
        forall|i: int| 0 <= i < word.len() ==> !is_whitespace(#[trigger] word[i]),
    ensures
        words(seq![c] + rest) == words(rest),
        word.len() > 0 ==> words(word + seq![c] + rest) == seq![word] + words(rest),
        word.len() > 0 ==> words(word) == seq![word],
        words(Seq::empty()).len() == 0,
{
    let t = seq![c] + rest;
    assert(t.drop_first() =~= rest);
    assert(trim_start(t) == trim_start(rest));
    assert(words(t) == words(rest));
    if word.len() > 0 {
        assert(!is_whitespace(word[0]));
        let s = word + t;
        assert(s =~= word + seq![c] + rest);
        assert forall|i: int| 0 <= i < word.len() implies !is_whitespace(#[trigger] s[i]) by {
            assert(s[i] == word[i]);
        }
        assert(s[word.len() as int] == c);
        lemma_word_len_at(s, word.len() as int);
        assert(s[0] == word[0]);
        assert(trim_start(s) == s);
        assert(s.take(word.len() as int) =~= word);
        assert(s.skip(word.len() as int) =~= t);
        lemma_word_len_at(word, word.len() as int);
        assert(trim_start(word) == word);
        assert(word.take(word.len() as int) =~= word);
        assert(word.skip(word.len() as int) =~= Seq::empty());
        assert(words(Seq::empty()) =~= Seq::empty());
        assert(words(word) =~= seq![word]);
    }
}

/// Two lists of parts in one text are the texts of the two with the separator between
/// them; one part is its own text, and no parts are no text.
pub proof fn law_join(a: Seq<Seq<char>>, b: Seq<Seq<char>>, part: Seq<char>, sep: Seq<char>)
    ensures
        join(seq![part], sep) == part,
        join(Seq::empty(), sep).len() == 0,
        a.len() > 0 && b.len() > 0 ==> join(a + b, sep) == join(a, sep) + sep + join(b, sep),
    decreases b.len(),
{
    if a.len() > 0 && b.len() > 0 {
        let all = a + b;
        assert(all.drop_last() =~= a + b.drop_last());
        if b.len() == 1 {
            assert(a + b.drop_last() =~= a);
            assert(join(all, sep) =~= join(a, sep) + sep + join(b, sep));
        } else {
            law_join(a, b.drop_last(), part, sep);
            assert(join(all, sep) =~= join(a, sep) + sep + join(b, sep));
        }
    }
}

/// A text stands in itself, and what stands in a text stands in any that it is part of.
pub proof fn law_contains_part(before: Seq<char>, s: Seq<char>, after: Seq<char>, pat: Seq<char>)
    requires
        contains(s, pat) || s == pat,
    ensures
        contains(before + s + after, pat),
{
    let whole = before + s + after;
    if s == pat {
        assert(s.subrange(0, s.len() as int) =~= s);
        assert(occurs_at(s, pat, 0));
    }
    let i = choose|i: int| occurs_at(s, pat, i);
    let at = before.len() + i;
    assert(whole.subrange(at, at + pat.len()) =~= s.subrange(i, i + pat.len()));
    assert(occurs_at(whole, pat, at));
}

}
