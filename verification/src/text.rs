//! Text helpers: comparison, concatenation, cutting and number rendering.

use vstd::prelude::*;
use vstd::string::{StrSliceExecFns, StringExecFns};

verus! {

// ---------------------------------------------------------------------------
// Characters
// ---------------------------------------------------------------------------

/// The characters of a text, one by one.
pub fn chars_of(s: &str) -> (r: Vec<char>)
    ensures
        r@ == s@,
{
    let mut out: Vec<char> = Vec::new();
    for c in it: s.chars()
        invariant
            it.seq() == s@,
            out@ == s@.take(it.index() as int),
    {
        out.push(c);
    }
    out
}

/// Whether `needle` stands in `hay` at position `at`.
pub open spec fn occurs_at(hay: Seq<char>, needle: Seq<char>, at: int) -> bool {
    0 <= at && at + needle.len() <= hay.len() && hay.subrange(at, at + needle.len()) == needle
}

/// Whether `needle` stands in `hay` at position `at`.
fn chars_at(hay: &Vec<char>, needle: &Vec<char>, at: usize) -> (r: bool)
    ensures
        r == occurs_at(hay@, needle@, at as int),
{
    if at > hay.len() || needle.len() > hay.len() - at {
        return false;
    }
    for i in 0..needle.len()
        invariant
            at + needle.len() <= hay.len(),
            forall|j: int| 0 <= j < i ==> #[trigger] needle@[j] == hay@[at + j],
    {
        if needle[i] != hay[at + i] {
            proof {
                assert(hay@.subrange(at as int, at + needle@.len())[i as int] == hay@[at + i]);
            }
            return false;
        }
    }
    assert(hay@.subrange(at as int, at + needle@.len()) =~= needle@);
    true
}

/// Whether two texts hold the same characters.
pub fn same_text(a: &str, b: &str) -> (r: bool)
    ensures
        r == (a@ == b@),
{
    let x = chars_of(a);
    let y = chars_of(b);
    if x.len() != y.len() {
        return false;
    }
    let r = chars_at(&x, &y, 0);
    assert(x@.subrange(0, y@.len() as int) =~= x@);
    r
}

/// Whether a text holds no character.
pub fn is_empty(s: &str) -> (r: bool)
    ensures
        r == (s@.len() == 0),
{
    s.unicode_len() == 0
}

/// Whether `s` begins with `prefix`.
pub open spec fn has_prefix(s: Seq<char>, prefix: Seq<char>) -> bool {
    occurs_at(s, prefix, 0)
}

/// Whether `s` ends with `suffix`.
pub open spec fn has_suffix(s: Seq<char>, suffix: Seq<char>) -> bool {
    occurs_at(s, suffix, s.len() - suffix.len())
}

/// Whether `needle` stands anywhere in `s`.
pub open spec fn has_part(s: Seq<char>, needle: Seq<char>) -> bool {
    exists|at: int| occurs_at(s, needle, at)
}

/// Whether `s` begins with `prefix`.
pub fn starts_with(s: &str, prefix: &str) -> (r: bool)
    ensures
        r == has_prefix(s@, prefix@),
{
    chars_at(&chars_of(s), &chars_of(prefix), 0)
}

/// Whether `s` ends with `suffix`.
pub fn ends_with(s: &str, suffix: &str) -> (r: bool)
    ensures
        r == has_suffix(s@, suffix@),
{
    let x = chars_of(s);
    let y = chars_of(suffix);
    if y.len() > x.len() {
        return false;
    }
    chars_at(&x, &y, x.len() - y.len())
}

/// Whether `needle` stands anywhere in `s`.
pub fn contains_text(s: &str, needle: &str) -> (r: bool)
    ensures
        r == has_part(s@, needle@),
{
    let x = chars_of(s);
    let y = chars_of(needle);
    let mut at: usize = 0;
    while at <= x.len()
        invariant
            at <= x.len() + 1,
            x@ == s@,
            y@ == needle@,
            forall|j: int| 0 <= j < at ==> !occurs_at(s@, needle@, j),
        decreases x.len() + 1 - at,
    {
        if chars_at(&x, &y, at) {
            return true;
        }
        if at == x.len() {
            return false;
        }
        at = at + 1;
    }
    false
}

// ---------------------------------------------------------------------------
// Concatenation
// ---------------------------------------------------------------------------

pub fn cat2(a: &str, b: &str) -> (r: String)
    ensures
        r@ == a@ + b@,
{
    let mut out = a.to_owned();
    out.append(b);
    out
}

pub fn cat3(a: &str, b: &str, c: &str) -> (r: String)
    ensures
        r@ == a@ + b@ + c@,
{
    let mut out = cat2(a, b);
    out.append(c);
    out
}

pub fn cat4(a: &str, b: &str, c: &str, d: &str) -> (r: String)
    ensures
        r@ == a@ + b@ + c@ + d@,
{
    let mut out = cat3(a, b, c);
    out.append(d);
    out
}

pub fn cat5(a: &str, b: &str, c: &str, d: &str, e: &str) -> (r: String)
    ensures
        r@ == a@ + b@ + c@ + d@ + e@,
{
    let mut out = cat4(a, b, c, d);
    out.append(e);
    out
}

/// The texts in order, with `separator` between two neighbours.
pub open spec fn joined(parts: Seq<Seq<char>>, separator: Seq<char>) -> Seq<char>
    decreases parts.len(),
{
    if parts.len() == 0 {
        seq![]
    } else if parts.len() == 1 {
        parts[0]
    } else {
        joined(parts.drop_last(), separator) + separator + parts.last()
    }
}

/// The views of a list of strings.
pub open spec fn views(parts: Seq<String>) -> Seq<Seq<char>> {
    Seq::new(parts.len(), |i: int| parts[i]@)
}

/// The texts in order, with `separator` between two neighbours.
pub fn join_text(parts: &Vec<String>, separator: &str) -> (r: String)
    ensures
        r@ == joined(views(parts@), separator@),
{
    let mut out = String::new();
    for i in 0..parts.len()
        invariant
            out@ == joined(views(parts@).take(i as int), separator@),
    {
        if i > 0 {
            out.append(separator);
        }
        out.append(parts[i].as_str());
        proof {
            let v = views(parts@);
            assert(v.take(i + 1).drop_last() =~= v.take(i as int));
            assert(v.take(i + 1).last() == parts@[i as int]@);
            if i == 0 {
                assert(out@ =~= parts@[0]@);
            }
        }
    }
    assert(views(parts@).take(parts@.len() as int) =~= views(parts@));
    out
}

/// A text written `count` times.
pub open spec fn repeated(unit: Seq<char>, count: nat) -> Seq<char>
    decreases count,
{
    if count == 0 {
        seq![]
    } else {
        repeated(unit, (count - 1) as nat) + unit
    }
}

/// `unit` written `count` times.
pub fn repeat_text(unit: &str, count: usize) -> (r: String)
    ensures
        r@ == repeated(unit@, count as nat),
{
    let mut out = String::new();
    for i in 0..count
        invariant
            out@ == repeated(unit@, i as nat),
    {
        out.append(unit);
    }
    out
}

// ---------------------------------------------------------------------------
// Numbers and truth values
// ---------------------------------------------------------------------------

/// The character of a decimal digit.
pub open spec fn digit(d: nat) -> char {
    if d == 0 {
        '0'
    } else if d == 1 {
        '1'
    } else if d == 2 {
        '2'
    } else if d == 3 {
        '3'
    } else if d == 4 {
        '4'
    } else if d == 5 {
        '5'
    } else if d == 6 {
        '6'
    } else if d == 7 {
        '7'
    } else if d == 8 {
        '8'
    } else {
        '9'
    }
}

/// A number in decimal notation, without leading zeros.
pub open spec fn decimal(n: nat) -> Seq<char>
    decreases n,
{
    if n < 10 {
        seq![digit(n)]
    } else {
        decimal(n / 10).push(digit(n % 10))
    }
}

/// A signed number in decimal notation.
pub open spec fn signed_decimal(n: int) -> Seq<char> {
    if n < 0 {
        seq!['-'] + decimal((-n) as nat)
    } else {
        decimal(n as nat)
    }
}

/// The notation of a truth value.
pub open spec fn truth(b: bool) -> Seq<char> {
    if b {
        "true"@
    } else {
        "false"@
    }
}

fn digit_text(d: u64) -> (r: &'static str)
    requires
        d < 10,
    ensures
        r@ == seq![digit(d as nat)],
{
    proof {
        reveal_strlit("0");
        reveal_strlit("1");
        reveal_strlit("2");
        reveal_strlit("3");
        reveal_strlit("4");
        reveal_strlit("5");
        reveal_strlit("6");
        reveal_strlit("7");
        reveal_strlit("8");
        reveal_strlit("9");
    }
    if d == 0 {
        "0"
    } else if d == 1 {
        "1"
    } else if d == 2 {
        "2"
    } else if d == 3 {
        "3"
    } else if d == 4 {
        "4"
    } else if d == 5 {
        "5"
    } else if d == 6 {
        "6"
    } else if d == 7 {
        "7"
    } else if d == 8 {
        "8"
    } else {
        "9"
    }
}

/// A number in decimal notation.
pub fn decimal_text(n: u64) -> (r: String)
    ensures
        r@ == decimal(n as nat),
    decreases n,
{
    if n < 10 {
        digit_text(n).to_owned()
    } else {
        let mut out = decimal_text(n / 10);
        out.append(digit_text(n % 10));
        out
    }
}

/// A signed number in decimal notation.
pub fn signed_text(n: i64) -> (r: String)
    ensures
        r@ == signed_decimal(n as int),
{
    if n >= 0 {
        decimal_text(n as u64)
    } else {
        proof {
            reveal_strlit("-");
        }
        let magnitude: u64 = if n == i64::MIN {
            9223372036854775808
        } else {
            (-n) as u64
        };
        let r = cat2("-", decimal_text(magnitude).as_str());
        assert("-"@ =~= seq!['-']);
        r
    }
}

/// The notation of a truth value.
pub fn truth_text(b: bool) -> (r: String)
    ensures
        r@ == truth(b),
{
    if b {
        "true".to_owned()
    } else {
        "false".to_owned()
    }
}

// ---------------------------------------------------------------------------
// Cutting
// ---------------------------------------------------------------------------

/// The position of the last colon, or -1.
pub open spec fn last_colon(s: Seq<char>) -> int
    decreases s.len(),
{
    if s.len() == 0 {
        -1
    } else if s.last() == ':' {
        s.len() - 1
    } else {
        last_colon(s.drop_last())
    }
}

pub proof fn lemma_last_colon_bounds(s: Seq<char>)
    ensures
        -1 <= last_colon(s) < s.len(),
    decreases s.len(),
{
    if s.len() > 0 && s.last() != ':' {
        lemma_last_colon_bounds(s.drop_last());
    }
}

/// What follows the last colon; the whole text where there is none.
pub open spec fn local_part(s: Seq<char>) -> Seq<char> {
    s.subrange(last_colon(s) + 1, s.len() as int)
}

/// What precedes the last colon, where there is one.
pub open spec fn namespace_part(s: Seq<char>) -> Option<Seq<char>> {
    if last_colon(s) < 0 {
        None
    } else {
        Some(s.subrange(0, last_colon(s)))
    }
}

/// How many characters precede what follows the last colon.
fn local_start(s: &str) -> (r: usize)
    ensures
        r == last_colon(s@) + 1,
        r <= s@.len(),
{
    let x = chars_of(s);
    let mut start: usize = 0;
    proof {
        lemma_last_colon_bounds(s@);
    }
    for i in 0..x.len()
        invariant
            x@ == s@,
            start == last_colon(s@.take(i as int)) + 1,
    {
        assert(s@.take(i + 1).drop_last() =~= s@.take(i as int));
        if x[i] == ':' {
            start = i + 1;
        }
    }
    assert(s@.take(s@.len() as int) =~= s@);
    start
}

/// What follows the last colon; the whole text where there is none.
pub fn local_text(s: &str) -> (r: String)
    ensures
        r@ == local_part(s@),
{
    let start: usize = local_start(s);
    s.substring_char(start, s.unicode_len()).to_owned()
}

/// What precedes the last colon, where there is one.
pub fn namespace_text(s: &str) -> (r: Option<String>)
    ensures
        r.deep_view() == namespace_part(s@),
{
    let start: usize = local_start(s);
    if start == 0 {
        None
    } else {
        Some(s.substring_char(0, start - 1).to_owned())
    }
}

/// A text without the quotes around it, where it has both.
pub open spec fn unquoted(s: Seq<char>) -> Seq<char> {
    if s.len() >= 2 && s[0] == '"' && s.last() == '"' {
        s.subrange(1, s.len() - 1)
    } else {
        s
    }
}

/// Whether a text stands in quotes.
pub open spec fn is_quoted(s: Seq<char>) -> bool {
    s.len() >= 2 && s[0] == '"' && s.last() == '"'
}

/// Whether a text stands in quotes.
pub fn quoted(s: &str) -> (r: bool)
    ensures
        r == is_quoted(s@),
{
    let n: usize = s.unicode_len();
    n >= 2 && s.get_char(0) == '"' && s.get_char(n - 1) == '"'
}

/// A text without the quotes around it, where it has both.
pub fn strip_quotes(s: &str) -> (r: String)
    ensures
        r@ == unquoted(s@),
{
    if quoted(s) {
        s.substring_char(1, s.unicode_len() - 1).to_owned()
    } else {
        s.to_owned()
    }
}

// ---------------------------------------------------------------------------
// Splitting and trimming
// ---------------------------------------------------------------------------

/// The first position from `from` on at which `needle` stands in `s`, or -1.
pub open spec fn first_at(s: Seq<char>, needle: Seq<char>, from: int) -> int
    decreases s.len() + 1 - from,
{
    if from < 0 || from > s.len() {
        -1
    } else if occurs_at(s, needle, from) {
        from
    } else {
        first_at(s, needle, from + 1)
    }
}

/// The first position at which `needle` stands in `s`.
fn find_text(s: &str, needle: &str) -> (r: Option<usize>)
    ensures
        match r {
            Some(at) => at == first_at(s@, needle@, 0) && at + needle@.len() <= s@.len(),
            None => first_at(s@, needle@, 0) == -1,
        },
{
    let x = chars_of(s);
    let y = chars_of(needle);
    let mut at: usize = 0;
    loop
        invariant
            x@ == s@,
            y@ == needle@,
            at <= x.len(),
            first_at(s@, needle@, 0) == first_at(s@, needle@, at as int),
        decreases x.len() - at,
    {
        if chars_at(&x, &y, at) {
            return Some(at);
        }
        if at == x.len() {
            assert(first_at(s@, needle@, at + 1) == -1);
            return None;
        }
        at = at + 1;
    }
}

/// What stands between the occurrences of a separator, from the left.
pub open spec fn pieces(s: Seq<char>, separator: Seq<char>) -> Seq<Seq<char>>
    decreases s.len(),
{
    let at = first_at(s, separator, 0);
    if separator.len() == 0 || at < 0 || at + separator.len() > s.len() {
        seq![s]
    } else {
        seq![s.take(at)] + pieces(s.skip(at + separator.len()), separator)
    }
}

/// What stands between the occurrences of a separator, from the left.
pub fn split_text(s: &str, separator: &str) -> (r: Vec<String>)
    requires
        separator@.len() > 0,
    ensures
        views(r@) == pieces(s@, separator@),
{
    let mut out: Vec<String> = Vec::new();
    let mut rest = s.to_owned();
    assert(views(out@) + pieces(rest@, separator@) =~= pieces(s@, separator@));
    loop
        invariant
            separator@.len() > 0,
            views(out@) + pieces(rest@, separator@) == pieces(s@, separator@),
        decreases rest@.len(),
    {
        let ghost before = views(out@);
        let ghost whole = rest@;
        match find_text(rest.as_str(), separator) {
            Some(at) => {
                let width: usize = separator.unicode_len();
                let all: usize = rest.as_str().unicode_len();
                let piece = rest.as_str().substring_char(0, at).to_owned();
                let next = rest.as_str().substring_char(at + width, all).to_owned();
                assert(piece@ =~= whole.take(at as int));
                assert(next@ =~= whole.skip(at + width));
                out.push(piece);
                rest = next;
                assert(views(out@) =~= before.push(whole.take(at as int)));
                assert(views(out@) + pieces(rest@, separator@) =~= before + pieces(
                    whole,
                    separator@,
                ));
            },
            None => {
                out.push(rest);
                assert(views(out@) =~= before + seq![whole]);
                return out;
            },
        }
    }
}

/// Whether a character is white space.
pub open spec fn is_white(c: char) -> bool {
    ||| '\u{9}' <= c <= '\u{d}'
    ||| c == ' '
    ||| c == '\u{85}'
    ||| c == '\u{a0}'
    ||| c == '\u{1680}'
    ||| '\u{2000}' <= c <= '\u{200a}'
    ||| c == '\u{2028}'
    ||| c == '\u{2029}'
    ||| c == '\u{202f}'
    ||| c == '\u{205f}'
    ||| c == '\u{3000}'
}

/// Whether a character is white space.
pub fn white(c: char) -> (r: bool)
    ensures
        r == is_white(c),
{
    ('\u{9}' <= c && c <= '\u{d}') || c == ' ' || c == '\u{85}' || c == '\u{a0}' || c == '\u{1680}'
        || ('\u{2000}' <= c && c <= '\u{200a}') || c == '\u{2028}' || c == '\u{2029}' || c
        == '\u{202f}' || c == '\u{205f}' || c == '\u{3000}'
}

/// A text without the white space at its beginning.
pub open spec fn trimmed_start(s: Seq<char>) -> Seq<char>
    decreases s.len(),
{
    if s.len() > 0 && is_white(s[0]) {
        trimmed_start(s.skip(1))
    } else {
        s
    }
}

/// A text without the white space at its end.
pub open spec fn trimmed_end(s: Seq<char>) -> Seq<char>
    decreases s.len(),
{
    if s.len() > 0 && is_white(s.last()) {
        trimmed_end(s.drop_last())
    } else {
        s
    }
}

/// A text without the white space around it.
pub open spec fn trimmed(s: Seq<char>) -> Seq<char> {
    trimmed_end(trimmed_start(s))
}

/// A text without the white space around it.
pub fn trim_text(s: &str) -> (r: String)
    ensures
        r@ == trimmed(s@),
{
    let x = chars_of(s);
    let mut from: usize = 0;
    assert(s@.skip(0) =~= s@);
    while from < x.len() && white(x[from])
        invariant
            x@ == s@,
            from <= x.len(),
            trimmed_start(s@) == trimmed_start(s@.skip(from as int)),
        decreases x.len() - from,
    {
        assert(s@.skip(from as int).skip(1) =~= s@.skip(from + 1));
        from = from + 1;
    }
    assert(trimmed_start(s@) == s@.skip(from as int));
    let mut to: usize = x.len();
    assert(s@.subrange(from as int, to as int) =~= s@.skip(from as int));
    while to > from && white(x[to - 1])
        invariant
            x@ == s@,
            from <= to <= x.len(),
            trimmed(s@) == trimmed_end(s@.subrange(from as int, to as int)),
        decreases to,
    {
        assert(s@.subrange(from as int, to as int).drop_last() =~= s@.subrange(
            from as int,
            to - 1,
        ));
        to = to - 1;
    }
    s.substring_char(from, to).to_owned()
}

// ---------------------------------------------------------------------------
// Laws
// ---------------------------------------------------------------------------

/// A text begins with what was put before it, ends with what was put behind it, and
/// holds what was put inside; and a text that begins, ends or holds so was put
/// together so.
#[verifier::rlimit(50)]
pub proof fn lemma_parts(s: Seq<char>, p: Seq<char>, a: Seq<char>, b: Seq<char>)
    ensures
        has_prefix(p + b, p),
        has_suffix(a + p, p),
        has_part(a + p + b, p),
        has_prefix(s, p) ==> s.len() >= p.len() && s == p + s.skip(p.len() as int),
        has_suffix(s, p) ==> s.len() >= p.len() && s == s.take(s.len() - p.len()) + p,
        has_part(s, p) ==> exists|at: int|
            0 <= at <= s.len() - p.len() && s == #[trigger] s.take(at) + p + s.skip(at + p.len()),
{
    assert((p + b).subrange(0, p.len() as int) =~= p);
    assert((a + p).subrange(a.len() as int, (a.len() + p.len()) as int) =~= p);
    assert((a + p + b).subrange(a.len() as int, (a.len() + p.len()) as int) =~= p);
    assert(occurs_at(a + p + b, p, a.len() as int));
    if has_prefix(s, p) {
        assert forall|i: int| 0 <= i < p.len() implies s[i] == p[i] by {
            assert(s.subrange(0, p.len() as int)[i] == p[i]);
        }
        assert(s =~= p + s.skip(p.len() as int));
    }
    if has_suffix(s, p) {
        let at = s.len() - p.len();
        assert forall|i: int| 0 <= i < p.len() implies s[at + i] == p[i] by {
            assert(s.subrange(at, at + p.len())[i] == p[i]);
        }
        assert(s =~= s.take(at) + p);
    }
    if has_part(s, p) {
        let at = choose|at: int| occurs_at(s, p, at);
        assert forall|i: int| 0 <= i < p.len() implies s[at + i] == p[i] by {
            assert(s.subrange(at, at + p.len())[i] == p[i]);
        }
        assert(s =~= s.take(at) + p + s.skip(at + p.len()));
    }
}

/// A name is its namespace, a colon and its local part, which has no colon; a name
/// without a colon has no namespace and is its local part.
pub proof fn lemma_name_parts(s: Seq<char>)
    ensures
        !local_part(s).contains(':'),
        namespace_part(s) is Some ==> s == namespace_part(s)->0 + seq![':'] + local_part(s),
        namespace_part(s) is None ==> s == local_part(s),
        namespace_part(s) is Some <==> s.contains(':'),
{
    lemma_last_colon(s);
    let at = last_colon(s);
    if at >= 0 {
        assert(s =~= s.subrange(0, at) + seq![':'] + s.subrange(at + 1, s.len() as int));
        assert(s[at] == ':');
    } else {
        assert(s =~= s.subrange(0, s.len() as int));
    }
    let local = local_part(s);
    if local.contains(':') {
        let i = choose|i: int| 0 <= i < local.len() && local[i] == ':';
        assert(s[at + 1 + i] == ':');
    }
}

proof fn lemma_last_colon(s: Seq<char>)
    ensures
        -1 <= last_colon(s) < s.len(),
        last_colon(s) >= 0 ==> s[last_colon(s)] == ':',
        forall|i: int| last_colon(s) < i < s.len() ==> #[trigger] s[i] != ':',
    decreases s.len(),
{
    if s.len() > 0 && s.last() != ':' {
        lemma_last_colon(s.drop_last());
        assert forall|i: int| last_colon(s) < i < s.len() implies #[trigger] s[i] != ':' by {
            if i < s.len() - 1 {
                assert(s.drop_last()[i] == s[i]);
            }
        }
    }
}

/// Quotes around a text come off again, and a text without them stays as it is.
pub proof fn lemma_quotes_come_off(s: Seq<char>)
    ensures
        unquoted(seq!['"'] + s + seq!['"']) == s,
        is_quoted(seq!['"'] + s + seq!['"']),
        !is_quoted(s) ==> unquoted(s) == s,
        is_quoted(s) ==> s == seq!['"'] + unquoted(s) + seq!['"'],
{
    let q = seq!['"'] + s + seq!['"'];
    assert(q.subrange(1, q.len() - 1) =~= s);
    if is_quoted(s) {
        assert(s =~= seq!['"'] + unquoted(s) + seq!['"']);
    }
}

/// Texts in two parts are joined part by part, with a separator between the parts;
/// a single text is itself, and none gives nothing.
pub proof fn lemma_joined(a: Seq<Seq<char>>, b: Seq<Seq<char>>, separator: Seq<char>)
    ensures
        a.len() > 0 && b.len() > 0 ==> joined(a + b, separator) == joined(a, separator) + separator
            + joined(b, separator),
        forall|s: Seq<char>| joined(#[trigger] seq![s], separator) == s,
        joined(seq![], separator).len() == 0,
    decreases b.len(),
{
    if a.len() > 0 && b.len() > 0 {
        assert((a + b).drop_last() =~= a + b.drop_last());
        assert((a + b).last() == b.last());
        if b.len() == 1 {
            assert(a + b.drop_last() =~= a);
            assert(joined(a + b, separator) =~= joined(a, separator) + separator + joined(
                b,
                separator,
            ));
        } else {
            lemma_joined(a, b.drop_last(), separator);
            assert(joined(a + b, separator) =~= joined(a, separator) + separator + joined(
                b,
                separator,
            ));
        }
    }
}

/// The pieces between the occurrences of a separator give the text again when they
/// are joined by it.
pub proof fn lemma_pieces_join(s: Seq<char>, separator: Seq<char>)
    requires
        separator.len() > 0,
    ensures
        joined(pieces(s, separator), separator) == s,
        pieces(s, separator).len() > 0,
        forall|i: int|
            0 <= i < pieces(s, separator).len() ==> !has_part(
                #[trigger] pieces(s, separator)[i],
                separator,
            ),
    decreases s.len(),
{
    lemma_first_at(s, separator, 0);
    let at = first_at(s, separator, 0);
    if at < 0 || at + separator.len() > s.len() {
        assert(pieces(s, separator) =~= seq![s]);
        if has_part(s, separator) {
            let k = choose|k: int| occurs_at(s, separator, k);
            assert(!occurs_at(s, separator, k));
        }
    } else {
        let head = s.take(at);
        let rest = s.skip(at + separator.len());
        lemma_pieces_join(rest, separator);
        let more = pieces(rest, separator);
        assert(pieces(s, separator) =~= seq![head] + more);
        lemma_joined(seq![head], more, separator);
        assert(s.subrange(at, at + separator.len()) == separator);
        assert forall|i: int| 0 <= i < separator.len() implies s[at + i] == separator[i] by {
            assert(s.subrange(at, at + separator.len())[i] == separator[i]);
        }
        assert(s =~= head + separator + rest);
        if has_part(head, separator) {
            let k = choose|k: int| occurs_at(head, separator, k);
            assert(s.subrange(k, k + separator.len()) =~= head.subrange(k, k + separator.len()));
            assert(occurs_at(s, separator, k));
        }
        assert forall|i: int| 0 <= i < pieces(s, separator).len() implies !has_part(
            #[trigger] pieces(s, separator)[i],
            separator,
        ) by {
            if i > 0 {
                assert(pieces(s, separator)[i] == more[i - 1]);
            }
        }
    }
}

proof fn lemma_first_at(s: Seq<char>, needle: Seq<char>, from: int)
    requires
        0 <= from,
    ensures
        first_at(s, needle, from) >= 0 ==> first_at(s, needle, from) >= from && occurs_at(
            s,
            needle,
            first_at(s, needle, from),
        ),
        forall|k: int|
            from <= k && (first_at(s, needle, from) < 0 || k < first_at(s, needle, from))
                ==> !occurs_at(s, needle, k),
    decreases s.len() + 1 - from,
{
    if from <= s.len() && !occurs_at(s, needle, from) {
        lemma_first_at(s, needle, from + 1);
    }
}

/// Trimming takes white space from both ends, and all of it.
pub proof fn lemma_trimmed(s: Seq<char>)
    ensures
        exists|i: int, j: int|
            #![trigger s.subrange(i, j)]
            0 <= i <= j <= s.len() && trimmed(s) == s.subrange(i, j) && all_white(s.take(i))
                && all_white(s.skip(j)),
        trimmed(s).len() > 0 ==> !is_white(trimmed(s)[0]) && !is_white(trimmed(s).last()),
{
    let i = lemma_trimmed_start(s);
    let from = s.skip(i);
    let k = lemma_trimmed_end(from);
    let j = i + k;
    assert(trimmed(s) =~= s.subrange(i, j));
    assert(s.skip(j) =~= from.skip(k));
    assert(0 <= i <= j <= s.len() && trimmed(s) == s.subrange(i, j) && all_white(s.take(i))
        && all_white(s.skip(j)));
    if trimmed(s).len() > 0 {
        assert(trimmed(s)[0] == from[0]);
    }
}

/// Whether a text is white space and nothing else.
pub open spec fn all_white(s: Seq<char>) -> bool {
    forall|i: int| 0 <= i < s.len() ==> is_white(#[trigger] s[i])
}

proof fn lemma_trimmed_start(s: Seq<char>) -> (i: int)
    ensures
        0 <= i <= s.len(),
        trimmed_start(s) == s.skip(i),
        all_white(s.take(i)),
        i < s.len() ==> !is_white(s[i]),
    decreases s.len(),
{
    if s.len() > 0 && is_white(s[0]) {
        let k = lemma_trimmed_start(s.skip(1));
        assert(s.skip(1).skip(k) =~= s.skip(k + 1));
        assert forall|i: int| 0 <= i < s.take(k + 1).len() implies is_white(
            #[trigger] s.take(k + 1)[i],
        ) by {
            if i > 0 {
                assert(s.skip(1).take(k)[i - 1] == s[i]);
            }
        }
        k + 1
    } else {
        assert(s.skip(0) =~= s);
        0
    }
}

proof fn lemma_trimmed_end(s: Seq<char>) -> (k: int)
    ensures
        0 <= k <= s.len(),
        trimmed_end(s) == s.take(k),
        all_white(s.skip(k)),
        k > 0 ==> !is_white(s[k - 1]),
    decreases s.len(),
{
    if s.len() > 0 && is_white(s.last()) {
        let rest = s.drop_last();
        let k = lemma_trimmed_end(rest);
        assert(rest.take(k) =~= s.take(k));
        assert forall|i: int| 0 <= i < s.skip(k).len() implies is_white(#[trigger] s.skip(k)[i]) by {
            if k + i < rest.len() {
                assert(rest.skip(k)[i] == s[k + i]);
            }
        }
        k
    } else {
        assert(s.take(s.len() as int) =~= s);
        s.len() as int
    }
}

/// A text written several times is as many copies one after another.
pub proof fn lemma_repeated(unit: Seq<char>, a: nat, b: nat)
    ensures
        repeated(unit, a + b) == repeated(unit, a) + repeated(unit, b),
        repeated(unit, 1) == unit,
        repeated(unit, 0).len() == 0,
    decreases b,
{
    reveal_with_fuel(repeated, 2);
    assert(repeated(unit, 1) =~= unit);
    if b == 0 {
        assert(repeated(unit, a) + repeated(unit, b) =~= repeated(unit, a));
    } else {
        lemma_repeated(unit, a, (b - 1) as nat);
        assert(repeated(unit, a + b) =~= repeated(unit, a) + repeated(unit, b));
    }
}

/// The number that a digit stands for.
pub open spec fn digit_value(c: char) -> int {
    c as int - '0' as int
}

/// The number that digits stand for.
pub open spec fn read_decimal(s: Seq<char>) -> int
    decreases s.len(),
{
    if s.len() == 0 {
        0
    } else {
        10 * read_decimal(s.drop_last()) + digit_value(s.last())
    }
}

/// A number in decimal notation reads back as the number, and has no zero in front
/// unless it is zero.
pub proof fn lemma_decimal_reads_back(n: nat)
    ensures
        read_decimal(decimal(n)) == n,
        decimal(n).len() > 0,
        forall|i: int| 0 <= i < decimal(n).len() ==> '0' <= #[trigger] decimal(n)[i] <= '9',
        decimal(n)[0] == '0' ==> n == 0,
    decreases n,
{
    reveal_with_fuel(read_decimal, 2);
    if n < 10 {
        assert(decimal(n).drop_last() =~= seq![]);
        assert(digit_value(digit(n)) == n);
    } else {
        lemma_decimal_reads_back(n / 10);
        assert(decimal(n).drop_last() =~= decimal(n / 10));
        assert(digit_value(digit(n % 10)) == n % 10);
        assert(decimal(n)[0] == decimal(n / 10)[0]);
        assert forall|i: int| 0 <= i < decimal(n).len() implies '0' <= #[trigger] decimal(n)[i]
            <= '9' by {
            if i < decimal(n / 10).len() {
                assert(decimal(n)[i] == decimal(n / 10)[i]);
            }
        }
    }
}

/// A signed number has a minus in front exactly where it is negative, and then its
/// magnitude.
pub proof fn lemma_signed_decimal(n: int)
    ensures
        n >= 0 ==> read_decimal(signed_decimal(n)) == n,
        n < 0 ==> signed_decimal(n)[0] == '-' && read_decimal(signed_decimal(n).skip(1)) == -n,
{
    if n >= 0 {
        lemma_decimal_reads_back(n as nat);
    } else {
        lemma_decimal_reads_back((-n) as nat);
        assert(signed_decimal(n).skip(1) =~= decimal((-n) as nat));
    }
}

/// Every one of some texts is part of the text that they are joined to.
pub proof fn lemma_joined_holds(list: Seq<Seq<char>>, separator: Seq<char>, i: int)
    requires
        0 <= i < list.len(),
    ensures
        has_part(joined(list, separator), list[i]),
    decreases list.len(),
{
    let whole = joined(list, separator);
    if list.len() == 1 {
        assert(whole =~= Seq::<char>::empty() + list[i] + Seq::<char>::empty());
        lemma_parts(whole, list[i], seq![], seq![]);
    } else if i == list.len() - 1 {
        let before = joined(list.drop_last(), separator) + separator;
        assert(whole =~= before + list[i] + Seq::<char>::empty());
        lemma_parts(whole, list[i], before, seq![]);
    } else {
        let rest = list.drop_last();
        lemma_joined_holds(rest, separator, i);
        let inner = joined(rest, separator);
        let at = choose|at: int| occurs_at(inner, list[i], at);
        assert(whole.subrange(at, at + list[i].len()) =~= inner.subrange(at, at + list[i].len()));
        assert(occurs_at(whole, list[i], at));
    }
}

/// A part of a part of a text is a part of the text, whatever stands around it.
pub proof fn lemma_part_of_part(s: Seq<char>, part: Seq<char>, inner: Seq<char>)
    requires
        has_part(s, part),
        has_part(part, inner),
    ensures
        has_part(s, inner),
{
    let i = choose|i: int| occurs_at(s, part, i);
    let j = choose|j: int| occurs_at(part, inner, j);
    assert forall|k: int| 0 <= k < inner.len() implies s[i + j + k] == inner[k] by {
        assert(s.subrange(i, i + part.len())[j + k] == part[j + k]);
        assert(part.subrange(j, j + inner.len())[k] == inner[k]);
    }
    assert(s.subrange(i + j, i + j + inner.len()) =~= inner);
    assert(occurs_at(s, inner, i + j));
}

/// What two texts were put together from is part of the whole.
pub proof fn lemma_halves(a: Seq<char>, b: Seq<char>)
    ensures
        has_part(a + b, a),
        has_part(a + b, b),
{
    assert((a + b).subrange(0, a.len() as int) =~= a);
    assert(occurs_at(a + b, a, 0));
    assert((a + b).subrange(a.len() as int, (a.len() + b.len()) as int) =~= b);
    assert(occurs_at(a + b, b, a.len() as int));
}

/// A text that was put together begins with its first half.
pub proof fn lemma_prefix(a: Seq<char>, b: Seq<char>)
    ensures
        has_prefix(a + b, a),
{
    assert((a + b).subrange(0, a.len() as int) =~= a);
}

/// Blanks and the characters that end lines are white space; what is printed is not.
pub proof fn lemma_white(c: char)
    ensures
        c == ' ' || c == '\t' || c == '\n' || c == '\r' ==> is_white(c),
        '!' <= c <= '~' ==> !is_white(c),
{
}

} // verus!
