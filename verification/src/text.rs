//! Text primitives: white space, words, quotes, suffixes and decimal numerals, over the
//! characters of a string.
use vstd::prelude::*;
use vstd::utf8::*;

verus! {

broadcast use vstd::string::group_string_axioms;

/// The text of an optional string.
pub open spec fn text_of(s: Option<String>) -> Option<Seq<char>> {
    match s {
        Some(t) => Some(t@),
        None => None,
    }
}

/// The Unicode `White_Space` property.
pub open spec fn white_space(c: char) -> bool {
    ||| '\u{9}' <= c <= '\u{d}'
    ||| c == '\u{20}'
    ||| c == '\u{85}'
    ||| c == '\u{a0}'
    ||| c == '\u{1680}'
    ||| '\u{2000}' <= c <= '\u{200a}'
    ||| c == '\u{2028}'
    ||| c == '\u{2029}'
    ||| c == '\u{202f}'
    ||| c == '\u{205f}'
    ||| c == '\u{3000}'
}

/// Whether `c` is white space.
pub fn is_white_space(c: char) -> (r: bool)
    ensures
        r == white_space(c),
{
    ('\u{9}' <= c && c <= '\u{d}') || c == '\u{20}' || c == '\u{85}' || c == '\u{a0}' || c
        == '\u{1680}' || ('\u{2000}' <= c && c <= '\u{200a}') || c == '\u{2028}' || c == '\u{2029}'
        || c == '\u{202f}' || c == '\u{205f}' || c == '\u{3000}'
}

/// Whether `c` is a quote, double or single.
pub open spec fn quote(c: char) -> bool {
    c == '"' || c == '\''
}

/// `s` without its longest prefix of quotes.
pub open spec fn unquote_start(s: Seq<char>) -> Seq<char>
    decreases s.len(),
{
    if s.len() > 0 && quote(s[0]) {
        unquote_start(s.drop_first())
    } else {
        s
    }
}

/// `s` without its longest suffix of quotes.
pub open spec fn unquote_end(s: Seq<char>) -> Seq<char>
    decreases s.len(),
{
    if s.len() > 0 && quote(s.last()) {
        unquote_end(s.drop_last())
    } else {
        s
    }
}

/// `s` without the quotes around it.
pub open spec fn unquoted(s: Seq<char>) -> Seq<char> {
    unquote_end(unquote_start(s))
}

/// The length of the longest prefix of `s` without white space.
pub open spec fn word_len(s: Seq<char>) -> int
    decreases s.len(),
{
    if s.len() == 0 || white_space(s[0]) {
        0
    } else {
        1 + word_len(s.drop_first())
    }
}

/// The first word of `s`: what stands behind leading white space, up to the next white space or
/// the end.
pub open spec fn first_word(s: Seq<char>) -> Seq<char>
    decreases s.len(),
{
    if s.len() > 0 && white_space(s[0]) {
        first_word(s.drop_first())
    } else {
        s.take(word_len(s))
    }
}

/// The characters of `s`, in order.
pub fn chars_of(s: &str) -> (v: Vec<char>)
    ensures
        v@ == s@,
{
    let mut v: Vec<char> = Vec::new();
    for c in it: s.chars()
        invariant
            v@ == it.seq().take(it.index() as int),
            it.seq() == s@,
    {
        v.push(c);
        assert(v@ =~= it.seq().take(it.index() as int + 1));
    }
    assert(v@ =~= s@);
    v
}

/// The first word of a text.
pub fn first_word_of(s: &str) -> (r: &str)
    ensures
        r@ == first_word(s@),
{
    let chars: Vec<char> = chars_of(s);
    let mut from: usize = 0;
    assert(s@.skip(0) =~= s@);
    while from < chars.len() && is_white_space(chars[from])
        invariant
            from <= chars.len(),
            chars@ == s@,
            first_word(s@) == first_word(s@.skip(from as int)),
        decreases chars.len() - from,
    {
        assert(s@.skip(from as int).drop_first() =~= s@.skip(from + 1));
        from += 1;
    }
    let mut to: usize = from;
    let ghost rest = s@.skip(from as int);
    while to < chars.len() && !is_white_space(chars[to])
        invariant
            from <= to <= chars.len(),
            chars@ == s@,
            rest == s@.skip(from as int),
            word_len(rest) == to - from + word_len(s@.skip(to as int)),
        decreases chars.len() - to,
    {
        assert(s@.skip(to as int).drop_first() =~= s@.skip(to + 1));
        to += 1;
    }
    assert(rest.take(to - from) =~= s@.subrange(from as int, to as int));
    s.substring_char(from, to)
}

/// Takes the quotes around a text off.
pub fn unquote(s: &str) -> (r: &str)
    ensures
        r@ == unquoted(s@),
{
    let chars: Vec<char> = chars_of(s);
    let mut from: usize = 0;
    assert(s@.skip(0) =~= s@);
    while from < chars.len() && (chars[from] == '"' || chars[from] == '\'')
        invariant
            from <= chars.len(),
            chars@ == s@,
            unquote_start(s@) == unquote_start(s@.skip(from as int)),
        decreases chars.len() - from,
    {
        assert(s@.skip(from as int).drop_first() =~= s@.skip(from + 1));
        from += 1;
    }
    let mut to: usize = chars.len();
    let ghost rest = s@.skip(from as int);
    assert(rest =~= s@.subrange(from as int, to as int));
    while to > from && (chars[to - 1] == '"' || chars[to - 1] == '\'')
        invariant
            from <= to <= chars.len(),
            chars@ == s@,
            unquote_end(rest) == unquote_end(s@.subrange(from as int, to as int)),
        decreases to,
    {
        assert(s@.subrange(from as int, to as int).drop_last() =~= s@.subrange(
            from as int,
            to - 1,
        ));
        to -= 1;
    }
    s.substring_char(from, to)
}

/// Whether `s` ends with `suffix`.
pub open spec fn ends_with(s: Seq<char>, suffix: Seq<char>) -> bool {
    suffix.len() <= s.len() && s.skip(s.len() - suffix.len()) == suffix
}

/// Removes `suffix` from the end of `s`, where `s` ends with it.
pub fn strip_suffix_text<'a>(s: &'a str, suffix: &str) -> (r: Option<&'a str>)
    ensures
        match r {
            Some(t) => ends_with(s@, suffix@) && t@ == s@.take(s@.len() - suffix@.len()),
            None => !ends_with(s@, suffix@),
        },
{
    let chars: Vec<char> = chars_of(s);
    let tail: Vec<char> = chars_of(suffix);
    if tail.len() > chars.len() {
        return None;
    }
    let cut: usize = chars.len() - tail.len();
    let mut k: usize = 0;
    while k < tail.len()
        invariant
            k <= tail.len(),
            chars@ == s@,
            tail@ == suffix@,
            cut + tail.len() == chars.len(),
            forall|j: int| 0 <= j < k ==> s@[cut + j] == suffix@[j],
        decreases tail.len() - k,
    {
        if chars[cut + k] != tail[k] {
            assert(s@.skip(cut as int)[k as int] != suffix@[k as int]);
            return None;
        }
        k += 1;
    }
    assert(s@.skip(cut as int) =~= suffix@);
    let kept: &str = s.substring_char(0, cut);
    assert(kept@ =~= s@.take(cut as int));
    Some(kept)
}

/// Whether two texts hold the same characters.
pub fn same_text(a: &str, b: &str) -> (r: bool)
    ensures
        r == (a@ == b@),
{
    let left: String = a.to_owned();
    let right: String = b.to_owned();
    left == right
}

/// The numeral of a digit.
pub open spec fn digit_char(d: int) -> char {
    (48 + d) as char
}

/// The value of a decimal digit, if `c` is one.
pub open spec fn digit_value(c: char) -> Option<int> {
    if '0' <= c <= '9' {
        Some(c as int - 48)
    } else {
        None
    }
}

/// The decimal numeral of `n`, without leading zeros.
pub open spec fn decimal(n: nat) -> Seq<char>
    decreases n,
{
    if n < 10 {
        seq![digit_char(n as int)]
    } else {
        decimal(n / 10).push(digit_char((n % 10) as int))
    }
}

fn digit_text(d: u64) -> (r: &'static str)
    requires
        d < 10,
    ensures
        r@ == seq![digit_char(d as int)],
{
    proof {
        reveal_strlit("0");
        reveal_strlit("1");
        reveal_strlit("2");
        reveal_strlit("3");
        reveal_strlit("4");
        reveal_strlit("5");
        reveal_strlit("6");
        reveal_strlit("7");
        reveal_strlit("8");
        reveal_strlit("9");
    }
    let r: &'static str = match d {
        0 => "0",
        1 => "1",
        2 => "2",
        3 => "3",
        4 => "4",
        5 => "5",
        6 => "6",
        7 => "7",
        8 => "8",
        _ => "9",
    };
    assert(r@ =~= seq![digit_char(d as int)]);
    r
}

/// Writes `n` in decimal.
pub fn decimal_text(n: u64) -> (r: String)
    ensures
        r@ == decimal(n as nat),
    decreases n,
{
    if n < 10 {
        digit_text(n).to_owned()
    } else {
        let mut r: String = decimal_text(n / 10);
        r.append(digit_text(n % 10));
        assert(r@ =~= decimal(n as nat));
        r
    }
}

/// The number that a run of decimal digits stands for; nothing if a character is no digit.
pub open spec fn digits_value(s: Seq<char>) -> Option<int>
    decreases s.len(),
{
    if s.len() == 0 {
        Some(0)
    } else {
        match (digits_value(s.drop_last()), digit_value(s.last())) {
            (Some(high), Some(low)) => Some(high * 10 + low),
            _ => None,
        }
    }
}

/// The value of a run of digits behind a sign.
pub open spec fn signed_value(negative: bool, digits: Seq<char>) -> Option<int> {
    match digits_value(digits) {
        Some(v) => Some(
            if negative {
                -v
            } else {
                v
            },
        ),
        None => None,
    }
}

/// The integer that `s` stands for: an optional sign and at least one decimal digit.
pub open spec fn integer_value(s: Seq<char>) -> Option<int> {
    let digits = if s.len() > 0 && (s[0] == '+' || s[0] == '-') {
        s.skip(1)
    } else {
        s
    };
    if digits.len() == 0 {
        None
    } else {
        signed_value(s[0] == '-', digits)
    }
}

/// The integer that `s` stands for, if it fits in 64 bits.
pub open spec fn i64_value(s: Seq<char>) -> Option<i64> {
    match integer_value(s) {
        Some(v) if i64::MIN <= v <= i64::MAX => Some(v as i64),
        _ => None,
    }
}

/// The decimal value of a character run can only grow as characters are appended.
proof fn lemma_digits_value_prefix(s: Seq<char>, k: int)
    requires
        0 <= k <= s.len(),
    ensures
        digits_value(s.take(k)) is None ==> digits_value(s) is None,
        match (digits_value(s), digits_value(s.take(k))) {
            (Some(all), Some(part)) => 0 <= part <= all,
            _ => true,
        },
    decreases s.len(),
{
    lemma_digits_value_nonnegative(s.take(k));
    if k == s.len() {
        assert(s.take(k) =~= s);
    } else {
        assert(s.drop_last().take(k) =~= s.take(k));
        lemma_digits_value_prefix(s.drop_last(), k);
    }
}

proof fn lemma_digits_value_nonnegative(s: Seq<char>)
    ensures
        digits_value(s) matches Some(v) ==> v >= 0,
    decreases s.len(),
{
    if s.len() > 0 {
        lemma_digits_value_nonnegative(s.drop_last());
    }
}

/// Reads a signed 64-bit integer in decimal.
pub fn parse_i64(s: &str) -> (r: Option<i64>)
    ensures
        r == i64_value(s@),
{
    let chars: Vec<char> = chars_of(s);
    let signed: bool = chars.len() > 0 && (chars[0] == '+' || chars[0] == '-');
    let negative: bool = signed && chars[0] == '-';
    let from: usize = if signed {
        1
    } else {
        0
    };
    if from == chars.len() {
        return None;
    }
    let ghost digits = s@.skip(from as int);
    assert(integer_value(s@) == signed_value(negative, digits)) by {
        assert(s@.skip(0) =~= s@);
    }
    let limit: u64 = 9223372036854775808;
    let mut value: u64 = 0;
    let mut at: usize = from;
    assert(digits.take(0) =~= Seq::<char>::empty());
    while at < chars.len()
        invariant
            from <= at <= chars.len(),
            chars@ == s@,
            digits == s@.skip(from as int),
            limit == 9223372036854775808,
            integer_value(s@) == signed_value(negative, digits),
            value <= limit,
            digits_value(digits.take(at - from)) == Some(value as int),
        decreases chars.len() - at,
    {
        let c: char = chars[at];
        let ghost next = digits.take(at - from + 1);
        assert(next.drop_last() =~= digits.take(at - from));
        assert(next.last() == c);
        proof {
            lemma_digits_value_prefix(digits, at - from + 1);
        }
        if !('0' <= c && c <= '9') {
            return None;
        }
        let low: u64 = c as u64 - 48;
        if value > (limit - low) / 10 {
            assert(value * 10 + low > limit);
            return None;
        }
        value = value * 10 + low;
        at += 1;
    }
    assert(digits.take(digits.len() as int) =~= digits);
    if negative {
        if value == limit {
            Some(i64::MIN)
        } else {
            Some(-(value as i64))
        }
    } else if value == limit {
        None
    } else {
        Some(value as i64)
    }
}

/// An ASCII capital as its small letter; every other character as it is.
pub open spec fn ascii_lower_char(c: char) -> char {
    if 'A' <= c <= 'Z' {
        (c as u32 + 32) as char
    } else {
        c
    }
}

/// `s` with its ASCII capitals as small letters.
pub open spec fn ascii_lower(s: Seq<char>) -> Seq<char> {
    Seq::new(s.len(), |i: int| ascii_lower_char(s[i]))
}

/// An ASCII capital as its small letter.
pub fn ascii_lower_of(c: char) -> (r: char)
    ensures
        r == ascii_lower_char(c),
{
    if 'A' <= c && c <= 'Z' {
        ((c as u8) + 32) as char
    } else {
        c
    }
}

/// What `String::from_utf8_lossy` makes of `bytes`.
pub uninterp spec fn utf8_lossy(bytes: Seq<u8>) -> Seq<char>;

/// Calls `String::from_utf8_lossy`. Its result is a function of the bytes alone, named by
/// `utf8_lossy`. What is claimed beyond the name: valid UTF-8 is decoded as it stands.
#[verifier::external_body]
pub(crate) fn text_lossy(bytes: &[u8]) -> (r: String)
    ensures
        r@ == utf8_lossy(bytes@),
        valid_utf8(bytes@) ==> r@ == decode_utf8(bytes@),
{
    String::from_utf8_lossy(bytes).into_owned()
}

}
