//! What holds of text, told by its characters: white space, words, quotes and numerals.
use crate::text;
use crate::token;
use crate::token::ExpiresOnError;
use vstd::arithmetic::mul::*;
use vstd::arithmetic::power::*;
use vstd::prelude::*;

verus! {

broadcast use vstd::string::group_string_axioms;

/// White space is what Unicode lists as such, by number.
pub proof fn law_white_space(c: char)
    ensures
        text::white_space(c) <==> ({
            let n = c as int;
            ||| 9 <= n <= 13
            ||| n == 32
            ||| n == 0x85
            ||| n == 0xa0
            ||| n == 0x1680
            ||| 0x2000 <= n <= 0x200a
            ||| 0x2028 <= n <= 0x2029
            ||| n == 0x202f
            ||| n == 0x205f
            ||| n == 0x3000
        }),
{
}

/// A quote is a double one or a single one, and nothing else is.
pub proof fn law_quotes(c: char)
    ensures
        text::quote(c) <==> c as int == 34 || c as int == 39,
{
}

/// The text of a string is the whole of it.
pub proof fn law_text_is_whole(s: String)
    ensures
        text::text_of(Some(s)) == Some(s@),
        text::text_of(None) is None,
{
}

/// Lowering takes each of the twenty-six capitals to the letter thirty-two numbers on, leaves
/// every other character alone, and is done character by character.
pub proof fn law_lowering(s: Seq<char>, i: int)
    requires
        0 <= i < s.len(),
    ensures
        text::ascii_lower(s).len() == s.len(),
        text::ascii_lower(s)[i] == text::ascii_lower_char(s[i]),
        65 <= s[i] as int <= 90 ==> text::ascii_lower_char(s[i]) as int == s[i] as int + 32,
        !(65 <= s[i] as int <= 90) ==> text::ascii_lower_char(s[i]) == s[i],
{
}

/// A text ends with a suffix just where it is something and then the suffix.
pub proof fn law_suffixes(s: Seq<char>, front: Seq<char>, suffix: Seq<char>)
    ensures
        text::ends_with(front + suffix, suffix),
        s == front + suffix ==> s.take(s.len() - suffix.len()) == front,
        text::ends_with(s, suffix) ==> suffix.len() <= s.len() && s == s.take(
            s.len() - suffix.len(),
        ) + suffix,
{
    assert((front + suffix).skip(front.len() as int) =~= suffix);
    assert((front + suffix).take(front.len() as int) =~= front);
    if text::ends_with(s, suffix) {
        assert(s =~= s.take(s.len() - suffix.len()) + s.skip(s.len() - suffix.len()));
    }
}

proof fn lemma_digits(s: Seq<char>)
    ensures
        text::digits_value(s) is Some <==> (forall|i: int|
            0 <= i < s.len() ==> '0' <= #[trigger] s[i] <= '9'),
        text::digits_value(s) matches Some(v) ==> v >= 0,
    decreases s.len(),
{
    if s.len() > 0 {
        let front = s.drop_last();
        lemma_digits(front);
        if text::digits_value(s) is Some {
            assert forall|i: int| 0 <= i < s.len() implies '0' <= #[trigger] s[i] <= '9' by {
                if i < s.len() - 1 {
                    assert(s[i] == front[i]);
                }
            }
        }
        if forall|i: int| 0 <= i < s.len() ==> '0' <= #[trigger] s[i] <= '9' {
            assert forall|i: int| 0 <= i < front.len() implies '0' <= #[trigger] front[i]
                <= '9' by {
                assert(front[i] == s[i]);
            }
            assert('0' <= s[s.len() - 1] <= '9');
        }
    }
}

proof fn lemma_pushed(s: Seq<char>, c: char)
    ensures
        text::digits_value(s.push(c)) == (match text::digits_value(s) {
            Some(v) if '0' <= c <= '9' => Some(v * 10 + (c as int - 48)),
            _ => None::<int>,
        }),
{
    assert(s.push(c).drop_last() =~= s);
}

/// A digit alone is its own value, and so it is behind a plus sign; behind a minus sign it is
/// the negative of that. Nothing, and a sign alone, is no number.
pub proof fn law_a_digit_is_read(c: char)
    requires
        '0' <= c <= '9',
    ensures
        text::i64_value(seq![c]) == Some((c as int - 48) as i64),
        text::i64_value(seq!['+', c]) == Some((c as int - 48) as i64),
        text::i64_value(seq!['-', c]) == Some((48 - c as int) as i64),
        text::i64_value(Seq::<char>::empty()) is None,
        text::i64_value(seq!['+']) is None,
        text::i64_value(seq!['-']) is None,
{
    let none = Seq::<char>::empty();
    lemma_pushed(none, c);
    assert(none.push(c) =~= seq![c]);
    assert(text::digits_value(none) == Some(0int));
    assert(seq!['+', c].skip(1) =~= seq![c]);
    assert(seq!['-', c].skip(1) =~= seq![c]);
    assert(seq!['+'].skip(1) =~= none);
    assert(seq!['-'].skip(1) =~= none);
}

/// A further digit makes a number ten times as large, away from zero, and adds the digit; the
/// number is read as long as it fits in 64 bits. What is not a digit is never read, and what
/// could not be read does not become a number by what follows, but for a sign that a digit
/// follows.
pub proof fn law_a_further_digit_is_read(s: Seq<char>, c: char)
    requires
        s.len() > 0,
    ensures
        !('0' <= c <= '9') ==> text::i64_value(s.push(c)) is None,
        text::i64_value(s) is None && s != seq!['+'] && s != seq!['-'] ==> text::i64_value(
            s.push(c),
        ) is None,
        text::i64_value(s) is Some && '0' <= c <= '9' && s[0] != '-' ==> ({
            let n = text::i64_value(s)->0 * 10 + (c as int - 48);
            text::i64_value(s.push(c)) == if n <= 9223372036854775807 {
                Some(n as i64)
            } else {
                None
            }
        }),
        text::i64_value(s) is Some && '0' <= c <= '9' && s[0] == '-' ==> ({
            let n = text::i64_value(s)->0 * 10 - (c as int - 48);
            text::i64_value(s.push(c)) == if n >= -9223372036854775808 {
                Some(n as i64)
            } else {
                None
            }
        }),
{
    let t = s.push(c);
    let signed = s[0] == '+' || s[0] == '-';
    let digits = if signed {
        s.skip(1)
    } else {
        s
    };
    assert(t[0] == s[0]);
    if signed {
        assert(t.skip(1) =~= digits.push(c));
        if digits.len() == 0 {
            assert(s =~= seq![s[0]]);
        }
    }
    lemma_pushed(digits, c);
    lemma_digits(digits);
}

/// A time of expiry is the number that is read, if it lies in the years from -9999 to 9999.
pub proof fn law_expiry_is_the_number(s: Seq<char>)
    ensures
        token::expires_on(s) == (match text::i64_value(s) {
            None => Err::<i64, ExpiresOnError>(ExpiresOnError::NotAnInteger),
            Some(t) => if -377705116800 <= t && t <= 253402300799 {
                Ok(t)
            } else {
                Err(ExpiresOnError::OutOfRange)
            },
        }),
{
}

proof fn lemma_values_join(a: Seq<char>, b: Seq<char>)
    requires
        text::digits_value(a) is Some,
        text::digits_value(b) is Some,
    ensures
        text::digits_value(a + b) == Some(
            text::digits_value(a)->0 * pow(10, b.len()) + text::digits_value(b)->0,
        ),
    decreases b.len(),
{
    if b.len() == 0 {
        assert(a + b =~= a);
        lemma_pow0(10);
    } else {
        let front = b.drop_last();
        let d = b.last() as int - 48;
        assert(b =~= front.push(b.last()));
        lemma_pushed(front, b.last());
        lemma_values_join(a, front);
        assert(a + b =~= (a + front).push(b.last()));
        lemma_pushed(a + front, b.last());
        let x = text::digits_value(a)->0;
        let p = pow(10, front.len());
        reveal(pow);
        assert(pow(10, b.len()) == 10 * p);
        assert((x * p) * 10 == x * (10 * p)) by {
            lemma_mul_is_associative(x, p, 10);
            lemma_mul_is_commutative(p, 10);
        }
    }
}

/// Digits count by their places: a numeral that is two numerals one behind the other stands for
/// the first times ten to the number of digits of the second, and the second.
pub proof fn law_digits_count_by_place(a: Seq<char>, b: Seq<char>)
    requires
        a.len() > 0,
        b.len() > 0,
        forall|i: int| 0 <= i < a.len() ==> '0' <= #[trigger] a[i] <= '9',
        forall|i: int| 0 <= i < b.len() ==> '0' <= #[trigger] b[i] <= '9',
        token::expires_on(a) is Ok,
        token::expires_on(b) is Ok,
    ensures
        ({
            let n = token::expires_on(a)->Ok_0 * pow(10, b.len()) + token::expires_on(b)->Ok_0;
            &&& n <= 253402300799 ==> token::expires_on(a + b) == Ok::<i64, ExpiresOnError>(
                n as i64,
            )
            &&& n > 253402300799 ==> token::expires_on(a + b) is Err
        }),
{
    lemma_digits(a);
    lemma_digits(b);
    lemma_values_join(a, b);
    let whole = a + b;
    assert(whole[0] == a[0]);
    lemma_digits(whole);
    assert('0' <= a[0] <= '9' && '0' <= b[0] <= '9');
}

/// A number below ten is written as its digit, and any other as what is left of it without its
/// last digit, and that digit: so each number is written in one way, without zeros before it.
pub proof fn law_numbers_are_written(n: nat, d: nat)
    requires
        d < 10,
    ensures
        text::decimal(d).len() == 1,
        text::decimal(d)[0] as int == 48 + d,
        n > 0 ==> text::decimal(n * 10 + d).len() == text::decimal(n).len() + 1,
        n > 0 ==> text::decimal(n * 10 + d).drop_last() == text::decimal(n),
        n > 0 ==> text::decimal(n * 10 + d).last() as int == 48 + d,
{
    if n > 0 {
        let whole = n * 10 + d;
        assert(whole / 10 == n && whole % 10 == d);
        assert(text::decimal(whole).drop_last() =~= text::decimal(n));
    }
}

/// A first word is what stands between white space, and there is none where there is nothing
/// but white space.
pub proof fn law_first_word(before: Seq<char>, word: Seq<char>, after: Seq<char>)
    requires
        forall|i: int| 0 <= i < before.len() ==> text::white_space(before[i]),
        forall|i: int| 0 <= i < word.len() ==> !text::white_space(word[i]),
        after.len() > 0 ==> text::white_space(after[0]),
        word.len() == 0 ==> after.len() == 0,
    ensures
        text::first_word(before + word + after) == word,
    decreases before.len(),
{
    let whole = before + word + after;
    if before.len() > 0 {
        assert(whole[0] == before[0]);
        let rest = before.drop_first();
        assert(whole.drop_first() =~= rest + word + after);
        assert forall|i: int| 0 <= i < rest.len() implies text::white_space(rest[i]) by {
            assert(rest[i] == before[i + 1]);
        }
        law_first_word(rest, word, after);
    } else {
        assert(whole =~= word + after);
        if word.len() > 0 {
            assert(whole[0] == word[0]);
        }
        lemma_word_len(word, after);
        assert(whole.take(word.len() as int) =~= word);
    }
}

proof fn lemma_word_len(word: Seq<char>, after: Seq<char>)
    requires
        forall|i: int| 0 <= i < word.len() ==> !text::white_space(word[i]),
        after.len() > 0 ==> text::white_space(after[0]),
    ensures
        text::word_len(word + after) == word.len(),
    decreases word.len(),
{
    let whole = word + after;
    if word.len() > 0 {
        assert(whole[0] == word[0]);
        let rest = word.drop_first();
        assert(whole.drop_first() =~= rest + after);
        assert forall|i: int| 0 <= i < rest.len() implies !text::white_space(rest[i]) by {
            assert(rest[i] == word[i + 1]);
        }
        lemma_word_len(rest, after);
    } else {
        assert(whole =~= after);
    }
}

/// The quotes around a text go, of either kind and in any number, and nothing else does; of
/// quotes alone nothing is left.
pub proof fn law_unquoted(a: Seq<char>, s: Seq<char>, b: Seq<char>)
    requires
        s.len() > 0 ==> !text::quote(s[0]) && !text::quote(s.last()),
        forall|i: int| 0 <= i < a.len() ==> text::quote(a[i]),
        forall|i: int| 0 <= i < b.len() ==> text::quote(b[i]),
    ensures
        text::unquoted(a + s + b) == s,
    decreases a.len() + b.len(),
{
    let whole = a + s + b;
    if a.len() > 0 {
        assert(whole[0] == a[0]);
        let rest = a.drop_first();
        assert(whole.drop_first() =~= rest + s + b);
        assert forall|i: int| 0 <= i < rest.len() implies text::quote(rest[i]) by {
            assert(rest[i] == a[i + 1]);
        }
        law_unquoted(rest, s, b);
    } else if b.len() > 0 && s.len() > 0 {
        assert(whole =~= s + b);
        assert(whole.last() == b.last());
        let rest = b.drop_last();
        assert(whole.drop_last() =~= a + s + rest);
        assert(whole[0] == s[0]);
        assert((a + s + rest)[0] == s[0]);
        law_unquoted(a, s, rest);
    } else if b.len() > 0 {
        assert(whole[0] == b[0]);
        let rest = b.drop_first();
        assert(whole.drop_first() =~= a + s + rest);
        assert forall|i: int| 0 <= i < rest.len() implies text::quote(rest[i]) by {
            assert(rest[i] == b[i + 1]);
        }
        law_unquoted(a, s, rest);
    } else {
        assert(whole =~= s);
    }
}

}
