//! Characters, decimal numerals, white space, and texts that stand for values.

use vstd::prelude::*;

verus! {

/// `String::push`: the character goes to the end of the string, and nothing
/// else changes.
pub assume_specification[ String::push ](s: &mut String, c: char)
    ensures
        final(s)@ == old(s)@.push(c),
;

/// The views of a list of strings.
pub open spec fn texts(list: Seq<String>) -> Seq<Seq<char>> {
    list.map_values(|s: String| s@)
}

/// The characters of `s`, in order.
pub fn to_chars(s: &str) -> (r: Vec<char>)
    ensures
        r@ == s@,
{
    let mut out: Vec<char> = Vec::new();
    for c in it: s.chars()
        invariant
            it.seq() == s@,
            out@ == s@.take(it.index()),
    {
        out.push(c);
        assert(s@.take(it.index() + 1) =~= s@.take(it.index()).push(c));
    }
    assert(s@.take(s@.len() as int) =~= s@);
    out
}

/// The string made of the given characters.
pub fn from_chars(chars: &[char]) -> (r: String)
    ensures
        r@ == chars@,
{
    let mut out: String = String::new();
    let mut i: usize = 0;
    while i < chars.len()
        invariant
            i <= chars@.len(),
            out@ == chars@.take(i as int),
        decreases chars@.len() - i,
    {
        out.push(chars[i]);
        assert(chars@.take(i + 1) =~= chars@.take(i as int).push(chars@[i as int]));
        i = i + 1;
    }
    assert(chars@.take(i as int) =~= chars@);
    out
}

/// The decimal digit of `d`, for `d` below ten.
pub open spec fn digit(d: nat) -> char {
    ('0' as int + d) as char
}

/// The decimal numeral of `n`, without leading zeros.
pub open spec fn decimal(n: nat) -> Seq<char>
    decreases n,
{
    if n < 10 {
        seq![digit(n)]
    } else {
        decimal(n / 10).push(digit(n % 10))
    }
}

/// The number that a sequence of decimal digits denotes.
pub open spec fn numeral_value(s: Seq<char>) -> int
    decreases s.len(),
{
    if s.len() == 0 {
        0
    } else {
        10 * numeral_value(s.drop_last()) + (s.last() as int - '0' as int)
    }
}

/// A numeral denotes the number it was made from, so different numbers have
/// different numerals.
pub proof fn law_decimal_denotes(n: nat)
    ensures
        numeral_value(decimal(n)) == n,
        decimal(n).len() > 0,
    decreases n,
{
    reveal_with_fuel(numeral_value, 2);
    if n < 10 {
        assert(decimal(n).drop_last() =~= Seq::<char>::empty());
    } else {
        law_decimal_denotes(n / 10);
        assert(decimal(n).drop_last() =~= decimal(n / 10));
    }
}

/// The decimal numeral of `n`.
pub fn decimal_text(n: u64) -> (r: String)
    ensures
        r@ == decimal(n as nat),
    decreases n,
{
    let last: u8 = (n % 10) as u8;
    let c: char = (48u8 + last) as char;
    if n < 10 {
        let mut out: String = String::new();
        out.push(c);
        assert(out@ =~= seq![c]);
        out
    } else {
        let mut out: String = decimal_text(n / 10);
        out.push(c);
        out
    }
}

/// Whether `value` is a result of `parse` on a text.
pub open spec fn parses<E, P: Fn(&str) -> Option<E>>(
    parse: P,
    text: Seq<char>,
    value: Option<E>,
) -> bool {
    exists|t: &str|
        #![trigger call_ensures(parse, (t,), value)]
        t@ == text && call_ensures(parse, (t,), value)
}

/// Whether `text` is a result of `write` on a value.
pub open spec fn writes<E, W: Fn(&E) -> String>(write: W, value: E, text: Seq<char>) -> bool {
    exists|t: String|
        #![trigger call_ensures(write, (&value,), t)]
        t@ == text && call_ensures(write, (&value,), t)
}

/// Whether `parse` gives back every value that `write` writes.
pub open spec fn reads_back<E, W: Fn(&E) -> String, P: Fn(&str) -> Option<E>>(
    write: W,
    parse: P,
) -> bool {
    forall|value: E, text: Seq<char>, back: Option<E>|
        #[trigger] writes(write, value, text) && #[trigger] parses(parse, text, back) ==> back
            == Some(value)
}

/// White space as Unicode defines it (the `White_Space` property).
pub open spec fn is_white(c: char) -> bool {
    ||| '\u{9}' <= c <= '\u{d}'
    ||| c == ' '
    ||| c == '\u{85}'
    ||| c == '\u{a0}'
    ||| c == '\u{1680}'
    ||| '\u{2000}' <= c <= '\u{200a}'
    ||| c == '\u{2028}'
    ||| c == '\u{2029}'
    ||| c == '\u{202f}'
    ||| c == '\u{205f}'
    ||| c == '\u{3000}'
}

/// Whether `c` is white space.
pub fn is_white_space(c: char) -> (r: bool)
    ensures
        r == is_white(c),
{
    ('\u{9}' <= c && c <= '\u{d}') || c == ' ' || c == '\u{85}' || c == '\u{a0}' || c
        == '\u{1680}' || ('\u{2000}' <= c && c <= '\u{200a}') || c == '\u{2028}' || c
        == '\u{2029}' || c == '\u{202f}' || c == '\u{205f}' || c == '\u{3000}'
}

/// Numerals are written digit by digit: a number below ten is its digit, and a
/// further digit behind a numeral multiplies by ten and adds. So every
/// character is a digit, and only zero starts with a zero.
pub proof fn law_decimal_digit_by_digit(n: nat, d: nat)
    requires
        d < 10,
    ensures
        decimal(d) == seq![(48 + d) as char],
        n > 0 ==> decimal(10 * n + d) == decimal(n).push((48 + d) as char),
        forall|i: int| 0 <= i < decimal(n).len() ==> '0' <= #[trigger] decimal(n)[i] <= '9',
        n > 0 ==> decimal(n)[0] != '0',
    decreases n,
{
    if n >= 10 {
        law_decimal_digit_by_digit(n / 10, 0);
    }
    assert((10 * n + d) / 10 == n && (10 * n + d) % 10 == d);
}

/// The views of a list of strings are those of its strings, one for each.
pub proof fn law_texts_one_by_one(list: Seq<String>)
    ensures
        texts(list).len() == list.len(),
        forall|i: int| 0 <= i < list.len() ==> #[trigger] texts(list)[i] == list[i]@,
{
}

/// A text parses to a value just where a call on that whole text gives it.
pub proof fn law_parses_whole_text<E, P: Fn(&str) -> Option<E>>(
    parse: P,
    text: &str,
    value: Option<E>,
)
    ensures
        call_ensures(parse, (text,), value) ==> parses(parse, text@, value),
        parses(parse, text@, value) ==> exists|t: &str|
            #![trigger call_ensures(parse, (t,), value)]
            t@ == text@ && call_ensures(parse, (t,), value),
{
}

/// A value is written as a text just where a call on that value gives it.
pub proof fn law_writes_whole_text<E, W: Fn(&E) -> String>(write: W, value: E, text: String)
    ensures
        call_ensures(write, (&value,), text) ==> writes(write, value, text@),
        writes(write, value, text@) ==> exists|t: String|
            #![trigger call_ensures(write, (&value,), t)]
            t@ == text@ && call_ensures(write, (&value,), t),
{
}

} // verus!
