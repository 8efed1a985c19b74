//! Numbers and words as text.

use vstd::arithmetic::power::pow;
use vstd::prelude::*;
use vstd::string::*;

verus! {

/// The character of a decimal digit.
pub open spec fn digit_char(d: int) -> char {
    (48 + d) as char
}

/// Whether a character is a decimal digit.
pub open spec fn is_digit(c: char) -> bool {
    '0' <= c <= '9'
}

/// Whether a text consists of decimal digits.
pub open spec fn all_digits(text: Seq<char>) -> bool {
    forall|i: int| 0 <= i < text.len() ==> is_digit(#[trigger] text[i])
}

/// A number in decimal notation, without leading zeros.
pub open spec fn decimal(n: nat) -> Seq<char>
    decreases n,
{
    if n < 10 {
        seq![digit_char(n as int)]
    } else {
        decimal(n / 10).push(digit_char((n % 10) as int))
    }
}

/// An integer in decimal notation, with a minus sign where it is negative.
pub open spec fn signed_decimal(i: int) -> Seq<char> {
    if i < 0 {
        seq!['-'] + decimal((-i) as nat)
    } else {
        decimal(i as nat)
    }
}

/// The number that a text of decimal digits denotes.
pub open spec fn digits_value(digits: Seq<char>) -> nat
    decreases digits.len(),
{
    if digits.len() == 0 {
        0
    } else {
        (10 * digits_value(digits.drop_last()) + (digits.last() as int - 48)) as nat
    }
}

/// The digits of a number that may start with a plus sign.
pub open spec fn unsigned_part(text: Seq<char>) -> Seq<char> {
    if text.len() > 0 && text[0] == '+' {
        text.skip(1)
    } else {
        text
    }
}

/// The number of at most `max` that a text denotes, if it denotes one: one digit or more, behind
/// at most one plus sign.
pub open spec fn parsed(text: Seq<char>, max: nat) -> Option<nat> {
    let digits = unsigned_part(text);
    if digits.len() > 0 && all_digits(digits) && digits_value(digits) <= max {
        Some(digits_value(digits))
    } else {
        None
    }
}

/// The character of a hexadecimal digit.
pub open spec fn hex_char(d: int) -> char {
    if d < 10 {
        digit_char(d)
    } else {
        (87 + d) as char
    }
}

/// A byte string in hexadecimal notation, two digits for each byte.
pub open spec fn hex(bytes: Seq<u8>) -> Seq<char>
    decreases bytes.len(),
{
    if bytes.len() == 0 {
        Seq::empty()
    } else {
        hex(bytes.drop_last()) + seq![
            hex_char(bytes.last() as int / 16),
            hex_char(bytes.last() as int % 16),
        ]
    }
}

/// A text, moved to the right by spaces to a width.
pub open spec fn right_aligned(text: Seq<char>, width: nat) -> Seq<char> {
    if text.len() < width {
        Seq::new((width - text.len()) as nat, |i: int| ' ') + text
    } else {
        text
    }
}

/// Whether a character is white space, as Unicode has it.
pub open spec fn is_white_space(c: char) -> bool {
    ||| '\u{9}' <= c <= '\u{d}'
    ||| c == ' '
    ||| c == '\u{85}'
    ||| c == '\u{a0}'
    ||| c == '\u{1680}'
    ||| '\u{2000}' <= c <= '\u{200a}'
    ||| c == '\u{2028}'
    ||| c == '\u{2029}'
    ||| c == '\u{202f}'
    ||| c == '\u{205f}'
    ||| c == '\u{3000}'
}

/// A text without the white space at its start.
pub open spec fn trimmed_start(text: Seq<char>) -> Seq<char>
    decreases text.len(),
{
    if text.len() > 0 && is_white_space(text[0]) {
        trimmed_start(text.skip(1))
    } else {
        text
    }
}

/// A text without the white space at its end.
pub open spec fn trimmed_end(text: Seq<char>) -> Seq<char>
    decreases text.len(),
{
    if text.len() > 0 && is_white_space(text.last()) {
        trimmed_end(text.drop_last())
    } else {
        text
    }
}

/// A text without the white space at either end.
pub open spec fn trimmed(text: Seq<char>) -> Seq<char> {
    trimmed_end(trimmed_start(text))
}

/// The parts of a text between its spaces. Each space ends a part, so two in a row have an empty
/// one between them.
pub open spec fn words(text: Seq<char>) -> Seq<Seq<char>>
    decreases text.len(),
{
    if text.len() == 0 {
        seq![Seq::empty()]
    } else {
        let before = words(text.drop_last());
        if text.last() == ' ' {
            before.push(Seq::empty())
        } else {
            before.drop_last().push(before.last().push(text.last()))
        }
    }
}

/// The texts of a list of strings.
pub open spec fn texts(list: Seq<String>) -> Seq<Seq<char>> {
    list.map_values(|s: String| s@)
}

/// Appends the one character of a literal that stands at an index.
fn push_char_of(out: &mut String, alphabet: &str, index: usize)
    requires
        index < alphabet@.len() <= 16,
    ensures
        final(out)@ == old(out)@.push(alphabet@[index as int]),
{
    out.append(alphabet.substring_char(index, index + 1));
    assert(out@ =~= old(out)@.push(alphabet@[index as int]));
}

/// Appends a number in decimal notation.
pub fn push_decimal(out: &mut String, n: u64)
    ensures
        final(out)@ == old(out)@ + decimal(n as nat),
    decreases n,
{
    if n >= 10 {
        push_decimal(out, n / 10);
    }
    proof {
        reveal_strlit("0123456789");
    }
    push_char_of(out, "0123456789", (n % 10) as usize);
    assert(out@ =~= old(out)@ + decimal(n as nat));
}

/// Appends an integer in decimal notation.
pub fn push_signed_decimal(out: &mut String, i: i64)
    ensures
        final(out)@ == old(out)@ + signed_decimal(i as int),
{
    if i < 0 {
        proof {
            reveal_strlit("-");
        }
        out.append("-");
        push_decimal(out, (-(i as i128)) as u64);
        assert(out@ =~= old(out)@ + signed_decimal(i as int));
    } else {
        push_decimal(out, i as u64);
    }
}

/// A number in decimal notation.
pub fn decimal_text(n: u64) -> (r: String)
    ensures
        r@ == decimal(n as nat),
{
    let mut out = String::new();
    push_decimal(&mut out, n);
    assert(out@ =~= decimal(n as nat));
    out
}

/// Appends a byte string in hexadecimal notation.
pub fn push_hex(out: &mut String, bytes: &[u8])
    ensures
        final(out)@ == old(out)@ + hex(bytes@),
{
    proof {
        reveal_strlit("0123456789abcdef");
    }
    let mut i: usize = 0;
    assert(bytes@.take(0) =~= Seq::empty());
    assert(out@ =~= old(out)@ + hex(bytes@.take(0)));
    while i < bytes.len()
        invariant
            i <= bytes@.len(),
            out@ == old(out)@ + hex(bytes@.take(i as int)),
            "0123456789abcdef"@.len() == 16,
            forall|d: int| 0 <= d < 16 ==> "0123456789abcdef"@[d] == hex_char(d),
        decreases bytes@.len() - i,
    {
        let ghost before = out@;
        push_char_of(out, "0123456789abcdef", (bytes[i] / 16) as usize);
        push_char_of(out, "0123456789abcdef", (bytes[i] % 16) as usize);
        assert(bytes@.take(i + 1).drop_last() =~= bytes@.take(i as int));
        assert(out@ =~= old(out)@ + hex(bytes@.take(i + 1)));
        i = i + 1;
    }
    assert(bytes@.take(i as int) =~= bytes@);
}

/// Appends a text, moved to the right by spaces to a width.
pub fn push_right_aligned(out: &mut String, text: &str, width: usize)
    ensures
        final(out)@ == old(out)@ + right_aligned(text@, width as nat),
{
    let len: usize = text.unicode_len();
    let mut n: usize = len;
    proof {
        reveal_strlit(" ");
    }
    assert(out@ =~= old(out)@ + Seq::new(0, |i: int| ' '));
    while n < width
        invariant
            text@.len() == len,
            len <= n,
            n <= width || n == len,
            out@ == old(out)@ + Seq::new((n - len) as nat, |i: int| ' '),
            " "@.len() == 1,
            " "@[0] == ' ',
        decreases width - n,
    {
        out.append(" ");
        n = n + 1;
        assert(out@ =~= old(out)@ + Seq::new((n - len) as nat, |i: int| ' '));
    }
    out.append(text);
    assert(out@ =~= old(out)@ + right_aligned(text@, width as nat));
}

/// The characters of a text.
fn chars_of(text: &str) -> (r: Vec<char>)
    ensures
        r@ == text@,
{
    let mut out: Vec<char> = Vec::new();
    for c in it: text.chars()
        invariant
            it.seq() == text@,
            out@ == text@.take(it.index()),
    {
        assert(text@.take(it.index() + 1) =~= text@.take(it.index()).push(text@[it.index()]));
        out.push(c);
    }
    assert(text@.take(text@.len() as int) =~= text@);
    out
}

/// Whether two texts are equal.
pub fn same(a: &str, b: &str) -> (r: bool)
    ensures
        r == (a@ == b@),
{
    let x = chars_of(a);
    let y = chars_of(b);
    if x.len() != y.len() {
        return false;
    }
    let mut i: usize = 0;
    while i < x.len()
        invariant
            x@ == a@,
            y@ == b@,
            i <= x@.len() == y@.len(),
            forall|j: int| 0 <= j < i ==> x@[j] == y@[j],
        decreases x@.len() - i,
    {
        if x[i] != y[i] {
            return false;
        }
        i = i + 1;
    }
    assert(a@ =~= b@);
    true
}

/// The value of a text of digits is no less than that of a part from its start.
proof fn lemma_digits_value_grows(digits: Seq<char>, i: int)
    requires
        0 <= i <= digits.len(),
        all_digits(digits),
    ensures
        digits_value(digits.take(i)) <= digits_value(digits),
    decreases digits.len() - i,
{
    if i < digits.len() {
        assert(digits.take(i + 1).drop_last() =~= digits.take(i));
        assert(is_digit(digits[i]));
        lemma_digits_value_grows(digits, i + 1);
    } else {
        assert(digits.take(i) =~= digits);
    }
}

/// Reads a number of at most `max` out of a text.
pub fn parse_decimal(text: &str, max: u64) -> (r: Option<u64>)
    ensures
        r is Some <==> parsed(text@, max as nat) is Some,
        r matches Some(n) ==> parsed(text@, max as nat) == Some(n as nat),
{
    let chars = chars_of(text);
    let start: usize = if chars.len() > 0 && chars[0] == '+' {
        1
    } else {
        0
    };
    let ghost digits = unsigned_part(text@);
    assert(digits =~= chars@.skip(start as int));
    if chars.len() == start {
        return None;
    }
    let mut n: u64 = 0;
    let mut i: usize = start;
    assert(digits.take(0) =~= Seq::empty());
    while i < chars.len()
        invariant
            chars@ == text@,
            digits == unsigned_part(text@),
            digits == chars@.skip(start as int),
            start < chars@.len(),
            start <= i <= chars@.len(),
            n == digits_value(digits.take(i - start)),
            n <= max,
            forall|j: int| 0 <= j < i - start ==> is_digit(digits[j]),
        decreases chars@.len() - i,
    {
        let c = chars[i];
        assert(c == digits[i - start]);
        if c < '0' || '9' < c {
            return None;
        }
        assert(digits.take(i + 1 - start).drop_last() =~= digits.take(i - start));
        let d: u64 = (c as u32 - 48) as u64;
        if d > max || n > (max - d) / 10 {
            proof {
                if all_digits(digits) {
                    lemma_digits_value_grows(digits, i + 1 - start);
                }
            }
            return None;
        }
        n = 10 * n + d;
        i = i + 1;
    }
    assert(digits.take(i - start) =~= digits);
    Some(n)
}

/// Whether a character is white space.
fn white_space(c: char) -> (r: bool)
    ensures
        r == is_white_space(c),
{
    ('\u{9}' <= c && c <= '\u{d}') || c == ' ' || c == '\u{85}' || c == '\u{a0}' || c == '\u{1680}'
        || ('\u{2000}' <= c && c <= '\u{200a}') || c == '\u{2028}' || c == '\u{2029}' || c
        == '\u{202f}' || c == '\u{205f}' || c == '\u{3000}'
}

/// A text without the white space at either end.
pub fn trim(text: &str) -> (r: &str)
    ensures
        r@ == trimmed(text@),
{
    let chars = chars_of(text);
    let mut from: usize = 0;
    assert(text@.skip(0) =~= text@);
    while from < chars.len() && white_space(chars[from])
        invariant
            chars@ == text@,
            from <= chars@.len(),
            trimmed_start(text@) == trimmed_start(text@.skip(from as int)),
        decreases chars@.len() - from,
    {
        assert(text@.skip(from as int).skip(1) =~= text@.skip(from + 1));
        from = from + 1;
    }
    let ghost rest = text@.skip(from as int);
    assert(trimmed_start(text@) == rest);
    let mut to: usize = chars.len();
    assert(rest.take(to - from) =~= rest);
    while from < to && white_space(chars[to - 1])
        invariant
            chars@ == text@,
            rest == text@.skip(from as int),
            from <= to <= chars@.len(),
            trimmed_end(rest) == trimmed_end(rest.take(to - from)),
        decreases to,
    {
        assert(rest.take(to - from).drop_last() =~= rest.take(to - 1 - from));
        to = to - 1;
    }
    assert(rest.take(to - from) =~= text@.subrange(from as int, to as int));
    text.substring_char(from, to)
}

/// Splits a text at its spaces.
pub fn split_words(text: &str) -> (r: Vec<String>)
    ensures
        texts(r@) == words(text@),
        r@.len() >= 1,
{
    let chars = chars_of(text);
    let mut out: Vec<String> = Vec::new();
    let mut from: usize = 0;
    let mut i: usize = 0;
    assert(text@.take(0) =~= Seq::empty());
    assert(texts(out@).push(text@.subrange(0, 0)) =~= words(text@.take(0)));
    while i < chars.len()
        invariant
            chars@ == text@,
            from <= i <= chars@.len(),
            texts(out@).push(text@.subrange(from as int, i as int)) == words(text@.take(i as int)),
        decreases chars@.len() - i,
    {
        let ghost before = texts(out@).push(text@.subrange(from as int, i as int));
        assert(text@.take(i + 1).drop_last() =~= text@.take(i as int));
        if chars[i] == ' ' {
            out.push(text.substring_char(from, i).to_owned());
            from = i + 1;
            assert(texts(out@) =~= before);
            assert(text@.subrange(from as int, i + 1) =~= Seq::empty());
        } else {
            assert(before.drop_last() =~= texts(out@));
            assert(text@.subrange(from as int, i + 1) =~= text@.subrange(
                from as int,
                i as int,
            ).push(text@[i as int]));
        }
        assert(texts(out@).push(text@.subrange(from as int, i + 1)) =~= words(text@.take(i + 1)));
        i = i + 1;
    }
    let ghost list = texts(out@).push(text@.subrange(from as int, i as int));
    assert(text@.take(i as int) =~= text@);
    out.push(text.substring_char(from, i).to_owned());
    assert(texts(out@) =~= list);
    out
}

/// A number below a power of ten has no more digits than that power has zeros.
pub proof fn lemma_decimal_len(n: nat, digits: nat)
    requires
        digits >= 1,
        n < pow(10, digits),
    ensures
        1 <= decimal(n).len() <= digits,
    decreases digits,
{
    if n >= 10 {
        reveal(pow);
        if digits == 1 {
            assert(pow(10, 0) == 1);
            assert(pow(10, 1) == 10);
        } else {
            assert(pow(10, digits) == 10 * pow(10, (digits - 1) as nat));
            lemma_decimal_len(n / 10, (digits - 1) as nat);
        }
    }
}

/// A number that is written in decimal notation is read back as that number.
pub proof fn law_decimal_read_back(n: nat, max: nat)
    requires
        n <= max,
    ensures
        parsed(decimal(n), max) == Some(n),
{
    lemma_decimal_digits(n);
    let text = decimal(n);
    assert(is_digit(text[0]));
    assert(unsigned_part(text) == text);
}

/// A number in decimal notation consists of digits that denote it.
pub proof fn lemma_decimal_digits(n: nat)
    ensures
        decimal(n).len() > 0,
        all_digits(decimal(n)),
        digits_value(decimal(n)) == n,
    decreases n,
{
    let text = decimal(n);
    assert(digit_char((n % 10) as int) as int == 48 + n % 10);
    if n < 10 {
        assert(text.drop_last() =~= Seq::empty());
        assert(digits_value(text.drop_last()) == 0);
    } else {
        lemma_decimal_digits(n / 10);
        assert(text.drop_last() =~= decimal(n / 10));
        assert forall|i: int| 0 <= i < text.len() implies is_digit(#[trigger] text[i]) by {
            if i < text.len() - 1 {
                assert(is_digit(decimal(n / 10)[i]));
            }
        }
    }
}

/// The digits of a number stand for its ones, tens, hundreds and so on, from the last one to the
/// first, and there are no more of them than it takes.
pub proof fn law_decimal_places(n: nat, k: nat)
    ensures
        k < decimal(n).len() ==> decimal(n)[decimal(n).len() - 1 - k] as int == 48 + (n as int / pow(
            10,
            k,
        )) % 10,
        n < pow(10, decimal(n).len()),
        decimal(n).len() >= 1,
        decimal(n).len() > 1 ==> n >= pow(10, (decimal(n).len() - 1) as nat),
    decreases n,
{
    let len = decimal(n).len();
    reveal_with_fuel(pow, 3);
    assert(digit_char((n % 10) as int) as int == 48 + n % 10);
    if n < 10 {
        assert(pow(10, 0) == 1);
        assert(pow(10, 1) == 10);
    } else {
        let m = n / 10;
        let j = if k > 0 {
            (k - 1) as nat
        } else {
            0
        };
        law_decimal_places(m, j);
        assert(decimal(m).len() == len - 1);
        assert(pow(10, len) == 10 * pow(10, (len - 1) as nat));
        if len > 2 {
            assert(pow(10, (len - 1) as nat) == 10 * pow(10, (len - 2) as nat));
        } else {
            assert(pow(10, 0) == 1);
            assert(pow(10, 1) == 10);
        }
        if k == 0 {
            assert(pow(10, 0) == 1);
        } else if k < len {
            vstd::arithmetic::power::lemma_pow_positive(10, j);
            assert(pow(10, k) == 10 * pow(10, j));
            vstd::arithmetic::div_mod::lemma_div_denominator(n as int, 10, pow(10, j));
            assert(decimal(n)[len - 1 - k] == decimal(m)[len - 2 - j]);
        }
    }
}

/// A digit stands for a number from zero to nine, and the value of a text of digits is ten times
/// that of its front for each digit behind it, and the value of the rest.
pub proof fn law_digits_value(a: Seq<char>, b: Seq<char>, c: char)
    requires
        forall|i: int| 0 <= i < a.len() ==> 48 <= (#[trigger] a[i]) as int <= 57,
        forall|i: int| 0 <= i < b.len() ==> 48 <= (#[trigger] b[i]) as int <= 57,
    ensures
        is_digit(c) <==> 48 <= c as int <= 57,
        is_digit(c) ==> digits_value(seq![c]) == c as int - 48,
        all_digits(a + b),
        digits_value(a + b) == digits_value(a) * pow(10, b.len()) + digits_value(b),
    decreases b.len(),
{
    reveal_with_fuel(pow, 2);
    assert(seq![c].drop_last() =~= Seq::empty());
    assert(digits_value(Seq::empty()) == 0);
    assert forall|i: int| 0 <= i < (a + b).len() implies is_digit(#[trigger] (a + b)[i]) by {
        if i < a.len() {
            assert((a + b)[i] == a[i]);
        } else {
            assert((a + b)[i] == b[i - a.len()]);
        }
    }
    if b.len() == 0 {
        assert(a + b =~= a);
        assert(pow(10, 0) == 1);
    } else {
        let front = b.drop_last();
        assert forall|i: int| 0 <= i < front.len() implies 48 <= (#[trigger] front[i]) as int
            <= 57 by {
            assert(front[i] == b[i]);
        }
        law_digits_value(a, front, c);
        assert((a + b).drop_last() =~= a + front);
        assert((a + b).last() == b[b.len() - 1]);
        let x = digits_value(a) as int;
        let p = pow(10, front.len());
        assert(pow(10, b.len()) == 10 * p);
        assert(10 * (x * p) == x * (10 * p)) by (nonlinear_arith);
    }
}

/// A text of digits is read as their value where that is no more than `max`, with or without a plus
/// sign in front. Any other text is no number.
pub proof fn law_parsed(text: Seq<char>, max: nat, i: int)
    ensures
        text.len() == 0 ==> parsed(text, max) is None,
        parsed(seq!['+'], max) is None,
        (text.len() > 0 && forall|j: int|
            0 <= j < text.len() ==> 48 <= (#[trigger] text[j]) as int <= 57) ==> {
            &&& digits_value(text) <= max ==> parsed(text, max) == Some(digits_value(text))
            &&& digits_value(text) > max ==> parsed(text, max) is None
            &&& parsed(seq!['+'] + text, max) == parsed(text, max)
        },
        0 <= i < text.len() && !(48 <= text[i] as int <= 57) && !(i == 0 && text[i] == '+')
            ==> parsed(text, max) is None,
{
    let plus = seq!['+'] + text;
    assert(plus.skip(1) =~= text);
    assert(seq!['+'].skip(1) =~= Seq::empty());
    if text.len() > 0 && forall|j: int|
        0 <= j < text.len() ==> 48 <= (#[trigger] text[j]) as int <= 57 {
        assert(48 <= text[0] as int <= 57);
        assert(all_digits(text)) by {
            assert forall|j: int| 0 <= j < text.len() implies is_digit(#[trigger] text[j]) by {
                assert(48 <= text[j] as int <= 57);
            }
        }
        assert(plus[0] == '+');
    }
    if 0 <= i < text.len() && !(48 <= text[i] as int <= 57) && !(i == 0 && text[i] == '+') {
        assert(!is_digit(text[i]));
        if text[0] == '+' {
            assert(text.skip(1)[i - 1] == text[i]);
            assert(!is_digit(text.skip(1)[i - 1]));
        }
    }
}

/// An integer below zero is written as the number that it is below zero behind a minus sign, any
/// other as that number.
pub proof fn law_signed_decimal(n: nat)
    ensures
        signed_decimal(n as int) == decimal(n),
        n > 0 ==> signed_decimal(-(n as int)) == seq!['-'] + decimal(n),
{
    reveal_strlit("-");
    assert(n > 0 ==> signed_decimal(-(n as int)) =~= seq!['-'] + decimal(n));
}

/// Hexadecimal notation has two digits for each byte, the more significant one first.
pub proof fn law_hex(bytes: Seq<u8>, i: int)
    ensures
        hex(bytes).len() == 2 * bytes.len(),
        0 <= i < bytes.len() ==> hex(bytes)[2 * i] == "0123456789abcdef"@[bytes[i] as int / 16]
            && hex(bytes)[2 * i + 1] == "0123456789abcdef"@[bytes[i] as int % 16],
    decreases bytes.len(),
{
    reveal_strlit("0123456789abcdef");
    if bytes.len() > 0 {
        law_hex(bytes.drop_last(), i);
    }
}

/// Alignment puts spaces in front of a text, as many as it takes to reach the width.
pub proof fn law_right_aligned(text: Seq<char>, width: nat)
    ensures
        right_aligned(text, width).len() == if text.len() < width {
            width
        } else {
            text.len()
        },
        right_aligned(text, width).skip(right_aligned(text, width).len() - text.len()) == text,
        forall|i: int|
            0 <= i < right_aligned(text, width).len() - text.len() ==> #[trigger] right_aligned(
                text,
                width,
            )[i] == ' ',
{
    let r = right_aligned(text, width);
    assert(r.skip(r.len() - text.len()) =~= text);
}

/// The characters that are white space, by their numbers.
pub proof fn law_white_space(c: char)
    ensures
        is_white_space(c) <==> {
            let n = c as int;
            ||| 9 <= n <= 13
            ||| n == 32
            ||| n == 133
            ||| n == 160
            ||| n == 5760
            ||| 8192 <= n <= 8202
            ||| n == 8232
            ||| n == 8233
            ||| n == 8239
            ||| n == 8287
            ||| n == 12288
        },
{
}

proof fn lemma_trimmed_start(blank: Seq<char>, rest: Seq<char>)
    requires
        forall|i: int| 0 <= i < blank.len() ==> is_white_space(#[trigger] blank[i]),
    ensures
        trimmed_start(blank + rest) == trimmed_start(rest),
    decreases blank.len(),
{
    if blank.len() == 0 {
        assert(blank + rest =~= rest);
    } else {
        assert(is_white_space(blank[0]));
        assert((blank + rest).skip(1) =~= blank.skip(1) + rest);
        assert forall|i: int| 0 <= i < blank.skip(1).len() implies is_white_space(
            #[trigger] blank.skip(1)[i],
        ) by {
            assert(blank.skip(1)[i] == blank[i + 1]);
        }
        lemma_trimmed_start(blank.skip(1), rest);
    }
}

proof fn lemma_trimmed_end(rest: Seq<char>, blank: Seq<char>)
    requires
        forall|i: int| 0 <= i < blank.len() ==> is_white_space(#[trigger] blank[i]),
    ensures
        trimmed_end(rest + blank) == trimmed_end(rest),
    decreases blank.len(),
{
    if blank.len() == 0 {
        assert(rest + blank =~= rest);
    } else {
        assert(is_white_space(blank[blank.len() - 1]));
        assert((rest + blank).drop_last() =~= rest + blank.drop_last());
        lemma_trimmed_end(rest, blank.drop_last());
    }
}

/// White space at either end of a text is cut off, and nothing else.
pub proof fn law_trimmed(before: Seq<char>, text: Seq<char>, after: Seq<char>)
    requires
        forall|i: int| 0 <= i < before.len() ==> is_white_space(#[trigger] before[i]),
        forall|i: int| 0 <= i < after.len() ==> is_white_space(#[trigger] after[i]),
    ensures
        trimmed(before) == Seq::<char>::empty(),
        text.len() > 0 && !is_white_space(text[0]) && !is_white_space(text.last()) ==> trimmed(
            before + text + after,
        ) == text,
{
    lemma_trimmed_start(before, Seq::empty());
    assert(before + Seq::empty() =~= before);
    if text.len() > 0 && !is_white_space(text[0]) && !is_white_space(text.last()) {
        assert(before + text + after =~= before + (text + after));
        lemma_trimmed_start(before, text + after);
        assert((text + after)[0] == text[0]);
        lemma_trimmed_end(text, after);
    }
}

/// A text without spaces is one word, and a space parts the words before it from those behind it.
pub proof fn law_words(a: Seq<char>, b: Seq<char>)
    ensures
        !a.contains(' ') ==> words(a) == seq![a],
        words(a + seq![' '] + b) == words(a) + words(b),
        words(b).len() > 0,
    decreases a.len() + b.len(),
{
    if a.len() > 0 {
        law_words(a.drop_last(), Seq::empty());
        if !a.contains(' ') {
            assert forall|i: int| 0 <= i < a.len() implies a[i] != ' ' by {
                assert(a.contains(a[i]));
            }
            assert(!a.drop_last().contains(' '));
            assert(a.drop_last().push(a.last()) =~= a);
            assert(words(a) =~= seq![a]);
        }
    } else {
        assert(a =~= Seq::empty());
        assert(words(a) =~= seq![a]);
    }
    let whole = a + seq![' '] + b;
    if b.len() == 0 {
        assert(whole.drop_last() =~= a);
        assert(words(whole) =~= words(a) + words(b));
    } else {
        law_words(a, b.drop_last());
        assert(whole.drop_last() =~= a + seq![' '] + b.drop_last());
        assert(whole.last() == b.last());
        let before = words(a) + words(b.drop_last());
        assert(before.last() == words(b.drop_last()).last());
        assert(before.drop_last() =~= words(a) + words(b.drop_last()).drop_last());
        assert(words(whole) =~= words(a) + words(b));
    }
}

} // verus!
