//! Numbers written as text: digits in a radix, with an optional sign.

use vstd::prelude::*;
use vstd::string::*;

verus! {

/// The value of `c` as a digit, if it is one in `radix`: `0` to `9`, then
/// the letters in either case.
pub open spec fn digit_value(c: char, radix: nat) -> Option<nat> {
    let value: nat = if '0' <= c <= '9' {
        (c as nat - '0' as nat) as nat
    } else if 'a' <= c <= 'z' {
        (c as nat - 'a' as nat + 10) as nat
    } else if 'A' <= c <= 'Z' {
        (c as nat - 'A' as nat + 10) as nat
    } else {
        36
    };
    if value < radix {
        Some(value)
    } else {
        None
    }
}

/// Every character is a digit in `radix`.
pub open spec fn all_digits(text: Seq<char>, radix: nat) -> bool {
    forall|i: int| 0 <= i < text.len() ==> digit_value(#[trigger] text[i], radix) is Some
}

/// The number that a run of digits stands for, most significant first.
pub open spec fn digits_value(text: Seq<char>, radix: nat) -> nat
    decreases text.len(),
{
    if text.len() == 0 {
        0
    } else {
        digits_value(text.drop_last(), radix) * radix + digit_value(text.last(), radix).unwrap()
    }
}

/// `text` without a leading plus sign.
pub open spec fn without_plus(text: Seq<char>) -> Seq<char> {
    if text.len() > 0 && text[0] == '+' {
        text.skip(1)
    } else {
        text
    }
}

/// What `text` stands for as a number without sign: an optional `+`, then
/// at least one digit, nothing else, and a value of at most `max`.
pub open spec fn unsigned_text(text: Seq<char>, radix: nat, max: nat) -> Option<nat> {
    let digits = without_plus(text);
    if digits.len() == 0 || !all_digits(digits, radix) || digits_value(digits, radix) > max {
        None
    } else {
        Some(digits_value(digits, radix))
    }
}

/// What `text` stands for as a number with sign: an optional `+` or `-`,
/// then at least one digit, nothing else, and a value from `min` to `max`.
pub open spec fn signed_text(text: Seq<char>, radix: nat, min: int, max: int) -> Option<int> {
    let negative = text.len() > 0 && text[0] == '-';
    let digits = if negative {
        text.skip(1)
    } else {
        without_plus(text)
    };
    let value = if negative {
        -(digits_value(digits, radix) as int)
    } else {
        digits_value(digits, radix) as int
    };
    if digits.len() == 0 || !all_digits(digits, radix) || value < min || value > max {
        None
    } else {
        Some(value)
    }
}

/// A longer run of digits does not stand for a smaller number.
pub proof fn lemma_digits_value_grows(text: Seq<char>, radix: nat, len: int)
    requires
        0 <= len <= text.len(),
        radix >= 1,
        all_digits(text, radix),
    ensures
        digits_value(text.take(len), radix) <= digits_value(text, radix),
    decreases text.len(),
{
    if len == text.len() {
        assert(text.take(len) == text);
    } else {
        let front = text.drop_last();
        assert(front.take(len) == text.take(len));
        assert forall|i: int| 0 <= i < front.len() implies digit_value(
            #[trigger] front[i],
            radix,
        ) is Some by {
            assert(front[i] == text[i]);
        }
        lemma_digits_value_grows(front, radix, len);
        assert(digits_value(front, radix) * radix >= digits_value(front, radix))
            by (nonlinear_arith)
            requires
                radix >= 1,
        ;
    }
}

/// The digit that an ASCII byte stands for in `radix`.
fn digit_of(byte: u8, radix: u8) -> (digit: Option<u8>)
    requires
        radix <= 36,
    ensures
        byte < 128 ==> match digit {
            Some(d) => digit_value(byte as char, radix as nat) == Some(d as nat),
            None => digit_value(byte as char, radix as nat) is None,
        },
{
    let value: u8 = if byte >= 48 && byte <= 57 {
        byte - 48
    } else if byte >= 97 && byte <= 122 {
        byte - 97 + 10
    } else if byte >= 65 && byte <= 90 {
        byte - 65 + 10
    } else {
        36
    };
    if value < radix {
        Some(value)
    } else {
        None
    }
}

/// Reads the bytes from `from` on as digits in `radix`. Gives nothing where
/// there is no digit, where a byte is none, and where the number is above
/// `max`.
fn read_digits(bytes: &[u8], from: usize, radix: u8, max: u64, Ghost(text): Ghost<Seq<char>>) -> (value:
    Option<u64>)
    requires
        1 <= radix <= 36,
        from <= bytes@.len(),
        text.len() == bytes@.len(),
        forall|i: int| 0 <= i < text.len() ==> text[i] as int == bytes@[i] as int,
        forall|i: int| 0 <= i < text.len() ==> bytes@[i] < 128,
    ensures
        ({
            let digits = text.skip(from as int);
            match value {
                Some(v) => digits.len() > 0 && all_digits(digits, radix as nat) && v
                    == digits_value(digits, radix as nat) && v <= max,
                None => digits.len() == 0 || !all_digits(digits, radix as nat) || digits_value(
                    digits,
                    radix as nat,
                ) > max,
            }
        }),
{
    let ghost digits = text.skip(from as int);
    if from == bytes.len() {
        return None;
    }
    let mut value: u64 = 0;
    let mut i: usize = from;
    while i < bytes.len()
        invariant
            from <= i <= bytes@.len(),
            1 <= radix <= 36,
            text.len() == bytes@.len(),
            digits == text.skip(from as int),
            forall|k: int| 0 <= k < text.len() ==> text[k] as int == bytes@[k] as int,
            forall|k: int| 0 <= k < text.len() ==> bytes@[k] < 128,
            all_digits(digits.take(i - from), radix as nat),
            value == digits_value(digits.take(i - from), radix as nat),
            value <= max,
        decreases bytes@.len() - i,
    {
        let ghost seen = digits.take(i - from);
        let ghost next = digits.take(i - from + 1);
        proof {
            assert(next.drop_last() == seen);
            assert(next.last() == text[i as int]);
            assert(bytes@[i as int] as char == text[i as int]);
        }
        match digit_of(bytes[i], radix) {
            None => {
                assert(digit_value(digits[i - from], radix as nat) is None);
                return None;
            },
            Some(digit) => {
                assert(all_digits(next, radix as nat)) by {
                    assert forall|k: int| 0 <= k < next.len() implies digit_value(
                        #[trigger] next[k],
                        radix as nat,
                    ) is Some by {
                        if k < seen.len() {
                            assert(next[k] == seen[k]);
                        }
                    }
                }
                if digit as u64 > max || value > (max - digit as u64) / (radix as u64) {
                    proof {
                        assert(digits_value(next, radix as nat) > max) by (nonlinear_arith)
                            requires
                                digits_value(next, radix as nat) == value * radix + digit,
                                digit > max || (digit <= max && value > (max - digit) / (
                                radix as int)),
                                radix >= 1,
                                value >= 0,
                        ;
                        if all_digits(digits, radix as nat) {
                            lemma_digits_value_grows(digits, radix as nat, i - from + 1);
                        }
                    }
                    return None;
                }
                assert(value * radix + digit <= max) by (nonlinear_arith)
                    requires
                        digit <= max,
                        value <= (max - digit) / (radix as int),
                        radix >= 1,
                        value >= 0,
                ;
                value = value * (radix as u64) + digit as u64;
            },
        }
        i += 1;
    }
    assert(digits.take(i - from) == digits);
    Some(value)
}

/// Text that stands for a number holds ASCII characters only.
proof fn lemma_number_text_is_ascii(text: Seq<char>, radix: nat)
    requires
        radix <= 36,
        !vstd::utf8::is_ascii_chars(text),
    ensures
        forall|max: nat| unsigned_text(text, radix, max) is None,
        forall|min: int, max: int| signed_text(text, radix, min, max) is None,
{
    let i = choose|i: int| 0 <= i < text.len() && !('\0' <= #[trigger] text[i] <= '\u{7f}');
    let plain = without_plus(text);
    if text[0] == '+' {
        assert(plain[i - 1] == text[i]);
        assert(!all_digits(plain, radix));
    } else {
        assert(plain[i] == text[i]);
        assert(!all_digits(plain, radix));
    }
    if text[0] == '-' {
        assert(text.skip(1)[i - 1] == text[i]);
        assert(!all_digits(text.skip(1), radix));
    }
}

/// Reads `text` as a number without sign in `radix`: an optional `+` and
/// then digits, nothing before, between or behind them. Gives nothing for
/// other text and for a number above `max`.
pub fn parse_unsigned(text: &str, radix: u8, max: u64) -> (value: Option<u64>)
    requires
        1 <= radix <= 36,
    ensures
        match value {
            Some(v) => unsigned_text(text@, radix as nat, max as nat) == Some(v as nat),
            None => unsigned_text(text@, radix as nat, max as nat) is None,
        },
{
    broadcast use vstd::string::is_ascii_spec_bytes;

    if !text.is_ascii() {
        proof {
            lemma_number_text_is_ascii(text@, radix as nat);
        }
        return None;
    }
    let bytes = text.as_bytes();
    let from: usize = if bytes.len() > 0 && bytes[0] == 43 {
        1
    } else {
        0
    };
    assert(text@.skip(from as int) == without_plus(text@)) by {
        assert(text@.skip(0) == text@);
        if bytes@.len() > 0 {
            assert(bytes@[0] == text@[0] as u8);
        }
    }
    read_digits(bytes, from, radix, max, Ghost(text@))
}

/// Reads `text` as a number with sign in `radix`: an optional `+` or `-`
/// and then digits, nothing before, between or behind them. Gives nothing
/// for other text and for a number below `min` or above `max`.
pub fn parse_signed(text: &str, radix: u8, min: i64, max: i64) -> (value: Option<i64>)
    requires
        1 <= radix <= 36,
        min <= 0 <= max,
    ensures
        match value {
            Some(v) => signed_text(text@, radix as nat, min as int, max as int) == Some(v as int),
            None => signed_text(text@, radix as nat, min as int, max as int) is None,
        },
{
    broadcast use vstd::string::is_ascii_spec_bytes;

    if !text.is_ascii() {
        proof {
            lemma_number_text_is_ascii(text@, radix as nat);
        }
        return None;
    }
    let bytes = text.as_bytes();
    proof {
        assert(text@.skip(0) == text@);
        if bytes@.len() > 0 {
            assert(bytes@[0] == text@[0] as u8);
        }
    }
    if bytes.len() > 0 && bytes[0] == 45 {
        let deepest: u64 = if min == 0 {
            0
        } else {
            ((-(min + 1)) as u64) + 1
        };
        match read_digits(bytes, 1, radix, deepest, Ghost(text@)) {
            Some(magnitude) => {
                if magnitude == 0x8000_0000_0000_0000 {
                    Some(i64::MIN)
                } else {
                    Some(-(magnitude as i64))
                }
            },
            None => None,
        }
    } else {
        let from: usize = if bytes.len() > 0 && bytes[0] == 43 {
            1
        } else {
            0
        };
        match read_digits(bytes, from, radix, max as u64, Ghost(text@)) {
            Some(magnitude) => Some(magnitude as i64),
            None => None,
        }
    }
}

/// The character for a digit: `0` to `9`, then capital letters.
pub open spec fn digit_char(digit: nat) -> char {
    if digit < 10 {
        ('0' as nat + digit) as char
    } else {
        ('A' as nat + digit - 10) as char
    }
}

/// `number` written in `radix`, most significant digit first and without
/// leading zeros; zero is written as one `0`.
pub open spec fn digits_text(number: nat, radix: nat) -> Seq<char>
    decreases number,
{
    if number < radix || radix < 2 {
        seq![digit_char(number)]
    } else {
        proof {
            assert(number / radix < number) by (nonlinear_arith)
                requires
                    radix >= 2,
                    number >= radix,
            ;
        }
        digits_text(number / radix, radix).push(digit_char(number % radix))
    }
}

/// `number` written in decimal, with a minus sign where it is negative.
pub open spec fn decimal_text(number: int) -> Seq<char> {
    if number < 0 {
        seq!['-'] + digits_text((-number) as nat, 10)
    } else {
        digits_text(number as nat, 10)
    }
}

/// What is written in a radix reads back as the same number.
pub proof fn lemma_digits_text_reads_back(number: nat, radix: nat)
    requires
        2 <= radix <= 36,
    ensures
        digits_text(number, radix).len() > 0,
        all_digits(digits_text(number, radix), radix),
        digits_value(digits_text(number, radix), radix) == number,
        digits_text(number, radix)[0] != '+',
        digits_text(number, radix)[0] != '-',
    decreases number,
{
    let text = digits_text(number, radix);
    if number < radix {
        assert(text.drop_last() == Seq::<char>::empty());
        assert(digits_value(text.drop_last(), radix) == 0);
        assert(digit_value(digit_char(number), radix) == Some(number));
        assert(digits_value(text, radix) == 0 * radix + number);
    } else {
        let front = digits_text(number / radix, radix);
        let last = digit_char(number % radix);
        lemma_digits_text_reads_back(number / radix, radix);
        assert(text.drop_last() == front);
        assert(digit_value(last, radix) == Some(number % radix));
        assert forall|i: int| 0 <= i < text.len() implies digit_value(
            #[trigger] text[i],
            radix,
        ) is Some by {
            if i < front.len() {
                assert(text[i] == front[i]);
            }
        }
        assert(text[0] == front[0]);
        assert((number / radix) * radix + number % radix == number) by (nonlinear_arith)
            requires
                radix >= 2,
        ;
        assert(number % radix < radix);
        assert(digits_value(text, radix) == digits_value(front, radix) * radix + number % radix);
    }
}

/// A number written in decimal reads back as the same number, whatever
/// range it is read in, as long as the range holds it.
pub proof fn lemma_decimal_text_reads_back(number: int, min: int, max: int)
    requires
        min <= number <= max,
    ensures
        signed_text(decimal_text(number), 10, min, max) == Some(number),
        number >= 0 ==> unsigned_text(decimal_text(number), 10, max as nat) == Some(number as nat),
{
    let text = decimal_text(number);
    if number < 0 {
        let digits = digits_text((-number) as nat, 10);
        lemma_digits_text_reads_back((-number) as nat, 10);
        assert(text.skip(1) == digits);
    } else {
        lemma_digits_text_reads_back(number as nat, 10);
        assert(without_plus(text) == text);
    }
}

/// One digit as text.
fn digit_str(digit: u8) -> (text: &'static str)
    requires
        digit < 16,
    ensures
        text@ == seq![digit_char(digit as nat)],
{
    proof {
        reveal_strlit("0");
        reveal_strlit("1");
        reveal_strlit("2");
        reveal_strlit("3");
        reveal_strlit("4");
        reveal_strlit("5");
        reveal_strlit("6");
        reveal_strlit("7");
        reveal_strlit("8");
        reveal_strlit("9");
        reveal_strlit("A");
        reveal_strlit("B");
        reveal_strlit("C");
        reveal_strlit("D");
        reveal_strlit("E");
        reveal_strlit("F");
    }
    let text = match digit {
        0 => "0",
        1 => "1",
        2 => "2",
        3 => "3",
        4 => "4",
        5 => "5",
        6 => "6",
        7 => "7",
        8 => "8",
        9 => "9",
        10 => "A",
        11 => "B",
        12 => "C",
        13 => "D",
        14 => "E",
        _ => "F",
    };
    assert(text@ =~= seq![digit_char(digit as nat)]);
    text
}

/// The characters of a list of digits that begins with the least
/// significant one.
pub open spec fn backwards(digits: Seq<u8>) -> Seq<char> {
    Seq::new(digits.len(), |i: int| digit_char(digits[digits.len() - 1 - i] as nat))
}

/// Adds `number`, written in `radix`, to the end of `text`.
pub fn push_digits(text: &mut String, number: u64, radix: u8)
    requires
        radix == 10 || radix == 16,
    ensures
        final(text)@ == old(text)@ + digits_text(number as nat, radix as nat),
{
    let mut digits: Vec<u8> = Vec::new();
    let mut rest: u64 = number;
    while rest >= radix as u64
        invariant
            radix == 10 || radix == 16,
            digits_text(number as nat, radix as nat) == digits_text(rest as nat, radix as nat)
                + backwards(digits@),
            forall|i: int| 0 <= i < digits@.len() ==> digits@[i] < 16,
        decreases rest,
    {
        let ghost before = digits@;
        digits.push((rest % radix as u64) as u8);
        assert(backwards(digits@) == seq![digit_char((rest % radix as u64) as nat)] + backwards(
            before,
        ));
        assert(digits_text((rest / radix as u64) as nat, radix as nat).push(
            digit_char((rest % radix as u64) as nat),
        ) + backwards(before) == digits_text((rest / radix as u64) as nat, radix as nat)
            + backwards(digits@));
        rest = rest / radix as u64;
    }
    let ghost before = digits@;
    digits.push(rest as u8);
    assert(backwards(digits@) == seq![digit_char(rest as nat)] + backwards(before));
    assert(digits_text(number as nat, radix as nat) == backwards(digits@));
    let ghost all = backwards(digits@);
    let ghost start = text@;
    let mut i: usize = digits.len();
    while i > 0
        invariant
            i <= digits@.len(),
            all == backwards(digits@),
            forall|k: int| 0 <= k < digits@.len() ==> digits@[k] < 16,
            text@ == start + all.take(digits@.len() - i),
        decreases i,
    {
        i -= 1;
        let ghost sofar = text@;
        text.append(digit_str(digits[i]));
        assert(all.take(digits@.len() - i) == all.take(digits@.len() - i - 1).push(
            digit_char(digits@[i as int] as nat),
        ));
    }
    assert(all.take(digits@.len() as int) == all);
}

/// Whether two texts are the same.
pub fn same_text(left: &str, right: &str) -> (same: bool)
    ensures
        same == (left@ == right@),
{
    let a = String::from_str(left);
    let b = String::from_str(right);
    a == b
}


} // verus!
