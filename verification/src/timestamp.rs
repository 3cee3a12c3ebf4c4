//! Timestamps: a time field `H:MM:SS.cc`, with hundredths of a second behind
//! the dot, is rewritten as `H:MM:SS,mmm`, with thousandths behind a comma.
use vstd::prelude::*;
use vstd::string::*;
use crate::text::{chars_of, free_of, lemma_split_fields_free, lemma_split_pair, split,
    split_ranges};

verus! {

/// Whether `c` is one of the ten decimal digits.
pub open spec fn is_digit(c: char) -> bool {
    48 <= c as u32 <= 57
}

/// The value of a decimal digit; 0 for any other character.
pub open spec fn digit_value(c: char) -> nat {
    if is_digit(c) {
        (c as u32 - 48) as nat
    } else {
        0
    }
}

/// The digit that stands for `d`, for `d` below ten.
pub open spec fn digit_char(d: nat) -> char {
    if d == 0 {
        '0'
    } else if d == 1 {
        '1'
    } else if d == 2 {
        '2'
    } else if d == 3 {
        '3'
    } else if d == 4 {
        '4'
    } else if d == 5 {
        '5'
    } else if d == 6 {
        '6'
    } else if d == 7 {
        '7'
    } else if d == 8 {
        '8'
    } else {
        '9'
    }
}

/// Whether every character of `s` is a decimal digit.
pub open spec fn all_digits(s: Seq<char>) -> bool {
    forall|i: int| 0 <= i < s.len() ==> is_digit(#[trigger] s[i])
}

/// The number that the digits of `s` denote in base ten, most significant
/// digit first.
pub open spec fn digits_value(s: Seq<char>) -> nat
    decreases s.len(),
{
    if s.len() == 0 {
        0
    } else {
        digits_value(s.drop_last()) * 10 + digit_value(s.last())
    }
}

/// The shortest decimal writing of `n`: no sign, no padding, `0` for zero.
pub open spec fn decimal(n: nat) -> Seq<char>
    decreases n,
{
    if n < 10 {
        seq![digit_char(n)]
    } else {
        decimal(n / 10).push(digit_char(n % 10))
    }
}

/// The largest number of hundredths that a time field may carry.
pub const MAX_CENTISECONDS: u16 = 99;

/// What is left of a number's text once one leading `+` is taken away.
pub open spec fn unsigned_part(s: Seq<char>) -> Seq<char> {
    if s.len() > 0 && s[0] == '+' {
        s.drop_first()
    } else {
        s
    }
}

/// The hundredths of a second that `s` denotes: one or more decimal digits,
/// with or without a `+` before them, whose value is at most 99. Anything
/// else denotes nothing.
pub open spec fn centiseconds(s: Seq<char>) -> Option<nat> {
    let digits = unsigned_part(s);
    if digits.len() > 0 && all_digits(digits) && digits_value(digits) <= MAX_CENTISECONDS {
        Some(digits_value(digits))
    } else {
        None
    }
}

/// Whether `field` is a time field that can be rewritten: exactly one dot,
/// and hundredths behind it.
pub open spec fn valid_time_field(field: Seq<char>) -> bool {
    &&& split(field, '.').len() == 2
    &&& centiseconds(split(field, '.')[1]) is Some
}

/// The thousandths of a second of a valid time field: ten times its
/// hundredths.
pub open spec fn milliseconds(field: Seq<char>) -> nat {
    10 * centiseconds(split(field, '.')[1]).unwrap()
}

/// A valid time field rewritten: what stands before the dot, a comma, and the
/// thousandths in their shortest decimal writing.
pub open spec fn normalized(field: Seq<char>) -> Seq<char> {
    split(field, '.')[0] + seq![','] + decimal(milliseconds(field))
}

/// Appending digits never lowers the value.
pub proof fn lemma_digits_value_prefix(s: Seq<char>, k: int)
    requires
        0 <= k <= s.len(),
    ensures
        digits_value(s.take(k)) <= digits_value(s),
    decreases s.len() - k,
{
    if k == s.len() {
        assert(s.take(k) == s);
    } else {
        lemma_digits_value_prefix(s.drop_last(), k);
        assert(s.drop_last().take(k) == s.take(k));
    }
}

/// The decimal writing of a number is made of digits and denotes that number.
pub proof fn lemma_decimal_round_trip(n: nat)
    ensures
        decimal(n).len() >= 1,
        all_digits(decimal(n)),
        digits_value(decimal(n)) == n,
    decreases n,
{
    if n < 10 {
        let s = decimal(n);
        assert(s.drop_last() == Seq::<char>::empty());
        assert(digits_value(s.drop_last()) == 0);
    } else {
        lemma_decimal_round_trip(n / 10);
        let s = decimal(n);
        assert(s.drop_last() == decimal(n / 10));
        assert(s.last() == digit_char(n % 10));
    }
}

/// The hundredths that the characters of `chars` from position `from` up to
/// `to` denote, if they denote any.
fn centiseconds_in(chars: &Vec<char>, from: usize, to: usize) -> (res: Option<u16>)
    requires
        from <= to <= chars@.len(),
    ensures
        res matches Some(v) ==> centiseconds(chars@.subrange(from as int, to as int)) == Some(
            v as nat,
        ),
        res is None ==> centiseconds(chars@.subrange(from as int, to as int)) is None,
{
    let ghost s = chars@.subrange(from as int, to as int);
    let mut i: usize = from;
    if i < to && chars[i] == '+' {
        i += 1;
    }
    let first: usize = i;
    let ghost digits = chars@.subrange(first as int, to as int);
    assert(digits == unsigned_part(s));
    if first == to {
        return None;
    }
    let mut value: u16 = 0;
    while i < to
        invariant
            from <= first <= i <= to <= chars@.len(),
            digits == chars@.subrange(first as int, to as int),
            digits == unsigned_part(chars@.subrange(from as int, to as int)),
            all_digits(chars@.subrange(first as int, i as int)),
            value == digits_value(chars@.subrange(first as int, i as int)),
            value <= 99,
        decreases to - i,
    {
        let c: char = chars[i];
        let code: u32 = c as u32;
        if code < 48 || code > 57 {
            assert(!is_digit(digits[i - first]));
            return None;
        }
        let digit: u16 = (code - 48) as u16;
        proof {
            let seen = chars@.subrange(first as int, i as int);
            let grown = chars@.subrange(first as int, i + 1);
            assert(grown.drop_last() == seen);
            assert(grown.last() == c);
            assert(grown == digits.take(i + 1 - first));
            lemma_digits_value_prefix(digits, i + 1 - first);
        }
        value = value * 10 + digit;
        if value > MAX_CENTISECONDS {
            return None;
        }
        i += 1;
    }
    Some(value)
}

/// Reads hundredths of a second from their text; `None` where the text
/// denotes none.
pub fn parse_centiseconds(text: &str) -> (res: Option<u16>)
    ensures
        res matches Some(v) ==> centiseconds(text@) == Some(v as nat),
        res is None ==> centiseconds(text@) is None,
{
    let chars = chars_of(text);
    proof {
        assert(chars@.subrange(0, chars@.len() as int) == text@);
    }
    centiseconds_in(&chars, 0, chars.len())
}

/// The text of one digit.
fn digit_text(d: u64) -> (s: &'static str)
    requires
        d < 10,
    ensures
        s@ == seq![digit_char(d as nat)],
{
    proof {
        reveal_strlit("0");
        reveal_strlit("1");
        reveal_strlit("2");
        reveal_strlit("3");
        reveal_strlit("4");
        reveal_strlit("5");
        reveal_strlit("6");
        reveal_strlit("7");
        reveal_strlit("8");
        reveal_strlit("9");
    }
    let s = if d == 0 {
        "0"
    } else if d == 1 {
        "1"
    } else if d == 2 {
        "2"
    } else if d == 3 {
        "3"
    } else if d == 4 {
        "4"
    } else if d == 5 {
        "5"
    } else if d == 6 {
        "6"
    } else if d == 7 {
        "7"
    } else if d == 8 {
        "8"
    } else {
        "9"
    };
    assert(s@ =~= seq![digit_char(d as nat)]);
    s
}

/// Appends the shortest decimal writing of `n` to `out`.
pub fn append_decimal(out: &mut String, n: u64)
    ensures
        final(out)@ == old(out)@ + decimal(n as nat),
    decreases n,
{
    if n >= 10 {
        append_decimal(out, n / 10);
    }
    out.append(digit_text(n % 10));
    proof {
        if n >= 10 {
            assert(old(out)@ + decimal((n / 10) as nat) + seq![digit_char((n % 10) as nat)]
                =~= old(out)@ + decimal(n as nat));
        }
    }
}

/// Rewrites the time field `field`, or gives `None` where it is not valid.
pub fn normalize_timestamp(field: &str) -> (res: Option<String>)
    ensures
        res is Some <==> valid_time_field(field@),
        res matches Some(t) ==> t@ == normalized(field@),
{
    let chars = chars_of(field);
    let ranges = split_ranges(&chars, '.');
    if ranges.len() != 2 {
        return None;
    }
    let (day_from, day_to) = ranges[0];
    let (frac_from, frac_to) = ranges[1];
    match centiseconds_in(&chars, frac_from, frac_to) {
        None => None,
        Some(centis) => {
            let mut out = String::from_str(field.substring_char(day_from, day_to));
            proof {
                reveal_strlit(",");
            }
            out.append(",");
            let millis: u16 = centis * 10;
            append_decimal(&mut out, millis as u64);
            Some(out)
        },
    }
}

/// A valid time field yields thousandths that are ten times its hundredths
/// and lie between 0 and 990; and where the field holds no comma, the
/// rewritten timestamp splits on its comma into exactly two parts, the second
/// of which denotes those thousandths.
pub proof fn lemma_milliseconds_of_valid_field(field: Seq<char>)
    requires
        valid_time_field(field),
    ensures
        milliseconds(field) == 10 * centiseconds(split(field, '.')[1]).unwrap(),
        0 <= milliseconds(field) <= 990,
        free_of(field, ',') ==> {
            &&& split(normalized(field), ',').len() == 2
            &&& split(normalized(field), ',')[0] == split(field, '.')[0]
            &&& digits_value(split(normalized(field), ',')[1]) == milliseconds(field)
        },
{
    let day = split(field, '.')[0];
    let ms = decimal(milliseconds(field));
    lemma_decimal_round_trip(milliseconds(field));
    if free_of(field, ',') {
        lemma_fields_keep_free(field, '.', ',');
        assert(free_of(ms, ',')) by {
            assert forall|i: int| 0 <= i < ms.len() implies ms[i] != ',' by {
                assert(is_digit(ms[i]));
            }
        }
        lemma_split_pair(day, ms, ',');
    }
}

/// A field of a split holds no character that the whole does not hold.
pub proof fn lemma_fields_keep_free(s: Seq<char>, d: char, c: char)
    requires
        free_of(s, c),
    ensures
        forall|k: int| 0 <= k < split(s, d).len() ==> free_of(#[trigger] split(s, d)[k], c),
    decreases s.len(),
{
    if s.len() > 0 {
        crate::text::lemma_split_nonempty(s.drop_last(), d);
        lemma_fields_keep_free(s.drop_last(), d, c);
    }
}

} // verus!
