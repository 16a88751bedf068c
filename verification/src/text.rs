//! Text: writing numbers in decimal and in upper-case hexadecimal digits,
//! and reading a text by its characters.

use vstd::prelude::*;
use vstd::std_specs::iter::IteratorSpec;

verus! {

/// `String::push` of the standard library appends one character to the end
/// of the string and changes nothing else.
pub assume_specification[ String::push ](s: &mut String, ch: char)
    ensures
        final(s)@ == old(s)@.push(ch),
;

/// The sixteen hexadecimal digits in upper case, in order of their value.
pub const HEX_DIGITS: &'static str = "0123456789ABCDEF";

/// The digit of value `n`.
pub open spec fn digit(n: int) -> char
    recommends
        0 <= n < 16,
{
    HEX_DIGITS@[n]
}

/// The digits of a number to the base `radix`, which is 16 or else taken
/// as 10, most significant first, without leading zeros; the single digit
/// 0 for zero.
pub open spec fn digits(value: nat, radix: nat) -> Seq<char>
    decreases value,
{
    if radix == 16 {
        if value < 16 {
            seq![digit(value as int)]
        } else {
            digits(value / 16, 16).push(digit(value as int % 16))
        }
    } else {
        if value < 10 {
            seq![digit(value as int)]
        } else {
            digits(value / 10, 10).push(digit(value as int % 10))
        }
    }
}

/// A text with zeros before it, as many as it is shorter than `width`.
pub open spec fn zero_padded(text: Seq<char>, width: nat) -> Seq<char> {
    if text.len() >= width {
        text
    } else {
        Seq::new((width - text.len()) as nat, |k: int| '0') + text
    }
}

/// The decimal digits of a number.
pub open spec fn decimal(value: nat) -> Seq<char> {
    digits(value, 10)
}

/// A number in upper-case hexadecimal digits, at least `width` of them.
pub open spec fn upper_hex(value: nat, width: nat) -> Seq<char> {
    zero_padded(digits(value, 16), width)
}

/// Two upper-case hexadecimal digits for each byte, in the order of the
/// bytes.
pub open spec fn hex_upper(bytes: Seq<u8>) -> Seq<char>
    decreases bytes.len(),
{
    if bytes.len() == 0 {
        Seq::empty()
    } else {
        hex_upper(bytes.drop_last()) + upper_hex(bytes.last() as nat, 2)
    }
}

/// The digit of value `n` as a character.
pub fn digit_char(n: u8) -> (c: char)
    requires
        n < 16,
    ensures
        c == digit(n as int),
{
    proof {
        reveal_strlit("0123456789ABCDEF");
    }
    HEX_DIGITS.get_char(n as usize)
}

/// Appends `value` to `out`, in digits to the base `radix`, with zeros
/// before them where they are fewer than `min_width`.
pub fn push_number(out: &mut String, value: u64, radix: u64, min_width: usize)
    requires
        radix == 10 || radix == 16,
    ensures
        final(out)@ == old(out)@ + zero_padded(digits(value as nat, radix as nat), min_width as nat),
{
    let mut reversed: Vec<u8> = Vec::new();
    let mut rest: u64 = value;
    reversed.push((rest % radix) as u8);
    rest = rest / radix;
    proof {
        assert(radix == 16 ==> value % radix == value % 16 && value / radix == value / 16);
        assert(radix == 10 ==> value % radix == value % 10 && value / radix == value / 10);
        assert(backwards(reversed@) =~= seq![digit(value as int % radix as int)]);
        if rest > 0 {
            assert(digits(value as nat, radix as nat) =~= digits(rest as nat, radix as nat)
                + backwards(reversed@));
        }
    }
    while rest > 0
        invariant
            radix == 10 || radix == 16,
            reversed@.len() >= 1,
            forall|j: int| 0 <= j < reversed@.len() ==> #[trigger] reversed@[j] < 16,
            digits(value as nat, radix as nat) == if rest > 0 {
                digits(rest as nat, radix as nat) + backwards(reversed@)
            } else {
                backwards(reversed@)
            },
        decreases rest,
    {
        let ghost before = reversed@;
        reversed.push((rest % radix) as u8);
        proof {
            assert(radix == 16 ==> rest % radix == rest % 16 && rest / radix == rest / 16);
            assert(radix == 10 ==> rest % radix == rest % 10 && rest / radix == rest / 10);
            assert(backwards(reversed@) =~= seq![digit(rest as int % radix as int)] + backwards(
                before,
            ));
            if rest >= radix {
                assert(digits(rest as nat, radix as nat) + backwards(before) =~= digits(
                    (rest / radix) as nat,
                    radix as nat,
                ) + backwards(reversed@));
            } else {
                assert(digits(rest as nat, radix as nat) + backwards(before) =~= backwards(
                    reversed@,
                ));
            }
        }
        rest = rest / radix;
    }
    let ghost start = out@;
    let n = reversed.len();
    let mut zeros: usize = 0;
    while zeros + n < min_width
        invariant
            n == reversed@.len(),
            zeros <= min_width,
            zeros > 0 ==> zeros + n <= min_width,
            n >= 1,
            out@ == start + Seq::new(zeros as nat, |k: int| '0'),
        decreases min_width - zeros,
    {
        out.push('0');
        proof {
            assert(out@ =~= start + Seq::new((zeros + 1) as nat, |k: int| '0'));
        }
        zeros = zeros + 1;
    }
    let ghost padded = out@;
    let mut i: usize = 0;
    while i < n
        invariant
            i <= n == reversed@.len(),
            forall|j: int| 0 <= j < n ==> #[trigger] reversed@[j] < 16,
            out@ == padded + backwards(reversed@).take(i as int),
        decreases n - i,
    {
        out.push(digit_char(reversed[n - 1 - i]));
        proof {
            assert(out@ =~= padded + backwards(reversed@).take(i + 1));
        }
        i = i + 1;
    }
    proof {
        let text = digits(value as nat, radix as nat);
        assert(backwards(reversed@).take(n as int) =~= text);
        assert(text.len() == n);
        if n >= min_width {
            assert(zeros == 0);
            assert(padded =~= start);
        } else {
            assert(zeros == min_width - n);
        }
        assert(out@ =~= start + zero_padded(text, min_width as nat));
    }
}

/// The digits of a sequence of values, the last value first.
pub open spec fn backwards(values: Seq<u8>) -> Seq<char> {
    Seq::new(values.len(), |j: int| digit(values[values.len() - 1 - j] as int))
}

/// Upper-case hexadecimal text of a byte slice.
pub fn to_hex_upper(bytes: &[u8]) -> (text: String)
    ensures
        text@ == hex_upper(bytes@),
{
    let mut text = String::new();
    let mut i: usize = 0;
    while i < bytes.len()
        invariant
            i <= bytes@.len(),
            text@ == hex_upper(bytes@.take(i as int)),
        decreases bytes@.len() - i,
    {
        push_number(&mut text, bytes[i] as u64, 16, 2);
        proof {
            assert(bytes@.take(i + 1).drop_last() =~= bytes@.take(i as int));
        }
        i = i + 1;
    }
    assert(bytes@.take(bytes@.len() as int) =~= bytes@);
    text
}

/// Whether a character is white space, as Unicode defines it.
pub open spec fn is_white_space(c: char) -> bool {
    let code = c as u32;
    ||| 0x09 <= code <= 0x0D
    ||| code == 0x20
    ||| code == 0x85
    ||| code == 0xA0
    ||| code == 0x1680
    ||| 0x2000 <= code <= 0x200A
    ||| code == 0x2028
    ||| code == 0x2029
    ||| code == 0x202F
    ||| code == 0x205F
    ||| code == 0x3000
}

/// Whether a character is white space.
pub fn white_space(c: char) -> (yes: bool)
    ensures
        yes == is_white_space(c),
{
    let code = c as u32;
    (0x09 <= code && code <= 0x0D) || code == 0x20 || code == 0x85 || code == 0xA0 || code
        == 0x1680 || (0x2000 <= code && code <= 0x200A) || code == 0x2028 || code == 0x2029
        || code == 0x202F || code == 0x205F || code == 0x3000
}

/// The characters of a text.
pub fn chars_of(text: &str) -> (chars: Vec<char>)
    ensures
        chars@ == text@,
{
    let mut chars: Vec<char> = Vec::new();
    for c in it: text.chars()
        invariant
            chars@ == it.seq().take(it.index() as int),
    {
        chars.push(c);
    }
    proof {
        let all = vstd::string::spec_iter(text).remaining();
        assert(chars@ =~= all);
    }
    chars
}

/// The characters from `from` up to `to` as a text.
pub fn text_from(chars: &[char], from: usize, to: usize) -> (text: String)
    requires
        from <= to <= chars@.len(),
    ensures
        text@ == chars@.subrange(from as int, to as int),
{
    let mut text = String::new();
    let mut k: usize = from;
    while k < to
        invariant
            from <= k <= to <= chars@.len(),
            text@ == chars@.subrange(from as int, k as int),
        decreases to - k,
    {
        text.push(chars[k]);
        proof {
            assert(text@ =~= chars@.subrange(from as int, k + 1));
        }
        k = k + 1;
    }
    text
}

/// Where the white space at the start of a text ends, looking from `from`
/// on.
pub open spec fn blank_start(text: Seq<char>, from: int) -> int
    decreases text.len() - from,
{
    if 0 <= from < text.len() && is_white_space(text[from]) {
        blank_start(text, from + 1)
    } else {
        from
    }
}

/// Where the white space at the end of a text starts, looking at the first
/// `upto` characters.
pub open spec fn blank_end(text: Seq<char>, upto: int) -> int
    decreases upto,
{
    if 0 < upto <= text.len() && is_white_space(text[upto - 1]) {
        blank_end(text, upto - 1)
    } else {
        upto
    }
}

/// A text without the white space at its start and at its end.
pub open spec fn trimmed(text: Seq<char>) -> Seq<char> {
    let start = blank_start(text, 0);
    if start >= text.len() {
        Seq::empty()
    } else {
        text.subrange(start, blank_end(text, text.len() as int))
    }
}

/// The bounds of what is left of the characters from `from` up to `to`
/// when the white space at both ends is taken away.
pub fn trim_range(chars: &[char], from: usize, to: usize) -> (bounds: (usize, usize))
    requires
        from <= to <= chars@.len(),
    ensures
        from <= bounds.0 <= bounds.1 <= to,
        chars@.subrange(bounds.0 as int, bounds.1 as int) == trimmed(
            chars@.subrange(from as int, to as int),
        ),
{
    let ghost part = chars@.subrange(from as int, to as int);
    let mut start: usize = from;
    while start < to && white_space(chars[start])
        invariant
            from <= start <= to <= chars@.len(),
            part == chars@.subrange(from as int, to as int),
            blank_start(part, 0) == blank_start(part, start - from),
        decreases to - start,
    {
        start = start + 1;
    }
    if start >= to {
        proof {
            assert(chars@.subrange(to as int, to as int) =~= Seq::empty());
        }
        return (to, to);
    }
    let mut end: usize = to;
    while end > start && white_space(chars[end - 1])
        invariant
            from <= start < end <= to <= chars@.len(),
            part == chars@.subrange(from as int, to as int),
            !is_white_space(chars@[start as int]),
            blank_end(part, part.len() as int) == blank_end(part, end - from),
        decreases end,
    {
        end = end - 1;
    }
    proof {
        assert(part[end - from - 1] == chars@[end - 1]);
        assert(chars@.subrange(start as int, end as int) =~= part.subrange(
            start - from,
            end - from,
        ));
    }
    (start, end)
}

/// The first place from `from` on at which `c` stands in a text, and the
/// length of the text if there is none.
pub open spec fn place_of(text: Seq<char>, c: char, from: int) -> int
    decreases text.len() - from,
{
    if from < 0 || from >= text.len() {
        text.len() as int
    } else if text[from] == c {
        from
    } else {
        place_of(text, c, from + 1)
    }
}

/// The first place at which `c` stands among the characters from `from` up
/// to `to`, and `to` if there is none.
pub fn find_char(chars: &[char], c: char, from: usize, to: usize) -> (place: usize)
    requires
        from <= to <= chars@.len(),
    ensures
        from <= place <= to,
        place - from == place_of(chars@.subrange(from as int, to as int), c, 0),
        place == place_of(chars@.take(to as int), c, from as int),
        place < to ==> chars@[place as int] == c,
{
    let ghost part = chars@.subrange(from as int, to as int);
    let ghost whole = chars@.take(to as int);
    let mut place: usize = from;
    while place < to && chars[place] != c
        invariant
            from <= place <= to <= chars@.len(),
            part == chars@.subrange(from as int, to as int),
            whole == chars@.take(to as int),
            place_of(part, c, 0) == place_of(part, c, place - from),
            place_of(whole, c, from as int) == place_of(whole, c, place as int),
        decreases to - place,
    {
        place = place + 1;
    }
    proof {
        if place < to {
            assert(part[place - from] == chars@[place as int]);
        }
    }
    place
}

/// Whether a text starts with another.
pub open spec fn starts_with(text: Seq<char>, prefix: Seq<char>) -> bool {
    prefix.len() <= text.len() && text.take(prefix.len() as int) == prefix
}

/// Whether the characters from `from` up to `to` start with `prefix`.
pub fn has_prefix(chars: &[char], from: usize, to: usize, prefix: &[char]) -> (yes: bool)
    requires
        from <= to <= chars@.len(),
    ensures
        yes == starts_with(chars@.subrange(from as int, to as int), prefix@),
{
    let ghost part = chars@.subrange(from as int, to as int);
    let n = prefix.len();
    if n > to - from {
        return false;
    }
    let mut k: usize = 0;
    while k < n
        invariant
            from <= to <= chars@.len(),
            k <= n == prefix@.len(),
            n <= to - from,
            part == chars@.subrange(from as int, to as int),
            part.take(k as int) == prefix@.take(k as int),
        decreases n - k,
    {
        if chars[from + k] != prefix[k] {
            proof {
                assert(part.take(n as int)[k as int] != prefix@[k as int]);
            }
            return false;
        }
        proof {
            assert(part.take(k + 1) =~= part.take(k as int).push(part[k as int]));
            assert(prefix@.take(k + 1) =~= prefix@.take(k as int).push(prefix@[k as int]));
        }
        k = k + 1;
    }
    proof {
        assert(prefix@.take(n as int) =~= prefix@);
    }
    true
}

} // verus!
