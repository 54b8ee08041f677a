//! Building and searching text: decimal and hexadecimal numbers, substring
//! search, and the blank test.
use vstd::prelude::*;
use vstd::string::*;

verus! {

/// The character of a digit below sixteen, lower case.
pub open spec fn digit_char(d: int) -> char {
    if d < 10 {
        (48 + d) as char
    } else {
        (87 + d) as char
    }
}

/// A number in decimal, without leading zeros.
pub open spec fn decimal(n: nat) -> Seq<char>
    decreases n,
{
    if n < 10 {
        seq![digit_char(n as int)]
    } else {
        decimal(n / 10).push(digit_char((n % 10) as int))
    }
}

/// A signed number in decimal.
pub open spec fn signed_decimal(n: int) -> Seq<char> {
    if n < 0 {
        seq!['-'] + decimal((-n) as nat)
    } else {
        decimal(n as nat)
    }
}

/// Bytes as pairs of hexadecimal digits, high digit first.
pub open spec fn hex(bytes: Seq<u8>) -> Seq<char>
    decreases bytes.len(),
{
    if bytes.len() == 0 {
        seq![]
    } else {
        hex(bytes.drop_last()) + seq![
            digit_char(bytes.last() as int / 16),
            digit_char(bytes.last() as int % 16),
        ]
    }
}

fn digit(d: u8) -> (s: &'static str)
    requires
        d < 16,
    ensures
        s@ == seq![digit_char(d as int)],
{
    proof {
        reveal_strlit("0");
        reveal_strlit("1");
        reveal_strlit("2");
        reveal_strlit("3");
        reveal_strlit("4");
        reveal_strlit("5");
        reveal_strlit("6");
        reveal_strlit("7");
        reveal_strlit("8");
        reveal_strlit("9");
        reveal_strlit("a");
        reveal_strlit("b");
        reveal_strlit("c");
        reveal_strlit("d");
        reveal_strlit("e");
        reveal_strlit("f");
    }
    let s: &'static str = match d {
        0 => "0",
        1 => "1",
        2 => "2",
        3 => "3",
        4 => "4",
        5 => "5",
        6 => "6",
        7 => "7",
        8 => "8",
        9 => "9",
        10 => "a",
        11 => "b",
        12 => "c",
        13 => "d",
        14 => "e",
        _ => "f",
    };
    assert(s@ =~= seq![digit_char(d as int)]);
    s
}

/// Append `n` in decimal.
pub fn push_decimal(text: &mut String, n: u64)
    ensures
        final(text)@ == old(text)@ + decimal(n as nat),
    decreases n,
{
    if n >= 10 {
        push_decimal(text, n / 10);
    }
    let ghost before = text@;
    text.append(digit((n % 10) as u8));
    assert(text@ =~= before.push(digit_char((n % 10) as int)));
    assert(text@ =~= old(text)@ + decimal(n as nat));
}

/// Append `n` in decimal, with a minus sign when it is negative.
pub fn push_signed(text: &mut String, n: i64)
    ensures
        final(text)@ == old(text)@ + signed_decimal(n as int),
{
    if n < 0 {
        proof {
            reveal_strlit("-");
        }
        text.append("-");
        let magnitude: u64 = (-(n as i128)) as u64;
        push_decimal(text, magnitude);
        assert("-"@ =~= seq!['-']);
        assert(text@ =~= old(text)@ + signed_decimal(n as int));
    } else {
        push_decimal(text, n as u64);
    }
}

/// Append `bytes` as pairs of hexadecimal digits.
pub fn push_hex(text: &mut String, bytes: &[u8])
    ensures
        final(text)@ == old(text)@ + hex(bytes@),
{
    let mut i: usize = 0;
    assert(text@ =~= old(text)@ + hex(bytes@.take(0)));
    while i < bytes.len()
        invariant
            i <= bytes@.len(),
            text@ == old(text)@ + hex(bytes@.take(i as int)),
        decreases bytes@.len() - i,
    {
        let b: u8 = bytes[i];
        let ghost before = text@;
        text.append(digit(b / 16));
        text.append(digit(b % 16));
        proof {
            assert(bytes@.take(i + 1).drop_last() =~= bytes@.take(i as int));
            assert(bytes@.take(i + 1).last() == b);
            assert(text@ =~= old(text)@ + hex(bytes@.take(i + 1)));
        }
        i += 1;
    }
    assert(bytes@.take(i as int) =~= bytes@);
}

/// Whether two texts hold the same characters.
pub fn same_text(a: &str, b: &str) -> (same: bool)
    ensures
        same == (a@ == b@),
{
    a.to_owned() == b.to_owned()
}

/// `needle` stands in `hay`, starting at character `at`.
pub open spec fn stands_at(hay: Seq<char>, needle: Seq<char>, at: int) -> bool {
    0 <= at && at + needle.len() <= hay.len() && hay.subrange(at, at + needle.len()) == needle
}

/// `needle` stands somewhere in `hay`.
pub open spec fn contains_text(hay: Seq<char>, needle: Seq<char>) -> bool {
    exists|at: int| #[trigger] stands_at(hay, needle, at)
}

/// Whether `needle` stands somewhere in `hay`.
pub fn contains(hay: &str, needle: &str) -> (found: bool)
    ensures
        found == contains_text(hay@, needle@),
{
    let total: usize = hay.unicode_len();
    let width: usize = needle.unicode_len();
    if width > total {
        assert(forall|at: int| !stands_at(hay@, needle@, at));
        return false;
    }
    if width == 0 {
        assert(hay@.subrange(0, 0) =~= needle@);
        assert(stands_at(hay@, needle@, 0));
        return true;
    }
    let mut at: usize = 0;
    while at <= total - width
        invariant
            total == hay@.len(),
            width == needle@.len(),
            0 < width <= total,
            at <= total - width + 1,
            forall|k: int| k < at ==> !stands_at(hay@, needle@, k),
        decreases total - width + 1 - at,
    {
        if same_text(hay.substring_char(at, at + width), needle) {
            assert(stands_at(hay@, needle@, at as int));
            return true;
        }
        assert(!stands_at(hay@, needle@, at as int));
        at += 1;
    }
    false
}

/// The characters that the Unicode standard lists as white space.
pub open spec fn is_white_space(c: char) -> bool {
    let n = c as int;
    ||| 0x9 <= n <= 0xd
    ||| n == 0x20
    ||| n == 0x85
    ||| n == 0xa0
    ||| n == 0x1680
    ||| 0x2000 <= n <= 0x200a
    ||| n == 0x2028
    ||| n == 0x2029
    ||| n == 0x202f
    ||| n == 0x205f
    ||| n == 0x3000
}

/// White space only, or nothing at all.
pub open spec fn is_blank_text(text: Seq<char>) -> bool {
    forall|i: int| 0 <= i < text.len() ==> is_white_space(#[trigger] text[i])
}

/// Whether `text` holds nothing but white space.
pub fn is_blank(text: &str) -> (blank: bool)
    ensures
        blank == is_blank_text(text@),
{
    let total: usize = text.unicode_len();
    let mut i: usize = 0;
    while i < total
        invariant
            total == text@.len(),
            i <= total,
            forall|k: int| 0 <= k < i ==> is_white_space(#[trigger] text@[k]),
        decreases total - i,
    {
        let n: u32 = text.get_char(i) as u32;
        let space: bool = (0x9 <= n && n <= 0xd) || n == 0x20 || n == 0x85 || n == 0xa0 || n
            == 0x1680 || (0x2000 <= n && n <= 0x200a) || n == 0x2028 || n == 0x2029 || n == 0x202f
            || n == 0x205f || n == 0x3000;
        assert(space == is_white_space(text@[i as int]));
        if !space {
            return false;
        }
        i += 1;
    }
    true
}

/// The number that decimal digits spell, most significant first.
pub open spec fn spelled(digits: Seq<char>) -> int
    decreases digits.len(),
{
    if digits.len() == 0 {
        0
    } else {
        10 * spelled(digits.drop_last()) + (digits.last() as int - '0' as int)
    }
}

/// A number in decimal has only decimal digits, does not start with a zero
/// unless it is zero, and spells that very number.
pub proof fn law_decimals_spell_their_number(n: nat)
    ensures
        decimal(n).len() > 0,
        spelled(decimal(n)) == n,
        forall|i: int| 0 <= i < decimal(n).len() ==> '0' <= #[trigger] decimal(n)[i] <= '9',
        n > 0 ==> decimal(n)[0] != '0',
        n == 0 ==> decimal(n) == seq!['0'],
    decreases n,
{
    reveal_with_fuel(spelled, 2);
    let text = decimal(n);
    if n < 10 {
        assert(text.len() == 1);
        assert(text.drop_last() =~= Seq::<char>::empty());
    } else {
        law_decimals_spell_their_number(n / 10);
        assert(text.drop_last() =~= decimal(n / 10));
        assert forall|i: int| 0 <= i < text.len() implies '0' <= #[trigger] text[i] <= '9' by {
            if i < text.len() - 1 {
                assert(text[i] == decimal(n / 10)[i]);
            }
        }
        assert(text[0] == decimal(n / 10)[0]);
    }
}

/// A negative number is a minus sign before its magnitude, and any other is its
/// digits alone.
pub proof fn law_signs_stand_in_front(n: int)
    ensures
        n >= 0 ==> signed_decimal(n) == decimal(n as nat),
        n < 0 ==> signed_decimal(n) == seq!['-'] + decimal((-n) as nat),
{
}

/// The number that one hexadecimal digit stands for.
pub open spec fn digit_value(c: char) -> int {
    if c <= '9' {
        c as int - '0' as int
    } else {
        c as int - 'a' as int + 10
    }
}

/// Every byte is two digits, the upper half first, and they stand for it. So two
/// byte strings with one text are the same.
pub proof fn law_hex_digits_stand_for_their_byte(bytes: Seq<u8>)
    ensures
        hex(bytes).len() == 2 * bytes.len(),
        forall|k: int|
            0 <= k < bytes.len() ==> #[trigger] bytes[k] == 16 * digit_value(hex(bytes)[2 * k])
                + digit_value(hex(bytes)[2 * k + 1]),
        forall|i: int|
            0 <= i < hex(bytes).len() ==> ('0' <= #[trigger] hex(bytes)[i] <= '9') || ('a'
                <= hex(bytes)[i] <= 'f'),
    decreases bytes.len(),
{
    if bytes.len() > 0 {
        let shorter = bytes.drop_last();
        law_hex_digits_stand_for_their_byte(shorter);
        let text = hex(bytes);
        assert forall|k: int| 0 <= k < bytes.len() implies #[trigger] bytes[k] == 16 * digit_value(
            text[2 * k],
        ) + digit_value(text[2 * k + 1]) by {
            if k < shorter.len() {
                assert(shorter[k] == bytes[k]);
                assert(text[2 * k] == hex(shorter)[2 * k]);
                assert(text[2 * k + 1] == hex(shorter)[2 * k + 1]);
            }
        }
        assert forall|i: int| 0 <= i < text.len() implies ('0' <= #[trigger] text[i] <= '9') || (
        'a' <= text[i] <= 'f') by {
            if i < hex(shorter).len() {
                assert(text[i] == hex(shorter)[i]);
            }
        }
    }
}

/// A text holds another exactly when it is that text with something before and
/// something behind it.
pub proof fn law_a_text_holds_its_middle(
    before: Seq<char>,
    needle: Seq<char>,
    behind: Seq<char>,
    hay: Seq<char>,
)
    ensures
        contains_text(before + needle + behind, needle),
        contains_text(hay, needle) ==> exists|a: Seq<char>, b: Seq<char>|
            hay == #[trigger] (a + needle + b),
{
    let whole = before + needle + behind;
    let at = before.len() as int;
    assert(whole.subrange(at, at + needle.len()) =~= needle);
    assert(stands_at(whole, needle, at));
    if contains_text(hay, needle) {
        let at = choose|at: int| #[trigger] stands_at(hay, needle, at);
        let (a, b) = (hay.take(at), hay.skip(at + needle.len()));
        assert(hay =~= a + needle + b);
    }
}

/// A text still holds what it held when more is written behind it.
pub proof fn law_a_longer_text_still_holds(hay: Seq<char>, behind: Seq<char>, needle: Seq<char>)
    requires
        contains_text(hay, needle),
    ensures
        contains_text(hay + behind, needle),
{
    let at = choose|at: int| #[trigger] stands_at(hay, needle, at);
    let whole = hay + behind;
    assert(whole.subrange(at, at + needle.len()) =~= hay.subrange(at, at + needle.len()));
    assert(stands_at(whole, needle, at));
}

/// Two texts put together are blank exactly when both are, nothing is blank, and
/// no printable ASCII character is.
pub proof fn law_blanks_join(a: Seq<char>, b: Seq<char>, c: char)
    ensures
        is_blank_text(a + b) <==> is_blank_text(a) && is_blank_text(b),
        is_blank_text(Seq::empty()),
        '!' <= c <= '~' ==> !is_blank_text(seq![c]),
        is_blank_text(seq![' ']),
{
    if is_blank_text(a + b) {
        assert forall|i: int| 0 <= i < a.len() implies is_white_space(#[trigger] a[i]) by {
            assert((a + b)[i] == a[i]);
        }
        assert forall|i: int| 0 <= i < b.len() implies is_white_space(#[trigger] b[i]) by {
            assert((a + b)[a.len() + i] == b[i]);
        }
    }
    if '!' <= c <= '~' {
        assert(!is_white_space(seq![c][0]));
    }
}

/// The blanks are the control characters from the tab to the carriage return, the
/// space, the next-line and no-break spaces, and the spaces and separators of the
/// general punctuation, Ogham and ideographic blocks.
pub proof fn law_blanks_are_the_unicode_spaces(c: char)
    ensures
        is_blank_text(seq![c]) <==> {
            ||| '\t' <= c <= '\r'
            ||| c == ' '
            ||| c as int == 0x85
            ||| c as int == 0xa0
            ||| c as int == 0x1680
            ||| 0x2000 <= c as int <= 0x200a
            ||| c as int == 0x2028
            ||| c as int == 0x2029
            ||| c as int == 0x202f
            ||| c as int == 0x205f
            ||| c as int == 0x3000
        },
{
    assert(seq![c][0] == c);
    if is_white_space(c) {
        assert(is_blank_text(seq![c]));
    } else {
        assert(!is_white_space(seq![c][0]));
    }
}

} // verus!
