// SPDX-License-Identifier: Apache-2.0
//! Building and taking apart the texts that URLs, paths and errors are made of.

use vstd::prelude::*;
use vstd::string::*;
use vstd::utf8;

verus! {

/// The decimal digit of a number below ten.
pub open spec fn digit(n: nat) -> char {
    (n + 48) as char
}

/// The decimal numeral of `n`, without leading zeros.
pub open spec fn decimal(n: nat) -> Seq<char>
    decreases n,
{
    if n < 10 {
        seq![digit(n)]
    } else {
        decimal(n / 10).push(digit(n % 10))
    }
}

/// Numbers with the same numeral are the same.
pub proof fn lemma_decimal_injective(a: nat, b: nat)
    requires
        decimal(a) == decimal(b),
    ensures
        a == b,
    decreases a,
{
    lemma_decimal_len(a);
    lemma_decimal_len(b);
    assert(decimal(a).last() == digit(a % 10));
    assert(decimal(b).last() == digit(b % 10));
    if a >= 10 {
        assert(decimal(a).drop_last() =~= decimal(a / 10));
        assert(decimal(b).drop_last() =~= decimal(b / 10));
        lemma_decimal_injective(a / 10, b / 10);
    }
}

/// A numeral is made of digits.
pub proof fn lemma_decimal_digits(n: nat)
    ensures
        decimal(n).len() > 0,
        forall|i: int| 0 <= i < decimal(n).len() ==> '0' <= #[trigger] decimal(n)[i] <= '9',
    decreases n,
{
    if n >= 10 {
        lemma_decimal_digits(n / 10);
    }
}

proof fn lemma_decimal_len(n: nat)
    ensures
        decimal(n).len() >= 1,
        decimal(n).len() == 1 <==> n < 10,
    decreases n,
{
    if n >= 10 {
        lemma_decimal_len(n / 10);
    }
}

fn digit_str(n: u8) -> (text: &'static str)
    requires
        n < 10,
    ensures
        text@ == seq![digit(n as nat)],
{
    proof {
        reveal_strlit("0");
        reveal_strlit("1");
        reveal_strlit("2");
        reveal_strlit("3");
        reveal_strlit("4");
        reveal_strlit("5");
        reveal_strlit("6");
        reveal_strlit("7");
        reveal_strlit("8");
        reveal_strlit("9");
    }
    let text = match n {
        0 => "0",
        1 => "1",
        2 => "2",
        3 => "3",
        4 => "4",
        5 => "5",
        6 => "6",
        7 => "7",
        8 => "8",
        _ => "9",
    };
    assert(text@ =~= seq![digit(n as nat)]);
    text
}

/// The decimal numeral of `n` as a `String`.
pub fn decimal_string(n: u128) -> (numeral: String)
    ensures
        numeral@ == decimal(n as nat),
    decreases n,
{
    if n < 10 {
        digit_str(n as u8).to_owned()
    } else {
        let mut numeral = decimal_string(n / 10);
        let last = digit_str((n % 10) as u8);
        numeral.append(last);
        assert(numeral@ =~= decimal((n / 10) as nat).push(digit((n % 10) as nat)));
        numeral
    }
}

/// Where `wanted` first stands in `text`.
pub open spec fn first_index(text: Seq<char>, wanted: char) -> Option<nat>
    decreases text.len(),
{
    if text.len() == 0 {
        None
    } else if text[0] == wanted {
        Some(0)
    } else {
        match first_index(text.drop_first(), wanted) {
            Some(i) => Some(i + 1),
            None => None,
        }
    }
}

/// The first of two stretches holds no `wanted`, so the index counts from its end.
proof fn lemma_first_index_skips(text: Seq<char>, wanted: char, n: nat)
    requires
        n <= text.len(),
        forall|i: int| 0 <= i < n ==> text[i] != wanted,
    ensures
        first_index(text, wanted) == (match first_index(text.skip(n as int), wanted) {
            Some(i) => Some(i + n),
            None => None,
        }),
    decreases n,
{
    if n == 0 {
        assert(text.skip(0) =~= text);
    } else {
        assert(text[0] != wanted);
        let rest = text.drop_first();
        assert forall|i: int| 0 <= i < n - 1 implies rest[i] != wanted by {
            assert(text[i + 1] != wanted);
        }
        lemma_first_index_skips(rest, wanted, (n - 1) as nat);
        assert(rest.skip(n - 1) =~= text.skip(n as int));
    }
}

/// A character has a first index exactly where the text holds it.
pub proof fn lemma_first_index_tells(text: Seq<char>, wanted: char)
    ensures
        first_index(text, wanted) is Some <==> text.contains(wanted),
    decreases text.len(),
{
    if text.len() > 0 {
        let rest = text.drop_first();
        lemma_first_index_tells(rest, wanted);
        if text.contains(wanted) && text[0] != wanted {
            let i = choose|i: int| 0 <= i < text.len() && text[i] == wanted;
            assert(rest[i - 1] == wanted);
        }
        if rest.contains(wanted) {
            let i = choose|i: int| 0 <= i < rest.len() && rest[i] == wanted;
            assert(text[i + 1] == wanted);
        }
        if text[0] == wanted {
            assert(text.contains(wanted));
        }
    }
}

/// Where `wanted` first stands in `text`, counting characters.
pub fn find_char(text: &str, wanted: char) -> (r: Option<usize>)
    ensures
        match first_index(text@, wanted) {
            Some(i) => r == Some(i as usize) && i < text@.len() && i <= usize::MAX,
            None => r is None,
        },
{
    let len: usize = text.unicode_len();
    let mut i: usize = 0;
    let mut chars = text.chars();
    while i < len
        invariant
            i <= len,
            len == text@.len(),
            vstd::std_specs::iter::IteratorSpec::remaining(&chars) == text@.skip(i as int),
            forall|j: int| 0 <= j < i ==> text@[j] != wanted,
        decreases len - i,
    {
        let next = chars.next();
        assert(text@.skip(i as int).drop_first() =~= text@.skip(i + 1));
        match next {
            Some(c) => {
                if c == wanted {
                    proof {
                        lemma_first_index_skips(text@, wanted, i as nat);
                    }
                    return Some(i);
                }
            },
            None => {},
        }
        i = i + 1;
    }
    proof {
        lemma_first_index_skips(text@, wanted, i as nat);
        assert(text@.skip(i as int) =~= Seq::<char>::empty());
    }
    None
}

/// `text` begins with `prefix`.
pub fn begins_with(text: &str, prefix: &str) -> (r: bool)
    ensures
        r == prefix@.is_prefix_of(text@),
{
    let len: usize = prefix.unicode_len();
    if text.unicode_len() < len {
        return false;
    }
    let head = text.substring_char(0, len);
    head.to_owned() == prefix.to_owned()
}

/// `text` ends with `suffix`.
pub fn ends_in(text: &str, suffix: &str) -> (r: bool)
    ensures
        r == suffix@.is_suffix_of(text@),
{
    let len: usize = text.unicode_len();
    let less: usize = suffix.unicode_len();
    if len < less {
        return false;
    }
    let tail = text.substring_char(len - less, len);
    tail.to_owned() == suffix.to_owned()
}

/// A hexadecimal digit, in lower case.
pub open spec fn hex_digit(n: nat) -> char {
    if n < 10 {
        digit(n)
    } else {
        (n + 87) as char
    }
}

/// The four hexadecimal digits of `n`.
pub open spec fn four_hex(n: u16) -> Seq<char> {
    seq![
        hex_digit(n as nat / 4096),
        hex_digit(n as nat / 256 % 16),
        hex_digit(n as nat / 16 % 16),
        hex_digit(n as nat % 16),
    ]
}

fn hex_str(n: u16) -> (text: &'static str)
    requires
        n < 16,
    ensures
        text@ == seq![hex_digit(n as nat)],
{
    if n < 10 {
        return digit_str(n as u8);
    }
    proof {
        reveal_strlit("a");
        reveal_strlit("b");
        reveal_strlit("c");
        reveal_strlit("d");
        reveal_strlit("e");
        reveal_strlit("f");
    }
    let text = match n {
        10 => "a",
        11 => "b",
        12 => "c",
        13 => "d",
        14 => "e",
        _ => "f",
    };
    assert(text@ =~= seq![hex_digit(n as nat)]);
    text
}

/// The four hexadecimal digits of `n` as a `String`.
pub fn four_hex_string(n: u16) -> (digits: String)
    ensures
        digits@ == four_hex(n),
{
    let mut digits = hex_str(n / 4096).to_owned();
    digits.append(hex_str(n / 256 % 16));
    digits.append(hex_str(n / 16 % 16));
    digits.append(hex_str(n % 16));
    assert(digits@ =~= four_hex(n));
    digits
}

/// Two numbers with the same four digits are the same.
pub proof fn lemma_four_hex_injective(a: u16, b: u16)
    requires
        four_hex(a) == four_hex(b),
    ensures
        a == b,
{
    let (x, y) = (four_hex(a), four_hex(b));
    assert(x[0] == y[0] && x[1] == y[1] && x[2] == y[2] && x[3] == y[3]);
    lemma_digits_make_up(a as nat);
    lemma_digits_make_up(b as nat);
    lemma_hex_digit_injective(a as nat / 4096, b as nat / 4096);
    lemma_hex_digit_injective(a as nat / 256 % 16, b as nat / 256 % 16);
    lemma_hex_digit_injective(a as nat / 16 % 16, b as nat / 16 % 16);
    lemma_hex_digit_injective(a as nat % 16, b as nat % 16);
}

proof fn lemma_digits_make_up(n: nat)
    ensures
        n == n / 4096 * 4096 + n / 256 % 16 * 256 + n / 16 % 16 * 16 + n % 16,
{
    let (q, r, t) = (n / 16, n / 256, n / 4096);
    assert(q / 16 == r);
    assert(r / 16 == t);
    assert(n == q * 16 + n % 16);
    assert(q == r * 16 + q % 16);
    assert(r == t * 16 + r % 16);
}

proof fn lemma_hex_digit_injective(a: nat, b: nat)
    requires
        a < 16,
        b < 16,
        hex_digit(a) == hex_digit(b),
    ensures
        a == b,
{
}

/// A text is encoded character by character.
pub proof fn lemma_encoding_concatenates(a: Seq<char>, b: Seq<char>)
    ensures
        utf8::encode_utf8(a + b) == utf8::encode_utf8(a) + utf8::encode_utf8(b),
    decreases a.len(),
{
    if a.len() == 0 {
        assert(a + b =~= b);
        assert(utf8::encode_utf8(a) + utf8::encode_utf8(b) =~= utf8::encode_utf8(b));
    } else {
        lemma_encoding_concatenates(a.drop_first(), b);
        assert((a + b).drop_first() =~= a.drop_first() + b);
        let head = utf8::encode_scalar(a[0] as u32);
        assert(head + (utf8::encode_utf8(a.drop_first()) + utf8::encode_utf8(b)) =~= head
            + utf8::encode_utf8(a.drop_first()) + utf8::encode_utf8(b));
    }
}

/// The characters of each of some strings.
pub open spec fn texts(strings: Seq<String>) -> Seq<Seq<char>> {
    strings.map_values(|s: String| s@)
}

/// How `Debug` writes a string: in double quotes, with escapes.
pub uninterp spec fn debug_text(text: Seq<char>) -> Seq<char>;

/// `<str as Debug>::fmt`, through `format!`: the result depends on the
/// characters of `text` alone.
#[verifier::external_body]
pub(crate) fn debug_string(text: &str) -> (quoted: String)
    ensures
        quoted@ == debug_text(text@),
{
    format!("{:?}", text)
}

/// The text that some bytes encode, with what is no UTF-8 replaced.
pub uninterp spec fn lossy_text(bytes: Seq<u8>) -> Seq<char>;

/// `String::from_utf8_lossy`: the result depends on the bytes alone, and what is
/// UTF-8 is taken as it is.
#[verifier::external_body]
pub(crate) fn lossy_string(bytes: &[u8]) -> (text: String)
    ensures
        text@ == lossy_text(bytes@),
        utf8::valid_utf8(bytes@) ==> utf8::encode_utf8(text@) == bytes@,
{
    String::from_utf8_lossy(bytes).into_owned()
}

/// The number that decimal digits spell.
pub open spec fn decimal_value(digits: Seq<char>) -> int
    decreases digits.len(),
{
    if digits.len() == 0 {
        0
    } else {
        decimal_value(digits.drop_last()) * 10 + (digits.last() as int - '0' as int)
    }
}

/// A numeral is made of decimal digits, spells its number, and has no leading
/// zero.
pub proof fn law_numerals_spell_their_number(n: nat)
    ensures
        decimal_value(decimal(n)) == n,
        decimal(n).len() > 0,
        forall|i: int| 0 <= i < decimal(n).len() ==> '0' <= #[trigger] decimal(n)[i] <= '9',
        decimal(n)[0] == '0' ==> n == 0,
    decreases n,
{
    lemma_decimal_digits(n);
    if n < 10 {
        assert(decimal(n).drop_last() =~= Seq::empty());
        assert(decimal_value(decimal(n).drop_last()) == 0);
    } else {
        law_numerals_spell_their_number(n / 10);
        assert(decimal(n).drop_last() =~= decimal(n / 10));
        assert(decimal(n)[0] == decimal(n / 10)[0]);
    }
}

/// The number that a hexadecimal digit stands for.
pub open spec fn hex_value(digit: char) -> int {
    if '0' <= digit <= '9' {
        digit as int - '0' as int
    } else {
        digit as int - 'a' as int + 10
    }
}

/// Four lower-case hexadecimal digits spell their number, the most significant
/// first.
pub proof fn law_four_digits_spell_their_number(n: u16)
    ensures
        four_hex(n).len() == 4,
        forall|i: int|
            0 <= i < 4 ==> '0' <= #[trigger] four_hex(n)[i] <= '9' || 'a' <= four_hex(n)[i]
                <= 'f',
        n == hex_value(four_hex(n)[0]) * 4096 + hex_value(four_hex(n)[1]) * 256 + hex_value(
            four_hex(n)[2],
        ) * 16 + hex_value(four_hex(n)[3]),
{
    lemma_digits_make_up(n as nat);
    lemma_hex_value(n as nat / 4096);
    lemma_hex_value(n as nat / 256 % 16);
    lemma_hex_value(n as nat / 16 % 16);
    lemma_hex_value(n as nat % 16);
}

proof fn lemma_hex_value(n: nat)
    requires
        n < 16,
    ensures
        hex_value(hex_digit(n)) == n,
        '0' <= hex_digit(n) <= '9' || 'a' <= hex_digit(n) <= 'f',
{
}

/// A character that a text holds is found where it stands first; one that it does
/// not hold is not found.
pub proof fn law_first_of_a_character(text: Seq<char>, wanted: char)
    ensures
        match first_index(text, wanted) {
            Some(i) => {
                &&& i < text.len()
                &&& text[i as int] == wanted
                &&& forall|j: int| 0 <= j < i ==> #[trigger] text[j] != wanted
            },
            None => forall|j: int| 0 <= j < text.len() ==> #[trigger] text[j] != wanted,
        },
    decreases text.len(),
{
    if text.len() > 0 && text[0] != wanted {
        let rest = text.drop_first();
        law_first_of_a_character(rest, wanted);
        let stop = match first_index(rest, wanted) {
            Some(i) => i as int,
            None => rest.len() as int,
        };
        assert forall|j: int| 0 <= j < stop + 1 implies #[trigger] text[j] != wanted by {
            if j > 0 {
                assert(rest[j - 1] == text[j]);
            }
        }
    }
}

/// The texts of some strings are theirs, one each, in their order.
pub proof fn law_texts_are_those_of_the_strings(strings: Seq<String>)
    ensures
        texts(strings).len() == strings.len(),
        forall|i: int| 0 <= i < strings.len() ==> #[trigger] texts(strings)[i] == strings[i]@,
{
}

} // verus!
