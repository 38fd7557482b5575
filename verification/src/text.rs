//! Text handling: integers in a radix, tokens, and words written as hexadecimal.

use vstd::prelude::*;
use vstd::string::{StrSliceExecFns, StringExecFns};

verus! {

/// The value of `c` as a digit: `0`-`9`, then letters of either case from 10 on.
pub open spec fn digit_of(c: char) -> Option<int> {
    if '0' <= c <= '9' {
        Some(c as int - '0' as int)
    } else if 'a' <= c <= 'z' {
        Some(c as int - 'a' as int + 10)
    } else if 'A' <= c <= 'Z' {
        Some(c as int - 'A' as int + 10)
    } else {
        None
    }
}

/// Whether `c` is a digit in `radix`.
pub open spec fn is_digit(c: char, radix: int) -> bool {
    digit_of(c) is Some && digit_of(c)->Some_0 < radix
}

/// Whether `digits` is a number in `radix`: not empty, and digits only.
pub open spec fn is_number(digits: Seq<char>, radix: int) -> bool {
    digits.len() > 0 && forall|i: int| 0 <= i < digits.len() ==> is_digit(#[trigger] digits[i], radix)
}

/// The value of a number written in `radix`, most significant digit first.
pub open spec fn number(digits: Seq<char>, radix: int) -> int
    decreases digits.len(),
{
    if digits.len() == 0 {
        0
    } else {
        number(digits.drop_last(), radix) * radix + digit_of(digits.last()).unwrap_or(0)
    }
}

/// The integer that `text` denotes in `radix`: one optional sign, `+` always and `-`
/// where `signed`, then a number. Nothing else is accepted: no spaces, no prefix,
/// no underscores.
pub open spec fn integer(text: Seq<char>, radix: int, signed: bool) -> Option<int> {
    let negative = signed && text.len() > 0 && text[0] == '-';
    let digits = if text.len() > 0 && (text[0] == '+' || negative) {
        text.skip(1)
    } else {
        text
    };
    if !is_number(digits, radix) {
        None
    } else if negative {
        Some(-number(digits, radix))
    } else {
        Some(number(digits, radix))
    }
}

/// The `i32` that `text` denotes in `radix`, if it denotes an integer that fits.
pub open spec fn parsed_i32(text: Seq<char>, radix: int) -> Option<i32> {
    match integer(text, radix, true) {
        Some(v) => if i32::MIN <= v <= i32::MAX {
            Some(v as i32)
        } else {
            None
        },
        None => None,
    }
}

/// The `u32` that `text` denotes in decimal, if it denotes an integer that fits.
pub open spec fn parsed_u32(text: Seq<char>) -> Option<u32> {
    match integer(text, 10, false) {
        Some(v) => if v <= u32::MAX {
            Some(v as u32)
        } else {
            None
        },
        None => None,
    }
}

/// The word whose 32 bits, read as an unsigned number, are `value`.
pub open spec fn from_bits(value: int) -> i32 {
    if value > i32::MAX {
        (value - 0x1_0000_0000) as i32
    } else {
        value as i32
    }
}

/// The word that `text` denotes in `radix`: a signed integer that fits in a word, or
/// the 32 bits of a word written as an unsigned number.
pub open spec fn parsed_word(text: Seq<char>, radix: int) -> Option<i32> {
    match integer(text, radix, true) {
        Some(v) => if i32::MIN <= v <= u32::MAX {
            Some(from_bits(v))
        } else {
            None
        },
        None => None,
    }
}

/// A number only grows when a digit is appended, and is never negative.
pub proof fn lemma_number_grows(digits: Seq<char>, radix: int)
    requires
        radix >= 1,
    ensures
        0 <= number(digits, radix),
        digits.len() > 0 ==> number(digits.drop_last(), radix) <= number(digits, radix),
    decreases digits.len(),
{
    if digits.len() > 0 {
        lemma_number_grows(digits.drop_last(), radix);
        let n = number(digits.drop_last(), radix);
        assert(n * radix >= n) by (nonlinear_arith)
            requires
                n >= 0,
                radix >= 1,
        ;
    }
}

/// The value of `c` as a digit in `radix`.
fn digit(c: char, radix: u32) -> (d: Option<u32>)
    requires
        2 <= radix <= 36,
    ensures
        d is Some <==> is_digit(c, radix as int),
        d is Some ==> d->Some_0 == digit_of(c)->Some_0 && d->Some_0 < radix,
{
    let code = c as u32;
    let value: u32 = if '0' <= c && c <= '9' {
        code - '0' as u32
    } else if 'a' <= c && c <= 'z' {
        code - 'a' as u32 + 10
    } else if 'A' <= c && c <= 'Z' {
        code - 'A' as u32 + 10
    } else {
        radix
    };
    if value < radix {
        Some(value)
    } else {
        None
    }
}

/// Largest magnitude that `magnitude` reports: one more than `u32::MAX`.
pub const LIMIT: u64 = 0x1_0000_0000;

/// The value of the number that `text` holds from position `from` on, if that is a
/// number in `radix` and no larger than `LIMIT`.
fn magnitude(text: &str, from: usize, radix: u32) -> (m: Option<u64>)
    requires
        2 <= radix <= 36,
        from <= text@.len(),
    ensures
        m is Some <==> is_number(text@.skip(from as int), radix as int) && number(
            text@.skip(from as int),
            radix as int,
        ) <= LIMIT,
        m is Some ==> m->Some_0 == number(text@.skip(from as int), radix as int),
{
    let len = text.unicode_len();
    if from == len {
        return None;
    }
    let ghost digits = text@.skip(from as int);
    let mut value: u64 = 0;
    let mut large = false;
    let mut i: usize = from;
    while i < len
        invariant
            2 <= radix <= 36,
            from <= i <= len,
            len == text@.len(),
            digits == text@.skip(from as int),
            forall|k: int| 0 <= k < i - from ==> is_digit(#[trigger] digits[k], radix as int),
            !large ==> value == number(digits.take(i - from), radix as int) && value <= LIMIT,
            large ==> number(digits.take(i - from), radix as int) > LIMIT,
        decreases len - i,
    {
        let c = text.get_char(i);
        let ghost before = digits.take(i - from);
        let ghost after = digits.take(i - from + 1);
        proof {
            assert(after.drop_last() =~= before);
            assert(after.last() == c);
            lemma_number_grows(after, radix as int);
        }
        match digit(c, radix) {
            None => {
                proof {
                    assert(!is_digit(digits[i - from], radix as int));
                }
                return None;
            },
            Some(d) => {
                if !large {
                    assert(value * radix <= LIMIT * 36) by (nonlinear_arith)
                        requires
                            value <= LIMIT,
                            radix <= 36,
                    ;
                    value = value * (radix as u64) + (d as u64);
                    if value > LIMIT {
                        large = true;
                    }
                }
            },
        }
        i += 1;
    }
    proof {
        assert(digits.take(i - from) =~= digits);
        assert(is_number(digits, radix as int));
    }
    if large {
        None
    } else {
        Some(value)
    }
}

/// The integer that `text` denotes in `radix`, if it denotes one whose magnitude is
/// no larger than `LIMIT`.
fn parse_integer(text: &str, radix: u32, signed: bool) -> (parsed: Option<i64>)
    requires
        2 <= radix <= 36,
    ensures
        parsed is Some <==> integer(text@, radix as int, signed) is Some && -LIMIT <= integer(
            text@,
            radix as int,
            signed,
        )->Some_0 <= LIMIT,
        parsed is Some ==> parsed->Some_0 == integer(text@, radix as int, signed)->Some_0,
        !signed && integer(text@, radix as int, signed) is Some ==> 0 <= integer(
            text@,
            radix as int,
            signed,
        )->Some_0,
{
    let first = if text.unicode_len() > 0 {
        Some(text.get_char(0))
    } else {
        None
    };
    let negative = signed && first == Some('-');
    let from: usize = if first == Some('+') || negative {
        1
    } else {
        0
    };
    proof {
        assert(text@.skip(0) =~= text@);
        lemma_number_grows(text@.skip(from as int), radix as int);
    }
    match magnitude(text, from, radix) {
        None => None,
        Some(m) => if negative {
            Some(-(m as i64))
        } else {
            Some(m as i64)
        },
    }
}

/// Reads `text` as a signed integer in `radix`, as `i32::from_str_radix` reads it:
/// an optional `+` or `-`, then digits, with a value that fits in an `i32`.
pub fn parse_i32(text: &str, radix: u32) -> (parsed: Option<i32>)
    requires
        2 <= radix <= 36,
    ensures
        parsed == parsed_i32(text@, radix as int),
{
    match parse_integer(text, radix, true) {
        Some(v) => if -0x8000_0000 <= v && v <= 0x7fff_ffff {
            Some(v as i32)
        } else {
            None
        },
        None => None,
    }
}

/// Reads `text` as a word in `radix`: an optional `+` or `-`, then digits. The value
/// is that of a signed integer, as far as it fits in a word; a value above that,
/// up to 32 bits, stands for the word with those bits.
pub fn parse_word(text: &str, radix: u32) -> (parsed: Option<i32>)
    requires
        2 <= radix <= 36,
    ensures
        parsed == parsed_word(text@, radix as int),
{
    match parse_integer(text, radix, true) {
        Some(v) => if -0x8000_0000 <= v && v <= 0x7fff_ffff {
            Some(v as i32)
        } else if 0x7fff_ffff < v && v <= 0xffff_ffff {
            Some((v - 0x1_0000_0000) as i32)
        } else {
            None
        },
        None => None,
    }
}

/// Reads `text` as an unsigned decimal integer, as `str::parse::<u32>` reads it:
/// an optional `+`, then digits, with a value that fits in a `u32`.
pub fn parse_u32(text: &str) -> (parsed: Option<u32>)
    ensures
        parsed == parsed_u32(text@),
{
    match parse_integer(text, 10, false) {
        Some(v) => if 0 <= v && v <= 0xffff_ffff {
            Some(v as u32)
        } else {
            None
        },
        None => None,
    }
}

/// The texts of a list of strings.
pub open spec fn texts(strings: Seq<String>) -> Seq<Seq<char>> {
    Seq::new(strings.len(), |i: int| strings[i]@)
}

/// The pieces of `text` between separators. There is always at least one piece,
/// and two separators in a row have an empty piece between them.
pub open spec fn pieces_at(text: Seq<char>, separator: char) -> Seq<Seq<char>>
    decreases text.len(),
{
    if text.len() == 0 {
        seq![Seq::empty()]
    } else {
        let before = pieces_at(text.drop_last(), separator);
        if text.last() == separator {
            before.push(Seq::empty())
        } else {
            before.update(before.len() - 1, before.last().push(text.last()))
        }
    }
}

/// The pieces of `text` between single spaces.
pub open spec fn pieces(text: Seq<char>) -> Seq<Seq<char>> {
    pieces_at(text, ' ')
}

/// There is always at least one piece.
pub proof fn lemma_pieces_not_empty(text: Seq<char>, separator: char)
    ensures
        pieces_at(text, separator).len() >= 1,
    decreases text.len(),
{
    if text.len() > 0 {
        lemma_pieces_not_empty(text.drop_last(), separator);
    }
}

/// A text without separators, put after another, lengthens its last piece.
pub proof fn lemma_pieces_extend(text: Seq<char>, more: Seq<char>, separator: char)
    requires
        forall|i: int| 0 <= i < more.len() ==> more[i] != separator,
    ensures
        pieces_at(text, separator).len() >= 1,
        pieces_at(text + more, separator) == pieces_at(text, separator).update(
            pieces_at(text, separator).len() - 1,
            pieces_at(text, separator).last() + more,
        ),
    decreases more.len(),
{
    lemma_pieces_not_empty(text, separator);
    let before = pieces_at(text, separator);
    if more.len() == 0 {
        assert(text + more =~= text);
        assert(before.last() + more =~= before.last());
        assert(before.update(before.len() - 1, before.last()) =~= before);
    } else {
        let init = more.drop_last();
        lemma_pieces_extend(text, init, separator);
        assert((text + more).drop_last() =~= text + init);
        assert((text + more).last() == more.last());
        assert(more[more.len() - 1] != separator);
        assert((before.last() + init).push(more.last()) =~= before.last() + more);
        assert(pieces_at(text + more, separator) =~= before.update(
            before.len() - 1,
            before.last() + more,
        ));
    }
}

/// Splits `line` at every `separator`.
pub fn split_at(line: &str, separator: char) -> (tokens: Vec<String>)
    ensures
        texts(tokens@) == pieces_at(line@, separator),
{
    let len = line.unicode_len();
    let mut tokens: Vec<String> = Vec::new();
    let mut start: usize = 0;
    let mut i: usize = 0;
    while i < len
        invariant
            start <= i <= len,
            len == line@.len(),
            texts(tokens@) == pieces_at(line@.take(i as int), separator).drop_last(),
            line@.subrange(start as int, i as int) == pieces_at(
                line@.take(i as int),
                separator,
            ).last(),
        decreases len - i,
    {
        let c = line.get_char(i);
        proof {
            let before = line@.take(i as int);
            let after = line@.take(i + 1);
            assert(after.drop_last() =~= before);
            assert(after.last() == c);
            lemma_pieces_not_empty(before, separator);
        }
        if c == separator {
            let ghost earlier = tokens@;
            let token = String::from_str(line.substring_char(start, i));
            tokens.push(token);
            start = i + 1;
            proof {
                let before = pieces_at(line@.take(i as int), separator);
                let after = pieces_at(line@.take(i + 1), separator);
                assert(after == before.push(Seq::empty()));
                assert(after.drop_last() =~= before);
                assert(before =~= before.drop_last().push(before.last()));
                assert(tokens@ == earlier.push(token));
                assert(texts(tokens@) =~= texts(earlier).push(token@));
                assert(line@.subrange(start as int, i + 1) =~= after.last());
            }
        } else {
            proof {
                let before = pieces_at(line@.take(i as int), separator);
                let after = pieces_at(line@.take(i + 1), separator);
                assert(after == before.update(before.len() - 1, before.last().push(c)));
                assert(texts(tokens@) =~= after.drop_last());
                assert(line@.subrange(start as int, i + 1) =~= after.last());
            }
        }
        i += 1;
    }
    let ghost earlier = tokens@;
    let token = String::from_str(line.substring_char(start, len));
    tokens.push(token);
    proof {
        assert(line@.take(len as int) =~= line@);
        lemma_pieces_not_empty(line@, separator);
        let all = pieces_at(line@, separator);
        assert(all =~= all.drop_last().push(all.last()));
        assert(texts(tokens@) =~= texts(earlier).push(token@));
    }
    tokens
}

/// Splits `line` at every space.
pub fn split(line: &str) -> (tokens: Vec<String>)
    ensures
        texts(tokens@) == pieces(line@),
{
    split_at(line, ' ')
}

/// Whether two texts are the same, character by character.
pub fn same_text(a: &str, b: &str) -> (same: bool)
    ensures
        same == (a@ == b@),
{
    let len = a.unicode_len();
    if len != b.unicode_len() {
        return false;
    }
    let mut i: usize = 0;
    while i < len
        invariant
            i <= len,
            len == a@.len(),
            len == b@.len(),
            forall|k: int| 0 <= k < i ==> a@[k] == b@[k],
        decreases len - i,
    {
        if a.get_char(i) != b.get_char(i) {
            return false;
        }
        i += 1;
    }
    proof {
        assert(a@ =~= b@);
    }
    true
}

/// The hexadecimal digit for `v`, in lower case.
pub open spec fn hex_digit(v: int) -> char {
    if v == 0 {
        '0'
    } else if v == 1 {
        '1'
    } else if v == 2 {
        '2'
    } else if v == 3 {
        '3'
    } else if v == 4 {
        '4'
    } else if v == 5 {
        '5'
    } else if v == 6 {
        '6'
    } else if v == 7 {
        '7'
    } else if v == 8 {
        '8'
    } else if v == 9 {
        '9'
    } else if v == 10 {
        'a'
    } else if v == 11 {
        'b'
    } else if v == 12 {
        'c'
    } else if v == 13 {
        'd'
    } else if v == 14 {
        'e'
    } else {
        'f'
    }
}

/// The last `width` hexadecimal digits of `value`, most significant first.
pub open spec fn hex(value: int, width: nat) -> Seq<char>
    decreases width,
{
    if width == 0 {
        Seq::empty()
    } else {
        hex(value / 16, (width - 1) as nat).push(hex_digit(value % 16))
    }
}

/// The bits of `word` read as an unsigned number.
pub open spec fn bits(word: i32) -> int {
    if word < 0 {
        word + 0x1_0000_0000
    } else {
        word as int
    }
}

/// A word as it stands in a program file: its 32 bits as eight hexadecimal digits.
pub open spec fn hex_word(word: i32) -> Seq<char> {
    hex(bits(word), 8)
}

/// 16 to the power of `n`.
pub open spec fn sixteen_to(n: nat) -> int
    decreases n,
{
    if n == 0 {
        1
    } else {
        16 * sixteen_to((n - 1) as nat)
    }
}

/// The digits that `hex` writes are a number in radix 16 whose value is `value`,
/// as far as `width` digits hold it.
pub proof fn lemma_hex_is_number(value: int, width: nat)
    requires
        0 <= value,
    ensures
        hex(value, width).len() == width,
        forall|i: int| 0 <= i < width ==> is_digit(#[trigger] hex(value, width)[i], 16),
        forall|i: int|
            0 <= i < width ==> (#[trigger] hex(value, width)[i]) != '+' && hex(value, width)[i]
                != '-',
        number(hex(value, width), 16) == value % sixteen_to(width),
        0 < sixteen_to(width),
    decreases width,
{
    if width > 0 {
        let rest = hex(value / 16, (width - 1) as nat);
        let all = hex(value, width);
        lemma_hex_is_number(value / 16, (width - 1) as nat);
        assert(all.drop_last() =~= rest);
        assert(digit_of(hex_digit(value % 16)) == Some(value % 16));
        assert forall|i: int| 0 <= i < width implies is_digit(#[trigger] all[i], 16) by {
            if i < width - 1 {
                assert(all[i] == rest[i]);
            }
        }
        assert forall|i: int| 0 <= i < width implies (#[trigger] all[i]) != '+' && all[i]
            != '-' by {
            if i < width - 1 {
                assert(all[i] == rest[i]);
            }
        }
        vstd::arithmetic::div_mod::lemma_mod_breakdown(value, 16, sixteen_to((width - 1) as nat));
    }
}

/// What is written is read back: the eight digits of a word denote that word.
pub proof fn lemma_word_is_read_back(word: i32)
    ensures
        parsed_word(hex_word(word), 16) == Some(word),
{
    let text = hex_word(word);
    lemma_hex_is_number(bits(word), 8);
    assert(sixteen_to(8) == 0x1_0000_0000) by {
        reveal_with_fuel(sixteen_to, 9);
    }
    assert(text[0] != '+' && text[0] != '-');
    assert(is_number(text, 16));
    assert(bits(word) % 0x1_0000_0000 == bits(word));
}

/// The text of one hexadecimal digit.
fn hex_digit_text(v: u32) -> (text: &'static str)
    requires
        v < 16,
    ensures
        text@ == seq![hex_digit(v as int)],
{
    proof {
        reveal_strlit("0");
        reveal_strlit("1");
        reveal_strlit("2");
        reveal_strlit("3");
        reveal_strlit("4");
        reveal_strlit("5");
        reveal_strlit("6");
        reveal_strlit("7");
        reveal_strlit("8");
        reveal_strlit("9");
        reveal_strlit("a");
        reveal_strlit("b");
        reveal_strlit("c");
        reveal_strlit("d");
        reveal_strlit("e");
        reveal_strlit("f");
    }
    let text = match v {
        0 => "0",
        1 => "1",
        2 => "2",
        3 => "3",
        4 => "4",
        5 => "5",
        6 => "6",
        7 => "7",
        8 => "8",
        9 => "9",
        10 => "a",
        11 => "b",
        12 => "c",
        13 => "d",
        14 => "e",
        _ => "f",
    };
    assert(text@ =~= seq![hex_digit(v as int)]);
    text
}

/// Writes the last `width` hexadecimal digits of `value`.
pub fn to_hex(value: u32, width: u32) -> (text: String)
    ensures
        text@ == hex(value as int, width as nat),
    decreases width,
{
    if width == 0 {
        String::new()
    } else {
        let mut text = to_hex(value / 16, width - 1);
        text.append(hex_digit_text(value % 16));
        text
    }
}

/// Writes `word` as eight hexadecimal digits.
pub fn word_to_hex(word: i32) -> (text: String)
    ensures
        text@ == hex_word(word),
{
    let unsigned: u32 = if word < 0 {
        ((word as i64) + 0x1_0000_0000) as u32
    } else {
        word as u32
    };
    to_hex(unsigned, 8)
}

/// A natural number in hexadecimal, without leading zeros.
pub open spec fn hex_digits(n: nat) -> Seq<char>
    decreases n,
{
    if n < 16 {
        seq![hex_digit(n as int)]
    } else {
        hex_digits(n / 16).push(hex_digit((n % 16) as int))
    }
}

/// `text` with zeros before it, as many as it takes to reach `width` characters.
pub open spec fn padded(text: Seq<char>, width: nat) -> Seq<char> {
    if text.len() >= width {
        text
    } else {
        Seq::new((width - text.len()) as nat, |i: int| '0') + text
    }
}

/// Writes a natural number in hexadecimal, without leading zeros.
fn digits_to_hex(n: u32) -> (text: String)
    ensures
        text@ == hex_digits(n as nat),
    decreases n,
{
    if n < 16 {
        String::from_str(hex_digit_text(n))
    } else {
        let mut text = digits_to_hex(n / 16);
        text.append(hex_digit_text(n % 16));
        text
    }
}

/// Writes a natural number in hexadecimal, with zeros before it up to `width`
/// characters.
pub fn to_hex_padded(n: u32, width: usize) -> (text: String)
    ensures
        text@ == padded(hex_digits(n as nat), width as nat),
{
    let digits = digits_to_hex(n);
    let length = digits.as_str().unicode_len();
    if length >= width {
        return digits;
    }
    proof {
        reveal_strlit("0");
        assert("0"@ =~= seq!['0']);
    }
    let mut text = String::new();
    let mut i: usize = 0;
    while i < width - length
        invariant
            length < width,
            i <= width - length,
            "0"@ == seq!['0'],
            text@ == Seq::new(i as nat, |k: int| '0'),
        decreases width - length - i,
    {
        text.append("0");
        i += 1;
        proof {
            assert(text@ =~= Seq::new(i as nat, |k: int| '0'));
        }
    }
    text.append(digits.as_str());
    text
}

/// A natural number in decimal, without leading zeros.
pub open spec fn decimal_digits(n: nat) -> Seq<char>
    decreases n,
{
    if n < 10 {
        seq![hex_digit(n as int)]
    } else {
        decimal_digits(n / 10).push(hex_digit((n % 10) as int))
    }
}

/// An integer in decimal, with a minus sign if it is negative.
pub open spec fn decimal(n: int) -> Seq<char> {
    if n < 0 {
        seq!['-'] + decimal_digits((-n) as nat)
    } else {
        decimal_digits(n as nat)
    }
}

/// Writes a natural number in decimal.
fn digits_to_decimal(n: u32) -> (text: String)
    ensures
        text@ == decimal_digits(n as nat),
    decreases n,
{
    if n < 10 {
        String::from_str(hex_digit_text(n))
    } else {
        let mut text = digits_to_decimal(n / 10);
        text.append(hex_digit_text(n % 10));
        text
    }
}

/// Writes an integer in decimal.
pub fn to_decimal(n: i32) -> (text: String)
    ensures
        text@ == decimal(n as int),
{
    if n < 0 {
        proof {
            reveal_strlit("-");
            assert("-"@ =~= seq!['-']);
        }
        let magnitude = (-(n as i64)) as u32;
        String::from_str("-").concat(digits_to_decimal(magnitude).as_str())
    } else {
        digits_to_decimal(n as u32)
    }
}

/// The text that `str::to_uppercase` makes of a text.
pub uninterp spec fn uppercase(text: Seq<char>) -> Seq<char>;

/// `str::to_uppercase`: the text in upper case, by the Unicode mapping that the
/// standard library carries. Nothing else is claimed of it.
#[verifier::external_body]
pub(crate) fn to_uppercase(text: &str) -> (upper: String)
    ensures
        upper@ == uppercase(text@),
{
    text.to_uppercase()
}

/// Whether `char::is_alphabetic` holds of a character.
pub uninterp spec fn alphabetic(c: char) -> bool;

/// `char::is_alphabetic`: whether the character has the Unicode property
/// Alphabetic. Nothing else is claimed of it.
#[verifier::external_body]
pub(crate) fn is_alphabetic(c: char) -> (yes: bool)
    ensures
        yes == alphabetic(c),
{
    c.is_alphabetic()
}

/// Whether `c` is white space: one of the characters that have the Unicode property
/// White_Space.
pub open spec fn is_white_space(c: char) -> bool {
    let code = c as u32;
    ||| 0x09 <= code <= 0x0d
    ||| code == 0x20
    ||| code == 0x85
    ||| code == 0xa0
    ||| code == 0x1680
    ||| 0x2000 <= code <= 0x200a
    ||| code == 0x2028
    ||| code == 0x2029
    ||| code == 0x202f
    ||| code == 0x205f
    ||| code == 0x3000
}

/// `text` without the white space at its start.
pub open spec fn trimmed_start(text: Seq<char>) -> Seq<char>
    decreases text.len(),
{
    if text.len() > 0 && is_white_space(text[0]) {
        trimmed_start(text.skip(1))
    } else {
        text
    }
}

/// `text` without the white space at its end.
pub open spec fn trimmed_end(text: Seq<char>) -> Seq<char>
    decreases text.len(),
{
    if text.len() > 0 && is_white_space(text.last()) {
        trimmed_end(text.drop_last())
    } else {
        text
    }
}

/// `text` without the white space around it: what stands from the first to the
/// last character that is no white space.
pub open spec fn trimmed(text: Seq<char>) -> Seq<char> {
    trimmed_end(trimmed_start(text))
}

/// A text that neither starts nor ends with white space is left as it is.
pub proof fn lemma_trimmed_keeps(text: Seq<char>)
    requires
        text.len() > 0,
        !is_white_space(text[0]),
        !is_white_space(text.last()),
    ensures
        trimmed(text) == text,
{
}

/// The eight digits of a word are left as they are.
pub proof fn lemma_trimmed_keeps_word(word: i32)
    ensures
        trimmed(hex_word(word)) == hex_word(word),
{
    lemma_hex_is_number(bits(word), 8);
    let text = hex_word(word);
    assert(is_digit(text[0], 16));
    assert(is_digit(text[7], 16));
    lemma_trimmed_keeps(text);
}

/// Whether `c` is white space.
pub fn is_white(c: char) -> (yes: bool)
    ensures
        yes == is_white_space(c),
{
    let code = c as u32;
    (0x09 <= code && code <= 0x0d) || code == 0x20 || code == 0x85 || code == 0xa0 || code
        == 0x1680 || (0x2000 <= code && code <= 0x200a) || code == 0x2028 || code == 0x2029
        || code == 0x202f || code == 0x205f || code == 0x3000
}

/// The text without the white space around it.
pub fn trim(text: &str) -> (rest: &str)
    ensures
        rest@ == trimmed(text@),
{
    let len = text.unicode_len();
    let mut start: usize = 0;
    proof {
        assert(text@.skip(0) =~= text@);
    }
    while start < len && is_white(text.get_char(start))
        invariant
            start <= len,
            len == text@.len(),
            trimmed_start(text@) == trimmed_start(text@.skip(start as int)),
        decreases len - start,
    {
        proof {
            assert(text@.skip(start as int).skip(1) =~= text@.skip(start + 1));
        }
        start += 1;
    }
    let mut end: usize = len;
    proof {
        assert(text@.subrange(start as int, end as int) =~= text@.skip(start as int));
    }
    while end > start && is_white(text.get_char(end - 1))
        invariant
            start <= end <= len,
            len == text@.len(),
            trimmed(text@) == trimmed_end(text@.subrange(start as int, end as int)),
        decreases end,
    {
        proof {
            assert(text@.subrange(start as int, end as int).drop_last() =~= text@.subrange(
                start as int,
                end - 1,
            ));
        }
        end -= 1;
    }
    text.substring_char(start, end)
}

} // verus!
