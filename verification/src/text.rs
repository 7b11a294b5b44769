//! Decimal, hexadecimal and UTF-16 text.

use vstd::prelude::*;
use vstd::string::*;

verus! {

/// `String::push` appends one character.
pub assume_specification[ String::push ](text: &mut String, c: char)
    ensures
        final(text)@ == old(text)@.push(c),
;

/// `char::from_u32` gives the character with that scalar value, and nothing for
/// a surrogate or a value above `0x10FFFF`.
pub assume_specification[ char::from_u32 ](value: u32) -> (result: Option<char>)
    ensures
        result is Some <==> (value < 0xD800 || 0xE000 <= value <= 0x10FFFF),
        result matches Some(c) ==> c == value as char,
;

/// The lower-case digit that stands for `value` in bases up to sixteen.
pub open spec fn digit(value: int) -> char {
    if value < 10 {
        (48 + value) as char
    } else {
        (87 + value) as char
    }
}

/// `value` in decimal, without leading zeros.
pub open spec fn decimal(value: nat) -> Seq<char>
    decreases value,
{
    if value < 10 {
        seq![digit(value as int)]
    } else {
        decimal(value / 10).push(digit(value as int % 10))
    }
}

/// `value` in lower-case hexadecimal, without leading zeros.
pub open spec fn hex(value: nat) -> Seq<char>
    decreases value,
{
    if value < 16 {
        seq![digit(value as int)]
    } else {
        hex(value / 16).push(digit(value as int % 16))
    }
}

/// The last `width` lower-case hexadecimal digits of `value`.
pub open spec fn hex_padded(value: nat, width: nat) -> Seq<char>
    decreases width,
{
    if width == 0 {
        Seq::empty()
    } else {
        hex_padded(value / 16, (width - 1) as nat).push(digit(value as int % 16))
    }
}

/// Different numbers are written differently.
pub proof fn law_decimal_is_unique(first: nat, second: nat)
    requires
        decimal(first) == decimal(second),
    ensures
        first == second,
    decreases first,
{
    let low = first as int % 10;
    let other = second as int % 10;
    assert(digit(low) as int == 48 + low && digit(other) as int == 48 + other);
    if first < 10 && second < 10 {
        assert(low == first && other == second);
        assert(decimal(first)[0] == digit(low) && decimal(second)[0] == digit(other));
    } else if first >= 10 && second >= 10 {
        let left = decimal(first / 10);
        let right = decimal(second / 10);
        assert(decimal(first).last() == digit(low));
        assert(decimal(second).last() == digit(other));
        assert(decimal(first).drop_last() =~= left);
        assert(decimal(second).drop_last() =~= right);
        law_decimal_is_unique(first / 10, second / 10);
        assert(first as int == 10 * (first as int / 10) + low);
        assert(second as int == 10 * (second as int / 10) + other);
    } else {
        lemma_decimal_length(first);
        lemma_decimal_length(second);
    }
}

proof fn lemma_decimal_length(value: nat)
    ensures
        decimal(value).len() >= 1,
        value < 10 ==> decimal(value).len() == 1,
        value >= 10 ==> decimal(value).len() >= 2,
    decreases value,
{
    if value >= 10 {
        lemma_decimal_length(value / 10);
    }
}

/// The character of one digit.
pub fn digit_char(value: u8) -> (c: char)
    requires
        value < 16,
    ensures
        c == digit(value as int),
{
    if value < 10 {
        (48 + value) as char
    } else {
        (87 + value) as char
    }
}

/// Appends `value` in decimal.
pub fn push_decimal(text: &mut String, value: u64)
    ensures
        final(text)@ == old(text)@ + decimal(value as nat),
    decreases value,
{
    if value >= 10 {
        push_decimal(text, value / 10);
    }
    text.push(digit_char((value % 10) as u8));
}

/// Appends `value` in hexadecimal.
pub fn push_hex(text: &mut String, value: u64)
    ensures
        final(text)@ == old(text)@ + hex(value as nat),
    decreases value,
{
    if value >= 16 {
        push_hex(text, value / 16);
    }
    text.push(digit_char((value % 16) as u8));
}

/// Appends the last `width` hexadecimal digits of `value`.
pub fn push_hex_padded(text: &mut String, value: u64, width: u32)
    ensures
        final(text)@ == old(text)@ + hex_padded(value as nat, width as nat),
    decreases width,
{
    if width > 0 {
        push_hex_padded(text, value / 16, width - 1);
        text.push(digit_char((value % 16) as u8));
    } else {
        assert(old(text)@ + hex_padded(value as nat, 0) =~= old(text)@);
    }
}

/// The characters of `text` in order.
pub fn characters(text: &str) -> (result: Vec<char>)
    ensures
        result@ == text@,
{
    let mut result: Vec<char> = Vec::new();
    for c in iter: text.chars()
        invariant
            result@ == iter.seq().take(iter.index()),
            iter.seq() == text@,
    {
        result.push(c);
        assert(iter.seq().take(iter.index() + 1) =~= iter.seq().take(iter.index()).push(c));
    }
    assert(text@.take(text@.len() as int) =~= text@);
    result
}

/// A copy of code units.
pub fn copy_units(units: &[u16]) -> (copy: Vec<u16>)
    ensures
        copy@ == units@,
{
    let mut copy: Vec<u16> = Vec::new();
    copy.extend_from_slice(units);
    assert(copy@ =~= units@);
    copy
}

/// Whether two lists of code units are the same.
pub fn same_units(left: &[u16], right: &[u16]) -> (same: bool)
    ensures
        same == (left@ == right@),
{
    if left.len() != right.len() {
        return false;
    }
    let mut index: usize = 0;
    while index < left.len()
        invariant
            index <= left.len(),
            left.len() == right.len(),
            forall|before: int| 0 <= before < index ==> left@[before] == right@[before],
        decreases left.len() - index,
    {
        if left[index] != right[index] {
            assert(left@[index as int] != right@[index as int]);
            return false;
        }
        index = index + 1;
    }
    assert(left@ =~= right@);
    true
}

/// The UTF-16 code units of one character.
pub open spec fn utf16_units(c: char) -> Seq<u16> {
    let value = c as int;
    if value < 0x10000 {
        seq![value as u16]
    } else {
        seq![(0xD800 + (value - 0x10000) / 0x400) as u16, (0xDC00 + (value - 0x10000) % 0x400) as u16]
    }
}

/// `text` as UTF-16 code units.
pub open spec fn utf16(text: Seq<char>) -> Seq<u16>
    decreases text.len(),
{
    if text.len() == 0 {
        Seq::empty()
    } else {
        utf16(text.drop_last()) + utf16_units(text.last())
    }
}

/// A code unit that begins a surrogate pair.
pub open spec fn is_high_surrogate(unit: u16) -> bool {
    0xD800 <= unit < 0xDC00
}

/// A code unit that ends a surrogate pair.
pub open spec fn is_low_surrogate(unit: u16) -> bool {
    0xDC00 <= unit < 0xE000
}

/// The character that a surrogate pair stands for.
pub open spec fn pair_char(high: u16, low: u16) -> char {
    (0x10000 + (high - 0xD800) * 0x400 + (low - 0xDC00)) as char
}

/// The text that `units` hold, with U+FFFD in place of each unpaired surrogate.
pub open spec fn utf16_lossy(units: Seq<u16>) -> Seq<char>
    decreases units.len(),
{
    if units.len() == 0 {
        Seq::empty()
    } else if !is_high_surrogate(units[0]) && !is_low_surrogate(units[0]) {
        seq![units[0] as char] + utf16_lossy(units.skip(1))
    } else if is_high_surrogate(units[0]) && units.len() > 1 && is_low_surrogate(units[1]) {
        seq![pair_char(units[0], units[1])] + utf16_lossy(units.skip(2))
    } else {
        seq!['\u{FFFD}'] + utf16_lossy(units.skip(1))
    }
}

/// Whether `units` hold no unpaired surrogate.
pub open spec fn utf16_well_formed(units: Seq<u16>) -> bool
    decreases units.len(),
{
    if units.len() == 0 {
        true
    } else if !is_high_surrogate(units[0]) && !is_low_surrogate(units[0]) {
        utf16_well_formed(units.skip(1))
    } else if is_high_surrogate(units[0]) && units.len() > 1 && is_low_surrogate(units[1]) {
        utf16_well_formed(units.skip(2))
    } else {
        false
    }
}

/// The numbers that stand for characters.
pub proof fn lemma_char_range(c: char)
    ensures
        0 <= c as int <= 0x10FFFF,
        !(0xD800 <= c && c < 0xE000),
        c as u32 == c as int,
{
}

/// The units of a text are those of its first character, followed by those of
/// the rest.
proof fn lemma_utf16_head(text: Seq<char>)
    requires
        text.len() > 0,
    ensures
        utf16(text) == utf16_units(text[0]) + utf16(text.skip(1)),
    decreases text.len(),
{
    if text.len() == 1 {
        assert(text.drop_last() =~= Seq::empty());
        assert(text.skip(1) =~= Seq::empty());
        assert(utf16(text) =~= utf16_units(text[0]) + utf16(text.skip(1)));
    } else {
        lemma_utf16_head(text.drop_last());
        assert(text.drop_last().skip(1) =~= text.skip(1).drop_last());
        assert(utf16(text) =~= utf16_units(text[0]) + utf16(text.skip(1)));
    }
}

/// Decoding what was encoded gives the text back, and the encoding holds no
/// unpaired surrogate.
pub proof fn law_utf16_round_trip(text: Seq<char>)
    ensures
        utf16_lossy(utf16(text)) == text,
        utf16_well_formed(utf16(text)),
    decreases text.len(),
{
    if text.len() > 0 {
        let c = text[0];
        let rest = text.skip(1);
        law_utf16_round_trip(rest);
        lemma_utf16_head(text);
        lemma_char_range(c);
        let units = utf16(text);
        if (c as int) < 0x10000 {
            assert(units.skip(1) =~= utf16(rest));
        } else {
            assert(units.skip(2) =~= utf16(rest));
        }
        assert(seq![c] + rest =~= text);
    } else {
        assert(text =~= Seq::empty());
    }
}

/// The units of ASCII text are its characters.
pub proof fn lemma_ascii_units(text: Seq<char>)
    requires
        forall|index: int| 0 <= index < text.len() ==> (#[trigger] text[index] as int) < 128,
    ensures
        utf16(text).len() == text.len(),
        forall|index: int|
            0 <= index < text.len() ==> #[trigger] utf16(text)[index] as int == text[index] as int,
    decreases text.len(),
{
    if text.len() > 0 {
        let fewer = text.drop_last();
        assert forall|index: int| 0 <= index < fewer.len() implies (#[trigger] fewer[index] as int)
            < 128 by {
            assert(fewer[index] == text[index]);
        }
        lemma_ascii_units(fewer);
        let last = text[text.len() - 1];
        assert((last as int) < 128);
        lemma_char_range(last);
        assert(utf16(text) =~= utf16(fewer).push(last as int as u16));
        assert forall|index: int| 0 <= index < text.len() implies #[trigger] utf16(text)[index] as int
            == text[index] as int by {
            if index < fewer.len() {
                assert(utf16(text)[index] == utf16(fewer)[index]);
                assert(fewer[index] == text[index]);
            }
        }
    }
}

/// Decimal text consists of digits.
pub proof fn lemma_decimal_digits(value: nat)
    ensures
        decimal(value).len() > 0,
        forall|index: int|
            0 <= index < decimal(value).len() ==> 48 <= (#[trigger] decimal(value)[index] as int)
                < 58,
    decreases value,
{
    assert(48 <= digit(value as int % 10) as int && (digit(value as int % 10) as int) < 58);
    if value >= 10 {
        lemma_decimal_digits(value / 10);
    } else {
        assert(value as int % 10 == value);
    }
}

/// Encodes `text` as UTF-16.
pub fn encode_wide(text: &str) -> (units: Vec<u16>)
    ensures
        units@ == utf16(text@),
{
    let source = characters(text);
    let mut units: Vec<u16> = Vec::new();
    let mut index: usize = 0;
    while index < source.len()
        invariant
            index <= source.len(),
            units@ == utf16(source@.take(index as int)),
        decreases source.len() - index,
    {
        let c: char = source[index];
        proof {
            lemma_char_range(c);
        }
        let value: u32 = c as u32;
        if value < 0x10000 {
            units.push(value as u16);
        } else {
            units.push((0xD800 + (value - 0x10000) / 0x400) as u16);
            units.push((0xDC00 + (value - 0x10000) % 0x400) as u16);
        }
        proof {
            let done = source@.take(index as int);
            let next = source@.take(index + 1);
            assert(next.drop_last() =~= done);
            assert(units@ =~= utf16(done) + utf16_units(c));
        }
        index = index + 1;
    }
    assert(source@.take(source@.len() as int) =~= source@);
    units
}

/// Decodes UTF-16, and says whether every surrogate was paired.
pub fn decode_wide(units: &[u16]) -> (decoded: (String, bool))
    ensures
        decoded.0@ == utf16_lossy(units@),
        decoded.1 == utf16_well_formed(units@),
{
    let mut text = String::new();
    let mut index: usize = 0;
    let mut whole: bool = true;
    assert(units@.skip(0) =~= units@);
    assert(text@ + utf16_lossy(units@) =~= utf16_lossy(units@));
    while index < units.len()
        invariant
            index <= units.len(),
            text@ + utf16_lossy(units@.skip(index as int)) == utf16_lossy(units@),
            utf16_well_formed(units@) == (whole && utf16_well_formed(units@.skip(index as int))),
        decreases units.len() - index,
    {
        let ghost before = text@;
        let ghost rest = units@.skip(index as int);
        let unit: u16 = units[index];
        let c: char;
        let used: usize;
        if unit < 0xD800 || unit >= 0xE000 {
            c = char::from_u32(unit as u32).unwrap();
            used = 1;
        } else if unit < 0xDC00 && index + 1 < units.len() && units[index + 1] >= 0xDC00
            && units[index + 1] < 0xE000 {
            let high: u32 = unit as u32 - 0xD800;
            let low: u32 = units[index + 1] as u32 - 0xDC00;
            c = char::from_u32(0x10000 + high * 0x400 + low).unwrap();
            used = 2;
            assert(c == pair_char(rest[0], rest[1]));
        } else {
            c = '\u{FFFD}';
            used = 1;
            whole = false;
        }
        text.push(c);
        index = index + used;
        proof {
            assert(rest.skip(used as int) =~= units@.skip(index as int));
            assert(utf16_lossy(rest) == seq![c] + utf16_lossy(rest.skip(used as int)));
            assert(text@ + utf16_lossy(units@.skip(index as int)) =~= before + utf16_lossy(rest));
        }
    }
    assert(units@.skip(index as int) =~= Seq::<u16>::empty());
    assert(text@ + Seq::<char>::empty() =~= text@);
    (text, whole)
}

/// The number that a digit stands for.
pub open spec fn digit_value(c: char) -> int {
    if (c as int) < 58 {
        c as int - 48
    } else {
        c as int - 87
    }
}

/// The number that digits stand for, the most significant first.
pub open spec fn number_of(digits: Seq<char>, base: int) -> int
    decreases digits.len(),
{
    if digits.len() == 0 {
        0
    } else {
        base * number_of(digits.drop_last(), base) + digit_value(digits.last())
    }
}

/// A number that was written in decimal or hexadecimal reads back as itself, and is
/// written without leading zeros.
pub proof fn law_numbers_read_back(value: nat)
    ensures
        number_of(decimal(value), 10) == value,
        number_of(hex(value), 16) == value,
        decimal(value).len() > 0,
        hex(value).len() > 0,
        value > 0 ==> decimal(value)[0] != '0' && hex(value)[0] != '0',
    decreases value,
{
    lemma_decimal_reads_back(value);
    lemma_hex_reads_back(value);
}

proof fn lemma_digit(value: int)
    requires
        0 <= value < 16,
    ensures
        digit_value(digit(value)) == value,
        value > 0 ==> digit(value) != '0',
{
}

proof fn lemma_decimal_reads_back(value: nat)
    ensures
        number_of(decimal(value), 10) == value,
        decimal(value).len() > 0,
        value > 0 ==> decimal(value)[0] != '0',
    decreases value,
{
    let low = value as int % 10;
    lemma_digit(low);
    if value < 10 {
        assert(decimal(value).drop_last() =~= Seq::empty());
        assert(number_of(Seq::empty(), 10) == 0);
        assert(decimal(value).last() == digit(low));
    } else {
        lemma_decimal_reads_back(value / 10);
        assert(decimal(value).drop_last() =~= decimal(value / 10));
    }
}

proof fn lemma_hex_reads_back(value: nat)
    ensures
        number_of(hex(value), 16) == value,
        hex(value).len() > 0,
        value > 0 ==> hex(value)[0] != '0',
    decreases value,
{
    let low = value as int % 16;
    lemma_digit(low);
    if value < 16 {
        assert(hex(value).drop_last() =~= Seq::empty());
        assert(number_of(Seq::empty(), 16) == 0);
        assert(hex(value).last() == digit(low));
    } else {
        lemma_hex_reads_back(value / 16);
        assert(hex(value).drop_last() =~= hex(value / 16));
    }
}

/// A padded number has its width, and reads back wherever it fits: one digit more takes
/// sixteen times as much.
pub proof fn law_padded_numbers_read_back(value: nat, width: nat)
    ensures
        hex_padded(value, width).len() == width,
        value == 0 ==> number_of(hex_padded(value, width), 16) == 0,
        width > 0 ==> number_of(hex_padded(value, width), 16) == 16 * number_of(
            hex_padded(value / 16, (width - 1) as nat),
            16,
        ) + value as int % 16,
    decreases width,
{
    if width > 0 {
        lemma_digit(value as int % 16);
        law_padded_numbers_read_back(value / 16, (width - 1) as nat);
        assert(hex_padded(value, width).drop_last() =~= hex_padded(
            value / 16,
            (width - 1) as nat,
        ));
    }
}

/// Texts are encoded one after the other, each character in one unit or in two.
pub proof fn law_encoding_keeps_the_order(first: Seq<char>, second: Seq<char>)
    ensures
        utf16(first + second) == utf16(first) + utf16(second),
        first.len() <= utf16(first).len() <= 2 * first.len(),
    decreases first.len() + second.len(),
{
    if second.len() > 0 {
        law_encoding_keeps_the_order(first, second.drop_last());
        assert((first + second).drop_last() =~= first + second.drop_last());
        assert(utf16(first + second) =~= utf16(first) + utf16(second));
    } else {
        assert(first + second =~= first);
        assert(utf16(first) + utf16(second) =~= utf16(first));
        if first.len() > 0 {
            law_encoding_keeps_the_order(first.drop_last(), second);
        }
    }
}

proof fn lemma_decode_one(c: char, rest: Seq<u16>)
    ensures
        utf16_lossy(utf16_units(c) + rest) == seq![c] + utf16_lossy(rest),
        utf16_well_formed(utf16_units(c) + rest) == utf16_well_formed(rest),
{
    lemma_char_range(c);
    let units = utf16_units(c) + rest;
    if (c as int) < 0x10000 {
        assert(units.skip(1) =~= rest);
    } else {
        assert(units.skip(2) =~= rest);
    }
}

/// A surrogate without its other half becomes one replacement character and is noticed;
/// the text before and behind it is not touched.
pub proof fn law_an_unpaired_surrogate_is_replaced(
    before: Seq<char>,
    surrogate: u16,
    behind: Seq<char>,
)
    requires
        0xD800 <= surrogate < 0xE000,
    ensures
        utf16_lossy(utf16(before) + seq![surrogate] + utf16(behind)) == before.push('\u{FFFD}')
            + behind,
        !utf16_well_formed(utf16(before) + seq![surrogate] + utf16(behind)),
    decreases before.len(),
{
    let units = utf16(before) + seq![surrogate] + utf16(behind);
    if before.len() == 0 {
        assert(units =~= seq![surrogate] + utf16(behind));
        assert(units.skip(1) =~= utf16(behind));
        law_utf16_round_trip(behind);
        if behind.len() > 0 {
            lemma_utf16_head(behind);
            lemma_char_range(behind[0]);
            assert(units[1] == utf16_units(behind[0])[0]);
        }
        assert(seq!['\u{FFFD}'] + behind =~= before.push('\u{FFFD}') + behind);
    } else {
        let rest = before.skip(1);
        lemma_utf16_head(before);
        law_an_unpaired_surrogate_is_replaced(rest, surrogate, behind);
        let tail = utf16(rest) + seq![surrogate] + utf16(behind);
        assert(units =~= utf16_units(before[0]) + tail);
        lemma_decode_one(before[0], tail);
        assert(seq![before[0]] + (rest.push('\u{FFFD}') + behind) =~= before.push('\u{FFFD}')
            + behind);
    }
}

/// A text whose units are all ASCII is ASCII itself.
pub proof fn lemma_ascii_text(text: Seq<char>)
    requires
        forall|index: int| 0 <= index < utf16(text).len() ==> #[trigger] utf16(text)[index] < 128,
    ensures
        forall|index: int| 0 <= index < text.len() ==> (#[trigger] text[index] as int) < 128,
    decreases text.len(),
{
    if text.len() > 0 {
        let fewer = text.drop_last();
        let last = text.last();
        let units = utf16(text);
        lemma_char_range(last);
        assert forall|index: int| 0 <= index < utf16(fewer).len() implies #[trigger] utf16(
            fewer,
        )[index] < 128 by {
            assert(units[index] == utf16(fewer)[index]);
        }
        lemma_ascii_text(fewer);
        assert(units[utf16(fewer).len() as int] == utf16_units(last)[0]);
        assert((last as int) < 128);
        assert forall|index: int| 0 <= index < text.len() implies (#[trigger] text[index] as int)
            < 128 by {
            if index < fewer.len() {
                assert(fewer[index] == text[index]);
            }
        }
    }
}

} // verus!
