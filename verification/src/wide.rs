//! Text for the host: UTF-16 with a zero at its end.
use crate::text::chars_of;
use vstd::prelude::*;

verus! {

/// The UTF-16 code units of a character: one, or a surrogate pair from `U+10000` on.
pub open spec fn char_units(c: char) -> Seq<u16> {
    let v = c as u32;
    if v < 0x10000 {
        seq![v as u16]
    } else {
        seq![
            (0xd800 + (v - 0x10000) / 0x400) as u16,
            (0xdc00 + (v - 0x10000) % 0x400) as u16,
        ]
    }
}

/// The UTF-16 code units of a text.
pub open spec fn utf16(s: Seq<char>) -> Seq<u16>
    decreases s.len(),
{
    if s.len() == 0 {
        Seq::empty()
    } else {
        utf16(s.drop_last()) + char_units(s.last())
    }
}

/// A text in UTF-16, with a zero at its end.
pub open spec fn wide(s: Seq<char>) -> Seq<u16> {
    utf16(s).push(0)
}

/// The second half of a surrogate pair.
pub open spec fn is_low_surrogate(unit: u16) -> bool {
    0xdc00 <= unit <= 0xdfff
}

/// The text that UTF-16 code units stand for, read from the end.
pub open spec fn decoded(units: Seq<u16>) -> Seq<char>
    decreases units.len(),
{
    if units.len() == 0 {
        Seq::empty()
    } else if is_low_surrogate(units.last()) && units.len() > 1 {
        let high = units[units.len() - 2] as int;
        let low = units.last() as int;
        decoded(units.take(units.len() - 2)).push(
            (0x10000 + (high - 0xd800) * 0x400 + (low - 0xdc00)) as char,
        )
    } else {
        decoded(units.drop_last()).push(units.last() as char)
    }
}

/// Turns a text into UTF-16, with a zero at its end.
pub fn to_utf16_nul(s: &str) -> (units: Vec<u16>)
    ensures
        units@ == wide(s@),
{
    let chars = chars_of(s);
    let mut units: Vec<u16> = Vec::new();
    let mut i: usize = 0;
    while i < chars.len()
        invariant
            i <= chars.len(),
            chars@ == s@,
            units@ == utf16(s@.take(i as int)),
        decreases chars.len() - i,
    {
        assert(s@.take(i + 1).drop_last() == s@.take(i as int));
        push_units(&mut units, chars[i]);
        i += 1;
    }
    assert(s@.take(i as int) == s@);
    units.push(0);
    units
}

/// Appends the code units of a character.
fn push_units(units: &mut Vec<u16>, c: char)
    ensures
        final(units)@ == old(units)@ + char_units(c),
{
    let v: u32 = c as u32;
    if v < 0x10000 {
        units.push(v as u16);
    } else {
        let rest: u32 = v - 0x10000;
        units.push((0xd800 + rest / 0x400) as u16);
        units.push((0xdc00 + rest % 0x400) as u16);
    }
}

/// The text that stands before the zero at the end is the text that was turned into UTF-16.
pub proof fn wide_text_reads_back(s: Seq<char>)
    ensures
        wide(s).last() == 0,
        decoded(wide(s).drop_last()) == s,
{
    assert(wide(s).drop_last() == utf16(s));
    lemma_decoded(s);
}

proof fn lemma_decoded(s: Seq<char>)
    ensures
        decoded(utf16(s)) == s,
    decreases s.len(),
{
    if s.len() > 0 {
        let init = s.drop_last();
        let c = s.last();
        lemma_decoded(init);
        let units = utf16(s);
        let head = utf16(init);
        lemma_char_units(c);
        if (c as u32) < 0x10000 {
            assert(units.drop_last() == head);
            assert(units.last() as char == c);
        } else {
            assert(units.take(units.len() - 2) == head);
            assert(units.last() == char_units(c)[1]);
            assert(units[units.len() - 2] == char_units(c)[0]);
        }
        assert(decoded(units) == init.push(c));
    }
}

proof fn lemma_char_units(c: char)
    ensures
        (c as u32) < 0x10000 ==> char_units(c).len() == 1 && char_units(c)[0] as char == c
            && !is_low_surrogate(char_units(c)[0]),
        c as u32 >= 0x10000 ==> char_units(c).len() == 2 && is_low_surrogate(char_units(c)[1])
            && (0x10000 + (char_units(c)[0] as int - 0xd800) * 0x400 + (char_units(c)[1] as int
            - 0xdc00)) as char == c,
{
}

/// The units of a text are those of its characters, one after the other, and every text has a zero
/// after them.
pub proof fn units_are_those_of_the_characters(a: Seq<char>, b: Seq<char>, c: char)
    ensures
        utf16(a + b) == utf16(a) + utf16(b),
        utf16(seq![c]) == char_units(c),
        utf16(Seq::<char>::empty()).len() == 0,
        wide(a) == utf16(a) + seq![0u16],
    decreases b.len(),
{
    reveal_with_fuel(utf16, 2);
    assert(seq![c].drop_last() =~= Seq::<char>::empty());
    assert(utf16(seq![c]) =~= char_units(c));
    if b.len() > 0 {
        assert((a + b).drop_last() =~= a + b.drop_last());
        units_are_those_of_the_characters(a, b.drop_last(), c);
        assert(utf16(a + b) =~= utf16(a) + utf16(b));
    } else {
        assert(a + b =~= a);
        assert(utf16(a) + utf16(b) =~= utf16(a));
    }
}

/// A character under `U+10000` is one unit, itself; any other is two, the first and the second half
/// of a surrogate pair, which tell its code point.
pub proof fn characters_have_one_or_two_units(c: char)
    ensures
        (c as u32) < 0x10000 ==> char_units(c).len() == 1 && char_units(c)[0] as int == c as int,
        c as u32 >= 0x10000 ==> {
            &&& char_units(c).len() == 2
            &&& 0xd800 <= char_units(c)[0] <= 0xdbff
            &&& 0xdc00 <= char_units(c)[1] <= 0xdfff
            &&& c as int == 0x10000 + (char_units(c)[0] - 0xd800) * 0x400 + (char_units(c)[1]
                - 0xdc00)
        },
{
}

} // verus!
