//! Text as UTF-16 units and little-endian bytes.
use vstd::prelude::*;

verus! {

/// The UTF-16 units of one character: the character itself, or a surrogate pair.
pub open spec fn char_units(c: char) -> Seq<u16> {
    if (c as u32) < 0x10000 {
        seq![c as u16]
    } else {
        seq![
            (0xd800 + (c as u32 - 0x10000) / 0x400) as u16,
            (0xdc00 + (c as u32 - 0x10000) % 0x400) as u16,
        ]
    }
}

/// The UTF-16 units of a text.
pub open spec fn utf16_units(s: Seq<char>) -> Seq<u16>
    decreases s.len(),
{
    if s.len() == 0 {
        Seq::empty()
    } else {
        utf16_units(s.drop_last()) + char_units(s.last())
    }
}

/// The two bytes of a unit, low byte first.
pub open spec fn unit_bytes(u: u16) -> Seq<u8> {
    seq![(u % 256) as u8, (u / 256) as u8]
}

/// The bytes of units, each low byte first.
pub open spec fn units_bytes(units: Seq<u16>) -> Seq<u8> {
    Seq::new(2 * units.len(), |i: int| unit_bytes(units[i / 2])[i % 2])
}

/// The little-endian UTF-16 bytes of a text.
pub open spec fn utf16_bytes(s: Seq<char>) -> Seq<u8> {
    units_bytes(utf16_units(s))
}

fn push_units(out: &mut Vec<u16>, c: char)
    ensures
        final(out)@ == old(out)@ + char_units(c),
{
    let u: u32 = c as u32;
    if u < 0x10000 {
        out.push(u as u16);
    } else {
        let v: u32 = u - 0x10000;
        out.push((0xd800 + v / 0x400) as u16);
        out.push((0xdc00 + v % 0x400) as u16);
    }
}

/// The UTF-16 units of `s`.
pub fn encode_utf16(s: &[char]) -> (out: Vec<u16>)
    ensures
        out@ == utf16_units(s@),
{
    let mut out: Vec<u16> = Vec::new();
    for i in 0..s.len()
        invariant
            out@ == utf16_units(s@.take(i as int)),
    {
        assert(s@.take(i + 1).drop_last() =~= s@.take(i as int));
        push_units(&mut out, s[i]);
    }
    assert(s@.take(s@.len() as int) =~= s@);
    out
}

/// The bytes of `units`, each low byte first.
pub fn to_le_bytes(units: &[u16]) -> (out: Vec<u8>)
    ensures
        out@ == units_bytes(units@),
{
    let mut out: Vec<u8> = Vec::new();
    for i in 0..units.len()
        invariant
            out@ =~= units_bytes(units@.take(i as int)),
    {
        let u: u16 = units[i];
        out.push((u % 256) as u8);
        out.push((u / 256) as u8);
    }
    assert(units@.take(units@.len() as int) =~= units@);
    out
}

/// Text of characters below the surrogates has one unit each.
pub proof fn lemma_narrow_units(s: Seq<char>)
    requires
        forall|i: int| 0 <= i < s.len() ==> (#[trigger] s[i] as u32) < 0x80,
    ensures
        utf16_units(s) == Seq::new(s.len(), |i: int| s[i] as u16),
    decreases s.len(),
{
    if s.len() > 0 {
        lemma_narrow_units(s.drop_last());
    }
    assert(utf16_units(s) =~= Seq::new(s.len(), |i: int| s[i] as u16));
}

} // verus!
