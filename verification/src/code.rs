//! Reading x86-64 code bytes: displacements, references and conditional jumps.
use vstd::prelude::*;

verus! {

/// An address: arithmetic on addresses wraps at 64 bits.
pub open spec fn wrap(x: int) -> int {
    x % 0x1_0000_0000_0000_0000
}

/// The offset from the image base of the address `x` bytes behind it, unless the address
/// lies before the base.
pub open spec fn rva_of(base: int, x: int) -> Option<int> {
    if wrap(base + x) >= base {
        Some(wrap(base + x) - base)
    } else {
        None
    }
}

/// The signed 32-bit number whose little-endian bytes stand at `i`.
pub open spec fn le_i32(buf: Seq<u8>, i: int) -> int {
    let u = buf[i] + 0x100 * buf[i + 1] + 0x1_0000 * buf[i + 2] + 0x100_0000 * buf[i + 3];
    if u < 0x8000_0000 {
        u
    } else {
        u - 0x1_0000_0000
    }
}

/// The signed number that a byte holds.
pub open spec fn signed_byte(b: u8) -> int {
    if b < 0x80 {
        b as int
    } else {
        b - 0x100
    }
}

/// A `je` or `jne`: its opcode (the second byte of the near form), its length and its
/// displacement.
pub struct Jcc {
    pub opcode: u8,
    pub len: usize,
    pub disp: i64,
}

/// The `je` or `jne` that stands at `pos`.
pub open spec fn jcc_at(buf: Seq<u8>, pos: int) -> Option<Jcc> {
    if pos + 1 >= buf.len() {
        None
    } else if buf[pos] == 0x74 || buf[pos] == 0x75 {
        Some(Jcc { opcode: buf[pos], len: 2, disp: signed_byte(buf[pos + 1]) as i64 })
    } else if buf[pos] == 0x0f && (buf[pos + 1] == 0x84 || buf[pos + 1] == 0x85) {
        Some(Jcc { opcode: buf[pos + 1], len: 6, disp: le_i32(buf, pos + 2) as i64 })
    } else {
        None
    }
}

/// Whether a near jump that begins at `pos` stands there whole.
pub open spec fn jcc_readable(buf: Seq<u8>, pos: int) -> bool {
    pos + 1 < buf.len() && buf[pos] == 0x0f && (buf[pos + 1] == 0x84 || buf[pos + 1] == 0x85)
        ==> pos + 5 < buf.len()
}

/// `x` wrapped at 64 bits.
pub fn wrapped(x: i128) -> (r: u64)
    requires
        -0x1_0000_0000_0000_0000 <= x <= 0x4_0000_0000_0000_0000,
    ensures
        r == wrap(x as int),
{
    let y: u128 = (x + 0x1_0000_0000_0000_0000) as u128;
    (y % 0x1_0000_0000_0000_0000) as u64
}

/// The offset from the image base of the address `x` bytes behind it, unless the address
/// lies before the base.
pub fn rva_from(base: u64, x: i128) -> (r: Option<u64>)
    requires
        -0x1_0000_0000 <= x <= 0x2_0000_0000_0000_0000,
    ensures
        match r {
            Some(v) => rva_of(base as int, x as int) == Some(v as int),
            None => rva_of(base as int, x as int) is None,
        },
{
    let va: u64 = wrapped(base as i128 + x);
    if va >= base {
        Some(va - base)
    } else {
        None
    }
}

/// The signed 32-bit number whose little-endian bytes stand at `i`.
pub fn read_i32(buf: &[u8], i: usize) -> (r: i64)
    requires
        i + 3 < buf@.len(),
    ensures
        r == le_i32(buf@, i as int),
        -0x8000_0000 <= r < 0x8000_0000,
{
    assert(buf@.len() == buf.len());
    let u: i64 = buf[i] as i64 + 0x100 * (buf[i + 1] as i64) + 0x1_0000 * (buf[i + 2] as i64)
        + 0x100_0000 * (buf[i + 3] as i64);
    if u < 0x8000_0000 {
        u
    } else {
        u - 0x1_0000_0000
    }
}

/// The `je` or `jne` that stands at `pos`.
pub fn jcc_info(buf: &[u8], pos: usize) -> (r: Option<Jcc>)
    requires
        jcc_readable(buf@, pos as int),
    ensures
        r == jcc_at(buf@, pos as int),
        r matches Some(j) ==> -0x8000_0000 <= j.disp < 0x8000_0000,
{
    if buf.len() < 2 || pos >= buf.len() - 1 {
        return None;
    }
    let b: u8 = buf[pos];
    let c: u8 = buf[pos + 1];
    if b == 0x74 || b == 0x75 {
        let disp: i64 = if c < 0x80 {
            c as i64
        } else {
            c as i64 - 0x100
        };
        Some(Jcc { opcode: b, len: 2, disp })
    } else if b == 0x0f && (c == 0x84 || c == 0x85) {
        Some(Jcc { opcode: c, len: 6, disp: read_i32(buf, pos + 2) })
    } else {
        None
    }
}

} // verus!
