//! Integers as text: decimal and hexadecimal.
use vstd::prelude::*;

verus! {

/// The character of a digit below sixteen.
pub open spec fn digit_char(d: int) -> char {
    if d < 10 {
        (d + 0x30) as char
    } else {
        (d - 10 + 0x61) as char
    }
}

/// A number in the given base, without leading zeros.
pub open spec fn in_base(n: nat, base: nat) -> Seq<char>
    decreases n,
{
    proof {
        if 2 <= base <= n {
            assert(n / base < n) by (nonlinear_arith)
                requires
                    2 <= base <= n,
            ;
        }
    }
    if base < 2 || n < base {
        seq![digit_char(n as int)]
    } else {
        in_base(n / base, base).push(digit_char((n % base) as int))
    }
}

/// An integer in decimal, with a sign in front where it is negative.
pub open spec fn decimal(v: int) -> Seq<char> {
    if v < 0 {
        seq!['-'] + in_base((-v) as nat, 10)
    } else {
        in_base(v as nat, 10)
    }
}

/// Whether every character is a decimal digit.
pub open spec fn all_digits(s: Seq<char>) -> bool {
    forall|i: int| 0 <= i < s.len() ==> '0' <= #[trigger] s[i] <= '9'
}

/// The number that decimal digits write.
pub open spec fn digits_value(s: Seq<char>) -> int
    decreases s.len(),
{
    if s.len() == 0 {
        0
    } else {
        10 * digits_value(s.drop_last()) + (s.last() as int - 0x30)
    }
}

/// The digits of a number behind its sign.
pub open spec fn unsigned_part(s: Seq<char>) -> Seq<char> {
    if s.len() > 0 && (s[0] == '-' || s[0] == '+') {
        s.drop_first()
    } else {
        s
    }
}

/// The integer that a sign and digits write.
pub open spec fn signed_value(s: Seq<char>) -> int {
    if s.len() > 0 && s[0] == '-' {
        -digits_value(unsigned_part(s))
    } else {
        digits_value(unsigned_part(s))
    }
}

/// The 64-bit integer that `s` writes: an optional sign, then decimal digits alone.
pub open spec fn parsed_i64(s: Seq<char>) -> Option<i64> {
    if unsigned_part(s).len() > 0 && all_digits(unsigned_part(s)) && i64::MIN <= signed_value(s)
        <= i64::MAX {
        Some(signed_value(s) as i64)
    } else {
        None
    }
}

/// Two hexadecimal digits for each byte.
pub open spec fn hex_bytes(bytes: Seq<u8>) -> Seq<char> {
    Seq::new(
        2 * bytes.len(),
        |i: int|
            if i % 2 == 0 {
                digit_char(bytes[i / 2] as int / 16)
            } else {
                digit_char(bytes[i / 2] as int % 16)
            },
    )
}

fn digit(d: u64) -> (c: char)
    requires
        d < 16,
    ensures
        c == digit_char(d as int),
{
    if d < 10 {
        (d as u8 + 0x30) as char
    } else {
        (d as u8 - 10 + 0x61) as char
    }
}

fn push_in_base(out: &mut String, n: u64, base: u64)
    requires
        2 <= base <= 16,
    ensures
        final(out)@ == old(out)@ + in_base(n as nat, base as nat),
    decreases n,
{
    if n < base {
        out.push(digit(n));
    } else {
        assert(n / base < n) by (nonlinear_arith)
            requires
                2 <= base <= n,
        ;
        push_in_base(out, n / base, base);
        out.push(digit(n % base));
    }
}

/// `v` in decimal.
pub fn decimal_text(v: i64) -> (r: String)
    ensures
        r@ == decimal(v as int),
{
    let mut out = String::new();
    if v < 0 {
        out.push('-');
        push_in_base(&mut out, (-(v as i128)) as u64, 10);
    } else {
        push_in_base(&mut out, v as u64, 10);
    }
    out
}

/// `n` in decimal.
pub fn count_text(n: usize) -> (r: String)
    ensures
        r@ == decimal(n as int),
{
    let mut out = String::new();
    push_in_base(&mut out, n as u64, 10);
    out
}

/// `n` in hexadecimal, without leading zeros.
pub fn hex_text(n: u64) -> (r: String)
    ensures
        r@ == in_base(n as nat, 16),
{
    let mut out = String::new();
    push_in_base(&mut out, n, 16);
    out
}

/// Two hexadecimal digits for each byte.
pub fn hex_of_bytes(bytes: &[u8]) -> (r: String)
    ensures
        r@ == hex_bytes(bytes@),
{
    let mut out = String::new();
    for i in 0..bytes.len()
        invariant
            out@ =~= hex_bytes(bytes@.take(i as int)),
    {
        let b: u8 = bytes[i];
        out.push(digit((b / 16) as u64));
        out.push(digit((b % 16) as u64));
    }
    assert(bytes@.take(bytes@.len() as int) =~= bytes@);
    out
}

/// More digits write no smaller number.
proof fn lemma_digits_grow(s: Seq<char>, n: int)
    requires
        0 <= n <= s.len(),
        all_digits(s),
    ensures
        0 <= digits_value(s.take(n)) <= digits_value(s),
    decreases s.len(),
{
    if s.len() == 0 {
        assert(s.take(n) =~= s);
    } else if n == s.len() {
        assert(s.take(n) =~= s);
        lemma_digits_grow(s.drop_last(), n - 1);
    } else {
        lemma_digits_grow(s.drop_last(), n);
        assert(s.drop_last().take(n) =~= s.take(n));
    }
}

/// The 64-bit integer that `s` writes: an optional sign, then decimal digits alone.
pub fn parse_i64(s: &[char]) -> (r: Option<i64>)
    ensures
        r == parsed_i64(s@),
{
    let negative: bool = s.len() > 0 && s[0] == '-';
    let from: usize = if s.len() > 0 && (s[0] == '-' || s[0] == '+') {
        1
    } else {
        0
    };
    let ghost body = unsigned_part(s@);
    assert(body =~= s@.subrange(from as int, s@.len() as int));
    if from == s.len() {
        return None;
    }
    let mut acc: i128 = 0;
    let mut i: usize = from;
    while i < s.len()
        invariant
            from <= i <= s@.len(),
            from <= 1,
            body == s@.subrange(from as int, s@.len() as int),
            body == unsigned_part(s@),
            forall|j: int| 0 <= j < i - from ==> '0' <= #[trigger] body[j] <= '9',
            acc == digits_value(body.take(i - from)),
            0 <= acc <= 0x8000_0000_0000_0000,
        decreases s.len() - i,
    {
        let c: char = s[i];
        assert(body[i - from] == c);
        if !('0' <= c && c <= '9') {
            return None;
        }
        assert(body.take(i + 1 - from).drop_last() =~= body.take(i - from));
        acc = 10 * acc + (c as u32 as i128 - 0x30);
        if acc > 0x8000_0000_0000_0000 {
            proof {
                if all_digits(body) {
                    lemma_digits_grow(body, i + 1 - from);
                }
            }
            return None;
        }
        i += 1;
    }
    assert(body.take(body.len() as int) =~= body);
    let v: i128 = if negative {
        -acc
    } else {
        acc
    };
    if v > i64::MAX as i128 {
        None
    } else {
        Some(v as i64)
    }
}

proof fn lemma_in_base_digits(n: nat)
    ensures
        in_base(n, 10).len() > 0,
        all_digits(in_base(n, 10)),
        digits_value(in_base(n, 10)) == n,
    decreases n,
{
    let s = in_base(n, 10);
    if n >= 10 {
        lemma_in_base_digits(n / 10);
        assert(s.drop_last() =~= in_base(n / 10, 10));
    } else {
        assert(s.drop_last() =~= Seq::empty());
        assert(digits_value(s.drop_last()) == 0);
    }
}

/// Reading back a number written in decimal gives that number.
pub proof fn law_decimal_reads_back(v: i64)
    ensures
        parsed_i64(decimal(v as int)) == Some(v),
{
    let n: nat = if v < 0 {
        (-v) as nat
    } else {
        v as nat
    };
    lemma_in_base_digits(n);
    let s = decimal(v as int);
    if v < 0 {
        assert(s.drop_first() =~= in_base(n, 10));
    }
}

/// Different digits have different characters.
pub proof fn lemma_digits_differ(a: int, b: int)
    requires
        0 <= a < 16,
        0 <= b < 16,
        digit_char(a) == digit_char(b),
    ensures
        a == b,
{
}

} // verus!
