//! What texts, numbers and searches mean, stated on characters and bytes.
use crate::numbers::{all_digits, decimal, digit_char, digits_value, hex_bytes, in_base, parsed_i64};
use crate::search::{
    lemma_next_occurrence, lemma_occurrences, next_occurrence, occurrences, occurs_at,
};
use crate::text::{has_part, is_white_space, trim_back, trim_front, trimmed};
use crate::utf16::{char_units, units_bytes, utf16_units};
use vstd::prelude::*;

verus! {

/// The number that digits write in a base, the letters from `a` on standing for ten and more.
pub open spec fn value_in(s: Seq<char>, base: int) -> int
    decreases s.len(),
{
    if s.len() == 0 {
        0
    } else {
        base * value_in(s.drop_last(), base) + (if s.last() <= '9' {
            s.last() as int - '0' as int
        } else {
            s.last() as int - 'a' as int + 10
        })
    }
}

proof fn lemma_one_digit(n: nat, base: nat)
    requires
        n < base <= 16,
    ensures
        value_in(in_base(n, base), base as int) == n,
{
    let s = in_base(n, base);
    let b = base as int;
    assert(s.drop_last() =~= Seq::empty());
    assert(value_in(s.drop_last(), b) == 0);
    assert(b * value_in(s.drop_last(), b) == 0) by (nonlinear_arith)
        requires
            value_in(s.drop_last(), b) == 0,
    ;
}

/// A number is written with digits of its base alone, without a leading zero, and the digits
/// write that number.
pub proof fn law_digits_write_the_number(n: nat, base: nat)
    requires
        2 <= base <= 16,
    ensures
        value_in(in_base(n, base), base as int) == n,
        in_base(n, base).len() > 0,
        in_base(n, base).len() > 1 ==> in_base(n, base)[0] != '0',
        forall|i: int|
            0 <= i < in_base(n, base).len() ==> {
                let c = #[trigger] in_base(n, base)[i];
                ('0' <= c <= '9' && c as int - '0' as int <= base - 1) || ('a' <= c && c as int
                    - 'a' as int + 10 <= base - 1)
            },
    decreases n,
{
    let s = in_base(n, base);
    if n < base {
        lemma_one_digit(n, base);
    } else {
        let q = n / base;
        let r = n % base;
        assert(q < n && q > 0 && r < base && n == base * q + r) by (nonlinear_arith)
            requires
                2 <= base <= n,
                q == n / base,
                r == n % base,
        ;
        law_digits_write_the_number(q, base);
        assert(s.drop_last() =~= in_base(q, base));
        assert(s.last() == digit_char(r as int));
        assert(s[0] == in_base(q, base)[0]);
        let b = base as int;
        let front = value_in(in_base(q, base), b);
        assert(b * front == base * q) by (nonlinear_arith)
            requires
                b == base,
                front == q,
        ;
        if in_base(q, base).len() == 1 {
            let t = in_base(q, base);
            assert(t.drop_last() =~= Seq::empty());
            assert(value_in(t.drop_last(), b) == 0);
            assert(b * value_in(t.drop_last(), b) == 0) by (nonlinear_arith)
                requires
                    value_in(t.drop_last(), b) == 0,
            ;
            assert(t[0] != '0');
        }
        assert forall|i: int| 0 <= i < s.len() implies {
            let c = #[trigger] s[i];
            ('0' <= c <= '9' && c as int - '0' as int <= base - 1) || ('a' <= c && c as int
                - 'a' as int + 10 <= base - 1)
        } by {
            if i < s.len() - 1 {
                assert(s[i] == in_base(q, base)[i]);
            }
        }
    }
}

/// A negative number is written as its amount with a minus sign in front, any other as its
/// digits.
pub proof fn law_sign_stands_in_front(v: int)
    ensures
        v < 0 ==> decimal(v) == seq!['-'] + decimal(-v),
        v >= 0 ==> value_in(decimal(v), 10) == v && decimal(v)[0] != '-',
{
    if v >= 0 {
        law_digits_write_the_number(v as nat, 10);
        let c = in_base(v as nat, 10)[0];
        assert('0' <= c);
    }
}

proof fn lemma_digits_value(n: nat)
    ensures
        digits_value(in_base(n, 10)) == n,
        all_digits(in_base(n, 10)),
        in_base(n, 10).len() > 0,
    decreases n,
{
    let s = in_base(n, 10);
    if n >= 10 {
        lemma_digits_value(n / 10);
        assert(s.drop_last() =~= in_base(n / 10, 10));
    } else {
        assert(s.drop_last() =~= Seq::empty());
        assert(digits_value(s.drop_last()) == 0);
    }
}

proof fn lemma_zeros(z: nat, s: Seq<char>)
    requires
        all_digits(s),
    ensures
        digits_value(Seq::new(z, |i: int| '0') + s) == digits_value(s),
        all_digits(Seq::new(z, |i: int| '0') + s),
    decreases s.len(), z,
{
    let zeros = Seq::new(z, |i: int| '0');
    if s.len() > 0 {
        lemma_zeros(z, s.drop_last());
        assert((zeros + s).drop_last() =~= zeros + s.drop_last());
    } else if z > 0 {
        let fewer = Seq::new((z - 1) as nat, |i: int| '0');
        lemma_zeros((z - 1) as nat, s);
        assert((zeros + s).drop_last() =~= fewer + s);
        assert((zeros + s).last() == '0');
    }
}

/// A number is read whatever zeros stand before its digits, with a minus sign where it is
/// negative and with or without a plus sign where it is not.
pub proof fn law_numbers_are_read(v: i64, zeros: nat)
    ensures
        ({
            let z = Seq::new(zeros, |i: int| '0');
            &&& v >= 0 ==> parsed_i64(z + decimal(v as int)) == Some(v)
            &&& v >= 0 ==> parsed_i64(seq!['+'] + z + decimal(v as int)) == Some(v)
            &&& v <= 0 ==> parsed_i64(seq!['-'] + z + decimal(-v as int)) == Some(v)
        }),
{
    let z = Seq::new(zeros, |i: int| '0');
    let n: nat = if v < 0 {
        (-v) as nat
    } else {
        v as nat
    };
    let d = z + in_base(n, 10);
    lemma_digits_value(n);
    lemma_zeros(zeros, in_base(n, 10));
    assert('0' <= d[0] <= '9');
    assert((seq!['+'] + d).drop_first() =~= d);
    assert((seq!['-'] + d).drop_first() =~= d);
    assert(seq!['+'] + z + in_base(n, 10) =~= seq!['+'] + d);
    assert(seq!['-'] + z + in_base(n, 10) =~= seq!['-'] + d);
}

/// What holds anything but digits behind its sign, or no digit at all, is no number.
pub proof fn law_other_text_is_no_number(s: Seq<char>, i: int)
    requires
        s.len() == 0 || s == seq!['+'] || s == seq!['-'] || (0 <= i < s.len() && !('0' <= s[i]
            <= '9') && !(i == 0 && (s[0] == '+' || s[0] == '-'))),
    ensures
        parsed_i64(s) is None,
{
    if s.len() > 0 && 0 <= i < s.len() && !('0' <= s[i] <= '9') {
        if s[0] == '+' || s[0] == '-' {
            if i > 0 {
                assert(s.drop_first()[i - 1] == s[i]);
            }
        }
    }
}

/// A number that takes more than 64 bits is not read, whatever zeros stand before its digits and
/// with a sign or without.
pub proof fn law_large_numbers_are_not_read(n: nat, zeros: nat)
    ensures
        ({
            let z = Seq::new(zeros, |i: int| '0');
            &&& n > i64::MAX ==> parsed_i64(z + in_base(n, 10)) is None
            &&& n > i64::MAX ==> parsed_i64(seq!['+'] + z + in_base(n, 10)) is None
            &&& n > 0x8000_0000_0000_0000 ==> parsed_i64(seq!['-'] + z + in_base(n, 10)) is None
        }),
{
    let z = Seq::new(zeros, |i: int| '0');
    let d = z + in_base(n, 10);
    lemma_digits_value(n);
    lemma_zeros(zeros, in_base(n, 10));
    assert('0' <= d[0] <= '9');
    assert((seq!['+'] + d).drop_first() =~= d);
    assert((seq!['-'] + d).drop_first() =~= d);
    assert(seq!['+'] + z + in_base(n, 10) =~= seq!['+'] + d);
    assert(seq!['-'] + z + in_base(n, 10) =~= seq!['-'] + d);
}

/// Each byte is written with two hexadecimal digits, in order.
pub proof fn law_hex_reads_back(bytes: Seq<u8>, i: int)
    requires
        0 <= i < bytes.len(),
    ensures
        hex_bytes(bytes).len() == 2 * bytes.len(),
        value_in(hex_bytes(bytes).subrange(2 * i, 2 * i + 2), 16) == bytes[i],
        forall|k: int|
            0 <= k < hex_bytes(bytes).len() ==> {
                let c = #[trigger] hex_bytes(bytes)[k];
                '0' <= c <= '9' || 'a' <= c <= 'f'
            },
{
    let p = hex_bytes(bytes).subrange(2 * i, 2 * i + 2);
    assert(p[0] == hex_bytes(bytes)[2 * i]);
    assert(p[1] == hex_bytes(bytes)[2 * i + 1]);
    assert(p.drop_last().drop_last() =~= Seq::empty());
    assert(p.drop_last().last() == p[0]);
    reveal_with_fuel(value_in, 3);
}

/// The code points that count as white space.
proof fn lemma_white(u: u32)
    requires
        u == 0x09 || u == 0x0a || u == 0x0b || u == 0x0c || u == 0x0d || u == 0x20 || u == 0x85 || u
            == 0xa0 || u == 0x1680 || 0x2000 <= u <= 0x200a || u == 0x2028 || u == 0x2029 || u
            == 0x202f || u == 0x205f || u == 0x3000,
    ensures
        forall|c: char| c as u32 == u ==> is_white_space(c),
{
}

/// Text of white space alone: tabs, line ends, spaces of any width.
pub open spec fn blank(s: Seq<char>) -> bool {
    forall|i: int| #![trigger s[i]]
        0 <= i < s.len() ==> {
            let u = s[i] as u32;
            u == 0x09 || u == 0x0a || u == 0x0b || u == 0x0c || u == 0x0d || u == 0x20 || u == 0x85
                || u == 0xa0 || u == 0x1680 || 0x2000 <= u <= 0x200a || u == 0x2028 || u == 0x2029
                || u == 0x202f || u == 0x205f || u == 0x3000
        }
}

proof fn lemma_front(a: Seq<char>, s: Seq<char>)
    requires
        blank(a),
    ensures
        trim_front(a + s) == trim_front(s),
    decreases a.len(),
{
    if a.len() > 0 {
        lemma_white(a[0] as u32);
        assert((a + s).first() == a[0]);
        assert((a + s).drop_first() =~= a.drop_first() + s);
        assert forall|i: int| #![trigger a.drop_first()[i]] 0 <= i < a.drop_first().len() implies {
            let u = a.drop_first()[i] as u32;
            u == 0x09 || u == 0x0a || u == 0x0b || u == 0x0c || u == 0x0d || u == 0x20 || u == 0x85
                || u == 0xa0 || u == 0x1680 || 0x2000 <= u <= 0x200a || u == 0x2028 || u == 0x2029
                || u == 0x202f || u == 0x205f || u == 0x3000
        } by {
            assert(a.drop_first()[i] == a[i + 1]);
        }
        lemma_front(a.drop_first(), s);
    } else {
        assert(a + s =~= s);
    }
}

proof fn lemma_back(s: Seq<char>, b: Seq<char>)
    requires
        blank(b),
    ensures
        trim_back(s + b) == trim_back(s),
    decreases b.len(),
{
    if b.len() > 0 {
        lemma_white(b.last() as u32);
        assert((s + b).last() == b.last());
        assert((s + b).drop_last() =~= s + b.drop_last());
        lemma_back(s, b.drop_last());
    } else {
        assert(s + b =~= s);
    }
}

proof fn lemma_blank_trims(a: Seq<char>)
    requires
        blank(a),
    ensures
        trim_front(a) == Seq::<char>::empty(),
{
    lemma_front(a, Seq::empty());
    assert(a + Seq::<char>::empty() =~= a);
}

/// Trimming takes off all the white space around a text and nothing else.
pub proof fn law_trimming_takes_the_white_space(a: Seq<char>, core: Seq<char>, b: Seq<char>)
    requires
        blank(a),
        blank(b),
        core.len() > 0 ==> !blank(seq![core.first()]) && !blank(seq![core.last()]),
    ensures
        trimmed(a + core + b) == core,
{
    assert(a + core + b =~= a + (core + b));
    lemma_front(a, core + b);
    if core.len() > 0 {
        assert(!is_white_space(core.first())) by {
            if is_white_space(core.first()) {
                assert(blank(seq![core.first()]));
            }
        }
        assert(!is_white_space(core.last())) by {
            if is_white_space(core.last()) {
                assert(blank(seq![core.last()]));
            }
        }
        assert((core + b).first() == core.first());
        lemma_back(core, b);
    } else {
        assert(core + b =~= b);
        lemma_blank_trims(b);
        assert(core =~= Seq::empty());
    }
}

/// A text holds a part exactly where it can be cut before and behind it.
pub proof fn law_parts_are_held(s: Seq<char>, part: Seq<char>)
    ensures
        has_part(s, part) <==> exists|a: Seq<char>, b: Seq<char>| s == #[trigger] (a + part + b),
{
    lemma_next_occurrence(s, part, 0);
    if has_part(s, part) {
        let i = next_occurrence(s, part, 0)->0;
        let a = s.take(i);
        let b = s.skip(i + part.len());
        assert(s =~= a + part + b) by {
            assert(s.subrange(i, i + part.len()) == part);
            assert forall|k: int| 0 <= k < s.len() implies s[k] == (a + part + b)[k] by {
                if i <= k < i + part.len() {
                    assert(s.subrange(i, i + part.len())[k - i] == s[k]);
                }
            }
        }
    }
    if exists|a: Seq<char>, b: Seq<char>| s == #[trigger] (a + part + b) {
        let (a, b) = choose|a: Seq<char>, b: Seq<char>| s == #[trigger] (a + part + b);
        assert(s.subrange(a.len() as int, a.len() as int + part.len()) =~= part);
        assert(occurs_at(s, part, a.len() as int));
    }
}

/// The places at which something is found ascend and do not overlap, and every place at which it
/// stands is found or overlaps one before it that is.
pub proof fn law_every_occurrence_counts<T>(s: Seq<T>, p: Seq<T>, x: int)
    requires
        p.len() > 0,
    ensures
        forall|i: int, j: int|
            0 <= i < j < occurrences(s, p, 0).len() ==> #[trigger] occurrences(s, p, 0)[i]
                + p.len() <= #[trigger] occurrences(s, p, 0)[j],
        forall|i: int|
            0 <= i < occurrences(s, p, 0).len() ==> {
                let y = #[trigger] occurrences(s, p, 0)[i];
                0 <= y && y + p.len() <= s.len() && s.subrange(y, y + p.len()) == p
            },
        0 <= x && x + p.len() <= s.len() && s.subrange(x, x + p.len()) == p ==> exists|i: int|
            0 <= i < occurrences(s, p, 0).len() && x - p.len() < #[trigger] occurrences(s, p, 0)[i]
                <= x,
{
    lemma_occurrences(s, p, 0);
    lemma_occurrences_apart(s, p, 0);
    if 0 <= x && x + p.len() <= s.len() && s.subrange(x, x + p.len()) == p {
        lemma_occurrence_met(s, p, 0, x);
    }
}

proof fn lemma_occurrences_apart<T>(s: Seq<T>, p: Seq<T>, from: int)
    requires
        p.len() > 0,
    ensures
        forall|i: int, j: int|
            0 <= i < j < occurrences(s, p, from).len() ==> #[trigger] occurrences(s, p, from)[i]
                + p.len() <= #[trigger] occurrences(s, p, from)[j],
    decreases s.len() - from,
{
    lemma_next_occurrence(s, p, from);
    if let Some(y) = next_occurrence(s, p, from) {
        let rest = occurrences(s, p, y + p.len());
        let all = occurrences(s, p, from);
        lemma_occurrences_apart(s, p, y + p.len());
        lemma_occurrences(s, p, y + p.len());
        assert forall|i: int, j: int| 0 <= i < j < all.len() implies #[trigger] all[i] + p.len()
            <= #[trigger] all[j] by {
            assert(all[j] == rest[j - 1]);
            if i > 0 {
                assert(all[i] == rest[i - 1]);
            }
        }
    }
}

proof fn lemma_occurrence_met<T>(s: Seq<T>, p: Seq<T>, from: int, x: int)
    requires
        p.len() > 0,
        0 <= from <= x,
        occurs_at(s, p, x),
    ensures
        exists|i: int|
            0 <= i < occurrences(s, p, from).len() && x - p.len() < #[trigger] occurrences(
                s,
                p,
                from,
            )[i] <= x,
    decreases s.len() - from,
{
    lemma_next_occurrence(s, p, from);
    let y = next_occurrence(s, p, from)->0;
    let all = occurrences(s, p, from);
    if y + p.len() > x {
        assert(all[0] == y);
    } else {
        let rest = occurrences(s, p, y + p.len());
        lemma_occurrence_met(s, p, y + p.len(), x);
        let i = choose|i: int|
            0 <= i < rest.len() && x - p.len() < #[trigger] rest[i] <= x;
        assert(all[i + 1] == rest[i]);
    }
}

/// What ends with an item that it holds nowhere else is found wherever it stands.
pub proof fn lemma_all_occurrences<T>(s: Seq<T>, p: Seq<T>, x: int)
    requires
        p.len() > 0,
        forall|k: int| 0 <= k < p.len() - 1 ==> #[trigger] p[k] != p.last(),
        0 <= x,
        x + p.len() <= s.len(),
        s.subrange(x, x + p.len()) == p,
    ensures
        exists|i: int|
            0 <= i < occurrences(s, p, 0).len() && #[trigger] occurrences(s, p, 0)[i] == x,
{
    law_every_occurrence_counts(s, p, x);
    let all = occurrences(s, p, 0);
    let i = choose|i: int| 0 <= i < all.len() && x - p.len() < #[trigger] all[i] <= x;
    let y = all[i];
    if y < x {
        let k = y + p.len() - 1 - x;
        assert(s.subrange(y, y + p.len())[p.len() - 1] == s[y + p.len() - 1]);
        assert(s.subrange(x, x + p.len())[k] == s[x + k]);
        assert(p[k] == p.last());
    }
}

/// A character below the surrogate range's limit is one unit; any other is a high and a low
/// surrogate that hold its twenty bits.
pub proof fn law_units_hold_the_character(c: char)
    ensures
        (c as u32) < 0x10000 ==> char_units(c).len() == 1 && char_units(c)[0] as int == c as int,
        (c as u32) >= 0x10000 ==> {
            let u = char_units(c);
            &&& u.len() == 2
            &&& 0xd800 <= u[0] < 0xdc00
            &&& 0xdc00 <= u[1] < 0xe000
            &&& 0x10000 + (u[0] - 0xd800) * 0x400 + (u[1] - 0xdc00) == c as int
        },
{
}

/// The units of a text are those of its characters, one after the other.
pub proof fn law_units_follow_the_text(a: Seq<char>, b: Seq<char>)
    ensures
        utf16_units(a + b) == utf16_units(a) + utf16_units(b),
        forall|c: char| #[trigger] utf16_units(seq![c]) == char_units(c),
    decreases b.len(),
{
    if b.len() > 0 {
        law_units_follow_the_text(a, b.drop_last());
        assert((a + b).drop_last() =~= a + b.drop_last());
        assert((a + b).last() == b.last());
        assert(utf16_units(a + b) =~= utf16_units(a) + utf16_units(b));
    } else {
        assert(a + b =~= a);
        assert(utf16_units(a) + utf16_units(b) =~= utf16_units(a));
    }
    assert forall|c: char| #[trigger] utf16_units(seq![c]) == char_units(c) by {
        assert(seq![c].drop_last() =~= Seq::empty());
        assert(utf16_units(seq![c].drop_last()) =~= Seq::empty());
        assert(utf16_units(seq![c]) =~= char_units(c));
    }
}

/// Every unit takes two bytes, the low one first.
pub proof fn law_units_are_little_endian(units: Seq<u16>, i: int)
    requires
        0 <= i < units.len(),
    ensures
        units_bytes(units).len() == 2 * units.len(),
        units_bytes(units)[2 * i] + 0x100 * units_bytes(units)[2 * i + 1] == units[i],
{
}

} // verus!
