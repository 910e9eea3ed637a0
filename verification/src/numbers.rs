//! Numbers in text: parsing in a radix, and powers of two.
use vstd::arithmetic::power2;
use vstd::prelude::*;
use crate::text;
use crate::text::to_chars;

verus! {

/// The value of a digit: `0` to `9`, and letters from ten on.
pub open spec fn digit_value(c: char) -> Option<nat> {
    if '0' <= c && c <= '9' {
        Some((c as u32 - '0' as u32) as nat)
    } else if 'a' <= c && c <= 'z' {
        Some((c as u32 - 'a' as u32 + 10) as nat)
    } else if 'A' <= c && c <= 'Z' {
        Some((c as u32 - 'A' as u32 + 10) as nat)
    } else {
        None
    }
}

/// The value of the digits `s` in the given radix, if all of them are digits of it.
pub open spec fn radix_value(s: Seq<char>, radix: nat) -> Option<nat>
    decreases s.len(),
{
    if s.len() == 0 {
        Some(0)
    } else {
        match (radix_value(s.drop_last(), radix), digit_value(s.last())) {
            (Some(v), Some(d)) if d < radix => Some(v * radix + d),
            _ => None,
        }
    }
}

/// The number that `s` writes: at least one digit, with an optional plus sign before them.
pub open spec fn unsigned_value(s: Seq<char>, radix: nat) -> Option<nat> {
    let t = if s.len() > 0 && s[0] == '+' {
        s.skip(1)
    } else {
        s
    };
    if t.len() == 0 {
        None
    } else {
        radix_value(t, radix)
    }
}

/// `unsigned_value` where it does not exceed `max`.
pub open spec fn unsigned_up_to(s: Seq<char>, radix: nat, max: nat) -> Option<nat> {
    match unsigned_value(s, radix) {
        Some(v) if v <= max => Some(v),
        _ => None,
    }
}

/// The number that `s` writes: at least one digit, with an optional sign before them.
pub open spec fn signed_value(s: Seq<char>, radix: nat) -> Option<int> {
    if s.len() > 0 && s[0] == '-' {
        if s.len() == 1 {
            None
        } else {
            match radix_value(s.skip(1), radix) {
                Some(v) => Some(-(v as int)),
                None => None,
            }
        }
    } else {
        match unsigned_value(s, radix) {
            Some(v) => Some(v as int),
            None => None,
        }
    }
}

/// `signed_value` where it fits an `i64`.
pub open spec fn i64_value(s: Seq<char>, radix: nat) -> Option<i64> {
    match signed_value(s, radix) {
        Some(v) if i64::MIN <= v <= i64::MAX => Some(v as i64),
        _ => None,
    }
}

fn value_of(c: char) -> (r: Option<u128>)
    ensures
        match r {
            Some(d) => digit_value(c) == Some(d as nat) && d < 36,
            None => digit_value(c) is None,
        },
{
    let v: u32 = c as u32;
    if '0' <= c && c <= '9' {
        Some((v - 48) as u128)
    } else if 'a' <= c && c <= 'z' {
        Some((v - 97 + 10) as u128)
    } else if 'A' <= c && c <= 'Z' {
        Some((v - 65 + 10) as u128)
    } else {
        None
    }
}

/// A text that is no number, or a number beyond a bound, is no smaller number with more digits.
proof fn lemma_prefix_value(s: Seq<char>, radix: nat, k: int)
    requires
        0 <= k <= s.len(),
        radix >= 2,
        radix_value(s, radix) is Some,
    ensures
        radix_value(s.take(k), radix) is Some,
        radix_value(s.take(k), radix)->0 <= radix_value(s, radix)->0,
    decreases s.len() - k,
{
    if k < s.len() {
        lemma_prefix_value(s.drop_last(), radix, if k < s.len() - 1 { k } else { s.len() - 1 });
        if k < s.len() - 1 {
            assert(s.drop_last().take(k) =~= s.take(k));
        } else {
            assert(s.drop_last() =~= s.take(k));
        }
        let v = radix_value(s.drop_last(), radix)->0;
        assert(v <= v * radix) by (nonlinear_arith)
            requires
                radix >= 2,
        ;
    } else {
        assert(s.take(k) =~= s);
    }
}

/// The value of the digits of `v` from `from` on, where it does not exceed `max`.
fn digits_up_to(v: &[char], from: usize, radix: u32, max: u128) -> (r: Option<u128>)
    requires
        from <= v@.len(),
        2 <= radix <= 36,
        max <= 0xffff_ffff_ffff_ffff_ffff,
    ensures
        match r {
            Some(n) => radix_value(v@.skip(from as int), radix as nat) == Some(n as nat) && n <= max,
            None => match radix_value(v@.skip(from as int), radix as nat) {
                Some(n) => n > max,
                None => true,
            },
        },
{
    let ghost t = v@.skip(from as int);
    let mut n: u128 = 0;
    let mut i: usize = from;
    while i < v.len()
        invariant
            from <= i <= v.len(),
            2 <= radix <= 36,
            max <= 0xffff_ffff_ffff_ffff_ffff,
            t == v@.skip(from as int),
            n <= max,
            radix_value(t.take(i - from), radix as nat) == Some(n as nat),
        decreases v.len() - i,
    {
        proof {
            assert(t.take(i - from + 1).drop_last() =~= t.take(i - from));
            assert(t.take(i - from + 1).last() == v@[i as int]);
            if radix_value(t, radix as nat) is Some {
                lemma_prefix_value(t, radix as nat, i - from + 1);
            }
        }
        match value_of(v[i]) {
            Some(d) => {
                if d >= radix as u128 {
                    return None;
                }
                assert(n * radix + d <= 0xffff_ffff_ffff_ffff_ffff * 36 + 36) by (nonlinear_arith)
                    requires
                        n <= 0xffff_ffff_ffff_ffff_ffff,
                        radix <= 36,
                        d < 36,
                ;
                let next: u128 = n * (radix as u128) + d;
                if next > max {
                    return None;
                }
                n = next;
            },
            None => {
                return None;
            },
        }
        i += 1;
    }
    proof {
        assert(t.take(t.len() as int) =~= t);
    }
    Some(n)
}

/// The number that `s` writes in the given radix, where it does not exceed `max`.
pub fn parse_unsigned(s: &str, radix: u32, max: u128) -> (r: Option<u128>)
    requires
        2 <= radix <= 36,
        max <= 0xffff_ffff_ffff_ffff_ffff,
    ensures
        match r {
            Some(n) => unsigned_up_to(s@, radix as nat, max as nat) == Some(n as nat),
            None => unsigned_up_to(s@, radix as nat, max as nat) is None,
        },
{
    let v = to_chars(s);
    let from: usize = if v.len() > 0 && v[0] == '+' {
        1
    } else {
        0
    };
    proof {
        assert(v@.skip(0) =~= v@);
    }
    if from == v.len() {
        return None;
    }
    digits_up_to(v.as_slice(), from, radix, max)
}

/// The number that `s` writes in the given radix, where it fits an `i64`.
pub fn parse_i64(s: &str, radix: u32) -> (r: Option<i64>)
    requires
        2 <= radix <= 36,
    ensures
        r == i64_value(s@, radix as nat),
{
    let v = to_chars(s);
    if v.len() > 0 && v[0] == '-' {
        if v.len() == 1 {
            return None;
        }
        match digits_up_to(v.as_slice(), 1, radix, 9223372036854775808) {
            Some(n) => {
                let m: i128 = 0 - (n as i128);
                Some(m as i64)
            },
            None => None,
        }
    } else {
        match parse_unsigned(s, radix, 9223372036854775807) {
            Some(n) => Some(n as i64),
            None => None,
        }
    }
}

/// Two to the power `k`.
pub fn power_of_two(k: u32) -> (r: u128)
    requires
        k <= 64,
    ensures
        r == power2::pow2(k as nat),
{
    let mut r: u128 = 1;
    let mut i: u32 = 0;
    proof {
        power2::lemma2_to64();
        power2::lemma2_to64_rest();
    }
    while i < k
        invariant
            i <= k <= 64,
            r == power2::pow2(i as nat),
            power2::pow2(64) == 0x1_0000_0000_0000_0000,
        decreases k - i,
    {
        proof {
            power2::lemma_pow2_unfold((i + 1) as nat);
            power2::lemma_pow2_strictly_increases(i as nat, 64);
        }
        r = r * 2;
        i += 1;
    }
    r
}

proof fn lemma_decimal_digits(n: nat)
    ensures
        text::decimal(n).len() > 0,
        radix_value(text::decimal(n), 10) == Some(n),
        forall|i: int|
            0 <= i < text::decimal(n).len() ==> '0' <= (#[trigger] text::decimal(n)[i])
                && text::decimal(n)[i] <= '9',
    decreases n,
{
    let s = text::decimal(n);
    reveal_with_fuel(radix_value, 2);
    if n < 10 {
        assert(s.drop_last() =~= seq![]);
        assert(radix_value(seq![], 10) == Some(0nat));
    } else {
        lemma_decimal_digits(n / 10);
        assert(s.drop_last() =~= text::decimal(n / 10));
        assert forall|i: int| 0 <= i < s.len() implies '0' <= (#[trigger] s[i]) && s[i] <= '9' by {
            if i < s.len() - 1 {
                assert(s[i] == text::decimal(n / 10)[i]);
            }
        }
    }
}

/// A number written in decimal is read as that number.
pub proof fn law_decimal_is_read_back(n: nat, max: nat)
    ensures
        unsigned_value(text::decimal(n), 10) == Some(n),
        unsigned_up_to(text::decimal(n), 10, max) == if n <= max {
            Some(n)
        } else {
            None
        },
        forall|i: int|
            0 <= i < text::decimal(n).len() ==> '0' <= (#[trigger] text::decimal(n)[i])
                && text::decimal(n)[i] <= '9',
{
    lemma_decimal_digits(n);
}

/// An integer written in decimal is read as that integer, where an `i64` holds it.
pub proof fn law_decimal_integer_is_read_back(v: int)
    ensures
        i64_value(text::decimal_int(v), 10) == if i64::MIN <= v <= i64::MAX {
            Some(v as i64)
        } else {
            None
        },
{
    if v < 0 {
        lemma_decimal_digits((-v) as nat);
        assert(text::decimal_int(v).skip(1) =~= text::decimal((-v) as nat));
    } else {
        lemma_decimal_digits(v as nat);
    }
}

} // verus!
