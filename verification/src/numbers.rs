//! ASCII digit runs: the decimal and octal number scans used by the
//! object codec and the tree decoder, and the decimal rendering used by
//! the object serializer.
use vstd::prelude::*;

verus! {

/// True of the ASCII bytes `0`-`9`.
pub open spec fn is_dec_digit(b: u8) -> bool {
    0x30 <= b <= 0x39
}

/// True of the ASCII bytes `0`-`7`.
pub open spec fn is_oct_digit(b: u8) -> bool {
    0x30 <= b <= 0x37
}

/// Folds the decimal digits that begin `s` onto `acc`; the first
/// non-digit byte stops the scan.
pub open spec fn dec_value_acc(s: Seq<u8>, acc: nat) -> nat
    decreases s.len(),
{
    if s.len() == 0 || !is_dec_digit(s[0]) {
        acc
    } else {
        dec_value_acc(s.skip(1), (acc * 10 + (s[0] - 0x30)) as nat)
    }
}

/// The value of the run of decimal digits that begins `s`; the first
/// non-digit byte stops the scan, and an empty run has value zero.
pub open spec fn dec_value(s: Seq<u8>) -> nat {
    dec_value_acc(s, 0)
}

/// Folds the octal digits that begin `s` onto `acc`; the first non-octal
/// byte stops the scan.
pub open spec fn oct_value_acc(s: Seq<u8>, acc: nat) -> nat
    decreases s.len(),
{
    if s.len() == 0 || !is_oct_digit(s[0]) {
        acc
    } else {
        oct_value_acc(s.skip(1), (acc * 8 + (s[0] - 0x30)) as nat)
    }
}

/// The value of the run of octal digits that begins `s`; the first
/// non-octal byte stops the scan, and an empty run has value zero.
pub open spec fn oct_value(s: Seq<u8>) -> nat {
    oct_value_acc(s, 0)
}

/// The decimal spelling of `n` in ASCII digits, most significant first,
/// without sign or leading zeros (zero is the single digit `0`).
pub open spec fn dec_repr(n: nat) -> Seq<u8>
    decreases n,
{
    if n < 10 {
        seq![(0x30 + n) as u8]
    } else {
        dec_repr(n / 10).push((0x30 + n % 10) as u8)
    }
}

/// A digit fold never falls below its accumulator.
pub proof fn lemma_dec_value_acc_ge(s: Seq<u8>, acc: nat)
    ensures
        dec_value_acc(s, acc) >= acc,
    decreases s.len(),
{
    if s.len() != 0 && is_dec_digit(s[0]) {
        lemma_dec_value_acc_ge(s.skip(1), (acc * 10 + (s[0] - 0x30)) as nat);
    }
}

/// Scanning a digit sequence followed by anything folds the digits first.
pub proof fn lemma_dec_value_acc_append(s1: Seq<u8>, s2: Seq<u8>, acc: nat)
    requires
        forall|i: int| 0 <= i < s1.len() ==> is_dec_digit(#[trigger] s1[i]),
    ensures
        dec_value_acc(s1 + s2, acc) == dec_value_acc(s2, dec_value_acc(s1, acc)),
    decreases s1.len(),
{
    if s1.len() == 0 {
        assert(s1 + s2 =~= s2);
    } else {
        let joined = s1 + s2;
        assert(joined[0] == s1[0]);
        assert(joined.skip(1) =~= s1.skip(1) + s2);
        lemma_dec_value_acc_append(s1.skip(1), s2, (acc * 10 + (s1[0] - 0x30)) as nat);
    }
}

/// Every byte of a decimal spelling is a decimal digit, and the spelling
/// is never empty.
pub proof fn lemma_dec_repr_digits(n: nat)
    ensures
        dec_repr(n).len() >= 1,
        forall|i: int| 0 <= i < dec_repr(n).len() ==> is_dec_digit(#[trigger] dec_repr(n)[i]),
    decreases n,
{
    if n >= 10 {
        lemma_dec_repr_digits(n / 10);
    }
}

/// Scanning the decimal spelling of `n` yields `n` back.
pub proof fn lemma_dec_repr_value(n: nat)
    ensures
        dec_value(dec_repr(n)) == n,
    decreases n,
{
    if n < 10 {
        let s = dec_repr(n);
        assert(s[0] == (0x30 + n) as u8);
        assert(is_dec_digit(s[0]));
        assert(s.skip(1) =~= Seq::<u8>::empty());
        assert(dec_value_acc(s, 0) == dec_value_acc(s.skip(1), (0 * 10 + (s[0] - 0x30)) as nat));
        assert(s[0] - 0x30 == n);
    } else {
        lemma_dec_repr_value(n / 10);
        lemma_dec_repr_digits(n / 10);
        let d = (0x30 + n % 10) as u8;
        let tail = seq![d];
        assert(dec_repr(n) =~= dec_repr(n / 10) + tail);
        lemma_dec_value_acc_append(dec_repr(n / 10), tail, 0);
        assert(tail[0] == d);
        assert(is_dec_digit(d));
        assert(tail.skip(1) =~= Seq::<u8>::empty());
        assert(dec_value_acc(tail, n / 10) == dec_value_acc(
            tail.skip(1),
            ((n / 10) * 10 + (tail[0] - 0x30)) as nat,
        ));
        assert(d - 0x30 == n % 10);
        assert((n / 10) * 10 + n % 10 == n) by {
            vstd::arithmetic::div_mod::lemma_fundamental_div_mod(n as int, 10);
        }
    }
}

/// Scans the run of decimal digits that begins `input`; the first
/// non-digit byte stops the scan. Returns `None` when the run's value
/// does not fit the declared 32-bit width, instead of wrapping.
pub fn parse_u32(input: &[u8]) -> (r: Option<u32>)
    ensures
        match r {
            Some(v) => v as nat == dec_value(input@) && dec_value(input@) <= u32::MAX,
            None => dec_value(input@) > u32::MAX,
        },
{
    let n = input.len();
    let mut acc: u64 = 0;
    let mut i: usize = 0;
    proof {
        assert(input@.skip(0) =~= input@);
    }
    while i < n
        invariant
            0 <= i <= n,
            n == input@.len(),
            acc <= u32::MAX,
            dec_value(input@) == dec_value_acc(input@.skip(i as int), acc as nat),
        decreases n - i,
    {
        let b = input[i];
        if b < 0x30 || b > 0x39 {
            return Some(acc as u32);
        }
        proof {
            assert(input@.skip(i as int).skip(1) =~= input@.skip(i as int + 1));
        }
        acc = acc * 10 + ((b - 0x30) as u64);
        if acc > 0xFFFF_FFFF {
            proof {
                lemma_dec_value_acc_ge(input@.skip(i as int + 1), acc as nat);
            }
            return None;
        }
        i = i + 1;
    }
    proof {
        assert(input@.skip(n as int) =~= Seq::<u8>::empty());
    }
    Some(acc as u32)
}

/// Scans the run of octal digits that begins `input`; the first non-octal
/// byte stops the scan. Returns `None` when the run's value does not fit
/// the declared 32-bit width, instead of wrapping.
pub fn parse_u32_octal(input: &[u8]) -> (r: Option<u32>)
    ensures
        match r {
            Some(v) => v as nat == oct_value(input@) && oct_value(input@) <= u32::MAX,
            None => oct_value(input@) > u32::MAX,
        },
{
    let n = input.len();
    let mut acc: u64 = 0;
    let mut i: usize = 0;
    proof {
        assert(input@.skip(0) =~= input@);
    }
    while i < n
        invariant
            0 <= i <= n,
            n == input@.len(),
            acc <= u32::MAX,
            oct_value(input@) == oct_value_acc(input@.skip(i as int), acc as nat),
        decreases n - i,
    {
        let b = input[i];
        if b < 0x30 || b > 0x37 {
            return Some(acc as u32);
        }
        proof {
            assert(input@.skip(i as int).skip(1) =~= input@.skip(i as int + 1));
        }
        acc = acc * 8 + ((b - 0x30) as u64);
        if acc > 0xFFFF_FFFF {
            proof {
                lemma_oct_value_acc_ge(input@.skip(i as int + 1), acc as nat);
            }
            return None;
        }
        i = i + 1;
    }
    proof {
        assert(input@.skip(n as int) =~= Seq::<u8>::empty());
    }
    Some(acc as u32)
}

/// An octal digit fold never falls below its accumulator.
pub proof fn lemma_oct_value_acc_ge(s: Seq<u8>, acc: nat)
    ensures
        oct_value_acc(s, acc) >= acc,
    decreases s.len(),
{
    if s.len() != 0 && is_oct_digit(s[0]) {
        lemma_oct_value_acc_ge(s.skip(1), (acc * 8 + (s[0] - 0x30)) as nat);
    }
}

/// Renders `n` as its decimal spelling in ASCII digits.
pub fn usize_to_dec(n: usize) -> (r: Vec<u8>)
    ensures
        r@ == dec_repr(n as nat),
    decreases n,
{
    if n < 10 {
        let mut r: Vec<u8> = Vec::new();
        r.push(0x30 + (n as u8));
        proof {
            assert(r@ =~= dec_repr(n as nat));
        }
        r
    } else {
        let mut r = usize_to_dec(n / 10);
        r.push(0x30 + ((n % 10) as u8));
        proof {
            assert(r@ =~= dec_repr(n as nat));
        }
        r
    }
}

} // verus!
