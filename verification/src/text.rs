//! ASCII formatting for diagnostics: fixed-width hex, decimal, and byte
//! concatenation.
use vstd::prelude::*;
use vstd::string::StringSliceAdditionalSpecFns;

verus! {

/// Lower-case hex digit of a nibble.
pub open spec fn hex_digit(n: u64) -> u8 {
    if n < 10 {
        (0x30 + n) as u8
    } else {
        (0x61 + n - 10) as u8
    }
}

/// Nibble `j` of `v`, most significant first.
pub open spec fn nibble(v: u64, j: int) -> u64 {
    (v >> ((60 - j * 4) as u64)) & 0xF
}

/// `v` as 16 lower-case hex digits, most significant first.
pub open spec fn hex_seq(v: u64) -> Seq<u8> {
    Seq::new(16, |j: int| hex_digit(nibble(v, j)))
}

pub fn hex16(v: u64) -> (s: Vec<u8>)
    ensures
        s@ == hex_seq(v),
{
    let mut s: Vec<u8> = Vec::new();
    let mut j: u64 = 0;
    while j < 16
        invariant
            j <= 16,
            s@.len() == j,
            forall|i: int| 0 <= i < j ==> #[trigger] s@[i] == hex_digit(nibble(v, i)),
        decreases 16 - j,
    {
        let sh: u64 = 60 - j * 4;
        let n = (v >> sh) & 0xF;
        assert(n < 16) by (bit_vector)
            requires
                n == (v >> sh) & 0xF,
        ;
        let d = if n < 10 { 0x30 + n as u8 } else { 0x61 + n as u8 - 10 };
        s.push(d);
        j = j + 1;
    }
    assert(s@ =~= hex_seq(v));
    s
}

/// Decimal digits of `n`, most significant first, no leading zeros.
pub open spec fn dec_digits(n: nat) -> Seq<u8>
    decreases n,
{
    if n < 10 {
        seq![(0x30 + n) as u8]
    } else {
        dec_digits(n / 10).push((0x30 + n % 10) as u8)
    }
}

/// The number a string of decimal digits spells.
pub open spec fn dec_value(s: Seq<u8>) -> int
    decreases s.len(),
{
    if s.len() == 0 {
        0
    } else {
        dec_value(s.drop_last()) * 10 + (s.last() - 0x30)
    }
}

/// Reading back the digits of `n` gives `n`.
pub proof fn dec_digits_round_trip(n: nat)
    ensures
        dec_value(dec_digits(n)) == n,
        dec_digits(n).len() >= 1,
    decreases n,
{
    let d = dec_digits(n);
    if n >= 10 {
        dec_digits_round_trip(n / 10);
        assert(d.drop_last() == dec_digits(n / 10));
        assert(d.last() == (0x30 + n % 10) as u8);
        assert((0x30 + n % 10) as u8 - 0x30 == n % 10);
        assert(dec_value(d) == dec_value(d.drop_last()) * 10 + (d.last() - 0x30));
        assert(dec_value(d) == (n / 10) * 10 + n % 10);
    } else {
        assert(d.drop_last() =~= Seq::<u8>::empty());
        assert(dec_value(Seq::<u8>::empty()) == 0);
        assert((0x30 + n) as u8 - 0x30 == n);
        assert(dec_value(d) == dec_value(d.drop_last()) * 10 + (d.last() - 0x30));
    }
}

/// `n` in decimal.
pub fn dec(n: u64) -> (s: Vec<u8>)
    ensures
        s@ == dec_digits(n as nat),
{
    // Digits are produced least significant first, then reversed.
    let mut rev: Vec<u8> = Vec::new();
    let mut m: u64 = n;
    let ghost mut rest: nat = n as nat;
    loop
        invariant
            m as nat == rest,
            rest <= n,
            dec_digits(n as nat) == dec_digits(rest) + rev@.reverse(),
        ensures
            m < 10,
            m as nat == rest,
            dec_digits(n as nat) == dec_digits(rest) + rev@.reverse(),
        decreases m,
    {
        if m < 10 {
            break;
        }
        proof {
            assert(dec_digits(rest) == dec_digits(rest / 10).push((0x30 + rest % 10) as u8));
            assert(rev@.push((0x30 + m % 10) as u8).reverse() =~= seq![(0x30 + m % 10) as u8] + rev@.reverse());
            assert(dec_digits(rest / 10).push((0x30 + rest % 10) as u8) + rev@.reverse() =~= dec_digits(rest / 10)
                + (seq![(0x30 + m % 10) as u8] + rev@.reverse()));
            rest = rest / 10;
        }
        rev.push(0x30 + (m % 10) as u8);
        m = m / 10;
    }
    let mut s: Vec<u8> = Vec::new();
    s.push(0x30 + m as u8);
    let mut k: usize = rev.len();
    assert(rev@.skip(k as int) =~= Seq::<u8>::empty());
    assert(rev@.skip(k as int).reverse() =~= Seq::<u8>::empty());
    assert(dec_digits(rest) == seq![(0x30 + m) as u8]);
    while k > 0
        invariant
            k <= rev@.len(),
            s@ == seq![(0x30 + m) as u8] + rev@.skip(k as int).reverse(),
        decreases k,
    {
        k = k - 1;
        assert(rev@.skip(k as int).reverse() =~= rev@.skip(k + 1).reverse().push(rev@[k as int]));
        s.push(rev[k]);
    }
    assert(rev@.skip(0) =~= rev@);
    s
}

/// Append the bytes of `s` to `out`.
pub fn push_all(out: &mut Vec<u8>, s: &[u8])
    ensures
        final(out)@ == old(out)@ + s@,
{
    let mut i: usize = 0;
    while i < s.len()
        invariant
            i <= s@.len(),
            out@ == old(out)@ + s@.take(i as int),
        decreases s@.len() - i,
    {
        assert(s@.take(i + 1) =~= s@.take(i as int).push(s@[i as int]));
        out.push(s[i]);
        i = i + 1;
    }
    assert(s@.take(s@.len() as int) =~= s@);
}


/// Nibble `j` of a 32-bit `v`, most significant first.
pub open spec fn nibble32(v: u32, j: int) -> u32 {
    (v >> ((28 - j * 4) as u32)) & 0xF
}

/// `v` as 8 lower-case hex digits, most significant first.
pub open spec fn hex32_seq(v: u32) -> Seq<u8> {
    Seq::new(8, |j: int| hex_digit(nibble32(v, j) as u64))
}

pub fn hex8(v: u32) -> (s: Vec<u8>)
    ensures
        s@ == hex32_seq(v),
{
    let mut s: Vec<u8> = Vec::new();
    let mut j: u32 = 0;
    while j < 8
        invariant
            j <= 8,
            s@.len() == j,
            forall|i: int| 0 <= i < j ==> #[trigger] s@[i] == hex_digit(nibble32(v, i) as u64),
        decreases 8 - j,
    {
        let sh: u32 = 28 - j * 4;
        let n = (v >> sh) & 0xF;
        assert(n < 16) by (bit_vector)
            requires
                n == (v >> sh) & 0xF,
        ;
        let d = if n < 10 { 0x30 + n as u8 } else { 0x61 + n as u8 - 10 };
        s.push(d);
        j = j + 1;
    }
    assert(s@ =~= hex32_seq(v));
    s
}

/// `label` followed by `v` in 16 hex digits.
pub open spec fn field(label: &str, v: u64) -> Seq<u8> {
    label.spec_bytes() + hex_seq(v)
}

/// Append `label` and `v` in 16 hex digits.
pub fn push_field(out: &mut Vec<u8>, label: &str, v: u64)
    ensures
        final(out)@ == old(out)@ + field(label, v),
{
    push_all(out, label.as_bytes());
    let h = hex16(v);
    push_all(out, h.as_slice());
    assert(final(out)@ =~= old(out)@ + field(label, v));
}

/// Append the bytes of `s`.
pub fn push_str(out: &mut Vec<u8>, s: &str)
    ensures
        final(out)@ == old(out)@ + s.spec_bytes(),
{
    push_all(out, s.as_bytes());
}

} // verus!
