//! Little-endian numbers in byte sequences.

use vstd::prelude::*;

verus! {

/// The lowest `width` bytes of a number, the lowest first.
pub open spec fn le_bytes(n: nat, width: nat) -> Seq<u8>
    decreases width,
{
    if width == 0 {
        Seq::empty()
    } else {
        seq![(n % 256) as u8] + le_bytes(n / 256, (width - 1) as nat)
    }
}

/// The number that bytes stand for, the lowest first.
pub open spec fn le_value(s: Seq<u8>) -> nat
    decreases s.len(),
{
    if s.len() == 0 {
        0
    } else {
        s[0] as nat + 256 * le_value(s.skip(1))
    }
}

/// How many numbers a width tells apart.
pub open spec fn le_range(width: nat) -> nat
    decreases width,
{
    if width == 0 {
        1
    } else {
        256 * le_range((width - 1) as nat)
    }
}

/// A number that fits the width is read back as it was written.
pub proof fn law_le_round_trip(n: nat, width: nat)
    requires
        n < le_range(width),
    ensures
        le_bytes(n, width).len() == width,
        le_value(le_bytes(n, width)) == n,
    decreases width,
{
    if width > 0 {
        let rest = le_bytes(n / 256, (width - 1) as nat);
        law_le_round_trip(n / 256, (width - 1) as nat);
        assert(le_bytes(n, width).skip(1) =~= rest);
        assert(le_bytes(n, width)[0] == (n % 256) as u8);
    }
}

/// However large the number, so many bytes are written.
pub proof fn lemma_le_len(n: nat, width: nat)
    ensures
        le_bytes(n, width).len() == width,
    decreases width,
{
    if width > 0 {
        lemma_le_len(n / 256, (width - 1) as nat);
    }
}

/// Appends the lowest `width` bytes of a number, the lowest first.
pub fn push_le(out: &mut Vec<u8>, n: u64, width: usize)
    ensures
        final(out)@ == old(out)@ + le_bytes(n as nat, width as nat),
    decreases width,
{
    if width > 0 {
        let ghost before = out@;
        out.push((n % 256) as u8);
        push_le(out, n / 256, width - 1);
        assert(out@ =~= before + le_bytes(n as nat, width as nat));
    } else {
        assert(out@ =~= old(out)@ + le_bytes(n as nat, 0));
    }
}

/// The number in the first four bytes.
pub fn first_u32(data: &Vec<u8>) -> (r: u32)
    requires
        data@.len() >= 4,
    ensures
        r == le_value(data@.take(4)),
{
    proof {
        let s = data@.take(4);
        reveal_with_fuel(le_value, 5);
        assert(s.skip(1)[0] == data@[1]);
        assert(s.skip(1).skip(1)[0] == data@[2]);
        assert(s.skip(1).skip(1).skip(1)[0] == data@[3]);
        assert(s.skip(1).skip(1).skip(1).skip(1).len() == 0);
    }
    data[0] as u32 + data[1] as u32 * 256 + data[2] as u32 * 65_536 + data[3] as u32 * 16_777_216
}

/// The number in the first eight bytes.
pub fn first_u64(data: &Vec<u8>) -> (r: u64)
    requires
        data@.len() >= 8,
    ensures
        r == le_value(data@.take(8)),
{
    proof {
        let s = data@.take(8);
        reveal_with_fuel(le_value, 9);
        let s1 = s.skip(1);
        let s2 = s1.skip(1);
        let s3 = s2.skip(1);
        let s4 = s3.skip(1);
        let s5 = s4.skip(1);
        let s6 = s5.skip(1);
        let s7 = s6.skip(1);
        assert(s1[0] == data@[1] && s2[0] == data@[2] && s3[0] == data@[3] && s4[0] == data@[4]);
        assert(s5[0] == data@[5] && s6[0] == data@[6] && s7[0] == data@[7]);
        assert(s7.skip(1).len() == 0);
    }
    data[0] as u64 + data[1] as u64 * 256 + data[2] as u64 * 65_536 + data[3] as u64 * 16_777_216
        + data[4] as u64 * 4_294_967_296 + data[5] as u64 * 1_099_511_627_776 + data[6] as u64
        * 281_474_976_710_656 + data[7] as u64 * 72_057_594_037_927_936
}

/// Appends all bytes of `data`.
pub fn push_bytes(out: &mut Vec<u8>, data: &[u8])
    ensures
        final(out)@ == old(out)@ + data@,
{
    let mut i: usize = 0;
    assert(out@ =~= old(out)@ + data@.take(0));
    while i < data.len()
        invariant
            i <= data.len(),
            out@ == old(out)@ + data@.take(i as int),
        decreases data.len() - i,
    {
        out.push(data[i]);
        i = i + 1;
        assert(out@ =~= old(out)@ + data@.take(i as int));
    }
    assert(data@.take(i as int) =~= data@);
}

/// A copy of the bytes.
pub fn copy_bytes(data: &[u8]) -> (r: Vec<u8>)
    ensures
        r@ == data@,
{
    let mut out: Vec<u8> = Vec::new();
    push_bytes(&mut out, data);
    assert(out@ =~= data@);
    out
}

/// The lowest byte comes first: each byte is the digit to base 256 that its place names.
pub proof fn law_lowest_byte_first(n: nat, width: nat, i: nat)
    requires
        i < width,
    ensures
        le_bytes(n, width)[i as int] == (n as int / vstd::arithmetic::power::pow(256, i)) % 256,
    decreases width,
{
    lemma_le_len(n / 256, (width - 1) as nat);
    if i == 0 {
        vstd::arithmetic::power::lemma_pow0(256);
        assert(n as int / 1 == n);
    } else {
        let rest = (i - 1) as nat;
        law_lowest_byte_first(n / 256, (width - 1) as nat, rest);
        assert(le_bytes(n, width)[i as int] == le_bytes(n / 256, (width - 1) as nat)[rest as int]);
        vstd::arithmetic::power::lemma_pow_positive(256, rest);
        vstd::arithmetic::div_mod::lemma_div_denominator(
            n as int,
            256,
            vstd::arithmetic::power::pow(256, rest),
        );
        assert(vstd::arithmetic::power::pow(256, i) == 256 * vstd::arithmetic::power::pow(
            256,
            rest,
        )) by {
            reveal(vstd::arithmetic::power::pow);
        }
    }
}

/// Bytes that are read to a number are what that number is written as.
pub proof fn law_le_written_back(s: Seq<u8>)
    ensures
        le_bytes(le_value(s), s.len()) == s,
        le_value(s) < le_range(s.len()),
    decreases s.len(),
{
    if s.len() > 0 {
        law_le_written_back(s.skip(1));
        let rest = le_value(s.skip(1));
        let n = s[0] as nat + 256 * rest;
        assert(n % 256 == s[0] as nat && n / 256 == rest);
        assert(seq![s[0]] + s.skip(1) =~= s);
    }
}

} // verus!
