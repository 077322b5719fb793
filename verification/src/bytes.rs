//! Numbers as bytes, the lowest byte first.

use vstd::prelude::*;

verus! {

/// A number's lowest bytes, the lowest first.
pub open spec fn little(n: nat, bytes: nat) -> Seq<u8>
    decreases bytes,
{
    if bytes == 0 {
        seq![]
    } else {
        seq![(n % 256) as u8] + little(n / 256, (bytes - 1) as nat)
    }
}

/// What a run of bytes says as a number, the lowest byte first.
pub open spec fn amount(bytes: Seq<u8>) -> nat
    decreases bytes.len(),
{
    if bytes.len() == 0 {
        0
    } else {
        bytes[0] as nat + 256 * amount(bytes.skip(1))
    }
}

/// The least number that does not fit in some bytes.
pub open spec fn limit(bytes: nat) -> nat
    decreases bytes,
{
    if bytes == 0 {
        1
    } else {
        256 * limit((bytes - 1) as nat)
    }
}

/// A number that was written reads back, where it fits.
pub proof fn a_written_number_reads_back(n: nat, bytes: nat)
    requires
        n < limit(bytes),
    ensures
        little(n, bytes).len() == bytes,
        amount(little(n, bytes)) == n,
    decreases bytes,
{
    if bytes > 0 {
        a_written_number_reads_back(n / 256, (bytes - 1) as nat);
        let all = little(n, bytes);
        assert(all.skip(1) =~= little(n / 256, (bytes - 1) as nat));
    }
}

/// A number takes as many bytes as it is given.
pub proof fn little_len(n: nat, bytes: nat)
    ensures
        little(n, bytes).len() == bytes,
    decreases bytes,
{
    if bytes > 0 {
        little_len(n / 256, (bytes - 1) as nat);
    }
}

/// Put a number's lowest bytes behind others.
pub fn put_little(into: &mut Vec<u8>, n: u64, bytes: usize)
    ensures
        final(into)@ == old(into)@ + little(n as nat, bytes as nat),
{
    let ghost before = into@;
    let mut left: u64 = n;
    let mut i: usize = 0;
    while i < bytes
        invariant
            i <= bytes,
            into@ + little(left as nat, (bytes - i) as nat) == before + little(
                n as nat,
                bytes as nat,
            ),
        decreases bytes - i,
    {
        let ghost so_far = into@;
        into.push((left % 256) as u8);
        proof {
            let rest = little(left as nat / 256, (bytes - i - 1) as nat);
            assert(so_far.push((left % 256) as u8) + rest =~= so_far + (seq![(left % 256) as u8]
                + rest));
        }
        left = left / 256;
        i = i + 1;
    }
    proof {
        assert(into@ + little(left as nat, 0) =~= into@);
    }
}

/// Put bytes behind others.
pub fn put_all(into: &mut Vec<u8>, bytes: &[u8])
    ensures
        final(into)@ == old(into)@ + bytes@,
{
    let ghost before = into@;
    proof {
        assert(before + bytes@.take(0) =~= before);
    }
    for i in 0..bytes.len()
        invariant
            into@ == before + bytes@.take(i as int),
    {
        into.push(bytes[i]);
        proof {
            assert(bytes@.take(i + 1) =~= bytes@.take(i as int).push(bytes@[i as int]));
            assert((before + bytes@.take(i as int)).push(bytes@[i as int]) =~= before
                + bytes@.take(i as int).push(bytes@[i as int]));
        }
    }
    proof {
        assert(bytes@.take(bytes@.len() as int) =~= bytes@);
    }
}

/// Put zeros behind other bytes.
pub fn put_zeros(into: &mut Vec<u8>, count: u32)
    ensures
        final(into)@ == old(into)@ + Seq::new(count as nat, |i: int| 0u8),
{
    let ghost before = into@;
    proof {
        assert(before + Seq::new(0, |i: int| 0u8) =~= before);
    }
    for i in 0..count
        invariant
            into@ == before + Seq::new(i as nat, |j: int| 0u8),
    {
        into.push(0);
        proof {
            assert((before + Seq::new(i as nat, |j: int| 0u8)).push(0u8) =~= before + Seq::new(
                (i + 1) as nat,
                |j: int| 0u8,
            ));
        }
    }
}

/// A number's lowest bytes.
pub fn little_bytes(n: u64, bytes: usize) -> (r: Vec<u8>)
    ensures
        r@ == little(n as nat, bytes as nat),
{
    let mut r: Vec<u8> = Vec::new();
    put_little(&mut r, n, bytes);
    proof {
        assert(Seq::<u8>::empty() + little(n as nat, bytes as nat) =~= little(
            n as nat,
            bytes as nat,
        ));
    }
    r
}

/// The lowest byte comes first: the byte at each place is the number's digit
/// of that place, counted in 256s.
pub proof fn the_lowest_byte_comes_first(n: nat, bytes: nat, i: nat)
    requires
        i < bytes,
    ensures
        little(n, bytes)[i as int] == (n / limit(i)) % 256,
    decreases bytes,
{
    little_len(n, bytes);
    if i > 0 {
        let rest = little(n / 256, (bytes - 1) as nat);
        the_lowest_byte_comes_first(n / 256, (bytes - 1) as nat, (i - 1) as nat);
        little_len(n / 256, (bytes - 1) as nat);
        assert(little(n, bytes)[i as int] == rest[i - 1]);
        limits_are_positive((i - 1) as nat);
        vstd::arithmetic::div_mod::lemma_div_denominator(
            n as int,
            256,
            limit((i - 1) as nat) as int,
        );
        assert(limit(i) == 256 * limit((i - 1) as nat));
        assert(n / 256 / limit((i - 1) as nat) == n / limit(i));
    } else {
        assert(limit(0) == 1);
        assert(n / 1 == n);
        assert(little(n, bytes)[0] == (n % 256) as u8);
    }
}

/// Nothing is too large for nothing to hold.
proof fn limits_are_positive(bytes: nat)
    ensures
        limit(bytes) > 0,
    decreases bytes,
{
    if bytes > 0 {
        limits_are_positive((bytes - 1) as nat);
    }
}

/// A number that does not fit is cut to its lowest bytes.
pub proof fn a_written_number_is_cut_to_fit(n: nat, bytes: nat)
    ensures
        little(n, bytes).len() == bytes,
        amount(little(n, bytes)) == n % limit(bytes),
    decreases bytes,
{
    limits_are_positive(bytes);
    if bytes > 0 {
        let less = (bytes - 1) as nat;
        a_written_number_is_cut_to_fit(n / 256, less);
        limits_are_positive(less);
        let all = little(n, bytes);
        assert(all.skip(1) =~= little(n / 256, less));
        vstd::arithmetic::div_mod::lemma_mod_breakdown(n as int, 256, limit(less) as int);
    }
}

} // verus!
