use vstd::prelude::*;
use vstd::string::StringSliceAdditionalSpecFns;

verus! {

/// One shift step of the checksum register: the register moves one bit to the
/// left and, when the bit that leaves it was set, the generator polynomial
/// x^8 + x^2 + x + 1 is subtracted.
pub open spec fn crc_shift(crc: u8) -> u8 {
    if crc & 0x80 != 0 {
        (crc << 1) ^ 0x07
    } else {
        crc << 1
    }
}

/// The register after `rounds` shift steps.
pub open spec fn crc_rounds(crc: u8, rounds: nat) -> u8
    decreases rounds,
{
    if rounds == 0 {
        crc
    } else {
        crc_shift(crc_rounds(crc, (rounds - 1) as nat))
    }
}

/// The register after one message byte has been fed into it: the byte is
/// added to the register, which then takes one shift step for each bit.
pub open spec fn crc_feed(crc: u8, byte: u8) -> u8 {
    crc_rounds(crc ^ byte, 8)
}

/// The CRC-8 checksum of `data`: the register starts at zero and is fed the
/// bytes from first to last.
pub open spec fn crc8(data: Seq<u8>) -> u8
    decreases data.len(),
{
    if data.len() == 0 {
        0
    } else {
        crc_feed(crc8(data.drop_last()), data.last())
    }
}

/// The CRC-8 checksum (polynomial 0x07, initial value 0) of the bytes of
/// `data`.
pub fn calculate_crc(data: &str) -> (crc: u8)
    ensures
        crc == crc8(data.spec_bytes()),
{
    let bytes = data.as_bytes();
    let mut crc: u8 = 0x00;
    let mut i: usize = 0;
    while i < bytes.len()
        invariant
            i <= bytes@.len(),
            bytes@ == data.spec_bytes(),
            crc == crc8(bytes@.take(i as int)),
        decreases bytes.len() - i,
    {
        proof {
            assert(bytes@.take(i + 1).drop_last() == bytes@.take(i as int));
        }
        crc = crc ^ bytes[i];
        let ghost start = crc;
        let mut round: u8 = 0;
        while round < 8
            invariant
                round <= 8,
                crc == crc_rounds(start, round as nat),
            decreases 8 - round,
        {
            if crc & 0x80 != 0 {
                crc = (crc << 1) ^ 0x07;
            } else {
                crc = crc << 1;
            }
            round += 1;
        }
        i += 1;
    }
    proof {
        assert(bytes@.take(i as int) == bytes@);
    }
    crc
}

/// Feeding a register its own value clears it.
pub proof fn lemma_feed_self(crc: u8)
    ensures
        crc_feed(crc, crc) == 0,
{
    assert(crc ^ crc == 0) by (bit_vector);
    lemma_rounds_of_zero(8);
}

proof fn lemma_rounds_of_zero(rounds: nat)
    ensures
        crc_rounds(0, rounds) == 0,
    decreases rounds,
{
    if rounds > 0 {
        lemma_rounds_of_zero((rounds - 1) as nat);
        assert(crc_shift(0) == 0) by (bit_vector);
    }
}

/// A message followed by its own checksum has checksum zero: this is how a
/// receiver tests a frame.
pub proof fn lemma_checksum_closes(data: Seq<u8>)
    ensures
        crc8(data.push(crc8(data))) == 0,
{
    let framed = data.push(crc8(data));
    assert(framed.drop_last() == data);
    lemma_feed_self(crc8(data));
}

/// The checksum is linear over exclusive or: for two messages of one length,
/// the checksum of their bytewise exclusive or is the exclusive or of their
/// checksums.
pub proof fn lemma_checksum_linear(a: Seq<u8>, b: Seq<u8>)
    requires
        a.len() == b.len(),
    ensures
        crc8(Seq::new(a.len(), |i: int| a[i] ^ b[i])) == crc8(a) ^ crc8(b),
    decreases a.len(),
{
    let x = Seq::new(a.len(), |i: int| a[i] ^ b[i]);
    if a.len() == 0 {
        assert(0u8 ^ 0u8 == 0u8) by (bit_vector);
    } else {
        lemma_checksum_linear(a.drop_last(), b.drop_last());
        assert(x.drop_last() == Seq::new(a.drop_last().len(), |i: int| a.drop_last()[i] ^ b.drop_last()[i]));
        let ca = crc8(a.drop_last());
        let cb = crc8(b.drop_last());
        let la = a.last();
        let lb = b.last();
        assert(x.last() == la ^ lb);
        lemma_feed_linear(ca, la, cb, lb);
    }
}

proof fn lemma_feed_linear(ca: u8, la: u8, cb: u8, lb: u8)
    ensures
        crc_feed(ca ^ cb, la ^ lb) == crc_feed(ca, la) ^ crc_feed(cb, lb),
{
    assert((ca ^ cb) ^ (la ^ lb) == (ca ^ la) ^ (cb ^ lb)) by (bit_vector);
    lemma_rounds_linear(ca ^ la, cb ^ lb, 8);
}

proof fn lemma_rounds_linear(p: u8, q: u8, rounds: nat)
    ensures
        crc_rounds(p ^ q, rounds) == crc_rounds(p, rounds) ^ crc_rounds(q, rounds),
    decreases rounds,
{
    if rounds > 0 {
        lemma_rounds_linear(p, q, (rounds - 1) as nat);
        lemma_shift_linear(crc_rounds(p, (rounds - 1) as nat), crc_rounds(q, (rounds - 1) as nat));
    }
}

proof fn lemma_shift_linear(p: u8, q: u8)
    ensures
        crc_shift(p ^ q) == crc_shift(p) ^ crc_shift(q),
{
    assert((if (p ^ q) & 0x80 != 0 { ((p ^ q) << 1) ^ 0x07 } else { (p ^ q) << 1 })
        == (if p & 0x80 != 0 { (p << 1) ^ 0x07 } else { p << 1 })
         ^ (if q & 0x80 != 0 { (q << 1) ^ 0x07u8 } else { q << 1 })) by (bit_vector);
}

} // verus!
