use vstd::prelude::*;

verus! {

/// One shift step of the bit-serial CRC-16 with reflected polynomial 0xA001:
/// when the low bit is set before the shift, the polynomial is folded in.
pub open spec fn crc16_step_bit(crc: u16) -> u16 {
    if crc & 1 == 1 {
        (crc >> 1) ^ 0xA001
    } else {
        crc >> 1
    }
}

/// `k` successive single-bit shift steps.
pub open spec fn crc16_bits(crc: u16, k: nat) -> u16
    decreases k,
{
    if k == 0 {
        crc
    } else {
        crc16_step_bit(crc16_bits(crc, (k - 1) as nat))
    }
}

/// Folds one byte into the running value: exclusive-or into the low byte,
/// then eight single-bit shift steps.
pub open spec fn crc16_byte(crc: u16, byte: u8) -> u16 {
    crc16_bits(crc ^ (byte as u16), 8)
}

/// The CRC-16 of a byte sequence: initial value 0, bytes folded in order.
pub open spec fn crc16(data: Seq<u8>) -> u16
    decreases data.len(),
{
    if data.len() == 0 {
        0
    } else {
        crc16_byte(crc16(data.drop_last()), data.last())
    }
}

/// The checksum is a pure function of the bytes: equal sequences have equal
/// checksums, whatever values they were built from.
pub proof fn lemma_crc16_deterministic(a: Seq<u8>, b: Seq<u8>)
    requires
        a == b,
    ensures
        crc16(a) == crc16(b),
{
}

/// The per-bit step can be undone, so two different running values are still
/// different after it.
proof fn lemma_step_bit_injective(c1: u16, c2: u16)
    requires
        c1 != c2,
    ensures
        crc16_step_bit(c1) != crc16_step_bit(c2),
{
    assert(c1 != c2 ==> (if c1 & 1 == 1 {
        (c1 >> 1) ^ 0xA001
    } else {
        c1 >> 1
    }) != (if c2 & 1 == 1 {
        (c2 >> 1) ^ 0xA001
    } else {
        c2 >> 1
    })) by (bit_vector);
}

/// Any number of per-bit steps keeps two different running values different.
proof fn lemma_bits_injective(c1: u16, c2: u16, k: nat)
    requires
        c1 != c2,
    ensures
        crc16_bits(c1, k) != crc16_bits(c2, k),
    decreases k,
{
    if k > 0 {
        lemma_bits_injective(c1, c2, (k - 1) as nat);
        lemma_step_bit_injective(crc16_bits(c1, (k - 1) as nat), crc16_bits(c2, (k - 1) as nat));
    }
}

/// Folding the same byte into two different running values keeps them
/// different.
proof fn lemma_byte_injective_in_crc(c1: u16, c2: u16, b: u8)
    requires
        c1 != c2,
    ensures
        crc16_byte(c1, b) != crc16_byte(c2, b),
{
    assert(c1 != c2 ==> c1 ^ (b as u16) != c2 ^ (b as u16)) by (bit_vector);
    lemma_bits_injective(c1 ^ (b as u16), c2 ^ (b as u16), 8);
}

/// Folding two different bytes into the same running value yields different
/// values.
proof fn lemma_byte_changes_crc(c: u16, b1: u8, b2: u8)
    requires
        b1 != b2,
    ensures
        crc16_byte(c, b1) != crc16_byte(c, b2),
{
    assert(b1 != b2 ==> c ^ (b1 as u16) != c ^ (b2 as u16)) by (bit_vector);
    lemma_bits_injective(c ^ (b1 as u16), c ^ (b2 as u16), 8);
}

/// Error detection of the checksum: two payloads of equal length that differ
/// in exactly one byte never share a checksum.
pub proof fn lemma_crc16_detects_byte_change(a: Seq<u8>, b: Seq<u8>, i: int)
    requires
        a.len() == b.len(),
        0 <= i < a.len(),
        a[i] != b[i],
        forall|j: int| 0 <= j < a.len() && j != i ==> a[j] == b[j],
    ensures
        crc16(a) != crc16(b),
    decreases a.len(),
{
    if i == a.len() - 1 {
        assert(a.drop_last() =~= b.drop_last());
        lemma_byte_changes_crc(crc16(a.drop_last()), a.last(), b.last());
    } else {
        assert(forall|j: int|
            0 <= j < a.drop_last().len() && j != i ==> a.drop_last()[j] == b.drop_last()[j]);
        lemma_crc16_detects_byte_change(a.drop_last(), b.drop_last(), i);
        lemma_byte_injective_in_crc(crc16(a.drop_last()), crc16(b.drop_last()), a.last());
    }
}

/// Error detection down to a single bit: flipping bit `k` of any one byte of
/// a payload changes its checksum.
pub proof fn lemma_crc16_detects_bit_flip(a: Seq<u8>, i: int, k: u8)
    requires
        0 <= i < a.len(),
        k < 8,
    ensures
        crc16(a) != crc16(a.update(i, a[i] ^ (1u8 << k))),
{
    let m: u8 = a[i];
    assert(k < 8 ==> m ^ (1u8 << k) != m) by (bit_vector);
    lemma_crc16_detects_byte_change(a, a.update(i, a[i] ^ (1u8 << k)), i);
}

/// Computes the CRC-16 of `data` (polynomial 0xA001, initial value 0,
/// LSB-first per-byte processing).
pub fn checksum(data: &[u8]) -> (r: u16)
    ensures
        r == crc16(data@),
{
    let mut crc: u16 = 0;
    let mut i: usize = 0;
    while i < data.len()
        invariant
            0 <= i <= data@.len(),
            crc == crc16(data@.subrange(0, i as int)),
        decreases data@.len() - i,
    {
        let byte: u8 = data[i];
        let mut c: u16 = crc ^ (byte as u16);
        let mut j: usize = 0;
        while j < 8
            invariant
                0 <= j <= 8,
                c == crc16_bits(crc ^ (byte as u16), j as nat),
            decreases 8 - j,
        {
            if c & 1 == 1 {
                c = (c >> 1) ^ 0xA001;
            } else {
                c = c >> 1;
            }
            j = j + 1;
        }
        proof {
            assert(data@.subrange(0, i + 1 as int).drop_last() =~= data@.subrange(0, i as int));
            assert(data@.subrange(0, i + 1 as int).last() == data@[i as int]);
        }
        crc = c;
        i = i + 1;
    }
    proof {
        assert(data@.subrange(0, data@.len() as int) =~= data@);
    }
    crc
}

} // verus!
