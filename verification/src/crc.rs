//! CRC-16-CCITT (polynomial 0x1021, initial value 0xFFFF, no reflection, no
//! final xor) as used to protect the LoRa payload.

use vstd::prelude::*;

verus! {

/// One shift of the CRC register: shift left, folding the polynomial in when
/// the bit that falls out was set.
pub open spec fn crc_bit(c: u16) -> u16 {
    if c & 0x8000u16 != 0 {
        ((c << 1u16) ^ 0x1021u16) as u16
    } else {
        (c << 1u16) as u16
    }
}

/// `k` register shifts.
pub open spec fn crc_shifts(c: u16, k: nat) -> u16
    decreases k,
{
    if k == 0 {
        c
    } else {
        crc_bit(crc_shifts(c, (k - 1) as nat))
    }
}

/// Eight register shifts, written out so that the bit-vector solver can see them.
pub open spec fn crc_shift8(c: u16) -> u16 {
    crc_bit(crc_bit(crc_bit(crc_bit(crc_bit(crc_bit(crc_bit(crc_bit(c))))))))
}

/// Feed one byte into the register.
pub open spec fn crc_byte(c: u16, b: u8) -> u16 {
    crc_shift8(c ^ ((b as u16) << 8u16))
}

/// CRC-16-CCITT of a byte sequence.
pub open spec fn crc16(data: Seq<u8>) -> u16
    decreases data.len(),
{
    if data.len() == 0 {
        0xFFFFu16
    } else {
        crc_byte(crc16(data.drop_last()), data.last())
    }
}

proof fn lemma_crc_shifts_8(c: u16)
    ensures
        crc_shifts(c, 8) == crc_shift8(c),
{
    reveal_with_fuel(crc_shifts, 9);
}

/// Computes the CRC-16-CCITT of `data`.
pub fn crc16_ccitt(data: &[u8]) -> (crc: u16)
    ensures
        crc == crc16(data@),
{
    let mut crc: u16 = 0xFFFF;
    let n = data.len();
    let mut i: usize = 0;
    while i < n
        invariant
            n == data@.len(),
            i <= n,
            crc == crc16(data@.take(i as int)),
        decreases n - i,
    {
        let start = crc ^ ((data[i] as u16) << 8u16);
        crc = start;
        let mut j: u32 = 0;
        while j < 8
            invariant
                j <= 8,
                crc == crc_shifts(start, j as nat),
            decreases 8 - j,
        {
            if crc & 0x8000 != 0 {
                crc = (crc << 1u16) ^ 0x1021;
            } else {
                crc = crc << 1u16;
            }
            j = j + 1;
        }
        proof {
            lemma_crc_shifts_8(start);
            assert(data@.take(i + 1).drop_last() =~= data@.take(i as int));
        }
        i = i + 1;
    }
    proof {
        assert(data@.take(n as int) =~= data@);
    }
    crc
}

/// Two different register states stay different after the same byte is fed in.
proof fn lemma_crc_byte_separates_states(c1: u16, c2: u16, b: u8)
    requires
        c1 != c2,
    ensures
        crc_byte(c1, b) != crc_byte(c2, b),
{
    let w = (b as u16) << 8u16;
    assert(c1 != c2 ==> crc_shift8(c1 ^ w) != crc_shift8(c2 ^ w)) by (bit_vector);
}

/// From the same register state, two different bytes give different states.
proof fn lemma_crc_byte_separates_bytes(c: u16, x: u8, y: u8)
    requires
        x != y,
    ensures
        crc_byte(c, x) != crc_byte(c, y),
{
    assert(x != y ==> crc_shift8(c ^ ((x as u16) << 8u16)) != crc_shift8(c ^ ((y as u16) << 8u16)))
        by (bit_vector);
}

proof fn lemma_crc_prefix_differs(a: Seq<u8>, b: Seq<u8>, k: int, i: int)
    requires
        a.len() == b.len(),
        0 <= k < i <= a.len(),
        a[k] != b[k],
        forall|j: int| 0 <= j < a.len() && j != k ==> a[j] == b[j],
    ensures
        crc16(a.take(i)) != crc16(b.take(i)),
    decreases i,
{
    assert(a.take(i).drop_last() =~= a.take(i - 1));
    assert(b.take(i).drop_last() =~= b.take(i - 1));
    if i == k + 1 {
        assert(a.take(k) =~= b.take(k));
        lemma_crc_byte_separates_bytes(crc16(a.take(k)), a[k], b[k]);
    } else {
        lemma_crc_prefix_differs(a, b, k, i - 1);
        lemma_crc_byte_separates_states(crc16(a.take(i - 1)), crc16(b.take(i - 1)), a[i - 1]);
    }
}

/// Changing any single byte of a message always changes its CRC-16-CCITT:
/// the checksum detects every one-byte corruption.
pub proof fn lemma_crc16_detects_single_byte_change(data: Seq<u8>, k: int, v: u8)
    requires
        0 <= k < data.len(),
        v != data[k],
    ensures
        crc16(data.update(k, v)) != crc16(data),
{
    let other = data.update(k, v);
    lemma_crc_prefix_differs(other, data, k, data.len() as int);
    assert(other.take(data.len() as int) =~= other);
    assert(data.take(data.len() as int) =~= data);
}

/// From the same register state, two different byte pairs give different states.
proof fn lemma_crc_two_bytes_separate(c: u16, x1: u8, x2: u8, y1: u8, y2: u8)
    requires
        x1 != y1 || x2 != y2,
    ensures
        crc_byte(crc_byte(c, x1), x2) != crc_byte(crc_byte(c, y1), y2),
{
    let a = crc_shift8(c ^ ((x1 as u16) << 8u16));
    let b = crc_shift8(c ^ ((y1 as u16) << 8u16));
    assert(x1 != y1 ==> a != b) by (bit_vector)
        requires
            a == crc_shift8(c ^ ((x1 as u16) << 8u16)),
            b == crc_shift8(c ^ ((y1 as u16) << 8u16)),
    ;
    assert((x1 != y1 || x2 != y2) ==> crc_shift8(a ^ ((x2 as u16) << 8u16)) != crc_shift8(
        b ^ ((y2 as u16) << 8u16),
    )) by (bit_vector)
        requires
            a == crc_shift8(c ^ ((x1 as u16) << 8u16)),
            b == crc_shift8(c ^ ((y1 as u16) << 8u16)),
    ;
}

/// From the same register state, two different bytes give states whose low
/// bytes differ.
pub proof fn lemma_crc_byte_separates_low_bytes(c: u16, x: u8, y: u8)
    requires
        x != y,
    ensures
        crc_byte(c, x) % 256 != crc_byte(c, y) % 256,
{
    assert(x != y ==> crc_shift8(c ^ ((x as u16) << 8u16)) % 256 != crc_shift8(
        c ^ ((y as u16) << 8u16),
    ) % 256) by (bit_vector);
}

proof fn lemma_crc_difference_persists(a: Seq<u8>, b: Seq<u8>, i: int, n: int)
    requires
        a.len() == b.len(),
        0 <= i <= n <= a.len(),
        crc16(a.take(i)) != crc16(b.take(i)),
        forall|j: int| i <= j < a.len() ==> a[j] == b[j],
    ensures
        crc16(a.take(n)) != crc16(b.take(n)),
    decreases n - i,
{
    if n > i {
        lemma_crc_difference_persists(a, b, i, n - 1);
        assert(a.take(n).drop_last() =~= a.take(n - 1));
        assert(b.take(n).drop_last() =~= b.take(n - 1));
        lemma_crc_byte_separates_states(crc16(a.take(n - 1)), crc16(b.take(n - 1)), a[n - 1]);
    }
}

/// Changing any two adjacent bytes of a message (at least one of them for
/// real) always changes its CRC-16-CCITT: every corruption confined to two
/// consecutive bytes is detected.
pub proof fn lemma_crc16_detects_two_adjacent_byte_change(data: Seq<u8>, k: int, v1: u8, v2: u8)
    requires
        0 <= k,
        k + 1 < data.len(),
        v1 != data[k] || v2 != data[k + 1],
    ensures
        crc16(data.update(k, v1).update(k + 1, v2)) != crc16(data),
{
    let other = data.update(k, v1).update(k + 1, v2);
    let n = data.len() as int;
    assert(other.take(k) =~= data.take(k));
    assert(other.take(k + 1).drop_last() =~= other.take(k));
    assert(data.take(k + 1).drop_last() =~= data.take(k));
    assert(other.take(k + 2).drop_last() =~= other.take(k + 1));
    assert(data.take(k + 2).drop_last() =~= data.take(k + 1));
    lemma_crc_two_bytes_separate(crc16(data.take(k)), v1, v2, data[k], data[k + 1]);
    assert(crc16(other.take(k + 1)) == crc_byte(crc16(data.take(k)), v1));
    assert(crc16(data.take(k + 1)) == crc_byte(crc16(data.take(k)), data[k]));
    assert(crc16(other.take(k + 2)) == crc_byte(crc16(other.take(k + 1)), v2));
    assert(crc16(data.take(k + 2)) == crc_byte(crc16(data.take(k + 1)), data[k + 1]));
    lemma_crc_difference_persists(other, data, k + 2, n);
    assert(other.take(n) =~= other);
    assert(data.take(n) =~= data);
}

/// The register after feeding in its own value, high byte first, is zero.
proof fn lemma_crc_own_value_clears(c: u16)
    ensures
        crc_byte(crc_byte(c, (c / 256) as u8), (c % 256) as u8) == 0,
{
    let h = (c / 256) as u8;
    let l = (c % 256) as u8;
    let a = crc_shift8(c ^ ((h as u16) << 8u16));
    assert(a == crc_shift8(c ^ ((h as u16) << 8u16)) ==> (h == (c / 256) as u8 && l == (c % 256)
        as u8) ==> crc_shift8(a ^ ((l as u16) << 8u16)) == 0) by (bit_vector);
}

/// Appending the CRC of a message to it, high byte first, gives a message
/// whose CRC is zero.
pub proof fn lemma_crc16_appended_residue_is_zero(data: Seq<u8>)
    ensures
        crc16(data + seq![(crc16(data) / 256) as u8, (crc16(data) % 256) as u8]) == 0,
{
    let c = crc16(data);
    let h = (c / 256) as u8;
    let l = (c % 256) as u8;
    let full = data + seq![h, l];
    assert(full.drop_last() =~= data.push(h));
    assert(data.push(h).drop_last() =~= data);
    assert(crc16(data.push(h)) == crc_byte(c, h));
    assert(crc16(full) == crc_byte(crc16(data.push(h)), l));
    lemma_crc_own_value_clears(c);
}

} // verus!
