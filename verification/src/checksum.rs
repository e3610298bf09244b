//! CRC-32, the integrity code that the container keeps for each payload.

use vstd::prelude::*;

verus! {

/// The generator polynomial of CRC-32, bits reversed.
pub const POLYNOMIAL: u32 = 0xedb8_8320;

/// One step of the division: the register moves right by one bit, and the
/// polynomial is taken off where a set bit fell out.
pub open spec fn crc_shift(c: u32) -> u32 {
    if c & 1 == 1 {
        (c >> 1) ^ POLYNOMIAL
    } else {
        c >> 1
    }
}

/// `n` steps of the division.
pub open spec fn crc_shifts(c: u32, n: nat) -> u32
    decreases n,
{
    if n == 0 {
        c
    } else {
        crc_shifts(crc_shift(c), (n - 1) as nat)
    }
}

/// The register after one more byte.
pub open spec fn crc_feed(c: u32, b: u8) -> u32 {
    crc_shifts(c ^ (b as u32), 8)
}

/// The register after all the bytes of `data`, from all ones at the start.
pub open spec fn crc_register(data: Seq<u8>) -> u32
    decreases data.len(),
{
    if data.len() == 0 {
        0xffff_ffff
    } else {
        crc_feed(crc_register(data.drop_last()), data.last())
    }
}

/// The CRC-32 of `data`: the register at the end, every bit flipped.
pub open spec fn crc32(data: Seq<u8>) -> u32 {
    crc_register(data) ^ 0xffff_ffff
}

/// The CRC-32 of no bytes is 0.
pub proof fn lemma_crc32_empty()
    ensures
        crc32(Seq::<u8>::empty()) == 0,
{
    assert(0xffff_ffffu32 ^ 0xffff_ffffu32 == 0) by (bit_vector);
}

/// The steps of the division go through exclusive or.
proof fn lemma_shifts_linear(a: u32, b: u32, n: nat)
    ensures
        crc_shifts(a ^ b, n) == crc_shifts(a, n) ^ crc_shifts(b, n),
    decreases n,
{
    if n > 0 {
        assert(crc_shift(a ^ b) == crc_shift(a) ^ crc_shift(b)) by (bit_vector);
        lemma_shifts_linear(crc_shift(a), crc_shift(b), (n - 1) as nat);
    }
}

/// Where the low `n` bits are clear, `n` steps only move the register.
proof fn lemma_shifts_of_high_bits(h: u32, n: nat)
    requires
        n <= 8,
        h & (((1u32 << (n as u32)) - 1) as u32) == 0,
    ensures
        crc_shifts(h, n) == h >> (n as u32),
    decreases n,
{
    let k = n as u32;
    if n == 0 {
        assert(h >> 0u32 == h) by (bit_vector);
    } else {
        assert(h & 1 == 0 && (h >> 1) & (((1u32 << ((k - 1) as u32)) - 1) as u32) == 0 && (h >> 1)
            >> ((k - 1) as u32) == h >> k) by (bit_vector)
            requires
                1 <= k <= 8,
                h & (((1u32 << k) - 1) as u32) == 0,
        ;
        lemma_shifts_of_high_bits(h >> 1, (n - 1) as nat);
    }
}

/// Eight steps on a register are eight steps on its low byte, and the rest
/// moved down on top of them.
proof fn lemma_feed_by_table(x: u32)
    ensures
        crc_shifts(x, 8) == crc_shifts(x & 0xff, 8) ^ (x >> 8),
{
    let lo = x & 0xff;
    let hi = x & 0xffff_ff00;
    assert(x == lo ^ hi && hi & (((1u32 << 8u32) - 1) as u32) == 0 && hi >> 8u32 == x >> 8u32)
        by (bit_vector)
        requires
            lo == x & 0xff,
            hi == x & 0xffff_ff00,
    ;
    lemma_shifts_linear(lo, hi, 8);
    lemma_shifts_of_high_bits(hi, 8);
}

/// Feeds one byte to the register, bit by bit.
fn feed(c: u32, b: u8) -> (r: u32)
    ensures
        r == crc_feed(c, b),
{
    let mut x: u32 = c ^ (b as u32);
    let ghost start = x;
    let mut k: u8 = 0;
    while k < 8
        invariant
            k <= 8,
            crc_shifts(x, (8 - k) as nat) == crc_shifts(start, 8),
        decreases 8 - k,
    {
        x = if x & 1 == 1 {
            (x >> 1) ^ POLYNOMIAL
        } else {
            x >> 1
        };
        k += 1;
    }
    x
}

/// The table of CRC-32: 256 entries, the entry of each byte being what eight
/// steps of the division make of that byte.
pub open spec fn crc_table() -> Seq<u32> {
    Seq::new(256, |i: int| crc_shifts(i as u32, 8))
}

/// The table that feeds the register a byte at a time.
pub struct Crc32 {
    table: Vec<u32>,
}

impl View for Crc32 {
    type V = Seq<u32>;

    /// The entries of the table, by byte.
    closed spec fn view(&self) -> Seq<u32> {
        self.table@
    }
}

impl Crc32 {
    #[verifier::type_invariant]
    spec fn table_is_complete(&self) -> bool {
        &&& self.table@.len() == 256
        &&& forall|i: int| 0 <= i < 256 ==> #[trigger] self.table@[i] == crc_shifts(i as u32, 8)
    }

    /// Builds the table: entry by entry, eight steps on each byte from 0 to 255.
    pub fn new() -> (crc: Crc32)
        ensures
            crc@ == crc_table(),
    {
        let mut table: Vec<u32> = Vec::new();
        let mut i: u32 = 0;
        while i < 256
            invariant
                i <= 256,
                table@.len() == i,
                forall|k: int| 0 <= k < i ==> #[trigger] table@[k] == crc_shifts(k as u32, 8),
            decreases 256 - i,
        {
            let entry = feed(0, i as u8);
            proof {
                assert(0u32 ^ ((i as u8) as u32) == i) by (bit_vector)
                    requires
                        i < 256,
                ;
            }
            table.push(entry);
            i += 1;
        }
        Crc32 { table }
    }

    /// Computes the CRC-32 of `data`.
    pub fn checksum(&self, data: &[u8]) -> (r: u32)
        ensures
            r == crc32(data@),
    {
        proof {
            use_type_invariant(self);
        }
        let n: usize = data.len();
        let mut c: u32 = 0xffff_ffff;
        let mut i: usize = 0;
        while i < n
            invariant
                n == data@.len(),
                i <= n,
                self.table@.len() == 256,
                forall|k: int| 0 <= k < 256 ==> #[trigger] self.table@[k] == crc_shifts(k as u32, 8),
                c == crc_register(data@.take(i as int)),
            decreases n - i,
        {
            let b: u8 = data[i];
            let x: u32 = c ^ (b as u32);
            let low: u32 = x & 0xff;
            proof {
                assert(data@.take(i + 1).drop_last() =~= data@.take(i as int));
                assert(low < 256 && x >> 8 == c >> 8) by (bit_vector)
                    requires
                        x == c ^ (b as u32),
                        low == x & 0xff,
                ;
                lemma_feed_by_table(x);
            }
            c = self.table[low as usize] ^ (c >> 8);
            i += 1;
        }
        proof {
            assert(data@.take(n as int) =~= data@);
        }
        c ^ 0xffff_ffff
    }
}

/// Computes the CRC-32 of `data`.
pub fn checksum(data: &[u8]) -> (r: u32)
    ensures
        r == crc32(data@),
{
    Crc32::new().checksum(data)
}

} // verus!
