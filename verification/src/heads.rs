//! The two heads (fronts) of a local queue, packed into one word.
use vstd::prelude::*;

verus! {

/// The stealer head in a packed word.
pub open spec fn stealer_head(heads: u32) -> u16 {
    (heads / 0x1_0000) as u16
}

/// The real head in a packed word.
pub open spec fn real_head(heads: u32) -> u16 {
    (heads % 0x1_0000) as u16
}

/// The word that holds the two given heads.
pub open spec fn packed_heads(stealer: u16, head: u16) -> u32 {
    (stealer * 0x1_0000 + head) as u32
}

/// Unpack the two heads of a local queue. Returns a tuple of the stealer head and the real head.
pub fn unpack_heads(heads: u32) -> (unpacked: (u16, u16))
    ensures
        unpacked == (stealer_head(heads), real_head(heads)),
{
    proof {
        assert(heads >> 16u32 == heads / 0x1_0000) by (bit_vector);
        assert(heads as u16 == (heads % 0x1_0000) as u16) by (bit_vector);
    }
    ((heads >> 16u32) as u16, heads as u16)
}

/// Pack the two heads of a local queue from its stealer head and real head.
pub fn pack_heads(stealer: u16, head: u16) -> (heads: u32)
    ensures
        heads == packed_heads(stealer, head),
{
    proof {
        assert((stealer as u32) << 16u32 | head as u32 == stealer * 0x1_0000 + head)
            by (bit_vector);
    }
    (stealer as u32) << 16u32 | head as u32
}

/// The stealer head stands in the upper half of the word and the real head in the lower half.
pub proof fn heads_stand_side_by_side(heads: u32)
    ensures
        heads == stealer_head(heads) * 0x1_0000 + real_head(heads),
{
}

/// Unpacking gives back the heads that were packed.
pub proof fn unpack_undoes_pack(stealer: u16, head: u16)
    ensures
        stealer_head(packed_heads(stealer, head)) == stealer,
        real_head(packed_heads(stealer, head)) == head,
{
}

/// Packing gives back the word that was unpacked.
pub proof fn pack_undoes_unpack(heads: u32)
    ensures
        packed_heads(stealer_head(heads), real_head(heads)) == heads,
{
}

} // verus!
