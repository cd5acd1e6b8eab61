use vstd::prelude::*;
use vstd::arithmetic::div_mod::lemma_fundamental_div_mod_converse;
use crate::voxel::IVec3;

verus! {

/// Bits given to the horizontal axes `x` and `z`.
pub const HORIZONTAL_BITS: u32 = 13;
/// Bits given to the vertical axis `y`.
pub const VERTICAL_BITS: u32 = 6;
/// Bias added to `x` and `z`: half of the horizontal field.
pub const HORIZONTAL_BIAS: i32 = 4096;
/// Bias added to `y`: half of the vertical field.
pub const VERTICAL_BIAS: i32 = 32;

/// Whether every axis of `p` lies in its field's signed range.
pub open spec fn key_in_range(p: IVec3) -> bool {
    -4096 <= p.x < 4096 && -32 <= p.y < 32 && -4096 <= p.z < 4096
}

/// The packed key: biased `x` in the top 13 bits, biased `z` in the next 13,
/// biased `y` in the low 6.
pub open spec fn key_of(p: IVec3) -> int {
    ((p.x + 4096) * 8192 + (p.z + 4096)) * 64 + (p.y + 32)
}

/// The coordinate that a key stands for.
pub open spec fn coord_of_key(k: int) -> IVec3 {
    IVec3 {
        x: (k / 64 / 8192 - 4096) as i32,
        y: (k % 64 - 32) as i32,
        z: ((k / 64) % 8192 - 4096) as i32,
    }
}

/// Packs `p` into one word. Coordinates outside the fields' range are
/// the caller's responsibility and are excluded here.
pub fn encode_key(p: IVec3) -> (r: u32)
    requires
        key_in_range(p),
    ensures
        r as int == key_of(p),
        r < 0x1_0000_0000,
{
    let xb = (p.x + HORIZONTAL_BIAS) as u32;
    let zb = (p.z + HORIZONTAL_BIAS) as u32;
    let yb = (p.y + VERTICAL_BIAS) as u32;
    assert((xb * 8192 + zb) * 64 + yb < 0x1_0000_0000) by (nonlinear_arith)
        requires
            xb < 8192,
            zb < 8192,
            yb < 64,
    ;
    (xb * 8192 + zb) * 64 + yb
}

/// Unpacks a key into its coordinate.
pub fn decode_key(k: u32) -> (r: IVec3)
    ensures
        r == coord_of_key(k as int),
        key_in_range(r),
{
    let q = k / 64;
    assert(q / 8192 < 8192) by {
        vstd::arithmetic::div_mod::lemma_div_is_ordered(k as int, 0xFFFF_FFFFint, 64);
        vstd::arithmetic::div_mod::lemma_div_is_ordered(q as int, 67108863int, 8192);
    }
    IVec3 {
        x: (q / 8192) as i32 - HORIZONTAL_BIAS,
        y: (k % 64) as i32 - VERTICAL_BIAS,
        z: (q % 8192) as i32 - HORIZONTAL_BIAS,
    }
}

/// Decoding an encoded coordinate gives the coordinate back.
pub proof fn lemma_decode_encode(p: IVec3)
    requires
        key_in_range(p),
    ensures
        coord_of_key(key_of(p)) == p,
{
    let xb = p.x + 4096;
    let zb = p.z + 4096;
    let yb = p.y + 32;
    let k = key_of(p);
    lemma_fundamental_div_mod_converse(k, 64, xb * 8192 + zb, yb);
    lemma_fundamental_div_mod_converse(xb * 8192 + zb, 8192, xb, zb);
}

/// Distinct in-range coordinates have distinct keys.
pub proof fn lemma_key_injective(p: IVec3, q: IVec3)
    requires
        key_in_range(p),
        key_in_range(q),
        key_of(p) == key_of(q),
    ensures
        p == q,
{
    lemma_decode_encode(p);
    lemma_decode_encode(q);
}

/// Every key of 32 bits is the key of exactly the coordinate it decodes to.
pub proof fn lemma_encode_decode(k: int)
    requires
        0 <= k < 0x1_0000_0000,
    ensures
        key_in_range(coord_of_key(k)),
        key_of(coord_of_key(k)) == k,
{
    let q = k / 64;
    vstd::arithmetic::div_mod::lemma_fundamental_div_mod(k, 64);
    vstd::arithmetic::div_mod::lemma_fundamental_div_mod(q, 8192);
    vstd::arithmetic::div_mod::lemma_mod_bound(k, 64);
    vstd::arithmetic::div_mod::lemma_mod_bound(q, 8192);
    vstd::arithmetic::div_mod::lemma_div_is_ordered(k, 0xFFFF_FFFFint, 64);
    vstd::arithmetic::div_mod::lemma_div_is_ordered(q, 67108863int, 8192);
    vstd::arithmetic::div_mod::lemma_div_pos_is_pos(k, 64);
    vstd::arithmetic::div_mod::lemma_div_pos_is_pos(q, 8192);
}

} // verus!
