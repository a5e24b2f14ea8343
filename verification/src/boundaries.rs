//! Which faces of the domain are solid walls and which are open.

use vstd::prelude::*;

verus! {

/// Walls everywhere except the top (`+z`), so a plume leaves the domain
/// instead of piling up at the ceiling.
pub const DEFAULT_OPEN_MASK: u32 = 32;

#[derive(Debug, Clone, Copy, PartialEq, Eq, Structural)]
pub enum Face {
    /// Zero normal velocity; Neumann pressure.
    Wall,
    /// Pressure 0 beyond it; scalars flowing in are ambient, 0.
    Open,
}

#[derive(Debug, Clone, Copy, PartialEq, Eq, Structural)]
pub struct Boundaries {
    pub neg_x: Face,
    pub pos_x: Face,
    pub neg_y: Face,
    pub pos_y: Face,
    pub neg_z: Face,
    pub pos_z: Face,
}

/// 1 for an open face, 0 for a wall.
pub open spec fn open_bit(f: Face) -> nat {
    if f == Face::Open { 1 } else { 0 }
}

impl Boundaries {
    /// The six faces in axis-then-side order: `-x`, `+x`, `-y`, `+y`, `-z`, `+z`.
    pub open spec fn faces(self) -> Seq<Face> {
        seq![self.neg_x, self.pos_x, self.neg_y, self.pos_y, self.neg_z, self.pos_z]
    }

    /// The mask with bit `2·axis + side` set for each open face.
    pub open spec fn mask(self) -> nat {
        open_bit(self.neg_x) + 2 * open_bit(self.pos_x) + 4 * open_bit(self.neg_y) + 8
            * open_bit(self.pos_y) + 16 * open_bit(self.neg_z) + 32 * open_bit(self.pos_z)
    }

    /// Every face a wall.
    pub fn closed() -> (b: Self)
        ensures
            forall|i: int| 0 <= i < 6 ==> #[trigger] b.faces()[i] == Face::Wall,
    {
        Boundaries {
            neg_x: Face::Wall,
            pos_x: Face::Wall,
            neg_y: Face::Wall,
            pos_y: Face::Wall,
            neg_z: Face::Wall,
            pos_z: Face::Wall,
        }
    }

    /// Bit `2·axis + side` is set when that face is open; side 0 is the low
    /// face. This is `Params::open_mask` in the kernels' uniforms.
    pub fn open_mask(&self) -> (m: u32)
        ensures
            m == self.mask(),
            m < 64,
            forall|i: u32| i < 6 ==> ((m >> i) & 1 == 1 <==> #[trigger] self.faces()[i as int] == Face::Open),
    {
        let faces = [self.neg_x, self.pos_x, self.neg_y, self.pos_y, self.neg_z, self.pos_z];
        let mut mask: u32 = 0;
        let mut bit: u32 = 0;
        while bit < 6
            invariant
                0 <= bit <= 6,
                faces@ == self.faces(),
                mask == partial_mask(self.faces(), bit as nat),
                mask < pow2_u32(bit),
            decreases 6 - bit,
        {
            if faces[bit as usize] == Face::Open {
                proof { lemma_or_fresh_bit(mask, bit); }
                mask = mask | (1u32 << bit);
            }
            bit = bit + 1;
        }
        proof { lemma_mask_bits(self.faces(), mask); }
        mask
    }
}

/// 2 to the power `b`, for the few bits a mask of six faces uses.
pub open spec fn pow2_u32(b: u32) -> nat
    decreases b,
{
    if b == 0 { 1 } else { 2 * pow2_u32((b - 1) as u32) }
}

/// The mask of the first `n` faces.
pub open spec fn partial_mask(faces: Seq<Face>, n: nat) -> nat
    decreases n,
{
    if n == 0 { 0 } else {
        partial_mask(faces, (n - 1) as nat) + pow2_u32((n - 1) as u32) * open_bit(faces[n - 1])
    }
}

proof fn lemma_or_fresh_bit(mask: u32, bit: u32)
    requires
        bit < 6,
        mask < pow2_u32(bit),
    ensures
        mask | (1u32 << bit) == mask + pow2_u32(bit),
        (1u32 << bit) == pow2_u32(bit),
{
    reveal_with_fuel(pow2_u32, 7);
    assert(bit < 6 && mask < (1u32 << bit) ==> mask | (1u32 << bit) == mask + (1u32 << bit)) by (bit_vector);
    assert((1u32 << 0u32) == 1u32 && (1u32 << 1u32) == 2u32 && (1u32 << 2u32) == 4u32 && (1u32 << 3u32) == 8u32
        && (1u32 << 4u32) == 16u32 && (1u32 << 5u32) == 32u32) by (bit_vector);
}

proof fn lemma_mask_bits(faces: Seq<Face>, mask: u32)
    requires
        faces.len() == 6,
        mask == partial_mask(faces, 6),
    ensures
        mask == open_bit(faces[0]) + 2 * open_bit(faces[1]) + 4 * open_bit(faces[2]) + 8 * open_bit(faces[3])
            + 16 * open_bit(faces[4]) + 32 * open_bit(faces[5]),
        mask < 64,
        forall|i: u32| i < 6 ==> ((mask >> i) & 1 == 1 <==> #[trigger] faces[i as int] == Face::Open),
{
    reveal_with_fuel(partial_mask, 7);
    reveal_with_fuel(pow2_u32, 7);
    let b0 = open_bit(faces[0]) as u32;
    let b1 = open_bit(faces[1]) as u32;
    let b2 = open_bit(faces[2]) as u32;
    let b3 = open_bit(faces[3]) as u32;
    let b4 = open_bit(faces[4]) as u32;
    let b5 = open_bit(faces[5]) as u32;
    assert(b0 <= 1 && b1 <= 1 && b2 <= 1 && b3 <= 1 && b4 <= 1 && b5 <= 1);
    assert(partial_mask(faces, 1) == b0);
    assert(partial_mask(faces, 2) == b0 + 2 * b1);
    assert(partial_mask(faces, 3) == b0 + 2 * b1 + 4 * b2);
    assert(partial_mask(faces, 4) == b0 + 2 * b1 + 4 * b2 + 8 * b3);
    assert(partial_mask(faces, 5) == b0 + 2 * b1 + 4 * b2 + 8 * b3 + 16 * b4);
    assert(mask == b0 + 2 * b1 + 4 * b2 + 8 * b3 + 16 * b4 + 32 * b5);
    assert forall|i: u32| i < 6 implies ((mask >> i) & 1 == 1 <==> #[trigger] faces[i as int] == Face::Open) by {
        assert(b0 <= 1 && b1 <= 1 && b2 <= 1 && b3 <= 1 && b4 <= 1 && b5 <= 1 && i < 6
            && mask == b0 + 2 * b1 + 4 * b2 + 8 * b3 + 16 * b4 + 32 * b5 ==> (
            ((mask >> i) & 1 == 1) == (
                (i == 0 && b0 == 1) || (i == 1 && b1 == 1) || (i == 2 && b2 == 1)
                || (i == 3 && b3 == 1) || (i == 4 && b4 == 1) || (i == 5 && b5 == 1)))) by (bit_vector);
    }
}

impl Default for Boundaries {
    /// Walls everywhere but the top.
    fn default() -> (b: Self)
        ensures
            b.pos_z == Face::Open,
            forall|i: int| 0 <= i < 5 ==> #[trigger] b.faces()[i] == Face::Wall,
    {
        Boundaries { pos_z: Face::Open, ..Self::closed() }
    }
}

/// A closed domain's mask is 0, and that of walls everywhere but an open
/// top, the default boundaries, is `DEFAULT_OPEN_MASK`.
pub proof fn lemma_known_masks(b: Boundaries)
    ensures
        (forall|i: int| 0 <= i < 6 ==> #[trigger] b.faces()[i] == Face::Wall) ==> b.mask() == 0,
        (b.pos_z == Face::Open && forall|i: int| 0 <= i < 5 ==> #[trigger] b.faces()[i] == Face::Wall)
            ==> b.mask() == DEFAULT_OPEN_MASK,
{
    let f = b.faces();
    assert(f[0] == b.neg_x && f[1] == b.pos_x && f[2] == b.neg_y && f[3] == b.pos_y && f[4] == b.neg_z
        && f[5] == b.pos_z);
}

} // verus!
