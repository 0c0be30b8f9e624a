//! Sprites: a positioned, sized, colored quad sampling a window of an atlas
//! placement.  The quad's corner data is rebuilt only when the sprite is
//! marked changed; rebuilding clears the flag, so an unchanged sprite's
//! update is a no-op.  Corner data stays in integer texels here; conversion
//! to the device's floating-point vertex layout happens outside the crate.

use crate::atlas::Allocation;
use vstd::prelude::*;

verus! {

/// One corner of a sprite quad: screen position, texture coordinate in
/// texels (with the atlas array layer), and packed RGBA color.
#[derive(Clone, Copy, PartialEq, Eq, Structural, Debug)]
pub struct SpriteVertexData {
    pub px: u32,
    pub py: u32,
    pub pz: u32,
    pub u: u32,
    pub v: u32,
    pub layer: u32,
    pub color: u32,
}

/// Addition clamped to the machine word, as the quad arithmetic uses it.
pub open spec fn sat_add(a: u32, b: u32) -> u32 {
    if a + b > u32::MAX {
        u32::MAX
    } else {
        (a + b) as u32
    }
}

/// The smaller of two texel extents.
pub open spec fn min_u32(a: u32, b: u32) -> u32 {
    if a < b {
        a
    } else {
        b
    }
}

/// A renderable sprite: position, size, UV window, array layer, color, the
/// atlas placement it samples, its rebuilt corner data, and the dirty flag.
pub struct Sprite {
    pub pos: [u32; 3],
    pub hw: [u32; 2],
    pub uv: [u32; 4],
    pub layer: u32,
    pub color: u32,
    pub texture: Option<Allocation>,
    pub quad: Vec<SpriteVertexData>,
    pub changed: bool,
}

/// The four corners a sprite's state determines, in submission order:
/// bottom-left, bottom-right, top-right, top-left.  The UV window is
/// clamped to the placement's extent and offset by its position; sums
/// saturate as the rebuild arithmetic does.
pub open spec fn sprite_quad(s: Sprite) -> Seq<SpriteVertexData> {
    let min_x = s.pos@[0];
    let min_y = s.pos@[1];
    let z = s.pos@[2];
    let max_x = sat_add(s.pos@[0], s.hw@[0]);
    let max_y = sat_add(s.pos@[1], s.hw@[1]);
    let tw = match s.texture {
        Some(a) => a.width,
        None => 1u32,
    };
    let th = match s.texture {
        Some(a) => a.height,
        None => 1u32,
    };
    let tx = match s.texture {
        Some(a) => a.x,
        None => 0u32,
    };
    let ty = match s.texture {
        Some(a) => a.y,
        None => 0u32,
    };
    let w = min_u32(s.uv@[2], tw);
    let h = min_u32(s.uv@[3], th);
    let u1 = sat_add(s.uv@[0], tx);
    let v1 = sat_add(s.uv@[1], ty);
    let u2 = sat_add(sat_add(s.uv@[0], tx), w);
    let v2 = sat_add(sat_add(s.uv@[1], ty), h);
    seq![
        SpriteVertexData { px: min_x, py: min_y, pz: z, u: u1, v: v2, layer: s.layer, color: s.color },
        SpriteVertexData { px: max_x, py: min_y, pz: z, u: u2, v: v2, layer: s.layer, color: s.color },
        SpriteVertexData { px: max_x, py: max_y, pz: z, u: u2, v: v1, layer: s.layer, color: s.color },
        SpriteVertexData { px: min_x, py: max_y, pz: z, u: u1, v: v1, layer: s.layer, color: s.color },
    ]
}

/// `post` is `pre` with its quad rebuilt from `pre`'s state and the dirty
/// flag cleared; every other field is untouched.
pub open spec fn rebuilt(pre: Sprite, post: Sprite) -> bool {
    &&& post.pos == pre.pos
    &&& post.hw == pre.hw
    &&& post.uv == pre.uv
    &&& post.layer == pre.layer
    &&& post.color == pre.color
    &&& post.texture == pre.texture
    &&& post.quad@ == sprite_quad(pre)
    &&& !post.changed
}

/// Packed opaque white, the color a fresh sprite starts with.
pub const WHITE_RGBA: u32 = 0xFFFF_FFFF;

impl Sprite {
    /// A sprite over an atlas placement, at the origin, zero-sized, white,
    /// with no corner data built yet and marked changed.
    pub fn new(texture: Allocation) -> (r: Sprite)
        ensures
            r.pos@ =~= seq![0u32, 0u32, 0u32],
            r.hw@ =~= seq![0u32, 0u32],
            r.uv@ =~= seq![0u32, 0u32, 0u32, 0u32],
            r.layer == texture.layer as u32,
            r.color == WHITE_RGBA,
            r.texture == Some(texture),
            r.quad@ =~= Seq::<SpriteVertexData>::empty(),
            r.changed,
    {
        Sprite {
            pos: [0; 3],
            hw: [0; 2],
            uv: [0; 4],
            layer: texture.layer as u32,
            color: WHITE_RGBA,
            texture: Some(texture),
            quad: Vec::new(),
            changed: true,
        }
    }

    /// Rebuilds the four quad corners from the sprite's current state and
    /// clears the dirty flag.
    pub fn create_quad(&mut self)
        ensures
            rebuilt(*old(self), *final(self)),
    {
        let min_x = self.pos[0];
        let min_y = self.pos[1];
        let z = self.pos[2];
        let max_x = sat_add_exec(self.pos[0], self.hw[0]);
        let max_y = sat_add_exec(self.pos[1], self.hw[1]);

        let (tw, th) = match &self.texture {
            Some(a) => (a.width, a.height),
            None => (1, 1),
        };
        let (tx, ty) = match &self.texture {
            Some(a) => (a.x, a.y),
            None => (0, 0),
        };

        let w = if self.uv[2] < tw { self.uv[2] } else { tw };
        let h = if self.uv[3] < th { self.uv[3] } else { th };
        let u1 = sat_add_exec(self.uv[0], tx);
        let v1 = sat_add_exec(self.uv[1], ty);
        let u2 = sat_add_exec(u1, w);
        let v2 = sat_add_exec(v1, h);

        let layer = self.layer;
        let color = self.color;
        let quad = vec![
            SpriteVertexData { px: min_x, py: min_y, pz: z, u: u1, v: v2, layer, color },
            SpriteVertexData { px: max_x, py: min_y, pz: z, u: u2, v: v2, layer, color },
            SpriteVertexData { px: max_x, py: max_y, pz: z, u: u2, v: v1, layer, color },
            SpriteVertexData { px: min_x, py: max_y, pz: z, u: u1, v: v1, layer, color },
        ];
        proof {
            assert(quad@ =~= sprite_quad(*old(self)));
        }
        self.quad = quad;
        self.changed = false;
    }

    /// Rebuilds the corner data only when something changed since the last
    /// build; an unchanged sprite is left exactly as it is.
    pub fn update(&mut self)
        ensures
            old(self).changed ==> rebuilt(*old(self), *final(self)),
            !old(self).changed ==> *final(self) == *old(self),
    {
        if self.changed {
            self.create_quad();
        }
    }
}

impl Default for Sprite {
    /// A sprite bound to no placement: zeroed geometry, white, marked
    /// changed.
    fn default() -> (r: Sprite)
        ensures
            r.pos@ =~= seq![0u32, 0u32, 0u32],
            r.hw@ =~= seq![0u32, 0u32],
            r.uv@ =~= seq![0u32, 0u32, 0u32, 0u32],
            r.layer == 0,
            r.color == WHITE_RGBA,
            r.texture is None,
            r.quad@ =~= Seq::<SpriteVertexData>::empty(),
            r.changed,
    {
        Sprite {
            pos: [0; 3],
            hw: [0; 2],
            uv: [0; 4],
            layer: 0,
            color: WHITE_RGBA,
            texture: None,
            quad: Vec::new(),
            changed: true,
        }
    }
}

/// Saturating addition on texel coordinates.
fn sat_add_exec(a: u32, b: u32) -> (r: u32)
    ensures
        r == sat_add(a, b),
{
    if a > u32::MAX - b {
        u32::MAX
    } else {
        a + b
    }
}

/// Rebuilding is idempotent: a second rebuild without an intervening state
/// change reproduces the same corner data and leaves the flag clear, so the
/// dirty-bit protocol never re-copies bytes for an unchanged sprite.
pub proof fn lemma_rebuild_idempotent(pre: Sprite, mid: Sprite, post: Sprite)
    requires
        rebuilt(pre, mid),
        rebuilt(mid, post),
    ensures
        post.quad@ == mid.quad@,
        !mid.changed,
        !post.changed,
{
}

} // verus!
