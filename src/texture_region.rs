use vstd::prelude::*;

verus! {

/// A rectangle of texels inside one layer of a square texture array.
/// `u_min > u_max` (or `v_min > v_max`) denotes a mirrored region.
#[derive(PartialEq, Eq, Structural, Debug, Copy, Clone)]
pub struct TextureRegion {
    pub u_min: u32,
    pub u_max: u32,
    pub v_min: u32,
    pub v_max: u32,
    pub layer: u32,
    pub texture_size: u32,
}

/// Distance between two texel coordinates.
pub open spec fn span(a: u32, b: u32) -> u32 {
    if a > b { (a - b) as u32 } else { (b - a) as u32 }
}

impl TextureRegion {
    /// The region mirrored horizontally when `flip` holds, else unchanged.
    pub fn h_flipped(&self, flip: bool) -> (r: TextureRegion)
        ensures
            r == (if flip { self.h_flip_spec() } else { *self }),
    {
        if flip {
            self.h_flip()
        } else {
            *self
        }
    }

    /// The region mirrored vertically when `flip` holds, else unchanged.
    pub fn v_flipped(&self, flip: bool) -> (r: TextureRegion)
        ensures
            r == (if flip { self.v_flip_spec() } else { *self }),
    {
        if flip {
            self.v_flip()
        } else {
            *self
        }
    }

    pub open spec fn h_flip_spec(self) -> TextureRegion {
        TextureRegion { u_min: self.u_max, u_max: self.u_min, ..self }
    }

    pub open spec fn v_flip_spec(self) -> TextureRegion {
        TextureRegion { v_min: self.v_max, v_max: self.v_min, ..self }
    }

    /// The same texels with the horizontal extents swapped.
    pub fn h_flip(&self) -> (r: TextureRegion)
        ensures
            r == self.h_flip_spec(),
    {
        TextureRegion {
            u_min: self.u_max,
            u_max: self.u_min,
            v_min: self.v_min,
            v_max: self.v_max,
            layer: self.layer,
            texture_size: self.texture_size,
        }
    }

    /// The same texels with the vertical extents swapped.
    pub fn v_flip(&self) -> (r: TextureRegion)
        ensures
            r == self.v_flip_spec(),
    {
        TextureRegion {
            u_min: self.u_min,
            u_max: self.u_max,
            v_min: self.v_max,
            v_max: self.v_min,
            layer: self.layer,
            texture_size: self.texture_size,
        }
    }

    /// Width in texels, whichever way the region is mirrored.
    pub fn width(&self) -> (r: u32)
        ensures
            r == span(self.u_min, self.u_max),
    {
        if self.u_max > self.u_min {
            self.u_max - self.u_min
        } else {
            self.u_min - self.u_max
        }
    }

    /// Height in texels, whichever way the region is mirrored.
    pub fn height(&self) -> (r: u32)
        ensures
            r == span(self.v_min, self.v_max),
    {
        if self.v_max > self.v_min {
            self.v_max - self.v_min
        } else {
            self.v_min - self.v_max
        }
    }
}

/// A texture cut into square tiles of `tile_size` texels.
#[derive(PartialEq, Eq, Structural, Debug, Copy, Clone)]
pub struct TextureAtlas {
    pub texture_size: u32,
    pub tile_size: u32,
}

/// One layer of a tiled texture array.
pub struct TextureAtlasLayer {
    pub tile_size: u32,
    pub texture_size: u32,
    pub layer: u32,
}

/// The texel extents `[tile_size * u, tile_size * (u + width)]`.
pub open spec fn extents(tile_size: u32, u: u32, width: u32) -> (int, int) {
    (tile_size * u, tile_size * u + tile_size * width)
}

/// Whether the extents of `width` tiles from tile `u` fit in `u32`.
pub open spec fn extents_fit(tile_size: u32, u: u32, width: u32) -> bool {
    tile_size * u + tile_size * width <= u32::MAX
}

/// Horizontal texel extents of `width` tiles starting at tile column `u`.
pub fn tile_extents_x(tile_size: u32, u: u32, width: u32) -> (r: (u32, u32))
    requires
        extents_fit(tile_size, u, width),
    ensures
        (r.0 as int, r.1 as int) == extents(tile_size, u, width),
{
    proof {
        assert(0 <= tile_size * u) by (nonlinear_arith);
        assert(0 <= tile_size * width) by (nonlinear_arith);
    }
    let u_min = tile_size * u;
    let u_max = u_min + tile_size * width;
    (u_min, u_max)
}

/// Vertical texel extents of `height` tiles starting at tile row `v`.
pub fn tile_extents_y(tile_size: u32, v: u32, height: u32) -> (r: (u32, u32))
    requires
        extents_fit(tile_size, v, height),
    ensures
        (r.0 as int, r.1 as int) == extents(tile_size, v, height),
{
    proof {
        assert(0 <= tile_size * v) by (nonlinear_arith);
        assert(0 <= tile_size * height) by (nonlinear_arith);
    }
    let v_min = tile_size * v;
    let v_max = v_min + tile_size * height;
    (v_min, v_max)
}

/// The region of `wide` by `high` tiles whose top-left tile is `(u, v)`.
pub open spec fn tile_region(
    tile_size: u32,
    texture_size: u32,
    layer: u32,
    u: u32,
    v: u32,
    wide: u32,
    high: u32,
) -> TextureRegion {
    TextureRegion {
        u_min: extents(tile_size, u, wide).0 as u32,
        u_max: extents(tile_size, u, wide).1 as u32,
        v_min: extents(tile_size, v, high).0 as u32,
        v_max: extents(tile_size, v, high).1 as u32,
        layer,
        texture_size,
    }
}

impl TextureAtlas {
    /// The given layer of this atlas.
    pub fn layer(&self, layer: u32) -> (r: TextureAtlasLayer)
        ensures
            r.tile_size == self.tile_size,
            r.texture_size == self.texture_size,
            r.layer == layer,
    {
        TextureAtlasLayer { tile_size: self.tile_size, texture_size: self.texture_size, layer }
    }

    /// The single tile `(u, v)` of layer 0.
    pub fn at(&self, u: u32, v: u32) -> (r: TextureRegion)
        requires
            extents_fit(self.tile_size, u, 1),
            extents_fit(self.tile_size, v, 1),
        ensures
            r == tile_region(self.tile_size, self.texture_size, 0, u, v, 1, 1),
    {
        let (u_min, u_max) = tile_extents_x(self.tile_size, u, 1);
        let (v_min, v_max) = tile_extents_y(self.tile_size, v, 1);
        TextureRegion { u_min, u_max, v_min, v_max, layer: 0, texture_size: self.texture_size }
    }

    /// The block of `wide` by `high` tiles from `(u, v)` on layer 0.
    pub fn get(&self, u: u32, v: u32, wide: u32, high: u32) -> (r: TextureRegion)
        requires
            extents_fit(self.tile_size, u, wide),
            extents_fit(self.tile_size, v, high),
        ensures
            r == tile_region(self.tile_size, self.texture_size, 0, u, v, wide, high),
    {
        let (u_min, u_max) = tile_extents_x(self.tile_size, u, wide);
        let (v_min, v_max) = tile_extents_y(self.tile_size, v, high);
        TextureRegion { u_min, u_max, v_min, v_max, layer: 0, texture_size: self.texture_size }
    }
}

impl TextureAtlasLayer {
    /// The single tile `(u, v)` of this layer.
    pub fn at(&self, u: u32, v: u32) -> (r: TextureRegion)
        requires
            extents_fit(self.tile_size, u, 1),
            extents_fit(self.tile_size, v, 1),
        ensures
            r == tile_region(self.tile_size, self.texture_size, self.layer, u, v, 1, 1),
    {
        let (u_min, u_max) = tile_extents_x(self.tile_size, u, 1);
        let (v_min, v_max) = tile_extents_y(self.tile_size, v, 1);
        TextureRegion {
            u_min,
            u_max,
            v_min,
            v_max,
            layer: self.layer,
            texture_size: self.texture_size,
        }
    }

    /// The block of `wide` by `high` tiles from `(u, v)` on this layer.
    pub fn get(&self, u: u32, v: u32, wide: u32, high: u32) -> (r: TextureRegion)
        requires
            extents_fit(self.tile_size, u, wide),
            extents_fit(self.tile_size, v, high),
        ensures
            r == tile_region(self.tile_size, self.texture_size, self.layer, u, v, wide, high),
    {
        let (u_min, u_max) = tile_extents_x(self.tile_size, u, wide);
        let (v_min, v_max) = tile_extents_y(self.tile_size, v, high);
        TextureRegion {
            u_min,
            u_max,
            v_min,
            v_max,
            layer: self.layer,
            texture_size: self.texture_size,
        }
    }
}

} // verus!
