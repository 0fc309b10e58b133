//! How a compiled brush's `@group(3)` texture slots resolve to bound GPU
//! textures at pipeline-build time.
//!
//! Two kinds of node produce those slots, differing only in how the texture
//! is obtained: a texture already in the registry, looked up by name (the
//! `image` node), or a procedural tile baked once and cached by its
//! field-defining parameters (the `noise` node, when its field is static).

use vstd::prelude::*;

use crate::text::{concat3, owned};

verus! {

/// How a `@group(3)` slot resolves to a bound texture at build time.
#[derive(Clone, Debug, PartialEq, Eq, Hash)]
pub enum ResolvedSource {
    /// A texture already in the registry, by name (the `image` node).
    Named(String),
    /// A procedural tile to bake-or-reuse, keyed by field-defining
    /// parameters (the `noise` node, static-field path).
    Baked(BakeSpec),
}

/// The channel layout a bake produces: R8 grayscale for the `noise` node's
/// scalar `value` output, RGBA8 for its chromatic `color` output.
#[derive(Clone, Copy, Debug, PartialEq, Eq, Hash, Structural)]
pub enum BakeChannels {
    Grayscale,
    Rgba,
}

/// A fully-specified, hashable recipe for one baked procedural tile.
///
/// Holds field-defining parameters only — the things that change the tile
/// content. Sample-time parameters (scale, variation, rotation) move where
/// the tile is sampled, not what it contains, so one baked tile serves them
/// all. Two brushes with an equal `BakeSpec` share one cached tile.
#[derive(Clone, Copy, Debug, PartialEq, Eq, Hash, Structural)]
pub struct BakeSpec {
    /// Which procedural field to bake.
    pub kind: BakeKind,
    /// R8 vs RGBA8.
    pub channels: BakeChannels,
    /// Square tile edge in texels, derived from the field's octave count.
    pub resolution: u32,
}

/// The procedural field a baked tile bakes.
#[derive(Clone, Copy, Debug, PartialEq, Eq, Hash, Structural)]
pub enum BakeKind {
    /// Domain-warped, per-octave-rotated fBm — the `noise` node's field.
    /// `warp_q` and `roughness_q` are the quantized field parameters; all
    /// four values are the already-clamped ones the node's live path uses.
    Noise { seed: u32, octaves: i32, warp_q: u32, roughness_q: u32 },
}

/// Reference detail window (field units) the tile is sized to resolve.
pub const DETAIL_SPAN: u32 = 16;

/// Smallest tile edge a bake uses.
pub const MIN_RESOLUTION: u32 = 512;

/// Largest tile edge a bake uses.
pub const MAX_RESOLUTION: u32 = 2048;

/// `v` clamped into `[lo, hi]`.
pub open spec fn clamp_int(v: int, lo: int, hi: int) -> int {
    if v < lo {
        lo
    } else if v > hi {
        hi
    } else {
        v
    }
}

/// The tile edge for `octaves`: `DETAIL_SPAN * 2^(octaves-1) * 2` texels
/// (octaves clamped to 1..=8), clamped to the memory band `[512, 2048]`.
pub open spec fn octave_resolution(octaves: int) -> int {
    let finest = vstd::arithmetic::power2::pow2((clamp_int(octaves, 1, 8) - 1) as nat);
    clamp_int((16 * finest * 2) as int, 512, 2048)
}

/// The short diagnostic label of a baked field.
pub open spec fn kind_label(kind: BakeKind) -> Seq<char> {
    match kind {
        BakeKind::Noise { .. } => "noise"@,
    }
}

/// The diagnostic label of a slot source.
pub open spec fn source_label(source: ResolvedSource) -> Seq<char> {
    match source {
        ResolvedSource::Named(name) => name@,
        ResolvedSource::Baked(spec) => "<baked "@ + kind_label(spec.kind) + ">"@,
    }
}

impl ResolvedSource {
    /// A short human-readable label for this source, for diagnostics that
    /// enumerate a brush's texture slots.
    pub fn binding_label(&self) -> (r: String)
        ensures
            r@ == source_label(*self),
    {
        match self {
            ResolvedSource::Named(name) => owned(name.as_str()),
            ResolvedSource::Baked(spec) => concat3("<baked ", spec.kind.label(), ">"),
        }
    }
}

impl BakeSpec {
    /// Tile edge resolution (texels) that resolves the finest fBm frequency
    /// for `octaves` across the detail window, clamped to a sane memory band.
    /// Out-of-range octave counts are clamped first, so the shift never
    /// overflows.
    pub fn resolution_for_octaves(octaves: i32) -> (r: u32)
        ensures
            r as int == octave_resolution(octaves as int),
    {
        let clamped: i32 = if octaves < 1 {
            1
        } else if octaves > 8 {
            8
        } else {
            octaves
        };
        let k: u32 = (clamped - 1) as u32;
        proof {
            vstd::arithmetic::power2::lemma2_to64();
            vstd::bits::lemma_u32_pow2_no_overflow(k as nat);
            vstd::bits::lemma_u32_shl_is_mul(1, k);
        }
        let finest: u32 = 1u32 << k;
        let raw: u32 = DETAIL_SPAN * finest * 2;
        if raw < MIN_RESOLUTION {
            MIN_RESOLUTION
        } else if raw > MAX_RESOLUTION {
            MAX_RESOLUTION
        } else {
            raw
        }
    }
}

impl BakeKind {
    fn label(&self) -> (r: &'static str)
        ensures
            r@ == kind_label(*self),
    {
        match self {
            BakeKind::Noise { .. } => "noise",
        }
    }
}

/// The tile edge grows with the octave count and always stays within the
/// memory band: never below 512, never above 2048, whatever is asked.
pub proof fn resolution_is_monotone_and_bounded(a: int, b: int)
    requires
        a <= b,
    ensures
        512 <= octave_resolution(a) <= 2048,
        octave_resolution(a) <= octave_resolution(b),
{
    vstd::arithmetic::power2::lemma2_to64();
    let ka = (clamp_int(a, 1, 8) - 1) as nat;
    let kb = (clamp_int(b, 1, 8) - 1) as nat;
    if ka < kb {
        vstd::arithmetic::power2::lemma_pow2_strictly_increases(ka, kb);
    }
}

} // verus!
