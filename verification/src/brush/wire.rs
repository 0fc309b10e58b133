//! Brush-domain wire types.
//!
//! Wire types are the WGSL data shape a port carries — `Scalar` / `Int` /
//! `Bool` / `Vec2` / `Vec4` — plus the compile-time-only shapes (`Enum`,
//! `String`, `Curve`) and the `Texture` output a texture-producing node
//! exposes. Two wires connect iff their shapes match, with the one small
//! `Scalar`/`Int` coercion.

use vstd::prelude::*;

verus! {

/// The set of data types that can flow along wires in a brush graph.
#[derive(Clone, Copy, Debug, PartialEq, Eq, Hash, Structural)]
pub enum BrushWireType {
    /// Single `f32`: sensor outputs, coverage values, mask luminance.
    Scalar,
    /// `i32` value (enum index, count).
    Int,
    /// `bool` flag.
    Bool,
    /// `vec2<f32>` (position, tilt, motion).
    Vec2,
    /// `vec4<f32>` (RGBA color; arbitrary 4-vector).
    Vec4,
    /// A dropdown-selected index picking a compile-time WGSL branch. Not
    /// wirable: a per-dab wire cannot drive a compile-time branch.
    Enum,
    /// A texture / icon name, resolved at compile time. Not wirable.
    String,
    /// Curve control points, baked into a LUT at compile time. Not wirable.
    Curve,
    /// A rendered texture a node produces (a dab, a procedural tile); what a
    /// node preview samples.
    Texture,
}

/// Whether a wire from a `from` port may drive a `to` port.
pub open spec fn spec_compatible(from: BrushWireType, to: BrushWireType) -> bool {
    ||| from == to
    ||| (from == BrushWireType::Scalar && to == BrushWireType::Int)
    ||| (from == BrushWireType::Int && to == BrushWireType::Scalar)
}

/// Whether a port of type `t` accepts a per-dab wire.
pub open spec fn spec_is_wirable(t: BrushWireType) -> bool {
    !(t == BrushWireType::Enum || t == BrushWireType::String || t == BrushWireType::Curve)
}

/// Whether the brush bar has a widget for a port of type `t`.
pub open spec fn spec_is_user_exposable(t: BrushWireType) -> bool {
    t == BrushWireType::Scalar || t == BrushWireType::Bool || t == BrushWireType::Enum
}

impl BrushWireType {
    /// Same shape connects; otherwise only `Scalar` ↔ `Int`.
    pub fn compatible(from: Self, to: Self) -> (r: bool)
        ensures
            r == spec_compatible(from, to),
    {
        from == to || (from == Self::Scalar && to == Self::Int) || (from == Self::Int && to
            == Self::Scalar)
    }

    /// `Enum`/`String`/`Curve` select a compile-time arm or bake a constant,
    /// so no per-dab wire can drive them; every other shape is wirable.
    pub fn is_wirable(self) -> (r: bool)
        ensures
            r == spec_is_wirable(self),
    {
        !matches!(self, Self::Enum | Self::String | Self::Curve)
    }

    /// The brush bar can render a scrub (`Scalar`), a toggle (`Bool`) and a
    /// dropdown (`Enum`); only those are user-exposable.
    pub fn is_user_exposable(self) -> (r: bool)
        ensures
            r == spec_is_user_exposable(self),
    {
        matches!(self, Self::Scalar | Self::Bool | Self::Enum)
    }
}

/// Wire compatibility is reflexive and symmetric: a wire type always
/// connects to itself, and the only coercion runs both ways.
pub proof fn compatible_is_reflexive_and_symmetric(a: BrushWireType, b: BrushWireType)
    ensures
        spec_compatible(a, a),
        spec_compatible(a, b) == spec_compatible(b, a),
{
}

/// Compatibility only ever relates two wirable types, or a type to itself:
/// the coercion never reaches a compile-time-only shape.
pub proof fn coercion_stays_wirable(a: BrushWireType, b: BrushWireType)
    requires
        spec_compatible(a, b),
        a != b,
    ensures
        spec_is_wirable(a),
        spec_is_wirable(b),
{
}

/// Two different wire types connect only across the `Scalar`/`Int`
/// coercion, which runs both ways; no other pair of shapes connects, so a
/// `Vec2` output never drives a `Scalar` input, nor a `Scalar` a `Vec2`.
pub proof fn distinct_types_connect_only_scalar_and_int(a: BrushWireType, b: BrushWireType)
    ensures
        a != b && spec_compatible(a, b) ==> (a == BrushWireType::Scalar && b == BrushWireType::Int) || (a
            == BrushWireType::Int && b == BrushWireType::Scalar),
        spec_compatible(BrushWireType::Scalar, BrushWireType::Int),
        spec_compatible(BrushWireType::Int, BrushWireType::Scalar),
        !spec_compatible(BrushWireType::Vec2, BrushWireType::Scalar),
        !spec_compatible(BrushWireType::Scalar, BrushWireType::Vec2),
{
}

/// Every shape a per-dab wire carries (`Scalar`, `Int`, `Bool`, `Vec2`,
/// `Vec4`) and the `Texture` output are wirable; the compile-time-only
/// shapes (`Enum`, `String`, `Curve`) are not. Only `Scalar`, `Bool` and
/// `Enum` have a brush-bar widget.
pub proof fn wirable_and_exposable_shapes(t: BrushWireType)
    ensures
        !spec_is_wirable(t) <==> (t == BrushWireType::Enum || t == BrushWireType::String || t == BrushWireType::Curve),
        spec_is_wirable(BrushWireType::Scalar) && spec_is_wirable(BrushWireType::Int) && spec_is_wirable(BrushWireType::Bool)
            && spec_is_wirable(BrushWireType::Vec2) && spec_is_wirable(BrushWireType::Vec4) && spec_is_wirable(
            BrushWireType::Texture,
        ),
        spec_is_user_exposable(t) ==> spec_is_wirable(t) || t == BrushWireType::Enum,
        spec_is_user_exposable(BrushWireType::Scalar) && spec_is_user_exposable(BrushWireType::Bool)
            && spec_is_user_exposable(BrushWireType::Enum),
        !spec_is_user_exposable(BrushWireType::Int) && !spec_is_user_exposable(BrushWireType::Vec2)
            && !spec_is_user_exposable(BrushWireType::Vec4) && !spec_is_user_exposable(BrushWireType::String)
            && !spec_is_user_exposable(BrushWireType::Curve) && !spec_is_user_exposable(BrushWireType::Texture),
{
}

} // verus!
