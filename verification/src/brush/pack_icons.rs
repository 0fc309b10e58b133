//! The icons a brush pack may wear.
//!
//! An Iconify name that the renderer's offline icon bundle does not hold
//! would draw nothing at all, so shipped packs must name one of these, and
//! the pack editor offers exactly this list.

use vstd::prelude::*;

use crate::text::str_eq;

verus! {

/// Drawn in place of an icon the renderer does not have. Must itself be a
/// pack icon.
pub const PACK_ICON_FALLBACK: &'static str = "fa6-solid:folder";

/// The Iconify names of the pack icons, in display order.
pub open spec fn pack_icon_names() -> Seq<Seq<char>> {
    seq![
        "mdi:brush"@,
        "mdi:pencil"@,
        "mdi:water"@,
        "mdi:blur"@,
        "mdi:spray"@,
        "mdi:fountain-pen-tip"@,
        "mdi:eraser"@,
        "mdi:palette"@,
        "mdi:leaf"@,
        "mdi:fire"@,
        "mdi:snowflake"@,
        "mdi:weather-cloudy"@,
        "mdi:shimmer"@,
        "mdi:diamond-stone"@,
        "mdi:dots-horizontal"@,
        "mdi:grain"@,
        "mdi:texture-box"@,
        "mdi:vector-curve"@,
        "mdi:shape"@,
        "mdi:image-filter-vintage"@,
        "fa6-solid:star"@,
        "fa6-solid:heart"@,
        "fa6-solid:flask"@,
        "fa6-solid:folder"@,
    ]
}

/// The display labels of the pack icons, in the same order.
pub open spec fn pack_icon_labels() -> Seq<Seq<char>> {
    seq![
        "Brush"@,
        "Pencil"@,
        "Water"@,
        "Blur"@,
        "Spray"@,
        "Pen"@,
        "Eraser"@,
        "Palette"@,
        "Leaf"@,
        "Fire"@,
        "Snowflake"@,
        "Cloud"@,
        "Shimmer"@,
        "Gem"@,
        "Dots"@,
        "Grain"@,
        "Texture"@,
        "Curve"@,
        "Shape"@,
        "Vintage"@,
        "Star"@,
        "Heart"@,
        "Flask"@,
        "Folder"@,
    ]
}

/// `(iconify name, display label)` for every pack icon, in display order.
pub fn pack_icons() -> (v: Vec<(&'static str, &'static str)>)
    ensures
        v@.len() == pack_icon_names().len(),
        forall|i: int| 0 <= i < v@.len() ==> (#[trigger] v@[i]).0@ == pack_icon_names()[i] && v@[i].1@
            == pack_icon_labels()[i],
{
    let mut v: Vec<(&'static str, &'static str)> = Vec::new();
    v.push(("mdi:brush", "Brush"));
    v.push(("mdi:pencil", "Pencil"));
    v.push(("mdi:water", "Water"));
    v.push(("mdi:blur", "Blur"));
    v.push(("mdi:spray", "Spray"));
    v.push(("mdi:fountain-pen-tip", "Pen"));
    v.push(("mdi:eraser", "Eraser"));
    v.push(("mdi:palette", "Palette"));
    v.push(("mdi:leaf", "Leaf"));
    v.push(("mdi:fire", "Fire"));
    v.push(("mdi:snowflake", "Snowflake"));
    v.push(("mdi:weather-cloudy", "Cloud"));
    v.push(("mdi:shimmer", "Shimmer"));
    v.push(("mdi:diamond-stone", "Gem"));
    v.push(("mdi:dots-horizontal", "Dots"));
    v.push(("mdi:grain", "Grain"));
    v.push(("mdi:texture-box", "Texture"));
    v.push(("mdi:vector-curve", "Curve"));
    v.push(("mdi:shape", "Shape"));
    v.push(("mdi:image-filter-vintage", "Vintage"));
    v.push(("fa6-solid:star", "Star"));
    v.push(("fa6-solid:heart", "Heart"));
    v.push(("fa6-solid:flask", "Flask"));
    v.push(("fa6-solid:folder", "Folder"));
    v
}

/// Whether `name` is an icon a pack may wear.
pub fn is_pack_icon(name: &str) -> (r: bool)
    ensures
        r == pack_icon_names().contains(name@),
{
    let icons = pack_icons();
    let mut i: usize = 0;
    while i < icons.len()
        invariant
            i <= icons.len(),
            icons@.len() == pack_icon_names().len(),
            forall|k: int| 0 <= k < icons@.len() ==> (#[trigger] icons@[k]).0@ == pack_icon_names()[k],
            forall|k: int| 0 <= k < i ==> pack_icon_names()[k] != name@,
        decreases icons.len() - i,
    {
        if str_eq(icons[i].0, name) {
            assert(pack_icon_names()[i as int] == name@);
            return true;
        }
        i = i + 1;
    }
    assert(!pack_icon_names().contains(name@));
    false
}

/// The fallback glyph is itself a pack icon, so the icon drawn when one is
/// missing is never missing itself.
pub proof fn fallback_is_a_pack_icon()
    ensures
        pack_icon_names().contains(PACK_ICON_FALLBACK@),
{
    assert(pack_icon_names()[23] == PACK_ICON_FALLBACK@);
}

} // verus!
