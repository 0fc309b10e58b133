//! WGSL type system used by the brush compiler.
//!
//! [`WgslType`] is the restricted set of scalar / vector types a brush node
//! may declare for its per-dab fields and uniform fields. The size and
//! alignment values are the std430 numbers; the layout helpers walk a field
//! list and produce the byte size of the generated struct.

use vstd::prelude::*;

verus! {

/// WGSL scalar/vector types a node may declare for its dab and uniform
/// fields. Restricted to types with natural std430 alignment (no `vec3`).
#[derive(Clone, Copy, Debug, PartialEq, Eq, Structural)]
pub enum WgslType {
    F32,
    U32,
    I32,
    Vec2,
    Vec4,
}

/// std430 size in bytes.
pub open spec fn ty_size(t: WgslType) -> nat {
    match t {
        WgslType::F32 | WgslType::U32 | WgslType::I32 => 4,
        WgslType::Vec2 => 8,
        WgslType::Vec4 => 16,
    }
}

/// std430 alignment in bytes.
pub open spec fn ty_align(t: WgslType) -> nat {
    match t {
        WgslType::F32 | WgslType::U32 | WgslType::I32 => 4,
        WgslType::Vec2 => 8,
        WgslType::Vec4 => 16,
    }
}

/// The WGSL spelling of a type.
pub open spec fn ty_name(t: WgslType) -> Seq<char> {
    match t {
        WgslType::F32 => "f32"@,
        WgslType::U32 => "u32"@,
        WgslType::I32 => "i32"@,
        WgslType::Vec2 => "vec2<f32>"@,
        WgslType::Vec4 => "vec4<f32>"@,
    }
}

impl WgslType {
    /// Size in bytes (matches WGSL std430 size).
    pub fn size(self) -> (r: usize)
        ensures
            r == ty_size(self),
    {
        match self {
            Self::F32 | Self::U32 | Self::I32 => 4,
            Self::Vec2 => 8,
            Self::Vec4 => 16,
        }
    }

    /// std430 alignment in bytes.
    pub fn align(self) -> (r: usize)
        ensures
            r == ty_align(self),
    {
        match self {
            Self::F32 | Self::U32 | Self::I32 => 4,
            Self::Vec2 => 8,
            Self::Vec4 => 16,
        }
    }

    /// The WGSL spelling of this type.
    pub fn wgsl_name(self) -> (r: &'static str)
        ensures
            r@ == ty_name(self),
    {
        match self {
            Self::F32 => "f32",
            Self::U32 => "u32",
            Self::I32 => "i32",
            Self::Vec2 => "vec2<f32>",
            Self::Vec4 => "vec4<f32>",
        }
    }
}

/// The least multiple of `a` that is not below `v` (`v` itself for `a == 0`).
pub open spec fn round_up(v: int, a: int) -> int {
    if a <= 0 {
        v
    } else {
        v + (a - v % a) % a
    }
}

/// Whether `a` is a power of two.
pub open spec fn is_pow2_usize(a: usize) -> bool {
    a > 0 && a & ((a - 1) as usize) == 0
}

/// A multiple of `a` within `[v, v + a)` is `round_up(v, a)`.
pub proof fn lemma_round_up_unique(v: int, a: int, r: int)
    requires
        a > 0,
        v >= 0,
        r % a == 0,
        v <= r < v + a,
    ensures
        r == round_up(v, a),
{
    let q = v / a;
    let m = v % a;
    let k = r / a;
    vstd::arithmetic::div_mod::lemma_fundamental_div_mod(v, a);
    vstd::arithmetic::div_mod::lemma_fundamental_div_mod(r, a);
    assert(0 <= m < a);
    if m == 0 {
        vstd::arithmetic::div_mod::lemma_mod_self_0(a);
        assert(k == q) by (nonlinear_arith)
            requires
                v == a * q,
                r == a * k,
                v <= r < v + a,
                a > 0,
        ;
    } else {
        assert(k == q + 1) by (nonlinear_arith)
            requires
                v == a * q + m,
                r == a * k,
                v <= r < v + a,
                0 < m < a,
        ;
        assert(r == v + (a - m)) by (nonlinear_arith)
            requires
                v == a * q + m,
                r == a * k,
                k == q + 1,
        ;
        vstd::arithmetic::div_mod::lemma_small_mod((a - m) as nat, a as nat);
    }
}

/// `round_up(v, a)` lies in `[v, v + a)`.
pub proof fn lemma_round_up_bounds(v: int, a: int)
    requires
        a > 0,
        v >= 0,
    ensures
        v <= round_up(v, a) < v + a,
        round_up(v, a) % a == 0,
{
    let m = v % a;
    vstd::arithmetic::div_mod::lemma_fundamental_div_mod(v, a);
    if m == 0 {
        assert((a - m) % a == 0) by {
            vstd::arithmetic::div_mod::lemma_mod_self_0(a);
        }
    } else {
        vstd::arithmetic::div_mod::lemma_small_mod((a - m) as nat, a as nat);
        assert((v + (a - m)) % a == 0) by {
            assert(v + (a - m) == a * (v / a + 1)) by (nonlinear_arith)
                requires
                    v == a * (v / a) + m,
            ;
            vstd::arithmetic::div_mod::lemma_mod_multiples_basic(v / a + 1, a);
        }
    }
}

/// Round `value` up to a multiple of `alignment` by mask (`value` unchanged
/// for a zero alignment). Exact for the power-of-two alignments std430
/// uses: the result is then the least multiple of `alignment` not below
/// `value`.
pub fn align_to(value: usize, alignment: usize) -> (r: usize)
    requires
        value + alignment <= usize::MAX,
    ensures
        alignment == 0 ==> r == value,
        alignment > 0 ==> r == (((value + alignment - 1) as usize) & !((alignment - 1) as usize)),
        is_pow2_usize(alignment) ==> r & ((alignment - 1) as usize) == 0 && value <= r && r
            < value + alignment,
{
    if alignment == 0 {
        return value;
    }
    let r = (value + alignment - 1) & !(alignment - 1);
    proof {
        if is_pow2_usize(alignment) {
            assert(r & ((alignment - 1) as usize) == 0 && value <= r && r < value + alignment)
                by (bit_vector)
                requires
                    alignment > 0,
                    alignment & ((alignment - 1) as usize) == 0,
                    ((value + alignment) as usize) == value + alignment,
                    r == (((value + alignment - 1) as usize) & !((alignment - 1) as usize)),
            ;
        }
    }
    r
}

/// The byte offset just past the last field when `fields` are laid out in
/// order, each at the next multiple of its alignment.
pub open spec fn layout_end(fields: Seq<WgslType>) -> int
    decreases fields.len(),
{
    if fields.len() == 0 {
        0
    } else {
        round_up(layout_end(fields.drop_last()), ty_align(fields.last()) as int) + ty_size(
            fields.last(),
        )
    }
}

/// The struct alignment: the largest field alignment, at least 4.
pub open spec fn max_align(fields: Seq<WgslType>) -> int
    decreases fields.len(),
{
    if fields.len() == 0 {
        4
    } else {
        let rest = max_align(fields.drop_last());
        let a = ty_align(fields.last()) as int;
        if a > rest {
            a
        } else {
            rest
        }
    }
}

/// The std430 size of a struct with `fields` in order: the end of the last
/// field, padded to the struct alignment.
pub open spec fn struct_size(fields: Seq<WgslType>) -> int {
    round_up(layout_end(fields), max_align(fields))
}

proof fn lemma_max_align_values(fields: Seq<WgslType>)
    ensures
        max_align(fields) == 4 || max_align(fields) == 8 || max_align(fields) == 16,
    decreases fields.len(),
{
    if fields.len() > 0 {
        lemma_max_align_values(fields.drop_last());
    }
}

proof fn lemma_layout_end_monotone(fields: Seq<WgslType>, i: int)
    requires
        0 <= i <= fields.len(),
    ensures
        0 <= layout_end(fields.take(i)) <= layout_end(fields),
    decreases fields.len(),
{
    if fields.len() > 0 {
        if i == fields.len() {
            assert(fields.take(i) =~= fields);
            lemma_layout_end_monotone(fields.drop_last(), i - 1);
        } else {
            assert(fields.drop_last().take(i) =~= fields.take(i));
            lemma_layout_end_monotone(fields.drop_last(), i);
        }
        lemma_layout_end_monotone(fields.drop_last(), fields.len() - 1);
        assert(fields.drop_last().take(fields.len() - 1) =~= fields.drop_last());
        lemma_round_up_bounds(layout_end(fields.drop_last()), ty_align(fields.last()) as int);
    }
}

/// `align_to` at one of the std430 alignments is exactly `round_up`.
fn align_std430(value: usize, alignment: usize) -> (r: usize)
    requires
        alignment == 4 || alignment == 8 || alignment == 16,
        value + alignment <= usize::MAX,
    ensures
        r == round_up(value as int, alignment as int),
{
    assert(is_pow2_usize(4)) by (bit_vector);
    assert(is_pow2_usize(8)) by (bit_vector);
    assert(is_pow2_usize(16)) by (bit_vector);
    let r = align_to(value, alignment);
    if alignment == 4 {
        assert(r % 4 == 0) by (bit_vector)
            requires
                r & 3 == 0,
        ;
    } else if alignment == 8 {
        assert(r % 8 == 0) by (bit_vector)
            requires
                r & 7 == 0,
        ;
    } else {
        assert(r % 16 == 0) by (bit_vector)
            requires
                r & 15 == 0,
        ;
    }
    proof {
        lemma_round_up_unique(value as int, alignment as int, r as int);
    }
    r
}

/// The std430 byte size of a struct whose fields have types `fields`, in
/// order: each field at the next multiple of its alignment, the total padded
/// to the largest alignment (at least 4).
pub fn compute_struct_size(fields: &[WgslType]) -> (r: usize)
    requires
        struct_size(fields@) + 16 <= usize::MAX,
    ensures
        r == struct_size(fields@),
{
    let mut size: usize = 0;
    let mut max: usize = 4;
    let mut i: usize = 0;
    proof {
        lemma_layout_end_monotone(fields@, fields@.len() as int);
        lemma_max_align_values(fields@);
        lemma_round_up_bounds(layout_end(fields@), max_align(fields@));
    }
    while i < fields.len()
        invariant
            i <= fields@.len(),
            size == layout_end(fields@.take(i as int)),
            max == max_align(fields@.take(i as int)),
            layout_end(fields@) <= struct_size(fields@),
            struct_size(fields@) + 16 <= usize::MAX,
        decreases fields.len() - i,
    {
        let t = fields[i];
        let a = t.align();
        proof {
            assert(fields@.take(i + 1).drop_last() =~= fields@.take(i as int));
            assert(fields@.take(i + 1).last() == t);
            lemma_layout_end_monotone(fields@, i + 1);
            lemma_layout_end_monotone(fields@, i as int);
            lemma_round_up_bounds(size as int, a as int);
        }
        size = align_std430(size, a);
        size = size + t.size();
        if a > max {
            max = a;
        }
        i = i + 1;
    }
    assert(fields@.take(fields@.len() as int) =~= fields@);
    proof {
        lemma_max_align_values(fields@);
    }
    align_std430(size, max)
}

/// A struct's size is a multiple of its alignment and covers every field:
/// padding is only ever added, never lost.
pub proof fn struct_size_is_aligned_and_covers_fields(fields: Seq<WgslType>)
    ensures
        struct_size(fields) % max_align(fields) == 0,
        layout_end(fields) <= struct_size(fields) < layout_end(fields) + max_align(fields),
{
    lemma_max_align_values(fields);
    lemma_layout_end_monotone(fields, fields.len() as int);
    lemma_round_up_bounds(layout_end(fields), max_align(fields));
}

} // verus!
