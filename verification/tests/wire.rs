use darkly::brush::wire::BrushWireType;

#[test]
fn compatible_same_type() {
    for ty in [BrushWireType::Scalar, BrushWireType::Int, BrushWireType::Vec2, BrushWireType::Vec4] {
        assert!(BrushWireType::compatible(ty, ty));
    }
}

#[test]
fn compatible_scalar_int_coercions() {
    assert!(BrushWireType::compatible(BrushWireType::Scalar, BrushWireType::Int));
    assert!(BrushWireType::compatible(BrushWireType::Int, BrushWireType::Scalar));
}

#[test]
fn is_wirable_truth_table() {
    for ty in [BrushWireType::Scalar, BrushWireType::Int, BrushWireType::Bool, BrushWireType::Vec2, BrushWireType::Vec4] {
        assert!(ty.is_wirable(), "{ty:?} should be wirable");
    }
    for ty in [BrushWireType::Enum, BrushWireType::String, BrushWireType::Curve] {
        assert!(!ty.is_wirable(), "{ty:?} should not be wirable");
    }
}

#[test]
fn is_user_exposable_truth_table() {
    for ty in [BrushWireType::Scalar, BrushWireType::Bool, BrushWireType::Enum] {
        assert!(ty.is_user_exposable(), "{ty:?} should be user-exposable");
    }
    for ty in [BrushWireType::Int, BrushWireType::String, BrushWireType::Curve, BrushWireType::Vec2, BrushWireType::Vec4] {
        assert!(!ty.is_user_exposable(), "{ty:?} should not be user-exposable");
    }
}

#[test]
fn incompatible_unrelated_types() {
    assert!(!BrushWireType::compatible(BrushWireType::Vec4, BrushWireType::Scalar));
    assert!(!BrushWireType::compatible(BrushWireType::Vec2, BrushWireType::Vec4));
}

#[test]
fn compatibility_is_symmetric_over_every_pair() {
    let all = [
        BrushWireType::Scalar,
        BrushWireType::Int,
        BrushWireType::Bool,
        BrushWireType::Vec2,
        BrushWireType::Vec4,
        BrushWireType::Enum,
        BrushWireType::String,
        BrushWireType::Curve,
        BrushWireType::Texture,
    ];
    for a in all {
        assert!(BrushWireType::compatible(a, a));
        for b in all {
            assert_eq!(BrushWireType::compatible(a, b), BrushWireType::compatible(b, a));
        }
    }
}
