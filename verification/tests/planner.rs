use wgpu_calc::errors::VariableError;
use wgpu_calc::variable::{checked_plan, plan, plannable};

#[test]
fn extents_up_to_the_direct_limit_are_the_workgroup_counts() {
    assert_eq!(plan([65535, 1, 1]), Ok([65535, 1, 1]));
    assert_eq!(plan([3, 3, 1]), Ok([3, 3, 1]));
    assert_eq!(plan([0, 0, 0]), Ok([0, 0, 0]));
}

#[test]
fn an_extent_above_the_direct_limit_is_refused_with_its_axis() {
    assert_eq!(plan([65536, 1, 1]), Err(VariableError::WorkgroupDimensionError(0)));
    assert_eq!(plan([1, 65536, 1]), Err(VariableError::WorkgroupDimensionError(1)));
    assert_eq!(plan([1, 1, 65536]), Err(VariableError::WorkgroupDimensionError(2)));
    assert_eq!(plan([1, 4194241, 1]), Err(VariableError::WorkgroupDimensionError(1)));
    assert_eq!(plan([1, 1, 16776960]), Err(VariableError::WorkgroupDimensionError(2)));
    assert_eq!(plan([4194240, 1, 1]), Err(VariableError::WorkgroupDimensionError(0)));
}

#[test]
fn extents_beyond_every_tier_cannot_be_planned() {
    assert!(plannable([4194240, 1, 1]));
    assert!(!plannable([4194241, 1, 1]));
    assert!(plannable([1, 16776960, 1]));
    assert!(!plannable([1, 16776961, 1]));
    assert!(!plannable([1, 1, u32::MAX]));
    assert_eq!(checked_plan([4194241, 1, 1]), None);
    assert_eq!(checked_plan([1, 2, 3]), Some(Ok([1, 2, 3])));
}

#[test]
fn the_first_refused_axis_ends_planning() {
    assert!(plannable([65536, u32::MAX, 1]));
    assert_eq!(plan([65536, u32::MAX, 1]), Err(VariableError::WorkgroupDimensionError(0)));
    assert_eq!(
        checked_plan([1, 70000, u32::MAX]),
        Some(Err(VariableError::WorkgroupDimensionError(1)))
    );
}
