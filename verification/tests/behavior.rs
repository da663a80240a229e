use modsim::behavior::{
    effective_behavior, DeviceBehavior, DeviceBehaviorOverrides, MissingBlockBehavior,
};

#[test]
fn overrides_none_returns_base() {
    let base = DeviceBehavior {
        response_delay_ms: 100,
        ..Default::default()
    };
    let eff = effective_behavior(&base, None);
    assert_eq!(eff, base);
}

#[test]
fn overrides_replace_specific_fields() {
    let base = DeviceBehavior {
        response_delay_ms: 100,
        ..Default::default()
    };
    let ov = DeviceBehaviorOverrides {
        response_delay_ms: Some(500),
        ..Default::default()
    };
    let eff = effective_behavior(&base, Some(&ov));
    assert_eq!(eff.response_delay_ms, 500);
}

#[test]
fn overrides_can_clear_max_registers() {
    let base = DeviceBehavior {
        max_registers_per_request: Some(8),
        ..Default::default()
    };
    let ov = DeviceBehaviorOverrides {
        max_registers_per_request: Some(None),
        ..Default::default()
    };
    let eff = effective_behavior(&base, Some(&ov));
    assert_eq!(eff.max_registers_per_request, None);
}

#[test]
fn default_behavior_is_lenient_and_strict_on_missing() {
    let b = DeviceBehavior::default();
    assert!(b.disabled_function_codes.is_empty());
    assert_eq!(b.max_registers_per_request, None);
    assert_eq!(b.missing_full_block, MissingBlockBehavior::IllegalDataAddress);
    assert_eq!(b.missing_partial_block, MissingBlockBehavior::IllegalDataAddress);
    assert_eq!(b.response_delay_ms, 0);
}

#[test]
fn overrides_leave_unset_fields_alone() {
    let base = DeviceBehavior {
        disabled_function_codes: vec![5, 6],
        max_registers_per_request: Some(10),
        missing_full_block: MissingBlockBehavior::Timeout,
        missing_partial_block: MissingBlockBehavior::ZeroFill,
        response_delay_ms: 7,
    };
    let ov = DeviceBehaviorOverrides {
        missing_full_block: Some(MissingBlockBehavior::SlaveDeviceFailure),
        disabled_function_codes: Some(vec![16]),
        ..Default::default()
    };
    let eff = effective_behavior(&base, Some(&ov));
    assert_eq!(eff.disabled_function_codes, vec![16]);
    assert_eq!(eff.max_registers_per_request, Some(10));
    assert_eq!(eff.missing_full_block, MissingBlockBehavior::SlaveDeviceFailure);
    assert_eq!(eff.missing_partial_block, MissingBlockBehavior::ZeroFill);
    assert_eq!(eff.response_delay_ms, 7);
}

#[test]
fn empty_overrides_return_base() {
    let base = DeviceBehavior {
        disabled_function_codes: vec![1],
        max_registers_per_request: Some(3),
        ..Default::default()
    };
    let eff = effective_behavior(&base, Some(&DeviceBehaviorOverrides::default()));
    assert_eq!(eff, base);
}

#[test]
fn applying_overrides_twice_changes_nothing_more() {
    let base = DeviceBehavior {
        disabled_function_codes: vec![1, 2],
        max_registers_per_request: Some(4),
        ..Default::default()
    };
    let ov = DeviceBehaviorOverrides {
        max_registers_per_request: Some(None),
        missing_partial_block: Some(MissingBlockBehavior::Timeout),
        ..Default::default()
    };
    let once = effective_behavior(&base, Some(&ov));
    let twice = effective_behavior(&once, Some(&ov));
    assert_eq!(once, twice);
}

use modsim::behavior::{BehaviorInput, BehaviorOverridesInput};

#[test]
fn behavior_input_conversion() {
    let b = BehaviorInput {
        disabled_function_codes: vec![3, 16, 259],
        max_registers_per_request: Some(70000),
        missing_full_block: MissingBlockBehavior::ZeroFill,
        missing_partial_block: MissingBlockBehavior::Timeout,
        response_delay_ms: -5,
    }
    .to_behavior();
    assert_eq!(b.disabled_function_codes, vec![3, 16, 3]);
    assert_eq!(b.max_registers_per_request, Some(70000u32 as u16));
    assert_eq!(b.response_delay_ms, 0);
    assert_eq!(b.missing_full_block, MissingBlockBehavior::ZeroFill);
}

#[test]
fn overrides_input_conversion() {
    let base = BehaviorOverridesInput {
        response_delay_ms: Some(250),
        max_registers_per_request: Some(8),
        clear_max_registers: None,
        disabled_function_codes: None,
        missing_full_block: None,
        missing_partial_block: Some(MissingBlockBehavior::IllegalFunction),
    };
    let o = base.to_overrides();
    assert_eq!(o.response_delay_ms, Some(250));
    assert_eq!(o.max_registers_per_request, Some(Some(8)));
    assert_eq!(o.disabled_function_codes, None);
    assert_eq!(o.missing_partial_block, Some(MissingBlockBehavior::IllegalFunction));
    let cleared = BehaviorOverridesInput { clear_max_registers: Some(true), ..base.clone() }.to_overrides();
    assert_eq!(cleared.max_registers_per_request, Some(None));
    let neg = BehaviorOverridesInput { response_delay_ms: Some(-1), ..base }.to_overrides();
    assert_eq!(neg.response_delay_ms, Some(0));
}
