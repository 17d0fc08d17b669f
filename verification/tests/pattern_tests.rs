use hazard_analyzer::pattern::{get_method_call, method_re};

const METHODS_INSTANCE: &str = "MethodsDevice::new()
        .first_action(DeviceAction::with_hazard(first_action_config, first_action, Hazard::PowerOutage))?
        .second_action(DeviceAction::with_hazards(second_action_config, second_action, &[Hazard::FireHazard, Hazard::SpoiledFood]))?
        .third_action(DeviceAction::no_hazards(third_action_config, third_action))
        .add_action(DeviceAction::no_hazards(optional_action_config, optional_action))?
        .state(device_state)
        .build()";

#[test]
fn pattern_of_a_method_call() {
    assert_eq!(method_re("add_action"), "(?s)add_action\\((.*?)\\)\\s*\\??\\s*\\.");
    assert_eq!(method_re(""), "(?s)\\((.*?)\\)\\s*\\??\\s*\\.");
    assert_eq!(method_re("NewDevice::new"), "(?s)NewDevice::new\\((.*?)\\)\\s*\\??\\s*\\.");
}

#[test]
fn arguments_of_a_method_call() {
    assert_eq!(
        get_method_call(METHODS_INSTANCE, "first_action"),
        Some(
            "DeviceAction::with_hazard(first_action_config, first_action, Hazard::PowerOutage)"
                .to_string()
        )
    );
    // A call that is followed by a dot without a question mark.
    assert_eq!(
        get_method_call(METHODS_INSTANCE, "third_action"),
        Some("DeviceAction::no_hazards(third_action_config, third_action)".to_string())
    );
    assert_eq!(get_method_call(METHODS_INSTANCE, "state"), Some("device_state".to_string()));
}

#[test]
fn arguments_of_the_constructor_call() {
    assert_eq!(get_method_call(METHODS_INSTANCE, "MethodsDevice::new"), Some(String::new()));
    let instance = "NewDevice::new(\n    DeviceAction::no_hazards(a_config, a),\n    DeviceAction::no_hazards(b_config, b)\n)?\n.build()";
    assert_eq!(
        get_method_call(instance, "NewDevice::new"),
        Some(
            "\n    DeviceAction::no_hazards(a_config, a),\n    DeviceAction::no_hazards(b_config, b)\n"
                .to_string()
        )
    );
}

#[test]
fn call_that_is_not_there() {
    assert_eq!(get_method_call(METHODS_INSTANCE, "fourth_action"), None);
    // The last call of a chain is followed by no dot.
    assert_eq!(get_method_call(METHODS_INSTANCE, "build"), None);
    assert_eq!(get_method_call("", "first_action"), None);
}

#[test]
fn call_whose_name_is_no_pattern() {
    // An unclosed parenthesis in the name makes a pattern that is refused.
    assert_eq!(get_method_call("a(b(c).d", "a(b"), None);
    // A name is read as a pattern: a dot matches any character.
    assert_eq!(get_method_call("fXo(1).g", "f.o"), Some("1".to_string()));
}
