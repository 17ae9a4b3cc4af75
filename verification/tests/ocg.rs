use oxideav_pdf::objects::ObjectId;
use oxideav_pdf::ocg::{
    evaluate_membership_with_states, evaluate_visibility_expression, resolve_states, OcBaseState,
    OcConfig, OcMembership, OcStates, OcVisibilityExpression, OcVisibilityPolicy,
    OptionalContentGroup,
};

fn id(n: u32) -> ObjectId {
    ObjectId::new(n)
}

fn make_states(pairs: &[(u32, bool)]) -> OcStates {
    let mut m = OcStates::new();
    for (n, s) in pairs {
        m.insert(id(*n), *s);
    }
    m
}

#[test]
fn visibility_policy_from_name_defaults_anyon() {
    assert_eq!(
        OcVisibilityPolicy::from_name("garbage"),
        OcVisibilityPolicy::AnyOn
    );
    assert_eq!(OcVisibilityPolicy::from_name(""), OcVisibilityPolicy::AnyOn);
}

#[test]
fn visibility_policy_recognises_all_four_names() {
    assert_eq!(
        OcVisibilityPolicy::from_name("AllOn"),
        OcVisibilityPolicy::AllOn
    );
    assert_eq!(
        OcVisibilityPolicy::from_name("AnyOn"),
        OcVisibilityPolicy::AnyOn
    );
    assert_eq!(
        OcVisibilityPolicy::from_name("AnyOff"),
        OcVisibilityPolicy::AnyOff
    );
    assert_eq!(
        OcVisibilityPolicy::from_name("AllOff"),
        OcVisibilityPolicy::AllOff
    );
}

#[test]
fn base_state_defaults_to_on() {
    assert!(matches!(OcBaseState::from_name("garbage"), OcBaseState::On));
    assert!(matches!(OcBaseState::from_name("ON"), OcBaseState::On));
    assert!(matches!(OcBaseState::from_name("OFF"), OcBaseState::Off));
    assert!(matches!(
        OcBaseState::from_name("Unchanged"),
        OcBaseState::Unchanged
    ));
}

#[test]
fn resolve_states_basestate_on_sets_all_on() {
    let groups = vec![
        OptionalContentGroup {
            id: id(10),
            name: "L1".into(),
            intents: vec!["View".into()],
            usage: None,
        },
        OptionalContentGroup {
            id: id(11),
            name: "L2".into(),
            intents: vec!["View".into()],
            usage: None,
        },
    ];
    let cfg = OcConfig {
        base_state: OcBaseState::On,
        ..OcConfig::default()
    };
    let s = resolve_states(&groups, &cfg);
    assert_eq!(s.get(&id(10)), Some(true));
    assert_eq!(s.get(&id(11)), Some(true));
}

#[test]
fn resolve_states_basestate_off_sets_all_off() {
    let groups = vec![OptionalContentGroup {
        id: id(10),
        name: "L1".into(),
        intents: vec!["View".into()],
        usage: None,
    }];
    let cfg = OcConfig {
        base_state: OcBaseState::Off,
        ..OcConfig::default()
    };
    let s = resolve_states(&groups, &cfg);
    assert_eq!(s.get(&id(10)), Some(false));
}

#[test]
fn resolve_states_on_overrides_off_basestate() {
    let groups = vec![
        OptionalContentGroup {
            id: id(10),
            name: "L1".into(),
            intents: vec![],
            usage: None,
        },
        OptionalContentGroup {
            id: id(11),
            name: "L2".into(),
            intents: vec![],
            usage: None,
        },
        OptionalContentGroup {
            id: id(12),
            name: "L3".into(),
            intents: vec![],
            usage: None,
        },
    ];
    let cfg = OcConfig {
        base_state: OcBaseState::Off,
        on: vec![id(11)],
        ..OcConfig::default()
    };
    let s = resolve_states(&groups, &cfg);
    assert_eq!(s.get(&id(10)), Some(false));
    assert_eq!(s.get(&id(11)), Some(true));
    assert_eq!(s.get(&id(12)), Some(false));
}

#[test]
fn resolve_states_off_overrides_on_basestate() {
    let groups = vec![
        OptionalContentGroup {
            id: id(10),
            name: "L1".into(),
            intents: vec![],
            usage: None,
        },
        OptionalContentGroup {
            id: id(11),
            name: "L2".into(),
            intents: vec![],
            usage: None,
        },
    ];
    let cfg = OcConfig {
        base_state: OcBaseState::On,
        off: vec![id(10)],
        ..OcConfig::default()
    };
    let s = resolve_states(&groups, &cfg);
    assert_eq!(s.get(&id(10)), Some(false));
    assert_eq!(s.get(&id(11)), Some(true));
}

#[test]
fn evaluate_membership_all_on() {
    let states = make_states(&[(10, true), (11, true), (12, false)]);
    let mem = OcMembership {
        groups: vec![id(10), id(11)],
        policy: OcVisibilityPolicy::AllOn,
        visibility_expression: None,
    };
    assert!(evaluate_membership_with_states(&mem, &states));
    let mem_with_off = OcMembership {
        groups: vec![id(10), id(12)],
        policy: OcVisibilityPolicy::AllOn,
        visibility_expression: None,
    };
    assert!(!evaluate_membership_with_states(&mem_with_off, &states));
}

#[test]
fn evaluate_membership_any_on() {
    let states = make_states(&[(10, false), (11, false), (12, true)]);
    let mem = OcMembership {
        groups: vec![id(10), id(11)],
        policy: OcVisibilityPolicy::AnyOn,
        visibility_expression: None,
    };
    assert!(!evaluate_membership_with_states(&mem, &states));
    let mem_with_on = OcMembership {
        groups: vec![id(10), id(12)],
        policy: OcVisibilityPolicy::AnyOn,
        visibility_expression: None,
    };
    assert!(evaluate_membership_with_states(&mem_with_on, &states));
}

#[test]
fn evaluate_membership_all_off() {
    let states = make_states(&[(10, false), (11, false), (12, true)]);
    let mem = OcMembership {
        groups: vec![id(10), id(11)],
        policy: OcVisibilityPolicy::AllOff,
        visibility_expression: None,
    };
    assert!(evaluate_membership_with_states(&mem, &states));
    let mem_with_on = OcMembership {
        groups: vec![id(10), id(12)],
        policy: OcVisibilityPolicy::AllOff,
        visibility_expression: None,
    };
    assert!(!evaluate_membership_with_states(&mem_with_on, &states));
}

#[test]
fn evaluate_membership_any_off() {
    let states = make_states(&[(10, true), (11, true), (12, false)]);
    let mem = OcMembership {
        groups: vec![id(10), id(11)],
        policy: OcVisibilityPolicy::AnyOff,
        visibility_expression: None,
    };
    assert!(!evaluate_membership_with_states(&mem, &states));
    let mem_with_off = OcMembership {
        groups: vec![id(10), id(12)],
        policy: OcVisibilityPolicy::AnyOff,
        visibility_expression: None,
    };
    assert!(evaluate_membership_with_states(&mem_with_off, &states));
}

#[test]
fn evaluate_membership_empty_groups_visible() {
    let states = make_states(&[]);
    let mem = OcMembership {
        groups: vec![],
        policy: OcVisibilityPolicy::AllOn,
        visibility_expression: None,
    };
    assert!(evaluate_membership_with_states(&mem, &states));
}

#[test]
fn evaluate_visibility_expression_simple_and() {
    let states = make_states(&[(10, true), (11, true), (12, false)]);
    let ve = OcVisibilityExpression::And(vec![
        OcVisibilityExpression::Group(id(10)),
        OcVisibilityExpression::Group(id(11)),
    ]);
    assert!(evaluate_visibility_expression(&ve, &states));

    let ve_fail = OcVisibilityExpression::And(vec![
        OcVisibilityExpression::Group(id(10)),
        OcVisibilityExpression::Group(id(12)),
    ]);
    assert!(!evaluate_visibility_expression(&ve_fail, &states));
}

#[test]
fn evaluate_visibility_expression_simple_or() {
    let states = make_states(&[(10, false), (11, true), (12, false)]);
    let ve = OcVisibilityExpression::Or(vec![
        OcVisibilityExpression::Group(id(10)),
        OcVisibilityExpression::Group(id(11)),
    ]);
    assert!(evaluate_visibility_expression(&ve, &states));

    let ve_fail = OcVisibilityExpression::Or(vec![
        OcVisibilityExpression::Group(id(10)),
        OcVisibilityExpression::Group(id(12)),
    ]);
    assert!(!evaluate_visibility_expression(&ve_fail, &states));
}

#[test]
fn evaluate_visibility_expression_not() {
    let states = make_states(&[(10, true)]);
    let ve = OcVisibilityExpression::Not(Box::new(OcVisibilityExpression::Group(id(10))));
    assert!(!evaluate_visibility_expression(&ve, &states));
    let ve_inv = OcVisibilityExpression::Not(Box::new(OcVisibilityExpression::Group(id(11))));
    assert!(evaluate_visibility_expression(&ve_inv, &states));
}

#[test]
fn evaluate_visibility_expression_nested() {
    let states = make_states(&[
        (1, false),
        (2, true), // NOT OCG 2 = false
        (3, true),
        (4, true),
        (5, true), // AND chain = true
    ]);
    let ve = OcVisibilityExpression::Or(vec![
        OcVisibilityExpression::Group(id(1)),
        OcVisibilityExpression::Not(Box::new(OcVisibilityExpression::Group(id(2)))),
        OcVisibilityExpression::And(vec![
            OcVisibilityExpression::Group(id(3)),
            OcVisibilityExpression::Group(id(4)),
            OcVisibilityExpression::Group(id(5)),
        ]),
    ]);
    // The AND-chain branch is true so the whole Or evaluates true.
    assert!(evaluate_visibility_expression(&ve, &states));
}

#[test]
fn unknown_group_id_treated_as_off() {
    let states = make_states(&[]);
    let mem = OcMembership {
        groups: vec![id(99)],
        policy: OcVisibilityPolicy::AllOn,
        visibility_expression: None,
    };
    assert!(!evaluate_membership_with_states(&mem, &states));
}
