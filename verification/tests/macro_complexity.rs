use rot::compiler::macro_complexity::{
    aggregate, measure, Body, Decision, DecisionKind, MacroInvocation, MacroKind,
};
use rot::model::SemanticStatus;
use rot::protocol::{CompilerDefId, ExpansionOrigin, FactId};

#[test]
fn macro_body_bases_and_weighted_decisions_remain_separate() {
    let bodies = vec![
        body(1, ExpansionOrigin::Authored, None),
        body(2, ExpansionOrigin::LocalMacro, Some(MacroKind::Bang)),
        body(3, ExpansionOrigin::ExternalMacro, Some(MacroKind::Derive)),
    ];
    let decisions = vec![
        decision(1, 1, DecisionKind::Conditional, ExpansionOrigin::LocalMacro, MacroKind::Bang),
        decision(2, 2, DecisionKind::Match, ExpansionOrigin::LocalMacro, MacroKind::Bang),
        decision(
            3,
            3,
            DecisionKind::ShortCircuit,
            ExpansionOrigin::ExternalMacro,
            MacroKind::Derive,
        ),
    ];

    let metrics = measure(&bodies, &decisions).unwrap();

    assert_eq!(metrics.totals.macro_body_bases, 2);
    assert_eq!(metrics.totals.decisions, 3);
    assert_eq!(metrics.totals.decision_delta, 2);
    assert_eq!(metrics.totals.cyclomatic_delta, 4);
    assert_eq!(metrics.by_origin.get(&"local_macro".to_owned()).unwrap().cyclomatic_delta, 2);
    assert_eq!(metrics.by_origin.get(&"external_macro".to_owned()).unwrap().cyclomatic_delta, 2);
    assert_eq!(metrics.decisions_by_kind.get(&"match".to_owned()), Some(&1));
}

#[test]
fn incomplete_or_untrusted_facts_never_serialize_a_semantic_zero() {
    let bodies = Vec::new();
    let decisions = Vec::new();
    let partial = aggregate(
        true,
        &vec![MacroInvocation {
            key: "partial",
            target: None,
            crate_name: "crate",
            status: SemanticStatus::Partial,
            reason: Some("truncated"),
            bodies: &bodies,
            decisions: &decisions,
        }],
    )
    .unwrap();
    assert!(partial.invocations[0].metrics.is_none());

    let untrusted = aggregate(
        false,
        &vec![MacroInvocation {
            key: "complete",
            target: None,
            crate_name: "crate",
            status: SemanticStatus::Complete,
            reason: None,
            bodies: &bodies,
            decisions: &decisions,
        }],
    )
    .unwrap();
    assert_eq!(untrusted.invocations[0].status, SemanticStatus::Partial);
    assert!(untrusted.invocations[0].metrics.is_none());
}

#[test]
fn invalid_macro_provenance_downgrades_the_invocation() {
    let bodies = vec![body(1, ExpansionOrigin::Authored, None)];
    let decisions = vec![decision(
        1,
        1,
        DecisionKind::Conditional,
        ExpansionOrigin::Authored,
        MacroKind::Bang,
    )];
    let report = aggregate(
        true,
        &vec![MacroInvocation {
            key: "invalid",
            target: None,
            crate_name: "crate",
            status: SemanticStatus::Complete,
            reason: None,
            bodies: &bodies,
            decisions: &decisions,
        }],
    )
    .unwrap();

    assert_eq!(report.invocations[0].status, SemanticStatus::Partial);
    assert!(report.invocations[0].metrics.is_none());
}

#[test]
fn decisions_of_unknown_bodies_are_refused() {
    let decisions = vec![decision(
        1,
        7,
        DecisionKind::Loop,
        ExpansionOrigin::LocalMacro,
        MacroKind::Bang,
    )];
    assert!(measure(&Vec::new(), &decisions).is_err());
    let twice = vec![
        body(1, ExpansionOrigin::Authored, None),
        body(1, ExpansionOrigin::Authored, None),
    ];
    assert!(measure(&twice, &Vec::new()).is_err());
}

fn compiler_id(local_hash: u64) -> CompilerDefId {
    CompilerDefId { stable_crate_id: 1, local_hash }
}

fn body(local_hash: u64, origin: ExpansionOrigin, macro_kind: Option<MacroKind>) -> Body {
    Body {
        id: FactId(format!("body-{local_hash}")),
        compiler_id: compiler_id(local_hash),
        definition_path: format!("crate::body_{local_hash}"),
        span: None,
        attribution_callsite: None,
        expansion_origin: origin,
        macro_kind,
        macro_definition: macro_kind.map(|_| compiler_id(99)),
    }
}

fn decision(
    ordinal: u32,
    body: u64,
    kind: DecisionKind,
    origin: ExpansionOrigin,
    macro_kind: MacroKind,
) -> Decision {
    Decision {
        id: FactId(format!("decision-{ordinal}")),
        body: compiler_id(body),
        kind,
        generated_span: None,
        attribution_callsite: None,
        expansion_origin: origin,
        macro_kind,
        macro_definition: Some(compiler_id(99)),
        ordinal,
        nesting: 0,
    }
}
