use rot::collections::SortedSet;
use rot::compiler::api_surface::{
    api_definition, compare, retain_definition_provenance, retain_stable_provenance,
    ApiBindingReport, ApiChangeReport, ApiDefinitionReport, ApiSurfaceReport, ApiUnitReport,
};
use rot::model::CompilerSourceSpanReport;
use rot::protocol::{
    CompilerDefId, Definition, DefinitionKind, ExpansionOrigin, FactId, NominalVisibility,
};

fn unit() -> ApiUnitReport {
    ApiUnitReport {
        package: "api".to_owned(),
        package_path: ".".to_owned(),
        target: "api".to_owned(),
        kind: "library".to_owned(),
    }
}

fn surface(target: &str, exposure: &str) -> ApiSurfaceReport {
    ApiSurfaceReport {
        scope: "scope".to_owned(),
        limitations: Vec::new(),
        units: vec![unit()],
        definitions: Vec::new(),
        bindings: vec![ApiBindingReport {
            unit: unit(),
            parent_definition_path: "api".to_owned(),
            name: "Thing".to_owned(),
            namespace: "type".to_owned(),
            resolved_target_path: target.to_owned(),
            exposure: exposure.to_owned(),
            span: None,
        }],
    }
}

fn definition(path: &str) -> Definition {
    Definition {
        id: FactId("definition".to_owned()),
        compiler_id: CompilerDefId { stable_crate_id: 1, local_hash: 1 },
        parent: None,
        name: Some("item".to_owned()),
        definition_path: path.to_owned(),
        kind: DefinitionKind::Function,
        visibility_editable: true,
        nominal_visibility: NominalVisibility::Public,
        externally_reachable: true,
        span: None,
        attribution_callsite: None,
        expansion_origin: ExpansionOrigin::Authored,
    }
}

#[test]
fn binding_target_changes_are_retargeted() {
    let diff = compare(&surface("dep::Old", "direct"), &surface("dep::New", "direct"));
    assert_eq!(diff.summary.retargeted_bindings, 1);
    assert_eq!(diff.summary.total_changes, 1);
    assert!(matches!(diff.changes.as_slice(), [ApiChangeReport::BindingRetargeted { .. }]));
}

#[test]
fn exposure_only_changes_do_not_change_api_topology() {
    let diff = compare(
        &surface("dep::Thing", "single_reexport"),
        &surface("dep::Thing", "glob_reexport"),
    );
    assert_eq!(diff.summary.total_changes, 0);
    assert!(diff.changes.is_empty());
}

#[test]
fn package_display_name_is_not_cross_revision_unit_identity() {
    let mut before = surface("dep::Thing", "direct");
    before.definitions.push(ApiDefinitionReport {
        unit: unit(),
        definition_path: "api::Thing".to_owned(),
        kind: "struct".to_owned(),
        expansion_origin: "authored".to_owned(),
        span: None,
        attribution_callsite: None,
    });
    let mut after = before.clone();
    after.units[0].package = "renamed-api".to_owned();
    after.definitions[0].unit.package = "renamed-api".to_owned();
    after.bindings[0].unit.package = "renamed-api".to_owned();

    let diff = compare(&before, &after);

    assert_eq!(diff.summary.total_changes, 0);
    assert!(diff.changes.is_empty());
}

#[test]
fn duplicate_fragments_retain_available_source_provenance() {
    let span = CompilerSourceSpanReport {
        path: "src/lib.rs".to_owned(),
        source_hash: format!("sha256={}", "0".repeat(64)),
        generated: false,
        start_byte: 0,
        end_byte: 1,
        line: 1,
        column: 1,
    };
    let mut definition = ApiDefinitionReport {
        unit: unit(),
        definition_path: "api::Thing".to_owned(),
        kind: "struct".to_owned(),
        expansion_origin: "authored".to_owned(),
        span: None,
        attribution_callsite: None,
    };
    let callsite_candidate = ApiDefinitionReport {
        attribution_callsite: Some(span.clone()),
        ..definition.clone()
    };
    retain_definition_provenance(&mut definition, callsite_candidate);
    assert_eq!(definition.attribution_callsite, Some(span.clone()));
    let primary_candidate = ApiDefinitionReport {
        span: Some(span.clone()),
        attribution_callsite: None,
        ..definition.clone()
    };
    retain_definition_provenance(&mut definition, primary_candidate);
    assert_eq!(definition.span, Some(span.clone()));

    let mut binding = surface("dep::Thing", "direct").bindings.remove(0);
    let candidate = ApiBindingReport { span: Some(span.clone()), ..binding.clone() };
    retain_stable_provenance(&mut binding, candidate);
    assert_eq!(binding.span, Some(span));
}

#[test]
fn definitions_require_a_public_name_path_and_exclude_trait_impl_containers() {
    let mut exposed: SortedSet<String> = SortedSet::new();
    exposed.insert("api::Thing".to_owned());
    assert!(api_definition(&definition("api::Thing::field"), &exposed));
    assert!(!api_definition(&definition("api::Thingy"), &exposed));
    assert!(!api_definition(&definition("private::PublicButUnnameable"), &exposed));
    assert!(!api_definition(
        &definition("<api::Thing as core::clone::Clone>::clone"),
        &exposed
    ));
}

#[test]
fn changes_mirror_and_nothing_changes_from_itself() {
    let old = surface("dep::Old", "direct");
    let new = surface("dep::New", "direct");
    assert_eq!(compare(&old, &old).changes.len(), 0);
    assert_eq!(
        compare(&old, &new).summary.retargeted_bindings,
        compare(&new, &old).summary.retargeted_bindings
    );
}

#[test]
fn counts_are_the_same_both_ways_and_add_up() {
    let mut old = surface("dep::Old", "direct");
    old.definitions.push(defined("api::Gone"));
    let new = surface("dep::New", "direct");
    let there = compare(&old, &new).summary;
    let back = compare(&new, &old).summary;
    assert_eq!(there.retargeted_bindings, 1);
    assert_eq!(back.retargeted_bindings, 1);
    assert_eq!(there.removed_definitions, 1);
    assert_eq!(back.added_definitions, 1);
    assert_eq!(there.total_changes, 2);
    assert_eq!(back.total_changes, 2);
}

#[test]
fn display_names_exposures_and_places_alter_no_count() {
    let mut plain = surface("dep::Thing", "direct");
    plain.definitions.push(defined("api::Thing"));
    let mut altered = surface("dep::Thing", "glob_reexport");
    altered.definitions.push(defined("api::Thing"));
    altered.bindings[0].unit.package = "renamed".to_owned();
    altered.definitions[0].unit.package = "renamed".to_owned();
    altered.definitions[0].span = Some(CompilerSourceSpanReport {
        path: "src/lib.rs".to_owned(),
        source_hash: "hash".to_owned(),
        generated: false,
        start_byte: 1,
        end_byte: 2,
        line: 1,
        column: 2,
    });
    let mut other = surface("dep::Other", "direct");
    other.definitions.push(defined("api::Other"));
    assert_eq!(compare(&other, &plain).summary, compare(&other, &altered).summary);
    assert_eq!(compare(&plain, &other).summary, compare(&altered, &other).summary);
    assert_eq!(compare(&plain, &altered).summary.total_changes, 0);
    assert_eq!(compare(&other, &altered).summary.total_changes, 3);
}

fn defined(path: &str) -> ApiDefinitionReport {
    ApiDefinitionReport {
        unit: unit(),
        definition_path: path.to_owned(),
        kind: "struct".to_owned(),
        expansion_origin: "authored".to_owned(),
        span: None,
        attribution_callsite: None,
    }
}
