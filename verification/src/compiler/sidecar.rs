//! The sidecars that compiler invocations leave behind.

use vstd::prelude::*;

use crate::collections::{
    ascending, collected, count_where, first_error, image, lemma_collected_step, lemma_count_bound,
    lemma_count_step, lemma_image_ends, lemma_image_step, no_items, push_item, strictly_sorted,
    SortedSet,
};
use crate::order::{Ordered, Rank};
use crate::protocol::{
    Availability, CfgValue, CfgValueView, CompilerDefId, Definition, DefinitionKind, DefinitionView,
    Diagnostic, DiagnosticView, InvocationFinished, InvocationId, InvocationStarted,
    InvocationStartedView, Namespace, NominalVisibility, ProductStatus, ProductStatusView, Profile,
    ProfileView, PublicBinding, PublicBindingView, Reference, ReferenceView, Root, RootView,
    SourceFile, SourceFileView,
};
use crate::text::{
    chars_of, debug_text, decimal, decimal_text, quoted, same, strip_prefix, without_prefix,
};

verus! {

/// The largest number of sidecars of one run.
pub const MAX_SIDECARS: usize = 10_000;

/// The largest record of a sidecar.
pub const MAX_RECORD_BYTES: usize = 1024 * 1024;

/// The facts of one compiler invocation.
#[derive(Debug, PartialEq, Eq)]
pub struct Invocation {
    pub id: InvocationId,
    pub started: InvocationStarted,
    pub profile: Option<Profile>,
    pub sources: Vec<SourceFile>,
    pub products: Vec<ProductStatus>,
    pub diagnostics: Vec<Diagnostic>,
    pub definitions: Vec<Definition>,
    pub bindings: Vec<PublicBinding>,
    pub roots: Vec<Root>,
    pub references: Vec<Reference>,
    pub finished: InvocationFinished,
}

/// The model of [`Invocation`].
#[verifier::ext_equal]
pub struct InvocationView {
    pub id: Seq<char>,
    pub started: InvocationStartedView,
    pub profile: Option<ProfileView>,
    pub sources: Seq<SourceFileView>,
    pub products: Seq<ProductStatusView>,
    pub diagnostics: Seq<DiagnosticView>,
    pub definitions: Seq<DefinitionView>,
    pub bindings: Seq<PublicBindingView>,
    pub roots: Seq<RootView>,
    pub references: Seq<ReferenceView>,
    pub finished: InvocationFinished,
}

impl DeepView for Invocation {
    type V = InvocationView;

    open spec fn deep_view(&self) -> InvocationView {
        InvocationView {
            id: self.id.deep_view(),
            started: self.started.deep_view(),
            profile: self.profile.deep_view(),
            sources: self.sources.deep_view(),
            products: self.products.deep_view(),
            diagnostics: self.diagnostics.deep_view(),
            definitions: self.definitions.deep_view(),
            bindings: self.bindings.deep_view(),
            roots: self.roots.deep_view(),
            references: self.references.deep_view(),
            finished: self.finished,
        }
    }
}

/// The model of a result with a message where it failed.
pub open spec fn result_view<T: DeepView>(result: Result<T, String>) -> Result<
    <T as DeepView>::V,
    Seq<char>,
> {
    match result {
        Ok(value) => Ok(value.deep_view()),
        Err(message) => Err(message@),
    }
}

/// Whether a result is right: success where there is no complaint, else the complaint.
pub open spec fn reports<T>(result: Result<T, String>, complaint: Option<Seq<char>>) -> bool {
    match complaint {
        None => result is Ok,
        Some(message) => result matches Err(error) && error@ == message,
    }
}

/// Whether a list is strictly ascending.
pub fn is_sorted_unique<T: Ordered>(values: &Vec<T>) -> (result: bool)
    ensures
        result == strictly_sorted::<T>(values.deep_view()),
{
    let ghost all = values.deep_view();
    let mut index: usize = 1;
    while index < values.len()
        invariant
            all == values.deep_view(),
            1 <= index,
            index <= values.len() || values.len() == 0,
            forall|i: int, j: int|
                0 <= i < j < index && j < all.len() ==> T::precedes(
                    #[trigger] all[i],
                    #[trigger] all[j],
                ),
        decreases values.len() - index,
    {
        let ghost last = index as int - 1;
        proof {
            assert(all[last] == values[last].deep_view());
            assert(all[index as int] == values[index as int].deep_view());
        }
        let ascends = match values[index - 1].rank(&values[index]) {
            Rank::Less => true,
            _ => false,
        };
        if !ascends {
            proof {
                if T::precedes(all[last], all[index as int]) {
                    T::irreflexive(all[last]);
                    if T::precedes(all[index as int], all[last]) {
                        T::transitive(all[last], all[index as int], all[last]);
                    }
                }
                assert(!T::precedes(all[last], all[index as int]));
            }
            return false;
        }
        proof {
            assert forall|i: int, j: int| 0 <= i < j < index + 1 && j < all.len() implies T::precedes(
                #[trigger] all[i],
                #[trigger] all[j],
            ) by {
                if j == index && i < last {
                    T::transitive(all[i], all[last], all[j]);
                }
            }
        }
        index = index + 1;
    }
    true
}

/// What is wrong with the start of an invocation.
pub open spec fn started_error(started: InvocationStartedView) -> Option<Seq<char>> {
    let artifact = started.artifact;
    if artifact.crate_name != started.crate_name {
        Some("invocation/artifact crate name mismatch"@)
    } else if started.target_triple.len() == 0 {
        Some("compiler invocation omitted its target triple"@)
    } else if started.input is None || started.manifest_dir is None || artifact.out_dir is None
        || artifact.crate_types.len() == 0 || artifact.metadata is None
        || artifact.metadata->0.len() == 0 || artifact.emit.len() == 0 {
        Some("compiler invocation omitted required Cargo artifact identity"@)
    } else if !strictly_sorted::<String>(artifact.crate_types) || !strictly_sorted::<String>(
        artifact.emit,
    ) {
        Some("compiler artifact identity is not canonical"@)
    } else {
        None
    }
}

/// Checks the start of an invocation.
pub fn validate_started(started: &InvocationStarted) -> (result: Result<(), String>)
    ensures
        reports(result, started_error(started.deep_view())),
{
    let artifact = &started.artifact;
    if !same(artifact.crate_name.as_str(), started.crate_name.as_str()) {
        return Err("invocation/artifact crate name mismatch".to_owned());
    }
    if started.target_triple.as_str().is_empty() {
        return Err("compiler invocation omitted its target triple".to_owned());
    }
    let no_metadata = match &artifact.metadata {
        None => true,
        Some(metadata) => metadata.as_str().is_empty(),
    };
    if started.input.is_none() || started.manifest_dir.is_none() || artifact.out_dir.is_none()
        || artifact.crate_types.len() == 0 || no_metadata || artifact.emit.len() == 0 {
        return Err("compiler invocation omitted required Cargo artifact identity".to_owned());
    }
    if !is_sorted_unique(&artifact.crate_types) || !is_sorted_unique(&artifact.emit) {
        return Err("compiler artifact identity is not canonical".to_owned());
    }
    Ok(())
}

/// Picks the feature cfgs.
pub open spec fn feature_cfg() -> spec_fn(CfgValueView) -> Option<Option<Seq<char>>> {
    |cfg: CfgValueView|
        if cfg.name == "feature"@ {
            Some(cfg.value)
        } else {
            None
        }
}

/// The features that the cfgs of a profile name, with nothing for a feature without a value.
pub open spec fn cfg_features(cfg: Seq<CfgValueView>) -> Seq<Option<Seq<char>>> {
    collected(cfg, feature_cfg())
}

/// What is wrong with the profile of an invocation.
pub open spec fn profile_error(
    profile: ProfileView,
    started: InvocationStartedView,
) -> Option<Seq<char>> {
    if profile.host_triple != started.compiler.host {
        Some("compiler profile host does not match the compiler identity"@)
    } else if profile.host_triple.len() == 0 || profile.target_triple.len() == 0
        || profile.codegen.target_cpu.len() == 0 || profile.codegen.codegen_units == 0 {
        Some("compiler profile omitted required target or codegen identity"@)
    } else if !strictly_sorted::<CfgValue>(profile.cfg) || !strictly_sorted::<String>(
        profile.features,
    ) || !strictly_sorted::<String>(profile.codegen.target_features) {
        Some("compiler profile is not canonical"@)
    } else if cfg_features(profile.cfg).contains(None) {
        Some("compiler profile contains a valueless feature cfg"@)
    } else if cfg_features(profile.cfg) != Seq::new(
        profile.features.len(),
        |i: int| Some(profile.features[i]),
    ) {
        Some("compiler profile feature cfg does not match its feature list"@)
    } else {
        None
    }
}

/// Checks the profile of an invocation.
pub fn validate_profile(profile: &Profile, started: &InvocationStarted) -> (result: Result<
    (),
    String,
>)
    ensures
        reports(result, profile_error(profile.deep_view(), started.deep_view())),
{
    if !same(profile.host_triple.as_str(), started.compiler.host.as_str()) {
        return Err("compiler profile host does not match the compiler identity".to_owned());
    }
    if profile.host_triple.as_str().is_empty() || profile.target_triple.as_str().is_empty()
        || profile.codegen.target_cpu.as_str().is_empty() || profile.codegen.codegen_units == 0 {
        return Err("compiler profile omitted required target or codegen identity".to_owned());
    }
    if !is_sorted_unique(&profile.cfg) || !is_sorted_unique(&profile.features)
        || !is_sorted_unique(&profile.codegen.target_features) {
        return Err("compiler profile is not canonical".to_owned());
    }
    let ghost all = profile.deep_view().cfg;
    let ghost f = feature_cfg();
    let mut features: Vec<Option<String>> = no_items();
    let mut index: usize = 0;
    proof {
        assert(all.take(0) =~= Seq::<CfgValueView>::empty());
    }
    while index < profile.cfg.len()
        invariant
            all == profile.deep_view().cfg,
            f == feature_cfg(),
            index <= all.len(),
            features.deep_view() == collected(all.take(index as int), f),
        decreases all.len() - index,
    {
        proof {
            lemma_collected_step(all, f, index as int);
            assert(all[index as int] == profile.cfg[index as int].deep_view());
        }
        if same(profile.cfg[index].name.as_str(), "feature") {
            push_item(&mut features, profile.cfg[index].value.clone());
        }
        index = index + 1;
    }
    let ghost found = features.deep_view();
    proof {
        assert(all.take(all.len() as int) =~= all);
    }
    let mut checked: usize = 0;
    let mut valueless = false;
    while checked < features.len()
        invariant
            found == features.deep_view(),
            checked <= found.len(),
            valueless == exists|i: int| 0 <= i < checked && #[trigger] found[i] is None,
        decreases found.len() - checked,
    {
        proof {
            assert(found[checked as int] == features[checked as int].deep_view());
        }
        if features[checked].is_none() {
            valueless = true;
        }
        checked = checked + 1;
    }
    proof {
        if valueless {
            let i = choose|i: int| 0 <= i < found.len() && #[trigger] found[i] is None;
            assert(found.contains(found[i]));
            assert(found.contains(None));
        } else if found.contains(None) {
            let i = choose|i: int| 0 <= i < found.len() && found[i] == None::<Seq<char>>;
            assert(found[i] is None);
        }
    }
    if valueless {
        return Err("compiler profile contains a valueless feature cfg".to_owned());
    }
    let ghost wanted = Seq::new(
        profile.deep_view().features.len(),
        |i: int| Some(profile.deep_view().features[i]),
    );
    let mut agrees = features.len() == profile.features.len();
    let mut compared: usize = 0;
    while agrees && compared < features.len()
        invariant
            found == features.deep_view(),
            wanted == Seq::new(
                profile.deep_view().features.len(),
                |i: int| Some(profile.deep_view().features[i]),
            ),
            agrees ==> found.len() == wanted.len(),
            compared <= found.len(),
            agrees ==> forall|i: int| 0 <= i < compared ==> #[trigger] found[i] == wanted[i],
            !agrees ==> found != wanted,
        decreases found.len() - compared,
    {
        proof {
            assert(found[compared as int] == features[compared as int].deep_view());
            assert(wanted[compared as int] == Some(profile.features[compared as int]@));
        }
        let equal = match &features[compared] {
            Some(feature) => same(feature.as_str(), profile.features[compared].as_str()),
            None => false,
        };
        if !equal {
            agrees = false;
        }
        compared = compared + 1;
    }
    proof {
        if agrees {
            assert(found =~= wanted);
        }
    }
    if !agrees {
        return Err("compiler profile feature cfg does not match its feature list".to_owned());
    }
    Ok(())
}

/// Whether a character is a hexadecimal digit.
pub open spec fn is_hex_digit(c: char) -> bool {
    ('0' <= c && c <= '9') || ('a' <= c && c <= 'f') || ('A' <= c && c <= 'F')
}

fn hex_digit(c: char) -> (result: bool)
    ensures
        result == is_hex_digit(c),
{
    ('0' <= c && c <= '9') || ('a' <= c && c <= 'f') || ('A' <= c && c <= 'F')
}

/// How many digits a digest of an algorithm has.
pub open spec fn digest_digits(algorithm: Seq<char>) -> Option<nat> {
    if algorithm == "md5"@ {
        Some(32)
    } else if algorithm == "sha1"@ {
        Some(40)
    } else if algorithm == "sha256"@ || algorithm == "blake3"@ {
        Some(64)
    } else {
        None
    }
}

/// What is wrong with a source file.
pub open spec fn source_error(source: SourceFileView) -> Option<Seq<char>> {
    match without_prefix(source.source_hash, source.source_hash_algorithm + "="@) {
        None => Some("source hash does not match its named algorithm"@),
        Some(digits) => match digest_digits(source.source_hash_algorithm) {
            None => Some(
                "unsupported source hash algorithm "@ + debug_text(source.source_hash_algorithm),
            ),
            Some(count) => if digits.len() != count || exists|i: int|
                0 <= i < digits.len() && !is_hex_digit(#[trigger] digits[i]) {
                Some("source hash has an invalid digest"@)
            } else {
                None
            },
        },
    }
}

/// Checks a source file.
pub fn validate_source(source: &SourceFile) -> (result: Result<(), String>)
    ensures
        reports(result, source_error(source.deep_view())),
{
    let mut prefix = source.source_hash_algorithm.clone();
    prefix.append("=");
    let digits = match strip_prefix(source.source_hash.as_str(), prefix.as_str()) {
        None => {
            return Err("source hash does not match its named algorithm".to_owned());
        },
        Some(digits) => digits,
    };
    let algorithm = source.source_hash_algorithm.as_str();
    let expected: usize = if same(algorithm, "md5") {
        32
    } else if same(algorithm, "sha1") {
        40
    } else if same(algorithm, "sha256") || same(algorithm, "blake3") {
        64
    } else {
        let mut message = "unsupported source hash algorithm ".to_owned();
        message.append(quoted(algorithm).as_str());
        return Err(message);
    };
    let chars = chars_of(digits.as_str());
    let mut index: usize = 0;
    let mut valid = chars.len() == expected;
    while index < chars.len()
        invariant
            chars@ == digits@,
            index <= chars.len(),
            digest_digits(source.deep_view().source_hash_algorithm) == Some(expected as nat),
            valid == (chars.len() == expected && forall|i: int|
                0 <= i < index ==> is_hex_digit(#[trigger] digits@[i])),
        decreases chars.len() - index,
    {
        let good = hex_digit(chars[index]);
        proof {
            assert(good == is_hex_digit(digits@[index as int]));
        }
        valid = valid && good;
        index = index + 1;
    }
    if !valid {
        return Err("source hash has an invalid digest".to_owned());
    }
    Ok(())
}

/// What is wrong with the status of the semantic graph, given the facts.
pub open spec fn product_facts_error(
    products: Seq<ProductStatusView>,
    definitions: Seq<DefinitionView>,
    has_facts: bool,
) -> Option<Seq<char>> {
    let crates = count_where(
        definitions,
        |definition: DefinitionView| definition.kind == DefinitionKind::Crate,
    );
    if products.len() == 0 {
        Some("semantic graph status is missing"@)
    } else if has_facts && products[0].availability == Availability::Unavailable {
        Some("unavailable semantic graph contains facts"@)
    } else if products[0].availability != Availability::Unavailable && crates != 1 {
        Some(
            "semantic graph facts contain "@ + decimal(crates)
                + " crate definitions; expected exactly one"@,
        )
    } else {
        None
    }
}

/// Checks the status of the semantic graph against the facts.
pub fn validate_product_facts(
    products: &Vec<ProductStatus>,
    definitions: &Vec<Definition>,
    has_facts: bool,
) -> (result: Result<(), String>)
    ensures
        reports(
            result,
            product_facts_error(products.deep_view(), definitions.deep_view(), has_facts),
        ),
{
    if products.len() == 0 {
        return Err("semantic graph status is missing".to_owned());
    }
    proof {
        assert(products.deep_view()[0] == products[0].deep_view());
    }
    let availability = products[0].availability;
    if has_facts && availability == Availability::Unavailable {
        return Err("unavailable semantic graph contains facts".to_owned());
    }
    let ghost all = definitions.deep_view();
    let ghost wanted = |definition: DefinitionView| definition.kind == DefinitionKind::Crate;
    let mut crates: usize = 0;
    let mut index: usize = 0;
    proof {
        lemma_count_bound(all, wanted);
    }
    while index < definitions.len()
        invariant
            all == definitions.deep_view(),
            wanted == |definition: DefinitionView| definition.kind == DefinitionKind::Crate,
            index <= all.len(),
            crates <= index,
            crates == count_where(all.take(index as int), wanted),
        decreases all.len() - index,
    {
        proof {
            lemma_count_step(all, wanted, index as int);
            assert(all[index as int] == definitions[index as int].deep_view());
        }
        if definitions[index].kind == DefinitionKind::Crate {
            crates = crates + 1;
        }
        index = index + 1;
    }
    proof {
        lemma_count_bound(all, wanted);
    }
    if availability != Availability::Unavailable && crates != 1 {
        let mut message = "semantic graph facts contain ".to_owned();
        message.append(decimal_text(crates as u128).as_str());
        message.append(" crate definitions; expected exactly one");
        return Err(message);
    }
    Ok(())
}

/// The compiler identities of all definitions.
pub open spec fn id_set(definitions: Seq<DefinitionView>) -> Set<CompilerDefId> {
    image(definitions, |definition: DefinitionView| Some(definition.compiler_id))
}

/// Whether two definitions have one compiler identity.
pub open spec fn ids_repeat(definitions: Seq<DefinitionView>) -> bool {
    exists|i: int, j: int|
        0 <= i < j < definitions.len() && (#[trigger] definitions[i]).compiler_id == (
        #[trigger] definitions[j]).compiler_id
}

/// Gathers the compiler identities of all definitions, each of which must be its own.
pub fn definition_ids(definitions: &Vec<Definition>) -> (result: Result<
    SortedSet<CompilerDefId>,
    String,
>)
    ensures
        match result {
            Ok(ids) => !ids_repeat(definitions.deep_view()) && ids.wf() && ids.deep_view()
                == id_set(definitions.deep_view()),
            Err(error) => ids_repeat(definitions.deep_view()) && error@
                == "duplicate definition compiler identity"@,
        },
{
    let ghost all = definitions.deep_view();
    let ghost f = |definition: DefinitionView| Some(definition.compiler_id);
    let mut ids: SortedSet<CompilerDefId> = SortedSet::new();
    let mut repeated = false;
    let mut index: usize = 0;
    proof {
        lemma_image_ends(all, f);
    }
    while index < definitions.len()
        invariant
            all == definitions.deep_view(),
            f == |definition: DefinitionView| Some(definition.compiler_id),
            index <= all.len(),
            ids.wf(),
            ids.deep_view() == image(all.take(index as int), f),
            repeated == exists|i: int, j: int|
                0 <= i < j < index && (#[trigger] all[i]).compiler_id == (
                #[trigger] all[j]).compiler_id,
        decreases all.len() - index,
    {
        let ghost seen = all.take(index as int);
        proof {
            lemma_image_step(all, f, index as int);
            assert(all[index as int] == definitions[index as int].deep_view());
        }
        let id = definitions[index].compiler_id;
        let ghost had = ids.deep_view();
        let added = ids.insert(id);
        proof {
            if !added {
                let i = choose|i: int| 0 <= i < seen.len() && f(#[trigger] seen[i]) == Some(id);
                assert(all[i].compiler_id == all[index as int].compiler_id);
            } else {
                assert forall|i: int| 0 <= i < index implies (#[trigger] all[i]).compiler_id
                    != id by {
                    assert(seen[i] == all[i]);
                    if all[i].compiler_id == id {
                        assert(f(seen[i]) == Some(id));
                        assert(had.contains(id));
                    }
                }
            }
        }
        if !added {
            repeated = true;
        }
        index = index + 1;
    }
    proof {
        lemma_image_ends(all, f);
    }
    if repeated {
        Err("duplicate definition compiler identity".to_owned())
    } else {
        Ok(ids)
    }
}

/// Whether a definition names a parent or a visibility boundary that is unknown.
pub open spec fn boundary_unknown(definition: DefinitionView, ids: Set<CompilerDefId>) -> bool {
    ||| definition.parent matches Some(parent) && !ids.contains(parent)
    ||| match definition.nominal_visibility {
        NominalVisibility::Public => false,
        NominalVisibility::Restricted(boundary) => !ids.contains(boundary),
    }
}

/// What is wrong with the boundaries of the definitions.
pub open spec fn boundaries_error(
    definitions: Seq<DefinitionView>,
    ids: Set<CompilerDefId>,
) -> Option<Seq<char>> {
    if exists|i: int|
        0 <= i < definitions.len() && boundary_unknown(#[trigger] definitions[i], ids) {
        Some("semantic definition has an unknown local parent or visibility boundary"@)
    } else {
        None
    }
}

/// Checks that parents and visibility boundaries are known.
pub fn validate_definition_boundaries(
    definitions: &Vec<Definition>,
    ids: &SortedSet<CompilerDefId>,
) -> (result: Result<(), String>)
    requires
        ids.wf(),
    ensures
        reports(result, boundaries_error(definitions.deep_view(), ids.deep_view())),
{
    let ghost all = definitions.deep_view();
    let mut index: usize = 0;
    while index < definitions.len()
        invariant
            all == definitions.deep_view(),
            ids.wf(),
            index <= all.len(),
            forall|i: int|
                0 <= i < index ==> !boundary_unknown(#[trigger] all[i], ids.deep_view()),
        decreases all.len() - index,
    {
        proof {
            assert(all[index as int] == definitions[index as int].deep_view());
        }
        let parent_unknown = match definitions[index].parent {
            Some(parent) => !ids.contains(&parent),
            None => false,
        };
        let boundary_unknown = match definitions[index].nominal_visibility {
            NominalVisibility::Public => false,
            NominalVisibility::Restricted(boundary) => !ids.contains(&boundary),
        };
        if parent_unknown || boundary_unknown {
            return Err(
                "semantic definition has an unknown local parent or visibility boundary".to_owned(),
            );
        }
        index = index + 1;
    }
    Ok(())
}

/// The last definition with a compiler identity.
pub open spec fn definition_with(
    definitions: Seq<DefinitionView>,
    id: CompilerDefId,
) -> Option<DefinitionView>
    decreases definitions.len(),
{
    if definitions.len() == 0 {
        None
    } else if definitions.last().compiler_id == id {
        Some(definitions.last())
    } else {
        definition_with(definitions.drop_last(), id)
    }
}

/// The name and namespace of a module that a binding takes.
pub open spec fn slot(binding: PublicBindingView) -> (CompilerDefId, (Seq<char>, Namespace)) {
    (binding.parent, (binding.name, binding.namespace))
}

/// What is wrong with a binding by itself.
pub open spec fn binding_error(
    binding: PublicBindingView,
    definitions: Seq<DefinitionView>,
    ids: Set<CompilerDefId>,
    local_crates: Set<u64>,
) -> Option<Seq<char>> {
    if binding.name.len() == 0 || binding.resolved_target_path.len() == 0 {
        Some("public binding has an empty name or resolved target path"@)
    } else {
        match definition_with(definitions, binding.parent) {
            None => Some("public binding has an unknown local parent"@),
            Some(parent) => if parent.kind != DefinitionKind::Crate && parent.kind
                != DefinitionKind::Module {
                Some("public binding parent is not a crate or module"@)
            } else {
                match import_error(binding, definitions) {
                    Some(message) => Some(message),
                    None => target_error(binding, definitions, ids, local_crates),
                }
            },
        }
    }
}

/// What is wrong with the import that exposes a binding.
pub open spec fn import_error(
    binding: PublicBindingView,
    definitions: Seq<DefinitionView>,
) -> Option<Seq<char>> {
    match binding.exposing_import {
        None => None,
        Some(id) => match definition_with(definitions, id) {
            None => Some("public binding has an unknown local exposing import"@),
            Some(import) => if import.kind != DefinitionKind::Import && import.kind
                != DefinitionKind::ExternCrate {
                Some("public binding exposing import is not an import or extern crate"@)
            } else {
                None
            },
        },
    }
}

/// What is wrong with the target of a binding.
pub open spec fn target_error(
    binding: PublicBindingView,
    definitions: Seq<DefinitionView>,
    ids: Set<CompilerDefId>,
    local_crates: Set<u64>,
) -> Option<Seq<char>> {
    if !local_crates.contains(binding.target.stable_crate_id) {
        None
    } else if !ids.contains(binding.target) {
        Some("public binding has an unknown local target"@)
    } else {
        match definition_with(definitions, binding.target) {
            Some(target) if target.definition_path != binding.resolved_target_path => Some(
                "public binding resolved target path does not match its local target"@,
            ),
            _ => None,
        }
    }
}

/// What is wrong with the binding at a place: with itself, or that its slot is taken.
pub open spec fn binding_complaint(
    bindings: Seq<PublicBindingView>,
    definitions: Seq<DefinitionView>,
    ids: Set<CompilerDefId>,
    local_crates: Set<u64>,
) -> spec_fn(int) -> Option<Seq<char>> {
    |i: int|
        match binding_error(bindings[i], definitions, ids, local_crates) {
            Some(message) => Some(message),
            None => if exists|j: int| 0 <= j < i && slot(#[trigger] bindings[j]) == slot(bindings[i]) {
                Some("duplicate public binding namespace slot"@)
            } else {
                None
            },
        }
}

/// What is wrong with the bindings.
pub open spec fn bindings_error(
    bindings: Seq<PublicBindingView>,
    definitions: Seq<DefinitionView>,
    ids: Set<CompilerDefId>,
    local_crates: Set<u64>,
) -> Option<Seq<char>> {
    first_error(
        bindings.len() as int,
        binding_complaint(bindings, definitions, ids, local_crates),
        0,
    )
}

/// Finds the last definition with a compiler identity.
pub fn find_definition<'a>(definitions: &'a Vec<Definition>, id: CompilerDefId) -> (found: Option<
    &'a Definition,
>)
    ensures
        found.deep_view() == definition_with(definitions.deep_view(), id),
{
    let ghost all = definitions.deep_view();
    let mut count: usize = definitions.len();
    proof {
        assert(all.take(all.len() as int) =~= all);
    }
    while count > 0
        invariant
            all == definitions.deep_view(),
            count <= all.len(),
            definition_with(all, id) == definition_with(all.take(count as int), id),
        decreases count,
    {
        proof {
            assert(all.take(count as int).drop_last() =~= all.take(count as int - 1));
            assert(all.take(count as int).last() == definitions[count as int - 1].deep_view());
        }
        if definitions[count - 1].compiler_id == id {
            return Some(&definitions[count - 1]);
        }
        count = count - 1;
    }
    None
}

fn check_binding(
    binding: &PublicBinding,
    definitions: &Vec<Definition>,
    ids: &SortedSet<CompilerDefId>,
    local_crates: &SortedSet<u64>,
) -> (result: Result<(), String>)
    requires
        ids.wf(),
        local_crates.wf(),
    ensures
        reports(
            result,
            binding_error(
                binding.deep_view(),
                definitions.deep_view(),
                ids.deep_view(),
                local_crates.deep_view(),
            ),
        ),
{
    if binding.name.as_str().is_empty() || binding.resolved_target_path.as_str().is_empty() {
        return Err("public binding has an empty name or resolved target path".to_owned());
    }
    match find_definition(definitions, binding.parent) {
        None => {
            return Err("public binding has an unknown local parent".to_owned());
        },
        Some(parent) => {
            if parent.kind != DefinitionKind::Crate && parent.kind != DefinitionKind::Module {
                return Err("public binding parent is not a crate or module".to_owned());
            }
        },
    }
    if let Some(id) = binding.exposing_import {
        match find_definition(definitions, id) {
            None => {
                return Err("public binding has an unknown local exposing import".to_owned());
            },
            Some(import) => {
                if import.kind != DefinitionKind::Import && import.kind
                    != DefinitionKind::ExternCrate {
                    return Err(
                        "public binding exposing import is not an import or extern crate".to_owned(),
                    );
                }
            },
        }
    }
    if local_crates.contains(&binding.target.stable_crate_id) {
        if !ids.contains(&binding.target) {
            return Err("public binding has an unknown local target".to_owned());
        }
        if let Some(target) = find_definition(definitions, binding.target) {
            if !same(target.definition_path.as_str(), binding.resolved_target_path.as_str()) {
                return Err(
                    "public binding resolved target path does not match its local target".to_owned(),
                );
            }
        }
    }
    Ok(())
}

/// Checks the bindings: each by itself, and that no two take one slot.
pub fn validate_public_bindings(
    bindings: &Vec<PublicBinding>,
    definitions: &Vec<Definition>,
    ids: &SortedSet<CompilerDefId>,
    local_crates: &SortedSet<u64>,
) -> (result: Result<(), String>)
    requires
        ids.wf(),
        local_crates.wf(),
    ensures
        reports(
            result,
            bindings_error(
                bindings.deep_view(),
                definitions.deep_view(),
                ids.deep_view(),
                local_crates.deep_view(),
            ),
        ),
{
    let ghost all = bindings.deep_view();
    let ghost complaint = binding_complaint(
        all,
        definitions.deep_view(),
        ids.deep_view(),
        local_crates.deep_view(),
    );
    let mut slots: SortedSet<(CompilerDefId, (String, Namespace))> = SortedSet::new();
    let mut index: usize = 0;
    while index < bindings.len()
        invariant
            all == bindings.deep_view(),
            ids.wf(),
            local_crates.wf(),
            slots.wf(),
            complaint == binding_complaint(
                all,
                definitions.deep_view(),
                ids.deep_view(),
                local_crates.deep_view(),
            ),
            index <= all.len(),
            first_error(all.len() as int, complaint, 0) == first_error(
                all.len() as int,
                complaint,
                index as int,
            ),
            forall|taken: (CompilerDefId, (Seq<char>, Namespace))| #[trigger]
                slots.deep_view().contains(taken) == exists|j: int|
                    0 <= j < index && slot(#[trigger] all[j]) == taken,
        decreases all.len() - index,
    {
        let binding = &bindings[index];
        let ghost before = slots.deep_view();
        proof {
            assert(all[index as int] == binding.deep_view());
        }
        if let Err(message) = check_binding(binding, definitions, ids, local_crates) {
            return Err(message);
        }
        let added = slots.insert((binding.parent, (binding.name.clone(), binding.namespace)));
        proof {
            assert(added == !before.contains(slot(all[index as int])));
        }
        if !added {
            return Err("duplicate public binding namespace slot".to_owned());
        }
        proof {
            assert forall|taken: (CompilerDefId, (Seq<char>, Namespace))| #[trigger]
                slots.deep_view().contains(taken) == exists|j: int|
                    0 <= j < index + 1 && slot(#[trigger] all[j]) == taken by {
                if slots.deep_view().contains(taken) {
                    if before.contains(taken) {
                        let j = choose|j: int| 0 <= j < index && slot(#[trigger] all[j]) == taken;
                        assert(slot(all[j]) == taken);
                    } else {
                        assert(slot(all[index as int]) == taken);
                    }
                }
                if exists|j: int| 0 <= j < index + 1 && slot(#[trigger] all[j]) == taken {
                    let j = choose|j: int| 0 <= j < index + 1 && slot(#[trigger] all[j]) == taken;
                    if j < index {
                        assert(before.contains(taken));
                    }
                }
            }
        }
        index = index + 1;
    }
    Ok(())
}

} // verus!
