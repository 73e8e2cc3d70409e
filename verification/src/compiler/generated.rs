//! Generated sources, held against what the compiler read.

use vstd::prelude::*;

use crate::collections::{
    any_item, any_where, append_items, ascending, collect_items, collect_set, collected, equal_to,
    flat_image, flattened, image, lemma_flat_image_step, lemma_image_ends, lemma_image_step,
    no_items, push_item, SortedMap,
};
use crate::compiler::effective_api::{EffectiveDefinition, EffectiveDefinitionView};
use crate::compiler::graph::{canonical, canonical_form, CanonicalPathView, Locations};
use crate::compiler::labels::{generated_label_of, generated_source_label};
use crate::compiler::macro_complexity::{
    from_macro, is_macro, Body, BodyView, Decision, DecisionView,
};
use crate::compiler::outcome::{
    owner, owner_of, CompiledInvocation, CompiledInvocationView, SemanticProduct,
};
use crate::compiler::sidecar::reports;
use crate::paths::{has_extension, has_extension_of};
use crate::protocol::{
    PublicBinding, PublicBindingView, Reference, ReferenceView, SourceFile, SourceFileView,
    SourceSpan, SourceSpanView,
};
use crate::text::{
    debug_text, decimal, decimal_text, fixed_digits, fixed_text, quoted, same, write_each, written,
};

verus! {

/// An invocation that read a generated source file.
#[derive(Debug, PartialEq, Eq)]
pub struct GeneratedOwner {
    pub merge_key: String,
    /// Where the file lay.
    pub path: String,
    /// What the file is called in reports.
    pub label: String,
    pub source: SourceFile,
    /// The products that have facts in the file.
    pub products: Vec<SemanticProduct>,
}

/// The model of [`GeneratedOwner`].
#[verifier::ext_equal]
pub struct GeneratedOwnerView {
    pub merge_key: Seq<char>,
    pub path: Seq<char>,
    pub label: Seq<char>,
    pub source: SourceFileView,
    pub products: Seq<SemanticProduct>,
}

impl DeepView for GeneratedOwner {
    type V = GeneratedOwnerView;

    open spec fn deep_view(&self) -> GeneratedOwnerView {
        GeneratedOwnerView {
            merge_key: self.merge_key.deep_view(),
            path: self.path.deep_view(),
            label: self.label.deep_view(),
            source: self.source.deep_view(),
            products: self.products.deep_view(),
        }
    }
}

impl Clone for GeneratedOwner {
    fn clone(&self) -> (copy: Self)
        ensures
            copy.deep_view() == self.deep_view(),
    {
        let copy = GeneratedOwner {
            merge_key: self.merge_key.clone(),
            path: self.path.clone(),
            label: self.label.clone(),
            source: self.source.clone(),
            products: self.products.clone(),
        };
        proof {
            assert(copy.source.deep_view() =~= self.source.deep_view());
            assert(copy.products.deep_view() =~= self.products.deep_view());
        }
        copy
    }
}

/// A generated source file, with the invocations that read it.
#[derive(Debug, PartialEq, Eq)]
pub struct GeneratedCandidate {
    pub source_hash: String,
    pub location: String,
    pub owners: Vec<GeneratedOwner>,
}

/// The model of [`GeneratedCandidate`].
#[verifier::ext_equal]
pub struct GeneratedCandidateView {
    pub source_hash: Seq<char>,
    pub location: Seq<char>,
    pub owners: Seq<GeneratedOwnerView>,
}

impl DeepView for GeneratedCandidate {
    type V = GeneratedCandidateView;

    open spec fn deep_view(&self) -> GeneratedCandidateView {
        GeneratedCandidateView {
            source_hash: self.source_hash.deep_view(),
            location: self.location.deep_view(),
            owners: self.owners.deep_view(),
        }
    }
}

impl Clone for GeneratedCandidate {
    fn clone(&self) -> (copy: Self)
        ensures
            copy.deep_view() == self.deep_view(),
    {
        let copy = GeneratedCandidate {
            source_hash: self.source_hash.clone(),
            location: self.location.clone(),
            owners: self.owners.clone(),
        };
        proof {
            assert(copy.owners.deep_view() =~= self.owners.deep_view());
        }
        copy
    }
}

/// A generated source file that is not what an invocation read.
#[derive(Debug, PartialEq, Eq)]
pub struct GeneratedRescanError {
    pub merge_key: String,
    pub report: String,
    pub error: String,
    pub products: Vec<SemanticProduct>,
}

/// The model of [`GeneratedRescanError`].
#[verifier::ext_equal]
pub struct GeneratedRescanErrorView {
    pub merge_key: Seq<char>,
    pub report: Seq<char>,
    pub error: Seq<char>,
    pub products: Seq<SemanticProduct>,
}

impl DeepView for GeneratedRescanError {
    type V = GeneratedRescanErrorView;

    open spec fn deep_view(&self) -> GeneratedRescanErrorView {
        GeneratedRescanErrorView {
            merge_key: self.merge_key.deep_view(),
            report: self.report.deep_view(),
            error: self.error.deep_view(),
            products: self.products.deep_view(),
        }
    }
}

impl Clone for GeneratedRescanError {
    fn clone(&self) -> (copy: Self)
        ensures
            copy.deep_view() == self.deep_view(),
    {
        let copy = GeneratedRescanError {
            merge_key: self.merge_key.clone(),
            report: self.report.clone(),
            error: self.error.clone(),
            products: self.products.clone(),
        };
        proof {
            assert(copy.products.deep_view() =~= self.products.deep_view());
        }
        copy
    }
}

/// The MD5 digest of some bytes.
pub uninterp spec fn md5_digest(bytes: Seq<u8>) -> Seq<u8>;

/// The SHA-1 digest of some bytes.
pub uninterp spec fn sha1_digest(bytes: Seq<u8>) -> Seq<u8>;

/// The SHA-256 digest of some bytes.
pub uninterp spec fn sha256_digest(bytes: Seq<u8>) -> Seq<u8>;

/// The BLAKE3 digest of some bytes.
pub uninterp spec fn blake3_digest(bytes: Seq<u8>) -> Seq<u8>;

/// Digests bytes with `Digest::digest` of `md5::Md5`: sixteen bytes that depend on the bytes alone.
/// How they come about is left unsaid.
#[verifier::external_body]
fn digest_md5(bytes: &Vec<u8>) -> (digest: Vec<u8>)
    ensures
        digest@ == md5_digest(bytes@),
        digest@.len() == 16,
{
    <md5::Md5 as md5::Digest>::digest(bytes).to_vec()
}

/// Digests bytes with `Digest::digest` of `sha1::Sha1`: twenty bytes that depend on the bytes
/// alone. How they come about is left unsaid.
#[verifier::external_body]
fn digest_sha1(bytes: &Vec<u8>) -> (digest: Vec<u8>)
    ensures
        digest@ == sha1_digest(bytes@),
        digest@.len() == 20,
{
    <sha1::Sha1 as sha1::Digest>::digest(bytes).to_vec()
}

/// Digests bytes with `Digest::digest` of `sha2::Sha256`: thirty-two bytes that depend on the
/// bytes alone. How they come about is left unsaid.
#[verifier::external_body]
fn digest_sha256(bytes: &Vec<u8>) -> (digest: Vec<u8>)
    ensures
        digest@ == sha256_digest(bytes@),
        digest@.len() == 32,
{
    <sha2::Sha256 as sha2::Digest>::digest(bytes).to_vec()
}

/// Digests bytes with `blake3::hash`: thirty-two bytes that depend on the bytes alone. How they
/// come about is left unsaid.
#[verifier::external_body]
fn digest_blake3(bytes: &Vec<u8>) -> (digest: Vec<u8>)
    ensures
        digest@ == blake3_digest(bytes@),
        digest@.len() == 32,
{
    blake3::hash(bytes).as_bytes().to_vec()
}

/// The digest of some bytes by an algorithm that is known.
pub open spec fn digest_of(algorithm: Seq<char>, bytes: Seq<u8>) -> Option<Seq<u8>> {
    if algorithm == "md5"@ {
        Some(md5_digest(bytes))
    } else if algorithm == "sha1"@ {
        Some(sha1_digest(bytes))
    } else if algorithm == "sha256"@ {
        Some(sha256_digest(bytes))
    } else if algorithm == "blake3"@ {
        Some(blake3_digest(bytes))
    } else {
        None
    }
}

/// Bytes in hexadecimal, two digits each.
pub open spec fn hexadecimal(bytes: Seq<u8>) -> Seq<char> {
    written(bytes, |byte: u8| fixed_digits(byte as nat, 16, 2))
}

fn write_hexadecimal(bytes: &Vec<u8>) -> (text: String)
    ensures
        text@ == hexadecimal(bytes@),
{
    let ghost piece = |byte: u8| fixed_digits(byte as nat, 16, 2);
    let write = |byte: &u8| -> (text: String)
        ensures
            text@ == piece(byte.deep_view()),
    {
        fixed_text(*byte as u64, 16, 2)
    };
    proof {
        assert(bytes.deep_view() =~= bytes@);
    }
    write_each(bytes, write, Ghost(piece))
}

/// What is wrong where a digest is not the one that a source file had.
pub open spec fn digest_error(digest: Seq<u8>, source: SourceFileView) -> Option<Seq<char>> {
    let actual = source.source_hash_algorithm + "="@ + hexadecimal(digest);
    if actual == source.source_hash {
        None
    } else {
        Some(
            "compiler-observed source hash changed: expected "@ + source.source_hash + ", found "@
                + actual,
        )
    }
}

/// Checks a digest against the one that a source file had.
pub fn check_digest(digest: &Vec<u8>, source: &SourceFile) -> (result: Result<(), String>)
    ensures
        reports(result, digest_error(digest@, source.deep_view())),
{
    let mut actual = source.source_hash_algorithm.clone();
    actual.append("=");
    actual.append(write_hexadecimal(digest).as_str());
    if same(actual.as_str(), source.source_hash.as_str()) {
        return Ok(());
    }
    let mut message = "compiler-observed source hash changed: expected ".to_owned();
    message.append(source.source_hash.as_str());
    message.append(", found ");
    message.append(actual.as_str());
    Err(message)
}

/// What is wrong where bytes are not those that the compiler read.
pub open spec fn observed_error(bytes: Seq<u8>, source: SourceFileView) -> Option<Seq<char>> {
    if bytes.len() != source.byte_len {
        Some(
            "compiler-observed source changed size: expected "@ + decimal(source.byte_len as nat)
                + " bytes, found "@ + decimal(bytes.len()),
        )
    } else {
        match digest_of(source.source_hash_algorithm, bytes) {
            None => Some(
                "unsupported rustc source hash algorithm "@ + debug_text(
                    source.source_hash_algorithm,
                ),
            ),
            Some(digest) => digest_error(digest, source),
        }
    }
}

/// Hands bytes back where they are those that the compiler read, by their number and digest.
pub fn read_verified_source(bytes: Vec<u8>, source: &SourceFile) -> (result: Result<
    Vec<u8>,
    String,
>)
    ensures
        reports(result, observed_error(bytes@, source.deep_view())),
        result matches Ok(read) ==> read == bytes,
{
    if bytes.len() as u64 != source.byte_len as u64 {
        let mut message = "compiler-observed source changed size: expected ".to_owned();
        message.append(decimal_text(source.byte_len as u128).as_str());
        message.append(" bytes, found ");
        message.append(decimal_text(bytes.len() as u128).as_str());
        return Err(message);
    }
    let algorithm = source.source_hash_algorithm.as_str();
    let digest = if same(algorithm, "md5") {
        digest_md5(&bytes)
    } else if same(algorithm, "sha1") {
        digest_sha1(&bytes)
    } else if same(algorithm, "sha256") {
        digest_sha256(&bytes)
    } else if same(algorithm, "blake3") {
        digest_blake3(&bytes)
    } else {
        let mut message = "unsupported rustc source hash algorithm ".to_owned();
        message.append(quoted(algorithm).as_str());
        return Err(message);
    };
    match check_digest(&digest, source) {
        Ok(()) => Ok(bytes),
        Err(message) => Err(message),
    }
}

/// Whether a span lies in a source file.
pub open spec fn lies_in(span: Option<SourceSpanView>, source: Seq<char>) -> bool {
    match span {
        Some(span) => span.file == source,
        None => false,
    }
}

fn belongs(span: &Option<SourceSpan>, source: &str) -> (result: bool)
    ensures
        result == lies_in(span.deep_view(), source@),
{
    match span {
        Some(span) => same(span.file.0.as_str(), source),
        None => false,
    }
}

/// Whether a body lies in a source file.
pub open spec fn body_in(source: Seq<char>) -> spec_fn(BodyView) -> bool {
    |body: BodyView| lies_in(body.span, source) || lies_in(body.attribution_callsite, source)
}

/// Whether a body of a macro lies in a source file.
pub open spec fn macro_body_in(source: Seq<char>) -> spec_fn(BodyView) -> bool {
    |body: BodyView|
        from_macro(body.expansion_origin) && (lies_in(body.span, source) || lies_in(
            body.attribution_callsite,
            source,
        ))
}

/// Whether a definition lies in a source file.
pub open spec fn definition_in(source: Seq<char>) -> spec_fn(EffectiveDefinitionView) -> bool {
    |fact: EffectiveDefinitionView|
        lies_in(fact.definition.span, source) || lies_in(
            fact.definition.attribution_callsite,
            source,
        )
}

/// Whether a name lies in a source file.
pub open spec fn binding_in(source: Seq<char>) -> spec_fn(PublicBindingView) -> bool {
    |binding: PublicBindingView| lies_in(binding.span, source)
}

/// Whether a reference lies in a source file.
pub open spec fn reference_in(source: Seq<char>) -> spec_fn(ReferenceView) -> bool {
    |reference: ReferenceView| lies_in(reference.span, source)
}

/// Whether a branch lies in a source file.
pub open spec fn decision_in(source: Seq<char>) -> spec_fn(DecisionView) -> bool {
    |decision: DecisionView|
        lies_in(decision.generated_span, source) || lies_in(decision.attribution_callsite, source)
}

/// Whether a product has facts in a source file.
pub open spec fn product_in_source(
    unit: CompiledInvocationView,
    source: Seq<char>,
    product: SemanticProduct,
) -> bool {
    match product {
        SemanticProduct::HirBodies => any_where(unit.bodies, body_in(source)),
        SemanticProduct::EffectiveApi => any_where(unit.effective, definition_in(source))
            || any_where(unit.correlated.invocation.bindings, binding_in(source)),
        SemanticProduct::References => any_where(
            unit.correlated.invocation.references,
            reference_in(source),
        ),
        SemanticProduct::ExpansionDecisions => any_where(unit.bodies, macro_body_in(source))
            || any_where(unit.decisions, decision_in(source)),
    }
}

/// A list with one more product, where it has facts in a source file.
pub open spec fn with_product(
    list: Seq<SemanticProduct>,
    unit: CompiledInvocationView,
    source: Seq<char>,
    product: SemanticProduct,
) -> Seq<SemanticProduct> {
    if product_in_source(unit, source, product) {
        list.push(product)
    } else {
        list
    }
}

/// The products that have facts in a source file, in order.
pub open spec fn source_products(unit: CompiledInvocationView, source: Seq<char>) -> Seq<
    SemanticProduct,
> {
    with_product(
        with_product(
            with_product(
                with_product(
                    Seq::<SemanticProduct>::empty(),
                    unit,
                    source,
                    SemanticProduct::HirBodies,
                ),
                unit,
                source,
                SemanticProduct::EffectiveApi,
            ),
            unit,
            source,
            SemanticProduct::References,
        ),
        unit,
        source,
        SemanticProduct::ExpansionDecisions,
    )
}

fn has_facts_in(unit: &CompiledInvocation, source: &str, product: SemanticProduct) -> (result: bool)
    ensures
        result == product_in_source(unit.deep_view(), source@, product),
{
    let ghost in_body = body_in(source@);
    let ghost in_macro = macro_body_in(source@);
    let ghost in_definition = definition_in(source@);
    let ghost in_binding = binding_in(source@);
    let ghost in_reference = reference_in(source@);
    let ghost in_decision = decision_in(source@);
    let test_body = |body: &Body| -> (result: bool)
        ensures
            result == in_body(body.deep_view()),
    {
        belongs(&body.span, source) || belongs(&body.attribution_callsite, source)
    };
    let test_macro = |body: &Body| -> (result: bool)
        ensures
            result == in_macro(body.deep_view()),
    {
        is_macro(body.expansion_origin) && (belongs(&body.span, source) || belongs(
            &body.attribution_callsite,
            source,
        ))
    };
    let test_definition = |fact: &EffectiveDefinition| -> (result: bool)
        ensures
            result == in_definition(fact.deep_view()),
    {
        belongs(&fact.definition.span, source) || belongs(
            &fact.definition.attribution_callsite,
            source,
        )
    };
    let test_binding = |binding: &PublicBinding| -> (result: bool)
        ensures
            result == in_binding(binding.deep_view()),
    {
        belongs(&binding.span, source)
    };
    let test_reference = |reference: &Reference| -> (result: bool)
        ensures
            result == in_reference(reference.deep_view()),
    {
        belongs(&reference.span, source)
    };
    let test_decision = |decision: &Decision| -> (result: bool)
        ensures
            result == in_decision(decision.deep_view()),
    {
        belongs(&decision.generated_span, source) || belongs(
            &decision.attribution_callsite,
            source,
        )
    };
    let invocation = &unit.correlated.invocation;
    match product {
        SemanticProduct::HirBodies => any_item(&unit.bodies, test_body, Ghost(in_body)),
        SemanticProduct::EffectiveApi => any_item(
            &unit.effective,
            test_definition,
            Ghost(in_definition),
        ) || any_item(&invocation.bindings, test_binding, Ghost(in_binding)),
        SemanticProduct::References => any_item(
            &invocation.references,
            test_reference,
            Ghost(in_reference),
        ),
        SemanticProduct::ExpansionDecisions => any_item(
            &unit.bodies,
            test_macro,
            Ghost(in_macro),
        ) || any_item(&unit.decisions, test_decision, Ghost(in_decision)),
    }
}

/// Lists the products that have facts in a source file.
pub fn products_for_source(unit: &CompiledInvocation, source: &str) -> (products: Vec<
    SemanticProduct,
>)
    ensures
        products.deep_view() == source_products(unit.deep_view(), source@),
{
    let mut products: Vec<SemanticProduct> = no_items();
    if has_facts_in(unit, source, SemanticProduct::HirBodies) {
        push_item(&mut products, SemanticProduct::HirBodies);
    }
    if has_facts_in(unit, source, SemanticProduct::EffectiveApi) {
        push_item(&mut products, SemanticProduct::EffectiveApi);
    }
    if has_facts_in(unit, source, SemanticProduct::References) {
        push_item(&mut products, SemanticProduct::References);
    }
    if has_facts_in(unit, source, SemanticProduct::ExpansionDecisions) {
        push_item(&mut products, SemanticProduct::ExpansionDecisions);
    }
    products
}

/// What tells one generated source file from another: its digest and where it lies.
pub type CandidateKey = (String, String);

/// Picks a generated Rust source that an invocation has facts in.
pub open spec fn owned_source(known: Seq<CanonicalPathView>, unit: CompiledInvocationView) -> spec_fn(
    SourceFileView,
) -> Option<((Seq<char>, Seq<char>), GeneratedOwnerView)> {
    |source: SourceFileView|
        match source.local_path {
            Some(path) => if source.generated && source_products(unit, source.key).len() > 0
                && has_extension_of(path, "rs"@) {
                Some(
                    (
                        (source.source_hash, canonical_form(known, path)),
                        GeneratedOwnerView {
                            merge_key: unit.correlated.invocation.started.merge_key,
                            path,
                            label: generated_label_of(
                                owner_of(unit.correlated.invocation),
                                path,
                                source.source_hash,
                            ),
                            source,
                            products: source_products(unit, source.key),
                        },
                    ),
                )
            } else {
                None
            },
            None => None,
        }
}

/// All generated sources that invocations have facts in.
pub open spec fn owned_sources(
    known: Seq<CanonicalPathView>,
    units: Seq<CompiledInvocationView>,
) -> Seq<((Seq<char>, Seq<char>), GeneratedOwnerView)> {
    flattened(
        units.len() as int,
        |i: int|
            collected(
                units[i].correlated.invocation.sources,
                owned_source(known, units[i]),
            ),
    )
}

/// Picks the owner of an entry with a key.
pub open spec fn owner_under(key: (Seq<char>, Seq<char>)) -> spec_fn(
    ((Seq<char>, Seq<char>), GeneratedOwnerView),
) -> Option<GeneratedOwnerView> {
    |entry: ((Seq<char>, Seq<char>), GeneratedOwnerView)|
        if entry.0 == key {
            Some(entry.1)
        } else {
            None
        }
}

/// Each generated source once, with all its owners, in the order of their digests and places.
pub open spec fn candidates_of(
    entries: Seq<((Seq<char>, Seq<char>), GeneratedOwnerView)>,
) -> Seq<GeneratedCandidateView> {
    collected(
        ascending::<CandidateKey>(
            image(entries, |entry: ((Seq<char>, Seq<char>), GeneratedOwnerView)| Some(entry.0)),
        ),
        |key: (Seq<char>, Seq<char>)|
            Some(
                GeneratedCandidateView {
                    source_hash: key.0,
                    location: key.1,
                    owners: collected(entries, owner_under(key)),
                },
            ),
    )
}

fn list_owned(places: &Locations, unit: &CompiledInvocation) -> (list: Vec<
    (CandidateKey, GeneratedOwner),
>)
    ensures
        list.deep_view() == collected(
            unit.deep_view().correlated.invocation.sources,
            owned_source(places.deep_view().canonical, unit.deep_view()),
        ),
{
    let ghost f = owned_source(places.deep_view().canonical, unit.deep_view());
    let pick = |source: &SourceFile| -> (entry: Option<(CandidateKey, GeneratedOwner)>)
        ensures
            entry.deep_view() == f(source.deep_view()),
    {
        match &source.local_path {
            None => None,
            Some(path) => {
                let products = products_for_source(unit, source.key.0.as_str());
                proof {
                    assert(products.len() == products.deep_view().len());
                }
                if source.generated && products.len() > 0 && has_extension(path.as_str(), "rs") {
                    let invocation = &unit.correlated.invocation;
                    Some(
                        (
                            (source.source_hash.clone(), canonical(places, path.as_str())),
                            GeneratedOwner {
                                merge_key: invocation.started.merge_key.0.clone(),
                                path: path.clone(),
                                label: generated_source_label(
                                    owner(invocation),
                                    path.as_str(),
                                    source.source_hash.as_str(),
                                ),
                                source: source.clone(),
                                products,
                            },
                        ),
                    )
                } else {
                    None
                }
            },
        }
    };
    collect_items(&unit.correlated.invocation.sources, pick, Ghost(f))
}

/// Lists each generated source that invocations have facts in, with all its owners.
pub fn rescan_candidates(places: &Locations, units: &Vec<CompiledInvocation>) -> (list: Vec<
    GeneratedCandidate,
>)
    ensures
        list.deep_view() == candidates_of(
            owned_sources(places.deep_view().canonical, units.deep_view()),
        ),
{
    let ghost known = places.deep_view().canonical;
    let ghost all = units.deep_view();
    let ghost f = |i: int|
        collected(all[i].correlated.invocation.sources, owned_source(known, all[i]));
    let mut entries: Vec<(CandidateKey, GeneratedOwner)> = no_items();
    let mut index: usize = 0;
    while index < units.len()
        invariant
            known == places.deep_view().canonical,
            all == units.deep_view(),
            f == |i: int|
                collected(all[i].correlated.invocation.sources, owned_source(known, all[i])),
            index <= all.len(),
            entries.deep_view() == flattened(index as int, f),
        decreases all.len() - index,
    {
        proof {
            assert(all[index as int] == units[index as int].deep_view());
        }
        append_items(&mut entries, list_owned(places, &units[index]));
        index = index + 1;
    }
    proof {
        assert(entries.deep_view() == owned_sources(known, all));
    }
    let ghost found = entries.deep_view();
    let ghost g = |entry: ((Seq<char>, Seq<char>), GeneratedOwnerView)| Some(entry.0);
    let pick_key = |entry: &(CandidateKey, GeneratedOwner)| -> (key: Option<CandidateKey>)
        ensures
            key.deep_view() == g(entry.deep_view()),
    {
        Some(((entry.0).0.clone(), (entry.0).1.clone()))
    };
    let keys = collect_set(&entries, pick_key, Ghost(g)).into_vec();
    let ghost h = |key: (Seq<char>, Seq<char>)|
        Some(
            GeneratedCandidateView {
                source_hash: key.0,
                location: key.1,
                owners: collected(found, owner_under(key)),
            },
        );
    let pick = |key: &CandidateKey| -> (candidate: Option<GeneratedCandidate>)
        ensures
            candidate.deep_view() == h(key.deep_view()),
    {
        Some(
            GeneratedCandidate {
                source_hash: key.0.clone(),
                location: key.1.clone(),
                owners: list_owners(&entries, key),
            },
        )
    };
    collect_items(&keys, pick, Ghost(h))
}

fn list_owners(entries: &Vec<(CandidateKey, GeneratedOwner)>, key: &CandidateKey) -> (list: Vec<
    GeneratedOwner,
>)
    ensures
        list.deep_view() == collected(entries.deep_view(), owner_under(key.deep_view())),
{
    let ghost f = owner_under(key.deep_view());
    let pick = |entry: &(CandidateKey, GeneratedOwner)| -> (owner: Option<GeneratedOwner>)
        ensures
            owner.deep_view() == f(entry.deep_view()),
    {
        if same((entry.0).0.as_str(), key.0.as_str()) && same(
            (entry.0).1.as_str(),
            key.1.as_str(),
        ) {
            Some(entry.1.clone())
        } else {
            None
        }
    };
    collect_items(entries, pick, Ghost(f))
}

/// An error for each owner of a generated source that is not what the compiler read.
pub open spec fn owner_error(error: Seq<char>) -> spec_fn(GeneratedOwnerView) -> Option<
    GeneratedRescanErrorView,
> {
    |owner: GeneratedOwnerView|
        Some(
            GeneratedRescanErrorView {
                merge_key: owner.merge_key,
                report: owner.path,
                error,
                products: owner.products,
            },
        )
}

/// Lists an error for each owner of a generated source that is not what the compiler read.
pub fn rescan_errors(candidate: &GeneratedCandidate, error: &str) -> (errors: Vec<
    GeneratedRescanError,
>)
    ensures
        errors.deep_view() == collected(candidate.deep_view().owners, owner_error(error@)),
{
    let ghost f = owner_error(error@);
    let pick = |owner: &GeneratedOwner| -> (found: Option<GeneratedRescanError>)
        ensures
            found.deep_view() == f(owner.deep_view()),
    {
        let copy = owner.clone();
        Some(
            GeneratedRescanError {
                merge_key: copy.merge_key,
                report: copy.path,
                error: error.to_owned(),
                products: copy.products,
            },
        )
    };
    collect_items(&candidate.owners, pick, Ghost(f))
}

/// What is said of a generated source that is not what the compiler read.
pub open spec fn rescan_message(error: GeneratedRescanErrorView) -> Seq<char> {
    error.report + ": "@ + error.error
}

fn write_rescan_message(error: &GeneratedRescanError) -> (message: String)
    ensures
        message@ == rescan_message(error.deep_view()),
{
    let mut message = error.report.clone();
    message.append(": ");
    message.append(error.error.as_str());
    message
}

/// What is wrong with a product of an invocation, as far as the errors from a place on say.
pub open spec fn product_errors(
    errors: Seq<GeneratedRescanErrorView>,
    key: (Seq<char>, SemanticProduct),
) -> Seq<Seq<char>> {
    collected(
        errors,
        |error: GeneratedRescanErrorView|
            if error.merge_key == key.0 && error.products.contains(key.1) {
                Some(rescan_message(error))
            } else {
                None
            },
    )
}

/// The products of the invocation that an error is about.
pub open spec fn error_keys() -> spec_fn(GeneratedRescanErrorView) -> Set<
    (Seq<char>, SemanticProduct),
> {
    |error: GeneratedRescanErrorView|
        image(error.products, |product: SemanticProduct| Some((error.merge_key, product)))
}

/// All that is wrong with the sources of products, by invocation.
pub open spec fn integrity_map(errors: Seq<GeneratedRescanErrorView>) -> Map<
    (Seq<char>, SemanticProduct),
    Seq<Seq<char>>,
> {
    Map::new(
        |key: (Seq<char>, SemanticProduct)| flat_image(errors, error_keys()).contains(key),
        |key: (Seq<char>, SemanticProduct)| product_errors(errors, key),
    )
}

fn list_product_errors(errors: &Vec<GeneratedRescanError>, key: &(String, SemanticProduct)) -> (list:
    Vec<String>)
    ensures
        list.deep_view() == product_errors(errors.deep_view(), key.deep_view()),
{
    let ghost told = key.deep_view();
    let ghost f = |error: GeneratedRescanErrorView|
        if error.merge_key == told.0 && error.products.contains(told.1) {
            Some(rescan_message(error))
        } else {
            None
        };
    let pick = |error: &GeneratedRescanError| -> (message: Option<String>)
        ensures
            message.deep_view() == f(error.deep_view()),
    {
        if same(error.merge_key.as_str(), key.0.as_str()) && names_product(&error.products, key.1) {
            Some(write_rescan_message(error))
        } else {
            None
        }
    };
    collect_items(errors, pick, Ghost(f))
}

fn names_product(products: &Vec<SemanticProduct>, product: SemanticProduct) -> (result: bool)
    ensures
        result == products.deep_view().contains(product),
{
    let ghost all = products.deep_view();
    let ghost property = equal_to(product);
    let test = |item: &SemanticProduct| -> (result: bool)
        ensures
            result == property(item.deep_view()),
    {
        *item == product
    };
    let found = any_item(products, test, Ghost(property));
    proof {
        if found {
            let i = choose|i: int| 0 <= i < all.len() && property(#[trigger] all[i]);
            assert(all[i] == product);
        } else if all.contains(product) {
            let i = choose|i: int| 0 <= i < all.len() && all[i] == product;
            assert(property(all[i]));
        }
    }
    found
}

/// Sorts what is wrong with generated sources: all of it, and by invocation and product.
pub fn integrity_errors(errors: &Vec<GeneratedRescanError>) -> (result: (
    Vec<String>,
    SortedMap<(String, SemanticProduct), Vec<String>>,
))
    ensures
        result.0.deep_view() == collected(
            errors.deep_view(),
            |error: GeneratedRescanErrorView| Some(rescan_message(error)),
        ),
        result.1.wf(),
        result.1.deep_view() == integrity_map(errors.deep_view()),
{
    let ghost all = errors.deep_view();
    let ghost f = |error: GeneratedRescanErrorView| Some(rescan_message(error));
    let pick = |error: &GeneratedRescanError| -> (message: Option<String>)
        ensures
            message.deep_view() == f(error.deep_view()),
    {
        Some(write_rescan_message(error))
    };
    let messages = collect_items(errors, pick, Ghost(f));
    let ghost g = error_keys();
    let mut map: SortedMap<(String, SemanticProduct), Vec<String>> = SortedMap::new();
    let mut index: usize = 0;
    proof {
        assert(all.take(0) =~= Seq::<GeneratedRescanErrorView>::empty());
        assert(flat_image(all.take(0), g) =~= Set::empty());
        assert(map.deep_view().dom() =~= flat_image(all.take(0), g));
    }
    while index < errors.len()
        invariant
            all == errors.deep_view(),
            g == error_keys(),
            index <= all.len(),
            map.wf(),
            map.deep_view().dom() == flat_image(all.take(index as int), g),
            forall|key: (Seq<char>, SemanticProduct)| #[trigger]
                map.deep_view().dom().contains(key) ==> map.deep_view()[key] == product_errors(
                    all,
                    key,
                ),
        decreases all.len() - index,
    {
        let error = &errors[index];
        let ghost told = error.deep_view();
        proof {
            assert(all[index as int] == told);
            lemma_flat_image_step(all, g, index as int);
        }
        let ghost before = map.deep_view().dom();
        let ghost h = |product: SemanticProduct| Some((told.merge_key, product));
        let ghost own = told.products;
        let mut at: usize = 0;
        proof {
            lemma_image_ends(own, h);
            assert(before.union(image(own.take(0), h)) =~= before);
        }
        while at < error.products.len()
            invariant
                all == errors.deep_view(),
                told == error.deep_view(),
                own == error.products.deep_view(),
                h == |product: SemanticProduct| Some((told.merge_key, product)),
                at <= own.len(),
                map.wf(),
                map.deep_view().dom() == before.union(image(own.take(at as int), h)),
                forall|key: (Seq<char>, SemanticProduct)| #[trigger]
                    map.deep_view().dom().contains(key) ==> map.deep_view()[key]
                        == product_errors(all, key),
            decreases own.len() - at,
        {
            proof {
                assert(own[at as int] == error.products[at as int]);
                lemma_image_step(own, h, at as int);
            }
            let key = (error.merge_key.clone(), error.products[at]);
            let list = list_product_errors(errors, &key);
            let ghost now = image(own.take(at as int), h);
            let ghost added = key.deep_view();
            map.insert(key, list);
            proof {
                assert(before.union(now).insert(added) =~= before.union(now.insert(added)));
            }
            at = at + 1;
        }
        proof {
            lemma_image_ends(own, h);
            assert(map.deep_view().dom() =~= flat_image(all.take(index as int + 1), g));
        }
        index = index + 1;
    }
    proof {
        assert(all.take(all.len() as int) =~= all);
        assert(map.deep_view() =~= integrity_map(all));
    }
    (messages, map)
}

} // verus!
