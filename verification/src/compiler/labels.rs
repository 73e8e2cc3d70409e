//! The names and labels that reports use for compiler facts.

use vstd::prelude::*;

use crate::model::{CompilerDefinitionIdReport, CompilerDefinitionIdReportView};
use crate::paths::{file_name, last_name};
use crate::protocol::{
    CompilerDefId, DefinitionKind, ExpansionOrigin, Exposure, Namespace, ReferenceKind,
};
use crate::text::{cut_once, first_chars, fixed_digits, fixed_text, split_once, take_chars};

verus! {

/// What a definition is called in reports.
pub open spec fn kind_name(value: DefinitionKind) -> Seq<char> {
    match value {
        DefinitionKind::Crate => "crate"@,
        DefinitionKind::Module => "module"@,
        DefinitionKind::Struct => "struct"@,
        DefinitionKind::Union => "union"@,
        DefinitionKind::Enum => "enum"@,
        DefinitionKind::Variant => "variant"@,
        DefinitionKind::Trait => "trait"@,
        DefinitionKind::TypeAlias => "type_alias"@,
        DefinitionKind::ForeignType => "foreign_type"@,
        DefinitionKind::TraitAlias => "trait_alias"@,
        DefinitionKind::AssociatedType => "associated_type"@,
        DefinitionKind::Function => "function"@,
        DefinitionKind::Constant => "constant"@,
        DefinitionKind::Static => "static"@,
        DefinitionKind::Constructor => "constructor"@,
        DefinitionKind::AssociatedFunction => "associated_function"@,
        DefinitionKind::AssociatedConstant => "associated_constant"@,
        DefinitionKind::Macro => "macro"@,
        DefinitionKind::ExternCrate => "extern_crate"@,
        DefinitionKind::Import => "import"@,
        DefinitionKind::ForeignModule => "foreign_module"@,
        DefinitionKind::OpaqueType => "opaque_type"@,
        DefinitionKind::Field => "field"@,
        DefinitionKind::Implementation => "implementation"@,
    }
}

/// What a definition is called in reports.
pub fn definition_kind(value: DefinitionKind) -> (name: &'static str)
    ensures
        name@ == kind_name(value),
{
    match value {
        DefinitionKind::Crate => "crate",
        DefinitionKind::Module => "module",
        DefinitionKind::Struct => "struct",
        DefinitionKind::Union => "union",
        DefinitionKind::Enum => "enum",
        DefinitionKind::Variant => "variant",
        DefinitionKind::Trait => "trait",
        DefinitionKind::TypeAlias => "type_alias",
        DefinitionKind::ForeignType => "foreign_type",
        DefinitionKind::TraitAlias => "trait_alias",
        DefinitionKind::AssociatedType => "associated_type",
        DefinitionKind::Function => "function",
        DefinitionKind::Constant => "constant",
        DefinitionKind::Static => "static",
        DefinitionKind::Constructor => "constructor",
        DefinitionKind::AssociatedFunction => "associated_function",
        DefinitionKind::AssociatedConstant => "associated_constant",
        DefinitionKind::Macro => "macro",
        DefinitionKind::ExternCrate => "extern_crate",
        DefinitionKind::Import => "import",
        DefinitionKind::ForeignModule => "foreign_module",
        DefinitionKind::OpaqueType => "opaque_type",
        DefinitionKind::Field => "field",
        DefinitionKind::Implementation => "implementation",
    }
}

/// What an expansion origin is called in reports.
pub open spec fn origin_name(value: ExpansionOrigin) -> Seq<char> {
    match value {
        ExpansionOrigin::Authored => "authored"@,
        ExpansionOrigin::BuiltinDesugaring => "builtin_desugaring"@,
        ExpansionOrigin::LocalMacro => "local_macro"@,
        ExpansionOrigin::ExternalMacro => "external_macro"@,
    }
}

/// What an expansion origin is called in reports.
pub fn expansion_origin(value: ExpansionOrigin) -> (name: &'static str)
    ensures
        name@ == origin_name(value),
{
    match value {
        ExpansionOrigin::Authored => "authored",
        ExpansionOrigin::BuiltinDesugaring => "builtin_desugaring",
        ExpansionOrigin::LocalMacro => "local_macro",
        ExpansionOrigin::ExternalMacro => "external_macro",
    }
}

/// What a reference kind is called in reports.
pub open spec fn reference_name(value: ReferenceKind) -> Seq<char> {
    match value {
        ReferenceKind::Body => "body"@,
        ReferenceKind::Interface => "interface"@,
        ReferenceKind::Reexport => "reexport"@,
        ReferenceKind::VisibilityParent => "visibility_parent"@,
        ReferenceKind::VisibilityRequirement => "visibility_requirement"@,
    }
}

/// What a reference kind is called in reports.
pub fn reference_kind(value: ReferenceKind) -> (name: &'static str)
    ensures
        name@ == reference_name(value),
{
    match value {
        ReferenceKind::Body => "body",
        ReferenceKind::Interface => "interface",
        ReferenceKind::Reexport => "reexport",
        ReferenceKind::VisibilityParent => "visibility_parent",
        ReferenceKind::VisibilityRequirement => "visibility_requirement",
    }
}

/// What a namespace is called in reports.
pub open spec fn namespace_name(value: Namespace) -> Seq<char> {
    match value {
        Namespace::Type => "type"@,
        Namespace::Value => "value"@,
        Namespace::Macro => "macro"@,
    }
}

/// What a namespace is called in reports.
pub fn namespace(value: Namespace) -> (name: &'static str)
    ensures
        name@ == namespace_name(value),
{
    match value {
        Namespace::Type => "type",
        Namespace::Value => "value",
        Namespace::Macro => "macro",
    }
}

/// What an exposure is called in reports.
pub open spec fn exposure_name(value: Exposure) -> Seq<char> {
    match value {
        Exposure::Direct => "direct"@,
        Exposure::SingleReexport => "single_reexport"@,
        Exposure::GlobReexport => "glob_reexport"@,
        Exposure::ExternCrate => "extern_crate"@,
        Exposure::MacroUse => "macro_use"@,
        Exposure::MacroExport => "macro_export"@,
    }
}

/// What an exposure is called in reports.
pub fn exposure(value: Exposure) -> (name: &'static str)
    ensures
        name@ == exposure_name(value),
{
    match value {
        Exposure::Direct => "direct",
        Exposure::SingleReexport => "single_reexport",
        Exposure::GlobReexport => "glob_reexport",
        Exposure::ExternCrate => "extern_crate",
        Exposure::MacroUse => "macro_use",
        Exposure::MacroExport => "macro_export",
    }
}

/// The identity of a definition, each half as sixteen hexadecimal digits.
pub open spec fn id_report(id: CompilerDefId) -> CompilerDefinitionIdReportView {
    CompilerDefinitionIdReportView {
        stable_crate_id: fixed_digits(id.stable_crate_id as nat, 16, 16),
        local_hash: fixed_digits(id.local_hash as nat, 16, 16),
    }
}

/// Reports the identity of a definition.
pub fn definition_id(id: CompilerDefId) -> (report: CompilerDefinitionIdReport)
    ensures
        report.deep_view() == id_report(id),
{
    CompilerDefinitionIdReport {
        stable_crate_id: fixed_text(id.stable_crate_id, 16, 16),
        local_hash: fixed_text(id.local_hash, 16, 16),
    }
}

/// Different definitions are reported under different identities.
pub proof fn law_definition_ids_are_distinct(a: CompilerDefId, b: CompilerDefId)
    requires
        id_report(a) == id_report(b),
    ensures
        a == b,
{
    crate::text::lemma_hexadecimal_injective(a.stable_crate_id, b.stable_crate_id);
    crate::text::lemma_hexadecimal_injective(a.local_hash, b.local_hash);
}

/// What a generated file is called: by its owner, the start of its digest and its name.
pub open spec fn generated_label_of(
    owner: Seq<char>,
    path: Seq<char>,
    source_hash: Seq<char>,
) -> Seq<char> {
    let filename = match last_name(path) {
        Some(name) => name,
        None => "generated.rs"@,
    };
    let parts = match cut_once(source_hash, '=') {
        Some(parts) => parts,
        None => ("hash"@, source_hash),
    };
    "<generated>/"@ + owner + "/"@ + parts.0 + "-"@ + first_chars(parts.1, 16) + "/"@ + filename
}

/// Labels a generated file independently of where it was generated.
pub fn generated_source_label(owner: &str, path: &str, source_hash: &str) -> (label: String)
    ensures
        label@ == generated_label_of(owner@, path@, source_hash@),
{
    let filename = match file_name(path) {
        Some(name) => name,
        None => "generated.rs".to_owned(),
    };
    let parts = match split_once(source_hash, '=') {
        Some(parts) => parts,
        None => ("hash".to_owned(), source_hash.to_owned()),
    };
    let digest = take_chars(parts.1.as_str(), 16);
    let mut label = "<generated>/".to_owned();
    label.append(owner);
    label.append("/");
    label.append(parts.0.as_str());
    label.append("-");
    label.append(digest.as_str());
    label.append("/");
    label.append(filename.as_str());
    label
}

} // verus!
