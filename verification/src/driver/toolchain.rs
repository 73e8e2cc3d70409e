//! What a driver is built for: the compiler, and what differs from release to release.

use vstd::prelude::*;

use crate::collections::{append_items, no_items, push_item};
use crate::compiler::environment::{find_linked_version, linked_version_of};
use crate::protocol::{CompilerIdentity, CompilerIdentityView};
use crate::text::{
    contains_char, lines_of, list_lines, number_upto, parse_number, split, split_on,
    strip_prefix, without_prefix,
};

verus! {

/// What stands behind a name, a colon and a space on a line.
pub open spec fn version_value(line: Seq<char>, name: Seq<char>) -> Option<Seq<char>> {
    match without_prefix(line, name) {
        Some(rest) => without_prefix(rest, ": "@),
        None => None,
    }
}

/// The first value of a name on the lines from a place on.
pub open spec fn version_value_from(lines: Seq<Seq<char>>, name: Seq<char>, from: int) -> Option<
    Seq<char>,
>
    decreases lines.len() - from,
{
    if from >= lines.len() {
        None
    } else {
        match version_value(lines[from], name) {
            Some(value) => Some(value),
            None => version_value_from(lines, name, from + 1),
        }
    }
}

/// Finds the value of a name in what the compiler of a build says of itself.
pub fn version_field(version: &str, name: &str) -> (value: Option<String>)
    ensures
        value.deep_view() == version_value_from(lines_of(version@), name@, 0),
{
    let lines = list_lines(version);
    let ghost all = lines.deep_view();
    let mut at: usize = 0;
    while at < lines.len()
        invariant
            all == lines.deep_view(),
            all == lines_of(version@),
            at <= all.len(),
            version_value_from(all, name@, 0) == version_value_from(all, name@, at as int),
        decreases all.len() - at,
    {
        proof {
            assert(all[at as int] == lines[at as int]@);
        }
        if let Some(rest) = strip_prefix(lines[at].as_str(), name) {
            if let Some(value) = strip_prefix(rest.as_str(), ": ") {
                return Some(value);
            }
        }
        at = at + 1;
    }
    None
}

/// The pieces of a release between dots and dashes.
pub open spec fn release_pieces(release: Seq<char>) -> Seq<Seq<char>> {
    split_on(crate::text::with_char(release, '-', '.'), '.')
}

/// The first two numbers of a release, where it has them.
pub open spec fn minor_version_of(release: Seq<char>) -> Option<(u32, u32)> {
    let pieces = release_pieces(release);
    if pieces.len() < 2 {
        None
    } else {
        match (
            number_upto(pieces[0], u32::MAX as nat),
            number_upto(pieces[1], u32::MAX as nat),
        ) {
            (Some(major), Some(minor)) => Some((major as u32, minor as u32)),
            _ => None,
        }
    }
}

/// Reads the first two numbers of a release.
pub fn minor_version(release: &str) -> (version: Option<(u32, u32)>)
    ensures
        version == minor_version_of(release@),
{
    let pieces = split(crate::text::replace_char(release, '-', '.').as_str(), '.');
    proof {
        assert(pieces.deep_view().len() == pieces.len());
    }
    if pieces.len() < 2 {
        return None;
    }
    proof {
        assert(pieces.deep_view()[0] == pieces[0]@);
        assert(pieces.deep_view()[1] == pieces[1]@);
    }
    let limit: u64 = 4_294_967_295;
    match (
        parse_number(pieces[0].as_str(), limit),
        parse_number(pieces[1].as_str(), limit),
    ) {
        (Some(major), Some(minor)) => Some((major as u32, minor as u32)),
        _ => None,
    }
}

/// Whether a version is at least another.
pub open spec fn reaches(version: (u32, u32), minor: u32) -> bool {
    version.0 > 1 || version.0 == 1 && version.1 >= minor
}

fn has_reached(version: (u32, u32), minor: u32) -> (result: bool)
    ensures
        result == reaches(version, minor),
{
    version.0 > 1 || version.0 == 1 && version.1 >= minor
}

/// The names, where they apply.
pub open spec fn names_if(applies: bool, names: Seq<Seq<char>>) -> Seq<Seq<char>> {
    if applies {
        names
    } else {
        Seq::empty()
    }
}

/// What a driver is told of a release, besides what holds of the newest ones.
pub open spec fn early_configurations(release: Seq<char>, version: (u32, u32)) -> Seq<Seq<char>> {
    names_if(reaches(version, 95), seq!["rot_driver_exit_code"@]) + names_if(
        reaches(version, 93),
        seq!["rot_flat_offset_of"@],
    ) + names_if(reaches(version, 91), seq!["rot_codegen_symbol_name"@, "rot_trait_item_of"@])
        + names_if(
        !release.contains('-') && reaches(version, 92) || reaches(version, 96),
        seq!["rot_immediate_abort"@],
    )
}

/// What a driver is told of the newest releases.
pub open spec fn late_configurations(version: (u32, u32)) -> Seq<Seq<char>> {
    names_if(
        reaches(version, 97),
        seq!["rot_lint_level_spec"@, "rot_session_config"@, "rot_type_of_unnormalized"@],
    ) + if reaches(version, 100) {
        seq![
            "rot_crate_type_in_structures"@,
            "rot_internal_target_features"@,
            "rot_local_module_visibility"@,
            "rot_test_binder_constraints"@,
        ]
    } else {
        seq!["rot_inline_const_def_kind"@]
    }
}

fn list_early(release: &str, version: (u32, u32)) -> (names: Vec<String>)
    ensures
        names.deep_view() == early_configurations(release@, version),
{
    let mut names: Vec<String> = no_items();
    if has_reached(version, 95) {
        push_item(&mut names, "rot_driver_exit_code".to_owned());
    }
    if has_reached(version, 93) {
        push_item(&mut names, "rot_flat_offset_of".to_owned());
    }
    if has_reached(version, 91) {
        push_item(&mut names, "rot_codegen_symbol_name".to_owned());
        push_item(&mut names, "rot_trait_item_of".to_owned());
    }
    if !contains_char(release, '-') && has_reached(version, 92) || has_reached(version, 96) {
        push_item(&mut names, "rot_immediate_abort".to_owned());
    }
    proof {
        assert(names.deep_view() =~= early_configurations(release@, version));
    }
    names
}

fn list_late(version: (u32, u32)) -> (names: Vec<String>)
    ensures
        names.deep_view() == late_configurations(version),
{
    let mut names: Vec<String> = no_items();
    if has_reached(version, 97) {
        push_item(&mut names, "rot_lint_level_spec".to_owned());
        push_item(&mut names, "rot_session_config".to_owned());
        push_item(&mut names, "rot_type_of_unnormalized".to_owned());
    }
    if has_reached(version, 100) {
        push_item(&mut names, "rot_crate_type_in_structures".to_owned());
        push_item(&mut names, "rot_internal_target_features".to_owned());
        push_item(&mut names, "rot_local_module_visibility".to_owned());
        push_item(&mut names, "rot_test_binder_constraints".to_owned());
    } else {
        push_item(&mut names, "rot_inline_const_def_kind".to_owned());
    }
    proof {
        assert(names.deep_view() =~= late_configurations(version));
    }
    names
}

/// Lists what a driver is told of the release that it is built for. A release without two numbers is
/// none.
pub fn driver_configurations(release: &str) -> (names: Option<Vec<String>>)
    ensures
        names.deep_view() == match minor_version_of(release@) {
            Some(version) => Some(
                early_configurations(release@, version) + late_configurations(version),
            ),
            None => None,
        },
{
    match minor_version(release) {
        Some(version) => {
            let mut names = list_early(release, version);
            append_items(&mut names, list_late(version));
            Some(names)
        },
        None => None,
    }
}

/// The compiler that a driver is built with, by what it says of itself, with its own first line.
pub open spec fn built_with(version: Seq<char>) -> Option<(CompilerIdentityView, Seq<char>)> {
    let lines = lines_of(version);
    match (
        version_value_from(lines, "release"@, 0),
        version_value_from(lines, "commit-hash"@, 0),
        version_value_from(lines, "commit-date"@, 0),
        version_value_from(lines, "host"@, 0),
        linked_version_of(version),
    ) {
        (Some(release), Some(commit_hash), Some(commit_date), Some(host), Some(linked)) => Some(
            (CompilerIdentityView { release, commit_hash, commit_date, host }, linked),
        ),
        _ => None,
    }
}

/// Reads what the compiler that a driver is built with says of itself.
pub fn build_compiler(version: &str) -> (compiler: Option<(CompilerIdentity, String)>)
    ensures
        compiler.deep_view() == built_with(version@),
{
    match (
        version_field(version, "release"),
        version_field(version, "commit-hash"),
        version_field(version, "commit-date"),
        version_field(version, "host"),
        find_linked_version(version),
    ) {
        (Some(release), Some(commit_hash), Some(commit_date), Some(host), Some(linked)) => Some(
            (CompilerIdentity { release, commit_hash, commit_date, host }, linked),
        ),
        _ => None,
    }
}

} // verus!
