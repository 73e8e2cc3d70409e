//! The compilers that facts can be collected with.

use vstd::prelude::*;

use crate::collections::{collect_items, collected, first_error};
use crate::compiler::sidecar::reports;
use crate::order::{Ordered, Rank};
use crate::protocol::{CompilerIdentity, CompilerIdentityView};
use crate::text::{
    byte_length, cut_once, join, joined, number_upto, parse_number, same, split, split_on,
    split_once, utf8_length,
};

verus! {

/// A toolchain that compiler facts can be collected with.
#[derive(Debug, PartialEq, Eq)]
pub struct SupportedToolchain {
    pub kind: String,
    pub release: String,
    pub release_date: Option<String>,
    pub commit_hash: String,
    pub commit_date: String,
}

/// The model of [`SupportedToolchain`].
#[verifier::ext_equal]
pub struct SupportedToolchainView {
    pub kind: Seq<char>,
    pub release: Seq<char>,
    pub release_date: Option<Seq<char>>,
    pub commit_hash: Seq<char>,
    pub commit_date: Seq<char>,
}

impl DeepView for SupportedToolchain {
    type V = SupportedToolchainView;

    open spec fn deep_view(&self) -> SupportedToolchainView {
        SupportedToolchainView {
            kind: self.kind.deep_view(),
            release: self.release.deep_view(),
            release_date: self.release_date.deep_view(),
            commit_hash: self.commit_hash.deep_view(),
            commit_date: self.commit_date.deep_view(),
        }
    }
}

impl Clone for SupportedToolchain {
    fn clone(&self) -> (copy: Self)
        ensures
            copy.deep_view() == self.deep_view(),
    {
        let copy = SupportedToolchain {
            kind: self.kind.clone(),
            release: self.release.clone(),
            release_date: self.release_date.clone(),
            commit_hash: self.commit_hash.clone(),
            commit_date: self.commit_date.clone(),
        };
        proof {
            assert(copy.release_date.deep_view() =~= self.release_date.deep_view());
        }
        copy
    }
}

/// All toolchains that compiler facts can be collected with.
#[derive(Debug, PartialEq, Eq)]
pub struct SupportManifest {
    pub verified_on: String,
    pub window_start: String,
    pub window_days: u16,
    pub verified_host: String,
    pub toolchains: Vec<SupportedToolchain>,
}

/// The model of [`SupportManifest`].
#[verifier::ext_equal]
pub struct SupportManifestView {
    pub verified_on: Seq<char>,
    pub window_start: Seq<char>,
    pub window_days: u16,
    pub verified_host: Seq<char>,
    pub toolchains: Seq<SupportedToolchainView>,
}

impl DeepView for SupportManifest {
    type V = SupportManifestView;

    open spec fn deep_view(&self) -> SupportManifestView {
        SupportManifestView {
            verified_on: self.verified_on.deep_view(),
            window_start: self.window_start.deep_view(),
            window_days: self.window_days,
            verified_host: self.verified_host.deep_view(),
            toolchains: self.toolchains.deep_view(),
        }
    }
}

impl Clone for SupportManifest {
    fn clone(&self) -> (copy: Self)
        ensures
            copy.deep_view() == self.deep_view(),
    {
        let copy = SupportManifest {
            verified_on: self.verified_on.clone(),
            window_start: self.window_start.clone(),
            window_days: self.window_days,
            verified_host: self.verified_host.clone(),
            toolchains: self.toolchains.clone(),
        };
        proof {
            assert(copy.toolchains.deep_view() =~= self.toolchains.deep_view());
        }
        copy
    }
}

/// The length of the period that toolchains are verified for, in days.
pub const WINDOW_DAYS: u16 = 365;

/// Three numbers of a release.
pub type ReleaseVersion = (u32, u32, u32);

/// The numbered part of a release.
pub open spec fn numbered_part(release: Seq<char>) -> Seq<char> {
    match cut_once(release, '-') {
        Some(parts) => parts.0,
        None => release,
    }
}

/// The numbers of a release, where there are three.
pub open spec fn version_of(release: Seq<char>) -> Option<ReleaseVersion> {
    let pieces = split_on(numbered_part(release), '.');
    if pieces.len() != 3 {
        None
    } else {
        match (
            number_upto(pieces[0], u32::MAX as nat),
            number_upto(pieces[1], u32::MAX as nat),
            number_upto(pieces[2], u32::MAX as nat),
        ) {
            (Some(major), Some(minor), Some(patch)) => Some(
                (major as u32, minor as u32, patch as u32),
            ),
            _ => None,
        }
    }
}

/// Whether a version is older than another.
pub open spec fn is_older(left: ReleaseVersion, right: ReleaseVersion) -> bool {
    left.0 < right.0 || left.0 == right.0 && (left.1 < right.1 || left.1 == right.1 && left.2
        < right.2)
}

/// What is said of a release without three numbers.
pub open spec fn invalid_release(release: Seq<char>) -> Seq<char> {
    "rustc support manifest has invalid release "@ + release
}

fn write_invalid_release(release: &str) -> (text: String)
    ensures
        text@ == invalid_release(release@),
{
    let mut text = "rustc support manifest has invalid release ".to_owned();
    text.append(release);
    text
}

/// Reads the three numbers of a release.
pub fn release_version(release: &str) -> (result: Result<ReleaseVersion, String>)
    ensures
        match result {
            Ok(version) => version_of(release@) == Some(version),
            Err(message) => version_of(release@) is None && message@ == invalid_release(release@),
        },
{
    let numbers = match split_once(release, '-') {
        Some(parts) => parts.0,
        None => release.to_owned(),
    };
    let pieces = split(numbers.as_str(), '.');
    proof {
        assert(numbers@ == numbered_part(release@));
        assert(pieces.deep_view().len() == pieces.len());
    }
    if pieces.len() != 3 {
        return Err(write_invalid_release(release));
    }
    proof {
        assert(forall|i: int| 0 <= i < 3 ==> pieces.deep_view()[i] == pieces[i]@);
    }
    let limit: u64 = 4_294_967_295;
    match (
        parse_number(pieces[0].as_str(), limit),
        parse_number(pieces[1].as_str(), limit),
        parse_number(pieces[2].as_str(), limit),
    ) {
        (Some(major), Some(minor), Some(patch)) => Ok((major as u32, minor as u32, patch as u32)),
        _ => Err(write_invalid_release(release)),
    }
}

fn is_older_than(left: ReleaseVersion, right: ReleaseVersion) -> (result: bool)
    ensures
        result == is_older(left, right),
{
    left.0 < right.0 || left.0 == right.0 && (left.1 < right.1 || left.1 == right.1 && left.2
        < right.2)
}

/// Whether a text comes after another.
pub open spec fn comes_after(left: Seq<char>, right: Seq<char>) -> bool {
    String::precedes(right, left)
}

fn is_after(left: &String, right: &String) -> (result: bool)
    ensures
        result == comes_after(left@, right@),
{
    proof {
        String::irreflexive(left@);
        if String::precedes(left@, right@) && String::precedes(right@, left@) {
            String::transitive(left@, right@, left@);
        }
    }
    match left.rank(right) {
        Rank::Greater => true,
        _ => false,
    }
}

/// Whether a character is a hexadecimal digit.
pub open spec fn is_hexadecimal(c: char) -> bool {
    '0' <= c <= '9' || 'a' <= c <= 'f' || 'A' <= c <= 'F'
}

/// Whether a text is the name of a commit in full.
pub open spec fn is_commit(text: Seq<char>) -> bool {
    byte_length(text) == 40 && forall|i: int|
        0 <= i < text.len() ==> is_hexadecimal(#[trigger] text[i])
}

fn names_commit(text: &str) -> (result: bool)
    ensures
        result == is_commit(text@),
{
    if utf8_length(text) != 40 {
        return false;
    }
    let chars = crate::text::chars_of(text);
    let mut at: usize = 0;
    while at < chars.len()
        invariant
            chars@ == text@,
            byte_length(text@) == 40,
            at <= chars.len(),
            forall|i: int| 0 <= i < at ==> is_hexadecimal(#[trigger] text@[i]),
        decreases chars.len() - at,
    {
        let c = chars[at];
        if !('0' <= c && c <= '9' || 'a' <= c && c <= 'f' || 'A' <= c && c <= 'F') {
            proof {
                assert(!is_hexadecimal(text@[at as int]));
            }
            return false;
        }
        at = at + 1;
    }
    true
}

/// Whether the period that toolchains are verified for is none.
pub open spec fn bad_window(manifest: SupportManifestView) -> bool {
    manifest.window_days != WINDOW_DAYS || byte_length(manifest.window_start) != 10 || byte_length(
        manifest.verified_on,
    ) != 10 || comes_after(manifest.window_start, manifest.verified_on)
}

/// Whether a date is in the period that toolchains are verified for.
pub open spec fn in_window(manifest: SupportManifestView, date: Seq<char>) -> bool {
    !comes_after(manifest.window_start, date) && !comes_after(date, manifest.verified_on)
}

/// Whether a toolchain is a stable release of the period that toolchains are verified for.
pub open spec fn is_stable(manifest: SupportManifestView, toolchain: SupportedToolchainView) -> bool {
    toolchain.kind == "stable"@ && match toolchain.release_date {
        Some(date) => in_window(manifest, date),
        None => false,
    }
}

/// Whether a toolchain was made in development.
pub open spec fn is_development(toolchain: SupportedToolchainView) -> bool {
    toolchain.kind == "development"@ && toolchain.release_date is None
}

/// The version of the last stable release among the first toolchains.
pub open spec fn last_stable(manifest: SupportManifestView, count: int) -> Option<ReleaseVersion>
    decreases count,
{
    if count <= 0 {
        None
    } else if is_stable(manifest, manifest.toolchains[count - 1]) {
        version_of(manifest.toolchains[count - 1].release)
    } else {
        last_stable(manifest, count - 1)
    }
}

/// Whether the release of a toolchain is named before it.
pub open spec fn release_repeats(toolchains: Seq<SupportedToolchainView>, place: int) -> bool {
    exists|i: int|
        0 <= i < place && #[trigger] toolchains[i].release == toolchains[place].release
}

/// What is wrong with a toolchain.
pub open spec fn toolchain_error(manifest: SupportManifestView, place: int) -> Option<Seq<char>> {
    let toolchain = manifest.toolchains[place];
    if release_repeats(manifest.toolchains, place) {
        Some("rustc support manifest repeats release "@ + toolchain.release)
    } else if version_of(toolchain.release) is None {
        Some(invalid_release(toolchain.release))
    } else if !is_commit(toolchain.commit_hash) || byte_length(toolchain.commit_date) != 10 {
        Some("rustc support manifest has an invalid identity for "@ + toolchain.release)
    } else if is_stable(manifest, toolchain) {
        match last_stable(manifest, place) {
            Some(previous) => if is_older(previous, version_of(toolchain.release)->0) {
                None
            } else {
                Some(
                    "rustc support manifest stable releases are not numerically sorted at "@
                        + toolchain.release,
                )
            },
            None => None,
        }
    } else if is_development(toolchain) {
        None
    } else {
        Some("rustc support manifest has invalid release provenance for "@ + toolchain.release)
    }
}

/// What is wrong with a list of toolchains.
pub open spec fn manifest_error(manifest: SupportManifestView) -> Option<Seq<char>> {
    if bad_window(manifest) {
        Some("rustc support manifest has an invalid verification window"@)
    } else if manifest.verified_host.len() == 0 {
        Some("rustc support manifest has no verified host"@)
    } else {
        first_error(
            manifest.toolchains.len() as int,
            |i: int| toolchain_error(manifest, i),
            0,
        )
    }
}

fn about(text: &str, release: &str) -> (message: String)
    ensures
        message@ == text@ + release@,
{
    let mut message = text.to_owned();
    message.append(release);
    message
}

fn repeats_release(toolchains: &Vec<SupportedToolchain>, place: usize) -> (result: bool)
    requires
        place < toolchains.len(),
    ensures
        result == release_repeats(toolchains.deep_view(), place as int),
{
    let ghost all = toolchains.deep_view();
    let mut at: usize = 0;
    while at < place
        invariant
            all == toolchains.deep_view(),
            at <= place < toolchains.len(),
            forall|i: int| 0 <= i < at ==> #[trigger] all[i].release != all[place as int].release,
        decreases place - at,
    {
        proof {
            assert(all[at as int] == toolchains[at as int].deep_view());
            assert(all[place as int] == toolchains[place as int].deep_view());
        }
        if same(toolchains[at].release.as_str(), toolchains[place].release.as_str()) {
            proof {
                assert(all[at as int].release == all[place as int].release);
            }
            return true;
        }
        at = at + 1;
    }
    false
}

impl SupportManifest {
    fn dates_in_window(&self, date: &String) -> (result: bool)
        ensures
            result == in_window(self.deep_view(), date@),
    {
        !is_after(&self.window_start, date) && !is_after(date, &self.verified_on)
    }

    fn stable(&self, toolchain: &SupportedToolchain) -> (result: bool)
        ensures
            result == is_stable(self.deep_view(), toolchain.deep_view()),
    {
        same(toolchain.kind.as_str(), "stable") && match &toolchain.release_date {
            Some(date) => self.dates_in_window(date),
            None => false,
        }
    }

    /// Checks the list: the period is a year, and each toolchain is named once, by a release with
    /// three numbers and the commit it was built from; stable releases are of that period and come
    /// in the order of their numbers.
    pub fn validate(&self) -> (result: Result<(), String>)
        ensures
            reports(result, manifest_error(self.deep_view())),
    {
        let ghost told = self.deep_view();
        let ghost complaint = |i: int| toolchain_error(told, i);
        if self.window_days != WINDOW_DAYS || utf8_length(self.window_start.as_str()) != 10
            || utf8_length(self.verified_on.as_str()) != 10 || is_after(
            &self.window_start,
            &self.verified_on,
        ) {
            return Err("rustc support manifest has an invalid verification window".to_owned());
        }
        proof {
            reveal_strlit("");
            if self.verified_host@.len() == 0 {
                assert(self.verified_host@ =~= ""@);
            }
        }
        if same(self.verified_host.as_str(), "") {
            return Err("rustc support manifest has no verified host".to_owned());
        }
        let mut previous: Option<ReleaseVersion> = None;
        let mut at: usize = 0;
        while at < self.toolchains.len()
            invariant
                told == self.deep_view(),
                complaint == |i: int| toolchain_error(told, i),
                !bad_window(told),
                told.verified_host.len() > 0,
                at <= told.toolchains.len() == self.toolchains.len(),
                previous == last_stable(told, at as int),
                manifest_error(told) == first_error(
                    told.toolchains.len() as int,
                    complaint,
                    at as int,
                ),
            decreases told.toolchains.len() - at,
        {
            let toolchain = &self.toolchains[at];
            let release = toolchain.release.as_str();
            proof {
                assert(told.toolchains[at as int] == toolchain.deep_view());
                assert(complaint(at as int) == toolchain_error(told, at as int));
            }
            if repeats_release(&self.toolchains, at) {
                return Err(about("rustc support manifest repeats release ", release));
            }
            let version = match release_version(release) {
                Ok(version) => version,
                Err(message) => return Err(message),
            };
            if !names_commit(toolchain.commit_hash.as_str()) || utf8_length(
                toolchain.commit_date.as_str(),
            ) != 10 {
                return Err(about("rustc support manifest has an invalid identity for ", release));
            }
            if self.stable(toolchain) {
                if let Some(before) = previous {
                    if !is_older_than(before, version) {
                        return Err(
                            about(
                                "rustc support manifest stable releases are not numerically sorted at ",
                                release,
                            ),
                        );
                    }
                }
                previous = Some(version);
            } else if !(same(toolchain.kind.as_str(), "development")
                && toolchain.release_date.is_none()) {
                return Err(
                    about("rustc support manifest has invalid release provenance for ", release),
                );
            }
            at = at + 1;
        }
        Ok(())
    }
}

/// Whether a compiler is one of the toolchains, built for the host that they were verified on.
pub open spec fn is_exact(manifest: SupportManifestView, compiler: CompilerIdentityView) -> bool {
    manifest.verified_host == compiler.host && exists|i: int|
        0 <= i < manifest.toolchains.len() && same_build(
            #[trigger] manifest.toolchains[i],
            compiler,
        )
}

/// Whether a compiler was built as a toolchain.
pub open spec fn same_build(
    toolchain: SupportedToolchainView,
    compiler: CompilerIdentityView,
) -> bool {
    toolchain.release == compiler.release && toolchain.commit_hash == compiler.commit_hash
        && toolchain.commit_date == compiler.commit_date
}

/// What is said of a compiler that is none of the toolchains.
pub open spec fn unsupported_message(
    manifest: SupportManifestView,
    compiler: CompilerIdentityView,
) -> Seq<char> {
    "rustc "@ + compiler.release + " ("@ + compiler.commit_hash + " for "@ + compiler.host
        + ") is outside rot-audit's exact compatibility set verified on "@ + manifest.verified_on
        + "; supported compiler releases: "@ + joined(
        collected(
            manifest.toolchains,
            |toolchain: SupportedToolchainView| Some(toolchain.release),
        ),
        ", "@,
    )
}

/// What is wrong with collecting facts with a compiler.
pub open spec fn support_error(
    manifest: SupportManifestView,
    compiler: CompilerIdentityView,
) -> Option<Seq<char>> {
    match manifest_error(manifest) {
        Some(message) => Some(message),
        None => if is_exact(manifest, compiler) {
            None
        } else {
            Some(unsupported_message(manifest, compiler))
        },
    }
}

fn find_build(toolchains: &Vec<SupportedToolchain>, compiler: &CompilerIdentity) -> (found: bool)
    ensures
        found == exists|i: int|
            0 <= i < toolchains.deep_view().len() && same_build(
                #[trigger] toolchains.deep_view()[i],
                compiler.deep_view(),
            ),
{
    let ghost all = toolchains.deep_view();
    let mut at: usize = 0;
    while at < toolchains.len()
        invariant
            all == toolchains.deep_view(),
            at <= all.len(),
            forall|i: int|
                0 <= i < at ==> !same_build(#[trigger] all[i], compiler.deep_view()),
        decreases all.len() - at,
    {
        let toolchain = &toolchains[at];
        proof {
            assert(all[at as int] == toolchain.deep_view());
        }
        if same(toolchain.release.as_str(), compiler.release.as_str()) && same(
            toolchain.commit_hash.as_str(),
            compiler.commit_hash.as_str(),
        ) && same(toolchain.commit_date.as_str(), compiler.commit_date.as_str()) {
            return true;
        }
        at = at + 1;
    }
    false
}

fn list_releases(toolchains: &Vec<SupportedToolchain>) -> (list: Vec<String>)
    ensures
        list.deep_view() == collected(
            toolchains.deep_view(),
            |toolchain: SupportedToolchainView| Some(toolchain.release),
        ),
{
    let ghost f = |toolchain: SupportedToolchainView| Some(toolchain.release);
    let pick = |toolchain: &SupportedToolchain| -> (release: Option<String>)
        ensures
            release.deep_view() == f(toolchain.deep_view()),
    {
        Some(toolchain.release.clone())
    };
    collect_items(toolchains, pick, Ghost(f))
}

/// Checks that a compiler is exactly one of the toolchains, on the host that they were verified on.
pub fn validate(manifest: &SupportManifest, compiler: &CompilerIdentity) -> (result: Result<
    (),
    String,
>)
    ensures
        reports(result, support_error(manifest.deep_view(), compiler.deep_view())),
{
    if let Err(message) = manifest.validate() {
        return Err(message);
    }
    if same(manifest.verified_host.as_str(), compiler.host.as_str()) && find_build(
        &manifest.toolchains,
        compiler,
    ) {
        return Ok(());
    }
    let mut message = "rustc ".to_owned();
    message.append(compiler.release.as_str());
    message.append(" (");
    message.append(compiler.commit_hash.as_str());
    message.append(" for ");
    message.append(compiler.host.as_str());
    message.append(") is outside rot-audit's exact compatibility set verified on ");
    message.append(manifest.verified_on.as_str());
    message.append("; supported compiler releases: ");
    message.append(join(&list_releases(&manifest.toolchains), ", ").as_str());
    Err(message)
}

/// A supported compiler differs from every other in nothing that facts depend on: with another
/// host, it is not supported.
pub proof fn law_another_host_is_not_supported(
    manifest: SupportManifestView,
    compiler: CompilerIdentityView,
    other: CompilerIdentityView,
)
    requires
        support_error(manifest, compiler) is None,
        other.host != compiler.host,
    ensures
        support_error(manifest, other) is Some,
{
}

/// Stable releases come in the order of their numbers.
pub proof fn law_stable_releases_are_sorted(manifest: SupportManifestView, i: int, j: int)
    requires
        manifest_error(manifest) is None,
        0 <= i < j < manifest.toolchains.len(),
        is_stable(manifest, manifest.toolchains[i]),
        is_stable(manifest, manifest.toolchains[j]),
    ensures
        is_older(
            version_of(manifest.toolchains[i].release)->0,
            version_of(manifest.toolchains[j].release)->0,
        ),
    decreases j - i,
{
    let complaint = |k: int| toolchain_error(manifest, k);
    crate::collections::lemma_no_error(manifest.toolchains.len() as int, complaint, 0);
    assert(complaint(j) is None);
    assert(complaint(i) is None);
    let k = lemma_last_stable(manifest, i, j);
    assert(complaint(k) is None);
    if i < k {
        law_stable_releases_are_sorted(manifest, i, k);
    }
}

proof fn lemma_last_stable(manifest: SupportManifestView, i: int, count: int) -> (place: int)
    requires
        0 <= i < count <= manifest.toolchains.len(),
        is_stable(manifest, manifest.toolchains[i]),
    ensures
        i <= place < count,
        is_stable(manifest, manifest.toolchains[place]),
        last_stable(manifest, count) == version_of(manifest.toolchains[place].release),
    decreases count,
{
    if is_stable(manifest, manifest.toolchains[count - 1]) {
        count - 1
    } else {
        lemma_last_stable(manifest, i, count - 1)
    }
}

} // verus!
