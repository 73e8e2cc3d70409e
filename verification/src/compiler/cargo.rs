//! What Cargo reports of a build.

use vstd::prelude::*;

use crate::order::{Ordered, Rank};
use crate::text::list_contains;

verus! {

/// How Cargo says that it compiled a unit.
#[derive(Debug, PartialEq, Eq)]
pub struct CargoProfile {
    pub opt_level: String,
    pub debug_assertions: bool,
    pub overflow_checks: bool,
}

/// The model of [`CargoProfile`].
#[verifier::ext_equal]
pub struct CargoProfileView {
    pub opt_level: Seq<char>,
    pub debug_assertions: bool,
    pub overflow_checks: bool,
}

impl DeepView for CargoProfile {
    type V = CargoProfileView;

    open spec fn deep_view(&self) -> CargoProfileView {
        CargoProfileView {
            opt_level: self.opt_level.deep_view(),
            debug_assertions: self.debug_assertions,
            overflow_checks: self.overflow_checks,
        }
    }
}

impl Clone for CargoProfile {
    fn clone(&self) -> (copy: Self)
        ensures
            copy.deep_view() == self.deep_view(),
    {
        let copy = CargoProfile {
            opt_level: self.opt_level.clone(),
            debug_assertions: self.debug_assertions,
            overflow_checks: self.overflow_checks,
        };
        copy
    }
}

/// What Cargo says that it built.
#[derive(Debug, PartialEq, Eq)]
pub struct CargoArtifact {
    pub package_id: String,
    pub manifest_path: String,
    pub target_name: String,
    pub target_kinds: Vec<String>,
    pub target_crate_types: Vec<String>,
    pub target_source: String,
    pub profile_test: bool,
    pub profile: CargoProfile,
    pub features: Vec<String>,
    pub filenames: Vec<String>,
    pub fresh: bool,
}

/// The model of [`CargoArtifact`].
#[verifier::ext_equal]
pub struct CargoArtifactView {
    pub package_id: Seq<char>,
    pub manifest_path: Seq<char>,
    pub target_name: Seq<char>,
    pub target_kinds: Seq<Seq<char>>,
    pub target_crate_types: Seq<Seq<char>>,
    pub target_source: Seq<char>,
    pub profile_test: bool,
    pub profile: CargoProfileView,
    pub features: Seq<Seq<char>>,
    pub filenames: Seq<Seq<char>>,
    pub fresh: bool,
}

impl DeepView for CargoArtifact {
    type V = CargoArtifactView;

    open spec fn deep_view(&self) -> CargoArtifactView {
        CargoArtifactView {
            package_id: self.package_id.deep_view(),
            manifest_path: self.manifest_path.deep_view(),
            target_name: self.target_name.deep_view(),
            target_kinds: self.target_kinds.deep_view(),
            target_crate_types: self.target_crate_types.deep_view(),
            target_source: self.target_source.deep_view(),
            profile_test: self.profile_test,
            profile: self.profile.deep_view(),
            features: self.features.deep_view(),
            filenames: self.filenames.deep_view(),
            fresh: self.fresh,
        }
    }
}

impl Clone for CargoArtifact {
    fn clone(&self) -> (copy: Self)
        ensures
            copy.deep_view() == self.deep_view(),
    {
        let copy = CargoArtifact {
            package_id: self.package_id.clone(),
            manifest_path: self.manifest_path.clone(),
            target_name: self.target_name.clone(),
            target_kinds: self.target_kinds.clone(),
            target_crate_types: self.target_crate_types.clone(),
            target_source: self.target_source.clone(),
            profile_test: self.profile_test,
            profile: self.profile.clone(),
            features: self.features.clone(),
            filenames: self.filenames.clone(),
            fresh: self.fresh,
        };
        proof {
            assert(copy.target_kinds.deep_view() =~= self.target_kinds.deep_view());
            assert(copy.target_crate_types.deep_view() =~= self.target_crate_types.deep_view());
            assert(copy.profile.deep_view() =~= self.profile.deep_view());
            assert(copy.features.deep_view() =~= self.features.deep_view());
            assert(copy.filenames.deep_view() =~= self.filenames.deep_view());
        }
        copy
    }
}

/// What Cargo says that it failed to build.
#[derive(Debug, PartialEq, Eq)]
pub struct CargoFailure {
    pub package_id: String,
    pub target_name: String,
    pub target_kinds: Vec<String>,
    pub target_crate_types: Vec<String>,
    pub target_source: String,
    pub message: String,
}

/// The model of [`CargoFailure`].
#[verifier::ext_equal]
pub struct CargoFailureView {
    pub package_id: Seq<char>,
    pub target_name: Seq<char>,
    pub target_kinds: Seq<Seq<char>>,
    pub target_crate_types: Seq<Seq<char>>,
    pub target_source: Seq<char>,
    pub message: Seq<char>,
}

impl DeepView for CargoFailure {
    type V = CargoFailureView;

    open spec fn deep_view(&self) -> CargoFailureView {
        CargoFailureView {
            package_id: self.package_id.deep_view(),
            target_name: self.target_name.deep_view(),
            target_kinds: self.target_kinds.deep_view(),
            target_crate_types: self.target_crate_types.deep_view(),
            target_source: self.target_source.deep_view(),
            message: self.message.deep_view(),
        }
    }
}

impl Clone for CargoFailure {
    fn clone(&self) -> (copy: Self)
        ensures
            copy.deep_view() == self.deep_view(),
    {
        let copy = CargoFailure {
            package_id: self.package_id.clone(),
            target_name: self.target_name.clone(),
            target_kinds: self.target_kinds.clone(),
            target_crate_types: self.target_crate_types.clone(),
            target_source: self.target_source.clone(),
            message: self.message.clone(),
        };
        proof {
            assert(copy.target_kinds.deep_view() =~= self.target_kinds.deep_view());
            assert(copy.target_crate_types.deep_view() =~= self.target_crate_types.deep_view());
        }
        copy
    }
}

/// What Cargo says that a build script left.
#[derive(Debug, PartialEq, Eq)]
pub struct BuildScriptOutput {
    pub package_id: String,
    pub out_dir: String,
    pub cfg: Vec<String>,
}

/// The model of [`BuildScriptOutput`].
#[verifier::ext_equal]
pub struct BuildScriptOutputView {
    pub package_id: Seq<char>,
    pub out_dir: Seq<char>,
    pub cfg: Seq<Seq<char>>,
}

impl DeepView for BuildScriptOutput {
    type V = BuildScriptOutputView;

    open spec fn deep_view(&self) -> BuildScriptOutputView {
        BuildScriptOutputView {
            package_id: self.package_id.deep_view(),
            out_dir: self.out_dir.deep_view(),
            cfg: self.cfg.deep_view(),
        }
    }
}

impl Clone for BuildScriptOutput {
    fn clone(&self) -> (copy: Self)
        ensures
            copy.deep_view() == self.deep_view(),
    {
        let copy = BuildScriptOutput {
            package_id: self.package_id.clone(),
            out_dir: self.out_dir.clone(),
            cfg: self.cfg.clone(),
        };
        proof {
            assert(copy.cfg.deep_view() =~= self.cfg.deep_view());
        }
        copy
    }
}

/// Ordered field by field.
impl Ordered for BuildScriptOutput {
    open spec fn precedes(a: BuildScriptOutputView, b: BuildScriptOutputView) -> bool {
        <(String, (String, Vec<String>)) as Ordered>::precedes(
            (a.package_id, (a.out_dir, a.cfg)),
            (b.package_id, (b.out_dir, b.cfg)),
        )
    }

    proof fn irreflexive(a: BuildScriptOutputView) {
        <(String, (String, Vec<String>)) as Ordered>::irreflexive((a.package_id, (a.out_dir, a.cfg)));
    }

    proof fn transitive(a: BuildScriptOutputView, b: BuildScriptOutputView, c: BuildScriptOutputView) {
        <(String, (String, Vec<String>)) as Ordered>::transitive(
            (a.package_id, (a.out_dir, a.cfg)),
            (b.package_id, (b.out_dir, b.cfg)),
            (c.package_id, (c.out_dir, c.cfg)),
        );
    }

    proof fn total(a: BuildScriptOutputView, b: BuildScriptOutputView) {
        <(String, (String, Vec<String>)) as Ordered>::total((a.package_id, (a.out_dir, a.cfg)), (b.package_id, (b.out_dir, b.cfg)));
    }

    fn rank(&self, other: &Self) -> (rank: Rank) {
        match self.package_id.rank(&other.package_id) {
            Rank::Equal => {
                match self.out_dir.rank(&other.out_dir) {
                    Rank::Equal => {
                        self.cfg.rank(&other.cfg)
                    },
                    decided => decided,
                }
            },
            decided => decided,
        }
    }
}

/// What Cargo said in one run.
#[derive(Debug, PartialEq, Eq)]
pub struct CargoRun {
    /// Whether Cargo ended well.
    pub success: bool,
    /// Whether the build ended well, as far as Cargo said.
    pub build_finished: Option<bool>,
    pub artifacts: Vec<CargoArtifact>,
    pub failures: Vec<CargoFailure>,
    pub build_script_outputs: Vec<BuildScriptOutput>,
    pub stderr: String,
    pub text_lines: Vec<String>,
}

/// The model of [`CargoRun`].
#[verifier::ext_equal]
pub struct CargoRunView {
    pub success: bool,
    pub build_finished: Option<bool>,
    pub artifacts: Seq<CargoArtifactView>,
    pub failures: Seq<CargoFailureView>,
    pub build_script_outputs: Seq<BuildScriptOutputView>,
    pub stderr: Seq<char>,
    pub text_lines: Seq<Seq<char>>,
}

impl DeepView for CargoRun {
    type V = CargoRunView;

    open spec fn deep_view(&self) -> CargoRunView {
        CargoRunView {
            success: self.success,
            build_finished: self.build_finished,
            artifacts: self.artifacts.deep_view(),
            failures: self.failures.deep_view(),
            build_script_outputs: self.build_script_outputs.deep_view(),
            stderr: self.stderr.deep_view(),
            text_lines: self.text_lines.deep_view(),
        }
    }
}

impl Clone for CargoRun {
    fn clone(&self) -> (copy: Self)
        ensures
            copy.deep_view() == self.deep_view(),
    {
        let copy = CargoRun {
            success: self.success,
            build_finished: self.build_finished,
            artifacts: self.artifacts.clone(),
            failures: self.failures.clone(),
            build_script_outputs: self.build_script_outputs.clone(),
            stderr: self.stderr.clone(),
            text_lines: self.text_lines.clone(),
        };
        proof {
            assert(copy.artifacts.deep_view() =~= self.artifacts.deep_view());
            assert(copy.failures.deep_view() =~= self.failures.deep_view());
            assert(copy.build_script_outputs.deep_view() =~= self.build_script_outputs.deep_view());
            assert(copy.text_lines.deep_view() =~= self.text_lines.deep_view());
        }
        copy
    }
}

/// What an artifact is for, by the kinds of its target and the profile that it was built with.
pub open spec fn artifact_role(kinds: Seq<Seq<char>>, profile_test: bool) -> Seq<char> {
    if kinds.contains("test"@) {
        "test"@
    } else if kinds.contains("bench"@) {
        "bench"@
    } else if profile_test {
        "unit_test"@
    } else if kinds.contains("example"@) {
        "example"@
    } else if kinds.contains("custom-build"@) {
        "build"@
    } else {
        "production"@
    }
}

impl CargoArtifact {
    /// What the artifact is for.
    pub fn role(&self) -> (role: &'static str)
        ensures
            role@ == artifact_role(self.target_kinds.deep_view(), self.profile_test),
    {
        if list_contains(&self.target_kinds, "test") {
            "test"
        } else if list_contains(&self.target_kinds, "bench") {
            "bench"
        } else if self.profile_test {
            "unit_test"
        } else if list_contains(&self.target_kinds, "example") {
            "example"
        } else if list_contains(&self.target_kinds, "custom-build") {
            "build"
        } else {
            "production"
        }
    }
}

} // verus!
