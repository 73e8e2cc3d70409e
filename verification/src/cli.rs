//! The options of a run.

use vstd::prelude::*;

use crate::compiler::sidecar::reports;
use crate::paths::{portable, portable_path};
use crate::text::{
    cut_last, cut_once, number_upto, parse_number, same, spaces, split_last, split_once, trim,
    trimmed_of,
};

verus! {

/// How a report is written.
#[derive(Clone, Copy, Debug, PartialEq, Eq, Default, Structural)]
pub enum OutputFormat {
    #[default]
    Table,
    Json,
}

impl DeepView for OutputFormat {
    type V = OutputFormat;

    open spec fn deep_view(&self) -> OutputFormat {
        *self
    }
}

/// What is analyzed, and under which configuration.
#[derive(Debug, PartialEq, Eq)]
pub struct CargoSelection {
    pub paths: Vec<String>,
    pub features: Vec<String>,
    pub all_features: bool,
    pub no_default_features: bool,
    pub target: Option<String>,
    /// The conditions that are forced true.
    pub cfg: Vec<String>,
}

/// The model of [`CargoSelection`].
#[verifier::ext_equal]
pub struct CargoSelectionView {
    pub paths: Seq<Seq<char>>,
    pub features: Seq<Seq<char>>,
    pub all_features: bool,
    pub no_default_features: bool,
    pub target: Option<Seq<char>>,
    pub cfg: Seq<Seq<char>>,
}

impl DeepView for CargoSelection {
    type V = CargoSelectionView;

    open spec fn deep_view(&self) -> CargoSelectionView {
        CargoSelectionView {
            paths: self.paths.deep_view(),
            features: self.features.deep_view(),
            all_features: self.all_features,
            no_default_features: self.no_default_features,
            target: self.target.deep_view(),
            cfg: self.cfg.deep_view(),
        }
    }
}

impl Clone for CargoSelection {
    fn clone(&self) -> (copy: Self)
        ensures
            copy.deep_view() == self.deep_view(),
    {
        let copy = CargoSelection {
            paths: self.paths.clone(),
            features: self.features.clone(),
            all_features: self.all_features,
            no_default_features: self.no_default_features,
            target: self.target.clone(),
            cfg: self.cfg.clone(),
        };
        proof {
            assert(copy.paths.deep_view() =~= self.paths.deep_view());
            assert(copy.features.deep_view() =~= self.features.deep_view());
            assert(copy.target.deep_view() =~= self.target.deep_view());
            assert(copy.cfg.deep_view() =~= self.cfg.deep_view());
        }
        copy
    }
}

/// The options of a run over sources.
#[derive(Debug, PartialEq, Eq)]
pub struct FastCli {
    pub cargo: CargoSelection,
    pub format: OutputFormat,
    /// Whether a table lists every file.
    pub files: bool,
    /// Whether JSON leaves the files out.
    pub summary_only: bool,
    /// The commit to compare with.
    pub baseline: Option<String>,
    pub threads: Option<usize>,
    pub exclude_feature: Vec<String>,
    /// The conditions that are forced false.
    pub unset_cfg: Vec<String>,
    pub release: bool,
    pub test_attribute: Vec<String>,
    pub hidden: bool,
    pub no_ignore: bool,
}

/// The model of [`FastCli`].
#[verifier::ext_equal]
pub struct FastCliView {
    pub cargo: CargoSelectionView,
    pub format: OutputFormat,
    pub files: bool,
    pub summary_only: bool,
    pub baseline: Option<Seq<char>>,
    pub threads: Option<usize>,
    pub exclude_feature: Seq<Seq<char>>,
    pub unset_cfg: Seq<Seq<char>>,
    pub release: bool,
    pub test_attribute: Seq<Seq<char>>,
    pub hidden: bool,
    pub no_ignore: bool,
}

impl DeepView for FastCli {
    type V = FastCliView;

    open spec fn deep_view(&self) -> FastCliView {
        FastCliView {
            cargo: self.cargo.deep_view(),
            format: self.format,
            files: self.files,
            summary_only: self.summary_only,
            baseline: self.baseline.deep_view(),
            threads: self.threads,
            exclude_feature: self.exclude_feature.deep_view(),
            unset_cfg: self.unset_cfg.deep_view(),
            release: self.release,
            test_attribute: self.test_attribute.deep_view(),
            hidden: self.hidden,
            no_ignore: self.no_ignore,
        }
    }
}

impl Clone for FastCli {
    fn clone(&self) -> (copy: Self)
        ensures
            copy.deep_view() == self.deep_view(),
    {
        let copy = FastCli {
            cargo: self.cargo.clone(),
            format: self.format,
            files: self.files,
            summary_only: self.summary_only,
            baseline: self.baseline.clone(),
            threads: self.threads,
            exclude_feature: self.exclude_feature.clone(),
            unset_cfg: self.unset_cfg.clone(),
            release: self.release,
            test_attribute: self.test_attribute.clone(),
            hidden: self.hidden,
            no_ignore: self.no_ignore,
        };
        proof {
            assert(copy.cargo.deep_view() =~= self.cargo.deep_view());
            assert(copy.baseline.deep_view() =~= self.baseline.deep_view());
            assert(copy.exclude_feature.deep_view() =~= self.exclude_feature.deep_view());
            assert(copy.unset_cfg.deep_view() =~= self.unset_cfg.deep_view());
            assert(copy.test_attribute.deep_view() =~= self.test_attribute.deep_view());
        }
        copy
    }
}

/// A definition whose consumers are asked for.
#[derive(Debug, PartialEq, Eq)]
pub struct ExplainSelector {
    pub package: String,
    pub definition_path: String,
}

/// The model of [`ExplainSelector`].
#[verifier::ext_equal]
pub struct ExplainSelectorView {
    pub package: Seq<char>,
    pub definition_path: Seq<char>,
}

impl DeepView for ExplainSelector {
    type V = ExplainSelectorView;

    open spec fn deep_view(&self) -> ExplainSelectorView {
        ExplainSelectorView {
            package: self.package.deep_view(),
            definition_path: self.definition_path.deep_view(),
        }
    }
}

impl Clone for ExplainSelector {
    fn clone(&self) -> (copy: Self)
        ensures
            copy.deep_view() == self.deep_view(),
    {
        let copy = ExplainSelector {
            package: self.package.clone(),
            definition_path: self.definition_path.clone(),
        };
        copy
    }
}

/// The place of a definition whose consumers are asked for.
#[derive(Debug, PartialEq, Eq)]
pub struct ExplainLocation {
    pub path: String,
    pub line: u64,
    pub column: u64,
}

/// The model of [`ExplainLocation`].
#[verifier::ext_equal]
pub struct ExplainLocationView {
    pub path: Seq<char>,
    pub line: u64,
    pub column: u64,
}

impl DeepView for ExplainLocation {
    type V = ExplainLocationView;

    open spec fn deep_view(&self) -> ExplainLocationView {
        ExplainLocationView {
            path: self.path.deep_view(),
            line: self.line,
            column: self.column,
        }
    }
}

impl Clone for ExplainLocation {
    fn clone(&self) -> (copy: Self)
        ensures
            copy.deep_view() == self.deep_view(),
    {
        let copy = ExplainLocation {
            path: self.path.clone(),
            line: self.line,
            column: self.column,
        };
        copy
    }
}

/// The options of a run over compiler facts.
#[derive(Debug, PartialEq, Eq)]
pub struct AuditCli {
    pub cargo: CargoSelection,
    pub format: OutputFormat,
    pub baseline: Option<String>,
    pub explain: Option<ExplainSelector>,
    pub explain_at: Option<ExplainLocation>,
    pub driver: String,
    pub toolchain: String,
    pub locked: bool,
    pub offline: bool,
    pub scratch_dir: Option<String>,
}

/// The model of [`AuditCli`].
#[verifier::ext_equal]
pub struct AuditCliView {
    pub cargo: CargoSelectionView,
    pub format: OutputFormat,
    pub baseline: Option<Seq<char>>,
    pub explain: Option<ExplainSelectorView>,
    pub explain_at: Option<ExplainLocationView>,
    pub driver: Seq<char>,
    pub toolchain: Seq<char>,
    pub locked: bool,
    pub offline: bool,
    pub scratch_dir: Option<Seq<char>>,
}

impl DeepView for AuditCli {
    type V = AuditCliView;

    open spec fn deep_view(&self) -> AuditCliView {
        AuditCliView {
            cargo: self.cargo.deep_view(),
            format: self.format,
            baseline: self.baseline.deep_view(),
            explain: self.explain.deep_view(),
            explain_at: self.explain_at.deep_view(),
            driver: self.driver.deep_view(),
            toolchain: self.toolchain.deep_view(),
            locked: self.locked,
            offline: self.offline,
            scratch_dir: self.scratch_dir.deep_view(),
        }
    }
}

impl Clone for AuditCli {
    fn clone(&self) -> (copy: Self)
        ensures
            copy.deep_view() == self.deep_view(),
    {
        let copy = AuditCli {
            cargo: self.cargo.clone(),
            format: self.format,
            baseline: self.baseline.clone(),
            explain: self.explain.clone(),
            explain_at: self.explain_at.clone(),
            driver: self.driver.clone(),
            toolchain: self.toolchain.clone(),
            locked: self.locked,
            offline: self.offline,
            scratch_dir: self.scratch_dir.clone(),
        };
        proof {
            assert(copy.cargo.deep_view() =~= self.cargo.deep_view());
            assert(copy.baseline.deep_view() =~= self.baseline.deep_view());
            assert(copy.explain.deep_view() =~= self.explain.deep_view());
            assert(copy.explain_at.deep_view() =~= self.explain_at.deep_view());
            assert(copy.scratch_dir.deep_view() =~= self.scratch_dir.deep_view());
        }
        copy
    }
}

/// How features are selected.
pub open spec fn feature_mode_of(selection: CargoSelectionView, exclusions: bool) -> Seq<char> {
    if selection.all_features {
        if exclusions {
            "all_except"@
        } else {
            "all"@
        }
    } else if selection.no_default_features {
        if selection.features.len() == 0 {
            "none"@
        } else {
            "selected_without_defaults"@
        }
    } else if selection.features.len() == 0 {
        "default"@
    } else {
        "default_plus_selected"@
    }
}

impl CargoSelection {
    /// Says how features are selected.
    pub fn feature_mode(&self, exclusions: bool) -> (mode: &'static str)
        ensures
            mode@ == feature_mode_of(self.deep_view(), exclusions),
    {
        proof {
            assert(self.deep_view().features.len() == self.features.len());
        }
        if self.all_features {
            if exclusions {
                "all_except"
            } else {
                "all"
            }
        } else if self.no_default_features {
            if self.features.len() == 0 {
                "none"
            } else {
                "selected_without_defaults"
            }
        } else if self.features.len() == 0 {
            "default"
        } else {
            "default_plus_selected"
        }
    }
}

/// What is wrong with how a report is asked for.
pub open spec fn output_error(format: OutputFormat, files: bool, summary_only: bool) -> Option<
    Seq<char>,
> {
    if format == OutputFormat::Json && files {
        Some(
            "--files is only valid with table output; JSON includes files unless --summary-only is used"@,
        )
    } else if format == OutputFormat::Table && summary_only {
        Some("--summary-only is only valid with --format json"@)
    } else {
        None
    }
}

/// Checks how a report is asked for.
pub fn validate_fast_output(options: &FastCli) -> (result: Result<(), String>)
    ensures
        reports(
            result,
            output_error(options.format, options.files, options.summary_only),
        ),
{
    if options.format == OutputFormat::Json && options.files {
        Err(
            "--files is only valid with table output; JSON includes files unless --summary-only is used".to_owned(),
        )
    } else if options.format == OutputFormat::Table && options.summary_only {
        Err("--summary-only is only valid with --format json".to_owned())
    } else {
        Ok(())
    }
}

/// A text without the white space at its ends.
pub open spec fn trimmed(text: Seq<char>) -> Seq<char> {
    trimmed_of(text, spaces())
}

/// What is wrong with the name of a definition.
pub open spec fn selector_error(value: Seq<char>) -> Option<Seq<char>> {
    match cut_once(value, ':') {
        None => Some(
            "expected PACKAGE:DEFINITION_PATH, for example rot:rot::compiler::collect"@,
        ),
        Some(parts) => if trimmed(parts.0).len() == 0 || trimmed(parts.1).len() == 0 {
            Some("package and definition path must both be non-empty"@)
        } else if parts.0 != trimmed(parts.0) || parts.1 != trimmed(parts.1) {
            Some("package and definition path must not have surrounding whitespace"@)
        } else {
            None
        },
    }
}

fn is_empty(text: &str) -> (result: bool)
    ensures
        result == (text@.len() == 0),
{
    proof {
        reveal_strlit("");
        if text@.len() == 0 {
            assert(text@ =~= ""@);
        }
    }
    same(text, "")
}

impl ExplainSelector {
    /// Reads a package and the path of a definition in it, with a colon in between.
    pub fn parse(value: &str) -> (result: Result<ExplainSelector, String>)
        ensures
            reports(result, selector_error(value@)),
            result matches Ok(selector) ==> selector.deep_view() == (ExplainSelectorView {
                package: (cut_once(value@, ':')->0).0,
                definition_path: (cut_once(value@, ':')->0).1,
            }),
    {
        let parts = match split_once(value, ':') {
            Some(parts) => parts,
            None => return Err(
                "expected PACKAGE:DEFINITION_PATH, for example rot:rot::compiler::collect".to_owned(),
            ),
        };
        let package = trim(parts.0.as_str());
        let definition_path = trim(parts.1.as_str());
        if is_empty(package.as_str()) || is_empty(definition_path.as_str()) {
            return Err("package and definition path must both be non-empty".to_owned());
        }
        if !same(parts.0.as_str(), package.as_str()) || !same(
            parts.1.as_str(),
            definition_path.as_str(),
        ) {
            return Err(
                "package and definition path must not have surrounding whitespace".to_owned(),
            );
        }
        Ok(ExplainSelector { package: parts.0, definition_path: parts.1 })
    }
}

/// The parts of a place: its path, line and column.
pub open spec fn location_parts(value: Seq<char>) -> Option<(Seq<char>, Seq<char>, Seq<char>)> {
    match cut_last(value, ':') {
        Some(outer) => match cut_last(outer.0, ':') {
            Some(inner) => Some((inner.0, inner.1, outer.1)),
            None => None,
        },
        None => None,
    }
}

/// What is wrong with a place.
pub open spec fn location_error(value: Seq<char>) -> Option<Seq<char>> {
    match location_parts(value) {
        None => Some("expected PATH:LINE:COLUMN"@),
        Some(parts) => match number_upto(parts.1, u64::MAX as nat) {
            None => Some("LINE must be a positive integer"@),
            Some(line) => match number_upto(parts.2, u64::MAX as nat) {
                None => Some("COLUMN must be a positive integer"@),
                Some(column) => if parts.0.len() == 0 || line == 0 || column == 0 {
                    Some("PATH must be non-empty and LINE/COLUMN must be positive"@)
                } else {
                    None
                },
            },
        },
    }
}

impl ExplainLocation {
    /// Reads a path, a line and a column, with colons in between.
    pub fn parse(value: &str) -> (result: Result<ExplainLocation, String>)
        ensures
            reports(result, location_error(value@)),
            result matches Ok(location) ==> {
                let parts = location_parts(value@)->0;
                &&& location.path@ == portable_path(parts.0)
                &&& number_upto(parts.1, u64::MAX as nat) == Some(location.line as nat)
                &&& number_upto(parts.2, u64::MAX as nat) == Some(location.column as nat)
            },
    {
        let outer = match split_last(value, ':') {
            Some(outer) => outer,
            None => return Err("expected PATH:LINE:COLUMN".to_owned()),
        };
        let inner = match split_last(outer.0.as_str(), ':') {
            Some(inner) => inner,
            None => return Err("expected PATH:LINE:COLUMN".to_owned()),
        };
        let line = match parse_number(inner.1.as_str(), u64::MAX) {
            Some(line) => line,
            None => return Err("LINE must be a positive integer".to_owned()),
        };
        let column = match parse_number(outer.1.as_str(), u64::MAX) {
            Some(column) => column,
            None => return Err("COLUMN must be a positive integer".to_owned()),
        };
        if is_empty(inner.0.as_str()) || line == 0 || column == 0 {
            return Err("PATH must be non-empty and LINE/COLUMN must be positive".to_owned());
        }
        Ok(ExplainLocation { path: portable(inner.0.as_str()), line, column })
    }
}

/// How a run ends: it fails on an error or a diagnostic, but not where nobody reads its output any
/// more.
pub open spec fn run_fails(outcome: Result<bool, bool>) -> bool {
    match outcome {
        Ok(has_diagnostics) => has_diagnostics,
        Err(reader_gone) => !reader_gone,
    }
}

/// Decides how a run ends, by whether it has diagnostics or, where it failed, by whether that was
/// for want of a reader.
pub fn exit_fails(outcome: Result<bool, bool>) -> (fails: bool)
    ensures
        fails == run_fails(outcome),
{
    match outcome {
        Ok(has_diagnostics) => has_diagnostics,
        Err(reader_gone) => !reader_gone,
    }
}

} // verus!
