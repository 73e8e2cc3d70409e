//! How the counts of a project have changed since a commit.

use vstd::prelude::*;

use crate::analyze::role_at;
use crate::collections::{
    ascending, assemble, assembled, collect_items, collected, count_items, count_where, first_error,
    lemma_collected_member, no_items, push_item, second, stable_sort, stable_sorted, take_second,
    SortedMap, SortedSet,
};
use crate::compiler::sidecar::reports;
use crate::model::{
    bucket_of, declared_public_sum, BucketReport, Diagnostic, DiagnosticView, FileReport,
    FileReportView, OutputRole, ProfileReport, ProfileReportView, Report, ReportView,
    SelectionReport, SelectionReportView, SourceMetrics,
};
use crate::paths::{path_below, path_from, portable, portable_path, resolve, strip_base};
use crate::text::{contains_part, holds_part, replace_all, replaced};

verus! {

/// How a count has changed.
#[derive(Clone, Copy, Debug, PartialEq, Eq, Structural)]
pub struct Change {
    pub before: u64,
    pub after: u64,
    pub delta: i128,
}

impl DeepView for Change {
    type V = Change;

    open spec fn deep_view(&self) -> Change {
        *self
    }
}

/// How all counts have changed.
#[derive(Clone, Copy, Debug, PartialEq, Eq, Structural)]
pub struct MetricChanges {
    pub files: Change,
    pub bytes: Change,
    pub physical: Change,
    pub code: Change,
    pub comments: Change,
    pub docs: Change,
    pub blank: Change,
    pub lexical_complexity: Change,
    pub cyclomatic_authored: Change,
    pub cognitive_authored: Change,
    pub declared_public: Change,
}

impl DeepView for MetricChanges {
    type V = MetricChanges;

    open spec fn deep_view(&self) -> MetricChanges {
        *self
    }
}

/// How the counts of one role have changed.
#[derive(Clone, Copy, Debug, PartialEq, Eq, Structural)]
pub struct RoleMetricChanges {
    pub files: Change,
    pub physical: Change,
    pub code: Change,
    pub comments: Change,
    pub docs: Change,
    pub blank: Change,
    pub lexical_complexity: Change,
    pub cyclomatic_authored: Change,
    pub cognitive_authored: Change,
    pub declared_public: Change,
}

impl DeepView for RoleMetricChanges {
    type V = RoleMetricChanges;

    open spec fn deep_view(&self) -> RoleMetricChanges {
        *self
    }
}

/// A role, and how its counts have changed.
#[derive(Clone, Copy, Debug, PartialEq, Eq, Structural)]
pub struct RoleChanges {
    pub role: OutputRole,
    pub metrics: RoleMetricChanges,
}

impl DeepView for RoleChanges {
    type V = RoleChanges;

    open spec fn deep_view(&self) -> RoleChanges {
        *self
    }
}

/// One side of a comparison.
#[derive(Debug, PartialEq, Eq)]
pub struct Endpoint {
    pub kind: String,
    pub revision: Option<String>,
    pub commit: String,
    pub dirty: Option<bool>,
    pub profile: ProfileReport,
    pub diagnostics: Vec<Diagnostic>,
}

/// The model of [`Endpoint`].
#[verifier::ext_equal]
pub struct EndpointView {
    pub kind: Seq<char>,
    pub revision: Option<Seq<char>>,
    pub commit: Seq<char>,
    pub dirty: Option<bool>,
    pub profile: ProfileReportView,
    pub diagnostics: Seq<DiagnosticView>,
}

impl DeepView for Endpoint {
    type V = EndpointView;

    open spec fn deep_view(&self) -> EndpointView {
        EndpointView {
            kind: self.kind.deep_view(),
            revision: self.revision.deep_view(),
            commit: self.commit.deep_view(),
            dirty: self.dirty,
            profile: self.profile.deep_view(),
            diagnostics: self.diagnostics.deep_view(),
        }
    }
}

/// What has become of a file.
#[derive(Clone, Copy, Debug, PartialEq, Eq, Structural)]
pub enum FileStatus {
    Added,
    Deleted,
    Modified,
}

impl DeepView for FileStatus {
    type V = FileStatus;

    open spec fn deep_view(&self) -> FileStatus {
        *self
    }
}

/// The counts of a file.
#[derive(Clone, Copy, Debug, PartialEq, Eq, Structural)]
pub struct FileMetrics {
    pub bytes: u64,
    pub physical: u64,
    pub code: u64,
    pub comments: u64,
    pub docs: u64,
    pub blank: u64,
    pub lexical_complexity: u64,
    pub cyclomatic_authored: u64,
    pub cognitive_authored: u64,
    pub declared_public: u64,
    pub production_code: u64,
    pub test_code: u64,
    pub other_code: u64,
}

impl DeepView for FileMetrics {
    type V = FileMetrics;

    open spec fn deep_view(&self) -> FileMetrics {
        *self
    }
}

/// A file whose counts have changed.
#[derive(Debug, PartialEq, Eq)]
pub struct FileChange {
    pub path: String,
    pub status: FileStatus,
    pub before: Option<FileMetrics>,
    pub after: Option<FileMetrics>,
    pub metrics: MetricChanges,
    pub production_code: Change,
    pub test_code: Change,
    pub other_code: Change,
}

/// The model of [`FileChange`].
#[verifier::ext_equal]
pub struct FileChangeView {
    pub path: Seq<char>,
    pub status: FileStatus,
    pub before: Option<FileMetrics>,
    pub after: Option<FileMetrics>,
    pub metrics: MetricChanges,
    pub production_code: Change,
    pub test_code: Change,
    pub other_code: Change,
}

impl DeepView for FileChange {
    type V = FileChangeView;

    open spec fn deep_view(&self) -> FileChangeView {
        FileChangeView {
            path: self.path.deep_view(),
            status: self.status,
            before: self.before,
            after: self.after,
            metrics: self.metrics,
            production_code: self.production_code,
            test_code: self.test_code,
            other_code: self.other_code,
        }
    }
}

impl Clone for FileChange {
    fn clone(&self) -> (copy: Self)
        ensures
            copy.deep_view() == self.deep_view(),
    {
        let copy = FileChange {
            path: self.path.clone(),
            status: self.status,
            before: self.before,
            after: self.after,
            metrics: self.metrics,
            production_code: self.production_code,
            test_code: self.test_code,
            other_code: self.other_code,
        };
        copy
    }
}

/// How many files have changed.
#[derive(Clone, Copy, Debug, PartialEq, Eq, Structural)]
pub struct ChangedFileCounts {
    pub added: u64,
    pub deleted: u64,
    pub modified: u64,
}

impl DeepView for ChangedFileCounts {
    type V = ChangedFileCounts;

    open spec fn deep_view(&self) -> ChangedFileCounts {
        *self
    }
}

/// How a project has changed.
#[derive(Debug, PartialEq, Eq)]
pub struct Comparison {
    pub root: String,
    pub selection: SelectionReport,
    pub before: Endpoint,
    pub after: Endpoint,
    pub summary: MetricChanges,
    pub buckets: Vec<RoleChanges>,
    pub metric_changed_files: ChangedFileCounts,
    pub files: Vec<FileChange>,
}

/// The model of [`Comparison`].
#[verifier::ext_equal]
pub struct ComparisonView {
    pub root: Seq<char>,
    pub selection: SelectionReportView,
    pub before: EndpointView,
    pub after: EndpointView,
    pub summary: MetricChanges,
    pub buckets: Seq<RoleChanges>,
    pub metric_changed_files: ChangedFileCounts,
    pub files: Seq<FileChangeView>,
}

impl DeepView for Comparison {
    type V = ComparisonView;

    open spec fn deep_view(&self) -> ComparisonView {
        ComparisonView {
            root: self.root.deep_view(),
            selection: self.selection.deep_view(),
            before: self.before.deep_view(),
            after: self.after.deep_view(),
            summary: self.summary,
            buckets: self.buckets.deep_view(),
            metric_changed_files: self.metric_changed_files,
            files: self.files.deep_view(),
        }
    }
}

/// The counts of a project, a role or a file.
#[derive(Clone, Copy, Debug, PartialEq, Eq, Structural)]
pub struct Metrics {
    pub files: u64,
    pub bytes: u64,
    pub physical: u64,
    pub code: u64,
    pub comments: u64,
    pub docs: u64,
    pub blank: u64,
    pub lexical_complexity: u64,
    pub cyclomatic_authored: u64,
    pub cognitive_authored: u64,
    pub declared_public: u64,
}

impl DeepView for Metrics {
    type V = Metrics;

    open spec fn deep_view(&self) -> Metrics {
        *self
    }
}

/// A change between two counts.
pub open spec fn change_between(before: u64, after: u64) -> Change {
    Change { before, after, delta: (after - before) as i128 }
}

/// Whether a count has changed.
pub open spec fn has_changed(change: Change) -> bool {
    change.delta != 0
}

/// How much a count has changed.
pub open spec fn change_size(change: Change) -> nat {
    if change.delta < 0 {
        (0 - change.delta) as nat
    } else {
        change.delta as nat
    }
}

impl Change {
    /// Whether the difference is that of the counts.
    pub open spec fn wf(self) -> bool {
        self.delta == self.after - self.before
    }

    /// The change between two counts.
    pub fn new(before: u64, after: u64) -> (change: Self)
        ensures
            change == change_between(before, after),
            change.wf(),
    {
        Change { before, after, delta: after as i128 - before as i128 }
    }

    /// Whether the count has changed.
    pub fn changed(self) -> (result: bool)
        ensures
            result == has_changed(self),
    {
        self.delta != 0
    }

    fn size(self) -> (size: u128)
        requires
            self.wf(),
        ensures
            size == change_size(self),
            size <= u64::MAX,
    {
        if self.before <= self.after {
            (self.after - self.before) as u128
        } else {
            (self.before - self.after) as u128
        }
    }
}

/// Counts grow by what they shrink by in the other direction, and by nothing where they stay.
pub proof fn law_changes_mirror(before: u64, after: u64)
    ensures
        change_between(before, after).delta == -change_between(after, before).delta,
        change_size(change_between(before, after)) == change_size(change_between(after, before)),
        has_changed(change_between(before, after)) <==> before != after,
        before + change_between(before, after).delta == after,
{
}

/// How all counts have changed between two states.
pub open spec fn changes_between(before: Metrics, after: Metrics) -> MetricChanges {
    MetricChanges {
        files: change_between(before.files, after.files),
        bytes: change_between(before.bytes, after.bytes),
        physical: change_between(before.physical, after.physical),
        code: change_between(before.code, after.code),
        comments: change_between(before.comments, after.comments),
        docs: change_between(before.docs, after.docs),
        blank: change_between(before.blank, after.blank),
        lexical_complexity: change_between(before.lexical_complexity, after.lexical_complexity),
        cyclomatic_authored: change_between(before.cyclomatic_authored, after.cyclomatic_authored),
        cognitive_authored: change_between(before.cognitive_authored, after.cognitive_authored),
        declared_public: change_between(before.declared_public, after.declared_public),
    }
}

impl MetricChanges {
    /// How all counts have changed between two states.
    pub fn between(before: Metrics, after: Metrics) -> (changes: Self)
        ensures
            changes == changes_between(before, after),
    {
        MetricChanges {
            files: Change::new(before.files, after.files),
            bytes: Change::new(before.bytes, after.bytes),
            physical: Change::new(before.physical, after.physical),
            code: Change::new(before.code, after.code),
            comments: Change::new(before.comments, after.comments),
            docs: Change::new(before.docs, after.docs),
            blank: Change::new(before.blank, after.blank),
            lexical_complexity: Change::new(before.lexical_complexity, after.lexical_complexity),
            cyclomatic_authored: Change::new(before.cyclomatic_authored, after.cyclomatic_authored),
            cognitive_authored: Change::new(before.cognitive_authored, after.cognitive_authored),
            declared_public: Change::new(before.declared_public, after.declared_public),
        }
    }

    /// Whether any count has changed.
    pub open spec fn any_changed(self) -> bool {
        has_changed(self.files) || has_changed(self.bytes) || has_changed(self.physical)
            || has_changed(self.code) || has_changed(self.comments) || has_changed(self.docs)
            || has_changed(self.blank) || has_changed(self.lexical_complexity)
            || has_changed(self.cyclomatic_authored) || has_changed(self.cognitive_authored)
            || has_changed(self.declared_public)
    }

    /// Whether any count has changed.
    pub fn changed(&self) -> (result: bool)
        ensures
            result == self.any_changed(),
    {
        self.files.changed() || self.bytes.changed() || self.physical.changed()
            || self.code.changed() || self.comments.changed() || self.docs.changed()
            || self.blank.changed() || self.lexical_complexity.changed()
            || self.cyclomatic_authored.changed() || self.cognitive_authored.changed()
            || self.declared_public.changed()
    }

    /// Whether all differences are those of the counts.
    pub open spec fn wf(self) -> bool {
        self.files.wf() && self.bytes.wf() && self.physical.wf() && self.code.wf()
            && self.comments.wf() && self.docs.wf() && self.blank.wf()
            && self.lexical_complexity.wf() && self.cyclomatic_authored.wf()
            && self.cognitive_authored.wf() && self.declared_public.wf()
    }
}

/// How the counts of a role have changed between two states.
pub open spec fn role_changes_between(before: Metrics, after: Metrics) -> RoleMetricChanges {
    RoleMetricChanges {
        files: change_between(before.files, after.files),
        physical: change_between(before.physical, after.physical),
        code: change_between(before.code, after.code),
        comments: change_between(before.comments, after.comments),
        docs: change_between(before.docs, after.docs),
        blank: change_between(before.blank, after.blank),
        lexical_complexity: change_between(before.lexical_complexity, after.lexical_complexity),
        cyclomatic_authored: change_between(before.cyclomatic_authored, after.cyclomatic_authored),
        cognitive_authored: change_between(before.cognitive_authored, after.cognitive_authored),
        declared_public: change_between(before.declared_public, after.declared_public),
    }
}

impl RoleMetricChanges {
    /// How the counts of a role have changed between two states.
    pub fn between(before: Metrics, after: Metrics) -> (changes: Self)
        ensures
            changes == role_changes_between(before, after),
    {
        RoleMetricChanges {
            files: Change::new(before.files, after.files),
            physical: Change::new(before.physical, after.physical),
            code: Change::new(before.code, after.code),
            comments: Change::new(before.comments, after.comments),
            docs: Change::new(before.docs, after.docs),
            blank: Change::new(before.blank, after.blank),
            lexical_complexity: Change::new(before.lexical_complexity, after.lexical_complexity),
            cyclomatic_authored: Change::new(before.cyclomatic_authored, after.cyclomatic_authored),
            cognitive_authored: Change::new(before.cognitive_authored, after.cognitive_authored),
            declared_public: Change::new(before.declared_public, after.declared_public),
        }
    }
}

impl FileStatus {
    /// The name of the status.
    pub open spec fn name(self) -> Seq<char> {
        match self {
            FileStatus::Added => "added"@,
            FileStatus::Deleted => "deleted"@,
            FileStatus::Modified => "modified"@,
        }
    }

    /// The name of the status.
    pub fn label(self) -> (label: &'static str)
        ensures
            label@ == self.name(),
    {
        match self {
            FileStatus::Added => "added",
            FileStatus::Deleted => "deleted",
            FileStatus::Modified => "modified",
        }
    }
}

/// The counts of a project.
pub open spec fn report_metrics(report: ReportView) -> Metrics {
    Metrics {
        files: report.file_count,
        bytes: report.bytes,
        physical: report.total.physical,
        code: report.total.code,
        comments: report.total.comments,
        docs: report.total.docs,
        blank: report.total.blank,
        lexical_complexity: report.metrics.lexical_complexity,
        cyclomatic_authored: report.metrics.cyclomatic_authored,
        cognitive_authored: report.metrics.cognitive_authored,
        declared_public: declared_public_sum(report.buckets) as u64,
    }
}

/// No counts.
pub open spec fn no_metrics() -> Metrics {
    Metrics {
        files: 0,
        bytes: 0,
        physical: 0,
        code: 0,
        comments: 0,
        docs: 0,
        blank: 0,
        lexical_complexity: 0,
        cyclomatic_authored: 0,
        cognitive_authored: 0,
        declared_public: 0,
    }
}

/// The counts of a role.
pub open spec fn bucket_metrics(bucket: Option<BucketReport>) -> Metrics {
    match bucket {
        Some(bucket) => Metrics {
            files: bucket.files,
            bytes: 0,
            physical: bucket.source.lines.physical,
            code: bucket.source.lines.code,
            comments: bucket.source.lines.comments,
            docs: bucket.source.lines.docs,
            blank: bucket.source.lines.blank,
            lexical_complexity: bucket.source.metrics.lexical_complexity,
            cyclomatic_authored: bucket.source.metrics.cyclomatic_authored,
            cognitive_authored: bucket.source.metrics.cognitive_authored,
            declared_public: bucket.source.declared_public,
        },
        None => no_metrics(),
    }
}

impl Metrics {
    /// The counts of a project.
    pub fn report(report: &Report) -> (metrics: Self)
        requires
            declared_public_sum(report.deep_view().buckets) <= u64::MAX,
        ensures
            metrics == report_metrics(report.deep_view()),
    {
        proof {
            assert(report.buckets.deep_view() =~= report.buckets@);
        }
        let total = SourceMetrics::total(report.total, report.metrics, report.buckets.as_slice());
        Metrics {
            files: report.file_count,
            bytes: report.bytes,
            physical: report.total.physical,
            code: report.total.code,
            comments: report.total.comments,
            docs: report.total.docs,
            blank: report.total.blank,
            lexical_complexity: report.metrics.lexical_complexity,
            cyclomatic_authored: report.metrics.cyclomatic_authored,
            cognitive_authored: report.metrics.cognitive_authored,
            declared_public: total.declared_public,
        }
    }

    /// The counts of a role.
    pub fn bucket(bucket: Option<&BucketReport>) -> (metrics: Self)
        ensures
            metrics == bucket_metrics(bucket.deep_view()),
    {
        match bucket {
            Some(bucket) => Metrics {
                files: bucket.files,
                bytes: 0,
                physical: bucket.source.lines.physical,
                code: bucket.source.lines.code,
                comments: bucket.source.lines.comments,
                docs: bucket.source.lines.docs,
                blank: bucket.source.lines.blank,
                lexical_complexity: bucket.source.metrics.lexical_complexity,
                cyclomatic_authored: bucket.source.metrics.cyclomatic_authored,
                cognitive_authored: bucket.source.metrics.cognitive_authored,
                declared_public: bucket.source.declared_public,
            },
            None => Metrics {
                files: 0,
                bytes: 0,
                physical: 0,
                code: 0,
                comments: 0,
                docs: 0,
                blank: 0,
                lexical_complexity: 0,
                cyclomatic_authored: 0,
                cognitive_authored: 0,
                declared_public: 0,
            },
        }
    }
}

/// The code of a file that is used in a role.
pub open spec fn role_code(file: FileReportView, role: OutputRole) -> u64 {
    match bucket_of(file.buckets, role) {
        Some(bucket) => bucket.source.lines.code,
        None => 0,
    }
}

fn file_role_code(file: &FileReport, role: OutputRole) -> (code: u64)
    ensures
        code == role_code(file.deep_view(), role),
{
    proof {
        assert(file.buckets.deep_view() =~= file.buckets@);
    }
    match role.bucket(file.buckets.as_slice()) {
        Some(bucket) => bucket.source.lines.code,
        None => 0,
    }
}

/// What is left of a count, at least nothing.
pub open spec fn left_of(count: u64, taken: u64) -> u64 {
    if taken >= count {
        0
    } else {
        (count - taken) as u64
    }
}

fn take_off(count: u64, taken: u64) -> (left: u64)
    ensures
        left == left_of(count, taken),
{
    if taken >= count {
        0
    } else {
        count - taken
    }
}

/// The counts of a file.
pub open spec fn file_metrics_of(file: FileReportView) -> FileMetrics {
    let production_code = role_code(file, OutputRole::Production);
    let test_code = role_code(file, OutputRole::Test);
    FileMetrics {
        bytes: file.bytes,
        physical: file.total.physical,
        code: file.total.code,
        comments: file.total.comments,
        docs: file.total.docs,
        blank: file.total.blank,
        lexical_complexity: file.metrics.lexical_complexity,
        cyclomatic_authored: file.metrics.cyclomatic_authored,
        cognitive_authored: file.metrics.cognitive_authored,
        declared_public: declared_public_sum(file.buckets) as u64,
        production_code,
        test_code,
        other_code: left_of(left_of(file.total.code, production_code), test_code),
    }
}

/// Counts a file.
pub fn file_metrics(file: &FileReport) -> (metrics: FileMetrics)
    requires
        declared_public_sum(file.deep_view().buckets) <= u64::MAX,
    ensures
        metrics == file_metrics_of(file.deep_view()),
{
    proof {
        assert(file.buckets.deep_view() =~= file.buckets@);
    }
    let production_code = file_role_code(file, OutputRole::Production);
    let test_code = file_role_code(file, OutputRole::Test);
    let total = SourceMetrics::total(file.total, file.metrics, file.buckets.as_slice());
    FileMetrics {
        bytes: file.bytes,
        physical: file.total.physical,
        code: file.total.code,
        comments: file.total.comments,
        docs: file.total.docs,
        blank: file.total.blank,
        lexical_complexity: file.metrics.lexical_complexity,
        cyclomatic_authored: file.metrics.cyclomatic_authored,
        cognitive_authored: file.metrics.cognitive_authored,
        declared_public: total.declared_public,
        production_code,
        test_code,
        other_code: take_off(take_off(file.total.code, production_code), test_code),
    }
}

/// No counts of a file.
pub open spec fn no_file_metrics() -> FileMetrics {
    FileMetrics {
        bytes: 0,
        physical: 0,
        code: 0,
        comments: 0,
        docs: 0,
        blank: 0,
        lexical_complexity: 0,
        cyclomatic_authored: 0,
        cognitive_authored: 0,
        declared_public: 0,
        production_code: 0,
        test_code: 0,
        other_code: 0,
    }
}

/// The counts of a file that may be missing.
pub open spec fn side_metrics(file: Option<FileReportView>) -> FileMetrics {
    match file {
        Some(file) => file_metrics_of(file),
        None => no_file_metrics(),
    }
}

/// The counts of a file as those of a project with just that file.
pub open spec fn totals_of(file: FileMetrics, present: bool) -> Metrics {
    Metrics {
        files: if present {
            1
        } else {
            0
        },
        bytes: file.bytes,
        physical: file.physical,
        code: file.code,
        comments: file.comments,
        docs: file.docs,
        blank: file.blank,
        lexical_complexity: file.lexical_complexity,
        cyclomatic_authored: file.cyclomatic_authored,
        cognitive_authored: file.cognitive_authored,
        declared_public: file.declared_public,
    }
}

fn file_metric_totals(file: FileMetrics, present: bool) -> (metrics: Metrics)
    ensures
        metrics == totals_of(file, present),
{
    Metrics {
        files: if present {
            1
        } else {
            0
        },
        bytes: file.bytes,
        physical: file.physical,
        code: file.code,
        comments: file.comments,
        docs: file.docs,
        blank: file.blank,
        lexical_complexity: file.lexical_complexity,
        cyclomatic_authored: file.cyclomatic_authored,
        cognitive_authored: file.cognitive_authored,
        declared_public: file.declared_public,
    }
}

/// How a file has changed, where any of its counts has.
pub open spec fn file_change(
    path: Seq<char>,
    before: Option<FileReportView>,
    after: Option<FileReportView>,
) -> Option<FileChangeView> {
    let old_metrics = side_metrics(before);
    let new_metrics = side_metrics(after);
    let metrics = changes_between(
        totals_of(old_metrics, before is Some),
        totals_of(new_metrics, after is Some),
    );
    let production_code = change_between(old_metrics.production_code, new_metrics.production_code);
    let test_code = change_between(old_metrics.test_code, new_metrics.test_code);
    let other_code = change_between(old_metrics.other_code, new_metrics.other_code);
    if metrics.any_changed() || has_changed(production_code) || has_changed(test_code)
        || has_changed(other_code) {
        Some(
            FileChangeView {
                path,
                status: if before is None {
                    FileStatus::Added
                } else if after is None {
                    FileStatus::Deleted
                } else {
                    FileStatus::Modified
                },
                before: match before {
                    Some(_) => Some(old_metrics),
                    None => None,
                },
                after: match after {
                    Some(_) => Some(new_metrics),
                    None => None,
                },
                metrics,
                production_code,
                test_code,
                other_code,
            },
        )
    } else {
        None
    }
}

/// Whether the public declarations of a file that may be missing can be counted.
pub open spec fn countable(file: Option<FileReportView>) -> bool {
    match file {
        Some(file) => declared_public_sum(file.buckets) <= u64::MAX,
        None => true,
    }
}

fn count_side(file: Option<&FileReport>) -> (metrics: FileMetrics)
    requires
        countable(file.deep_view()),
    ensures
        metrics == side_metrics(file.deep_view()),
{
    match file {
        Some(file) => file_metrics(file),
        None => FileMetrics {
            bytes: 0,
            physical: 0,
            code: 0,
            comments: 0,
            docs: 0,
            blank: 0,
            lexical_complexity: 0,
            cyclomatic_authored: 0,
            cognitive_authored: 0,
            declared_public: 0,
            production_code: 0,
            test_code: 0,
            other_code: 0,
        },
    }
}

/// Says how a file has changed, where any of its counts has.
pub fn compare_file(path: &str, before: Option<&FileReport>, after: Option<&FileReport>) -> (change:
    Option<FileChange>)
    requires
        countable(before.deep_view()),
        countable(after.deep_view()),
    ensures
        change.deep_view() == file_change(path@, before.deep_view(), after.deep_view()),
{
    let old_metrics = count_side(before);
    let new_metrics = count_side(after);
    let metrics = MetricChanges::between(
        file_metric_totals(old_metrics, before.is_some()),
        file_metric_totals(new_metrics, after.is_some()),
    );
    let production_code = Change::new(old_metrics.production_code, new_metrics.production_code);
    let test_code = Change::new(old_metrics.test_code, new_metrics.test_code);
    let other_code = Change::new(old_metrics.other_code, new_metrics.other_code);
    if !metrics.changed() && !production_code.changed() && !test_code.changed()
        && !other_code.changed() {
        return None;
    }
    let status = if before.is_none() {
        FileStatus::Added
    } else if after.is_none() {
        FileStatus::Deleted
    } else {
        FileStatus::Modified
    };
    Some(
        FileChange {
            path: path.to_owned(),
            status,
            before: match before {
                Some(_) => Some(old_metrics),
                None => None,
            },
            after: match after {
                Some(_) => Some(new_metrics),
                None => None,
            },
            metrics,
            production_code,
            test_code,
            other_code,
        },
    )
}

/// A file that has not changed is never listed, and one that was added or deleted always is.
pub proof fn law_listed_files_have_changed(path: Seq<char>, file: FileReportView)
    ensures
        file_change(path, Some(file), Some(file)) is None,
        file_change(path, None, Some(file)) is Some,
        file_change(path, Some(file), None) is Some,
{
    assert(has_changed(change_between(0, 1)));
    assert(has_changed(change_between(1, 0)));
}

/// A number whose order is that of another turned around.
pub open spec fn descending(size: nat) -> u128 {
    (u128::MAX - size) as u128
}

/// The order of changed files: those with the most changes first. Code by role counts first, then
/// the other counts, in the order of their weight.
pub open spec fn ranking(file: FileChangeView) -> Seq<u128> {
    seq![
        descending(
            change_size(file.production_code) + change_size(file.test_code) + change_size(
                file.other_code,
            ),
        ),
        descending(change_size(file.metrics.code)),
        descending(change_size(file.metrics.cyclomatic_authored)),
        descending(change_size(file.metrics.cognitive_authored)),
        descending(change_size(file.metrics.declared_public)),
        descending(change_size(file.metrics.lexical_complexity)),
        descending(change_size(file.metrics.physical)),
        descending(change_size(file.metrics.comments)),
        descending(change_size(file.metrics.docs)),
        descending(change_size(file.metrics.blank)),
        descending(change_size(file.metrics.bytes)),
        descending(change_size(file.metrics.files)),
    ]
}

impl FileChangeView {
    /// Whether all differences are those of the counts.
    pub open spec fn wf(self) -> bool {
        self.metrics.wf() && self.production_code.wf() && self.test_code.wf()
            && self.other_code.wf()
    }
}

impl FileChange {
    /// Ranks the change.
    pub fn ranking_key(&self) -> (key: Vec<u128>)
        requires
            self.deep_view().wf(),
        ensures
            key.deep_view() == ranking(self.deep_view()),
    {
        let mut key: Vec<u128> = no_items();
        let churn: u128 = self.production_code.size() + self.test_code.size()
            + self.other_code.size();
        push_item(&mut key, u128::MAX - churn);
        push_item(&mut key, u128::MAX - self.metrics.code.size());
        push_item(&mut key, u128::MAX - self.metrics.cyclomatic_authored.size());
        push_item(&mut key, u128::MAX - self.metrics.cognitive_authored.size());
        push_item(&mut key, u128::MAX - self.metrics.declared_public.size());
        push_item(&mut key, u128::MAX - self.metrics.lexical_complexity.size());
        push_item(&mut key, u128::MAX - self.metrics.physical.size());
        push_item(&mut key, u128::MAX - self.metrics.comments.size());
        push_item(&mut key, u128::MAX - self.metrics.docs.size());
        push_item(&mut key, u128::MAX - self.metrics.blank.size());
        push_item(&mut key, u128::MAX - self.metrics.bytes.size());
        push_item(&mut key, u128::MAX - self.metrics.files.size());
        proof {
            assert(key.deep_view() =~= ranking(self.deep_view()));
        }
        key
    }
}

/// What changed files are ordered by.
pub type FileOrder = (Vec<u128>, String);

/// A changed file with its order.
pub open spec fn ranked_file() -> spec_fn(FileChangeView) -> Option<
    (<FileOrder as DeepView>::V, FileChangeView),
> {
    |file: FileChangeView| Some(((ranking(file), file.path), file))
}

/// The first of some items, at most so many.
pub open spec fn first_items<A>(items: Seq<A>, limit: Option<usize>) -> Seq<A> {
    match limit {
        Some(limit) => if limit < items.len() {
            items.take(limit as int)
        } else {
            items
        },
        None => items,
    }
}

/// The files with the most changes.
pub open spec fn top_files(files: Seq<FileChangeView>, limit: Option<usize>) -> Seq<
    FileChangeView,
> {
    first_items(
        second(stable_sorted::<FileOrder, FileChange>(collected(files, ranked_file()))),
        limit,
    )
}

impl Comparison {
    /// Whether there is anything to be said of either side.
    pub fn has_diagnostics(&self) -> (result: bool)
        ensures
            result == (self.deep_view().before.diagnostics.len() > 0
                || self.deep_view().after.diagnostics.len() > 0),
    {
        proof {
            assert(self.before.diagnostics.deep_view().len() == self.before.diagnostics.len());
            assert(self.after.diagnostics.deep_view().len() == self.after.diagnostics.len());
        }
        self.before.diagnostics.len() > 0 || self.after.diagnostics.len() > 0
    }

    /// Lists the files with the most changes.
    pub fn contributors(&self, limit: Option<usize>) -> (files: Vec<FileChange>)
        requires
            forall|i: int|
                0 <= i < self.deep_view().files.len() ==> (
                #[trigger] self.deep_view().files[i]).wf(),
        ensures
            files.deep_view() == top_files(self.deep_view().files, limit),
    {
        let ghost all = self.files.deep_view();
        let mut entries: Vec<(FileOrder, FileChange)> = no_items();
        let mut at: usize = 0;
        proof {
            assert(all.take(0) =~= Seq::<FileChangeView>::empty());
            assert forall|i: int| 0 <= i < all.len() implies (#[trigger] all[i]).wf() by {
                assert(self.deep_view().files[i].wf());
            }
        }
        while at < self.files.len()
            invariant
                all == self.files.deep_view(),
                forall|i: int| 0 <= i < all.len() ==> (#[trigger] all[i]).wf(),
                at <= all.len(),
                entries.deep_view() == collected(all.take(at as int), ranked_file()),
            decreases all.len() - at,
        {
            proof {
                assert(all[at as int] == self.files[at as int].deep_view());
                crate::collections::lemma_collected_step(all, ranked_file(), at as int);
            }
            let file = &self.files[at];
            let order: FileOrder = (file.ranking_key(), file.path.clone());
            push_item(&mut entries, (order, file.clone()));
            at = at + 1;
        }
        proof {
            assert(all.take(all.len() as int) =~= all);
        }
        let mut files = take_second(stable_sort(entries));
        let ghost sorted = files.deep_view();
        proof {
            assert(sorted.len() == files.len());
        }
        if let Some(limit) = limit {
            if limit < files.len() {
                files.truncate(limit);
                proof {
                    assert(files.deep_view() =~= sorted.take(limit as int));
                }
            }
        }
        files
    }
}

/// The path of a reported file below the root of a comparison.
pub open spec fn compared_path(root: Seq<char>, physical: Seq<char>, path: Seq<char>) -> Option<
    Seq<char>,
> {
    match path_below(path_from(root, path), physical) {
        Some(rest) => Some(portable_path(rest)),
        None => None,
    }
}

/// What is wrong where a reported file is not below the root of a comparison.
pub open spec fn outside_error(report: ReportView, physical: Seq<char>) -> spec_fn(int) -> Option<
    Seq<char>,
> {
    |i: int|
        match compared_path(report.root, physical, report.files[i].path) {
            Some(_) => None,
            None => Some(
                "reported source "@ + path_from(report.root, report.files[i].path)
                    + " is outside comparison root "@ + physical,
            ),
        }
}

/// The reported files, by their paths below the root of a comparison.
pub open spec fn files_by_path(report: ReportView, physical: Seq<char>) -> Map<
    Seq<char>,
    FileReportView,
> {
    assembled(
        Seq::new(
            report.files.len(),
            |i: int|
                (
                    compared_path(report.root, physical, report.files[i].path)->0,
                    report.files[i],
                ),
        ),
    )
}

/// What is wrong where not all reported files are below the root of a comparison.
pub open spec fn index_error(report: ReportView, physical: Seq<char>) -> Option<Seq<char>> {
    first_error(report.files.len() as int, outside_error(report, physical), 0)
}

/// Finds the reported files by their paths below the root of a comparison.
pub fn indexed_files(report: &Report, physical: &str) -> (result: Result<
    SortedMap<String, FileReport>,
    String,
>)
    ensures
        reports(result, index_error(report.deep_view(), physical@)),
        result matches Ok(files) ==> files.wf() && files.deep_view() == files_by_path(
            report.deep_view(),
            physical@,
        ),
{
    let ghost told = report.deep_view();
    let ghost complaint = outside_error(told, physical@);
    let ghost pairs = Seq::new(
        told.files.len(),
        |i: int|
            (compared_path(told.root, physical@, told.files[i].path)->0, told.files[i]),
    );
    let mut entries: Vec<(String, FileReport)> = no_items();
    let mut at: usize = 0;
    while at < report.files.len()
        invariant
            told == report.deep_view(),
            complaint == outside_error(told, physical@),
            pairs == Seq::new(
                told.files.len(),
                |i: int|
                    (compared_path(told.root, physical@, told.files[i].path)->0, told.files[i]),
            ),
            told.files.len() == report.files.len(),
            at <= told.files.len(),
            first_error(told.files.len() as int, complaint, 0) == first_error(
                told.files.len() as int,
                complaint,
                at as int,
            ),
            entries.deep_view() =~= pairs.take(at as int),
        decreases told.files.len() - at,
    {
        let file = &report.files[at];
        proof {
            assert(told.files[at as int] == file.deep_view());
        }
        let absolute = resolve(report.root.as_str(), file.path.as_str());
        match strip_base(absolute.as_str(), physical) {
            Some(rest) => {
                push_item(&mut entries, (portable(rest.as_str()), file.clone()));
            },
            None => {
                let mut message = "reported source ".to_owned();
                message.append(absolute.as_str());
                message.append(" is outside comparison root ");
                message.append(physical);
                return Err(message);
            },
        }
        at = at + 1;
    }
    proof {
        assert(entries.deep_view() =~= pairs);
    }
    Ok(assemble(entries))
}

/// A diagnostic with paths as they are in the real repository.
pub open spec fn relocated(
    diagnostic: DiagnosticView,
    root: Seq<char>,
    physical: Seq<char>,
    logical: Seq<char>,
) -> DiagnosticView {
    DiagnosticView {
        severity: diagnostic.severity,
        path: match diagnostic.path {
            Some(path) => match path_below(path_from(root, path), physical) {
                Some(rest) => Some(portable_path(rest)),
                None => match path_below(path_from(root, path), logical) {
                    Some(rest) => Some(portable_path(rest)),
                    None => Some(path),
                },
            },
            None => None,
        },
        message: replaced(diagnostic.message, physical, logical),
    }
}

/// Diagnostics with paths as they are in the real repository.
pub open spec fn relocated_all(
    diagnostics: Seq<DiagnosticView>,
    root: Seq<char>,
    physical: Seq<char>,
    logical: Seq<char>,
) -> Seq<DiagnosticView> {
    collected(
        diagnostics,
        |diagnostic: DiagnosticView| Some(relocated(diagnostic, root, physical, logical)),
    )
}

fn relocate(diagnostic: &Diagnostic, root: &str, physical: &str, logical: &str) -> (moved:
    Diagnostic)
    ensures
        moved.deep_view() == relocated(diagnostic.deep_view(), root@, physical@, logical@),
{
    Diagnostic {
        severity: diagnostic.severity,
        path: match &diagnostic.path {
            Some(path) => {
                let absolute = resolve(root, path.as_str());
                match strip_base(absolute.as_str(), physical) {
                    Some(rest) => Some(portable(rest.as_str())),
                    None => match strip_base(absolute.as_str(), logical) {
                        Some(rest) => Some(portable(rest.as_str())),
                        None => Some(path.clone()),
                    },
                }
            },
            None => None,
        },
        message: replace_all(diagnostic.message.as_str(), physical, logical),
    }
}

/// Makes diagnostics of a checkout look like those of the real repository.
pub fn normalize_diagnostics(
    diagnostics: &Vec<Diagnostic>,
    root: &str,
    physical: &str,
    logical: &str,
) -> (normal: Vec<Diagnostic>)
    ensures
        normal.deep_view() == relocated_all(
            diagnostics.deep_view(),
            root@,
            physical@,
            logical@,
        ),
{
    let ghost f = |diagnostic: DiagnosticView|
        Some(relocated(diagnostic, root@, physical@, logical@));
    let pick = |diagnostic: &Diagnostic| -> (moved: Option<Diagnostic>)
        ensures
            moved.deep_view() == f(diagnostic.deep_view()),
    {
        Some(relocate(diagnostic, root, physical, logical))
    };
    collect_items(diagnostics, pick, Ghost(f))
}

/// The file of a path, where there is one.
pub open spec fn file_under(files: Map<Seq<char>, FileReportView>, path: Seq<char>) -> Option<
    FileReportView,
> {
    if files.contains_key(path) {
        Some(files[path])
    } else {
        None
    }
}

/// All files whose counts have changed, in the order of their paths.
pub open spec fn changed_files(
    before: Map<Seq<char>, FileReportView>,
    after: Map<Seq<char>, FileReportView>,
) -> Seq<FileChangeView> {
    collected(
        ascending::<String>(before.dom().union(after.dom())),
        |path: Seq<char>| file_change(path, file_under(before, path), file_under(after, path)),
    )
}

/// Nothing has changed from a state to itself: no file is listed, and no count differs.
pub proof fn law_no_changes_from_itself(files: Map<Seq<char>, FileReportView>, metrics: Metrics)
    ensures
        changed_files(files, files).len() == 0,
        !changes_between(metrics, metrics).any_changed(),
{
    if changed_files(files, files).len() > 0 {
        let first = changed_files(files, files)[0];
        assert(changed_files(files, files).contains(first));
        let names = ascending::<String>(files.dom().union(files.dom()));
        let f = |path: Seq<char>| file_change(path, file_under(files, path), file_under(files, path));
        let at = lemma_collected_member(names, f, first);
        match file_under(files, names[at]) {
            Some(file) => law_listed_files_have_changed(names[at], file),
            None => {},
        }
    }
}

/// Whether the public declarations of all files can be counted.
pub open spec fn all_countable(files: Map<Seq<char>, FileReportView>) -> bool {
    forall|path: Seq<char>| #[trigger]
        files.contains_key(path) ==> declared_public_sum(files[path].buckets) <= u64::MAX
}

fn find_file<'a>(files: &'a SortedMap<String, FileReport>, path: &String) -> (found: Option<
    &'a FileReport,
>)
    requires
        files.wf(),
    ensures
        found.deep_view() == file_under(files.deep_view(), path@),
{
    files.get(path)
}

fn list_changed_files(
    before: &SortedMap<String, FileReport>,
    after: &SortedMap<String, FileReport>,
) -> (list: Vec<FileChange>)
    requires
        before.wf(),
        after.wf(),
        all_countable(before.deep_view()),
        all_countable(after.deep_view()),
    ensures
        list.deep_view() == changed_files(before.deep_view(), after.deep_view()),
{
    let ghost old_files = before.deep_view();
    let ghost new_files = after.deep_view();
    let paths = all_paths(before, after);
    let ghost f = |path: Seq<char>|
        file_change(path, file_under(old_files, path), file_under(new_files, path));
    let pick = |path: &String| -> (change: Option<FileChange>)
        requires
            before.wf(),
            after.wf(),
            all_countable(before.deep_view()),
            all_countable(after.deep_view()),
        ensures
            change.deep_view() == f(path.deep_view()),
    {
        compare_file(path.as_str(), find_file(before, path), find_file(after, path))
    };
    collect_items(&paths, pick, Ghost(f))
}

fn add_keys(set: &mut SortedSet<String>, files: &SortedMap<String, FileReport>)
    requires
        old(set).wf(),
        files.wf(),
    ensures
        final(set).wf(),
        final(set).deep_view() == old(set).deep_view().union(files.deep_view().dom()),
{
    let ghost start = set.deep_view();
    let ghost keys = files.key_seq();
    let mut at: usize = 0;
    proof {
        files.lemma_places();
        assert(start.union(keys.take(0).to_set()) =~= start);
    }
    while at < files.len()
        invariant
            files.wf(),
            keys == files.key_seq(),
            set.wf(),
            at <= keys.len(),
            set.deep_view() == start.union(keys.take(at as int).to_set()),
        decreases keys.len() - at,
    {
        let key = files.key_at(at).clone();
        let ghost before = keys.take(at as int).to_set();
        proof {
            crate::collections::lemma_prefix_set(keys, at as int);
            assert(start.union(before).insert(keys[at as int]) =~= start.union(
                before.insert(keys[at as int]),
            ));
        }
        set.insert(key);
        at = at + 1;
    }
    proof {
        assert(keys.take(keys.len() as int) =~= keys);
    }
}

fn all_paths(before: &SortedMap<String, FileReport>, after: &SortedMap<String, FileReport>) -> (list:
    Vec<String>)
    requires
        before.wf(),
        after.wf(),
    ensures
        list.deep_view() == ascending::<String>(
            before.deep_view().dom().union(after.deep_view().dom()),
        ),
{
    let mut paths: SortedSet<String> = SortedSet::new();
    add_keys(&mut paths, before);
    add_keys(&mut paths, after);
    proof {
        assert(Set::<Seq<char>>::empty().union(before.deep_view().dom())
            =~= before.deep_view().dom());
        paths.lemma_seq();
    }
    paths.into_vec()
}

/// Whether a file has a status.
pub open spec fn has_status(status: FileStatus) -> spec_fn(FileChangeView) -> bool {
    |file: FileChangeView| file.status == status
}

/// How many files have changed.
pub open spec fn status_counts(files: Seq<FileChangeView>) -> ChangedFileCounts {
    ChangedFileCounts {
        added: count_where(files, has_status(FileStatus::Added)) as u64,
        deleted: count_where(files, has_status(FileStatus::Deleted)) as u64,
        modified: count_where(files, has_status(FileStatus::Modified)) as u64,
    }
}

fn count_status(files: &Vec<FileChange>, status: FileStatus) -> (count: u64)
    ensures
        count == count_where(files.deep_view(), has_status(status)),
{
    let ghost property = has_status(status);
    let test = |file: &FileChange| -> (result: bool)
        ensures
            result == property(file.deep_view()),
    {
        file.status == status
    };
    count_items(files, test, Ghost(property)) as u64
}

/// How the counts of each role have changed.
pub open spec fn role_changes(before: ReportView, after: ReportView) -> Seq<RoleChanges> {
    Seq::new(
        8,
        |i: int|
            RoleChanges {
                role: role_at(i),
                metrics: role_changes_between(
                    bucket_metrics(bucket_of(before.buckets, role_at(i))),
                    bucket_metrics(bucket_of(after.buckets, role_at(i))),
                ),
            },
    )
}

fn list_role_changes(before: &Report, after: &Report) -> (list: Vec<RoleChanges>)
    ensures
        list.deep_view() == role_changes(before.deep_view(), after.deep_view()),
{
    let ghost told = role_changes(before.deep_view(), after.deep_view());
    let mut list: Vec<RoleChanges> = no_items();
    let mut place: usize = 0;
    proof {
        assert(before.buckets.deep_view() =~= before.buckets@);
        assert(after.buckets.deep_view() =~= after.buckets@);
    }
    while place < 8
        invariant
            told == role_changes(before.deep_view(), after.deep_view()),
            before.deep_view().buckets == before.buckets@,
            after.deep_view().buckets == after.buckets@,
            place <= 8,
            list.deep_view() =~= told.take(place as int),
        decreases 8 - place,
    {
        let role = OutputRole::at(place);
        proof {
            assert(role == role_at(place as int));
        }
        push_item(
            &mut list,
            RoleChanges {
                role,
                metrics: RoleMetricChanges::between(
                    Metrics::bucket(role.bucket(before.buckets.as_slice())),
                    Metrics::bucket(role.bucket(after.buckets.as_slice())),
                ),
            },
        );
        place = place + 1;
    }
    proof {
        assert(list.deep_view() =~= told);
    }
    list
}

/// What is compared: the roots, the commits, and what was selected.
#[derive(Debug, PartialEq, Eq)]
pub struct ComparisonRequest {
    pub repository_root: String,
    /// Where the older state was checked out.
    pub baseline_root: String,
    pub baseline_ref: String,
    pub baseline_commit: String,
    pub current_commit: String,
    pub dirty: bool,
    pub selection: SelectionReport,
}

/// What is wrong where reported files are not below the roots of a comparison.
pub open spec fn comparison_error(
    baseline: ReportView,
    baseline_root: Seq<char>,
    current: ReportView,
    repository_root: Seq<char>,
) -> Option<Seq<char>> {
    match index_error(baseline, baseline_root) {
        Some(message) => Some(message),
        None => index_error(current, repository_root),
    }
}

/// How a project has changed.
pub open spec fn comparison_of(
    request: ComparisonRequest,
    baseline: ReportView,
    current: ReportView,
) -> ComparisonView {
    let root = request.repository_root@;
    let files = changed_files(
        files_by_path(baseline, request.baseline_root@),
        files_by_path(current, root),
    );
    ComparisonView {
        root,
        selection: request.selection.deep_view(),
        before: EndpointView {
            kind: "git"@,
            revision: Some(request.baseline_ref@),
            commit: request.baseline_commit@,
            dirty: None,
            profile: baseline.profile,
            diagnostics: relocated_all(
                baseline.diagnostics,
                baseline.root,
                request.baseline_root@,
                root,
            ),
        },
        after: EndpointView {
            kind: "working_tree"@,
            revision: None,
            commit: request.current_commit@,
            dirty: Some(request.dirty),
            profile: current.profile,
            diagnostics: relocated_all(current.diagnostics, current.root, root, root),
        },
        summary: changes_between(report_metrics(baseline), report_metrics(current)),
        buckets: role_changes(baseline, current),
        metric_changed_files: status_counts(files),
        files,
    }
}

/// Whether all public declarations of a report can be counted.
pub open spec fn report_countable(report: ReportView, physical: Seq<char>) -> bool {
    declared_public_sum(report.buckets) <= u64::MAX && all_countable(
        files_by_path(report, physical),
    )
}

/// Says how a project has changed.
pub fn build_comparison(request: ComparisonRequest, baseline: Report, current: Report) -> (result:
    Result<Comparison, String>)
    requires
        report_countable(baseline.deep_view(), request.baseline_root@),
        report_countable(current.deep_view(), request.repository_root@),
    ensures
        reports(
            result,
            comparison_error(
                baseline.deep_view(),
                request.baseline_root@,
                current.deep_view(),
                request.repository_root@,
            ),
        ),
        result matches Ok(comparison) ==> comparison.deep_view() == comparison_of(
            request,
            baseline.deep_view(),
            current.deep_view(),
        ),
{
    let before_diagnostics = normalize_diagnostics(
        &baseline.diagnostics,
        baseline.root.as_str(),
        request.baseline_root.as_str(),
        request.repository_root.as_str(),
    );
    let after_diagnostics = normalize_diagnostics(
        &current.diagnostics,
        current.root.as_str(),
        request.repository_root.as_str(),
        request.repository_root.as_str(),
    );
    let baseline_files = match indexed_files(&baseline, request.baseline_root.as_str()) {
        Ok(files) => files,
        Err(message) => return Err(message),
    };
    let current_files = match indexed_files(&current, request.repository_root.as_str()) {
        Ok(files) => files,
        Err(message) => return Err(message),
    };
    let files = list_changed_files(&baseline_files, &current_files);
    let counts = ChangedFileCounts {
        added: count_status(&files, FileStatus::Added),
        deleted: count_status(&files, FileStatus::Deleted),
        modified: count_status(&files, FileStatus::Modified),
    };
    let buckets = list_role_changes(&baseline, &current);
    let summary = MetricChanges::between(Metrics::report(&baseline), Metrics::report(&current));
    Ok(
        Comparison {
            root: request.repository_root,
            selection: request.selection,
            before: Endpoint {
                kind: "git".to_owned(),
                revision: Some(request.baseline_ref),
                commit: request.baseline_commit,
                dirty: None,
                profile: baseline.profile,
                diagnostics: before_diagnostics,
            },
            after: Endpoint {
                kind: "working_tree".to_owned(),
                revision: None,
                commit: request.current_commit,
                dirty: Some(request.dirty),
                profile: current.profile,
                diagnostics: after_diagnostics,
            },
            summary,
            buckets,
            metric_changed_files: counts,
            files,
        },
    )
}

/// What is wrong with the name of a commit to compare with.
pub open spec fn baseline_error(reference: Seq<char>) -> Option<Seq<char>> {
    if holds_part(reference, ".."@) {
        Some(
            "--baseline accepts one commit, not a revision range; compare the live working tree with a ref such as HEAD~1"@,
        )
    } else {
        None
    }
}

/// Checks the name of a commit to compare with.
pub fn check_baseline(reference: &str) -> (result: Result<(), String>)
    ensures
        reports(result, baseline_error(reference@)),
{
    if contains_part(reference, "..") {
        Err(
            "--baseline accepts one commit, not a revision range; compare the live working tree with a ref such as HEAD~1".to_owned(),
        )
    } else {
        Ok(())
    }
}

} // verus!
