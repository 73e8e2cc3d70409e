//! Reports on sources, as text.

use std::io::Write;

use vstd::prelude::*;

use crate::analyze::role_at;
use crate::collections::{collect_items, collected, no_items, push_item};
use crate::diff::{
    top_files, Change, Comparison, ComparisonView, FileChange, FileChangeView, MetricChanges,
    RoleChanges,
};
use crate::model::{
    bucket_of, declared_public_sum, BucketReport, Diagnostic, DiagnosticSeverity, DiagnosticView,
    FileReport, FileReportView, OutputRole, Report, ReportView, SelectedPathReport,
    SelectedPathReportView, SelectionReport, SelectionReportView, SourceMetrics,
};
use crate::text::{
    byte_prefix, decimal, decimal_text, join, joined, no_text, take_bytes, write_each, written,
};

verus! {

/// The version of the shape of reports.
pub const SCHEMA_VERSION: u32 = 3;

/// What a report is called that leaves its files out, or lists them.
pub open spec fn detail_of(summary_only: bool) -> Seq<char> {
    if summary_only {
        "summary"@
    } else {
        "files"@
    }
}

/// Names how much a report lists.
pub fn report_detail(summary_only: bool) -> (detail: &'static str)
    ensures
        detail@ == detail_of(summary_only),
{
    if summary_only {
        "summary"
    } else {
        "files"
    }
}

/// A text whose tabs are replaced so that columns stand below each other.
pub uninterp spec fn aligned(text: Seq<char>) -> Seq<char>;

/// Aligns the columns of a text with `tabwriter::TabWriter`, two spaces apart. What comes out
/// depends on the text alone; how wide the columns are is left unsaid.
#[verifier::external_body]
fn align(text: &str) -> (table: String)
    ensures
        table@ == aligned(text@),
{
    let mut writer = tabwriter::TabWriter::new(Vec::new()).padding(2);
    writer.write_all(text.as_bytes()).expect("writing to memory succeeds");
    let table = writer.into_inner().expect("writing to memory succeeds");
    String::from_utf8(table).expect("aligning keeps text valid")
}

/// Cells on a line, separated by tabs.
pub open spec fn row(cells: Seq<Seq<char>>) -> Seq<char> {
    joined(cells, "\t"@) + "\n"@
}

fn write_row(cells: &Vec<String>) -> (text: String)
    ensures
        text@ == row(cells.deep_view()),
{
    let mut text = join(cells, "\t");
    text.append("\n");
    text
}

fn number(value: u64) -> (text: String)
    ensures
        text@ == decimal(value as nat),
{
    decimal_text(value as u128)
}

/// The counts of a role, on a line.
pub open spec fn bucket_row(label: Seq<char>, files: u64, source: SourceMetrics) -> Seq<char> {
    row(
        seq![
            label,
            decimal(files as nat),
            decimal(source.lines.physical as nat),
            decimal(source.lines.code as nat),
            decimal(source.lines.comments as nat),
            decimal(source.lines.docs as nat),
            decimal(source.lines.blank as nat),
            decimal(source.metrics.lexical_complexity as nat),
            decimal(source.metrics.cyclomatic_authored as nat),
            decimal(source.metrics.cognitive_authored as nat),
            decimal(source.declared_public as nat),
        ],
    )
}

fn write_bucket(label: &str, files: u64, source: SourceMetrics) -> (text: String)
    ensures
        text@ == bucket_row(label@, files, source),
{
    let mut cells: Vec<String> = no_items();
    push_item(&mut cells, label.to_owned());
    push_item(&mut cells, number(files));
    push_item(&mut cells, number(source.lines.physical));
    push_item(&mut cells, number(source.lines.code));
    push_item(&mut cells, number(source.lines.comments));
    push_item(&mut cells, number(source.lines.docs));
    push_item(&mut cells, number(source.lines.blank));
    push_item(&mut cells, number(source.metrics.lexical_complexity));
    push_item(&mut cells, number(source.metrics.cyclomatic_authored));
    push_item(&mut cells, number(source.metrics.cognitive_authored));
    push_item(&mut cells, number(source.declared_public));
    proof {
        assert(cells.deep_view() =~= seq![
            label@,
            decimal(files as nat),
            decimal(source.lines.physical as nat),
            decimal(source.lines.code as nat),
            decimal(source.lines.comments as nat),
            decimal(source.lines.docs as nat),
            decimal(source.lines.blank as nat),
            decimal(source.metrics.lexical_complexity as nat),
            decimal(source.metrics.cyclomatic_authored as nat),
            decimal(source.metrics.cognitive_authored as nat),
            decimal(source.declared_public as nat),
        ]);
    }
    write_row(&cells)
}

/// The counts of the first roles, each on a line.
pub open spec fn role_rows(buckets: Seq<BucketReport>, count: int) -> Seq<char>
    decreases count,
{
    if count <= 0 {
        Seq::empty()
    } else {
        let role = role_at(count - 1);
        role_rows(buckets, count - 1) + match bucket_of(buckets, role) {
            Some(bucket) => bucket_row(role.heading(), bucket.files, bucket.source),
            None => Seq::empty(),
        }
    }
}

fn write_roles(buckets: &Vec<BucketReport>) -> (text: String)
    ensures
        text@ == role_rows(buckets.deep_view(), 8),
{
    let ghost all = buckets.deep_view();
    let mut text = no_text();
    let mut place: usize = 0;
    proof {
        assert(all =~= buckets@);
    }
    while place < 8
        invariant
            all == buckets@,
            place <= 8,
            text@ == role_rows(all, place as int),
        decreases 8 - place,
    {
        let role = OutputRole::at(place);
        proof {
            assert(role == role_at(place as int));
        }
        let line = match role.bucket(buckets.as_slice()) {
            Some(bucket) => write_bucket(role.label(), bucket.files, bucket.source),
            None => no_text(),
        };
        text.append(line.as_str());
        place = place + 1;
    }
    text
}

/// The code of a file in a role.
pub open spec fn code_in(file: FileReportView, role: OutputRole) -> u64 {
    match bucket_of(file.buckets, role) {
        Some(bucket) => bucket.source.lines.code,
        None => 0,
    }
}

/// The public declarations of a file in a role.
pub open spec fn public_in(file: FileReportView, role: OutputRole) -> u64 {
    match bucket_of(file.buckets, role) {
        Some(bucket) => bucket.source.declared_public,
        None => 0,
    }
}

/// Whether no more code of a file is in production and tests than there is.
pub open spec fn code_adds_up(file: FileReportView) -> bool {
    code_in(file, OutputRole::Production) + code_in(file, OutputRole::Test) <= file.total.code
}

/// The counts of a file, on a line.
pub open spec fn file_row(file: FileReportView) -> Seq<char> {
    let production = code_in(file, OutputRole::Production);
    let test = code_in(file, OutputRole::Test);
    row(
        seq![
            file.path,
            decimal(file.total.physical as nat),
            decimal(production as nat),
            decimal(test as nat),
            decimal((file.total.code - production - test) as nat),
            decimal(file.metrics.lexical_complexity as nat),
            decimal(file.metrics.cyclomatic_authored as nat),
            decimal(file.metrics.cognitive_authored as nat),
            decimal(public_in(file, OutputRole::Production) as nat),
        ],
    )
}

fn write_file(file: &FileReport) -> (text: String)
    requires
        code_adds_up(file.deep_view()),
    ensures
        text@ == file_row(file.deep_view()),
{
    let ghost told = file.deep_view();
    proof {
        assert(file.buckets.deep_view() =~= file.buckets@);
    }
    let (production, public) = match OutputRole::Production.bucket(file.buckets.as_slice()) {
        Some(bucket) => (bucket.source.lines.code, bucket.source.declared_public),
        None => (0u64, 0u64),
    };
    let test: u64 = match OutputRole::Test.bucket(file.buckets.as_slice()) {
        Some(bucket) => bucket.source.lines.code,
        None => 0,
    };
    let mut cells: Vec<String> = no_items();
    push_item(&mut cells, file.path.clone());
    push_item(&mut cells, number(file.total.physical));
    push_item(&mut cells, number(production));
    push_item(&mut cells, number(test));
    push_item(&mut cells, number(file.total.code - production - test));
    push_item(&mut cells, number(file.metrics.lexical_complexity));
    push_item(&mut cells, number(file.metrics.cyclomatic_authored));
    push_item(&mut cells, number(file.metrics.cognitive_authored));
    push_item(&mut cells, number(public));
    proof {
        let production = code_in(told, OutputRole::Production);
        let test = code_in(told, OutputRole::Test);
        assert(cells.deep_view() =~= seq![
            told.path,
            decimal(told.total.physical as nat),
            decimal(production as nat),
            decimal(test as nat),
            decimal((told.total.code - production - test) as nat),
            decimal(told.metrics.lexical_complexity as nat),
            decimal(told.metrics.cyclomatic_authored as nat),
            decimal(told.metrics.cognitive_authored as nat),
            decimal(public_in(told, OutputRole::Production) as nat),
        ]);
    }
    write_row(&cells)
}

/// The counts of the files, each on a line.
pub open spec fn file_rows(files: Seq<FileReportView>) -> Seq<char> {
    written(files, |file: FileReportView| file_row(file))
}

fn write_files(files: &Vec<FileReport>) -> (text: String)
    requires
        forall|i: int| 0 <= i < files.deep_view().len() ==> code_adds_up(
            #[trigger] files.deep_view()[i],
        ),
    ensures
        text@ == file_rows(files.deep_view()),
{
    let ghost all = files.deep_view();
    let ghost piece = |file: FileReportView| file_row(file);
    let mut text = no_text();
    let mut at: usize = 0;
    proof {
        assert(all.take(0) =~= Seq::<FileReportView>::empty());
    }
    while at < files.len()
        invariant
            all == files.deep_view(),
            piece == |file: FileReportView| file_row(file),
            forall|i: int| 0 <= i < all.len() ==> code_adds_up(#[trigger] all[i]),
            at <= all.len(),
            text@ == written(all.take(at as int), piece),
        decreases all.len() - at,
    {
        proof {
            assert(all[at as int] == files[at as int].deep_view());
            assert(all.take(at as int + 1).drop_last() =~= all.take(at as int));
        }
        text.append(write_file(&files[at]).as_str());
        at = at + 1;
    }
    proof {
        assert(all.take(all.len() as int) =~= all);
    }
    text
}

/// The files of a report, as lines of cells.
pub open spec fn file_section(files: Seq<FileReportView>) -> Seq<char> {
    "\nFile\tLines\tProd LOC\tTest LOC\tOther LOC\tLexical\tCyclomatic\tCognitive\tProd pub\n"@
        + file_rows(files)
}

/// A report, as lines of cells.
pub open spec fn snapshot_lines(report: ReportView, by_file: bool) -> Seq<char> {
    "Role\tFiles\tLines\tCode\tComments\tDocs\tBlank\tLexical\tCyclomatic\tCognitive\tDeclared pub\n"@
        + role_rows(report.buckets, 8) + bucket_row(
        "Total"@,
        report.file_count,
        SourceMetrics {
            lines: report.total,
            metrics: report.metrics,
            declared_public: declared_public_sum(report.buckets) as u64,
        },
    ) + "Role file counts overlap; Total is the number of distinct Rust files.\n"@ + if by_file {
        file_section(report.files)
    } else {
        Seq::empty()
    }
}

/// Writes a report as a table.
pub fn render_snapshot(report: &Report, by_file: bool) -> (text: String)
    requires
        declared_public_sum(report.deep_view().buckets) <= u64::MAX,
        by_file ==> forall|i: int|
            0 <= i < report.deep_view().files.len() ==> code_adds_up(
                #[trigger] report.deep_view().files[i],
            ),
    ensures
        text@ == aligned(snapshot_lines(report.deep_view(), by_file)),
{
    let ghost told = report.deep_view();
    proof {
        assert(report.buckets.deep_view() =~= report.buckets@);
    }
    let total = SourceMetrics::total(report.total, report.metrics, report.buckets.as_slice());
    let files = if by_file {
        proof {
            assert forall|i: int| 0 <= i < report.files.deep_view().len() implies code_adds_up(
                #[trigger] report.files.deep_view()[i],
            ) by {
                assert(code_adds_up(told.files[i]));
            }
        }
        let mut section =
            "\nFile\tLines\tProd LOC\tTest LOC\tOther LOC\tLexical\tCyclomatic\tCognitive\tProd pub\n".to_owned();
        section.append(write_files(&report.files).as_str());
        section
    } else {
        no_text()
    };
    let mut text =
        "Role\tFiles\tLines\tCode\tComments\tDocs\tBlank\tLexical\tCyclomatic\tCognitive\tDeclared pub\n".to_owned();
    text.append(write_roles(&report.buckets).as_str());
    text.append(write_bucket("Total", report.file_count, total).as_str());
    text.append("Role file counts overlap; Total is the number of distinct Rust files.\n");
    text.append(files.as_str());
    align(text.as_str())
}

/// The name of a severity.
pub open spec fn severity_text(severity: DiagnosticSeverity) -> Seq<char> {
    match severity {
        DiagnosticSeverity::Warning => "warning"@,
        DiagnosticSeverity::Error => "error"@,
    }
}

/// A diagnostic, on a line.
pub open spec fn diagnostic_line(prefix: Seq<char>, diagnostic: DiagnosticView) -> Seq<char> {
    "rot: "@ + severity_text(diagnostic.severity) + ": "@ + prefix + (match diagnostic.path {
        Some(path) => path + ": "@,
        None => Seq::empty(),
    }) + diagnostic.message + "\n"@
}

/// Diagnostics, each on a line.
pub open spec fn diagnostic_lines(prefix: Seq<char>, diagnostics: Seq<DiagnosticView>) -> Seq<char> {
    written(diagnostics, |diagnostic: DiagnosticView| diagnostic_line(prefix, diagnostic))
}

fn write_diagnostic(prefix: &str, diagnostic: &Diagnostic) -> (text: String)
    ensures
        text@ == diagnostic_line(prefix@, diagnostic.deep_view()),
{
    let place = match &diagnostic.path {
        Some(path) => {
            let mut place = path.clone();
            place.append(": ");
            place
        },
        None => no_text(),
    };
    let mut text = "rot: ".to_owned();
    match diagnostic.severity {
        DiagnosticSeverity::Warning => text.append("warning"),
        DiagnosticSeverity::Error => text.append("error"),
    }
    text.append(": ");
    text.append(prefix);
    text.append(place.as_str());
    text.append(diagnostic.message.as_str());
    text.append("\n");
    text
}

fn render_diagnostic_list(prefix: &str, diagnostics: &Vec<Diagnostic>) -> (text: String)
    ensures
        text@ == diagnostic_lines(prefix@, diagnostics.deep_view()),
{
    let ghost piece = |diagnostic: DiagnosticView| diagnostic_line(prefix@, diagnostic);
    let write = |diagnostic: &Diagnostic| -> (text: String)
        ensures
            text@ == piece(diagnostic.deep_view()),
    {
        write_diagnostic(prefix, diagnostic)
    };
    write_each(diagnostics, write, Ghost(piece))
}

/// Writes the diagnostics of a report, each on a line.
pub fn render_diagnostics(report: &Report) -> (text: String)
    ensures
        text@ == diagnostic_lines(Seq::empty(), report.deep_view().diagnostics),
{
    proof {
        reveal_strlit("");
        assert(""@ =~= Seq::<char>::empty());
    }
    render_diagnostic_list("", &report.diagnostics)
}

/// Writes the diagnostics of both sides of a comparison, each on a line.
pub fn render_comparison_diagnostics(comparison: &Comparison) -> (text: String)
    ensures
        text@ == diagnostic_lines("baseline: "@, comparison.deep_view().before.diagnostics)
            + diagnostic_lines("working tree: "@, comparison.deep_view().after.diagnostics),
{
    let mut text = render_diagnostic_list("baseline: ", &comparison.before.diagnostics);
    text.append(
        render_diagnostic_list("working tree: ", &comparison.after.diagnostics).as_str(),
    );
    text
}

/// A number with its sign.
pub open spec fn signed(value: int) -> Seq<char> {
    if value < 0 {
        "-"@ + decimal((0 - value) as nat)
    } else {
        "+"@ + decimal(value as nat)
    }
}

fn write_signed(change: Change) -> (text: String)
    requires
        change.wf(),
    ensures
        text@ == signed(change.delta as int),
{
    if change.after < change.before {
        let mut text = "-".to_owned();
        text.append(number(change.before - change.after).as_str());
        text
    } else {
        let mut text = "+".to_owned();
        text.append(number(change.after - change.before).as_str());
        text
    }
}

/// How a relative change is written: as given, else as new where there was nothing before.
pub open spec fn percent_text(change: Change, percent: Option<Seq<char>>) -> Seq<char> {
    match percent {
        Some(percent) => percent,
        None => if change.after > 0 {
            "new"@
        } else {
            "\u{2014}"@
        },
    }
}

/// The counts that are compared, each with its name.
pub open spec fn change_entries(changes: MetricChanges) -> Seq<(Seq<char>, Change)> {
    seq![
        ("Files"@, changes.files),
        ("Bytes"@, changes.bytes),
        ("Lines"@, changes.physical),
        ("Code"@, changes.code),
        ("Comments"@, changes.comments),
        ("Docs"@, changes.docs),
        ("Blank"@, changes.blank),
        ("Lexical"@, changes.lexical_complexity),
        ("Cyclomatic"@, changes.cyclomatic_authored),
        ("Cognitive"@, changes.cognitive_authored),
        ("Declared pub"@, changes.declared_public),
    ]
}

impl MetricChanges {
    /// Lists the counts that are compared, each with its name.
    pub fn entries(&self) -> (entries: Vec<(String, Change)>)
        ensures
            entries.deep_view() == change_entries(*self),
    {
        let mut entries: Vec<(String, Change)> = no_items();
        push_item(&mut entries, ("Files".to_owned(), self.files));
        push_item(&mut entries, ("Bytes".to_owned(), self.bytes));
        push_item(&mut entries, ("Lines".to_owned(), self.physical));
        push_item(&mut entries, ("Code".to_owned(), self.code));
        push_item(&mut entries, ("Comments".to_owned(), self.comments));
        push_item(&mut entries, ("Docs".to_owned(), self.docs));
        push_item(&mut entries, ("Blank".to_owned(), self.blank));
        push_item(&mut entries, ("Lexical".to_owned(), self.lexical_complexity));
        push_item(&mut entries, ("Cyclomatic".to_owned(), self.cyclomatic_authored));
        push_item(&mut entries, ("Cognitive".to_owned(), self.cognitive_authored));
        push_item(&mut entries, ("Declared pub".to_owned(), self.declared_public));
        proof {
            assert(entries.deep_view() =~= change_entries(*self));
        }
        entries
    }
}

/// A count that is compared, on a line.
pub open spec fn change_row(
    label: Seq<char>,
    change: Change,
    percent: Option<Seq<char>>,
) -> Seq<char> {
    row(
        seq![
            label,
            decimal(change.before as nat),
            decimal(change.after as nat),
            signed(change.delta as int),
            percent_text(change, percent),
        ],
    )
}

fn write_change(label: &String, change: Change, percent: &Option<String>) -> (text: String)
    requires
        change.wf(),
    ensures
        text@ == change_row(label@, change, percent.deep_view()),
{
    let shown = match percent {
        Some(percent) => percent.clone(),
        None => if change.after > 0 {
            "new".to_owned()
        } else {
            "\u{2014}".to_owned()
        },
    };
    let mut cells: Vec<String> = no_items();
    push_item(&mut cells, label.clone());
    push_item(&mut cells, number(change.before));
    push_item(&mut cells, number(change.after));
    push_item(&mut cells, write_signed(change));
    push_item(&mut cells, shown);
    proof {
        assert(cells.deep_view() =~= seq![
            label@,
            decimal(change.before as nat),
            decimal(change.after as nat),
            signed(change.delta as int),
            percent_text(change, percent.deep_view()),
        ]);
    }
    write_row(&cells)
}

/// The first counts that are compared, each on a line.
pub open spec fn change_rows(
    entries: Seq<(Seq<char>, Change)>,
    percents: Seq<Option<Seq<char>>>,
    count: int,
) -> Seq<char>
    decreases count,
{
    if count <= 0 {
        Seq::empty()
    } else {
        change_rows(entries, percents, count - 1) + change_row(
            entries[count - 1].0,
            entries[count - 1].1,
            percents[count - 1],
        )
    }
}

fn write_changes(changes: &MetricChanges, percents: &Vec<Option<String>>) -> (text: String)
    requires
        changes.wf(),
        percents.len() == 11,
    ensures
        text@ == change_rows(change_entries(*changes), percents.deep_view(), 11),
{
    let entries = changes.entries();
    let ghost all = change_entries(*changes);
    let mut text = no_text();
    let mut at: usize = 0;
    proof {
        assert(entries.deep_view().len() == entries.len());
    }
    while at < 11
        invariant
            all == entries.deep_view(),
            all == change_entries(*changes),
            entries.len() == 11,
            percents.len() == 11,
            changes.wf(),
            at <= 11,
            text@ == change_rows(all, percents.deep_view(), at as int),
        decreases 11 - at,
    {
        proof {
            assert(all[at as int] == entries[at as int].deep_view());
            assert(percents.deep_view()[at as int] == percents[at as int].deep_view());
            assert(all[at as int].1.wf());
        }
        text.append(write_change(&entries[at].0, entries[at].1, &percents[at]).as_str());
        at = at + 1;
    }
    text
}

/// Whether a role has files or code on either side.
pub open spec fn role_in_use(role: RoleChanges) -> bool {
    role.metrics.files.before != 0 || role.metrics.files.after != 0 || role.metrics.code.before != 0
        || role.metrics.code.after != 0
}

/// How a role has changed, on a line, where it is in use.
pub open spec fn role_change_row(role: RoleChanges) -> Seq<char> {
    if role_in_use(role) {
        row(
            seq![
                role.role.heading(),
                decimal(role.metrics.files.before as nat),
                decimal(role.metrics.files.after as nat),
                signed(role.metrics.files.delta as int),
                decimal(role.metrics.code.before as nat),
                decimal(role.metrics.code.after as nat),
                signed(role.metrics.code.delta as int),
            ],
        )
    } else {
        Seq::empty()
    }
}

/// Whether the differences of a role are those of its counts.
pub open spec fn role_wf(role: RoleChanges) -> bool {
    role.metrics.files.wf() && role.metrics.code.wf()
}

fn write_role_change(role: &RoleChanges) -> (text: String)
    requires
        role_wf(*role),
    ensures
        text@ == role_change_row(*role),
{
    let files = role.metrics.files;
    let code = role.metrics.code;
    if files.before == 0 && files.after == 0 && code.before == 0 && code.after == 0 {
        return no_text();
    }
    let mut cells: Vec<String> = no_items();
    push_item(&mut cells, role.role.label().to_owned());
    push_item(&mut cells, number(files.before));
    push_item(&mut cells, number(files.after));
    push_item(&mut cells, write_signed(files));
    push_item(&mut cells, number(code.before));
    push_item(&mut cells, number(code.after));
    push_item(&mut cells, write_signed(code));
    proof {
        assert(cells.deep_view() =~= seq![
            role.role.heading(),
            decimal(files.before as nat),
            decimal(files.after as nat),
            signed(files.delta as int),
            decimal(code.before as nat),
            decimal(code.after as nat),
            signed(code.delta as int),
        ]);
    }
    write_row(&cells)
}

/// How all roles have changed, each on a line.
pub open spec fn role_change_rows(roles: Seq<RoleChanges>) -> Seq<char> {
    written(roles, |role: RoleChanges| role_change_row(role))
}

fn write_role_changes(roles: &Vec<RoleChanges>) -> (text: String)
    requires
        forall|i: int| 0 <= i < roles.deep_view().len() ==> role_wf(
            #[trigger] roles.deep_view()[i],
        ),
    ensures
        text@ == role_change_rows(roles.deep_view()),
{
    let ghost all = roles.deep_view();
    let ghost piece = |role: RoleChanges| role_change_row(role);
    let mut text = no_text();
    let mut at: usize = 0;
    proof {
        assert(all.take(0) =~= Seq::<RoleChanges>::empty());
    }
    while at < roles.len()
        invariant
            all == roles.deep_view(),
            piece == |role: RoleChanges| role_change_row(role),
            forall|i: int| 0 <= i < all.len() ==> role_wf(#[trigger] all[i]),
            at <= all.len(),
            text@ == written(all.take(at as int), piece),
        decreases all.len() - at,
    {
        proof {
            assert(all[at as int] == roles[at as int]);
            assert(all.take(at as int + 1).drop_last() =~= all.take(at as int));
        }
        text.append(write_role_change(&roles[at]).as_str());
        at = at + 1;
    }
    proof {
        assert(all.take(all.len() as int) =~= all);
    }
    text
}

/// The counts of a file that are compared, each with its name in small letters.
pub open spec fn delta_entries(file: FileChangeView) -> Seq<(Seq<char>, Change)> {
    seq![
        ("files"@, file.metrics.files),
        ("bytes"@, file.metrics.bytes),
        ("lines"@, file.metrics.physical),
        ("code"@, file.metrics.code),
        ("comments"@, file.metrics.comments),
        ("docs"@, file.metrics.docs),
        ("blank"@, file.metrics.blank),
        ("lexical"@, file.metrics.lexical_complexity),
        ("cyclomatic"@, file.metrics.cyclomatic_authored),
        ("cognitive"@, file.metrics.cognitive_authored),
        ("declared pub"@, file.metrics.declared_public),
        ("prod"@, file.production_code),
        ("test"@, file.test_code),
        ("other"@, file.other_code),
    ]
}

/// A count that has changed, with its name.
pub open spec fn delta_text() -> spec_fn((Seq<char>, Change)) -> Option<Seq<char>> {
    |entry: (Seq<char>, Change)|
        if entry.1.delta != 0 {
            Some(entry.0 + " "@ + signed(entry.1.delta as int))
        } else {
            None
        }
}

/// The counts of a file that have changed.
pub open spec fn file_deltas(file: FileChangeView) -> Seq<char> {
    joined(collected(delta_entries(file), delta_text()), ", "@)
}

fn human_file_deltas(file: &FileChange) -> (text: String)
    requires
        file.deep_view().wf(),
    ensures
        text@ == file_deltas(file.deep_view()),
{
    let ghost told = file.deep_view();
    let metrics = &file.metrics;
    let mut entries: Vec<(String, Change)> = no_items();
    push_item(&mut entries, ("files".to_owned(), metrics.files));
    push_item(&mut entries, ("bytes".to_owned(), metrics.bytes));
    push_item(&mut entries, ("lines".to_owned(), metrics.physical));
    push_item(&mut entries, ("code".to_owned(), metrics.code));
    push_item(&mut entries, ("comments".to_owned(), metrics.comments));
    push_item(&mut entries, ("docs".to_owned(), metrics.docs));
    push_item(&mut entries, ("blank".to_owned(), metrics.blank));
    push_item(&mut entries, ("lexical".to_owned(), metrics.lexical_complexity));
    push_item(&mut entries, ("cyclomatic".to_owned(), metrics.cyclomatic_authored));
    push_item(&mut entries, ("cognitive".to_owned(), metrics.cognitive_authored));
    push_item(&mut entries, ("declared pub".to_owned(), metrics.declared_public));
    push_item(&mut entries, ("prod".to_owned(), file.production_code));
    push_item(&mut entries, ("test".to_owned(), file.test_code));
    push_item(&mut entries, ("other".to_owned(), file.other_code));
    let ghost all = entries.deep_view();
    proof {
        assert(all =~= delta_entries(told));
        assert(forall|i: int| 0 <= i < all.len() ==> (#[trigger] all[i]).1.wf());
        assert(all.take(0) =~= Seq::<(Seq<char>, Change)>::empty());
        assert(all.len() == entries.len());
    }
    let mut deltas: Vec<String> = no_items();
    let mut at: usize = 0;
    while at < entries.len()
        invariant
            all == entries.deep_view(),
            forall|i: int| 0 <= i < all.len() ==> (#[trigger] all[i]).1.wf(),
            at <= all.len(),
            deltas.deep_view() == collected(all.take(at as int), delta_text()),
        decreases all.len() - at,
    {
        proof {
            assert(all[at as int] == entries[at as int].deep_view());
            crate::collections::lemma_collected_step(all, delta_text(), at as int);
        }
        let change = entries[at].1;
        if change.delta != 0 {
            let mut delta = entries[at].0.clone();
            delta.append(" ");
            delta.append(write_signed(change).as_str());
            push_item(&mut deltas, delta);
        }
        at = at + 1;
    }
    proof {
        assert(all.take(all.len() as int) =~= all);
    }
    join(&deltas, ", ")
}

/// A changed file, on a line.
pub open spec fn changed_row(file: FileChangeView) -> Seq<char> {
    row(seq![file.path, file.status.name(), file_deltas(file)])
}

/// Changed files, each on a line.
pub open spec fn changed_rows(files: Seq<FileChangeView>) -> Seq<char> {
    written(files, |file: FileChangeView| changed_row(file))
}

fn write_changed_files(files: &Vec<FileChange>) -> (text: String)
    requires
        forall|i: int| 0 <= i < files.deep_view().len() ==> (
        #[trigger] files.deep_view()[i]).wf(),
    ensures
        text@ == changed_rows(files.deep_view()),
{
    let ghost all = files.deep_view();
    let ghost piece = |file: FileChangeView| changed_row(file);
    let mut text = no_text();
    let mut at: usize = 0;
    proof {
        assert(all.take(0) =~= Seq::<FileChangeView>::empty());
    }
    while at < files.len()
        invariant
            all == files.deep_view(),
            piece == |file: FileChangeView| changed_row(file),
            forall|i: int| 0 <= i < all.len() ==> (#[trigger] all[i]).wf(),
            at <= all.len(),
            text@ == written(all.take(at as int), piece),
        decreases all.len() - at,
    {
        proof {
            assert(all[at as int] == files[at as int].deep_view());
            assert(all.take(at as int + 1).drop_last() =~= all.take(at as int));
        }
        let file = &files[at];
        let mut cells: Vec<String> = no_items();
        push_item(&mut cells, file.path.clone());
        push_item(&mut cells, file.status.label().to_owned());
        push_item(&mut cells, human_file_deltas(file));
        proof {
            let told = all[at as int];
            assert(cells.deep_view() =~= seq![told.path, told.status.name(), file_deltas(told)]);
        }
        text.append(write_row(&cells).as_str());
        at = at + 1;
    }
    proof {
        assert(all.take(all.len() as int) =~= all);
    }
    text
}

/// A commit by the start of its name.
pub open spec fn short_name(commit: Seq<char>) -> Seq<char> {
    byte_prefix(commit, 12)
}

/// A path of a selection, with its kind.
pub open spec fn selected_text() -> spec_fn(SelectedPathReportView) -> Option<Seq<char>> {
    |path: SelectedPathReportView| Some(path.path + " ("@ + path.kind.name() + ")"@)
}

/// The paths of a selection.
pub open spec fn selection_text(selection: SelectionReportView) -> Seq<char> {
    joined(collected(selection.paths, selected_text()), ", "@)
}

fn human_selection_paths(selection: &SelectionReport) -> (text: String)
    ensures
        text@ == selection_text(selection.deep_view()),
{
    let ghost f = selected_text();
    let pick = |path: &SelectedPathReport| -> (text: Option<String>)
        ensures
            text.deep_view() == f(path.deep_view()),
    {
        let mut text = path.path.clone();
        text.append(" (");
        text.append(path.kind.label());
        text.append(")");
        Some(text)
    };
    join(&collect_items(&selection.paths, pick, Ghost(f)), ", ")
}

/// A truth value in words.
pub open spec fn truth(value: bool) -> Seq<char> {
    if value {
        "true"@
    } else {
        "false"@
    }
}

fn write_truth(value: bool) -> (text: &'static str)
    ensures
        text@ == truth(value),
{
    if value {
        "true"
    } else {
        "false"
    }
}

/// What is compared.
pub open spec fn comparison_heading(comparison: ComparisonView) -> Seq<char> {
    "Comparison: "@ + (match comparison.before.revision {
        Some(revision) => revision,
        None => "baseline"@,
    }) + " ("@ + short_name(comparison.before.commit) + ") -> working tree at "@ + short_name(
        comparison.after.commit,
    ) + " ("@ + (if comparison.after.dirty == Some(true) {
        "dirty"@
    } else {
        "clean"@
    }) + ")\nRoot: "@ + comparison.root + "\nPaths: "@ + selection_text(comparison.selection)
        + "\nDiscovery: include hidden = "@ + truth(comparison.selection.include_hidden)
        + ", respect ignores = "@ + truth(comparison.selection.respect_ignores)
        + "\nMetric-changing files: "@ + decimal(comparison.metric_changed_files.added as nat)
        + " added, "@ + decimal(comparison.metric_changed_files.modified as nat) + " modified, "@
        + decimal(comparison.metric_changed_files.deleted as nat) + " deleted\n\n"@
}

fn write_heading(comparison: &Comparison) -> (text: String)
    ensures
        text@ == comparison_heading(comparison.deep_view()),
{
    let dirty = match comparison.after.dirty {
        Some(dirty) => dirty,
        None => false,
    };
    let mut text = "Comparison: ".to_owned();
    match &comparison.before.revision {
        Some(revision) => text.append(revision.as_str()),
        None => text.append("baseline"),
    }
    text.append(" (");
    text.append(take_bytes(comparison.before.commit.as_str(), 12).as_str());
    text.append(") -> working tree at ");
    text.append(take_bytes(comparison.after.commit.as_str(), 12).as_str());
    text.append(" (");
    if dirty {
        text.append("dirty");
    } else {
        text.append("clean");
    }
    text.append(")\nRoot: ");
    text.append(comparison.root.as_str());
    text.append("\nPaths: ");
    text.append(human_selection_paths(&comparison.selection).as_str());
    text.append("\nDiscovery: include hidden = ");
    text.append(write_truth(comparison.selection.include_hidden));
    text.append(", respect ignores = ");
    text.append(write_truth(comparison.selection.respect_ignores));
    text.append("\nMetric-changing files: ");
    text.append(number(comparison.metric_changed_files.added).as_str());
    text.append(" added, ");
    text.append(number(comparison.metric_changed_files.modified).as_str());
    text.append(" modified, ");
    text.append(number(comparison.metric_changed_files.deleted).as_str());
    text.append(" deleted\n\n");
    text
}

/// How many of the changed files are listed.
pub open spec fn listing_limit(all_files: bool) -> Option<usize> {
    if all_files {
        None
    } else {
        Some(10)
    }
}

/// The changed files of a comparison, as lines of cells.
pub open spec fn contributor_section(files: Seq<FileChangeView>, all_files: bool) -> Seq<char> {
    let title = if all_files {
        "All metric-changing files:\n"@
    } else {
        "Largest metric changes (top "@ + decimal(files.len()) + "):\n"@
    };
    if files.len() == 0 {
        title + "No metric changes.\n"@
    } else {
        title + "File\tStatus\tMetric deltas\n"@ + changed_rows(files)
            + "Metric diff is not textual Git churn; renames appear as one deletion and one addition.\n"@
    }
}

fn write_contributors(files: &Vec<FileChange>, all_files: bool) -> (text: String)
    requires
        forall|i: int| 0 <= i < files.deep_view().len() ==> (
        #[trigger] files.deep_view()[i]).wf(),
    ensures
        text@ == contributor_section(files.deep_view(), all_files),
{
    proof {
        assert(files.deep_view().len() == files.len());
    }
    let mut text = if all_files {
        "All metric-changing files:\n".to_owned()
    } else {
        let mut title = "Largest metric changes (top ".to_owned();
        title.append(decimal_text(files.len() as u128).as_str());
        title.append("):\n");
        title
    };
    if files.len() == 0 {
        text.append("No metric changes.\n");
        return text;
    }
    text.append("File\tStatus\tMetric deltas\n");
    text.append(write_changed_files(files).as_str());
    text.append(
        "Metric diff is not textual Git churn; renames appear as one deletion and one addition.\n",
    );
    text
}

/// A comparison, as lines of cells.
pub open spec fn comparison_lines(
    comparison: ComparisonView,
    all_files: bool,
    percents: Seq<Option<Seq<char>>>,
) -> Seq<char> {
    comparison_heading(comparison) + "Metric\tBefore\tAfter\tDelta\t%\n"@ + change_rows(
        change_entries(comparison.summary),
        percents,
        11,
    ) + "\nRole\tFiles before\tFiles after\tDelta\tCode before\tCode after\tDelta\n"@
        + role_change_rows(comparison.buckets)
        + "Role file counts overlap; project Files is the distinct Rust-file count.\n\n"@
        + contributor_section(
        top_files(comparison.files, listing_limit(all_files)),
        all_files,
    )
}

/// Whether all differences of a comparison are those of its counts.
pub open spec fn comparison_wf(comparison: ComparisonView) -> bool {
    &&& comparison.summary.wf()
    &&& forall|i: int| 0 <= i < comparison.buckets.len() ==> role_wf(
        #[trigger] comparison.buckets[i],
    )
    &&& forall|i: int| 0 <= i < comparison.files.len() ==> (#[trigger] comparison.files[i]).wf()
}

/// The files that are listed are among those that have changed.
proof fn lemma_top_files(files: Seq<FileChangeView>, limit: Option<usize>)
    requires
        forall|i: int| 0 <= i < files.len() ==> (#[trigger] files[i]).wf(),
    ensures
        forall|i: int| 0 <= i < top_files(files, limit).len() ==> (
        #[trigger] top_files(files, limit)[i]).wf(),
{
    broadcast use vstd::seq_lib::group_to_multiset_ensures;

    let f = crate::diff::ranked_file();
    let entries = collected(files, f);
    let sorted = crate::collections::stable_sorted::<crate::diff::FileOrder, FileChange>(entries);
    crate::collections::lemma_stable_sorted::<crate::diff::FileOrder, FileChange>(entries);
    crate::collections::lemma_collected_whole(files, f);
    assert forall|i: int| 0 <= i < top_files(files, limit).len() implies (
    #[trigger] top_files(files, limit)[i]).wf() by {
        assert(top_files(files, limit)[i] == sorted[i].1);
        assert(sorted.contains(sorted[i]));
        assert(sorted.to_multiset().count(sorted[i]) > 0);
        assert(entries.contains(sorted[i]));
        let k = choose|k: int| 0 <= k < entries.len() && entries[k] == sorted[i];
        assert(f(files[k]) == Some(entries[k]));
        assert(files[k].wf());
    }
}

/// Writes a comparison as a table. How counts have changed in relation to what they were is given,
/// as far as it can be said.
pub fn render_comparison(
    comparison: &Comparison,
    all_files: bool,
    percents: &Vec<Option<String>>,
) -> (text: String)
    requires
        comparison_wf(comparison.deep_view()),
        percents.len() == 11,
    ensures
        text@ == aligned(
            comparison_lines(comparison.deep_view(), all_files, percents.deep_view()),
        ),
{
    let ghost told = comparison.deep_view();
    proof {
        assert forall|i: int| 0 <= i < comparison.buckets.deep_view().len() implies role_wf(
            #[trigger] comparison.buckets.deep_view()[i],
        ) by {
            assert(role_wf(told.buckets[i]));
        }
        lemma_top_files(told.files, listing_limit(all_files));
    }
    let mut text = write_heading(comparison);
    text.append("Metric\tBefore\tAfter\tDelta\t%\n");
    text.append(write_changes(&comparison.summary, percents).as_str());
    text.append("\nRole\tFiles before\tFiles after\tDelta\tCode before\tCode after\tDelta\n");
    text.append(write_role_changes(&comparison.buckets).as_str());
    text.append("Role file counts overlap; project Files is the distinct Rust-file count.\n\n");
    let limit: Option<usize> = if all_files {
        None
    } else {
        Some(10)
    };
    let files = comparison.contributors(limit);
    text.append(write_contributors(&files, all_files).as_str());
    align(text.as_str())
}

} // verus!
