use rot::analyze::{
    build_report, choose_workers, classify_module_graph, read_failure, report_project,
    selection_report, sort_entries, Discovery,
    LocalFile, ModuleEdge, RequestedPath, SourceEntry, TargetSeed, UnresolvedEdge,
};
use rot::cli::{
    exit_fails, validate_fast_output, CargoSelection, ExplainLocation, ExplainSelector, FastCli,
    OutputFormat,
};
use rot::compiler::graph::CanonicalPath;
use rot::diff::{
    build_comparison, check_baseline, compare_file, normalize_diagnostics, Change,
    ComparisonRequest, FileStatus,
};
use rot::model::{
    BucketReport, ComplexityMetrics, Contexts, Diagnostic, DiagnosticSeverity, FileReport,
    LineCounts, OutputRole, ProfileReport, Reachability, Report, SelectedPathKind, SelectionReport,
    SourceMetrics, TargetRole,
};
use rot::report::{
    render_comparison, render_comparison_diagnostics, render_diagnostics, render_snapshot,
    report_detail,
};
use rot::repository::{
    ancestors, check_baseline_path, check_inputs, commit_arguments, git_text, git_variables,
    lexical_absolute, read_commit, read_status, relative_input, selection, BaselineEntry,
    RepositoryInput, SelectedInput,
};

fn texts(items: &[&str]) -> Vec<String> {
    items.iter().map(|item| item.to_string()).collect()
}

fn code(lines: u64) -> SourceMetrics {
    SourceMetrics {
        lines: LineCounts { physical: lines, code: lines, comments: 0, docs: 0, blank: 0 },
        metrics: ComplexityMetrics {
            lexical_complexity: 1,
            cyclomatic_authored: 2,
            cognitive_authored: 3,
        },
        declared_public: 1,
    }
}

fn local(edges: Vec<ModuleEdge>, both: u64, test: u64) -> LocalFile {
    let mut metrics = [SourceMetrics::default(); 9];
    metrics[Reachability::both().index()] = code(both);
    if test > 0 {
        metrics[Reachability::test().index()] = code(test);
    }
    LocalFile {
        bytes: 10,
        edges,
        unresolved_edges: Vec::new(),
        syntax_errors: Vec::new(),
        metrics,
    }
}

fn entry(path: &str, file: LocalFile) -> SourceEntry {
    SourceEntry {
        path: path.to_owned(),
        display_path: path.trim_start_matches("/w/").to_owned(),
        package: Some("sample".to_owned()),
        reported: true,
        file,
    }
}

fn edge(target: &str, gate: Reachability) -> ModuleEdge {
    ModuleEdge { target: target.to_owned(), gate }
}

fn profile() -> ProfileReport {
    ProfileReport {
        target: "host".to_owned(),
        rustc: "1.98.0".to_owned(),
        cfg_preset: "host".to_owned(),
        cfg_resolution: "rustc".to_owned(),
        feature_mode: "default".to_owned(),
        feature_resolution: "cargo".to_owned(),
        enabled_features: Vec::new(),
        excluded_features: Vec::new(),
        active_cfg: Vec::new(),
        forced_cfg: Vec::new(),
        forced_unset_cfg: Vec::new(),
        additional_test_attributes: Vec::new(),
        synthetic: false,
    }
}

fn whole(root: &str) -> SelectionReport {
    selection_report(
        root,
        &vec![RequestedPath { path: root.to_owned(), directory: true }],
        false,
        true,
    )
}

fn project() -> Vec<SourceEntry> {
    vec![
        entry(
            "/w/src/lib.rs",
            local(
                vec![
                    edge("/w/src/a.rs", Reachability::both()),
                    edge("/w/src/tests.rs", Reachability::test()),
                ],
                4,
                2,
            ),
        ),
        entry("/w/src/a.rs", local(vec![edge("/w/src/lib.rs", Reachability::both())], 3, 0)),
        entry("/w/src/tests.rs", local(Vec::new(), 5, 0)),
        entry("/w/src/unused.rs", local(Vec::new(), 7, 0)),
    ]
}

fn report(root: &str, entries: &Vec<SourceEntry>) -> Report {
    let targets = vec![TargetSeed {
        path: "/w/src/lib.rs".to_owned(),
        contexts: Contexts::seed(TargetRole::Production, Reachability::both()),
    }];
    let contexts = classify_module_graph(&Vec::new(), entries, &targets, false);
    build_report(root.to_owned(), whole(root), profile(), Vec::new(), entries, &contexts)
}

#[test]
fn files_are_reported_in_the_order_of_their_paths() {
    let written = ["/w/a.b/x.rs", "/w/b.rs", "/w/a/x.rs"];
    let entries = || -> Vec<SourceEntry> {
        written.iter().map(|path| entry(path, local(Vec::new(), 1, 0))).collect()
    };
    let sorted = sort_entries(entries());
    let paths = sorted.iter().map(|entry| entry.path.as_str()).collect::<Vec<_>>();
    assert_eq!(paths, ["/w/a/x.rs", "/w/a.b/x.rs", "/w/b.rs"]);

    let report = report_project(
        "/w".to_owned(),
        whole("/w"),
        profile(),
        Vec::new(),
        &Vec::new(),
        entries(),
        &Vec::new(),
        true,
    );
    let shown = sorted.iter().map(|entry| entry.display_path.as_str()).collect::<Vec<_>>();
    let files = report.files.iter().map(|file| file.path.as_str()).collect::<Vec<_>>();
    assert_eq!(files, shown);
    assert_eq!(report.total.code, 3);
}

#[test]
fn reports_say_whether_they_list_their_files() {
    assert_eq!(report_detail(true), "summary");
    assert_eq!(report_detail(false), "files");
}

#[test]
fn roles_spread_along_modules_and_lines_add_up() {
    let report = report("/w", &project());
    assert_eq!(report.file_count, 4);
    assert_eq!(report.total.code, 4 + 2 + 3 + 5 + 7);
    let role = |wanted: OutputRole| {
        report.buckets.iter().find(|bucket| bucket.role == wanted).map(|bucket| bucket.source.lines.code)
    };
    assert_eq!(role(OutputRole::Production), Some(7));
    assert_eq!(role(OutputRole::Test), Some(7));
    assert_eq!(role(OutputRole::Orphan), Some(7));
    assert_eq!(
        report.buckets.iter().map(|bucket| bucket.source.lines.code).sum::<u64>(),
        report.total.code
    );
}

#[test]
fn links_lead_to_the_file_that_is_there() {
    let entries = vec![
        entry("/w/src/lib.rs", local(vec![edge("/w/link.rs", Reachability::both())], 1, 0)),
        entry("/w/src/a.rs", local(Vec::new(), 1, 0)),
    ];
    let known = vec![CanonicalPath { path: "/w/link.rs".to_owned(), canonical: "/w/src/a.rs".to_owned() }];
    let targets = vec![TargetSeed {
        path: "/w/src/lib.rs".to_owned(),
        contexts: Contexts::seed(TargetRole::Production, Reachability::both()),
    }];
    let contexts = classify_module_graph(&known, &entries, &targets, false);
    assert_eq!(contexts[1].classify(Reachability::both()), OutputRole::Production);
    let contexts = classify_module_graph(&Vec::new(), &entries, &targets, false);
    assert_eq!(contexts[1].classify(Reachability::both()), OutputRole::Orphan);
    let alone = classify_module_graph(&Vec::new(), &entries, &Vec::new(), true);
    assert_eq!(alone[0].classify(Reachability::both()), OutputRole::Production);
}

#[test]
fn files_are_analyzed_once() {
    let mut discovery = Discovery::new();
    discovery.request("/w/src/lib.rs".to_owned());
    assert_eq!(discovery.next_batch(), ["/w/src/lib.rs"]);
    let file = local(
        vec![
            edge("/w/src/a.rs", Reachability::both()),
            edge("/w/src/lib.rs", Reachability::both()),
        ],
        1,
        0,
    );
    discovery.record("/w/src/lib.rs".to_owned(), &Vec::new(), &file);
    assert_eq!(discovery.next_batch(), ["/w/src/a.rs"]);
    discovery.record("/w/src/a.rs".to_owned(), &Vec::new(), &file);
    assert!(discovery.next_batch().is_empty());
}

#[test]
fn files_are_read_in_the_order_of_their_paths() {
    let mut discovery = Discovery::new();
    discovery.request("/w/a.b/x.rs".to_owned());
    discovery.request("/w//a/x.rs".to_owned());
    discovery.request("/w/a/x.rs".to_owned());
    assert_eq!(discovery.next_batch(), ["/w//a/x.rs", "/w/a.b/x.rs"]);
    let file = local(vec![edge("/w/a/./x.rs", Reachability::both())], 1, 0);
    discovery.record("/w//a/x.rs".to_owned(), &Vec::new(), &file);
    discovery.record("/w/a.b/x.rs".to_owned(), &Vec::new(), &file);
    assert!(discovery.next_batch().is_empty());
}

#[test]
fn what_is_wrong_with_a_file_is_reported() {
    let mut entries = project();
    entries[0].file.syntax_errors = texts(&["unexpected token"]);
    entries[0].file.unresolved_edges = vec![UnresolvedEdge {
        gate: Reachability::both(),
        message: "module not found".to_owned(),
    }];
    let report = report("/w", &entries);
    assert!(!report.diagnostics.is_empty());
    assert!(render_diagnostics(&report).contains("src/lib.rs"));
    let notice = read_failure("src/x.rs".to_owned(), "denied");
    assert_eq!(notice.path.as_deref(), Some("src/x.rs"));
    assert!(notice.message.contains("denied"));
}

#[test]
fn a_report_is_written_as_a_table() {
    let report = report("/w", &project());
    let text = render_snapshot(&report, true);
    assert!(text.starts_with("Role        Files  Lines  Code"));
    assert!(text.contains("\nProduction  2      7"));
    assert!(text.contains("Role file counts overlap; Total is the number of distinct Rust files.\n"));
    assert!(text.contains("src/unused.rs"));
    assert!(!text.contains('\t'));
    assert!(!render_snapshot(&report, false).contains("src/unused.rs"));
    assert_eq!(render_diagnostics(&report), "");
}

fn request() -> ComparisonRequest {
    ComparisonRequest {
        repository_root: "/w".to_owned(),
        baseline_root: "/w".to_owned(),
        baseline_ref: "HEAD~1".to_owned(),
        baseline_commit: "0123456789abcdef".to_owned(),
        current_commit: "fedcba9876543210".to_owned(),
        dirty: true,
        selection: whole("/w"),
    }
}

#[test]
fn changes_between_two_states_are_listed() {
    let before = report("/w", &project());
    let mut entries = project();
    entries.pop();
    entries[1].file.metrics[Reachability::both().index()] = code(9);
    let comparison = build_comparison(request(), before, report("/w", &entries)).unwrap();
    assert_eq!(comparison.summary.files.delta, -1);
    assert_eq!(comparison.summary.code.delta, 9 - 3 - 7);
    assert_eq!(comparison.metric_changed_files.deleted, 1);
    assert_eq!(comparison.metric_changed_files.modified, 1);
    assert_eq!(comparison.metric_changed_files.added, 0);
    let top = comparison.contributors(Some(1));
    assert_eq!(top.len(), 1);
    assert_eq!(top[0].path, "src/unused.rs");
    assert_eq!(top[0].status, FileStatus::Deleted);
    assert!(!comparison.has_diagnostics());

    let percents = vec![None; 11];
    let text = render_comparison(&comparison, false, &percents);
    assert!(text.starts_with(
        "Comparison: HEAD~1 (0123456789ab) -> working tree at fedcba987654 (dirty)\nRoot: /w\n"
    ));
    assert!(text.contains("Largest metric changes (top 2):\n"));
    assert!(text.contains("code -7"));
    assert!(render_comparison(&comparison, true, &percents).contains("All metric-changing files:\n"));
    assert_eq!(render_comparison_diagnostics(&comparison), "");
}

#[test]
fn nothing_changes_from_itself() {
    let comparison =
        build_comparison(request(), report("/w", &project()), report("/w", &project())).unwrap();
    assert!(comparison.files.is_empty());
    assert!(!comparison.summary.changed());
    let text = render_comparison(&comparison, false, &vec![None; 11]);
    assert!(text.contains("No metric changes.\n"));
}

#[test]
fn a_change_mirrors_when_the_sides_are_swapped() {
    assert_eq!(Change::new(3, 10).delta, 7);
    assert_eq!(Change::new(10, 3).delta, -7);
    assert!(!Change::new(3, 3).changed());
    let file = FileReport {
        path: "a".to_owned(),
        package: None,
        bytes: 1,
        syntax_errors: 0,
        buckets: vec![BucketReport {
            role: OutputRole::Production,
            files: 1,
            source: code(3),
        }],
        total: code(3).lines,
        metrics: code(3).metrics,
    };
    assert!(compare_file("a", Some(&file), Some(&file)).is_none());
    let added = compare_file("a", None, Some(&file)).unwrap();
    assert_eq!(added.status, FileStatus::Added);
    assert_eq!(added.production_code.delta, 3);
}

#[test]
fn only_one_commit_is_a_baseline() {
    assert_eq!(check_baseline("HEAD~1"), Ok(()));
    assert!(check_baseline("a..b").unwrap_err().starts_with("--baseline accepts one commit"));
    assert_eq!(
        commit_arguments(" ").unwrap_err(),
        "--baseline requires a non-empty Git ref"
    );
    assert_eq!(
        commit_arguments("v1").unwrap(),
        ["rev-parse", "--verify", "--end-of-options", "v1^{commit}"]
    );
}

#[test]
fn diagnostics_of_a_checkout_look_like_those_of_the_repository() {
    let diagnostics = vec![Diagnostic {
        severity: DiagnosticSeverity::Warning,
        path: Some("/tmp/tree/src/lib.rs".to_owned()),
        message: "cannot read /tmp/tree/src/lib.rs".to_owned(),
    }];
    let normal = normalize_diagnostics(&diagnostics, "/tmp/tree", "/tmp/tree", "/w");
    assert_eq!(normal[0].path.as_deref(), Some("src/lib.rs"));
    assert_eq!(normal[0].message, "cannot read /w/src/lib.rs");
}

#[test]
fn answers_of_git_are_read() {
    assert_eq!(
        read_commit("v1", true, &b"abc\n".to_vec(), &Vec::new()).unwrap(),
        "abc"
    );
    assert_eq!(
        read_commit("v1", false, &Vec::new(), &b"fatal: no\n".to_vec()).unwrap_err(),
        "Git ref \"v1\" does not resolve to a commit: fatal: no"
    );
    assert_eq!(
        read_commit("v1", true, &b"\xff".to_vec(), &Vec::new()).unwrap_err(),
        "Git emitted a non-UTF-8 commit ID"
    );
    assert_eq!(read_status(true, &b" M a\n".to_vec(), &Vec::new()), Ok(true));
    assert_eq!(read_status(true, &Vec::new(), &Vec::new()), Ok(false));
    assert_eq!(
        read_status(false, &Vec::new(), &b"no".to_vec()),
        Err("cannot inspect working-tree status: no".to_owned())
    );
    assert_eq!(git_text(true, &b"/w\n".to_vec(), &Vec::new()), Ok("/w\n".to_owned()));
    assert_eq!(
        git_text(false, &Vec::new(), &b" no ".to_vec()),
        Err("git failed: no".to_owned())
    );
    assert_eq!(
        git_text(true, &b"\xc0".to_vec(), &Vec::new()),
        Err("Git emitted non-UTF-8 output".to_owned())
    );
    assert_eq!(git_variables().len(), 8);
    assert_eq!(git_variables()[7], "GIT_PREFIX");
}

#[test]
fn inputs_are_in_one_repository() {
    let input = |path: &str, repository: &str| RepositoryInput {
        path: path.to_owned(),
        repository: repository.to_owned(),
    };
    assert_eq!(check_inputs("/w", &vec![input("/w/a", "/w")]), Ok(()));
    assert_eq!(
        check_inputs("/w", &vec![input("/w/a", "/w"), input("/x", "/x")]),
        Err("input /x is outside Git repository /w; run one comparison per repository".to_owned())
    );
    assert_eq!(
        check_inputs("/w", &vec![input("/w/sub", "/w/sub")]),
        Err("inputs span Git repositories /w and /w/sub; run one comparison per repository".to_owned())
    );
    assert_eq!(
        check_inputs("/w", &Vec::new()),
        Err("at least one input path is required".to_owned())
    );
}

fn input(absolute: &str, resolved: &str) -> SelectedInput {
    SelectedInput {
        absolute: absolute.to_owned(),
        resolved: resolved.to_owned(),
        directory: true,
    }
}

#[test]
fn paths_keep_the_names_that_they_were_given_by() {
    assert_eq!(lexical_absolute("/tmp/./w/../w/src/"), "/tmp/w/src");
    assert_eq!(lexical_absolute("/.."), "/");
    assert_eq!(ancestors("/tmp/w"), ["/", "/tmp", "/tmp/w"]);

    let known = vec![
        CanonicalPath { path: "/tmp/w".to_owned(), canonical: "/private/tmp/w".to_owned() },
        CanonicalPath { path: "/tmp/w/self".to_owned(), canonical: "/private/tmp/w".to_owned() },
    ];
    assert_eq!(
        relative_input("/private/tmp/w", &known, &input("/tmp/w/self/src", "/private/tmp/w/src")),
        Ok("self/src".to_owned())
    );
    assert_eq!(
        relative_input("/private/tmp/w", &Vec::new(), &input("/link", "/private/tmp/w/src")),
        Ok("src".to_owned())
    );
    assert_eq!(
        relative_input("/private/tmp/w", &known, &input("/tmp/other", "/private/tmp/other")),
        Err("input /tmp/other resolves outside Git repository /private/tmp/w".to_owned())
    );
    let chosen = selection(
        "/private/tmp/w",
        &known,
        &vec![input("/tmp/w/b", "/private/tmp/w/b"), input("/tmp/w", "/private/tmp/w")],
        true,
        false,
    )
    .unwrap();
    assert_eq!(chosen.paths[0].path, ".");
    assert_eq!(chosen.paths[1].path, "b");
    assert_eq!(chosen.paths[1].kind, SelectedPathKind::Directory);
    assert!(chosen.include_hidden);
    assert_eq!(chosen.ignore_boundary, "path");
}

#[test]
fn paths_are_the_same_in_both_states() {
    let there = |resolved: &str, directory: bool| {
        Some(BaselineEntry { resolved: resolved.to_owned(), directory })
    };
    assert_eq!(check_baseline_path("a", true, "/tree", &there("/tree/a", true)), Ok(()));
    assert!(check_baseline_path("a", true, "/tree", &None)
        .unwrap_err()
        .starts_with("selected path a does not exist in baseline"));
    assert_eq!(
        check_baseline_path("a", true, "/tree", &there("/elsewhere", true)),
        Err("baseline path a resolves outside the materialized commit".to_owned())
    );
    assert_eq!(
        check_baseline_path("a", true, "/tree", &there("/tree/a", false)),
        Err("selected path a is a directory in the working tree but a file in the baseline; compare a stable containing directory instead".to_owned())
    );
}

fn fast(format: OutputFormat, files: bool, summary_only: bool) -> FastCli {
    FastCli {
        cargo: CargoSelection {
            paths: texts(&["."]),
            features: Vec::new(),
            all_features: false,
            no_default_features: false,
            target: None,
            cfg: Vec::new(),
        },
        format,
        files,
        summary_only,
        baseline: None,
        threads: None,
        exclude_feature: Vec::new(),
        unset_cfg: Vec::new(),
        release: false,
        test_attribute: Vec::new(),
        hidden: false,
        no_ignore: false,
    }
}

#[test]
fn options_that_do_not_go_together_are_refused() {
    assert_eq!(validate_fast_output(&fast(OutputFormat::Table, true, false)), Ok(()));
    assert!(validate_fast_output(&fast(OutputFormat::Json, true, false)).is_err());
    assert_eq!(
        validate_fast_output(&fast(OutputFormat::Table, false, true)),
        Err("--summary-only is only valid with --format json".to_owned())
    );
    let mut options = fast(OutputFormat::Table, false, false);
    assert_eq!(options.cargo.feature_mode(false), "default");
    options.cargo.no_default_features = true;
    assert_eq!(options.cargo.feature_mode(false), "none");
    options.cargo.features = texts(&["a"]);
    assert_eq!(options.cargo.feature_mode(false), "selected_without_defaults");
    options.cargo.all_features = true;
    assert_eq!(options.cargo.feature_mode(true), "all_except");

    assert_eq!(choose_workers(Some(0), 4), Err("--threads must be greater than zero".to_owned()));
    assert_eq!(choose_workers(None, 4), Ok(4));
    assert!(exit_fails(Ok(true)));
    assert!(!exit_fails(Ok(false)));
}

#[test]
fn definitions_and_places_are_named_exactly() {
    let selector = ExplainSelector::parse("rot:rot::compiler::collect").unwrap();
    assert_eq!(selector.package, "rot");
    assert_eq!(selector.definition_path, "rot::compiler::collect");
    assert!(ExplainSelector::parse("rot").is_err());
    assert!(ExplainSelector::parse(":x").is_err());
    assert!(ExplainSelector::parse("rot: x").is_err());
    let location = ExplainLocation::parse("src/lib.rs:3:5").unwrap();
    assert_eq!((location.line, location.column), (3, 5));
    assert!(ExplainLocation::parse("src/lib.rs:0:5").is_err());
    assert!(ExplainLocation::parse("src/lib.rs").is_err());
}
