//! Source files, the roles in which they are used, and the counts of each role.

use vstd::prelude::*;

use crate::collections::{
    append_items, chosen, collect_entries, collect_items, collected, flattened, index_keys,
    insert_stable, key_place, key_places, lemma_key_place, lemma_stable_sorted,
    lemma_stable_sorted_member, no_items, picked_entries, push_item, second, stable_sort,
    stable_sorted, take_second, SortedMap, SortedSet,
};
use crate::compiler::graph::{
    canonical_form, canonical_key, look_up, look_up_key, CanonicalPath, CanonicalPathView,
};
use crate::model::{
    BucketReport, ComplexityMetrics, Contexts, ContextsView, Diagnostic, DiagnosticSeverity,
    DiagnosticView, FileReport, FileReportView, LineCounts, OutputRole, ProfileReport,
    ProfileReportView, Reachability, Report, ReportView, SelectedPathKind, SelectedPathReport,
    SelectedPathReportView, SelectionReport, SelectionReportView, SourceMetrics, TargetRole,
};
use crate::module_graph::{
    full, law_covering, lemma_full_update, lemma_grown, links_hold, propagate, spreads, waits,
    ModuleLink,
};
use crate::order::Ordered;
use crate::paths::{
    file_name, last_name, list_path_key, path_below, path_key, portable, portable_path, strip_base,
    PathKey,
};
use crate::text::{decimal, decimal_text, same};

verus! {

/// A declaration of a module that leads to another file.
#[derive(Debug, PartialEq, Eq)]
pub struct ModuleEdge {
    pub target: String,
    pub gate: Reachability,
}

/// The model of [`ModuleEdge`].
#[verifier::ext_equal]
pub struct ModuleEdgeView {
    pub target: Seq<char>,
    pub gate: Reachability,
}

impl DeepView for ModuleEdge {
    type V = ModuleEdgeView;

    open spec fn deep_view(&self) -> ModuleEdgeView {
        ModuleEdgeView {
            target: self.target.deep_view(),
            gate: self.gate,
        }
    }
}

impl Clone for ModuleEdge {
    fn clone(&self) -> (copy: Self)
        ensures
            copy.deep_view() == self.deep_view(),
    {
        let copy = ModuleEdge {
            target: self.target.clone(),
            gate: self.gate,
        };
        copy
    }
}

/// A declaration of a module whose file was not found.
#[derive(Debug, PartialEq, Eq)]
pub struct UnresolvedEdge {
    pub gate: Reachability,
    pub message: String,
}

/// The model of [`UnresolvedEdge`].
#[verifier::ext_equal]
pub struct UnresolvedEdgeView {
    pub gate: Reachability,
    pub message: Seq<char>,
}

impl DeepView for UnresolvedEdge {
    type V = UnresolvedEdgeView;

    open spec fn deep_view(&self) -> UnresolvedEdgeView {
        UnresolvedEdgeView {
            gate: self.gate,
            message: self.message.deep_view(),
        }
    }
}

impl Clone for UnresolvedEdge {
    fn clone(&self) -> (copy: Self)
        ensures
            copy.deep_view() == self.deep_view(),
    {
        let copy = UnresolvedEdge {
            gate: self.gate,
            message: self.message.clone(),
        };
        copy
    }
}

/// What was read from one source file.
#[derive(Debug, PartialEq, Eq)]
pub struct LocalFile {
    pub bytes: u64,
    pub edges: Vec<ModuleEdge>,
    pub unresolved_edges: Vec<UnresolvedEdge>,
    pub syntax_errors: Vec<String>,
    /// The counts of the code behind each kind of gate.
    pub metrics: [SourceMetrics; 9],
}

/// The model of [`LocalFile`].
#[verifier::ext_equal]
pub struct LocalFileView {
    pub bytes: u64,
    pub edges: Seq<ModuleEdgeView>,
    pub unresolved_edges: Seq<UnresolvedEdgeView>,
    pub syntax_errors: Seq<Seq<char>>,
    pub metrics: Seq<SourceMetrics>,
}

impl DeepView for LocalFile {
    type V = LocalFileView;

    open spec fn deep_view(&self) -> LocalFileView {
        LocalFileView {
            bytes: self.bytes,
            edges: self.edges.deep_view(),
            unresolved_edges: self.unresolved_edges.deep_view(),
            syntax_errors: self.syntax_errors.deep_view(),
            metrics: self.metrics@,
        }
    }
}

/// A source file among those of a run.
#[derive(Debug, PartialEq, Eq)]
pub struct SourceEntry {
    pub path: String,
    /// The path under which it is reported.
    pub display_path: String,
    /// The package that it belongs to.
    pub package: Option<String>,
    /// Whether it is among the files that were asked for.
    pub reported: bool,
    pub file: LocalFile,
}

/// The model of [`SourceEntry`].
#[verifier::ext_equal]
pub struct SourceEntryView {
    pub path: Seq<char>,
    pub display_path: Seq<char>,
    pub package: Option<Seq<char>>,
    pub reported: bool,
    pub file: LocalFileView,
}

impl DeepView for SourceEntry {
    type V = SourceEntryView;

    open spec fn deep_view(&self) -> SourceEntryView {
        SourceEntryView {
            path: self.path.deep_view(),
            display_path: self.display_path.deep_view(),
            package: self.package.deep_view(),
            reported: self.reported,
            file: self.file.deep_view(),
        }
    }
}

/// The root file of a target.
#[derive(Debug, PartialEq, Eq)]
pub struct TargetSeed {
    pub path: String,
    pub contexts: Contexts,
}

/// The model of [`TargetSeed`].
#[verifier::ext_equal]
pub struct TargetSeedView {
    pub path: Seq<char>,
    pub contexts: ContextsView,
}

impl DeepView for TargetSeed {
    type V = TargetSeedView;

    open spec fn deep_view(&self) -> TargetSeedView {
        TargetSeedView {
            path: self.path.deep_view(),
            contexts: self.contexts.deep_view(),
        }
    }
}

/// A path that was asked for.
#[derive(Debug, PartialEq, Eq)]
pub struct RequestedPath {
    pub path: String,
    pub directory: bool,
}

/// The model of [`RequestedPath`].
#[verifier::ext_equal]
pub struct RequestedPathView {
    pub path: Seq<char>,
    pub directory: bool,
}

impl DeepView for RequestedPath {
    type V = RequestedPathView;

    open spec fn deep_view(&self) -> RequestedPathView {
        RequestedPathView {
            path: self.path.deep_view(),
            directory: self.directory,
        }
    }
}

impl Clone for RequestedPath {
    fn clone(&self) -> (copy: Self)
        ensures
            copy.deep_view() == self.deep_view(),
    {
        let copy = RequestedPath {
            path: self.path.clone(),
            directory: self.directory,
        };
        copy
    }
}

/// What the paths of source files are compared by.
pub open spec fn entry_paths(entries: Seq<SourceEntryView>) -> Seq<Seq<(usize, Seq<char>)>> {
    Seq::new(entries.len(), |i: int| path_key(entries[i].path))
}

fn index_entries(entries: &Vec<SourceEntry>) -> (places: SortedMap<PathKey, usize>)
    ensures
        places.wf(),
        places.deep_view() == key_places(entry_paths(entries.deep_view())),
{
    let ghost all = entries.deep_view();
    let mut paths: Vec<PathKey> = no_items();
    let mut at: usize = 0;
    while at < entries.len()
        invariant
            all == entries.deep_view(),
            at <= all.len(),
            paths.deep_view() =~= entry_paths(all).take(at as int),
        decreases all.len() - at,
    {
        proof {
            assert(all[at as int] == entries[at as int].deep_view());
        }
        push_item(&mut paths, list_path_key(entries[at].path.as_str()));
        at = at + 1;
    }
    proof {
        assert(paths.deep_view() =~= entry_paths(all));
    }
    index_keys(paths)
}

fn find_entry(
    entries: &Vec<SourceEntry>,
    places: &SortedMap<PathKey, usize>,
    path: &PathKey,
) -> (place: Option<usize>)
    requires
        places.wf(),
        places.deep_view() == key_places(entry_paths(entries.deep_view())),
    ensures
        place == key_place(entry_paths(entries.deep_view()), path.deep_view()),
        place matches Some(place) ==> place < entries.len(),
{
    proof {
        assert(entries.deep_view().len() == entries.len());
        lemma_key_place(entry_paths(entries.deep_view()), path.deep_view());
    }
    match places.get(path) {
        Some(place) => Some(*place),
        None => None,
    }
}

/// Picks the file that a declaration of a module leads to.
pub open spec fn link_of(known: Seq<CanonicalPathView>, entries: Seq<SourceEntryView>) -> spec_fn(
    ModuleEdgeView,
) -> Option<ModuleLink> {
    |edge: ModuleEdgeView|
        match key_place(entry_paths(entries), canonical_key(known, edge.target)) {
            Some(target) => Some(ModuleLink { target, gate: edge.gate }),
            None => None,
        }
}

/// The links between source files.
pub open spec fn links_of(known: Seq<CanonicalPathView>, entries: Seq<SourceEntryView>) -> Seq<
    Seq<ModuleLink>,
> {
    Seq::new(
        entries.len(),
        |i: int| collected(entries[i].file.edges, link_of(known, entries)),
    )
}

fn list_links(
    known: &Vec<CanonicalPath>,
    entries: &Vec<SourceEntry>,
    places: &SortedMap<PathKey, usize>,
) -> (links: Vec<Vec<ModuleLink>>)
    requires
        places.wf(),
        places.deep_view() == key_places(entry_paths(entries.deep_view())),
    ensures
        links.deep_view() == links_of(known.deep_view(), entries.deep_view()),
{
    let ghost all = entries.deep_view();
    let ghost f = link_of(known.deep_view(), all);
    let mut links: Vec<Vec<ModuleLink>> = no_items();
    let mut at: usize = 0;
    while at < entries.len()
        invariant
            places.wf(),
            places.deep_view() == key_places(entry_paths(entries.deep_view())),
            all == entries.deep_view(),
            f == link_of(known.deep_view(), all),
            at <= all.len(),
            links.deep_view() =~= links_of(known.deep_view(), all).take(at as int),
        decreases all.len() - at,
    {
        proof {
            assert(all[at as int] == entries[at as int].deep_view());
        }
        let pick = |edge: &ModuleEdge| -> (link: Option<ModuleLink>)
            requires
                places.wf(),
                places.deep_view() == key_places(entry_paths(entries.deep_view())),
            ensures
                link.deep_view() == f(edge.deep_view()),
        {
            match find_entry(entries, places, &look_up_key(known, edge.target.as_str())) {
                Some(target) => Some(ModuleLink { target, gate: edge.gate }),
                None => None,
            }
        };
        push_item(&mut links, collect_items(&entries[at].file.edges, pick, Ghost(f)));
        at = at + 1;
    }
    links
}

/// Contexts with the root files of targets added.
pub open spec fn with_targets(
    known: Seq<CanonicalPathView>,
    entries: Seq<SourceEntryView>,
    targets: Seq<TargetSeedView>,
) -> Seq<ContextsView>
    decreases targets.len(),
{
    if targets.len() == 0 {
        Seq::new(entries.len(), |i: int| ContextsView::untouched())
    } else {
        let before = with_targets(known, entries, targets.drop_last());
        match key_place(
            entry_paths(entries),
            canonical_key(known, targets.last().path),
        ) {
            Some(place) => before.update(
                place as int,
                before[place as int].merged(targets.last().contexts),
            ),
            None => before,
        }
    }
}

/// Whether a file is by its name the root of a crate.
pub open spec fn is_crate_root(path: Seq<char>) -> bool {
    last_name(path) == Some("lib.rs"@) || last_name(path) == Some("main.rs"@)
}

fn crate_root(path: &str) -> (result: bool)
    ensures
        result == is_crate_root(path@),
{
    match file_name(path) {
        Some(name) => same(name.as_str(), "lib.rs") || same(name.as_str(), "main.rs"),
        None => false,
    }
}

/// Code that every build of a library or program holds.
pub open spec fn production_context() -> ContextsView {
    ContextsView::seeded(TargetRole::Production, Reachability::both())
}

/// Contexts with the files added that are crate roots by their names.
pub open spec fn with_roots(entries: Seq<SourceEntryView>, contexts: Seq<ContextsView>) -> Seq<
    ContextsView,
> {
    Seq::new(
        contexts.len(),
        |i: int|
            if is_crate_root(entries[i].path) {
                contexts[i].merged(production_context())
            } else {
                contexts[i]
            },
    )
}

/// Contexts with the files added that nothing leads to.
pub open spec fn with_orphans(contexts: Seq<ContextsView>) -> Seq<ContextsView> {
    Seq::new(
        contexts.len(),
        |i: int|
            if !contexts[i].referenced {
                contexts[i].merged(production_context())
            } else {
                contexts[i]
            },
    )
}

/// Where contexts start: at the root files of targets, and without packages at the files that are
/// crate roots by their names.
pub open spec fn starting_contexts(
    known: Seq<CanonicalPathView>,
    entries: Seq<SourceEntryView>,
    targets: Seq<TargetSeedView>,
    standalone: bool,
) -> Seq<ContextsView> {
    let seeded = with_targets(known, entries, targets);
    if standalone {
        with_roots(entries, seeded)
    } else {
        seeded
    }
}

/// Whether contexts are those of source files: what spreads from the targets. Without packages,
/// files that nothing leads to are then taken for roots of their own.
pub open spec fn classified(
    known: Seq<CanonicalPathView>,
    entries: Seq<SourceEntryView>,
    targets: Seq<TargetSeedView>,
    standalone: bool,
    contexts: Seq<ContextsView>,
) -> bool {
    let links = links_of(known, entries);
    let start = starting_contexts(known, entries, targets, standalone);
    if standalone {
        exists|reached: Seq<ContextsView>| #[trigger]
            spreads(links, start, reached) && spreads(links, with_orphans(reached), contexts)
    } else {
        spreads(links, start, contexts)
    }
}

/// The contexts of source files are determined by what was read.
pub proof fn law_contexts_are_determined(
    known: Seq<CanonicalPathView>,
    entries: Seq<SourceEntryView>,
    targets: Seq<TargetSeedView>,
    standalone: bool,
    left: Seq<ContextsView>,
    right: Seq<ContextsView>,
)
    requires
        classified(known, entries, targets, standalone, left),
        classified(known, entries, targets, standalone, right),
    ensures
        left == right,
{
    let links = links_of(known, entries);
    let start = starting_contexts(known, entries, targets, standalone);
    if standalone {
        let a = choose|reached: Seq<ContextsView>| #[trigger]
            spreads(links, start, reached) && spreads(links, with_orphans(reached), left);
        let b = choose|reached: Seq<ContextsView>| #[trigger]
            spreads(links, start, reached) && spreads(links, with_orphans(reached), right);
        crate::module_graph::law_spreading_is_determined(links, start, a, b);
        crate::module_graph::law_spreading_is_determined(links, with_orphans(a), left, right);
    } else {
        crate::module_graph::law_spreading_is_determined(links, start, left, right);
    }
}

/// Whether all files that are reached, and not others, may wait in a queue.
spec fn queued(contexts: Seq<ContextsView>, queue: Seq<usize>) -> bool {
    &&& forall|i: int| 0 <= i < queue.len() ==> #[trigger] queue[i] < contexts.len()
    &&& forall|i: int|
        0 <= i < contexts.len() && #[trigger] contexts[i] != ContextsView::untouched() ==> waits(
            queue,
            0,
            i,
        )
}

/// The links from a file that is not reached hold whatever they lead to.
proof fn lemma_untouched(links: Seq<Seq<ModuleLink>>, contexts: Seq<ContextsView>, file: int)
    requires
        full(contexts),
        0 <= file < contexts.len(),
        contexts[file] == ContextsView::untouched(),
    ensures
        links_hold(links, contexts, file),
{
    assert forall|link: int|
        0 <= link < links[file].len() implies #[trigger] crate::module_graph::link_holds(
        links,
        contexts,
        file,
        link,
    ) by {
        let target = links[file][link].target as int;
        if target < contexts.len() {
            let gate = links[file][link].gate;
            let nothing = ContextsView::untouched();
            assert(nothing.gated(gate) =~= nothing);
            assert(contexts[target].roles.len() == 5);
            assert(contexts[target].merged(nothing) =~= contexts[target]);
        }
    }
}

fn merge_at(contexts: &mut Vec<Contexts>, queue: &mut Vec<usize>, at: usize, other: Contexts)
    requires
        at < old(contexts).len(),
        queued(old(contexts).deep_view(), old(queue)@),
    ensures
        final(contexts).deep_view() == old(contexts).deep_view().update(
            at as int,
            old(contexts).deep_view()[at as int].merged(other.deep_view()),
        ),
        final(contexts).len() == old(contexts).len(),
        queued(final(contexts).deep_view(), final(queue)@),
{
    let ghost before = contexts.deep_view();
    let ghost earlier = queue@;
    let mut context = contexts[at];
    proof {
        assert(before[at as int] == context.deep_view());
    }
    let changed = context.merge(other);
    contexts[at] = context;
    let ghost now = contexts.deep_view();
    proof {
        assert(now =~= before.update(at as int, before[at as int].merged(other.deep_view())));
    }
    if changed {
        queue.push(at);
        proof {
            crate::module_graph::lemma_waits_push(earlier, at, 0);
        }
    }
    proof {
        assert forall|i: int|
            0 <= i < now.len() && #[trigger] now[i] != ContextsView::untouched() implies waits(
            queue@,
            0,
            i,
        ) by {
            if i != at || !changed {
                assert(now[i] == before[i]);
                assert(waits(earlier, 0, i));
            }
        }
    }
}

/// Finds how each source file is reached.
pub fn classify_module_graph(
    known: &Vec<CanonicalPath>,
    entries: &Vec<SourceEntry>,
    targets: &Vec<TargetSeed>,
    standalone: bool,
) -> (contexts: Vec<Contexts>)
    ensures
        contexts.len() == entries.len(),
        classified(
            known.deep_view(),
            entries.deep_view(),
            targets.deep_view(),
            standalone,
            contexts.deep_view(),
        ),
{
    let ghost all = entries.deep_view();
    let ghost forms = known.deep_view();
    let ghost seeds = targets.deep_view();
    let places = index_entries(entries);
    let links = list_links(known, entries, &places);
    let ghost linked = links_of(forms, all);
    let mut contexts = untouched_contexts(entries.len());
    let mut queue: Vec<usize> = Vec::new();
    let mut at: usize = 0;
    proof {
        assert(links.deep_view().len() == links.len());
        assert(all.len() == entries.len());
        assert(seeds.take(0) =~= Seq::<TargetSeedView>::empty());
        assert(contexts.deep_view() =~= with_targets(forms, all, seeds.take(0)));
    }
    while at < targets.len()
        invariant
            places.wf(),
            places.deep_view() == key_places(entry_paths(entries.deep_view())),
            all == entries.deep_view(),
            forms == known.deep_view(),
            seeds == targets.deep_view(),
            contexts.len() == entries.len(),
            at <= seeds.len(),
            contexts.deep_view() == with_targets(forms, all, seeds.take(at as int)),
            queued(contexts.deep_view(), queue@),
        decreases seeds.len() - at,
    {
        proof {
            assert(seeds[at as int] == targets[at as int].deep_view());
            assert(seeds.take(at as int + 1).drop_last() =~= seeds.take(at as int));
        }
        let path = look_up_key(known, targets[at].path.as_str());
        if let Some(place) = find_entry(entries, &places, &path) {
            merge_at(&mut contexts, &mut queue, place, targets[at].contexts);
        }
        at = at + 1;
    }
    proof {
        assert(seeds.take(seeds.len() as int) =~= seeds);
    }
    let ghost seeded = contexts.deep_view();
    if standalone {
        let mut file: usize = 0;
        while file < entries.len()
            invariant
                all == entries.deep_view(),
                all.len() == entries.len(),
                contexts.len() == entries.len(),
                seeded.len() == entries.len(),
                contexts.deep_view().len() == entries.len(),
                file <= all.len(),
                forall|i: int|
                    0 <= i < file ==> #[trigger] contexts.deep_view()[i] == with_roots(
                        all,
                        seeded,
                    )[i],
                forall|i: int|
                    file <= i < entries.len() ==> #[trigger] contexts.deep_view()[i] == seeded[i],
                queued(contexts.deep_view(), queue@),
            decreases all.len() - file,
        {
            proof {
                assert(all[file as int] == entries[file as int].deep_view());
            }
            if crate_root(entries[file].path.as_str()) {
                merge_at(&mut contexts, &mut queue, file, Contexts::production());
            }
            file = file + 1;
        }
        proof {
            assert(contexts.deep_view() =~= with_roots(all, seeded));
        }
    }
    let ghost start = contexts.deep_view();
    proof {
        assert(start == starting_contexts(forms, all, seeds, standalone));
        lemma_full(contexts);
        assert forall|file: int|
            0 <= file < start.len() && !waits(queue@, 0, file) implies #[trigger] links_hold(
            linked,
            start,
            file,
        ) by {
            assert(start[file] == ContextsView::untouched());
            lemma_untouched(linked, start, file);
        }
    }
    propagate(&links, &mut contexts, queue);
    if !standalone {
        return contexts;
    }
    let ghost reached = contexts.deep_view();
    let mut orphans: Vec<usize> = Vec::new();
    let mut file: usize = 0;
    proof {
        lemma_full(contexts);
        assert(reached.len() == entries.len());
    }
    while file < contexts.len()
        invariant
            contexts.len() == entries.len(),
            reached.len() == entries.len(),
            contexts.deep_view().len() == entries.len(),
            file <= contexts.len(),
            full(contexts.deep_view()),
            forall|i: int|
                0 <= i < file ==> #[trigger] contexts.deep_view()[i] == with_orphans(reached)[i],
            forall|i: int|
                file <= i < entries.len() ==> #[trigger] contexts.deep_view()[i] == reached[i],
            forall|i: int| 0 <= i < orphans.len() ==> #[trigger] orphans[i] < contexts.len(),
            forall|i: int|
                0 <= i < entries.len() && !waits(orphans@, 0, i) ==> #[trigger] links_hold(
                    linked,
                    contexts.deep_view(),
                    i,
                ),
        decreases contexts.len() - file,
    {
        let ghost before = contexts.deep_view();
        let ghost earlier = orphans@;
        let mut context = contexts[file];
        proof {
            assert(before[file as int] == context.deep_view());
        }
        if !context.referenced {
            let changed = context.merge(Contexts::production());
            contexts[file] = context;
            let ghost now = contexts.deep_view();
            proof {
                let production = production_context();
                assert(now =~= before.update(
                    file as int,
                    before[file as int].merged(production),
                ));
                law_covering(before[file as int], production, production, Reachability::both());
                lemma_full_update(before, file as int, now[file as int]);
                lemma_grown(linked, before, now, file as int);
            }
            if changed {
                orphans.push(file);
                proof {
                    crate::module_graph::lemma_waits_push(earlier, file, 0);
                }
            }
            proof {
                assert forall|i: int|
                    0 <= i < entries.len() && !waits(orphans@, 0, i) implies #[trigger] links_hold(
                    linked,
                    now,
                    i,
                ) by {
                    if changed {
                        assert(i != file);
                        assert(!waits(earlier, 0, i));
                    } else {
                        assert(now =~= before);
                    }
                    assert(links_hold(linked, before, i));
                }
            }
        }
        file = file + 1;
    }
    proof {
        assert(contexts.deep_view() =~= with_orphans(reached));
    }
    propagate(&links, &mut contexts, orphans);
    proof {
        assert(spreads(linked, start, reached) && spreads(
            linked,
            with_orphans(reached),
            contexts.deep_view(),
        ));
    }
    contexts
}

proof fn lemma_full(contexts: Vec<Contexts>)
    ensures
        full(contexts.deep_view()),
        contexts.deep_view().len() == contexts.len(),
{
    assert forall|i: int| 0 <= i < contexts.deep_view().len() implies (
    #[trigger] contexts.deep_view()[i]).roles.len() == 5 by {
        assert(contexts.deep_view()[i] == contexts[i].deep_view());
    }
}

fn untouched_contexts(count: usize) -> (contexts: Vec<Contexts>)
    ensures
        contexts.len() == count,
        contexts.deep_view() == Seq::new(count as nat, |i: int| ContextsView::untouched()),
{
    let mut contexts: Vec<Contexts> = Vec::new();
    let mut at: usize = 0;
    while at < count
        invariant
            at <= count,
            contexts.len() == at,
            contexts.deep_view() =~= Seq::new(at as nat, |i: int| ContextsView::untouched()),
        decreases count - at,
    {
        push_item(&mut contexts, Contexts::default());
        proof {
            assert(contexts.deep_view().len() == contexts.len());
        }
        at = at + 1;
    }
    contexts
}

/// The counts of the code of a file that is used in one role, behind the first kinds of gates.
pub open spec fn role_sum(
    metrics: Seq<SourceMetrics>,
    contexts: ContextsView,
    role: OutputRole,
    count: int,
) -> SourceMetrics
    decreases count,
{
    if count <= 0 {
        SourceMetrics::zero()
    } else {
        let before = role_sum(metrics, contexts, role, count - 1);
        if contexts.output_role(Reachability::of_index((count - 1) as nat)) == role {
            before.plus(metrics[count - 1])
        } else {
            before
        }
    }
}

/// The counts of the code of a file behind the first kinds of gates.
pub open spec fn file_sum(metrics: Seq<SourceMetrics>, count: int) -> SourceMetrics
    decreases count,
{
    if count <= 0 {
        SourceMetrics::zero()
    } else {
        file_sum(metrics, count - 1).plus(metrics[count - 1])
    }
}

/// Whether the counts of a file can be held together.
pub open spec fn sums_fit(metrics: Seq<SourceMetrics>, count: int) -> bool
    decreases count,
{
    count <= 0 || (sums_fit(metrics, count - 1) && file_sum(metrics, count - 1).fits(
        metrics[count - 1],
    ))
}

/// Whether no count is greater than another.
pub open spec fn at_most(part: SourceMetrics, whole: SourceMetrics) -> bool {
    &&& part.lines.physical <= whole.lines.physical
    &&& part.lines.code <= whole.lines.code
    &&& part.lines.comments <= whole.lines.comments
    &&& part.lines.docs <= whole.lines.docs
    &&& part.lines.blank <= whole.lines.blank
    &&& part.metrics.lexical_complexity <= whole.metrics.lexical_complexity
    &&& part.metrics.cyclomatic_authored <= whole.metrics.cyclomatic_authored
    &&& part.metrics.cognitive_authored <= whole.metrics.cognitive_authored
    &&& part.declared_public <= whole.declared_public
}

/// The code of one role counts at most as much as all code of a file.
pub proof fn lemma_role_sum(
    metrics: Seq<SourceMetrics>,
    contexts: ContextsView,
    role: OutputRole,
    count: int,
)
    requires
        sums_fit(metrics, count),
    ensures
        at_most(role_sum(metrics, contexts, role, count), file_sum(metrics, count)),
    decreases count,
{
    if count > 0 {
        lemma_role_sum(metrics, contexts, role, count - 1);
    }
}

/// The bucket of a file for one role.
pub open spec fn file_bucket(
    entry: SourceEntryView,
    contexts: ContextsView,
    role: OutputRole,
) -> BucketReport {
    let source = role_sum(entry.file.metrics, contexts, role, 9);
    BucketReport {
        role,
        files: if source == SourceMetrics::zero() {
            0
        } else {
            1
        },
        source,
    }
}

/// The role at a place in reports.
pub open spec fn role_at(place: int) -> OutputRole {
    if place <= 0 {
        OutputRole::Production
    } else if place == 1 {
        OutputRole::Test
    } else if place == 2 {
        OutputRole::Bench
    } else if place == 3 {
        OutputRole::Example
    } else if place == 4 {
        OutputRole::Build
    } else if place == 5 {
        OutputRole::Conditional
    } else if place == 6 {
        OutputRole::Inactive
    } else {
        OutputRole::Orphan
    }
}

/// Whether a bucket counts anything.
pub open spec fn counts_anything(bucket: BucketReport) -> bool {
    bucket.files != 0 || bucket.source != SourceMetrics::zero()
}

/// The buckets that count anything.
pub open spec fn filled_buckets(buckets: Seq<BucketReport>) -> Seq<BucketReport> {
    collected(
        buckets,
        |bucket: BucketReport|
            if counts_anything(bucket) {
                Some(bucket)
            } else {
                None
            },
    )
}

fn keep_filled_buckets(buckets: &Vec<BucketReport>) -> (kept: Vec<BucketReport>)
    ensures
        kept.deep_view() == filled_buckets(buckets.deep_view()),
{
    let ghost f = |bucket: BucketReport|
        if counts_anything(bucket) {
            Some(bucket)
        } else {
            None
        };
    let pick = |bucket: &BucketReport| -> (kept: Option<BucketReport>)
        ensures
            kept.deep_view() == f(bucket.deep_view()),
    {
        if bucket.is_empty() {
            None
        } else {
            Some(*bucket)
        }
    };
    collect_items(buckets, pick, Ghost(f))
}

/// All buckets of a file, in the order of reports.
pub open spec fn file_buckets(entry: SourceEntryView, contexts: ContextsView) -> Seq<BucketReport> {
    Seq::new(8, |i: int| file_bucket(entry, contexts, role_at(i)))
}

/// Empty buckets, in the order of reports.
pub open spec fn no_buckets() -> Seq<BucketReport> {
    Seq::new(
        8,
        |i: int| BucketReport { role: role_at(i), files: 0, source: SourceMetrics::zero() },
    )
}

fn empty_buckets() -> (buckets: Vec<BucketReport>)
    ensures
        buckets@ == no_buckets(),
{
    let mut buckets: Vec<BucketReport> = Vec::new();
    let mut place: usize = 0;
    while place < 8
        invariant
            place <= 8,
            buckets@ =~= no_buckets().take(place as int),
        decreases 8 - place,
    {
        let role = OutputRole::at(place);
        proof {
            assert(role == role_at(place as int));
        }
        buckets.push(BucketReport { role, files: 0, source: no_metrics() });
        place = place + 1;
    }
    buckets
}

fn no_metrics() -> (metrics: SourceMetrics)
    ensures
        metrics == SourceMetrics::zero(),
{
    SourceMetrics {
        lines: LineCounts { physical: 0, code: 0, comments: 0, docs: 0, blank: 0 },
        metrics: ComplexityMetrics {
            lexical_complexity: 0,
            cyclomatic_authored: 0,
            cognitive_authored: 0,
        },
        declared_public: 0,
    }
}

/// Counts the code of a file by role, and all of it.
fn count_file(entry: &SourceEntry, contexts: Contexts) -> (counts: (
    Vec<BucketReport>,
    SourceMetrics,
))
    requires
        sums_fit(entry.deep_view().file.metrics, 9),
    ensures
        counts.0@ == file_buckets(entry.deep_view(), contexts.deep_view()),
        counts.1 == file_sum(entry.deep_view().file.metrics, 9),
{
    let ghost told = entry.deep_view();
    let ghost metrics = told.file.metrics;
    let ghost reached = contexts.deep_view();
    let mut buckets = empty_buckets();
    let mut total = no_metrics();
    let mut state: usize = 0;
    while state < 9
        invariant
            told == entry.deep_view(),
            metrics == entry.file.metrics@,
            reached == contexts.deep_view(),
            sums_fit(metrics, 9),
            state <= 9,
            total == file_sum(metrics, state as int),
            buckets@.len() == 8,
            forall|i: int|
                0 <= i < 8 ==> #[trigger] buckets@[i] == (BucketReport {
                    role: role_at(i),
                    files: 0,
                    source: role_sum(metrics, reached, role_at(i), state as int),
                }),
        decreases 9 - state,
    {
        let counted = entry.file.metrics[state];
        let role = contexts.classify(Reachability::from_index(state));
        let slot = role.slot();
        proof {
            lemma_sums_fit(metrics, state as int + 1, 9);
            lemma_role_sum(metrics, reached, role, state as int);
            assert(role == role_at(slot as int));
            assert(buckets@[slot as int].source == role_sum(
                metrics,
                reached,
                role,
                state as int,
            ));
        }
        let mut bucket = buckets[slot];
        bucket.source.add(counted);
        let ghost before = buckets@;
        buckets[slot] = bucket;
        proof {
            assert forall|i: int| 0 <= i < 8 implies #[trigger] buckets@[i] == (BucketReport {
                role: role_at(i),
                files: 0,
                source: role_sum(metrics, reached, role_at(i), state as int + 1),
            }) by {
                if i != slot {
                    assert(buckets@[i] == before[i]);
                    assert(role_at(i) != role);
                }
            }
        }
        total.add(counted);
        state = state + 1;
    }
    let mut slot: usize = 0;
    while slot < 8
        invariant
            told == entry.deep_view(),
            metrics == told.file.metrics,
            reached == contexts.deep_view(),
            slot <= 8,
            buckets@.len() == 8,
            forall|i: int|
                0 <= i < slot ==> #[trigger] buckets@[i] == file_bucket(told, reached, role_at(i)),
            forall|i: int|
                slot <= i < 8 ==> #[trigger] buckets@[i] == (BucketReport {
                    role: role_at(i),
                    files: 0,
                    source: role_sum(metrics, reached, role_at(i), 9),
                }),
        decreases 8 - slot,
    {
        let mut bucket = buckets[slot];
        if !bucket.source.is_empty() {
            bucket.files = 1;
        }
        buckets[slot] = bucket;
        slot = slot + 1;
    }
    proof {
        assert(buckets@ =~= file_buckets(told, reached));
    }
    (buckets, total)
}

proof fn lemma_sums_fit(metrics: Seq<SourceMetrics>, part: int, count: int)
    requires
        0 <= part <= count,
        sums_fit(metrics, count),
    ensures
        sums_fit(metrics, part),
    decreases count,
{
    if part < count {
        lemma_sums_fit(metrics, part, count - 1);
    }
}

/// What is said of the syntax errors of a file.
pub open spec fn syntax_notice(entry: SourceEntryView) -> Seq<DiagnosticView> {
    let errors = entry.file.syntax_errors;
    if errors.len() == 0 {
        Seq::empty()
    } else {
        seq![
            DiagnosticView {
                severity: DiagnosticSeverity::Warning,
                path: Some(entry.display_path),
                message: decimal(errors.len()) + " syntax error(s); first: "@ + errors[0],
            },
        ]
    }
}

/// Picks what is said of a module whose file was not found, where its code is used.
pub open spec fn unresolved_notice(entry: SourceEntryView, contexts: ContextsView) -> spec_fn(
    UnresolvedEdgeView,
) -> Option<DiagnosticView> {
    |edge: UnresolvedEdgeView|
        if contexts.output_role(edge.gate) == OutputRole::Inactive || contexts.output_role(edge.gate)
            == OutputRole::Orphan {
            None
        } else {
            Some(
                DiagnosticView {
                    severity: DiagnosticSeverity::Warning,
                    path: Some(entry.display_path),
                    message: edge.message,
                },
            )
        }
}

/// What is said of a file.
pub open spec fn file_notices(entry: SourceEntryView, contexts: ContextsView) -> Seq<
    DiagnosticView,
> {
    syntax_notice(entry) + collected(
        entry.file.unresolved_edges,
        unresolved_notice(entry, contexts),
    )
}

fn list_file_notices(entry: &SourceEntry, contexts: Contexts) -> (list: Vec<Diagnostic>)
    ensures
        list.deep_view() == file_notices(entry.deep_view(), contexts.deep_view()),
{
    let ghost told = entry.deep_view();
    let mut list: Vec<Diagnostic> = no_items();
    proof {
        assert(told.file.syntax_errors.len() == entry.file.syntax_errors.len());
    }
    if entry.file.syntax_errors.len() > 0 {
        proof {
            assert(told.file.syntax_errors[0] == entry.file.syntax_errors[0]@);
        }
        let mut message = decimal_text(entry.file.syntax_errors.len() as u128);
        message.append(" syntax error(s); first: ");
        message.append(entry.file.syntax_errors[0].as_str());
        push_item(
            &mut list,
            Diagnostic {
                severity: DiagnosticSeverity::Warning,
                path: Some(entry.display_path.clone()),
                message,
            },
        );
    }
    proof {
        assert(list.deep_view() =~= syntax_notice(told));
    }
    let ghost f = unresolved_notice(told, contexts.deep_view());
    let pick = |edge: &UnresolvedEdge| -> (notice: Option<Diagnostic>)
        ensures
            notice.deep_view() == f(edge.deep_view()),
    {
        let role = contexts.classify(edge.gate);
        if role == OutputRole::Inactive || role == OutputRole::Orphan {
            None
        } else {
            Some(
                Diagnostic {
                    severity: DiagnosticSeverity::Warning,
                    path: Some(entry.display_path.clone()),
                    message: edge.message.clone(),
                },
            )
        }
    };
    append_items(&mut list, collect_items(&entry.file.unresolved_edges, pick, Ghost(f)));
    list
}

/// The report on one file.
pub open spec fn file_report(entry: SourceEntryView, contexts: ContextsView) -> FileReportView {
    let total = file_sum(entry.file.metrics, 9);
    FileReportView {
        path: entry.display_path,
        package: entry.package,
        bytes: entry.file.bytes,
        syntax_errors: entry.file.syntax_errors.len() as u64,
        buckets: filled_buckets(file_buckets(entry, contexts)),
        total: total.lines,
        metrics: total.metrics,
    }
}

/// Picks a file that is reported, with its contexts.
pub open spec fn reported_at(
    entries: Seq<SourceEntryView>,
    contexts: Seq<ContextsView>,
) -> spec_fn(int) -> Option<(SourceEntryView, ContextsView)> {
    |i: int|
        if entries[i].reported {
            Some((entries[i], contexts[i]))
        } else {
            None
        }
}

/// The files that are reported, with their contexts.
pub open spec fn reported_files(
    entries: Seq<SourceEntryView>,
    contexts: Seq<ContextsView>,
    count: int,
) -> Seq<(SourceEntryView, ContextsView)> {
    chosen(count, reported_at(entries, contexts))
}

/// The bucket of a project for one role.
pub open spec fn project_bucket(
    files: Seq<(SourceEntryView, ContextsView)>,
    role: OutputRole,
) -> BucketReport
    decreases files.len(),
{
    if files.len() == 0 {
        BucketReport { role, files: 0, source: SourceMetrics::zero() }
    } else {
        project_bucket(files.drop_last(), role).plus(
            file_bucket(files.last().0, files.last().1, role),
        )
    }
}

/// The counts of a project.
pub open spec fn project_sum(files: Seq<(SourceEntryView, ContextsView)>) -> SourceMetrics
    decreases files.len(),
{
    if files.len() == 0 {
        SourceMetrics::zero()
    } else {
        project_sum(files.drop_last()).plus(file_sum(files.last().0.file.metrics, 9))
    }
}

/// The bytes of a project.
pub open spec fn project_bytes(files: Seq<(SourceEntryView, ContextsView)>) -> nat
    decreases files.len(),
{
    if files.len() == 0 {
        0
    } else {
        project_bytes(files.drop_last()) + files.last().0.file.bytes as nat
    }
}

/// Whether the counts of a project can be held together.
pub open spec fn project_fits(files: Seq<(SourceEntryView, ContextsView)>) -> bool
    decreases files.len(),
{
    files.len() == 0 || {
        &&& project_fits(files.drop_last())
        &&& sums_fit(files.last().0.file.metrics, 9)
        &&& project_sum(files.drop_last()).fits(file_sum(files.last().0.file.metrics, 9))
        &&& project_bytes(files) <= u64::MAX
    }
}

/// The code of one role counts at most as much as all code of a project.
pub proof fn lemma_project_bucket(files: Seq<(SourceEntryView, ContextsView)>, role: OutputRole)
    requires
        project_fits(files),
        files.len() <= u64::MAX,
    ensures
        at_most(project_bucket(files, role).source, project_sum(files)),
        project_bucket(files, role).files <= files.len(),
        project_bucket(files, role).role == role,
    decreases files.len(),
{
    if files.len() > 0 {
        lemma_project_bucket(files.drop_last(), role);
        lemma_role_sum(files.last().0.file.metrics, files.last().1, role, 9);
    }
}

proof fn lemma_project_fits(
    entries: Seq<SourceEntryView>,
    contexts: Seq<ContextsView>,
    part: int,
    count: int,
)
    requires
        0 <= part <= count,
        project_fits(reported_files(entries, contexts, count)),
    ensures
        project_fits(reported_files(entries, contexts, part)),
        reported_files(entries, contexts, part).len() <= part,
    decreases count,
{
    if part < count {
        let f = reported_at(entries, contexts);
        if f(count - 1) is Some {
            assert(chosen(count, f).drop_last() =~= chosen(count - 1, f));
        }
        lemma_project_fits(entries, contexts, part, count - 1);
    } else {
        lemma_chosen_bound(entries, contexts, part);
    }
}

proof fn lemma_chosen_bound(
    entries: Seq<SourceEntryView>,
    contexts: Seq<ContextsView>,
    count: int,
)
    requires
        0 <= count,
    ensures
        reported_files(entries, contexts, count).len() <= count,
    decreases count,
{
    if count > 0 {
        lemma_chosen_bound(entries, contexts, count - 1);
    }
}

/// All buckets of a project, in the order of reports.
pub open spec fn project_buckets(files: Seq<(SourceEntryView, ContextsView)>) -> Seq<BucketReport> {
    Seq::new(8, |i: int| project_bucket(files, role_at(i)))
}

/// The report on a project.
pub open spec fn report_of(
    root: Seq<char>,
    selection: SelectionReportView,
    profile: ProfileReportView,
    diagnostics: Seq<DiagnosticView>,
    files: Seq<(SourceEntryView, ContextsView)>,
) -> ReportView {
    let total = project_sum(files);
    ReportView {
        root,
        selection,
        profile,
        file_count: files.len() as u64,
        bytes: project_bytes(files) as u64,
        files: collected(
            files,
            |file: (SourceEntryView, ContextsView)| Some(file_report(file.0, file.1)),
        ),
        buckets: filled_buckets(project_buckets(files)),
        total: total.lines,
        metrics: total.metrics,
        diagnostics: diagnostics + flattened(
            files.len() as int,
            |i: int| file_notices(files[i].0, files[i].1),
        ),
    }
}

/// Source files with what their paths are ordered by.
pub open spec fn keyed_entries(entries: Seq<SourceEntryView>) -> Seq<
    (Seq<(usize, Seq<char>)>, SourceEntryView),
> {
    Seq::new(entries.len(), |i: int| (path_key(entries[i].path), entries[i]))
}

/// Source files in the order of their paths; files of one path keep their order.
pub open spec fn in_path_order(entries: Seq<SourceEntryView>) -> Seq<SourceEntryView> {
    second(stable_sorted::<PathKey, SourceEntry>(keyed_entries(entries)))
}

/// Puts source files in the order of their paths.
pub fn sort_entries(entries: Vec<SourceEntry>) -> (sorted: Vec<SourceEntry>)
    ensures
        sorted.deep_view() == in_path_order(entries.deep_view()),
        sorted.len() == entries.len(),
{
    let ghost all = entries.deep_view();
    let mut keyed: Vec<(PathKey, SourceEntry)> = no_items();
    proof {
        assert(all.len() == entries.len());
        lemma_stable_sorted::<PathKey, SourceEntry>(keyed_entries(all));
    }
    for entry in it: entries
        invariant
            all.len() == it.seq().len(),
            forall|i: int| 0 <= i < all.len() ==> #[trigger] all[i] == it.seq()[i].deep_view(),
            keyed.deep_view() =~= keyed_entries(all).take(it.index() as int),
    {
        proof {
            assert(all[it.index() as int] == entry.deep_view());
        }
        let key = list_path_key(entry.path.as_str());
        push_item(&mut keyed, (key, entry));
    }
    proof {
        assert(keyed.deep_view() =~= keyed_entries(all));
    }
    let sorted = take_second(stable_sort(keyed));
    proof {
        assert(sorted.deep_view().len() == sorted.len());
    }
    sorted
}

/// Inserting an entry adds just what it holds.
proof fn lemma_second_insert(
    s: Seq<(Seq<(usize, Seq<char>)>, SourceEntryView)>,
    entry: (Seq<(usize, Seq<char>)>, SourceEntryView),
)
    ensures
        second(insert_stable::<PathKey, SourceEntry>(s, entry)).to_multiset() == second(
            s,
        ).to_multiset().insert(entry.1),
    decreases s.len(),
{
    broadcast use vstd::seq_lib::group_to_multiset_ensures;

    let t = insert_stable::<PathKey, SourceEntry>(s, entry);
    if s.len() > 0 && PathKey::precedes(entry.0, s.last().0) {
        let head = s.drop_last();
        lemma_second_insert(head, entry);
        assert(second(t) =~= second(insert_stable::<PathKey, SourceEntry>(head, entry)).push(
            s.last().1,
        ));
        assert(second(s) =~= second(head).push(s.last().1));
        assert(second(t).to_multiset() =~= second(s).to_multiset().insert(entry.1));
    } else {
        assert(second(t) =~= second(s).push(entry.1));
    }
}

/// Putting source files in order leaves them the same files, and no path before one that precedes
/// it.
pub proof fn law_sorted_entries(entries: Seq<SourceEntryView>)
    ensures
        in_path_order(entries).len() == entries.len(),
        in_path_order(entries).to_multiset() == entries.to_multiset(),
        forall|i: int, j: int|
            0 <= i < j < entries.len() ==> !PathKey::precedes(
                path_key((#[trigger] in_path_order(entries)[j]).path),
                path_key((#[trigger] in_path_order(entries)[i]).path),
            ),
    decreases entries.len(),
{
    broadcast use vstd::seq_lib::group_to_multiset_ensures;

    let keyed = keyed_entries(entries);
    let sorted = stable_sorted::<PathKey, SourceEntry>(keyed);
    lemma_stable_sorted::<PathKey, SourceEntry>(keyed);
    if entries.len() > 0 {
        let head = entries.drop_last();
        law_sorted_entries(head);
        assert(keyed.drop_last() =~= keyed_entries(head));
        lemma_second_insert(
            stable_sorted::<PathKey, SourceEntry>(keyed_entries(head)),
            keyed.last(),
        );
        assert(entries =~= head.push(entries.last()));
        assert(in_path_order(entries).to_multiset() =~= entries.to_multiset());
    } else {
        assert(in_path_order(entries) =~= entries);
    }
    assert forall|i: int, j: int| 0 <= i < j < entries.len() implies !PathKey::precedes(
        path_key((#[trigger] in_path_order(entries)[j]).path),
        path_key((#[trigger] in_path_order(entries)[i]).path),
    ) by {
        lemma_keyed_entry(entries, i);
        lemma_keyed_entry(entries, j);
        assert(!PathKey::precedes(sorted[j].0, sorted[i].0));
    }
}

proof fn lemma_keyed_entry(entries: Seq<SourceEntryView>, at: int)
    requires
        0 <= at < stable_sorted::<PathKey, SourceEntry>(keyed_entries(entries)).len(),
    ensures
        stable_sorted::<PathKey, SourceEntry>(keyed_entries(entries))[at].0 == path_key(
            stable_sorted::<PathKey, SourceEntry>(keyed_entries(entries))[at].1.path,
        ),
{
    lemma_stable_sorted_member::<PathKey, SourceEntry>(keyed_entries(entries), at);
}

proof fn lemma_reported_order(
    entries: Seq<SourceEntryView>,
    contexts: Seq<ContextsView>,
    count: int,
)
    requires
        0 <= count <= entries.len(),
        forall|i: int, j: int|
            0 <= i < j < entries.len() ==> !PathKey::precedes(
                path_key((#[trigger] entries[j]).path),
                path_key((#[trigger] entries[i]).path),
            ),
    ensures
        forall|i: int|
            0 <= i < reported_files(entries, contexts, count).len() ==> exists|k: int|
                0 <= k < count && (#[trigger] reported_files(entries, contexts, count)[i]).0
                    == #[trigger] entries[k],
        forall|i: int, j: int|
            0 <= i < j < reported_files(entries, contexts, count).len() ==> !PathKey::precedes(
                path_key((#[trigger] reported_files(entries, contexts, count)[j]).0.path),
                path_key((#[trigger] reported_files(entries, contexts, count)[i]).0.path),
            ),
    decreases count,
{
    if count > 0 {
        lemma_reported_order(entries, contexts, count - 1);
        let before = reported_files(entries, contexts, count - 1);
        let now = reported_files(entries, contexts, count);
        assert forall|i: int| 0 <= i < now.len() implies exists|k: int|
            0 <= k < count && (#[trigger] now[i]).0 == #[trigger] entries[k] by {
            if i < before.len() {
                assert(now[i] == before[i]);
                let k = choose|k: int|
                    0 <= k < count - 1 && before[i].0 == #[trigger] entries[k];
                assert(now[i].0 == entries[k]);
            } else {
                assert(now[i].0 == entries[count - 1]);
            }
        }
        assert forall|i: int, j: int| 0 <= i < j < now.len() implies !PathKey::precedes(
            path_key((#[trigger] now[j]).0.path),
            path_key((#[trigger] now[i]).0.path),
        ) by {
            assert(now[i] == before[i]);
            if j < before.len() {
                assert(now[j] == before[j]);
            } else {
                let k = choose|k: int|
                    0 <= k < count - 1 && before[i].0 == #[trigger] entries[k];
                assert(now[j].0 == entries[count - 1]);
            }
        }
    }
}

/// The files of a report come in the order of their paths.
pub proof fn law_files_come_in_path_order(
    entries: Seq<SourceEntryView>,
    contexts: Seq<ContextsView>,
)
    ensures
        ({
            let files = reported_files(in_path_order(entries), contexts, entries.len() as int);
            forall|i: int, j: int|
                0 <= i < j < files.len() ==> !PathKey::precedes(
                    path_key((#[trigger] files[j]).0.path),
                    path_key((#[trigger] files[i]).0.path),
                )
        }),
{
    law_sorted_entries(entries);
    lemma_reported_order(in_path_order(entries), contexts, entries.len() as int);
}

/// Whether the counts of all files that are reported can be held together, however the files are
/// reached.
pub open spec fn entries_fit(entries: Seq<SourceEntryView>) -> bool {
    forall|contexts: Seq<ContextsView>|
        contexts.len() == entries.len() ==> project_fits(
            #[trigger] reported_files(entries, contexts, entries.len() as int),
        )
}

/// Finds how the source files of a project are reached, and reports on them in the order of their
/// paths.
pub fn report_project(
    root: String,
    selection: SelectionReport,
    profile: ProfileReport,
    diagnostics: Vec<Diagnostic>,
    known: &Vec<CanonicalPath>,
    entries: Vec<SourceEntry>,
    targets: &Vec<TargetSeed>,
    standalone: bool,
) -> (report: Report)
    requires
        entries_fit(in_path_order(entries.deep_view())),
    ensures
        exists|contexts: Seq<ContextsView>|
            #[trigger] classified(
                known.deep_view(),
                in_path_order(entries.deep_view()),
                targets.deep_view(),
                standalone,
                contexts,
            ) && report.deep_view() == report_of(
                root@,
                selection.deep_view(),
                profile.deep_view(),
                diagnostics.deep_view(),
                reported_files(
                    in_path_order(entries.deep_view()),
                    contexts,
                    entries.len() as int,
                ),
            ),
{
    let sorted = sort_entries(entries);
    let contexts = classify_module_graph(known, &sorted, targets, standalone);
    proof {
        assert(sorted.deep_view().len() == sorted.len());
        assert(contexts.deep_view().len() == contexts.len());
    }
    let report = build_report(root, selection, profile, diagnostics, &sorted, &contexts);
    proof {
        assert(classified(
            known.deep_view(),
            sorted.deep_view(),
            targets.deep_view(),
            standalone,
            contexts.deep_view(),
        ));
    }
    report
}

/// Reports on a project, its files in the order in which they are given.
pub fn build_report(
    root: String,
    selection: SelectionReport,
    profile: ProfileReport,
    diagnostics: Vec<Diagnostic>,
    entries: &Vec<SourceEntry>,
    contexts: &Vec<Contexts>,
) -> (report: Report)
    requires
        entries.len() == contexts.len(),
        project_fits(
            reported_files(entries.deep_view(), contexts.deep_view(), entries.len() as int),
        ),
    ensures
        report.deep_view() == report_of(
            root@,
            selection.deep_view(),
            profile.deep_view(),
            diagnostics.deep_view(),
            reported_files(entries.deep_view(), contexts.deep_view(), entries.len() as int),
        ),
{
    let ghost all = entries.deep_view();
    let ghost reached = contexts.deep_view();
    let ghost noted = diagnostics.deep_view();
    let ghost f = |file: (SourceEntryView, ContextsView)| Some(file_report(file.0, file.1));
    let ghost picked = reported_at(all, reached);
    let mut diagnostics = diagnostics;
    let mut buckets = empty_buckets();
    let mut total = no_metrics();
    let mut files: Vec<FileReport> = no_items();
    let mut bytes: u64 = 0;
    let mut at: usize = 0;
    proof {
        let none = reported_files(all, reached, 0);
        assert(none =~= Seq::<(SourceEntryView, ContextsView)>::empty());
        assert(noted + flattened(0, |i: int| file_notices(none[i].0, none[i].1)) =~= noted);
        assert(buckets@ =~= project_buckets(none));
        assert(files.deep_view() =~= collected(none, f));
    }
    while at < entries.len()
        invariant
            all == entries.deep_view(),
            reached == contexts.deep_view(),
            entries.len() == contexts.len(),
            f == |file: (SourceEntryView, ContextsView)| Some(file_report(file.0, file.1)),
            picked == reported_at(all, reached),
            project_fits(reported_files(all, reached, entries.len() as int)),
            at <= entries.len(),
            buckets@ == project_buckets(reported_files(all, reached, at as int)),
            total == project_sum(reported_files(all, reached, at as int)),
            bytes == project_bytes(reported_files(all, reached, at as int)),
            files.deep_view() == collected(reported_files(all, reached, at as int), f),
            files.deep_view().len() == reported_files(all, reached, at as int).len(),
            diagnostics.deep_view() == noted + flattened(
                reported_files(all, reached, at as int).len() as int,
                |i: int|
                    file_notices(
                        reported_files(all, reached, at as int)[i].0,
                        reported_files(all, reached, at as int)[i].1,
                    ),
            ),
        decreases entries.len() - at,
    {
        let entry = &entries[at];
        let context = contexts[at];
        let ghost before = reported_files(all, reached, at as int);
        let ghost now = reported_files(all, reached, at as int + 1);
        proof {
            assert(all[at as int] == entry.deep_view());
            assert(reached[at as int] == context.deep_view());
            lemma_project_fits(all, reached, at as int + 1, entries.len() as int);
            lemma_project_fits(all, reached, at as int, entries.len() as int);
        }
        if entry.reported {
            proof {
                assert(now.drop_last() =~= before);
                assert(now.last() == (entry.deep_view(), context.deep_view()));
            }
            let (file_counts, source) = count_file(entry, context);
            append_items(&mut diagnostics, list_file_notices(entry, context));
            proof {
                lemma_flattened_same(
                    before,
                    now,
                    before.len() as int,
                );
            }
            add_buckets(
                &mut buckets,
                &file_counts,
                Ghost(before),
                Ghost(entry.deep_view()),
                Ghost(context.deep_view()),
            );
            proof {
                assert(buckets@ =~= project_buckets(now));
            }
            total.add(source);
            bytes = bytes + entry.file.bytes;
            let ghost listed = files.deep_view();
            push_item(
                &mut files,
                FileReport {
                    path: entry.display_path.clone(),
                    package: match &entry.package {
                        Some(package) => Some(package.clone()),
                        None => None,
                    },
                    bytes: entry.file.bytes,
                    syntax_errors: entry.file.syntax_errors.len() as u64,
                    buckets: keep_filled_buckets(&file_counts),
                    total: source.lines,
                    metrics: source.metrics,
                },
            );
            proof {
                assert(file_counts.deep_view() =~= file_counts@);
                assert(entry.deep_view().file.syntax_errors.len()
                    == entry.file.syntax_errors.len());
                assert(files.deep_view() == listed.push(
                    file_report(entry.deep_view(), context.deep_view()),
                ));
                assert(files.deep_view() =~= collected(now, f));
            }
        } else {
            proof {
                assert(now == before);
            }
        }
        at = at + 1;
    }
    proof {
        assert(files.deep_view().len() == files.len());
        assert(buckets.deep_view() =~= buckets@);
    }
    Report {
        root,
        selection,
        profile,
        file_count: files.len() as u64,
        bytes,
        files,
        buckets: keep_filled_buckets(&buckets),
        total: total.lines,
        metrics: total.metrics,
        diagnostics,
    }
}

proof fn lemma_flattened_same(
    before: Seq<(SourceEntryView, ContextsView)>,
    now: Seq<(SourceEntryView, ContextsView)>,
    count: int,
)
    requires
        0 <= count <= before.len() <= now.len(),
        forall|i: int| 0 <= i < before.len() ==> #[trigger] now[i] == before[i],
    ensures
        flattened(count, |i: int| file_notices(before[i].0, before[i].1)) == flattened(
            count,
            |i: int| file_notices(now[i].0, now[i].1),
        ),
    decreases count,
{
    if count > 0 {
        lemma_flattened_same(before, now, count - 1);
        assert(now[count - 1] == before[count - 1]);
    }
}

fn add_buckets(
    buckets: &mut Vec<BucketReport>,
    more: &Vec<BucketReport>,
    Ghost(files): Ghost<Seq<(SourceEntryView, ContextsView)>>,
    Ghost(entry): Ghost<SourceEntryView>,
    Ghost(contexts): Ghost<ContextsView>,
)
    requires
        old(buckets)@ == project_buckets(files),
        more@ == file_buckets(entry, contexts),
        project_fits(files.push((entry, contexts))),
        files.len() < u64::MAX,
    ensures
        final(buckets)@ == project_buckets(files.push((entry, contexts))),
{
    let ghost grown = files.push((entry, contexts));
    let ghost start = project_buckets(files);
    let mut slot: usize = 0;
    proof {
        assert(grown.drop_last() =~= files);
    }
    while slot < 8
        invariant
            start == project_buckets(files),
            grown == files.push((entry, contexts)),
            grown.drop_last() == files,
            more@ == file_buckets(entry, contexts),
            project_fits(grown),
            files.len() < u64::MAX,
            slot <= 8,
            buckets@.len() == 8,
            forall|i: int|
                0 <= i < slot ==> #[trigger] buckets@[i] == project_bucket(grown, role_at(i)),
            forall|i: int| slot <= i < 8 ==> #[trigger] buckets@[i] == start[i],
        decreases 8 - slot,
    {
        let ghost role = role_at(slot as int);
        proof {
            assert(buckets@[slot as int] == project_bucket(files, role));
            assert(more@[slot as int] == file_bucket(entry, contexts, role));
            assert(project_fits(files));
            lemma_project_bucket(files, role);
            lemma_role_sum(entry.file.metrics, contexts, role, 9);
        }
        let mut bucket = buckets[slot];
        bucket.add(&more[slot]);
        buckets[slot] = bucket;
        slot = slot + 1;
    }
    proof {
        assert(buckets@ =~= project_buckets(grown));
    }
}

/// One of the counts of a piece of source.
pub open spec fn count_at(counts: SourceMetrics, place: int) -> int {
    if place == 0 {
        counts.lines.physical as int
    } else if place == 1 {
        counts.lines.code as int
    } else if place == 2 {
        counts.lines.comments as int
    } else if place == 3 {
        counts.lines.docs as int
    } else if place == 4 {
        counts.lines.blank as int
    } else if place == 5 {
        counts.metrics.lexical_complexity as int
    } else if place == 6 {
        counts.metrics.cyclomatic_authored as int
    } else if place == 7 {
        counts.metrics.cognitive_authored as int
    } else {
        counts.declared_public as int
    }
}

/// Everything in a file is counted in exactly one role: each count of the file is the sum of those
/// of all roles.
pub proof fn law_roles_add_up(
    metrics: Seq<SourceMetrics>,
    contexts: ContextsView,
    count: int,
    place: int,
)
    requires
        sums_fit(metrics, count),
    ensures
        count_at(role_sum(metrics, contexts, OutputRole::Production, count), place) + count_at(
            role_sum(metrics, contexts, OutputRole::Test, count),
            place,
        ) + count_at(role_sum(metrics, contexts, OutputRole::Bench, count), place) + count_at(
            role_sum(metrics, contexts, OutputRole::Example, count),
            place,
        ) + count_at(role_sum(metrics, contexts, OutputRole::Build, count), place) + count_at(
            role_sum(metrics, contexts, OutputRole::Conditional, count),
            place,
        ) + count_at(role_sum(metrics, contexts, OutputRole::Inactive, count), place) + count_at(
            role_sum(metrics, contexts, OutputRole::Orphan, count),
            place,
        ) == count_at(file_sum(metrics, count), place),
    decreases count,
{
    if count > 0 {
        law_roles_add_up(metrics, contexts, count - 1, place);
        let role = contexts.output_role(Reachability::of_index((count - 1) as nat));
        lemma_role_sum(metrics, contexts, role, count - 1);
        let before = role_sum(metrics, contexts, role, count - 1);
        assert(role_sum(metrics, contexts, role, count) == before.plus(metrics[count - 1]));
        assert(count_at(before.plus(metrics[count - 1]), place) == count_at(before, place)
            + count_at(metrics[count - 1], place));
        assert(count_at(file_sum(metrics, count), place) == count_at(
            file_sum(metrics, count - 1),
            place,
        ) + count_at(metrics[count - 1], place));
    }
}

/// What is said of a file that cannot be read.
pub open spec fn unreadable_notice(display_path: Seq<char>, error: Seq<char>) -> DiagnosticView {
    DiagnosticView {
        severity: DiagnosticSeverity::Error,
        path: Some(display_path),
        message: "cannot read source: "@ + error,
    }
}

/// Says that a file cannot be read.
pub fn read_failure(display_path: String, error: &str) -> (notice: Diagnostic)
    ensures
        notice.deep_view() == unreadable_notice(display_path@, error@),
{
    let mut message = "cannot read source: ".to_owned();
    message.append(error);
    Diagnostic { severity: DiagnosticSeverity::Error, path: Some(display_path), message }
}

/// The files that are to be read, with one added, unless it is among them or was read already.
/// Equal paths are one file, by the path that came first.
pub open spec fn with_request(
    waiting: Map<Seq<(usize, Seq<char>)>, Seq<char>>,
    done: Set<Seq<(usize, Seq<char>)>>,
    path: Seq<char>,
) -> Map<Seq<(usize, Seq<char>)>, Seq<char>> {
    if done.contains(path_key(path)) || waiting.contains_key(path_key(path)) {
        waiting
    } else {
        waiting.insert(path_key(path), path)
    }
}

/// The files that are to be read, with those added that declarations of modules lead to.
pub open spec fn with_edges(
    waiting: Map<Seq<(usize, Seq<char>)>, Seq<char>>,
    done: Set<Seq<(usize, Seq<char>)>>,
    known: Seq<CanonicalPathView>,
    edges: Seq<ModuleEdgeView>,
) -> Map<Seq<(usize, Seq<char>)>, Seq<char>>
    decreases edges.len(),
{
    if edges.len() == 0 {
        waiting
    } else {
        with_request(
            with_edges(waiting, done, known, edges.drop_last()),
            done,
            canonical_form(known, edges.last().target),
        )
    }
}

/// The files that are still to be read, and those that were.
#[derive(Debug, PartialEq, Eq)]
pub struct Discovery {
    pending: SortedMap<PathKey, String>,
    analyzed: SortedSet<PathKey>,
}

impl Discovery {
    /// Whether both collections are in order.
    pub closed spec fn wf(&self) -> bool {
        self.pending.wf() && self.analyzed.wf()
    }

    /// The files that are still to be read, by what their paths are compared by.
    pub closed spec fn waiting(&self) -> Map<Seq<(usize, Seq<char>)>, Seq<char>> {
        self.pending.deep_view()
    }

    /// The files that were read.
    pub closed spec fn done(&self) -> Set<Seq<(usize, Seq<char>)>> {
        self.analyzed.deep_view()
    }

    /// Nothing to read yet.
    pub fn new() -> (discovery: Self)
        ensures
            discovery.wf(),
            discovery.waiting() == Map::<Seq<(usize, Seq<char>)>, Seq<char>>::empty(),
            discovery.done() == Set::<Seq<(usize, Seq<char>)>>::empty(),
    {
        let pending: SortedMap<PathKey, String> = SortedMap::new();
        let analyzed: SortedSet<PathKey> = SortedSet::new();
        Discovery { pending, analyzed }
    }

    /// Adds a file, unless it was read already.
    pub fn request(&mut self, path: String)
        requires
            old(self).wf(),
        ensures
            final(self).wf(),
            final(self).done() == old(self).done(),
            final(self).waiting() == with_request(old(self).waiting(), old(self).done(), path@),
    {
        let key = list_path_key(path.as_str());
        if !self.analyzed.contains(&key) && !self.pending.contains_key(&key) {
            self.pending.insert(key, path);
        }
    }

    /// Takes all files that are to be read next, in the order of their paths.
    pub fn next_batch(&mut self) -> (batch: Vec<String>)
        requires
            old(self).wf(),
        ensures
            final(self).wf(),
            final(self).waiting() == Map::<Seq<(usize, Seq<char>)>, Seq<char>>::empty(),
            final(self).done() == old(self).done(),
            batch.deep_view() == picked_entries::<PathKey, _, _>(
                old(self).waiting(),
                |key: Seq<(usize, Seq<char>)>, path: Seq<char>|
                    if old(self).done().contains(key) {
                        None
                    } else {
                        Some(path)
                    },
            ),
    {
        let ghost done = self.analyzed.deep_view();
        let mut pending: SortedMap<PathKey, String> = SortedMap::new();
        std::mem::swap(&mut pending, &mut self.pending);
        let analyzed = &self.analyzed;
        let ghost f = |key: Seq<(usize, Seq<char>)>, path: Seq<char>|
            if done.contains(key) {
                None
            } else {
                Some(path)
            };
        let pick = |key: &PathKey, path: &String| -> (kept: Option<String>)
            requires
                analyzed.wf(),
            ensures
                kept.deep_view() == f(key.deep_view(), path.deep_view()),
        {
            if analyzed.contains(key) {
                None
            } else {
                Some(path.clone())
            }
        };
        collect_entries(&pending, pick, Ghost(f))
    }

    /// Notes that a file was read, and adds the files that it leads to.
    pub fn record(&mut self, path: String, known: &Vec<CanonicalPath>, file: &LocalFile)
        requires
            old(self).wf(),
        ensures
            final(self).wf(),
            final(self).done() == old(self).done().insert(path_key(path@)),
            final(self).waiting() == with_edges(
                old(self).waiting(),
                old(self).done(),
                known.deep_view(),
                file.deep_view().edges,
            ),
    {
        let ghost edges = file.deep_view().edges;
        let ghost forms = known.deep_view();
        let ghost start = self.waiting();
        let ghost done = self.done();
        let mut at: usize = 0;
        proof {
            assert(edges.take(0) =~= Seq::<ModuleEdgeView>::empty());
        }
        while at < file.edges.len()
            invariant
                edges == file.edges.deep_view(),
                forms == known.deep_view(),
                self.wf(),
                self.done() == done,
                at <= edges.len(),
                self.waiting() == with_edges(start, done, forms, edges.take(at as int)),
            decreases edges.len() - at,
        {
            proof {
                assert(edges[at as int] == file.edges[at as int].deep_view());
                assert(edges.take(at as int + 1).drop_last() =~= edges.take(at as int));
            }
            self.request(look_up(known, file.edges[at].target.as_str()));
            at = at + 1;
        }
        proof {
            assert(edges.take(edges.len() as int) =~= edges);
        }
        self.analyzed.insert(list_path_key(path.as_str()));
    }
}

/// A path as it is written in a selection: below the root, or as it is.
pub open spec fn selected_path(root: Seq<char>, path: Seq<char>) -> Seq<char> {
    let relative = match path_below(path, root) {
        Some(rest) => rest,
        None => path,
    };
    if relative.len() == 0 {
        "."@
    } else {
        portable_path(relative)
    }
}

/// A path that was asked for, as it is written in a selection.
pub open spec fn selected_of(root: Seq<char>) -> spec_fn(RequestedPathView) -> Option<
    SelectedPathReportView,
> {
    |path: RequestedPathView|
        Some(
            SelectedPathReportView {
                path: selected_path(root, path.path),
                kind: if path.directory {
                    SelectedPathKind::Directory
                } else {
                    SelectedPathKind::File
                },
            },
        )
}

/// What was selected.
pub open spec fn selection_of(
    root: Seq<char>,
    requested: Seq<RequestedPathView>,
    hidden: bool,
    respect_ignores: bool,
) -> SelectionReportView {
    SelectionReportView {
        paths: crate::collections::ascending::<SelectedPathReport>(
            collected(requested, selected_of(root)).to_set(),
        ),
        include_hidden: hidden,
        respect_ignores,
        ignore_boundary: "path"@,
    }
}

/// Reports what was selected.
pub fn selection_report(
    root: &str,
    requested: &Vec<RequestedPath>,
    hidden: bool,
    respect_ignores: bool,
) -> (selection: SelectionReport)
    ensures
        selection.deep_view() == selection_of(
            root@,
            requested.deep_view(),
            hidden,
            respect_ignores,
        ),
{
    let ghost f = selected_of(root@);
    let pick = |path: &RequestedPath| -> (selected: Option<SelectedPathReport>)
        ensures
            selected.deep_view() == f(path.deep_view()),
    {
        Some(
            SelectedPathReport {
                path: write_selected_path(root, path.path.as_str()),
                kind: if path.directory {
                    SelectedPathKind::Directory
                } else {
                    SelectedPathKind::File
                },
            },
        )
    };
    SelectionReport::new(collect_items(requested, pick, Ghost(f)), hidden, respect_ignores)
}

fn write_selected_path(root: &str, path: &str) -> (text: String)
    ensures
        text@ == selected_path(root@, path@),
{
    let relative = match strip_base(path, root) {
        Some(rest) => rest,
        None => path.to_owned(),
    };
    proof {
        reveal_strlit("");
    }
    if same(relative.as_str(), "") {
        ".".to_owned()
    } else {
        proof {
            if relative@.len() == 0 {
                assert(relative@ =~= ""@);
            }
        }
        portable(relative.as_str())
    }
}

/// How many workers analyze files.
pub open spec fn worker_count(threads: Option<usize>, available: usize) -> Option<usize> {
    match threads {
        Some(workers) => if workers == 0 {
            None
        } else {
            Some(workers)
        },
        None => Some(available),
    }
}

/// Decides how many workers analyze files: as many as asked for, else as many as there is room for.
pub fn choose_workers(threads: Option<usize>, available: usize) -> (workers: Result<usize, String>)
    ensures
        match workers {
            Ok(workers) => worker_count(threads, available) == Some(workers),
            Err(message) => worker_count(threads, available) is None && message@
                == "--threads must be greater than zero"@,
        },
{
    match threads {
        Some(workers) => if workers == 0 {
            Err("--threads must be greater than zero".to_owned())
        } else {
            Ok(workers)
        },
        None => Ok(available),
    }
}

} // verus!
