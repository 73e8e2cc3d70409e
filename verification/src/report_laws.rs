//! What reports and comparisons say of the files that were read.

use vstd::prelude::*;

use crate::analyze::{
    classified, count_at, counts_anything, entry_paths, file_notices, file_sum, filled_buckets, is_crate_root,
    law_roles_add_up, lemma_project_bucket, lemma_role_sum, link_of, links_of, project_bucket,
    project_bytes, project_fits, project_sum, role_sum, unresolved_notice, with_orphans,
    with_roots, with_targets, worker_count, SourceEntryView, TargetSeedView,
};
use crate::collections::{
    ascending, assembled, collected, key_place, lemma_ascending_exists, lemma_collected_member,
    lemma_count_bound, lemma_key_place, lemma_stable_sorted, lemma_stable_sorted_member, numbered, second,
    stable_sorted,
};
use crate::compiler::graph::{canonical_key, CanonicalPathView};
use crate::compiler::world_laws::lemma_kept;
use crate::diff::{
    changed_files, file_change, file_under, has_status, ranked_file, ranking, status_counts,
    top_files, Change, FileChange, FileChangeView, FileOrder, FileStatus,
};
use crate::model::{
    bucket_of, law_contexts_merge, law_reachability_index, Activation, BucketReport, ContextsView, DiagnosticSeverity,
    DiagnosticView, FileReportView, OutputRole, Reachability, SourceMetrics,
};
use crate::module_graph::{
    all_cover, covers, full, law_covering, link_holds, links_hold, settled, ModuleLink,
};
use crate::order::{seq_precedes, Ordered};
use crate::paths::path_key;

verus! {

/// Whether an entry is where a path is found: the last one with its key.
pub open spec fn found_at(
    entries: Seq<SourceEntryView>,
    key: Seq<(usize, Seq<char>)>,
    place: int,
) -> bool {
    &&& 0 <= place < entries.len()
    &&& path_key(entries[place].path) == key
    &&& forall|later: int|
        place < later < entries.len() ==> path_key((#[trigger] entries[later]).path) != key
}

proof fn lemma_last_place<K>(keys: Seq<K>, count: int, key: K)
    requires
        0 <= count <= keys.len() <= usize::MAX,
    ensures
        assembled(numbered(keys).take(count)).contains_key(key) <==> exists|i: int|
            0 <= i < count && #[trigger] keys[i] == key,
        assembled(numbered(keys).take(count)).contains_key(key) ==> {
            let place = assembled(numbered(keys).take(count))[key];
            &&& place < count
            &&& keys[place as int] == key
            &&& forall|later: int| place < later < count ==> #[trigger] keys[later] != key
        },
    decreases count,
{
    let all = numbered(keys);
    if count > 0 {
        lemma_last_place(keys, count - 1, key);
        assert(all.take(count).drop_last() =~= all.take(count - 1));
        assert(all.take(count).last() == (keys[count - 1], (count - 1) as usize));
        if keys[count - 1] == key {
            assert(assembled(all.take(count)).contains_key(key));
        }
    }
}

/// A path leads to the last entry with its key.
proof fn lemma_found(entries: Seq<SourceEntryView>, key: Seq<(usize, Seq<char>)>, place: int)
    requires
        entries.len() <= usize::MAX,
    ensures
        found_at(entries, key, place) <==> 0 <= place <= usize::MAX && key_place(
            entry_paths(entries),
            key,
        ) == Some(place as usize),
{
    let keys = entry_paths(entries);
    lemma_last_place(keys, keys.len() as int, key);
    assert(numbered(keys).take(keys.len() as int) =~= numbered(keys));
    if found_at(entries, key, place) {
        assert(keys[place] == key);
        let other = key_place(keys, key)->0 as int;
        if other < place {
            assert(keys[place] != key);
        }
        if place < other {
            assert(path_key(entries[other].path) != key);
        }
    }
    if 0 <= place <= usize::MAX && key_place(keys, key) == Some(place as usize) {
        assert forall|later: int| place < later < entries.len() implies path_key(
            (#[trigger] entries[later]).path,
        ) != key by {
            assert(keys[later] != key);
        }
    }
}

/// Whether a context is at least as active as another one behind a gate: wherever that one is
/// reached and code behind it is let through.
pub open spec fn at_least_gated(wide: ContextsView, narrow: ContextsView, gate: Reachability) -> bool {
    &&& forall|r: int|
        0 <= r < 5 ==> {
            let w = #[trigger] wide.roles[r];
            let n = narrow.roles[r];
            &&& n.production == Activation::Always && gate.production == Activation::Always
                ==> w.production == Activation::Always
            &&& n.production != Activation::Never && gate.production != Activation::Never
                ==> w.production != Activation::Never
            &&& n.test == Activation::Always && gate.test == Activation::Always ==> w.test
                == Activation::Always
            &&& n.test != Activation::Never && gate.test != Activation::Never ==> w.test
                != Activation::Never
        }
    &&& narrow.referenced ==> wide.referenced
}

proof fn lemma_covers(wide: ContextsView, narrow: ContextsView, gate: Reachability)
    requires
        wide.roles.len() == 5,
        narrow.roles.len() == 5,
        covers(wide, narrow.gated(gate)),
    ensures
        at_least_gated(wide, narrow, gate),
{
    let merged = wide.merged(narrow.gated(gate));
    assert forall|r: int| 0 <= r < 5 implies {
        let w = #[trigger] wide.roles[r];
        let n = narrow.roles[r];
        &&& n.production == Activation::Always && gate.production == Activation::Always
            ==> w.production == Activation::Always
        &&& n.production != Activation::Never && gate.production != Activation::Never
            ==> w.production != Activation::Never
        &&& n.test == Activation::Always && gate.test == Activation::Always ==> w.test
            == Activation::Always
        &&& n.test != Activation::Never && gate.test != Activation::Never ==> w.test
            != Activation::Never
    } by {
        assert(merged.roles[r] == wide.roles[r]);
    }
}

/// The file that a module declaration leads to is reached wherever the declaring file is and the
/// declaration is part of the build.
pub proof fn law_modules_are_reached_through_declarations(
    known: Seq<CanonicalPathView>,
    entries: Seq<SourceEntryView>,
    targets: Seq<TargetSeedView>,
    contexts: Seq<ContextsView>,
    standalone: bool,
    file: int,
    edge: int,
    place: int,
)
    requires
        entries.len() <= usize::MAX,
        contexts.len() == entries.len(),
        classified(known, entries, targets, standalone, contexts),
        0 <= file < entries.len(),
        0 <= edge < entries[file].file.edges.len(),
        found_at(entries, canonical_key(known, entries[file].file.edges[edge].target), place),
    ensures
        at_least_gated(contexts[place], contexts[file], entries[file].file.edges[edge].gate),
{
    let declared = entries[file].file.edges[edge];
    let links = links_of(known, entries);
    lemma_found(entries, canonical_key(known, declared.target), place);
    let f = link_of(known, entries);
    lemma_kept(entries[file].file.edges, f, edge);
    let link = ModuleLink { target: place as usize, gate: declared.gate };
    assert(links[file].contains(link));
    let n = choose|n: int| 0 <= n < links[file].len() && links[file][n] == link;
    assert(settled(links, contexts));
    assert(links_hold(links, contexts, file));
    assert(link_holds(links, contexts, file, n));
    assert(full(contexts));
    lemma_covers(contexts[place], contexts[file], declared.gate);
}

/// With targets, a file that is the root of none of them and that no module declaration leads to
/// is not reached at all.
pub proof fn law_undeclared_files_are_not_reached(
    known: Seq<CanonicalPathView>,
    entries: Seq<SourceEntryView>,
    targets: Seq<TargetSeedView>,
    contexts: Seq<ContextsView>,
    place: int,
)
    requires
        entries.len() <= usize::MAX,
        contexts.len() == entries.len(),
        classified(known, entries, targets, false, contexts),
        0 <= place < entries.len(),
        forall|t: int|
            0 <= t < targets.len() ==> !found_at(
                entries,
                canonical_key(known, (#[trigger] targets[t]).path),
                place,
            ),
        forall|file: int, edge: int|
            0 <= file < entries.len() && 0 <= edge < entries[file].file.edges.len() ==> !found_at(
                entries,
                canonical_key(known, (#[trigger] entries[file].file.edges[edge]).target),
                place,
            ),
        forall|t: int| 0 <= t < targets.len() ==> (#[trigger] targets[t]).contexts.roles.len() == 5,
    ensures
        !contexts[place].referenced,
        forall|r: int|
            0 <= r < 5 ==> (#[trigger] contexts[place].roles[r]).production == Activation::Never
                && contexts[place].roles[r].test == Activation::Never,
{
    let links = links_of(known, entries);
    let start = with_targets(known, entries, targets);
    lemma_untouched(known, entries, targets, place);
    let none = ContextsView::untouched();
    let other = contexts.update(place, none);
    assert(all_cover(other, start)) by {
        assert forall|i: int| 0 <= i < other.len() implies covers(#[trigger] other[i], start[i]) by {
            if i == place {
                assert(none.merged(none) =~= none);
            } else {
                assert(covers(contexts[i], start[i]));
            }
        }
    }
    assert(full(other));
    assert(settled(links, other)) by {
        assert forall|file: int| 0 <= file < other.len() implies #[trigger] links_hold(
            links,
            other,
            file,
        ) by {
            assert forall|n: int| 0 <= n < links[file].len() implies #[trigger] link_holds(
                links,
                other,
                file,
                n,
            ) by {
                let link = links[file][n];
                let f = link_of(known, entries);
                assert(collected(entries[file].file.edges, f).contains(link));
                let at = lemma_collected_member(entries[file].file.edges, f, link);
                let key = canonical_key(known, entries[file].file.edges[at].target);
                lemma_found(entries, key, link.target as int);
                lemma_found(entries, key, place);
                assert(link.target != place);
                assert(links_hold(links, contexts, file));
                assert(link_holds(links, contexts, file, n));
                if file == place {
                    assert(none.gated(link.gate) =~= none);
                    assert(other[link.target as int].merged(none) =~= other[link.target as int]);
                }
            }
        }
    }
    assert(all_cover(other, contexts));
    assert(covers(other[place], contexts[place]));
    assert(none.merged(contexts[place]) == none);
    assert forall|r: int| 0 <= r < 5 implies (#[trigger] contexts[place].roles[r]).production
        == Activation::Never && contexts[place].roles[r].test == Activation::Never by {
        assert(none.merged(contexts[place]).roles[r] == none.roles[r]);
    }
}

/// A file that is the root of no target has no context of its own.
proof fn lemma_untouched(
    known: Seq<CanonicalPathView>,
    entries: Seq<SourceEntryView>,
    targets: Seq<TargetSeedView>,
    place: int,
)
    requires
        entries.len() <= usize::MAX,
        0 <= place < entries.len(),
        forall|t: int|
            0 <= t < targets.len() ==> !found_at(
                entries,
                canonical_key(known, (#[trigger] targets[t]).path),
                place,
            ),
    ensures
        with_targets(known, entries, targets).len() == entries.len(),
        with_targets(known, entries, targets)[place] == ContextsView::untouched(),
    decreases targets.len(),
{
    if targets.len() > 0 {
        let head = targets.drop_last();
        assert forall|t: int| 0 <= t < head.len() implies !found_at(
            entries,
            canonical_key(known, (#[trigger] head[t]).path),
            place,
        ) by {
            assert(head[t] == targets[t]);
        }
        lemma_untouched(known, entries, head, place);
        assert(targets.last() == targets[targets.len() - 1]);
        lemma_found(entries, canonical_key(known, targets.last().path), place);
        lemma_key_place(entry_paths(entries), canonical_key(known, targets.last().path));
    }
}

/// The root file of a target is reached as the target is.
pub proof fn law_target_roots_are_reached(
    known: Seq<CanonicalPathView>,
    entries: Seq<SourceEntryView>,
    targets: Seq<TargetSeedView>,
    contexts: Seq<ContextsView>,
    t: int,
    place: int,
)
    requires
        entries.len() <= usize::MAX,
        contexts.len() == entries.len(),
        classified(known, entries, targets, false, contexts),
        0 <= t < targets.len(),
        forall|u: int| 0 <= u < targets.len() ==> (#[trigger] targets[u]).contexts.roles.len() == 5,
        found_at(entries, canonical_key(known, targets[t].path), place),
    ensures
        at_least_gated(contexts[place], targets[t].contexts, Reachability::both()),
{
    let start = with_targets(known, entries, targets);
    lemma_seeded(known, entries, targets, t, place);
    assert(covers(contexts[place], start[place]));
    let given = targets[t].contexts;
    assert(given.gated(Reachability::both()) =~= given);
    law_covering(
        contexts[place],
        start[place],
        given,
        Reachability::both(),
    );
    lemma_covers(contexts[place], given, Reachability::both());
}

proof fn lemma_seeded(
    known: Seq<CanonicalPathView>,
    entries: Seq<SourceEntryView>,
    targets: Seq<TargetSeedView>,
    t: int,
    place: int,
)
    requires
        entries.len() <= usize::MAX,
        0 <= t < targets.len(),
        forall|u: int| 0 <= u < targets.len() ==> (#[trigger] targets[u]).contexts.roles.len() == 5,
        found_at(entries, canonical_key(known, targets[t].path), place),
    ensures
        with_targets(known, entries, targets).len() == entries.len(),
        full(with_targets(known, entries, targets)),
        covers(with_targets(known, entries, targets)[place], targets[t].contexts),
    decreases targets.len(),
{
    let head = targets.drop_last();
    let last = targets.last();
    assert(last == targets[targets.len() - 1]);
    assert forall|u: int| 0 <= u < head.len() implies (#[trigger] head[u]).contexts.roles.len()
        == 5 by {
        assert(head[u] == targets[u]);
    }
    lemma_seeds_full(known, entries, head);
    let before = with_targets(known, entries, head);
    let key = canonical_key(known, last.path);
    let given = targets[t].contexts;
    lemma_seeds_full(known, entries, targets);
    lemma_key_place(entry_paths(entries), key);
    if t == targets.len() - 1 {
        lemma_found(entries, key, place);
        let after = with_targets(known, entries, targets);
        assert(after[place] == before[place].merged(given));
        law_contexts_merge(before[place], given, given);
        assert(given.merged(given) == given);
    } else {
        assert(head[t] == targets[t]);
        lemma_seeded(known, entries, head, t, place);
        let seen = before[place];
        assert(seen.merged(given) == seen);
        if let Some(other) = key_place(entry_paths(entries), key) {
            if other == place {
                law_contexts_merge(seen, last.contexts, given);
                assert(seen.merged(last.contexts).merged(given) == seen.merged(
                    last.contexts.merged(given),
                ));
                law_contexts_merge(last.contexts, given, given);
                assert(last.contexts.merged(given) == given.merged(last.contexts));
                law_contexts_merge(seen, given, last.contexts);
                assert(seen.merged(given).merged(last.contexts) == seen.merged(
                    given.merged(last.contexts),
                ));
            }
        }
    }
}

proof fn lemma_seeds_full(
    known: Seq<CanonicalPathView>,
    entries: Seq<SourceEntryView>,
    targets: Seq<TargetSeedView>,
)
    requires
        entries.len() <= usize::MAX,
        forall|u: int| 0 <= u < targets.len() ==> (#[trigger] targets[u]).contexts.roles.len() == 5,
    ensures
        with_targets(known, entries, targets).len() == entries.len(),
        full(with_targets(known, entries, targets)),
    decreases targets.len(),
{
    if targets.len() > 0 {
        let head = targets.drop_last();
        assert forall|u: int| 0 <= u < head.len() implies (#[trigger] head[u]).contexts.roles.len()
            == 5 by {
            assert(head[u] == targets[u]);
        }
        lemma_seeds_full(known, entries, head);
        assert(targets.last() == targets[targets.len() - 1]);
        lemma_key_place(entry_paths(entries), canonical_key(known, targets.last().path));
    }
}

/// Without packages, files named as crate roots are production code, and so are files that nothing
/// leads to; others keep what they have.
pub proof fn law_standalone_roots(
    entries: Seq<SourceEntryView>,
    contexts: Seq<ContextsView>,
    i: int,
)
    requires
        full(contexts),
        0 <= i < contexts.len(),
    ensures
        is_crate_root(entries[i].path) ==> with_roots(entries, contexts)[i].output_role(
            Reachability::both(),
        ) == OutputRole::Production && with_roots(entries, contexts)[i].referenced,
        !is_crate_root(entries[i].path) ==> with_roots(entries, contexts)[i] == contexts[i],
        !contexts[i].referenced ==> with_orphans(contexts)[i].output_role(Reachability::both())
            == OutputRole::Production && with_orphans(contexts)[i].referenced,
        contexts[i].referenced ==> with_orphans(contexts)[i] == contexts[i],
{
}

/// Code behind one kind of gate is counted in the one role in which it is used there, whole, and
/// in no other one.
pub proof fn law_code_is_counted_where_it_is_used(
    metrics: Seq<SourceMetrics>,
    contexts: ContextsView,
    role: OutputRole,
    gate: Reachability,
    count: int,
)
    requires
        0 <= count <= 9,
        forall|other: int|
            0 <= other < 9 && other != gate.production.level() * 3 + gate.test.level()
                ==> #[trigger] metrics[other] == SourceMetrics::zero(),
    ensures
        count > gate.production.level() * 3 + gate.test.level() ==> role_sum(
            metrics,
            contexts,
            role,
            count,
        ) == (if contexts.output_role(gate) == role {
            metrics[(gate.production.level() * 3 + gate.test.level()) as int]
        } else {
            SourceMetrics::zero()
        }),
        count <= gate.production.level() * 3 + gate.test.level() ==> role_sum(
            metrics,
            contexts,
            role,
            count,
        ) == SourceMetrics::zero(),
    decreases count,
{
    if count > 0 {
        law_code_is_counted_where_it_is_used(metrics, contexts, role, gate, count - 1);
        law_reachability_index(gate, (count - 1) as nat);
        if count - 1 != gate.production.level() * 3 + gate.test.level() {
            assert(metrics[count - 1] == SourceMetrics::zero());
        }
    }
}

/// Everything in a project is counted in exactly one role.
pub proof fn law_project_roles_add_up(files: Seq<(SourceEntryView, ContextsView)>, place: int)
    requires
        project_fits(files),
        files.len() <= u64::MAX,
    ensures
        count_at(project_bucket(files, OutputRole::Production).source, place) + count_at(
            project_bucket(files, OutputRole::Test).source,
            place,
        ) + count_at(project_bucket(files, OutputRole::Bench).source, place) + count_at(
            project_bucket(files, OutputRole::Example).source,
            place,
        ) + count_at(project_bucket(files, OutputRole::Build).source, place) + count_at(
            project_bucket(files, OutputRole::Conditional).source,
            place,
        ) + count_at(project_bucket(files, OutputRole::Inactive).source, place) + count_at(
            project_bucket(files, OutputRole::Orphan).source,
            place,
        ) == count_at(project_sum(files), place),
    decreases files.len(),
{
    if files.len() > 0 {
        let head = files.drop_last();
        let metrics = files.last().0.file.metrics;
        let contexts = files.last().1;
        law_project_roles_add_up(head, place);
        law_roles_add_up(metrics, contexts, 9, place);
        lemma_grows(files, OutputRole::Production, place);
        lemma_grows(files, OutputRole::Test, place);
        lemma_grows(files, OutputRole::Bench, place);
        lemma_grows(files, OutputRole::Example, place);
        lemma_grows(files, OutputRole::Build, place);
        lemma_grows(files, OutputRole::Conditional, place);
        lemma_grows(files, OutputRole::Inactive, place);
        lemma_grows(files, OutputRole::Orphan, place);
        law_one_file_more(files, place);
    }
}

proof fn lemma_grows(files: Seq<(SourceEntryView, ContextsView)>, role: OutputRole, place: int)
    requires
        files.len() > 0,
        project_fits(files),
        files.len() <= u64::MAX,
    ensures
        count_at(project_bucket(files, role).source, place) == count_at(
            project_bucket(files.drop_last(), role).source,
            place,
        ) + count_at(role_sum(files.last().0.file.metrics, files.last().1, role, 9), place),
{
    lemma_project_bucket(files.drop_last(), role);
    lemma_role_sum(files.last().0.file.metrics, files.last().1, role, 9);
}

/// A file more adds just its own counts and bytes.
pub proof fn law_one_file_more(files: Seq<(SourceEntryView, ContextsView)>, place: int)
    requires
        files.len() > 0,
        project_fits(files),
    ensures
        count_at(project_sum(files), place) == count_at(project_sum(files.drop_last()), place)
            + count_at(file_sum(files.last().0.file.metrics, 9), place),
        project_bytes(files) == project_bytes(files.drop_last()) + files.last().0.file.bytes,
{
}

/// A bucket is shown just where it counts anything.
pub proof fn law_shown_buckets_count_something(buckets: Seq<BucketReport>, bucket: BucketReport)
    ensures
        filled_buckets(buckets).contains(bucket) <==> buckets.contains(bucket) && (bucket.files != 0
            || bucket.source != SourceMetrics::zero()),
{
    let f = |bucket: BucketReport|
        if counts_anything(bucket) {
            Some(bucket)
        } else {
            None
        };
    if filled_buckets(buckets).contains(bucket) {
        let at = lemma_collected_member(buckets, f, bucket);
        assert(buckets[at] == bucket);
    }
    if buckets.contains(bucket) && (bucket.files != 0 || bucket.source != SourceMetrics::zero()) {
        let at = choose|at: int| 0 <= at < buckets.len() && buckets[at] == bucket;
        lemma_kept(buckets, f, at);
    }
}

/// A module whose file was not found is told of, unless its declaration is part of no build; a file
/// is told of for its syntax errors just where it has any.
pub proof fn law_missing_modules_are_told(
    entry: SourceEntryView,
    contexts: ContextsView,
    edge: int,
)
    requires
        0 <= edge < entry.file.unresolved_edges.len(),
    ensures
        ({
            let missing = entry.file.unresolved_edges[edge];
            let role = contexts.output_role(missing.gate);
            let notice = DiagnosticView {
                severity: DiagnosticSeverity::Warning,
                path: Some(entry.display_path),
                message: missing.message,
            };
            role != OutputRole::Inactive && role != OutputRole::Orphan ==> file_notices(
                entry,
                contexts,
            ).contains(notice)
        }),
{
    let f = unresolved_notice(entry, contexts);
    let missing = entry.file.unresolved_edges[edge];
    if let Some(notice) = f(missing) {
        lemma_kept(entry.file.unresolved_edges, f, edge);
        let rest = collected(entry.file.unresolved_edges, f);
        let at = choose|at: int| 0 <= at < rest.len() && rest[at] == notice;
        let all = file_notices(entry, contexts);
        assert(all[all.len() - rest.len() + at] == notice);
    }
}

/// Nothing is told of a file without syntax errors whose missing modules are part of no build.
pub proof fn law_sound_files_are_passed_over(entry: SourceEntryView, contexts: ContextsView)
    requires
        entry.file.syntax_errors.len() == 0,
        forall|edge: int|
            0 <= edge < entry.file.unresolved_edges.len() ==> {
                let role = contexts.output_role((#[trigger] entry.file.unresolved_edges[edge]).gate);
                role == OutputRole::Inactive || role == OutputRole::Orphan
            },
    ensures
        file_notices(entry, contexts).len() == 0,
{
    let f = unresolved_notice(entry, contexts);
    let rest = collected(entry.file.unresolved_edges, f);
    if rest.len() > 0 {
        assert(rest.contains(rest[0]));
        let at = lemma_collected_member(entry.file.unresolved_edges, f, rest[0]);
        assert(f(entry.file.unresolved_edges[at]) is None);
    }
}

/// As many workers are used as are asked for; asking for none is refused.
pub proof fn law_workers(threads: Option<usize>, available: usize)
    ensures
        worker_count(threads, available) is None <==> threads == Some(0usize),
        threads is Some && threads->0 > 0 ==> worker_count(threads, available) == threads,
        threads is None ==> worker_count(threads, available) == Some(available),
{
}

/// The code lines of a file in a role.
pub open spec fn code_in(file: Option<FileReportView>, role: OutputRole) -> int {
    match file {
        Some(file) => match bucket_of(file.buckets, role) {
            Some(bucket) => bucket.source.lines.code as int,
            None => 0,
        },
        None => 0,
    }
}

/// The code lines of a file.
pub open spec fn code_of(file: Option<FileReportView>) -> int {
    match file {
        Some(file) => file.total.code as int,
        None => 0,
    }
}

/// A changed file is listed with its path, with what became of it, and with its counts before and
/// after; a file that only one side has is always listed.
pub proof fn law_changed_files_are_listed(
    path: Seq<char>,
    before: Option<FileReportView>,
    after: Option<FileReportView>,
)
    ensures
        before is Some != after is Some ==> file_change(path, before, after) is Some,
        before is None && after is None ==> file_change(path, before, after) is None,
        code_of(before) != code_of(after) || code_in(before, OutputRole::Production) != code_in(
            after,
            OutputRole::Production,
        ) || code_in(before, OutputRole::Test) != code_in(after, OutputRole::Test)
            ==> file_change(path, before, after) is Some,
        before is Some && after is Some && (before->0.bytes != after->0.bytes
            || before->0.total.physical != after->0.total.physical || before->0.total.comments
            != after->0.total.comments || before->0.total.docs != after->0.total.docs
            || before->0.total.blank != after->0.total.blank
            || before->0.metrics.lexical_complexity != after->0.metrics.lexical_complexity
            || before->0.metrics.cyclomatic_authored != after->0.metrics.cyclomatic_authored
            || before->0.metrics.cognitive_authored != after->0.metrics.cognitive_authored)
            ==> file_change(path, before, after) is Some,
        file_change(path, before, after) matches Some(change) ==> {
            &&& change.path == path
            &&& change.status == FileStatus::Added <==> before is None
            &&& change.status == FileStatus::Deleted <==> before is Some && after is None
            &&& change.status == FileStatus::Modified <==> before is Some && after is Some
            &&& change.before is Some == before is Some
            &&& change.after is Some == after is Some
            &&& change.metrics.code.before == code_of(before)
            &&& change.metrics.code.after == code_of(after)
            &&& change.metrics.code.delta == code_of(after) - code_of(before)
            &&& change.production_code.before == code_in(before, OutputRole::Production)
            &&& change.production_code.after == code_in(after, OutputRole::Production)
            &&& change.production_code.delta == code_in(after, OutputRole::Production) - code_in(
                before,
                OutputRole::Production,
            )
            &&& change.test_code.before == code_in(before, OutputRole::Test)
            &&& change.test_code.after == code_in(after, OutputRole::Test)
            &&& change.test_code.delta == code_in(after, OutputRole::Test) - code_in(
                before,
                OutputRole::Test,
            )
            &&& code_in(before, OutputRole::Production) + code_in(before, OutputRole::Test)
                <= code_of(before) ==> change.other_code.before == code_of(before) - code_in(
                before,
                OutputRole::Production,
            ) - code_in(before, OutputRole::Test)
            &&& change.metrics.files.delta == (if after is Some {
                1int
            } else {
                0
            }) - (if before is Some {
                1int
            } else {
                0
            })
        },
{
}

/// Exactly the files of either side whose counts differ are listed, each compared with the file of
/// the same path on the other side.
pub proof fn law_all_changes_are_listed(
    before: Map<Seq<char>, FileReportView>,
    after: Map<Seq<char>, FileReportView>,
    change: FileChangeView,
)
    requires
        before.dom().finite(),
        after.dom().finite(),
    ensures
        changed_files(before, after).contains(change) <==> exists|path: Seq<char>| #[trigger]
            file_change(path, before.get(path), after.get(path)) == Some(change),
{
    let all = before.dom().union(after.dom());
    let names = ascending::<String>(all);
    let f = |path: Seq<char>| file_change(path, file_under(before, path), file_under(after, path));
    vstd::set_lib::lemma_set_union_finite_iff(before.dom(), after.dom());
    lemma_ascending_exists::<String>(all);
    if changed_files(before, after).contains(change) {
        let at = lemma_collected_member(names, f, change);
        let path = names[at];
        assert(file_change(path, before.get(path), after.get(path)) == Some(change));
    }
    if exists|path: Seq<char>| #[trigger]
        file_change(path, before.get(path), after.get(path)) == Some(change) {
        let path = choose|path: Seq<char>| #[trigger]
            file_change(path, before.get(path), after.get(path)) == Some(change);
        if !all.contains(path) {
            law_changed_files_are_listed(path, None, None);
        }
        assert(names.to_set().contains(path));
        let at = choose|at: int| 0 <= at < names.len() && names[at] == path;
        lemma_kept(names, f, at);
    }
}

/// Every changed file counts once, by what became of it.
pub proof fn law_statuses_add_up(files: Seq<FileChangeView>)
    requires
        files.len() <= u64::MAX,
    ensures
        status_counts(files).added + status_counts(files).deleted + status_counts(files).modified
            == files.len(),
        files.len() > 0 ==> {
            let before = status_counts(files.drop_last());
            let after = status_counts(files);
            match files.last().status {
                FileStatus::Added => after.added == before.added + 1 && after.deleted
                    == before.deleted && after.modified == before.modified,
                FileStatus::Deleted => after.added == before.added && after.deleted
                    == before.deleted + 1 && after.modified == before.modified,
                FileStatus::Modified => after.added == before.added && after.deleted
                    == before.deleted && after.modified == before.modified + 1,
            }
        },
    decreases files.len(),
{
    lemma_count_bound(files, has_status(FileStatus::Added));
    lemma_count_bound(files, has_status(FileStatus::Deleted));
    lemma_count_bound(files, has_status(FileStatus::Modified));
    if files.len() > 0 {
        law_statuses_add_up(files.drop_last());
        lemma_count_bound(files.drop_last(), has_status(FileStatus::Added));
        lemma_count_bound(files.drop_last(), has_status(FileStatus::Deleted));
        lemma_count_bound(files.drop_last(), has_status(FileStatus::Modified));
    }
}

/// The size of a change.
pub open spec fn size_of(change: Change) -> int {
    if change.after >= change.before {
        change.after - change.before
    } else {
        change.before - change.after
    }
}

/// The files at the top changed the most code: no file is listed before one with more changed
/// lines, and no more files are listed than asked for.
pub proof fn law_top_files_changed_most(
    files: Seq<FileChangeView>,
    limit: Option<usize>,
    i: int,
    j: int,
)
    requires
        forall|k: int| 0 <= k < files.len() ==> (#[trigger] files[k]).wf(),
        0 <= i < j < top_files(files, limit).len(),
    ensures
        ({
            let a = top_files(files, limit)[i];
            let b = top_files(files, limit)[j];
            size_of(a.production_code) + size_of(a.test_code) + size_of(a.other_code) >= size_of(
                b.production_code,
            ) + size_of(b.test_code) + size_of(b.other_code)
        }),
        files.contains(top_files(files, limit)[i]),
        top_files(files, limit).len() <= files.len(),
        limit matches Some(most) ==> top_files(files, limit).len() <= most,
{
    let entries = collected(files, ranked_file());
    let sorted = stable_sorted::<FileOrder, FileChange>(entries);
    lemma_stable_sorted::<FileOrder, FileChange>(entries);
    lemma_short(files, ranked_file());
    lemma_stable_sorted_member::<FileOrder, FileChange>(entries, i);
    lemma_stable_sorted_member::<FileOrder, FileChange>(entries, j);
    let x = lemma_collected_member(files, ranked_file(), sorted[i]);
    let y = lemma_collected_member(files, ranked_file(), sorted[j]);
    let a = files[x];
    let b = files[y];
    assert(second(sorted)[i] == a);
    assert(second(sorted)[j] == b);
    assert(!FileOrder::precedes(sorted[j].0, sorted[i].0));
    assert(!seq_precedes::<u128>(ranking(b), ranking(a)));
    assert(ranking(a)[0] <= ranking(b)[0]);
}

proof fn lemma_short<A, B>(s: Seq<A>, f: spec_fn(A) -> Option<B>)
    ensures
        collected(s, f).len() <= s.len(),
    decreases s.len(),
{
    if s.len() > 0 {
        lemma_short(s.drop_last(), f);
    }
}

} // verus!
