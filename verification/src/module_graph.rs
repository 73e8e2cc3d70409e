//! How the contexts of source files spread along module declarations.

use vstd::prelude::*;

use crate::model::{Contexts, ContextsView, Reachability};

verus! {

/// A declaration of a module: the file that it leads to, and when it does.
#[derive(Clone, Copy, Debug, PartialEq, Eq, Structural)]
pub struct ModuleLink {
    pub target: usize,
    pub gate: Reachability,
}

impl DeepView for ModuleLink {
    type V = ModuleLink;

    open spec fn deep_view(&self) -> ModuleLink {
        *self
    }
}

/// Whether a context holds all that another one does.
pub open spec fn covers(wide: ContextsView, narrow: ContextsView) -> bool {
    wide.merged(narrow) == wide
}

/// Whether contexts are given for every role.
pub open spec fn full(contexts: Seq<ContextsView>) -> bool {
    forall|i: int| 0 <= i < contexts.len() ==> (#[trigger] contexts[i]).roles.len() == 5
}

/// Whether contexts hold all that others do, file by file.
pub open spec fn all_cover(wide: Seq<ContextsView>, narrow: Seq<ContextsView>) -> bool {
    wide.len() == narrow.len() && forall|i: int|
        0 <= i < wide.len() ==> covers(#[trigger] wide[i], narrow[i])
}

/// Whether a link from a file carries over all that it should.
pub open spec fn link_holds(
    links: Seq<Seq<ModuleLink>>,
    contexts: Seq<ContextsView>,
    file: int,
    link: int,
) -> bool {
    let target = links[file][link].target as int;
    target < contexts.len() ==> covers(
        contexts[target],
        contexts[file].gated(links[file][link].gate),
    )
}

/// Whether all links from a file carry over all that they should.
pub open spec fn links_hold(
    links: Seq<Seq<ModuleLink>>,
    contexts: Seq<ContextsView>,
    file: int,
) -> bool {
    forall|link: int|
        0 <= link < links[file].len() ==> #[trigger] link_holds(links, contexts, file, link)
}

/// Whether all links carry over all that they should.
pub open spec fn settled(links: Seq<Seq<ModuleLink>>, contexts: Seq<ContextsView>) -> bool {
    forall|file: int|
        0 <= file < contexts.len() ==> #[trigger] links_hold(links, contexts, file)
}

/// Whether contexts are those that spread from a start: the least ones that hold it and that all
/// links agree with.
pub open spec fn spreads(
    links: Seq<Seq<ModuleLink>>,
    start: Seq<ContextsView>,
    result: Seq<ContextsView>,
) -> bool {
    &&& full(result)
    &&& all_cover(result, start)
    &&& settled(links, result)
    &&& forall|other: Seq<ContextsView>|
        full(other) && #[trigger] all_cover(other, start) && settled(links, other) ==> all_cover(
            other,
            result,
        )
}

/// Covering is an order, merging yields the least cover of two contexts, and gates keep the order.
pub proof fn law_covering(a: ContextsView, b: ContextsView, c: ContextsView, gate: Reachability)
    requires
        a.roles.len() == 5,
        b.roles.len() == 5,
        c.roles.len() == 5,
    ensures
        covers(a, a),
        covers(a, b) && covers(b, a) ==> a == b,
        covers(a, b) && covers(b, c) ==> covers(a, c),
        covers(a.merged(b), a),
        covers(a.merged(b), b),
        covers(a, b) && covers(a, c) ==> covers(a, b.merged(c)),
        covers(a, b) ==> covers(a.gated(gate), b.gated(gate)),
{
    assert(a.merged(a) =~= a);
    assert(a.merged(b) =~= b.merged(a));
    if covers(a, b) && covers(b, c) {
        assert(a.merged(c) =~= a) by {
            assert(a.merged(b).merged(c) =~= a.merged(b.merged(c)));
        }
    }
    assert(a.merged(b).merged(a) =~= a.merged(b));
    assert(a.merged(b).merged(b) =~= a.merged(b));
    if covers(a, b) && covers(a, c) {
        assert(a.merged(b.merged(c)) =~= a.merged(b).merged(c));
    }
    if covers(a, b) {
        assert(a.merged(b).gated(gate) =~= a.gated(gate).merged(b.gated(gate)));
    }
}

/// There is just one way in which contexts spread from a start.
pub proof fn law_spreading_is_determined(
    links: Seq<Seq<ModuleLink>>,
    start: Seq<ContextsView>,
    left: Seq<ContextsView>,
    right: Seq<ContextsView>,
)
    requires
        spreads(links, start, left),
        spreads(links, start, right),
    ensures
        left == right,
{
    assert(all_cover(left, right));
    assert(all_cover(right, left));
    assert forall|i: int| 0 <= i < left.len() implies left[i] == right[i] by {
        assert(covers(left[i], right[i]) && covers(right[i], left[i]));
        law_covering(left[i], right[i], right[i], Reachability::both());
    }
    assert(left =~= right);
}

/// Contexts only ever grow, and spreading them again changes nothing.
pub proof fn law_spreading_grows_and_rests(
    links: Seq<Seq<ModuleLink>>,
    start: Seq<ContextsView>,
    result: Seq<ContextsView>,
)
    requires
        spreads(links, start, result),
    ensures
        all_cover(result, start),
        spreads(links, result, result),
{
    assert forall|i: int| 0 <= i < result.len() implies covers(#[trigger] result[i], result[i]) by {
        law_covering(result[i], result[i], result[i], Reachability::both());
    }
}

/// How much one file is reached.
pub open spec fn rank(contexts: ContextsView) -> nat {
    contexts.roles[0].production.level() + contexts.roles[0].test.level()
        + contexts.roles[1].production.level() + contexts.roles[1].test.level()
        + contexts.roles[2].production.level() + contexts.roles[2].test.level()
        + contexts.roles[3].production.level() + contexts.roles[3].test.level()
        + contexts.roles[4].production.level() + contexts.roles[4].test.level()
            + if contexts.referenced {
        1nat
    } else {
        0
    }
}

/// How much all files are reached.
pub open spec fn total_rank(contexts: Seq<ContextsView>) -> nat
    decreases contexts.len(),
{
    if contexts.len() == 0 {
        0
    } else {
        total_rank(contexts.drop_last()) + rank(contexts.last())
    }
}

proof fn lemma_rank(a: ContextsView, b: ContextsView)
    requires
        a.roles.len() == 5,
        b.roles.len() == 5,
    ensures
        rank(a) <= 21,
        rank(a.merged(b)) >= rank(a),
        a.merged(b) != a ==> rank(a.merged(b)) > rank(a),
{
    let m = a.merged(b);
    if m != a && rank(m) == rank(a) {
        assert(m.roles[0] == a.roles[0]);
        assert(m.roles[1] == a.roles[1]);
        assert(m.roles[2] == a.roles[2]);
        assert(m.roles[3] == a.roles[3]);
        assert(m.roles[4] == a.roles[4]);
        assert(m =~= a);
    }
}

proof fn lemma_total_rank(contexts: Seq<ContextsView>)
    requires
        full(contexts),
    ensures
        total_rank(contexts) <= 21 * contexts.len(),
    decreases contexts.len(),
{
    if contexts.len() > 0 {
        lemma_total_rank(contexts.drop_last());
        lemma_rank(contexts.last(), contexts.last());
    }
}

proof fn lemma_total_rank_update(contexts: Seq<ContextsView>, at: int, value: ContextsView)
    requires
        0 <= at < contexts.len(),
    ensures
        total_rank(contexts.update(at, value)) == total_rank(contexts) - rank(contexts[at]) + rank(
            value,
        ),
    decreases contexts.len(),
{
    if at == contexts.len() - 1 {
        assert(contexts.update(at, value).drop_last() =~= contexts.drop_last());
    } else {
        lemma_total_rank_update(contexts.drop_last(), at, value);
        assert(contexts.update(at, value).drop_last() =~= contexts.drop_last().update(at, value));
    }
}

/// Whether a file waits in a queue from a place on.
pub open spec fn waits(queue: Seq<usize>, from: int, file: int) -> bool {
    exists|i: int| from <= i < queue.len() && #[trigger] queue[i] == file
}

/// Spreads contexts along the links. Files whose links do not hold yet wait in the queue.
pub fn propagate(links: &Vec<Vec<ModuleLink>>, contexts: &mut Vec<Contexts>, queue: Vec<usize>)
    requires
        links.len() == old(contexts).len(),
        forall|i: int| 0 <= i < queue.len() ==> #[trigger] queue[i] < old(contexts).len(),
        forall|file: int|
            0 <= file < old(contexts).len() && !waits(queue@, 0, file) ==> #[trigger] links_hold(
                links.deep_view(),
                old(contexts).deep_view(),
                file,
            ),
    ensures
        spreads(links.deep_view(), old(contexts).deep_view(), final(contexts).deep_view()),
{
    let ghost all = links.deep_view();
    let ghost start = contexts.deep_view();
    let ghost count = contexts.len() as int;
    let mut queue = queue;
    let mut head: usize = 0;
    proof {
        assert(start.len() == count);
        assert(full(start)) by {
            assert forall|i: int| 0 <= i < start.len() implies (#[trigger] start[i]).roles.len()
                == 5 by {
                assert(start[i] == contexts[i].deep_view());
            }
        }
        assert forall|i: int| 0 <= i < start.len() implies covers(#[trigger] start[i], start[i]) by {
            law_covering(start[i], start[i], start[i], Reachability::both());
        }
    }
    while head < queue.len()
        invariant
            all == links.deep_view(),
            links.len() == count,
            contexts.len() == count,
            contexts.deep_view().len() == count,
            start.len() == count,
            full(start),
            full(contexts.deep_view()),
            head <= queue.len(),
            forall|i: int| 0 <= i < queue.len() ==> #[trigger] queue[i] < count,
            all_cover(contexts.deep_view(), start),
            forall|file: int|
                0 <= file < count && !waits(queue@, head as int, file) ==> #[trigger] links_hold(
                    all,
                    contexts.deep_view(),
                    file,
                ),
            forall|other: Seq<ContextsView>|
                full(other) && #[trigger] all_cover(other, start) && settled(all, other)
                    ==> all_cover(other, contexts.deep_view()),
        decreases 21 * count - total_rank(contexts.deep_view()), queue.len() - head,
    {
        let parent: usize = queue[head];
        let context = contexts[parent];
        let ghost carried = context.deep_view();
        let ghost outer = contexts.deep_view();
        let ghost waiting = queue@;
        let ghost rank_before = total_rank(outer);
        proof {
            assert(outer[parent as int] == contexts[parent as int].deep_view());
            assert(links.deep_view()[parent as int] == links[parent as int].deep_view());
            law_covering(carried, carried, carried, Reachability::both());
        }
        head = head + 1;
        let mut at: usize = 0;
        while at < links[parent].len()
            invariant
                all == links.deep_view(),
                links.len() == count,
                parent < count,
                all[parent as int] == links[parent as int].deep_view(),
                contexts.len() == count,
                contexts.deep_view().len() == count,
                start.len() == count,
                full(start),
                full(contexts.deep_view()),
                head <= queue.len(),
                at <= all[parent as int].len(),
                carried == context.deep_view(),
                carried.roles.len() == 5,
                covers(contexts.deep_view()[parent as int], carried),
                forall|i: int| 0 <= i < queue.len() ==> #[trigger] queue[i] < count,
                all_cover(contexts.deep_view(), start),
                forall|file: int|
                    0 <= file < count && file != parent && !waits(queue@, head as int, file)
                        ==> #[trigger] links_hold(all, contexts.deep_view(), file),
                contexts.deep_view()[parent as int] != carried ==> waits(
                    queue@,
                    head as int,
                    parent as int,
                ),
                forall|link: int|
                    0 <= link < at ==> (#[trigger] all[parent as int][link]).target < count
                        ==> covers(
                        contexts.deep_view()[all[parent as int][link].target as int],
                        carried.gated(all[parent as int][link].gate),
                    ),
                forall|other: Seq<ContextsView>|
                    full(other) && #[trigger] all_cover(other, start) && settled(all, other)
                        ==> all_cover(other, contexts.deep_view()),
                total_rank(contexts.deep_view()) >= rank_before,
                total_rank(contexts.deep_view()) == rank_before ==> queue@ == waiting,
            decreases all[parent as int].len() - at,
        {
            let link = links[parent][at];
            proof {
                assert(all[parent as int][at as int] == link);
            }
            if link.target < contexts.len() {
                let ghost before = contexts.deep_view();
                let ghost queued = queue@;
                let incoming = context.through(link.gate);
                let ghost arriving = carried.gated(link.gate);
                let ghost target = link.target as int;
                let mut child = contexts[link.target];
                proof {
                    assert(before[target] == child.deep_view());
                }
                let changed = child.merge(incoming);
                contexts[link.target] = child;
                let ghost now = contexts.deep_view();
                proof {
                    assert(now =~= before.update(target, before[target].merged(arriving)));
                    law_covering(before[target], arriving, start[target], link.gate);
                    lemma_rank(before[target], arriving);
                    lemma_total_rank_update(before, target, now[target]);
                    lemma_full_update(before, target, now[target]);
                    lemma_grown(all, before, now, target);
                    assert forall|i: int| 0 <= i < count implies covers(
                        #[trigger] now[i],
                        start[i],
                    ) by {
                        if i == target {
                            law_covering(now[i], before[i], start[i], link.gate);
                        }
                    }
                    assert forall|other: Seq<ContextsView>|
                        full(other) && #[trigger] all_cover(other, start) && settled(
                            all,
                            other,
                        ) implies all_cover(other, now) by {
                        assert(all_cover(other, before));
                        lemma_least(all, other, before, carried, parent as int, at as int);
                    }
                    if changed {
                        assert(total_rank(now) > total_rank(before));
                    } else {
                        assert(now =~= before);
                    }
                }
                if changed {
                    queue.push(link.target);
                    proof {
                        lemma_waits_push(queued, link.target, head as int);
                    }
                }
                proof {
                    assert forall|file: int|
                        0 <= file < count && file != parent && !waits(
                            queue@,
                            head as int,
                            file,
                        ) implies #[trigger] links_hold(all, now, file) by {
                        if changed {
                            assert(file != target);
                        }
                        assert(!waits(queued, head as int, file));
                        assert(links_hold(all, before, file));
                    }
                    if now[parent as int] != carried {
                        if target == parent && changed {
                            assert(waits(queue@, head as int, parent as int));
                        } else {
                            assert(waits(queued, head as int, parent as int));
                        }
                    }
                    law_covering(now[parent as int], before[parent as int], carried, link.gate);
                    if parent == target {
                        law_covering(before[target], arriving, carried, link.gate);
                    }
                    assert forall|earlier: int|
                        0 <= earlier < at + 1 && (#[trigger] all[parent as int][earlier]).target
                            < count implies covers(
                        now[all[parent as int][earlier].target as int],
                        carried.gated(all[parent as int][earlier].gate),
                    ) by {
                        let other = all[parent as int][earlier].target as int;
                        let part = carried.gated(all[parent as int][earlier].gate);
                        if earlier < at {
                            if other == target {
                                law_covering(now[other], before[other], part, link.gate);
                            }
                        }
                    }
                }
            }
            at = at + 1;
        }
        proof {
            assert forall|file: int|
                0 <= file < count && !waits(queue@, head as int, file) implies #[trigger] links_hold(
                all,
                contexts.deep_view(),
                file,
            ) by {
                if file == parent {
                    assert(contexts.deep_view()[parent as int] == carried);
                    assert forall|link: int| 0 <= link < all[file].len() implies #[trigger]
                        link_holds(all, contexts.deep_view(), file, link) by {
                        assert(all[parent as int][link].target < count || true);
                    }
                }
            }
            lemma_total_rank(contexts.deep_view());
        }
    }
    proof {
        assert(settled(all, contexts.deep_view())) by {
            assert forall|file: int| 0 <= file < count implies #[trigger] links_hold(
                all,
                contexts.deep_view(),
                file,
            ) by {
                assert(!waits(queue@, head as int, file));
            }
        }
    }
}

/// Changing one context keeps them complete.
pub proof fn lemma_full_update(contexts: Seq<ContextsView>, at: int, value: ContextsView)
    requires
        full(contexts),
        value.roles.len() == 5,
        0 <= at < contexts.len(),
    ensures
        full(contexts.update(at, value)),
{
    let changed = contexts.update(at, value);
    assert forall|i: int| 0 <= i < changed.len() implies (#[trigger] changed[i]).roles.len() == 5 by {
        if i != at {
            assert(changed[i] == contexts[i]);
        }
    }
}

/// Links into a file that grew still hold, and so do those from other files.
pub proof fn lemma_grown(
    links: Seq<Seq<ModuleLink>>,
    before: Seq<ContextsView>,
    now: Seq<ContextsView>,
    target: int,
)
    requires
        full(before),
        full(now),
        0 <= target < before.len(),
        now == before.update(target, now[target]),
        covers(now[target], before[target]),
    ensures
        forall|file: int|
            0 <= file < before.len() && file != target && #[trigger] links_hold(
                links,
                before,
                file,
            ) ==> links_hold(links, now, file),
{
    assert forall|file: int|
        0 <= file < before.len() && file != target && #[trigger] links_hold(
            links,
            before,
            file,
        ) implies links_hold(links, now, file) by {
        assert forall|link: int| 0 <= link < links[file].len() implies #[trigger] link_holds(
            links,
            now,
            file,
            link,
        ) by {
            assert(link_holds(links, before, file, link));
            let to = links[file][link].target as int;
            if to == target {
                let gate = links[file][link].gate;
                assert(before[file].roles.len() == 5);
                law_covering(now[target], before[target], before[file].gated(gate), gate);
            }
        }
    }
}

/// Whatever all links agree with also holds what one more link carries over.
proof fn lemma_least(
    links: Seq<Seq<ModuleLink>>,
    other: Seq<ContextsView>,
    before: Seq<ContextsView>,
    carried: ContextsView,
    parent: int,
    at: int,
)
    requires
        full(other),
        full(before),
        settled(links, other),
        all_cover(other, before),
        0 <= parent < before.len(),
        0 <= at < links[parent].len(),
        links[parent][at].target < before.len(),
        carried.roles.len() == 5,
        covers(before[parent], carried),
    ensures
        all_cover(
            other,
            before.update(
                links[parent][at].target as int,
                before[links[parent][at].target as int].merged(
                    carried.gated(links[parent][at].gate),
                ),
            ),
        ),
{
    let target = links[parent][at].target as int;
    let gate = links[parent][at].gate;
    let arriving = carried.gated(gate);
    assert(covers(other[parent], before[parent]));
    assert(covers(other[target], before[target]));
    assert(links_hold(links, other, parent));
    assert(link_holds(links, other, parent, at));
    law_covering(other[parent], before[parent], carried, gate);
    law_covering(other[parent], carried, carried, gate);
    law_covering(other[target], other[parent].gated(gate), arriving, gate);
    law_covering(other[target], before[target], arriving, gate);
    let next = before.update(target, before[target].merged(arriving));
    assert forall|i: int| 0 <= i < other.len() implies covers(#[trigger] other[i], next[i]) by {
        if i != target {
            assert(covers(other[i], before[i]));
        }
    }
}

/// A file that is added to a queue waits in it, with those that did before.
pub proof fn lemma_waits_push(queue: Seq<usize>, item: usize, from: int)
    requires
        0 <= from <= queue.len(),
    ensures
        waits(queue.push(item), from, item as int),
        forall|file: int| #[trigger]
            waits(queue, from, file) ==> waits(queue.push(item), from, file),
{
    let longer = queue.push(item);
    assert(longer[queue.len() as int] == item);
    assert forall|file: int| #[trigger] waits(queue, from, file) implies waits(
        longer,
        from,
        file,
    ) by {
        let i = choose|i: int| from <= i < queue.len() && #[trigger] queue[i] == file;
        assert(longer[i] == file);
    }
}

} // verus!
