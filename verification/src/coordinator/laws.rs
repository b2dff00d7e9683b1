//! What holds of the coordinator in every state it can reach.

use crate::content::Author;
use crate::coordinator;
use crate::coordinator::plan;
use crate::coordinator::plan::{
    ArticleStep, MergePlan, NewArticle, SplitPlan, StepView, Transaction, TxnCtx,
};
use crate::coordinator::state;
use crate::coordinator::state::{Coordinator, CoordView, RequestView};
use crate::coordinator::{CoordError, LockSet, Priority, TxnRequest};
use crate::observe::EventView;
use crate::path;
use crate::tool::{ToolError, WriterId};
use vstd::prelude::*;

verus! {

/// What every reachable state keeps: nothing is locked while no transaction runs,
/// and tickets have different numbers, all of them handed out before.
pub open spec fn sound(s: CoordView) -> bool {
    &&& !s.running ==> s.held.len() == 0
    &&& forall|i: int| 0 <= i < s.queue.len() ==> (#[trigger] s.queue[i]).0 < s.next_seq
    &&& forall|i: int, j: int|
        0 <= i < j < s.queue.len() ==> (#[trigger] s.queue[i]).0 != (#[trigger] s.queue[j]).0
}

/// The state after a ticket was taken.
pub open spec fn queued(s: CoordView, req: RequestView) -> CoordView {
    CoordView {
        queue: s.queue.insert(state::slot(s.queue, req.priority), (s.next_seq, req.writer)),
        next_seq: (s.next_seq + 1) as u64,
        ..s
    }
}

/// No human waits behind an agent.
pub open spec fn humans_first(queue: Seq<(u64, Author)>) -> bool {
    forall|i: int, j: int|
        0 <= i < j < queue.len() && coordinator::priority_of((#[trigger] queue[j]).1)
            == Priority::Human ==> coordinator::priority_of((#[trigger] queue[i]).1)
            == Priority::Human
}

proof fn lemma_first_agent(queue: Seq<(u64, Author)>)
    ensures
        0 <= state::first_agent(queue) <= queue.len(),
        forall|i: int|
            0 <= i < state::first_agent(queue) ==> coordinator::priority_of(
                (#[trigger] queue[i]).1,
            ) == Priority::Human,
        state::first_agent(queue) < queue.len() ==> coordinator::priority_of(
            queue[state::first_agent(queue)].1,
        ) == Priority::Agent,
    decreases queue.len(),
{
    if queue.len() > 0 && coordinator::priority_of(queue[0].1) != Priority::Agent {
        let rest = queue.drop_first();
        lemma_first_agent(rest);
        assert forall|i: int| 0 <= i < state::first_agent(queue) implies coordinator::priority_of(
            (#[trigger] queue[i]).1,
        ) == Priority::Human by {
            if i > 0 {
                assert(queue[i] == rest[i - 1]);
            }
        }
        if state::first_agent(queue) < queue.len() {
            assert(queue[state::first_agent(queue)] == rest[state::first_agent(rest)]);
        }
    }
}

/// Taking a ticket keeps the state sound.
pub proof fn law_queueing_keeps_the_state_sound(s: CoordView, req: RequestView)
    requires
        sound(s),
        s.next_seq < u64::MAX,
    ensures
        sound(queued(s, req)),
{
    lemma_first_agent(s.queue);
    let at = state::slot(s.queue, req.priority);
    let q = queued(s, req).queue;
    assert forall|i: int| 0 <= i < q.len() implies (#[trigger] q[i]).0 < s.next_seq + 1 by {
        if i < at {
            assert(q[i] == s.queue[i]);
        } else if i > at {
            assert(q[i] == s.queue[i - 1]);
        }
    }
    assert forall|i: int, j: int| 0 <= i < j < q.len() implies (#[trigger] q[i]).0 != (
    #[trigger] q[j]).0 by {
        if i < at {
            assert(q[i] == s.queue[i]);
        } else if i > at {
            assert(q[i] == s.queue[i - 1]);
        }
        if j < at {
            assert(q[j] == s.queue[j]);
        } else if j > at {
            assert(q[j] == s.queue[j - 1]);
        }
    }
}

/// A transaction that enters holds exactly its declared paths, runs alone, and
/// keeps the state sound; while it runs nothing else can enter.
pub proof fn law_one_transaction_runs_with_all_its_locks(
    s: CoordView,
    seq: u64,
    req: RequestView,
    other: u64,
    other_req: RequestView,
)
    requires
        sound(s),
        state::enterable(s, seq, req),
    ensures
        sound(state::entered(s, req)),
        state::entered(s, req).held == state::taken(req.locks, req.writer),
        forall|i: int|
            0 <= i < req.locks.len() ==> state::locked(
                state::entered(s, req).held,
                #[trigger] req.locks[i],
            ),
        !state::enterable(state::entered(s, req), other, other_req),
{
    let after = state::entered(s, req);
    let took = state::taken(req.locks, req.writer);
    assert(s.held + took == took);
    assert forall|i: int| 0 <= i < req.locks.len() implies state::locked(
        after.held,
        #[trigger] req.locks[i],
    ) by {
        assert(after.held[i].0 == req.locks[i]);
    }
    assert forall|i: int| 0 <= i < after.queue.len() implies (#[trigger] after.queue[i]).0
        < after.next_seq by {
        assert(after.queue[i] == s.queue[i + 1]);
    }
    assert forall|i: int, j: int| 0 <= i < j < after.queue.len() implies (
    #[trigger] after.queue[i]).0 != (#[trigger] after.queue[j]).0 by {
        assert(after.queue[i] == s.queue[i + 1]);
        assert(after.queue[j] == s.queue[j + 1]);
    }
}

proof fn lemma_still_held(held: Seq<(Seq<char>, Author)>, locks: Seq<Seq<char>>)
    requires
        forall|i: int| 0 <= i < held.len() ==> coordinator::holds(locks, (#[trigger] held[i]).0),
    ensures
        state::still_held(held, locks).len() == 0,
    decreases held.len(),
{
    if held.len() > 0 {
        let init = held.drop_last();
        assert forall|i: int| 0 <= i < init.len() implies coordinator::holds(
            locks,
            (#[trigger] init[i]).0,
        ) by {
            assert(init[i] == held[i]);
        }
        assert(coordinator::holds(locks, held[held.len() - 1].0));
        lemma_still_held(init, locks);
    }
}

/// When the running transaction gives its locks back, nothing stays locked.
pub proof fn law_release_frees_every_lock(s: CoordView, locks: Seq<Seq<char>>, writer: Author)
    requires
        sound(s),
        s.held == state::taken(locks, writer),
    ensures
        sound(state::released(s, locks)),
        state::released(s, locks).held.len() == 0,
        !state::released(s, locks).running,
{
    assert forall|i: int| 0 <= i < s.held.len() implies coordinator::holds(
        locks,
        (#[trigger] s.held[i]).0,
    ) by {
        assert(path::same_path(locks[i], s.held[i].0));
    }
    lemma_still_held(s.held, locks);
}

/// An idle coordinator is never stuck: whoever is at the front of the queue can
/// enter, unless it is an agent that a reservation holds back.
pub proof fn law_the_front_of_the_queue_can_enter(s: CoordView, req: RequestView)
    requires
        sound(s),
        !s.running,
        s.queue.len() > 0,
    ensures
        state::enterable(s, s.queue[0].0, req) <==> (req.priority == Priority::Human
            || s.reservations.len() == 0),
{
}

/// While a reservation is pending no agent can enter.
pub proof fn law_a_reservation_holds_agents_back(s: CoordView, seq: u64, req: RequestView)
    requires
        s.reservations.len() > 0,
        req.priority == Priority::Agent,
    ensures
        !state::enterable(s, seq, req),
{
}

/// Humans wait ahead of all agents: taking a ticket keeps it so, and the new
/// ticket stands behind every earlier one of its own priority.
pub proof fn law_humans_wait_ahead_of_agents(s: CoordView, req: RequestView)
    requires
        humans_first(s.queue),
        req.priority == coordinator::priority_of(req.writer),
    ensures
        humans_first(queued(s, req).queue),
        forall|i: int|
            0 <= i < s.queue.len() ==> (coordinator::priority_of((#[trigger] s.queue[i]).1)
                == req.priority ==> i < state::slot(s.queue, req.priority)),
        req.priority == Priority::Human ==> forall|i: int|
            0 <= i < state::slot(s.queue, req.priority) ==> coordinator::priority_of(
                (#[trigger] s.queue[i]).1,
            ) == Priority::Human,
{
    lemma_first_agent(s.queue);
    let at = state::slot(s.queue, req.priority);
    let q = queued(s, req).queue;
    if req.priority == Priority::Human {
        assert forall|i: int| 0 <= i < s.queue.len() && i >= at implies coordinator::priority_of(
            (#[trigger] s.queue[i]).1,
        ) == Priority::Agent by {
            if i > at {
                assert(coordinator::priority_of(s.queue[at].1) == Priority::Agent);
            }
        }
    }
    assert forall|i: int, j: int|
        0 <= i < j < q.len() && coordinator::priority_of((#[trigger] q[j]).1)
            == Priority::Human implies coordinator::priority_of((#[trigger] q[i]).1)
        == Priority::Human by {
        if i < at {
            assert(q[i] == s.queue[i]);
        } else if i > at {
            assert(q[i] == s.queue[i - 1]);
        }
        if j < at {
            assert(q[j] == s.queue[j]);
        } else if j > at {
            assert(q[j] == s.queue[j - 1]);
        }
    }
}

/// Leaving the queue keeps humans ahead of agents.
pub proof fn law_entering_keeps_humans_first(s: CoordView, req: RequestView)
    requires
        humans_first(s.queue),
        s.queue.len() > 0,
    ensures
        humans_first(state::entered(s, req).queue),
{
    let q = s.queue.drop_first();
    assert forall|i: int, j: int|
        0 <= i < j < q.len() && coordinator::priority_of((#[trigger] q[j]).1)
            == Priority::Human implies coordinator::priority_of((#[trigger] q[i]).1)
        == Priority::Human by {
        assert(q[i] == s.queue[i + 1]);
        assert(q[j] == s.queue[j + 1]);
    }
}

proof fn lemma_reserved_at_end(
    reservations: Seq<(Seq<char>, Seq<char>)>,
    theme: Seq<char>,
    file: Seq<char>,
)
    requires
        !reservations.contains((theme, file)),
    ensures
        state::reserved_at(reservations.push((theme, file)), theme, file) == reservations.len(),
    decreases reservations.len(),
{
    let all = reservations.push((theme, file));
    if reservations.len() > 0 {
        let rest = reservations.drop_first();
        assert(reservations.contains(reservations[0]));
        assert(!rest.contains((theme, file))) by {
            if rest.contains((theme, file)) {
                let k = rest.index_of((theme, file));
                assert(reservations[k + 1] == (theme, file));
            }
        }
        assert(all[0] == reservations[0]);
        assert(all.drop_first() == rest.push((theme, file)));
        lemma_reserved_at_end(rest, theme, file);
    }
}

/// Cancelling a reservation that was just made, for an article that had none,
/// leaves the state as it was.
pub proof fn law_cancelling_undoes_a_request(s: CoordView, theme: Seq<char>, file: Seq<char>)
    requires
        !s.reservations.contains((theme, file)),
    ensures
        ({
            let reserved = s.reservations.push((theme, file));
            state::without(reserved, state::reserved_at(reserved, theme, file)) == s.reservations
        }),
{
    lemma_reserved_at_end(s.reservations, theme, file);
    let reserved = s.reservations.push((theme, file));
    assert(reserved.remove(s.reservations.len() as int) == s.reservations);
}

/// Cancelling the last reservation lets agents in again.
pub proof fn law_agents_run_again_without_reservations(s: CoordView, req: RequestView)
    requires
        sound(s),
        !s.running,
        s.queue.len() > 0,
        s.reservations.len() == 1,
    ensures
        ({
            let (theme, file) = s.reservations[0];
            let after = CoordView {
                reservations: state::without(
                    s.reservations,
                    state::reserved_at(s.reservations, theme, file),
                ),
                ..s
            };
            state::enterable(after, s.queue[0].0, req)
        }),
{
}

/// An edit that serves a reservation does not announce the handoff once more.
pub proof fn law_a_served_reservation_is_not_announced_again(
    s: CoordView,
    req: RequestView,
    parked: bool,
)
    requires
        state::serves(s, req),
    ensures
        state::entry_events(s, req, parked).len() == 1,
        state::entered(s, req).reservations.len() == s.reservations.len() - 1,
{
    lemma_served(s.reservations, req.locks);
}

proof fn lemma_served(reservations: Seq<(Seq<char>, Seq<char>)>, locks: Seq<Seq<char>>)
    ensures
        0 <= state::served(reservations, locks) <= reservations.len(),
    decreases reservations.len(),
{
    if reservations.len() > 0 {
        lemma_served(reservations.drop_first(), locks);
    }
}

/// Any two lock sets are acquired in the same order: of two different paths the
/// one that comes first in one set comes first in the other.
pub proof fn law_paths_are_acquired_in_one_order(
    a: Seq<Seq<char>>,
    b: Seq<Seq<char>>,
    i: int,
    j: int,
    k: int,
    l: int,
)
    requires
        coordinator::sorted(a),
        coordinator::sorted(b),
        0 <= i < j < a.len(),
        0 <= k < b.len(),
        0 <= l < b.len(),
        path::same_path(a[i], b[k]),
        path::same_path(a[j], b[l]),
    ensures
        k < l,
{
    assert(path::path_before(a[i], a[j]));
    path::lemma_parts_total(path::parts(a[i]), path::parts(a[j]));
    if l < k {
        assert(path::path_before(b[l], b[k]));
    }
}

/// Two lock sets of the same paths are equal.
pub proof fn law_sets_of_the_same_paths_are_equal(a: Seq<Seq<char>>, b: Seq<Seq<char>>)
    requires
        coordinator::sorted(a),
        coordinator::sorted(b),
        forall|p: Seq<char>| #[trigger]
            coordinator::holds(a, p) <==> coordinator::holds(b, p),
    ensures
        coordinator::same_paths(a, b),
    decreases a.len(),
{
    if a.len() > 0 {
        assert(path::same_path(a[0], a[0]));
        assert(coordinator::holds(a, a[0]));
    }
    if b.len() > 0 {
        assert(path::same_path(b[0], b[0]));
        assert(coordinator::holds(b, b[0]));
        assert(coordinator::holds(a, b[0]));
    }
    if a.len() > 0 && b.len() > 0 {
        let i = choose|i: int| 0 <= i < a.len() && path::same_path(#[trigger] a[i], b[0]);
        let j = choose|j: int| 0 <= j < b.len() && path::same_path(#[trigger] b[j], a[0]);
        path::lemma_parts_total(path::parts(a[0]), path::parts(b[0]));
        if i > 0 {
            assert(path::path_before(a[0], a[i]));
            if j > 0 {
                assert(path::path_before(b[0], b[j]));
            }
        }
        assert(path::same_path(a[0], b[0]));
        let x = a.drop_first();
        let y = b.drop_first();
        lemma_rest_sorted(a);
        lemma_rest_sorted(b);
        assert forall|p: Seq<char>| #[trigger]
            coordinator::holds(x, p) <==> coordinator::holds(y, p) by {
            lemma_rest_holds(a, p);
            lemma_rest_holds(b, p);
            assert(coordinator::holds(a, p) <==> coordinator::holds(b, p));
        }
        law_sets_of_the_same_paths_are_equal(x, y);
        assert forall|k: int| 0 <= k < a.len() implies path::same_path(#[trigger] a[k], b[k]) by {
            if k > 0 {
                assert(path::same_path(x[k - 1], y[k - 1]));
            }
        }
    }
}

proof fn lemma_rest_sorted(paths: Seq<Seq<char>>)
    requires
        coordinator::sorted(paths),
        paths.len() > 0,
    ensures
        coordinator::sorted(paths.drop_first()),
{
    let rest = paths.drop_first();
    assert forall|i: int, j: int| 0 <= i < j < rest.len() implies path::path_before(
        #[trigger] rest[i],
        #[trigger] rest[j],
    ) by {
        assert(path::path_before(paths[i + 1], paths[j + 1]));
    }
}

/// What follows the first of sorted paths is every path but the first.
proof fn lemma_rest_holds(paths: Seq<Seq<char>>, p: Seq<char>)
    requires
        coordinator::sorted(paths),
        paths.len() > 0,
    ensures
        coordinator::holds(paths.drop_first(), p) <==> coordinator::holds(paths, p)
            && !path::same_path(paths[0], p),
{
    let rest = paths.drop_first();
    path::lemma_parts_total(path::parts(paths[0]), path::parts(paths[0]));
    if coordinator::holds(rest, p) {
        let k = choose|k: int| 0 <= k < rest.len() && path::same_path(#[trigger] rest[k], p);
        assert(paths[k + 1] == rest[k]);
        assert(path::path_before(paths[0], paths[k + 1]));
    }
    if coordinator::holds(paths, p) && !path::same_path(paths[0], p) {
        let k = choose|k: int| 0 <= k < paths.len() && path::same_path(#[trigger] paths[k], p);
        assert(rest[k - 1] == paths[k]);
    }
}

/// Adding a path keeps the canonical order.
pub proof fn law_adding_keeps_the_order(paths: Seq<Seq<char>>, p: Seq<char>)
    requires
        coordinator::sorted(paths),
    ensures
        coordinator::sorted(coordinator::with_path(paths, p)),
    decreases paths.len(),
{
    if !coordinator::holds(paths, p) {
        let at = coordinator::place(paths, p);
        let now = coordinator::with_path(paths, p);
        plan::lemma_place(paths, p);
        lemma_place_parts(paths, p);
        assert forall|i: int, j: int| 0 <= i < j < now.len() implies path::path_before(
            #[trigger] now[i],
            #[trigger] now[j],
        ) by {
            let k = if i < at {
                i
            } else {
                i - 1
            };
            let l = if j < at {
                j
            } else {
                j - 1
            };
            if i != at && j != at {
                assert(path::path_before(paths[k], paths[l]));
            }
        }
    }
}

/// What stands before the place of a path comes before it, and what stands behind
/// comes after it, if it is not among them.
proof fn lemma_place_parts(paths: Seq<Seq<char>>, p: Seq<char>)
    requires
        coordinator::sorted(paths),
        !coordinator::holds(paths, p),
    ensures
        0 <= coordinator::place(paths, p) <= paths.len(),
        forall|k: int|
            0 <= k < coordinator::place(paths, p) ==> path::path_before(#[trigger] paths[k], p),
        forall|k: int|
            coordinator::place(paths, p) <= k < paths.len() ==> path::path_before(
                p,
                #[trigger] paths[k],
            ),
    decreases paths.len(),
{
    if paths.len() > 0 {
        let rest = paths.drop_first();
        lemma_rest_sorted(paths);
        lemma_rest_holds(paths, p);
        assert(!path::same_path(paths[0], p));
        path::lemma_parts_total(path::parts(paths[0]), path::parts(p));
        if path::path_before(paths[0], p) {
            lemma_place_parts(rest, p);
            assert forall|k: int| 0 <= k < coordinator::place(paths, p) implies path::path_before(
                #[trigger] paths[k],
                p,
            ) by {
                if k > 0 {
                    assert(path::path_before(rest[k - 1], p));
                }
            }
            assert forall|k: int|
                coordinator::place(paths, p) <= k < paths.len() implies path::path_before(
                p,
                #[trigger] paths[k],
            ) by {
                assert(path::path_before(p, rest[k - 1]));
            }
        } else {
            assert forall|k: int| 0 <= k < paths.len() implies path::path_before(
                p,
                #[trigger] paths[k],
            ) by {
                if k > 0 {
                    assert(path::path_before(paths[0], paths[k]));
                    path::lemma_parts_transitive(
                        path::parts(p),
                        path::parts(paths[0]),
                        path::parts(paths[k]),
                    );
                }
            }
        }
    }
}

/// The order in which paths are declared does not matter: the sets are equal.
pub proof fn law_paths_are_declared_in_any_order(
    paths: Seq<Seq<char>>,
    p: Seq<char>,
    q: Seq<char>,
)
    requires
        coordinator::sorted(paths),
    ensures
        coordinator::same_paths(
            coordinator::with_path(coordinator::with_path(paths, p), q),
            coordinator::with_path(coordinator::with_path(paths, q), p),
        ),
{
    let with_p = coordinator::with_path(paths, p);
    let with_q = coordinator::with_path(paths, q);
    let a = coordinator::with_path(with_p, q);
    let b = coordinator::with_path(with_q, p);
    law_adding_keeps_the_order(paths, p);
    law_adding_keeps_the_order(paths, q);
    law_adding_keeps_the_order(with_p, q);
    law_adding_keeps_the_order(with_q, p);
    assert forall|r: Seq<char>| #[trigger] coordinator::holds(a, r) <==> coordinator::holds(b, r) by {
        law_adding_a_path_declares_it_alone(paths, p, r);
        law_adding_a_path_declares_it_alone(paths, q, r);
        law_adding_a_path_declares_it_alone(with_p, q, r);
        law_adding_a_path_declares_it_alone(with_q, p, r);
    }
    law_sets_of_the_same_paths_are_equal(a, b);
}

// ---------------------------------------------------------------------------
// Declared and touched paths
// ---------------------------------------------------------------------------

/// Adding a path declares that path and nothing else.
pub proof fn law_adding_a_path_declares_it_alone(
    paths: Seq<Seq<char>>,
    p: Seq<char>,
    q: Seq<char>,
)
    ensures
        coordinator::holds(coordinator::with_path(paths, p), q) <==> coordinator::holds(paths, q)
            || path::same_path(p, q),
{
    plan::lemma_place(paths, p);
    let at = coordinator::place(paths, p);
    let now = coordinator::with_path(paths, p);
    if !coordinator::holds(paths, p) {
        assert(now[at] == p);
        if coordinator::holds(paths, q) {
            let k = choose|k: int|
                0 <= k < paths.len() && path::same_path(#[trigger] paths[k], q);
            if k < at {
                assert(now[k] == paths[k]);
            } else {
                assert(now[k + 1] == paths[k]);
            }
        }
        if coordinator::holds(now, q) {
            let k = choose|k: int| 0 <= k < now.len() && path::same_path(#[trigger] now[k], q);
            if k < at {
                assert(now[k] == paths[k]);
            } else if k > at {
                assert(now[k] == paths[k - 1]);
            }
        }
    }
}

/// The paths that a step touches, added to `paths`: its article and the theme's
/// manifest.
pub open spec fn touched_by(paths: Seq<Seq<char>>, theme: Seq<char>, file: Seq<char>) -> Seq<
    Seq<char>,
> {
    coordinator::with_path(
        coordinator::with_path(paths, path::joined_path(theme, file)),
        path::joined_path(theme, "index.json"@),
    )
}

/// The file that a step works on.
pub open spec fn step_file(step: StepView) -> Seq<char> {
    match step {
        StepView::Write { theme: _, file, content: _ } => file,
        StepView::Create { theme: _, file, content: _, title: _, parent: _ } => file,
        StepView::Delete { theme: _, file } => file,
    }
}

/// The paths that the steps of one theme touch.
pub open spec fn touched_by_all(theme: Seq<char>, steps: Seq<StepView>) -> Seq<Seq<char>>
    decreases steps.len(),
{
    if steps.len() == 0 {
        Seq::empty()
    } else {
        touched_by(
            touched_by_all(theme, steps.drop_last()),
            theme,
            step_file(steps.last()),
        )
    }
}

/// Whether `q` is the article of one of `names`.
pub open spec fn names_path(theme: Seq<char>, names: Seq<Seq<char>>, q: Seq<char>) -> bool {
    exists|i: int|
        0 <= i < names.len() && path::same_path(
            path::joined_path(theme, #[trigger] names[i]),
            q,
        )
}

proof fn lemma_names_path_push(theme: Seq<char>, names: Seq<Seq<char>>, q: Seq<char>)
    requires
        names.len() > 0,
    ensures
        names_path(theme, names, q) <==> names_path(theme, names.drop_last(), q)
            || path::same_path(path::joined_path(theme, names.last()), q),
{
    let init = names.drop_last();
    if names_path(theme, init, q) {
        let k = choose|k: int|
            0 <= k < init.len() && path::same_path(
                path::joined_path(theme, #[trigger] init[k]),
                q,
            );
        assert(names[k] == init[k]);
    }
    if path::same_path(path::joined_path(theme, names.last()), q) {
        assert(names[names.len() - 1] == names.last());
    }
    if names_path(theme, names, q) {
        let k = choose|k: int|
            0 <= k < names.len() && path::same_path(
                path::joined_path(theme, #[trigger] names[k]),
                q,
            );
        if k < init.len() {
            assert(init[k] == names[k]);
        }
    }
}

proof fn lemma_with_articles(
    paths: Seq<Seq<char>>,
    theme: Seq<char>,
    names: Seq<Seq<char>>,
    q: Seq<char>,
)
    ensures
        coordinator::holds(plan::with_articles(paths, theme, names), q) <==> coordinator::holds(
            paths,
            q,
        ) || names_path(theme, names, q),
    decreases names.len(),
{
    if names.len() > 0 {
        lemma_with_articles(paths, theme, names.drop_last(), q);
        law_adding_a_path_declares_it_alone(
            plan::with_articles(paths, theme, names.drop_last()),
            path::joined_path(theme, names.last()),
            q,
        );
        lemma_names_path_push(theme, names, q);
    }
}

proof fn lemma_declared(theme: Seq<char>, main: Seq<char>, names: Seq<Seq<char>>, q: Seq<char>)
    ensures
        coordinator::holds(plan::declared_paths(theme, main, names), q) <==> (path::same_path(
            path::joined_path(theme, main),
            q,
        ) || path::same_path(path::joined_path(theme, "index.json"@), q) || names_path(
            theme,
            names,
            q,
        )),
{
    let empty = Seq::<Seq<char>>::empty();
    let first = path::joined_path(theme, main);
    let index = path::joined_path(theme, "index.json"@);
    law_adding_a_path_declares_it_alone(empty, first, q);
    law_adding_a_path_declares_it_alone(coordinator::with_path(empty, first), index, q);
    lemma_with_articles(
        coordinator::with_path(coordinator::with_path(empty, first), index),
        theme,
        names,
        q,
    );
}

/// The file of each step.
pub open spec fn step_files(steps: Seq<StepView>) -> Seq<Seq<char>> {
    Seq::new(steps.len(), |i: int| step_file(steps[i]))
}

proof fn lemma_touched(theme: Seq<char>, steps: Seq<StepView>, q: Seq<char>)
    ensures
        coordinator::holds(touched_by_all(theme, steps), q) <==> (names_path(
            theme,
            step_files(steps),
            q,
        ) || (steps.len() > 0 && path::same_path(path::joined_path(theme, "index.json"@), q))),
    decreases steps.len(),
{
    if steps.len() > 0 {
        let init = steps.drop_last();
        lemma_touched(theme, init, q);
        let before = touched_by_all(theme, init);
        let p = path::joined_path(theme, step_file(steps.last()));
        let index = path::joined_path(theme, "index.json"@);
        law_adding_a_path_declares_it_alone(before, p, q);
        law_adding_a_path_declares_it_alone(coordinator::with_path(before, p), index, q);
        assert(step_files(steps).drop_last() == step_files(init));
        lemma_names_path_push(theme, step_files(steps), q);
    }
}

/// A split touches exactly the paths that it declares.
pub proof fn law_a_split_touches_what_it_declares(
    theme: Seq<char>,
    source: Seq<char>,
    source_content: Seq<char>,
    outputs: Seq<plan::NewArticle>,
    q: Seq<char>,
)
    ensures
        ({
            let steps = seq![
                StepView::Write { theme, file: source, content: source_content },
            ] + plan::creations(theme, outputs);
            coordinator::holds(touched_by_all(theme, steps), q) <==> coordinator::holds(
                plan::declared_paths(theme, source, plan::file_names(outputs)),
                q,
            )
        }),
{
    let names = plan::file_names(outputs);
    let write = StepView::Write { theme, file: source, content: source_content };
    let steps = seq![write] + plan::creations(theme, outputs);
    lemma_touched(theme, steps, q);
    lemma_declared(theme, source, names, q);
    let files = step_files(steps);
    assert(files == seq![source] + names);
    if names_path(theme, files, q) {
        let k = choose|k: int|
            0 <= k < files.len() && path::same_path(
                path::joined_path(theme, #[trigger] files[k]),
                q,
            );
        if k > 0 {
            assert(names[k - 1] == files[k]);
        }
    }
    if names_path(theme, names, q) {
        let k = choose|k: int|
            0 <= k < names.len() && path::same_path(
                path::joined_path(theme, #[trigger] names[k]),
                q,
            );
        assert(files[k + 1] == names[k]);
    }
    assert(files[0] == source);
}

/// A merge touches exactly the paths that it declares.
pub proof fn law_a_merge_touches_what_it_declares(
    theme: Seq<char>,
    sources: Seq<Seq<char>>,
    creation: StepView,
    q: Seq<char>,
)
    requires
        creation is Create,
    ensures
        coordinator::holds(
            touched_by_all(theme, plan::deletions(theme, sources).push(creation)),
            q,
        ) <==> coordinator::holds(
            plan::declared_paths(theme, step_file(creation), sources),
            q,
        ),
{
    let steps = plan::deletions(theme, sources).push(creation);
    let target = step_file(creation);
    lemma_touched(theme, steps, q);
    lemma_declared(theme, target, sources, q);
    assert(step_files(steps) == sources.push(target));
    assert(step_files(steps).drop_last() == sources);
    lemma_names_path_push(theme, step_files(steps), q);
}

// ---------------------------------------------------------------------------
// Reservations
// ---------------------------------------------------------------------------

/// Whether the article `file` of `theme` is among the declared paths.
pub open spec fn declares(locks: Seq<Seq<char>>, theme: Seq<char>, file: Seq<char>) -> bool {
    exists|j: int|
        0 <= j < locks.len() && path::parts(#[trigger] locks[j]) == path::parts(
            path::joined_path(theme, file),
        )
}

proof fn lemma_first_declared(
    reservations: Seq<(Seq<char>, Seq<char>)>,
    locks: Seq<Seq<char>>,
    i: int,
)
    requires
        0 <= i <= reservations.len(),
        i < reservations.len() ==> declares(locks, reservations[i].0, reservations[i].1),
        forall|k: int|
            0 <= k < i ==> !declares(
                locks,
                (#[trigger] reservations[k]).0,
                reservations[k].1,
            ),
    ensures
        state::served(reservations, locks) == i,
    decreases i,
{
    if reservations.len() > 0 {
        let (theme, file) = reservations[0];
        assert(coordinator::holds(locks, path::joined_path(theme, file)) <==> declares(
            locks,
            theme,
            file,
        )) by {
            let p = path::joined_path(theme, file);
            if coordinator::holds(locks, p) {
                let j = choose|j: int|
                    0 <= j < locks.len() && path::same_path(#[trigger] locks[j], p);
                assert(path::parts(locks[j]) == path::parts(p));
            }
            if declares(locks, theme, file) {
                let j = choose|j: int|
                    0 <= j < locks.len() && path::parts(#[trigger] locks[j]) == path::parts(p);
                assert(path::same_path(locks[j], p));
            }
        }
        if i > 0 {
            assert(!declares(locks, reservations[0].0, reservations[0].1));
            let rest = reservations.drop_first();
            assert forall|k: int| 0 <= k < i - 1 implies !declares(
                locks,
                (#[trigger] rest[k]).0,
                rest[k].1,
            ) by {
                assert(rest[k] == reservations[k + 1]);
            }
            if i < reservations.len() {
                assert(rest[i - 1] == reservations[i]);
            }
            lemma_first_declared(rest, locks, i - 1);
        }
    }
}

/// An edit serves the reservations of its own articles only: an agent's serves
/// none; a human's that declares no reserved article leaves all of them as they
/// were; and one that declares some uses up the oldest of those, and no other.
pub proof fn law_an_edit_serves_the_oldest_reservation_it_declares(
    s: CoordView,
    req: RequestView,
    i: int,
)
    requires
        0 <= i <= s.reservations.len(),
        i < s.reservations.len() ==> declares(
            req.locks,
            s.reservations[i].0,
            s.reservations[i].1,
        ),
        forall|k: int|
            0 <= k < i ==> !declares(
                req.locks,
                (#[trigger] s.reservations[k]).0,
                s.reservations[k].1,
            ),
    ensures
        req.priority == Priority::Agent ==> state::entered(s, req).reservations == s.reservations,
        req.priority == Priority::Human && i == s.reservations.len() ==> state::entered(
            s,
            req,
        ).reservations == s.reservations,
        req.priority == Priority::Human && i < s.reservations.len() ==> state::entered(
            s,
            req,
        ).reservations == s.reservations.remove(i),
        state::serves(s, req) <==> req.priority == Priority::Human && i < s.reservations.len(),
{
    lemma_first_declared(s.reservations, req.locks, i);
}

/// A reservation that is gone after a transaction entered was for an article that
/// the transaction declared.
pub proof fn law_no_reservation_is_taken_by_another_edit(
    s: CoordView,
    req: RequestView,
    theme: Seq<char>,
    file: Seq<char>,
)
    requires
        s.reservations.contains((theme, file)),
        !declares(req.locks, theme, file),
    ensures
        state::entered(s, req).reservations.contains((theme, file)),
{
    let i = lemma_oldest_declared(s.reservations, req.locks, 0);
    law_an_edit_serves_the_oldest_reservation_it_declares(s, req, i);
    let k = s.reservations.index_of((theme, file));
    let after = state::entered(s, req).reservations;
    if req.priority == Priority::Human && i < s.reservations.len() {
        if k < i {
            assert(after[k] == (theme, file));
        } else {
            assert(k != i);
            assert(after[k - 1] == (theme, file));
        }
    }
}

proof fn lemma_oldest_declared(
    reservations: Seq<(Seq<char>, Seq<char>)>,
    locks: Seq<Seq<char>>,
    from: int,
) -> (i: int)
    requires
        0 <= from <= reservations.len(),
        forall|k: int|
            0 <= k < from ==> !declares(
                locks,
                (#[trigger] reservations[k]).0,
                reservations[k].1,
            ),
    ensures
        0 <= i <= reservations.len(),
        i < reservations.len() ==> declares(locks, reservations[i].0, reservations[i].1),
        forall|k: int|
            0 <= k < i ==> !declares(
                locks,
                (#[trigger] reservations[k]).0,
                reservations[k].1,
            ),
    decreases reservations.len() - from,
{
    if from < reservations.len() && !declares(
        locks,
        reservations[from].0,
        reservations[from].1,
    ) {
        lemma_oldest_declared(reservations, locks, from + 1)
    } else {
        from
    }
}

/// A release lets go of the locks that were declared and of no others, in their
/// order, and changes nothing else but that no transaction runs.
pub proof fn law_a_release_frees_what_was_declared(s: CoordView, locks: Seq<Seq<char>>)
    ensures
        ({
            let after = state::released(s, locks);
            &&& !after.running
            &&& after.queue == s.queue
            &&& after.reservations == s.reservations
            &&& after.next_seq == s.next_seq
            &&& after.held == s.held.filter(
                |h: (Seq<char>, Author)| !coordinator::holds(locks, h.0),
            )
        }),
{
    lemma_held_filtered(s.held, locks);
}

proof fn lemma_held_filtered(held: Seq<(Seq<char>, Author)>, locks: Seq<Seq<char>>)
    ensures
        state::still_held(held, locks) == held.filter(
            |h: (Seq<char>, Author)| !coordinator::holds(locks, h.0),
        ),
    decreases held.len(),
{
    reveal(Seq::filter);
    if held.len() > 0 {
        lemma_held_filtered(held.drop_last(), locks);
    }
}

/// A release is announced under the writer's tag, and behind it, if any reservation
/// stands, that its article is handed to the human who reserved first.
pub proof fn law_a_release_hands_over_to_the_oldest_reservation(s: CoordView, writer: Author)
    ensures
        ({
            let events = state::release_events(s, writer);
            &&& events[0] == EventView::TxnReleased { writer: writer.tag() }
            &&& s.reservations.len() == 0 ==> events.len() == 1
            &&& s.reservations.len() > 0 ==> events.len() == 2 && events[1]
                == EventView::HandoffToHuman {
                theme: s.reservations[0].0,
                file: s.reservations[0].1,
            }
        }),
{
}

/// Entering takes the first ticket off the queue, locks each declared path in the
/// writer's name behind what was held, and leaves the rest of the state alone.
pub proof fn law_entering_locks_each_path_for_the_writer(s: CoordView, req: RequestView)
    requires
        s.queue.len() > 0,
    ensures
        ({
            let after = state::entered(s, req);
            &&& after.running
            &&& after.queue == s.queue.skip(1)
            &&& after.next_seq == s.next_seq
            &&& after.held.len() == s.held.len() + req.locks.len()
            &&& after.held.take(s.held.len() as int) == s.held
            &&& forall|i: int|
                0 <= i < req.locks.len() ==> after.held[s.held.len() + i] == (
                    #[trigger] req.locks[i],
                    req.writer,
                )
        }),
{
    let after = state::entered(s, req);
    assert(after.queue == s.queue.skip(1));
    assert(after.held.take(s.held.len() as int) == s.held);
}

/// The last event of entering says who holds which paths. Before it stand handoffs
/// only where a human had to wait without a reservation being served: one for each
/// declared article, in order.
pub proof fn law_entering_is_announced(s: CoordView, req: RequestView, parked: bool)
    ensures
        ({
            let events = state::entry_events(s, req, parked);
            let arts = state::articles(req.locks);
            &&& events.last() == EventView::TxnAcquired {
                writer: req.writer.tag(),
                paths: req.locks,
            }
            &&& !parked || req.priority == Priority::Agent || state::serves(s, req)
                ==> events.len() == 1
            &&& parked && req.priority == Priority::Human && !state::serves(s, req)
                ==> events.len() == arts.len() + 1
            &&& forall|i: int|
                0 <= i < events.len() - 1 ==> #[trigger] events[i] == EventView::HandoffToHuman {
                    theme: arts[i].0,
                    file: arts[i].1,
                }
        }),
{
}

/// The articles among declared paths are those of a theme and a file name, each by
/// these two, in the order of the paths; a theme's manifest is none.
pub proof fn law_articles_are_told_by_theme_and_file(
    locks: Seq<Seq<char>>,
    theme: Seq<char>,
    file: Seq<char>,
)
    requires
        path::laws::is_name(theme),
        path::laws::is_name(file),
    ensures
        state::articles(Seq::empty()) == Seq::<(Seq<char>, Seq<char>)>::empty(),
        file != "index.json"@ ==> state::articles(
            locks.push(path::joined_path(theme, file)),
        ) == state::articles(locks).push((theme, file)),
        file == "index.json"@ ==> state::articles(
            locks.push(path::joined_path(theme, file)),
        ) == state::articles(locks),
{
    let p = path::joined_path(theme, file);
    assert(locks.push(p).drop_last() == locks);
    path::laws::law_a_name_stands_behind_its_directory(theme, file);
    path::laws::law_a_path_without_a_slash_is_one_component(theme);
    assert(path::parts(p)[0] == path::Part::Name(theme));
    assert(path::parts(p)[1] == path::Part::Name(file));
}

/// A path of another depth than theme and file is no article.
pub proof fn law_other_paths_are_no_articles(locks: Seq<Seq<char>>, p: Seq<char>)
    requires
        path::parts(p).len() != 2,
    ensures
        state::articles(locks.push(p)) == state::articles(locks),
{
    assert(locks.push(p).drop_last() == locks);
}

/// A ticket is put into the queue once, in front of what waits behind it; no other
/// ticket moves.
pub proof fn law_a_ticket_moves_no_other(s: CoordView, req: RequestView)
    ensures
        ({
            let at = state::slot(s.queue, req.priority);
            let after = queued(s, req);
            &&& 0 <= at <= s.queue.len()
            &&& after.queue.len() == s.queue.len() + 1
            &&& after.queue[at] == (s.next_seq, req.writer)
            &&& after.queue.remove(at) == s.queue
            &&& req.priority == Priority::Agent ==> at == s.queue.len()
            &&& after.held == s.held
            &&& after.reservations == s.reservations
            &&& after.running == s.running
        }),
{
    lemma_first_agent(s.queue);
    let at = state::slot(s.queue, req.priority);
    assert(queued(s, req).queue.remove(at) == s.queue);
}

/// Cancelling takes away the oldest reservation of the article, and no other.
pub proof fn law_cancelling_takes_the_oldest_reservation(
    reservations: Seq<(Seq<char>, Seq<char>)>,
    theme: Seq<char>,
    file: Seq<char>,
    i: int,
)
    requires
        0 <= i <= reservations.len(),
        i < reservations.len() ==> reservations[i] == (theme, file),
        forall|k: int| 0 <= k < i ==> #[trigger] reservations[k] != (theme, file),
    ensures
        ({
            let after = state::without(
                reservations,
                state::reserved_at(reservations, theme, file),
            );
            &&& i < reservations.len() ==> after == reservations.remove(i)
            &&& i == reservations.len() ==> after == reservations
        }),
    decreases i,
{
    lemma_reserved_first(reservations, theme, file, i);
}

proof fn lemma_reserved_first(
    reservations: Seq<(Seq<char>, Seq<char>)>,
    theme: Seq<char>,
    file: Seq<char>,
    i: int,
)
    requires
        0 <= i <= reservations.len(),
        i < reservations.len() ==> reservations[i] == (theme, file),
        forall|k: int| 0 <= k < i ==> #[trigger] reservations[k] != (theme, file),
    ensures
        state::reserved_at(reservations, theme, file) == i,
    decreases i,
{
    if i > 0 {
        let rest = reservations.drop_first();
        assert(reservations[0] != (theme, file));
        assert forall|k: int| 0 <= k < i - 1 implies #[trigger] rest[k] != (theme, file) by {
            assert(rest[k] == reservations[k + 1]);
        }
        lemma_reserved_first(rest, theme, file, i - 1);
    }
}

/// A human's transactions have the priority of a human, an agent's that of an
/// agent.
pub proof fn law_humans_have_priority(writer: &WriterId, priority: Priority)
    requires
        call_ensures(Priority::for_writer, (writer,), priority),
    ensures
        priority == Priority::Human <==> *writer is Human,
        priority == Priority::Agent <==> *writer is Agent,
{
}

// ---------------------------------------------------------------------------
// Splitting and merging
// ---------------------------------------------------------------------------

/// Whether two optional names are the same.
pub open spec fn same_name(a: Option<String>, b: Option<String>) -> bool {
    match (a, b) {
        (Some(x), Some(y)) => x@ == y@,
        (None, None) => true,
        _ => false,
    }
}

/// Whether a step creates an article as it was planned.
pub open spec fn creates(step: ArticleStep, theme: String, planned: NewArticle) -> bool {
    step matches ArticleStep::Create { theme: t, file, content, title, parent } && t@ == theme@
        && file@ == planned.file_name@ && content@ == planned.content@ && title@
        == planned.title@ && same_name(parent, planned.parent)
}

/// Whether a step deletes an article.
pub open spec fn deletes(step: ArticleStep, theme: String, name: String) -> bool {
    step matches ArticleStep::Delete { theme: t, file } && t@ == theme@ && file@ == name@
}

proof fn lemma_split_problem_at(names: Seq<Seq<char>>, source: Seq<char>, n: int)
    requires
        0 <= n <= names.len(),
    ensures
        plan::split_problem(names, source, n) is None <==> (forall|i: int|
            0 <= i < n ==> #[trigger] names[i] != source) && (forall|i: int, j: int|
            0 <= i < j < n ==> #[trigger] names[i] != #[trigger] names[j]),
    decreases n,
{
    if n > 0 {
        lemma_split_problem_at(names, source, n - 1);
        let front = names.take(n - 1);
        if plan::split_problem(names, source, n) is None {
            assert forall|i: int, j: int| 0 <= i < j < n implies #[trigger] names[i]
                != #[trigger] names[j] by {
                if j == n - 1 {
                    assert(front[i] == names[i]);
                    assert(front.contains(names[i]));
                }
            }
        } else if plan::split_problem(names, source, n - 1) is None {
            if names[n - 1] != source {
                let k = front.index_of(names[n - 1]);
                assert(names[k] == names[n - 1]);
            }
        }
    }
}

/// An accepted split writes the retained body into the source first, and then
/// creates each output, in order, as it was planned: its file name, its body, its
/// title and its parent.
pub proof fn law_a_split_creates_what_was_planned(
    c: &Coordinator,
    writer: WriterId,
    split: SplitPlan,
    txn: Transaction,
)
    requires
        call_ensures(
            Coordinator::split_article,
            (c, writer, split),
            Ok::<Transaction, CoordError>(txn),
        ),
    ensures
        txn.steps@.len() == split.outputs@.len() + 1,
        txn.steps@[0] matches ArticleStep::Write { theme, file, content } && theme@
            == split.theme@ && file@ == split.source_file@ && content@ == split.source_content@,
        forall|i: int|
            0 <= i < split.outputs@.len() ==> creates(
                txn.steps@[i + 1],
                split.theme,
                #[trigger] split.outputs@[i],
            ),
{
    let steps = plan::steps_view(txn.steps@);
    let first = StepView::Write {
        theme: split.theme@,
        file: split.source_file@,
        content: split.source_content@,
    };
    assert(steps == seq![first] + plan::creations(split.theme@, split.outputs@));
    assert(txn.steps@.len() == steps.len());
    assert(steps[0] == txn.steps@[0]@);
    assert forall|i: int| 0 <= i < split.outputs@.len() implies creates(
        txn.steps@[i + 1],
        split.theme,
        #[trigger] split.outputs@[i],
    ) by {
        assert(steps[i + 1] == txn.steps@[i + 1]@);
        assert(steps[i + 1] == plan::creations(split.theme@, split.outputs@)[i]);
    }
}

/// A split is accepted exactly where it has an output, and no output has the name
/// of the source or of another output.
pub proof fn law_a_split_is_accepted_where_names_differ(
    c: &Coordinator,
    writer: WriterId,
    split: SplitPlan,
    r: Result<Transaction, CoordError>,
)
    requires
        call_ensures(Coordinator::split_article, (c, writer, split), r),
    ensures
        r is Ok <==> split.outputs@.len() > 0 && (forall|i: int|
            0 <= i < split.outputs@.len() ==> (#[trigger] split.outputs@[i]).file_name@
                != split.source_file@) && (forall|i: int, j: int|
            0 <= i < j < split.outputs@.len() ==> (#[trigger] split.outputs@[i]).file_name@ != (
            #[trigger] split.outputs@[j]).file_name@),
        r matches Err(e) ==> e is Aborted,
{
    let names = plan::file_names(split.outputs@);
    lemma_split_problem_at(names, split.source_file@, names.len() as int);
    if r is Ok {
        assert forall|i: int| 0 <= i < split.outputs@.len() implies (
        #[trigger] split.outputs@[i]).file_name@ != split.source_file@ by {
            assert(names[i] != split.source_file@);
        }
        assert forall|i: int, j: int| 0 <= i < j < split.outputs@.len() implies (
        #[trigger] split.outputs@[i]).file_name@ != (#[trigger] split.outputs@[j]).file_name@ by {
            assert(names[i] != names[j]);
        }
    }
}

/// A split runs in its writer's name and at the writer's priority, and declares the
/// source, the theme's manifest and each output, and nothing else.
pub proof fn law_a_split_declares_its_articles(
    c: &Coordinator,
    writer: WriterId,
    split: SplitPlan,
    txn: Transaction,
    q: Seq<char>,
)
    requires
        call_ensures(
            Coordinator::split_article,
            (c, writer, split),
            Ok::<Transaction, CoordError>(txn),
        ),
    ensures
        txn.request.writer == writer,
        txn.request.priority == Priority::Human <==> writer is Human,
        coordinator::sorted(txn.request.locks@),
        (exists|k: int|
            0 <= k < txn.request.locks@.len() && path::same_path(
                #[trigger] txn.request.locks@[k],
                q,
            )) <==> path::same_path(path::joined_path(split.theme@, split.source_file@), q)
            || path::same_path(path::joined_path(split.theme@, "index.json"@), q) || (exists|i: int|
            0 <= i < split.outputs@.len() && path::same_path(
                path::joined_path(split.theme@, (#[trigger] split.outputs@[i]).file_name@),
                q,
            )),
{
    let names = plan::file_names(split.outputs@);
    lemma_declared(split.theme@, split.source_file@, names, q);
    if exists|i: int|
        0 <= i < split.outputs@.len() && path::same_path(
            path::joined_path(split.theme@, (#[trigger] split.outputs@[i]).file_name@),
            q,
        ) {
        let i = choose|i: int|
            0 <= i < split.outputs@.len() && path::same_path(
                path::joined_path(split.theme@, (#[trigger] split.outputs@[i]).file_name@),
                q,
            );
        assert(names[i] == split.outputs@[i].file_name@);
    }
    if exists|i: int|
        0 <= i < names.len() && path::same_path(
            path::joined_path(split.theme@, #[trigger] names[i]),
            q,
        ) {
        let i = choose|i: int|
            0 <= i < names.len() && path::same_path(
                path::joined_path(split.theme@, #[trigger] names[i]),
                q,
            );
        assert(names[i] == split.outputs@[i].file_name@);
    }
    assert(coordinator::holds(txn.request.locks@, q) <==> (exists|k: int|
        0 <= k < txn.request.locks@.len() && path::same_path(
            #[trigger] txn.request.locks@[k],
            q,
        )));
}

/// An accepted merge deletes each source, in order, and then creates the target as
/// it was planned, but for a parent that is itself deleted.
pub proof fn law_a_merge_creates_what_was_planned(
    c: &Coordinator,
    writer: WriterId,
    merge: MergePlan,
    target_exists: bool,
    txn: Transaction,
)
    requires
        call_ensures(
            Coordinator::merge_articles,
            (c, writer, merge, target_exists),
            Ok::<Transaction, CoordError>(txn),
        ),
    ensures
        ({
            let n = merge.sources@.len() as int;
            let last = txn.steps@[n];
            &&& txn.steps@.len() == n + 1
            &&& forall|i: int|
                0 <= i < n ==> deletes(txn.steps@[i], merge.theme, #[trigger] merge.sources@[i])
            &&& last matches ArticleStep::Create { theme, file, content, title, parent }
            &&& theme@ == merge.theme@
            &&& file@ == merge.target.file_name@
            &&& content@ == merge.target.content@
            &&& title@ == merge.target.title@
            &&& merge.target.parent is None ==> parent is None
            &&& merge.target.parent matches Some(p) ==> if exists|i: int|
                0 <= i < n && (#[trigger] merge.sources@[i])@ == p@ {
                parent is None
            } else {
                same_name(parent, merge.target.parent)
            }
        }),
{
    let steps = plan::steps_view(txn.steps@);
    let names = crate::text::views(merge.sources@);
    let n = merge.sources@.len() as int;
    assert(steps.len() == n + 1);
    assert(txn.steps@.len() == steps.len());
    assert forall|i: int| 0 <= i < n implies deletes(
        txn.steps@[i],
        merge.theme,
        #[trigger] merge.sources@[i],
    ) by {
        assert(steps[i] == txn.steps@[i]@);
        assert(names[i] == merge.sources@[i]@);
    }
    assert(steps[n] == txn.steps@[n]@);
    let wanted = crate::content::option_view(merge.target.parent);
    assert(txn.steps@[n]@ == StepView::Create {
        theme: merge.theme@,
        file: merge.target.file_name@,
        content: merge.target.content@,
        title: merge.target.title@,
        parent: plan::surviving_parent(wanted, names),
    });
    assert(txn.steps@[n] is Create);
    if let Some(p) = merge.target.parent {
        assert(wanted == Some(p@));
        if exists|i: int| 0 <= i < n && (#[trigger] merge.sources@[i])@ == p@ {
            let i = choose|i: int| 0 <= i < n && (#[trigger] merge.sources@[i])@ == p@;
            assert(names[i] == p@);
        } else if names.contains(p@) {
            let i = names.index_of(p@);
            assert(merge.sources@[i]@ == p@);
        }
    }
}

proof fn lemma_merge_problem_at(names: Seq<Seq<char>>, n: int)
    requires
        0 <= n <= names.len(),
    ensures
        plan::merge_problem(names, n) is None <==> (forall|i: int, j: int|
            0 <= i < j < n ==> #[trigger] names[i] != #[trigger] names[j]),
    decreases n,
{
    if n > 0 {
        lemma_merge_problem_at(names, n - 1);
        let front = names.take(n - 1);
        if plan::merge_problem(names, n) is None {
            assert forall|i: int, j: int| 0 <= i < j < n implies #[trigger] names[i]
                != #[trigger] names[j] by {
                if j == n - 1 {
                    assert(front[i] == names[i]);
                    assert(front.contains(names[i]));
                }
            }
        } else if plan::merge_problem(names, n - 1) is None {
            let k = front.index_of(names[n - 1]);
            assert(names[k] == names[n - 1]);
        }
    }
}

/// A merge is accepted exactly where it has two sources or more, none of them
/// named twice, and its target does not have the name of an article that survives.
pub proof fn law_a_merge_is_accepted_where_names_differ(
    c: &Coordinator,
    writer: WriterId,
    merge: MergePlan,
    target_exists: bool,
    r: Result<Transaction, CoordError>,
)
    requires
        call_ensures(Coordinator::merge_articles, (c, writer, merge, target_exists), r),
    ensures
        r is Ok <==> merge.sources@.len() >= 2 && (forall|i: int, j: int|
            0 <= i < j < merge.sources@.len() ==> (#[trigger] merge.sources@[i])@ != (
            #[trigger] merge.sources@[j])@) && (target_exists ==> exists|i: int|
            0 <= i < merge.sources@.len() && (#[trigger] merge.sources@[i])@
                == merge.target.file_name@),
        r matches Err(e) ==> e is Aborted,
{
    let names = crate::text::views(merge.sources@);
    let target = merge.target.file_name@;
    lemma_merge_problem_at(names, names.len() as int);
    if plan::merge_problem(names, names.len() as int) is None {
        assert forall|i: int, j: int| 0 <= i < j < merge.sources@.len() implies (
        #[trigger] merge.sources@[i])@ != (#[trigger] merge.sources@[j])@ by {
            assert(names[i] != names[j]);
        }
    }
    if names.contains(target) {
        let i = names.index_of(target);
        assert(merge.sources@[i]@ == target);
    }
    if exists|i: int|
        0 <= i < merge.sources@.len() && (#[trigger] merge.sources@[i])@ == target {
        let i = choose|i: int|
            0 <= i < merge.sources@.len() && (#[trigger] merge.sources@[i])@ == target;
        assert(names[i] == target);
    }
}

/// A merge runs in its writer's name and at the writer's priority, and declares the
/// target, the theme's manifest and each source, and nothing else.
pub proof fn law_a_merge_declares_its_articles(
    c: &Coordinator,
    writer: WriterId,
    merge: MergePlan,
    target_exists: bool,
    txn: Transaction,
    q: Seq<char>,
)
    requires
        call_ensures(
            Coordinator::merge_articles,
            (c, writer, merge, target_exists),
            Ok::<Transaction, CoordError>(txn),
        ),
    ensures
        txn.request.writer == writer,
        txn.request.priority == Priority::Human <==> writer is Human,
        coordinator::sorted(txn.request.locks@),
        (exists|k: int|
            0 <= k < txn.request.locks@.len() && path::same_path(
                #[trigger] txn.request.locks@[k],
                q,
            )) <==> path::same_path(path::joined_path(merge.theme@, merge.target.file_name@), q)
            || path::same_path(path::joined_path(merge.theme@, "index.json"@), q) || (exists|i: int|
            0 <= i < merge.sources@.len() && path::same_path(
                path::joined_path(merge.theme@, (#[trigger] merge.sources@[i])@),
                q,
            )),
{
    let names = crate::text::views(merge.sources@);
    lemma_declared(merge.theme@, merge.target.file_name@, names, q);
    if exists|i: int|
        0 <= i < merge.sources@.len() && path::same_path(
            path::joined_path(merge.theme@, (#[trigger] merge.sources@[i])@),
            q,
        ) {
        let i = choose|i: int|
            0 <= i < merge.sources@.len() && path::same_path(
                path::joined_path(merge.theme@, (#[trigger] merge.sources@[i])@),
                q,
            );
        assert(names[i] == merge.sources@[i]@);
    }
    if exists|i: int|
        0 <= i < names.len() && path::same_path(
            path::joined_path(merge.theme@, #[trigger] names[i]),
            q,
        ) {
        let i = choose|i: int|
            0 <= i < names.len() && path::same_path(
                path::joined_path(merge.theme@, #[trigger] names[i]),
                q,
            );
        assert(names[i] == merge.sources@[i]@);
    }
    assert(coordinator::holds(txn.request.locks@, q) <==> (exists|k: int|
        0 <= k < txn.request.locks@.len() && path::same_path(
            #[trigger] txn.request.locks@[k],
            q,
        )));
}

/// Undoing an edit declares the article, and nothing else.
pub proof fn law_an_undo_declares_its_article_alone(
    c: &Coordinator,
    writer: WriterId,
    theme: &str,
    file: &str,
    req: TxnRequest,
)
    requires
        call_ensures(Coordinator::undo_article, (c, writer, theme, file), req),
    ensures
        req.writer == writer,
        req.priority == Priority::Human <==> writer is Human,
        req.locks@.len() == 1,
        path::same_path(req.locks@[0], path::joined_path(theme@, file@)),
{
}

/// A transaction body may create or delete an article exactly where it declared
/// both the article and the theme's manifest; it is told the first of the two that
/// it did not declare. What it did is recorded where it succeeded, and nothing else.
pub proof fn law_a_body_touches_only_what_it_declared(
    before: TxnCtx<'_>,
    after: TxnCtx<'_>,
    theme: Seq<char>,
    file: Seq<char>,
    done: Result<(), ToolError>,
    r: Result<(), CoordError>,
    q: Seq<char>,
)
    requires
        plan::settled(before, after, theme, file, done, r),
    ensures
        ({
            let article = path::joined_path(theme, file);
            let index = path::joined_path(theme, "index.json"@);
            let ours = coordinator::holds(before.allowed(), article);
            let theirs = coordinator::holds(before.allowed(), index);
            &&& r is Ok <==> ours && theirs && done is Ok
            &&& !ours ==> (r matches Err(CoordError::Undeclared(p)) && p@ == article)
            &&& ours && !theirs ==> (r matches Err(CoordError::Undeclared(p)) && p@ == index)
            &&& ours && theirs && done is Err ==> (r matches Err(CoordError::Workspace(e)) && e
                == done->Err_0)
            &&& r is Err ==> after.touched() == before.touched()
            &&& r is Ok ==> (coordinator::holds(after.touched(), q) <==> coordinator::holds(
                before.touched(),
                q,
            ) || path::same_path(article, q) || path::same_path(index, q))
        }),
{
    let article = path::joined_path(theme, file);
    let index = path::joined_path(theme, "index.json"@);
    law_adding_a_path_declares_it_alone(before.touched(), article, q);
    law_adding_a_path_declares_it_alone(
        coordinator::with_path(before.touched(), article),
        index,
        q,
    );
}

/// A transaction enters only where none runs, from the front of the queue, with
/// every declared path free, and, if it is an agent's, with no reservation pending.
/// Where all of this holds, it does enter.
pub proof fn law_a_transaction_enters_in_its_turn(s: CoordView, seq: u64, req: RequestView)
    ensures
        state::enterable(s, seq, req) <==> {
            &&& !s.running
            &&& s.queue.len() > 0 && s.queue[0].0 == seq
            &&& forall|i: int, j: int|
                0 <= i < s.held.len() && 0 <= j < req.locks.len() ==> path::parts(
                    (#[trigger] s.held[i]).0,
                ) != path::parts(#[trigger] req.locks[j])
            &&& req.priority == Priority::Human || s.reservations.len() == 0
        },
{
    if state::all_free(s.held, req.locks) {
        assert forall|i: int, j: int|
            0 <= i < s.held.len() && 0 <= j < req.locks.len() implies path::parts(
            (#[trigger] s.held[i]).0,
        ) != path::parts(#[trigger] req.locks[j]) by {
            assert(!state::locked(s.held, req.locks[j]));
            assert(!path::same_path(s.held[i].0, req.locks[j]));
        }
    } else {
        let j = choose|j: int|
            0 <= j < req.locks.len() && state::locked(s.held, #[trigger] req.locks[j]);
        let i = choose|i: int|
            0 <= i < s.held.len() && path::same_path((#[trigger] s.held[i]).0, req.locks[j]);
        assert(path::parts(s.held[i].0) == path::parts(req.locks[j]));
    }
}

/// What a failed transaction says names its kind and carries its details.
pub proof fn law_coordinator_errors_say_what_happened(e: &CoordError, inner: &str, s: String)
    requires
        call_ensures(CoordError::message, (e, inner), s),
    ensures
        match *e {
            CoordError::Undeclared(p) => s@ == "transaction wrote undeclared path: "@ + p@,
            CoordError::Workspace(_) => s@ == "workspace error: "@ + inner@,
            CoordError::Vcs(m) => s@ == "version control error: "@ + m@,
            CoordError::Aborted(why) => s@ == "transaction aborted: "@ + why@,
        },
{
}

/// Whether the output at `i` cannot be created beside those before it: it is named
/// like the source, or like one of them.
pub open spec fn collides(names: Seq<Seq<char>>, source: Option<Seq<char>>, i: int) -> bool {
    source == Some(names[i]) || exists|k: int| 0 <= k < i && #[trigger] names[k] == names[i]
}

proof fn lemma_split_reason(names: Seq<Seq<char>>, source: Seq<char>, n: int, i: int)
    requires
        0 <= i < n <= names.len(),
        collides(names, Some(source), i),
        forall|k: int| 0 <= k < i ==> !(#[trigger] collides(names, Some(source), k)),
    ensures
        plan::split_problem(names, source, n) == Some(
            if names[i] == source {
                "output `"@ + names[i] + "` collides with the source article"@
            } else {
                "duplicate output article `"@ + names[i] + "`"@
            },
        ),
    decreases n,
{
    if i < n - 1 {
        lemma_split_reason(names, source, n - 1, i);
    } else {
        lemma_no_split_reason(names, source, i);
        if names[i] != source {
            let k = choose|k: int| 0 <= k < i && #[trigger] names[k] == names[i];
            assert(names.take(i)[k] == names[i]);
            assert(names.take(i).contains(names[i]));
        }
    }
}

proof fn lemma_no_split_reason(names: Seq<Seq<char>>, source: Seq<char>, n: int)
    requires
        0 <= n <= names.len(),
        forall|k: int| 0 <= k < n ==> !(#[trigger] collides(names, Some(source), k)),
    ensures
        plan::split_problem(names, source, n) is None,
    decreases n,
{
    if n > 0 {
        lemma_no_split_reason(names, source, n - 1);
        let i = n - 1;
        assert(!collides(names, Some(source), i));
        if names.take(i).contains(names[i]) {
            let k = names.take(i).index_of(names[i]);
            assert(names[k] == names[i]);
        }
    }
}

proof fn lemma_merge_reason(names: Seq<Seq<char>>, n: int, i: int)
    requires
        0 <= i < n <= names.len(),
        collides(names, None, i),
        forall|k: int| 0 <= k < i ==> !(#[trigger] collides(names, None, k)),
    ensures
        plan::merge_problem(names, n) == Some("duplicate source article `"@ + names[i] + "`"@),
    decreases n,
{
    if i < n - 1 {
        lemma_merge_reason(names, n - 1, i);
    } else {
        lemma_no_merge_reason(names, i);
        let k = choose|k: int| 0 <= k < i && #[trigger] names[k] == names[i];
        assert(names.take(i)[k] == names[i]);
        assert(names.take(i).contains(names[i]));
    }
}

proof fn lemma_no_merge_reason(names: Seq<Seq<char>>, n: int)
    requires
        0 <= n <= names.len(),
        forall|k: int| 0 <= k < n ==> !(#[trigger] collides(names, None, k)),
    ensures
        plan::merge_problem(names, n) is None,
    decreases n,
{
    if n > 0 {
        lemma_no_merge_reason(names, n - 1);
        let i = n - 1;
        assert(!collides(names, None, i));
        if names.take(i).contains(names[i]) {
            let k = names.take(i).index_of(names[i]);
            assert(names[k] == names[i]);
        }
    }
}

/// A refused split says why: there is no output, or which is the first that is named
/// like the source or like one before it.
pub proof fn law_a_refused_split_says_why(
    c: &Coordinator,
    writer: WriterId,
    split: SplitPlan,
    i: int,
    r: Result<Transaction, CoordError>,
)
    requires
        call_ensures(Coordinator::split_article, (c, writer, split), r),
    ensures
        split.outputs@.len() == 0 ==> (r matches Err(CoordError::Aborted(why)) && why@
            == "split requires at least one output article"@),
        ({
            let names = Seq::new(split.outputs@.len(), |k: int| split.outputs@[k].file_name@);
            let source = split.source_file@;
            0 <= i < names.len() && collides(names, Some(source), i) && (forall|k: int|
                0 <= k < i ==> !(#[trigger] collides(names, Some(source), k))) ==> (
            r matches Err(CoordError::Aborted(why)) && why@ == if names[i] == source {
                "output `"@ + names[i] + "` collides with the source article"@
            } else {
                "duplicate output article `"@ + names[i] + "`"@
            })
        }),
{
    let names = Seq::new(split.outputs@.len(), |k: int| split.outputs@[k].file_name@);
    assert(names == plan::file_names(split.outputs@));
    let source = split.source_file@;
    if 0 <= i < names.len() && collides(names, Some(source), i) && (forall|k: int|
        0 <= k < i ==> !(#[trigger] collides(names, Some(source), k))) {
        lemma_split_reason(names, source, names.len() as int, i);
    }
}

/// A refused merge says why: there are fewer than two sources, or which is the first
/// that is named like one before it, or that the target is there already.
pub proof fn law_a_refused_merge_says_why(
    c: &Coordinator,
    writer: WriterId,
    merge: MergePlan,
    target_exists: bool,
    i: int,
    r: Result<Transaction, CoordError>,
)
    requires
        call_ensures(Coordinator::merge_articles, (c, writer, merge, target_exists), r),
    ensures
        ({
            let names = Seq::new(merge.sources@.len(), |k: int| merge.sources@[k]@);
            let target = merge.target.file_name@;
            let few = names.len() < 2;
            let first = 0 <= i < names.len() && collides(names, None, i) && (forall|k: int|
                0 <= k < i ==> !(#[trigger] collides(names, None, k)));
            let none = forall|k: int| 0 <= k < names.len() ==> !(#[trigger] collides(names, None, k));
            &&& few ==> (r matches Err(CoordError::Aborted(why)) && why@
                == "merge requires at least two source articles"@)
            &&& !few && first ==> (r matches Err(CoordError::Aborted(why)) && why@
                == "duplicate source article `"@ + names[i] + "`"@)
            &&& !few && none && target_exists && !names.contains(target) ==> (
            r matches Err(CoordError::Aborted(why)) && why@ == "target `"@ + target
                + "` collides with an existing article"@)
        }),
{
    let names = Seq::new(merge.sources@.len(), |k: int| merge.sources@[k]@);
    assert(names == crate::text::views(merge.sources@));
    if 0 <= i < names.len() && collides(names, None, i) && (forall|k: int|
        0 <= k < i ==> !(#[trigger] collides(names, None, k))) {
        lemma_merge_reason(names, names.len() as int, i);
    }
    if forall|k: int| 0 <= k < names.len() ==> !(#[trigger] collides(names, None, k)) {
        lemma_no_merge_reason(names, names.len() as int);
    }
}

/// Two sets of paths that are equal hold the same paths.
pub proof fn law_equal_sets_hold_the_same_paths(
    a: Seq<Seq<char>>,
    b: Seq<Seq<char>>,
    p: Seq<char>,
)
    requires
        coordinator::same_paths(a, b),
    ensures
        coordinator::holds(a, p) <==> coordinator::holds(b, p),
{
    if coordinator::holds(a, p) {
        let i = choose|i: int| 0 <= i < a.len() && path::same_path(#[trigger] a[i], p);
        assert(path::same_path(b[i], p));
    }
    if coordinator::holds(b, p) {
        let i = choose|i: int| 0 <= i < b.len() && path::same_path(#[trigger] b[i], p);
        assert(path::same_path(a[i], p));
    }
}

/// A set holds the paths that are made of the same components as one of its own.
pub proof fn law_a_set_is_asked_by_components(locks: &LockSet, p: &str, yes: bool)
    requires
        call_ensures(LockSet::contains, (locks, p), yes),
    ensures
        yes <==> exists|i: int|
            0 <= i < locks@.len() && path::parts(#[trigger] locks@[i]) == path::parts(p@),
{
    if yes {
        let i = choose|i: int| 0 <= i < locks@.len() && path::same_path(#[trigger] locks@[i], p@);
        assert(path::parts(locks@[i]) == path::parts(p@));
    } else if exists|i: int|
        0 <= i < locks@.len() && path::parts(#[trigger] locks@[i]) == path::parts(p@) {
        let i = choose|i: int|
            0 <= i < locks@.len() && path::parts(#[trigger] locks@[i]) == path::parts(p@);
        assert(path::same_path(locks@[i], p@));
    }
}

/// A request is seen with its own writer, priority and locks.
pub proof fn law_a_request_is_seen_as_it_is(
    writer: WriterId,
    locks: LockSet,
    label: &str,
    req: TxnRequest,
)
    requires
        call_ensures(TxnRequest::new, (writer, locks, label), req),
    ensures
        req@.writer == writer@,
        req@.locks == locks@,
        writer is Human <==> req@.priority == Priority::Human,
        req.label@ == label@,
{
}

} // verus!
