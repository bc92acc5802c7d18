//! What adopting earlier directories does to a disk.

use vstd::prelude::*;
use crate::adopt;
use crate::adopt::{Found, MigrationStep, MigrationView, Move, MovePhase};
use crate::disk;
use crate::disk::{Disk, Place};
use crate::io::{AnswerView, Reply, Request, Step};
use crate::path;
use crate::paths::Layout;

verus! {

/// The disk and the job at one point of a run.
pub ghost struct Moment {
    pub disk: Disk,
    pub step: MigrationStep,
}

/// Whether the job's request, carried out on the disk, can lead from one moment
/// to the next.
pub open spec fn follows(now: Moment, next: Moment) -> bool {
    now.step matches Step::Ask(job) && exists|reply: AnswerView|
        #[trigger] now.disk.can_become(job.request(), reply, next.disk) && next.step == job.resume(
            reply,
        )
}

/// Whether `run` is what can happen when `moves` are carried out.
pub open spec fn is_run(run: Seq<Moment>, moves: Seq<Move<Seq<u8>>>) -> bool {
    &&& run.len() > 0
    &&& run[0].disk.well_formed()
    &&& run[0].step == MigrationView::begin(moves)
    &&& forall|i: int, j: int|
        0 <= i && j == i + 1 && j < run.len() ==> #[trigger] follows(run[i], run[j])
}

pub open spec fn source(m: Move<Seq<u8>>) -> Place {
    path::place(m.from)
}

pub open spec fn target(m: Move<Seq<u8>>) -> Place {
    path::place(m.to)
}

/// Whether a move has nothing left to do.
pub open spec fn is_settled(disk: Disk, m: Move<Seq<u8>>) -> bool {
    !disk.shows_dir(m.from) || disk.reaches(m.to)
}

/// Whether no directory to be moved lies above or below a new place.
pub open spec fn are_apart(moves: Seq<Move<Seq<u8>>>) -> bool {
    forall|i: int, j: int|
        0 <= i < moves.len() && 0 <= j < moves.len() ==> {
            &&& !source(#[trigger] moves[i]).is_prefix_of(target(#[trigger] moves[j]))
            &&& !target(moves[j]).is_prefix_of(source(moves[i]))
        }
}

/// Whether nothing is spelled with `..`.
pub open spec fn are_straight(moves: Seq<Move<Seq<u8>>>) -> bool {
    forall|j: int|
        0 <= j < moves.len() ==> path::is_straight((#[trigger] moves[j]).from)
            && path::is_straight(moves[j].to)
}

/// Which of the moves the job is at.
pub open spec fn position(job: MigrationView, moves: Seq<Move<Seq<u8>>>) -> int {
    moves.len() - job.rest.len() - 1
}

/// Whether the job is at one of the moves and has the later ones before it.
pub open spec fn is_at_a_move(job: MigrationView, moves: Seq<Move<Seq<u8>>>) -> bool {
    &&& 0 <= position(job, moves)
    &&& job.current == moves[position(job, moves)]
    &&& job.rest == moves.skip(position(job, moves) + 1)
}

/// What the job has been told is so.
pub open spec fn is_informed(now: Moment, moves: Seq<Move<Seq<u8>>>) -> bool {
    &&& now.disk.well_formed()
    &&& now.step matches Step::Ask(job) ==> {
        &&& is_at_a_move(job, moves)
        &&& job.phase != MovePhase::Source ==> now.disk.shows_dir(job.current.from)
        &&& job.phase == MovePhase::Parent || job.phase == MovePhase::Rename ==> (
        path::is_straight(job.current.to) ==> !now.disk.has(target(job.current)))
        &&& job.phase == MovePhase::Parent ==> path::parent(job.current.to) is Some
    }
}

/// The kinds of change that one step can make to the disk.
spec fn is_careful_change(now: Disk, next: Disk, m: Move<Seq<u8>>) -> bool {
    ||| next == now
    ||| path::parent(m.to) is Some && now.gains_dirs(next, path::popped(m.to))
    ||| now.allows_move(source(m), target(m)) && next == now.after_move(source(m), target(m))
}

pub proof fn lemma_begin(moves: Seq<Move<Seq<u8>>>, rest: Seq<Move<Seq<u8>>>)
    requires
        rest.len() <= moves.len(),
        rest == moves.skip(moves.len() - rest.len()),
    ensures
        MigrationView::begin(rest) matches Step::Ask(job) ==> is_at_a_move(job, moves)
            && job.phase == MovePhase::Source && position(job, moves) == moves.len() - rest.len(),
{
    if rest.len() > 0 {
        assert(rest.drop_first() =~= moves.skip(moves.len() - rest.len() + 1));
    }
}

proof fn lemma_follows(now: Moment, next: Moment, moves: Seq<Move<Seq<u8>>>)
    requires
        follows(now, next),
        is_informed(now, moves),
    ensures
        is_informed(next, moves),
        is_careful_change(now.disk, next.disk, now.step->Ask_0.current),
{
    let job = now.step->Ask_0;
    let reply = choose|reply: AnswerView|
        #[trigger] now.disk.can_become(job.request(), reply, next.disk) && next.step == job.resume(
            reply,
        );
    lemma_begin(moves, job.rest);
    path::law_parent(job.current.to);
    match job.phase {
        MovePhase::Source => {},
        MovePhase::Target => {
            if path::is_straight(job.current.to) {
                disk::law_straight_paths_reach(now.disk, job.current.to);
            }
        },
        MovePhase::Parent => {
            if path::is_straight(job.current.to) && next.disk.has(target(job.current)) {
                path::lemma_way_to_the_parent(target(job.current), job.current.to);
            }
        },
        MovePhase::Rename => {
            if next.disk != now.disk {
                disk::law_move_to_open_place(now.disk, source(job.current), target(job.current));
            }
        },
    }
}

pub proof fn lemma_informed(run: Seq<Moment>, moves: Seq<Move<Seq<u8>>>, i: int)
    requires
        is_run(run, moves),
        0 <= i < run.len(),
    ensures
        is_informed(run[i], moves),
    decreases i,
{
    if i == 0 {
        assert(moves.skip(0) =~= moves);
        lemma_begin(moves, moves);
    } else {
        lemma_informed(run, moves, i - 1);
        assert(follows(run[i - 1], run[i]));
        lemma_follows(run[i - 1], run[i], moves);
    }
}

/// Existing data is never replaced: whatever a step does, all that stands outside
/// the directory that is being moved stands unchanged. A place that is spelled
/// without `..` is free when a directory is to be moved there.
pub proof fn law_existing_data_is_never_replaced(
    run: Seq<Moment>,
    moves: Seq<Move<Seq<u8>>>,
    i: int,
)
    requires
        is_run(run, moves),
        0 <= i < run.len(),
    ensures
        run[i].step matches Step::Ask(job) ==> {
            &&& i + 1 < run.len() ==> is_kept_outside(
                run[i].disk,
                run[i + 1].disk,
                source(job.current),
            )
            &&& job.request() matches Request::Rename { from, to } ==> {
                &&& run[i].disk.shows_dir(from)
                &&& path::is_straight(to) ==> !run[i].disk.has(path::place(to))
            }
        },
{
    lemma_informed(run, moves, i);
    if i + 1 < run.len() && run[i].step is Ask {
        assert(follows(run[i], run[i + 1]));
        lemma_follows(run[i], run[i + 1], moves);
        lemma_careful_change(run[i].disk, run[i + 1].disk, run[i].step->Ask_0.current);
    }
}

/// A step leaves what stands outside the directory that is being moved.
proof fn lemma_careful_change(now: Disk, next: Disk, m: Move<Seq<u8>>)
    requires
        now.well_formed(),
        is_careful_change(now, next, m),
    ensures
        next.well_formed(),
        is_kept_outside(now, next, source(m)),
{
    if next != now && !(path::parent(m.to) is Some && now.gains_dirs(next, path::popped(m.to))) {
        disk::law_move_to_open_place(now, source(m), target(m));
    }
}

/// What stands outside the directories to be moved stays where and as it is,
/// also when the moves end in a failure.
pub proof fn law_other_data_stays(
    run: Seq<Moment>,
    moves: Seq<Move<Seq<u8>>>,
    k: Place,
    i: int,
)
    requires
        is_run(run, moves),
        0 <= i < run.len(),
        run[0].disk.has(k),
        forall|j: int| 0 <= j < moves.len() ==> !source(#[trigger] moves[j]).is_prefix_of(k),
    ensures
        run[i].disk.has(k),
        run[i].disk.nodes[k] == run[0].disk.nodes[k],
    decreases i,
{
    if i > 0 {
        law_other_data_stays(run, moves, k, i - 1);
        lemma_informed(run, moves, i - 1);
        assert(follows(run[i - 1], run[i]));
        lemma_follows(run[i - 1], run[i], moves);
        let job = run[i - 1].step->Ask_0;
        let m = job.current;
        assert(m == moves[position(job, moves)]);
        lemma_careful_change(run[i - 1].disk, run[i].disk, m);
    }
}

/// What is so of the disk while one move is under way.
spec fn is_untouched_until_the_end(first: Disk, now: Moment, m: Move<Seq<u8>>) -> bool {
    match now.step {
        Step::Ask(job) => {
            &&& job.current == m
            &&& job.rest.len() == 0
            &&& match job.phase {
                MovePhase::Source => now.disk == first,
                MovePhase::Target => now.disk == first && first.shows_dir(m.from),
                _ => first.is_kept_in(now.disk) && !is_settled(first, m),
            }
        },
        Step::Done(_) => if is_settled(first, m) {
            now.disk == first
        } else {
            is_taken_over(first, now.disk, m)
        },
        Step::Failed(_) => first.is_kept_in(now.disk),
    }
}

/// Whether the directory of a move, with all that it held, is now at its new
/// place.
pub open spec fn is_taken_over(before: Disk, after: Disk, m: Move<Seq<u8>>) -> bool {
    &&& !after.has(source(m))
    &&& forall|rest: Place|
        before.has(#[trigger] (source(m) + rest)) ==> {
            &&& after.has(target(m) + rest)
            &&& after.nodes[target(m) + rest] == before.nodes[source(m) + rest]
        }
}

proof fn lemma_one_move(run: Seq<Moment>, m: Move<Seq<u8>>, i: int)
    requires
        source(m) != target(m),
        is_run(run, seq![m]),
        0 <= i < run.len(),
    ensures
        is_untouched_until_the_end(run[0].disk, run[i], m),
    decreases i,
{
    let moves = seq![m];
    if i == 0 {
        assert(moves.drop_first().len() == 0);
    } else {
        lemma_one_move(run, m, i - 1);
        lemma_informed(run, moves, i - 1);
        assert(follows(run[i - 1], run[i]));
        lemma_follows(run[i - 1], run[i], moves);
        let now = run[i - 1];
        let next = run[i];
        let job = now.step->Ask_0;
        let reply = choose|reply: AnswerView|
            #[trigger] now.disk.can_become(job.request(), reply, next.disk) && next.step
                == job.resume(reply);
        if job.phase == MovePhase::Rename && reply is Done {
            disk::law_move_to_open_place(now.disk, source(m), target(m));
            assert(source(m).is_prefix_of(source(m))) by {
                assert(source(m) =~= source(m).subrange(0, source(m).len() as int));
            }
        }
    }
}

/// One move, from its start to where it stands: done, it has taken the
/// directory over if that was there and its new place was free, and has done
/// nothing otherwise; failed, it has left all data where it was, to be tried
/// again.
pub proof fn law_one_move(run: Seq<Moment>, m: Move<Seq<u8>>)
    requires
        source(m) != target(m),
        is_run(run, seq![m]),
    ensures
        run.last().step is Done && is_settled(run[0].disk, m) ==> run.last().disk == run[0].disk,
        run.last().step is Done && !is_settled(run[0].disk, m) ==> is_taken_over(
            run[0].disk,
            run.last().disk,
            m,
        ),
        run.last().step is Failed ==> run[0].disk.is_kept_in(run.last().disk),
{
    lemma_one_move(run, m, run.len() - 1);
}

/// The moves that the job has behind it are settled.
spec fn is_settled_so_far(now: Moment, moves: Seq<Move<Seq<u8>>>) -> bool {
    match now.step {
        Step::Ask(job) => forall|j: int|
            0 <= j < position(job, moves) ==> is_settled(now.disk, #[trigger] moves[j]),
        Step::Done(_) => forall|j: int|
            0 <= j < moves.len() ==> is_settled(now.disk, #[trigger] moves[j]),
        Step::Failed(_) => true,
    }
}

/// A settled move stays settled while another one is carried out.
proof fn lemma_stays_settled(
    now: Disk,
    next: Disk,
    m: Move<Seq<u8>>,
    other: Move<Seq<u8>>,
)
    requires
        path::is_straight(m.to),
        path::is_straight(other.from),
        path::is_straight(other.to),
        now.well_formed(),
        is_careful_change(now, next, m),
        is_settled(now, other),
        !source(other).is_prefix_of(target(m)),
        !target(m).is_prefix_of(source(other)),
        !source(m).is_prefix_of(target(other)),
    ensures
        is_settled(next, other),
{
    lemma_careful_change(now, next, m);
    disk::law_straight_paths_reach(now, other.from);
    disk::law_straight_paths_reach(now, other.to);
    disk::law_straight_paths_reach(next, other.from);
    disk::law_straight_paths_reach(next, other.to);
    if next != now {
        if path::parent(m.to) is Some && now.gains_dirs(next, path::popped(m.to)) {
            if next.is_dir(source(other)) && !now.has(source(other)) {
                path::lemma_way_to_the_parent(source(other), m.to);
            }
        } else {
            disk::law_move_to_open_place(now, source(m), target(m));
        }
    }
}

/// A move that the job leaves behind is settled.
proof fn lemma_left_behind_is_settled(now: Moment, next: Moment, moves: Seq<Move<Seq<u8>>>)
    requires
        are_straight(moves),
        follows(now, next),
        is_informed(now, moves),
    ensures
        ({
            let job = now.step->Ask_0;
            match next.step {
                Step::Ask(later) => {
                    ||| position(later, moves) == position(job, moves)
                    ||| {
                        &&& position(later, moves) == position(job, moves) + 1
                        &&& is_settled(next.disk, job.current)
                    }
                },
                Step::Done(_) => {
                    &&& position(job, moves) == moves.len() - 1
                    &&& is_settled(next.disk, job.current)
                },
                Step::Failed(_) => true,
            }
        }),
{
    let job = now.step->Ask_0;
    let m = job.current;
    let reply = choose|reply: AnswerView|
        #[trigger] now.disk.can_become(job.request(), reply, next.disk) && next.step == job.resume(
            reply,
        );
    lemma_begin(moves, job.rest);
    assert(m == moves[position(job, moves)]);
    if job.phase == MovePhase::Rename && reply is Done && next.disk != now.disk {
        disk::law_move_to_open_place(now.disk, source(m), target(m));
        assert(source(m) =~= source(m).subrange(0, source(m).len() as int));
        assert(source(m).is_prefix_of(source(m)));
        assert(!next.disk.has(source(m)));
    }
}

proof fn lemma_settled_stay_settled(
    now: Disk,
    next: Disk,
    moves: Seq<Move<Seq<u8>>>,
    at: int,
    j: int,
)
    requires
        are_straight(moves),
        are_apart(moves),
        0 <= at < moves.len(),
        0 <= j < moves.len(),
        now.well_formed(),
        is_careful_change(now, next, moves[at]),
        is_settled(now, moves[j]),
    ensures
        is_settled(next, moves[j]),
{
    lemma_stays_settled(now, next, moves[at], moves[j]);
}

proof fn lemma_settled_so_far(run: Seq<Moment>, moves: Seq<Move<Seq<u8>>>, i: int)
    requires
        are_straight(moves),
        is_run(run, moves),
        are_apart(moves),
        0 <= i < run.len(),
    ensures
        is_settled_so_far(run[i], moves),
    decreases i,
{
    if i == 0 {
        assert(moves.skip(0) =~= moves);
        lemma_begin(moves, moves);
    } else {
        lemma_settled_so_far(run, moves, i - 1);
        lemma_informed(run, moves, i - 1);
        assert(follows(run[i - 1], run[i]));
        let now = run[i - 1];
        let next = run[i];
        let job = now.step->Ask_0;
        let at = position(job, moves);
        assert(is_careful_change(now.disk, next.disk, moves[at])) by {
            lemma_follows(now, next, moves);
        }
        lemma_left_behind_is_settled(now, next, moves);
        assert forall|j: int| 0 <= j < at implies is_settled(next.disk, #[trigger] moves[j]) by {
            lemma_settled_stay_settled(now.disk, next.disk, moves, at, j);
        }
    }
}

/// Once the moves are done, each of them has nothing left to do. Nothing is asked of
/// how the old places lie to each other, so nothing is spelled with `..`.
pub proof fn law_done_means_settled(run: Seq<Moment>, moves: Seq<Move<Seq<u8>>>)
    requires
        are_straight(moves),
        is_run(run, moves),
        are_apart(moves),
        run.last().step is Done,
    ensures
        forall|j: int| 0 <= j < moves.len() ==> is_settled(run.last().disk, #[trigger] moves[j]),
{
    lemma_settled_so_far(run, moves, run.len() - 1);
}

/// A second launch is a no-op: where each move has nothing left to do, carrying
/// them out changes nothing and asks for nothing but to look.
pub proof fn law_settled_moves_change_nothing(
    run: Seq<Moment>,
    moves: Seq<Move<Seq<u8>>>,
    i: int,
)
    requires
        is_run(run, moves),
        0 <= i < run.len(),
        forall|j: int| 0 <= j < moves.len() ==> is_settled(run[0].disk, #[trigger] moves[j]),
    ensures
        run[i].disk == run[0].disk,
        run[i].step matches Step::Ask(job) ==> job.request().only_reads(),
    decreases i,
{
    lemma_informed(run, moves, i);
    if i > 0 {
        law_settled_moves_change_nothing(run, moves, i - 1);
        lemma_informed(run, moves, i - 1);
        assert(follows(run[i - 1], run[i]));
        let job = run[i - 1].step->Ask_0;
        assert(is_settled(run[0].disk, moves[position(job, moves)]));
        lemma_begin(moves, job.rest);
    } else {
        assert(moves.skip(0) =~= moves);
        lemma_begin(moves, moves);
    }
}

/// Whether all that stands outside the directory `dir` stands unchanged later.
pub open spec fn is_kept_outside(before: Disk, after: Disk, dir: Place) -> bool {
    forall|k: Place|
        #[trigger] before.has(k) && !dir.is_prefix_of(k) ==> after.has(k) && after.nodes[k]
            == before.nodes[k]
}

/// What is so while two directories are offered for the same place, of which
/// the first is there.
spec fn is_won_by_the_first(
    first: Disk,
    now: Moment,
    recent: Move<Seq<u8>>,
    oldest: Move<Seq<u8>>,
) -> bool {
    let won = is_taken_over(first, now.disk, recent) && is_kept_outside(
        first,
        now.disk,
        source(recent),
    );
    match now.step {
        Step::Ask(job) => if job.rest.len() == 1 {
            &&& job.current == recent
            &&& job.rest[0] == oldest
            &&& first.is_kept_in(now.disk)
            &&& job.phase == MovePhase::Source || job.phase == MovePhase::Target ==> now.disk
                == first
            &&& job.phase == MovePhase::Rename ==> now.disk.passes(recent.to)
        } else {
            &&& job.rest.len() == 0
            &&& job.current == oldest
            &&& job.phase == MovePhase::Source || job.phase == MovePhase::Target
            &&& won
            &&& now.disk.reaches(recent.to)
        },
        Step::Done(_) => won,
        Step::Failed(_) => first.is_kept_in(now.disk) || won,
    }
}

proof fn lemma_newest_wins(
    run: Seq<Moment>,
    recent: Move<Seq<u8>>,
    oldest: Move<Seq<u8>>,
    i: int,
)
    requires
        is_run(run, seq![recent, oldest]),
        0 <= i < run.len(),
        recent.to == oldest.to,
        source(recent) != target(recent),
        forall|q: Place|
            #[trigger] path::is_passed(q, recent.to) ==> !source(recent).is_prefix_of(q),
        !is_settled(run[0].disk, recent),
    ensures
        is_won_by_the_first(run[0].disk, run[i], recent, oldest),
    decreases i,
{
    let moves = seq![recent, oldest];
    let first = run[0].disk;
    if i == 0 {
        assert(moves.drop_first() =~= seq![oldest]);
    } else {
        lemma_newest_wins(run, recent, oldest, i - 1);
        lemma_informed(run, moves, i - 1);
        assert(follows(run[i - 1], run[i]));
        let now = run[i - 1];
        let next = run[i];
        let job = now.step->Ask_0;
        let reply = choose|reply: AnswerView|
            #[trigger] now.disk.can_become(job.request(), reply, next.disk) && next.step
                == job.resume(reply);
        assert(source(recent) + Seq::empty() =~= source(recent));
        assert(target(recent) + Seq::empty() =~= target(recent));
        assert(seq![oldest].drop_first().len() == 0);
        if job.rest.len() == 1 {
            assert(job.rest =~= seq![oldest]);
            if job.phase == MovePhase::Target {
                if path::parent(recent.to) is None {
                    disk::lemma_made_way(now.disk, recent.to);
                }
            }
            if job.phase == MovePhase::Parent && reply is Done {
                disk::lemma_made_way(next.disk, recent.to);
            }
            if job.phase == MovePhase::Rename && reply is Done {
                disk::law_move_to_open_place(now.disk, source(recent), target(recent));
                assert(source(recent) =~= source(recent).subrange(0, source(recent).len() as int));
                assert(source(recent).is_prefix_of(source(recent)));
                assert(next.disk.passes(recent.to)) by {
                    assert forall|q: Place| #[trigger] path::is_passed(q, recent.to) implies
                        next.disk.is_dir(q) by {
                        assert(now.disk.has(q));
                    }
                }
                assert(first.has(source(recent) + Seq::<path::Component<Seq<u8>>>::empty()));
                assert(recent.to.len() > 0) by {
                    path::law_components_well_formed(recent.to);
                }
            }
        } else {
            assert(next.disk == now.disk);
        }
    }
}

/// The newest data wins: where a recent and an older directory could both take
/// a free place, the recent one gets it with all that it held, and nothing else
/// is moved or merged.
pub proof fn law_newest_wins(run: Seq<Moment>, recent: Move<Seq<u8>>, oldest: Move<Seq<u8>>)
    requires
        is_run(run, seq![recent, oldest]),
        recent.to == oldest.to,
        source(recent) != target(recent),
        forall|q: Place|
            #[trigger] path::is_passed(q, recent.to) ==> !source(recent).is_prefix_of(q),
        !is_settled(run[0].disk, recent),
        run.last().step is Done,
    ensures
        is_taken_over(run[0].disk, run.last().disk, recent),
        is_kept_outside(run[0].disk, run.last().disk, source(recent)),
{
    lemma_newest_wins(run, recent, oldest, run.len() - 1);
}

/// Of two directories that could take the same place, the later one in the list
/// is moved only when the earlier one is not there to be moved. Nothing is asked of
/// how the old places lie to each other, so nothing is spelled with `..`.
pub proof fn law_older_data_gives_way(
    run: Seq<Moment>,
    moves: Seq<Move<Seq<u8>>>,
    i: int,
    newer: int,
)
    requires
        are_straight(moves),
        is_run(run, moves),
        are_apart(moves),
        0 <= i < run.len(),
        run[i].step is Ask,
        run[i].step->Ask_0.request() is Rename,
        0 <= newer < moves.len() - run[i].step->Ask_0.rest.len() - 1,
        target(moves[newer]) == target(run[i].step->Ask_0.current),
    ensures
        !run[i].disk.is_dir(source(moves[newer])),
{
    lemma_informed(run, moves, i);
    lemma_settled_so_far(run, moves, i);
    assert(is_settled(run[i].disk, moves[newer]));
    disk::law_straight_paths_reach(run[i].disk, moves[newer].from);
    disk::law_straight_paths_reach(run[i].disk, moves[newer].to);
}

/// Whether what stood at `k` before stands unchanged at `at` now.
pub open spec fn is_found_at(before: Disk, after: Disk, k: Place, at: Place) -> bool {
    after.has(at) && after.nodes[at] == before.nodes[k]
}

/// Whether what stood at `k` before has gone along with the directory of a move.
pub open spec fn has_gone_along(before: Disk, after: Disk, k: Place, m: Move<Seq<u8>>) -> bool {
    &&& source(m).is_prefix_of(k)
    &&& is_found_at(before, after, k, target(m) + k.skip(source(m).len() as int))
}

proof fn lemma_data_stays_or_goes_along(
    first: Disk,
    now: Disk,
    next: Disk,
    m: Move<Seq<u8>>,
    k: Place,
)
    requires
        now.well_formed(),
        is_careful_change(now, next, m),
        is_found_at(first, now, k, k),
    ensures
        is_found_at(first, next, k, k) || has_gone_along(first, next, k, m),
{
    if next != now && !(path::parent(m.to) is Some && now.gains_dirs(next, path::popped(m.to))) {
        if source(m).is_prefix_of(k) {
            disk::lemma_goes_along(now, source(m), target(m), k);
        } else {
            disk::law_move_to_open_place(now, source(m), target(m));
        }
    }
}

proof fn lemma_what_has_gone_along_stays(
    first: Disk,
    now: Disk,
    next: Disk,
    m: Move<Seq<u8>>,
    other: Move<Seq<u8>>,
    k: Place,
)
    requires
        now.well_formed(),
        is_careful_change(now, next, m),
        has_gone_along(first, now, k, other),
        !source(m).is_prefix_of(target(other)),
        !target(other).is_prefix_of(source(m)),
    ensures
        has_gone_along(first, next, k, other),
{
    if next != now && !(path::parent(m.to) is Some && now.gains_dirs(next, path::popped(m.to))) {
        let new = target(other);
        let at = new + k.skip(source(other).len() as int);
        assert(!source(m).is_prefix_of(at)) by {
            if source(m).is_prefix_of(at) {
                assert(new =~= at.subrange(0, new.len() as int));
                if source(m).len() <= new.len() {
                    disk::lemma_above_each_other(source(m), new, at);
                } else {
                    disk::lemma_above_each_other(new, source(m), at);
                }
            }
        }
        disk::law_move_to_open_place(now, source(m), target(m));
    }
}

/// No data is lost: at every moment, also after a failure, whatever stood on the
/// disk stands unchanged where it stood, or has gone along with the directory of
/// one of the moves.
pub proof fn law_no_data_is_lost(
    run: Seq<Moment>,
    moves: Seq<Move<Seq<u8>>>,
    k: Place,
    i: int,
)
    requires
        is_run(run, moves),
        are_apart(moves),
        0 <= i < run.len(),
        run[0].disk.has(k),
    ensures
        is_found_at(run[0].disk, run[i].disk, k, k) || exists|j: int|
            0 <= j < moves.len() && has_gone_along(
                run[0].disk,
                run[i].disk,
                k,
                #[trigger] moves[j],
            ),
    decreases i,
{
    if i > 0 {
        law_no_data_is_lost(run, moves, k, i - 1);
        lemma_informed(run, moves, i - 1);
        assert(follows(run[i - 1], run[i]));
        lemma_follows(run[i - 1], run[i], moves);
        let first = run[0].disk;
        let now = run[i - 1].disk;
        let next = run[i].disk;
        let job = run[i - 1].step->Ask_0;
        let at = position(job, moves);
        assert(job.current == moves[at]);
        if is_found_at(first, now, k, k) {
            lemma_data_stays_or_goes_along(first, now, next, moves[at], k);
        } else {
            let j = choose|j: int|
                0 <= j < moves.len() && has_gone_along(first, now, k, #[trigger] moves[j]);
            lemma_what_has_gone_along_stays(first, now, next, moves[at], moves[j], k);
        }
    }
}

/// The moves fail only with a failure that was replied, and with every failure that
/// is replied to anything but the question for an old directory. A new place that is
/// taken is no failure.
pub proof fn law_moves_fail_only_as_replied(job: MigrationView, reply: AnswerView)
    ensures
        job.resume(reply) matches Step::Failed(f) ==> reply == AnswerView::Failed(f),
        reply matches AnswerView::Failed(f) ==> (job.request() is IsDir || job.resume(reply)
            == MigrationStep::Failed(f)),
{
}

/// Where the moves stand after some replies.
pub open spec fn after(step: MigrationStep, replies: Seq<AnswerView>) -> MigrationStep
    decreases replies.len(),
{
    match step {
        Step::Ask(job) if replies.len() > 0 => after(
            job.resume(replies[0]),
            replies.drop_first(),
        ),
        _ => step,
    }
}

/// Whether a request was carried out: a question was answered, and anything else
/// was done.
pub open spec fn is_carried_out(request: Request<Seq<u8>>, reply: AnswerView) -> bool {
    match request {
        Request::IsDir(_) => reply is Flag,
        Request::TryExists(_) => reply is Flag,
        _ => reply is Done,
    }
}

/// Whether every request of the moves was carried out.
pub open spec fn are_carried_out(step: MigrationStep, replies: Seq<AnswerView>) -> bool
    decreases replies.len(),
{
    match step {
        Step::Ask(job) if replies.len() > 0 => {
            &&& is_carried_out(job.request(), replies[0])
            &&& are_carried_out(job.resume(replies[0]), replies.drop_first())
        },
        _ => true,
    }
}

/// How many replies the moves need at most.
spec fn replies_left(step: MigrationStep) -> int {
    match step {
        Step::Ask(job) => 4 * job.rest.len() + (match job.phase {
            MovePhase::Source => 4int,
            MovePhase::Target => 3int,
            MovePhase::Parent => 2int,
            MovePhase::Rename => 1int,
        }),
        _ => 0,
    }
}

proof fn lemma_moves_end(step: MigrationStep, replies: Seq<AnswerView>)
    requires
        are_carried_out(step, replies),
        !(step is Failed),
    ensures
        !(after(step, replies) is Failed),
        replies.len() >= replies_left(step) ==> after(step, replies) is Done,
    decreases replies.len(),
{
    if let Step::Ask(job) = step {
        if replies.len() > 0 {
            lemma_moves_end(job.resume(replies[0]), replies.drop_first());
        }
    }
}

/// Where every request is carried out, the moves end, and not with a failure:
/// however many of the directories are there, and however many of the new places
/// are taken. Each takes four replies at most.
pub proof fn law_moves_end(moves: Seq<Move<Seq<u8>>>, replies: Seq<AnswerView>)
    requires
        are_carried_out(MigrationView::begin(moves), replies),
    ensures
        !(after(MigrationView::begin(moves), replies) is Failed),
        replies.len() >= 4 * moves.len() ==> after(MigrationView::begin(moves), replies) is Done,
{
    lemma_moves_end(MigrationView::begin(moves), replies);
}

/// One after the other, the moves are looked at and made as they are given: first
/// whether the directory is there, then whether its new place is taken; and where
/// the one is and the other is not, the directory above the new place is asked for,
/// if there is one, and then the move itself. Nothing else is asked for.
pub proof fn law_each_move_is_asked_for(
    moves: Seq<Move<Seq<u8>>>,
    there: bool,
    taken: bool,
)
    requires
        moves.len() > 0,
    ensures
        ({
            let m = moves[0];
            let first = MigrationView::begin(moves);
            let next = MigrationView::begin(moves.drop_first());
            &&& first matches Step::Ask(look)
            &&& look.request() == Request::IsDir(m.from)
            &&& if !there {
                look.resume(Reply::Flag(there)) == next
            } else {
                &&& look.resume(Reply::Flag(there)) matches Step::Ask(check)
                &&& check.request() == Request::TryExists(m.to)
                &&& if taken {
                    check.resume(Reply::Flag(taken)) == next
                } else {
                    &&& check.resume(Reply::Flag(taken)) matches Step::Ask(work)
                    &&& if path::parent(m.to) is Some {
                        &&& work.request() == Request::CreateDirAll(path::parent(m.to)->0)
                        &&& work.resume(Reply::Done) matches Step::Ask(rename)
                        &&& rename.request() == (Request::Rename { from: m.from, to: m.to })
                        &&& rename.resume(Reply::Done) == next
                    } else {
                        &&& work.request() == (Request::Rename { from: m.from, to: m.to })
                        &&& work.resume(Reply::Done) == next
                    }
                }
            }
        }),
        MigrationView::begin(Seq::<Move<Seq<u8>>>::empty()) is Done,
{
}

/// Whether a move is one of those from the directories of an installation to those
/// of another.
pub open spec fn is_between(m: Move<Seq<u8>>, old: Layout, new: Layout) -> bool {
    ||| m.from == old.config && m.to == new.config
    ||| m.from == old.state && m.to == new.state
    ||| m.from == old.cache && m.to == new.cache
}

/// All three directories of an installation are moved, each to the one of its kind,
/// and nothing else is.
pub proof fn law_all_three_directories_are_moved(old: Layout, new: Layout, m: Move<Seq<u8>>)
    ensures
        adopt::moves_between(old, new).len() == 3,
        adopt::moves_between(old, new).contains(m) <==> is_between(m, old, new),
{
    let moves = adopt::moves_between(old, new);
    assert(moves[0] == (Move { from: old.config, to: new.config }));
    assert(moves[1] == (Move { from: old.state, to: new.state }));
    assert(moves[2] == (Move { from: old.cache, to: new.cache }));
}

/// What is to be moved for two earlier names: the configuration, the state and the
/// cache of each name that has them, and what each has in storage, if this
/// application has a storage too. There is nothing else to be moved, and all of the
/// recent name comes before all of the oldest one.
pub proof fn law_all_directories_of_both_names_are_moved(
    new: Layout,
    recent: Option<Layout>,
    recent_storage: Option<Seq<u8>>,
    oldest: Option<Layout>,
    oldest_storage: Option<Seq<u8>>,
    storage: Option<Seq<u8>>,
)
    ensures
        ({
            let moves = adopt::moves_for_both(
                new,
                recent,
                recent_storage,
                oldest,
                oldest_storage,
                storage,
            );
            let count = |dirs: Option<Layout>, from: Option<Seq<u8>>|
                (if dirs is Some {
                    3int
                } else {
                    0int
                }) + (if from is Some && storage is Some {
                    1int
                } else {
                    0int
                });
            let n = count(recent, recent_storage);
            &&& moves.len() == n + count(oldest, oldest_storage)
            &&& recent matches Some(old) ==> {
                &&& moves[0] == (Move { from: old.config, to: new.config })
                &&& moves[1] == (Move { from: old.state, to: new.state })
                &&& moves[2] == (Move { from: old.cache, to: new.cache })
            }
            &&& recent_storage matches Some(from) ==> (storage matches Some(to) ==> moves[n - 1]
                == (Move { from, to }))
            &&& oldest matches Some(old) ==> {
                &&& moves[n] == (Move { from: old.config, to: new.config })
                &&& moves[n + 1] == (Move { from: old.state, to: new.state })
                &&& moves[n + 2] == (Move { from: old.cache, to: new.cache })
            }
            &&& oldest_storage matches Some(from) ==> (storage matches Some(to) ==> moves.last()
                == (Move { from, to }))
        }),
{
}

/// What is to be moved for one earlier name: its three directories, as far as the
/// platform knows them, and then what it has in storage, if both names have one.
pub proof fn law_all_directories_of_a_name_are_moved(
    new: Layout,
    old: Option<Layout>,
    storage_from: Option<Seq<u8>>,
    storage_to: Option<Seq<u8>>,
)
    ensures
        ({
            let moves = adopt::moves_for(new, old, storage_from, storage_to);
            let n = if old is Some {
                3int
            } else {
                0int
            };
            let has_storage = storage_from is Some && storage_to is Some;
            &&& moves.len() == (if has_storage {
                n + 1
            } else {
                n
            })
            &&& old matches Some(dirs) ==> {
                &&& moves[0] == (Move { from: dirs.config, to: new.config })
                &&& moves[1] == (Move { from: dirs.state, to: new.state })
                &&& moves[2] == (Move { from: dirs.cache, to: new.cache })
            }
            &&& has_storage ==> moves.last() == (Move {
                from: storage_from->0,
                to: storage_to->0,
            })
        }),
{
}

/// What the platform knows of two earlier names is moved, all of it: the standard
/// directories of each, and what each has in storage.
pub proof fn law_what_is_found_is_moved(
    new: Layout,
    recent: Found,
    oldest: Found,
    storage: Option<Seq<u8>>,
)
    ensures
        ({
            let moves = adopt::moves_for_both(
                new,
                Layout::of(recent.project),
                recent.storage,
                Layout::of(oldest.project),
                oldest.storage,
                storage,
            );
            match adopt::moves_found(new, recent, oldest, storage) {
                Step::Ask(job) => seq![job.current] + job.rest == moves && job.request()
                    == Request::IsDir(moves[0].from),
                Step::Done(_) => moves.len() == 0,
                Step::Failed(_) => false,
            }
        }),
{
    let moves = adopt::moves_for_both(
        new,
        Layout::of(recent.project),
        recent.storage,
        Layout::of(oldest.project),
        oldest.storage,
        storage,
    );
    if moves.len() > 0 {
        assert(seq![moves[0]] + moves.drop_first() =~= moves);
    }
}

/// A reply that answers no question, or says nothing of what was to be done, changes
/// nothing.
pub proof fn law_odd_replies_change_no_move(job: MigrationView, reply: AnswerView)
    ensures
        !is_carried_out(job.request(), reply) && !(reply is Failed) ==> job.resume(reply)
            == MigrationStep::Ask(job),
{
}

} // verus!
