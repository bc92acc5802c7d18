//! What has become of every directory once earlier ones are adopted.

use vstd::prelude::*;
use crate::adopt;
use crate::adopt::{MigrationView, Move, MovePhase};
use crate::adopt_laws;
use crate::adopt_laws::{source, target, Moment};
use crate::disk;
use crate::disk::{Disk, Place};
use crate::io::{AnswerView, Step};
use crate::layout_laws;
use crate::path;
use crate::paths::Layout;

verus! {

/// Whether, of all the directories that could take a place, this is the first
/// that is there, and the place is free.
#[verifier::opaque]
pub open spec fn is_winner(disk: Disk, moves: Seq<Move<Seq<u8>>>, j: int) -> bool {
    &&& 0 <= j < moves.len()
    &&& disk.is_dir(source(moves[j]))
    &&& !disk.has(target(moves[j]))
    &&& forall|i: int|
        0 <= i < j && target(moves[i]) == target(moves[j]) ==> !disk.is_dir(
            source(#[trigger] moves[i]),
        )
}

/// Whether no two of the places are nested, and one directory has one new place.
#[verifier::opaque]
pub open spec fn are_disjoint(moves: Seq<Move<Seq<u8>>>) -> bool {
    &&& adopt_laws::are_apart(moves)
    &&& forall|i: int, j: int|
        0 <= i < moves.len() && 0 <= j < moves.len() ==> {
            &&& source(#[trigger] moves[i]).is_prefix_of(source(#[trigger] moves[j])) ==> source(
                moves[i],
            ) == source(moves[j]) && target(moves[i]) == target(moves[j])
            &&& target(moves[i]).is_prefix_of(target(moves[j])) ==> target(moves[i]) == target(
                moves[j],
            )
        }
}

/// Whether no spelling gets in the way of the moves. No new place is spelled by way
/// of a directory to be moved, and no old one by way of a directory that is moved
/// before it. No new place is spelled by way of another one that is to be taken
/// later or to stay free. A place that several directories could take is spelled
/// alike each time, or without `..`. What stands at a place is found by its
/// spelling.
#[verifier::opaque]
pub open spec fn are_clear(first: Disk, moves: Seq<Move<Seq<u8>>>) -> bool {
    &&& forall|i: int, j: int, q: Place|
        0 <= i < moves.len() && 0 <= j < moves.len() && #[trigger] path::is_passed(q, moves[i].to)
            ==> !source(#[trigger] moves[j]).is_prefix_of(q)
    &&& forall|i: int, j: int, q: Place|
        0 <= j < i < moves.len() && is_winner(first, moves, j) && #[trigger] path::is_passed(
            q,
            moves[i].from,
        ) ==> !source(#[trigger] moves[j]).is_prefix_of(q)
    &&& forall|i: int, j: int|
        0 <= i < moves.len() && 0 <= j < moves.len() && is_winner(first, moves, i) && (i < j
            || !is_winner(first, moves, j)) && !first.has(target(moves[j])) && target(moves[i])
            != target(moves[j]) ==> !path::is_passed(
            target(#[trigger] moves[j]),
            (#[trigger] moves[i]).to,
        )
    &&& forall|i: int, j: int|
        0 <= i < j < moves.len() && target(moves[i]) == target(moves[j]) ==> (
        #[trigger] moves[i]).to == (#[trigger] moves[j]).to || path::is_straight(moves[j].to)
    &&& forall|i: int|
        0 <= i < moves.len() ==> {
            &&& first.is_dir(source(#[trigger] moves[i])) ==> first.shows_dir(moves[i].from)
            &&& first.has(target(moves[i])) ==> first.reaches(moves[i].to)
        }
}

/// Whether none of the first `n` moves that win takes `k` along.
pub open spec fn is_spared(first: Disk, moves: Seq<Move<Seq<u8>>>, n: int, k: Place) -> bool {
    forall|j: int|
        0 <= j < n && is_winner(first, moves, j) ==> !source(#[trigger] moves[j]).is_prefix_of(k)
}

/// Whether one of the first `n` moves that win accounts for something new: it has
/// gone along, or is a directory on the way to the new place.
pub open spec fn is_accounted_for(
    first: Disk,
    now: Disk,
    moves: Seq<Move<Seq<u8>>>,
    n: int,
    q: Place,
) -> bool {
    exists|j: int|
        0 <= j < n && is_winner(first, moves, j) && is_due_to(now, #[trigger] moves[j], q)
}

/// Whether something has come with a directory to its new place, or is a
/// directory on the way there.
pub open spec fn is_due_to(now: Disk, m: Move<Seq<u8>>, q: Place) -> bool {
    ||| target(m).is_prefix_of(q)
    ||| now.is_dir(q) && path::is_passed(q, m.to)
}

/// Whether the first `n` moves have come to what they should: those that win have
/// taken their directory over, all else is as it was, and there is nothing new
/// but for the first `gained` moves.
#[verifier::opaque]
spec fn are_made(
    first: Disk,
    now: Disk,
    moves: Seq<Move<Seq<u8>>>,
    n: int,
    gained: int,
) -> bool {
    &&& forall|j: int|
        0 <= j < n && is_winner(first, moves, j) ==> adopt_laws::is_taken_over(
            first,
            now,
            #[trigger] moves[j],
        ) && now.reaches(moves[j].to)
    &&& forall|k: Place|
        first.has(k) && is_spared(first, moves, n, k) ==> #[trigger] now.has(k) && now.nodes[k]
            == first.nodes[k]
    &&& forall|q: Place|
        #[trigger] now.has(q) && !first.has(q) ==> is_accounted_for(first, now, moves, gained, q)
}

proof fn lemma_disjoint(moves: Seq<Move<Seq<u8>>>, i: int, j: int)
    requires
        are_disjoint(moves),
        0 <= i < moves.len(),
        0 <= j < moves.len(),
    ensures
        !source(moves[i]).is_prefix_of(target(moves[j])),
        !target(moves[j]).is_prefix_of(source(moves[i])),
        source(moves[i]).is_prefix_of(source(moves[j])) ==> source(moves[i]) == source(moves[j])
            && target(moves[i]) == target(moves[j]),
        target(moves[i]).is_prefix_of(target(moves[j])) ==> target(moves[i]) == target(moves[j]),
{
    reveal(are_disjoint);
}

/// No new place is spelled by way of a directory to be moved.
proof fn lemma_clear_to(first: Disk, moves: Seq<Move<Seq<u8>>>, i: int, j: int, q: Place)
    requires
        are_clear(first, moves),
        0 <= i < moves.len(),
        0 <= j < moves.len(),
        path::is_passed(q, moves[i].to),
    ensures
        !source(moves[j]).is_prefix_of(q),
{
    reveal(are_clear);
}

/// No old place is spelled by way of a directory that is moved before it.
proof fn lemma_clear_from(first: Disk, moves: Seq<Move<Seq<u8>>>, i: int, j: int, q: Place)
    requires
        are_clear(first, moves),
        0 <= j < i < moves.len(),
        is_winner(first, moves, j),
        path::is_passed(q, moves[i].from),
    ensures
        !source(moves[j]).is_prefix_of(q),
{
    reveal(are_clear);
}

/// No new place is spelled by way of one that is to be taken later or stay free.
proof fn lemma_clear_target(first: Disk, moves: Seq<Move<Seq<u8>>>, i: int, j: int)
    requires
        are_clear(first, moves),
        0 <= i < moves.len(),
        0 <= j < moves.len(),
        is_winner(first, moves, i),
        i < j || !is_winner(first, moves, j),
        !first.has(target(moves[j])),
        target(moves[i]) != target(moves[j]),
    ensures
        !path::is_passed(target(moves[j]), moves[i].to),
{
    reveal(are_clear);
}

/// What stands at a place is found by its spelling, and one place is spelled in
/// one way.
proof fn lemma_clear_spelling(first: Disk, moves: Seq<Move<Seq<u8>>>, i: int)
    requires
        are_clear(first, moves),
        0 <= i < moves.len(),
    ensures
        first.is_dir(source(moves[i])) ==> first.shows_dir(moves[i].from),
        first.has(target(moves[i])) ==> first.reaches(moves[i].to),
        forall|j: int|
            0 <= j < i && target(#[trigger] moves[j]) == target(moves[i]) ==> moves[j].to
                == moves[i].to || path::is_straight(moves[i].to),
{
    reveal(are_clear);
}

proof fn lemma_not_below(a: Place, b: Place, rest: Place)
    requires
        !a.is_prefix_of(b),
        !b.is_prefix_of(a),
    ensures
        !a.is_prefix_of(b + rest),
{
    if a.is_prefix_of(b + rest) {
        assert(b =~= (b + rest).subrange(0, b.len() as int));
        if a.len() <= b.len() {
            disk::lemma_above_each_other(a, b, b + rest);
        } else {
            disk::lemma_above_each_other(b, a, b + rest);
        }
    }
}

proof fn lemma_prefix_of_itself(a: Place)
    ensures
        a.is_prefix_of(a),
        a + Seq::<path::Component<Seq<u8>>>::empty() == a,
{
    assert(a =~= a.subrange(0, a.len() as int));
    assert(a + Seq::<path::Component<Seq<u8>>>::empty() =~= a);
}

/// What a winner would move is not taken along by an earlier winner.
proof fn lemma_winner_is_spared(first: Disk, moves: Seq<Move<Seq<u8>>>, p: int, rest: Place)
    requires
        are_disjoint(moves),
        is_winner(first, moves, p),
    ensures
        is_spared(first, moves, p, source(moves[p]) + rest),
{
    reveal(is_winner);
    assert forall|j: int| 0 <= j < p && is_winner(first, moves, j) implies !source(
        #[trigger] moves[j],
    ).is_prefix_of(source(moves[p]) + rest) by {
        lemma_disjoint(moves, j, p);
        lemma_disjoint(moves, p, j);
        if source(moves[j]).is_prefix_of(source(moves[p])) {
            assert(target(moves[j]) == target(moves[p]));
        } else if source(moves[p]).is_prefix_of(source(moves[j])) {
            assert(target(moves[j]) == target(moves[p]));
        } else {
            lemma_not_below(source(moves[j]), source(moves[p]), rest);
        }
    }
}

proof fn lemma_winner_stands(first: Disk, now: Disk, moves: Seq<Move<Seq<u8>>>, p: int)
    requires
        are_disjoint(moves),
        are_clear(first, moves),
        are_made(first, now, moves, p, p),
        is_winner(first, moves, p),
    ensures
        now.shows_dir(moves[p].from),
        !now.has(target(moves[p])),
{
    reveal(is_winner);
    reveal(are_made);
    lemma_winner_is_spared(first, moves, p, Seq::empty());
    lemma_prefix_of_itself(source(moves[p]));
    lemma_clear_spelling(first, moves, p);
    assert(now.has(source(moves[p])));
    assert forall|q: Place| #[trigger] path::is_passed(q, moves[p].from) implies now.is_dir(q) by {
        assert(is_spared(first, moves, p, q)) by {
            assert forall|j: int| 0 <= j < p && is_winner(first, moves, j) implies !source(
                #[trigger] moves[j],
            ).is_prefix_of(q) by {
                lemma_clear_from(first, moves, p, j, q);
            }
        }
        assert(first.is_dir(q));
        assert(now.has(q));
    }
    let to = target(moves[p]);
    if now.has(to) {
        let j = choose|j: int|
            0 <= j < p && is_winner(first, moves, j) && is_due_to(now, #[trigger] moves[j], to);
        lemma_disjoint(moves, j, p);
        if target(moves[j]) == to {
            assert(!first.is_dir(source(moves[j])));
        } else {
            lemma_clear_target(first, moves, j, p);
        }
    }
}

proof fn lemma_some_winner(first: Disk, moves: Seq<Move<Seq<u8>>>, i: int) -> (j: int)
    requires
        0 <= i < moves.len(),
        first.is_dir(source(moves[i])),
        !first.has(target(moves[i])),
    ensures
        0 <= j <= i,
        is_winner(first, moves, j),
        target(moves[j]) == target(moves[i]),
    decreases i,
{
    reveal(is_winner);
    if is_winner(first, moves, i) {
        i
    } else {
        let earlier = choose|k: int|
            0 <= k < i && target(moves[k]) == target(moves[i]) && first.is_dir(
                source(#[trigger] moves[k]),
            );
        lemma_some_winner(first, moves, earlier)
    }
}

/// What is found at a new place to begin with is found there later.
proof fn lemma_taken_place_stays(
    first: Disk,
    now: Disk,
    moves: Seq<Move<Seq<u8>>>,
    n: int,
    p: int,
)
    requires
        are_disjoint(moves),
        are_clear(first, moves),
        are_made(first, now, moves, n, n),
        n <= moves.len(),
        0 <= p < moves.len(),
        first.has(target(moves[p])),
    ensures
        now.reaches(moves[p].to),
{
    reveal(are_made);
    let to = target(moves[p]);
    lemma_clear_spelling(first, moves, p);
    assert(is_spared(first, moves, n, to)) by {
        assert forall|j: int| 0 <= j < n && is_winner(first, moves, j) implies !source(
            #[trigger] moves[j],
        ).is_prefix_of(to) by {
            lemma_disjoint(moves, j, p);
        }
    }
    assert(now.has(to));
    assert forall|q: Place| #[trigger] path::is_passed(q, moves[p].to) implies now.is_dir(q) by {
        assert(is_spared(first, moves, n, q)) by {
            assert forall|j: int| 0 <= j < n && is_winner(first, moves, j) implies !source(
                #[trigger] moves[j],
            ).is_prefix_of(q) by {
                lemma_clear_to(first, moves, p, j, q);
            }
        }
        assert(first.is_dir(q));
        assert(now.has(q));
    }
}

/// A directory that is still found at its old place stood there to begin with.
proof fn lemma_standing_stood(
    first: Disk,
    now: Disk,
    moves: Seq<Move<Seq<u8>>>,
    n: int,
    p: int,
)
    requires
        are_disjoint(moves),
        are_clear(first, moves),
        are_made(first, now, moves, n, n),
        n <= moves.len(),
        0 <= p < moves.len(),
        now.is_dir(source(moves[p])),
    ensures
        first.is_dir(source(moves[p])),
{
    reveal(are_made);
    let from = source(moves[p]);
    lemma_prefix_of_itself(from);
    if !first.has(from) {
        let j = choose|j: int|
            0 <= j < n && is_winner(first, moves, j) && is_due_to(now, #[trigger] moves[j], from);
        lemma_disjoint(moves, p, j);
        lemma_clear_to(first, moves, j, p, from);
    }
    assert(is_spared(first, moves, n, from)) by {
        assert forall|j: int| 0 <= j < n && is_winner(first, moves, j) implies !source(
            #[trigger] moves[j],
        ).is_prefix_of(from) by {
            lemma_disjoint(moves, j, p);
            if source(moves[j]).is_prefix_of(from) {
                assert(source(moves[j]) == source(moves[p]));
                assert(adopt_laws::is_taken_over(first, now, moves[j]));
            }
        }
    }
}

proof fn lemma_standing_wins(
    first: Disk,
    now: Disk,
    moves: Seq<Move<Seq<u8>>>,
    n: int,
    p: int,
)
    requires
        are_disjoint(moves),
        are_clear(first, moves),
        are_made(first, now, moves, n, n),
        now.well_formed(),
        p <= n <= moves.len(),
        0 <= p < moves.len(),
        now.shows_dir(moves[p].from),
        !now.reaches(moves[p].to),
    ensures
        is_winner(first, moves, p),
{
    let from = source(moves[p]);
    let to = target(moves[p]);
    lemma_standing_stood(first, now, moves, n, p);
    if first.has(to) {
        lemma_taken_place_stays(first, now, moves, n, p);
    }
    reveal(is_winner);
    reveal(are_made);
    assert forall|i: int| 0 <= i < p && target(moves[i]) == to implies !first.is_dir(
        source(#[trigger] moves[i]),
    ) by {
        if first.is_dir(source(moves[i])) {
            let j = lemma_some_winner(first, moves, i);
            assert(now.reaches(moves[j].to));
            lemma_clear_spelling(first, moves, p);
            if path::is_straight(moves[p].to) {
                disk::law_straight_paths_reach(now, moves[p].to);
            }
        }
    }
}

proof fn lemma_spared_by_fewer(first: Disk, moves: Seq<Move<Seq<u8>>>, p: int, k: Place)
    requires
        is_spared(first, moves, p + 1, k),
    ensures
        is_spared(first, moves, p, k),
{
}

proof fn lemma_accounted_for_by_more(
    first: Disk,
    now: Disk,
    moves: Seq<Move<Seq<u8>>>,
    p: int,
    q: Place,
)
    requires
        is_accounted_for(first, now, moves, p, q),
    ensures
        is_accounted_for(first, now, moves, p + 1, q),
{
    let j = choose|j: int|
        0 <= j < p && is_winner(first, moves, j) && is_due_to(now, #[trigger] moves[j], q);
    assert(0 <= j < p + 1 && is_winner(first, moves, j) && is_due_to(now, moves[j], q));
}

proof fn lemma_passed_over(first: Disk, now: Disk, moves: Seq<Move<Seq<u8>>>, p: int)
    requires
        are_made(first, now, moves, p, p),
        !is_winner(first, moves, p),
    ensures
        are_made(first, now, moves, p + 1, p + 1),
{
    reveal(are_made);
    assert forall|j: int|
        0 <= j < p + 1 && is_winner(first, moves, j) implies adopt_laws::is_taken_over(
        first,
        now,
        #[trigger] moves[j],
    ) && now.reaches(moves[j].to) by {
        assert(j < p);
    }
    assert forall|k: Place|
        first.has(k) && is_spared(first, moves, p + 1, k) implies #[trigger] now.has(k)
        && now.nodes[k] == first.nodes[k] by {
        lemma_spared_by_fewer(first, moves, p, k);
    }
    assert forall|q: Place| #[trigger] now.has(q) && !first.has(q) implies is_accounted_for(
        first,
        now,
        moves,
        p + 1,
        q,
    ) by {
        lemma_accounted_for_by_more(first, now, moves, p, q);
    }
}

proof fn lemma_about_to_move(first: Disk, now: Disk, moves: Seq<Move<Seq<u8>>>, p: int)
    requires
        are_made(first, now, moves, p, p),
    ensures
        are_made(first, now, moves, p, p + 1),
{
    reveal(are_made);
    assert forall|q: Place| #[trigger] now.has(q) && !first.has(q) implies is_accounted_for(
        first,
        now,
        moves,
        p + 1,
        q,
    ) by {
        lemma_accounted_for_by_more(first, now, moves, p, q);
    }
}

proof fn lemma_way_made(
    first: Disk,
    now: Disk,
    next: Disk,
    moves: Seq<Move<Seq<u8>>>,
    p: int,
)
    requires
        are_clear(first, moves),
        are_made(first, now, moves, p, p + 1),
        is_winner(first, moves, p),
        path::parent(moves[p].to) is Some,
        now.gains_dirs(next, path::popped(moves[p].to)),
    ensures
        are_made(first, next, moves, p, p + 1),
{
    reveal(are_made);
    assert(0 <= p < moves.len()) by {
        reveal(is_winner);
    }
    assert forall|q: Place| #[trigger] next.has(q) && !now.has(q) implies next.is_dir(q)
        && path::is_passed(q, moves[p].to) by {
        path::lemma_passed(q, moves[p].to);
    }
    assert forall|j: int|
        0 <= j < p && is_winner(first, moves, j) implies adopt_laws::is_taken_over(
        first,
        next,
        #[trigger] moves[j],
    ) && next.reaches(moves[j].to) by {
        assert(adopt_laws::is_taken_over(first, now, moves[j]));
        disk::lemma_still_reaches(now, next, moves[j].to);
        lemma_prefix_of_itself(source(moves[j]));
        if next.has(source(moves[j])) {
            lemma_clear_to(first, moves, p, j, source(moves[j]));
        }
        assert forall|rest: Place|
            first.has(#[trigger] (source(moves[j]) + rest)) implies next.has(
            target(moves[j]) + rest,
        ) && next.nodes[target(moves[j]) + rest] == first.nodes[source(moves[j]) + rest] by {
            assert(now.has(target(moves[j]) + rest));
        }
    }
    assert forall|k: Place|
        first.has(k) && is_spared(first, moves, p, k) implies #[trigger] next.has(k)
        && next.nodes[k] == first.nodes[k] by {
        assert(now.has(k));
    }
    assert forall|q: Place| #[trigger] next.has(q) && !first.has(q) implies is_accounted_for(
        first,
        next,
        moves,
        p + 1,
        q,
    ) by {
        if now.has(q) {
            let j = choose|j: int|
                0 <= j < p + 1 && is_winner(first, moves, j) && is_due_to(
                    now,
                    #[trigger] moves[j],
                    q,
                );
            assert(is_due_to(next, moves[j], q));
        } else {
            assert(is_due_to(next, moves[p], q));
        }
    }
}

proof fn lemma_moved(
    first: Disk,
    now: Disk,
    next: Disk,
    moves: Seq<Move<Seq<u8>>>,
    p: int,
)
    requires
        are_disjoint(moves),
        are_clear(first, moves),
        are_made(first, now, moves, p, p + 1),
        is_winner(first, moves, p),
        now.well_formed(),
        now.passes(moves[p].to),
        now.allows_move(source(moves[p]), target(moves[p])),
        next == now.after_move(source(moves[p]), target(moves[p])),
    ensures
        are_made(first, next, moves, p + 1, p + 1),
{
    reveal(are_made);
    assert(0 <= p < moves.len()) by {
        reveal(is_winner);
    }
    let from = source(moves[p]);
    let to = target(moves[p]);
    disk::law_move_to_open_place(now, from, to);
    lemma_prefix_of_itself(from);
    assert forall|j: int|
        0 <= j < p + 1 && is_winner(first, moves, j) implies adopt_laws::is_taken_over(
        first,
        next,
        #[trigger] moves[j],
    ) && next.reaches(moves[j].to) by {
        assert forall|q: Place| #[trigger] path::is_passed(q, moves[j].to) implies next.is_dir(
            q,
        ) by {
            lemma_clear_to(first, moves, j, p, q);
            assert(now.is_dir(q));
        }
        if j < p {
            assert(adopt_laws::is_taken_over(first, now, moves[j]));
            lemma_disjoint(moves, j, p);
            lemma_disjoint(moves, p, j);
            assert(!next.has(source(moves[j])));
            assert forall|rest: Place|
                first.has(#[trigger] (source(moves[j]) + rest)) implies next.has(
                target(moves[j]) + rest,
            ) && next.nodes[target(moves[j]) + rest] == first.nodes[source(moves[j]) + rest] by {
                assert(now.has(target(moves[j]) + rest));
                lemma_not_below(from, target(moves[j]), rest);
            }
        } else {
            assert(!next.has(from));
            assert(moves[p].to.len() > 0) by {
                path::law_components_well_formed(moves[p].to);
            }
            assert(now.has(from));
            disk::lemma_goes_along(now, from, to, from);
            assert(to + from.skip(from.len() as int) =~= to);
            assert forall|rest: Place| first.has(#[trigger] (from + rest)) implies next.has(
                to + rest,
            ) && next.nodes[to + rest] == first.nodes[from + rest] by {
                lemma_winner_is_spared(first, moves, p, rest);
                assert(now.has(from + rest));
            }
        }
    }
    assert forall|k: Place|
        first.has(k) && is_spared(first, moves, p + 1, k) implies #[trigger] next.has(k)
        && next.nodes[k] == first.nodes[k] by {
        lemma_spared_by_fewer(first, moves, p, k);
        assert(now.has(k));
        assert(!source(moves[p]).is_prefix_of(k));
    }
    assert forall|q: Place| #[trigger] next.has(q) && !first.has(q) implies is_accounted_for(
        first,
        next,
        moves,
        p + 1,
        q,
    ) by {
        if now.has(q) {
            let j = choose|j: int|
                0 <= j < p + 1 && is_winner(first, moves, j) && is_due_to(
                    now,
                    #[trigger] moves[j],
                    q,
                );
            assert(!from.is_prefix_of(q));
            assert(is_due_to(next, moves[j], q));
        } else {
            assert(is_due_to(next, moves[p], q));
        }
    }
}

/// What has come of the moves at one point of a run.
spec fn is_on_course(first: Disk, now: Moment, moves: Seq<Move<Seq<u8>>>) -> bool {
    match now.step {
        Step::Ask(job) => {
            let p = adopt_laws::position(job, moves);
            match job.phase {
                MovePhase::Source => are_made(first, now.disk, moves, p, p),
                MovePhase::Target => are_made(first, now.disk, moves, p, p),
                _ => {
                    &&& are_made(first, now.disk, moves, p, p + 1)
                    &&& is_winner(first, moves, p)
                    &&& job.phase == MovePhase::Rename ==> now.disk.passes(moves[p].to)
                },
            }
        },
        Step::Done(_) => are_made(
            first,
            now.disk,
            moves,
            moves.len() as int,
            moves.len() as int,
        ),
        Step::Failed(_) => true,
    }
}

proof fn lemma_next_move(
    first: Disk,
    now: Disk,
    moves: Seq<Move<Seq<u8>>>,
    job: MigrationView,
)
    requires
        adopt_laws::is_at_a_move(job, moves),
        are_made(
            first,
            now,
            moves,
            adopt_laws::position(job, moves) + 1,
            adopt_laws::position(job, moves) + 1,
        ),
    ensures
        is_on_course(first, Moment { disk: now, step: MigrationView::begin(job.rest) }, moves),
{
    adopt_laws::lemma_begin(moves, job.rest);
}

proof fn lemma_on_course_step(
    first: Disk,
    now: Moment,
    next: Moment,
    moves: Seq<Move<Seq<u8>>>,
)
    requires
        are_disjoint(moves),
        are_clear(first, moves),
        adopt_laws::is_informed(now, moves),
        adopt_laws::follows(now, next),
        is_on_course(first, now, moves),
    ensures
        is_on_course(first, next, moves),
{
    let job = now.step->Ask_0;
    let p = adopt_laws::position(job, moves);
    let reply = choose|reply: AnswerView|
        #[trigger] now.disk.can_become(job.request(), reply, next.disk) && next.step == job.resume(
            reply,
        );
    assert(job.current == moves[p]);
    match job.phase {
        MovePhase::Source => {
            if reply == AnswerView::Flag(false) {
                if is_winner(first, moves, p) {
                    lemma_winner_stands(first, now.disk, moves, p);
                }
                lemma_passed_over(first, now.disk, moves, p);
                lemma_next_move(first, now.disk, moves, job);
            }
        },
        MovePhase::Target => {
            if reply == AnswerView::Flag(true) {
                if is_winner(first, moves, p) {
                    lemma_winner_stands(first, now.disk, moves, p);
                }
                lemma_passed_over(first, now.disk, moves, p);
                lemma_next_move(first, now.disk, moves, job);
            } else if reply == AnswerView::Flag(false) {
                lemma_standing_wins(first, now.disk, moves, p, p);
                lemma_about_to_move(first, now.disk, moves, p);
                if path::parent(moves[p].to) is None {
                    disk::lemma_made_way(now.disk, moves[p].to);
                }
            }
        },
        MovePhase::Parent => {
            lemma_way_made(first, now.disk, next.disk, moves, p);
            if reply is Done {
                disk::lemma_made_way(next.disk, moves[p].to);
            }
        },
        MovePhase::Rename => {
            if reply is Done {
                lemma_disjoint(moves, p, p);
                lemma_prefix_of_itself(source(moves[p]));
                lemma_moved(first, now.disk, next.disk, moves, p);
                lemma_next_move(first, next.disk, moves, job);
            }
        },
    }
}

proof fn lemma_on_course(run: Seq<Moment>, moves: Seq<Move<Seq<u8>>>, i: int)
    requires
        are_disjoint(moves),
        are_clear(run[0].disk, moves),
        adopt_laws::is_run(run, moves),
        0 <= i < run.len(),
    ensures
        is_on_course(run[0].disk, run[i], moves),
    decreases i,
{
    if i == 0 {
        let first = run[0].disk;
        assert(moves.skip(0) =~= moves);
        adopt_laws::lemma_begin(moves, moves);
        assert(are_made(first, first, moves, 0, 0)) by {
            reveal(are_made);
        }
    } else {
        lemma_on_course(run, moves, i - 1);
        adopt_laws::lemma_informed(run, moves, i - 1);
        assert(adopt_laws::follows(run[i - 1], run[i]));
        lemma_on_course_step(run[0].disk, run[i - 1], run[i], moves);
    }
}

/// Once the moves are done, every free place is taken by the first of its
/// directories that was there, with all that it held. Everything else is where
/// and as it was, and nothing is new but for the directories that were moved and
/// those on the way to them.
pub proof fn law_every_place_goes_to_the_first(
    run: Seq<Moment>,
    moves: Seq<Move<Seq<u8>>>,
)
    requires
        are_disjoint(moves),
        are_clear(run[0].disk, moves),
        adopt_laws::is_run(run, moves),
        run.last().step is Done,
    ensures
        forall|j: int|
            is_winner(run[0].disk, moves, j) ==> adopt_laws::is_taken_over(
                run[0].disk,
                run.last().disk,
                #[trigger] moves[j],
            ),
        forall|k: Place|
            run[0].disk.has(k) && is_spared(run[0].disk, moves, moves.len() as int, k)
                ==> #[trigger] run.last().disk.has(k) && run.last().disk.nodes[k]
                == run[0].disk.nodes[k],
        forall|q: Place|
            #[trigger] run.last().disk.has(q) && !run[0].disk.has(q) ==> is_accounted_for(
                run[0].disk,
                run.last().disk,
                moves,
                moves.len() as int,
                q,
            ),
{
    reveal(are_made);
    reveal(is_winner);
    lemma_on_course(run, moves, run.len() - 1);
}

/// Whether all that stood at or below a place stands there unchanged.
pub open spec fn is_as_before(before: Disk, after: Disk, dir: Place) -> bool {
    forall|k: Place|
        dir.is_prefix_of(k) && before.has(k) ==> #[trigger] after.has(k) && after.nodes[k]
            == before.nodes[k]
}

/// What is to become of a place that a recent and an older directory could take.
pub open spec fn is_rightly_taken(
    before: Disk,
    after: Disk,
    recent: Move<Seq<u8>>,
    oldest: Move<Seq<u8>>,
) -> bool {
    if before.has(target(recent)) {
        &&& is_as_before(before, after, target(recent))
        &&& is_as_before(before, after, source(recent))
        &&& is_as_before(before, after, source(oldest))
    } else if before.is_dir(source(recent)) {
        &&& adopt_laws::is_taken_over(before, after, recent)
        &&& is_as_before(before, after, source(oldest))
    } else if before.is_dir(source(oldest)) {
        adopt_laws::is_taken_over(before, after, oldest)
    } else {
        !after.has(target(recent))
    }
}

/// Whether the moves are those of two names: `n` directories of the recent one,
/// and the same of the oldest one for the same places. Directories of one name
/// that share a place are one directory, and the two names have none in common.
#[verifier::opaque]
pub open spec fn are_for_two_names(moves: Seq<Move<Seq<u8>>>, n: int) -> bool {
    &&& moves.len() == 2 * n
    &&& are_disjoint(moves)
    &&& forall|i: int, j: int|
        0 <= i < n && j == i + n ==> target(#[trigger] moves[i]) == target(#[trigger] moves[j])
    &&& forall|i: int, j: int|
        0 <= i < n && n <= j < 2 * n ==> source(#[trigger] moves[i]) != source(#[trigger] moves[j])
    &&& forall|i: int, j: int|
        0 <= i < 2 * n && 0 <= j < 2 * n && (i < n <==> j < n) && target(moves[i]) == target(
            moves[j],
        ) ==> source(#[trigger] moves[i]) == source(#[trigger] moves[j])
}

proof fn lemma_spared_below(first: Disk, moves: Seq<Move<Seq<u8>>>, dir: Place, k: Place)
    requires
        are_elsewhere(first, moves, dir),
        dir.is_prefix_of(k),
    ensures
        is_spared(first, moves, moves.len() as int, k),
{
    assert forall|j: int| 0 <= j < moves.len() && is_winner(first, moves, j) implies !source(
        #[trigger] moves[j],
    ).is_prefix_of(k) by {
        lemma_not_below(source(moves[j]), dir, k.skip(dir.len() as int));
        assert(dir + k.skip(dir.len() as int) =~= k);
    }
}

/// Whether no directory that is moved lies above or below a place.
spec fn are_elsewhere(first: Disk, moves: Seq<Move<Seq<u8>>>, dir: Place) -> bool {
    forall|j: int|
        is_winner(first, moves, j) ==> !dir.is_prefix_of(source(#[trigger] moves[j])) && !source(
            moves[j],
        ).is_prefix_of(dir)
}

proof fn lemma_as_before(run: Seq<Moment>, moves: Seq<Move<Seq<u8>>>, dir: Place)
    requires
        are_disjoint(moves),
        are_clear(run[0].disk, moves),
        adopt_laws::is_run(run, moves),
        run.last().step is Done,
        are_elsewhere(run[0].disk, moves, dir),
    ensures
        is_as_before(run[0].disk, run.last().disk, dir),
{
    let first = run[0].disk;
    let last = run.last().disk;
    lemma_on_course(run, moves, run.len() - 1);
    let n = moves.len() as int;
    assert(are_made(first, last, moves, n, n));
    reveal(are_made);
    assert forall|k: Place| dir.is_prefix_of(k) && first.has(k) implies #[trigger] last.has(k)
        && last.nodes[k] == first.nodes[k] by {
        lemma_spared_below(first, moves, dir, k);
    }
}

/// Of two names the newer wins, place by place: a place that was taken keeps what
/// it has; a free one goes to the recent directory if that is there, and to the
/// oldest one if only that is; otherwise it stays free.
pub proof fn law_newest_name_wins(
    run: Seq<Moment>,
    moves: Seq<Move<Seq<u8>>>,
    n: int,
    i: int,
)
    requires
        are_for_two_names(moves, n),
        are_clear(run[0].disk, moves),
        adopt_laws::is_run(run, moves),
        run.last().step is Done,
        0 <= i < n,
    ensures
        is_rightly_taken(run[0].disk, run.last().disk, moves[i], moves[i + n]),
{
    let first = run[0].disk;
    let last = run.last().disk;
    let recent = moves[i];
    let oldest = moves[i + n];
    lemma_two_names(moves, n, i, i);
    if first.has(target(recent)) {
        lemma_no_winner_takes(first, moves, i);
        lemma_no_winner_takes(first, moves, i + n);
        lemma_winners_elsewhere(first, moves, i, target(recent));
        lemma_winners_elsewhere(first, moves, i, source(recent));
        lemma_winners_elsewhere(first, moves, i + n, source(oldest));
        lemma_as_before(run, moves, target(recent));
        lemma_as_before(run, moves, source(recent));
        lemma_as_before(run, moves, source(oldest));
    } else if first.is_dir(source(recent)) {
        let j = lemma_some_winner(first, moves, i);
        lemma_two_names(moves, n, i, j);
        lemma_winner_is_taken_over(run, moves, j);
        assert forall|k: int| is_winner(first, moves, k) implies source(#[trigger] moves[k])
            != source(oldest) by {
            lemma_winner(first, moves, k, j);
            lemma_two_names(moves, n, i, k);
            lemma_disjoint(moves, k, i + n);
            lemma_prefix_of_itself(source(oldest));
        }
        lemma_winners_elsewhere(first, moves, i + n, source(oldest));
        lemma_as_before(run, moves, source(oldest));
    } else if first.is_dir(source(oldest)) {
        let j = lemma_some_winner(first, moves, i + n);
        lemma_winner(first, moves, j, j);
        lemma_two_names(moves, n, i, j);
        lemma_winner_is_taken_over(run, moves, j);
    } else {
        lemma_place_stays_free(run, moves, n, i);
    }
}

proof fn lemma_two_names(moves: Seq<Move<Seq<u8>>>, n: int, i: int, j: int)
    requires
        are_for_two_names(moves, n),
        0 <= i < n,
        0 <= j < 2 * n,
    ensures
        moves.len() == 2 * n,
        are_disjoint(moves),
        target(moves[i]) == target(moves[i + n]),
        target(moves[j]) == target(moves[i]) ==> source(moves[j]) == (if j < n {
            source(moves[i])
        } else {
            source(moves[i + n])
        }),
        j < n ==> source(moves[j]) != source(moves[i + n]),
{
    reveal(are_for_two_names);
    let other = moves[i + n];
}

proof fn lemma_winner(first: Disk, moves: Seq<Move<Seq<u8>>>, j: int, i: int)
    requires
        is_winner(first, moves, j),
    ensures
        0 <= j < moves.len(),
        first.is_dir(source(moves[j])),
        !first.has(target(moves[j])),
        0 <= i < j && target(moves[i]) == target(moves[j]) ==> !first.is_dir(source(moves[i])),
{
    reveal(is_winner);
}

/// What stands where nothing can be moved to is not moved.
proof fn lemma_no_winner_takes(first: Disk, moves: Seq<Move<Seq<u8>>>, i: int)
    requires
        are_disjoint(moves),
        0 <= i < moves.len(),
        first.has(target(moves[i])),
    ensures
        forall|j: int|
            is_winner(first, moves, j) ==> source(#[trigger] moves[j]) != source(moves[i]),
{
    assert forall|j: int| is_winner(first, moves, j) implies source(#[trigger] moves[j]) != source(
        moves[i],
    ) by {
        lemma_winner(first, moves, j, j);
        lemma_disjoint(moves, j, i);
        lemma_prefix_of_itself(source(moves[i]));
    }
}

proof fn lemma_winner_is_taken_over(run: Seq<Moment>, moves: Seq<Move<Seq<u8>>>, j: int)
    requires
        are_disjoint(moves),
        are_clear(run[0].disk, moves),
        adopt_laws::is_run(run, moves),
        run.last().step is Done,
        is_winner(run[0].disk, moves, j),
    ensures
        adopt_laws::is_taken_over(run[0].disk, run.last().disk, moves[j]),
{
    law_every_place_goes_to_the_first(run, moves);
}

proof fn lemma_place_stays_free(run: Seq<Moment>, moves: Seq<Move<Seq<u8>>>, n: int, i: int)
    requires
        are_for_two_names(moves, n),
        are_clear(run[0].disk, moves),
        adopt_laws::is_run(run, moves),
        run.last().step is Done,
        0 <= i < n,
        !run[0].disk.has(target(moves[i])),
        !run[0].disk.is_dir(source(moves[i])),
        !run[0].disk.is_dir(source(moves[i + n])),
    ensures
        !run.last().disk.has(target(moves[i])),
{
    let first = run[0].disk;
    let last = run.last().disk;
    lemma_two_names(moves, n, i, i);
    if last.has(target(moves[i])) {
        law_every_place_goes_to_the_first(run, moves);
        let j = choose|j: int|
            0 <= j < moves.len() && is_winner(first, moves, j) && is_due_to(
                last,
                #[trigger] moves[j],
                target(moves[i]),
            );
        lemma_winner(first, moves, j, j);
        lemma_two_names(moves, n, i, j);
        lemma_disjoint(moves, j, i);
        if is_winner(first, moves, i) {
            lemma_winner(first, moves, i, i);
        }
        lemma_clear_target(first, moves, j, i);
    }
}

/// No directory that wins lies above or below one that does not, or where that one
/// would go.
proof fn lemma_winners_elsewhere(first: Disk, moves: Seq<Move<Seq<u8>>>, i: int, dir: Place)
    requires
        are_disjoint(moves),
        0 <= i < moves.len(),
        forall|j: int|
            is_winner(first, moves, j) ==> source(#[trigger] moves[j]) != source(moves[i]),
        dir == source(moves[i]) || dir == target(moves[i]),
    ensures
        are_elsewhere(first, moves, dir),
{
    assert forall|j: int| is_winner(first, moves, j) implies !dir.is_prefix_of(
        source(#[trigger] moves[j]),
    ) && !source(moves[j]).is_prefix_of(dir) by {
        assert(0 <= j < moves.len()) by {
            reveal(is_winner);
        }
        lemma_disjoint(moves, i, j);
        lemma_disjoint(moves, j, i);
    }
}

/// Where the platform knows the directories of both earlier names, adopting them
/// leaves each kind of directory as it should be: the configuration, the state,
/// the cache and the storage.
pub proof fn law_previous_names_are_adopted(
    run: Seq<Moment>,
    new: Layout,
    recent: Layout,
    recent_storage: Seq<u8>,
    oldest: Layout,
    oldest_storage: Seq<u8>,
    storage: Seq<u8>,
)
    requires
        ({
            let moves = adopt::moves_for_both(
                new,
                Some(recent),
                Some(recent_storage),
                Some(oldest),
                Some(oldest_storage),
                Some(storage),
            );
            &&& are_for_two_names(moves, 4)
            &&& are_clear(run[0].disk, moves)
            &&& adopt_laws::is_run(run, moves)
        }),
        run.last().step is Done,
    ensures
        is_rightly_taken(
            run[0].disk,
            run.last().disk,
            Move { from: recent.config, to: new.config },
            Move { from: oldest.config, to: new.config },
        ),
        is_rightly_taken(
            run[0].disk,
            run.last().disk,
            Move { from: recent.state, to: new.state },
            Move { from: oldest.state, to: new.state },
        ),
        is_rightly_taken(
            run[0].disk,
            run.last().disk,
            Move { from: recent.cache, to: new.cache },
            Move { from: oldest.cache, to: new.cache },
        ),
        is_rightly_taken(
            run[0].disk,
            run.last().disk,
            Move { from: recent_storage, to: storage },
            Move { from: oldest_storage, to: storage },
        ),
{
    let moves = adopt::moves_for_both(
        new,
        Some(recent),
        Some(recent_storage),
        Some(oldest),
        Some(oldest_storage),
        Some(storage),
    );
    law_newest_name_wins(run, moves, 4, 0);
    law_newest_name_wins(run, moves, 4, 1);
    law_newest_name_wins(run, moves, 4, 2);
    law_newest_name_wins(run, moves, 4, 3);
}

/// Whether every directory is there, and every new place is free and meant for
/// one directory alone.
pub open spec fn are_all_due(before: Disk, moves: Seq<Move<Seq<u8>>>) -> bool {
    &&& forall|j: int|
        0 <= j < moves.len() ==> before.is_dir(source(#[trigger] moves[j])) && !before.has(
            target(moves[j]),
        )
    &&& forall|i: int, j: int|
        0 <= i < j < moves.len() ==> target(#[trigger] moves[i]) != target(#[trigger] moves[j])
}

/// Whether every directory, with all that it held, is now at its new place.
pub open spec fn are_taken_over(before: Disk, after: Disk, moves: Seq<Move<Seq<u8>>>) -> bool {
    forall|j: int|
        0 <= j < moves.len() ==> adopt_laws::is_taken_over(before, after, #[trigger] moves[j])
}

/// A directory that is about to be moved is the first that could take its place.
pub proof fn law_only_the_first_is_moved(run: Seq<Moment>, moves: Seq<Move<Seq<u8>>>, i: int)
    requires
        are_disjoint(moves),
        are_clear(run[0].disk, moves),
        adopt_laws::is_run(run, moves),
        0 <= i < run.len(),
        run[i].step is Ask,
        run[i].step->Ask_0.request() is Rename,
    ensures
        is_winner(run[0].disk, moves, adopt_laws::position(run[i].step->Ask_0, moves)),
{
    lemma_on_course(run, moves, i);
}

/// Where every directory is there and every new place is free, all of them are
/// taken over.
pub proof fn law_all_directories_are_taken_over(run: Seq<Moment>, moves: Seq<Move<Seq<u8>>>)
    requires
        are_disjoint(moves),
        are_clear(run[0].disk, moves),
        adopt_laws::is_run(run, moves),
        are_all_due(run[0].disk, moves),
        run.last().step is Done,
    ensures
        are_taken_over(run[0].disk, run.last().disk, moves),
{
    law_every_place_goes_to_the_first(run, moves);
    assert forall|j: int| 0 <= j < moves.len() implies adopt_laws::is_taken_over(
        run[0].disk,
        run.last().disk,
        #[trigger] moves[j],
    ) by {
        assert(is_winner(run[0].disk, moves, j)) by {
            reveal(is_winner);
        }
    }
}

/// Where nothing is spelled with `..`, no spelling gets in the way.
pub proof fn law_straight_moves_are_clear(first: Disk, moves: Seq<Move<Seq<u8>>>)
    requires
        first.well_formed(),
        adopt_laws::are_straight(moves),
        are_disjoint(moves),
    ensures
        are_clear(first, moves),
{
    reveal(are_clear);
    assert forall|i: int, j: int, q: Place|
        0 <= i < moves.len() && 0 <= j < moves.len() && #[trigger] path::is_passed(
            q,
            moves[i].to,
        ) implies !source(#[trigger] moves[j]).is_prefix_of(q) by {
        path::lemma_straight_passed(q, moves[i].to);
        lemma_disjoint(moves, j, i);
        if source(moves[j]).is_prefix_of(q) {
            disk::lemma_above_below(source(moves[j]), q, target(moves[i]));
        }
    }
    assert forall|i: int, j: int, q: Place|
        0 <= j < i < moves.len() && is_winner(first, moves, j) && #[trigger] path::is_passed(
            q,
            moves[i].from,
        ) implies !source(#[trigger] moves[j]).is_prefix_of(q) by {
        path::lemma_straight_passed(q, moves[i].from);
        lemma_disjoint(moves, j, i);
        if source(moves[j]).is_prefix_of(q) {
            disk::lemma_above_below(source(moves[j]), q, source(moves[i]));
        }
    }
    assert forall|i: int, j: int|
        0 <= i < moves.len() && 0 <= j < moves.len() && target(moves[i]) != target(
            moves[j],
        ) implies !path::is_passed(
        target(#[trigger] moves[j]),
        (#[trigger] moves[i]).to,
    ) by {
        lemma_disjoint(moves, j, i);
        if path::is_passed(target(moves[j]), moves[i].to) {
            path::lemma_straight_passed(target(moves[j]), moves[i].to);
        }
    }
    assert forall|i: int| 0 <= i < moves.len() implies {
        &&& first.is_dir(source(#[trigger] moves[i])) ==> first.shows_dir(moves[i].from)
        &&& first.has(target(moves[i])) ==> first.reaches(moves[i].to)
    } by {
        disk::law_straight_paths_reach(first, moves[i].from);
        disk::law_straight_paths_reach(first, moves[i].to);
    }
}

/// Once the moves are done, none of them has anything left to do.
pub proof fn law_adopted_means_settled(run: Seq<Moment>, moves: Seq<Move<Seq<u8>>>)
    requires
        are_disjoint(moves),
        are_clear(run[0].disk, moves),
        adopt_laws::is_run(run, moves),
        run.last().step is Done,
    ensures
        forall|j: int|
            0 <= j < moves.len() ==> adopt_laws::is_settled(run.last().disk, #[trigger] moves[j]),
{
    let first = run[0].disk;
    let last = run.last().disk;
    let n = moves.len() as int;
    lemma_on_course(run, moves, run.len() - 1);
    adopt_laws::lemma_informed(run, moves, run.len() - 1);
    assert forall|j: int| 0 <= j < moves.len() implies adopt_laws::is_settled(
        last,
        #[trigger] moves[j],
    ) by {
        if !adopt_laws::is_settled(last, moves[j]) {
            lemma_standing_wins(first, last, moves, n, j);
            reveal(are_made);
            assert(adopt_laws::is_taken_over(first, last, moves[j]));
        }
    }
}

/// The moves from one installation to another.
pub open spec fn moves_under(old: Seq<u8>, new: Seq<u8>) -> Seq<Move<Seq<u8>>> {
    adopt::moves_between(Layout::under(old), Layout::under(new))
}

/// Whether an installation is there, and every new place is free.
pub open spec fn is_due(first: Disk, old: Seq<u8>, new: Seq<u8>) -> bool {
    forall|j: int|
        0 <= j < 3 ==> {
            &&& first.shows_dir((#[trigger] moves_under(old, new)[j]).from)
            &&& !first.has(target(moves_under(old, new)[j]))
        }
}

/// Whether neither root is spelled by way of a directory that is moved before the
/// last use of the spelling, and the new one not by way of a place that is still
/// to be taken.
pub open spec fn are_clear_roots(old: Seq<u8>, new: Seq<u8>) -> bool {
    &&& forall|q: Place, j: int|
        0 <= j < 3 && #[trigger] path::is_on_the_way(q, new) ==> !source(
            #[trigger] moves_under(old, new)[j],
        ).is_prefix_of(q)
    &&& forall|q: Place, j: int|
        0 <= j < 2 && #[trigger] path::is_on_the_way(q, old) ==> !source(
            #[trigger] moves_under(old, new)[j],
        ).is_prefix_of(q)
    &&& forall|j: int|
        1 <= j < 3 ==> !path::is_on_the_way(target(#[trigger] moves_under(old, new)[j]), new)
}

spec fn directory_name(j: int) -> Seq<u8> {
    seq![path::text("config"), path::text("state"), path::text("cache")][j]
}

proof fn lemma_places_under(old: Seq<u8>, new: Seq<u8>, i: int)
    requires
        0 <= i < 3,
    ensures
        moves_under(old, new).len() == 3,
        moves_under(old, new)[i].from == path::join(old, directory_name(i)),
        moves_under(old, new)[i].to == path::join(new, directory_name(i)),
        path::is_plain_name(directory_name(i)),
        source(moves_under(old, new)[i]) == path::place(old).push(
            path::Component::Normal(directory_name(i)),
        ),
        target(moves_under(old, new)[i]) == path::place(new).push(
            path::Component::Normal(directory_name(i)),
        ),
        forall|j: int|
            0 <= j < 3 && j != i ==> #[trigger] directory_name(j) != directory_name(i),
{
    layout_laws::lemma_directory_names();
    path::lemma_place_join(old, directory_name(i));
    path::lemma_place_join(new, directory_name(i));
}

proof fn lemma_end_is_on_the_way(p: Seq<u8>)
    ensures
        path::place(p).len() > 0 ==> path::is_on_the_way(path::place(p), p),
{
    let c = path::components(p);
    assert(c.take(c.len() as int) =~= c);
}

proof fn lemma_under_is_apart(first: Disk, old: Seq<u8>, new: Seq<u8>, i: int, j: int)
    requires
        first.well_formed(),
        is_due(first, old, new),
        are_clear_roots(old, new),
        0 <= i < 3,
        0 <= j < 3,
    ensures
        !source(moves_under(old, new)[i]).is_prefix_of(target(moves_under(old, new)[j])),
        !target(moves_under(old, new)[j]).is_prefix_of(source(moves_under(old, new)[i])),
{
    let from = source(moves_under(old, new)[i]);
    let to = target(moves_under(old, new)[j]);
    lemma_places_under(old, new, i);
    lemma_places_under(old, new, j);
    if from.is_prefix_of(to) {
        if from.len() == to.len() {
            assert(from =~= to);
        } else {
            assert(path::place(new) =~= to.drop_last());
            assert(from =~= path::place(new).subrange(0, from.len() as int)) by {
                assert forall|k: int| 0 <= k < from.len() implies from[k] == path::place(
                    new,
                )[k] by {
                    assert(to.subrange(0, from.len() as int)[k] == to[k]);
                }
            }
            lemma_end_is_on_the_way(new);
        }
    }
    if to.is_prefix_of(from) {
        disk::lemma_nothing_below(first, to, from);
    }
}

proof fn lemma_under_is_disjoint(first: Disk, old: Seq<u8>, new: Seq<u8>)
    requires
        first.well_formed(),
        is_due(first, old, new),
        are_clear_roots(old, new),
    ensures
        are_disjoint(moves_under(old, new)),
        are_all_due(first, moves_under(old, new)),
{
    reveal(are_disjoint);
    let moves = moves_under(old, new);
    lemma_places_under(old, new, 0);
    assert forall|i: int, j: int| 0 <= i < 3 && 0 <= j < 3 implies {
        &&& !source(#[trigger] moves[i]).is_prefix_of(target(#[trigger] moves[j]))
        &&& !target(moves[j]).is_prefix_of(source(moves[i]))
    } by {
        lemma_under_is_apart(first, old, new, i, j);
    }
    assert forall|i: int, j: int| 0 <= i < 3 && 0 <= j < 3 implies {
        &&& source(#[trigger] moves[i]).is_prefix_of(source(#[trigger] moves[j])) ==> i == j
        &&& target(moves[i]).is_prefix_of(target(moves[j])) ==> i == j
    } by {
        lemma_places_under(old, new, i);
        lemma_places_under(old, new, j);
        if source(moves[i]).is_prefix_of(source(moves[j])) {
            assert(source(moves[i]) =~= source(moves[j]));
            assert(source(moves[i]).last() == source(moves[j]).last());
        }
        if target(moves[i]).is_prefix_of(target(moves[j])) {
            assert(target(moves[i]) =~= target(moves[j]));
            assert(target(moves[i]).last() == target(moves[j]).last());
        }
    }
    assert forall|i: int, j: int| 0 <= i < j < 3 implies target(#[trigger] moves[i]) != target(
        #[trigger] moves[j],
    ) by {
        lemma_prefix_of_itself(target(moves[i]));
    }
}

proof fn lemma_under_is_clear(first: Disk, old: Seq<u8>, new: Seq<u8>)
    requires
        first.well_formed(),
        is_due(first, old, new),
        are_clear_roots(old, new),
    ensures
        are_clear(first, moves_under(old, new)),
{
    let moves = moves_under(old, new);
    lemma_under_is_disjoint(first, old, new);
    lemma_places_under(old, new, 0);
    assert forall|j: int| 0 <= j < 3 implies #[trigger] is_winner(first, moves, j) by {
        reveal(is_winner);
        assert(first.is_dir(source(moves[j])));
    }
    assert forall|i: int, j: int, q: Place|
        0 <= i < 3 && 0 <= j < 3 && #[trigger] path::is_passed(q, moves[i].to) implies !source(
        #[trigger] moves[j],
    ).is_prefix_of(q) by {
        lemma_places_under(old, new, i);
        path::lemma_passed_by_joined(q, new, directory_name(i));
    }
    assert forall|i: int, j: int, q: Place|
        0 <= j < i < 3 && #[trigger] path::is_passed(q, moves[i].from) implies !source(
        #[trigger] moves[j],
    ).is_prefix_of(q) by {
        lemma_places_under(old, new, i);
        path::lemma_passed_by_joined(q, old, directory_name(i));
    }
    assert forall|i: int, j: int| 0 <= i < j < 3 implies !path::is_passed(
        target(#[trigger] moves[j]),
        (#[trigger] moves[i]).to,
    ) by {
        lemma_places_under(old, new, i);
        path::lemma_passed_by_joined(target(moves[j]), new, directory_name(i));
    }
    reveal(are_clear);
}

/// An installation that is adopted is complete: with all three directories there
/// and their new places free, each is taken over with all that it held, and a
/// second launch changes nothing. The roots may be spelled in any way that does
/// not pass a directory that is moved.
pub proof fn law_adopted_installation_is_complete(
    run: Seq<Moment>,
    again: Seq<Moment>,
    old: Seq<u8>,
    new: Seq<u8>,
    i: int,
)
    requires
        adopt_laws::is_run(run, moves_under(old, new)),
        is_due(run[0].disk, old, new),
        are_clear_roots(old, new),
        run.last().step is Done,
        adopt_laws::is_run(again, moves_under(old, new)),
        again[0].disk == run.last().disk,
        0 <= i < again.len(),
    ensures
        are_taken_over(run[0].disk, run.last().disk, moves_under(old, new)),
        again[i].disk == run.last().disk,
{
    let moves = moves_under(old, new);
    lemma_under_is_disjoint(run[0].disk, old, new);
    lemma_under_is_clear(run[0].disk, old, new);
    law_all_directories_are_taken_over(run, moves);
    law_adopted_means_settled(run, moves);
    adopt_laws::law_settled_moves_change_nothing(again, moves, i);
}

} // verus!
