//! A model of a disk, for what is said of jobs that change it.
//!
//! The model has directories and files and no links.

use vstd::prelude::*;
use crate::io::{AnswerView, Request};
use crate::path;
use crate::path::Component;

verus! {

/// Where something stands: what its path leads to.
pub type Place = Seq<Component<Seq<u8>>>;

/// What stands at a place.
pub ghost enum Node {
    Dir,
    File(Seq<u8>),
}

/// What stands where.
#[verifier::ext_equal]
pub ghost struct Disk {
    pub nodes: Map<Place, Node>,
}

impl Disk {
    pub open spec fn has(self, k: Place) -> bool {
        self.nodes.dom().contains(k)
    }

    pub open spec fn is_dir(self, k: Place) -> bool {
        self.has(k) && self.nodes[k] is Dir
    }

    /// Whatever stands somewhere stands in a directory.
    pub open spec fn well_formed(self) -> bool {
        forall|k: Place| #[trigger] self.has(k) && k.len() > 1 ==> self.is_dir(k.drop_last())
    }

    /// Whether all that stands here stands unchanged in `later`.
    pub open spec fn is_kept_in(self, later: Disk) -> bool {
        forall|k: Place| #[trigger] self.has(k) ==> later.has(k) && later.nodes[k] == self.nodes[k]
    }

    /// Whether `later` differs at most by new directories on the way of `p`.
    pub open spec fn gains_dirs(self, later: Disk, p: Seq<u8>) -> bool {
        &&& self.is_kept_in(later)
        &&& forall|q: Place|
            #[trigger] later.has(q) && !self.has(q) ==> later.is_dir(q) && path::is_on_the_way(q, p)
        &&& later.well_formed()
    }

    /// The place at or below `from` that corresponds to `k` at or below `to`.
    pub open spec fn origin(from: Place, to: Place, k: Place) -> Place {
        from + k.skip(to.len() as int)
    }

    /// The disk after the directory `from` went to `to` with all that it holds.
    pub open spec fn after_move(self, from: Place, to: Place) -> Disk {
        Disk {
            nodes: Map::new(
                |k: Place|
                    {
                        ||| to.is_prefix_of(k) && self.has(Self::origin(from, to, k))
                        ||| !from.is_prefix_of(k) && self.has(k)
                    },
                |k: Place|
                    if to.is_prefix_of(k) && self.has(Self::origin(from, to, k)) {
                        self.nodes[Self::origin(from, to, k)]
                    } else {
                        self.nodes[k]
                    },
            ),
        }
    }

    /// Whether a directory stands wherever `p` passes.
    pub open spec fn has_way(self, p: Seq<u8>) -> bool {
        forall|q: Place| #[trigger] path::is_on_the_way(q, p) ==> self.is_dir(q)
    }

    /// Whether a directory stands wherever `p` passes before its end.
    pub open spec fn passes(self, p: Seq<u8>) -> bool {
        forall|q: Place| #[trigger] path::is_passed(q, p) ==> self.is_dir(q)
    }

    /// Whether a path leads to something. One with `..` in it may lead nowhere
    /// although something stands at its place, for want of a directory that it
    /// passes.
    pub open spec fn reaches(self, p: Seq<u8>) -> bool {
        &&& p.len() > 0
        &&& self.passes(p)
        &&& self.has(path::place(p))
    }

    /// Whether a path leads to a directory.
    pub open spec fn shows_dir(self, p: Seq<u8>) -> bool {
        &&& p.len() > 0
        &&& self.passes(p)
        &&& self.is_dir(path::place(p))
    }

    /// Whether nothing stands at a place but possibly an empty directory.
    pub open spec fn is_open(self, k: Place) -> bool {
        forall|q: Place| #[trigger] self.has(q) && k.is_prefix_of(q) ==> q == k && self.is_dir(k)
    }

    /// Whether a directory can go from one place to another.
    pub open spec fn allows_move(self, from: Place, to: Place) -> bool {
        &&& self.is_dir(from)
        &&& self.is_open(to)
        &&& !from.is_prefix_of(to)
        &&& to.len() > 0
        &&& to.len() > 1 ==> self.is_dir(to.drop_last())
    }

    /// Whether a request can be answered by `reply` and leave the disk as
    /// `later`. A directory can only be moved to where nothing stands or an empty
    /// directory does.
    pub open spec fn can_become(
        self,
        request: Request<Seq<u8>>,
        reply: AnswerView,
        later: Disk,
    ) -> bool {
        match request {
            Request::IsDir(p) => {
                &&& later == self
                &&& reply == AnswerView::Flag(self.shows_dir(p))
            },
            Request::TryExists(p) => {
                &&& later == self
                &&& reply is Failed || reply == AnswerView::Flag(self.reaches(p))
            },
            Request::CreateDirAll(p) => {
                &&& self.gains_dirs(later, p)
                &&& reply is Done || reply is Failed
                &&& reply is Done ==> later.has_way(p)
            },
            Request::Rename { from, to } => {
                let source = path::place(from);
                let target = path::place(to);
                ||| reply is Failed && later == self
                ||| reply is Done && self.is_dir(source) && source == target && later == self
                ||| {
                    &&& reply is Done
                    &&& self.allows_move(source, target)
                    &&& later == self.after_move(source, target)
                }
            },
            _ => true,
        }
    }
}

/// Nothing stands below a place where nothing stands.
pub proof fn lemma_nothing_below(disk: Disk, k: Place, below: Place)
    requires
        disk.well_formed(),
        disk.has(below),
        k.is_prefix_of(below),
        k.len() > 0,
    ensures
        disk.has(k),
        k.len() < below.len() ==> disk.is_dir(k),
    decreases below.len(),
{
    if below.len() > k.len() {
        assert(k.is_prefix_of(below.drop_last()));
        assert(disk.is_dir(below.drop_last()));
        lemma_nothing_below(disk, k, below.drop_last());
        if k.len() + 1 == below.len() {
            assert(k =~= below.drop_last());
        }
    } else {
        assert(k =~= below);
    }
}

/// A path without `..` leads to whatever stands at its place.
pub proof fn law_straight_paths_reach(disk: Disk, p: Seq<u8>)
    requires
        disk.well_formed(),
        path::is_straight(p),
    ensures
        disk.reaches(p) == disk.has(path::place(p)),
        disk.shows_dir(p) == disk.is_dir(path::place(p)),
{
    if disk.has(path::place(p)) {
        assert forall|q: Place| #[trigger] path::is_passed(q, p) implies disk.is_dir(q) by {
            path::lemma_straight_passed(q, p);
            lemma_nothing_below(disk, q, path::place(p));
        }
    }
}

/// A path that leads to something still does while all that was there is kept.
pub proof fn lemma_still_reaches(disk: Disk, later: Disk, p: Seq<u8>)
    requires
        disk.is_kept_in(later),
        disk.reaches(p),
    ensures
        later.reaches(p),
{
    assert forall|q: Place| #[trigger] path::is_passed(q, p) implies later.is_dir(q) by {
        assert(disk.has(q));
    }
}

/// A path passes directories only, once the way to its parent is made.
pub proof fn lemma_made_way(disk: Disk, p: Seq<u8>)
    requires
        path::parent(p) is Some ==> disk.has_way(path::popped(p)),
    ensures
        disk.passes(p),
{
    assert forall|q: Place| #[trigger] path::is_passed(q, p) implies disk.is_dir(q) by {
        path::lemma_passed(q, p);
    }
}

/// Of two places above a third, one is above the other.
pub proof fn lemma_above_each_other(a: Place, b: Place, k: Place)
    requires
        a.is_prefix_of(k),
        b.is_prefix_of(k),
        a.len() <= b.len(),
    ensures
        a.is_prefix_of(b),
{
    assert forall|i: int| 0 <= i < a.len() implies a[i] == b[i] by {
        assert(k.subrange(0, a.len() as int)[i] == k[i]);
        assert(k.subrange(0, b.len() as int)[i] == k[i]);
    }
    assert(a =~= b.subrange(0, a.len() as int));
}

/// What is above a place is above all that is below it.
pub proof fn lemma_above_below(a: Place, b: Place, k: Place)
    requires
        a.is_prefix_of(b),
        b.is_prefix_of(k),
    ensures
        a.is_prefix_of(k),
{
    assert forall|i: int| 0 <= i < a.len() implies a[i] == k[i] by {
        assert(b.subrange(0, a.len() as int)[i] == b[i]);
        assert(k.subrange(0, b.len() as int)[i] == k[i]);
    }
    assert(a =~= k.subrange(0, a.len() as int));
}

/// The place of a directory is above the place of all that stands in it.
proof fn lemma_parent_is_above(k: Place)
    requires
        k.len() > 0,
    ensures
        k.drop_last().is_prefix_of(k),
{
    assert(k.drop_last() =~= k.subrange(0, k.len() - 1));
}

proof fn lemma_old_place_is_free(disk: Disk, from: Place, to: Place, k: Place)
    requires
        disk.allows_move(from, to),
        from.is_prefix_of(k),
    ensures
        !disk.after_move(from, to).has(k),
{
    if disk.after_move(from, to).has(k) {
        assert(to.is_prefix_of(k));
        if from.len() <= to.len() {
            lemma_above_each_other(from, to, k);
        } else {
            lemma_above_each_other(to, from, k);
            assert(disk.has(from));
        }
    }
}

proof fn lemma_stays_in_a_directory(disk: Disk, from: Place, to: Place, k: Place)
    requires
        disk.well_formed(),
        disk.allows_move(from, to),
        disk.after_move(from, to).has(k),
        k.len() > 1,
    ensures
        disk.after_move(from, to).is_dir(k.drop_last()),
{
    let up = k.drop_last();
    lemma_parent_is_above(k);
    if to.is_prefix_of(k) && disk.has(Disk::origin(from, to, k)) {
        if k.len() == to.len() {
            assert(k =~= to);
            assert(!from.is_prefix_of(up)) by {
                if from.is_prefix_of(up) {
                    lemma_above_below(from, up, k);
                }
            }
        } else {
            let at = Disk::origin(from, to, k);
            assert(at.drop_last() =~= Disk::origin(from, to, up));
            lemma_above_each_other(to, up, k);
            assert(at.len() > 1) by {
                if from.len() == 0 {
                    assert(from =~= to.subrange(0, 0));
                }
            }
            assert(disk.is_dir(at.drop_last()));
        }
    } else {
        assert(disk.is_dir(up));
        assert(!from.is_prefix_of(up)) by {
            if from.is_prefix_of(up) {
                lemma_above_below(from, up, k);
            }
        }
        assert(!to.is_prefix_of(up)) by {
            if to.is_prefix_of(up) {
                lemma_above_below(to, up, k);
                assert(disk.has(k) && disk.has(up));
            }
        }
    }
}

/// What stood in a moved directory is found at the new place.
pub proof fn lemma_goes_along(disk: Disk, from: Place, to: Place, k: Place)
    requires
        disk.has(k),
        from.is_prefix_of(k),
    ensures
        disk.after_move(from, to).has(to + k.skip(from.len() as int)),
        disk.after_move(from, to).nodes[to + k.skip(from.len() as int)] == disk.nodes[k],
{
    let at = to + k.skip(from.len() as int);
    assert(to =~= at.subrange(0, to.len() as int));
    assert(Disk::origin(from, to, at) =~= k);
}

/// A move to an open place: what the directory held is found at the new place,
/// the old place is free, and everything else is as it was.
pub proof fn law_move_to_open_place(disk: Disk, from: Place, to: Place)
    requires
        disk.well_formed(),
        disk.allows_move(from, to),
    ensures
        disk.after_move(from, to).well_formed(),
        forall|rest: Place|
            disk.has(#[trigger] (from + rest)) ==> {
                &&& disk.after_move(from, to).has(to + rest)
                &&& disk.after_move(from, to).nodes[to + rest] == disk.nodes[from + rest]
            },
        forall|k: Place| from.is_prefix_of(k) ==> !#[trigger] disk.after_move(from, to).has(k),
        forall|k: Place|
            #[trigger] disk.has(k) && !from.is_prefix_of(k) ==> {
                &&& disk.after_move(from, to).has(k)
                &&& disk.after_move(from, to).nodes[k] == disk.nodes[k]
            },
        forall|k: Place|
            #[trigger] disk.after_move(from, to).has(k) && !disk.has(k) ==> to.is_prefix_of(k),
{
    let later = disk.after_move(from, to);
    assert forall|rest: Place| disk.has(#[trigger] (from + rest)) implies later.has(to + rest)
        && later.nodes[to + rest] == disk.nodes[from + rest] by {
        assert(Disk::origin(from, to, to + rest) =~= from + rest);
        assert(to =~= (to + rest).subrange(0, to.len() as int));
    }
    assert forall|k: Place| from.is_prefix_of(k) implies !#[trigger] later.has(k) by {
        lemma_old_place_is_free(disk, from, to, k);
    }
    assert forall|k: Place| #[trigger] disk.has(k) && !from.is_prefix_of(k) implies later.has(k)
        && later.nodes[k] == disk.nodes[k] by {
        if to.is_prefix_of(k) && disk.has(Disk::origin(from, to, k)) {
            assert(k == to);
            assert(Disk::origin(from, to, k) =~= from);
        }
    }
    assert forall|k: Place| #[trigger] later.has(k) && k.len() > 1 implies later.is_dir(
        k.drop_last(),
    ) by {
        lemma_stays_in_a_directory(disk, from, to, k);
    }
}

} // verus!
