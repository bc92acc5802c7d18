//! Taking over the directories of earlier names of the application.

use vstd::prelude::*;
use crate::file_path::FilePath;
use crate::io::{Answer, AnswerView, Failure, Reply, Request, Step};
use crate::path;
use crate::paths::{AppDirs, Layout};
use crate::platform;
use crate::platform::ProjectPathsView;

verus! {

/// A directory to take over, and where it is to stand, with `P` for the paths.
#[derive(Debug)]
pub struct Move<P> {
    pub from: P,
    pub to: P,
}

impl DeepView for Move<FilePath> {
    type V = Move<Seq<u8>>;

    open spec fn deep_view(&self) -> Move<Seq<u8>> {
        Move { from: self.from@, to: self.to@ }
    }
}

/// What is known of a move so far.
#[derive(Clone, Copy, Debug, PartialEq, Eq)]
pub enum MovePhase {
    /// Nothing: is there a directory to move?
    Source,
    /// There is one. Is its new place free?
    Target,
    /// The place is free. The directory above it has to be there.
    Parent,
    /// All is set for the move itself.
    Rename,
}

/// The job of carrying out moves, one after the other. Whole directories are
/// renamed, so that databases travel with their logs. A move that fails ends
/// the job.
#[derive(Debug)]
pub struct Migration {
    pub current: Move<FilePath>,
    pub phase: MovePhase,
    pub rest: Vec<Move<FilePath>>,
}

/// What a [`Migration`] holds.
pub ghost struct MigrationView {
    pub current: Move<Seq<u8>>,
    pub phase: MovePhase,
    pub rest: Seq<Move<Seq<u8>>>,
}

impl DeepView for Migration {
    type V = MigrationView;

    open spec fn deep_view(&self) -> MigrationView {
        MigrationView {
            current: self.current.deep_view(),
            phase: self.phase,
            rest: self.rest.deep_view(),
        }
    }
}

/// Where the moves stand after a reply.
pub type MigrationStep = Step<MigrationView, (), Failure>;

impl MigrationView {
    /// The job for some moves.
    pub open spec fn begin(moves: Seq<Move<Seq<u8>>>) -> MigrationStep {
        if moves.len() == 0 {
            Step::Done(())
        } else {
            Step::Ask(
                MigrationView {
                    current: moves[0],
                    phase: MovePhase::Source,
                    rest: moves.drop_first(),
                },
            )
        }
    }

    pub open spec fn request(self) -> Request<Seq<u8>> {
        match self.phase {
            MovePhase::Source => Request::IsDir(self.current.from),
            MovePhase::Target => Request::TryExists(self.current.to),
            MovePhase::Parent => Request::CreateDirAll(path::popped(self.current.to)),
            MovePhase::Rename => Request::Rename { from: self.current.from, to: self.current.to },
        }
    }

    pub open spec fn in_phase(self, phase: MovePhase) -> MigrationStep {
        Step::Ask(MigrationView { phase, ..self })
    }

    /// What follows a reply: a directory is moved only if it is there and its
    /// new place is free. A reply that does not fit the request changes nothing.
    pub open spec fn resume(self, reply: AnswerView) -> MigrationStep {
        match (self.phase, reply) {
            (MovePhase::Source, Reply::Flag(true)) => self.in_phase(MovePhase::Target),
            (MovePhase::Source, Reply::Flag(false)) => Self::begin(self.rest),
            (MovePhase::Target, Reply::Flag(false)) => if path::parent(self.current.to) is Some {
                self.in_phase(MovePhase::Parent)
            } else {
                self.in_phase(MovePhase::Rename)
            },
            (MovePhase::Target, Reply::Flag(true)) => Self::begin(self.rest),
            (MovePhase::Target, Reply::Failed(f)) => Step::Failed(f),
            (MovePhase::Parent, Reply::Done) => self.in_phase(MovePhase::Rename),
            (MovePhase::Parent, Reply::Failed(f)) => Step::Failed(f),
            (MovePhase::Rename, Reply::Done) => Self::begin(self.rest),
            (MovePhase::Rename, Reply::Failed(f)) => Step::Failed(f),
            _ => Step::Ask(self),
        }
    }
}

/// The moves that bring the directories of `old` to those of `new`.
pub open spec fn moves_between(old: Layout, new: Layout) -> Seq<Move<Seq<u8>>> {
    seq![
        Move { from: old.config, to: new.config },
        Move { from: old.state, to: new.state },
        Move { from: old.cache, to: new.cache },
    ]
}

/// The moves for one earlier name, as far as the platform knows its directories.
pub open spec fn moves_for(
    new: Layout,
    old: Option<Layout>,
    storage_from: Option<Seq<u8>>,
    storage_to: Option<Seq<u8>>,
) -> Seq<Move<Seq<u8>>> {
    let first = match old {
        Some(dirs) => moves_between(dirs, new),
        None => Seq::empty(),
    };
    match (storage_from, storage_to) {
        (Some(from), Some(to)) => first.push(Move { from, to }),
        _ => first,
    }
}

/// The moves for two earlier names, those of the recent one first.
pub open spec fn moves_for_both(
    new: Layout,
    recent: Option<Layout>,
    recent_storage: Option<Seq<u8>>,
    oldest: Option<Layout>,
    oldest_storage: Option<Seq<u8>>,
    storage: Option<Seq<u8>>,
) -> Seq<Move<Seq<u8>>> {
    moves_for(new, recent, recent_storage, storage) + moves_for(
        new,
        oldest,
        oldest_storage,
        storage,
    )
}

/// What the platform says of an application.
pub ghost struct Found {
    pub project: Option<ProjectPathsView>,
    pub storage: Option<Seq<u8>>,
}

impl Found {
    /// Whether every directory mentions the application.
    pub open spec fn belongs_to(self, name: Seq<u8>) -> bool {
        &&& self.project matches Some(paths) ==> paths.belongs_to(name)
        &&& self.storage matches Some(p) ==> platform::mentions(p, name)
    }
}

/// The start of the moves for what the platform says of two earlier names.
pub open spec fn moves_found(
    new: Layout,
    recent: Found,
    oldest: Found,
    storage: Option<Seq<u8>>,
) -> MigrationStep {
    MigrationView::begin(
        moves_for_both(
            new,
            Layout::of(recent.project),
            recent.storage,
            Layout::of(oldest.project),
            oldest.storage,
            storage,
        ),
    )
}

/// Starts the moves.
fn begin(moves: Vec<Move<FilePath>>) -> (res: Step<Migration, (), Failure>)
    ensures
        res.deep_view() == MigrationView::begin(moves.deep_view()),
{
    let mut moves = moves;
    if moves.len() == 0 {
        return Step::Done(());
    }
    let ghost all = moves.deep_view();
    let current = moves.remove(0);
    assert(all[0] == current.deep_view());
    assert(moves.deep_view() =~= all.drop_first());
    Step::Ask(Migration { current, phase: MovePhase::Source, rest: moves })
}

impl Migration {
    /// What to do next.
    pub fn request(&self) -> (res: Request<FilePath>)
        ensures
            res.deep_view() == self.deep_view().request(),
    {
        match self.phase {
            MovePhase::Source => Request::IsDir(self.current.from.clone()),
            MovePhase::Target => Request::TryExists(self.current.to.clone()),
            MovePhase::Parent => Request::CreateDirAll(self.current.to.popped()),
            MovePhase::Rename => Request::Rename {
                from: self.current.from.clone(),
                to: self.current.to.clone(),
            },
        }
    }

    /// Goes on with the reply to the request.
    pub fn resume(self, reply: Answer) -> (res: Step<Migration, (), Failure>)
        ensures
            res.deep_view() == self.deep_view().resume(reply.deep_view()),
    {
        let mut job = self;
        match (job.phase, reply) {
            (MovePhase::Source, Reply::Flag(true)) => {
                job.phase = MovePhase::Target;
                Step::Ask(job)
            },
            (MovePhase::Source, Reply::Flag(false)) => begin(job.rest),
            (MovePhase::Target, Reply::Flag(false)) => {
                job.phase = if job.current.to.parent().is_some() {
                    MovePhase::Parent
                } else {
                    MovePhase::Rename
                };
                Step::Ask(job)
            },
            (MovePhase::Target, Reply::Flag(true)) => begin(job.rest),
            (MovePhase::Target, Reply::Failed(f)) => Step::Failed(f),
            (MovePhase::Parent, Reply::Done) => {
                job.phase = MovePhase::Rename;
                Step::Ask(job)
            },
            (MovePhase::Parent, Reply::Failed(f)) => Step::Failed(f),
            (MovePhase::Rename, Reply::Done) => begin(job.rest),
            (MovePhase::Rename, Reply::Failed(f)) => Step::Failed(f),
            _ => Step::Ask(job),
        }
    }
}

impl AppDirs {
    /// The moves that bring the directories of `old` to these.
    fn moves_from(&self, old: &AppDirs) -> (res: Vec<Move<FilePath>>)
        ensures
            res.deep_view() == moves_between(old@, self@),
    {
        let mut moves: Vec<Move<FilePath>> = Vec::new();
        moves.push(Move { from: old.config.clone(), to: self.config.clone() });
        moves.push(Move { from: old.state.clone(), to: self.state.clone() });
        moves.push(Move { from: old.cache.clone(), to: self.cache.clone() });
        assert(moves.deep_view() =~= moves_between(old@, self@));
        moves
    }

    /// Takes over the directories of `old`, without replacing existing data.
    pub fn adopt(&self, old: &AppDirs) -> (res: Step<Migration, (), Failure>)
        ensures
            res.deep_view() == MigrationView::begin(moves_between(old@, self@)),
    {
        begin(self.moves_from(old))
    }

    /// The moves for one earlier name, as far as the platform knows its directories.
    pub fn moves_for_name(
        &self,
        old: Option<AppDirs>,
        storage_from: Option<FilePath>,
        storage_to: Option<FilePath>,
    ) -> (res: Vec<Move<FilePath>>)
        ensures
            res.deep_view() == moves_for(
                self@,
                old.deep_view(),
                storage_from.deep_view(),
                storage_to.deep_view(),
            ),
    {
        let ghost goal = moves_for(
            self@,
            old.deep_view(),
            storage_from.deep_view(),
            storage_to.deep_view(),
        );
        let mut moves: Vec<Move<FilePath>> = match &old {
            Some(dirs) => self.moves_from(dirs),
            None => Vec::new(),
        };
        if let (Some(from), Some(to)) = (storage_from, storage_to) {
            moves.push(Move { from, to });
        }
        assert(moves.deep_view() =~= goal);
        moves
    }

    /// Takes over what the platform knows of two earlier names, the recent one
    /// first: their directories, and what they have in `storage`.
    pub fn adopt_found(
        &self,
        recent: Option<AppDirs>,
        recent_storage: Option<FilePath>,
        oldest: Option<AppDirs>,
        oldest_storage: Option<FilePath>,
        storage: Option<FilePath>,
    ) -> (res: Step<Migration, (), Failure>)
        ensures
            res.deep_view() == MigrationView::begin(
                moves_for_both(
                    self@,
                    recent.deep_view(),
                    recent_storage.deep_view(),
                    oldest.deep_view(),
                    oldest_storage.deep_view(),
                    storage.deep_view(),
                ),
            ),
    {
        let again = match &storage {
            Some(dir) => Some(dir.clone()),
            None => None,
        };
        let mut moves = self.moves_for_name(recent, recent_storage, again);
        let mut older = self.moves_for_name(oldest, oldest_storage, storage);
        let ghost first = moves.deep_view();
        let ghost second = older.deep_view();
        moves.append(&mut older);
        assert(moves.deep_view() =~= first + second);
        begin(moves)
    }

    /// Adopts earlier names, newest first, without replacing existing data.
    /// Call only after acquiring the instance guard, and never for demo runs.
    pub fn adopt_previous_names(&self) -> (res: Step<Migration, (), Failure>)
        ensures
            exists|
                recent: Found,
                oldest: Found,
                storage: Option<Seq<u8>>,
            |
                {
                    &&& res.deep_view() == #[trigger] moves_found(self@, recent, oldest, storage)
                    &&& recent.belongs_to(path::text("fastsapp"))
                    &&& oldest.belongs_to(path::text("fastwhatsapp"))
                    &&& storage matches Some(p) ==> platform::mentions(p, path::text("zapfast"))
                },
    {
        proof {
            reveal_strlit("zapfast");
            reveal_strlit("fastsapp");
            reveal_strlit("fastwhatsapp");
        }
        let recent_dirs = AppDirs::of("fastsapp");
        let recent_storage = platform::storage_dir("fastsapp");
        let oldest_dirs = AppDirs::of("fastwhatsapp");
        let oldest_storage = platform::storage_dir("fastwhatsapp");
        let storage = platform::storage_dir("zapfast");
        let ghost recent = Found {
            project: choose|project: Option<ProjectPathsView>|
                {
                    &&& #[trigger] Layout::of(project) == recent_dirs.deep_view()
                    &&& project matches Some(paths) ==> paths.belongs_to(path::text("fastsapp"))
                },
            storage: recent_storage.deep_view(),
        };
        let ghost oldest = Found {
            project: choose|project: Option<ProjectPathsView>|
                {
                    &&& #[trigger] Layout::of(project) == oldest_dirs.deep_view()
                    &&& project matches Some(paths) ==> paths.belongs_to(path::text("fastwhatsapp"))
                },
            storage: oldest_storage.deep_view(),
        };
        let ghost own = storage.deep_view();
        let res = self.adopt_found(
            recent_dirs,
            recent_storage,
            oldest_dirs,
            oldest_storage,
            storage,
        );
        assert(res.deep_view() == moves_found(self@, recent, oldest, own));
        res
    }
}

} // verus!
