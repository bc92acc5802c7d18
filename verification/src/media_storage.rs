//! Changing attachment folders copies files before committing their archive paths.

use vstd::prelude::*;
use crate::copying::{Copied, Copying, CopyingView};
use crate::file_path::FilePath;
use crate::io::{Answer, AnswerView, Failure, Reply, Request, Row, Step};
use crate::locate::{Locator, LocatorStep, LocatorView};
use crate::paths;
use crate::paths::{AppDirs, Layout};
use crate::publish::number_after;
use crate::relocations;
use crate::relocations::{Relocation, Relocations};

verus! {

/// The new path of an attachment that the archive knows, with `P` for the path.
#[derive(Debug)]
pub struct Update<P> {
    pub chat: String,
    pub id: String,
    pub replacement: Option<P>,
}

impl DeepView for Update<FilePath> {
    type V = Update<Seq<u8>>;

    open spec fn deep_view(&self) -> Update<Seq<u8>> {
        Update { chat: self.chat, id: self.id, replacement: self.replacement.deep_view() }
    }
}

/// Newly published copies, which are removed on failure, unlike the source files.
#[derive(Debug)]
pub struct Copies {
    published: Vec<FilePath>,
}

impl View for Copies {
    type V = Seq<Seq<u8>>;

    closed spec fn view(&self) -> Seq<Seq<u8>> {
        self.published.deep_view()
    }
}

/// The copies after one more file is in the folder.
pub open spec fn with_copy(copies: Seq<Seq<u8>>, copy: Copied<Seq<u8>>) -> Seq<Seq<u8>> {
    if copy.is_new {
        copies.push(copy.path)
    } else {
        copies
    }
}

impl Copies {
    /// No copies.
    pub fn new() -> (res: Copies)
        ensures
            res@ == Seq::<Seq<u8>>::empty(),
    {
        let res = Copies { published: Vec::new() };
        assert(res@ =~= Seq::empty());
        res
    }

    /// Notes a file that is now in the folder.
    pub fn note(&mut self, copy: &Copied<FilePath>)
        ensures
            final(self)@ == with_copy(old(self)@, copy.deep_view()),
            copy.is_new ==> final(self)@ == old(self)@.push(copy.path@),
            !copy.is_new ==> final(self)@ == old(self)@,
    {
        if copy.is_new {
            let path = copy.path.clone();
            self.published.push(path);
            assert(self@ =~= old(self)@.push(copy.path@));
        }
    }

    /// Leaves the copies for good.
    pub fn keep(&mut self)
        ensures
            final(self)@ == Seq::<Seq<u8>>::empty(),
    {
        self.published.clear();
        assert(self@ =~= Seq::empty());
    }

    /// The copy to remove next.
    pub fn first(&self) -> (res: Option<FilePath>)
        ensures
            res.deep_view() == if self@.len() == 0 {
                None
            } else {
                Some(self@[0])
            },
    {
        if self.published.len() == 0 {
            None
        } else {
            Some(self.published[0].clone())
        }
    }

    /// Forgets the copy that was removed.
    pub fn forget_first(&mut self)
        ensures
            final(self)@ == if old(self)@.len() == 0 {
                old(self)@
            } else {
                old(self)@.drop_first()
            },
    {
        if self.published.len() > 0 {
            let _ = self.published.remove(0);
            assert(self@ =~= old(self)@.drop_first());
        }
    }
}

/// Why the attachment folder could not be changed.
#[derive(Debug)]
pub enum ChangeError {
    /// The file system or the archive refused.
    Failure(Failure),
    /// The folder lies in the cache.
    InsideCache,
    /// The task that copies broke down.
    TaskFailed,
}

impl ChangeError {
    /// What a user is told.
    pub open spec fn spec_message(self) -> Seq<char> {
        match self {
            ChangeError::Failure(failure) => failure.spec_message(),
            ChangeError::InsideCache => "Custom attachment folder cannot be inside the cache directory"@,
            ChangeError::TaskFailed => "Attachment copy task failed"@,
        }
    }

    /// What a user is told.
    pub fn message(&self) -> (res: String)
        ensures
            res@ == self.spec_message(),
            match self {
                ChangeError::Failure(failure) => res@ == failure.spec_message(),
                ChangeError::InsideCache => res@
                    == "Custom attachment folder cannot be inside the cache directory"@,
                ChangeError::TaskFailed => res@
                    == "Attachment copy task failed"@,
            },
    {
        match self {
            ChangeError::Failure(failure) => failure.message(),
            ChangeError::InsideCache => "Custom attachment folder cannot be inside the cache directory".to_owned(),
            ChangeError::TaskFailed => "Attachment copy task failed".to_owned(),
        }
    }
}

/// The attachment folder after a change: the custom folder, if it is one, and
/// where each attachment is now.
#[derive(Debug)]
pub struct Changed {
    pub custom: Option<FilePath>,
    pub paths: Relocations,
}

/// What a [`Changed`] holds.
pub ghost struct ChangedView {
    pub custom: Option<Seq<u8>>,
    pub paths: Seq<Relocation<Seq<u8>>>,
}

impl DeepView for Changed {
    type V = ChangedView;

    open spec fn deep_view(&self) -> ChangedView {
        ChangedView { custom: self.custom.deep_view(), paths: self.paths@ }
    }
}

/// What a change has come to, with `C` for a success.
#[derive(Debug)]
pub enum Outcome<C> {
    Changed(C),
    Failed(ChangeError),
}

impl DeepView for Outcome<Changed> {
    type V = Outcome<ChangedView>;

    open spec fn deep_view(&self) -> Outcome<ChangedView> {
        match self {
            Outcome::Changed(changed) => Outcome::Changed(changed.deep_view()),
            Outcome::Failed(error) => Outcome::Failed(*error),
        }
    }
}

/// A change that is copying, as [`WorkView`] describes it.
#[derive(Debug)]
struct Work {
    custom: bool,
    dir: FilePath,
    rows: Vec<Row<FilePath>>,
    updates: Vec<Update<FilePath>>,
    paths: Relocations,
    copies: Copies,
}

/// What a change that is copying has come to.
pub ghost struct WorkView {
    /// Whether `dir` is a custom folder.
    pub custom: bool,
    pub dir: Seq<u8>,
    /// The attachments that are still to come.
    pub rows: Seq<Row<Seq<u8>>>,
    pub updates: Seq<Update<Seq<u8>>>,
    pub paths: Seq<Relocation<Seq<u8>>>,
    pub copies: Seq<Seq<u8>>,
}

impl DeepView for Work {
    type V = WorkView;

    closed spec fn deep_view(&self) -> WorkView {
        WorkView {
            custom: self.custom,
            dir: self.dir@,
            rows: self.rows.deep_view(),
            updates: self.updates.deep_view(),
            paths: self.paths@,
            copies: self.copies@,
        }
    }
}

/// How far a change is, as [`MediaDirChangeView`] describes it.
#[derive(Debug)]
enum Phase {
    AwaitCustom { dirs: AppDirs, chosen: FilePath, locator: Locator },
    AwaitDefault { dirs: AppDirs, chosen: FilePath, form: Option<FilePath>, locator: Locator },
    AwaitCreation { dirs: AppDirs, custom: bool, dir: FilePath },
    AwaitDir { dirs: AppDirs, custom: bool, dir: FilePath },
    AwaitBoundaryDir { dirs: AppDirs, dir: FilePath, locator: Locator },
    AwaitBoundaryCache { dirs: AppDirs, dir: FilePath, form: Option<FilePath>, locator: Locator },
    AwaitRows { custom: bool, dir: FilePath },
    AwaitProbe(Work),
    AwaitExistence { work: Work, row: Row<FilePath> },
    AwaitCopy { work: Work, row: Row<FilePath>, job: Copying },
    AwaitCommit(Work),
    AwaitRemoval { copies: Copies, outcome: Outcome<Changed> },
}

/// How far a change of the attachment folder is.
pub ghost enum MediaDirChangeView {
    /// Is the chosen folder the default one?
    AwaitCustom { dirs: Layout, chosen: Seq<u8>, locator: LocatorView },
    AwaitDefault { dirs: Layout, chosen: Seq<u8>, form: Option<Seq<u8>>, locator: LocatorView },
    /// The folder has to be there.
    AwaitCreation { dirs: Layout, custom: bool, dir: Seq<u8> },
    /// Links and `..` are resolved before the cache boundary is checked.
    AwaitDir { dirs: Layout, custom: bool, dir: Seq<u8> },
    /// Does a custom folder lie in the cache?
    AwaitBoundaryDir { dirs: Layout, dir: Seq<u8>, locator: LocatorView },
    AwaitBoundaryCache { dirs: Layout, dir: Seq<u8>, form: Option<Seq<u8>>, locator: LocatorView },
    /// Which attachments are there?
    AwaitRows { custom: bool, dir: Seq<u8> },
    /// Even an empty archive must not accept an unwritable directory.
    AwaitProbe(WorkView),
    /// Is the file of this attachment still there?
    AwaitExistence { work: WorkView, row: Row<Seq<u8>> },
    /// The file of this attachment is copied.
    AwaitCopy { work: WorkView, row: Row<Seq<u8>>, job: CopyingView },
    /// The archive learns all new paths at once.
    AwaitCommit(WorkView),
    /// The copies go, the outcome stays.
    AwaitRemoval { copies: Seq<Seq<u8>>, outcome: Outcome<ChangedView> },
}

impl DeepView for Phase {
    type V = MediaDirChangeView;

    closed spec fn deep_view(&self) -> MediaDirChangeView {
        match self {
            Phase::AwaitCustom { dirs, chosen, locator } => MediaDirChangeView::AwaitCustom {
                dirs: dirs@,
                chosen: chosen@,
                locator: locator.deep_view(),
            },
            Phase::AwaitDefault { dirs, chosen, form, locator } => MediaDirChangeView::AwaitDefault {
                dirs: dirs@,
                chosen: chosen@,
                form: form.deep_view(),
                locator: locator.deep_view(),
            },
            Phase::AwaitCreation { dirs, custom, dir } => MediaDirChangeView::AwaitCreation {
                dirs: dirs@,
                custom: *custom,
                dir: dir@,
            },
            Phase::AwaitDir { dirs, custom, dir } => MediaDirChangeView::AwaitDir {
                dirs: dirs@,
                custom: *custom,
                dir: dir@,
            },
            Phase::AwaitBoundaryDir { dirs, dir, locator } => MediaDirChangeView::AwaitBoundaryDir {
                dirs: dirs@,
                dir: dir@,
                locator: locator.deep_view(),
            },
            Phase::AwaitBoundaryCache {
                dirs,
                dir,
                form,
                locator,
            } => MediaDirChangeView::AwaitBoundaryCache {
                dirs: dirs@,
                dir: dir@,
                form: form.deep_view(),
                locator: locator.deep_view(),
            },
            Phase::AwaitRows { custom, dir } => MediaDirChangeView::AwaitRows {
                custom: *custom,
                dir: dir@,
            },
            Phase::AwaitProbe(work) => MediaDirChangeView::AwaitProbe(work.deep_view()),
            Phase::AwaitExistence { work, row } => MediaDirChangeView::AwaitExistence {
                work: work.deep_view(),
                row: row.deep_view(),
            },
            Phase::AwaitCopy { work, row, job } => MediaDirChangeView::AwaitCopy {
                work: work.deep_view(),
                row: row.deep_view(),
                job: job.deep_view(),
            },
            Phase::AwaitCommit(work) => MediaDirChangeView::AwaitCommit(work.deep_view()),
            Phase::AwaitRemoval { copies, outcome } => MediaDirChangeView::AwaitRemoval {
                copies: copies@,
                outcome: outcome.deep_view(),
            },
        }
    }
}

/// The job of changing the attachment folder: all known attachments are copied
/// to it, then the archive learns their new paths.
#[derive(Debug)]
pub struct MediaDirChange {
    phase: Phase,
}

impl DeepView for MediaDirChange {
    type V = MediaDirChangeView;

    closed spec fn deep_view(&self) -> MediaDirChangeView {
        self.phase.deep_view()
    }
}

/// Where a change stands after a reply.
pub type MediaDirChangeStep = Step<MediaDirChangeView, ChangedView, ChangeError>;

/// Ends with an outcome once the copies are removed.
pub open spec fn wind_up(copies: Seq<Seq<u8>>, outcome: Outcome<ChangedView>) -> MediaDirChangeStep {
    if copies.len() > 0 {
        Step::Ask(MediaDirChangeView::AwaitRemoval { copies, outcome })
    } else {
        match outcome {
            Outcome::Changed(changed) => Step::Done(changed),
            Outcome::Failed(error) => Step::Failed(error),
        }
    }
}

/// What a path was located as, if it was.
pub open spec fn found(end: LocatorStep) -> Option<Seq<u8>> {
    match end {
        Step::Done(p) => Some(p),
        _ => None,
    }
}

impl WorkView {
    /// Copying, before the first attachment.
    pub open spec fn start(custom: bool, dir: Seq<u8>, rows: Seq<Row<Seq<u8>>>) -> WorkView {
        WorkView {
            custom,
            dir,
            rows,
            updates: Seq::empty(),
            paths: Seq::empty(),
            copies: Seq::empty(),
        }
    }

    /// The path of `row` is known.
    pub open spec fn with_update(self, row: Row<Seq<u8>>, replacement: Option<Seq<u8>>) -> WorkView {
        WorkView {
            updates: self.updates.push(Update { chat: row.chat, id: row.id, replacement }),
            ..self
        }
    }

    /// The path of `row`, and of every later row with the same file, is known.
    pub open spec fn with_path(self, row: Row<Seq<u8>>, replacement: Option<Seq<u8>>) -> WorkView {
        WorkView {
            paths: self.paths.push(Relocation { source: row.source, replacement }),
            ..self.with_update(row, replacement)
        }
    }

    /// Without the attachment that is next.
    pub open spec fn without_first(self) -> WorkView {
        WorkView { rows: self.rows.drop_first(), ..self }
    }

    /// Goes on to the next attachment whose file has not been seen yet.
    pub open spec fn proceed(self) -> MediaDirChangeStep
        decreases self.rows.len(),
    {
        if self.rows.len() == 0 {
            Step::Ask(MediaDirChangeView::AwaitCommit(self))
        } else {
            let row = self.rows[0];
            match relocations::find(self.paths, row.source) {
                Some(replacement) => self.without_first().with_update(row, replacement).proceed(),
                None => Step::Ask(
                    MediaDirChangeView::AwaitExistence { work: self.without_first(), row },
                ),
            }
        }
    }

    /// Where the change stands when copying the file of `row` stands at `step`.
    pub open spec fn while_copying(
        self,
        row: Row<Seq<u8>>,
        step: Step<CopyingView, Copied<Seq<u8>>, Failure>,
    ) -> MediaDirChangeStep {
        match step {
            Step::Ask(job) => Step::Ask(MediaDirChangeView::AwaitCopy { work: self, row, job }),
            Step::Done(copy) => WorkView {
                copies: with_copy(self.copies, copy),
                ..self
            }.with_path(row, Some(copy.path)).proceed(),
            Step::Failed(f) => self.fail(ChangeError::Failure(f)),
        }
    }

    /// Gives up.
    pub open spec fn fail(self, error: ChangeError) -> MediaDirChangeStep {
        wind_up(self.copies, Outcome::Failed(error))
    }

    /// The folder after the change.
    pub open spec fn changed(self) -> ChangedView {
        ChangedView {
            custom: if self.custom {
                Some(self.dir)
            } else {
                None
            },
            paths: self.paths,
        }
    }
}

impl MediaDirChangeView {
    /// The job of changing to a custom folder, or to the default one.
    pub open spec fn start(dirs: Layout, custom: Option<Seq<u8>>) -> MediaDirChangeView {
        match custom {
            Some(chosen) => MediaDirChangeView::AwaitCustom {
                dirs,
                chosen,
                locator: LocatorView::start(chosen),
            },
            None => MediaDirChangeView::AwaitCreation {
                dirs,
                custom: false,
                dir: dirs.media_cache_dir(),
            },
        }
    }

    pub open spec fn request(self) -> Request<Seq<u8>> {
        match self {
            MediaDirChangeView::AwaitCustom { locator, .. } => locator.request(),
            MediaDirChangeView::AwaitDefault { locator, .. } => locator.request(),
            MediaDirChangeView::AwaitCreation { dir, .. } => Request::CreateDirAll(dir),
            MediaDirChangeView::AwaitDir { dir, .. } => Request::Canonicalize(dir),
            MediaDirChangeView::AwaitBoundaryDir { locator, .. } => locator.request(),
            MediaDirChangeView::AwaitBoundaryCache { locator, .. } => locator.request(),
            MediaDirChangeView::AwaitRows { .. } => Request::LoadRows,
            MediaDirChangeView::AwaitProbe(work) => Request::Probe(work.dir),
            MediaDirChangeView::AwaitExistence { row, .. } => Request::TryExists(row.source),
            MediaDirChangeView::AwaitCopy { job, .. } => job.request(),
            MediaDirChangeView::AwaitCommit(_) => Request::CommitRows,
            MediaDirChangeView::AwaitRemoval { copies, .. } => Request::Remove(copies[0]),
        }
    }

    /// What follows when locating the chosen folder stands at `step`.
    pub open spec fn while_locating_custom(
        dirs: Layout,
        chosen: Seq<u8>,
        step: LocatorStep,
    ) -> MediaDirChangeView {
        match step {
            Step::Ask(locator) => MediaDirChangeView::AwaitCustom { dirs, chosen, locator },
            end => MediaDirChangeView::AwaitDefault {
                dirs,
                chosen,
                form: found(end),
                locator: LocatorView::start(dirs.media_cache_dir()),
            },
        }
    }

    /// What follows when locating the default folder stands at `step`: once both
    /// are located, the default one is no custom folder.
    pub open spec fn while_locating_default(
        dirs: Layout,
        chosen: Seq<u8>,
        form: Option<Seq<u8>>,
        step: LocatorStep,
    ) -> MediaDirChangeView {
        match step {
            Step::Ask(locator) => MediaDirChangeView::AwaitDefault { dirs, chosen, form, locator },
            end => if paths::resolves_to(chosen, dirs.media_cache_dir(), form, found(end)) {
                MediaDirChangeView::start(dirs, None)
            } else {
                MediaDirChangeView::AwaitCreation { dirs, custom: true, dir: chosen }
            },
        }
    }

    /// What follows when locating a custom folder stands at `step`.
    pub open spec fn while_locating_dir(
        dirs: Layout,
        dir: Seq<u8>,
        step: LocatorStep,
    ) -> MediaDirChangeView {
        match step {
            Step::Ask(locator) => MediaDirChangeView::AwaitBoundaryDir { dirs, dir, locator },
            end => MediaDirChangeView::AwaitBoundaryCache {
                dirs,
                dir,
                form: found(end),
                locator: LocatorView::start(dirs.cache),
            },
        }
    }

    /// What follows when locating the cache stands at `step`: once both are
    /// located, a folder in the cache is refused.
    pub open spec fn while_locating_cache(
        dirs: Layout,
        dir: Seq<u8>,
        form: Option<Seq<u8>>,
        step: LocatorStep,
    ) -> MediaDirChangeStep {
        match step {
            Step::Ask(locator) => Step::Ask(
                MediaDirChangeView::AwaitBoundaryCache { dirs, dir, form, locator },
            ),
            end => if paths::is_subpath(dir, dirs.cache, form, found(end)) {
                Step::Failed(ChangeError::InsideCache)
            } else {
                Step::Ask(MediaDirChangeView::AwaitRows { custom: true, dir })
            },
        }
    }

    /// What follows a reply, with `n` for the next name where one is taken. A
    /// reply that does not fit the request changes nothing.
    pub open spec fn resume(self, reply: AnswerView, n: u64) -> MediaDirChangeStep {
        match (self, reply) {
            (MediaDirChangeView::AwaitCustom { dirs, chosen, locator }, _) => Step::Ask(
                Self::while_locating_custom(dirs, chosen, locator.resume(reply)),
            ),
            (MediaDirChangeView::AwaitDefault { dirs, chosen, form, locator }, _) => Step::Ask(
                Self::while_locating_default(dirs, chosen, form, locator.resume(reply)),
            ),
            (
                MediaDirChangeView::AwaitCreation { dirs, custom, dir },
                Reply::Done,
            ) => Step::Ask(MediaDirChangeView::AwaitDir { dirs, custom, dir }),
            (MediaDirChangeView::AwaitCreation { .. }, Reply::Failed(f)) => Step::Failed(
                ChangeError::Failure(f),
            ),
            (MediaDirChangeView::AwaitDir { dirs, custom, .. }, Reply::Path(p)) => Step::Ask(
                if custom {
                    MediaDirChangeView::AwaitBoundaryDir {
                        dirs,
                        dir: p,
                        locator: LocatorView::start(p),
                    }
                } else {
                    MediaDirChangeView::AwaitRows { custom: false, dir: p }
                },
            ),
            (MediaDirChangeView::AwaitDir { .. }, Reply::Failed(f)) => Step::Failed(
                ChangeError::Failure(f),
            ),
            (MediaDirChangeView::AwaitBoundaryDir { dirs, dir, locator }, _) => Step::Ask(
                Self::while_locating_dir(dirs, dir, locator.resume(reply)),
            ),
            (
                MediaDirChangeView::AwaitBoundaryCache { dirs, dir, form, locator },
                _,
            ) => Self::while_locating_cache(dirs, dir, form, locator.resume(reply)),
            (MediaDirChangeView::AwaitRows { custom, dir }, Reply::Rows(rows)) => Step::Ask(
                MediaDirChangeView::AwaitProbe(WorkView::start(custom, dir, rows)),
            ),
            (MediaDirChangeView::AwaitRows { .. }, Reply::Failed(f)) => Step::Failed(
                ChangeError::Failure(f),
            ),
            (MediaDirChangeView::AwaitProbe(work), Reply::Done) => work.proceed(),
            (MediaDirChangeView::AwaitProbe(work), Reply::Failed(f)) => work.fail(
                ChangeError::Failure(f),
            ),
            (MediaDirChangeView::AwaitProbe(work), Reply::TaskFailed) => work.fail(
                ChangeError::TaskFailed,
            ),
            (MediaDirChangeView::AwaitExistence { work, row }, Reply::Flag(there)) => if there {
                work.while_copying(row, CopyingView::start(row.source, work.dir))
            } else {
                work.with_path(row, None).proceed()
            },
            (MediaDirChangeView::AwaitExistence { work, .. }, Reply::Failed(f)) => work.fail(
                ChangeError::Failure(f),
            ),
            (MediaDirChangeView::AwaitExistence { work, .. }, Reply::TaskFailed) => work.fail(
                ChangeError::TaskFailed,
            ),
            (MediaDirChangeView::AwaitCopy { work, .. }, Reply::TaskFailed) => work.fail(
                ChangeError::TaskFailed,
            ),
            (MediaDirChangeView::AwaitCopy { work, row, job }, _) => work.while_copying(
                row,
                job.resume(reply, n),
            ),
            (MediaDirChangeView::AwaitCommit(work), Reply::Done) => wind_up(
                Seq::empty(),
                Outcome::Changed(work.changed()),
            ),
            (MediaDirChangeView::AwaitCommit(work), Reply::Failed(f)) => work.fail(
                ChangeError::Failure(f),
            ),
            (MediaDirChangeView::AwaitRemoval { copies, outcome }, _) => wind_up(
                copies.drop_first(),
                outcome,
            ),
            _ => Step::Ask(self),
        }
    }

    /// Whether the file that is being looked for or copied has not been seen
    /// before, and whether there is a copy to remove.
    pub open spec fn is_sound(self) -> bool {
        match self {
            MediaDirChangeView::AwaitExistence { work, row } => relocations::find(
                work.paths,
                row.source,
            ) is None,
            MediaDirChangeView::AwaitCopy { work, row, .. } => relocations::find(
                work.paths,
                row.source,
            ) is None,
            MediaDirChangeView::AwaitRemoval { copies, .. } => copies.len() > 0,
            _ => true,
        }
    }
}

proof fn lemma_proceed_is_sound(work: WorkView)
    ensures
        work.proceed() matches Step::Ask(next) ==> next.is_sound(),
    decreases work.rows.len(),
{
    if work.rows.len() > 0 {
        let row = work.rows[0];
        if let Some(replacement) = relocations::find(work.paths, row.source) {
            lemma_proceed_is_sound(work.without_first().with_update(row, replacement));
        }
    }
}

proof fn lemma_resume_is_sound(job: MediaDirChangeView, reply: AnswerView, n: u64)
    requires
        job.is_sound(),
    ensures
        job.resume(reply, n) matches Step::Ask(next) ==> next.is_sound(),
{
    match job {
        MediaDirChangeView::AwaitProbe(work) => {
            lemma_proceed_is_sound(work);
        },
        MediaDirChangeView::AwaitExistence { work, row } => {
            lemma_proceed_is_sound(work.with_path(row, None));
        },
        MediaDirChangeView::AwaitCopy { work, row, job } => {
            if let Step::Done(copy) = job.resume(reply, n) {
                lemma_proceed_is_sound(
                    WorkView { copies: with_copy(work.copies, copy), ..work }.with_path(
                        row,
                        Some(copy.path),
                    ),
                );
            }
        },
        _ => {},
    }
}

fn finish(copies: Copies, outcome: Outcome<Changed>) -> (res: Step<Phase, Changed, ChangeError>)
    ensures
        res.deep_view() == wind_up(copies@, outcome.deep_view()),
{
    if copies.first().is_some() {
        Step::Ask(Phase::AwaitRemoval { copies, outcome })
    } else {
        match outcome {
            Outcome::Changed(changed) => Step::Done(changed),
            Outcome::Failed(error) => Step::Failed(error),
        }
    }
}

fn proceed(work: Work) -> (res: Step<Phase, Changed, ChangeError>)
    ensures
        res.deep_view() == work.deep_view().proceed(),
{
    let ghost outcome = work.deep_view().proceed();
    let mut work = work;
    #[verifier::loop_isolation(false)]
    while work.rows.len() > 0
        invariant
            outcome == work.deep_view().proceed(),
        decreases work.rows@.len(),
    {
        let ghost before = work.deep_view();
        let row = work.rows.remove(0);
        assert(before.rows[0] == row.deep_view());
        assert(work.rows.deep_view() =~= before.rows.drop_first());
        match work.paths.find(&row.source) {
            Some(replacement) => {
                let ghost shared = replacement.deep_view();
                work.updates.push(Update { chat: row.chat, id: row.id, replacement });
                assert(work.updates.deep_view() =~= before.updates.push(
                    Update { chat: row.chat, id: row.id, replacement: shared },
                ));
                assert(work.deep_view() == before.without_first().with_update(
                    row.deep_view(),
                    shared,
                ));
            },
            None => {
                assert(work.deep_view() == before.without_first());
                return Step::Ask(Phase::AwaitExistence { work, row });
            },
        }
    }
    Step::Ask(Phase::AwaitCommit(work))
}

/// Where `row` is found now is known: goes on to the next attachment.
fn proceed_with(work: Work, row: Row<FilePath>, replacement: Option<FilePath>) -> (res: Step<
    Phase,
    Changed,
    ChangeError,
>)
    requires
        relocations::find(work.paths@, row.source@) is None,
    ensures
        res.deep_view() == work.deep_view().with_path(
            row.deep_view(),
            replacement.deep_view(),
        ).proceed(),
{
    let ghost before = work.deep_view();
    let ghost found = replacement.deep_view();
    let Work { custom, dir, rows, mut updates, paths, copies } = work;
    let shared = match &replacement {
        Some(path) => Some(path.clone()),
        None => None,
    };
    let ghost update = Update { chat: row.chat, id: row.id, replacement: found };
    updates.push(Update { chat: row.chat, id: row.id, replacement: shared });
    assert(updates.deep_view() =~= before.updates.push(update));
    let paths = paths.with(row.source, replacement);
    let work = Work { custom, dir, rows, updates, paths, copies };
    assert(work.deep_view() == before.with_path(row.deep_view(), found));
    proceed(work)
}

fn while_copying(
    work: Work,
    row: Row<FilePath>,
    step: Step<Copying, Copied<FilePath>, Failure>,
) -> (res: Step<Phase, Changed, ChangeError>)
    requires
        relocations::find(work.paths@, row.source@) is None,
    ensures
        res.deep_view() == work.deep_view().while_copying(row.deep_view(), step.deep_view()),
{
    match step {
        Step::Ask(job) => Step::Ask(Phase::AwaitCopy { work, row, job }),
        Step::Done(copy) => {
            let mut work = work;
            work.copies.note(&copy);
            proceed_with(work, row, Some(copy.path))
        },
        Step::Failed(f) => finish(work.copies, Outcome::Failed(ChangeError::Failure(f))),
    }
}

fn locate_custom(
    dirs: AppDirs,
    chosen: FilePath,
    step: Step<Locator, FilePath, Failure>,
) -> (res: Phase)
    ensures
        res.deep_view() == MediaDirChangeView::while_locating_custom(
            dirs@,
            chosen@,
            step.deep_view(),
        ),
{
    let form = match step {
        Step::Ask(locator) => return Phase::AwaitCustom { dirs, chosen, locator },
        Step::Done(p) => Some(p),
        Step::Failed(_) => None,
    };
    let locator = Locator::start(dirs.media_cache_dir());
    Phase::AwaitDefault { dirs, chosen, form, locator }
}

fn locate_default(
    dirs: AppDirs,
    chosen: FilePath,
    form: Option<FilePath>,
    step: Step<Locator, FilePath, Failure>,
) -> (res: Phase)
    ensures
        res.deep_view() == MediaDirChangeView::while_locating_default(
            dirs@,
            chosen@,
            form.deep_view(),
            step.deep_view(),
        ),
{
    let default_form = match step {
        Step::Ask(locator) => return Phase::AwaitDefault { dirs, chosen, form, locator },
        Step::Done(p) => Some(p),
        Step::Failed(_) => None,
    };
    if dirs.is_default_media_dir(&chosen, &form, &default_form) {
        let dir = dirs.media_cache_dir();
        Phase::AwaitCreation { dirs, custom: false, dir }
    } else {
        Phase::AwaitCreation { dirs, custom: true, dir: chosen }
    }
}

fn locate_dir(
    dirs: AppDirs,
    dir: FilePath,
    step: Step<Locator, FilePath, Failure>,
) -> (res: Phase)
    ensures
        res.deep_view() == MediaDirChangeView::while_locating_dir(dirs@, dir@, step.deep_view()),
{
    let form = match step {
        Step::Ask(locator) => return Phase::AwaitBoundaryDir { dirs, dir, locator },
        Step::Done(p) => Some(p),
        Step::Failed(_) => None,
    };
    let locator = Locator::start(dirs.cache.clone());
    Phase::AwaitBoundaryCache { dirs, dir, form, locator }
}

fn locate_cache(
    dirs: AppDirs,
    dir: FilePath,
    form: Option<FilePath>,
    step: Step<Locator, FilePath, Failure>,
) -> (res: Step<Phase, Changed, ChangeError>)
    ensures
        res.deep_view() == MediaDirChangeView::while_locating_cache(
            dirs@,
            dir@,
            form.deep_view(),
            step.deep_view(),
        ),
{
    let cache_form = match step {
        Step::Ask(locator) => return Step::Ask(
            Phase::AwaitBoundaryCache { dirs, dir, form, locator },
        ),
        Step::Done(p) => Some(p),
        Step::Failed(_) => None,
    };
    if dirs.is_cache_path(&dir, &form, &cache_form) {
        Step::Failed(ChangeError::InsideCache)
    } else {
        Step::Ask(Phase::AwaitRows { custom: true, dir })
    }
}

fn start_work(custom: bool, dir: FilePath, rows: Vec<Row<FilePath>>) -> (res: Work)
    ensures
        res.deep_view() == WorkView::start(custom, dir@, rows.deep_view()),
{
    let updates: Vec<Update<FilePath>> = Vec::new();
    assert(updates.deep_view() =~= Seq::empty());
    Work { custom, dir, rows, updates, paths: Relocations::new(), copies: Copies::new() }
}

fn commit(work: Work) -> (res: Step<Phase, Changed, ChangeError>)
    ensures
        res.deep_view() == wind_up(Seq::empty(), Outcome::Changed(work.deep_view().changed())),
{
    let Work { custom, dir, paths, mut copies, .. } = work;
    copies.keep();
    let custom = if custom {
        Some(dir)
    } else {
        None
    };
    finish(copies, Outcome::Changed(Changed { custom, paths }))
}

impl Phase {
    fn resume(self, reply: Answer, n: u64) -> (res: Step<Phase, Changed, ChangeError>)
        requires
            self.deep_view().is_sound(),
        ensures
            res.deep_view() == self.deep_view().resume(reply.deep_view(), n),
    {
        match self {
            Phase::AwaitCustom { dirs, chosen, locator } => Step::Ask(
                locate_custom(dirs, chosen, locator.resume(reply)),
            ),
            Phase::AwaitDefault { dirs, chosen, form, locator } => Step::Ask(
                locate_default(dirs, chosen, form, locator.resume(reply)),
            ),
            Phase::AwaitCreation { dirs, custom, dir } => match reply {
                Reply::Done => Step::Ask(Phase::AwaitDir { dirs, custom, dir }),
                Reply::Failed(f) => Step::Failed(ChangeError::Failure(f)),
                _ => Step::Ask(Phase::AwaitCreation { dirs, custom, dir }),
            },
            Phase::AwaitDir { dirs, custom, dir } => match reply {
                Reply::Path(p) => Step::Ask(
                    if custom {
                        let locator = Locator::start(p.clone());
                        Phase::AwaitBoundaryDir { dirs, dir: p, locator }
                    } else {
                        Phase::AwaitRows { custom: false, dir: p }
                    },
                ),
                Reply::Failed(f) => Step::Failed(ChangeError::Failure(f)),
                _ => Step::Ask(Phase::AwaitDir { dirs, custom, dir }),
            },
            Phase::AwaitBoundaryDir { dirs, dir, locator } => Step::Ask(
                locate_dir(dirs, dir, locator.resume(reply)),
            ),
            Phase::AwaitBoundaryCache { dirs, dir, form, locator } => locate_cache(
                dirs,
                dir,
                form,
                locator.resume(reply),
            ),
            Phase::AwaitRows { custom, dir } => match reply {
                Reply::Rows(rows) => Step::Ask(Phase::AwaitProbe(start_work(custom, dir, rows))),
                Reply::Failed(f) => Step::Failed(ChangeError::Failure(f)),
                _ => Step::Ask(Phase::AwaitRows { custom, dir }),
            },
            Phase::AwaitProbe(work) => match reply {
                Reply::Done => proceed(work),
                Reply::Failed(f) => finish(work.copies, Outcome::Failed(ChangeError::Failure(f))),
                Reply::TaskFailed => finish(work.copies, Outcome::Failed(ChangeError::TaskFailed)),
                _ => Step::Ask(Phase::AwaitProbe(work)),
            },
            Phase::AwaitExistence { work, row } => match reply {
                Reply::Flag(true) => {
                    let step = Copying::start(&row.source, &work.dir);
                    while_copying(work, row, step)
                },
                Reply::Flag(false) => proceed_with(work, row, None),
                Reply::Failed(f) => finish(work.copies, Outcome::Failed(ChangeError::Failure(f))),
                Reply::TaskFailed => finish(work.copies, Outcome::Failed(ChangeError::TaskFailed)),
                _ => Step::Ask(Phase::AwaitExistence { work, row }),
            },
            Phase::AwaitCopy { work, row, job } => match reply {
                Reply::TaskFailed => finish(work.copies, Outcome::Failed(ChangeError::TaskFailed)),
                reply => while_copying(work, row, job.resume_with(reply, n)),
            },
            Phase::AwaitCommit(work) => match reply {
                Reply::Done => commit(work),
                Reply::Failed(f) => finish(work.copies, Outcome::Failed(ChangeError::Failure(f))),
                _ => Step::Ask(Phase::AwaitCommit(work)),
            },
            Phase::AwaitRemoval { mut copies, outcome } => {
                copies.forget_first();
                finish(copies, outcome)
            },
        }
    }
}

impl MediaDirChange {
    #[verifier::type_invariant]
    spec fn holds(self) -> bool {
        self.deep_view().is_sound()
    }

    /// The job of changing to a custom folder, or to the default one.
    pub fn start(dirs: AppDirs, custom: Option<FilePath>) -> (res: MediaDirChange)
        ensures
            res.deep_view() == MediaDirChangeView::start(dirs@, custom.deep_view()),
    {
        let phase = match custom {
            Some(chosen) => {
                let locator = Locator::start(chosen.clone());
                Phase::AwaitCustom { dirs, chosen, locator }
            },
            None => {
                let dir = dirs.media_cache_dir();
                Phase::AwaitCreation { dirs, custom: false, dir }
            },
        };
        MediaDirChange { phase }
    }

    /// What to do next.
    pub fn request(&self) -> (res: Request<FilePath>)
        ensures
            res.deep_view() == self.deep_view().request(),
    {
        proof {
            use_type_invariant(self);
        }
        match &self.phase {
            Phase::AwaitCustom { locator, .. } => locator.request(),
            Phase::AwaitDefault { locator, .. } => locator.request(),
            Phase::AwaitCreation { dir, .. } => Request::CreateDirAll(dir.clone()),
            Phase::AwaitDir { dir, .. } => Request::Canonicalize(dir.clone()),
            Phase::AwaitBoundaryDir { locator, .. } => locator.request(),
            Phase::AwaitBoundaryCache { locator, .. } => locator.request(),
            Phase::AwaitRows { .. } => Request::LoadRows,
            Phase::AwaitProbe(work) => Request::Probe(work.dir.clone()),
            Phase::AwaitExistence { row, .. } => Request::TryExists(row.source.clone()),
            Phase::AwaitCopy { job, .. } => job.request(),
            Phase::AwaitCommit(_) => Request::CommitRows,
            Phase::AwaitRemoval { copies, .. } => Request::Remove(copies.first().unwrap()),
        }
    }

    /// The new paths for the archive, once they are asked to be written to it.
    pub fn updates(&self) -> (res: Option<&Vec<Update<FilePath>>>)
        ensures
            match self.deep_view() {
                MediaDirChangeView::AwaitCommit(work) => res matches Some(updates)
                    && updates.deep_view() == work.updates,
                _ => res is None,
            },
    {
        match &self.phase {
            Phase::AwaitCommit(work) => Some(&work.updates),
            _ => None,
        }
    }

    /// Goes on with the reply to the request.
    pub fn resume(self, reply: Answer) -> (res: Step<MediaDirChange, Changed, ChangeError>)
        ensures
            exists|n: u64|
                res.deep_view() == #[trigger] self.deep_view().resume(reply.deep_view(), n),
    {
        let n = number_after(&reply);
        let res = self.resume_with(reply, n);
        assert(res.deep_view() == self.deep_view().resume(reply.deep_view(), n));
        res
    }

    /// Goes on with the reply to the request, with `n` for the next name where
    /// one is taken.
    pub fn resume_with(self, reply: Answer, n: u64) -> (res: Step<
        MediaDirChange,
        Changed,
        ChangeError,
    >)
        ensures
            res.deep_view() == self.deep_view().resume(reply.deep_view(), n),
    {
        proof {
            use_type_invariant(&self);
            lemma_resume_is_sound(self.deep_view(), reply.deep_view(), n);
        }
        match self.phase.resume(reply, n) {
            Step::Ask(phase) => Step::Ask(MediaDirChange { phase }),
            Step::Done(changed) => Step::Done(changed),
            Step::Failed(error) => Step::Failed(error),
        }
    }
}

} // verus!
