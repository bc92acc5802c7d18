//! Doing the same again changes nothing.

use vstd::prelude::*;
use crate::canonical_laws;
use crate::change_laws;
use crate::copying;
use crate::copying::CopyingView;
use crate::disk::{Disk, Place};
use crate::io::{AnswerView, Failure, Reply, Request, Row, Step};
use crate::locate;
use crate::locate::LocatorView;
use crate::media_storage;
use crate::media_storage::{
    ChangeError, ChangedView, MediaDirChangeStep, MediaDirChangeView, Outcome, Update, WorkView,
};
use crate::path;
use crate::paths;
use crate::paths::Layout;
use crate::relocations;
use crate::relocations::Relocation;
use crate::resolve::FileSystem;
use crate::store_laws;
use crate::store_laws::{ChangeMoment, KeepingMoment};
use crate::worker;
use crate::worker::KeepingView;

verus! {

/// Whether a file is in a folder: the directory above it and the folder have the
/// same canonical form.
pub open spec fn is_at_home(fs: FileSystem, p: Seq<u8>, dir: Seq<u8>) -> bool {
    &&& path::file_name(p) is Some
    &&& (fs.canonical)(path::popped(p)) matches Ok(above)
    &&& (fs.canonical)(dir) matches Ok(folder)
    &&& path::same_path(above, folder)
}

/// What a job that copies has been told agrees with the canonical forms.
spec fn is_well_told(fs: FileSystem, job: CopyingView, source: Seq<u8>, dir: Seq<u8>) -> bool {
    &&& copying::is_about(job, source, dir)
    &&& match job {
        CopyingView::AwaitParent { .. } => true,
        CopyingView::AwaitDir { found, .. } => match found {
            Some(above) => (fs.canonical)(path::popped(source)) == Ok::<Seq<u8>, Failure>(above),
            None => (fs.canonical)(path::popped(source)) is Err,
        },
        _ => (fs.canonical)(dir) is Ok,
    }
}

proof fn lemma_copy_is_at_home(
    fs: FileSystem,
    job: CopyingView,
    source: Seq<u8>,
    dir: Seq<u8>,
    reply: AnswerView,
    n: u64,
)
    requires
        fs.is_orderly(),
        is_well_told(fs, job, source, dir),
        fs.agrees_with(job.request(), reply),
    ensures
        match job.resume(reply, n) {
            Step::Ask(next) => is_well_told(fs, next, source, dir),
            Step::Done(copy) => is_at_home(fs, copy.path, dir),
            Step::Failed(_) => true,
        },
{
    copying::law_copying_stays_about(job, source, dir, reply, n);
    copying::law_copy_is_in_the_folder(job, source, dir, reply, n);
    path::law_parent_and_file_name(source);
    if let Step::Done(copy) = job.resume(reply, n) {
        if copy.is_new {
            path::law_parent_and_file_name(copy.path);
            path::law_parent(copy.path);
            canonical_laws::lemma_parent_is_trimmed(copy.path);
            canonical_laws::lemma_spelling(fs, dir, path::popped(copy.path));
        }
    }
}

/// A file that is in the folder is not copied.
spec fn is_only_looking(fs: FileSystem, job: CopyingView, source: Seq<u8>, dir: Seq<u8>) -> bool {
    &&& is_well_told(fs, job, source, dir)
    &&& job is AwaitParent || job is AwaitDir
}

proof fn lemma_copy_at_home(
    fs: FileSystem,
    job: CopyingView,
    source: Seq<u8>,
    dir: Seq<u8>,
    reply: AnswerView,
    n: u64,
)
    requires
        is_at_home(fs, source, dir),
        is_only_looking(fs, job, source, dir),
        fs.agrees_with(job.request(), reply),
    ensures
        job.request().only_reads(),
        match job.resume(reply, n) {
            Step::Ask(next) => is_only_looking(fs, next, source, dir),
            Step::Done(copy) => !copy.is_new && copy.path == source,
            Step::Failed(_) => false,
        },
{
    copying::law_copying_stays_about(job, source, dir, reply, n);
}

/// Whether the job's request, carried out on the store and answered in agreement
/// with the file system, can lead from one moment to the next.
pub open spec fn keeping_follows_in(
    fs: FileSystem,
    now: KeepingMoment,
    next: KeepingMoment,
) -> bool {
    now.step matches Step::Ask(job) && exists|reply: AnswerView, n: u64|
        now.store.can_become(job.request(), None, reply, next.store) && next.step
            == #[trigger] job.resume(reply, n) && fs.agrees_with(job.request(), reply)
}

/// Whether `run` is what can happen when a late file is kept and the canonical
/// forms are those of `fs`.
pub open spec fn is_keeping_in(
    fs: FileSystem,
    run: Seq<KeepingMoment>,
    source: Seq<u8>,
    dirs: Layout,
) -> bool {
    &&& run.len() > 0
    &&& run[0].step == Step::<KeepingView, Seq<u8>, Failure>::Ask(KeepingView::start(source, dirs))
    &&& forall|i: int, j: int|
        0 <= i && j == i + 1 && j < run.len() ==> #[trigger] keeping_follows_in(
            fs,
            run[i],
            run[j],
        )
}

spec fn is_keeping_told(fs: FileSystem, now: KeepingMoment, source: Seq<u8>, dir: Seq<u8>) -> bool {
    match now.step {
        Step::Ask(KeepingView::AwaitDir { source: s, dir: d }) => s == source && d == dir,
        Step::Ask(KeepingView::AwaitCopy(job)) => is_well_told(fs, job, source, dir),
        Step::Done(p) => is_at_home(fs, p, dir),
        Step::Failed(_) => true,
    }
}

proof fn lemma_keeping_told(
    fs: FileSystem,
    run: Seq<KeepingMoment>,
    source: Seq<u8>,
    dirs: Layout,
    i: int,
)
    requires
        fs.is_orderly(),
        is_keeping_in(fs, run, source, dirs),
        0 <= i < run.len(),
    ensures
        is_keeping_told(fs, run[i], source, dirs.media_dir()),
    decreases i,
{
    if i > 0 {
        lemma_keeping_told(fs, run, source, dirs, i - 1);
        let now = run[i - 1];
        let next = run[i];
        let dir = dirs.media_dir();
        assert(keeping_follows_in(fs, run[i - 1], run[i]));
        let job = now.step->Ask_0;
        let (reply, n) = choose|reply: AnswerView, n: u64|
            now.store.can_become(job.request(), None, reply, next.store) && next.step
                == #[trigger] job.resume(reply, n) && fs.agrees_with(job.request(), reply);
        match job {
            KeepingView::AwaitDir { .. } => {
                copying::law_copying_stays_about(
                    CopyingView::AwaitStaging { source, name: source, dir },
                    source,
                    dir,
                    reply,
                    n,
                );
            },
            KeepingView::AwaitCopy(copy) => {
                lemma_copy_is_at_home(fs, copy, source, dir, reply, n);
            },
        }
    }
}

/// Whether nothing is new on a disk but directories.
pub open spec fn adds_no_files(first: Disk, later: Disk) -> bool {
    &&& first.is_kept_in(later)
    &&& forall|q: Place| #[trigger] later.has(q) && !first.has(q) ==> later.is_dir(q)
}

proof fn lemma_adds_no_files(first: Disk, now: Disk, next: Disk, p: Seq<u8>)
    requires
        adds_no_files(first, now),
        now.gains_dirs(next, p),
    ensures
        adds_no_files(first, next),
{
    assert forall|q: Place| #[trigger] first.has(q) implies next.has(q)
        && next.nodes[q] == first.nodes[q] by {
        assert(now.has(q));
    }
    assert forall|q: Place| #[trigger] next.has(q) && !first.has(q) implies next.is_dir(
        q,
    ) by {
        if now.has(q) {
            assert(now.is_dir(q));
        }
    }
}

spec fn is_kept_again(
    fs: FileSystem,
    first: Disk,
    now: KeepingMoment,
    p: Seq<u8>,
    dir: Seq<u8>,
) -> bool {
    &&& adds_no_files(first, now.store.disk)
    &&& match now.step {
        Step::Ask(KeepingView::AwaitDir { source: s, dir: d }) => s == p && d == dir,
        Step::Ask(KeepingView::AwaitCopy(job)) => is_only_looking(fs, job, p, dir),
        Step::Done(q) => q == p,
        Step::Failed(_) => true,
    }
}

proof fn lemma_kept_again(
    fs: FileSystem,
    run: Seq<KeepingMoment>,
    p: Seq<u8>,
    dirs: Layout,
    i: int,
)
    requires
        is_keeping_in(fs, run, p, dirs),
        is_at_home(fs, p, dirs.media_dir()),
        0 <= i < run.len(),
    ensures
        is_kept_again(fs, run[0].store.disk, run[i], p, dirs.media_dir()),
        i > 0 && run[i].step is Failed ==> run[i - 1].step matches Step::Ask(
            KeepingView::AwaitDir { .. },
        ),
    decreases i,
{
    if i > 0 {
        lemma_kept_again(fs, run, p, dirs, i - 1);
        let now = run[i - 1];
        let next = run[i];
        let dir = dirs.media_dir();
        assert(keeping_follows_in(fs, run[i - 1], run[i]));
        let job = now.step->Ask_0;
        let (reply, n) = choose|reply: AnswerView, n: u64|
            now.store.can_become(job.request(), None, reply, next.store) && next.step
                == #[trigger] job.resume(reply, n) && fs.agrees_with(job.request(), reply);
        match job {
            KeepingView::AwaitDir { .. } => {
                lemma_adds_no_files(run[0].store.disk, now.store.disk, next.store.disk, dir);
                copying::law_copying_starts(p, dir);
                copying::law_copying_stays_about(
                    CopyingView::AwaitStaging { source: p, name: p, dir },
                    p,
                    dir,
                    reply,
                    n,
                );
            },
            KeepingView::AwaitCopy(copy) => {
                lemma_copy_at_home(fs, copy, p, dir, reply, n);
            },
        }
    }
}

/// A kept file is in the attachment folder, as it was. Keeping it again gives the
/// same path and makes no file, and only that the folder cannot be had can fail
/// that.
pub proof fn law_kept_files_stay_where_they_are(
    fs: FileSystem,
    run: Seq<KeepingMoment>,
    again: Seq<KeepingMoment>,
    source: Seq<u8>,
    p: Seq<u8>,
    dirs: Layout,
)
    requires
        fs.is_orderly(),
        is_keeping_in(fs, run, source, dirs),
        run.last().step == Step::<KeepingView, Seq<u8>, Failure>::Done(p),
        is_keeping_in(fs, again, p, dirs),
        again[0].store.disk == run.last().store.disk,
    ensures
        is_at_home(fs, p, dirs.media_dir()),
        store_laws::has_copy(
            run[0].store.disk,
            again.last().store.disk,
            path::place(source),
            path::place(p),
        ),
        adds_no_files(again[0].store.disk, again.last().store.disk),
        again.last().step matches Step::Done(q) ==> q == p,
        again.len() > 1 && again.last().step is Failed ==> again[again.len() - 2].step matches Step::Ask(
            KeepingView::AwaitDir { .. },
        ),
{
    lemma_keeping_told(fs, run, source, dirs, run.len() - 1);
    lemma_kept_again(fs, again, p, dirs, again.len() - 1);
    assert(store_laws::is_keeping(run, source, dirs)) by {
        assert forall|i: int, j: int|
            0 <= i && j == i + 1 && j < run.len() implies #[trigger] store_laws::keeping_follows(
            run[i],
            run[j],
        ) by {
            assert(keeping_follows_in(fs, run[i], run[j]));
        }
    }
    store_laws::law_late_files_are_found_again(run, source, dirs);
    let middle = run.last().store.disk;
    let last = again.last().store.disk;
    assert forall|q: Place| #[trigger] run[0].store.disk.has(q) implies last.has(q) && last.nodes[q]
        == run[0].store.disk.nodes[q] by {
        assert(middle.has(q));
    }
    assert(middle.has(path::place(p)) ==> last.has(path::place(p)));
    assert(middle.has(path::place(source)) ==> last.has(path::place(source)));
}

/// Whether a folder that is wanted counts as a custom one.
pub open spec fn is_custom_choice(fs: FileSystem, dirs: Layout, wanted: Option<Seq<u8>>) -> bool {
    wanted matches Some(chosen) && !paths::resolves_to(
        chosen,
        dirs.media_cache_dir(),
        fs.form(chosen),
        fs.form(dirs.media_cache_dir()),
    )
}

/// The folder that a change is about, as it was spelled.
pub open spec fn spelled(dirs: Layout, wanted: Option<Seq<u8>>, custom: bool) -> Seq<u8> {
    match wanted {
        Some(chosen) if custom => chosen,
        _ => dirs.media_cache_dir(),
    }
}

/// Whether a change has settled on this folder, by what the file system was
/// `before` and what it is once the folder is there.
pub open spec fn is_settled_on(
    before: FileSystem,
    fs: FileSystem,
    dirs: Layout,
    wanted: Option<Seq<u8>>,
    custom: bool,
    dir: Seq<u8>,
) -> bool {
    &&& custom == is_custom_choice(before, dirs, wanted)
    &&& (fs.canonical)(spelled(dirs, wanted, custom)) == Ok::<Seq<u8>, Failure>(dir)
}

/// Whether every file that is there is in the folder now.
pub open spec fn are_at_home(
    fs: FileSystem,
    known: Seq<Relocation<Seq<u8>>>,
    dir: Seq<u8>,
) -> bool {
    forall|j: int|
        0 <= j < known.len() ==> ((#[trigger] known[j]).replacement matches Some(p) ==> is_at_home(
            fs,
            p,
            dir,
        ))
}

/// Whether a reply agrees with the file system as it is: as it was `before` while
/// the folder is settled on, and as it is with the folder from then on.
pub open spec fn is_honest(
    before: FileSystem,
    fs: FileSystem,
    job: MediaDirChangeView,
    reply: AnswerView,
) -> bool {
    if job is AwaitCustom || job is AwaitDefault {
        before.agrees_with(job.request(), reply)
    } else {
        fs.agrees_with(job.request(), reply)
    }
}

/// Whether the job's request, carried out on the store and answered in agreement
/// with the file system, can lead from one moment to the next.
pub open spec fn change_follows_in(
    before: FileSystem,
    fs: FileSystem,
    now: ChangeMoment,
    next: ChangeMoment,
) -> bool {
    now.step matches Step::Ask(job) && exists|reply: AnswerView, n: u64|
        now.store.can_become(job.request(), None, reply, next.store) && next.step
            == #[trigger] job.resume(reply, n) && is_honest(before, fs, job, reply)
}

/// Whether `run` is what can happen when the attachment folder is changed and the
/// file system is `before` until the folder is there, and `fs` from then on.
pub open spec fn is_change_in(
    before: FileSystem,
    fs: FileSystem,
    run: Seq<ChangeMoment>,
    dirs: Layout,
    wanted: Option<Seq<u8>>,
) -> bool {
    &&& run.len() > 0
    &&& run[0].step == change_laws::started(dirs, wanted)
    &&& forall|i: int, j: int|
        0 <= i && j == i + 1 && j < run.len() ==> #[trigger] change_follows_in(
            before,
            fs,
            run[i],
            run[j],
        )
}

/// The folder that a successful change has settled on.
pub open spec fn folder_of(fs: FileSystem, dirs: Layout, changed: ChangedView) -> Seq<u8> {
    match changed.custom {
        Some(dir) => dir,
        None => (fs.canonical)(dirs.media_cache_dir())->Ok_0,
    }
}

/// Whether a folder lies in the cache, by what the file system makes of the two.
pub open spec fn is_in_the_cache(fs: FileSystem, dirs: Layout, dir: Seq<u8>) -> bool {
    paths::is_subpath(dir, dirs.cache, fs.form(dir), fs.form(dirs.cache))
}

/// Whether a change is to be refused: a custom folder is wanted and lies in the cache.
pub open spec fn is_refused(
    before: FileSystem,
    fs: FileSystem,
    dirs: Layout,
    wanted: Option<Seq<u8>>,
) -> bool {
    &&& is_custom_choice(before, dirs, wanted)
    &&& (fs.canonical)(wanted->0) matches Ok(dir)
    &&& is_in_the_cache(fs, dirs, dir)
}

/// What a change has been told before it has read the archive.
spec fn is_settling(
    before: FileSystem,
    fs: FileSystem,
    job: MediaDirChangeView,
    dirs: Layout,
    wanted: Option<Seq<u8>>,
) -> bool {
    &&& change_laws::is_about(job, dirs, wanted)
    &&& match job {
        MediaDirChangeView::AwaitCustom { chosen, locator, .. } => before.located(locator)
            == before.form(chosen),
        MediaDirChangeView::AwaitDefault { chosen, form, locator, .. } => {
            &&& form == before.form(chosen)
            &&& before.located(locator) == before.form(dirs.media_cache_dir())
        },
        MediaDirChangeView::AwaitCreation { custom, .. } => custom == is_custom_choice(
            before,
            dirs,
            wanted,
        ),
        MediaDirChangeView::AwaitDir { dirs: d, custom, .. } => {
            &&& d == dirs
            &&& custom == is_custom_choice(before, dirs, wanted)
        },
        MediaDirChangeView::AwaitBoundaryDir { dirs: d, dir, locator } => {
            &&& d == dirs
            &&& is_settled_on(before, fs, dirs, wanted, true, dir)
            &&& fs.located(locator) == fs.form(dir)
        },
        MediaDirChangeView::AwaitBoundaryCache { dirs: d, dir, form, locator } => {
            &&& d == dirs
            &&& is_settled_on(before, fs, dirs, wanted, true, dir)
            &&& form == fs.form(dir)
            &&& fs.located(locator) == fs.form(dirs.cache)
        },
        MediaDirChangeView::AwaitRows { custom, dir } => {
            &&& is_settled_on(before, fs, dirs, wanted, custom, dir)
            &&& custom ==> !is_in_the_cache(fs, dirs, dir)
        },
        _ => true,
    }
}

/// Whether a change is still before its copying.
spec fn is_early(job: MediaDirChangeView) -> bool {
    ||| job is AwaitCustom
    ||| job is AwaitDefault
    ||| job is AwaitCreation
    ||| job is AwaitDir
    ||| job is AwaitBoundaryDir
    ||| job is AwaitBoundaryCache
    ||| job is AwaitRows
}

proof fn lemma_settling(
    before: FileSystem,
    fs: FileSystem,
    job: MediaDirChangeView,
    reply: AnswerView,
    n: u64,
    dirs: Layout,
    wanted: Option<Seq<u8>>,
)
    requires
        is_early(job),
        is_settling(before, fs, job, dirs, wanted),
        is_honest(before, fs, job, reply),
    ensures
        job.resume(reply, n) matches Step::Ask(next) ==> if is_early(next) {
            is_settling(before, fs, next, dirs, wanted)
        } else {
            &&& job matches MediaDirChangeView::AwaitRows { custom, dir }
            &&& reply matches Reply::Rows(rows)
            &&& next == MediaDirChangeView::AwaitProbe(WorkView::start(custom, dir, rows))
        },
        !(job.resume(reply, n) is Done),
        job.resume(reply, n) == MediaDirChangeStep::Failed(ChangeError::InsideCache) ==> is_refused(
            before,
            fs,
            dirs,
            wanted,
        ),
{
    match job {
        MediaDirChangeView::AwaitCustom { chosen, locator, .. } => {
            locate::law_locator_locates(before, dirs.media_cache_dir(), locator, reply);
        },
        MediaDirChangeView::AwaitDefault { locator, .. } => {
            locate::law_locator_locates(before, dirs.media_cache_dir(), locator, reply);
        },
        MediaDirChangeView::AwaitDir { .. } => {
            if let Reply::Path(p) = reply {
                locate::law_locator_locates(fs, p, LocatorView::start(p), Reply::TaskFailed);
            }
        },
        MediaDirChangeView::AwaitBoundaryDir { locator, .. } => {
            locate::law_locator_locates(fs, dirs.cache, locator, reply);
        },
        MediaDirChangeView::AwaitBoundaryCache { locator, .. } => {
            locate::law_locator_locates(fs, dirs.cache, locator, reply);
        },
        _ => {},
    }
}

spec fn is_work_told(
    before: FileSystem,
    fs: FileSystem,
    work: WorkView,
    dirs: Layout,
    wanted: Option<Seq<u8>>,
) -> bool {
    &&& is_settled_on(before, fs, dirs, wanted, work.custom, work.dir)
    &&& work.custom ==> !is_in_the_cache(fs, dirs, work.dir)
    &&& are_at_home(fs, work.paths, work.dir)
}

spec fn is_change_told(
    before: FileSystem,
    fs: FileSystem,
    step: MediaDirChangeStep,
    dirs: Layout,
    wanted: Option<Seq<u8>>,
) -> bool {
    match step {
        Step::Ask(job) => match job {
            MediaDirChangeView::AwaitProbe(work) => is_work_told(before, fs, work, dirs, wanted),
            MediaDirChangeView::AwaitExistence { work, .. } => is_work_told(
                before,
                fs,
                work,
                dirs,
                wanted,
            ),
            MediaDirChangeView::AwaitCopy { work, row, job } => {
                &&& is_work_told(before, fs, work, dirs, wanted)
                &&& is_well_told(fs, job, row.source, work.dir)
            },
            MediaDirChangeView::AwaitCommit(work) => is_work_told(before, fs, work, dirs, wanted),
            MediaDirChangeView::AwaitRemoval { outcome, .. } => outcome matches Outcome::Failed(
                error,
            ) && !(error is InsideCache),
            early => is_settling(before, fs, early, dirs, wanted),
        },
        Step::Done(changed) => {
            let folder = folder_of(fs, dirs, changed);
            &&& is_settled_on(before, fs, dirs, wanted, changed.custom is Some, folder)
            &&& changed.custom is Some ==> !is_in_the_cache(fs, dirs, folder)
            &&& are_at_home(fs, changed.paths, folder)
        },
        Step::Failed(error) => error is InsideCache ==> is_refused(before, fs, dirs, wanted),
    }
}

proof fn lemma_proceed_told(
    before: FileSystem,
    fs: FileSystem,
    work: WorkView,
    dirs: Layout,
    wanted: Option<Seq<u8>>,
)
    requires
        is_work_told(before, fs, work, dirs, wanted),
    ensures
        is_change_told(before, fs, work.proceed(), dirs, wanted),
    decreases work.rows.len(),
{
    if work.rows.len() > 0 {
        let row = work.rows[0];
        if let Some(replacement) = relocations::find(work.paths, row.source) {
            lemma_proceed_told(
                before,
                fs,
                work.without_first().with_update(row, replacement),
                dirs,
                wanted,
            );
        }
    }
}

proof fn lemma_with_path_told(
    before: FileSystem,
    fs: FileSystem,
    work: WorkView,
    row: Row<Seq<u8>>,
    replacement: Option<Seq<u8>>,
    dirs: Layout,
    wanted: Option<Seq<u8>>,
)
    requires
        is_work_told(before, fs, work, dirs, wanted),
        replacement matches Some(p) ==> is_at_home(fs, p, work.dir),
    ensures
        is_work_told(before, fs, work.with_path(row, replacement), dirs, wanted),
{
    let known = work.with_path(row, replacement).paths;
    assert forall|j: int| 0 <= j < known.len() implies (
    (#[trigger] known[j]).replacement matches Some(p) ==> is_at_home(fs, p, work.dir)) by {
        if j < work.paths.len() {
            assert(known[j] == work.paths[j]);
        }
    }
}

proof fn lemma_change_told_step(
    before: FileSystem,
    fs: FileSystem,
    job: MediaDirChangeView,
    reply: AnswerView,
    n: u64,
    dirs: Layout,
    wanted: Option<Seq<u8>>,
)
    requires
        fs.is_orderly(),
        is_change_told(before, fs, Step::Ask(job), dirs, wanted),
        is_honest(before, fs, job, reply),
    ensures
        is_change_told(before, fs, job.resume(reply, n), dirs, wanted),
{
    match job {
        MediaDirChangeView::AwaitProbe(work) => {
            lemma_proceed_told(before, fs, work, dirs, wanted);
        },
        MediaDirChangeView::AwaitExistence { work, row } => {
            if reply == AnswerView::Flag(false) {
                lemma_with_path_told(before, fs, work, row, None, dirs, wanted);
                lemma_proceed_told(before, fs, work.with_path(row, None), dirs, wanted);
            }
            copying::law_copying_stays_about(
                CopyingView::AwaitStaging { source: row.source, name: row.source, dir: work.dir },
                row.source,
                work.dir,
                reply,
                n,
            );
        },
        MediaDirChangeView::AwaitCopy { work, row, job } => {
            lemma_copy_is_at_home(fs, job, row.source, work.dir, reply, n);
            if let Step::Done(copy) = job.resume(reply, n) {
                let copies = media_storage::with_copy(work.copies, copy);
                let copied = WorkView { copies, ..work };
                lemma_with_path_told(before, fs, copied, row, Some(copy.path), dirs, wanted);
                lemma_proceed_told(
                    before,
                    fs,
                    copied.with_path(row, Some(copy.path)),
                    dirs,
                    wanted,
                );
            }
        },
        MediaDirChangeView::AwaitCommit(_) => {},
        MediaDirChangeView::AwaitRemoval { .. } => {},
        _ => {
            lemma_settling(before, fs, job, reply, n, dirs, wanted);
        },
    }
}

proof fn lemma_change_told(
    before: FileSystem,
    fs: FileSystem,
    run: Seq<ChangeMoment>,
    dirs: Layout,
    wanted: Option<Seq<u8>>,
    i: int,
)
    requires
        fs.is_orderly(),
        is_change_in(before, fs, run, dirs, wanted),
        0 <= i < run.len(),
    ensures
        is_change_told(before, fs, run[i].step, dirs, wanted),
    decreases i,
{
    if i > 0 {
        lemma_change_told(before, fs, run, dirs, wanted, i - 1);
        let now = run[i - 1];
        let next = run[i];
        assert(change_follows_in(before, fs, run[i - 1], run[i]));
        let job = now.step->Ask_0;
        let (reply, n) = choose|reply: AnswerView, n: u64|
            now.store.can_become(job.request(), None, reply, next.store) && next.step
                == #[trigger] job.resume(reply, n) && is_honest(before, fs, job, reply);
        lemma_change_told_step(before, fs, job, reply, n, dirs, wanted);
    }
}

/// A change settles on the right folder. If the wanted folder is the default one, or
/// none is wanted, no custom folder is in use afterwards; otherwise its canonical path
/// is, and it lies outside the cache. A change is refused for the cache only if a
/// custom folder is wanted that lies there.
pub proof fn law_changes_settle_on_the_wanted_folder(
    before: FileSystem,
    fs: FileSystem,
    run: Seq<ChangeMoment>,
    dirs: Layout,
    wanted: Option<Seq<u8>>,
)
    requires
        fs.is_orderly(),
        is_change_in(before, fs, run, dirs, wanted),
    ensures
        run.last().step matches Step::Done(changed) ==> if is_custom_choice(before, dirs, wanted) {
            &&& changed.custom matches Some(dir)
            &&& (fs.canonical)(wanted->0) == Ok::<Seq<u8>, Failure>(dir)
            &&& !is_in_the_cache(fs, dirs, dir)
        } else {
            changed.custom is None
        },
        run.last().step == MediaDirChangeStep::Failed(ChangeError::InsideCache) ==> is_refused(
            before,
            fs,
            dirs,
            wanted,
        ),
        wanted matches Some(chosen) ==> (is_custom_choice(before, dirs, wanted)
            <==> !paths::resolves_to(
            chosen,
            path::join(dirs.cache, path::text("media")),
            before.form(chosen),
            before.form(path::join(dirs.cache, path::text("media"))),
        )),
        wanted is None ==> !is_custom_choice(before, dirs, wanted),
{
    lemma_change_told(before, fs, run, dirs, wanted, run.len() - 1);
}

/// After a change, every attachment that is there is in the folder.
pub proof fn law_changed_attachments_are_in_the_folder(
    before: FileSystem,
    fs: FileSystem,
    run: Seq<ChangeMoment>,
    dirs: Layout,
    wanted: Option<Seq<u8>>,
)
    requires
        fs.is_orderly(),
        is_change_in(before, fs, run, dirs, wanted),
    ensures
        run.last().step matches Step::Done(changed) ==> are_at_home(
            fs,
            changed.paths,
            folder_of(fs, dirs, changed),
        ),
{
    lemma_change_told(before, fs, run, dirs, wanted, run.len() - 1);
}

/// Whether the job's request, carried out on the store, can lead from one moment
/// to the next while the file system is `fs`, the archive has these rows, and
/// their files are there.
pub open spec fn again_follows(
    fs: FileSystem,
    rows: Seq<Row<Seq<u8>>>,
    now: ChangeMoment,
    next: ChangeMoment,
) -> bool {
    now.step matches Step::Ask(job) && exists|reply: AnswerView, n: u64|
        now.store.can_become(job.request(), None, reply, next.store) && next.step
            == #[trigger] job.resume(reply, n) && is_unchanged(fs, rows, job.request(), reply)
}

/// Whether a reply is that of a system in which nothing has changed.
pub open spec fn is_unchanged(
    fs: FileSystem,
    rows: Seq<Row<Seq<u8>>>,
    request: Request<Seq<u8>>,
    reply: AnswerView,
) -> bool {
    &&& fs.agrees_with(request, reply)
    &&& request is LoadRows ==> (reply matches Reply::Rows(found) ==> found == rows)
    &&& request is TryExists ==> reply != AnswerView::Flag(false)
}

/// Whether `run` is what can happen when the attachment folder is changed while
/// nothing else changes.
pub open spec fn is_change_again(
    fs: FileSystem,
    rows: Seq<Row<Seq<u8>>>,
    run: Seq<ChangeMoment>,
    dirs: Layout,
    wanted: Option<Seq<u8>>,
) -> bool {
    &&& run.len() > 0
    &&& run[0].step == change_laws::started(dirs, wanted)
    &&& forall|i: int, j: int|
        0 <= i && j == i + 1 && j < run.len() ==> #[trigger] again_follows(
            fs,
            rows,
            run[i],
            run[j],
        )
}

/// Whether each update leaves its row with the path that it has.
pub open spec fn are_own(rows: Seq<Row<Seq<u8>>>, updates: Seq<Update<Seq<u8>>>) -> bool {
    forall|i: int|
        0 <= i < updates.len() ==> ((#[trigger] updates[i]).replacement matches Some(p)
            && path::same_path(p, rows[i].source))
}

/// Whether every file is found where it is.
pub open spec fn are_left(known: Seq<Relocation<Seq<u8>>>) -> bool {
    forall|j: int|
        0 <= j < known.len() ==> (#[trigger] known[j]).replacement == Some(known[j].source)
}

spec fn are_rows_at_home(fs: FileSystem, rows: Seq<Row<Seq<u8>>>, dir: Seq<u8>) -> bool {
    forall|i: int| 0 <= i < rows.len() ==> is_at_home(fs, (#[trigger] rows[i]).source, dir)
}

spec fn is_work_again(
    fs: FileSystem,
    work: WorkView,
    dirs: Layout,
    wanted: Option<Seq<u8>>,
    rows: Seq<Row<Seq<u8>>>,
    taken: nat,
) -> bool {
    &&& is_settled_on(fs, fs, dirs, wanted, work.custom, work.dir)
    &&& are_rows_at_home(fs, rows, work.dir)
    &&& work.copies.len() == 0
    &&& work.updates.len() <= taken <= rows.len()
    &&& work.rows == rows.skip(taken as int)
    &&& are_own(rows, work.updates)
    &&& are_left(work.paths)
}

spec fn is_again(
    fs: FileSystem,
    step: MediaDirChangeStep,
    dirs: Layout,
    wanted: Option<Seq<u8>>,
    rows: Seq<Row<Seq<u8>>>,
) -> bool {
    match step {
        Step::Ask(job) => match job {
            MediaDirChangeView::AwaitProbe(work) => is_work_again(
                fs,
                work,
                dirs,
                wanted,
                rows,
                0,
            ),
            MediaDirChangeView::AwaitExistence { work, row } => {
                &&& is_work_again(fs, work, dirs, wanted, rows, work.updates.len() + 1)
                &&& row == rows[work.updates.len() as int]
            },
            MediaDirChangeView::AwaitCopy { work, row, job } => {
                &&& is_work_again(fs, work, dirs, wanted, rows, work.updates.len() + 1)
                &&& row == rows[work.updates.len() as int]
                &&& is_only_looking(fs, job, row.source, work.dir)
            },
            MediaDirChangeView::AwaitCommit(work) => {
                &&& is_work_again(fs, work, dirs, wanted, rows, rows.len())
                &&& work.updates.len() == rows.len()
            },
            MediaDirChangeView::AwaitRemoval { .. } => false,
            early => is_settling(fs, fs, early, dirs, wanted),
        },
        Step::Done(changed) => {
            &&& is_settled_on(
                fs,
                fs,
                dirs,
                wanted,
                changed.custom is Some,
                folder_of(fs, dirs, changed),
            )
            &&& are_left(changed.paths)
        },
        Step::Failed(_) => true,
    }
}

proof fn lemma_own_update(
    rows: Seq<Row<Seq<u8>>>,
    updates: Seq<Update<Seq<u8>>>,
    update: Update<Seq<u8>>,
)
    requires
        updates.len() < rows.len(),
        are_own(rows, updates),
        update.replacement matches Some(p) && path::same_path(
            p,
            rows[updates.len() as int].source,
        ),
    ensures
        are_own(rows, updates.push(update)),
{
    let longer = updates.push(update);
    assert forall|i: int| 0 <= i < longer.len() implies (
    (#[trigger] longer[i]).replacement matches Some(p) && path::same_path(p, rows[i].source)) by {
        if i < updates.len() {
            assert(longer[i] == updates[i]);
        }
    }
}

proof fn lemma_proceed_again(
    fs: FileSystem,
    work: WorkView,
    dirs: Layout,
    wanted: Option<Seq<u8>>,
    rows: Seq<Row<Seq<u8>>>,
)
    requires
        is_work_again(fs, work, dirs, wanted, rows, work.updates.len()),
    ensures
        is_again(fs, work.proceed(), dirs, wanted, rows),
    decreases work.rows.len(),
{
    let k = work.updates.len() as int;
    if work.rows.len() > 0 {
        let row = work.rows[0];
        assert(row == rows[k]);
        assert(work.rows.drop_first() =~= rows.skip(k + 1));
        if let Some(replacement) = relocations::find(work.paths, row.source) {
            relocations::lemma_find(work.paths, row.source);
            let update = Update { chat: row.chat, id: row.id, replacement };
            lemma_own_update(rows, work.updates, update);
            lemma_proceed_again(
                fs,
                work.without_first().with_update(row, replacement),
                dirs,
                wanted,
                rows,
            );
        }
    }
}

proof fn lemma_left_again(
    fs: FileSystem,
    work: WorkView,
    row: Row<Seq<u8>>,
    dirs: Layout,
    wanted: Option<Seq<u8>>,
    rows: Seq<Row<Seq<u8>>>,
)
    requires
        is_work_again(fs, work, dirs, wanted, rows, work.updates.len() + 1),
        row == rows[work.updates.len() as int],
    ensures
        is_again(fs, work.with_path(row, Some(row.source)).proceed(), dirs, wanted, rows),
{
    let next = work.with_path(row, Some(row.source));
    lemma_own_update(
        rows,
        work.updates,
        Update { chat: row.chat, id: row.id, replacement: Some(row.source) },
    );
    assert forall|j: int| 0 <= j < next.paths.len() implies (#[trigger] next.paths[j]).replacement
        == Some(next.paths[j].source) by {
        if j < work.paths.len() {
            assert(next.paths[j] == work.paths[j]);
        }
    }
    lemma_proceed_again(fs, next, dirs, wanted, rows);
}

/// Whether the files of all rows are in the folder that a change settles on.
spec fn are_rows_settled(
    fs: FileSystem,
    dirs: Layout,
    wanted: Option<Seq<u8>>,
    rows: Seq<Row<Seq<u8>>>,
) -> bool {
    forall|dir: Seq<u8>, custom: bool|
        #[trigger] is_settled_on(fs, fs, dirs, wanted, custom, dir) ==> are_rows_at_home(
            fs,
            rows,
            dir,
        )
}

proof fn lemma_again_step(
    fs: FileSystem,
    job: MediaDirChangeView,
    reply: AnswerView,
    n: u64,
    dirs: Layout,
    wanted: Option<Seq<u8>>,
    rows: Seq<Row<Seq<u8>>>,
)
    requires
        is_again(fs, Step::Ask(job), dirs, wanted, rows),
        is_unchanged(fs, rows, job.request(), reply),
        are_rows_settled(fs, dirs, wanted, rows),
    ensures
        is_again(fs, job.resume(reply, n), dirs, wanted, rows),
{
    match job {
        MediaDirChangeView::AwaitProbe(work) => {
            lemma_proceed_again(fs, work, dirs, wanted, rows);
        },
        MediaDirChangeView::AwaitExistence { work, row } => {
            assert(is_at_home(fs, rows[work.updates.len() as int].source, work.dir));
            copying::law_copying_starts(row.source, work.dir);
            copying::law_copying_stays_about(
                CopyingView::AwaitStaging { source: row.source, name: row.source, dir: work.dir },
                row.source,
                work.dir,
                reply,
                n,
            );
        },
        MediaDirChangeView::AwaitCopy { work, row, job } => {
            assert(is_at_home(fs, rows[work.updates.len() as int].source, work.dir));
            lemma_copy_at_home(fs, job, row.source, work.dir, reply, n);
            if let Step::Done(copy) = job.resume(reply, n) {
                lemma_left_again(fs, work, row, dirs, wanted, rows);
            }
        },
        MediaDirChangeView::AwaitCommit(_) => {},
        MediaDirChangeView::AwaitRemoval { .. } => {},
        _ => {
            lemma_settling(fs, fs, job, reply, n, dirs, wanted);
            if let MediaDirChangeView::AwaitRows { custom, dir } = job {
                assert(rows.skip(0) =~= rows);
                assert(is_settled_on(fs, fs, dirs, wanted, custom, dir));
            }
        },
    }
}

proof fn lemma_again(
    fs: FileSystem,
    run: Seq<ChangeMoment>,
    dirs: Layout,
    wanted: Option<Seq<u8>>,
    rows: Seq<Row<Seq<u8>>>,
    i: int,
)
    requires
        is_change_again(fs, rows, run, dirs, wanted),
        are_rows_settled(fs, dirs, wanted, rows),
        0 <= i < run.len(),
    ensures
        is_again(fs, run[i].step, dirs, wanted, rows),
        adds_no_files(run[0].store.disk, run[i].store.disk),
    decreases i,
{
    if i > 0 {
        lemma_again(fs, run, dirs, wanted, rows, i - 1);
        let now = run[i - 1];
        let next = run[i];
        assert(again_follows(fs, rows, run[i - 1], run[i]));
        let job = now.step->Ask_0;
        let (reply, n) = choose|reply: AnswerView, n: u64|
            now.store.can_become(job.request(), None, reply, next.store) && next.step
                == #[trigger] job.resume(reply, n) && is_unchanged(
                fs,
                rows,
                job.request(),
                reply,
            );
        lemma_again_step(fs, job, reply, n, dirs, wanted, rows);
        if let MediaDirChangeView::AwaitCreation { dir, .. } = job {
            lemma_adds_no_files(run[0].store.disk, now.store.disk, next.store.disk, dir);
        }
    }
}

/// A folder that is made does not change how a choice counts: the file system makes
/// the same of the chosen folder and of the default one, unless what is new
/// completes a link.
pub proof fn law_choices_last(
    before: FileSystem,
    fs: FileSystem,
    dirs: Layout,
    wanted: Option<Seq<u8>>,
)
    requires
        before.is_orderly(),
        fs.is_orderly(),
        fs.is_stepwise(),
        before.grows_into(fs),
        fs.current_dir matches Ok(dir) && path::is_absolute(dir),
    ensures
        is_custom_choice(before, dirs, wanted) == is_custom_choice(fs, dirs, wanted),
{
    if let Some(chosen) = wanted {
        canonical_laws::law_forms_last(before, fs, chosen);
        canonical_laws::law_forms_last(before, fs, dirs.media_cache_dir());
    }
}

/// A second change to the same folder changes nothing: no file is made or
/// removed, each row is left with the path that it has, and the folder stays what
/// it is. The choice has to count as it did, which it does unless making the
/// folder has completed a link.
pub proof fn law_second_change_changes_nothing(
    before: FileSystem,
    fs: FileSystem,
    run: Seq<ChangeMoment>,
    again: Seq<ChangeMoment>,
    dirs: Layout,
    wanted: Option<Seq<u8>>,
    changed: ChangedView,
    rows: Seq<Row<Seq<u8>>>,
    i: int,
)
    requires
        fs.is_orderly(),
        is_custom_choice(before, dirs, wanted) == is_custom_choice(fs, dirs, wanted),
        is_change_in(before, fs, run, dirs, wanted),
        run.last().step == MediaDirChangeStep::Done(changed),
        is_change_again(fs, rows, again, worker::dirs_after(dirs, Ok(changed)), wanted),
        forall|k: int|
            0 <= k < rows.len() ==> exists|j: int|
                0 <= j < changed.paths.len() && (#[trigger] changed.paths[j]).replacement == Some(
                    (#[trigger] rows[k]).source,
                ),
        0 <= i < again.len(),
    ensures
        adds_no_files(again[0].store.disk, again[i].store.disk),
        match again[i].step {
            Step::Ask(job) => {
                &&& job matches MediaDirChangeView::AwaitCommit(work) ==> work.updates.len()
                    == rows.len() && are_own(rows, work.updates)
                &&& match job.request() {
                    Request::CreateDirAll(_) => true,
                    Request::Probe(_) => true,
                    Request::CommitRows => true,
                    request => request.only_reads(),
                }
            },
            Step::Done(same) => same.custom == changed.custom && are_left(same.paths),
            Step::Failed(_) => true,
        },
{
    let later = worker::dirs_after(dirs, Ok(changed));
    let folder = folder_of(fs, dirs, changed);
    lemma_change_told(before, fs, run, dirs, wanted, run.len() - 1);
    assert(later.media_cache_dir() == dirs.media_cache_dir());
    assert forall|dir: Seq<u8>, custom: bool|
        #[trigger] is_settled_on(fs, fs, later, wanted, custom, dir) implies are_rows_at_home(
        fs,
        rows,
        dir,
    ) by {
        assert(dir == folder);
        assert forall|k: int| 0 <= k < rows.len() implies is_at_home(
            fs,
            (#[trigger] rows[k]).source,
            dir,
        ) by {
            let j = choose|j: int|
                0 <= j < changed.paths.len() && (#[trigger] changed.paths[j]).replacement == Some(
                    rows[k].source,
                );
        }
    }
    lemma_again(fs, again, later, wanted, rows, i);
    match again[i].step {
        Step::Ask(MediaDirChangeView::AwaitCopy { work, row, job }) => {
            assert(is_at_home(fs, rows[work.updates.len() as int].source, work.dir));
            lemma_copy_at_home(fs, job, row.source, work.dir, Reply::TaskFailed, 0);
        },
        _ => {},
    }
}

} // verus!
