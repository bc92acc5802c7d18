//! What saving, keeping and moving attachments does to a disk.

use vstd::prelude::*;
use crate::change_laws;
use crate::copying;
use crate::copying::CopyingView;
use crate::disk;
use crate::disk::{Disk, Place};
use crate::io::{AnswerView, Failure, Reply, Request, Row, Step};
use crate::media_storage;
use crate::media_storage::{ChangeError, MediaDirChangeStep, MediaDirChangeView, WorkView};
use crate::path;
use crate::paths::Layout;
use crate::relocations;
use crate::relocations::Relocation;
use crate::save;
use crate::save::{SavingStep, SavingView};
use crate::store;
use crate::store::Store;
use crate::worker;
use crate::worker::{KeepingStep, KeepingView};

verus! {

/// Whether the temporary file of a copy that waits for its name holds what the
/// source holds.
spec fn is_staged(now: Store, job: CopyingView, source: Seq<u8>) -> bool {
    job is AwaitPublishing ==> (now.staged matches Some(bytes) && store::is_file(
        now.disk,
        path::place(source),
        bytes,
    ))
}

/// Whether `next` has nothing more than a copy of one file, at a place that was
/// free.
spec fn gains_copy(now: Disk, next: Disk, source: Place, copy: Place) -> bool {
    &&& !now.has(copy)
    &&& exists|bytes: Seq<u8>|
        store::is_file(now, source, bytes) && next == #[trigger] store::with_file(now, copy, bytes)
}

proof fn lemma_copying_step(
    now: Store,
    next: Store,
    job: CopyingView,
    source: Seq<u8>,
    dir: Seq<u8>,
    reply: AnswerView,
    n: u64,
)
    requires
        copying::is_about(job, source, dir),
        is_staged(now, job, source),
        now.can_become(job.request(), None, reply, next),
    ensures
        match job.resume(reply, n) {
            Step::Ask(later) => next.disk == now.disk && is_staged(next, later, source),
            Step::Done(copy) => if copy.is_new {
                gains_copy(
                    now.disk,
                    next.disk,
                    path::place(source),
                    path::place(copy.path),
                )
            } else {
                next.disk == now.disk && copy.path == source
            },
            Step::Failed(_) => next.disk == now.disk,
        },
{
    copying::law_copy_is_in_the_folder(job, source, dir, reply, n);
    if job is AwaitPublishing && reply is Done {
        let bytes = now.staged->0;
        let copy = job.resume(reply, n)->Done_0;
        assert(next.disk == store::with_file(now.disk, path::place(copy.path), bytes));
    }
}

/// The store and a job that saves at one point of a run.
pub ghost struct SavingMoment {
    pub store: Store,
    pub step: SavingStep,
}

/// Whether the job's request, carried out on the store, can lead from one moment
/// to the next.
pub open spec fn saving_follows(now: SavingMoment, next: SavingMoment) -> bool {
    now.step matches Step::Ask(job) && exists|reply: AnswerView, n: u64|
        now.store.can_become(job.request(), job.bytes(), reply, next.store) && next.step
            == #[trigger] job.resume(reply, n)
}

/// Whether `run` is what can happen when bytes are saved at a path.
pub open spec fn is_saving(run: Seq<SavingMoment>, p: Seq<u8>, bytes: Seq<u8>) -> bool {
    &&& run.len() > 0
    &&& run[0].step == SavingView::start(p, bytes)
    &&& forall|i: int, j: int|
        0 <= i && j == i + 1 && j < run.len() ==> #[trigger] saving_follows(run[i], run[j])
}

/// Whether `later` has all that `first` had, and otherwise nothing but
/// directories on the way of `dir`.
pub open spec fn adds_only_dirs(first: Disk, later: Disk, dir: Seq<u8>) -> bool {
    &&& first.is_kept_in(later)
    &&& forall|q: Place|
        #[trigger] later.has(q) && !first.has(q) ==> later.is_dir(q) && path::is_on_the_way(q, dir)
}

/// Whether `later` has all that `first` had, a file that was not there, and
/// otherwise nothing but directories on the way of `dir`.
pub open spec fn adds_file(
    first: Disk,
    later: Disk,
    file: Place,
    bytes: Seq<u8>,
    dir: Seq<u8>,
) -> bool {
    &&& first.is_kept_in(later)
    &&& !first.has(file)
    &&& store::is_file(later, file, bytes)
    &&& forall|q: Place|
        #[trigger] later.has(q) && !first.has(q) && q != file ==> later.is_dir(q)
            && path::is_on_the_way(q, dir)
}

proof fn lemma_adds_file(first: Disk, now: Disk, file: Place, bytes: Seq<u8>, dir: Seq<u8>)
    requires
        adds_only_dirs(first, now, dir),
        !now.has(file),
    ensures
        adds_file(first, store::with_file(now, file, bytes), file, bytes, dir),
{
    let later = store::with_file(now, file, bytes);
    assert forall|q: Place| #[trigger] first.has(q) implies later.has(q) && later.nodes[q]
        == first.nodes[q] by {
        assert(now.has(q));
    }
    assert forall|q: Place|
        #[trigger] later.has(q) && !first.has(q) && q != file implies later.is_dir(q)
        && path::is_on_the_way(q, dir) by {
        assert(now.has(q));
    }
    assert(!first.has(file));
}

spec fn is_saved(first: Disk, now: SavingMoment, p: Seq<u8>, bytes: Seq<u8>) -> bool {
    let folder = path::popped(p);
    match now.step {
        Step::Ask(job) => {
            &&& save::is_about(job, p, bytes)
            &&& adds_only_dirs(first, now.store.disk, folder)
            &&& job is AwaitPublishing ==> now.store.staged == Some(bytes)
        },
        Step::Done(path) => adds_file(
            first,
            now.store.disk,
            path::place(path),
            bytes,
            folder,
        ),
        Step::Failed(_) => adds_only_dirs(first, now.store.disk, folder),
    }
}

proof fn lemma_saved(run: Seq<SavingMoment>, p: Seq<u8>, bytes: Seq<u8>, i: int)
    requires
        is_saving(run, p, bytes),
        0 <= i < run.len(),
    ensures
        is_saved(run[0].store.disk, run[i], p, bytes),
    decreases i,
{
    if i == 0 {
        save::law_saving_stays_about(
            SavingView::AwaitDir { path: p, dir: p, bytes },
            p,
            bytes,
            Reply::Done,
            0,
        );
    } else {
        lemma_saved(run, p, bytes, i - 1);
        let now = run[i - 1];
        let next = run[i];
        assert(saving_follows(now, next));
        let job = now.step->Ask_0;
        let (reply, n) = choose|reply: AnswerView, n: u64|
            now.store.can_become(job.request(), job.bytes(), reply, next.store) && next.step
                == #[trigger] job.resume(reply, n);
        save::law_saving_stays_about(job, p, bytes, reply, n);
        save::law_saving_writes_only_to_the_folder(job, p, bytes);
        save::law_saved_beside_the_wanted_path(job, p, bytes, reply, n);
        if let Step::Done(path) = next.step {
            lemma_adds_file(
                run[0].store.disk,
                now.store.disk,
                path::place(path),
                bytes,
                path::popped(p),
            );
        } else if job is AwaitDir {
            let first = run[0].store.disk;
            assert forall|q: Place| #[trigger] next.store.disk.has(q) && !first.has(q) implies
                next.store.disk.is_dir(q) && path::is_on_the_way(q, path::popped(p)) by {
                assert(now.store.disk.has(q) || !now.store.disk.has(q));
            }
        }
    }
}

/// What is saved is found again: under the path that saving ends with there is a
/// new file with the bytes. All that was on the disk before is still there, and
/// apart from the file there are at most new directories on the way to its
/// folder, also when saving fails.
pub proof fn law_saved_bytes_are_found_again(run: Seq<SavingMoment>, p: Seq<u8>, bytes: Seq<u8>)
    requires
        is_saving(run, p, bytes),
    ensures
        match run.last().step {
            Step::Done(path) => adds_file(
                run[0].store.disk,
                run.last().store.disk,
                path::place(path),
                bytes,
                path::popped(p),
            ),
            _ => adds_only_dirs(
                run[0].store.disk,
                run.last().store.disk,
                path::popped(p),
            ),
        },
{
    lemma_saved(run, p, bytes, run.len() - 1);
}

/// The store and a job that keeps a late file at one point of a run.
pub ghost struct KeepingMoment {
    pub store: Store,
    pub step: KeepingStep,
}

/// Whether the job's request, carried out on the store, can lead from one moment
/// to the next.
pub open spec fn keeping_follows(now: KeepingMoment, next: KeepingMoment) -> bool {
    now.step matches Step::Ask(job) && exists|reply: AnswerView, n: u64|
        now.store.can_become(job.request(), None, reply, next.store) && next.step
            == #[trigger] job.resume(reply, n)
}

/// Whether `run` is what can happen when a late file is kept.
pub open spec fn is_keeping(run: Seq<KeepingMoment>, source: Seq<u8>, dirs: Layout) -> bool {
    &&& run.len() > 0
    &&& run[0].step == Step::<KeepingView, Seq<u8>, Failure>::Ask(
        KeepingView::start(source, dirs),
    )
    &&& forall|i: int, j: int|
        0 <= i && j == i + 1 && j < run.len() ==> #[trigger] keeping_follows(run[i], run[j])
}

/// Whether `later` has all that `first` had, and at `file` what `source` holds.
pub open spec fn has_copy(first: Disk, later: Disk, source: Place, file: Place) -> bool {
    &&& first.is_kept_in(later)
    &&& file != source ==> !first.has(file) && later.has(file) && later.has(source)
        && later.nodes[file] == later.nodes[source]
}

spec fn is_kept_late(first: Disk, now: KeepingMoment, source: Seq<u8>, dirs: Layout) -> bool {
    match now.step {
        Step::Ask(job) => {
            &&& worker::is_about(job, source, dirs.media_dir())
            &&& first.is_kept_in(now.store.disk)
            &&& job matches KeepingView::AwaitCopy(copy) ==> is_staged(now.store, copy, source)
        },
        Step::Done(p) => has_copy(
            first,
            now.store.disk,
            path::place(source),
            path::place(p),
        ),
        Step::Failed(_) => first.is_kept_in(now.store.disk),
    }
}

proof fn lemma_kept_late(run: Seq<KeepingMoment>, source: Seq<u8>, dirs: Layout, i: int)
    requires
        is_keeping(run, source, dirs),
        0 <= i < run.len(),
    ensures
        is_kept_late(run[0].store.disk, run[i], source, dirs),
    decreases i,
{
    if i > 0 {
        lemma_kept_late(run, source, dirs, i - 1);
        let now = run[i - 1];
        let next = run[i];
        assert(keeping_follows(now, next));
        let job = now.step->Ask_0;
        let (reply, n) = choose|reply: AnswerView, n: u64|
            now.store.can_become(job.request(), None, reply, next.store) && next.step
                == #[trigger] job.resume(reply, n);
        worker::law_keeping_stays_about(job, source, dirs, reply, n);
        if let KeepingView::AwaitCopy(copy) = job {
            lemma_copying_step(
                now.store,
                next.store,
                copy,
                source,
                dirs.media_dir(),
                reply,
                n,
            );
        }
    }
}

/// A late file is found under the path that keeping it ends with, as it was, and
/// all that was on the disk before is still there, also when keeping it fails.
pub proof fn law_late_files_are_found_again(
    run: Seq<KeepingMoment>,
    source: Seq<u8>,
    dirs: Layout,
)
    requires
        is_keeping(run, source, dirs),
    ensures
        run[0].store.disk.is_kept_in(run.last().store.disk),
        run.last().step matches Step::Done(p) ==> has_copy(
            run[0].store.disk,
            run.last().store.disk,
            path::place(source),
            path::place(p),
        ),
{
    lemma_kept_late(run, source, dirs, run.len() - 1);
}

/// The store and a change of the attachment folder at one point of a run.
pub ghost struct ChangeMoment {
    pub store: Store,
    pub step: MediaDirChangeStep,
}

/// Whether the job's request, carried out on the store, can lead from one moment
/// to the next.
pub open spec fn change_follows(now: ChangeMoment, next: ChangeMoment) -> bool {
    now.step matches Step::Ask(job) && exists|reply: AnswerView, n: u64|
        now.store.can_become(job.request(), None, reply, next.store) && next.step
            == #[trigger] job.resume(reply, n)
}

/// Whether `run` is what can happen when the attachment folder is changed.
pub open spec fn is_change(run: Seq<ChangeMoment>, dirs: Layout, custom: Option<Seq<u8>>) -> bool {
    &&& run.len() > 0
    &&& run[0].step == change_laws::started(dirs, custom)
    &&& forall|i: int, j: int|
        0 <= i && j == i + 1 && j < run.len() ==> #[trigger] change_follows(run[i], run[j])
}

/// Whether every file that was to be removed was removed.
pub open spec fn is_tidy(run: Seq<ChangeMoment>) -> bool {
    forall|i: int, j: int|
        0 <= i && j == i + 1 && j < run.len() ==> #[trigger] is_tidy_step(run[i], run[j])
}

/// Whether the file that was to be removed, if any, was removed.
pub open spec fn is_tidy_step(now: ChangeMoment, next: ChangeMoment) -> bool {
    now.step matches Step::Ask(job) ==> (job.request() matches Request::Remove(p) ==> next.store.disk
        == store::without(now.store.disk, path::place(p)))
}

/// Whether a place is on the way to the default folder or the chosen one.
pub open spec fn is_on_the_way(q: Place, dirs: Layout, custom: Option<Seq<u8>>) -> bool {
    ||| path::is_on_the_way(q, dirs.media_cache_dir())
    ||| custom matches Some(chosen) && path::is_on_the_way(q, chosen)
}

/// Whether a place is that of one of the files.
pub open spec fn is_one_of(q: Place, files: Seq<Seq<u8>>) -> bool {
    exists|i: int| 0 <= i < files.len() && q == path::place(#[trigger] files[i])
}

/// Whether nothing is new on a disk but the files and directories on the way to
/// the folders.
pub open spec fn adds_only(
    first: Disk,
    later: Disk,
    files: Seq<Seq<u8>>,
    dirs: Layout,
    custom: Option<Seq<u8>>,
) -> bool {
    forall|q: Place|
        #[trigger] later.has(q) && !first.has(q) ==> is_one_of(q, files) || later.is_dir(q)
            && is_on_the_way(q, dirs, custom)
}

/// Whether none of the files was there before.
spec fn are_new(first: Disk, files: Seq<Seq<u8>>) -> bool {
    forall|i: int| 0 <= i < files.len() ==> !first.has(path::place(#[trigger] files[i]))
}

/// Whether what is known of a file is so: it is found where it is said to be, as
/// it was, or its path led nowhere to begin with.
pub open spec fn is_true_of(first: Disk, later: Disk, entry: Relocation<Seq<u8>>) -> bool {
    let source = path::place(entry.source);
    match entry.replacement {
        Some(p) => {
            &&& later.reaches(entry.source)
            &&& later.has(path::place(p))
            &&& later.nodes[path::place(p)] == later.nodes[source]
        },
        None => !first.reaches(entry.source),
    }
}

/// Whether all that is known is so.
pub open spec fn are_true(first: Disk, later: Disk, known: Seq<Relocation<Seq<u8>>>) -> bool {
    forall|j: int| 0 <= j < known.len() ==> is_true_of(first, later, #[trigger] known[j])
}

/// Whether a file is found in a copy now.
pub open spec fn is_copy(entry: Relocation<Seq<u8>>) -> bool {
    entry.replacement matches Some(p) && p != entry.source
}

/// Where the copy of a file is.
pub open spec fn copy_place(entry: Relocation<Seq<u8>>) -> Place {
    path::place(entry.replacement->0)
}

/// Whether no copy was there before, and no two copies are the same file.
pub open spec fn are_fresh(first: Disk, known: Seq<Relocation<Seq<u8>>>) -> bool {
    &&& forall|j: int|
        0 <= j < known.len() && is_copy(known[j]) ==> !first.has(copy_place(#[trigger] known[j]))
    &&& forall|i: int, j: int|
        0 <= i < j < known.len() && is_copy(known[i]) && is_copy(known[j]) ==> copy_place(
            #[trigger] known[i],
        ) != copy_place(#[trigger] known[j])
}

spec fn is_work_stored(
    first: Disk,
    now: Disk,
    work: WorkView,
    dirs: Layout,
    custom: Option<Seq<u8>>,
) -> bool {
    &&& first.is_kept_in(now)
    &&& are_new(first, work.copies)
    &&& adds_only(first, now, work.copies, dirs, custom)
    &&& are_true(first, now, work.paths)
    &&& are_fresh(first, work.paths)
}

spec fn is_step_stored(
    first: Disk,
    store: Store,
    step: MediaDirChangeStep,
    dirs: Layout,
    custom: Option<Seq<u8>>,
    tidy: bool,
) -> bool {
    let now = store.disk;
    &&& first.is_kept_in(now)
    &&& match step {
        Step::Ask(job) => change_laws::is_about(job, dirs, custom) && match job {
            MediaDirChangeView::AwaitProbe(work) => is_work_stored(first, now, work, dirs, custom),
            MediaDirChangeView::AwaitExistence { work, .. } => is_work_stored(
                first,
                now,
                work,
                dirs,
                custom,
            ),
            MediaDirChangeView::AwaitCopy { work, row, job } => {
                &&& is_work_stored(first, now, work, dirs, custom)
                &&& now.reaches(row.source)
                &&& copying::is_about(job, row.source, work.dir)
                &&& is_staged(store, job, row.source)
            },
            MediaDirChangeView::AwaitCommit(work) => is_work_stored(
                first,
                now,
                work,
                dirs,
                custom,
            ),
            MediaDirChangeView::AwaitRemoval { copies, outcome } => {
                &&& copies.len() > 0
                &&& outcome is Failed
                &&& are_new(first, copies)
                &&& tidy ==> adds_only(first, now, copies, dirs, custom)
            },
            _ => adds_only(first, now, Seq::empty(), dirs, custom),
        },
        Step::Done(changed) => are_true(first, now, changed.paths) && are_fresh(
            first,
            changed.paths,
        ),
        Step::Failed(_) => tidy ==> adds_only(first, now, Seq::empty(), dirs, custom),
    }
}

proof fn lemma_proceed_stored(
    first: Disk,
    store: Store,
    work: WorkView,
    dirs: Layout,
    custom: Option<Seq<u8>>,
    tidy: bool,
)
    requires
        is_work_stored(first, store.disk, work, dirs, custom),
    ensures
        is_step_stored(first, store, work.proceed(), dirs, custom, tidy),
    decreases work.rows.len(),
{
    if work.rows.len() > 0 {
        let row = work.rows[0];
        if let Some(replacement) = relocations::find(work.paths, row.source) {
            lemma_proceed_stored(
                first,
                store,
                work.without_first().with_update(row, replacement),
                dirs,
                custom,
                tidy,
            );
        }
    }
}

proof fn lemma_fail_stored(
    first: Disk,
    store: Store,
    work: WorkView,
    error: ChangeError,
    dirs: Layout,
    custom: Option<Seq<u8>>,
    tidy: bool,
)
    requires
        is_work_stored(first, store.disk, work, dirs, custom),
    ensures
        is_step_stored(first, store, work.fail(error), dirs, custom, tidy),
{
    if work.copies.len() == 0 {
        assert(work.copies =~= Seq::empty());
    }
}

proof fn lemma_with_path_stored(
    first: Disk,
    now: Disk,
    work: WorkView,
    row: Row<Seq<u8>>,
    replacement: Option<Seq<u8>>,
    dirs: Layout,
    custom: Option<Seq<u8>>,
)
    requires
        is_work_stored(first, now, work, dirs, custom),
        is_true_of(first, now, Relocation { source: row.source, replacement }),
        is_copy(Relocation { source: row.source, replacement }) ==> {
            let entry = Relocation { source: row.source, replacement };
            &&& !first.has(copy_place(entry))
            &&& forall|j: int|
                0 <= j < work.paths.len() && is_copy(work.paths[j]) ==> copy_place(
                    #[trigger] work.paths[j],
                ) != copy_place(entry)
        },
    ensures
        is_work_stored(first, now, work.with_path(row, replacement), dirs, custom),
{
    let known = work.with_path(row, replacement).paths;
    assert forall|j: int| 0 <= j < known.len() implies is_true_of(
        first,
        now,
        #[trigger] known[j],
    ) by {
        if j < work.paths.len() {
            assert(known[j] == work.paths[j]);
        }
    }
    assert forall|j: int| 0 <= j < known.len() && is_copy(known[j]) implies !first.has(
        copy_place(#[trigger] known[j]),
    ) by {
        if j < work.paths.len() {
            assert(known[j] == work.paths[j]);
        }
    }
    assert forall|i: int, j: int|
        0 <= i < j < known.len() && is_copy(known[i]) && is_copy(known[j]) implies copy_place(
        #[trigger] known[i],
    ) != copy_place(#[trigger] known[j]) by {
        assert(known[i] == work.paths[i]);
        if j < work.paths.len() {
            assert(known[j] == work.paths[j]);
        }
    }
}

proof fn lemma_new_copy_stored(
    first: Disk,
    now: Disk,
    next: Disk,
    work: WorkView,
    row: Row<Seq<u8>>,
    p: Seq<u8>,
    dirs: Layout,
    custom: Option<Seq<u8>>,
)
    requires
        is_work_stored(first, now, work, dirs, custom),
        gains_copy(now, next, path::place(row.source), path::place(p)),
        now.reaches(row.source),
    ensures
        is_work_stored(
            first,
            next,
            WorkView { copies: work.copies.push(p), ..work }.with_path(row, Some(p)),
            dirs,
            custom,
        ),
{
    let copy = path::place(p);
    let source = path::place(row.source);
    let bytes = choose|bytes: Seq<u8>|
        store::is_file(now, source, bytes) && next == #[trigger] store::with_file(now, copy, bytes);
    let copies = work.copies.push(p);
    assert forall|q: Place| #[trigger] first.has(q) implies next.has(q) && next.nodes[q]
        == first.nodes[q] by {
        assert(now.has(q));
    }
    assert forall|i: int| 0 <= i < copies.len() implies !first.has(
        path::place(#[trigger] copies[i]),
    ) by {
        if i < work.copies.len() {
            assert(copies[i] == work.copies[i]);
        }
    }
    assert forall|q: Place| #[trigger] next.has(q) && !first.has(q) implies is_one_of(q, copies)
        || next.is_dir(q) && is_on_the_way(q, dirs, custom) by {
        if q == copy {
            assert(copies[work.copies.len() as int] == p);
        } else {
            assert(now.has(q));
            if is_one_of(q, work.copies) {
                let i = choose|i: int|
                    0 <= i < work.copies.len() && q == path::place(#[trigger] work.copies[i]);
                assert(copies[i] == work.copies[i]);
            }
        }
    }
    assert forall|j: int| 0 <= j < work.paths.len() implies is_true_of(
        first,
        next,
        #[trigger] work.paths[j],
    ) by {
        assert(is_true_of(first, now, work.paths[j]));
        if work.paths[j].replacement is Some {
            disk::lemma_still_reaches(now, next, work.paths[j].source);
        }
    }
    disk::lemma_still_reaches(now, next, row.source);
    assert(!first.has(copy));
    assert forall|j: int| 0 <= j < work.paths.len() && is_copy(work.paths[j]) implies copy_place(
        #[trigger] work.paths[j],
    ) != copy by {
        assert(is_true_of(first, now, work.paths[j]));
    }
    let grown = WorkView { copies, ..work };
    lemma_with_path_stored(first, next, grown, row, Some(p), dirs, custom);
}

proof fn lemma_copy_step_stored(
    first: Disk,
    now: Store,
    next: Store,
    work: WorkView,
    row: Row<Seq<u8>>,
    job: CopyingView,
    reply: AnswerView,
    n: u64,
    dirs: Layout,
    custom: Option<Seq<u8>>,
    tidy: bool,
)
    requires
        is_work_stored(first, now.disk, work, dirs, custom),
        now.disk.reaches(row.source),
        copying::is_about(job, row.source, work.dir),
        is_staged(now, job, row.source),
        now.can_become(job.request(), None, reply, next),
    ensures
        is_step_stored(
            first,
            next,
            work.while_copying(row, job.resume(reply, n)),
            dirs,
            custom,
            tidy,
        ),
{
    lemma_copying_step(now, next, job, row.source, work.dir, reply, n);
    copying::law_copying_stays_about(job, row.source, work.dir, reply, n);
    match job.resume(reply, n) {
        Step::Ask(_) => {},
        Step::Done(copy) => {
            let copied = WorkView {
                copies: media_storage::with_copy(work.copies, copy),
                ..work
            }.with_path(row, Some(copy.path));
            if copy.is_new {
                lemma_new_copy_stored(
                    first,
                    now.disk,
                    next.disk,
                    work,
                    row,
                    copy.path,
                    dirs,
                    custom,
                );
            } else {
                lemma_with_path_stored(
                    first,
                    next.disk,
                    work,
                    row,
                    Some(copy.path),
                    dirs,
                    custom,
                );
            }
            lemma_proceed_stored(first, next, copied, dirs, custom, tidy);
        },
        Step::Failed(f) => {
            lemma_fail_stored(
                first,
                next,
                work,
                ChangeError::Failure(f),
                dirs,
                custom,
                tidy,
            );
        },
    }
}

proof fn lemma_creation_stored(
    first: Disk,
    now: Disk,
    next: Disk,
    dir: Seq<u8>,
    dirs: Layout,
    custom: Option<Seq<u8>>,
)
    requires
        first.is_kept_in(now),
        adds_only(first, now, Seq::empty(), dirs, custom),
        now.gains_dirs(next, dir),
        dir == dirs.media_cache_dir() || custom == Some(dir),
    ensures
        first.is_kept_in(next),
        adds_only(first, next, Seq::empty(), dirs, custom),
{
    assert forall|q: Place| #[trigger] first.has(q) implies next.has(q) && next.nodes[q]
        == first.nodes[q] by {
        assert(now.has(q));
    }
    assert forall|q: Place| #[trigger] next.has(q) && !first.has(q) implies is_one_of(
        q,
        Seq::empty(),
    ) || next.is_dir(q) && is_on_the_way(q, dirs, custom) by {
        if now.has(q) {
            assert(now.is_dir(q));
        }
    }
}

proof fn lemma_removal_stored(
    first: Disk,
    now: Disk,
    next: Disk,
    copies: Seq<Seq<u8>>,
    dirs: Layout,
    custom: Option<Seq<u8>>,
    tidy: bool,
)
    requires
        first.is_kept_in(now),
        copies.len() > 0,
        are_new(first, copies),
        tidy ==> adds_only(first, now, copies, dirs, custom),
        next == store::without(now, path::place(copies[0])) || next == now,
        tidy ==> next == store::without(now, path::place(copies[0])),
    ensures
        first.is_kept_in(next),
        are_new(first, copies.drop_first()),
        tidy ==> adds_only(first, next, copies.drop_first(), dirs, custom),
{
    let left = copies.drop_first();
    assert(!first.has(path::place(copies[0])));
    assert forall|q: Place| #[trigger] first.has(q) implies next.has(q) && next.nodes[q]
        == first.nodes[q] by {
        assert(now.has(q));
    }
    assert forall|i: int| 0 <= i < left.len() implies !first.has(
        path::place(#[trigger] left[i]),
    ) by {
        assert(left[i] == copies[i + 1]);
    }
    if tidy {
        assert forall|q: Place| #[trigger] next.has(q) && !first.has(q) implies is_one_of(q, left)
            || next.is_dir(q) && is_on_the_way(q, dirs, custom) by {
            assert(now.has(q));
            if is_one_of(q, copies) {
                let i = choose|i: int|
                    0 <= i < copies.len() && q == path::place(#[trigger] copies[i]);
                assert(i > 0);
                assert(left[i - 1] == copies[i]);
            }
        }
    }
}

proof fn lemma_change_step(
    first: Disk,
    now: ChangeMoment,
    next: ChangeMoment,
    dirs: Layout,
    custom: Option<Seq<u8>>,
    tidy: bool,
)
    requires
        change_follows(now, next),
        is_step_stored(first, now.store, now.step, dirs, custom, tidy),
        tidy ==> is_tidy_step(now, next),
    ensures
        is_step_stored(first, next.store, next.step, dirs, custom, tidy),
{
    let job = now.step->Ask_0;
    let (reply, n) = choose|reply: AnswerView, n: u64|
        now.store.can_become(job.request(), None, reply, next.store) && next.step
            == #[trigger] job.resume(reply, n);
    match job {
        MediaDirChangeView::AwaitCreation { dir, .. } => {
            lemma_creation_stored(first, now.store.disk, next.store.disk, dir, dirs, custom);
        },
        MediaDirChangeView::AwaitProbe(work) => {
            match reply {
                Reply::Done => {
                    lemma_proceed_stored(first, next.store, work, dirs, custom, tidy);
                },
                Reply::Failed(f) => {
                    lemma_fail_stored(
                        first,
                        next.store,
                        work,
                        ChangeError::Failure(f),
                        dirs,
                        custom,
                        tidy,
                    );
                },
                Reply::TaskFailed => {
                    lemma_fail_stored(
                        first,
                        next.store,
                        work,
                        ChangeError::TaskFailed,
                        dirs,
                        custom,
                        tidy,
                    );
                },
                _ => {},
            }
        },
        MediaDirChangeView::AwaitExistence { work, row } => {
            match reply {
                Reply::Flag(true) => {
                    copying::law_copying_stays_about(
                        CopyingView::AwaitStaging { source: row.source, name: row.source, dir: work.dir },
                        row.source,
                        work.dir,
                        reply,
                        n,
                    );
                    lemma_fail_stored(
                        first,
                        next.store,
                        work,
                        ChangeError::Failure(Failure::InvalidInput),
                        dirs,
                        custom,
                        tidy,
                    );
                },
                Reply::Flag(false) => {
                    if first.reaches(row.source) {
                        disk::lemma_still_reaches(first, now.store.disk, row.source);
                    }
                    lemma_with_path_stored(first, next.store.disk, work, row, None, dirs, custom);
                    lemma_proceed_stored(
                        first,
                        next.store,
                        work.with_path(row, None),
                        dirs,
                        custom,
                        tidy,
                    );
                },
                Reply::Failed(f) => {
                    lemma_fail_stored(
                        first,
                        next.store,
                        work,
                        ChangeError::Failure(f),
                        dirs,
                        custom,
                        tidy,
                    );
                },
                Reply::TaskFailed => {
                    lemma_fail_stored(
                        first,
                        next.store,
                        work,
                        ChangeError::TaskFailed,
                        dirs,
                        custom,
                        tidy,
                    );
                },
                _ => {},
            }
        },
        MediaDirChangeView::AwaitCopy { work, row, job } => {
            if reply is TaskFailed {
                lemma_copying_step(now.store, next.store, job, row.source, work.dir, reply, n);
                lemma_fail_stored(
                    first,
                    next.store,
                    work,
                    ChangeError::TaskFailed,
                    dirs,
                    custom,
                    tidy,
                );
            } else {
                lemma_copy_step_stored(
                    first,
                    now.store,
                    next.store,
                    work,
                    row,
                    job,
                    reply,
                    n,
                    dirs,
                    custom,
                    tidy,
                );
            }
        },
        MediaDirChangeView::AwaitCommit(work) => {
            if let Reply::Failed(f) = reply {
                lemma_fail_stored(
                    first,
                    next.store,
                    work,
                    ChangeError::Failure(f),
                    dirs,
                    custom,
                    tidy,
                );
            }
        },
        MediaDirChangeView::AwaitRemoval { copies, .. } => {
            lemma_removal_stored(
                first,
                now.store.disk,
                next.store.disk,
                copies,
                dirs,
                custom,
                tidy,
            );
            if copies.len() == 1 {
                assert(copies.drop_first() =~= Seq::empty());
            }
        },
        _ => {},
    }
}

proof fn lemma_change_stored(
    run: Seq<ChangeMoment>,
    dirs: Layout,
    custom: Option<Seq<u8>>,
    tidy: bool,
    i: int,
)
    requires
        is_change(run, dirs, custom),
        tidy ==> is_tidy(run),
        0 <= i < run.len(),
    ensures
        is_step_stored(run[0].store.disk, run[i].store, run[i].step, dirs, custom, tidy),
    decreases i,
{
    if i > 0 {
        lemma_change_stored(run, dirs, custom, tidy, i - 1);
        assert(change_follows(run[i - 1], run[i]));
        assert(tidy ==> is_tidy_step(run[i - 1], run[i]));
        lemma_change_step(run[0].store.disk, run[i - 1], run[i], dirs, custom, tidy);
    }
}

/// Whatever becomes of a change, all that was on the disk before stays there as
/// it was: neither the attachments nor any other file is touched.
pub proof fn law_change_touches_no_existing_file(
    run: Seq<ChangeMoment>,
    dirs: Layout,
    custom: Option<Seq<u8>>,
    i: int,
)
    requires
        is_change(run, dirs, custom),
        0 <= i < run.len(),
    ensures
        run[0].store.disk.is_kept_in(run[i].store.disk),
{
    lemma_change_stored(run, dirs, custom, false, i);
}

/// After a change, every attachment is found where it is said to be, as it was;
/// and what is said to be gone was not there to begin with. Every copy is a new
/// file, and each is another one.
pub proof fn law_attachments_are_found_again(
    run: Seq<ChangeMoment>,
    dirs: Layout,
    custom: Option<Seq<u8>>,
)
    requires
        is_change(run, dirs, custom),
    ensures
        run.last().step matches Step::Done(changed) ==> are_true(
            run[0].store.disk,
            run.last().store.disk,
            changed.paths,
        ) && are_fresh(run[0].store.disk, changed.paths),
{
    lemma_change_stored(run, dirs, custom, false, run.len() - 1);
}

/// A failed change leaves no file behind: once the files that it asked to remove
/// are removed, nothing is new but directories on the way to the folders.
pub proof fn law_failed_change_leaves_no_files(
    run: Seq<ChangeMoment>,
    dirs: Layout,
    custom: Option<Seq<u8>>,
)
    requires
        is_change(run, dirs, custom),
        is_tidy(run),
    ensures
        run.last().step is Failed ==> adds_only(
            run[0].store.disk,
            run.last().store.disk,
            Seq::empty(),
            dirs,
            custom,
        ),
{
    lemma_change_stored(run, dirs, custom, true, run.len() - 1);
}

} // verus!
