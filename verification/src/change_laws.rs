//! What holds of every change of the attachment folder, whatever is replied.

use vstd::prelude::*;
use crate::copying;
use crate::copying::CopyingView;
use crate::io::{AnswerView, Failure, Reply, Request, Row, Step};
use crate::media_storage;
use crate::media_storage::{
    ChangeError, ChangedView, MediaDirChangeStep, MediaDirChangeView, Outcome, Update, WorkView,
};
use crate::locate::{LocatorStep, LocatorView};
use crate::path;
use crate::paths;
use crate::paths::Layout;
use crate::publish;
use crate::relocations;
use crate::relocations::Relocation;
use crate::resolve;
use crate::resolve::{FileSystem, ResolverView};

verus! {

/// What was found out before a custom folder was accepted.
pub ghost struct Check {
    pub dir: Seq<u8>,
    pub form: Option<Seq<u8>>,
    pub cache_form: Option<Seq<u8>>,
}

/// What a chosen folder and the default one were located as.
pub ghost struct Comparison {
    pub form: Option<Seq<u8>>,
    pub default_form: Option<Seq<u8>>,
}

/// What has happened in the course of a change.
pub ghost struct Account {
    /// What the chosen folder was compared by.
    pub compared: Option<Comparison>,
    /// The canonical path of the folder.
    pub folder: Option<Seq<u8>>,
    pub checked: Option<Check>,
    /// The folder that was found to take files.
    pub probed: Option<Seq<u8>>,
    /// The attachments that the archive knew.
    pub loaded: Option<Seq<Row<Seq<u8>>>>,
    /// The files that were made, in order.
    pub published: Seq<Seq<u8>>,
    /// The paths that the archive took over.
    pub committed: Option<Seq<Update<Seq<u8>>>>,
    /// The files that were removed, in order.
    pub removed: Seq<Seq<u8>>,
}

impl Account {
    /// Nothing has happened.
    pub open spec fn empty() -> Account {
        Account {
            compared: None,
            folder: None,
            checked: None,
            probed: None,
            loaded: None,
            published: Seq::empty(),
            committed: None,
            removed: Seq::empty(),
        }
    }

    /// What has happened once the request of `job` got a reply.
    pub open spec fn noted(self, job: MediaDirChangeView, reply: AnswerView) -> Account {
        Account {
            compared: match job {
                MediaDirChangeView::AwaitDefault { form, locator, .. } => match locator.resume(
                    reply,
                ) {
                    Step::Ask(_) => self.compared,
                    end => Some(Comparison { form, default_form: media_storage::found(end) }),
                },
                _ => self.compared,
            },
            folder: match (job, reply) {
                (MediaDirChangeView::AwaitDir { .. }, Reply::Path(p)) => Some(p),
                _ => self.folder,
            },
            checked: match job {
                MediaDirChangeView::AwaitBoundaryCache { dir, form, locator, .. } => match locator.resume(
                    reply,
                ) {
                    Step::Ask(_) => self.checked,
                    end => Some(Check { dir, form, cache_form: media_storage::found(end) }),
                },
                _ => self.checked,
            },
            probed: match (job.request(), reply) {
                (Request::Probe(dir), Reply::Done) => Some(dir),
                _ => self.probed,
            },
            loaded: match (job.request(), reply) {
                (Request::LoadRows, Reply::Rows(rows)) => Some(rows),
                _ => self.loaded,
            },
            published: match (job.request(), reply) {
                (Request::Persist(target), Reply::Done) => self.published.push(target),
                _ => self.published,
            },
            committed: match (job, reply) {
                (MediaDirChangeView::AwaitCommit(work), Reply::Done) => Some(work.updates),
                _ => self.committed,
            },
            removed: match job.request() {
                Request::Remove(p) => self.removed.push(p),
                _ => self.removed,
            },
        }
    }
}

/// Where a change stands after some replies, each with the number for the next
/// name.
pub open spec fn after(step: MediaDirChangeStep, replies: Seq<(AnswerView, u64)>) -> MediaDirChangeStep
    decreases replies.len(),
{
    match step {
        Step::Ask(job) if replies.len() > 0 => after(
            job.resume(replies[0].0, replies[0].1),
            replies.drop_first(),
        ),
        _ => step,
    }
}

/// What has happened after some replies, if `account` had happened before.
pub open spec fn account_of(
    account: Account,
    step: MediaDirChangeStep,
    replies: Seq<(AnswerView, u64)>,
) -> Account
    decreases replies.len(),
{
    match step {
        Step::Ask(job) if replies.len() > 0 => account_of(
            account.noted(job, replies[0].0),
            job.resume(replies[0].0, replies[0].1),
            replies.drop_first(),
        ),
        _ => account,
    }
}

/// Whether each row has its update: for the same message, with the path that is
/// known for its file.
pub open spec fn are_answered(
    rows: Seq<Row<Seq<u8>>>,
    updates: Seq<Update<Seq<u8>>>,
    known: Seq<Relocation<Seq<u8>>>,
) -> bool {
    &&& updates.len() == rows.len()
    &&& forall|i: int|
        0 <= i < rows.len() ==> {
            &&& (#[trigger] updates[i]).chat == rows[i].chat
            &&& updates[i].id == rows[i].id
            &&& relocations::find(known, rows[i].source) == Some(updates[i].replacement)
        }
}

/// Whether every file of which something is known is the file of a row.
pub open spec fn are_from(
    known: Seq<Relocation<Seq<u8>>>,
    rows: Seq<Row<Seq<u8>>>,
) -> bool {
    forall|j: int|
        0 <= j < known.len() ==> exists|i: int|
            0 <= i < rows.len() && (#[trigger] rows[i]).source == (#[trigger] known[j]).source
}

/// Whether a file is in a folder.
pub open spec fn is_in(p: Seq<u8>, dir: Seq<u8>) -> bool {
    path::components(p).len() > 0 && path::components(p).drop_last() == path::components(dir)
}

/// Whether every file that is found somewhere else now is a copy in the folder.
pub open spec fn are_placed(known: Seq<Relocation<Seq<u8>>>, dir: Seq<u8>) -> bool {
    forall|j: int|
        0 <= j < known.len() ==> ((#[trigger] known[j]).replacement matches Some(p) ==> p
            == known[j].source || is_in(p, dir))
}

/// Whether every copy is in the folder and is what some file is found in now,
/// and whether there is no more than one for each file.
pub open spec fn are_used(
    copies: Seq<Seq<u8>>,
    known: Seq<Relocation<Seq<u8>>>,
    dir: Seq<u8>,
) -> bool {
    &&& copies.len() <= known.len()
    &&& forall|i: int|
        0 <= i < copies.len() ==> is_in(#[trigger] copies[i], dir) && exists|j: int|
            0 <= j < known.len() && (#[trigger] known[j]).replacement == Some(copies[i])
}

/// Whether a custom folder was found to lie outside the cache.
pub open spec fn is_checked(checked: Option<Check>, dir: Seq<u8>, dirs: Layout) -> bool {
    checked matches Some(check) && check.dir == dir && !paths::is_subpath(
        dir,
        dirs.cache,
        check.form,
        check.cache_form,
    )
}

/// What is known of a change that is copying, `taken` attachments into `rows`.
pub open spec fn is_under_way(
    work: WorkView,
    account: Account,
    dirs: Layout,
    rows: Seq<Row<Seq<u8>>>,
    taken: nat,
) -> bool {
    &&& account.folder == Some(work.dir)
    &&& work.custom ==> is_checked(account.checked, work.dir, dirs)
    &&& account.loaded == Some(rows)
    &&& account.published == work.copies
    &&& account.committed is None
    &&& account.removed.len() == 0
    &&& work.updates.len() <= taken <= rows.len()
    &&& work.rows == rows.skip(taken as int)
    &&& are_answered(rows.take(work.updates.len() as int), work.updates, work.paths)
    &&& relocations::is_map(work.paths)
    &&& are_from(work.paths, rows)
    &&& are_placed(work.paths, work.dir)
    &&& are_used(work.copies, work.paths, work.dir)
}

/// What is known of a change before it has read the archive.
pub open spec fn is_fresh(account: Account) -> bool {
    &&& account.loaded is None
    &&& account.published.len() == 0
    &&& account.committed is None
    &&& account.removed.len() == 0
}

/// What is known of a change that still asks for something.
pub open spec fn is_job_kept(job: MediaDirChangeView, account: Account, dirs: Layout) -> bool {
    match job {
        MediaDirChangeView::AwaitCustom { dirs: d, .. } => is_fresh(account) && d == dirs,
        MediaDirChangeView::AwaitDefault { dirs: d, .. } => is_fresh(account) && d == dirs,
        MediaDirChangeView::AwaitCreation { dirs: d, .. } => is_fresh(account) && d == dirs,
        MediaDirChangeView::AwaitDir { dirs: d, .. } => is_fresh(account) && d == dirs,
        MediaDirChangeView::AwaitBoundaryDir { dirs: d, dir, .. } => {
            &&& is_fresh(account)
            &&& d == dirs
            &&& account.folder == Some(dir)
        },
        MediaDirChangeView::AwaitBoundaryCache { dirs: d, dir, .. } => {
            &&& is_fresh(account)
            &&& d == dirs
            &&& account.folder == Some(dir)
        },
        MediaDirChangeView::AwaitRows { custom, dir } => {
            &&& is_fresh(account)
            &&& account.folder == Some(dir)
            &&& custom ==> is_checked(account.checked, dir, dirs)
        },
        MediaDirChangeView::AwaitProbe(work) => {
            &&& account.loaded matches Some(rows)
            &&& is_under_way(work, account, dirs, rows, 0)
        },
        MediaDirChangeView::AwaitExistence { work, row } => {
            &&& account.loaded matches Some(rows)
            &&& is_under_way(work, account, dirs, rows, work.updates.len() + 1)
            &&& row == rows[work.updates.len() as int]
            &&& relocations::find(work.paths, row.source) is None
            &&& account.probed == Some(work.dir)
        },
        MediaDirChangeView::AwaitCopy { work, row, job } => {
            &&& account.loaded matches Some(rows)
            &&& is_under_way(work, account, dirs, rows, work.updates.len() + 1)
            &&& row == rows[work.updates.len() as int]
            &&& relocations::find(work.paths, row.source) is None
            &&& account.probed == Some(work.dir)
            &&& copying::is_about(job, row.source, work.dir)
        },
        MediaDirChangeView::AwaitCommit(work) => {
            &&& account.loaded matches Some(rows)
            &&& is_under_way(work, account, dirs, rows, rows.len())
            &&& work.updates.len() == rows.len()
            &&& account.probed == Some(work.dir)
        },
        MediaDirChangeView::AwaitRemoval { copies, outcome } => {
            &&& copies.len() > 0
            &&& outcome is Failed
            &&& account.committed is None
            &&& account.published == account.removed + copies
        },
    }
}

/// What is known of a change that has succeeded.
pub open spec fn is_success_kept(changed: ChangedView, account: Account, dirs: Layout) -> bool {
    &&& account.folder matches Some(dir)
    &&& changed.custom matches Some(custom) ==> custom == dir && is_checked(
        account.checked,
        dir,
        dirs,
    )
    &&& account.probed == Some(dir)
    &&& account.loaded matches Some(rows)
    &&& account.committed matches Some(updates)
    &&& are_answered(rows, updates, changed.paths)
    &&& relocations::is_map(changed.paths)
    &&& are_from(changed.paths, rows)
    &&& are_placed(changed.paths, dir)
    &&& are_used(account.published, changed.paths, dir)
    &&& account.removed.len() == 0
}

/// What is known of a change.
pub open spec fn is_kept(step: MediaDirChangeStep, account: Account, dirs: Layout) -> bool {
    match step {
        Step::Ask(job) => is_job_kept(job, account, dirs),
        Step::Done(changed) => is_success_kept(changed, account, dirs),
        Step::Failed(_) => account.removed == account.published && account.committed is None,
    }
}

proof fn lemma_answer_one_more(
    rows: Seq<Row<Seq<u8>>>,
    updates: Seq<Update<Seq<u8>>>,
    known: Seq<Relocation<Seq<u8>>>,
    update: Update<Seq<u8>>,
)
    requires
        updates.len() < rows.len(),
        are_answered(rows.take(updates.len() as int), updates, known),
        update.chat == rows[updates.len() as int].chat,
        update.id == rows[updates.len() as int].id,
        relocations::find(known, rows[updates.len() as int].source) == Some(update.replacement),
    ensures
        are_answered(rows.take(updates.len() as int + 1), updates.push(update), known),
{
    let front = rows.take(updates.len() as int);
    let longer = rows.take(updates.len() as int + 1);
    assert forall|i: int| 0 <= i < longer.len() implies {
        &&& (#[trigger] updates.push(update)[i]).chat == longer[i].chat
        &&& updates.push(update)[i].id == longer[i].id
        &&& relocations::find(known, longer[i].source) == Some(updates.push(update)[i].replacement)
    } by {
        if i < updates.len() {
            assert(updates[i].chat == front[i].chat);
        }
    }
}

proof fn lemma_proceed(work: WorkView, account: Account, dirs: Layout, rows: Seq<Row<Seq<u8>>>)
    requires
        is_under_way(work, account, dirs, rows, work.updates.len()),
        account.probed == Some(work.dir),
    ensures
        is_kept(work.proceed(), account, dirs),
    decreases work.rows.len(),
{
    let k = work.updates.len() as int;
    if work.rows.len() > 0 {
        let row = work.rows[0];
        assert(row == rows[k]);
        assert(work.rows.drop_first() =~= rows.skip(k + 1));
        if let Some(replacement) = relocations::find(work.paths, row.source) {
            let next = work.without_first().with_update(row, replacement);
            let update = Update { chat: row.chat, id: row.id, replacement };
            lemma_answer_one_more(rows, work.updates, work.paths, update);
            lemma_proceed(next, account, dirs, rows);
        }
    }
}

proof fn lemma_with_path(
    work: WorkView,
    account: Account,
    dirs: Layout,
    rows: Seq<Row<Seq<u8>>>,
    row: Row<Seq<u8>>,
    replacement: Option<Seq<u8>>,
)
    requires
        is_under_way(work, account, dirs, rows, work.updates.len() + 1),
        row == rows[work.updates.len() as int],
        relocations::find(work.paths, row.source) is None,
        replacement matches Some(p) ==> p == row.source || is_in(p, work.dir),
    ensures
        is_under_way(
            work.with_path(row, replacement),
            account,
            dirs,
            rows,
            work.updates.len() + 1,
        ),
{
    let entry = Relocation { source: row.source, replacement };
    let known = work.paths.push(entry);
    let front = rows.take(work.updates.len() as int);
    relocations::lemma_find(work.paths, row.source);
    assert forall|i: int| 0 <= i < front.len() implies {
        &&& (#[trigger] work.updates[i]).chat == front[i].chat
        &&& work.updates[i].id == front[i].id
        &&& relocations::find(known, front[i].source) == Some(work.updates[i].replacement)
    } by {
        relocations::lemma_find_push(work.paths, entry, front[i].source);
    }
    relocations::lemma_find_push(work.paths, entry, row.source);
    lemma_answer_one_more(
        rows,
        work.updates,
        known,
        Update { chat: row.chat, id: row.id, replacement },
    );
    assert forall|j: int| 0 <= j < known.len() implies exists|i: int|
        0 <= i < rows.len() && (#[trigger] rows[i]).source == (#[trigger] known[j]).source by {
        if j < work.paths.len() {
            assert(known[j] == work.paths[j]);
        } else {
            assert(rows[work.updates.len() as int].source == known[j].source);
        }
    }
    assert forall|i: int| 0 <= i < work.copies.len() implies is_in(
        #[trigger] work.copies[i],
        work.dir,
    ) && exists|j: int|
        0 <= j < known.len() && (#[trigger] known[j]).replacement == Some(work.copies[i]) by {
        let j = choose|j: int|
            0 <= j < work.paths.len() && (#[trigger] work.paths[j]).replacement == Some(
                work.copies[i],
            );
        assert(known[j] == work.paths[j]);
    }
}

proof fn lemma_new_copy(
    work: WorkView,
    account: Account,
    dirs: Layout,
    rows: Seq<Row<Seq<u8>>>,
    row: Row<Seq<u8>>,
    p: Seq<u8>,
)
    requires
        is_under_way(work, account, dirs, rows, work.updates.len() + 1),
        row == rows[work.updates.len() as int],
        relocations::find(work.paths, row.source) is None,
        is_in(p, work.dir),
    ensures
        is_under_way(
            WorkView { copies: work.copies.push(p), ..work }.with_path(row, Some(p)),
            Account { published: account.published.push(p), ..account },
            dirs,
            rows,
            work.updates.len() + 1,
        ),
{
    lemma_with_path(work, account, dirs, rows, row, Some(p));
    let known = work.with_path(row, Some(p)).paths;
    let copies = work.copies.push(p);
    assert forall|i: int| 0 <= i < copies.len() implies is_in(#[trigger] copies[i], work.dir)
        && exists|j: int|
        0 <= j < known.len() && (#[trigger] known[j]).replacement == Some(copies[i]) by {
        if i < work.copies.len() {
            assert(copies[i] == work.copies[i]);
        } else {
            assert(known[work.paths.len() as int].replacement == Some(copies[i]));
        }
    }
}

proof fn lemma_fail(
    work: WorkView,
    account: Account,
    dirs: Layout,
    rows: Seq<Row<Seq<u8>>>,
    taken: nat,
    error: ChangeError,
)
    requires
        is_under_way(work, account, dirs, rows, taken),
    ensures
        is_kept(work.fail(error), account, dirs),
{
    assert(account.removed + work.copies =~= work.copies);
    if work.copies.len() == 0 {
        assert(account.removed =~= account.published);
    }
}

proof fn lemma_copying(
    work: WorkView,
    account: Account,
    dirs: Layout,
    rows: Seq<Row<Seq<u8>>>,
    row: Row<Seq<u8>>,
    job: CopyingView,
    reply: AnswerView,
    n: u64,
)
    requires
        is_job_kept(MediaDirChangeView::AwaitCopy { work, row, job }, account, dirs),
        account.loaded == Some(rows),
        !(reply is TaskFailed),
    ensures
        is_kept(
            work.while_copying(row, job.resume(reply, n)),
            account.noted(MediaDirChangeView::AwaitCopy { work, row, job }, reply),
            dirs,
        ),
{
    let noted = account.noted(MediaDirChangeView::AwaitCopy { work, row, job }, reply);
    copying::law_copying_stays_about(job, row.source, work.dir, reply, n);
    copying::law_copy_is_in_the_folder(job, row.source, work.dir, reply, n);
    copying::law_copying_writes_only_to_the_folder(job, row.source, work.dir);
    match job.resume(reply, n) {
        Step::Ask(_) => {},
        Step::Done(copy) => {
            if copy.is_new {
                lemma_new_copy(work, account, dirs, rows, row, copy.path);
                lemma_proceed(
                    WorkView { copies: work.copies.push(copy.path), ..work }.with_path(
                        row,
                        Some(copy.path),
                    ),
                    noted,
                    dirs,
                    rows,
                );
            } else {
                lemma_with_path(work, account, dirs, rows, row, Some(copy.path));
                lemma_proceed(work.with_path(row, Some(copy.path)), noted, dirs, rows);
            }
        },
        Step::Failed(f) => {
            lemma_fail(
                work,
                account,
                dirs,
                rows,
                work.updates.len() + 1,
                ChangeError::Failure(f),
            );
        },
    }
}

/// What is known of a change stays known after every reply.
pub proof fn law_replies_keep_account(
    job: MediaDirChangeView,
    account: Account,
    dirs: Layout,
    reply: AnswerView,
    n: u64,
)
    requires
        is_job_kept(job, account, dirs),
    ensures
        is_kept(job.resume(reply, n), account.noted(job, reply), dirs),
{
    let noted = account.noted(job, reply);
    match job {
        MediaDirChangeView::AwaitRows { custom, dir } => {
            if let Reply::Rows(rows) = reply {
                assert(rows.skip(0) =~= rows);
                assert(noted.published =~= Seq::empty());
            } else {
                assert(noted.removed =~= noted.published);
            }
        },
        MediaDirChangeView::AwaitProbe(work) => {
            let rows = account.loaded->0;
            match reply {
                Reply::Done => lemma_proceed(work, noted, dirs, rows),
                Reply::Failed(f) => {
                    lemma_fail(work, account, dirs, rows, 0, ChangeError::Failure(f));
                },
                Reply::TaskFailed => {
                    lemma_fail(work, account, dirs, rows, 0, ChangeError::TaskFailed);
                },
                _ => {},
            }
        },
        MediaDirChangeView::AwaitExistence { work, row } => {
            let rows = account.loaded->0;
            let taken = work.updates.len() + 1;
            match reply {
                Reply::Flag(true) => {
                    copying::law_copying_stays_about(
                        CopyingView::AwaitStaging { source: row.source, name: row.source, dir: work.dir },
                        row.source,
                        work.dir,
                        reply,
                        n,
                    );
                    lemma_fail(
                        work,
                        account,
                        dirs,
                        rows,
                        taken,
                        ChangeError::Failure(Failure::InvalidInput),
                    );
                },
                Reply::Flag(false) => {
                    lemma_with_path(work, account, dirs, rows, row, None);
                    lemma_proceed(work.with_path(row, None), account, dirs, rows);
                },
                Reply::Failed(f) => {
                    lemma_fail(work, account, dirs, rows, taken, ChangeError::Failure(f));
                },
                Reply::TaskFailed => {
                    lemma_fail(work, account, dirs, rows, taken, ChangeError::TaskFailed);
                },
                _ => {},
            }
        },
        MediaDirChangeView::AwaitCopy { work, row, job } => {
            let rows = account.loaded->0;
            if reply is TaskFailed {
                copying::law_copying_writes_only_to_the_folder(job, row.source, work.dir);
                lemma_fail(
                    work,
                    account,
                    dirs,
                    rows,
                    work.updates.len() + 1,
                    ChangeError::TaskFailed,
                );
            } else {
                lemma_copying(work, account, dirs, rows, row, job, reply, n);
            }
        },
        MediaDirChangeView::AwaitCommit(work) => {
            let rows = account.loaded->0;
            match reply {
                Reply::Done => {
                    assert(rows.take(rows.len() as int) =~= rows);
                },
                Reply::Failed(f) => {
                    lemma_fail(
                        work,
                        account,
                        dirs,
                        rows,
                        rows.len(),
                        ChangeError::Failure(f),
                    );
                },
                _ => {},
            }
        },
        MediaDirChangeView::AwaitRemoval { copies, outcome } => {
            assert(account.removed + copies =~= account.removed.push(copies[0])
                + copies.drop_first());
            if copies.len() == 1 {
                assert(noted.removed =~= noted.published);
            }
        },
        _ => {
            assert(noted.removed =~= noted.published);
        },
    }
}

/// What is known of a change stays known after any replies.
pub proof fn law_changes_are_kept(
    step: MediaDirChangeStep,
    account: Account,
    dirs: Layout,
    replies: Seq<(AnswerView, u64)>,
)
    requires
        is_kept(step, account, dirs),
    ensures
        is_kept(after(step, replies), account_of(account, step, replies), dirs),
    decreases replies.len(),
{
    if let Step::Ask(job) = step {
        if replies.len() > 0 {
            law_replies_keep_account(job, account, dirs, replies[0].0, replies[0].1);
            law_changes_are_kept(
                job.resume(replies[0].0, replies[0].1),
                account.noted(job, replies[0].0),
                dirs,
                replies.drop_first(),
            );
        }
    }
}

/// The start of a change.
pub open spec fn started(dirs: Layout, custom: Option<Seq<u8>>) -> MediaDirChangeStep {
    Step::Ask(MediaDirChangeView::start(dirs, custom))
}

/// What has happened in the course of a change from its start.
pub open spec fn account_from_start(
    dirs: Layout,
    custom: Option<Seq<u8>>,
    replies: Seq<(AnswerView, u64)>,
) -> Account {
    account_of(Account::empty(), started(dirs, custom), replies)
}

/// A change either succeeds as a whole or leaves nothing behind.
///
/// When it has succeeded, the archive took over one update for each of its rows,
/// in order, and no file was removed. When it has failed, the archive took over
/// nothing, and every file that was made was removed again. At no time is
/// anything removed but files that the change has made itself.
pub proof fn law_change_is_all_or_nothing(
    dirs: Layout,
    custom: Option<Seq<u8>>,
    replies: Seq<(AnswerView, u64)>,
)
    ensures
        account_from_start(dirs, custom, replies).removed.is_prefix_of(
            account_from_start(dirs, custom, replies).published,
        ),
        after(started(dirs, custom), replies) matches Step::Done(changed) ==> {
            let account = account_from_start(dirs, custom, replies);
            &&& account.removed.len() == 0
            &&& account.loaded matches Some(rows)
            &&& account.committed matches Some(updates)
            &&& are_answered(rows, updates, changed.paths)
        },
        after(started(dirs, custom), replies) is Failed ==> {
            let account = account_from_start(dirs, custom, replies);
            &&& account.removed == account.published
            &&& account.committed is None
        },
        after(started(dirs, custom), replies) is Ask ==> account_from_start(
            dirs,
            custom,
            replies,
        ).committed is None,
{
    let account = account_from_start(dirs, custom, replies);
    law_changes_are_kept(started(dirs, custom), Account::empty(), dirs, replies);
    match after(started(dirs, custom), replies) {
        Step::Ask(MediaDirChangeView::AwaitRemoval { copies, .. }) => {
            assert(account.removed =~= account.published.subrange(
                0,
                account.removed.len() as int,
            ));
        },
        _ => {
            assert(account.removed =~= account.published.subrange(
                0,
                account.removed.len() as int,
            ));
        },
    }
}

/// What is told of a successful change is one entry for each file that the
/// archive knew. A file that is found elsewhere now is found in the folder. Every
/// file that was made is told of, and no file was copied twice.
pub proof fn law_all_files_are_accounted_for(
    dirs: Layout,
    custom: Option<Seq<u8>>,
    replies: Seq<(AnswerView, u64)>,
)
    ensures
        after(started(dirs, custom), replies) matches Step::Done(changed) ==> {
            let account = account_from_start(dirs, custom, replies);
            &&& account.folder matches Some(dir)
            &&& account.loaded matches Some(rows)
            &&& relocations::is_map(changed.paths)
            &&& are_from(changed.paths, rows)
            &&& are_placed(changed.paths, dir)
            &&& are_used(account.published, changed.paths, dir)
        },
{
    law_changes_are_kept(started(dirs, custom), Account::empty(), dirs, replies);
}

/// A folder is accepted only if it takes files, and a custom folder only if it
/// lies outside the cache.
pub proof fn law_only_fitting_folders_are_accepted(
    dirs: Layout,
    custom: Option<Seq<u8>>,
    replies: Seq<(AnswerView, u64)>,
)
    ensures
        after(started(dirs, custom), replies) matches Step::Done(changed) ==> {
            let account = account_from_start(dirs, custom, replies);
            &&& account.folder matches Some(dir)
            &&& account.probed == Some(dir)
            &&& changed.custom matches Some(folder) ==> folder == dir && is_checked(
                account.checked,
                dir,
                dirs,
            )
        },
{
    law_changes_are_kept(started(dirs, custom), Account::empty(), dirs, replies);
}

/// Messages that share a file still share it after a change.
pub proof fn law_shared_files_stay_shared(
    rows: Seq<Row<Seq<u8>>>,
    updates: Seq<Update<Seq<u8>>>,
    known: Seq<Relocation<Seq<u8>>>,
    i: int,
    j: int,
)
    requires
        are_answered(rows, updates, known),
        0 <= i < rows.len(),
        0 <= j < rows.len(),
        path::same_path(rows[i].source, rows[j].source),
    ensures
        updates[i].replacement == updates[j].replacement,
{
    assert(updates[i].chat == rows[i].chat && updates[j].chat == rows[j].chat);
    lemma_find_same(known, rows[i].source, rows[j].source);
}

proof fn lemma_find_same(known: Seq<Relocation<Seq<u8>>>, a: Seq<u8>, b: Seq<u8>)
    requires
        path::same_path(a, b),
    ensures
        relocations::find(known, a) == relocations::find(known, b),
    decreases known.len(),
{
    if known.len() > 0 {
        lemma_find_same(known.drop_first(), a, b);
    }
}

/// Which folder a change is about while it settles on one.
pub open spec fn is_about(job: MediaDirChangeView, dirs: Layout, wanted: Option<Seq<u8>>) -> bool {
    match job {
        MediaDirChangeView::AwaitCustom { dirs: d, chosen, .. } => d == dirs && wanted == Some(chosen),
        MediaDirChangeView::AwaitDefault { dirs: d, chosen, .. } => d == dirs && wanted == Some(
            chosen,
        ),
        MediaDirChangeView::AwaitCreation { dirs: d, custom, dir } => d == dirs && if custom {
            wanted == Some(dir)
        } else {
            dir == dirs.media_cache_dir()
        },
        MediaDirChangeView::AwaitDir { custom, dir, .. } => if custom {
            wanted == Some(dir)
        } else {
            dir == dirs.media_cache_dir()
        },
        _ => true,
    }
}

proof fn lemma_proceed_is_about(work: WorkView, dirs: Layout, wanted: Option<Seq<u8>>)
    ensures
        work.proceed() matches Step::Ask(next) ==> is_about(next, dirs, wanted),
    decreases work.rows.len(),
{
    if work.rows.len() > 0 {
        let row = work.rows[0];
        if let Some(replacement) = relocations::find(work.paths, row.source) {
            lemma_proceed_is_about(
                work.without_first().with_update(row, replacement),
                dirs,
                wanted,
            );
        }
    }
}

proof fn lemma_stays_about(
    step: MediaDirChangeStep,
    dirs: Layout,
    wanted: Option<Seq<u8>>,
    replies: Seq<(AnswerView, u64)>,
)
    requires
        step matches Step::Ask(job) ==> is_about(job, dirs, wanted),
    ensures
        after(step, replies) matches Step::Ask(job) ==> is_about(job, dirs, wanted),
    decreases replies.len(),
{
    if let Step::Ask(job) = step {
        if replies.len() > 0 {
            let next = job.resume(replies[0].0, replies[0].1);
            match job {
                MediaDirChangeView::AwaitProbe(work) => lemma_proceed_is_about(work, dirs, wanted),
                MediaDirChangeView::AwaitExistence { work, row } => {
                    lemma_proceed_is_about(work.with_path(row, None), dirs, wanted);
                },
                MediaDirChangeView::AwaitCopy { work, row, job } => {
                    if let Step::Done(copy) = job.resume(replies[0].0, replies[0].1) {
                        let copies = media_storage::with_copy(work.copies, copy);
                        lemma_proceed_is_about(
                            WorkView { copies, ..work }.with_path(row, Some(copy.path)),
                            dirs,
                            wanted,
                        );
                    }
                },
                _ => {},
            }
            lemma_stays_about(next, dirs, wanted, replies.drop_first());
        }
    }
}

/// A change writes nowhere but to the folder and the archive: apart from looking,
/// it asks for the folder itself, for temporary files there, for names there
/// that nothing has, for the update of the archive, and for the removal of
/// files that it has made. The files of the attachments are only read.
pub proof fn law_change_writes_only_to_the_folder(
    dirs: Layout,
    custom: Option<Seq<u8>>,
    replies: Seq<(AnswerView, u64)>,
)
    ensures
        after(started(dirs, custom), replies) matches Step::Ask(job) ==> {
            let account = account_from_start(dirs, custom, replies);
            match job.request() {
                Request::CreateDirAll(dir) => custom == Some(dir) || dir == dirs.media_cache_dir(),
                Request::Probe(dir) => account.folder == Some(dir),
                Request::StageCopy { source, dir } => {
                    &&& account.folder == Some(dir)
                    &&& account.loaded matches Some(rows)
                    &&& exists|i: int|
                        0 <= i < rows.len() && (#[trigger] rows[i]).source == source
                },
                Request::Persist(target) => account.folder matches Some(dir) && is_in(target, dir),
                Request::Remove(p) => account.published.contains(p),
                Request::CommitRows => job is AwaitCommit,
                request => request.only_reads(),
            }
        },
{
    law_changes_are_kept(started(dirs, custom), Account::empty(), dirs, replies);
    lemma_stays_about(started(dirs, custom), dirs, custom, replies);
    let account = account_from_start(dirs, custom, replies);
    match after(started(dirs, custom), replies) {
        Step::Ask(MediaDirChangeView::AwaitCopy { work, row, job }) => {
            copying::law_copying_writes_only_to_the_folder(job, row.source, work.dir);
            copying::law_copy_is_in_the_folder(job, row.source, work.dir, Reply::Done, 0);
        },
        Step::Ask(MediaDirChangeView::AwaitRemoval { copies, .. }) => {
            assert(account.published[account.removed.len() as int] == copies[0]);
        },
        _ => {},
    }
}

/// Whether a folder that is wanted was found to be a custom one.
pub open spec fn is_custom(account: Account, dirs: Layout, wanted: Option<Seq<u8>>) -> bool {
    &&& wanted matches Some(chosen)
    &&& account.compared matches Some(found)
    &&& !paths::resolves_to(chosen, dirs.media_cache_dir(), found.form, found.default_form)
}

/// Whether a change has settled on a kind of folder by what it has found.
spec fn is_decided(
    custom: bool,
    account: Account,
    dirs: Layout,
    wanted: Option<Seq<u8>>,
) -> bool {
    &&& wanted is Some ==> account.compared is Some
    &&& custom == is_custom(account, dirs, wanted)
}

spec fn is_choice_kept(
    step: MediaDirChangeStep,
    account: Account,
    dirs: Layout,
    wanted: Option<Seq<u8>>,
) -> bool {
    match step {
        Step::Ask(job) => match job {
            MediaDirChangeView::AwaitCustom { dirs: d, chosen, .. } => d == dirs && wanted == Some(
                chosen,
            ),
            MediaDirChangeView::AwaitDefault { dirs: d, chosen, .. } => d == dirs && wanted
                == Some(chosen),
            MediaDirChangeView::AwaitCreation { custom, .. } => is_decided(
                custom,
                account,
                dirs,
                wanted,
            ),
            MediaDirChangeView::AwaitDir { custom, .. } => is_decided(
                custom,
                account,
                dirs,
                wanted,
            ),
            MediaDirChangeView::AwaitBoundaryDir { .. } => is_decided(
                true,
                account,
                dirs,
                wanted,
            ),
            MediaDirChangeView::AwaitBoundaryCache { .. } => is_decided(
                true,
                account,
                dirs,
                wanted,
            ),
            MediaDirChangeView::AwaitRows { custom, .. } => is_decided(
                custom,
                account,
                dirs,
                wanted,
            ),
            MediaDirChangeView::AwaitProbe(work) => is_decided(
                work.custom,
                account,
                dirs,
                wanted,
            ),
            MediaDirChangeView::AwaitExistence { work, .. } => is_decided(
                work.custom,
                account,
                dirs,
                wanted,
            ),
            MediaDirChangeView::AwaitCopy { work, .. } => is_decided(
                work.custom,
                account,
                dirs,
                wanted,
            ),
            MediaDirChangeView::AwaitCommit(work) => is_decided(
                work.custom,
                account,
                dirs,
                wanted,
            ),
            MediaDirChangeView::AwaitRemoval { outcome, .. } => outcome is Failed,
        },
        Step::Done(changed) => is_decided(changed.custom is Some, account, dirs, wanted),
        Step::Failed(_) => true,
    }
}

proof fn lemma_proceed_choice(
    work: WorkView,
    account: Account,
    dirs: Layout,
    wanted: Option<Seq<u8>>,
)
    requires
        is_decided(work.custom, account, dirs, wanted),
    ensures
        is_choice_kept(work.proceed(), account, dirs, wanted),
    decreases work.rows.len(),
{
    if work.rows.len() > 0 {
        let row = work.rows[0];
        if let Some(replacement) = relocations::find(work.paths, row.source) {
            lemma_proceed_choice(
                work.without_first().with_update(row, replacement),
                account,
                dirs,
                wanted,
            );
        }
    }
}

proof fn lemma_choice_step(
    job: MediaDirChangeView,
    account: Account,
    dirs: Layout,
    wanted: Option<Seq<u8>>,
    reply: AnswerView,
    n: u64,
)
    requires
        is_choice_kept(Step::Ask(job), account, dirs, wanted),
    ensures
        is_choice_kept(job.resume(reply, n), account.noted(job, reply), dirs, wanted),
{
    let noted = account.noted(job, reply);
    match job {
        MediaDirChangeView::AwaitProbe(work) => lemma_proceed_choice(work, noted, dirs, wanted),
        MediaDirChangeView::AwaitExistence { work, row } => {
            lemma_proceed_choice(work.with_path(row, None), noted, dirs, wanted);
        },
        MediaDirChangeView::AwaitCopy { work, row, job } => {
            if let Step::Done(copy) = job.resume(reply, n) {
                let copies = media_storage::with_copy(work.copies, copy);
                lemma_proceed_choice(
                    WorkView { copies, ..work }.with_path(row, Some(copy.path)),
                    noted,
                    dirs,
                    wanted,
                );
            }
        },
        _ => {},
    }
}

proof fn lemma_choice(
    step: MediaDirChangeStep,
    account: Account,
    dirs: Layout,
    wanted: Option<Seq<u8>>,
    replies: Seq<(AnswerView, u64)>,
)
    requires
        is_choice_kept(step, account, dirs, wanted),
    ensures
        is_choice_kept(
            after(step, replies),
            account_of(account, step, replies),
            dirs,
            wanted,
        ),
    decreases replies.len(),
{
    if let Step::Ask(job) = step {
        if replies.len() > 0 {
            lemma_choice_step(job, account, dirs, wanted, replies[0].0, replies[0].1);
            lemma_choice(
                job.resume(replies[0].0, replies[0].1),
                account.noted(job, replies[0].0),
                dirs,
                wanted,
                replies.drop_first(),
            );
        }
    }
}

/// A change to the default folder leaves no custom folder, and neither does the
/// choice of a folder that resolves to the default one; every other choice that
/// succeeds leaves a custom folder.
pub proof fn law_default_selection_resets(
    dirs: Layout,
    wanted: Option<Seq<u8>>,
    replies: Seq<(AnswerView, u64)>,
)
    ensures
        after(started(dirs, wanted), replies) matches Step::Done(changed) ==> {
            let account = account_from_start(dirs, wanted, replies);
            &&& wanted is Some ==> account.compared is Some
            &&& changed.custom is Some <==> is_custom(account, dirs, wanted)
        },
{
    lemma_choice(started(dirs, wanted), Account::empty(), dirs, wanted, replies);
}

/// The error that a change has failed with, or will fail with once the files that it
/// has made are removed.
pub open spec fn error_of(step: MediaDirChangeStep) -> Option<ChangeError> {
    match step {
        Step::Failed(error) => Some(error),
        Step::Ask(MediaDirChangeView::AwaitRemoval { outcome: Outcome::Failed(error), .. }) => Some(
            error,
        ),
        _ => None,
    }
}

/// Whether a reply is a reason to give a change up with this error.
///
/// A failure that was replied is one, but not that a name is taken, and not that a
/// path has no canonical form while it is only compared with another: of all paths,
/// the folder itself has to have one. A file that is there and has no file name is
/// one. That the task broke down is one while files are copied. That the folder lies
/// in the cache is one.
pub open spec fn is_reason(
    job: MediaDirChangeView,
    account: Account,
    dirs: Layout,
    reply: AnswerView,
    error: ChangeError,
) -> bool {
    match error {
        ChangeError::Failure(f) => {
            ||| {
                &&& reply == AnswerView::Failed(f)
                &&& match job.request() {
                    Request::CurrentDir => false,
                    Request::Canonicalize(p) => job is AwaitDir || account.folder == Some(p) && (
                    job matches MediaDirChangeView::AwaitCopy { job: copying, .. }
                        && copying is AwaitDir),
                    Request::Persist(_) => !(f is AlreadyExists),
                    _ => true,
                }
            }
            ||| {
                &&& job.request() matches Request::TryExists(source)
                &&& reply == AnswerView::Flag(true)
                &&& path::file_name(source) is None
                &&& f == Failure::InvalidInput
            }
        },
        ChangeError::InsideCache => {
            &&& job matches MediaDirChangeView::AwaitBoundaryCache { dir, form, locator, .. }
            &&& account.folder == Some(dir)
            &&& !(locator.resume(reply) is Ask)
            &&& paths::is_subpath(
                dir,
                dirs.cache,
                form,
                media_storage::found(locator.resume(reply)),
            )
        },
        ChangeError::TaskFailed => {
            &&& reply is TaskFailed
            &&& account.loaded is Some
            &&& !(job.request() is CommitRows)
        },
    }
}

proof fn lemma_proceed_goes_on(work: WorkView)
    ensures
        error_of(work.proceed()) is None,
    decreases work.rows.len(),
{
    if work.rows.len() > 0 {
        let row = work.rows[0];
        if let Some(replacement) = relocations::find(work.paths, row.source) {
            lemma_proceed_goes_on(work.without_first().with_update(row, replacement));
        }
    }
}

proof fn lemma_reasons(
    job: MediaDirChangeView,
    account: Account,
    dirs: Layout,
    reply: AnswerView,
    n: u64,
    error: ChangeError,
)
    requires
        is_job_kept(job, account, dirs),
        error_of(Step::Ask(job)) is None,
    ensures
        error_of(job.resume(reply, n)) == Some(error) <==> is_reason(
            job,
            account,
            dirs,
            reply,
            error,
        ),
{
    match job {
        MediaDirChangeView::AwaitProbe(work) => lemma_proceed_goes_on(work),
        MediaDirChangeView::AwaitExistence { work, row } => {
            lemma_proceed_goes_on(work.with_path(row, None));
            copying::law_copying_starts(row.source, work.dir);
        },
        MediaDirChangeView::AwaitCopy { work, row, job } => {
            copying::law_copying_fails_only_as_replied(job, row.source, work.dir, reply, n);
            if let Step::Done(copy) = job.resume(reply, n) {
                let copies = media_storage::with_copy(work.copies, copy);
                lemma_proceed_goes_on(
                    WorkView { copies, ..work }.with_path(row, Some(copy.path)),
                );
            }
        },
        _ => {},
    }
}

/// A change is given up exactly for a reason: whenever it is given up there is one,
/// and it is the one that is told of; and whenever there is one it is given up.
pub proof fn law_changes_are_given_up_for_a_reason(
    dirs: Layout,
    custom: Option<Seq<u8>>,
    replies: Seq<(AnswerView, u64)>,
    reply: AnswerView,
    n: u64,
    error: ChangeError,
)
    requires
        after(started(dirs, custom), replies) is Ask,
        error_of(after(started(dirs, custom), replies)) is None,
    ensures
        ({
            let job = after(started(dirs, custom), replies)->Ask_0;
            let account = account_from_start(dirs, custom, replies);
            error_of(job.resume(reply, n)) == Some(error) <==> is_reason(
                job,
                account,
                dirs,
                reply,
                error,
            )
        }),
{
    law_changes_are_kept(started(dirs, custom), Account::empty(), dirs, replies);
    let job = after(started(dirs, custom), replies)->Ask_0;
    lemma_reasons(
        job,
        account_from_start(dirs, custom, replies),
        dirs,
        reply,
        n,
        error,
    );
}

/// Whether none of the replies is a reason to give a change up.
pub open spec fn nothing_stands_in_the_way(
    dirs: Layout,
    custom: Option<Seq<u8>>,
    replies: Seq<(AnswerView, u64)>,
) -> bool {
    forall|i: int, error: ChangeError|
        0 <= i < replies.len() && after(started(dirs, custom), replies.take(i)) is Ask
            ==> !#[trigger] is_reason(
            after(started(dirs, custom), replies.take(i))->Ask_0,
            account_from_start(dirs, custom, replies.take(i)),
            dirs,
            replies[i].0,
            error,
        )
}

proof fn lemma_one_more_reply(
    step: MediaDirChangeStep,
    replies: Seq<(AnswerView, u64)>,
    reply: (AnswerView, u64),
)
    ensures
        after(step, replies.push(reply)) == (match after(step, replies) {
            Step::Ask(job) => job.resume(reply.0, reply.1),
            end => end,
        }),
    decreases replies.len(),
{
    if let Step::Ask(job) = step {
        if replies.len() > 0 {
            lemma_one_more_reply(
                job.resume(replies[0].0, replies[0].1),
                replies.drop_first(),
                reply,
            );
            assert(replies.push(reply).drop_first() =~= replies.drop_first().push(reply));
        } else {
            assert(replies.push(reply).drop_first() =~= Seq::empty());
            reveal_with_fuel(after, 2);
        }
    }
}

/// A change succeeds where nothing stands in its way: as long as no reply is a reason
/// to give it up it goes on, and when it is over it is done. Names that are taken do
/// not stand in its way, however many there are and whatever has been copied before;
/// nor does a folder that is not there yet, nor a file that is gone.
pub proof fn law_changes_succeed_where_nothing_stands_in_their_way(
    dirs: Layout,
    custom: Option<Seq<u8>>,
    replies: Seq<(AnswerView, u64)>,
)
    requires
        nothing_stands_in_the_way(dirs, custom, replies),
    ensures
        error_of(after(started(dirs, custom), replies)) is None,
        after(started(dirs, custom), replies) is Ask || after(
            started(dirs, custom),
            replies,
        ) is Done,
    decreases replies.len(),
{
    if replies.len() > 0 {
        let last = replies.len() - 1;
        let front = replies.drop_last();
        assert(front =~= replies.take(last));
        assert forall|i: int, error: ChangeError|
            0 <= i < front.len() && after(started(dirs, custom), front.take(i)) is Ask
                implies !#[trigger] is_reason(
            after(started(dirs, custom), front.take(i))->Ask_0,
            account_from_start(dirs, custom, front.take(i)),
            dirs,
            front[i].0,
            error,
        ) by {
            assert(front.take(i) =~= replies.take(i));
            assert(front[i] == replies[i]);
        }
        law_changes_succeed_where_nothing_stands_in_their_way(dirs, custom, front);
        lemma_one_more_reply(started(dirs, custom), front, replies[last]);
        assert(front.push(replies[last]) =~= replies);
        if let Step::Ask(job) = after(started(dirs, custom), front) {
            let next = job.resume(replies[last].0, replies[last].1);
            if let Some(error) = error_of(next) {
                law_changes_are_given_up_for_a_reason(
                    dirs,
                    custom,
                    front,
                    replies[last].0,
                    replies[last].1,
                    error,
                );
                assert(!is_reason(
                    after(started(dirs, custom), replies.take(last))->Ask_0,
                    account_from_start(dirs, custom, replies.take(last)),
                    dirs,
                    replies[last].0,
                    error,
                ));
            }
        }
    }
}

/// A change that is given up removes the files that it has made, one after the
/// other, whatever comes of that, and ends with the error that it was given up for.
pub proof fn law_a_change_that_is_given_up_ends_with_its_error(
    dirs: Layout,
    custom: Option<Seq<u8>>,
    replies: Seq<(AnswerView, u64)>,
    reply: AnswerView,
    n: u64,
)
    requires
        after(started(dirs, custom), replies) is Ask,
        error_of(after(started(dirs, custom), replies)) is Some,
    ensures
        ({
            let step = after(started(dirs, custom), replies);
            let job = step->Ask_0;
            &&& job.request() is Remove
            &&& error_of(job.resume(reply, n)) == error_of(step)
            &&& job.resume(reply, n) matches Step::Ask(next) ==> next.request() is Remove
        }),
{
    law_changes_are_kept(started(dirs, custom), Account::empty(), dirs, replies);
}

/// A name that is taken never ends a change, whatever has been copied before: the
/// change goes on to ask for another name in the same folder, for the same file, and
/// all that it has come to stays. The name is the wanted one behind the number.
pub proof fn law_a_taken_name_never_ends_a_change(
    dirs: Layout,
    custom: Option<Seq<u8>>,
    replies: Seq<(AnswerView, u64)>,
    text: String,
    n: u64,
)
    requires
        after(started(dirs, custom), replies) is Ask,
        after(started(dirs, custom), replies)->Ask_0.request() is Persist,
    ensures
        ({
            let job = after(started(dirs, custom), replies)->Ask_0;
            let account = account_from_start(dirs, custom, replies);
            &&& job.resume(Reply::Failed(Failure::AlreadyExists(text)), n) matches Step::Ask(next)
            &&& next.request() matches Request::Persist(other)
            &&& account.folder matches Some(dir)
            &&& path::components(other).drop_last() == path::components(dir)
            &&& job matches MediaDirChangeView::AwaitCopy { work, row, .. }
            &&& next matches MediaDirChangeView::AwaitCopy { work: same_work, row: same_row, .. }
            &&& same_work == work
            &&& same_row == row
            &&& path::file_name(other) == Some(
                publish::unique_name(n, path::file_name(row.source)->0),
            )
        }),
{
    law_changes_are_kept(started(dirs, custom), Account::empty(), dirs, replies);
    let reply: AnswerView = Reply::Failed(Failure::AlreadyExists(text));
    if let MediaDirChangeView::AwaitCopy { work, row, job } = after(
        started(dirs, custom),
        replies,
    )->Ask_0 {
        copying::law_copying_fails_only_as_replied(job, row.source, work.dir, reply, n);
    }
}

/// Whether a reply is one to the request.
pub open spec fn fits(request: Request<Seq<u8>>, reply: AnswerView) -> bool {
    match request {
        Request::CurrentDir => reply is Path || reply is Failed,
        Request::Canonicalize(_) => reply is Path || reply is Failed,
        Request::IsDir(_) => reply is Flag,
        Request::TryExists(_) => reply is Flag || reply is Failed,
        Request::LoadRows => reply is Rows || reply is Failed,
        Request::Remove(_) => true,
        _ => reply is Done || reply is Failed,
    }
}

spec fn locator_left(locator: LocatorView) -> (int, int) {
    match locator {
        LocatorView::AwaitForm(_) => (2, 0),
        LocatorView::AwaitResolved(ResolverView::AwaitCurrentDir(_)) => (1, 0),
        LocatorView::AwaitResolved(ResolverView::AwaitCanonical { rest, .. }) => (
            0,
            rest.len() as int,
        ),
    }
}

/// What a change still has before it: the stages, then the attachments or what a
/// stage consists of, then the smallest steps.
pub closed spec fn left(job: MediaDirChangeView) -> (int, int, int) {
    match job {
        MediaDirChangeView::AwaitCustom { locator, .. } => (
            9,
            locator_left(locator).0,
            locator_left(locator).1,
        ),
        MediaDirChangeView::AwaitDefault { locator, .. } => (
            8,
            locator_left(locator).0,
            locator_left(locator).1,
        ),
        MediaDirChangeView::AwaitCreation { .. } => (7, 0, 0),
        MediaDirChangeView::AwaitDir { .. } => (6, 0, 0),
        MediaDirChangeView::AwaitBoundaryDir { locator, .. } => (
            5,
            locator_left(locator).0,
            locator_left(locator).1,
        ),
        MediaDirChangeView::AwaitBoundaryCache { locator, .. } => (
            4,
            locator_left(locator).0,
            locator_left(locator).1,
        ),
        MediaDirChangeView::AwaitRows { .. } => (3, 0, 0),
        MediaDirChangeView::AwaitProbe(work) => (2, work.rows.len() as int + 1, 0),
        MediaDirChangeView::AwaitExistence { work, .. } => (2, work.rows.len() as int, 5),
        MediaDirChangeView::AwaitCopy { work, job, .. } => (
            2,
            work.rows.len() as int,
            match job {
                CopyingView::AwaitParent { .. } => 4,
                CopyingView::AwaitDir { .. } => 3,
                CopyingView::AwaitStaging { .. } => 2,
                CopyingView::AwaitPublishing(_) => 1,
            },
        ),
        MediaDirChangeView::AwaitCommit(_) => (1, 0, 0),
        MediaDirChangeView::AwaitRemoval { copies, .. } => (0, copies.len() as int, 0),
    }
}

/// Whether less is left. Every descending row of such triples comes to an end.
pub open spec fn is_less(a: (int, int, int), b: (int, int, int)) -> bool {
    &&& 0 <= a.0 && 0 <= a.1 && 0 <= a.2
    &&& a.0 < b.0 || a.0 == b.0 && (a.1 < b.1 || a.1 == b.1 && a.2 < b.2)
}

proof fn lemma_proceed_is_less(work: WorkView)
    ensures
        work.proceed() matches Step::Ask(next) ==> is_less(
            left(next),
            (2, work.rows.len() as int, 0),
        ),
    decreases work.rows.len(),
{
    if work.rows.len() > 0 {
        let row = work.rows[0];
        if let Some(replacement) = relocations::find(work.paths, row.source) {
            lemma_proceed_is_less(work.without_first().with_update(row, replacement));
        }
    }
}

proof fn lemma_locating_is_less(locator: LocatorView, reply: AnswerView)
    requires
        reply is Path || reply is Failed,
    ensures
        locator.resume(reply) matches Step::Ask(next) ==> {
            let a = locator_left(next);
            let b = locator_left(locator);
            0 <= a.0 && 0 <= a.1 && (a.0 < b.0 || a.0 == b.0 && a.1 < b.1)
        },
{
    let fs = FileSystem { current_dir: Err(Failure::InvalidInput), canonical: |q: Seq<u8>| Ok(q) };
    if let LocatorView::AwaitResolved(job) = locator {
        match (job, reply) {
            (ResolverView::AwaitCurrentDir(p), Reply::Path(dir)) => {
                resolve::lemma_walk(fs, path::components(path::join(dir, p)), Seq::empty());
            },
            (ResolverView::AwaitCanonical { rest, .. }, Reply::Path(canonical)) => {
                resolve::lemma_walk(fs, rest, canonical);
            },
            (ResolverView::AwaitCanonical { rest, resolved }, Reply::Failed(_)) => {
                resolve::lemma_walk(fs, rest, resolved);
            },
            _ => {},
        }
    }
}

/// A change comes to an end: every reply to a request leaves less to do, unless it is
/// that a name is taken. Then the change waits for a name that is not.
pub proof fn law_changes_come_to_an_end(
    dirs: Layout,
    custom: Option<Seq<u8>>,
    replies: Seq<(AnswerView, u64)>,
    reply: AnswerView,
    n: u64,
)
    requires
        after(started(dirs, custom), replies) is Ask,
        fits(after(started(dirs, custom), replies)->Ask_0.request(), reply),
        after(started(dirs, custom), replies)->Ask_0.request() is Persist ==> !(
        reply matches Reply::Failed(Failure::AlreadyExists(_))),
    ensures
        ({
            let job = after(started(dirs, custom), replies)->Ask_0;
            job.resume(reply, n) matches Step::Ask(next) ==> is_less(left(next), left(job))
        }),
{
    law_changes_are_kept(started(dirs, custom), Account::empty(), dirs, replies);
    let job = after(started(dirs, custom), replies)->Ask_0;
    match job {
        MediaDirChangeView::AwaitCustom { locator, .. } => lemma_locating_is_less(locator, reply),
        MediaDirChangeView::AwaitDefault { locator, .. } => lemma_locating_is_less(locator, reply),
        MediaDirChangeView::AwaitBoundaryDir { locator, .. } => lemma_locating_is_less(
            locator,
            reply,
        ),
        MediaDirChangeView::AwaitBoundaryCache { locator, .. } => lemma_locating_is_less(
            locator,
            reply,
        ),
        MediaDirChangeView::AwaitProbe(work) => lemma_proceed_is_less(work),
        MediaDirChangeView::AwaitExistence { work, row } => {
            lemma_proceed_is_less(work.with_path(row, None));
        },
        MediaDirChangeView::AwaitCopy { work, row, job } => {
            if let Step::Done(copy) = job.resume(reply, n) {
                let copies = media_storage::with_copy(work.copies, copy);
                lemma_proceed_is_less(WorkView { copies, ..work }.with_path(row, Some(copy.path)));
            }
        },
        _ => {},
    }
}

/// A change first finds out what is wanted. Without a wish it is the default folder,
/// and that is made. A wanted folder is located, and then the default one; once that
/// is done, the default folder is made if they are the same, and the wanted one
/// otherwise.
pub proof fn law_a_change_first_finds_out_what_is_wanted(
    dirs: Layout,
    chosen: Seq<u8>,
    form: Option<Seq<u8>>,
    locator: LocatorView,
    reply: AnswerView,
    n: u64,
)
    ensures
        ({
            let media = path::join(dirs.cache, path::text("media"));
            let end = locator.resume(reply);
            let told = match end {
                Step::Done(p) => Some(p),
                _ => None,
            };
            &&& MediaDirChangeView::start(dirs, None).request() == Request::CreateDirAll(media)
            &&& MediaDirChangeView::start(dirs, None) == (MediaDirChangeView::AwaitCreation {
                dirs,
                custom: false,
                dir: media,
            })
            &&& MediaDirChangeView::start(dirs, Some(chosen)) == (MediaDirChangeView::AwaitCustom {
                dirs,
                chosen,
                locator: LocatorView::start(chosen),
            })
            &&& (MediaDirChangeView::AwaitCustom { dirs, chosen, locator }).resume(
                reply,
                n,
            ) == MediaDirChangeStep::Ask(
                match end {
                    Step::Ask(next) => MediaDirChangeView::AwaitCustom {
                        dirs,
                        chosen,
                        locator: next,
                    },
                    _ => MediaDirChangeView::AwaitDefault {
                        dirs,
                        chosen,
                        form: told,
                        locator: LocatorView::start(media),
                    },
                },
            )
            &&& (MediaDirChangeView::AwaitDefault { dirs, chosen, form, locator }).resume(
                reply,
                n,
            ) matches Step::Ask(next)
            &&& match end {
                Step::Ask(left) => next == (MediaDirChangeView::AwaitDefault {
                    dirs,
                    chosen,
                    form,
                    locator: left,
                }),
                _ => {
                    let is_default = paths::resolves_to(chosen, media, form, told);
                    &&& next.request() == Request::CreateDirAll(
                        if is_default {
                            media
                        } else {
                            chosen
                        },
                    )
                    &&& next matches MediaDirChangeView::AwaitCreation { custom, .. } && custom
                        == !is_default
                },
            }
        }),
{
}

/// The folder of a change is made, and its canonical path is found. The default folder
/// is then taken; a custom one is held against the cache first. Then the attachments
/// are read, and the folder is tried. The file of the first attachment is looked for
/// then. Without any, nothing is left but to tell the archive, and the change is done.
pub proof fn law_a_change_then_makes_the_folder_and_reads_the_archive(
    dirs: Layout,
    custom: bool,
    dir: Seq<u8>,
    canonical: Seq<u8>,
    rows: Seq<Row<Seq<u8>>>,
    row: Row<Seq<u8>>,
    n: u64,
)
    ensures
        ({
            let make = MediaDirChangeView::AwaitCreation { dirs, custom, dir };
            let read = MediaDirChangeView::AwaitRows { custom, dir: canonical };
            &&& make.request() == Request::CreateDirAll(dir)
            &&& make.resume(Reply::Done, n) matches Step::Ask(find)
            &&& find.request() == Request::Canonicalize(dir)
            &&& find.resume(Reply::Path(canonical), n) matches Step::Ask(next)
            &&& if custom {
                next == (MediaDirChangeView::AwaitBoundaryDir {
                    dirs,
                    dir: canonical,
                    locator: LocatorView::start(canonical),
                })
            } else {
                next == read
            }
            &&& read.request() is LoadRows
            &&& read.resume(Reply::Rows(rows), n) matches Step::Ask(probe)
            &&& probe.request() == Request::Probe(canonical)
            &&& rows.len() > 0 ==> {
                &&& probe.resume(Reply::Done, n) matches Step::Ask(look)
                &&& look.request() == Request::TryExists(rows[0].source)
            }
            &&& read.resume(Reply::Rows(Seq::empty()), n) matches Step::Ask(empty)
            &&& empty.resume(Reply::Done, n) matches Step::Ask(commit)
            &&& commit.request() is CommitRows
            &&& commit.resume(Reply::Done, n) matches Step::Done(changed)
            &&& changed.custom == (if custom {
                Some(canonical)
            } else {
                None
            })
            &&& changed.paths.len() == 0
        }),
{
}

/// A custom folder is located, and then the cache; once that is done, it is refused if
/// it lies in the cache, and otherwise the archive is read.
pub proof fn law_a_custom_folder_is_held_against_the_cache(
    dirs: Layout,
    dir: Seq<u8>,
    form: Option<Seq<u8>>,
    locator: LocatorView,
    reply: AnswerView,
    n: u64,
)
    ensures
        ({
            let end = locator.resume(reply);
            let told = match end {
                Step::Done(p) => Some(p),
                _ => None,
            };
            &&& (MediaDirChangeView::AwaitBoundaryDir { dirs, dir, locator }).resume(
                reply,
                n,
            ) == MediaDirChangeStep::Ask(
                match end {
                    Step::Ask(next) => MediaDirChangeView::AwaitBoundaryDir {
                        dirs,
                        dir,
                        locator: next,
                    },
                    _ => MediaDirChangeView::AwaitBoundaryCache {
                        dirs,
                        dir,
                        form: told,
                        locator: LocatorView::start(dirs.cache),
                    },
                },
            )
            &&& (MediaDirChangeView::AwaitBoundaryCache { dirs, dir, form, locator }).resume(
                reply,
                n,
            ) == (match end {
                Step::Ask(next) => MediaDirChangeStep::Ask(
                    MediaDirChangeView::AwaitBoundaryCache { dirs, dir, form, locator: next },
                ),
                _ => if paths::is_subpath(dir, dirs.cache, form, told) {
                    MediaDirChangeStep::Failed(ChangeError::InsideCache)
                } else {
                    MediaDirChangeStep::Ask(MediaDirChangeView::AwaitRows { custom: true, dir })
                },
            })
        }),
{
}

/// Whether an attachment is the first of which nothing is known yet.
pub open spec fn is_next(
    row: Row<Seq<u8>>,
    rows: Seq<Row<Seq<u8>>>,
    taken: int,
) -> bool {
    &&& 0 <= taken < rows.len()
    &&& row == rows[taken]
    &&& forall|i: int|
        0 <= i < taken ==> path::components((#[trigger] rows[i]).source) != path::components(
            row.source,
        )
}

/// The attachments are taken in order, and each file is looked for and copied once: what
/// is looked for or copied is the file of the first attachment that has not been
/// dealt with, and no attachment before it has the same file.
pub proof fn law_each_file_is_dealt_with_once(
    dirs: Layout,
    custom: Option<Seq<u8>>,
    replies: Seq<(AnswerView, u64)>,
)
    ensures
        after(started(dirs, custom), replies) matches Step::Ask(job) ==> {
            let account = account_from_start(dirs, custom, replies);
            &&& job.request() matches Request::TryExists(source) ==> {
                &&& account.loaded matches Some(rows)
                &&& job matches MediaDirChangeView::AwaitExistence { work, row }
                &&& source == row.source
                &&& is_next(row, rows, work.updates.len() as int)
            }
            &&& job matches MediaDirChangeView::AwaitCopy { work, row, .. } ==> {
                &&& account.loaded matches Some(rows)
                &&& is_next(row, rows, work.updates.len() as int)
            }
            &&& job matches MediaDirChangeView::AwaitCommit(work) ==> {
                &&& account.loaded matches Some(rows)
                &&& work.updates.len() == rows.len()
            }
        },
{
    law_changes_are_kept(started(dirs, custom), Account::empty(), dirs, replies);
    if let Step::Ask(job) = after(started(dirs, custom), replies) {
        let account = account_from_start(dirs, custom, replies);
        match job {
            MediaDirChangeView::AwaitExistence { work, row } => {
                lemma_is_next(work, account, dirs, account.loaded->0, row);
            },
            MediaDirChangeView::AwaitCopy { work, row, job: copying } => {
                lemma_is_next(work, account, dirs, account.loaded->0, row);
                copying::law_copying_writes_only_to_the_folder(copying, row.source, work.dir);
            },
            _ => {},
        }
    }
}

proof fn lemma_is_next(
    work: WorkView,
    account: Account,
    dirs: Layout,
    rows: Seq<Row<Seq<u8>>>,
    row: Row<Seq<u8>>,
)
    requires
        is_under_way(work, account, dirs, rows, work.updates.len() + 1),
        row == rows[work.updates.len() as int],
        relocations::find(work.paths, row.source) is None,
    ensures
        is_next(row, rows, work.updates.len() as int),
{
    let front = rows.take(work.updates.len() as int);
    assert forall|i: int| 0 <= i < work.updates.len() implies path::components(
        (#[trigger] rows[i]).source,
    ) != path::components(row.source) by {
        assert(front[i] == rows[i]);
        assert(work.updates[i].chat == front[i].chat);
        if path::components(rows[i].source) == path::components(row.source) {
            lemma_find_same(work.paths, rows[i].source, row.source);
        }
    }
}

/// A reply that does not answer the request changes nothing, unless it is that the task
/// broke down while files are copied.
pub proof fn law_odd_replies_change_nothing(job: MediaDirChangeView, reply: AnswerView, n: u64)
    ensures
        !fits(job.request(), reply) && !(reply is TaskFailed) ==> job.resume(reply, n)
            == MediaDirChangeStep::Ask(job),
{
    match job {
        MediaDirChangeView::AwaitCopy { job: copying, .. } => {
            copying::law_odd_replies_copy_nothing(copying, reply, n);
        },
        MediaDirChangeView::AwaitCustom { locator, .. } => lemma_odd_replies(locator, reply),
        MediaDirChangeView::AwaitDefault { locator, .. } => lemma_odd_replies(locator, reply),
        MediaDirChangeView::AwaitBoundaryDir { locator, .. } => lemma_odd_replies(locator, reply),
        MediaDirChangeView::AwaitBoundaryCache { locator, .. } => lemma_odd_replies(locator, reply),
        _ => {},
    }
}

proof fn lemma_odd_replies(locator: LocatorView, reply: AnswerView)
    ensures
        !(reply is Path) && !(reply is Failed) ==> locator.resume(reply) == LocatorStep::Ask(
            locator,
        ),
{
    if let LocatorView::AwaitResolved(job) = locator {
        resolve::law_odd_replies_resolve_nothing(job, reply);
    }
}

} // verus!
