//! The worker's part in where attachments are kept.

use vstd::prelude::*;
use vstd::string::StringExecFns;
use crate::copying;
use crate::copying::{Copied, Copying, CopyingView};
use crate::file_path::FilePath;
use crate::io::{Answer, AnswerView, Failure, Reply, Request, Step};
use crate::media_storage::{ChangeError, Changed, ChangedView, MediaDirChange, MediaDirChangeView};
use crate::path;
use crate::paths::{AppDirs, Layout};
use crate::publish;
use crate::publish::number_after;
use crate::relocations::{Relocation, Relocations};

verus! {

/// What the user interface is told.
#[derive(Debug)]
pub enum Event {
    Error(String),
    MediaDirChanged { custom: Option<FilePath>, paths: Relocations },
}

/// What an [`Event`] holds.
pub ghost enum EventView {
    Error(Seq<char>),
    MediaDirChanged { custom: Option<Seq<u8>>, paths: Seq<Relocation<Seq<u8>>> },
}

impl DeepView for Event {
    type V = EventView;

    open spec fn deep_view(&self) -> EventView {
        match self {
            Event::Error(text) => EventView::Error(text@),
            Event::MediaDirChanged { custom, paths } => EventView::MediaDirChanged {
                custom: custom.deep_view(),
                paths: paths@,
            },
        }
    }
}

/// What the worker knows of its files.
#[derive(Debug)]
pub struct Worker {
    pub dirs: AppDirs,
}

/// The directories after a change of the attachment folder has ended: only a
/// success changes them.
pub open spec fn dirs_after(dirs: Layout, outcome: Result<ChangedView, ChangeError>) -> Layout {
    match outcome {
        Ok(changed) => Layout { custom_media: changed.custom, ..dirs },
        Err(_) => dirs,
    }
}

/// What is told of a change of the attachment folder that has ended.
pub open spec fn event_after(outcome: Result<ChangedView, ChangeError>) -> EventView {
    match outcome {
        Ok(changed) => EventView::MediaDirChanged { custom: changed.custom, paths: changed.paths },
        Err(error) => EventView::Error(
            "Could not change attachment folder: "@ + error.spec_message(),
        ),
    }
}

/// What an outcome holds.
pub open spec fn outcome_view(outcome: Result<Changed, ChangeError>) -> Result<
    ChangedView,
    ChangeError,
> {
    match outcome {
        Ok(changed) => Ok(changed.deep_view()),
        Err(error) => Err(error),
    }
}

impl Worker {
    /// Starts to change the attachment folder: to `custom`, or to the default
    /// one. What the job comes to is for [`Worker::finish_media_dir_change`].
    pub fn change_media_dir(&self, custom: Option<FilePath>) -> (res: MediaDirChange)
        ensures
            res.deep_view() == MediaDirChangeView::start(self.dirs@, custom.deep_view()),
    {
        MediaDirChange::start(self.dirs.clone(), custom)
    }

    /// Takes over what a change of the attachment folder has come to, and says
    /// what to tell of it.
    pub fn finish_media_dir_change(&mut self, outcome: Result<Changed, ChangeError>) -> (res: Event)
        ensures
            final(self).dirs@ == dirs_after(old(self).dirs@, outcome_view(outcome)),
            res.deep_view() == event_after(outcome_view(outcome)),
            final(self).dirs.config@ == old(self).dirs.config@,
            final(self).dirs.state@ == old(self).dirs.state@,
            final(self).dirs.cache@ == old(self).dirs.cache@,
            match outcome {
                Ok(changed) => {
                    &&& final(self).dirs.custom_media.deep_view() == changed.custom.deep_view()
                    &&& res matches Event::MediaDirChanged { custom, paths }
                    &&& custom.deep_view() == changed.custom.deep_view()
                    &&& paths@ == changed.paths@
                },
                Err(error) => {
                    &&& final(self).dirs@ == old(self).dirs@
                    &&& res matches Event::Error(text)
                    &&& text@ == "Could not change attachment folder: "@ + error.spec_message()
                },
            },
    {
        match outcome {
            Ok(changed) => {
                let Changed { custom, paths } = changed;
                self.dirs.custom_media = match &custom {
                    Some(dir) => Some(dir.clone()),
                    None => None,
                };
                Event::MediaDirChanged { custom, paths }
            },
            Err(error) => {
                let text = "Could not change attachment folder: ".to_owned();
                Event::Error(text.concat(error.message().as_str()))
            },
        }
    }

    /// Reconcile downloads and uploads started before the last folder change.
    pub fn keep_current_media(&self, source: FilePath) -> (res: Keeping)
        ensures
            res.deep_view() == KeepingView::start(source@, self.dirs@),
            self.dirs.custom_media matches Some(dir) ==> res.deep_view() == (KeepingView::AwaitDir {
                source: source@,
                dir: dir@,
            }),
            self.dirs.custom_media is None ==> res.deep_view() == (KeepingView::AwaitDir {
                source: source@,
                dir: path::join(self.dirs.cache@, path::text("media")),
            }),
    {
        Keeping::AwaitDir { source, dir: self.dirs.media_dir() }
    }
}

/// The job of bringing one file to the attachment folder.
#[derive(Debug)]
pub enum Keeping {
    /// The folder has to be there.
    AwaitDir { source: FilePath, dir: FilePath },
    /// The file is copied.
    AwaitCopy(Copying),
}

/// What a [`Keeping`] holds.
pub ghost enum KeepingView {
    AwaitDir { source: Seq<u8>, dir: Seq<u8> },
    AwaitCopy(CopyingView),
}

impl DeepView for Keeping {
    type V = KeepingView;

    open spec fn deep_view(&self) -> KeepingView {
        match self {
            Keeping::AwaitDir { source, dir } => KeepingView::AwaitDir {
                source: source@,
                dir: dir@,
            },
            Keeping::AwaitCopy(job) => KeepingView::AwaitCopy(job.deep_view()),
        }
    }
}

/// Where the job stands after a reply. It is done with the path of the file in
/// the folder.
pub type KeepingStep = Step<KeepingView, Seq<u8>, Failure>;

/// Where the job stands when copying stands at `step`.
pub open spec fn while_copying(step: Step<CopyingView, Copied<Seq<u8>>, Failure>) -> KeepingStep {
    match step {
        Step::Ask(job) => Step::Ask(KeepingView::AwaitCopy(job)),
        Step::Done(copy) => Step::Done(copy.path),
        Step::Failed(f) => Step::Failed(f),
    }
}

impl KeepingView {
    /// The job for a file.
    pub open spec fn start(source: Seq<u8>, dirs: Layout) -> KeepingView {
        KeepingView::AwaitDir { source, dir: dirs.media_dir() }
    }

    pub open spec fn request(self) -> Request<Seq<u8>> {
        match self {
            KeepingView::AwaitDir { dir, .. } => Request::CreateDirAll(dir),
            KeepingView::AwaitCopy(job) => job.request(),
        }
    }

    /// What follows a reply, with `n` for the next name where one is taken. A
    /// reply that does not fit the request changes nothing.
    pub open spec fn resume(self, reply: AnswerView, n: u64) -> KeepingStep {
        match (self, reply) {
            (KeepingView::AwaitDir { source, dir }, Reply::Done) => while_copying(
                CopyingView::start(source, dir),
            ),
            (KeepingView::AwaitDir { .. }, Reply::Failed(f)) => Step::Failed(f),
            (KeepingView::AwaitCopy(job), _) => while_copying(job.resume(reply, n)),
            _ => Step::Ask(self),
        }
    }
}

fn copying(step: Step<Copying, Copied<FilePath>, Failure>) -> (res: Step<Keeping, FilePath, Failure>)
    ensures
        res.deep_view() == while_copying(step.deep_view()),
{
    match step {
        Step::Ask(job) => Step::Ask(Keeping::AwaitCopy(job)),
        Step::Done(copy) => Step::Done(copy.path),
        Step::Failed(f) => Step::Failed(f),
    }
}

impl Keeping {
    /// What to do next.
    pub fn request(&self) -> (res: Request<FilePath>)
        ensures
            res.deep_view() == self.deep_view().request(),
    {
        match self {
            Keeping::AwaitDir { dir, .. } => Request::CreateDirAll(dir.clone()),
            Keeping::AwaitCopy(job) => job.request(),
        }
    }

    /// Goes on with the reply to the request.
    pub fn resume(self, reply: Answer) -> (res: Step<Keeping, FilePath, Failure>)
        ensures
            exists|n: u64|
                res.deep_view() == #[trigger] self.deep_view().resume(reply.deep_view(), n),
    {
        let n = number_after(&reply);
        let res = self.resume_with(reply, n);
        assert(res.deep_view() == self.deep_view().resume(reply.deep_view(), n));
        res
    }

    /// Goes on with the reply to the request, with `n` for the next name where
    /// one is taken.
    pub fn resume_with(self, reply: Answer, n: u64) -> (res: Step<Keeping, FilePath, Failure>)
        ensures
            res.deep_view() == self.deep_view().resume(reply.deep_view(), n),
    {
        match self {
            Keeping::AwaitDir { source, dir } => match reply {
                Reply::Done => copying(Copying::start(&source, &dir)),
                Reply::Failed(f) => Step::Failed(f),
                _ => Step::Ask(Keeping::AwaitDir { source, dir }),
            },
            Keeping::AwaitCopy(job) => copying(job.resume_with(reply, n)),
        }
    }
}

/// What a job from [`KeepingView::start`] holds, however far it is.
pub open spec fn is_about(job: KeepingView, source: Seq<u8>, dir: Seq<u8>) -> bool {
    match job {
        KeepingView::AwaitDir { source: s, dir: d } => s == source && d == dir,
        KeepingView::AwaitCopy(c) => copying::is_about(c, source, dir),
    }
}

/// A job stays about the file that it was started for and the attachment folder
/// of that moment.
pub proof fn law_keeping_stays_about(
    job: KeepingView,
    source: Seq<u8>,
    dirs: Layout,
    reply: AnswerView,
    n: u64,
)
    ensures
        is_about(KeepingView::start(source, dirs), source, dirs.media_dir()),
        is_about(job, source, dirs.media_dir()) ==> (job.resume(reply, n) matches Step::Ask(next)
            ==> is_about(next, source, dirs.media_dir())),
{
    let dir = dirs.media_dir();
    match job {
        KeepingView::AwaitDir { .. } => {
            copying::law_copying_stays_about(
                CopyingView::AwaitStaging { source, name: source, dir },
                source,
                dir,
                reply,
                n,
            );
        },
        KeepingView::AwaitCopy(c) => {
            copying::law_copying_stays_about(c, source, dir, reply, n);
        },
    }
}

/// A late file ends up in the attachment folder, as a copy that takes no other
/// file's place, unless it is there already.
pub proof fn law_late_files_end_up_in_the_folder(
    job: KeepingView,
    source: Seq<u8>,
    dir: Seq<u8>,
    reply: AnswerView,
    n: u64,
)
    requires
        is_about(job, source, dir),
    ensures
        job.resume(reply, n) matches Step::Done(p) ==> {
            ||| p == source
            ||| {
                &&& job.request() == Request::Persist(p)
                &&& reply is Done
                &&& path::components(p).drop_last() == path::components(dir)
                &&& path::file_name(p) matches Some(name) && path::file_name(
                    source,
                )->0.is_suffix_of(name)
            }
        },
{
    if let KeepingView::AwaitCopy(c) = job {
        copying::law_copy_is_in_the_folder(c, source, dir, reply, n);
    }
}

/// A late file goes to the folder that is in use: the custom one where there is one,
/// and otherwise the folder `media` of the cache. That folder is made, and the file
/// is copied there unless it is there already.
pub proof fn law_late_files_go_to_the_folder_in_use(
    source: Seq<u8>,
    dirs: Layout,
    dir: Seq<u8>,
    found: Option<Seq<u8>>,
    lost: Failure,
    wanted: Seq<u8>,
    n: u64,
)
    requires
        match dirs.custom_media {
            Some(custom) => dir == custom,
            None => dir == path::join(dirs.cache, path::text("media")),
        },
    ensures
        ({
            let make = KeepingView::start(source, dirs);
            &&& make.request() == Request::CreateDirAll(dir)
            &&& make.resume(Reply::Failed(lost), n) == KeepingStep::Failed(lost)
            &&& match path::file_name(source) {
                None => make.resume(Reply::Done, n) == KeepingStep::Failed(Failure::InvalidInput),
                Some(name) => {
                    let told: AnswerView = match found {
                        Some(p) => Reply::Path(p),
                        None => Reply::Failed(lost),
                    };
                    let is_there = found matches Some(p) && path::components(p)
                        == path::components(wanted);
                    &&& make.resume(Reply::Done, n) matches Step::Ask(look)
                    &&& path::parent(source) matches Some(parent)
                    &&& look.request() == Request::Canonicalize(parent)
                    &&& look.resume(told, n) matches Step::Ask(compare)
                    &&& compare.request() == Request::Canonicalize(dir)
                    &&& if is_there {
                        compare.resume(Reply::Path(wanted), n) == KeepingStep::Done(source)
                    } else {
                        &&& compare.resume(Reply::Path(wanted), n) matches Step::Ask(stage)
                        &&& stage.request() == (Request::StageCopy { source, dir })
                        &&& stage.resume(Reply::Done, n) matches Step::Ask(publish)
                        &&& publish.request() == Request::Persist(path::join(dir, name))
                        &&& publish.resume(Reply::Done, n) == KeepingStep::Done(
                            path::join(dir, name),
                        )
                    }
                },
            }
        }),
{
    copying::law_files_are_copied_unless_they_are_there(source, dir, found, lost, wanted, n);
}

/// Keeping a late file fails only with a failure that was replied, or because its
/// path has no file name. A name that is taken is no reason to fail: another one in
/// the same folder is asked for.
pub proof fn law_keeping_fails_only_as_replied(
    job: KeepingView,
    source: Seq<u8>,
    dir: Seq<u8>,
    reply: AnswerView,
    n: u64,
)
    requires
        is_about(job, source, dir),
    ensures
        job.resume(reply, n) matches Step::Failed(f) ==> {
            ||| reply == AnswerView::Failed(f) && (job.request() is Persist ==> !(
            f is AlreadyExists))
            ||| job.request() is CreateDirAll && reply is Done && path::file_name(source) is None
                && f == Failure::InvalidInput
        },
        job.request() is Persist && (reply matches Reply::Failed(Failure::AlreadyExists(_))) ==> {
            &&& job.resume(reply, n) matches Step::Ask(next)
            &&& next.request() matches Request::Persist(other)
            &&& path::components(other).drop_last() == path::components(dir)
            &&& path::file_name(other) matches Some(name) && path::file_name(
                source,
            )->0.is_suffix_of(name)
        },
        reply matches Reply::Failed(f) ==> match job.request() {
            Request::CreateDirAll(_) => job.resume(reply, n) == KeepingStep::Failed(f),
            Request::StageCopy { .. } => job.resume(reply, n) == KeepingStep::Failed(f),
            Request::Persist(_) => f is AlreadyExists || job.resume(reply, n)
                == KeepingStep::Failed(f),
            _ => true,
        },
{
    match job {
        KeepingView::AwaitDir { .. } => {
            copying::law_copying_starts(source, dir);
        },
        KeepingView::AwaitCopy(c) => {
            copying::law_copying_fails_only_as_replied(c, source, dir, reply, n);
            publish::law_unique_names(n, n, path::file_name(source)->0);
        },
    }
}

/// A reply that does not answer the request changes nothing.
pub proof fn law_odd_replies_keep_nothing(job: KeepingView, reply: AnswerView, n: u64)
    ensures
        job.request() is Canonicalize && !(reply is Path) && !(reply is Failed) ==> job.resume(
            reply,
            n,
        ) == KeepingStep::Ask(job),
        !(job.request() is Canonicalize) && !(reply is Done) && !(reply is Failed) ==> job.resume(
            reply,
            n,
        ) == KeepingStep::Ask(job),
{
    if let KeepingView::AwaitCopy(c) = job {
        copying::law_odd_replies_copy_nothing(c, reply, n);
    }
}

} // verus!
