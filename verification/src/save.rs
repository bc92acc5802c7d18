//! Saving new downloads and uploaded attachments.

use vstd::prelude::*;
use crate::file_path::FilePath;
use crate::io::{Answer, AnswerView, Failure, Reply, Request, Step};
use crate::path;
use crate::publish;
use crate::publish::{number_after, Publishing, PublishingView};

verus! {

/// Why an attachment could not be saved.
#[derive(Debug)]
pub enum SaveError {
    /// The path is no good, or the file system refused.
    Failure(Failure),
    /// The task that saves broke down.
    TaskFailed,
}

impl SaveError {
    /// What a user is told.
    pub open spec fn spec_message(self) -> Seq<char> {
        match self {
            SaveError::Failure(failure) => failure.spec_message(),
            SaveError::TaskFailed => "Attachment save task failed"@,
        }
    }

    /// What a user is told.
    pub fn message(&self) -> (res: String)
        ensures
            res@ == self.spec_message(),
            match self {
                SaveError::Failure(failure) => res@ == failure.spec_message(),
                SaveError::TaskFailed => res@
                    == "Attachment save task failed"@,
            },
    {
        match self {
            SaveError::Failure(failure) => failure.message(),
            SaveError::TaskFailed => "Attachment save task failed".to_owned(),
        }
    }
}

/// The job of saving bytes at a path, or beside it if something is there.
#[derive(Debug)]
pub enum Saving {
    /// The folder has to be there.
    AwaitDir { path: FilePath, dir: FilePath, bytes: Vec<u8> },
    /// The bytes are written to a temporary file in the folder.
    AwaitStaging { path: FilePath, dir: FilePath, bytes: Vec<u8> },
    /// The file gets its name.
    AwaitPublishing(Publishing),
}

/// What a [`Saving`] holds.
pub ghost enum SavingView {
    AwaitDir { path: Seq<u8>, dir: Seq<u8>, bytes: Seq<u8> },
    AwaitStaging { path: Seq<u8>, dir: Seq<u8>, bytes: Seq<u8> },
    AwaitPublishing(PublishingView),
}

impl DeepView for Saving {
    type V = SavingView;

    open spec fn deep_view(&self) -> SavingView {
        match self {
            Saving::AwaitDir { path, dir, bytes } => SavingView::AwaitDir {
                path: path@,
                dir: dir@,
                bytes: bytes@,
            },
            Saving::AwaitStaging { path, dir, bytes } => SavingView::AwaitStaging {
                path: path@,
                dir: dir@,
                bytes: bytes@,
            },
            Saving::AwaitPublishing(job) => SavingView::AwaitPublishing(job.deep_view()),
        }
    }
}

/// Where saving stands after a reply. It is done with the path of the new file.
pub type SavingStep = Step<SavingView, Seq<u8>, SaveError>;

/// Where saving stands when publishing stands at `step`.
pub open spec fn while_publishing(step: Step<PublishingView, Seq<u8>, Failure>) -> SavingStep {
    match step {
        Step::Ask(job) => Step::Ask(SavingView::AwaitPublishing(job)),
        Step::Done(p) => Step::Done(p),
        Step::Failed(f) => Step::Failed(SaveError::Failure(f)),
    }
}

impl SavingView {
    /// The job for a path and some bytes. The root and the empty path are in no
    /// folder.
    pub open spec fn start(path: Seq<u8>, bytes: Seq<u8>) -> SavingStep {
        match path::parent(path) {
            Some(dir) => Step::Ask(SavingView::AwaitDir { path, dir, bytes }),
            None => Step::Failed(SaveError::Failure(Failure::InvalidInput)),
        }
    }

    pub open spec fn request(self) -> Request<Seq<u8>> {
        match self {
            SavingView::AwaitDir { dir, .. } => Request::CreateDirAll(dir),
            SavingView::AwaitStaging { dir, .. } => Request::StageBytes(dir),
            SavingView::AwaitPublishing(job) => job.request(),
        }
    }

    /// The bytes to write, while that is what is asked for.
    pub open spec fn bytes(self) -> Option<Seq<u8>> {
        match self {
            SavingView::AwaitStaging { bytes, .. } => Some(bytes),
            _ => None,
        }
    }

    /// What follows a reply, with `n` for the next name where one is taken. A
    /// reply that does not fit the request changes nothing.
    pub open spec fn resume(self, reply: AnswerView, n: u64) -> SavingStep {
        match (self, reply) {
            (_, Reply::TaskFailed) => Step::Failed(SaveError::TaskFailed),
            (SavingView::AwaitDir { path, dir, bytes }, Reply::Done) => Step::Ask(
                SavingView::AwaitStaging { path, dir, bytes },
            ),
            (SavingView::AwaitDir { .. }, Reply::Failed(f)) => Step::Failed(SaveError::Failure(f)),
            (SavingView::AwaitStaging { path, .. }, Reply::Done) => while_publishing(
                PublishingView::start(path),
            ),
            (SavingView::AwaitStaging { .. }, Reply::Failed(f)) => Step::Failed(
                SaveError::Failure(f),
            ),
            (SavingView::AwaitPublishing(job), _) => while_publishing(job.resume(reply, n)),
            _ => Step::Ask(self),
        }
    }
}

fn publishing(step: Step<Publishing, FilePath, Failure>) -> (res: Step<Saving, FilePath, SaveError>)
    ensures
        res.deep_view() == while_publishing(step.deep_view()),
{
    match step {
        Step::Ask(job) => Step::Ask(Saving::AwaitPublishing(job)),
        Step::Done(path) => Step::Done(path),
        Step::Failed(f) => Step::Failed(SaveError::Failure(f)),
    }
}

/// Save new downloads and uploaded attachments with the same no-clobber policy.
pub fn save(path: FilePath, bytes: Vec<u8>) -> (res: Step<Saving, FilePath, SaveError>)
    ensures
        res.deep_view() == SavingView::start(path@, bytes@),
{
    match path.parent() {
        Some(dir) => Step::Ask(Saving::AwaitDir { path, dir, bytes }),
        None => Step::Failed(SaveError::Failure(Failure::InvalidInput)),
    }
}

impl Saving {
    /// What to do next.
    pub fn request(&self) -> (res: Request<FilePath>)
        ensures
            res.deep_view() == self.deep_view().request(),
    {
        match self {
            Saving::AwaitDir { dir, .. } => Request::CreateDirAll(dir.clone()),
            Saving::AwaitStaging { dir, .. } => Request::StageBytes(dir.clone()),
            Saving::AwaitPublishing(job) => job.request(),
        }
    }

    /// The bytes to write, while that is what is asked for.
    pub fn bytes(&self) -> (res: Option<&Vec<u8>>)
        ensures
            match self.deep_view().bytes() {
                Some(bytes) => res matches Some(found) && found@ == bytes,
                None => res is None,
            },
    {
        match self {
            Saving::AwaitStaging { bytes, .. } => Some(bytes),
            _ => None,
        }
    }

    /// Goes on with the reply to the request.
    pub fn resume(self, reply: Answer) -> (res: Step<Saving, FilePath, SaveError>)
        ensures
            exists|n: u64|
                res.deep_view() == #[trigger] self.deep_view().resume(reply.deep_view(), n),
    {
        let n = number_after(&reply);
        let res = self.resume_with(reply, n);
        assert(res.deep_view() == self.deep_view().resume(reply.deep_view(), n));
        res
    }

    /// Goes on with the reply to the request, with `n` for the next name where
    /// one is taken.
    pub fn resume_with(self, reply: Answer, n: u64) -> (res: Step<Saving, FilePath, SaveError>)
        ensures
            res.deep_view() == self.deep_view().resume(reply.deep_view(), n),
    {
        match reply {
            Reply::TaskFailed => Step::Failed(SaveError::TaskFailed),
            reply => match self {
                Saving::AwaitDir { path, dir, bytes } => match reply {
                    Reply::Done => Step::Ask(Saving::AwaitStaging { path, dir, bytes }),
                    Reply::Failed(f) => Step::Failed(SaveError::Failure(f)),
                    _ => Step::Ask(Saving::AwaitDir { path, dir, bytes }),
                },
                Saving::AwaitStaging { path, dir, bytes } => match reply {
                    Reply::Done => publishing(Publishing::start(path)),
                    Reply::Failed(f) => Step::Failed(SaveError::Failure(f)),
                    _ => Step::Ask(Saving::AwaitStaging { path, dir, bytes }),
                },
                Saving::AwaitPublishing(job) => publishing(job.resume_with(reply, n)),
            },
        }
    }
}

/// What a job from [`SavingView::start`] holds, however far it is.
pub open spec fn is_about(job: SavingView, path: Seq<u8>, bytes: Seq<u8>) -> bool {
    match job {
        SavingView::AwaitDir { path: p, dir, bytes: b } => {
            &&& p == path && b == bytes
            &&& path::parent(path) == Some(dir)
        },
        SavingView::AwaitStaging { path: p, dir, bytes: b } => {
            &&& p == path && b == bytes
            &&& path::parent(path) == Some(dir)
        },
        SavingView::AwaitPublishing(p) => publish::is_genuine(p) && p.preferred == path,
    }
}

/// A job stays about the path and the bytes that it was started for.
pub proof fn law_saving_stays_about(
    job: SavingView,
    path: Seq<u8>,
    bytes: Seq<u8>,
    reply: AnswerView,
    n: u64,
)
    ensures
        SavingView::start(path, bytes) matches Step::Ask(first) ==> is_about(first, path, bytes),
        is_about(job, path, bytes) ==> (job.resume(reply, n) matches Step::Ask(next) ==> is_about(
            next,
            path,
            bytes,
        )),
{
    if is_about(job, path, bytes) {
        match job {
            SavingView::AwaitPublishing(p) => {
                publish::law_publishing_stays_genuine(path, p, reply, n);
            },
            _ => {
                publish::law_publishing_stays_genuine(
                    path,
                    PublishingView { preferred: path, name: path, target: path },
                    reply,
                    n,
                );
            },
        }
    }
}

/// A saved file is in the folder it was meant for, under the wanted name or one
/// that ends in it, and it got that name without taking another file's place.
pub proof fn law_saved_beside_the_wanted_path(
    job: SavingView,
    path: Seq<u8>,
    bytes: Seq<u8>,
    reply: AnswerView,
    n: u64,
)
    requires
        is_about(job, path, bytes),
    ensures
        job.resume(reply, n) matches Step::Done(p) ==> {
            &&& job.request() == Request::Persist(p)
            &&& reply is Done
            &&& path::components(p).drop_last() == path::components(path).drop_last()
            &&& path::file_name(p) matches Some(name) && path::file_name(path)->0.is_suffix_of(name)
        },
{
    if let SavingView::AwaitPublishing(p) = job {
        publish::law_published_beside_the_preferred_path(p, reply, n);
    }
}

/// Saving writes nowhere but to the folder: it asks for the folder itself, for a
/// temporary file with the bytes in it, and for a name there.
pub proof fn law_saving_writes_only_to_the_folder(job: SavingView, path: Seq<u8>, bytes: Seq<u8>)
    requires
        is_about(job, path, bytes),
    ensures
        match job.request() {
            Request::CreateDirAll(dir) => path::parent(path) == Some(dir),
            Request::StageBytes(dir) => path::parent(path) == Some(dir) && job.bytes() == Some(
                bytes,
            ),
            Request::Persist(target) => path::components(target).drop_last()
                == path::components(path).drop_last(),
            _ => false,
        },
{
    if let SavingView::AwaitPublishing(p) = job {
        publish::law_published_beside_the_preferred_path(p, Reply::Done, 0);
    }
}

/// Saving fails only with a failure that was replied, or because its task broke down,
/// or because the path has no file name. A name that is taken is no reason to fail:
/// another one in the same folder is asked for. Every other failure is.
pub proof fn law_saving_fails_only_as_replied(
    job: SavingView,
    path: Seq<u8>,
    bytes: Seq<u8>,
    reply: AnswerView,
    n: u64,
)
    requires
        is_about(job, path, bytes),
    ensures
        job.resume(reply, n) matches Step::Failed(SaveError::Failure(f)) ==> {
            ||| reply == AnswerView::Failed(f) && (job.request() is Persist ==> !(
            f is AlreadyExists))
            ||| job.request() is StageBytes && reply is Done && path::file_name(path) is None && f
                == Failure::InvalidInput
        },
        job.resume(reply, n) == SavingStep::Failed(SaveError::TaskFailed) <==> reply is TaskFailed,
        reply matches Reply::Failed(f) ==> (job.request() is Persist && f is AlreadyExists
            || job.resume(reply, n) == SavingStep::Failed(SaveError::Failure(f))),
        job.request() is Persist && (reply matches Reply::Failed(Failure::AlreadyExists(_))) ==> {
            &&& job.resume(reply, n) matches Step::Ask(next)
            &&& next.request() matches Request::Persist(other)
            &&& path::components(other).drop_last() == path::components(path).drop_last()
            &&& path::file_name(other) == Some(publish::unique_name(n, path::file_name(path)->0))
        },
{
    if let SavingView::AwaitPublishing(p) = job {
        publish::law_a_taken_name_is_followed_by_another(p, reply, n);
    }
}

/// New bytes are saved: the folder of the path is made, the bytes are staged there,
/// and get the name of the path, if that is free. The root and the empty path are
/// in no folder, and nothing is saved for them.
pub proof fn law_new_bytes_are_saved(path: Seq<u8>, bytes: Seq<u8>, n: u64)
    ensures
        path::parent(path) is None ==> SavingView::start(path, bytes) == SavingStep::Failed(
            SaveError::Failure(Failure::InvalidInput),
        ),
        path::parent(path) matches Some(dir) ==> {
            &&& SavingView::start(path, bytes) matches Step::Ask(create)
            &&& create.request() == Request::CreateDirAll(dir)
            &&& create.bytes() is None
            &&& create.resume(Reply::Done, n) matches Step::Ask(stage)
            &&& stage.request() == Request::StageBytes(dir)
            &&& stage.bytes() == Some(bytes)
            &&& if path::file_name(path) is Some {
                &&& stage.resume(Reply::Done, n) matches Step::Ask(publish)
                &&& publish.request() == Request::Persist(path)
                &&& publish.bytes() is None
                &&& publish.resume(Reply::Done, n) == SavingStep::Done(path)
            } else {
                stage.resume(Reply::Done, n) == SavingStep::Failed(
                    SaveError::Failure(Failure::InvalidInput),
                )
            }
        },
{
}

/// A reply that says nothing of what was to be done changes nothing.
pub proof fn law_odd_replies_save_nothing(job: SavingView, reply: AnswerView, n: u64)
    ensures
        !(reply is Done) && !(reply is Failed) && !(reply is TaskFailed) ==> job.resume(reply, n)
            == SavingStep::Ask(job),
{
}

} // verus!
