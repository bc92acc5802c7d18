//! Copying one attachment to a folder.

use vstd::prelude::*;
use crate::file_path::FilePath;
use crate::io::{Answer, AnswerView, Failure, Reply, Request, Step};
use crate::path;
use crate::publish;
use crate::publish::{number_after, Publishing, PublishingView};

verus! {

/// Where an attachment is after copying, with `P` for the path.
#[derive(Debug)]
pub struct Copied<P> {
    pub path: P,
    /// Whether it is a new file, rather than one that was in the folder already.
    pub is_new: bool,
}

impl DeepView for Copied<FilePath> {
    type V = Copied<Seq<u8>>;

    open spec fn deep_view(&self) -> Copied<Seq<u8>> {
        Copied { path: self.path@, is_new: self.is_new }
    }
}

/// The job of copying the file `source` to the folder `dir`. The source is
/// only read.
#[derive(Debug)]
pub enum Copying {
    /// Which folder is the source in?
    AwaitParent { source: FilePath, name: Vec<u8>, parent: FilePath, dir: FilePath },
    /// Is that the folder it should be in?
    AwaitDir { source: FilePath, name: Vec<u8>, found: Option<FilePath>, dir: FilePath },
    /// The contents are copied to a temporary file in the folder.
    AwaitStaging { source: FilePath, name: Vec<u8>, dir: FilePath },
    /// The copy gets its name.
    AwaitPublishing(Publishing),
}

/// What a [`Copying`] holds.
pub ghost enum CopyingView {
    AwaitParent { source: Seq<u8>, name: Seq<u8>, parent: Seq<u8>, dir: Seq<u8> },
    AwaitDir { source: Seq<u8>, name: Seq<u8>, found: Option<Seq<u8>>, dir: Seq<u8> },
    AwaitStaging { source: Seq<u8>, name: Seq<u8>, dir: Seq<u8> },
    AwaitPublishing(PublishingView),
}

impl DeepView for Copying {
    type V = CopyingView;

    open spec fn deep_view(&self) -> CopyingView {
        match self {
            Copying::AwaitParent { source, name, parent, dir } => CopyingView::AwaitParent {
                source: source@,
                name: name@,
                parent: parent@,
                dir: dir@,
            },
            Copying::AwaitDir { source, name, found, dir } => CopyingView::AwaitDir {
                source: source@,
                name: name@,
                found: found.deep_view(),
                dir: dir@,
            },
            Copying::AwaitStaging { source, name, dir } => CopyingView::AwaitStaging {
                source: source@,
                name: name@,
                dir: dir@,
            },
            Copying::AwaitPublishing(job) => CopyingView::AwaitPublishing(job.deep_view()),
        }
    }
}

/// Where copying stands after a reply.
pub type CopyingStep = Step<CopyingView, Copied<Seq<u8>>, Failure>;

/// Where copying stands when publishing stands at `step`.
pub open spec fn while_publishing(step: Step<PublishingView, Seq<u8>, Failure>) -> CopyingStep {
    match step {
        Step::Ask(job) => Step::Ask(CopyingView::AwaitPublishing(job)),
        Step::Done(p) => Step::Done(Copied { path: p, is_new: true }),
        Step::Failed(f) => Step::Failed(f),
    }
}

impl CopyingView {
    /// The job for a file and a folder. A path without a file name cannot be
    /// copied.
    pub open spec fn start(source: Seq<u8>, dir: Seq<u8>) -> CopyingStep {
        match (path::file_name(source), path::parent(source)) {
            (Some(name), Some(parent)) => Step::Ask(
                CopyingView::AwaitParent { source, name, parent, dir },
            ),
            _ => Step::Failed(Failure::InvalidInput),
        }
    }

    pub open spec fn request(self) -> Request<Seq<u8>> {
        match self {
            CopyingView::AwaitParent { parent, .. } => Request::Canonicalize(parent),
            CopyingView::AwaitDir { dir, .. } => Request::Canonicalize(dir),
            CopyingView::AwaitStaging { source, dir, .. } => Request::StageCopy { source, dir },
            CopyingView::AwaitPublishing(job) => job.request(),
        }
    }

    /// What follows a reply, with `n` for the next name where one is taken. A
    /// reply that does not fit the request changes nothing.
    pub open spec fn resume(self, reply: AnswerView, n: u64) -> CopyingStep {
        match (self, reply) {
            (CopyingView::AwaitParent { source, name, dir, .. }, Reply::Path(p)) => Step::Ask(
                CopyingView::AwaitDir { source, name, found: Some(p), dir },
            ),
            (CopyingView::AwaitParent { source, name, dir, .. }, Reply::Failed(_)) => Step::Ask(
                CopyingView::AwaitDir { source, name, found: None, dir },
            ),
            (
                CopyingView::AwaitDir { source, name, found, dir },
                Reply::Path(d),
            ) => if found matches Some(p) && path::same_path(p, d) {
                Step::Done(Copied { path: source, is_new: false })
            } else {
                Step::Ask(CopyingView::AwaitStaging { source, name, dir })
            },
            (CopyingView::AwaitDir { .. }, Reply::Failed(f)) => Step::Failed(f),
            (CopyingView::AwaitStaging { name, dir, .. }, Reply::Done) => while_publishing(
                PublishingView::start(path::join(dir, name)),
            ),
            (CopyingView::AwaitStaging { .. }, Reply::Failed(f)) => Step::Failed(f),
            (CopyingView::AwaitPublishing(job), _) => while_publishing(job.resume(reply, n)),
            _ => Step::Ask(self),
        }
    }
}

fn publishing(step: Step<Publishing, FilePath, Failure>) -> (res: Step<
    Copying,
    Copied<FilePath>,
    Failure,
>)
    ensures
        res.deep_view() == while_publishing(step.deep_view()),
{
    match step {
        Step::Ask(job) => Step::Ask(Copying::AwaitPublishing(job)),
        Step::Done(path) => Step::Done(Copied { path, is_new: true }),
        Step::Failed(f) => Step::Failed(f),
    }
}

impl Copying {
    /// The job of copying the file `source` to the folder `dir`.
    pub fn start(source: &FilePath, dir: &FilePath) -> (res: Step<Copying, Copied<FilePath>, Failure>)
        ensures
            res.deep_view() == CopyingView::start(source@, dir@),
    {
        match (source.file_name(), source.parent()) {
            (Some(name), Some(parent)) => {
                assert(name.deep_view() =~= name@);
                Step::Ask(
                    Copying::AwaitParent {
                        source: source.clone(),
                        name,
                        parent,
                        dir: dir.clone(),
                    },
                )
            },
            _ => Step::Failed(Failure::InvalidInput),
        }
    }

    /// What to do next.
    pub fn request(&self) -> (res: Request<FilePath>)
        ensures
            res.deep_view() == self.deep_view().request(),
    {
        match self {
            Copying::AwaitParent { parent, .. } => Request::Canonicalize(parent.clone()),
            Copying::AwaitDir { dir, .. } => Request::Canonicalize(dir.clone()),
            Copying::AwaitStaging { source, dir, .. } => Request::StageCopy {
                source: source.clone(),
                dir: dir.clone(),
            },
            Copying::AwaitPublishing(job) => job.request(),
        }
    }

    /// Goes on with the reply to the request.
    pub fn resume(self, reply: Answer) -> (res: Step<Copying, Copied<FilePath>, Failure>)
        ensures
            exists|n: u64|
                res.deep_view() == #[trigger] self.deep_view().resume(reply.deep_view(), n),
    {
        let n = number_after(&reply);
        let res = self.resume_with(reply, n);
        assert(res.deep_view() == self.deep_view().resume(reply.deep_view(), n));
        res
    }

    /// Goes on with the reply to the request, with `n` for the next name where
    /// one is taken.
    pub fn resume_with(self, reply: Answer, n: u64) -> (res: Step<
        Copying,
        Copied<FilePath>,
        Failure,
    >)
        ensures
            res.deep_view() == self.deep_view().resume(reply.deep_view(), n),
    {
        match self {
            Copying::AwaitParent { source, name, parent, dir } => match reply {
                Reply::Path(p) => Step::Ask(
                    Copying::AwaitDir { source, name, found: Some(p), dir },
                ),
                Reply::Failed(_) => Step::Ask(
                    Copying::AwaitDir { source, name, found: None, dir },
                ),
                _ => Step::Ask(Copying::AwaitParent { source, name, parent, dir }),
            },
            Copying::AwaitDir { source, name, found, dir } => match reply {
                Reply::Path(d) => {
                    let same = match &found {
                        Some(p) => p.same_as(&d),
                        None => false,
                    };
                    if same {
                        Step::Done(Copied { path: source, is_new: false })
                    } else {
                        Step::Ask(Copying::AwaitStaging { source, name, dir })
                    }
                },
                Reply::Failed(f) => Step::Failed(f),
                _ => Step::Ask(Copying::AwaitDir { source, name, found, dir }),
            },
            Copying::AwaitStaging { source, name, dir } => match reply {
                Reply::Done => publishing(Publishing::start(dir.join_bytes(name.as_slice()))),
                Reply::Failed(f) => Step::Failed(f),
                _ => Step::Ask(Copying::AwaitStaging { source, name, dir }),
            },
            Copying::AwaitPublishing(job) => publishing(job.resume_with(reply, n)),
        }
    }
}

/// What a job from [`CopyingView::start`] holds, however far it is.
pub open spec fn is_about(job: CopyingView, source: Seq<u8>, dir: Seq<u8>) -> bool {
    match job {
        CopyingView::AwaitParent { source: s, name, parent, dir: d } => {
            &&& s == source && d == dir
            &&& path::file_name(source) == Some(name)
            &&& path::parent(source) == Some(parent)
        },
        CopyingView::AwaitDir { source: s, name, dir: d, .. } => {
            &&& s == source && d == dir
            &&& path::file_name(source) == Some(name)
        },
        CopyingView::AwaitStaging { source: s, name, dir: d } => {
            &&& s == source && d == dir
            &&& path::file_name(source) == Some(name)
        },
        CopyingView::AwaitPublishing(p) => {
            &&& publish::is_genuine(p)
            &&& path::file_name(source) == Some(p.name)
            &&& p.preferred == path::join(dir, p.name)
        },
    }
}

/// A job stays about the file and the folder that it was started for.
pub proof fn law_copying_stays_about(
    job: CopyingView,
    source: Seq<u8>,
    dir: Seq<u8>,
    reply: AnswerView,
    n: u64,
)
    ensures
        CopyingView::start(source, dir) matches Step::Ask(first) ==> is_about(first, source, dir),
        is_about(job, source, dir) ==> (job.resume(reply, n) matches Step::Ask(next) ==> is_about(
            next,
            source,
            dir,
        )),
{
    path::law_parent_and_file_name(source);
    if let Some(name) = path::file_name(source) {
        path::law_join_plain_name(dir, name);
    }
    if let CopyingView::AwaitPublishing(p) = job {
        publish::law_publishing_stays_genuine(p.preferred, p, reply, n);
    }
}

/// A file can be copied unless its path has no file name.
pub proof fn law_copying_starts(source: Seq<u8>, dir: Seq<u8>)
    ensures
        CopyingView::start(source, dir) is Ask <==> path::file_name(source) is Some,
{
    path::law_parent_and_file_name(source);
}

/// A copy is made in the folder it was meant for, under the name of the source
/// or one that ends in it, and takes no other file's place; a file that is in
/// the folder already stays as it is.
pub proof fn law_copy_is_in_the_folder(
    job: CopyingView,
    source: Seq<u8>,
    dir: Seq<u8>,
    reply: AnswerView,
    n: u64,
)
    requires
        is_about(job, source, dir),
    ensures
        job.resume(reply, n) matches Step::Done(copy) ==> if copy.is_new {
            &&& job.request() == Request::Persist(copy.path)
            &&& reply is Done
            &&& path::components(copy.path).drop_last() == path::components(dir)
            &&& path::file_name(copy.path) matches Some(name)
                && path::file_name(source)->0.is_suffix_of(name)
        } else {
            &&& copy.path == source
            &&& job matches CopyingView::AwaitDir { found: Some(p), .. }
            &&& job.request() == Request::Canonicalize(dir)
            &&& reply matches Reply::Path(d)
            &&& path::same_path(p, d)
        },
{
    path::law_parent_and_file_name(source);
    let name = path::file_name(source)->0;
    path::law_join_plain_name(dir, name);
    assert(path::components(path::join(dir, name)).drop_last() =~= path::components(dir));
    if let CopyingView::AwaitPublishing(p) = job {
        publish::law_published_beside_the_preferred_path(p, reply, n);
    }
}

/// Copying writes nowhere but to the folder: apart from looking, it asks only
/// for a temporary copy there and for a name there.
pub proof fn law_copying_writes_only_to_the_folder(job: CopyingView, source: Seq<u8>, dir: Seq<u8>)
    requires
        is_about(job, source, dir),
    ensures
        ({
            ||| job.request().only_reads()
            ||| job.request() == Request::StageCopy { source, dir }
            ||| job.request() matches Request::Persist(target) && path::components(
                target,
            ).drop_last() == path::components(dir)
        }),
{
    if let CopyingView::AwaitPublishing(p) = job {
        law_copy_is_in_the_folder(job, source, dir, Reply::Done, 0);
    }
}

/// Copying fails only with a failure that was replied. That the folder of the source
/// is not to be found is no reason to fail, and neither is a name that is taken;
/// every other failure is.
pub proof fn law_copying_fails_only_as_replied(
    job: CopyingView,
    source: Seq<u8>,
    dir: Seq<u8>,
    reply: AnswerView,
    n: u64,
)
    requires
        is_about(job, source, dir),
    ensures
        job.resume(reply, n) matches Step::Failed(f) ==> {
            &&& reply == AnswerView::Failed(f)
            &&& job.request() is Persist ==> !(f is AlreadyExists)
            &&& job.request() is Canonicalize ==> job.request() == Request::Canonicalize(dir)
        },
        reply matches Reply::Failed(f) ==> match job.request() {
            Request::Canonicalize(p) => job is AwaitParent || job.resume(reply, n)
                == CopyingStep::Failed(f),
            Request::Persist(_) => f is AlreadyExists || job.resume(reply, n)
                == CopyingStep::Failed(f),
            _ => job.resume(reply, n) == CopyingStep::Failed(f),
        },
        job.request() is Persist && (reply matches Reply::Failed(Failure::AlreadyExists(_))) ==> {
            &&& job.resume(reply, n) matches Step::Ask(next)
            &&& next.request() matches Request::Persist(other)
            &&& path::components(other).drop_last() == path::components(dir)
            &&& path::file_name(other) == Some(
                publish::unique_name(n, path::file_name(source)->0),
            )
        },
{
    path::law_parent_and_file_name(source);
    let name = path::file_name(source)->0;
    path::law_join_plain_name(dir, name);
    assert(path::components(path::join(dir, name)).drop_last() =~= path::components(dir));
    if let CopyingView::AwaitPublishing(p) = job {
        publish::law_a_taken_name_is_followed_by_another(p, reply, n);
    }
}

/// A file that has a name is copied: first it is found out which folder it is in and
/// which one it should be in. If that is one and the same, it stays, and nothing is
/// written. Otherwise its contents are staged in the folder and get its name there,
/// if that is free, and the copy is a new file. A path without a file name is not
/// copied.
pub proof fn law_files_are_copied_unless_they_are_there(
    source: Seq<u8>,
    dir: Seq<u8>,
    found: Option<Seq<u8>>,
    lost: Failure,
    wanted: Seq<u8>,
    n: u64,
)
    ensures
        path::file_name(source) is None ==> CopyingView::start(source, dir) == CopyingStep::Failed(
            Failure::InvalidInput,
        ),
        path::file_name(source) matches Some(name) ==> {
            let told: AnswerView = match found {
                Some(p) => Reply::Path(p),
                None => Reply::Failed(lost),
            };
            let is_there = found matches Some(p) && path::components(p) == path::components(wanted);
            &&& CopyingView::start(source, dir) matches Step::Ask(look)
            &&& path::parent(source) matches Some(parent)
            &&& look.request() == Request::Canonicalize(parent)
            &&& look.resume(told, n) matches Step::Ask(compare)
            &&& compare.request() == Request::Canonicalize(dir)
            &&& if is_there {
                compare.resume(Reply::Path(wanted), n) == CopyingStep::Done(
                    Copied { path: source, is_new: false },
                )
            } else {
                &&& compare.resume(Reply::Path(wanted), n) matches Step::Ask(stage)
                &&& stage.request() == (Request::StageCopy { source, dir })
                &&& stage.resume(Reply::Done, n) matches Step::Ask(publish)
                &&& publish.request() == Request::Persist(path::join(dir, name))
                &&& publish.resume(Reply::Done, n) == CopyingStep::Done(
                    Copied { path: path::join(dir, name), is_new: true },
                )
            }
        },
{
    path::law_parent_and_file_name(source);
    if let Some(name) = path::file_name(source) {
        path::law_join_plain_name(dir, name);
    }
}

/// A reply that does not answer the request changes nothing.
pub proof fn law_odd_replies_copy_nothing(job: CopyingView, reply: AnswerView, n: u64)
    ensures
        job.request() is Canonicalize && !(reply is Path) && !(reply is Failed) ==> job.resume(
            reply,
            n,
        ) == CopyingStep::Ask(job),
        !(job.request() is Canonicalize) && !(reply is Done) && !(reply is Failed) ==> job.resume(
            reply,
            n,
        ) == CopyingStep::Ask(job),
{
}

} // verus!
