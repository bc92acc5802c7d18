//! Making sure that the directories are there and private.

use vstd::prelude::*;
use crate::file_path::FilePath;
use crate::io::{Answer, AnswerView, Failure, Reply, Request, Step};
use crate::path;
use crate::paths::{AppDirs, Layout};

verus! {

/// Permission bits that let nobody in but the owner.
pub const PRIVATE_MODE: u32 = 0o700;

/// The job of making directories, one after the other. Each is created
/// privately, even with a permissive umask, and one that was there already is
/// restricted. A directory that cannot be had ends the job.
#[derive(Debug)]
pub struct Ensuring {
    pub current: FilePath,
    /// Whether the current directory is there and has to be restricted.
    pub created: bool,
    pub rest: Vec<FilePath>,
}

/// What an [`Ensuring`] holds.
pub ghost struct EnsuringView {
    pub current: Seq<u8>,
    pub created: bool,
    pub rest: Seq<Seq<u8>>,
}

impl DeepView for Ensuring {
    type V = EnsuringView;

    open spec fn deep_view(&self) -> EnsuringView {
        EnsuringView {
            current: self.current@,
            created: self.created,
            rest: self.rest.deep_view(),
        }
    }
}

/// Where the directories stand after a reply.
pub type EnsuringStep = Step<EnsuringView, (), Failure>;

impl EnsuringView {
    /// The job for some directories.
    pub open spec fn begin(dirs: Seq<Seq<u8>>) -> EnsuringStep {
        if dirs.len() == 0 {
            Step::Done(())
        } else {
            Step::Ask(
                EnsuringView { current: dirs[0], created: false, rest: dirs.drop_first() },
            )
        }
    }

    pub open spec fn request(self) -> Request<Seq<u8>> {
        if self.created {
            Request::Restrict { path: self.current, mode: PRIVATE_MODE }
        } else {
            Request::CreatePrivateDir { path: self.current, mode: PRIVATE_MODE }
        }
    }

    /// What follows a reply. A reply that does not fit the request changes nothing.
    pub open spec fn resume(self, reply: AnswerView) -> EnsuringStep {
        match reply {
            Reply::Done => if self.created {
                Self::begin(self.rest)
            } else {
                Step::Ask(EnsuringView { created: true, ..self })
            },
            Reply::Failed(f) => Step::Failed(f),
            _ => Step::Ask(self),
        }
    }
}

fn begin(dirs: Vec<FilePath>) -> (res: Step<Ensuring, (), Failure>)
    ensures
        res.deep_view() == EnsuringView::begin(dirs.deep_view()),
{
    let mut dirs = dirs;
    if dirs.len() == 0 {
        return Step::Done(());
    }
    let ghost all = dirs.deep_view();
    let current = dirs.remove(0);
    assert(all[0] == current@);
    assert(dirs.deep_view() =~= all.drop_first());
    Step::Ask(Ensuring { current, created: false, rest: dirs })
}

impl Ensuring {
    /// What to do next.
    pub fn request(&self) -> (res: Request<FilePath>)
        ensures
            res.deep_view() == self.deep_view().request(),
    {
        let path = self.current.clone();
        if self.created {
            Request::Restrict { path, mode: PRIVATE_MODE }
        } else {
            Request::CreatePrivateDir { path, mode: PRIVATE_MODE }
        }
    }

    /// Goes on with the reply to the request.
    pub fn resume(self, reply: Answer) -> (res: Step<Ensuring, (), Failure>)
        ensures
            res.deep_view() == self.deep_view().resume(reply.deep_view()),
    {
        match reply {
            Reply::Done => if self.created {
                begin(self.rest)
            } else {
                Step::Ask(Ensuring { current: self.current, created: true, rest: self.rest })
            },
            Reply::Failed(f) => Step::Failed(f),
            _ => Step::Ask(self),
        }
    }
}

/// The job of making the attachment folder.
#[derive(Debug)]
pub struct MediaDirEnsuring {
    pub dir: FilePath,
}

impl DeepView for MediaDirEnsuring {
    type V = Seq<u8>;

    open spec fn deep_view(&self) -> Seq<u8> {
        self.dir@
    }
}

/// What follows a reply to the request that a folder be created. A reply that
/// does not fit changes nothing.
pub open spec fn after_creating(dir: Seq<u8>, reply: AnswerView) -> Step<Seq<u8>, Seq<u8>, Failure> {
    match reply {
        Reply::Done => Step::Done(dir),
        Reply::Failed(f) => Step::Failed(f),
        _ => Step::Ask(dir),
    }
}

impl MediaDirEnsuring {
    /// What to do next.
    pub fn request(&self) -> (res: Request<FilePath>)
        ensures
            res.deep_view() == Request::CreateDirAll(self.dir@),
    {
        Request::CreateDirAll(self.dir.clone())
    }

    /// Goes on with the reply to the request: the folder, once it is there.
    pub fn resume(self, reply: Answer) -> (res: Step<MediaDirEnsuring, FilePath, Failure>)
        ensures
            res.deep_view() == after_creating(self.dir@, reply.deep_view()),
            reply is Done ==> (res matches Step::Done(dir) && dir@ == self.dir@),
            reply matches Reply::Failed(f) ==> (res matches Step::Failed(g) && g == f),
            !(reply is Done) && !(reply is Failed) ==> (res matches Step::Ask(job) && job.dir@
                == self.dir@),
    {
        match reply {
            Reply::Done => Step::Done(self.dir),
            Reply::Failed(f) => Step::Failed(f),
            _ => Step::Ask(self),
        }
    }
}

/// The directories that an installation cannot do without, in the order in
/// which they are made.
pub open spec fn base_dirs(dirs: Layout) -> Seq<Seq<u8>> {
    seq![dirs.config, dirs.state, dirs.cache]
}

impl AppDirs {
    /// Makes the directories, readable by their owner alone.
    pub fn ensure(&self) -> (res: Step<Ensuring, (), Failure>)
        ensures
            res.deep_view() == EnsuringView::begin(base_dirs(self@)),
    {
        let mut dirs: Vec<FilePath> = Vec::new();
        dirs.push(self.config.clone());
        dirs.push(self.state.clone());
        dirs.push(self.cache.clone());
        assert(dirs.deep_view() =~= base_dirs(self@));
        begin(dirs)
    }

    /// Creates the effective attachment folder before opening it in the desktop.
    pub fn ensure_media_dir(&self) -> (res: MediaDirEnsuring)
        ensures
            res.dir@ == self@.media_dir(),
            self.custom_media matches Some(dir) ==> res.dir@ == dir@,
            self.custom_media is None ==> res.dir@ == path::join(self.cache@, path::text("media")),
    {
        MediaDirEnsuring { dir: self.media_dir() }
    }
}

/// Where a job stands after some replies.
pub open spec fn after(step: EnsuringStep, replies: Seq<AnswerView>) -> EnsuringStep
    decreases replies.len(),
{
    match step {
        Step::Ask(job) if replies.len() > 0 => after(
            job.resume(replies[0]),
            replies.drop_first(),
        ),
        _ => step,
    }
}

/// What was carried out in the course of some replies.
pub open spec fn carried_out(step: EnsuringStep, replies: Seq<AnswerView>) -> Seq<
    Request<Seq<u8>>,
>
    decreases replies.len(),
{
    match step {
        Step::Ask(job) if replies.len() > 0 => (if replies[0] is Done {
            seq![job.request()]
        } else {
            Seq::empty()
        }) + carried_out(job.resume(replies[0]), replies.drop_first()),
        _ => Seq::empty(),
    }
}

/// All that has to be carried out for some directories.
pub open spec fn plan(dirs: Seq<Seq<u8>>) -> Seq<Request<Seq<u8>>>
    decreases dirs.len(),
{
    if dirs.len() == 0 {
        Seq::empty()
    } else {
        seq![
            Request::CreatePrivateDir { path: dirs[0], mode: PRIVATE_MODE },
            Request::Restrict { path: dirs[0], mode: PRIVATE_MODE },
        ] + plan(dirs.drop_first())
    }
}

spec fn plan_left(step: EnsuringStep) -> Seq<Request<Seq<u8>>> {
    match step {
        Step::Ask(job) => (if job.created {
            seq![Request::Restrict { path: job.current, mode: PRIVATE_MODE }]
        } else {
            seq![
                Request::CreatePrivateDir { path: job.current, mode: PRIVATE_MODE },
                Request::Restrict { path: job.current, mode: PRIVATE_MODE },
            ]
        }) + plan(job.rest),
        _ => Seq::empty(),
    }
}

proof fn lemma_plan_left(step: EnsuringStep, replies: Seq<AnswerView>)
    ensures
        carried_out(step, replies) + plan_left(after(step, replies)) == plan_left(step)
            || after(step, replies) is Failed,
        carried_out(step, replies).is_prefix_of(plan_left(step)),
        after(step, replies) is Failed && !(step is Failed) ==> carried_out(step, replies).len()
            < plan_left(step).len(),
    decreases replies.len(),
{
    if let Step::Ask(job) = step {
        if replies.len() > 0 {
            let next = job.resume(replies[0]);
            let rest = replies.drop_first();
            lemma_plan_left(next, rest);
            let done = carried_out(next, rest);
            if replies[0] is Done {
                assert(plan_left(step) =~= seq![job.request()] + plan_left(next));
                assert(carried_out(step, replies) =~= seq![job.request()] + done);
            } else {
                assert(carried_out(step, replies) =~= done);
            }
            if !(after(step, replies) is Failed) {
                assert(carried_out(step, replies) + plan_left(after(step, replies)) =~= plan_left(
                    step,
                ));
            }
            assert(carried_out(step, replies) =~= plan_left(step).subrange(
                0,
                carried_out(step, replies).len() as int,
            ));
        } else {
            assert(carried_out(step, replies) + plan_left(step) =~= plan_left(step));
            assert(carried_out(step, replies) =~= plan_left(step).subrange(0, 0));
        }
    } else {
        assert(carried_out(step, replies) + plan_left(step) =~= plan_left(step));
        assert(carried_out(step, replies) =~= plan_left(step).subrange(0, 0));
    }
}

/// Directories are made in order, each created privately and then restricted:
/// when the job is done, all of that has been carried out; when it has failed,
/// nothing behind the failure has been.
pub proof fn law_directories_are_made_private_in_order(
    dirs: Seq<Seq<u8>>,
    replies: Seq<AnswerView>,
)
    ensures
        carried_out(EnsuringView::begin(dirs), replies).is_prefix_of(plan(dirs)),
        after(EnsuringView::begin(dirs), replies) is Done ==> carried_out(
            EnsuringView::begin(dirs),
            replies,
        ) == plan(dirs),
        after(EnsuringView::begin(dirs), replies) is Failed ==> carried_out(
            EnsuringView::begin(dirs),
            replies,
        ).len() < plan(dirs).len(),
{
    let step = EnsuringView::begin(dirs);
    assert(plan_left(step) =~= plan(dirs));
    lemma_plan_left(step, replies);
    if after(step, replies) is Done {
        assert(carried_out(step, replies) =~= carried_out(step, replies) + plan_left(
            after(step, replies),
        ));
    }
}

/// Making directories fails only with a failure that was replied, and with every
/// failure that is replied.
pub proof fn law_ensuring_fails_only_as_replied(job: EnsuringView, reply: AnswerView)
    ensures
        job.resume(reply) matches Step::Failed(f) ==> reply == AnswerView::Failed(f),
        reply matches AnswerView::Failed(f) ==> job.resume(reply) == EnsuringStep::Failed(f),
{
}

proof fn lemma_ensuring_ends(step: EnsuringStep, replies: Seq<AnswerView>)
    requires
        !(step is Failed),
        forall|i: int| 0 <= i < replies.len() ==> #[trigger] replies[i] is Done,
    ensures
        !(after(step, replies) is Failed),
        replies.len() >= (match step {
            Step::Ask(job) => 2 * job.rest.len() + (if job.created {
                1int
            } else {
                2int
            }),
            _ => 0int,
        }) ==> after(step, replies) is Done,
    decreases replies.len(),
{
    if let Step::Ask(job) = step {
        if replies.len() > 0 {
            assert(replies[0] is Done);
            let rest = replies.drop_first();
            assert forall|i: int| 0 <= i < rest.len() implies #[trigger] rest[i] is Done by {
                assert(rest[i] == replies[i + 1]);
            }
            lemma_ensuring_ends(job.resume(replies[0]), rest);
        }
    }
}

/// The three directories of an installation are made, and nothing else is done: the
/// configuration, the state and the cache are each created for their owner alone
/// and then restricted to their owner. Where all of that can be done it is, and that
/// is the end.
pub proof fn law_installation_is_private(dirs: Layout, replies: Seq<AnswerView>)
    ensures
        (forall|i: int| 0 <= i < replies.len() ==> #[trigger] replies[i] is Done) ==> {
            &&& !(after(EnsuringView::begin(base_dirs(dirs)), replies) is Failed)
            &&& replies.len() >= 6 ==> after(EnsuringView::begin(base_dirs(dirs)), replies) is Done
        },
        after(EnsuringView::begin(base_dirs(dirs)), replies) is Done ==> carried_out(
            EnsuringView::begin(base_dirs(dirs)),
            replies,
        ) == seq![
            Request::CreatePrivateDir { path: dirs.config, mode: 0o700 },
            Request::Restrict { path: dirs.config, mode: 0o700 },
            Request::CreatePrivateDir { path: dirs.state, mode: 0o700 },
            Request::Restrict { path: dirs.state, mode: 0o700 },
            Request::CreatePrivateDir { path: dirs.cache, mode: 0o700 },
            Request::Restrict { path: dirs.cache, mode: 0o700 },
        ],
{
    let all = base_dirs(dirs);
    law_directories_are_made_private_in_order(all, replies);
    assert(all.drop_first()[0] == all[1]);
    assert(all.drop_first().drop_first()[0] == all[2]);
    assert(all.drop_first().drop_first().drop_first().len() == 0);
    reveal_with_fuel(plan, 4);
    assert(plan(all) =~= seq![
        Request::CreatePrivateDir { path: dirs.config, mode: 0o700 },
        Request::Restrict { path: dirs.config, mode: 0o700 },
        Request::CreatePrivateDir { path: dirs.state, mode: 0o700 },
        Request::Restrict { path: dirs.state, mode: 0o700 },
        Request::CreatePrivateDir { path: dirs.cache, mode: 0o700 },
        Request::Restrict { path: dirs.cache, mode: 0o700 },
    ]);
    if forall|i: int| 0 <= i < replies.len() ==> #[trigger] replies[i] is Done {
        lemma_ensuring_ends(EnsuringView::begin(all), replies);
    }
}

/// A reply that says nothing of what was to be done changes nothing.
pub proof fn law_odd_replies_ensure_nothing(job: EnsuringView, reply: AnswerView)
    ensures
        !(reply is Done) && !(reply is Failed) ==> job.resume(reply) == EnsuringStep::Ask(job),
{
}

} // verus!
