//! What the file system makes of a path that may not be there.
//!
//! A path that is there has a canonical form. Of one that is not, the part that
//! is available is resolved and the rest is kept.

use vstd::prelude::*;
use crate::file_path::FilePath;
use crate::io::{Answer, AnswerView, Failure, Reply, Request, Step};
use crate::resolve;
use crate::resolve::{FileSystem, Resolver, ResolverView};

verus! {

/// The job of locating one path.
#[derive(Debug)]
pub enum Locator {
    /// Has the path a canonical form?
    AwaitForm(FilePath),
    /// It has none, and is resolved.
    AwaitResolved(Resolver),
}

/// What a [`Locator`] holds.
pub ghost enum LocatorView {
    AwaitForm(Seq<u8>),
    AwaitResolved(ResolverView),
}

impl DeepView for Locator {
    type V = LocatorView;

    open spec fn deep_view(&self) -> LocatorView {
        match self {
            Locator::AwaitForm(p) => LocatorView::AwaitForm(p@),
            Locator::AwaitResolved(job) => LocatorView::AwaitResolved(job.deep_view()),
        }
    }
}

/// Where locating stands after a reply. It fails only for a relative path that
/// has no working directory to start from.
pub type LocatorStep = Step<LocatorView, Seq<u8>, Failure>;

/// Where locating stands when resolving stands at `step`.
pub open spec fn while_resolving(step: Step<ResolverView, Seq<u8>, Failure>) -> LocatorStep {
    match step {
        Step::Ask(job) => Step::Ask(LocatorView::AwaitResolved(job)),
        Step::Done(p) => Step::Done(p),
        Step::Failed(f) => Step::Failed(f),
    }
}

impl LocatorView {
    /// The job for a path.
    pub open spec fn start(p: Seq<u8>) -> LocatorView {
        LocatorView::AwaitForm(p)
    }

    pub open spec fn request(self) -> Request<Seq<u8>> {
        match self {
            LocatorView::AwaitForm(p) => Request::Canonicalize(p),
            LocatorView::AwaitResolved(job) => job.request(),
        }
    }

    /// What follows a reply. A reply that does not fit the request changes nothing.
    pub open spec fn resume(self, reply: AnswerView) -> LocatorStep {
        match (self, reply) {
            (LocatorView::AwaitForm(_), Reply::Path(c)) => Step::Done(c),
            (LocatorView::AwaitForm(p), Reply::Failed(_)) => Step::Ask(
                LocatorView::AwaitResolved(ResolverView::start(p)),
            ),
            (LocatorView::AwaitResolved(job), _) => while_resolving(job.resume(reply)),
            _ => Step::Ask(self),
        }
    }
}

impl Locator {
    /// The job of locating `p`.
    pub fn start(p: FilePath) -> (res: Locator)
        ensures
            res.deep_view() == LocatorView::start(p@),
    {
        Locator::AwaitForm(p)
    }

    /// What to do next.
    pub fn request(&self) -> (res: Request<FilePath>)
        ensures
            res.deep_view() == self.deep_view().request(),
    {
        match self {
            Locator::AwaitForm(p) => Request::Canonicalize(p.clone()),
            Locator::AwaitResolved(job) => job.request(),
        }
    }

    /// Goes on with the reply to the request.
    pub fn resume(self, reply: Answer) -> (res: Step<Locator, FilePath, Failure>)
        ensures
            res.deep_view() == self.deep_view().resume(reply.deep_view()),
    {
        match self {
            Locator::AwaitForm(p) => match reply {
                Reply::Path(c) => Step::Done(c),
                Reply::Failed(_) => Step::Ask(Locator::AwaitResolved(Resolver::start(&p))),
                _ => Step::Ask(Locator::AwaitForm(p)),
            },
            Locator::AwaitResolved(job) => match job.resume(reply) {
                Step::Ask(job) => Step::Ask(Locator::AwaitResolved(job)),
                Step::Done(p) => Step::Done(p),
                Step::Failed(f) => Step::Failed(f),
            },
        }
    }
}

impl FileSystem {
    /// What the file system makes of a path: its canonical form, or what it
    /// resolves to if it has none.
    pub open spec fn form(self, p: Seq<u8>) -> Option<Seq<u8>> {
        match (self.canonical)(p) {
            Ok(c) => Some(c),
            Err(_) => match self.resolve(p) {
                Ok(r) => Some(r),
                Err(_) => None,
            },
        }
    }

    /// What a job comes to, if every reply is honest.
    pub open spec fn located(self, job: LocatorView) -> Option<Seq<u8>> {
        match job {
            LocatorView::AwaitForm(p) => self.form(p),
            LocatorView::AwaitResolved(job) => match self.outcome(job) {
                Ok(r) => Some(r),
                Err(_) => None,
            },
        }
    }

    /// Whether a reply agrees with the file system, as far as it answers the
    /// request.
    pub open spec fn agrees_with(self, request: Request<Seq<u8>>, reply: AnswerView) -> bool {
        match request {
            Request::CurrentDir => {
                &&& reply matches Reply::Path(dir) ==> self.current_dir == Ok::<
                    Seq<u8>,
                    Failure,
                >(dir)
                &&& reply is Failed ==> self.current_dir is Err
            },
            Request::Canonicalize(p) => {
                &&& reply matches Reply::Path(c) ==> (self.canonical)(p) == Ok::<
                    Seq<u8>,
                    Failure,
                >(c)
                &&& reply is Failed ==> (self.canonical)(p) is Err
            },
            _ => true,
        }
    }
}

/// A job that is answered honestly comes to what the file system makes of its
/// path.
pub proof fn law_locator_locates(fs: FileSystem, p: Seq<u8>, job: LocatorView, reply: AnswerView)
    requires
        fs.agrees_with(job.request(), reply),
    ensures
        fs.located(LocatorView::start(p)) == fs.form(p),
        match job.resume(reply) {
            Step::Ask(next) => fs.located(next) == fs.located(job),
            Step::Done(found) => fs.located(job) == Some(found),
            Step::Failed(_) => fs.located(job) is None,
        },
{
    match job {
        LocatorView::AwaitForm(q) => {
            resolve::lemma_start(fs, q);
        },
        LocatorView::AwaitResolved(inner) => {
            resolve::lemma_resume(fs, inner);
        },
    }
}

/// Locating a path changes nothing: every request only reads.
pub proof fn law_locator_only_reads(job: LocatorView)
    ensures
        job.request().only_reads(),
{
}

impl FileSystem {
    /// Where locating stands after `n` honest replies.
    pub open spec fn run_locating(self, step: LocatorStep, n: nat) -> LocatorStep
        decreases n,
    {
        match step {
            Step::Ask(job) if n > 0 => self.run_locating(
                job.resume(self.answer(job.request())),
                (n - 1) as nat,
            ),
            _ => step,
        }
    }
}

proof fn lemma_run_locating(fs: FileSystem, job: ResolverView) -> (n: nat)
    ensures
        match fs.outcome(job) {
            Ok(r) => fs.run_locating(Step::Ask(LocatorView::AwaitResolved(job)), n)
                == LocatorStep::Done(r),
            Err(f) => fs.run_locating(Step::Ask(LocatorView::AwaitResolved(job)), n)
                == LocatorStep::Failed(f),
        },
    decreases
            (if job is AwaitCurrentDir {
                1int
            } else {
                0int
            }),
            resolve::replies_left(job),
{
    resolve::lemma_resume(fs, job);
    let now = LocatorView::AwaitResolved(job);
    match job.resume(fs.answer(job.request())) {
        Step::Ask(next) => {
            let n = lemma_run_locating(fs, next);
            assert(fs.run_locating(Step::Ask(now), n + 1) == fs.run_locating(
                Step::Ask(LocatorView::AwaitResolved(next)),
                n,
            ));
            n + 1
        },
        end => {
            assert(fs.run_locating(Step::Ask(now), 1) == fs.run_locating(while_resolving(end), 0));
            1
        },
    }
}

/// Locating a path ends: with its canonical form if it has one, and otherwise with
/// what it resolves to. It fails only where the path has no canonical form and does
/// not resolve either.
pub proof fn law_every_path_is_located(fs: FileSystem, p: Seq<u8>)
    ensures
        exists|n: nat|
            #[trigger] fs.run_locating(Step::Ask(LocatorView::start(p)), n) == (
            match ((fs.canonical)(p), fs.resolve(p)) {
                (Ok(c), _) => LocatorStep::Done(c),
                (Err(_), Ok(r)) => LocatorStep::Done(r),
                (Err(_), Err(f)) => LocatorStep::Failed(f),
            }),
        fs.form(p) == (match ((fs.canonical)(p), fs.resolve(p)) {
            (Ok(c), _) => Some(c),
            (Err(_), Ok(r)) => Some(r),
            (Err(_), Err(_)) => None::<Seq<u8>>,
        }),
{
    let start = LocatorView::start(p);
    if (fs.canonical)(p) is Ok {
        let next = start.resume(fs.answer(start.request()));
        assert(fs.run_locating(Step::Ask(start), 1) == fs.run_locating(next, 0));
    } else {
        resolve::lemma_start(fs, p);
        let m = lemma_run_locating(fs, ResolverView::start(p));
        let next = start.resume(fs.answer(start.request()));
        assert(fs.run_locating(Step::Ask(start), m + 1) == fs.run_locating(next, m));
    }
}

} // verus!
