//! Absolute paths for paths of which only the front may exist.
//!
//! Existing links are resolved before `..` is processed, and what is not
//! available is kept as it is spelled.

use vstd::prelude::*;
use crate::file_path::FilePath;
use crate::io::{Answer, AnswerView, Failure, Reply, Request, Step};
use crate::path;
use crate::path::Component;

verus! {

/// The job of resolving one path.
#[derive(Debug)]
pub enum Resolver {
    /// A relative path waits for the working directory.
    AwaitCurrentDir(FilePath),
    /// `resolved` waits for its canonical form, and `rest` is still to come.
    AwaitCanonical { rest: Vec<Component<Vec<u8>>>, resolved: FilePath },
}

/// What a [`Resolver`] holds.
pub ghost enum ResolverView {
    AwaitCurrentDir(Seq<u8>),
    AwaitCanonical { rest: Seq<Component<Seq<u8>>>, resolved: Seq<u8> },
}

impl DeepView for Resolver {
    type V = ResolverView;

    open spec fn deep_view(&self) -> ResolverView {
        match self {
            Resolver::AwaitCurrentDir(p) => ResolverView::AwaitCurrentDir(p@),
            Resolver::AwaitCanonical { rest, resolved } => ResolverView::AwaitCanonical {
                rest: rest.deep_view(),
                resolved: resolved@,
            },
        }
    }
}

/// Where resolving stands after a reply.
pub type ResolverStep = Step<ResolverView, Seq<u8>, Failure>;

/// How a component is spelled.
pub open spec fn component_text(c: Component<Seq<u8>>) -> Seq<u8> {
    match c {
        Component::RootDir => seq![path::SLASH],
        Component::CurDir => seq![path::DOT],
        Component::ParentDir => seq![path::DOT, path::DOT],
        Component::Normal(name) => name,
    }
}

/// Takes the components in turn, up to the first that needs the file system.
pub open spec fn walk(rest: Seq<Component<Seq<u8>>>, resolved: Seq<u8>) -> ResolverStep
    decreases rest.len(),
{
    if rest.len() == 0 {
        Step::Done(resolved)
    } else {
        match rest[0] {
            Component::CurDir => walk(rest.drop_first(), resolved),
            Component::ParentDir => walk(rest.drop_first(), path::popped(resolved)),
            c => Step::Ask(
                ResolverView::AwaitCanonical {
                    rest: rest.drop_first(),
                    resolved: path::join(resolved, component_text(c)),
                },
            ),
        }
    }
}

impl ResolverView {
    /// The job for a path: a relative one needs the working directory first.
    pub open spec fn start(p: Seq<u8>) -> ResolverView {
        if path::is_absolute(p) {
            ResolverView::AwaitCanonical {
                rest: path::components(p).drop_first(),
                resolved: component_text(Component::RootDir),
            }
        } else {
            ResolverView::AwaitCurrentDir(p)
        }
    }

    pub open spec fn request(self) -> Request<Seq<u8>> {
        match self {
            ResolverView::AwaitCurrentDir(_) => Request::CurrentDir,
            ResolverView::AwaitCanonical { resolved, .. } => Request::Canonicalize(resolved),
        }
    }

    /// What follows a reply. A reply that does not fit the request changes nothing.
    pub open spec fn resume(self, reply: AnswerView) -> ResolverStep {
        match (self, reply) {
            (ResolverView::AwaitCurrentDir(p), Reply::Path(dir)) => walk(
                path::components(path::join(dir, p)),
                Seq::empty(),
            ),
            (ResolverView::AwaitCurrentDir(_), Reply::Failed(f)) => Step::Failed(f),
            (ResolverView::AwaitCanonical { rest, .. }, Reply::Path(canonical)) => walk(
                rest,
                canonical,
            ),
            (ResolverView::AwaitCanonical { rest, resolved }, Reply::Failed(_)) => walk(
                rest,
                resolved,
            ),
            _ => Step::Ask(self),
        }
    }
}

fn walk_on(rest: Vec<Component<Vec<u8>>>, resolved: FilePath) -> (res: Step<
    Resolver,
    FilePath,
    Failure,
>)
    ensures
        res.deep_view() == walk(rest.deep_view(), resolved@),
{
    let ghost outcome = walk(rest.deep_view(), resolved@);
    let mut rest = rest;
    let mut resolved = resolved;
    #[verifier::loop_isolation(false)]
    while rest.len() > 0
        invariant
            outcome == walk(rest.deep_view(), resolved@),
        decreases rest@.len(),
    {
        let ghost before = rest.deep_view();
        let first = rest.remove(0);
        assert(before[0] == first.deep_view());
        assert(rest.deep_view() =~= before.drop_first());
        match first {
            Component::CurDir => {},
            Component::ParentDir => {
                resolved = resolved.popped();
            },
            Component::RootDir => {
                let slash: [u8; 1] = [path::SLASH];
                assert(slash@ =~= component_text(Component::RootDir));
                let resolved = resolved.join_bytes(slash.as_slice());
                return Step::Ask(Resolver::AwaitCanonical { rest, resolved });
            },
            Component::Normal(name) => {
                let resolved = resolved.join_bytes(name.as_slice());
                return Step::Ask(Resolver::AwaitCanonical { rest, resolved });
            },
        }
    }
    Step::Done(resolved)
}

impl Resolver {
    /// The job of resolving `p`.
    pub fn start(p: &FilePath) -> (res: Resolver)
        ensures
            res.deep_view() == ResolverView::start(p@),
    {
        if p.is_absolute() {
            let mut rest = p.components();
            proof {
                path::law_components_well_formed(p@);
            }
            let _ = rest.remove(0);
            assert(rest.deep_view() =~= path::components(p@).drop_first());
            let mut resolved: Vec<u8> = Vec::new();
            resolved.push(path::SLASH);
            assert(resolved@ =~= component_text(Component::RootDir));
            Resolver::AwaitCanonical { rest, resolved: FilePath::new(resolved) }
        } else {
            Resolver::AwaitCurrentDir(p.clone())
        }
    }

    /// What to do next.
    pub fn request(&self) -> (res: Request<FilePath>)
        ensures
            res.deep_view() == self.deep_view().request(),
    {
        match self {
            Resolver::AwaitCurrentDir(_) => Request::CurrentDir,
            Resolver::AwaitCanonical { resolved, .. } => Request::Canonicalize(resolved.clone()),
        }
    }

    /// Goes on with the reply to the request.
    pub fn resume(self, reply: Answer) -> (res: Step<Resolver, FilePath, Failure>)
        ensures
            res.deep_view() == self.deep_view().resume(reply.deep_view()),
    {
        match self {
            Resolver::AwaitCurrentDir(p) => match reply {
                Reply::Path(dir) => {
                    let start = FilePath::new(Vec::new());
                    assert(start@ =~= Seq::empty());
                    walk_on(dir.join_path(&p).components(), start)
                },
                Reply::Failed(f) => Step::Failed(f),
                _ => Step::Ask(Resolver::AwaitCurrentDir(p)),
            },
            Resolver::AwaitCanonical { rest, resolved } => match reply {
                Reply::Path(canonical) => walk_on(rest, canonical),
                Reply::Failed(_) => walk_on(rest, resolved),
                _ => Step::Ask(Resolver::AwaitCanonical { rest, resolved }),
            },
        }
    }
}

/// A file system that stays as it is: the working directory, and the canonical
/// form of each path that has one.
pub ghost struct FileSystem {
    pub current_dir: Result<Seq<u8>, Failure>,
    pub canonical: spec_fn(Seq<u8>) -> Result<Seq<u8>, Failure>,
}

/// The reply that a path, or the lack of it, makes.
pub open spec fn path_reply(found: Result<Seq<u8>, Failure>) -> AnswerView {
    match found {
        Ok(p) => Reply::Path(p),
        Err(f) => Reply::Failed(f),
    }
}

impl FileSystem {
    /// How the file system answers what a path is resolved by.
    pub open spec fn answer(self, request: Request<Seq<u8>>) -> AnswerView {
        match request {
            Request::CurrentDir => path_reply(self.current_dir),
            Request::Canonicalize(p) => path_reply((self.canonical)(p)),
            _ => Reply::TaskFailed,
        }
    }

    /// The canonical form of a path, or the path itself if it has none.
    pub open spec fn canonical_or_same(self, p: Seq<u8>) -> Seq<u8> {
        match (self.canonical)(p) {
            Ok(c) => c,
            Err(_) => p,
        }
    }

    /// What the components of `rest` make of `resolved`: `..` goes to the
    /// parent, and every other step goes behind the links.
    pub open spec fn follow(self, rest: Seq<Component<Seq<u8>>>, resolved: Seq<u8>) -> Seq<u8>
        decreases rest.len(),
    {
        if rest.len() == 0 {
            resolved
        } else {
            self.follow(
                rest.drop_first(),
                match rest[0] {
                    Component::CurDir => resolved,
                    Component::ParentDir => path::popped(resolved),
                    c => self.canonical_or_same(path::join(resolved, component_text(c))),
                },
            )
        }
    }

    /// What a path resolves to. This fails only for a relative path that has no
    /// working directory to start from.
    pub open spec fn resolve(self, p: Seq<u8>) -> Result<Seq<u8>, Failure> {
        if path::is_absolute(p) {
            Ok(self.follow(path::components(p), Seq::empty()))
        } else {
            match self.current_dir {
                Ok(dir) => Ok(self.follow(path::components(path::join(dir, p)), Seq::empty())),
                Err(f) => Err(f),
            }
        }
    }

    /// What a job comes to, if every reply is honest.
    pub open spec fn outcome(self, job: ResolverView) -> Result<Seq<u8>, Failure> {
        match job {
            ResolverView::AwaitCurrentDir(p) => match self.current_dir {
                Ok(dir) => Ok(self.follow(path::components(path::join(dir, p)), Seq::empty())),
                Err(f) => Err(f),
            },
            ResolverView::AwaitCanonical { rest, resolved } => Ok(
                self.follow(rest, self.canonical_or_same(resolved)),
            ),
        }
    }

    /// Where a job stands after `n` honest replies.
    pub open spec fn run(self, step: ResolverStep, n: nat) -> ResolverStep
        decreases n,
    {
        match step {
            Step::Ask(job) if n > 0 => self.run(
                job.resume(self.answer(job.request())),
                (n - 1) as nat,
            ),
            _ => step,
        }
    }
}

/// The end of a job that comes to `result`.
pub open spec fn ended<J, R, E>(result: Result<R, E>) -> Step<J, R, E> {
    match result {
        Ok(r) => Step::Done(r),
        Err(e) => Step::Failed(e),
    }
}

/// How far a job is from its end: at most this many replies once the working
/// directory is known.
pub open spec fn replies_left(job: ResolverView) -> nat {
    match job {
        ResolverView::AwaitCurrentDir(_) => 0,
        ResolverView::AwaitCanonical { rest, .. } => rest.len() + 1,
    }
}

pub proof fn lemma_walk(fs: FileSystem, rest: Seq<Component<Seq<u8>>>, resolved: Seq<u8>)
    ensures
        match walk(rest, resolved) {
            Step::Ask(job) => {
                &&& job is AwaitCanonical
                &&& replies_left(job) <= rest.len()
                &&& fs.outcome(job) == Ok::<Seq<u8>, Failure>(fs.follow(rest, resolved))
            },
            Step::Done(p) => p == fs.follow(rest, resolved),
            Step::Failed(_) => false,
        },
    decreases rest.len(),
{
    if rest.len() > 0 {
        match rest[0] {
            Component::CurDir => lemma_walk(fs, rest.drop_first(), resolved),
            Component::ParentDir => lemma_walk(fs, rest.drop_first(), path::popped(resolved)),
            _ => {},
        }
    }
}

/// An honest reply brings a job nearer to the end it was bound for.
pub proof fn lemma_resume(fs: FileSystem, job: ResolverView)
    ensures
        match job.resume(fs.answer(job.request())) {
            Step::Ask(next) => {
                &&& fs.outcome(next) == fs.outcome(job)
                &&& next is AwaitCanonical
                &&& job is AwaitCanonical ==> replies_left(next) < replies_left(job)
            },
            Step::Done(p) => fs.outcome(job) == Ok::<Seq<u8>, Failure>(p),
            Step::Failed(f) => fs.outcome(job) == Err::<Seq<u8>, Failure>(f),
        },
{
    match job {
        ResolverView::AwaitCurrentDir(p) => {
            if let Ok(dir) = fs.current_dir {
                lemma_walk(fs, path::components(path::join(dir, p)), Seq::empty());
            }
        },
        ResolverView::AwaitCanonical { rest, resolved } => {
            lemma_walk(fs, rest, fs.canonical_or_same(resolved));
        },
    }
}

pub proof fn lemma_start(fs: FileSystem, p: Seq<u8>)
    ensures
        fs.outcome(ResolverView::start(p)) == fs.resolve(p),
{
    if path::is_absolute(p) {
        path::law_components_well_formed(p);
        let slash = component_text(Component::RootDir);
        assert(path::join(Seq::empty(), slash) =~= slash);
    }
}

proof fn lemma_run(fs: FileSystem, job: ResolverView) -> (n: nat)
    ensures
        fs.run(Step::Ask(job), n) == ended::<ResolverView, Seq<u8>, Failure>(fs.outcome(job)),
    decreases (if job is AwaitCurrentDir { 1int } else { 0int }), replies_left(job),
{
    lemma_resume(fs, job);
    match job.resume(fs.answer(job.request())) {
        Step::Ask(next) => {
            let n = lemma_run(fs, next);
            assert(fs.run(Step::Ask(job), n + 1) == fs.run(Step::Ask(next), n));
            n + 1
        },
        end => {
            assert(fs.run(Step::Ask(job), 1) == fs.run(end, 0));
            1
        },
    }
}

/// Over a file system that stays as it is, the job of resolving a path ends,
/// and it ends with what the path resolves to there.
pub proof fn law_resolver_resolves(fs: FileSystem, p: Seq<u8>)
    ensures
        exists|n: nat|
            #[trigger] fs.run(Step::Ask(ResolverView::start(p)), n) == ended::<
                ResolverView,
                Seq<u8>,
                Failure,
            >(fs.resolve(p)),
{
    lemma_start(fs, p);
    let n = lemma_run(fs, ResolverView::start(p));
}

/// Resolving fails only where the working directory is not to be had.
pub proof fn law_resolving_fails_only_as_replied(job: ResolverView, reply: AnswerView)
    ensures
        job.resume(reply) matches Step::Failed(f) ==> reply == AnswerView::Failed(f)
            && job.request() is CurrentDir,
{
    let fs = FileSystem { current_dir: Err(Failure::InvalidInput), canonical: |q: Seq<u8>| Ok(q) };
    match (job, reply) {
        (ResolverView::AwaitCurrentDir(p), Reply::Path(dir)) => {
            lemma_walk(fs, path::components(path::join(dir, p)), Seq::empty());
        },
        (ResolverView::AwaitCanonical { rest, .. }, Reply::Path(canonical)) => {
            lemma_walk(fs, rest, canonical);
        },
        (ResolverView::AwaitCanonical { rest, resolved }, Reply::Failed(_)) => {
            lemma_walk(fs, rest, resolved);
        },
        _ => {},
    }
}

/// Resolving a path changes nothing: every request only reads.
pub proof fn law_resolver_only_reads(job: ResolverView)
    ensures
        job.request().only_reads(),
{
}

/// Plain names below a directory that are not available are kept as spelled.
pub proof fn law_unavailable_suffix_is_kept(
    fs: FileSystem,
    rest: Seq<Component<Seq<u8>>>,
    resolved: Seq<u8>,
)
    requires
        forall|i: int|
            0 <= i < rest.len() ==> (#[trigger] rest[i] matches Component::Normal(name)
                && path::is_plain_name(name)),
        forall|q: Seq<u8>|
            path::starts_with(q, resolved) && !path::same_path(q, resolved)
                ==> #[trigger] (fs.canonical)(q) is Err,
    ensures
        path::components(fs.follow(rest, resolved)) == path::components(resolved) + rest,
    decreases rest.len(),
{
    if rest.len() > 0 {
        assert(rest[0] is Normal);
        let name = rest[0]->Normal_0;
        let next = path::join(resolved, name);
        path::law_join_plain_name(resolved, name);
        assert((fs.canonical)(next) is Err);
        assert forall|q: Seq<u8>|
            path::starts_with(q, next) && !path::same_path(q, next) implies #[trigger] (fs.canonical)(
            q,
        ) is Err by {
            assert(path::components(next).is_prefix_of(path::components(q)));
            assert(path::components(next).len() > path::components(resolved).len());
            assert(path::starts_with(q, resolved));
        }
        assert forall|i: int| 0 <= i < rest.drop_first().len() implies (
        #[trigger] rest.drop_first()[i] matches Component::Normal(name) && path::is_plain_name(
            name,
        )) by {
            assert(rest.drop_first()[i] == rest[i + 1]);
        }
        law_unavailable_suffix_is_kept(fs, rest.drop_first(), next);
        assert(path::components(resolved) + rest =~= path::components(next) + rest.drop_first());
    } else {
        assert(path::components(resolved) + rest =~= path::components(resolved));
    }
}

/// A link is followed before the `..` behind it: the pair leads to the parent
/// of what the link stands for.
pub proof fn law_links_are_followed_before_parent_steps(
    fs: FileSystem,
    link: Seq<u8>,
    rest: Seq<Component<Seq<u8>>>,
    resolved: Seq<u8>,
)
    ensures
        fs.follow(seq![Component::Normal(link), Component::ParentDir] + rest, resolved) == fs.follow(
            rest,
            path::popped(fs.canonical_or_same(path::join(resolved, link))),
        ),
{
    let all = seq![Component::Normal(link), Component::ParentDir] + rest;
    assert(all.drop_first()[0] == Component::<Seq<u8>>::ParentDir);
    assert(all.drop_first().drop_first() =~= rest);
    reveal_with_fuel(FileSystem::follow, 3);
}

/// Following some components and then others is following all of them.
pub proof fn lemma_follow_on(
    fs: FileSystem,
    front: Seq<Component<Seq<u8>>>,
    rest: Seq<Component<Seq<u8>>>,
    resolved: Seq<u8>,
)
    ensures
        fs.follow(front + rest, resolved) == fs.follow(rest, fs.follow(front, resolved)),
    decreases front.len(),
{
    if front.len() == 0 {
        assert(front + rest =~= rest);
    } else {
        let next = match front[0] {
            Component::CurDir => resolved,
            Component::ParentDir => path::popped(resolved),
            c => fs.canonical_or_same(path::join(resolved, component_text(c))),
        };
        lemma_follow_on(fs, front.drop_first(), rest, next);
        assert((front + rest).drop_first() =~= front.drop_first() + rest);
    }
}

/// Plain names behind an absolute path that are not available where that path
/// resolves to are kept behind it, so that they stay within it.
pub proof fn law_missing_children_stay_inside(
    fs: FileSystem,
    base: Seq<u8>,
    rest: Seq<Component<Seq<u8>>>,
    p: Seq<u8>,
    found: Seq<u8>,
)
    requires
        path::is_absolute(base),
        path::components(p) == path::components(base) + rest,
        forall|i: int|
            0 <= i < rest.len() ==> (#[trigger] rest[i] matches Component::Normal(name)
                && path::is_plain_name(name)),
        fs.resolve(base) == Ok::<Seq<u8>, Failure>(found),
        forall|q: Seq<u8>|
            path::starts_with(q, found) && !path::same_path(q, found) ==> #[trigger] (fs.canonical)(
                q,
            ) is Err,
    ensures
        fs.resolve(p) matches Ok(target) && path::components(target) == path::components(found) + rest
            && path::starts_with(target, found),
{
    path::law_components_well_formed(base);
    path::law_components_well_formed(p);
    lemma_follow_on(fs, path::components(base), rest, Seq::empty());
    law_unavailable_suffix_is_kept(fs, rest, found);
    let target = fs.follow(rest, found);
    assert(path::components(found) =~= path::components(target).subrange(
        0,
        path::components(found).len() as int,
    ));
}

/// A path is resolved step by step. What a name behind a path resolves to is the
/// canonical form of that name behind what the path resolves to, or that name
/// itself there if it has none. A `..` behind a path goes one up from what the path
/// resolves to. The root resolves to its canonical form, and a path resolves alike
/// however it is spelled.
pub proof fn law_paths_resolve_step_by_step(
    fs: FileSystem,
    p: Seq<u8>,
    name: Seq<u8>,
    other: Seq<u8>,
)
    requires
        path::is_absolute(p),
    ensures
        fs.resolve(p) matches Ok(r) && {
            &&& path::is_plain_name(name) ==> fs.resolve(path::join(p, name)) == Ok::<
                Seq<u8>,
                Failure,
            >(
                match (fs.canonical)(path::join(r, name)) {
                    Ok(c) => c,
                    Err(_) => path::join(r, name),
                },
            )
            &&& fs.resolve(path::join(p, seq![46u8, 46u8])) matches Ok(up)
            &&& path::parent(r) == Some(up) || path::parent(r) is None && up == r
        },
        fs.resolve(seq![47u8]) == Ok::<Seq<u8>, Failure>(
            match (fs.canonical)(seq![47u8]) {
                Ok(c) => c,
                Err(_) => seq![47u8],
            },
        ),
        path::is_absolute(other) && path::components(other) == path::components(p) ==> fs.resolve(
            other,
        ) == fs.resolve(p),
{
    let c = path::components(p);
    reveal_with_fuel(FileSystem::follow, 2);
    if path::is_plain_name(name) {
        path::law_join_plain_name(p, name);
        path::law_plain_name(name);
        assert(path::join(p, name)[0] == p[0]);
        let last = seq![Component::Normal(name)];
        assert(path::components(path::join(p, name)) =~= c + last);
        lemma_follow_on(fs, c, last, Seq::empty());
        assert(last.drop_first() =~= Seq::empty());
    }
    let dots = seq![46u8, 46u8];
    path::lemma_last_slash_is(dots, -1);
    assert(path::components(dots) =~= seq![Component::<Seq<u8>>::ParentDir]);
    path::law_join_appends(p, dots);
    assert(path::join(p, dots)[0] == p[0]);
    let up = seq![Component::<Seq<u8>>::ParentDir];
    assert(path::components(path::join(p, dots)) =~= c + up);
    lemma_follow_on(fs, c, up, Seq::empty());
    assert(up.drop_first() =~= Seq::empty());
    let root = seq![47u8];
    path::lemma_last_slash_is(root, 0);
    assert(root.take(0).len() == 0);
    assert(root.skip(1).len() == 0);
    assert(path::components(root) =~= seq![Component::<Seq<u8>>::RootDir]);
    assert(path::components(root).drop_first() =~= Seq::empty());
    assert(path::join(Seq::empty(), component_text(Component::RootDir)) =~= root);
}

/// A reply without a path, other than that there is none, changes nothing.
pub proof fn law_odd_replies_resolve_nothing(job: ResolverView, reply: AnswerView)
    ensures
        !(reply is Path) && !(reply is Failed) ==> job.resume(reply) == ResolverStep::Ask(job),
{
}

} // verus!
