//! Which folders may hold attachments.

use vstd::prelude::*;
use crate::file_path::FilePath;
use crate::io::{Answer, AnswerView, Failure, Request, Step};
use crate::path;
use crate::path::Component;
use crate::paths::{AppDirs, Layout};
use crate::resolve;
use crate::resolve::{FileSystem, Resolver, ResolverView};

verus! {

/// Why a folder cannot hold attachments.
#[derive(Debug)]
pub enum MediaDirError {
    /// The file system could not be asked.
    Io(Failure),
    /// The folder lies in the cache.
    InsideCache,
    /// The folder lies in the state or the configuration.
    InsideAppData,
}

impl MediaDirError {
    /// What a user is told.
    pub open spec fn spec_message(self) -> Seq<char> {
        match self {
            MediaDirError::Io(failure) => failure.spec_message(),
            MediaDirError::InsideCache => "Custom attachment folder cannot be inside the cache directory"@,
            MediaDirError::InsideAppData => "Custom attachment folder cannot be inside the app data folders"@,
        }
    }

    /// What a user is told.
    pub fn message(&self) -> (res: String)
        ensures
            res@ == self.spec_message(),
            match self {
                MediaDirError::Io(failure) => res@ == failure.spec_message(),
                MediaDirError::InsideCache => res@
                    == "Custom attachment folder cannot be inside the cache directory"@,
                MediaDirError::InsideAppData => res@
                    == "Custom attachment folder cannot be inside the app data folders"@,
            },
    {
        match self {
            MediaDirError::Io(failure) => failure.message(),
            MediaDirError::InsideCache => "Custom attachment folder cannot be inside the cache directory".to_owned(),
            MediaDirError::InsideAppData => "Custom attachment folder cannot be inside the app data folders".to_owned(),
        }
    }
}

/// What is being resolved. From the second on, `P` is what the folder itself
/// resolved to.
#[derive(Debug)]
pub enum Stage<P> {
    /// The folder.
    Target,
    /// The default folder, which is no custom one.
    Default(P),
    /// The cache, which must not hold it.
    Cache(P),
    /// The state, which must not hold it.
    State(P),
    /// The configuration, which must not hold it.
    Config(P),
}

impl DeepView for Stage<FilePath> {
    type V = Stage<Seq<u8>>;

    open spec fn deep_view(&self) -> Stage<Seq<u8>> {
        match self {
            Stage::Target => Stage::Target,
            Stage::Default(p) => Stage::Default(p@),
            Stage::Cache(p) => Stage::Cache(p@),
            Stage::State(p) => Stage::State(p@),
            Stage::Config(p) => Stage::Config(p@),
        }
    }
}

/// The job of judging a folder.
#[derive(Debug)]
pub struct Validation {
    pub dirs: AppDirs,
    pub stage: Stage<FilePath>,
    pub resolver: Resolver,
}

/// What a [`Validation`] holds.
pub ghost struct ValidationView {
    pub dirs: Layout,
    pub stage: Stage<Seq<u8>>,
    pub resolver: ResolverView,
}

impl DeepView for Validation {
    type V = ValidationView;

    open spec fn deep_view(&self) -> ValidationView {
        ValidationView {
            dirs: self.dirs@,
            stage: self.stage.deep_view(),
            resolver: self.resolver.deep_view(),
        }
    }
}

/// Where judging stands after a reply. The folder is accepted as what it
/// resolves to, or found to be the default one.
pub type ValidationStep = Step<ValidationView, Option<Seq<u8>>, MediaDirError>;

impl ValidationView {
    /// The job for a folder.
    pub open spec fn start(dirs: Layout, p: Seq<u8>) -> ValidationView {
        ValidationView { dirs, stage: Stage::Target, resolver: ResolverView::start(p) }
    }

    pub open spec fn request(self) -> Request<Seq<u8>> {
        self.resolver.request()
    }

    /// Goes to a further stage, where `p` is to be resolved.
    pub open spec fn enter(dirs: Layout, stage: Stage<Seq<u8>>, p: Seq<u8>) -> ValidationStep {
        Step::Ask(ValidationView { dirs, stage, resolver: ResolverView::start(p) })
    }

    /// What follows when the path of this stage has resolved to `found`.
    pub open spec fn settle(dirs: Layout, stage: Stage<Seq<u8>>, found: Seq<u8>) -> ValidationStep {
        match stage {
            Stage::Target => Self::enter(dirs, Stage::Default(found), dirs.media_cache_dir()),
            Stage::Default(target) => if path::same_path(target, found) {
                Step::Done(None)
            } else {
                Self::enter(dirs, Stage::Cache(target), dirs.cache)
            },
            Stage::Cache(target) => if path::starts_with(target, found) {
                Step::Failed(MediaDirError::InsideCache)
            } else {
                Self::enter(dirs, Stage::State(target), dirs.state)
            },
            Stage::State(target) => if path::starts_with(target, found) {
                Step::Failed(MediaDirError::InsideAppData)
            } else {
                Self::enter(dirs, Stage::Config(target), dirs.config)
            },
            Stage::Config(target) => if path::starts_with(target, found) {
                Step::Failed(MediaDirError::InsideAppData)
            } else {
                Step::Done(Some(target))
            },
        }
    }

    /// What follows a reply.
    pub open spec fn resume(self, reply: AnswerView) -> ValidationStep {
        match self.resolver.resume(reply) {
            Step::Ask(resolver) => Step::Ask(ValidationView { resolver, ..self }),
            Step::Done(found) => Self::settle(self.dirs, self.stage, found),
            Step::Failed(failure) => Step::Failed(MediaDirError::Io(failure)),
        }
    }
}

fn enter(dirs: AppDirs, stage: Stage<FilePath>, p: &FilePath) -> (res: Step<
    Validation,
    Option<FilePath>,
    MediaDirError,
>)
    ensures
        res.deep_view() == ValidationView::enter(dirs@, stage.deep_view(), p@),
{
    Step::Ask(Validation { dirs, stage, resolver: Resolver::start(p) })
}

fn settle(dirs: AppDirs, stage: Stage<FilePath>, found: FilePath) -> (res: Step<
    Validation,
    Option<FilePath>,
    MediaDirError,
>)
    ensures
        res.deep_view() == ValidationView::settle(dirs@, stage.deep_view(), found@),
{
    match stage {
        Stage::Target => {
            let next = dirs.media_cache_dir();
            enter(dirs, Stage::Default(found), &next)
        },
        Stage::Default(target) => if target.same_as(&found) {
            Step::Done(None)
        } else {
            let next = dirs.cache.clone();
            enter(dirs, Stage::Cache(target), &next)
        },
        Stage::Cache(target) => if target.starts_with(&found) {
            Step::Failed(MediaDirError::InsideCache)
        } else {
            let next = dirs.state.clone();
            enter(dirs, Stage::State(target), &next)
        },
        Stage::State(target) => if target.starts_with(&found) {
            Step::Failed(MediaDirError::InsideAppData)
        } else {
            let next = dirs.config.clone();
            enter(dirs, Stage::Config(target), &next)
        },
        Stage::Config(target) => if target.starts_with(&found) {
            Step::Failed(MediaDirError::InsideAppData)
        } else {
            Step::Done(Some(target))
        },
    }
}

impl Validation {
    /// What to do next.
    pub fn request(&self) -> (res: Request<FilePath>)
        ensures
            res.deep_view() == self.deep_view().request(),
    {
        self.resolver.request()
    }

    /// Goes on with the reply to the request.
    pub fn resume(self, reply: Answer) -> (res: Step<Validation, Option<FilePath>, MediaDirError>)
        ensures
            res.deep_view() == self.deep_view().resume(reply.deep_view()),
    {
        match self.resolver.resume(reply) {
            Step::Ask(resolver) => Step::Ask(
                Validation { dirs: self.dirs, stage: self.stage, resolver },
            ),
            Step::Done(found) => settle(self.dirs, self.stage, found),
            Step::Failed(failure) => Step::Failed(MediaDirError::Io(failure)),
        }
    }
}

impl AppDirs {
    /// Validate without creating folders or requiring external storage to be online.
    pub fn validate_custom_media_dir(&self, path: &FilePath) -> (res: Validation)
        ensures
            res.deep_view() == ValidationView::start(self@, path@),
    {
        Validation { dirs: self.clone(), stage: Stage::Target, resolver: Resolver::start(path) }
    }
}

/// The directories that must not hold attachments, with the error for each.
pub open spec fn boundaries(dirs: Layout) -> Seq<(Seq<u8>, MediaDirError)> {
    seq![
        (dirs.cache, MediaDirError::InsideCache),
        (dirs.state, MediaDirError::InsideAppData),
        (dirs.config, MediaDirError::InsideAppData),
    ]
}

impl FileSystem {
    /// Holds a resolved folder against the boundaries in turn.
    pub open spec fn check_boundaries(
        self,
        target: Seq<u8>,
        boundaries: Seq<(Seq<u8>, MediaDirError)>,
    ) -> Result<Option<Seq<u8>>, MediaDirError>
        decreases boundaries.len(),
    {
        if boundaries.len() == 0 {
            Ok(Some(target))
        } else {
            match self.resolve(boundaries[0].0) {
                Err(failure) => Err(MediaDirError::Io(failure)),
                Ok(boundary) => if path::starts_with(target, boundary) {
                    Err(boundaries[0].1)
                } else {
                    self.check_boundaries(target, boundaries.drop_first())
                },
            }
        }
    }

    /// What is to be said of a folder: it is the default one, it lies where it
    /// must not, or it is fine as what it resolves to.
    pub open spec fn verdict(self, dirs: Layout, p: Seq<u8>) -> Result<
        Option<Seq<u8>>,
        MediaDirError,
    > {
        match self.resolve(p) {
            Err(failure) => Err(MediaDirError::Io(failure)),
            Ok(target) => match self.resolve(dirs.media_cache_dir()) {
                Err(failure) => Err(MediaDirError::Io(failure)),
                Ok(default) => if path::same_path(target, default) {
                    Ok(None)
                } else {
                    self.check_boundaries(target, boundaries(dirs))
                },
            },
        }
    }

    /// What a stage comes to once its path has resolved to `found`.
    spec fn judged(self, dirs: Layout, stage: Stage<Seq<u8>>, found: Seq<u8>) -> Result<
        Option<Seq<u8>>,
        MediaDirError,
    > {
        match stage {
            Stage::Target => match self.resolve(dirs.media_cache_dir()) {
                Err(failure) => Err(MediaDirError::Io(failure)),
                Ok(default) => self.judged_default(dirs, found, default),
            },
            Stage::Default(target) => self.judged_default(dirs, target, found),
            Stage::Cache(target) => self.judged_boundary(target, found, boundaries(dirs)),
            Stage::State(target) => self.judged_boundary(target, found, boundaries(dirs).skip(1)),
            Stage::Config(target) => self.judged_boundary(target, found, boundaries(dirs).skip(2)),
        }
    }

    spec fn judged_default(self, dirs: Layout, target: Seq<u8>, default: Seq<u8>) -> Result<
        Option<Seq<u8>>,
        MediaDirError,
    > {
        if path::same_path(target, default) {
            Ok(None)
        } else {
            self.check_boundaries(target, boundaries(dirs))
        }
    }

    spec fn judged_boundary(
        self,
        target: Seq<u8>,
        boundary: Seq<u8>,
        left: Seq<(Seq<u8>, MediaDirError)>,
    ) -> Result<Option<Seq<u8>>, MediaDirError> {
        if path::starts_with(target, boundary) {
            Err(left[0].1)
        } else {
            self.check_boundaries(target, left.drop_first())
        }
    }

    /// What a job comes to, if every reply is honest.
    spec fn validation_outcome(self, job: ValidationView) -> Result<
        Option<Seq<u8>>,
        MediaDirError,
    > {
        match self.outcome(job.resolver) {
            Err(failure) => Err(MediaDirError::Io(failure)),
            Ok(found) => self.judged(job.dirs, job.stage, found),
        }
    }

    /// Where a job stands after `n` honest replies.
    pub open spec fn run_validation(self, step: ValidationStep, n: nat) -> ValidationStep
        decreases n,
    {
        match step {
            Step::Ask(job) if n > 0 => self.run_validation(
                job.resume(self.answer(job.request())),
                (n - 1) as nat,
            ),
            _ => step,
        }
    }
}

spec fn stages_left(stage: Stage<Seq<u8>>) -> int {
    match stage {
        Stage::Target => 4,
        Stage::Default(_) => 3,
        Stage::Cache(_) => 2,
        Stage::State(_) => 1,
        Stage::Config(_) => 0,
    }
}

proof fn lemma_settle(fs: FileSystem, dirs: Layout, stage: Stage<Seq<u8>>, found: Seq<u8>)
    ensures
        match ValidationView::settle(dirs, stage, found) {
            Step::Ask(job) => {
                &&& fs.validation_outcome(job) == fs.judged(dirs, stage, found)
                &&& stages_left(job.stage) < stages_left(stage)
            },
            end => end == resolve::ended::<ValidationView, Option<Seq<u8>>, MediaDirError>(
                fs.judged(dirs, stage, found),
            ),
        },
{
    resolve::lemma_start(fs, dirs.media_cache_dir());
    resolve::lemma_start(fs, dirs.cache);
    resolve::lemma_start(fs, dirs.state);
    resolve::lemma_start(fs, dirs.config);
    let all = boundaries(dirs);
    assert(all.drop_first() =~= all.skip(1));
    assert(all.skip(1).drop_first() =~= all.skip(2));
    assert(all.skip(2).drop_first() =~= Seq::empty());
}

proof fn lemma_run_validation(fs: FileSystem, job: ValidationView) -> (n: nat)
    ensures
        fs.run_validation(Step::Ask(job), n) == resolve::ended::<
            ValidationView,
            Option<Seq<u8>>,
            MediaDirError,
        >(fs.validation_outcome(job)),
    decreases
            stages_left(job.stage),
            (if job.resolver is AwaitCurrentDir {
                1int
            } else {
                0int
            }),
            resolve::replies_left(job.resolver),
{
    resolve::lemma_resume(fs, job.resolver);
    if let Step::Done(found) = job.resolver.resume(fs.answer(job.request())) {
        lemma_settle(fs, job.dirs, job.stage, found);
    }
    match job.resume(fs.answer(job.request())) {
        Step::Ask(next) => {
            let n = lemma_run_validation(fs, next);
            assert(fs.run_validation(Step::Ask(job), n + 1) == fs.run_validation(Step::Ask(next), n));
            n + 1
        },
        end => {
            assert(fs.run_validation(Step::Ask(job), 1) == fs.run_validation(end, 0));
            1
        },
    }
}

/// Over a file system that stays as it is, judging a folder ends, and it ends
/// with the verdict on that folder.
pub proof fn law_validation_gives_the_verdict(fs: FileSystem, dirs: Layout, p: Seq<u8>)
    ensures
        exists|n: nat|
            #[trigger] fs.run_validation(Step::Ask(ValidationView::start(dirs, p)), n)
                == resolve::ended::<ValidationView, Option<Seq<u8>>, MediaDirError>(
                fs.verdict(dirs, p),
            ),
{
    resolve::lemma_start(fs, p);
    let n = lemma_run_validation(fs, ValidationView::start(dirs, p));
}

/// Judging a folder creates nothing: every request only reads.
pub proof fn law_validation_only_reads(job: ValidationView)
    ensures
        job.request().only_reads(),
{
    resolve::law_resolver_only_reads(job.resolver);
}

/// An accepted folder is what the given one resolves to, and it lies neither in
/// the cache nor in the state nor in the configuration.
pub proof fn law_accepted_folder_is_outside(fs: FileSystem, dirs: Layout, p: Seq<u8>)
    ensures
        fs.verdict(dirs, p) matches Ok(Some(target)) ==> {
            &&& fs.resolve(p) == Ok::<Seq<u8>, Failure>(target)
            &&& fs.resolve(dirs.cache) matches Ok(dir) && !path::starts_with(target, dir)
            &&& fs.resolve(dirs.state) matches Ok(dir) && !path::starts_with(target, dir)
            &&& fs.resolve(dirs.config) matches Ok(dir) && !path::starts_with(target, dir)
        },
{
    let all = boundaries(dirs);
    assert(all.drop_first()[0] == all[1]);
    assert(all.drop_first().drop_first()[0] == all[2]);
    reveal_with_fuel(FileSystem::check_boundaries, 4);
}

/// Whether two paths resolve to one and the same path.
pub open spec fn resolve_alike(fs: FileSystem, a: Seq<u8>, b: Seq<u8>) -> bool {
    &&& fs.resolve(a) matches Ok(x)
    &&& fs.resolve(b) matches Ok(y)
    &&& path::components(x) == path::components(y)
}

/// Whether a path resolves to what a directory resolves to, or to something below.
pub open spec fn resolves_within(fs: FileSystem, p: Seq<u8>, dir: Seq<u8>) -> bool {
    &&& fs.resolve(p) matches Ok(x)
    &&& fs.resolve(dir) matches Ok(d)
    &&& path::components(d).is_prefix_of(path::components(x))
}

/// Every folder gets the verdict that it should. It is the default folder exactly if
/// it resolves to what the folder `media` of the cache resolves to. Otherwise it is
/// refused for the cache exactly if it lies there; for the state or the configuration
/// exactly if it lies there and not in the cache; and if it lies nowhere of that, it
/// is accepted as what it resolves to. Only what does not resolve fails otherwise.
/// Which folder is in use makes no difference.
pub proof fn law_every_folder_gets_its_verdict(
    fs: FileSystem,
    dirs: Layout,
    p: Seq<u8>,
    in_use: Option<Seq<u8>>,
)
    ensures
        fs.verdict(dirs, p) == Ok::<Option<Seq<u8>>, MediaDirError>(None) <==> resolve_alike(
            fs,
            p,
            path::join(dirs.cache, path::text("media")),
        ),
        fs.verdict(dirs, p) == Err::<Option<Seq<u8>>, MediaDirError>(MediaDirError::InsideCache)
            <==> {
            &&& fs.resolve(path::join(dirs.cache, path::text("media"))) is Ok
            &&& !resolve_alike(fs, p, path::join(dirs.cache, path::text("media")))
            &&& resolves_within(fs, p, dirs.cache)
        },
        fs.verdict(dirs, p) == Err::<Option<Seq<u8>>, MediaDirError>(MediaDirError::InsideAppData)
            <==> {
            &&& fs.resolve(path::join(dirs.cache, path::text("media"))) is Ok
            &&& !resolve_alike(fs, p, path::join(dirs.cache, path::text("media")))
            &&& fs.resolve(dirs.cache) is Ok
            &&& !resolves_within(fs, p, dirs.cache)
            &&& resolves_within(fs, p, dirs.state) || fs.resolve(dirs.state) is Ok
                && resolves_within(fs, p, dirs.config)
        },
        (fs.verdict(dirs, p) matches Ok(Some(_))) <==> {
            &&& fs.resolve(p) is Ok
            &&& fs.resolve(path::join(dirs.cache, path::text("media"))) is Ok
            &&& fs.resolve(dirs.cache) is Ok
            &&& fs.resolve(dirs.state) is Ok
            &&& fs.resolve(dirs.config) is Ok
            &&& !resolve_alike(fs, p, path::join(dirs.cache, path::text("media")))
            &&& !resolves_within(fs, p, dirs.cache)
            &&& !resolves_within(fs, p, dirs.state)
            &&& !resolves_within(fs, p, dirs.config)
        },
        fs.verdict(dirs, p) matches Ok(Some(target)) ==> fs.resolve(p) == Ok::<Seq<u8>, Failure>(
            target,
        ),
        fs.verdict(dirs, p) matches Err(MediaDirError::Io(f)) ==> {
            let failed = Err::<Seq<u8>, Failure>(f);
            ||| fs.resolve(p) == failed
            ||| fs.resolve(path::join(dirs.cache, path::text("media"))) == failed
            ||| fs.resolve(dirs.cache) == failed
            ||| fs.resolve(dirs.state) == failed
            ||| fs.resolve(dirs.config) == failed
        },
        fs.verdict((Layout { custom_media: in_use, ..dirs }), p) == fs.verdict(dirs, p),
{
    let other = Layout { custom_media: in_use, ..dirs };
    let all = boundaries(dirs);
    assert(boundaries(other) =~= all);
    assert(all.drop_first()[0] == all[1]);
    assert(all.drop_first().drop_first()[0] == all[2]);
    assert(all.drop_first().drop_first().drop_first().len() == 0);
    reveal_with_fuel(FileSystem::check_boundaries, 4);
}

/// Judging fails with what the file system replied, unless it is for where a folder
/// lies.
pub proof fn law_judging_fails_only_as_replied(job: ValidationView, reply: AnswerView)
    ensures
        job.resume(reply) matches Step::Failed(MediaDirError::Io(f)) ==> job.request() is CurrentDir
            && reply == AnswerView::Failed(f),
{
    resolve::law_resolving_fails_only_as_replied(job.resolver, reply);
}

/// Absolute paths are judged without anything of them being there: the only
/// errors are those of a folder that lies where it must not.
pub proof fn law_absolute_folders_need_not_exist(fs: FileSystem, dirs: Layout, p: Seq<u8>)
    requires
        path::is_absolute(p),
        path::is_absolute(dirs.cache),
        path::is_absolute(dirs.state),
        path::is_absolute(dirs.config),
    ensures
        !(fs.verdict(dirs, p) matches Err(MediaDirError::Io(_))),
{
    let media = dirs.media_cache_dir();
    assert(path::is_absolute(media)) by {
        assert(media[0] == dirs.cache[0] || path::is_absolute(path::text("media")));
    }
    let all = boundaries(dirs);
    assert(all.drop_first()[0] == all[1]);
    assert(all.drop_first().drop_first()[0] == all[2]);
    reveal_with_fuel(FileSystem::check_boundaries, 4);
}

/// Folders that are yet to be made below the cache, the state or the
/// configuration are refused like those that are there, unless they are the
/// default folder.
pub proof fn law_missing_children_are_refused(
    fs: FileSystem,
    dirs: Layout,
    boundary: Seq<u8>,
    rest: Seq<Component<Seq<u8>>>,
    p: Seq<u8>,
    found: Seq<u8>,
)
    requires
        boundary == dirs.cache || boundary == dirs.state || boundary == dirs.config,
        path::is_absolute(dirs.cache),
        path::is_absolute(dirs.state),
        path::is_absolute(dirs.config),
        path::components(p) == path::components(boundary) + rest,
        forall|i: int|
            0 <= i < rest.len() ==> (#[trigger] rest[i] matches Component::Normal(name)
                && path::is_plain_name(name)),
        fs.resolve(boundary) == Ok::<Seq<u8>, Failure>(found),
        forall|q: Seq<u8>|
            path::starts_with(q, found) && !path::same_path(q, found) ==> #[trigger] (fs.canonical)(
                q,
            ) is Err,
    ensures
        ({
            ||| fs.verdict(dirs, p) == Err::<Option<Seq<u8>>, MediaDirError>(
                MediaDirError::InsideCache,
            )
            ||| fs.verdict(dirs, p) == Err::<Option<Seq<u8>>, MediaDirError>(
                MediaDirError::InsideAppData,
            )
            ||| {
                &&& fs.verdict(dirs, p) == Ok::<Option<Seq<u8>>, MediaDirError>(None)
                &&& fs.resolve(p) matches Ok(target)
                &&& fs.resolve(dirs.media_cache_dir()) matches Ok(default)
                &&& path::same_path(target, default)
            }
        }),
{
    resolve::law_missing_children_stay_inside(fs, boundary, rest, p, found);
    path::law_components_well_formed(boundary);
    path::law_components_well_formed(p);
    law_accepted_folder_is_outside(fs, dirs, p);
    law_absolute_folders_need_not_exist(fs, dirs, p);
    let all = boundaries(dirs);
    assert(all.drop_first()[0] == all[1]);
    assert(all.drop_first().drop_first()[0] == all[2]);
    reveal_with_fuel(FileSystem::check_boundaries, 4);
}

} // verus!
