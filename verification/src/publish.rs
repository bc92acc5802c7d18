//! Giving a finished file its name without taking another file's place.

use vstd::prelude::*;
use crate::file_path::FilePath;
use crate::io::{Answer, AnswerView, Failure, Reply, Request, Step};
use crate::path;
use crate::platform;

verus! {

/// The byte of a hexadecimal digit, in lower case.
pub open spec fn hex_digit(d: int) -> u8 {
    if d < 10 {
        (48 + d) as u8
    } else {
        (87 + d) as u8
    }
}

/// The last `count` hexadecimal digits of a number.
pub open spec fn hex_digits(n: int, count: nat) -> Seq<u8>
    decreases count,
{
    if count == 0 {
        Seq::empty()
    } else {
        hex_digits(n / 16, (count - 1) as nat).push(hex_digit(n % 16))
    }
}

/// A name beside `name`: all sixteen hexadecimal digits of a number, a dash,
/// and the name.
pub open spec fn unique_name(n: u64, name: Seq<u8>) -> Seq<u8> {
    hex_digits(n as int, 16).push(45) + name
}

fn push_hex_digits(out: &mut Vec<u8>, n: u64, count: usize)
    ensures
        final(out)@ == old(out)@ + hex_digits(n as int, count as nat),
    decreases count,
{
    if count > 0 {
        push_hex_digits(out, n / 16, count - 1);
        let d: u8 = (n % 16) as u8;
        out.push(if d < 10 { 48 + d } else { 87 + d });
        assert(out@ =~= old(out)@ + hex_digits(n as int, count as nat));
    } else {
        assert(out@ =~= old(out)@ + hex_digits(n as int, 0));
    }
}

/// A name beside `name`, made from a number.
pub fn unique_name_from(n: u64, name: &[u8]) -> (res: Vec<u8>)
    ensures
        res@ == unique_name(n, name@),
{
    let mut out: Vec<u8> = Vec::new();
    push_hex_digits(&mut out, n, 16);
    out.push(45);
    out.extend_from_slice(name);
    assert(out@ =~= unique_name(n, name@));
    out
}

/// A number for the next name, where a reply tells that one is needed: any number
/// may be drawn then. Otherwise none is drawn, and the number is zero.
pub(crate) fn number_after(reply: &Answer) -> (res: u64)
    ensures
        !(reply matches Reply::Failed(Failure::AlreadyExists(_))) ==> res == 0,
{
    match reply {
        Reply::Failed(Failure::AlreadyExists(_)) => platform::random_number(),
        _ => 0,
    }
}

/// The job of giving the staged file a name. It never takes the place of
/// something that is there: it goes on to another name instead.
#[derive(Debug)]
pub struct Publishing {
    pub preferred: FilePath,
    pub name: Vec<u8>,
    pub target: FilePath,
}

/// What a [`Publishing`] holds.
pub ghost struct PublishingView {
    pub preferred: Seq<u8>,
    pub name: Seq<u8>,
    pub target: Seq<u8>,
}

impl DeepView for Publishing {
    type V = PublishingView;

    open spec fn deep_view(&self) -> PublishingView {
        PublishingView { preferred: self.preferred@, name: self.name@, target: self.target@ }
    }
}

/// Where publishing stands after a reply. It is done with the name that the
/// file got.
pub type PublishingStep = Step<PublishingView, Seq<u8>, Failure>;

impl PublishingView {
    /// The job for a path that the file should have.
    pub open spec fn start(preferred: Seq<u8>) -> PublishingStep {
        match path::file_name(preferred) {
            Some(name) => Step::Ask(PublishingView { preferred, name, target: preferred }),
            None => Step::Failed(Failure::InvalidInput),
        }
    }

    pub open spec fn request(self) -> Request<Seq<u8>> {
        Request::Persist(self.target)
    }

    /// What follows a reply, with `n` for the next name where this one is taken.
    /// A reply that does not fit the request changes nothing.
    pub open spec fn resume(self, reply: AnswerView, n: u64) -> PublishingStep {
        match reply {
            Reply::Done => Step::Done(self.target),
            Reply::Failed(Failure::AlreadyExists(_)) => Step::Ask(
                PublishingView {
                    target: path::with_file_name(self.preferred, unique_name(n, self.name)),
                    ..self
                },
            ),
            Reply::Failed(f) => Step::Failed(f),
            _ => Step::Ask(self),
        }
    }
}

impl Publishing {
    /// The job of giving the staged file the name `preferred`, or one beside it.
    pub fn start(preferred: FilePath) -> (res: Step<Publishing, FilePath, Failure>)
        ensures
            res.deep_view() == PublishingView::start(preferred@),
    {
        match preferred.file_name() {
            Some(name) => {
                assert(name.deep_view() =~= name@);
                let target = preferred.clone();
                Step::Ask(Publishing { preferred, name, target })
            },
            None => Step::Failed(Failure::InvalidInput),
        }
    }

    /// What to do next.
    pub fn request(&self) -> (res: Request<FilePath>)
        ensures
            res.deep_view() == self.deep_view().request(),
    {
        Request::Persist(self.target.clone())
    }

    /// Goes on with the reply to the request.
    pub fn resume(self, reply: Answer) -> (res: Step<Publishing, FilePath, Failure>)
        ensures
            exists|n: u64|
                res.deep_view() == #[trigger] self.deep_view().resume(reply.deep_view(), n),
    {
        let n = number_after(&reply);
        let res = self.resume_with(reply, n);
        assert(res.deep_view() == self.deep_view().resume(reply.deep_view(), n));
        res
    }

    /// Goes on with the reply to the request, with `n` for the next name where
    /// this one is taken.
    pub fn resume_with(self, reply: Answer, n: u64) -> (res: Step<Publishing, FilePath, Failure>)
        ensures
            res.deep_view() == self.deep_view().resume(reply.deep_view(), n),
    {
        match reply {
            Reply::Done => Step::Done(self.target),
            Reply::Failed(Failure::AlreadyExists(_)) => {
                let name = unique_name_from(n, self.name.as_slice());
                let target = self.preferred.with_file_name(name.as_slice());
                Step::Ask(Publishing { preferred: self.preferred, name: self.name, target })
            },
            Reply::Failed(f) => Step::Failed(f),
            _ => Step::Ask(self),
        }
    }
}

proof fn lemma_hex_digits(n: int, count: nat)
    requires
        n >= 0,
    ensures
        hex_digits(n, count).len() == count,
        path::slash_free(hex_digits(n, count)),
    decreases count,
{
    if count > 0 {
        lemma_hex_digits(n / 16, (count - 1) as nat);
    }
}

/// The smallest number that takes more than `count` hexadecimal digits.
spec fn hex_bound(count: nat) -> int
    decreases count,
{
    if count == 0 {
        1
    } else {
        16 * hex_bound((count - 1) as nat)
    }
}

proof fn lemma_hex_digits_differ(n: int, m: int, count: nat)
    requires
        0 <= n < hex_bound(count),
        0 <= m < hex_bound(count),
        hex_digits(n, count) == hex_digits(m, count),
    ensures
        n == m,
    decreases count,
{
    if count > 0 {
        let shorter = (count - 1) as nat;
        let a = hex_digits(n / 16, shorter);
        let b = hex_digits(m / 16, shorter);
        assert(a.push(hex_digit(n % 16)).last() == b.push(hex_digit(m % 16)).last());
        assert(a.push(hex_digit(n % 16)).drop_last() =~= a);
        assert(b.push(hex_digit(m % 16)).drop_last() =~= b);
        lemma_hex_digits_differ(n / 16, m / 16, shorter);
    }
}

/// Different numbers make different names, and every name made from a plain
/// name is plain and ends in it, so that an extension is kept.
pub proof fn law_unique_names(n: u64, m: u64, name: Seq<u8>)
    ensures
        unique_name(n, name) == unique_name(m, name) ==> n == m,
        unique_name(n, name).len() == 17 + name.len(),
        name.is_suffix_of(unique_name(n, name)),
        path::is_plain_name(name) ==> path::is_plain_name(unique_name(n, name)),
{
    lemma_hex_digits(n as int, 16);
    lemma_hex_digits(m as int, 16);
    assert(name =~= unique_name(n, name).subrange(17, 17 + name.len() as int));
    if unique_name(n, name) == unique_name(m, name) {
        assert(unique_name(n, name).take(16) =~= hex_digits(n as int, 16));
        assert(unique_name(m, name).take(16) =~= hex_digits(m as int, 16));
        reveal_with_fuel(hex_bound, 17);
        lemma_hex_digits_differ(n as int, m as int, 16);
    }
}

/// What a job from [`PublishingView::start`] holds, however far it is.
pub open spec fn is_genuine(job: PublishingView) -> bool {
    &&& path::file_name(job.preferred) == Some(job.name)
    &&& job.target == job.preferred || exists|n: u64|
        job.target == path::with_file_name(job.preferred, #[trigger] unique_name(n, job.name))
}

/// A job is genuine from its start on.
pub proof fn law_publishing_stays_genuine(
    preferred: Seq<u8>,
    job: PublishingView,
    reply: AnswerView,
    n: u64,
)
    ensures
        PublishingView::start(preferred) matches Step::Ask(first) ==> is_genuine(first)
            && first.target == preferred,
        is_genuine(job) ==> (job.resume(reply, n) matches Step::Ask(next) ==> is_genuine(next)
            && next.preferred == job.preferred),
{
    if let Step::Ask(next) = job.resume(reply, n) {
        if reply is Failed {
            assert(next.target == path::with_file_name(
                job.preferred,
                unique_name(n, next.name),
            ));
        }
    }
}

/// The file ends up in the folder it was meant for, under the preferred name or
/// one that ends in it; and it ends up there only because that name was given
/// without taking another file's place.
pub proof fn law_published_beside_the_preferred_path(
    job: PublishingView,
    reply: AnswerView,
    n: u64,
)
    requires
        is_genuine(job),
    ensures
        job.resume(reply, n) matches Step::Done(p) ==> {
            &&& job.request() == Request::Persist(p)
            &&& reply is Done
            &&& path::components(p).drop_last() == path::components(job.preferred).drop_last()
            &&& path::file_name(p) matches Some(name) && job.name.is_suffix_of(name)
        },
{
    path::law_parent_and_file_name(job.preferred);
    if job.target != job.preferred {
        let k = choose|k: u64|
            job.target == path::with_file_name(
                job.preferred,
                #[trigger] unique_name(k, job.name),
            );
        law_unique_names(k, k, job.name);
        path::law_with_file_name(job.preferred, unique_name(k, job.name));
        let up = path::components(job.preferred).drop_last();
        assert(path::components(job.target).drop_last() =~= up);
    } else {
        assert(job.name =~= job.name.subrange(0, job.name.len() as int));
    }
}

/// Whether a byte is a hexadecimal digit in lower case.
pub open spec fn is_hex_digit(b: u8) -> bool {
    48 <= b <= 57 || 97 <= b <= 102
}

/// The number that hexadecimal digits spell.
pub open spec fn hex_value(digits: Seq<u8>) -> int
    decreases digits.len(),
{
    if digits.len() == 0 {
        0
    } else {
        16 * hex_value(digits.drop_last()) + (if digits.last() <= 57 {
            digits.last() - 48
        } else {
            digits.last() - 87
        })
    }
}

proof fn lemma_hex_value(n: int, count: nat)
    requires
        0 <= n < hex_bound(count),
    ensures
        hex_digits(n, count).len() == count,
        hex_value(hex_digits(n, count)) == n,
        forall|i: int| 0 <= i < count ==> is_hex_digit(#[trigger] hex_digits(n, count)[i]),
    decreases count,
{
    if count > 0 {
        let front = hex_digits(n / 16, (count - 1) as nat);
        lemma_hex_value(n / 16, (count - 1) as nat);
        assert(hex_digits(n, count).drop_last() =~= front);
        assert forall|i: int| 0 <= i < count implies is_hex_digit(
            #[trigger] hex_digits(n, count)[i],
        ) by {
            if i < count - 1 {
                assert(hex_digits(n, count)[i] == front[i]);
            }
        }
    }
}

/// A name beside another one is that name behind sixteen hexadecimal digits that
/// spell the number, and a dash.
pub proof fn law_unique_names_spell_their_number(n: u64, name: Seq<u8>, i: int)
    ensures
        unique_name(n, name).len() == name.len() + 17,
        0 <= i < 16 ==> is_hex_digit(unique_name(n, name)[i]),
        hex_value(unique_name(n, name).take(16)) == n,
        unique_name(n, name)[16] == 45,
        unique_name(n, name).skip(17) == name,
{
    reveal_with_fuel(hex_bound, 17);
    lemma_hex_value(n as int, 16);
    assert(unique_name(n, name).take(16) =~= hex_digits(n as int, 16));
    assert(unique_name(n, name).skip(17) =~= name);
}

/// A staged file is to get the wanted name first. A name that is taken is never the
/// end: another one is asked for, in the same folder, that spells the number before
/// the wanted name. Any other failure is the end, and so is the first name that is
/// given.
pub proof fn law_a_taken_name_is_followed_by_another(
    job: PublishingView,
    reply: AnswerView,
    n: u64,
)
    requires
        is_genuine(job),
    ensures
        job.request() is Persist,
        reply matches Reply::Failed(Failure::AlreadyExists(_)) ==> {
            &&& job.resume(reply, n) matches Step::Ask(next)
            &&& next.request() matches Request::Persist(other)
            &&& path::components(other).drop_last() == path::components(job.preferred).drop_last()
            &&& path::file_name(other) == Some(unique_name(n, path::file_name(job.preferred)->0))
            &&& is_genuine(next)
            &&& next.preferred == job.preferred
        },
        reply matches Reply::Failed(f) ==> (f is AlreadyExists || job.resume(reply, n)
            == PublishingStep::Failed(f)),
        reply is Done ==> (job.request() matches Request::Persist(p) && job.resume(reply, n)
            == PublishingStep::Done(p)),
        job.resume(reply, n) matches Step::Failed(f) ==> reply == AnswerView::Failed(f)
            && !(f is AlreadyExists),
{
    path::law_parent_and_file_name(job.preferred);
    law_unique_names(n, n, job.name);
    path::law_with_file_name(job.preferred, unique_name(n, job.name));
    let up = path::components(job.preferred).drop_last();
    assert(up.push(path::Component::Normal(unique_name(n, job.name))).drop_last() =~= up);
    law_publishing_stays_genuine(job.preferred, job, reply, n);
}

/// Every path with a file name can be asked for, as it is spelled, and no other.
pub proof fn law_publishing_starts_with_the_wanted_name(preferred: Seq<u8>)
    ensures
        match path::file_name(preferred) {
            Some(_) => PublishingView::start(preferred) matches Step::Ask(job) && job.request()
                == Request::Persist(preferred) && is_genuine(job) && job.preferred == preferred,
            None => PublishingView::start(preferred) == PublishingStep::Failed(
                Failure::InvalidInput,
            ),
        },
{
}

} // verus!
