//! What holds of resolved paths where canonical forms are what they should be.

use vstd::prelude::*;
use crate::io::Failure;
use crate::path;
use crate::path::Component;
use crate::paths::Layout;
use crate::resolve;
use crate::resolve::FileSystem;
use crate::validate;

verus! {

/// Whether a path has nothing behind its last component.
pub open spec fn is_trimmed(s: Seq<u8>) -> bool {
    path::trim(s) == s
}

/// Whether a path starts at the root and has neither `.` nor `..` in it.
pub open spec fn is_direct(s: Seq<u8>) -> bool {
    &&& path::is_absolute(s)
    &&& forall|i: int|
        0 <= i < path::components(s).len() ==> !(#[trigger] path::components(s)[i] is CurDir)
            && !(path::components(s)[i] is ParentDir)
}

/// Whether `q` is a leading part of `s`: the path itself or a directory above.
pub open spec fn is_leading(q: Seq<u8>, s: Seq<u8>) -> bool {
    q.len() > 0 && is_trimmed(q) && path::starts_with(s, q)
}

impl FileSystem {
    /// Whether a path, if it has a canonical form at all, is that already.
    pub open spec fn is_own_form(self, q: Seq<u8>) -> bool {
        (self.canonical)(q) matches Ok(c) ==> path::same_path(c, q)
    }

    /// Whether canonical forms are what they should be: a path has the same one
    /// however it is spelled, unless by something behind its last component; it
    /// is a direct path with nothing behind its last component; and every leading
    /// part of it is there and is its own canonical form.
    #[verifier::opaque]
    pub open spec fn is_orderly(self) -> bool {
        &&& forall|a: Seq<u8>, b: Seq<u8>|
            path::same_path(a, b) && is_trimmed(b) && (#[trigger] (self.canonical)(a)) is Ok ==> (
            #[trigger] (self.canonical)(b)) == (self.canonical)(a)
        &&& forall|a: Seq<u8>, q: Seq<u8>|
            (#[trigger] (self.canonical)(a)) is Ok ==> {
                let c = (self.canonical)(a)->Ok_0;
                &&& is_direct(c)
                &&& is_trimmed(c)
                &&& is_leading(q, c) ==> (#[trigger] (self.canonical)(q)) is Ok
                    && path::same_path((self.canonical)(q)->Ok_0, q)
            }
    }

    /// Whether canonical forms are made step by step. What has a canonical form has
    /// a parent with one, behind which a name leads to the same as behind the
    /// parent itself, and from which `..` goes up. A relative path has the form
    /// that it has behind the working directory.
    #[verifier::opaque]
    pub open spec fn is_stepwise(self) -> bool {
        &&& forall|p: Seq<u8>|
            path::is_absolute(p) && path::parent(p) is Some && (
            #[trigger] (self.canonical)(p)) is Ok ==> self.steps_to(p)
        &&& forall|p: Seq<u8>|
            !path::is_absolute(p) && (#[trigger] (self.canonical)(p)) is Ok ==> (
            self.current_dir matches Ok(dir) ==> (self.canonical)(path::join(dir, p)) == (
            self.canonical)(p))
    }

    /// Whether the canonical form of a path is one step from that of its parent.
    pub open spec fn steps_to(self, p: Seq<u8>) -> bool {
        (self.canonical)(path::popped(p)) matches Ok(up) && match path::components(p).last() {
            Component::Normal(name) => (self.canonical)(path::join(up, name)) == (self.canonical)(
                p,
            ),
            Component::ParentDir => path::same_path(
                (self.canonical)(p)->Ok_0,
                path::popped(up),
            ),
            _ => true,
        }
    }

    /// Whether a file system only has new things in `later`, and none of them turns
    /// a path that was resolved already into a link: what had a canonical form
    /// keeps it, and what has one only now is it.
    #[verifier::opaque]
    pub open spec fn grows_into(self, later: FileSystem) -> bool {
        &&& later.current_dir == self.current_dir
        &&& forall|q: Seq<u8>|
            (#[trigger] (self.canonical)(q)) is Ok ==> (later.canonical)(q) == (self.canonical)(q)
        &&& forall|q: Seq<u8>|
            is_trimmed(q) && self.is_resolved(q) && (self.canonical)(q) is Err
                ==> later.is_own_form(#[trigger] path::trim(q))
    }

    /// Whether a path is what resolving it can come to: direct, with every leading
    /// part either not there or its own canonical form.
    pub open spec fn is_resolved(self, r: Seq<u8>) -> bool {
        &&& is_direct(r)
        &&& forall|q: Seq<u8>| #[trigger] is_leading(q, r) ==> self.is_own_form(q)
    }
}

pub proof fn lemma_spelling(fs: FileSystem, a: Seq<u8>, b: Seq<u8>)
    requires
        fs.is_orderly(),
        path::same_path(a, b),
        is_trimmed(b),
        (fs.canonical)(a) is Ok,
    ensures
        (fs.canonical)(b) == (fs.canonical)(a),
{
    reveal(FileSystem::is_orderly);
}

pub proof fn lemma_canonical_is_resolved(fs: FileSystem, a: Seq<u8>)
    requires
        fs.is_orderly(),
        (fs.canonical)(a) is Ok,
    ensures
        fs.is_resolved((fs.canonical)(a)->Ok_0),
        is_trimmed((fs.canonical)(a)->Ok_0),
        (fs.canonical)((fs.canonical)(a)->Ok_0) is Ok,
{
    reveal(FileSystem::is_orderly);
    let c = (fs.canonical)(a)->Ok_0;
    assert(is_direct(c)) by {
        assert((fs.canonical)(c) == (fs.canonical)(c));
    }
    assert forall|q: Seq<u8>| #[trigger] is_leading(q, c) implies fs.is_own_form(q) by {
        assert((fs.canonical)(q) == (fs.canonical)(q));
    }
    path::law_starts_with_is_an_order(c, c, c);
    assert(is_leading(c, c));
}

/// A path that ends in a plain name has nothing behind it.
proof fn lemma_trimmed(base: Seq<u8>, name: Seq<u8>)
    requires
        path::is_plain_name(name),
    ensures
        is_trimmed(path::join(base, name)),
{
    let s = path::join(base, name);
    path::law_plain_name(name);
    if base.len() > 0 {
        let front = if base.last() == path::SLASH {
            base.drop_last()
        } else {
            base
        };
        assert(s =~= front.push(path::SLASH) + name);
        path::lemma_last_slash_is(s, front.len() as int);
        assert(s.skip(front.len() as int + 1) =~= name);
    } else {
        assert(s =~= name);
        path::lemma_last_slash_is(name, -1);
    }
}

proof fn lemma_trim_again(s: Seq<u8>)
    ensures
        is_trimmed(path::trim(s)),
    decreases s.len(),
{
    let i = path::last_slash(s);
    path::lemma_last_slash(s);
    if i >= 0 && path::is_filler(s.skip(i + 1)) {
        if i == 0 {
            let t = s.take(1);
            path::lemma_last_slash_is(t, 0);
            assert(t.take(1) =~= t);
        } else {
            lemma_trim_again(s.take(i));
        }
    }
}

/// A parent has nothing behind its last component.
pub proof fn lemma_parent_is_trimmed(s: Seq<u8>)
    ensures
        path::parent(s) matches Some(p) ==> is_trimmed(p),
{
    if let Some(p) = path::parent(s) {
        let kept = path::trim(s);
        let i = path::last_slash(kept);
        path::lemma_last_slash(kept);
        path::lemma_last_slash_is(Seq::<u8>::empty(), -1);
        if i == 0 {
            path::lemma_last_slash_is(p, 0);
            assert(p.take(1) =~= p);
        } else if i > 0 {
            lemma_trim_again(kept.take(i));
        }
    }
}

proof fn lemma_root_text()
    ensures
        path::components(seq![path::SLASH]) == seq![Component::<Seq<u8>>::RootDir],
        path::join(Seq::empty(), resolve::component_text(Component::RootDir)) == seq![path::SLASH],
        is_trimmed(seq![path::SLASH]),
{
    let root = seq![path::SLASH];
    path::lemma_last_slash_is(root, 0);
    assert(root.take(0).len() == 0);
    assert(root.skip(1).len() == 0);
    assert(path::components(root) =~= seq![Component::<Seq<u8>>::RootDir]);
    assert(path::join(Seq::empty(), resolve::component_text(Component::RootDir)) =~= root);
    assert(root.take(1) =~= root);
}

proof fn lemma_root(fs: FileSystem)
    requires
        fs.is_orderly(),
    ensures
        fs.is_resolved(fs.canonical_or_same(seq![path::SLASH])),
{
    let root = seq![path::SLASH];
    lemma_root_text();
    if (fs.canonical)(root) is Ok {
        lemma_canonical_is_resolved(fs, root);
    } else {
        assert forall|q: Seq<u8>| #[trigger] is_leading(q, root) implies fs.is_own_form(q) by {
            path::law_components_well_formed(q);
            assert(path::components(q) =~= path::components(root));
            if (fs.canonical)(q) is Ok {
                lemma_spelling(fs, q, root);
            }
        }
    }
}

proof fn lemma_step_down(fs: FileSystem, resolved: Seq<u8>, name: Seq<u8>)
    requires
        fs.is_orderly(),
        fs.is_resolved(resolved),
        path::is_plain_name(name),
    ensures
        fs.is_resolved(fs.canonical_or_same(path::join(resolved, name))),
{
    let next = path::join(resolved, name);
    path::law_join_plain_name(resolved, name);
    lemma_trimmed(resolved, name);
    let c = path::components(next);
    if (fs.canonical)(next) is Ok {
        lemma_canonical_is_resolved(fs, next);
    } else {
        path::law_components_well_formed(resolved);
        path::law_components_well_formed(next);
        assert forall|i: int| 0 <= i < c.len() implies !(#[trigger] c[i] is CurDir)
            && !(c[i] is ParentDir) by {
            if i < c.len() - 1 {
                assert(c[i] == path::components(resolved)[i]);
            }
        }
        assert forall|q: Seq<u8>| #[trigger] is_leading(q, next) implies fs.is_own_form(q) by {
            if path::same_path(q, next) {
                if (fs.canonical)(q) is Ok {
                    lemma_spelling(fs, q, next);
                }
            } else {
                let d = path::components(q);
                assert(d.len() < c.len()) by {
                    if d.len() == c.len() {
                        assert(d =~= c);
                    }
                }
                assert(d =~= path::components(resolved).subrange(0, d.len() as int));
                assert(is_leading(q, resolved));
            }
        }
    }
}

proof fn lemma_step_up(fs: FileSystem, resolved: Seq<u8>)
    requires
        fs.is_resolved(resolved),
    ensures
        fs.is_resolved(path::popped(resolved)),
{
    let up = path::popped(resolved);
    path::law_parent(resolved);
    path::law_components_well_formed(resolved);
    path::law_components_well_formed(up);
    if path::parent(resolved) is Some {
        let c = path::components(resolved);
        let d = path::components(up);
        assert(d[0] == c[0]);
        assert forall|i: int| 0 <= i < d.len() implies !(#[trigger] d[i] is CurDir) && !(
        d[i] is ParentDir) by {
            assert(d[i] == c[i]);
        }
        assert forall|q: Seq<u8>| #[trigger] is_leading(q, up) implies fs.is_own_form(q) by {
            assert(path::components(q) =~= c.subrange(0, path::components(q).len() as int));
            assert(is_leading(q, resolved));
        }
    }
}

proof fn lemma_follow_resolves(
    fs: FileSystem,
    rest: Seq<Component<Seq<u8>>>,
    resolved: Seq<u8>,
)
    requires
        fs.is_orderly(),
        fs.is_resolved(resolved),
        forall|i: int| 0 <= i < rest.len() ==> !(#[trigger] rest[i] is RootDir),
        forall|i: int|
            0 <= i < rest.len() ==> (#[trigger] rest[i] matches Component::Normal(name)
                ==> path::is_plain_name(name)),
    ensures
        fs.is_resolved(fs.follow(rest, resolved)),
    decreases rest.len(),
{
    if rest.len() > 0 {
        let left = rest.drop_first();
        assert forall|i: int| 0 <= i < left.len() implies !(#[trigger] left[i] is RootDir) by {
            assert(left[i] == rest[i + 1]);
        }
        assert forall|i: int| 0 <= i < left.len() implies (
        #[trigger] left[i] matches Component::Normal(name) ==> path::is_plain_name(name)) by {
            assert(left[i] == rest[i + 1]);
        }
        assert(!(rest[0] is RootDir));
        match rest[0] {
            Component::ParentDir => {
                lemma_step_up(fs, resolved);
                lemma_follow_resolves(fs, left, path::popped(resolved));
            },
            Component::Normal(name) => {
                lemma_step_down(fs, resolved, name);
                lemma_follow_resolves(fs, left, fs.canonical_or_same(path::join(resolved, name)));
            },
            _ => {
                lemma_follow_resolves(fs, left, resolved);
            },
        }
    }
}

proof fn lemma_absolute_resolves(fs: FileSystem, p: Seq<u8>)
    requires
        fs.is_orderly(),
        path::is_absolute(p),
    ensures
        fs.is_resolved(fs.follow(path::components(p), Seq::empty())),
{
    let c = path::components(p);
    path::law_components_well_formed(p);
    lemma_root_text();
    lemma_root(fs);
    let rest = c.drop_first();
    assert forall|i: int| 0 <= i < rest.len() implies !(#[trigger] rest[i] is RootDir) by {
        assert(rest[i] == c[i + 1]);
    }
    assert forall|i: int| 0 <= i < rest.len() implies (
    #[trigger] rest[i] matches Component::Normal(name) ==> path::is_plain_name(name)) by {
        assert(rest[i] == c[i + 1]);
    }
    lemma_follow_resolves(fs, rest, fs.canonical_or_same(seq![path::SLASH]));
}

proof fn lemma_follow_itself(fs: FileSystem, r: Seq<u8>, i: int)
    requires
        fs.is_orderly(),
        fs.is_resolved(r),
        0 < i <= path::components(r).len(),
    ensures
        path::components(fs.follow(path::components(r).take(i), Seq::empty()))
            == path::components(r).take(i),
    decreases i,
{
    let c = path::components(r);
    path::law_components_well_formed(r);
    let before = fs.follow(c.take(i - 1), Seq::empty());
    let last = seq![c[i - 1]];
    assert(c.take(i) =~= c.take(i - 1) + last);
    resolve::lemma_follow_on(fs, c.take(i - 1), last, Seq::empty());
    assert(last.drop_first() =~= Seq::empty());
    reveal_with_fuel(FileSystem::follow, 2);
    if i == 1 {
        let root = seq![path::SLASH];
        assert(c.take(0) =~= Seq::empty());
        lemma_root_text();
        assert(path::components(root) =~= c.take(1));
        assert(c.take(1) =~= c.subrange(0, 1));
        assert(is_leading(root, r));
    } else {
        lemma_follow_itself(fs, r, i - 1);
        assert(c[i - 1] is Normal);
        let name = c[i - 1]->Normal_0;
        let next = path::join(before, name);
        path::law_join_plain_name(before, name);
        lemma_trimmed(before, name);
        path::law_components_well_formed(next);
        assert(path::components(next) =~= c.take(i));
        assert(c.take(i) =~= c.subrange(0, i));
        assert(is_leading(next, r));
    }
}

/// A resolved path is direct; each of its leading parts either is not there or is
/// its own canonical form; and it resolves to itself.
pub proof fn law_resolved_paths_resolve_to_themselves(fs: FileSystem, p: Seq<u8>)
    requires
        fs.is_orderly(),
        fs.current_dir matches Ok(dir) ==> path::is_absolute(dir),
    ensures
        fs.resolve(p) matches Ok(r) ==> {
            &&& fs.is_resolved(r)
            &&& fs.resolve(r) matches Ok(again)
            &&& path::same_path(again, r)
        },
{
    if let Ok(r) = fs.resolve(p) {
        law_relative_paths_start_at_the_working_directory(fs, p);
        if path::is_absolute(p) {
            lemma_absolute_resolves(fs, p);
        } else {
            lemma_absolute_resolves(fs, path::join(fs.current_dir->Ok_0, p));
        }
        path::law_components_well_formed(r);
        lemma_follow_itself(fs, r, path::components(r).len() as int);
        assert(path::components(r).take(path::components(r).len() as int) =~= path::components(r));
    }
}

proof fn lemma_existing_resolves(fs: FileSystem, p: Seq<u8>)
    requires
        fs.is_orderly(),
        fs.is_stepwise(),
        path::is_absolute(p),
        (fs.canonical)(p) is Ok,
    ensures
        path::same_path(
            fs.follow(path::components(p), Seq::empty()),
            (fs.canonical)(p)->Ok_0,
        ),
    decreases path::components(p).len(),
{
    let c = path::components(p);
    path::law_components_well_formed(p);
    path::law_parent(p);
    let front = c.drop_last();
    let last = seq![c.last()];
    assert(c =~= front + last);
    resolve::lemma_follow_on(fs, front, last, Seq::empty());
    assert(last.drop_first() =~= Seq::empty());
    reveal_with_fuel(FileSystem::follow, 2);
    if path::parent(p) is None {
        lemma_root_text();
        assert(front =~= Seq::empty());
        assert(c =~= path::components(seq![path::SLASH]));
        lemma_spelling(fs, p, seq![path::SLASH]);
    } else {
        let above = path::popped(p);
        path::law_components_well_formed(above);
        assert(path::components(above)[0] == c[0]);
        assert(fs.steps_to(p)) by {
            reveal(FileSystem::is_stepwise);
        }
        lemma_existing_resolves(fs, above);
        let up = (fs.canonical)(above)->Ok_0;
        let resolved = fs.follow(front, Seq::empty());
        match c.last() {
            Component::Normal(name) => {
                path::law_join_plain_name(up, name);
                path::law_join_plain_name(resolved, name);
                lemma_trimmed(resolved, name);
                lemma_spelling(fs, path::join(up, name), path::join(resolved, name));
            },
            Component::ParentDir => {
                path::law_parent(up);
                path::law_parent(resolved);
            },
            _ => {},
        }
    }
}

/// An existing path resolves to its canonical form.
pub proof fn law_existing_paths_resolve_to_their_canonical_form(fs: FileSystem, p: Seq<u8>)
    requires
        fs.is_orderly(),
        fs.is_stepwise(),
        path::is_absolute(p) || (fs.current_dir matches Ok(dir) && path::is_absolute(dir)),
        (fs.canonical)(p) is Ok,
    ensures
        fs.resolve(p) matches Ok(r) && path::same_path(r, (fs.canonical)(p)->Ok_0),
{
    if path::is_absolute(p) {
        lemma_existing_resolves(fs, p);
    } else {
        law_relative_paths_start_at_the_working_directory(fs, p);
        reveal(FileSystem::is_stepwise);
        lemma_existing_resolves(fs, path::join(fs.current_dir->Ok_0, p));
    }
}

/// What is found of a path is what it resolves to.
pub proof fn law_located_paths_are_resolved(fs: FileSystem, p: Seq<u8>)
    requires
        fs.is_orderly(),
        fs.is_stepwise(),
        path::is_absolute(p) || (fs.current_dir matches Ok(dir) && path::is_absolute(dir)),
    ensures
        fs.form(p) matches Some(form) && fs.resolve(p) matches Ok(r) && path::same_path(form, r),
{
    if (fs.canonical)(p) is Ok {
        law_existing_paths_resolve_to_their_canonical_form(fs, p);
    }
}

proof fn lemma_grown_name(
    before: FileSystem,
    fs: FileSystem,
    resolved: Seq<u8>,
    now: Seq<u8>,
    name: Seq<u8>,
)
    requires
        before.is_orderly(),
        fs.is_orderly(),
        before.grows_into(fs),
        before.is_resolved(resolved),
        path::same_path(resolved, now),
        path::is_plain_name(name),
    ensures
        path::same_path(
            before.canonical_or_same(path::join(resolved, name)),
            fs.canonical_or_same(path::join(now, name)),
        ),
{
    let a = path::join(resolved, name);
    let b = path::join(now, name);
    path::law_join_plain_name(resolved, name);
    path::law_join_plain_name(now, name);
    lemma_trimmed(resolved, name);
    lemma_trimmed(now, name);
    if (before.canonical)(a) is Ok {
        assert((fs.canonical)(a) == (before.canonical)(a)) by {
            reveal(FileSystem::grows_into);
        }
        lemma_spelling(fs, a, b);
    } else if (fs.canonical)(b) is Ok {
        lemma_spelling(fs, b, a);
        lemma_step_down(before, resolved, name);
        assert(fs.is_own_form(path::trim(a))) by {
            reveal(FileSystem::grows_into);
        }
    }
}

proof fn lemma_grown_follow(
    before: FileSystem,
    fs: FileSystem,
    rest: Seq<Component<Seq<u8>>>,
    resolved: Seq<u8>,
    now: Seq<u8>,
)
    requires
        before.is_orderly(),
        fs.is_orderly(),
        before.grows_into(fs),
        before.is_resolved(resolved),
        path::same_path(resolved, now),
        forall|i: int| 0 <= i < rest.len() ==> !(#[trigger] rest[i] is RootDir),
        forall|i: int|
            0 <= i < rest.len() ==> (#[trigger] rest[i] matches Component::Normal(name)
                ==> path::is_plain_name(name)),
    ensures
        path::same_path(before.follow(rest, resolved), fs.follow(rest, now)),
    decreases rest.len(),
{
    if rest.len() > 0 {
        let left = rest.drop_first();
        assert forall|i: int| 0 <= i < left.len() implies !(#[trigger] left[i] is RootDir) by {
            assert(left[i] == rest[i + 1]);
        }
        assert forall|i: int| 0 <= i < left.len() implies (
        #[trigger] left[i] matches Component::Normal(name) ==> path::is_plain_name(name)) by {
            assert(left[i] == rest[i + 1]);
        }
        assert(!(rest[0] is RootDir));
        match rest[0] {
            Component::ParentDir => {
                path::law_parent(resolved);
                path::law_parent(now);
                lemma_step_up(before, resolved);
                lemma_grown_follow(before, fs, left, path::popped(resolved), path::popped(now));
            },
            Component::Normal(name) => {
                lemma_step_down(before, resolved, name);
                lemma_grown_name(before, fs, resolved, now, name);
                lemma_grown_follow(
                    before,
                    fs,
                    left,
                    before.canonical_or_same(path::join(resolved, name)),
                    fs.canonical_or_same(path::join(now, name)),
                );
            },
            _ => {
                lemma_grown_follow(before, fs, left, resolved, now);
            },
        }
    }
}

proof fn lemma_grown_absolute(before: FileSystem, fs: FileSystem, p: Seq<u8>)
    requires
        before.is_orderly(),
        fs.is_orderly(),
        before.grows_into(fs),
        path::is_absolute(p),
    ensures
        path::same_path(
            before.follow(path::components(p), Seq::empty()),
            fs.follow(path::components(p), Seq::empty()),
        ),
{
    let c = path::components(p);
    let root = seq![path::SLASH];
    path::law_components_well_formed(p);
    lemma_root_text();
    lemma_root(before);
    let rest = c.drop_first();
    assert forall|i: int| 0 <= i < rest.len() implies !(#[trigger] rest[i] is RootDir) by {
        assert(rest[i] == c[i + 1]);
    }
    assert forall|i: int| 0 <= i < rest.len() implies (
    #[trigger] rest[i] matches Component::Normal(name) ==> path::is_plain_name(name)) by {
        assert(rest[i] == c[i + 1]);
    }
    assert(path::same_path(before.canonical_or_same(root), fs.canonical_or_same(root))) by {
        reveal(FileSystem::grows_into);
        assert(before.is_resolved(root) || (before.canonical)(root) is Ok);
        assert(path::trim(root) == root);
    }
    lemma_grown_follow(
        before,
        fs,
        rest,
        before.canonical_or_same(root),
        fs.canonical_or_same(root),
    );
}

/// What is made of a path lasts: a file system that grows makes the same of it,
/// as long as nothing that is new turns out to complete a link.
pub proof fn law_forms_last(before: FileSystem, fs: FileSystem, p: Seq<u8>)
    requires
        before.is_orderly(),
        fs.is_orderly(),
        fs.is_stepwise(),
        before.grows_into(fs),
        path::is_absolute(p) || (fs.current_dir matches Ok(dir) && path::is_absolute(dir)),
    ensures
        before.form(p) matches Some(form) && fs.form(p) matches Some(later) && path::same_path(
            form,
            later,
        ),
{
    assert(before.current_dir == fs.current_dir) by {
        reveal(FileSystem::grows_into);
    }
    if (before.canonical)(p) is Ok {
        reveal(FileSystem::grows_into);
    } else {
        law_located_paths_are_resolved(fs, p);
        law_relative_paths_start_at_the_working_directory(before, p);
        law_relative_paths_start_at_the_working_directory(fs, p);
        if path::is_absolute(p) {
            lemma_grown_absolute(before, fs, p);
        } else {
            lemma_grown_absolute(before, fs, path::join(fs.current_dir->Ok_0, p));
        }
    }
}

/// Resolving fails only for a relative path without a working directory, with
/// that failure; a relative path resolves as it does behind the working
/// directory.
pub proof fn law_relative_paths_start_at_the_working_directory(fs: FileSystem, p: Seq<u8>)
    ensures
        fs.resolve(p) matches Err(f) ==> !path::is_absolute(p) && fs.current_dir == Err::<
            Seq<u8>,
            Failure,
        >(f),
        !path::is_absolute(p) && fs.current_dir is Err ==> fs.resolve(p) is Err,
        fs.current_dir matches Ok(dir) ==> (path::is_absolute(dir) && !path::is_absolute(p)
            ==> path::is_absolute(path::join(dir, p)) && fs.resolve(p) == fs.resolve(
            path::join(dir, p),
        )),
{
    if let Ok(dir) = fs.current_dir {
        if path::is_absolute(dir) && !path::is_absolute(p) {
            assert(path::join(dir, p)[0] == dir[0]);
        }
    }
}

/// An accepted folder is direct, and is accepted again as it is.
pub proof fn law_accepted_folders_are_accepted_again(fs: FileSystem, dirs: Layout, p: Seq<u8>)
    requires
        fs.is_orderly(),
        fs.current_dir matches Ok(dir) ==> path::is_absolute(dir),
    ensures
        fs.verdict(dirs, p) matches Ok(Some(target)) ==> {
            &&& is_direct(target)
            &&& fs.verdict(dirs, target) matches Ok(Some(again))
            &&& path::same_path(again, target)
        },
{
    if let Ok(Some(target)) = fs.verdict(dirs, p) {
        validate::law_accepted_folder_is_outside(fs, dirs, p);
        law_resolved_paths_resolve_to_themselves(fs, p);
        let all = validate::boundaries(dirs);
        assert(all.drop_first()[0] == all[1]);
        assert(all.drop_first().drop_first()[0] == all[2]);
        reveal_with_fuel(FileSystem::check_boundaries, 4);
    }
}

} // verus!
