//! Owned paths.

use vstd::prelude::*;
use vstd::slice::slice_to_vec;
use crate::path;
use crate::path::{Component, DOT, SLASH};

verus! {

/// An owned path, held as its bytes.
#[derive(Debug)]
pub struct FilePath {
    bytes: Vec<u8>,
}

impl View for FilePath {
    type V = Seq<u8>;

    closed spec fn view(&self) -> Seq<u8> {
        self.bytes@
    }
}

impl DeepView for FilePath {
    type V = Seq<u8>;

    open spec fn deep_view(&self) -> Seq<u8> {
        self@
    }
}

impl Clone for FilePath {
    fn clone(&self) -> (res: Self)
        ensures
            res@ == self@,
    {
        FilePath { bytes: slice_to_vec(self.bytes.as_slice()) }
    }
}

/// Whether two byte strings are equal.
pub fn bytes_equal(a: &[u8], b: &[u8]) -> (res: bool)
    ensures
        res == (a@ == b@),
{
    if a.len() != b.len() {
        return false;
    }
    let mut i: usize = 0;
    while i < a.len()
        invariant
            i <= a.len(),
            a@.len() == b@.len(),
            forall|j: int| 0 <= j < i ==> a@[j] == b@[j],
        decreases a.len() - i,
    {
        if a[i] != b[i] {
            return false;
        }
        i += 1;
    }
    assert(a@ =~= b@);
    true
}

/// Whether two components are equal.
fn component_equal(a: &Component<Vec<u8>>, b: &Component<Vec<u8>>) -> (res: bool)
    ensures
        res == (a.deep_view() == b.deep_view()),
{
    match (a, b) {
        (Component::RootDir, Component::RootDir) => true,
        (Component::CurDir, Component::CurDir) => true,
        (Component::ParentDir, Component::ParentDir) => true,
        (Component::Normal(x), Component::Normal(y)) => bytes_equal(x.as_slice(), y.as_slice()),
        _ => false,
    }
}

/// Whether two paths, given by their components, are the same. Paths that
/// differ mostly do so at their end.
pub fn same_components(a: &Vec<Component<Vec<u8>>>, b: &Vec<Component<Vec<u8>>>) -> (res: bool)
    ensures
        res == (a.deep_view() == b.deep_view()),
{
    if a.len() != b.len() {
        assert(a.deep_view().len() != b.deep_view().len());
        return false;
    }
    let mut i: usize = a.len();
    while i > 0
        invariant
            i <= a@.len(),
            a@.len() == b@.len(),
            forall|j: int| i <= j < a@.len() ==> a.deep_view()[j] == b.deep_view()[j],
        decreases i,
    {
        i -= 1;
        if !component_equal(&a[i], &b[i]) {
            assert(a.deep_view()[i as int] != b.deep_view()[i as int]);
            return false;
        }
        assert(a.deep_view()[i as int] == b.deep_view()[i as int]);
    }
    assert(a.deep_view() =~= b.deep_view());
    true
}

/// The component that a piece names.
fn component_of(piece: &[u8]) -> (res: Component<Vec<u8>>)
    ensures
        res.deep_view() == path::component_of(piece@),
{
    if piece.len() == 1 && piece[0] == DOT {
        Component::CurDir
    } else if piece.len() == 2 && piece[0] == DOT && piece[1] == DOT {
        Component::ParentDir
    } else {
        Component::Normal(slice_to_vec(piece))
    }
}

/// Where the last slash stands before `end`, counted from one; zero if nowhere.
fn after_last_slash(bytes: &[u8], end: usize) -> (res: usize)
    requires
        end <= bytes@.len(),
    ensures
        res == path::last_slash(bytes@.take(end as int)) + 1,
        res <= end,
{
    let mut i: usize = end;
    while i > 0 && bytes[i - 1] != SLASH
        invariant
            i <= end <= bytes@.len(),
            forall|j: int| i <= j < end ==> bytes@[j] != SLASH,
        decreases i,
    {
        i -= 1;
    }
    proof {
        path::lemma_last_slash_is(bytes@.take(end as int), i - 1);
    }
    i
}

/// Where the next slash stands at or after `start`, or the length.
fn next_slash(bytes: &[u8], start: usize) -> (res: usize)
    requires
        start <= bytes@.len(),
    ensures
        start <= res <= bytes@.len(),
        res < bytes@.len() ==> bytes@[res as int] == SLASH,
        path::slash_free(bytes@.subrange(start as int, res as int)),
{
    let mut i: usize = start;
    while i < bytes.len() && bytes[i] != SLASH
        invariant
            start <= i <= bytes@.len(),
            forall|j: int| start <= j < i ==> bytes@[j] != SLASH,
        decreases bytes@.len() - i,
    {
        i += 1;
    }
    i
}

/// Whether a piece names no component when something stands before it.
fn is_filler(piece: &[u8]) -> (res: bool)
    ensures
        res == path::is_filler(piece@),
{
    piece.len() == 0 || (piece.len() == 1 && piece[0] == DOT)
}

/// The components of a path.
pub fn components_of(bytes: &[u8]) -> (res: Vec<Component<Vec<u8>>>)
    ensures
        res.deep_view() == path::components(bytes@),
{
    let mut out: Vec<Component<Vec<u8>>> = Vec::new();
    let mut start: usize = 0;
    loop
        invariant
            start <= bytes@.len(),
            start == 0 ==> out@.len() == 0,
            start > 0 ==> bytes@[start - 1] == SLASH && out.deep_view()
                == path::components_before_slash(bytes@.take(start - 1)),
        decreases bytes@.len() - start,
    {
        let end = next_slash(bytes, start);
        let piece = vstd::slice::slice_subrange(bytes, start, end);
        let ghost before = out.deep_view();
        if start == 0 {
            if end > 0 {
                out.push(component_of(piece));
            }
            proof {
                let s = bytes@.take(end as int);
                assert(s =~= piece@);
                path::lemma_last_slash_is(s, -1);
                assert(out.deep_view() =~= path::components(s));
            }
        } else {
            if !is_filler(piece) {
                out.push(component_of(piece));
            }
            proof {
                path::lemma_components_push(bytes@.take(start - 1), piece@);
                assert(bytes@.take(end as int) =~= bytes@.take(start - 1).push(SLASH) + piece@);
                assert(out.deep_view() =~= path::components(bytes@.take(end as int)));
            }
        }
        if end == bytes.len() {
            assert(bytes@.take(end as int) =~= bytes@);
            return out;
        }
        if end == 0 {
            out.push(Component::RootDir);
            assert(out.deep_view() =~= path::components_before_slash(bytes@.take(0)));
        }
        start = end + 1;
    }
}

/// The components of a path with every `..` worked in that has a name before it.
fn folded(c: Vec<Component<Vec<u8>>>) -> (res: Vec<Component<Vec<u8>>>)
    ensures
        res.deep_view() == path::folded(c.deep_view()),
{
    let ghost all = c.deep_view();
    let mut rest = c;
    let mut out: Vec<Component<Vec<u8>>> = Vec::new();
    let ghost mut i: int = 0;
    assert(out.deep_view() =~= path::folded(all.take(0)));
    assert(all.skip(0) =~= all);
    while rest.len() > 0
        invariant
            0 <= i <= all.len(),
            rest.deep_view() == all.skip(i),
            out.deep_view() == path::folded(all.take(i)),
        decreases rest@.len(),
    {
        let ghost before = rest.deep_view();
        let ghost taken = out.deep_view();
        let step = rest.remove(0);
        assert(before[0] == step.deep_view());
        assert(rest.deep_view() =~= before.drop_first());
        assert(rest.deep_view() =~= all.skip(i + 1));
        assert(all.take(i + 1).drop_last() =~= all.take(i));
        assert(path::folded(all.take(i + 1)) == path::folded_step(taken, step.deep_view()));
        match step {
            Component::CurDir => {},
            Component::ParentDir => {
                let n = out.len();
                assert(n > 0 ==> taken.last() == out@[n - 1].deep_view());
                if n == 0 {
                    out.push(Component::ParentDir);
                    assert(out.deep_view() =~= taken.push(Component::ParentDir));
                } else {
                    match &out[n - 1] {
                        Component::ParentDir => {
                            out.push(Component::ParentDir);
                            assert(out.deep_view() =~= taken.push(Component::ParentDir));
                        },
                        Component::RootDir => {},
                        _ => {
                            let _ = out.pop();
                            assert(out.deep_view() =~= taken.drop_last());
                        },
                    }
                }
            },
            step => {
                let ghost last = step.deep_view();
                out.push(step);
                assert(out.deep_view() =~= taken.push(last));
            },
        }
        proof {
            i = i + 1;
        }
    }
    assert(all.take(i) =~= all);
    out
}

/// How much of `bytes` is left when the text that names no component is cut off
/// behind `end`.
fn trimmed_length(bytes: &[u8], end: usize) -> (res: usize)
    requires
        end <= bytes@.len(),
    ensures
        res <= end,
        bytes@.take(res as int) == path::trim(bytes@.take(end as int)),
{
    let mut left: usize = end;
    loop
        invariant
            left <= end <= bytes@.len(),
            path::trim(bytes@.take(left as int)) == path::trim(bytes@.take(end as int)),
        decreases left,
    {
        let from = after_last_slash(bytes, left);
        let ghost s = bytes@.take(left as int);
        proof {
            path::lemma_last_slash(s);
        }
        if from == 0 {
            return left;
        }
        let piece = vstd::slice::slice_subrange(bytes, from, left);
        assert(piece@ =~= s.skip(from as int));
        if !is_filler(piece) {
            return left;
        }
        assert(s.take(1) =~= bytes@.take(1));
        if from == 1 {
            return 1;
        }
        assert(s.take(from - 1) =~= bytes@.take(from - 1));
        left = from - 1;
    }
}

impl FilePath {
    /// The path that these bytes spell.
    pub fn new(bytes: Vec<u8>) -> (res: FilePath)
        ensures
            res@ == bytes@,
    {
        FilePath { bytes }
    }

    /// The path that this text spells.
    pub fn from_text(s: &str) -> (res: FilePath)
        ensures
            res@ == path::text(s),
    {
        FilePath { bytes: slice_to_vec(s.as_bytes()) }
    }

    pub fn as_bytes(&self) -> (res: &[u8])
        ensures
            res@ == self@,
    {
        self.bytes.as_slice()
    }

    /// This path extended by `tail`.
    pub fn join_bytes(&self, tail: &[u8]) -> (res: FilePath)
        ensures
            res@ == path::join(self@, tail@),
    {
        if tail.len() > 0 && tail[0] == SLASH {
            return FilePath { bytes: slice_to_vec(tail) };
        }
        let mut bytes = slice_to_vec(self.bytes.as_slice());
        let n: usize = bytes.len();
        if n > 0 && bytes[n - 1] != SLASH {
            bytes.push(SLASH);
        }
        bytes.extend_from_slice(tail);
        assert(bytes@ =~= path::join(self@, tail@));
        FilePath { bytes }
    }

    /// This path extended by the text `tail`.
    pub fn join(&self, tail: &str) -> (res: FilePath)
        ensures
            res@ == path::join(self@, path::text(tail)),
    {
        self.join_bytes(tail.as_bytes())
    }

    /// This path extended by another path.
    pub fn join_path(&self, tail: &FilePath) -> (res: FilePath)
        ensures
            res@ == path::join(self@, tail@),
    {
        self.join_bytes(tail.bytes.as_slice())
    }

    /// Whether this path starts at the root.
    pub fn is_absolute(&self) -> (res: bool)
        ensures
            res == path::is_absolute(self@),
    {
        self.bytes.len() > 0 && self.bytes[0] == SLASH
    }

    /// The components of this path, first to last.
    pub fn components(&self) -> (res: Vec<Component<Vec<u8>>>)
        ensures
            res.deep_view() == path::components(self@),
    {
        components_of(self.bytes.as_slice())
    }

    /// Whether `base` is this path or one of the directories above it.
    pub fn starts_with(&self, base: &FilePath) -> (res: bool)
        ensures
            res == path::starts_with(self@, base@),
    {
        let mine = self.components();
        let other = base.components();
        if other.len() > mine.len() {
            return false;
        }
        let mut i: usize = 0;
        while i < other.len()
            invariant
                i <= other.len() <= mine.len(),
                mine.deep_view() == path::components(self@),
                other.deep_view() == path::components(base@),
                forall|j: int| 0 <= j < i ==> other.deep_view()[j] == mine.deep_view()[j],
            decreases other.len() - i,
        {
            if !component_equal(&other[i], &mine[i]) {
                assert(other.deep_view()[i as int] != mine.deep_view()[i as int]);
                return false;
            }
            assert(other.deep_view()[i as int] == mine.deep_view()[i as int]);
            i += 1;
        }
        true
    }

    /// Whether `other` names the same path.
    pub fn same_as(&self, other: &FilePath) -> (res: bool)
        ensures
            res == path::same_path(self@, other@),
    {
        same_components(&self.components(), &other.components())
    }

    /// Where this path leads if none of its steps is a link.
    pub fn place(&self) -> (res: Vec<Component<Vec<u8>>>)
        ensures
            res.deep_view() == path::place(self@),
    {
        folded(self.components())
    }

    /// Whether `other` leads to the same place if no step is a link.
    pub fn same_place_as(&self, other: &FilePath) -> (res: bool)
        ensures
            res == path::same_place(self@, other@),
    {
        same_components(&self.place(), &other.place())
    }

    /// Whether this path leads to where `dir` leads, or below, if no step is a
    /// link.
    pub fn lies_within(&self, dir: &FilePath) -> (res: bool)
        ensures
            res == path::lies_within(self@, dir@),
    {
        let mine = self.place();
        let other = dir.place();
        if other.len() > mine.len() {
            return false;
        }
        let ghost k = path::place(self@);
        let ghost d = path::place(dir@);
        let mut i: usize = 0;
        while i < mine.len()
            invariant
                i <= mine.len(),
                other.len() <= mine.len(),
                k == path::place(self@),
                d == path::place(dir@),
                mine.deep_view() == k,
                other.deep_view() == d,
                forall|j: int| 0 <= j < i && j < d.len() ==> d[j] == k[j],
                forall|j: int| d.len() <= j < i ==> #[trigger] k[j] is Normal,
            decreases mine.len() - i,
        {
            assert(k[i as int] == mine@[i as int].deep_view());
            if i < other.len() {
                if !component_equal(&other[i], &mine[i]) {
                    assert(d[i as int] != k.subrange(0, d.len() as int)[i as int]);
                    return false;
                }
                assert(d[i as int] == k[i as int]);
            } else {
                match &mine[i] {
                    Component::Normal(_) => {},
                    _ => {
                        assert(!(k[i as int] is Normal));
                        return false;
                    },
                }
            }
            i += 1;
        }
        assert(d =~= k.subrange(0, d.len() as int));
        true
    }

    /// The name of the last component, unless that is no plain name.
    pub fn file_name(&self) -> (res: Option<Vec<u8>>)
        ensures
            res.deep_view() == path::file_name(self@),
    {
        let mut all = self.components();
        let ghost c = all.deep_view();
        match all.pop() {
            None => None,
            Some(last) => {
                assert(c.last() == last.deep_view());
                match last {
                    Component::Normal(name) => {
                        assert(name.deep_view() =~= name@);
                        Some(name)
                    },
                    _ => None,
                }
            },
        }
    }

    /// This path without its last component. The root and the empty path have none.
    pub fn parent(&self) -> (res: Option<FilePath>)
        ensures
            res.deep_view() == path::parent(self@),
    {
        let mut all = self.components();
        let ghost c = all.deep_view();
        let last = all.pop();
        let at_end = match &last {
            None => true,
            Some(Component::RootDir) => true,
            _ => false,
        };
        proof {
            if last is Some {
                assert(c.last() == last->0.deep_view());
            }
        }
        if at_end {
            return None;
        }
        let bytes = self.bytes.as_slice();
        let kept = trimmed_length(bytes, bytes.len());
        assert(bytes@.take(bytes@.len() as int) =~= bytes@);
        let from = after_last_slash(bytes, kept);
        let ghost t = bytes@.take(kept as int);
        proof {
            path::lemma_last_slash(t);
        }
        let cut: usize = if from == 0 {
            0
        } else if from == 1 {
            assert(t.take(1) =~= bytes@.take(1));
            1
        } else {
            assert(t.take(from - 1) =~= bytes@.take(from - 1));
            trimmed_length(bytes, from - 1)
        };
        let res = FilePath { bytes: slice_to_vec(vstd::slice::slice_subrange(bytes, 0, cut)) };
        assert(res@ =~= bytes@.take(cut as int));
        assert(res@ == path::parent(self@)->0);
        Some(res)
    }

    /// This path after its last component, if it has one to give, is taken off.
    pub fn popped(&self) -> (res: FilePath)
        ensures
            res@ == path::popped(self@),
    {
        match self.parent() {
            Some(p) => p,
            None => self.clone(),
        }
    }

    /// This path with its last plain name replaced by `name`, or extended by it.
    pub fn with_file_name(&self, name: &[u8]) -> (res: FilePath)
        ensures
            res@ == path::with_file_name(self@, name@),
    {
        if self.file_name().is_some() {
            self.popped().join_bytes(name)
        } else {
            self.join_bytes(name)
        }
    }
}

} // verus!
