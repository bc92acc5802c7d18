//! Unix paths as text.
//!
//! A path is a sequence of bytes whose pieces are parted by `/`. Two paths
//! that name the same components are the same path: repeated and trailing
//! slashes carry no meaning, and neither does a `.` piece, except as the first
//! piece of a relative path.

use vstd::prelude::*;
use vstd::utf8::encode_utf8;

verus! {

/// The byte that parts the pieces of a path.
pub const SLASH: u8 = 47;

/// The byte of which the pieces `.` and `..` are made.
pub const DOT: u8 = 46;

/// One step of a path. `N` is how the name of a plain step is held.
#[derive(Debug)]
pub enum Component<N> {
    /// The leading `/`.
    RootDir,
    /// A leading `.`.
    CurDir,
    /// A `..` piece.
    ParentDir,
    /// Any other piece.
    Normal(N),
}

impl DeepView for Component<Vec<u8>> {
    type V = Component<Seq<u8>>;

    open spec fn deep_view(&self) -> Component<Seq<u8>> {
        match self {
            Component::RootDir => Component::RootDir,
            Component::CurDir => Component::CurDir,
            Component::ParentDir => Component::ParentDir,
            Component::Normal(name) => Component::Normal(name@),
        }
    }
}

/// The bytes of a text.
pub open spec fn text(s: &str) -> Seq<u8> {
    encode_utf8(s@)
}

/// Where the last slash of `s` stands, or -1.
pub open spec fn last_slash(s: Seq<u8>) -> int
    decreases s.len(),
{
    if s.len() == 0 {
        -1
    } else if s.last() == SLASH {
        s.len() - 1
    } else {
        last_slash(s.drop_last())
    }
}

/// Whether `s` holds no slash.
pub open spec fn slash_free(s: Seq<u8>) -> bool {
    forall|i: int| 0 <= i < s.len() ==> s[i] != SLASH
}

pub open spec fn is_dot(piece: Seq<u8>) -> bool {
    piece.len() == 1 && piece[0] == DOT
}

pub open spec fn is_dot_dot(piece: Seq<u8>) -> bool {
    piece.len() == 2 && piece[0] == DOT && piece[1] == DOT
}

/// A piece that names no component when something stands before it.
pub open spec fn is_filler(piece: Seq<u8>) -> bool {
    piece.len() == 0 || is_dot(piece)
}

/// The component that a piece names.
pub open spec fn component_of(piece: Seq<u8>) -> Component<Seq<u8>> {
    if is_dot(piece) {
        Component::CurDir
    } else if is_dot_dot(piece) {
        Component::ParentDir
    } else {
        Component::Normal(piece)
    }
}

/// The components that stand before a slash, given the text before it.
pub open spec fn components_before_slash(before: Seq<u8>) -> Seq<Component<Seq<u8>>>
    decreases before.len(), 1int,
{
    if before.len() == 0 {
        seq![Component::RootDir]
    } else {
        components(before)
    }
}

/// The components of a path, first to last.
pub open spec fn components(s: Seq<u8>) -> Seq<Component<Seq<u8>>>
    decreases s.len(), 0int,
{
    let i = last_slash(s);
    proof {
        lemma_last_slash(s);
    }
    if i < 0 {
        if s.len() == 0 {
            Seq::empty()
        } else {
            seq![component_of(s)]
        }
    } else {
        let head = components_before_slash(s.take(i));
        let piece = s.skip(i + 1);
        if is_filler(piece) {
            head
        } else {
            head.push(component_of(piece))
        }
    }
}

/// `base` extended by `tail`: a tail that starts at the root replaces the base.
pub open spec fn join(base: Seq<u8>, tail: Seq<u8>) -> Seq<u8> {
    if is_absolute(tail) {
        tail
    } else if base.len() == 0 || base.last() == SLASH {
        base + tail
    } else {
        base.push(SLASH) + tail
    }
}

/// Whether a path starts at the root.
pub open spec fn is_absolute(s: Seq<u8>) -> bool {
    s.len() > 0 && s[0] == SLASH
}

/// The name of the last component, unless that is no plain name.
pub open spec fn file_name(s: Seq<u8>) -> Option<Seq<u8>> {
    let c = components(s);
    if c.len() == 0 {
        None
    } else {
        match c.last() {
            Component::Normal(name) => Some(name),
            _ => None,
        }
    }
}

/// A path without the trailing text that names no component.
pub open spec fn trim(s: Seq<u8>) -> Seq<u8>
    decreases s.len(),
{
    let i = last_slash(s);
    proof {
        lemma_last_slash(s);
    }
    if i < 0 || !is_filler(s.skip(i + 1)) {
        s
    } else if i == 0 {
        s.take(1)
    } else {
        trim(s.take(i))
    }
}

/// A path without its last component. The root and the empty path have none.
pub open spec fn parent(s: Seq<u8>) -> Option<Seq<u8>> {
    let c = components(s);
    if c.len() == 0 || c.last() == Component::<Seq<u8>>::RootDir {
        None
    } else {
        let kept = trim(s);
        let i = last_slash(kept);
        if i < 0 {
            Some(Seq::empty())
        } else if i == 0 {
            Some(kept.take(1))
        } else {
            Some(trim(kept.take(i)))
        }
    }
}

/// A path after its last component, if it has one to give, is taken off.
pub open spec fn popped(s: Seq<u8>) -> Seq<u8> {
    match parent(s) {
        Some(p) => p,
        None => s,
    }
}

/// A path whose last plain name is replaced by `name`, or extended by it.
pub open spec fn with_file_name(s: Seq<u8>, name: Seq<u8>) -> Seq<u8> {
    if file_name(s) is Some {
        join(popped(s), name)
    } else {
        join(s, name)
    }
}

/// Whether two texts name the same path.
pub open spec fn same_path(a: Seq<u8>, b: Seq<u8>) -> bool {
    components(a) == components(b)
}

/// Whether `base` is `s` or one of the directories above it.
pub open spec fn starts_with(s: Seq<u8>, base: Seq<u8>) -> bool {
    components(base).is_prefix_of(components(s))
}

/// The steps from `taken` after one more: a `.` stays, a `..` goes back by one
/// name and stays at the root, and every other step is taken.
pub open spec fn folded_step(
    taken: Seq<Component<Seq<u8>>>,
    step: Component<Seq<u8>>,
) -> Seq<Component<Seq<u8>>> {
    match step {
        Component::CurDir => taken,
        Component::ParentDir => if taken.len() == 0 || taken.last() is ParentDir {
            taken.push(Component::ParentDir)
        } else if taken.last() is RootDir {
            taken
        } else {
            taken.drop_last()
        },
        step => taken.push(step),
    }
}

/// The components of a path with every `..` worked in that has a name before it.
pub open spec fn folded(c: Seq<Component<Seq<u8>>>) -> Seq<Component<Seq<u8>>>
    decreases c.len(),
{
    if c.len() == 0 {
        Seq::empty()
    } else {
        folded_step(folded(c.drop_last()), c.last())
    }
}

/// Where a path leads if none of its steps is a link.
pub open spec fn place(s: Seq<u8>) -> Seq<Component<Seq<u8>>> {
    folded(components(s))
}

/// Whether two paths lead to the same place if none of their steps is a link.
pub open spec fn same_place(a: Seq<u8>, b: Seq<u8>) -> bool {
    place(a) == place(b)
}

/// Whether a place is another one or is reached from it by plain names alone.
pub open spec fn is_at_or_below(
    k: Seq<Component<Seq<u8>>>,
    dir: Seq<Component<Seq<u8>>>,
) -> bool {
    &&& dir.is_prefix_of(k)
    &&& forall|i: int| dir.len() <= i < k.len() ==> #[trigger] k[i] is Normal
}

/// Whether `s` leads to where `dir` leads, or to some place below that, if none
/// of their steps is a link.
pub open spec fn lies_within(s: Seq<u8>, dir: Seq<u8>) -> bool {
    is_at_or_below(place(s), place(dir))
}

pub proof fn lemma_last_slash(s: Seq<u8>)
    ensures
        -1 <= last_slash(s) < s.len(),
        last_slash(s) >= 0 ==> s[last_slash(s)] == SLASH,
        forall|j: int| last_slash(s) < j < s.len() ==> s[j] != SLASH,
    decreases s.len(),
{
    if s.len() > 0 && s.last() != SLASH {
        lemma_last_slash(s.drop_last());
        assert forall|j: int| last_slash(s) < j < s.len() implies s[j] != SLASH by {
            if j < s.len() - 1 {
                assert(s.drop_last()[j] == s[j]);
            }
        }
    }
}

/// The last slash is the only one with no slash after it.
pub proof fn lemma_last_slash_is(s: Seq<u8>, i: int)
    requires
        -1 <= i < s.len(),
        i >= 0 ==> s[i] == SLASH,
        forall|j: int| i < j < s.len() ==> s[j] != SLASH,
    ensures
        last_slash(s) == i,
{
    lemma_last_slash(s);
}

/// A slash and one piece add at most the component that the piece names.
pub proof fn lemma_components_push(before: Seq<u8>, piece: Seq<u8>)
    requires
        slash_free(piece),
    ensures
        components(before.push(SLASH) + piece) == if is_filler(piece) {
            components_before_slash(before)
        } else {
            components_before_slash(before).push(component_of(piece))
        },
{
    let s = before.push(SLASH) + piece;
    lemma_last_slash_is(s, before.len() as int);
    assert(s.take(before.len() as int) =~= before);
    assert(s.skip(before.len() as int + 1) =~= piece);
}

/// Whether `name` can stand in a path as one plain component.
pub open spec fn is_plain_name(name: Seq<u8>) -> bool {
    &&& slash_free(name)
    &&& !is_filler(name)
    &&& !is_dot_dot(name)
}

/// The components that a relative tail adds behind a base that is not empty.
pub open spec fn tail_components(tail: Seq<u8>) -> Seq<Component<Seq<u8>>> {
    let c = components(tail);
    if c.len() > 0 && c[0] == Component::<Seq<u8>>::CurDir {
        c.drop_first()
    } else {
        c
    }
}

proof fn lemma_append_after_slash(base: Seq<u8>, tail: Seq<u8>)
    requires
        base.len() > 0,
        base.last() == SLASH,
        !is_absolute(tail),
    ensures
        components(base + tail) == components(base) + tail_components(tail),
    decreases tail.len(),
{
    let before = base.drop_last();
    assert(base =~= before.push(SLASH) + Seq::<u8>::empty());
    lemma_components_push(before, Seq::empty());
    let i = last_slash(tail);
    lemma_last_slash(tail);
    if i < 0 {
        assert(base + tail =~= before.push(SLASH) + tail);
        lemma_components_push(before, tail);
        if is_dot(tail) {
            assert(components(tail).drop_first() =~= Seq::empty());
        }
        assert(components(base + tail) =~= components(base) + tail_components(tail));
    } else {
        let front = tail.take(i);
        let piece = tail.skip(i + 1);
        assert(front[0] == tail[0]);
        lemma_append_after_slash(base, front);
        assert(base + tail =~= (base + front).push(SLASH) + piece);
        assert(tail =~= front.push(SLASH) + piece);
        lemma_components_push(base + front, piece);
        lemma_components_push(front, piece);
        assert(components(base + tail) =~= components(base) + tail_components(tail));
    }
}

/// Joining a relative tail to a base keeps the base's components and puts the
/// tail's behind them; a leading `.` of the tail is lost unless the base is empty.
pub proof fn law_join_appends(base: Seq<u8>, tail: Seq<u8>)
    requires
        !is_absolute(tail),
    ensures
        components(join(base, tail)) == if base.len() == 0 {
            components(tail)
        } else {
            components(base) + tail_components(tail)
        },
{
    if base.len() == 0 {
        assert(base + tail =~= tail);
    } else if base.last() == SLASH {
        lemma_append_after_slash(base, tail);
    } else {
        lemma_append_after_slash(base.push(SLASH), tail);
        assert(base.push(SLASH) =~= base.push(SLASH) + Seq::<u8>::empty());
        lemma_components_push(base, Seq::empty());
    }
}

/// A plain name is its own single component.
pub proof fn law_plain_name(name: Seq<u8>)
    requires
        is_plain_name(name),
    ensures
        components(name) == seq![Component::Normal(name)],
        !is_absolute(name),
        file_name(name) == Some(name),
{
    lemma_last_slash_is(name, -1);
}

/// Joining a plain name adds exactly that component, and the name is then the
/// file name of the result.
pub proof fn law_join_plain_name(base: Seq<u8>, name: Seq<u8>)
    requires
        is_plain_name(name),
    ensures
        components(join(base, name)) == components(base).push(Component::Normal(name)),
        file_name(join(base, name)) == Some(name),
{
    law_plain_name(name);
    law_join_appends(base, name);
    lemma_last_slash_is(Seq::<u8>::empty(), -1);
    assert(components(join(base, name)) =~= components(base).push(Component::Normal(name)));
}

/// Only the first component can be the root or a `.`, and every name is plain.
pub open spec fn well_formed(c: Seq<Component<Seq<u8>>>) -> bool {
    &&& forall|i: int| 0 < i < c.len() ==> !(#[trigger] c[i] is RootDir) && !(c[i] is CurDir)
    &&& forall|i: int|
        0 <= i < c.len() ==> (#[trigger] c[i] matches Component::Normal(name) ==> is_plain_name(name))
}

/// The components of every path are well formed; the first is the root exactly
/// for an absolute path, and only the empty path has none.
pub proof fn law_components_well_formed(s: Seq<u8>)
    ensures
        well_formed(components(s)),
        components(s).len() == 0 <==> s.len() == 0,
        is_absolute(s) <==> components(s).len() > 0 && components(s)[0] is RootDir,
    decreases s.len(),
{
    let i = last_slash(s);
    lemma_last_slash(s);
    if i > 0 {
        let front = s.take(i);
        assert(front[0] == s[0]);
        law_components_well_formed(front);
    }
}

/// Trimming changes no component, and what is left ends in its last component.
proof fn lemma_trim(s: Seq<u8>)
    ensures
        components(trim(s)) == components(s),
        trim(s).len() <= s.len(),
        ({
            let t = trim(s);
            let i = last_slash(t);
            i < 0 || !is_filler(t.skip(i + 1)) || (i == 0 && t.len() == 1)
        }),
    decreases s.len(),
{
    let i = last_slash(s);
    lemma_last_slash(s);
    if i >= 0 && is_filler(s.skip(i + 1)) {
        if i == 0 {
            let t = s.take(1);
            lemma_last_slash_is(t, 0);
            assert(t.take(0) =~= s.take(0));
            assert(t.skip(1).len() == 0);
        } else {
            lemma_trim(s.take(i));
        }
    }
}

/// A path has a parent unless it is empty or the root; the parent has all
/// components but the last.
pub proof fn law_parent(s: Seq<u8>)
    ensures
        parent(s) is None <==> components(s).len() == 0 || components(s).last() is RootDir,
        parent(s) matches Some(p) ==> components(p) == components(s).drop_last(),
{
    if let Some(p) = parent(s) {
        let t = trim(s);
        lemma_trim(s);
        let i = last_slash(t);
        lemma_last_slash(t);
        lemma_last_slash_is(Seq::<u8>::empty(), -1);
        if i < 0 {
            assert(components(p) =~= components(s).drop_last());
        } else {
            if i == 0 {
                lemma_last_slash_is(p, 0);
                assert(p.take(0) =~= t.take(0));
                assert(p.skip(1).len() == 0);
                if t.len() == 1 {
                    assert(t.skip(1).len() == 0);
                }
            } else {
                lemma_trim(t.take(i));
            }
            assert(components(p) =~= components(s).drop_last());
        }
    }
}

/// Replacing the file name changes the last component and no other.
pub proof fn law_with_file_name(s: Seq<u8>, name: Seq<u8>)
    requires
        file_name(s) is Some,
        is_plain_name(name),
    ensures
        components(with_file_name(s, name)) == components(s).drop_last().push(
            Component::Normal(name),
        ),
        file_name(with_file_name(s, name)) == Some(name),
        parent(s) is Some,
{
    law_parent(s);
    law_join_plain_name(popped(s), name);
}

/// The file name of a path is a plain name, and the parent extended by it is
/// the path again.
pub proof fn law_parent_and_file_name(s: Seq<u8>)
    ensures
        file_name(s) matches Some(name) ==> {
            &&& is_plain_name(name)
            &&& parent(s) matches Some(p) && same_path(join(p, name), s)
        },
{
    if let Some(name) = file_name(s) {
        law_components_well_formed(s);
        law_parent(s);
        law_join_plain_name(parent(s)->0, name);
        assert(components(s) =~= components(s).drop_last().push(components(s).last()));
    }
}

/// A path lies within itself, and what lies within a directory lies within
/// every directory above that.
pub proof fn law_starts_with_is_an_order(a: Seq<u8>, b: Seq<u8>, c: Seq<u8>)
    ensures
        starts_with(a, a),
        starts_with(a, b) && starts_with(b, c) ==> starts_with(a, c),
        starts_with(a, b) && starts_with(b, a) ==> same_path(a, b),
{
    assert(components(a) =~= components(a).subrange(0, components(a).len() as int));
    if starts_with(a, b) && starts_with(b, c) {
        assert(components(c) =~= components(a).subrange(0, components(c).len() as int));
    }
    if starts_with(a, b) && starts_with(b, a) {
        assert(components(a) =~= components(b));
    }
}

/// What is joined to a directory by plain names lies within it, and is not it.
pub proof fn law_joined_name_is_within(base: Seq<u8>, name: Seq<u8>)
    requires
        is_plain_name(name),
    ensures
        starts_with(join(base, name), base),
        !starts_with(base, join(base, name)),
{
    law_join_plain_name(base, name);
    assert(components(base) =~= components(join(base, name)).subrange(
        0,
        components(base).len() as int,
    ));
}

/// Whether a path has no `..` in it, so that it exists wherever the place that it
/// leads to does.
pub open spec fn is_straight(s: Seq<u8>) -> bool {
    &&& s.len() > 0
    &&& forall|i: int| 0 <= i < components(s).len() ==> !(#[trigger] components(s)[i] is ParentDir)
}

/// Whether a place is passed on the way that a path takes, its end included.
pub open spec fn is_on_the_way(k: Seq<Component<Seq<u8>>>, s: Seq<u8>) -> bool {
    &&& k.len() > 0
    &&& exists|i: int|
        0 <= i <= components(s).len() && k == folded(#[trigger] components(s).take(i))
}

/// Whether a path passes a place before it comes to its end.
pub open spec fn is_passed(k: Seq<Component<Seq<u8>>>, s: Seq<u8>) -> bool {
    &&& k.len() > 0
    &&& exists|i: int|
        0 <= i < components(s).len() && k == folded(#[trigger] components(s).take(i))
}

/// What a path passes before its end is what is on the way to its parent.
pub proof fn lemma_passed(k: Seq<Component<Seq<u8>>>, s: Seq<u8>)
    ensures
        parent(s) is Some ==> (is_on_the_way(k, popped(s)) <==> is_passed(k, s)),
        parent(s) is None ==> !is_passed(k, s),
{
    law_parent(s);
    law_components_well_formed(s);
    let c = components(s);
    if parent(s) is Some {
        let up = components(popped(s));
        if is_on_the_way(k, popped(s)) {
            let i = choose|i: int| 0 <= i <= up.len() && k == folded(#[trigger] up.take(i));
            assert(up.take(i) =~= c.take(i));
        }
        if is_passed(k, s) {
            let i = choose|i: int| 0 <= i < c.len() && k == folded(#[trigger] c.take(i));
            assert(up.take(i) =~= c.take(i));
        }
    } else if is_passed(k, s) {
        let i = choose|i: int| 0 <= i < c.len() && k == folded(#[trigger] c.take(i));
        assert(c.len() == 1);
        assert(c.take(0) =~= Seq::empty());
    }
}

/// A path that is joined from a directory and a plain name passes what is on the
/// way to the directory.
pub proof fn lemma_passed_by_joined(k: Seq<Component<Seq<u8>>>, base: Seq<u8>, name: Seq<u8>)
    requires
        is_plain_name(name),
    ensures
        is_passed(k, join(base, name)) <==> is_on_the_way(k, base),
{
    law_join_plain_name(base, name);
    let c = components(base);
    let d = components(join(base, name));
    if is_on_the_way(k, base) {
        let i = choose|i: int| 0 <= i <= c.len() && k == folded(#[trigger] c.take(i));
        assert(d.take(i) =~= c.take(i));
    }
    if is_passed(k, join(base, name)) {
        let i = choose|i: int| 0 <= i < d.len() && k == folded(#[trigger] d.take(i));
        assert(d.take(i) =~= c.take(i));
    }
}

proof fn lemma_folded_without_parent_steps(c: Seq<Component<Seq<u8>>>, i: int)
    requires
        forall|j: int| 0 <= j < c.len() ==> !(#[trigger] c[j] is ParentDir),
        0 <= i <= c.len(),
    ensures
        folded(c.take(i)).is_prefix_of(folded(c)),
    decreases c.len(),
{
    if i == c.len() {
        assert(c.take(i) =~= c);
        assert(folded(c) =~= folded(c).subrange(0, folded(c).len() as int));
    } else {
        let front = c.drop_last();
        assert(front.take(i) =~= c.take(i));
        assert forall|j: int| 0 <= j < front.len() implies !(#[trigger] front[j] is ParentDir) by {
            assert(front[j] == c[j]);
        }
        lemma_folded_without_parent_steps(front, i);
        assert(!(c[c.len() - 1] is ParentDir));
        let a = folded(c.take(i));
        assert(a =~= folded(c).subrange(0, a.len() as int)) by {
            assert(folded(front).subrange(0, a.len() as int) =~= folded(c).subrange(
                0,
                a.len() as int,
            ));
        }
    }
}

/// The way of a path without `..` leads downwards only.
pub proof fn lemma_straight_way(k: Seq<Component<Seq<u8>>>, s: Seq<u8>)
    requires
        is_straight(s),
        is_on_the_way(k, s),
    ensures
        k.is_prefix_of(place(s)),
{
    let i = choose|i: int|
        0 <= i <= components(s).len() && k == folded(#[trigger] components(s).take(i));
    lemma_folded_without_parent_steps(components(s), i);
}

/// The way to the parent of a path without `..` is part of the way of the path and
/// does not pass where the path leads.
pub proof fn lemma_way_to_the_parent(k: Seq<Component<Seq<u8>>>, s: Seq<u8>)
    requires
        is_straight(s),
        parent(s) is Some,
        is_on_the_way(k, popped(s)),
    ensures
        is_on_the_way(k, s),
        k != place(s),
        k.is_prefix_of(place(s)),
{
    law_parent(s);
    law_components_well_formed(s);
    let c = components(s);
    let up = c.drop_last();
    let i = choose|i: int|
        0 <= i <= components(popped(s)).len() && k == folded(
            #[trigger] components(popped(s)).take(i),
        );
    assert(up.take(i) =~= c.take(i));
    assert(is_on_the_way(k, s));
    lemma_straight_way(k, s);
    assert forall|j: int| 0 <= j < up.len() implies !(#[trigger] up[j] is ParentDir) by {
        assert(up[j] == c[j]);
    }
    lemma_folded_without_parent_steps(up, i);
    assert(!(c[c.len() - 1] is ParentDir));
    if c.last() is CurDir {
        assert(c.len() == 1);
        assert(up =~= Seq::empty());
    }
}

/// A path without `..` passes only what is above its end.
pub proof fn lemma_straight_passed(k: Seq<Component<Seq<u8>>>, s: Seq<u8>)
    requires
        is_straight(s),
        is_passed(k, s),
    ensures
        k.is_prefix_of(place(s)),
        k.len() < place(s).len(),
{
    lemma_passed(k, s);
    lemma_way_to_the_parent(k, s);
    if k.len() == place(s).len() {
        assert(k =~= place(s));
    }
}

/// A plain name leads one step further down.
pub proof fn lemma_place_join(base: Seq<u8>, name: Seq<u8>)
    requires
        is_plain_name(name),
    ensures
        place(join(base, name)) == place(base).push(Component::Normal(name)),
        is_straight(base) ==> is_straight(join(base, name)),
{
    law_join_plain_name(base, name);
    let c = components(base).push(Component::Normal(name));
    assert(c.drop_last() =~= components(base));
    law_components_well_formed(join(base, name));
}

} // verus!
