//! What holds of paths as texts.

use vstd::prelude::*;
use crate::path;
use crate::path::Component;

verus! {

/// Whether a text holds no `/`.
pub open spec fn is_one_piece(piece: Seq<u8>) -> bool {
    forall|i: int| 0 <= i < piece.len() ==> #[trigger] piece[i] != 47
}

/// Whether a component is the one that a piece stands for: `.`, `..` or a name.
pub open spec fn is_named_by(c: Component<Seq<u8>>, piece: Seq<u8>) -> bool {
    if piece == seq![46u8] {
        c is CurDir
    } else if piece == seq![46u8, 46u8] {
        c is ParentDir
    } else {
        c == Component::Normal(piece)
    }
}

/// A path is taken apart at each `/`. A piece behind a `/` adds the component that it
/// stands for and changes none before it, and one that is empty or a `.` adds none.
/// A `/` in front stands for the root. A single piece is a single component, and the
/// empty path has none.
pub proof fn law_paths_are_taken_apart_at_slashes(before: Seq<u8>, piece: Seq<u8>)
    requires
        is_one_piece(piece),
    ensures
        path::components(Seq::<u8>::empty()).len() == 0,
        piece.len() > 0 ==> path::components(piece).len() == 1 && is_named_by(
            path::components(piece)[0],
            piece,
        ),
        ({
            let front = if before.len() == 0 {
                seq![Component::<Seq<u8>>::RootDir]
            } else {
                path::components(before)
            };
            let all = path::components(before + seq![47u8] + piece);
            if piece.len() == 0 || piece == seq![46u8] {
                all == front
            } else {
                all.len() == front.len() + 1 && all.drop_last() == front && is_named_by(
                    all.last(),
                    piece,
                )
            }
        }),
{
    path::lemma_last_slash_is(Seq::<u8>::empty(), -1);
    path::lemma_last_slash_is(piece, -1);
    path::lemma_components_push(before, piece);
    assert(before + seq![47u8] + piece =~= before.push(47u8) + piece);
    if path::is_dot(piece) {
        assert(piece =~= seq![46u8]);
    }
    if path::is_dot_dot(piece) {
        assert(piece =~= seq![46u8, 46u8]);
    }
    let all = path::components(before + seq![47u8] + piece);
    if !(piece.len() == 0 || piece == seq![46u8]) {
        let front = path::components_before_slash(before);
        assert(front.push(path::component_of(piece)).drop_last() =~= front);
    }
}

/// A plain name is every text without `/` that is neither empty nor `.` nor `..`.
pub proof fn law_plain_names(name: Seq<u8>)
    ensures
        path::is_plain_name(name) <==> is_one_piece(name) && name.len() > 0 && name != seq![46u8]
            && name != seq![46u8, 46u8],
{
    if path::is_dot(name) {
        assert(name =~= seq![46u8]);
    }
    if path::is_dot_dot(name) {
        assert(name =~= seq![46u8, 46u8]);
    }
}

/// Two texts are the same path exactly if they have the same components, and a path
/// lies within another exactly if it has its components and then any others.
pub proof fn law_paths_are_their_components(a: Seq<u8>, b: Seq<u8>)
    ensures
        path::same_path(a, b) <==> path::components(a) == path::components(b),
        path::starts_with(a, b) <==> exists|rest: Seq<Component<Seq<u8>>>|
            path::components(a) == #[trigger] (path::components(b) + rest),
        path::is_absolute(a) <==> a.len() > 0 && a[0] == 47,
        path::file_name(a) matches Some(name) ==> path::components(a).len() > 0
            && path::components(a).last() == Component::Normal(name),
        path::file_name(a) is None ==> path::components(a).len() == 0 || !(path::components(
            a,
        ).last() is Normal),
{
    let x = path::components(a);
    let y = path::components(b);
    if path::starts_with(a, b) {
        assert(x =~= y + x.skip(y.len() as int));
    }
    if exists|rest: Seq<Component<Seq<u8>>>| x == #[trigger] (y + rest) {
        let rest = choose|rest: Seq<Component<Seq<u8>>>| x == #[trigger] (y + rest);
        assert(y =~= x.subrange(0, y.len() as int));
    }
}

/// A tail that starts at the root stands for itself. Any other one is put behind the
/// base, with a `/` between them unless the base is empty or ends in one.
pub proof fn law_joining_keeps_both_texts(base: Seq<u8>, tail: Seq<u8>)
    ensures
        tail.len() > 0 && tail[0] == 47 ==> path::join(base, tail) == tail,
        !(tail.len() > 0 && tail[0] == 47) ==> {
            let joined = path::join(base, tail);
            let gap = joined.len() - base.len() - tail.len();
            &&& base.is_prefix_of(joined)
            &&& tail.is_suffix_of(joined)
            &&& gap == 0 || gap == 1 && joined[base.len() as int] == 47
            &&& gap == 0 <==> base.len() == 0 || base.last() == 47
        },
{
    let joined = path::join(base, tail);
    if !(tail.len() > 0 && tail[0] == 47) {
        assert(base =~= joined.subrange(0, base.len() as int));
        assert(tail =~= joined.subrange(joined.len() - tail.len(), joined.len() as int));
    }
}

proof fn lemma_trim_is_prefix(s: Seq<u8>)
    ensures
        path::trim(s).is_prefix_of(s),
    decreases s.len(),
{
    let i = path::last_slash(s);
    path::lemma_last_slash(s);
    assert(s =~= s.subrange(0, s.len() as int));
    if i >= 0 && path::is_filler(s.skip(i + 1)) {
        if i == 0 {
            assert(s.take(1) =~= s.subrange(0, 1));
        } else {
            lemma_trim_is_prefix(s.take(i));
            let t = path::trim(s.take(i));
            assert(t =~= s.subrange(0, t.len() as int)) by {
                assert(s.take(i).subrange(0, t.len() as int) =~= s.subrange(0, t.len() as int));
            }
        }
    }
}

proof fn lemma_trimmed_end(s: Seq<u8>)
    requires
        path::trim(s) == s,
    ensures
        s.len() > 1 ==> s.last() != 47,
        s.len() > 1 ==> !(s[s.len() - 2] == 47 && s.last() == 46),
{
    let i = path::last_slash(s);
    path::lemma_last_slash(s);
    if i >= 0 && path::is_filler(s.skip(i + 1)) {
        if i > 0 {
            lemma_trim_is_prefix(s.take(i));
        }
    }
    if s.len() > 1 && s.last() == 47 {
        path::lemma_last_slash_is(s, s.len() - 1);
    }
    if s.len() > 1 && s[s.len() - 2] == 47 && s.last() == 46 {
        path::lemma_last_slash_is(s, s.len() - 2);
        assert(s.skip(s.len() - 1) =~= seq![46u8]);
    }
}

/// The parent of a path is the front of its text that has all its components but the
/// last, and has nothing behind them. Only the root and the empty path have none.
/// Taking the last component off a path leaves its parent, or the path if it has
/// none.
pub proof fn law_parents_are_the_front_of_a_path(s: Seq<u8>)
    ensures
        path::parent(s) is None <==> path::components(s).len() == 0 || path::components(s)
            == seq![Component::<Seq<u8>>::RootDir],
        path::parent(s) matches Some(p) ==> {
            &&& p.is_prefix_of(s)
            &&& path::components(p) == path::components(s).drop_last()
            &&& p.len() > 1 ==> p.last() != 47 && !(p[p.len() - 2] == 47 && p.last() == 46)
            &&& path::popped(s) == p
        },
        path::parent(s) is None ==> path::popped(s) == s,
{
    path::law_parent(s);
    path::law_components_well_formed(s);
    if path::parent(s) is None && path::components(s).len() > 0 {
        assert(path::components(s) =~= seq![Component::<Seq<u8>>::RootDir]);
    }
    if let Some(p) = path::parent(s) {
        let kept = path::trim(s);
        let i = path::last_slash(kept);
        path::lemma_last_slash(kept);
        lemma_trim_is_prefix(s);
        crate::canonical_laws::lemma_parent_is_trimmed(s);
        lemma_trimmed_end(p);
        let front = if i < 0 {
            Seq::<u8>::empty()
        } else if i == 0 {
            kept.take(1)
        } else {
            kept.take(i)
        };
        lemma_trim_is_prefix(front);
        assert(p.is_prefix_of(front)) by {
            assert(front =~= front.subrange(0, front.len() as int));
        }
        assert(p =~= s.subrange(0, p.len() as int)) by {
            assert forall|k: int| 0 <= k < p.len() implies p[k] == s[k] by {
                assert(front.subrange(0, p.len() as int)[k] == front[k]);
                assert(front[k] == kept[k]);
                assert(s.subrange(0, kept.len() as int)[k] == s[k]);
            }
        }
    }
}

/// Replacing the file name of a path puts the new name behind its parent.
pub proof fn law_file_names_are_replaced(s: Seq<u8>, name: Seq<u8>)
    ensures
        path::file_name(s) is Some ==> (path::parent(s) matches Some(p) && path::with_file_name(
            s,
            name,
        ) == path::join(p, name)),
        path::file_name(s) is None ==> path::with_file_name(s, name) == path::join(s, name),
{
    path::law_parent(s);
}

/// Where a path leads if nothing is a link: a name leads one step down, and `..` one
/// step up again. At the root it stays there, and where there is no name to go back
/// from it stays as it is.
pub proof fn law_parent_steps_go_back(p: Seq<u8>, name: Seq<u8>)
    ensures
        path::place(Seq::<u8>::empty()).len() == 0,
        path::place(seq![47u8]) == seq![Component::<Seq<u8>>::RootDir],
        path::place(seq![46u8]).len() == 0,
        path::place(seq![46u8, 46u8]) == seq![Component::<Seq<u8>>::ParentDir],
        path::is_plain_name(name) ==> path::place(path::join(p, name)) == path::place(p).push(
            Component::Normal(name),
        ),
        path::is_plain_name(name) && p.len() > 0 ==> path::place(
            path::join(path::join(p, name), seq![46u8, 46u8]),
        ) == path::place(p),
        p.len() > 0 ==> ({
            let k = path::place(p);
            path::place(path::join(p, seq![46u8, 46u8])) == (if k.len() > 0
                && k.last() is Normal {
                k.drop_last()
            } else if k.len() > 0 && k.last() is RootDir {
                k
            } else {
                k.push(Component::ParentDir)
            })
        }),
        p.len() > 0 ==> path::place(path::join(p, seq![46u8])) == path::place(p),
{
    path::lemma_last_slash_is(Seq::<u8>::empty(), -1);
    let root = seq![47u8];
    path::lemma_last_slash_is(root, 0);
    assert(root.take(0).len() == 0);
    assert(root.skip(1).len() == 0);
    assert(path::components(root) =~= seq![Component::<Seq<u8>>::RootDir]);
    assert(path::components(root).drop_last() =~= Seq::empty());
    reveal_with_fuel(path::folded, 2);
    assert(path::place(root) =~= seq![Component::<Seq<u8>>::RootDir]);
    let one = seq![46u8];
    let two = seq![46u8, 46u8];
    path::lemma_last_slash_is(one, -1);
    path::lemma_last_slash_is(two, -1);
    assert(path::components(one) =~= seq![Component::<Seq<u8>>::CurDir]);
    assert(path::components(two) =~= seq![Component::<Seq<u8>>::ParentDir]);
    assert(path::components(one).drop_last() =~= Seq::empty());
    assert(path::components(two).drop_last() =~= Seq::empty());
    assert(path::place(two) =~= seq![Component::<Seq<u8>>::ParentDir]);
    if path::is_plain_name(name) {
        path::lemma_place_join(p, name);
    }
    if p.len() > 0 {
        lemma_dots(p);
        if path::is_plain_name(name) {
            path::law_join_plain_name(p, name);
            path::law_components_well_formed(path::join(p, name));
            lemma_dots(path::join(p, name));
            assert(path::place(p).push(Component::Normal(name)).drop_last() =~= path::place(p));
        }
    }
}

proof fn lemma_folded_has_no_dot(c: Seq<Component<Seq<u8>>>)
    ensures
        forall|i: int| 0 <= i < path::folded(c).len() ==> !(#[trigger] path::folded(c)[i] is CurDir),
    decreases c.len(),
{
    if c.len() > 0 {
        lemma_folded_has_no_dot(c.drop_last());
    }
}

proof fn lemma_dots(p: Seq<u8>)
    requires
        p.len() > 0,
    ensures
        ({
            let k = path::place(p);
            path::place(path::join(p, seq![46u8, 46u8])) == (if k.len() > 0
                && k.last() is Normal {
                k.drop_last()
            } else if k.len() > 0 && k.last() is RootDir {
                k
            } else {
                k.push(Component::ParentDir)
            })
        }),
        path::place(path::join(p, seq![46u8])) == path::place(p),
{
    let c = path::components(p);
    let two = seq![46u8, 46u8];
    let one = seq![46u8];
    path::lemma_last_slash_is(two, -1);
    path::lemma_last_slash_is(one, -1);
    path::law_join_appends(p, two);
    path::law_join_appends(p, one);
    assert(path::components(two) =~= seq![Component::<Seq<u8>>::ParentDir]);
    assert(path::components(one) =~= seq![Component::<Seq<u8>>::CurDir]);
    assert(path::tail_components(one) =~= Seq::empty());
    assert(path::components(path::join(p, one)) =~= c);
    let d = path::components(path::join(p, two));
    assert(d =~= c.push(Component::ParentDir));
    assert(d.drop_last() =~= c);
    lemma_folded_has_no_dot(c);
}

/// A path lies where another leads, or below, exactly if it leads there and then by
/// names alone any further; and two paths lead to the same place exactly if they are
/// the same once every `..` is worked in.
pub proof fn law_places_decide(a: Seq<u8>, b: Seq<u8>)
    ensures
        path::same_place(a, b) <==> path::place(a) == path::place(b),
        path::lies_within(a, b) <==> path::place(b).is_prefix_of(path::place(a)) && forall|i: int|
            path::place(b).len() <= i < path::place(a).len()
                ==> #[trigger] path::place(a)[i] is Normal,
        path::same_path(a, b) ==> path::same_place(a, b),
{
}

} // verus!
