//! Which file an attachment is found in after the folder has changed.

use vstd::prelude::*;
use crate::file_path;
use crate::file_path::FilePath;
use crate::path;
use crate::path::Component;

verus! {

/// Where the file `source` is found now, if it was there at all, with `P` for
/// the paths.
#[derive(Debug)]
pub struct Relocation<P> {
    pub source: P,
    pub replacement: Option<P>,
}

impl DeepView for Relocation<FilePath> {
    type V = Relocation<Seq<u8>>;

    open spec fn deep_view(&self) -> Relocation<Seq<u8>> {
        Relocation { source: self.source@, replacement: self.replacement.deep_view() }
    }
}

/// Relocations, at most one for each path.
#[derive(Debug)]
pub struct Relocations {
    entries: Vec<Relocation<FilePath>>,
    /// The components of the sources.
    keys: Vec<Vec<Component<Vec<u8>>>>,
}

impl View for Relocations {
    type V = Seq<Relocation<Seq<u8>>>;

    closed spec fn view(&self) -> Seq<Relocation<Seq<u8>>> {
        self.entries.deep_view()
    }
}

impl DeepView for Relocations {
    type V = Seq<Relocation<Seq<u8>>>;

    open spec fn deep_view(&self) -> Seq<Relocation<Seq<u8>>> {
        self@
    }
}

/// Whether no path occurs twice.
pub open spec fn is_map(entries: Seq<Relocation<Seq<u8>>>) -> bool {
    forall|i: int, j: int|
        0 <= i < j < entries.len() ==> !path::same_path(
            (#[trigger] entries[i]).source,
            (#[trigger] entries[j]).source,
        )
}

/// What is known of a path: nothing, or where it is found now.
pub open spec fn find(entries: Seq<Relocation<Seq<u8>>>, source: Seq<u8>) -> Option<
    Option<Seq<u8>>,
>
    decreases entries.len(),
{
    if entries.len() == 0 {
        None
    } else if path::same_path(entries[0].source, source) {
        Some(entries[0].replacement)
    } else {
        find(entries.drop_first(), source)
    }
}

/// What is known of a path is what one of the entries says.
pub proof fn lemma_find(entries: Seq<Relocation<Seq<u8>>>, source: Seq<u8>)
    ensures
        match find(entries, source) {
            Some(replacement) => exists|i: int|
                0 <= i < entries.len() && path::same_path(
                    (#[trigger] entries[i]).source,
                    source,
                ) && entries[i].replacement == replacement,
            None => forall|i: int|
                0 <= i < entries.len() ==> !path::same_path(
                    (#[trigger] entries[i]).source,
                    source,
                ),
        },
    decreases entries.len(),
{
    if entries.len() > 0 && !path::same_path(entries[0].source, source) {
        let rest = entries.drop_first();
        lemma_find(rest, source);
        if find(rest, source) is Some {
            let i = choose|i: int|
                0 <= i < rest.len() && path::same_path((#[trigger] rest[i]).source, source)
                    && rest[i].replacement == find(rest, source)->0;
            assert(entries[i + 1] == rest[i]);
        } else {
            assert forall|i: int| 0 <= i < entries.len() implies !path::same_path(
                (#[trigger] entries[i]).source,
                source,
            ) by {
                if i > 0 {
                    assert(entries[i] == rest[i - 1]);
                }
            }
        }
    }
}

/// Where a file is found now is what the entry for its path says, however the path is
/// spelled, and nothing is known of a path without an entry.
pub proof fn law_every_entry_is_found(
    entries: Seq<Relocation<Seq<u8>>>,
    source: Seq<u8>,
    i: int,
)
    requires
        is_map(entries),
    ensures
        0 <= i < entries.len() && path::components(entries[i].source) == path::components(source)
            ==> find(entries, source) == Some(entries[i].replacement),
        (forall|j: int|
            0 <= j < entries.len() ==> path::components((#[trigger] entries[j]).source)
                != path::components(source)) ==> find(entries, source) is None,
{
    lemma_find(entries, source);
    if 0 <= i < entries.len() && path::components(entries[i].source) == path::components(source) {
        if find(entries, source) is Some {
            let j = choose|j: int|
                0 <= j < entries.len() && path::same_path((#[trigger] entries[j]).source, source)
                    && entries[j].replacement == find(entries, source)->0;
            if i < j {
                assert(!path::same_path(entries[i].source, entries[j].source));
            } else if j < i {
                assert(!path::same_path(entries[j].source, entries[i].source));
            }
        }
    }
}

/// What is known stays known when another entry is added.
pub proof fn lemma_find_push(
    entries: Seq<Relocation<Seq<u8>>>,
    entry: Relocation<Seq<u8>>,
    source: Seq<u8>,
)
    ensures
        find(entries.push(entry), source) == match find(entries, source) {
            Some(replacement) => Some(replacement),
            None => if path::same_path(entry.source, source) {
                Some(entry.replacement)
            } else {
                None
            },
        },
    decreases entries.len(),
{
    if entries.len() == 0 {
        assert(entries.push(entry).drop_first() =~= Seq::empty());
        reveal_with_fuel(find, 2);
    } else {
        lemma_find_push(entries.drop_first(), entry, source);
        assert(entries.push(entry).drop_first() =~= entries.drop_first().push(entry));
    }
}

impl Relocations {
    #[verifier::type_invariant]
    spec fn holds(self) -> bool {
        &&& self.keys@.len() == self.entries@.len()
        &&& forall|i: int|
            0 <= i < self.keys@.len() ==> (#[trigger] self.keys@[i]).deep_view()
                == path::components(self.entries@[i].source@)
        &&& is_map(self.entries.deep_view())
    }

    /// No relocations.
    pub fn new() -> (res: Relocations)
        ensures
            res@ == Seq::<Relocation<Seq<u8>>>::empty(),
    {
        let res = Relocations { entries: Vec::new(), keys: Vec::new() };
        assert(res@ =~= Seq::empty());
        res
    }

    /// The relocations, in the order in which they were found.
    pub fn entries(&self) -> (res: &Vec<Relocation<FilePath>>)
        ensures
            res.deep_view() == self@,
            is_map(self@),
    {
        proof {
            use_type_invariant(self);
        }
        &self.entries
    }

    /// What is known of a path: nothing, or where it is found now.
    pub fn find(&self, source: &FilePath) -> (res: Option<Option<FilePath>>)
        ensures
            res.deep_view() == find(self@, source@),
    {
        proof {
            use_type_invariant(self);
        }
        let key = source.components();
        let mut i: usize = 0;
        assert(self@.skip(0) =~= self@);
        while i < self.entries.len()
            invariant
                i <= self.entries@.len(),
                self.holds(),
                key.deep_view() == path::components(source@),
                find(self@, source@) == find(self@.skip(i as int), source@),
            decreases self.entries@.len() - i,
        {
            let ghost rest = self@.skip(i as int);
            assert(rest[0] == self.entries@[i as int].deep_view());
            assert(rest.drop_first() =~= self@.skip(i + 1));
            if file_path::same_components(&self.keys[i], &key) {
                return Some(
                    match &self.entries[i].replacement {
                        Some(p) => Some(p.clone()),
                        None => None,
                    },
                );
            }
            i += 1;
        }
        None
    }

    /// These relocations and one more.
    pub fn with(self, source: FilePath, replacement: Option<FilePath>) -> (res: Relocations)
        requires
            find(self@, source@) is None,
        ensures
            res@ == self@.push(
                Relocation { source: source@, replacement: replacement.deep_view() },
            ),
    {
        proof {
            use_type_invariant(&self);
            lemma_find(self@, source@);
        }
        let ghost before = self@;
        let key = source.components();
        let Relocations { mut entries, mut keys } = self;
        let ghost entry = Relocation { source: source@, replacement: replacement.deep_view() };
        entries.push(Relocation { source, replacement });
        keys.push(key);
        assert(entries.deep_view() =~= before.push(entry));
        Relocations { entries, keys }
    }
}

} // verus!
