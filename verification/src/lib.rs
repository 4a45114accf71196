//! Turns LuaCATS documentation records, as the Lua language server writes
//! them, into a tree of definition files and renders that tree as Markdown.

pub mod decode;
pub mod error;
pub mod json;
pub mod layout;
pub mod lua_cats;
pub mod lua_doc;
pub mod luals;
pub mod paths;
pub mod preprocess;
pub mod print;
pub mod provenance;
pub mod sort;
pub mod text;
pub mod types;
pub mod workspace;

use vstd::prelude::*;
use vstd::string::*;
use crate::lua_cats::{Definition, DefinitionView, views_of};
use crate::paths::{components_of, path_parts, starts_with};
use crate::sort::{Ranked, lemma_stable_sorted, ordered, stable_sort, stable_sorted};
use crate::text::{
    chars_le, chars_of, lemma_text_le_antisymmetric, lemma_text_le_total,
    lemma_text_le_transitive, text_le,
};

verus! {

/// The path that the location `file` spells: what follows `file://` where
/// it starts so, and all of it where it does not.
pub open spec fn plain_path(file: Seq<char>) -> Seq<char> {
    if "file://"@.is_prefix_of(file) {
        file.skip("file://"@.len() as int)
    } else {
        file
    }
}

/// Whether the location `file` spells the path `root` or a path below it.
pub open spec fn lies_below(file: Seq<char>, root: Seq<char>) -> bool {
    path_parts(root).is_prefix_of(path_parts(plain_path(file)))
}

/// Whether one of the places where `definition` is defined lies below
/// `root`.
pub open spec fn defined_below(definition: DefinitionView, root: Seq<char>) -> bool {
    exists|j: int|
        0 <= j < definition.defines.len() && lies_below(
            (#[trigger] definition.defines[j]).file,
            root,
        )
}

/// The definitions among `docs` that are defined below `root`, in their
/// order.
pub open spec fn defined_locally(docs: Seq<DefinitionView>, root: Seq<char>) -> Seq<
    DefinitionView,
>
    decreases docs.len(),
{
    if docs.len() == 0 {
        Seq::empty()
    } else if defined_below(docs.last(), root) {
        defined_locally(docs.drop_last(), root).push(docs.last())
    } else {
        defined_locally(docs.drop_last(), root)
    }
}

/// The location of the first place where a definition is defined, and
/// the empty location where it is defined nowhere.
pub open spec fn first_file(definition: DefinitionView) -> Seq<char> {
    if definition.defines.len() > 0 {
        definition.defines[0].file
    } else {
        Seq::empty()
    }
}

/// The start offset of the first place where a definition is defined, and
/// 0 where it is defined nowhere.
pub open spec fn first_start(definition: DefinitionView) -> u64 {
    if definition.defines.len() > 0 {
        definition.defines[0].start
    } else {
        0
    }
}

/// Definitions are ranked by the location of the first place where they
/// are defined, and those of one location by the start offset of that
/// place.
impl Ranked for Definition {
    open spec fn before(a: DefinitionView, b: DefinitionView) -> bool {
        if first_file(a) == first_file(b) {
            first_start(a) <= first_start(b)
        } else {
            text_le(first_file(a), first_file(b))
        }
    }

    proof fn lemma_before_total(a: DefinitionView, b: DefinitionView) {
        lemma_text_le_total(first_file(a), first_file(b));
    }

    proof fn lemma_before_transitive(a: DefinitionView, b: DefinitionView, c: DefinitionView) {
        let (fa, fb, fc) = (first_file(a), first_file(b), first_file(c));
        if fa == fb || fb == fc {
        } else {
            lemma_text_le_transitive(fa, fb, fc);
            if fa == fc {
                lemma_text_le_antisymmetric(fa, fb);
            }
        }
    }

    fn precedes(&self, other: &Self) -> (yes: bool) {
        let mine = first_file_chars(self);
        let theirs = first_file_chars(other);
        let le = chars_le(&mine, &theirs);
        if le && chars_le(&theirs, &mine) {
            proof {
                lemma_text_le_antisymmetric(mine@, theirs@);
            }
            first_start_of(self) <= first_start_of(other)
        } else {
            proof {
                crate::text::lemma_text_le_reflexive(mine@);
            }
            le
        }
    }
}

/// The characters of the location of the first place where a definition
/// is defined.
fn first_file_chars(definition: &Definition) -> (chars: Vec<char>)
    ensures
        chars@ == first_file(definition@),
{
    if definition.defines.len() > 0 {
        chars_of(definition.defines[0].file.as_str())
    } else {
        Vec::new()
    }
}

/// The start offset of the first place where a definition is defined.
fn first_start_of(definition: &Definition) -> (start: u64)
    ensures
        start == first_start(definition@),
{
    if definition.defines.len() > 0 {
        definition.defines[0].start
    } else {
        0
    }
}

/// The path that a location spells.
fn plain_path_of(file: &str) -> (path: String)
    ensures
        path@ == plain_path(file@),
{
    let chars = chars_of(file);
    let scheme = chars_of("file://");
    if scheme.len() > chars.len() {
        return file.to_owned();
    }
    let mut i: usize = 0;
    while i < scheme.len()
        invariant
            i <= scheme.len() <= chars.len(),
            chars@ == file@,
            scheme@ == "file://"@,
            forall|k: int| 0 <= k < i ==> chars@[k] == scheme@[k],
        decreases scheme.len() - i,
    {
        if chars[i] != scheme[i] {
            assert(file@.subrange(0, scheme@.len() as int)[i as int] != scheme@[i as int]);
            return file.to_owned();
        }
        i += 1;
    }
    assert(chars@.subrange(0, scheme@.len() as int) =~= scheme@);
    assert(file@.subrange(scheme@.len() as int, file@.len() as int) =~= file@.skip(
        scheme@.len() as int,
    ));
    file.substring_char(scheme.len(), chars.len()).to_owned()
}

/// Whether one of the places where `definition` is defined lies below the
/// path with the components `root`.
fn is_defined_below(
    definition: &Definition,
    root: &Vec<String>,
    Ghost(path): Ghost<Seq<char>>,
) -> (yes: bool)
    requires
        views_of(root@) == path_parts(path),
    ensures
        yes == defined_below(definition@, path),
{
    let mut i: usize = 0;
    while i < definition.defines.len()
        invariant
            i <= definition.defines.len(),
            views_of(root@) == path_parts(path),
            forall|k: int|
                0 <= k < i ==> !lies_below((#[trigger] definition@.defines[k]).file, path),
        decreases definition.defines.len() - i,
    {
        let file = plain_path_of(definition.defines[i].file.as_str());
        let parts = components_of(file.as_str());
        assert(definition@.defines[i as int] == definition.defines@[i as int]@);
        if starts_with(&parts, root) {
            return true;
        }
        i += 1;
    }
    false
}

/// Keeps the definitions that are defined below `path`, and puts them in
/// the order of the locations of their first places of definition, those
/// of one location in the order of the start offsets there.
///
/// A definition is defined below `path` where one of its places of
/// definition, read as a path (a leading `file://` left out), is `path`
/// or lies below it.
pub fn clean_docs(path: &str, docs: Vec<Definition>) -> (cleaned: Vec<Definition>)
    ensures
        views_of(cleaned@) == stable_sorted::<Definition>(
            defined_locally(views_of(docs@), path@),
        ),
{
    let root = components_of(path);
    let ghost all = views_of(docs@);
    let mut local: Vec<Definition> = Vec::new();
    assert(all.take(0) =~= Seq::<DefinitionView>::empty());
    assert(views_of(local@) =~= Seq::<DefinitionView>::empty());
    // Exclude types that weren't defined locally
    for definition in it: docs
        invariant
            it.seq() == docs@,
            all == views_of(docs@),
            views_of(root@) == path_parts(path@),
            views_of(local@) == defined_locally(all.take(it.index() as int), path@),
    {
        proof {
            assert(all.take(it.index() + 1).drop_last() =~= all.take(it.index() as int));
            assert(all.take(it.index() + 1).last() == definition@);
        }
        if is_defined_below(&definition, &root, Ghost(path@)) {
            let ghost before = views_of(local@);
            local.push(definition);
            assert(views_of(local@) =~= before.push(definition@));
        }
    }
    assert(all.take(docs@.len() as int) =~= all);
    // Sort by file and location
    stable_sort(local)
}

/// What `clean_docs` keeps: each kept definition is one of `docs` and is
/// defined below `root`, and the kept definitions stand in the order of
/// the locations of their first places of definition.
pub proof fn lemma_cleaned(docs: Seq<DefinitionView>, root: Seq<char>)
    ensures
        ordered::<Definition>(stable_sorted::<Definition>(defined_locally(docs, root))),
        forall|i: int|
            0 <= i < stable_sorted::<Definition>(defined_locally(docs, root)).len() ==> {
                let kept = #[trigger] stable_sorted::<Definition>(defined_locally(docs, root))[i];
                docs.contains(kept) && defined_below(kept, root)
            },
{
    broadcast use vstd::seq_lib::group_to_multiset_ensures;

    let local = defined_locally(docs, root);
    let sorted = stable_sorted::<Definition>(local);
    lemma_stable_sorted::<Definition>(local);
    lemma_defined_locally(docs, root);
    assert forall|i: int| 0 <= i < sorted.len() implies docs.contains(#[trigger] sorted[i])
        && defined_below(sorted[i], root) by {
        assert(sorted.to_multiset().count(sorted[i]) > 0);
        assert(local.to_multiset().count(sorted[i]) > 0);
        let k = choose|k: int| 0 <= k < local.len() && local[k] == sorted[i];
        assert(docs.contains(local[k]));
    }
}

/// Every definition that is defined locally is one of `docs` and is
/// defined below `root`.
pub proof fn lemma_defined_locally(docs: Seq<DefinitionView>, root: Seq<char>)
    ensures
        forall|k: int|
            0 <= k < defined_locally(docs, root).len() ==> docs.contains(
                #[trigger] defined_locally(docs, root)[k],
            ) && defined_below(defined_locally(docs, root)[k], root),
    decreases docs.len(),
{
    if docs.len() > 0 {
        let rest = docs.drop_last();
        lemma_defined_locally(rest, root);
        let done = defined_locally(rest, root);
        let out = defined_locally(docs, root);
        assert forall|k: int| 0 <= k < out.len() implies docs.contains(#[trigger] out[k])
            && defined_below(out[k], root) by {
            if k < done.len() {
                assert(out[k] == done[k]);
                assert(rest.contains(done[k]));
                let at = choose|at: int| 0 <= at < rest.len() && rest[at] == done[k];
                assert(docs[at] == done[k]);
            } else {
                assert(out[k] == docs[docs.len() - 1]);
            }
        }
    }
}

} // verus!
