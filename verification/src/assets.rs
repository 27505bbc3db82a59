//! Which files of a directory can be opened, and in what order they are listed.
//!
//! A file is known by the bytes of its name.
use vstd::prelude::*;

verus! {

/// What a directory holds.
pub struct Entry {
    pub name: Vec<u8>,
    pub is_file: bool,
}

/// The byte of a dot.
pub const DOT: u8 = 46;

/// A byte as a small letter, if it is a letter.
#[verifier::allow_in_spec]
pub fn lowered(b: u8) -> u8
    returns
        (if 65 <= b && b <= 90 { (b + 32) as u8 } else { b }),
{
    if 65 <= b && b <= 90 {
        b + 32
    } else {
        b
    }
}

/// Whether two words are the same but for the size of letters.
pub open spec fn same_word(a: Seq<u8>, b: Seq<u8>) -> bool {
    a.len() == b.len() && forall|i: int| 0 <= i < a.len() ==> lowered(#[trigger] a[i]) == lowered(b[i])
}

/// Whether the extension of a name starts at a place: behind its last dot, which
/// is not the first byte.
pub open spec fn is_extension_at(name: Seq<u8>, start: int) -> bool {
    &&& 2 <= start <= name.len()
    &&& name[start - 1] == DOT
    &&& forall|i: int| start <= i < name.len() ==> name[i] != DOT
}

/// Whether the extension of a name is a word, in small or capital letters.
pub open spec fn has_extension(name: Seq<u8>, ext: Seq<u8>) -> bool {
    exists|start: int| #[trigger]
        is_extension_at(name, start) && same_word(name.subrange(start, name.len() as int), ext)
}

/// Whether an entry is a file whose extension is one of some words.
pub open spec fn is_wanted(e: Entry, exts: Seq<Vec<u8>>) -> bool {
    e.is_file && exists|i: int| 0 <= i < exts.len() && has_extension(e.name@, #[trigger] exts[i]@)
}

/// The names of the wanted entries, in the order they are found.
pub open spec fn wanted_names(entries: Seq<Entry>, exts: Seq<Vec<u8>>) -> Seq<Seq<u8>>
    decreases entries.len(),
{
    if entries.len() == 0 {
        Seq::empty()
    } else {
        let before = wanted_names(entries.drop_last(), exts);
        if is_wanted(entries.last(), exts) {
            before.push(entries.last().name@)
        } else {
            before
        }
    }
}

/// Whether a name does not come after another: bytes are compared in order, and
/// a name comes before what it begins.
pub open spec fn name_le(a: Seq<u8>, b: Seq<u8>) -> bool
    decreases a.len(),
{
    if a.len() == 0 {
        true
    } else if b.len() == 0 {
        false
    } else if a[0] != b[0] {
        a[0] < b[0]
    } else {
        name_le(a.drop_first(), b.drop_first())
    }
}

/// Whether names are in order.
pub open spec fn in_order(names: Seq<Seq<u8>>) -> bool {
    forall|i: int, j: int| 0 <= i < j < names.len() ==> name_le(#[trigger] names[i], #[trigger] names[j])
}

/// The bytes of some names.
pub open spec fn bytes_of(names: Seq<Vec<u8>>) -> Seq<Seq<u8>> {
    names.map_values(|n: Vec<u8>| n@)
}

/// Where the extension of a name starts.
fn find_extension(name: &Vec<u8>) -> (r: Option<usize>)
    ensures
        match r {
            Some(s) => is_extension_at(name@, s as int),
            None => forall|s: int| !is_extension_at(name@, s),
        },
{
    let mut i: usize = name.len();
    while i > 0
        invariant
            i <= name.len(),
            forall|j: int| i <= j < name.len() ==> name@[j] != DOT,
        decreases i,
    {
        if name[i - 1] == DOT {
            if i == 1 {
                return None;
            }
            return Some(i);
        }
        i = i - 1;
    }
    None
}

/// Whether the end of a name is a word.
fn ends_in(name: &Vec<u8>, start: usize, ext: &Vec<u8>) -> (r: bool)
    requires
        start <= name.len(),
    ensures
        r == same_word(name@.subrange(start as int, name.len() as int), ext@),
{
    let ghost tail = name@.subrange(start as int, name.len() as int);
    if name.len() - start != ext.len() {
        return false;
    }
    let mut i: usize = 0;
    while i < ext.len()
        invariant
            i <= ext.len(),
            start + ext.len() == name.len(),
            tail == name@.subrange(start as int, name.len() as int),
            forall|j: int| 0 <= j < i ==> lowered(#[trigger] tail[j]) == lowered(ext@[j]),
        decreases ext.len() - i,
    {
        if lowered(name[start + i]) != lowered(ext[i]) {
            assert(lowered(tail[i as int]) != lowered(ext@[i as int]));
            return false;
        }
        i = i + 1;
    }
    true
}

/// A name has one extension at most.
proof fn lemma_one_extension(name: Seq<u8>, a: int, b: int)
    requires
        is_extension_at(name, a),
        is_extension_at(name, b),
    ensures
        a == b,
{
    if a < b {
        assert(name[b - 1] != DOT);
    }
    if b < a {
        assert(name[a - 1] != DOT);
    }
}

/// Whether an entry is wanted.
fn check_entry(e: &Entry, exts: &Vec<Vec<u8>>) -> (r: bool)
    ensures
        r == is_wanted(*e, exts@),
{
    if !e.is_file {
        return false;
    }
    let start: usize = match find_extension(&e.name) {
        Some(s) => s,
        None => {
            return false;
        },
    };
    let mut i: usize = 0;
    while i < exts.len()
        invariant
            i <= exts.len(),
            is_extension_at(e.name@, start as int),
            forall|j: int| 0 <= j < i ==> !has_extension(e.name@, #[trigger] exts@[j]@),
        decreases exts.len() - i,
    {
        if ends_in(&e.name, start, &exts[i]) {
            assert(has_extension(e.name@, exts@[i as int]@));
            return e.is_file;
        }
        proof {
            if has_extension(e.name@, exts@[i as int]@) {
                let s = choose|s: int| #[trigger]
                    is_extension_at(e.name@, s) && same_word(
                        e.name@.subrange(s, e.name@.len() as int),
                        exts@[i as int]@,
                    );
                lemma_one_extension(e.name@, s, start as int);
            }
        }
        i = i + 1;
    }
    false
}

/// Of two names one does not come after the other.
proof fn lemma_name_total(a: Seq<u8>, b: Seq<u8>)
    ensures
        name_le(a, b) || name_le(b, a),
    decreases a.len(),
{
    if a.len() > 0 && b.len() > 0 && a[0] == b[0] {
        lemma_name_total(a.drop_first(), b.drop_first());
    }
}

/// The order of names carries over.
proof fn lemma_name_transitive(a: Seq<u8>, b: Seq<u8>, c: Seq<u8>)
    requires
        name_le(a, b),
        name_le(b, c),
    ensures
        name_le(a, c),
    decreases a.len(),
{
    if a.len() > 0 && b.len() > 0 && c.len() > 0 && a[0] == b[0] && b[0] == c[0] {
        lemma_name_transitive(a.drop_first(), b.drop_first(), c.drop_first());
    }
}

/// Whether a name does not come after another.
fn is_name_le(a: &Vec<u8>, b: &Vec<u8>) -> (r: bool)
    ensures
        r == name_le(a@, b@),
{
    let mut i: usize = 0;
    assert(a@.skip(0) =~= a@);
    assert(b@.skip(0) =~= b@);
    while i < a.len() && i < b.len()
        invariant
            i <= a.len(),
            i <= b.len(),
            name_le(a@, b@) == name_le(a@.skip(i as int), b@.skip(i as int)),
        decreases a.len() - i,
    {
        assert(a@.skip(i as int).drop_first() =~= a@.skip(i + 1));
        assert(b@.skip(i as int).drop_first() =~= b@.skip(i + 1));
        if a[i] != b[i] {
            return a[i] < b[i];
        }
        i = i + 1;
    }
    i == a.len()
}

/// A copy of a name.
fn copy_name(name: &Vec<u8>) -> (r: Vec<u8>)
    ensures
        r@ == name@,
{
    let mut out: Vec<u8> = Vec::new();
    let mut i: usize = 0;
    while i < name.len()
        invariant
            i <= name.len(),
            out@ == name@.take(i as int),
        decreases name.len() - i,
    {
        out.push(name[i]);
        i = i + 1;
        assert(out@ =~= name@.take(i as int));
    }
    assert(out@ =~= name@);
    out
}

/// Puts a name where it belongs among names that are in order.
fn insert_name(names: &mut Vec<Vec<u8>>, name: Vec<u8>)
    requires
        in_order(bytes_of(old(names)@)),
    ensures
        in_order(bytes_of(final(names)@)),
        bytes_of(final(names)@).to_multiset() == bytes_of(old(names)@).push(name@).to_multiset(),
{
    let ghost before = bytes_of(names@);
    let mut i: usize = names.len();
    while i > 0 && !is_name_le(&names[i - 1], &name)
        invariant
            i <= names.len(),
            before == bytes_of(names@),
            in_order(before),
            forall|j: int| i <= j < names.len() ==> name_le(name@, #[trigger] before[j]),
        decreases i,
    {
        proof {
            lemma_name_total(before[i - 1], name@);
        }
        i = i - 1;
    }
    let ghost bytes = name@;
    proof {
        assert forall|j: int| 0 <= j < i implies name_le(#[trigger] before[j], bytes) by {
            if j < i - 1 {
                lemma_name_transitive(before[j], before[i - 1], bytes);
            }
        }
    }
    names.insert(i, name);
    proof {
        let after = bytes_of(names@);
        assert(after =~= before.insert(i as int, bytes));
        before.to_multiset_ensures();
        vstd::seq_lib::to_multiset_insert(before, i as int, bytes);
        assert(after.to_multiset() =~= before.push(bytes).to_multiset());
    }
}

/// The names of the files whose extension is one of some words, in small or
/// capital letters, in order.
pub fn list_by_ext(entries: &Vec<Entry>, exts: &Vec<Vec<u8>>) -> (r: Vec<Vec<u8>>)
    ensures
        in_order(bytes_of(r@)),
        bytes_of(r@).to_multiset() == wanted_names(entries@, exts@).to_multiset(),
{
    let mut names: Vec<Vec<u8>> = Vec::new();
    let mut i: usize = 0;
    assert(bytes_of(names@) =~= Seq::<Seq<u8>>::empty());
    while i < entries.len()
        invariant
            i <= entries.len(),
            in_order(bytes_of(names@)),
            bytes_of(names@).to_multiset() == wanted_names(entries@.take(i as int), exts@).to_multiset(),
        decreases entries.len() - i,
    {
        assert(entries@.take(i + 1).drop_last() =~= entries@.take(i as int));
        if check_entry(&entries[i], exts) {
            let name = copy_name(&entries[i].name);
            let ghost bytes = name@;
            let ghost before = bytes_of(names@);
            let ghost wanted = wanted_names(entries@.take(i as int), exts@);
            insert_name(&mut names, name);
            proof {
                before.to_multiset_ensures();
                wanted.to_multiset_ensures();
                assert(before.push(bytes).to_multiset() =~= wanted.push(bytes).to_multiset());
            }
        }
        i = i + 1;
    }
    assert(entries@.take(i as int) =~= entries@);
    names
}

/// The word "glb".
pub open spec fn glb() -> Seq<u8> {
    seq![103u8, 108u8, 98u8]
}

/// The word "gltf".
pub open spec fn gltf() -> Seq<u8> {
    seq![103u8, 108u8, 116u8, 102u8]
}

/// The word "hdr".
pub open spec fn hdr() -> Seq<u8> {
    seq![104u8, 100u8, 114u8]
}

/// Whether an entry is a scene.
pub open spec fn is_scene(e: Entry) -> bool {
    e.is_file && (has_extension(e.name@, glb()) || has_extension(e.name@, gltf()))
}

/// Whether an entry is an environment.
pub open spec fn is_hdri(e: Entry) -> bool {
    e.is_file && has_extension(e.name@, hdr())
}

/// The names of some entries.
pub open spec fn names_where(entries: Seq<Entry>, p: spec_fn(Entry) -> bool) -> Seq<Seq<u8>>
    decreases entries.len(),
{
    if entries.len() == 0 {
        Seq::empty()
    } else {
        let before = names_where(entries.drop_last(), p);
        if p(entries.last()) {
            before.push(entries.last().name@)
        } else {
            before
        }
    }
}

/// Names that are wanted for the same reason are the same.
proof fn lemma_wanted_names(entries: Seq<Entry>, exts: Seq<Vec<u8>>, p: spec_fn(Entry) -> bool)
    requires
        forall|e: Entry| #[trigger] p(e) == is_wanted(e, exts),
    ensures
        wanted_names(entries, exts) == names_where(entries, p),
    decreases entries.len(),
{
    if entries.len() > 0 {
        lemma_wanted_names(entries.drop_last(), exts, p);
        assert(p(entries.last()) == is_wanted(entries.last(), exts));
    }
}

/// The names of the scenes (.glb or .gltf files) of a directory, in order.
pub fn list_assets(entries: &Vec<Entry>) -> (r: Vec<Vec<u8>>)
    ensures
        in_order(bytes_of(r@)),
        bytes_of(r@).to_multiset() == names_where(entries@, |e: Entry| is_scene(e)).to_multiset(),
{
    let exts: Vec<Vec<u8>> = vec![vec![103, 108, 98], vec![103, 108, 116, 102]];
    proof {
        assert(exts@[0]@ =~= glb());
        assert(exts@[1]@ =~= gltf());
        let p = |e: Entry| is_scene(e);
        assert forall|e: Entry| #[trigger] p(e) == is_wanted(e, exts@) by {
            if is_scene(e) {
                if has_extension(e.name@, glb()) {
                    assert(has_extension(e.name@, exts@[0]@));
                } else {
                    assert(has_extension(e.name@, exts@[1]@));
                }
            }
        }
        lemma_wanted_names(entries@, exts@, p);
    }
    list_by_ext(entries, &exts)
}

/// The names of the panoramas (.hdr files) of a directory, in order.
pub fn list_hdris(entries: &Vec<Entry>) -> (r: Vec<Vec<u8>>)
    ensures
        in_order(bytes_of(r@)),
        bytes_of(r@).to_multiset() == names_where(entries@, |e: Entry| is_hdri(e)).to_multiset(),
{
    let exts: Vec<Vec<u8>> = vec![vec![104, 100, 114]];
    proof {
        assert(exts@[0]@ =~= hdr());
        let p = |e: Entry| is_hdri(e);
        assert forall|e: Entry| #[trigger] p(e) == is_wanted(e, exts@) by {
            if is_hdri(e) {
                assert(has_extension(e.name@, exts@[0]@));
            }
        }
        lemma_wanted_names(entries@, exts@, p);
    }
    list_by_ext(entries, &exts)
}

/// Names are in a total order, so there is only one way to list them.
pub proof fn law_names_totally_ordered(a: Seq<u8>, b: Seq<u8>, c: Seq<u8>)
    ensures
        name_le(a, a),
        name_le(a, b) || name_le(b, a),
        name_le(a, b) && name_le(b, a) ==> a == b,
        name_le(a, b) && name_le(b, c) ==> name_le(a, c),
    decreases a.len(),
{
    lemma_name_total(a, a);
    lemma_name_total(a, b);
    if name_le(a, b) && name_le(b, c) {
        lemma_name_transitive(a, b, c);
    }
    if name_le(a, b) && name_le(b, a) {
        if a.len() > 0 && b.len() > 0 {
            law_names_totally_ordered(a.drop_first(), b.drop_first(), c);
            assert(a =~= seq![a[0]] + a.drop_first());
            assert(b =~= seq![b[0]] + b.drop_first());
        } else {
            assert(a =~= b);
        }
    }
}

/// A hidden file, whose only dot comes first, has no extension.
pub proof fn law_hidden_files_have_no_extension(name: Seq<u8>, ext: Seq<u8>)
    requires
        forall|i: int| 0 < i < name.len() ==> name[i] != DOT,
    ensures
        !has_extension(name, ext),
{
}

} // verus!
