//! Paths as text, with `/` between their components.

use vstd::prelude::*;

use crate::text::{
    append, is_literal, last_in_class, part, rfind_in_class, same, split, split_at_char, texts,
    CharClass,
};

verus! {

/// Whether a piece of a path is one of its components. Empty pieces never are,
/// and `.` is one only at the start of a relative path.
pub open spec fn counts(piece: Seq<char>, first: bool) -> bool {
    piece.len() > 0 && (first || piece != "."@)
}

/// The components among the first `n` pieces of a path.
pub open spec fn components_of(pieces: Seq<Seq<char>>, n: int) -> Seq<Seq<char>>
    decreases n,
{
    if n <= 0 {
        Seq::empty()
    } else {
        let before = components_of(pieces, n - 1);
        if counts(pieces[n - 1], n == 1) {
            before.push(pieces[n - 1])
        } else {
            before
        }
    }
}

/// The components of a path, without its root.
pub open spec fn components(path: Seq<char>) -> Seq<Seq<char>> {
    let pieces = split(path, '/');
    components_of(pieces, pieces.len() as int)
}

/// Whether a path starts at the root.
pub open spec fn is_absolute(path: Seq<char>) -> bool {
    path.len() > 0 && path[0] == '/'
}

/// Whether a component names something, unlike `.` and `..`.
pub open spec fn is_name(component: Seq<char>) -> bool {
    component != "."@ && component != ".."@
}

/// The component that stands `back` places before the last one, where it is a
/// name.
pub open spec fn name_back(path: Seq<char>, back: int) -> Option<Seq<char>> {
    let c = components(path);
    let i = c.len() - 1 - back;
    if 0 <= i < c.len() && is_name(c[i]) {
        Some(c[i])
    } else {
        None
    }
}

/// The last component of a path, where it is a name.
pub open spec fn file_name(path: Seq<char>) -> Option<Seq<char>> {
    name_back(path, 0)
}

/// Where a name is cut in two: at its last dot, unless that is the first
/// character.
pub open spec fn last_dot(name: Seq<char>) -> Option<int> {
    match last_in_class(name, CharClass::Only('.')) {
        Some(i) => if i > 0 {
            Some(i)
        } else {
            None
        },
        None => None,
    }
}

/// A name without its extension.
pub open spec fn stem_of(name: Seq<char>) -> Seq<char> {
    match last_dot(name) {
        Some(i) => name.subrange(0, i),
        None => name,
    }
}

/// The extension of a name.
pub open spec fn extension_of(name: Seq<char>) -> Option<Seq<char>> {
    match last_dot(name) {
        Some(i) => Some(name.subrange(i + 1, name.len() as int)),
        None => None,
    }
}

/// The last name of a path without its extension.
pub open spec fn file_stem(path: Seq<char>) -> Option<Seq<char>> {
    match file_name(path) {
        Some(name) => Some(stem_of(name)),
        None => None,
    }
}

/// The extension of the last name of a path.
pub open spec fn extension(path: Seq<char>) -> Option<Seq<char>> {
    match file_name(path) {
        Some(name) => extension_of(name),
        None => None,
    }
}

/// A path inside another. An absolute path stands for itself.
pub open spec fn join(base: Seq<char>, more: Seq<char>) -> Seq<char> {
    if is_absolute(more) || base.len() == 0 {
        more
    } else if base.last() == '/' {
        base + more
    } else {
        base.push('/') + more
    }
}

/// Whether two paths are the same, component by component.
pub open spec fn same_path(a: Seq<char>, b: Seq<char>) -> bool {
    is_absolute(a) == is_absolute(b) && components(a) == components(b)
}

/// An optional text as its characters.
pub open spec fn text_of(t: Option<Vec<char>>) -> Option<Seq<char>> {
    match t {
        Some(v) => Some(v@),
        None => None,
    }
}

/// The components of a path.
pub fn path_components(path: &[char]) -> (r: Vec<Vec<char>>)
    ensures
        texts(r@) == components(path@),
{
    let pieces: Vec<Vec<char>> = split_at_char(path, '/');
    let ghost all = texts(pieces@);
    let n: usize = pieces.len();
    let mut r: Vec<Vec<char>> = Vec::new();
    let mut i: usize = 0;
    assert(texts(r@) =~= components_of(all, 0));
    while i < n
        invariant
            i <= n,
            n == pieces@.len(),
            all == texts(pieces@),
            texts(r@) == components_of(all, i as int),
        decreases n - i,
    {
        let piece: &Vec<char> = &pieces[i];
        assert(all[i as int] == piece@);
        let dot: bool = is_literal(piece.as_slice(), ".");
        if piece.len() > 0 && (i == 0 || !dot) {
            let copy: Vec<char> = part(piece.as_slice(), 0, piece.len());
            assert(copy@ =~= piece@);
            let ghost before = r@;
            r.push(copy);
            assert(texts(r@) =~= texts(before).push(piece@));
        }
        i += 1;
    }
    r
}

/// The component `back` places before the last one, where it is a name.
pub fn path_name_back(path: &[char], back: usize) -> (r: Option<Vec<char>>)
    ensures
        text_of(r) == name_back(path@, back as int),
{
    let c: Vec<Vec<char>> = path_components(path);
    if back >= c.len() {
        return None;
    }
    let i: usize = c.len() - 1 - back;
    let name: &Vec<char> = &c[i];
    assert(components(path@)[i as int] == name@);
    if is_literal(name.as_slice(), ".") || is_literal(name.as_slice(), "..") {
        return None;
    }
    let copy: Vec<char> = part(name.as_slice(), 0, name.len());
    assert(copy@ =~= name@);
    Some(copy)
}

/// The last component of a path, where it is a name.
pub fn path_file_name(path: &[char]) -> (r: Option<Vec<char>>)
    ensures
        text_of(r) == file_name(path@),
{
    path_name_back(path, 0)
}

fn dot_of(name: &[char]) -> (r: Option<usize>)
    ensures
        match r {
            Some(i) => 0 < i < name@.len() && last_dot(name@) == Some(i as int),
            None => last_dot(name@) is None,
        },
{
    match rfind_in_class(name, CharClass::Only('.')) {
        Some(i) => {
            if i > 0 {
                Some(i)
            } else {
                None
            }
        },
        None => None,
    }
}

/// The last name of a path without its extension.
pub fn path_file_stem(path: &[char]) -> (r: Option<Vec<char>>)
    ensures
        text_of(r) == file_stem(path@),
{
    match path_file_name(path) {
        Some(name) => match dot_of(name.as_slice()) {
            Some(i) => Some(part(name.as_slice(), 0, i)),
            None => Some(name),
        },
        None => None,
    }
}

/// The extension of the last name of a path.
pub fn path_extension(path: &[char]) -> (r: Option<Vec<char>>)
    ensures
        text_of(r) == extension(path@),
{
    match path_file_name(path) {
        Some(name) => match dot_of(name.as_slice()) {
            Some(i) => {
                assert(i < name.len());
                Some(part(name.as_slice(), i + 1, name.len()))
            },
            None => None,
        },
        None => None,
    }
}

/// A path inside another.
pub fn path_join(base: &[char], more: &[char]) -> (r: Vec<char>)
    ensures
        r@ == join(base@, more@),
{
    let mut r: Vec<char> = Vec::new();
    let absolute: bool = more.len() > 0 && more[0] == '/';
    if !absolute && base.len() > 0 {
        append(&mut r, base);
        if base[base.len() - 1] != '/' {
            r.push('/');
        }
    }
    append(&mut r, more);
    assert(r@ =~= join(base@, more@));
    r
}

/// Whether two paths are the same, component by component.
pub fn paths_same(a: &[char], b: &[char]) -> (r: bool)
    ensures
        r == same_path(a@, b@),
{
    let a_absolute: bool = a.len() > 0 && a[0] == '/';
    let b_absolute: bool = b.len() > 0 && b[0] == '/';
    if a_absolute != b_absolute {
        return false;
    }
    let x: Vec<Vec<char>> = path_components(a);
    let y: Vec<Vec<char>> = path_components(b);
    let n: usize = x.len();
    if n != y.len() {
        assert(texts(x@).len() != texts(y@).len());
        return false;
    }
    let mut i: usize = 0;
    while i < n
        invariant
            i <= n,
            n == x@.len(),
            n == y@.len(),
            forall|k: int| 0 <= k < i ==> texts(x@)[k] == texts(y@)[k],
            texts(x@) == components(a@),
            texts(y@) == components(b@),
        decreases n - i,
    {
        assert(texts(x@)[i as int] == x@[i as int]@);
        assert(texts(y@)[i as int] == y@[i as int]@);
        if !same(x[i].as_slice(), y[i].as_slice()) {
            return false;
        }
        i += 1;
    }
    assert(texts(x@) =~= texts(y@));
    true
}

/// The stem and the extension of a name make it up again, with a dot between.
pub proof fn law_stem_and_extension_make_the_name(name: Seq<char>)
    ensures
        extension_of(name) matches Some(e) ==> stem_of(name) + seq!['.'] + e == name,
        extension_of(name) is None ==> stem_of(name) == name,
{
    lemma_last_in_class(name, CharClass::Only('.'));
    if let Some(i) = last_dot(name) {
        let e = name.subrange(i + 1, name.len() as int);
        assert(stem_of(name) + seq!['.'] + e =~= name);
    }
}

proof fn lemma_last_in_class(s: Seq<char>, class: CharClass)
    ensures
        last_in_class(s, class) matches Some(i) ==> 0 <= i < s.len() && class.has(s[i]),
    decreases s.len(),
{
    if s.len() > 0 {
        lemma_last_in_class(s.drop_last(), class);
    }
}

proof fn lemma_components_of_a_front(pieces: Seq<Seq<char>>, more: Seq<char>, n: int)
    requires
        0 <= n <= pieces.len(),
    ensures
        components_of(pieces.push(more), n) == components_of(pieces, n),
    decreases n,
{
    if n > 0 {
        lemma_components_of_a_front(pieces, more, n - 1);
        assert(pieces.push(more)[n - 1] == pieces[n - 1]);
    }
}

/// Behind a slash stands one more component. A slash at the end, or a dot alone,
/// adds none.
pub proof fn law_a_slash_sets_off_a_component(dir: Seq<char>, name: Seq<char>)
    requires
        forall|k: int| 0 <= k < name.len() ==> #[trigger] name[k] != '/',
    ensures
        name.len() > 0 && name != seq!['.'] ==> components(dir + seq!['/'] + name) == components(
            dir,
        ).push(name),
        name.len() == 0 || name == seq!['.'] ==> components(dir + seq!['/'] + name) == components(
            dir,
        ),
{
    reveal_strlit(".");
    assert("."@ =~= seq!['.']);
    let pieces = split(dir, '/');
    crate::text::law_split_pieces_make_the_text(dir, '/');
    crate::text::law_split_takes_off_the_last_piece(dir, name, '/');
    lemma_components_of_a_front(pieces, name, pieces.len() as int);
}

/// A path without a slash is its one component.
pub proof fn law_a_name_is_its_component(name: Seq<char>)
    requires
        name.len() > 0,
        forall|k: int| 0 <= k < name.len() ==> #[trigger] name[k] != '/',
    ensures
        components(name) == seq![name],
{
    crate::text::law_split_takes_off_the_first_piece(name, name, '/');
    reveal_with_fuel(components_of, 2);
    assert(split(name, '/')[0] == name);
    assert(Seq::empty().push(name) =~= seq![name]);
}

/// The name of a file is what stands behind its directory, however the two were
/// put together. The way up and the directory itself are no names.
pub proof fn law_a_file_is_named_behind_its_directory(dir: Seq<char>, name: Seq<char>)
    requires
        name.len() > 0,
        forall|k: int| 0 <= k < name.len() ==> #[trigger] name[k] != '/',
        name != seq!['.'],
    ensures
        name != seq!['.', '.'] ==> file_name(dir + seq!['/'] + name) == Some(name),
        name != seq!['.', '.'] ==> file_name(join(dir, name)) == Some(name),
        name == seq!['.', '.'] ==> file_name(dir + seq!['/'] + name) is None,
        join(dir, seq!['/'] + name) == seq!['/'] + name,
{
    reveal_strlit(".");
    reveal_strlit("..");
    assert("."@ =~= seq!['.']);
    assert(".."@ =~= seq!['.', '.']);
    law_a_slash_sets_off_a_component(dir, name);
    law_a_name_is_its_component(name);
    let whole = components(dir).push(name);
    assert(whole[whole.len() - 1] == name);
    assert(name[0] != '/');
    if dir.len() > 0 && dir.last() == '/' {
        let front = dir.drop_last();
        assert(dir + name =~= front + seq!['/'] + name);
        law_a_slash_sets_off_a_component(front, name);
        let c = components(front).push(name);
        assert(c[c.len() - 1] == name);
    } else if dir.len() > 0 {
        assert(dir.push('/') + name =~= dir + seq!['/'] + name);
    }
}

/// The extension is what stands behind the last dot of the name; a dot in front
/// sets none off.
pub proof fn law_the_last_dot_sets_off_the_extension(stem: Seq<char>, ext: Seq<char>)
    requires
        forall|k: int| 0 <= k < ext.len() ==> #[trigger] ext[k] != '.',
    ensures
        stem.len() > 0 ==> extension_of(stem + seq!['.'] + ext) == Some(ext),
        stem.len() > 0 ==> stem_of(stem + seq!['.'] + ext) == stem,
        extension_of(seq!['.'] + ext) is None,
        extension_of(ext) is None,
        stem_of(seq!['.'] + ext) == seq!['.'] + ext,
        stem_of(ext) == ext,
{
    let class = CharClass::Only('.');
    let name = stem + seq!['.'] + ext;
    let n = stem.len() as int;
    crate::text::law_search_back_ends_at_the_last(name, class);
    assert(name[n] == '.');
    assert forall|k: int| n < k < name.len() implies !class.has(#[trigger] name[k]) by {
        assert(name[k] == ext[k - n - 1]);
    }
    assert(last_in_class(name, class) == Some(n));
    assert(name.subrange(0, n) =~= stem);
    assert(name.subrange(n + 1, name.len() as int) =~= ext);
    let hidden = seq!['.'] + ext;
    crate::text::law_search_back_ends_at_the_last(hidden, class);
    assert forall|k: int| 0 < k < hidden.len() implies !class.has(#[trigger] hidden[k]) by {
        assert(hidden[k] == ext[k - 1]);
    }
    crate::text::law_search_back_ends_at_the_last(ext, class);
}

/// A file of a directory has the extension and the stem that its name has.
pub proof fn law_a_file_has_its_extension(dir: Seq<char>, stem: Seq<char>, ext: Seq<char>)
    requires
        stem.len() > 0,
        ext.len() > 0,
        forall|k: int| 0 <= k < stem.len() ==> #[trigger] stem[k] != '/',
        forall|k: int| 0 <= k < ext.len() ==> #[trigger] ext[k] != '/' && ext[k] != '.',
    ensures
        extension(dir + seq!['/'] + (stem + seq!['.'] + ext)) == Some(ext),
        file_stem(dir + seq!['/'] + (stem + seq!['.'] + ext)) == Some(stem),
        extension(stem + seq!['.'] + ext) == Some(ext),
{
    let name = stem + seq!['.'] + ext;
    let n = stem.len() as int;
    assert forall|k: int| 0 <= k < name.len() implies #[trigger] name[k] != '/' by {
        if k < n {
            assert(name[k] == stem[k]);
        } else if k > n {
            assert(name[k] == ext[k - n - 1]);
        }
    }
    assert(name.len() >= 3);
    law_a_file_is_named_behind_its_directory(dir, name);
    law_the_last_dot_sets_off_the_extension(stem, ext);
    law_a_name_is_its_component(name);
    reveal_strlit(".");
    reveal_strlit("..");
}

} // verus!
