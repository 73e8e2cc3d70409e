//! Slash-separated paths.

use vstd::prelude::*;

use crate::collections::{no_items, push_item};
use crate::order::{Ordered, Rank};
use crate::text::{
    chars_of, joined, no_text, replace_char, same, split, split_on, text_of, with_char,
};

verus! {

/// Whether a path starts at the root.
pub open spec fn absolute(path: Seq<char>) -> bool {
    path.len() > 0 && path[0] == '/'
}

/// Whether a piece names a component: it is not empty, and no dot behind the start.
pub open spec fn names_component(pieces: Seq<Seq<char>>, index: int) -> bool {
    pieces[index].len() > 0 && (index == 0 || pieces[index] != seq!['.'])
}

/// The components among the first pieces of a path.
pub open spec fn components(pieces: Seq<Seq<char>>, count: int) -> Seq<Seq<char>>
    decreases count,
{
    if count <= 0 {
        Seq::empty()
    } else if names_component(pieces, count - 1) {
        components(pieces, count - 1).push(pieces[count - 1])
    } else {
        components(pieces, count - 1)
    }
}

/// The components of a path.
pub open spec fn path_components(path: Seq<char>) -> Seq<Seq<char>> {
    let pieces = split_on(path, '/');
    components(pieces, pieces.len() as int)
}

/// The place of the first component at or behind a piece.
pub open spec fn next_component(pieces: Seq<Seq<char>>, from: int) -> int
    decreases pieces.len() - from,
{
    if from >= pieces.len() {
        pieces.len() as int
    } else if names_component(pieces, from) {
        from
    } else {
        next_component(pieces, from + 1)
    }
}

/// The place behind the last component between two pieces.
pub open spec fn component_end(pieces: Seq<Seq<char>>, from: int, to: int) -> int
    decreases to - from,
{
    if to <= from {
        from
    } else if names_component(pieces, to - 1) {
        to
    } else {
        component_end(pieces, from, to - 1)
    }
}

/// The place behind the first `count` components.
pub open spec fn behind_components(pieces: Seq<Seq<char>>, count: int) -> int
    decreases count,
{
    if count <= 0 {
        0
    } else {
        next_component(pieces, behind_components(pieces, count - 1)) + 1
    }
}

/// The text between the first component at or behind a piece and the last component.
pub open spec fn trimmed_rest(pieces: Seq<Seq<char>>, from: int) -> Seq<char> {
    let start = next_component(pieces, from);
    joined(pieces.subrange(start, component_end(pieces, start, pieces.len() as int)), seq!['/'])
}

/// The path up to its last component; of a path without components only the root is left.
pub open spec fn trimmed_path(path: Seq<char>) -> Seq<char> {
    let pieces = split_on(path, '/');
    let end = component_end(pieces, 0, pieces.len() as int);
    if end == 0 && absolute(path) {
        seq!['/']
    } else {
        joined(pieces.subrange(0, end), seq!['/'])
    }
}

/// What is left of a path below a base, where the components of the base are its first ones; below
/// an empty base that is the path itself.
pub open spec fn path_below(path: Seq<char>, base: Seq<char>) -> Option<Seq<char>> {
    let pieces = split_on(path, '/');
    let names = path_components(path);
    let base_names = path_components(base);
    if base.len() == 0 {
        Some(trimmed_path(path))
    } else if absolute(path) == absolute(base) && base_names.len() <= names.len() && names.take(
        base_names.len() as int,
    ) == base_names {
        Some(trimmed_rest(pieces, behind_components(pieces, base_names.len() as int)))
    } else {
        None
    }
}

/// The last component of a path, where it is a name.
pub open spec fn last_name(path: Seq<char>) -> Option<Seq<char>> {
    let names = path_components(path);
    if names.len() == 0 || names.last() == seq!['.'] || names.last() == seq!['.', '.'] {
        None
    } else {
        Some(names.last())
    }
}

/// Whether the last name of a path is not just an extension, and has this one.
pub open spec fn has_extension_of(path: Seq<char>, extension: Seq<char>) -> bool {
    match last_name(path) {
        Some(name) => name.len() > extension.len() + 1 && name.skip(
            name.len() - extension.len() - 1,
        ) == seq!['.'] + extension,
        None => false,
    }
}

/// The path without its last component; a path without components has no parent.
pub open spec fn parent_of(path: Seq<char>) -> Option<Seq<char>> {
    let pieces = split_on(path, '/');
    let last = component_end(pieces, 0, pieces.len() as int);
    if last == 0 {
        None
    } else {
        let end = component_end(pieces, 0, last - 1);
        if end == 0 {
            Some(
                if absolute(path) {
                    seq!['/']
                } else {
                    Seq::empty()
                },
            )
        } else {
            Some(joined(pieces.subrange(0, end), seq!['/']))
        }
    }
}

/// A path with slashes in place of backslashes.
pub open spec fn portable_path(path: Seq<char>) -> Seq<char> {
    with_char(path, '\\', '/')
}

fn is_absolute(path: &str) -> (result: bool)
    ensures
        result == absolute(path@),
{
    let chars = crate::text::chars_of(path);
    chars.len() > 0 && chars[0] == '/'
}

fn piece_is_component(pieces: &Vec<String>, index: usize) -> (result: bool)
    requires
        index < pieces.len(),
    ensures
        result == names_component(pieces.deep_view(), index as int),
{
    proof {
        assert(pieces.deep_view()[index as int] == pieces[index as int]@);
        reveal_strlit(".");
        assert("."@ =~= seq!['.']);
        reveal_strlit("");
    }
    if same(pieces[index].as_str(), "") {
        proof {
            assert(""@.len() == 0);
        }
        return false;
    }
    proof {
        if pieces[index as int]@.len() == 0 {
            assert(pieces[index as int]@ =~= ""@);
        }
    }
    index == 0 || !same(pieces[index].as_str(), ".")
}

/// Lists the components among the pieces of a path.
pub fn component_list(pieces: &Vec<String>) -> (names: Vec<String>)
    ensures
        names.deep_view() == components(pieces.deep_view(), pieces.len() as int),
{
    let ghost all = pieces.deep_view();
    let mut names: Vec<String> = Vec::new();
    let mut index: usize = 0;
    proof {
        assert(names.deep_view() =~= Seq::<Seq<char>>::empty());
    }
    while index < pieces.len()
        invariant
            all == pieces.deep_view(),
            index <= pieces.len(),
            names.deep_view() == components(all, index as int),
        decreases pieces.len() - index,
    {
        let ghost before = names.deep_view();
        if piece_is_component(pieces, index) {
            names.push(pieces[index].clone());
            proof {
                assert(all[index as int] == pieces[index as int]@);
                assert(names.deep_view() =~= before.push(all[index as int]));
            }
        }
        index = index + 1;
    }
    names
}

fn find_component(pieces: &Vec<String>, from: usize) -> (place: usize)
    requires
        from <= pieces.len(),
    ensures
        place == next_component(pieces.deep_view(), from as int),
        from <= place <= pieces.len(),
{
    let mut place: usize = from;
    while place < pieces.len()
        invariant_except_break
            from <= place <= pieces.len(),
            next_component(pieces.deep_view(), from as int) == next_component(
                pieces.deep_view(),
                place as int,
            ),
        ensures
            from <= place <= pieces.len(),
            place == next_component(pieces.deep_view(), from as int),
        decreases pieces.len() - place,
    {
        if piece_is_component(pieces, place) {
            break;
        }
        place = place + 1;
    }
    place
}

fn find_component_end(pieces: &Vec<String>, from: usize, to: usize) -> (place: usize)
    requires
        from <= to <= pieces.len(),
    ensures
        place == component_end(pieces.deep_view(), from as int, to as int),
        from <= place <= to,
{
    let mut place: usize = to;
    while place > from
        invariant_except_break
            from <= place <= to <= pieces.len(),
            component_end(pieces.deep_view(), from as int, to as int) == component_end(
                pieces.deep_view(),
                from as int,
                place as int,
            ),
        ensures
            from <= place <= to,
            place == component_end(pieces.deep_view(), from as int, to as int),
        decreases place,
    {
        if piece_is_component(pieces, place - 1) {
            break;
        }
        place = place - 1;
    }
    place
}

fn join_pieces(pieces: &Vec<String>, from: usize, to: usize) -> (text: String)
    requires
        from <= to <= pieces.len(),
    ensures
        text@ == joined(pieces.deep_view().subrange(from as int, to as int), seq!['/']),
{
    let mut part: Vec<String> = Vec::new();
    let mut index: usize = from;
    while index < to
        invariant
            from <= index <= to <= pieces.len(),
            part.deep_view() =~= pieces.deep_view().subrange(from as int, index as int),
        decreases to - index,
    {
        crate::collections::push_item(&mut part, pieces[index].clone());
        index = index + 1;
    }
    proof {
        reveal_strlit("/");
        assert("/"@ =~= seq!['/']);
    }
    crate::text::join(&part, "/")
}

/// Components are found one after another up to the end of the pieces.
proof fn lemma_behind_components(pieces: Seq<Seq<char>>, count: int)
    requires
        0 <= count <= components(pieces, pieces.len() as int).len(),
    ensures
        0 <= behind_components(pieces, count) <= pieces.len(),
        components(pieces, behind_components(pieces, count)).len() == count,
    decreases count,
{
    if count > 0 {
        lemma_behind_components(pieces, count - 1);
        let before = behind_components(pieces, count - 1);
        lemma_next_component(pieces, before);
    }
}

proof fn lemma_next_component(pieces: Seq<Seq<char>>, from: int)
    requires
        0 <= from <= pieces.len(),
        components(pieces, from).len() < components(pieces, pieces.len() as int).len(),
    ensures
        from <= next_component(pieces, from) < pieces.len(),
        components(pieces, next_component(pieces, from) + 1).len() == components(pieces, from).len()
            + 1,
    decreases pieces.len() - from,
{
    if from < pieces.len() && !names_component(pieces, from) {
        lemma_next_component(pieces, from + 1);
    }
}

/// What is left of a path below a base.
pub fn strip_base(path: &str, base: &str) -> (rest: Option<String>)
    ensures
        rest.deep_view() == path_below(path@, base@),
{
    let pieces = split(path, '/');
    if chars_of(base).len() == 0 {
        let end = find_component_end(&pieces, 0, pieces.len());
        if end == 0 && is_absolute(path) {
            proof {
                reveal_strlit("/");
                assert("/"@ =~= seq!['/']);
            }
            return Some("/".to_owned());
        }
        return Some(join_pieces(&pieces, 0, end));
    }
    let names = component_list(&pieces);
    let base_pieces = split(base, '/');
    let base_names = component_list(&base_pieces);
    if is_absolute(path) != is_absolute(base) || base_names.len() > names.len() {
        return None;
    }
    let mut index: usize = 0;
    while index < base_names.len()
        invariant
            base@.len() > 0,
            names.deep_view() == path_components(path@),
            base_names.deep_view() == path_components(base@),
            index <= base_names.len() <= names.len(),
            forall|i: int|
                0 <= i < index ==> #[trigger] names.deep_view()[i] == base_names.deep_view()[i],
        decreases base_names.len() - index,
    {
        proof {
            assert(names.deep_view()[index as int] == names[index as int]@);
            assert(base_names.deep_view()[index as int] == base_names[index as int]@);
        }
        if !same(names[index].as_str(), base_names[index].as_str()) {
            proof {
                assert(path_components(path@).take(base_names.len() as int)[index as int]
                    != path_components(base@)[index as int]);
            }
            return None;
        }
        index = index + 1;
    }
    proof {
        assert(path_components(path@).take(base_names.len() as int) =~= path_components(base@));
    }
    let ghost all = pieces.deep_view();
    let mut place: usize = 0;
    let mut found: usize = 0;
    while found < base_names.len()
        invariant
            all == pieces.deep_view(),
            base_names.len() <= components(all, all.len() as int).len(),
            found <= base_names.len(),
            place <= pieces.len(),
            place == behind_components(all, found as int),
        decreases base_names.len() - found,
    {
        proof {
            lemma_behind_components(all, found as int);
            lemma_next_component(all, place as int);
        }
        place = find_component(&pieces, place) + 1;
        found = found + 1;
    }
    let start = find_component(&pieces, place);
    let end = find_component_end(&pieces, start, pieces.len());
    Some(join_pieces(&pieces, start, end))
}

/// The last component of a path, where it is a name.
pub fn file_name(path: &str) -> (name: Option<String>)
    ensures
        name.deep_view() == last_name(path@),
{
    let pieces = split(path, '/');
    let names = component_list(&pieces);
    if names.len() == 0 {
        return None;
    }
    let last = names[names.len() - 1].clone();
    proof {
        assert(names.deep_view().last() == last@);
        reveal_strlit(".");
        reveal_strlit("..");
        assert("."@ =~= seq!['.']);
        assert(".."@ =~= seq!['.', '.']);
    }
    if same(last.as_str(), ".") || same(last.as_str(), "..") {
        None
    } else {
        Some(last)
    }
}

/// Whether the last name of a path has an extension.
pub fn has_extension(path: &str, extension: &str) -> (result: bool)
    ensures
        result == has_extension_of(path@, extension@),
{
    match file_name(path) {
        None => false,
        Some(name) => {
            let chars = crate::text::chars_of(name.as_str());
            let wanted = crate::text::chars_of(extension);
            if chars.len() <= wanted.len() || chars.len() - wanted.len() <= 1 {
                return false;
            }
            let start: usize = chars.len() - wanted.len() - 1;
            let ending = crate::text::text_of(&chars, start, chars.len());
            let mut suffix = String::new();
            suffix.push('.');
            suffix.append(extension);
            proof {
                assert(suffix@ =~= seq!['.'] + extension@);
                assert(name@.skip(start as int) =~= ending@);
            }
            same(ending.as_str(), suffix.as_str())
        },
    }
}

/// The path without its last component.
pub fn parent(path: &str) -> (parent: Option<String>)
    ensures
        parent.deep_view() == parent_of(path@),
{
    let pieces = split(path, '/');
    let last = find_component_end(&pieces, 0, pieces.len());
    if last == 0 {
        return None;
    }
    let end = find_component_end(&pieces, 0, last - 1);
    if end == 0 {
        let mut text = String::new();
        if is_absolute(path) {
            text.push('/');
        }
        proof {
            assert(text@ =~= if absolute(path@) {
                seq!['/']
            } else {
                Seq::empty()
            });
        }
        Some(text)
    } else {
        Some(join_pieces(&pieces, 0, end))
    }
}

/// The directory that holds a path: a directory holds itself, as does a path without a parent.
pub fn containing_directory(path: &str, is_directory: bool) -> (directory: String)
    ensures
        directory@ == match parent_of(path@) {
            Some(parent) if !is_directory => parent,
            _ => path@,
        },
{
    if is_directory {
        path.to_owned()
    } else {
        match parent(path) {
            Some(parent) => parent,
            None => path.to_owned(),
        }
    }
}

/// A path with slashes in place of backslashes.
pub fn portable(path: &str) -> (text: String)
    ensures
        text@ == portable_path(path@),
{
    replace_char(path, '\\', '/')
}

/// The place behind the last dot of a name, or zero.
pub open spec fn behind_dot(name: Seq<char>) -> int
    decreases name.len(),
{
    if name.len() == 0 {
        0
    } else if name.last() == '.' {
        name.len() as int
    } else {
        behind_dot(name.drop_last())
    }
}

/// The last name of a path without its extension.
pub open spec fn stem_of(path: Seq<char>) -> Option<Seq<char>> {
    match last_name(path) {
        None => None,
        Some(name) => if behind_dot(name) <= 1 {
            Some(name)
        } else {
            Some(name.take(behind_dot(name) - 1))
        },
    }
}

/// The last name of a path without its extension.
pub fn file_stem(path: &str) -> (stem: Option<String>)
    ensures
        stem.deep_view() == stem_of(path@),
{
    let name = match file_name(path) {
        None => {
            return None;
        },
        Some(name) => name,
    };
    let chars = chars_of(name.as_str());
    let mut count: usize = chars.len();
    proof {
        assert(name@.take(name@.len() as int) =~= name@);
    }
    while count > 0
        invariant
            chars@ == name@,
            count <= chars.len(),
            Some(name@) == last_name(path@),
            behind_dot(name@) == behind_dot(name@.take(count as int)),
        decreases count,
    {
        proof {
            assert(name@.take(count as int).drop_last() =~= name@.take(count as int - 1));
            assert(name@.take(count as int).last() == chars[count as int - 1]);
        }
        if chars[count - 1] == '.' {
            if count == 1 {
                return Some(name);
            }
            let stem = text_of(&chars, 0, count - 1);
            proof {
                assert(stem@ =~= name@.take(count as int - 1));
            }
            return Some(stem);
        }
        count = count - 1;
    }
    Some(name)
}

/// A path taken from a directory on.
pub open spec fn path_from(directory: Seq<char>, path: Seq<char>) -> Seq<char> {
    if absolute(path) || directory.len() == 0 {
        path
    } else if directory.last() == '/' {
        directory + path
    } else {
        directory + seq!['/'] + path
    }
}

/// Takes a path from a directory on.
pub fn resolve(directory: &str, path: &str) -> (resolved: String)
    ensures
        resolved@ == path_from(directory@, path@),
{
    let chars = chars_of(path);
    let ahead = chars_of(directory);
    if (chars.len() > 0 && chars[0] == '/') || ahead.len() == 0 {
        return path.to_owned();
    }
    let mut resolved = directory.to_owned();
    if ahead[ahead.len() - 1] != '/' {
        resolved.push('/');
        proof {
            assert(resolved@ =~= directory@ + seq!['/']);
        }
    }
    resolved.append(path);
    resolved
}

/// How a component of a path counts in the order of paths: the directory itself comes before its
/// parent, and that before all names.
pub open spec fn component_kind(name: Seq<char>) -> usize {
    if name == seq!['.'] {
        1
    } else if name == seq!['.', '.'] {
        2
    } else {
        3
    }
}

/// What paths are compared and ordered by.
pub type PathKey = Vec<(usize, String)>;

/// What paths are ordered by: the components one by one, the root before all others.
pub open spec fn path_key(path: Seq<char>) -> Seq<(usize, Seq<char>)> {
    let names = path_components(path);
    let root = if absolute(path) {
        seq![(0usize, Seq::<char>::empty())]
    } else {
        Seq::empty()
    };
    root + Seq::new(names.len(), |i: int| (component_kind(names[i]), names[i]))
}

/// Lists what paths are ordered by.
pub fn list_path_key(path: &str) -> (key: PathKey)
    ensures
        key.deep_view() == path_key(path@),
{
    let names = component_list(&split(path, '/'));
    let ghost all = names.deep_view();
    let ghost rest = Seq::new(all.len(), |i: int| (component_kind(all[i]), all[i]));
    let mut key: Vec<(usize, String)> = no_items();
    if is_absolute(path) {
        push_item(&mut key, (0, no_text()));
    }
    let ghost root = key.deep_view();
    let mut at: usize = 0;
    proof {
        assert(all == path_components(path@));
        assert(root + rest =~= path_key(path@));
        assert(rest.take(0) =~= Seq::<(usize, Seq<char>)>::empty());
        assert(root + rest.take(0) =~= root);
        reveal_strlit(".");
        reveal_strlit("..");
        assert("."@ =~= seq!['.']);
        assert(".."@ =~= seq!['.', '.']);
    }
    while at < names.len()
        invariant
            all == names.deep_view(),
            rest == Seq::new(all.len(), |i: int| (component_kind(all[i]), all[i])),
            at <= all.len(),
            key.deep_view() == root + rest.take(at as int),
            "."@ == seq!['.'],
            ".."@ == seq!['.', '.'],
        decreases all.len() - at,
    {
        proof {
            assert(all[at as int] == names[at as int]@);
            assert(root + rest.take(at as int + 1) =~= (root + rest.take(at as int)).push(
                (component_kind(all[at as int]), all[at as int]),
            ));
        }
        let kind: usize = if same(names[at].as_str(), ".") {
            1
        } else if same(names[at].as_str(), "..") {
            2
        } else {
            3
        };
        push_item(&mut key, (kind, names[at].clone()));
        at = at + 1;
    }
    proof {
        assert(rest.take(all.len() as int) =~= rest);
    }
    key
}

/// Whether two paths are equal: component by component, however they are written.
pub open spec fn same_path(a: Seq<char>, b: Seq<char>) -> bool {
    path_key(a) == path_key(b)
}

/// Compares two paths by what they are ordered by.
pub fn same_key(left: &PathKey, right: &PathKey) -> (result: bool)
    ensures
        result == (left.deep_view() == right.deep_view()),
{
    proof {
        PathKey::irreflexive(left.deep_view());
    }
    match left.rank(right) {
        Rank::Equal => true,
        _ => false,
    }
}

/// Copies what a path is compared by.
pub fn copy_key(key: &PathKey) -> (copy: PathKey)
    ensures
        copy.deep_view() == key.deep_view(),
{
    let mut copy: PathKey = no_items();
    let mut at: usize = 0;
    while at < key.len()
        invariant
            at <= key.len(),
            copy.deep_view() =~= key.deep_view().take(at as int),
        decreases key.len() - at,
    {
        proof {
            assert(key.deep_view()[at as int] == key[at as int].deep_view());
        }
        push_item(&mut copy, (key[at].0, key[at].1.clone()));
        at = at + 1;
    }
    proof {
        assert(key.deep_view().take(at as int) =~= key.deep_view());
    }
    copy
}

/// Whether two paths are equal.
pub fn paths_match(left: &str, right: &str) -> (result: bool)
    ensures
        result == same_path(left@, right@),
{
    same_key(&list_path_key(left), &list_path_key(right))
}

} // verus!
