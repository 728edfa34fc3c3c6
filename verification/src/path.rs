//! Virtual paths: `/`-separated names inside the embedded namespace.
//!
//! A path is text that is read as a sequence of components:
//!
//! * a `/` at the very start is the root;
//! * a `.` that is the whole first name of a path without a root stands for
//!   the directory the path starts from, and is a component;
//! * every other name between separators is a component, except the empty
//!   name (two separators in a row, or a separator at the end) and the name
//!   `.`, which name nothing.
//!
//! Two texts with the same components are the same path: `a//b`, `a/./b`
//! and `a/b/` are all the path `a/b`. The text in which a path has one
//! separator between two components and nothing else is its plain form, and
//! stands for the path wherever paths are compared.
//!
//! Nothing here refers to the file system of the machine, and `\` is a
//! character like any other.

use vstd::prelude::*;
use vstd::string::{StrSliceExecFns, StringExecFns};

verus! {

/// The character that separates the names of a virtual path.
pub const SEPARATOR: char = '/';

/// The character that, as a whole name, names nothing.
pub const DOT: char = '.';

/// How many characters stand in front of the body of a path: one where the
/// path starts with the root or with a `.` that is a component, else none.
pub open spec fn head_len(path: Seq<char>) -> int {
    if path.len() > 0 && (path[0] == SEPARATOR || (path[0] == DOT && (path.len() == 1 || path[1]
        == SEPARATOR))) {
        1
    } else {
        0
    }
}

/// Whether the last character of a path belongs to no component: it is a
/// separator behind the head, or a `.` that is a whole name behind the
/// head.
pub open spec fn ends_with_nothing(path: Seq<char>) -> bool {
    path.len() > head_len(path) && (path.last() == SEPARATOR || (path.last() == DOT
        && path[path.len() - 2] == SEPARATOR))
}

/// The path without what names nothing at its end: the text up to the end
/// of its last component.
pub open spec fn trimmed(path: Seq<char>) -> Seq<char>
    decreases path.len(),
{
    if ends_with_nothing(path) {
        trimmed(path.drop_last())
    } else {
        path
    }
}

/// Where the last name of a path starts: behind its last separator, or at
/// the start of a path that holds none.
pub open spec fn last_name_start(path: Seq<char>) -> int {
    match path.index_of_last(SEPARATOR) {
        Some(at) => at + 1,
        None => 0,
    }
}

/// The directory that directly holds `path`: the text up to the end of its
/// last component but one.
///
/// * A path without components (the empty path) and a path whose only
///   component is the root have no parent.
/// * A path with one component and no root lies in the directory with the
///   empty path.
/// * A path with the root and one more component lies in the root, `/`.
pub open spec fn parent_path(path: Seq<char>) -> Option<Seq<char>> {
    let named = trimmed(path);
    if named.len() == 0 || named == seq![SEPARATOR] {
        None
    } else {
        Some(trimmed(named.take(last_name_start(named))))
    }
}

/// A name put behind a directory in plain form: with a separator between
/// them, unless the directory is the empty path or the root.
pub open spec fn joined(dir: Seq<char>, name: Seq<char>) -> Seq<char> {
    if dir.len() == 0 || dir == seq![SEPARATOR] {
        dir + name
    } else {
        dir + seq![SEPARATOR] + name
    }
}

/// The plain form of a path: its components, with one separator between
/// two of them and none behind the root.
pub open spec fn canonical_path(path: Seq<char>) -> Seq<char>
    decreases path.len(),
    via canonical_path_decreases
{
    if path.len() <= head_len(path) {
        path
    } else if ends_with_nothing(path) {
        canonical_path(path.drop_last())
    } else {
        let start = last_name_start(path);
        joined(canonical_path(path.take(start)), path.skip(start))
    }
}

#[via_fn]
proof fn canonical_path_decreases(path: Seq<char>) {
    path.index_of_last_ensures(SEPARATOR);
}

/// The directory that directly holds `path`, as the key under which it is
/// found: the plain form of the parent.
pub open spec fn directory_of(path: Seq<char>) -> Option<Seq<char>> {
    match parent_path(path) {
        Some(dir) => Some(canonical_path(dir)),
        None => None,
    }
}

/// The parent of a path in plain form, in plain form: the text in front of
/// the last separator, or the root where that separator is the root.
spec fn parent_key(key: Seq<char>) -> Option<Seq<char>> {
    if key.len() == 0 || key == seq![SEPARATOR] {
        None
    } else {
        let start = last_name_start(key);
        if start <= 1 {
            Some(key.take(start))
        } else {
            Some(key.take(start - 1))
        }
    }
}

/// What names nothing at the end of a path does not change its plain form.
pub proof fn lemma_canonical_of_trimmed(path: Seq<char>)
    ensures
        canonical_path(trimmed(path)) == canonical_path(path),
        !ends_with_nothing(trimmed(path)),
        trimmed(path).len() <= path.len(),
    decreases path.len(),
{
    if ends_with_nothing(path) {
        lemma_canonical_of_trimmed(path.drop_last());
    }
}

/// A name without a separator, joined to a directory, lies in that
/// directory.
proof fn lemma_parent_of_joined(dir: Seq<char>, name: Seq<char>)
    requires
        name.len() > 0,
        !name.contains(SEPARATOR),
    ensures
        parent_key(joined(dir, name)) == Some(dir),
{
    let key = joined(dir, name);
    key.index_of_last_ensures(SEPARATOR);
    assert forall|j: int| 0 <= j < name.len() implies name[j] != SEPARATOR by {
        if name[j] == SEPARATOR {
            assert(name.contains(SEPARATOR));
        }
    }
    if dir.len() == 0 {
        assert(key == name);
        assert(key[0] != SEPARATOR);
        if key.contains(SEPARATOR) {
            let at = choose|at: int| 0 <= at < key.len() && key[at] == SEPARATOR;
            assert(name[at] == SEPARATOR);
        }
        assert(key.take(0) == dir);
    } else if dir == seq![SEPARATOR] {
        assert(key[0] == SEPARATOR);
        assert(key.contains(SEPARATOR));
        assert forall|j: int| 0 < j < key.len() implies key[j] != SEPARATOR by {
            assert(key[j] == name[j - 1]);
        }
        assert(last_name_start(key) == 1);
        assert(key.take(1) == dir);
    } else {
        let at = dir.len() as int;
        assert(key[at] == SEPARATOR);
        assert(key.contains(SEPARATOR));
        assert forall|j: int| at < j < key.len() implies key[j] != SEPARATOR by {
            assert(key[j] == name[j - at - 1]);
        }
        assert(last_name_start(key) == at + 1);
        assert(key.take(at) == dir);
    }
}

/// The plain form of a path tells its directory.
proof fn lemma_parent_of_canonical(path: Seq<char>)
    ensures
        parent_key(canonical_path(path)) == directory_of(path),
{
    let named = trimmed(path);
    lemma_canonical_of_trimmed(path);
    named.index_of_last_ensures(SEPARATOR);
    if named.len() <= head_len(named) {
        if named.len() == 1 {
            assert(named == seq![named[0]]);
            if named[0] != SEPARATOR {
                assert(named.take(0) == Seq::<char>::empty());
            }
        }
    } else {
        let start = last_name_start(named);
        let name = named.skip(start);
        assert(named.len() == 1 ==> named != seq![SEPARATOR]);
        assert forall|j: int| 0 <= j < name.len() implies name[j] != SEPARATOR by {
            assert(name[j] == named[start + j]);
        }
        lemma_canonical_of_trimmed(named.take(start));
        lemma_parent_of_joined(canonical_path(named.take(start)), name);
    }
}

/// Two texts that are the same path lie in the same directory, or both in
/// none.
pub proof fn lemma_same_path_same_directory(one: Seq<char>, other: Seq<char>)
    requires
        canonical_path(one) == canonical_path(other),
    ensures
        directory_of(one) == directory_of(other),
{
    lemma_parent_of_canonical(one);
    lemma_parent_of_canonical(other);
}

/// The characters of a text, one by one.
fn chars_of(text: &str) -> (chars: Vec<char>)
    ensures
        chars@ == text@,
{
    let mut chars: Vec<char> = Vec::new();
    for c in it: text.chars()
        invariant
            it.seq() == text@,
            chars@ == text@.take(it.index()),
    {
        chars.push(c);
    }
    chars
}

/// `head_len` of the first `len` characters.
fn head_of(chars: &Vec<char>, len: usize) -> (head: usize)
    requires
        len <= chars.len(),
    ensures
        head == head_len(chars@.take(len as int)),
{
    if len > 0 && (chars[0] == SEPARATOR || (chars[0] == DOT && (len == 1 || chars[1]
        == SEPARATOR))) {
        1
    } else {
        0
    }
}

/// The length of `trimmed` of the first `len` characters.
fn trimmed_len(chars: &Vec<char>, len: usize) -> (kept: usize)
    requires
        len <= chars.len(),
    ensures
        kept <= len,
        trimmed(chars@.take(len as int)) == chars@.take(kept as int),
{
    let mut kept = len;
    loop
        invariant
            kept <= len <= chars.len(),
            trimmed(chars@.take(len as int)) == trimmed(chars@.take(kept as int)),
        ensures
            kept <= len,
            trimmed(chars@.take(len as int)) == chars@.take(kept as int),
        decreases kept,
    {
        if kept <= head_of(chars, kept) {
            break ;
        }
        let nothing = chars[kept - 1] == SEPARATOR || (chars[kept - 1] == DOT && chars[kept - 2]
            == SEPARATOR);
        if !nothing {
            break ;
        }
        proof {
            assert(chars@.take(kept as int).drop_last() == chars@.take(kept - 1));
        }
        kept = kept - 1;
    }
    kept
}

/// `last_name_start` of the first `len` characters.
fn name_start(chars: &Vec<char>, len: usize) -> (start: usize)
    requires
        len <= chars.len(),
    ensures
        start <= len,
        start == last_name_start(chars@.take(len as int)),
{
    let mut start = len;
    while start > 0 && chars[start - 1] != SEPARATOR
        invariant
            start <= len <= chars.len(),
            forall|j: int| start <= j < len ==> chars[j] != SEPARATOR,
        decreases start,
    {
        start = start - 1;
    }
    proof {
        let text = chars@.take(len as int);
        text.index_of_last_ensures(SEPARATOR);
        if start > 0 {
            assert(text[start - 1] == SEPARATOR);
        }
    }
    start
}

/// The directory that directly holds `path`, if it has one.
pub fn parent(path: &str) -> (dir: Option<&str>)
    ensures
        match dir {
            Some(d) => parent_path(path@) == Some(d@),
            None => parent_path(path@) is None,
        },
{
    let chars = chars_of(path);
    assert(chars@.take(chars.len() as int) == chars@);
    let named = trimmed_len(&chars, chars.len());
    if named == 0 || (named == 1 && chars[0] == SEPARATOR) {
        assert(named == 1 ==> chars@.take(1) == seq![chars[0]]);
        return None;
    }
    let start = name_start(&chars, named);
    proof {
        let text = chars@.take(named as int);
        assert(text.take(start as int) == chars@.take(start as int));
        assert(text.len() == 1 ==> text == seq![text[0]]);
    }
    let cut = trimmed_len(&chars, start);
    Some(path.substring_char(0, cut))
}

/// The plain form of the first `len` characters of `path`.
fn canonical_prefix(path: &str, chars: &Vec<char>, len: usize) -> (text: String)
    requires
        chars@ == path@,
        len <= chars.len(),
    ensures
        text@ == canonical_path(chars@.take(len as int)),
    decreases len,
{
    let named = trimmed_len(chars, len);
    proof {
        lemma_canonical_of_trimmed(chars@.take(len as int));
    }
    if named <= head_of(chars, named) {
        return path.substring_char(0, named).to_owned();
    }
    let start = name_start(chars, named);
    proof {
        let whole = chars@.take(named as int);
        whole.index_of_last_ensures(SEPARATOR);
        assert(whole.take(start as int) == chars@.take(start as int));
        assert(whole.skip(start as int) == path@.subrange(start as int, named as int));
        reveal_strlit("/");
    }
    let mut text = canonical_prefix(path, chars, start);
    let bare = text.as_str().is_empty() || (text.as_str().unicode_len() == 1
        && text.as_str().get_char(0) == SEPARATOR);
    proof {
        assert(text@.len() == 1 ==> text@ == seq![text@[0]]);
    }
    if !bare {
        text.append("/");
    }
    text.append(path.substring_char(start, named));
    text
}

/// The plain form of `path`.
pub fn canonical(path: &str) -> (text: String)
    ensures
        text@ == canonical_path(path@),
{
    let chars = chars_of(path);
    assert(chars@.take(chars.len() as int) == chars@);
    canonical_prefix(path, &chars, chars.len())
}

} // verus!
