//! The two tables of an embedded namespace, as mathematics.
//!
//! The namespace is built from a list of files, each a path with its
//! contents. Paths are compared by their plain form, which is the key of
//! both tables. The asset table maps the key of every file to its contents;
//! the directory table maps the key of every directory that holds at least
//! one of these files to the files directly in it, each under the text it
//! was given with.

use crate::path::{canonical_path, directory_of, lemma_same_path_same_directory};
use vstd::prelude::*;

verus! {

/// The asset table of a list of files: the files are stored one after the
/// other, so that of two files with the same path the later one stays.
pub open spec fn asset_table_of(files: Seq<(Seq<char>, Seq<u8>)>) -> Map<Seq<char>, Seq<u8>>
    decreases files.len(),
{
    if files.len() == 0 {
        Map::empty()
    } else {
        asset_table_of(files.drop_last()).insert(
            canonical_path(files.last().0),
            files.last().1,
        )
    }
}

/// The paths of a list of files, each path once, in the order in which
/// they first occur and in the text of that first occurrence.
pub open spec fn listed_paths(files: Seq<(Seq<char>, Seq<u8>)>) -> Seq<Seq<char>>
    decreases files.len(),
{
    if files.len() == 0 {
        Seq::empty()
    } else {
        let earlier = listed_paths(files.drop_last());
        if asset_table_of(files.drop_last()).contains_key(canonical_path(files.last().0)) {
            earlier
        } else {
            earlier.push(files.last().0)
        }
    }
}

/// Whether a path lies directly in the directory with the key `dir`.
pub open spec fn lies_in(dir: Seq<char>) -> spec_fn(Seq<char>) -> bool {
    |path: Seq<char>| directory_of(path) == Some(dir)
}

/// The files of the list that lie directly in the directory with the key
/// `dir`, in the order of `listed_paths`.
pub open spec fn children_of(files: Seq<(Seq<char>, Seq<u8>)>, dir: Seq<char>) -> Seq<Seq<char>> {
    listed_paths(files).filter(lies_in(dir))
}

/// The directory table of a list of files: the key of every directory that
/// is the parent of at least one file, with the files directly in it.
pub open spec fn directory_table_of(files: Seq<(Seq<char>, Seq<u8>)>) -> Map<
    Seq<char>,
    Seq<Seq<char>>,
> {
    Map::new(
        |dir: Seq<char>| children_of(files, dir).len() > 0,
        |dir: Seq<char>| children_of(files, dir),
    )
}

/// The keys of the paths of a listing.
pub open spec fn keys_of(listing: Seq<Seq<char>>) -> Seq<Seq<char>> {
    listing.map_values(|path: Seq<char>| canonical_path(path))
}

/// What holds between the two tables of every namespace, in whatever order
/// its files were given:
///
/// * no directory is empty;
/// * every path that a directory lists is a file and lies directly in that
///   directory;
/// * no directory lists the same path twice;
/// * every file that has a parent is listed in it.
pub open spec fn tables_consistent(
    assets: Map<Seq<char>, Seq<u8>>,
    dirs: Map<Seq<char>, Seq<Seq<char>>>,
) -> bool {
    &&& forall|dir: Seq<char>| #[trigger] dirs.contains_key(dir) ==> dirs[dir].len() > 0
    &&& forall|dir: Seq<char>, i: int|
        dirs.contains_key(dir) && 0 <= i < dirs[dir].len() ==> {
            &&& assets.contains_key(canonical_path(#[trigger] dirs[dir][i]))
            &&& directory_of(dirs[dir][i]) == Some(dir)
        }
    &&& forall|dir: Seq<char>| #[trigger]
        dirs.contains_key(dir) ==> keys_of(dirs[dir]).no_duplicates()
    &&& forall|path: Seq<char>|
        assets.contains_key(#[trigger] canonical_path(path)) ==> (directory_of(path) matches Some(
            dir,
        ) ==> dirs.contains_key(dir) && keys_of(dirs[dir]).contains(canonical_path(path)))
}

/// The asset table holds the keys of the files and no other key.
pub proof fn lemma_asset_table_keys(files: Seq<(Seq<char>, Seq<u8>)>, key: Seq<char>)
    ensures
        asset_table_of(files).contains_key(key) <==> exists|i: int|
            0 <= i < files.len() && canonical_path(#[trigger] files[i].0) == key,
    decreases files.len(),
{
    if files.len() > 0 {
        let earlier = files.drop_last();
        lemma_asset_table_keys(earlier, key);
        if asset_table_of(files).contains_key(key) {
            if canonical_path(files.last().0) == key {
                assert(canonical_path(files[files.len() - 1].0) == key);
            } else {
                let i = choose|i: int|
                    0 <= i < earlier.len() && canonical_path(#[trigger] earlier[i].0) == key;
                assert(canonical_path(files[i].0) == key);
            }
        }
        if exists|i: int| 0 <= i < files.len() && canonical_path(#[trigger] files[i].0) == key {
            let i = choose|i: int|
                0 <= i < files.len() && canonical_path(#[trigger] files[i].0) == key;
            if i < earlier.len() {
                assert(canonical_path(earlier[i].0) == key);
            }
        }
    }
}

/// Under the key of a file the asset table holds the contents of that
/// file, provided that no later file of the list is the same path.
pub proof fn lemma_asset_table_contents(files: Seq<(Seq<char>, Seq<u8>)>, i: int)
    requires
        0 <= i < files.len(),
        forall|j: int|
            i < j < files.len() ==> canonical_path(#[trigger] files[j].0) != canonical_path(
                files[i].0,
            ),
    ensures
        asset_table_of(files).contains_key(canonical_path(files[i].0)),
        asset_table_of(files)[canonical_path(files[i].0)] == files[i].1,
    decreases files.len(),
{
    if i < files.len() - 1 {
        let earlier = files.drop_last();
        assert(canonical_path(files[files.len() - 1].0) != canonical_path(files[i].0));
        assert forall|j: int| i < j < earlier.len() implies canonical_path(
            #[trigger] earlier[j].0,
        ) != canonical_path(earlier[i].0) by {
            assert(canonical_path(files[j].0) != canonical_path(files[i].0));
        }
        lemma_asset_table_contents(earlier, i);
    }
}

/// The keys of the listed paths are the keys of the asset table, and none
/// of them occurs twice.
pub proof fn lemma_listed_paths(files: Seq<(Seq<char>, Seq<u8>)>)
    ensures
        keys_of(listed_paths(files)).no_duplicates(),
        forall|key: Seq<char>|
            keys_of(listed_paths(files)).contains(key) <==> asset_table_of(files).contains_key(
                key,
            ),
    decreases files.len(),
{
    if files.len() > 0 {
        lemma_listed_paths(files.drop_last());
        let earlier = listed_paths(files.drop_last());
        let stored = asset_table_of(files.drop_last());
        let last = canonical_path(files.last().0);
        let now = listed_paths(files);
        assert forall|key: Seq<char>|
            keys_of(now).contains(key) <==> asset_table_of(files).contains_key(key) by {
            if !stored.contains_key(last) {
                assert(now == earlier.push(files.last().0));
                assert(keys_of(now)[earlier.len() as int] == last);
                if keys_of(earlier).contains(key) {
                    let i = choose|i: int|
                        0 <= i < keys_of(earlier).len() && keys_of(earlier)[i] == key;
                    assert(keys_of(now)[i] == key);
                }
                if keys_of(now).contains(key) && key != last {
                    let i = choose|i: int| 0 <= i < keys_of(now).len() && keys_of(now)[i] == key;
                    assert(keys_of(earlier)[i] == key);
                }
            }
        }
        if !stored.contains_key(last) {
            assert forall|i: int, j: int|
                0 <= i < keys_of(now).len() && 0 <= j < keys_of(now).len() && i != j implies keys_of(
                now,
            )[i] != keys_of(now)[j] by {
                if i < earlier.len() {
                    assert(keys_of(earlier)[i] == keys_of(now)[i]);
                    assert(keys_of(earlier).contains(keys_of(earlier)[i]));
                }
                if j < earlier.len() {
                    assert(keys_of(earlier)[j] == keys_of(now)[j]);
                    assert(keys_of(earlier).contains(keys_of(earlier)[j]));
                }
            }
        }
    }
}

/// What storing one more file does to the directory table: a file whose
/// path is new and has a parent is added at the end of that directory, and
/// nothing else changes.
pub proof fn lemma_directory_table_push(
    files: Seq<(Seq<char>, Seq<u8>)>,
    path: Seq<char>,
    bytes: Seq<u8>,
)
    ensures
        directory_table_of(files.push((path, bytes))) == if asset_table_of(files).contains_key(
            canonical_path(path),
        ) {
            directory_table_of(files)
        } else {
            match directory_of(path) {
                Some(dir) => directory_table_of(files).insert(
                    dir,
                    children_of(files, dir).push(path),
                ),
                None => directory_table_of(files),
            }
        },
{
    let next = files.push((path, bytes));
    assert(next.drop_last() == files);
    if !asset_table_of(files).contains_key(canonical_path(path)) {
        assert forall|dir: Seq<char>|
            children_of(next, dir) == if directory_of(path) == Some(dir) {
                children_of(files, dir).push(path)
            } else {
                children_of(files, dir)
            } by {
            listed_paths(files).lemma_filter_push(path, lies_in(dir));
        }
    }
}

/// The children of a directory are listed paths, in their order.
proof fn lemma_children_are_listed(listed: Seq<Seq<char>>, dir: Seq<char>)
    ensures
        forall|i: int|
            0 <= i < listed.filter(lies_in(dir)).len() ==> lies_in(dir)(
                #[trigger] listed.filter(lies_in(dir))[i],
            ) && listed.contains(listed.filter(lies_in(dir))[i]),
        keys_of(listed).no_duplicates() ==> keys_of(listed.filter(lies_in(dir))).no_duplicates(),
        forall|i: int|
            0 <= i < listed.len() && lies_in(dir)(listed[i]) ==> listed.filter(
                lies_in(dir),
            ).contains(#[trigger] listed[i]),
    decreases listed.len(),
{
    reveal(Seq::filter);
    if listed.len() > 0 {
        let earlier = listed.drop_last();
        let last = listed.last();
        lemma_children_are_listed(earlier, dir);
        let before = earlier.filter(lies_in(dir));
        let now = listed.filter(lies_in(dir));
        assert forall|i: int| 0 <= i < now.len() implies lies_in(dir)(#[trigger] now[i])
            && listed.contains(now[i]) by {
            if i < before.len() {
                assert(now[i] == before[i]);
                let at = choose|at: int| 0 <= at < earlier.len() && earlier[at] == before[i];
                assert(listed[at] == now[i]);
            } else {
                assert(listed[listed.len() - 1] == now[i]);
            }
        }
        assert forall|i: int| 0 <= i < listed.len() && lies_in(dir)(listed[i]) implies now.contains(
            #[trigger] listed[i],
        ) by {
            if i < earlier.len() {
                assert(earlier[i] == listed[i]);
                let at = choose|at: int| 0 <= at < before.len() && before[at] == earlier[i];
                assert(now[at] == listed[i]);
            } else {
                assert(now[now.len() - 1] == listed[i]);
            }
        }
        if keys_of(listed).no_duplicates() {
            assert forall|i: int, j: int|
                0 <= i < earlier.len() && 0 <= j < earlier.len() && i != j implies keys_of(
                earlier,
            )[i] != keys_of(earlier)[j] by {
                assert(keys_of(listed)[i] != keys_of(listed)[j]);
            }
            assert forall|i: int, j: int|
                0 <= i < now.len() && 0 <= j < now.len() && i != j implies keys_of(now)[i]
                != keys_of(now)[j] by {
                if i < before.len() && j < before.len() {
                    assert(keys_of(before)[i] != keys_of(before)[j]);
                } else {
                    let inner = if i < before.len() { i } else { j };
                    let at = choose|at: int|
                        0 <= at < earlier.len() && earlier[at] == before[inner];
                    assert(keys_of(listed)[at] != keys_of(listed)[listed.len() - 1]);
                }
            }
        }
    }
}

/// The two tables of a list of files are consistent with each other.
pub proof fn lemma_tables_consistent(files: Seq<(Seq<char>, Seq<u8>)>)
    ensures
        tables_consistent(asset_table_of(files), directory_table_of(files)),
{
    let assets = asset_table_of(files);
    let dirs = directory_table_of(files);
    let listed = listed_paths(files);
    lemma_listed_paths(files);
    assert forall|dir: Seq<char>, i: int|
        dirs.contains_key(dir) && 0 <= i < dirs[dir].len() implies assets.contains_key(
        canonical_path(#[trigger] dirs[dir][i]),
    ) && directory_of(dirs[dir][i]) == Some(dir) by {
        lemma_children_are_listed(listed, dir);
        let child = dirs[dir][i];
        let at = choose|at: int| 0 <= at < listed.len() && listed[at] == child;
        assert(keys_of(listed)[at] == canonical_path(child));
        assert(keys_of(listed).contains(canonical_path(child)));
    }
    assert forall|dir: Seq<char>| #[trigger] dirs.contains_key(dir) implies keys_of(
        dirs[dir],
    ).no_duplicates() by {
        lemma_children_are_listed(listed, dir);
    }
    assert forall|path: Seq<char>|
        assets.contains_key(#[trigger] canonical_path(path)) implies (directory_of(
        path,
    ) matches Some(dir) ==> dirs.contains_key(dir) && keys_of(dirs[dir]).contains(
        canonical_path(path),
    )) by {
        if let Some(dir) = directory_of(path) {
            let key = canonical_path(path);
            lemma_children_are_listed(listed, dir);
            assert(keys_of(listed).contains(key));
            let at = choose|at: int| 0 <= at < keys_of(listed).len() && keys_of(listed)[at] == key;
            lemma_same_path_same_directory(listed[at], path);
            assert(lies_in(dir)(listed[at]));
            let children = children_of(files, dir);
            assert(children.contains(listed[at]));
            let place = choose|place: int|
                0 <= place < children.len() && children[place] == listed[at];
            assert(keys_of(children)[place] == key);
        }
    }
}

} // verus!
