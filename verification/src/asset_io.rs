//! The provider: the two tables in executable form, filled once and then
//! only read.

use crate::error::AssetIoError;
use crate::metadata::{FileType, Metadata};
use crate::path::{
    canonical, canonical_path, directory_of, lemma_same_path_same_directory, parent, parent_path,
};
use crate::tables::{
    asset_table_of, children_of, directory_table_of, keys_of, lemma_directory_table_push,
    lemma_tables_consistent, tables_consistent,
};
use vstd::hash_map::StringHashMap;
use vstd::prelude::*;

verus! {

/// What a list of files holds: the text of each path with the bytes given
/// for it.
pub open spec fn files_view(files: Seq<(String, Vec<u8>)>) -> Seq<(Seq<char>, Seq<u8>)> {
    files.map_values(|file: (String, Vec<u8>)| (file.0@, file.1@))
}

/// The text of each path of a list.
pub open spec fn paths_view(paths: Seq<String>) -> Seq<Seq<char>> {
    paths.map_values(|path: String| path@)
}

/// A copy of a list of paths.
fn copy_paths(paths: &Vec<String>) -> (copy: Vec<String>)
    ensures
        paths_view(copy@) == paths_view(paths@),
{
    paths.clone()
}

/// A read-only namespace of files and directories, held in memory.
pub struct EmbeddedAssetIo {
    dirs: StringHashMap<Vec<String>>,
    assets: StringHashMap<Vec<u8>>,
}

impl EmbeddedAssetIo {
    /// The asset table: the contents stored under the key of each file.
    pub closed spec fn asset_table(&self) -> Map<Seq<char>, Seq<u8>> {
        self.assets@.map_values(|bytes: Vec<u8>| bytes@)
    }

    /// The directory table: the files listed under the key of each
    /// directory.
    pub closed spec fn directory_table(&self) -> Map<Seq<char>, Seq<Seq<char>>> {
        self.dirs@.map_values(|children: Vec<String>| paths_view(children@))
    }

    /// Whether the two tables fit together, as those of every namespace
    /// that `new` builds do.
    pub open spec fn wf(&self) -> bool {
        tables_consistent(self.asset_table(), self.directory_table())
    }

    /// Builds the namespace that holds `assets`.
    ///
    /// The files are stored in the order of the list. A file whose path
    /// already occurred, in whatever text, replaces the contents stored
    /// under that path; the listing of its directory keeps the earlier file's
    /// place and text.
    pub fn new(assets: Vec<(String, Vec<u8>)>) -> (io: Self)
        ensures
            io.asset_table() == asset_table_of(files_view(assets@)),
            io.directory_table() == directory_table_of(files_view(assets@)),
            io.wf(),
    {
        let ghost files = files_view(assets@);
        let mut table: StringHashMap<Vec<u8>> = StringHashMap::new();
        let mut dirs: StringHashMap<Vec<String>> = StringHashMap::new();
        for file in it: assets.into_iter()
            invariant
                files_view(it.seq()) == files,
                table@.map_values(|bytes: Vec<u8>| bytes@) == asset_table_of(
                    files.take(it.index()),
                ),
                dirs@.map_values(|children: Vec<String>| paths_view(children@))
                    == directory_table_of(files.take(it.index())),
        {
            let (path, bytes) = file;
            let ghost stored = files.take(it.index() as int);
            proof {
                assert(files.take(it.index() + 1).drop_last() == stored);
                assert(files.take(it.index() + 1) == stored.push((path@, bytes@)));
                lemma_directory_table_push(stored, path@, bytes@);
            }
            let key = canonical(path.as_str());
            if !table.contains_key(key.as_str()) {
                let holder = match parent(path.as_str()) {
                    Some(dir) => Some(canonical(dir)),
                    None => None,
                };
                match holder {
                    Some(dir) => {
                        let ghost listing = dirs@.map_values(
                            |children: Vec<String>| paths_view(children@),
                        );
                        let mut children = match dirs.get(dir.as_str()) {
                            Some(listed) => {
                                assert(listing[dir@] == paths_view(listed@));
                                copy_paths(listed)
                            },
                            None => {
                                assert(!listing.contains_key(dir@));
                                Vec::new()
                            },
                        };
                        children.push(path);
                        assert(paths_view(children@) == children_of(stored, dir@).push(path@));
                        dirs.insert(dir, children);
                    },
                    None => {},
                }
            }
            table.insert(key, bytes);
        }
        proof {
            assert(files.take(files.len() as int) == files);
            lemma_tables_consistent(files);
        }
        EmbeddedAssetIo { dirs, assets: table }
    }

    /// The contents stored under `path`, copied out.
    ///
    /// Fails with `NotFound(path)` exactly when no file is this path.
    pub fn load_path(&self, path: &str) -> (loaded: Result<Vec<u8>, AssetIoError>)
        ensures
            match loaded {
                Ok(bytes) => self.asset_table().contains_key(canonical_path(path@)) && bytes@
                    == self.asset_table()[canonical_path(path@)],
                Err(error) => !self.asset_table().contains_key(canonical_path(path@))
                    && error.is_not_found(path@),
            },
    {
        let key = canonical(path);
        match self.assets.get(key.as_str()) {
            Some(bytes) => Ok(bytes.clone()),
            None => Err(AssetIoError::NotFound(path.to_owned())),
        }
    }

    /// The files that lie directly in the directory `path`, in the order in
    /// which they were stored and in the text they were given with, copied
    /// out.
    ///
    /// Fails with `NotFound(path)` exactly when no file lies directly in
    /// `path`.
    pub fn read_directory(&self, path: &str) -> (listed: Result<Vec<String>, AssetIoError>)
        ensures
            match listed {
                Ok(children) => self.directory_table().contains_key(canonical_path(path@))
                    && paths_view(children@) == self.directory_table()[canonical_path(path@)],
                Err(error) => !self.directory_table().contains_key(canonical_path(path@))
                    && error.is_not_found(path@),
            },
    {
        let key = canonical(path);
        match self.dirs.get(key.as_str()) {
            Some(children) => Ok(copy_paths(children)),
            None => Err(AssetIoError::NotFound(path.to_owned())),
        }
    }

    /// The kind of entry that the path with the key `key` names: a
    /// directory if files are listed under it, whether or not bytes are
    /// stored under it too; else a file if bytes are stored under it; else
    /// nothing.
    pub open spec fn file_type_of(&self, key: Seq<char>) -> Option<FileType> {
        if self.directory_table().contains_key(key) {
            Some(FileType::Directory)
        } else if self.asset_table().contains_key(key) {
            Some(FileType::File)
        } else {
            None
        }
    }

    /// The description of the entry that `path` names.
    ///
    /// Fails with `NotFound(path)` exactly when `path` is neither a
    /// directory nor a file of the namespace.
    pub fn get_metadata(&self, path: &str) -> (found: Result<Metadata, AssetIoError>)
        ensures
            match found {
                Ok(metadata) => self.file_type_of(canonical_path(path@)) == Some(
                    metadata.file_type,
                ),
                Err(error) => self.file_type_of(canonical_path(path@)) is None
                    && error.is_not_found(path@),
            },
    {
        let key = canonical(path);
        if self.dirs.contains_key(key.as_str()) {
            Ok(Metadata { file_type: FileType::Directory })
        } else if self.assets.contains_key(key.as_str()) {
            Ok(Metadata { file_type: FileType::File })
        } else {
            Err(AssetIoError::NotFound(path.to_owned()))
        }
    }

    /// Asks to be told of changes to `path`. The namespace never changes, so
    /// there is nothing to do, and the request succeeds for every path.
    pub fn watch_path_for_changes(&self, _path: &str) -> (watching: Result<(), AssetIoError>)
        ensures
            watching is Ok,
    {
        Ok(())
    }

    /// Asks to be told of changes anywhere in the namespace. There is
    /// nothing to do, and the request succeeds.
    pub fn watch_for_changes(&self) -> (watching: Result<(), AssetIoError>)
        ensures
            watching is Ok,
    {
        Ok(())
    }
}

impl EmbeddedAssetIo {
    /// Every file that has a parent is listed in that directory, at exactly
    /// one place, whatever the text in which the file and the directory are
    /// named.
    pub proof fn lemma_file_is_listed_once(&self, path: Seq<char>, dir: Seq<char>)
        requires
            self.wf(),
            self.asset_table().contains_key(canonical_path(path)),
            parent_path(path) == Some(dir),
        ensures
            self.directory_table().contains_key(canonical_path(dir)),
            keys_of(self.directory_table()[canonical_path(dir)]).to_multiset().count(
                canonical_path(path),
            ) == 1,
    {
        let keys = keys_of(self.directory_table()[canonical_path(dir)]);
        keys.lemma_multiset_has_no_duplicates();
        keys.to_multiset_ensures();
    }

    /// A path that is the parent of no file is not a directory of the
    /// namespace.
    pub proof fn lemma_directory_without_files_is_absent(&self, dir: Seq<char>)
        requires
            self.wf(),
            forall|path: Seq<char>|
                self.asset_table().contains_key(#[trigger] canonical_path(path)) ==> directory_of(
                    path,
                ) != Some(canonical_path(dir)),
        ensures
            !self.directory_table().contains_key(canonical_path(dir)),
    {
        let key = canonical_path(dir);
        if self.directory_table().contains_key(key) {
            let first = self.directory_table()[key][0];
            assert(self.asset_table().contains_key(canonical_path(first)));
        }
    }

    /// A file without a parent is listed nowhere.
    pub proof fn lemma_file_without_parent_is_unlisted(&self, path: Seq<char>, dir: Seq<char>)
        requires
            self.wf(),
            parent_path(path) is None,
            self.directory_table().contains_key(dir),
        ensures
            !keys_of(self.directory_table()[dir]).contains(canonical_path(path)),
    {
        let listing = self.directory_table()[dir];
        let keys = keys_of(listing);
        if keys.contains(canonical_path(path)) {
            let at = choose|at: int| 0 <= at < keys.len() && keys[at] == canonical_path(path);
            assert(directory_of(listing[at]) == Some(dir));
            lemma_same_path_same_directory(listing[at], path);
        }
    }
}

impl Default for EmbeddedAssetIo {
    /// The namespace that holds nothing.
    fn default() -> (io: Self)
        ensures
            io.asset_table() == Map::<Seq<char>, Seq<u8>>::empty(),
            io.directory_table() == Map::<Seq<char>, Seq<Seq<char>>>::empty(),
            io.wf(),
    {
        EmbeddedAssetIo { dirs: StringHashMap::new(), assets: StringHashMap::new() }
    }
}

} // verus!
