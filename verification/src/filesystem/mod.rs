//! Workspaces of files: what their paths mean, what a listing and a
//! description hold, and which paths may be written.

use vstd::prelude::*;

use crate::message::Error;
use crate::text::{cat3, chars_of, lists, same, split, split_on, string_of, tail_of, tail_start,
    texts, trim_of, trim_start_of, trimmed_of, trimmed_start_of};

pub mod answers;
pub mod coverage;
pub mod definitions;
pub mod grep;
pub mod memory;
pub mod order;
pub mod paths;
pub mod tools;

verus! {

/// One entry of a directory listing.
#[derive(Debug, PartialEq, Eq)]
pub struct FileEntry {
    /// The entry's own name, not a path.
    pub name: String,
    pub is_dir: bool,
    /// Size in bytes; 0 for directories.
    pub size: u64,
}

/// The content of a [`FileEntry`].
pub ghost struct EntryView {
    pub name: Seq<char>,
    pub is_dir: bool,
    pub size: int,
}

impl View for FileEntry {
    type V = EntryView;

    open spec fn view(&self) -> EntryView {
        EntryView { name: self.name@, is_dir: self.is_dir, size: self.size as int }
    }
}

/// The contents of a listing.
pub open spec fn entries_view(entries: Seq<FileEntry>) -> Seq<EntryView> {
    entries.map_values(|e: FileEntry| e@)
}

impl FileEntry {
    /// A file entry.
    pub fn file(name: String, size: u64) -> (r: Self)
        ensures
            r@ == (EntryView { name: name@, is_dir: false, size: size as int }),
    {
        FileEntry { name, is_dir: false, size }
    }

    /// A directory entry.
    pub fn dir(name: String) -> (r: Self)
        ensures
            r@ == (EntryView { name: name@, is_dir: true, size: 0 }),
    {
        FileEntry { name, is_dir: true, size: 0 }
    }
}

impl Clone for FileEntry {
    fn clone(&self) -> (r: Self)
        ensures
            r@ == self@,
    {
        FileEntry { name: self.name.clone(), is_dir: self.is_dir, size: self.size }
    }
}

/// What is known of one path.
#[derive(Debug, PartialEq, Eq)]
pub struct FileStat {
    /// The path as asked for.
    pub path: String,
    /// Whether anything is there. A missing file is an answer, not an error.
    pub exists: bool,
    pub is_dir: bool,
    /// Size in bytes; 0 for directories and for anything missing.
    pub size: u64,
}

/// The content of a [`FileStat`].
pub ghost struct StatView {
    pub path: Seq<char>,
    pub exists: bool,
    pub is_dir: bool,
    pub size: int,
}

impl View for FileStat {
    type V = StatView;

    open spec fn view(&self) -> StatView {
        StatView {
            path: self.path@,
            exists: self.exists,
            is_dir: self.is_dir,
            size: self.size as int,
        }
    }
}

/// The description of a missing path.
pub open spec fn missing_stat(path: Seq<char>) -> StatView {
    StatView { path, exists: false, is_dir: false, size: 0 }
}

/// The description of the root, which is always there.
pub open spec fn root_stat(path: Seq<char>) -> StatView {
    StatView { path, exists: true, is_dir: true, size: 0 }
}

/// The description of a path that an entry stands for.
pub open spec fn found_stat(path: Seq<char>, entry: EntryView) -> StatView {
    StatView { path, exists: true, is_dir: entry.is_dir, size: entry.size }
}

impl FileStat {
    /// A path where there is nothing.
    pub fn missing(path: &str) -> (r: Self)
        ensures
            r@ == missing_stat(path@),
    {
        FileStat { path: path.to_owned(), exists: false, is_dir: false, size: 0 }
    }

    /// A path that is there, described by its directory entry.
    pub fn found(path: &str, entry: &FileEntry) -> (r: Self)
        ensures
            r@ == found_stat(path@, entry@),
    {
        FileStat {
            path: path.to_owned(),
            exists: true,
            is_dir: entry.is_dir,
            size: entry.size,
        }
    }
}

/// The first entry of a listing with this name.
pub open spec fn entry_named(entries: Seq<EntryView>, name: Seq<char>) -> Option<EntryView>
    decreases entries.len(),
{
    if entries.len() == 0 {
        None
    } else if entries[0].name == name {
        Some(entries[0])
    } else {
        entry_named(entries.drop_first(), name)
    }
}

/// Where a path is listed: its parent directory, and its name there. The root
/// is listed nowhere.
pub open spec fn listed_at(path: Seq<char>) -> Option<(Seq<char>, Seq<char>)> {
    let trimmed = trimmed_of(path, '/');
    let n = tail_start(trimmed, '/') as int;
    if trimmed.len() == 0 {
        None
    } else if n == 0 {
        Some((Seq::empty(), trimmed))
    } else {
        Some((trimmed.take(n - 1), trimmed.skip(n)))
    }
}

/// The description of a path, from the listing of its parent: a parent that
/// cannot be listed means that there is nothing at the path.
pub open spec fn described(path: Seq<char>, listing: Option<Seq<EntryView>>) -> StatView {
    match listed_at(path) {
        None => root_stat(path),
        Some((parent, name)) => match listing {
            None => missing_stat(path),
            Some(entries) => match entry_named(entries, name) {
                Some(entry) => found_stat(path, entry),
                None => missing_stat(path),
            },
        },
    }
}

/// Where a path is listed: its parent directory, and its name there.
pub fn parent_and_name(path: &str) -> (r: Option<(String, String)>)
    ensures
        match r {
            Some((parent, name)) => listed_at(path@) == Some((parent@, name@)),
            None => listed_at(path@) is None,
        },
{
    let trimmed = trim_of(path, '/');
    if trimmed.as_str().is_empty() {
        return None;
    }
    let chars = chars_of(trimmed.as_str());
    let n = tail_of(&chars, '/');
    if n == 0 {
        return Some((String::new(), trimmed));
    }
    let parent = string_of(&chars, 0, n - 1);
    let name = string_of(&chars, n, chars.len());
    assert(parent@ =~= trimmed@.take(n - 1));
    assert(name@ =~= trimmed@.skip(n as int));
    Some((parent, name))
}

/// The description of a path, from the listing of its parent.
pub fn stat_from_listing(path: &str, listing: &Option<Vec<FileEntry>>) -> (r: FileStat)
    ensures
        r@ == described(
            path@,
            match *listing {
                Some(entries) => Some(entries_view(entries@)),
                None => None,
            },
        ),
{
    match parent_and_name(path) {
        None => FileStat { path: path.to_owned(), exists: true, is_dir: true, size: 0 },
        Some((_, name)) => match listing {
            None => FileStat::missing(path),
            Some(entries) => {
                let ghost all = entries_view(entries@);
                let mut i: usize = 0;
                assert(all.skip(0) =~= all);
                while i < entries.len()
                    invariant
                        i <= entries@.len(),
                        *listing == Some(*entries),
                        listed_at(path@) matches Some((_, n)) && n == name@,
                        all == entries_view(entries@),
                        entry_named(all, name@) == entry_named(all.skip(i as int), name@),
                    decreases entries.len() - i,
                {
                    assert(all.skip(i as int)[0] == entries@[i as int]@);
                    if same(entries[i].name.as_str(), name.as_str()) {
                        return FileStat::found(path, &entries[i]);
                    }
                    assert(all.skip(i as int).drop_first() =~= all.skip(i + 1));
                    i += 1;
                }
                FileStat::missing(path)
            },
        },
    }
}

/// The components of a path: what stands between its slashes, without the
/// empty ones and those that mean the same directory.
pub open spec fn components(path: Seq<char>) -> Seq<Seq<char>> {
    split_on(path, '/').filter(|c: Seq<char>| c.len() > 0 && c != "."@)
}

/// The components of a path.
pub fn components_of(path: &str) -> (r: Vec<String>)
    ensures
        texts(r@) == components(path@),
{
    let pieces = split(path, '/');
    let ghost all = texts(pieces@);
    let ghost keep = |c: Seq<char>| c.len() > 0 && c != "."@;
    let mut r: Vec<String> = Vec::new();
    let mut i: usize = 0;
    assert(texts(r@) =~= all.take(0).filter(keep)) by {
        reveal(Seq::filter);
    }
    while i < pieces.len()
        invariant
            i <= pieces@.len(),
            all == texts(pieces@),
            keep == (|c: Seq<char>| c.len() > 0 && c != "."@),
            texts(r@) == all.take(i as int).filter(keep),
        decreases pieces.len() - i,
    {
        let ghost before = texts(r@);
        proof {
            assert(all.take(i as int + 1).drop_last() =~= all.take(i as int));
            reveal(Seq::filter);
        }
        if !pieces[i].as_str().is_empty() && !same(pieces[i].as_str(), ".") {
            r.push(pieces[i].clone());
            assert(texts(r@) =~= before.push(all[i as int]));
        }
        i += 1;
    }
    assert(all.take(i as int) =~= all);
    r
}

/// Whether a path climbs out of a directory on its way.
pub open spec fn climbs(path: Seq<char>) -> bool {
    components(path).contains(".."@)
}

/// A workspace on disk, rooted at a fixed directory.
#[derive(Debug)]
pub struct RealDiskFileSystem {
    pub root: String,
}

impl RealDiskFileSystem {
    /// A workspace rooted at a directory that is there.
    pub fn rooted(root: String) -> (r: Self)
        ensures
            r.root == root,
    {
        RealDiskFileSystem { root }
    }

    /// The components to append to the root, one after the other. A path that
    /// climbs is refused, so that no path leads out of the root.
    pub fn resolve(&self, path: &str) -> (r: Result<Vec<String>, Error>)
        ensures
            if climbs(trimmed_start_of(path@, '/')) {
                r matches Err(e) && e.is_other(
                    "path escapes the workspace root: `"@ + path@ + "`"@,
                )
            } else {
                r matches Ok(parts) && texts(parts@) == components(trimmed_start_of(path@, '/'))
            },
    {
        let trimmed = trim_start_of(path, '/');
        let parts = components_of(trimmed.as_str());
        if lists(&parts, "..") {
            return Err(Error::Other(cat3("path escapes the workspace root: `", path, "`")));
        }
        Ok(parts)
    }
}

proof fn lemma_split_has_no_separator(s: Seq<char>, c: char)
    ensures
        forall|i: int| 0 <= i < split_on(s, c).len() ==> !(#[trigger] split_on(s, c)[i]).contains(c),
    decreases s.len(),
{
    crate::text::lemma_head_len(s, c);
    let n = crate::text::head_len(s, c) as int;
    if n < s.len() {
        lemma_split_has_no_separator(s.skip(n + 1), c);
        let rest = split_on(s.skip(n + 1), c);
        assert forall|i: int| 0 <= i < split_on(s, c).len() implies !(#[trigger] split_on(
            s,
            c,
        )[i]).contains(c) by {
            if i > 0 {
                assert(split_on(s, c)[i] == rest[i - 1]);
            }
        }
    }
}

/// A resolved path never leaves the root: each component that is appended is
/// one plain name, neither empty nor a step up, and holds no slash.
pub proof fn resolved_stays_inside(path: Seq<char>, i: int)
    requires
        !climbs(path),
        0 <= i < components(path).len(),
    ensures
        components(path)[i].len() > 0,
        components(path)[i] != "."@,
        components(path)[i] != ".."@,
        !components(path)[i].contains('/'),
{
    let keep = |c: Seq<char>| c.len() > 0 && c != "."@;
    let pieces = split_on(path, '/');
    lemma_split_has_no_separator(path, '/');
    let c = components(path)[i];
    assert(keep(c));
    pieces.lemma_filter_contains_rev(keep, c);
    let j = choose|j: int| 0 <= j < pieces.len() && pieces[j] == c;
    assert(!pieces[j].contains('/'));
}

/// Whether a path lies at or under a protected directory.
pub open spec fn blocked(blocklist: Seq<Seq<char>>, path: Seq<char>) -> bool {
    exists|i: int|
        0 <= i < components(path).len() && components(path)[i] != ".."@ && blocklist.contains(
            #[trigger] components(path)[i],
        )
}

/// Guards a workspace: what lies under a protected directory can be read, and
/// neither written nor deleted.
#[derive(Debug)]
pub struct WriteBlocklistFileSystem {
    pub blocklist: Vec<String>,
}

impl WriteBlocklistFileSystem {
    /// A guard with the usual list: version control, vendored and built files.
    pub fn wrap() -> (r: Self)
        ensures
            texts(r.blocklist@) == seq![
                ".git"@,
                "node_modules"@,
                "target"@,
                "dist"@,
                "build"@,
            ],
    {
        let blocklist = vec![
            ".git".to_owned(),
            "node_modules".to_owned(),
            "target".to_owned(),
            "dist".to_owned(),
            "build".to_owned(),
        ];
        assert(texts(blocklist@) =~= seq![
            ".git"@,
            "node_modules"@,
            "target"@,
            "dist"@,
            "build"@,
        ]);
        WriteBlocklistFileSystem { blocklist }
    }

    /// A guard with a list of one's own.
    pub fn with_blocklist(blocklist: Vec<String>) -> (r: Self)
        ensures
            r.blocklist == blocklist,
    {
        WriteBlocklistFileSystem { blocklist }
    }

    /// Whether a path lies at or under a protected directory.
    pub fn is_blocked(&self, path: &str) -> (r: bool)
        ensures
            r == blocked(texts(self.blocklist@), path@),
    {
        let parts = components_of(path);
        let ghost all = texts(parts@);
        let mut i: usize = 0;
        while i < parts.len()
            invariant
                i <= parts@.len(),
                all == texts(parts@),
                all == components(path@),
                forall|k: int|
                    0 <= k < i ==> !(all[k] != ".."@ && texts(self.blocklist@).contains(
                        #[trigger] all[k],
                    )),
            decreases parts.len() - i,
        {
            if !same(parts[i].as_str(), "..") && lists(&self.blocklist, parts[i].as_str()) {
                assert(texts(self.blocklist@).contains(all[i as int]));
                return true;
            }
            i += 1;
        }
        false
    }

    /// Whether a file may be written.
    pub fn check_write(&self, path: &str) -> (r: Result<(), Error>)
        ensures
            r is Ok <==> !blocked(texts(self.blocklist@), path@),
            r matches Err(e) ==> e.is_other(
                "write blocked: `"@ + path@ + "` is under a protected directory"@,
            ),
    {
        if self.is_blocked(path) {
            return Err(
                Error::Other(
                    cat3("write blocked: `", path, "` is under a protected directory"),
                ),
            );
        }
        Ok(())
    }

    /// Whether a file may be deleted.
    pub fn check_delete(&self, path: &str) -> (r: Result<(), Error>)
        ensures
            r is Ok <==> !blocked(texts(self.blocklist@), path@),
            r matches Err(e) ==> e.is_other(
                "delete blocked: `"@ + path@ + "` is under a protected directory"@,
            ),
    {
        if self.is_blocked(path) {
            return Err(
                Error::Other(
                    cat3("delete blocked: `", path, "` is under a protected directory"),
                ),
            );
        }
        Ok(())
    }
}

} // verus!
