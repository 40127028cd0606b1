//! A workspace in memory: directories are what the slashes in its paths imply.

use vstd::prelude::*;

use crate::filesystem::{described, entries_view, listed_at, parent_and_name, stat_from_listing,
    EntryView, FileEntry, FileStat};
use crate::message::Error;
use crate::text::{byte_len, byte_len_of, cat2, cat3, chars_of, comes_before, head_len,
    lemma_text_less_transitive, lemma_text_order, next_char, same, starts_with, string_of,
    strip_prefix, text_less, trim_start_of, trimmed_start_of};

verus! {

/// A workspace's files: their contents by path.
pub type Files = Map<Seq<char>, Seq<char>>;

/// The files that a list of distinct paths and contents holds.
pub open spec fn files_of(entries: Seq<(String, String)>) -> Files
    decreases entries.len(),
{
    if entries.len() == 0 {
        Map::empty()
    } else {
        files_of(entries.drop_last()).insert(entries.last().0@, entries.last().1@)
    }
}

spec fn distinct(entries: Seq<(String, String)>) -> bool {
    forall|i: int, j: int|
        0 <= i < j < entries.len() ==> (#[trigger] entries[i]).0@ != (#[trigger] entries[j]).0@
}

proof fn lemma_files_of(entries: Seq<(String, String)>)
    requires
        distinct(entries),
    ensures
        forall|i: int|
            0 <= i < entries.len() ==> files_of(entries).contains_key(
                (#[trigger] entries[i]).0@,
            ) && files_of(entries)[entries[i].0@] == entries[i].1@,
        forall|k: Seq<char>| #[trigger]
            files_of(entries).contains_key(k) ==> exists|i: int|
                0 <= i < entries.len() && (#[trigger] entries[i]).0@ == k,
    decreases entries.len(),
{
    if entries.len() > 0 {
        let front = entries.drop_last();
        assert forall|i: int, j: int| 0 <= i < j < front.len() implies (#[trigger] front[i]).0@ != (
        #[trigger] front[j]).0@ by {
            assert(front[i] == entries[i] && front[j] == entries[j]);
        }
        lemma_files_of(front);
        assert forall|i: int| 0 <= i < entries.len() implies files_of(entries).contains_key(
            (#[trigger] entries[i]).0@,
        ) && files_of(entries)[entries[i].0@] == entries[i].1@ by {
            if i < front.len() {
                assert(front[i] == entries[i]);
                assert(entries[i].0@ != entries[entries.len() - 1].0@);
            }
        }
        assert forall|k: Seq<char>| #[trigger] files_of(entries).contains_key(k) implies exists|i: int|
            0 <= i < entries.len() && (#[trigger] entries[i]).0@ == k by {
            if k != entries.last().0@ {
                assert(files_of(front).contains_key(k));
                let i = choose|i: int| 0 <= i < front.len() && (#[trigger] front[i]).0@ == k;
                assert(entries[i].0@ == k);
            } else {
                assert(entries[entries.len() - 1].0@ == k);
            }
        }
    }
}

/// Two lists of distinct paths that agree on every path hold the same files.
proof fn lemma_same_files(entries: Seq<(String, String)>, files: Files)
    requires
        distinct(entries),
        forall|i: int|
            0 <= i < entries.len() ==> files.contains_key((#[trigger] entries[i]).0@)
                && files[entries[i].0@] == entries[i].1@,
        forall|k: Seq<char>| #[trigger]
            files.contains_key(k) ==> exists|i: int|
                0 <= i < entries.len() && (#[trigger] entries[i]).0@ == k,
    ensures
        files_of(entries) == files,
{
    lemma_files_of(entries);
    assert forall|k: Seq<char>| files_of(entries).contains_key(k) == files.contains_key(k) by {
        if files.contains_key(k) {
            let i = choose|i: int| 0 <= i < entries.len() && (#[trigger] entries[i]).0@ == k;
            assert(files_of(entries).contains_key(entries[i].0@));
        }
        if files_of(entries).contains_key(k) {
            let i = choose|i: int| 0 <= i < entries.len() && (#[trigger] entries[i]).0@ == k;
            assert(files.contains_key(entries[i].0@));
        }
    }
    assert forall|k: Seq<char>| files_of(entries).contains_key(k) implies files_of(entries)[k]
        == files[k] by {
        let i = choose|i: int| 0 <= i < entries.len() && (#[trigger] entries[i]).0@ == k;
        assert(files_of(entries)[entries[i].0@] == entries[i].1@);
        assert(files[entries[i].0@] == entries[i].1@);
    }
    assert(files_of(entries) =~= files);
}

/// The key under which a path is kept.
pub open spec fn key_of(path: Seq<char>) -> Seq<char> {
    trimmed_start_of(path, '/')
}

/// What every path inside a directory begins with.
pub open spec fn prefix_of(path: Seq<char>) -> Seq<char> {
    let key = key_of(path);
    if key.len() == 0 {
        key
    } else {
        key + "/"@
    }
}

/// The name under which a key shows up in the directory with this prefix:
/// nothing for a key outside of it.
pub open spec fn child_of(prefix: Seq<char>, key: Seq<char>) -> Option<Seq<char>> {
    let rest = key.skip(prefix.len() as int);
    if prefix.is_prefix_of(key) && rest.len() > 0 {
        Some(rest.take(head_len(rest, '/') as int))
    } else {
        None
    }
}

/// Whether a key is itself the file that its name in the directory stands for,
/// rather than something further down.
pub open spec fn is_own_child(prefix: Seq<char>, key: Seq<char>) -> bool {
    let rest = key.skip(prefix.len() as int);
    child_of(prefix, key) is Some && head_len(rest, '/') == rest.len()
}

/// Whether a name shows up in the directory with this prefix.
pub open spec fn shows(files: Files, prefix: Seq<char>, name: Seq<char>) -> bool {
    exists|key: Seq<char>| #[trigger]
        files.contains_key(key) && child_of(prefix, key) == Some(name)
}

/// The entry of a name in the directory with this prefix: the file of that
/// name when there is one, else a directory.
pub open spec fn entry_of(files: Files, prefix: Seq<char>, name: Seq<char>) -> EntryView {
    if files.contains_key(prefix + name) && is_own_child(prefix, prefix + name) {
        EntryView { name, is_dir: false, size: byte_len(files[prefix + name]) as int }
    } else {
        EntryView { name, is_dir: true, size: 0 }
    }
}

/// Whether a listing is in ascending order of its names, without repetition.
pub open spec fn by_name(entries: Seq<EntryView>) -> bool {
    forall|i: int, j: int|
        0 <= i < j < entries.len() ==> text_less(
            (#[trigger] entries[i]).name,
            (#[trigger] entries[j]).name,
        )
}

/// Whether this is the listing of the directory with this prefix: its entries
/// by name, and every name that shows up.
pub open spec fn is_listing(files: Files, prefix: Seq<char>, entries: Seq<EntryView>) -> bool {
    &&& by_name(entries)
    &&& forall|i: int|
        0 <= i < entries.len() ==> #[trigger] entries[i] == entry_of(files, prefix, entries[i].name)
            && shows(files, prefix, entries[i].name)
    &&& forall|name: Seq<char>| #[trigger]
        shows(files, prefix, name) ==> exists|i: int|
            0 <= i < entries.len() && (#[trigger] entries[i]).name == name
}

/// The files that are left once all with this prefix are gone.
pub open spec fn without_prefix(files: Files, prefix: Seq<char>) -> Files {
    files.restrict(files.dom().filter(|k: Seq<char>| !prefix.is_prefix_of(k)))
}

/// Whether a file has this prefix.
pub open spec fn any_with_prefix(files: Files, prefix: Seq<char>) -> bool {
    exists|key: Seq<char>| #[trigger] files.contains_key(key) && prefix.is_prefix_of(key)
}

/// A workspace in memory.
#[derive(Debug)]
pub struct InMemoryFileSystem {
    files: Vec<(String, String)>,
}

impl View for InMemoryFileSystem {
    type V = Files;

    closed spec fn view(&self) -> Files {
        files_of(self.files@)
    }
}

fn normalize(path: &str) -> (r: String)
    ensures
        r@ == key_of(path@),
{
    trim_start_of(path, '/')
}

/// Where a listing has this name, or would have it.
fn name_position(entries: &Vec<FileEntry>, name: &str) -> (i: usize)
    requires
        by_name(entries_view(entries@)),
    ensures
        i <= entries@.len(),
        forall|k: int| 0 <= k < i ==> text_less((#[trigger] entries_view(entries@)[k]).name, name@),
        forall|k: int|
            i <= k < entries@.len() ==> !text_less(
                (#[trigger] entries_view(entries@)[k]).name,
                name@,
            ),
{
    let ghost all = entries_view(entries@);
    let mut i: usize = 0;
    while i < entries.len() && comes_before(entries[i].name.as_str(), name)
        invariant
            i <= entries@.len(),
            all == entries_view(entries@),
            forall|k: int| 0 <= k < i ==> text_less((#[trigger] all[k]).name, name@),
        decreases entries.len() - i,
    {
        assert(all[i as int].name == entries@[i as int].name@);
        i += 1;
    }
    assert forall|k: int| i <= k < entries@.len() implies !text_less(
        (#[trigger] all[k]).name,
        name@,
    ) by {
        assert(all[i as int].name == entries@[i as int].name@);
        if text_less(all[k].name, name@) && k > i {
            lemma_text_less_transitive(all[i as int].name, all[k].name, name@);
        }
    }
    i
}

/// Put an entry into a listing, in its place: a file takes the place of any
/// entry of its name, a directory only that of none.
fn place(entries: &mut Vec<FileEntry>, entry: FileEntry)
    requires
        by_name(entries_view(old(entries)@)),
    ensures
        by_name(entries_view(final(entries)@)),
        forall|name: Seq<char>|
            #![trigger has_name(entries_view(final(entries)@), name)]
            has_name(entries_view(final(entries)@), name) <==> (has_name(
                entries_view(old(entries)@),
                name,
            ) || name == entry@.name),
        forall|i: int|
            0 <= i < entries_view(final(entries)@).len() ==> {
                let e = #[trigger] entries_view(final(entries)@)[i];
                if e.name != entry@.name || (entry@.is_dir && has_name(
                    entries_view(old(entries)@),
                    entry@.name,
                )) {
                    entries_view(old(entries)@).contains(e)
                } else {
                    e == entry@
                }
            },
{
    let ghost before = entries_view(entries@);
    let i = name_position(entries, entry.name.as_str());
    let found = i < entries.len() && same(entries[i].name.as_str(), entry.name.as_str());
    proof {
        assert(i < entries@.len() ==> before[i as int].name == entries@[i as int].name@);
        assert forall|k: int| i < k < before.len() implies text_less(
            entry@.name,
            (#[trigger] before[k]).name,
        ) by {
            lemma_text_order(before[k].name, entry@.name);
            assert(text_less(before[i as int].name, before[k].name));
            if before[k].name == entry@.name {
                assert(!text_less(before[i as int].name, entry@.name));
            }
        }
        if !found && i < before.len() {
            lemma_text_order(before[i as int].name, entry@.name);
        }
    }
    if found {
        assert(has_name(before, entry@.name));
        if !entry.is_dir {
            entries.set(i, entry);
            proof {
                let after = entries_view(entries@);
                assert(after =~= before.update(i as int, entry@));
                assert forall|name: Seq<char>|
                    #![trigger has_name(after, name)]
                    has_name(after, name) <==> (has_name(before, name) || name == entry@.name) by {
                    if has_name(before, name) {
                        let k = choose|k: int|
                            0 <= k < before.len() && (#[trigger] before[k]).name == name;
                        assert(after[k].name == name);
                    }
                    if has_name(after, name) {
                        let k = choose|k: int|
                            0 <= k < after.len() && (#[trigger] after[k]).name == name;
                        assert(before[k].name == name);
                    }
                }
                assert forall|k: int| 0 <= k < after.len() implies {
                    let e = #[trigger] after[k];
                    if e.name != entry@.name || (entry@.is_dir && has_name(before, entry@.name)) {
                        before.contains(e)
                    } else {
                        e == entry@
                    }
                } by {
                    if k != i {
                        assert(after[k] == before[k]);
                        lemma_text_order(before[k].name, entry@.name);
                    }
                }
            }
        } else {
            proof {
                assert forall|k: int| 0 <= k < before.len() implies before.contains(
                    #[trigger] before[k],
                ) by {}
            }
        }
    } else {
        assert(!has_name(before, entry@.name)) by {
            if has_name(before, entry@.name) {
                let k = choose|k: int|
                    0 <= k < before.len() && (#[trigger] before[k]).name == entry@.name;
                lemma_text_order(before[k].name, entry@.name);
            }
        }
        entries.insert(i, entry);
        proof {
            let after = entries_view(entries@);
            assert(after =~= before.insert(i as int, entry@));
            assert forall|a: int, b: int| 0 <= a < b < after.len() implies text_less(
                (#[trigger] after[a]).name,
                (#[trigger] after[b]).name,
            ) by {
                let x = if a < i {
                    a
                } else {
                    a - 1
                };
                let y = if b < i {
                    b
                } else {
                    b - 1
                };
                if a != i {
                    assert(after[a] == before[x]);
                }
                if b != i {
                    assert(after[b] == before[y]);
                }
            }
            assert forall|name: Seq<char>|
                #![trigger has_name(after, name)]
                has_name(after, name) <==> (has_name(before, name) || name == entry@.name) by {
                if has_name(before, name) {
                    let k = choose|k: int|
                        0 <= k < before.len() && (#[trigger] before[k]).name == name;
                    let n = if k < i {
                        k
                    } else {
                        k + 1
                    };
                    assert(after[n].name == name);
                }
                if name == entry@.name {
                    assert(after[i as int].name == name);
                }
                if has_name(after, name) {
                    let k = choose|k: int| 0 <= k < after.len() && (#[trigger] after[k]).name == name;
                    if k < i {
                        assert(before[k].name == name);
                    } else if k > i {
                        assert(before[k - 1].name == name);
                    }
                }
            }
            assert forall|k: int| 0 <= k < after.len() implies {
                let e = #[trigger] after[k];
                if e.name != entry@.name || (entry@.is_dir && has_name(before, entry@.name)) {
                    before.contains(e)
                } else {
                    e == entry@
                }
            } by {
                if k < i {
                    assert(after[k] == before[k]);
                    assert(before[k].name != entry@.name) by {
                        lemma_text_order(before[k].name, entry@.name);
                    }
                } else if k > i {
                    assert(after[k] == before[k - 1]);
                    lemma_text_order(before[k - 1].name, entry@.name);
                }
            }
        }
    }
}

spec fn has_name(entries: Seq<EntryView>, name: Seq<char>) -> bool {
    exists|i: int| 0 <= i < entries.len() && (#[trigger] entries[i]).name == name
}

/// The entry that a key contributes to the directory it shows up in.
spec fn contribution(prefix: Seq<char>, key: Seq<char>, content: Seq<char>) -> EntryView {
    let name = child_of(prefix, key).unwrap();
    if is_own_child(prefix, key) {
        EntryView { name, is_dir: false, size: byte_len(content) as int }
    } else {
        EntryView { name, is_dir: true, size: 0 }
    }
}

proof fn lemma_own_child(prefix: Seq<char>, key: Seq<char>)
    requires
        is_own_child(prefix, key),
    ensures
        key == prefix + child_of(prefix, key).unwrap(),
{
    let rest = key.skip(prefix.len() as int);
    assert(rest.take(head_len(rest, '/') as int) =~= rest);
    assert(key =~= prefix + rest);
}

proof fn lemma_own_child_of(prefix: Seq<char>, name: Seq<char>)
    requires
        is_own_child(prefix, prefix + name),
    ensures
        child_of(prefix, prefix + name) == Some(name),
{
    let rest = (prefix + name).skip(prefix.len() as int);
    assert(rest =~= name);
    assert(rest.take(head_len(rest, '/') as int) =~= rest);
}

proof fn lemma_listing_skips(
    files: Files,
    prefix: Seq<char>,
    entries: Seq<EntryView>,
    key: Seq<char>,
    content: Seq<char>,
)
    requires
        is_listing(files, prefix, entries),
        !files.contains_key(key),
        child_of(prefix, key) is None,
    ensures
        is_listing(files.insert(key, content), prefix, entries),
{
    let more = files.insert(key, content);
    assert forall|i: int| 0 <= i < entries.len() implies #[trigger] entries[i] == entry_of(
        more,
        prefix,
        entries[i].name,
    ) && shows(more, prefix, entries[i].name) by {
        let name = entries[i].name;
        let k = choose|k: Seq<char>| #[trigger]
            files.contains_key(k) && child_of(prefix, k) == Some(name);
        assert(more.contains_key(k));
        if key == prefix + name {
            assert(!is_own_child(prefix, key));
        }
    }
    assert forall|name: Seq<char>| #[trigger] shows(more, prefix, name) implies exists|i: int|
        0 <= i < entries.len() && (#[trigger] entries[i]).name == name by {
        let k = choose|k: Seq<char>| #[trigger]
            more.contains_key(k) && child_of(prefix, k) == Some(name);
        assert(files.contains_key(k));
        assert(shows(files, prefix, name));
    }
}

proof fn lemma_listing_grows(
    files: Files,
    prefix: Seq<char>,
    before: Seq<EntryView>,
    after: Seq<EntryView>,
    key: Seq<char>,
    content: Seq<char>,
)
    requires
        is_listing(files, prefix, before),
        !files.contains_key(key),
        child_of(prefix, key) is Some,
        by_name(after),
        forall|name: Seq<char>|
            #![trigger has_name(after, name)]
            has_name(after, name) <==> (has_name(before, name) || name == contribution(
                prefix,
                key,
                content,
            ).name),
        forall|i: int|
            0 <= i < after.len() ==> {
                let e = #[trigger] after[i];
                let entry = contribution(prefix, key, content);
                if e.name != entry.name || (entry.is_dir && has_name(before, entry.name)) {
                    before.contains(e)
                } else {
                    e == entry
                }
            },
    ensures
        is_listing(files.insert(key, content), prefix, after),
{
    let more = files.insert(key, content);
    let entry = contribution(prefix, key, content);
    assert(more.contains_key(key));
    if is_own_child(prefix, key) {
        lemma_own_child(prefix, key);
    }
    assert forall|i: int| 0 <= i < after.len() implies #[trigger] after[i] == entry_of(
        more,
        prefix,
        after[i].name,
    ) && shows(more, prefix, after[i].name) by {
        let e = after[i];
        let name = e.name;
        if before.contains(e) {
            let j = choose|j: int| 0 <= j < before.len() && before[j] == e;
            assert(before[j] == entry_of(files, prefix, before[j].name));
            let k = choose|k: Seq<char>| #[trigger]
                files.contains_key(k) && child_of(prefix, k) == Some(name);
            assert(more.contains_key(k));
        }
        if e.name != entry.name {
            if key == prefix + name && is_own_child(prefix, key) {
                lemma_own_child_of(prefix, name);
            }
        } else if entry.is_dir && !has_name(before, entry.name) {
            if is_own_child(prefix, prefix + name) {
                lemma_own_child_of(prefix, name);
                if files.contains_key(prefix + name) {
                    assert(shows(files, prefix, name));
                }
            }
        }
    }
    assert forall|name: Seq<char>| #[trigger] shows(more, prefix, name) implies exists|i: int|
        0 <= i < after.len() && (#[trigger] after[i]).name == name by {
        let k = choose|k: Seq<char>| #[trigger]
            more.contains_key(k) && child_of(prefix, k) == Some(name);
        if k != key {
            assert(files.contains_key(k));
            assert(shows(files, prefix, name));
            assert(has_name(before, name));
        }
        assert(has_name(after, name));
    }
}

impl InMemoryFileSystem {
    /// Each path is kept once.
    pub closed spec fn wf(&self) -> bool {
        distinct(self.files@)
    }

    /// An empty workspace.
    pub fn new() -> (r: Self)
        ensures
            r.wf(),
            r@ == Map::<Seq<char>, Seq<char>>::empty(),
    {
        InMemoryFileSystem { files: Vec::new() }
    }

    /// Where a key is kept.
    fn find(&self, key: &str) -> (r: Option<usize>)
        requires
            self.wf(),
        ensures
            match r {
                Some(i) => i < self.files@.len() && self.files@[i as int].0@ == key@
                    && self@.contains_key(key@) && self@[key@] == self.files@[i as int].1@,
                None => !self@.contains_key(key@) && (forall|k: int|
                    0 <= k < self.files@.len() ==> (#[trigger] self.files@[k]).0@ != key@),
            },
    {
        proof {
            lemma_files_of(self.files@);
        }
        let mut i: usize = 0;
        while i < self.files.len()
            invariant
                i <= self.files@.len(),
                self.wf(),
                forall|k: int| 0 <= k < i ==> (#[trigger] self.files@[k]).0@ != key@,
                self@ == files_of(self.files@),
            decreases self.files.len() - i,
        {
            if same(self.files[i].0.as_str(), key) {
                proof {
                    lemma_files_of(self.files@);
                    assert(files_of(self.files@).contains_key(self.files@[i as int].0@));
                }
                return Some(i);
            }
            i += 1;
        }
        None
    }

    /// The content of a file.
    pub fn read_file(&self, path: &str) -> (r: Result<String, Error>)
        requires
            self.wf(),
        ensures
            if self@.contains_key(key_of(path@)) {
                r matches Ok(content) && content@ == self@[key_of(path@)]
            } else {
                r matches Err(e) && e.is_other("no such file: `"@ + path@ + "`"@)
            },
    {
        let key = normalize(path);
        match self.find(key.as_str()) {
            Some(i) => Ok(self.files[i].1.clone()),
            None => Err(Error::Other(cat3("no such file: `", path, "`"))),
        }
    }

    /// Write a file, in place of any that was there.
    pub fn write_file(&mut self, path: &str, content: &str)
        requires
            old(self).wf(),
        ensures
            final(self).wf(),
            final(self)@ == old(self)@.insert(key_of(path@), content@),
    {
        let key = normalize(path);
        let ghost before = self.files@;
        let ghost goal = self@.insert(key@, content@);
        proof {
            lemma_files_of(before);
        }
        match self.find(key.as_str()) {
            Some(i) => {
                self.files.set(i, (key, content.to_owned()));
                proof {
                    let after = self.files@;
                    assert forall|a: int, b: int| 0 <= a < b < after.len() implies (
                    #[trigger] after[a]).0@ != (#[trigger] after[b]).0@ by {
                        assert(before[a].0@ != before[b].0@);
                    }
                    assert forall|a: int| 0 <= a < after.len() implies goal.contains_key(
                        (#[trigger] after[a]).0@,
                    ) && goal[after[a].0@] == after[a].1@ by {
                        if a != i {
                            assert(after[a] == before[a]);
                            assert(before[a].0@ != key@) by {
                                if a < i {
                                    assert(before[a].0@ != before[i as int].0@);
                                } else {
                                    assert(before[i as int].0@ != before[a].0@);
                                }
                            }
                        }
                    }
                    assert forall|k: Seq<char>| #[trigger] goal.contains_key(k) implies exists|a: int|
                        0 <= a < after.len() && (#[trigger] after[a]).0@ == k by {
                        if k == key@ {
                            assert(after[i as int].0@ == k);
                        } else {
                            assert(files_of(before).contains_key(k));
                            let a = choose|a: int|
                                0 <= a < before.len() && (#[trigger] before[a]).0@ == k;
                            assert(after[a].0@ == k);
                        }
                    }
                    lemma_same_files(after, goal);
                }
            },
            None => {
                self.files.push((key, content.to_owned()));
                proof {
                    let after = self.files@;
                    assert forall|a: int, b: int| 0 <= a < b < after.len() implies (
                    #[trigger] after[a]).0@ != (#[trigger] after[b]).0@ by {
                        if b < before.len() {
                            assert(before[a].0@ != before[b].0@);
                        } else {
                            assert(before[a].0@ != key@);
                        }
                    }
                    assert(after.drop_last() =~= before);
                }
            },
        }
    }

    /// The entries directly inside a directory, by name. A directory is there
    /// when a path leads through it.
    pub fn list_directory(&self, path: &str) -> (r: Vec<FileEntry>)
        requires
            self.wf(),
        ensures
            is_listing(self@, prefix_of(path@), entries_view(r@)),
    {
        let key = normalize(path);
        let prefix = if key.as_str().is_empty() {
            key
        } else {
            cat2(key.as_str(), "/")
        };
        let mut listing: Vec<FileEntry> = Vec::new();
        let mut i: usize = 0;
        proof {
            let none = self.files@.take(0);
            assert(none.len() == 0);
            assert(files_of(none) =~= Map::empty());
            assert forall|name: Seq<char>| !(#[trigger] shows(files_of(none), prefix@, name)) by {}
            assert(entries_view(listing@) =~= Seq::<EntryView>::empty());
        }
        while i < self.files.len()
            invariant
                i <= self.files@.len(),
                self.wf(),
                prefix@ == prefix_of(path@),
                by_name(entries_view(listing@)),
                is_listing(files_of(self.files@.take(i as int)), prefix@, entries_view(listing@)),
            decreases self.files.len() - i,
        {
            let ghost done = self.files@.take(i as int);
            let ghost files = files_of(done);
            let ghost before = entries_view(listing@);
            let key = &self.files[i].0;
            let content = &self.files[i].1;
            proof {
                let next = self.files@.take(i + 1);
                assert(next.drop_last() =~= done);
                assert(next.last() == self.files@[i as int]);
                assert forall|a: int, b: int| 0 <= a < b < done.len() implies (
                #[trigger] done[a]).0@ != (#[trigger] done[b]).0@ by {
                    assert(self.files@[a].0@ != self.files@[b].0@);
                }
                lemma_files_of(done);
                if files.contains_key(key@) {
                    let a = choose|a: int| 0 <= a < done.len() && (#[trigger] done[a]).0@ == key@;
                    assert(self.files@[a].0@ != self.files@[i as int].0@);
                }
            }
            match strip_prefix(key.as_str(), prefix.as_str()) {
                None => {
                    proof {
                        lemma_listing_skips(files, prefix@, before, key@, content@);
                    }
                },
                Some(rest) => {
                    if rest.as_str().is_empty() {
                        proof {
                            lemma_listing_skips(files, prefix@, before, key@, content@);
                        }
                    } else {
                        let chars = chars_of(rest.as_str());
                        let end = next_char(&chars, '/', 0);
                        assert(chars@.skip(0) =~= rest@);
                        let name = string_of(&chars, 0, end);
                        assert(name@ =~= rest@.take(end as int));
                        let entry = if end == chars.len() {
                            FileEntry::file(name, byte_len_of(content.as_str()) as u64)
                        } else {
                            FileEntry::dir(name)
                        };
                        assert(entry@ == contribution(prefix@, key@, content@));
                        place(&mut listing, entry);
                        proof {
                            lemma_listing_grows(
                                files,
                                prefix@,
                                before,
                                entries_view(listing@),
                                key@,
                                content@,
                            );
                        }
                    }
                },
            }
            i += 1;
        }
        assert(self.files@.take(i as int) =~= self.files@);
        listing
    }

    /// What is known of a path.
    pub fn stat(&self, path: &str) -> (r: FileStat)
        requires
            self.wf(),
        ensures
            exists|entries: Seq<EntryView>|
                (listed_at(path@) matches Some((parent, _)) ==> is_listing(
                    self@,
                    prefix_of(parent),
                    entries,
                )) && r@ == #[trigger] described(path@, Some(entries)),
    {
        match parent_and_name(path) {
            None => {
                let r = stat_from_listing(path, &None);
                assert(r@ == described(path@, Some(Seq::<EntryView>::empty())));
                r
            },
            Some((parent, _)) => {
                let entries = self.list_directory(parent.as_str());
                let ghost shown = entries_view(entries@);
                let r = stat_from_listing(path, &Some(entries));
                assert(r@ == described(path@, Some(shown)));
                r
            },
        }
    }

    /// Delete a file, or everything inside a directory when `recursive` is
    /// set. A directory is not deleted without it.
    pub fn delete_file(&mut self, path: &str, recursive: bool) -> (r: Result<(), Error>)
        requires
            old(self).wf(),
        ensures
            final(self).wf(),
            if old(self)@.contains_key(key_of(path@)) {
                r is Ok && final(self)@ == old(self)@.remove(key_of(path@))
            } else if !any_with_prefix(old(self)@, key_of(path@) + "/"@) {
                (r matches Err(e) && e.is_other("no such file: `"@ + path@ + "`"@))
                    && final(self)@ == old(self)@
            } else if !recursive {
                (r matches Err(e) && e.is_other(
                    "`"@ + path@ + "` is a directory; pass recursive=true"@,
                )) && final(self)@ == old(self)@
            } else {
                r is Ok && final(self)@ == without_prefix(old(self)@, key_of(path@) + "/"@)
            },
    {
        let key = normalize(path);
        let ghost before = self.files@;
        proof {
            lemma_files_of(before);
        }
        if let Some(i) = self.find(key.as_str()) {
            let ghost goal = self@.remove(key@);
            self.files.remove(i);
            proof {
                let after = self.files@;
                assert(after =~= before.remove(i as int));
                assert forall|a: int| 0 <= a < after.len() implies {
                    let b = if a < i {
                        a
                    } else {
                        a + 1
                    };
                    #[trigger] after[a] == before[b]
                } by {}
                assert forall|a: int, b: int| 0 <= a < b < after.len() implies (
                #[trigger] after[a]).0@ != (#[trigger] after[b]).0@ by {
                    let x = if a < i {
                        a
                    } else {
                        a + 1
                    };
                    let y = if b < i {
                        b
                    } else {
                        b + 1
                    };
                    assert(before[x].0@ != before[y].0@);
                }
                assert forall|a: int| 0 <= a < after.len() implies goal.contains_key(
                    (#[trigger] after[a]).0@,
                ) && goal[after[a].0@] == after[a].1@ by {
                    let x = if a < i {
                        a
                    } else {
                        a + 1
                    };
                    assert(after[a] == before[x]);
                    if x < i {
                        assert(before[x].0@ != before[i as int].0@);
                    } else {
                        assert(before[i as int].0@ != before[x].0@);
                    }
                }
                assert forall|k: Seq<char>| #[trigger] goal.contains_key(k) implies exists|a: int|
                    0 <= a < after.len() && (#[trigger] after[a]).0@ == k by {
                    assert(files_of(before).contains_key(k));
                    let x = choose|x: int| 0 <= x < before.len() && (#[trigger] before[x]).0@ == k;
                    let a = if x < i {
                        x
                    } else {
                        x - 1
                    };
                    assert(after[a].0@ == k);
                }
                lemma_same_files(after, goal);
            }
            return Ok(());
        }
        let prefix = cat2(key.as_str(), "/");
        let mut kept: Vec<(String, String)> = Vec::new();
        let mut matched = false;
        let mut i: usize = 0;
        while i < self.files.len()
            invariant
                i <= self.files@.len(),
                self.files@ == before,
                distinct(before),
                distinct(kept@),
                matched == (exists|a: int|
                    0 <= a < i && prefix@.is_prefix_of((#[trigger] before[a]).0@)),
                forall|a: int|
                    0 <= a < kept@.len() ==> !prefix@.is_prefix_of((#[trigger] kept@[a]).0@)
                        && (exists|b: int|
                        0 <= b < i && kept@[a].0@ == (#[trigger] before[b]).0@ && kept@[a].1@
                            == before[b].1@),
                forall|b: int|
                    0 <= b < i && !prefix@.is_prefix_of((#[trigger] before[b]).0@) ==> exists|a: int|
                        0 <= a < kept@.len() && (#[trigger] kept@[a]).0@ == before[b].0@,
            decreases self.files.len() - i,
        {
            let ghost earlier = kept@;
            if starts_with(self.files[i].0.as_str(), prefix.as_str()) {
                matched = true;
                assert(prefix@.is_prefix_of(before[i as int].0@));
            } else {
                kept.push((self.files[i].0.clone(), self.files[i].1.clone()));
                proof {
                    assert forall|a: int, b: int| 0 <= a < b < kept@.len() implies (
                    #[trigger] kept@[a]).0@ != (#[trigger] kept@[b]).0@ by {
                        if b == earlier.len() {
                            assert(kept@[a] == earlier[a]);
                            let c = choose|c: int|
                                0 <= c < i && earlier[a].0@ == (#[trigger] before[c]).0@
                                    && earlier[a].1@ == before[c].1@;
                            assert(before[c].0@ != before[i as int].0@);
                        } else {
                            assert(kept@[a] == earlier[a] && kept@[b] == earlier[b]);
                        }
                    }
                    assert forall|a: int| 0 <= a < kept@.len() implies !prefix@.is_prefix_of(
                        (#[trigger] kept@[a]).0@,
                    ) && (exists|b: int|
                        0 <= b < i + 1 && kept@[a].0@ == (#[trigger] before[b]).0@ && kept@[a].1@
                            == before[b].1@) by {
                        if a < earlier.len() {
                            assert(kept@[a] == earlier[a]);
                            let b = choose|b: int|
                                0 <= b < i && earlier[a].0@ == (#[trigger] before[b]).0@
                                    && earlier[a].1@ == before[b].1@;
                            assert(kept@[a].0@ == before[b].0@);
                        } else {
                            assert(kept@[a].0@ == before[i as int].0@);
                        }
                    }
                    assert forall|b: int|
                        0 <= b < i + 1 && !prefix@.is_prefix_of(
                            (#[trigger] before[b]).0@,
                        ) implies exists|a: int|
                        0 <= a < kept@.len() && (#[trigger] kept@[a]).0@ == before[b].0@ by {
                        if b < i {
                            let a = choose|a: int|
                                0 <= a < earlier.len() && (#[trigger] earlier[a]).0@ == before[b].0@;
                            assert(kept@[a].0@ == before[b].0@);
                        } else {
                            assert(kept@[earlier.len() as int].0@ == before[b].0@);
                        }
                    }
                }
            }
            i += 1;
        }
        proof {
            assert(matched == any_with_prefix(self@, prefix@)) by {
                if matched {
                    let a = choose|a: int|
                        0 <= a < i && prefix@.is_prefix_of((#[trigger] before[a]).0@);
                    assert(self@.contains_key(before[a].0@));
                }
                if any_with_prefix(self@, prefix@) {
                    let k = choose|k: Seq<char>| #[trigger]
                        self@.contains_key(k) && prefix@.is_prefix_of(k);
                    let a = choose|a: int| 0 <= a < before.len() && (#[trigger] before[a]).0@ == k;
                    assert(prefix@.is_prefix_of(before[a].0@));
                }
            }
        }
        if !matched {
            return Err(Error::Other(cat3("no such file: `", path, "`")));
        }
        if !recursive {
            return Err(
                Error::Other(cat3("`", path, "` is a directory; pass recursive=true")),
            );
        }
        proof {
            let goal = without_prefix(self@, prefix@);
            assert forall|a: int| 0 <= a < kept@.len() implies goal.contains_key(
                (#[trigger] kept@[a]).0@,
            ) && goal[kept@[a].0@] == kept@[a].1@ by {
                let b = choose|b: int|
                    0 <= b < i && kept@[a].0@ == (#[trigger] before[b]).0@ && kept@[a].1@
                        == before[b].1@;
                assert(files_of(before).contains_key(before[b].0@));
            }
            assert forall|k: Seq<char>| #[trigger] goal.contains_key(k) implies exists|a: int|
                0 <= a < kept@.len() && (#[trigger] kept@[a]).0@ == k by {
                assert(files_of(before).contains_key(k));
                let b = choose|b: int| 0 <= b < before.len() && (#[trigger] before[b]).0@ == k;
                let a = choose|a: int|
                    0 <= a < kept@.len() && (#[trigger] kept@[a]).0@ == before[b].0@;
                assert(kept@[a].0@ == k);
            }
            lemma_same_files(kept@, goal);
        }
        self.files = kept;
        Ok(())
    }
}

/// A file that was written reads back as it was written; every other file is
/// untouched.
pub proof fn write_then_read(files: Files, path: Seq<char>, content: Seq<char>, other: Seq<char>)
    ensures
        files.insert(key_of(path), content)[key_of(path)] == content,
        key_of(other) != key_of(path) ==> files.insert(key_of(path), content).contains_key(
            key_of(other),
        ) == files.contains_key(key_of(other)) && files.insert(key_of(path), content)[key_of(
            other,
        )] == files[key_of(other)],
{
}

/// A directory that was deleted with everything inside is listed as empty.
pub proof fn deleted_directory_is_empty(
    files: Files,
    path: Seq<char>,
    entries: Seq<EntryView>,
)
    requires
        key_of(path).len() > 0,
        is_listing(without_prefix(files, key_of(path) + "/"@), prefix_of(path), entries),
    ensures
        entries.len() == 0,
{
    if entries.len() > 0 {
        let left = without_prefix(files, key_of(path) + "/"@);
        assert(shows(left, prefix_of(path), entries[0].name));
        let k = choose|k: Seq<char>| #[trigger]
            left.contains_key(k) && child_of(prefix_of(path), k) == Some(entries[0].name);
        assert(prefix_of(path).is_prefix_of(k));
    }
}

/// The listing of a directory is determined by the files alone.
pub proof fn listing_is_unique(
    files: Files,
    prefix: Seq<char>,
    a: Seq<EntryView>,
    b: Seq<EntryView>,
)
    requires
        is_listing(files, prefix, a),
        is_listing(files, prefix, b),
    ensures
        a == b,
    decreases a.len(),
{
    lemma_same_names(files, prefix, a, b, 0);
    lemma_same_names(files, prefix, b, a, 0);
    assert(a =~= b);
}

/// From position `n` on, up to which they agree, two listings agree.
proof fn lemma_same_names(
    files: Files,
    prefix: Seq<char>,
    a: Seq<EntryView>,
    b: Seq<EntryView>,
    n: int,
)
    requires
        is_listing(files, prefix, a),
        is_listing(files, prefix, b),
        0 <= n <= a.len(),
        n <= b.len(),
        forall|k: int| 0 <= k < n ==> #[trigger] a[k] == b[k],
    ensures
        a.len() == b.len(),
        forall|k: int| 0 <= k < a.len() ==> #[trigger] a[k] == b[k],
    decreases a.len() - n,
{
    if n < a.len() {
        assert(shows(files, prefix, a[n].name));
        let j = choose|j: int| 0 <= j < b.len() && (#[trigger] b[j]).name == a[n].name;
        if j < n {
            assert(a[j] == b[j]);
            assert(text_less(a[j].name, a[n].name));
            lemma_text_order(a[j].name, a[n].name);
        }
        assert(shows(files, prefix, b[n].name));
        let i = choose|i: int| 0 <= i < a.len() && (#[trigger] a[i]).name == b[n].name;
        if i < n {
            assert(a[i] == b[i]);
            assert(text_less(b[i].name, b[n].name));
            lemma_text_order(b[i].name, b[n].name);
        }
        if j > n {
            assert(text_less(b[n].name, b[j].name));
            if i > n {
                assert(text_less(a[n].name, a[i].name));
                lemma_text_order(a[n].name, b[n].name);
            } else {
                lemma_text_order(b[n].name, b[j].name);
            }
        }
        assert(a[n] == b[n]);
        lemma_same_names(files, prefix, a, b, n + 1);
    } else if b.len() > n {
        assert(shows(files, prefix, b[n].name));
        let i = choose|i: int| 0 <= i < a.len() && (#[trigger] a[i]).name == b[n].name;
        assert(a[i] == b[i]);
        assert(text_less(b[i].name, b[n].name));
        lemma_text_order(b[i].name, b[n].name);
    }
}

} // verus!
