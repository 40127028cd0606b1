//! What a whole search covers.

use vstd::prelude::*;

use crate::filesystem::EntryView;
use crate::filesystem::grep::{entry_path, fresh_search, grep_next, grep_scanned, hits_of,
    match_text, with_matches, GrepView, StepView, MAX_GREP_MATCHES};
use crate::text::lines_of;

verus! {

/// A workspace that does not change: what listing a directory gives, and what
/// reading a file gives. Nothing stands for what cannot be listed or read.
pub ghost struct Holdings {
    pub list: spec_fn(Seq<char>) -> Option<Seq<EntryView>>,
    pub read: spec_fn(Seq<char>) -> Option<Seq<char>>,
}

impl Holdings {
    /// The entries of a directory; none for one that cannot be listed.
    pub open spec fn entries(self, directory: Seq<char>) -> Seq<EntryView> {
        match (self.list)(directory) {
            Some(entries) => entries,
            None => Seq::empty(),
        }
    }

    /// The path of an entry of a directory.
    pub open spec fn child(self, directory: Seq<char>, k: int) -> Seq<char> {
        entry_path(directory, self.entries(directory)[k].name)
    }

    /// Whether an entry of a directory has this path, and is a directory or not.
    pub open spec fn holds(self, directory: Seq<char>, path: Seq<char>, is_dir: bool) -> bool {
        exists|k: int|
            0 <= k < self.entries(directory).len() && self.entries(directory)[k].is_dir == is_dir
                && path == #[trigger] self.child(directory, k)
    }

    /// Whether each of these directories holds the next one.
    pub open spec fn is_way(self, way: Seq<Seq<char>>) -> bool {
        forall|i: int|
            0 <= i < way.len() - 1 ==> self.holds(#[trigger] way[i], way[i + 1], true)
    }

    /// Whether a directory is the root, or lies somewhere under it.
    pub open spec fn is_under(self, root: Seq<char>, directory: Seq<char>) -> bool {
        exists|way: Seq<Seq<char>>|
            way.len() > 0 && way[0] == root && way.last() == directory && #[trigger] self.is_way(
                way,
            )
    }

    /// Whether a file lies somewhere under a root.
    pub open spec fn has_file(self, root: Seq<char>, path: Seq<char>) -> bool {
        exists|directory: Seq<char>| #[trigger]
            self.is_under(root, directory) && self.holds(directory, path, false)
    }

    /// Whether the entries of every directory have names of their own, none
    /// empty and none with a slash in it.
    pub open spec fn is_tidy(self) -> bool {
        &&& forall|d: Seq<char>, k: int|
            0 <= k < self.entries(d).len() ==> {
                let name = (#[trigger] self.entries(d)[k]).name;
                name.len() > 0 && !name.contains('/')
            }
        &&& forall|d: Seq<char>, j: int, k: int|
            0 <= j < k < self.entries(d).len() ==> (#[trigger] self.entries(d)[j]).name != (
            #[trigger] self.entries(d)[k]).name
    }
}

/// A search that took one more step and got what it asked for.
pub open spec fn answered(s: GrepView, held: Holdings, pattern: regex::Regex) -> GrepView {
    let (t, step) = grep_next(s);
    match step {
        StepView::List(directory) => GrepView { entries: held.entries(directory), ..t },
        StepView::Read(path) => match (held.read)(path) {
            Some(content) => grep_scanned(
                t,
                path,
                lines_of(content),
                hits_of(pattern, lines_of(content)),
            ),
            None => t,
        },
        StepView::Done => t,
    }
}

/// A search under a root after `n` steps.
pub open spec fn search_after(
    root: Seq<char>,
    held: Holdings,
    pattern: regex::Regex,
    n: nat,
) -> GrepView
    decreases n,
{
    if n == 0 {
        fresh_search(root)
    } else {
        answered(search_after(root, held, pattern, (n - 1) as nat), held, pattern)
    }
}

/// The files that a search under a root asked for in its first `n` steps.
pub open spec fn files_after(
    root: Seq<char>,
    held: Holdings,
    pattern: regex::Regex,
    n: nat,
) -> Seq<Seq<char>>
    decreases n,
{
    if n == 0 {
        Seq::empty()
    } else {
        let earlier = files_after(root, held, pattern, (n - 1) as nat);
        match grep_next(search_after(root, held, pattern, (n - 1) as nat)).1 {
            StepView::Read(path) => earlier.push(path),
            _ => earlier,
        }
    }
}

/// The matches in the first `n` lines of a file.
pub open spec fn matches_in(
    path: Seq<char>,
    lines: Seq<Seq<char>>,
    hits: Seq<bool>,
    n: int,
) -> Seq<Seq<char>>
    decreases n,
{
    if n <= 0 {
        Seq::empty()
    } else if hits[n - 1] {
        matches_in(path, lines, hits, n - 1).push(match_text(path, n, lines[n - 1]))
    } else {
        matches_in(path, lines, hits, n - 1)
    }
}

/// The matches in all of a file; none in one that cannot be read.
pub open spec fn file_matches(held: Holdings, pattern: regex::Regex, path: Seq<char>) -> Seq<
    Seq<char>,
> {
    match (held.read)(path) {
        Some(content) => {
            let lines = lines_of(content);
            matches_in(path, lines, hits_of(pattern, lines), lines.len() as int)
        },
        None => Seq::empty(),
    }
}

/// The matches in all of some files, one file after the other.
pub open spec fn all_matches(
    held: Holdings,
    pattern: regex::Regex,
    files: Seq<Seq<char>>,
) -> Seq<Seq<char>>
    decreases files.len(),
{
    if files.len() == 0 {
        Seq::empty()
    } else {
        all_matches(held, pattern, files.drop_last()) + file_matches(held, pattern, files.last())
    }
}

/// A search that ends without stopping at a limit has found everything: it
/// asked for exactly the files under its root, and it has every matching line
/// of each one that can be read and nothing else. Where the names in each
/// directory differ it asked for no file twice, so it has each line once.
pub proof fn finished_search_found_everything(
    root: Seq<char>,
    held: Holdings,
    pattern: regex::Regex,
    n: nat,
)
    requires
        grep_next(search_after(root, held, pattern, n)).1 is Done,
        !grep_next(search_after(root, held, pattern, n)).0.truncated,
    ensures
        ({
            let end = grep_next(search_after(root, held, pattern, n)).0;
            let files = files_after(root, held, pattern, n);
            &&& end.matches == all_matches(held, pattern, files)
            &&& forall|path: Seq<char>| #[trigger]
                files.contains(path) <==> held.has_file(root, path)
            &&& held.is_tidy() ==> files.no_duplicates()
        }),
{
    let s = search_after(root, held, pattern, n);
    let files = files_after(root, held, pattern, n);
    let dirs = lemma_run(root, held, pattern, n);
    lemma_next(root, held, s, files, dirs);
    let end = grep_next(s).0;
    assert forall|path: Seq<char>| #[trigger]
        files.contains(path) <==> held.has_file(root, path) by {
        if held.has_file(root, path) {
            let d = choose|d: Seq<char>| #[trigger]
                held.is_under(root, d) && held.holds(d, path, false);
            let way = choose|way: Seq<Seq<char>>|
                way.len() > 0 && way[0] == root && way.last() == d && #[trigger] held.is_way(way);
            lemma_way_is_walked(root, held, end, files, dirs, way, way.len() - 1);
            let k = choose|k: int|
                0 <= k < held.entries(d).len() && held.entries(d)[k].is_dir == false && path
                    == #[trigger] held.child(d, k);
            assert(handled(held, dirs, 0, d, k));
        }
    }
}

/// Whether an entry of a directory was come by, where the last directory has
/// `left` entries still to look at.
spec fn handled(held: Holdings, dirs: Seq<Seq<char>>, left: int, d: Seq<char>, k: int) -> bool {
    &&& dirs.contains(d)
    &&& 0 <= k < held.entries(d).len()
    &&& d == dirs.last() ==> k < held.entries(d).len() - left
}

/// Whether a path is that of an entry that was come by.
spec fn come_by(
    held: Holdings,
    dirs: Seq<Seq<char>>,
    left: int,
    path: Seq<char>,
    is_dir: bool,
) -> bool {
    exists|d: Seq<char>, k: int| #[trigger]
        handled(held, dirs, left, d, k) && held.entries(d)[k].is_dir == is_dir && path
            == held.child(d, k)
}

/// How a search stands to the directories it listed and the files it asked for.
spec fn on_track(
    root: Seq<char>,
    held: Holdings,
    s: GrepView,
    files: Seq<Seq<char>>,
    dirs: Seq<Seq<char>>,
) -> bool {
    let left = s.entries.len() as int;
    &&& dirs.len() == 0 ==> left == 0
    &&& dirs.len() > 0 ==> {
        let all = held.entries(s.directory);
        dirs.last() == s.directory && left <= all.len() && s.entries == all.skip(all.len() - left)
    }
    &&& s.queue.contains(root) || dirs.contains(root)
    &&& forall|q: Seq<char>| #[trigger] s.queue.contains(q) ==> held.is_under(root, q)
    &&& forall|q: Seq<char>| #[trigger] dirs.contains(q) ==> held.is_under(root, q)
    &&& forall|p: Seq<char>| #[trigger] files.contains(p) ==> held.has_file(root, p)
    &&& forall|d: Seq<char>, k: int| #[trigger]
        handled(held, dirs, left, d, k) ==> {
            let p = held.child(d, k);
            if held.entries(d)[k].is_dir {
                s.queue.contains(p) || dirs.contains(p)
            } else {
                files.contains(p)
            }
        }
}

/// Whether nothing was come by twice, and all of it by way of an entry.
spec fn once_each(
    root: Seq<char>,
    held: Holdings,
    s: GrepView,
    files: Seq<Seq<char>>,
    dirs: Seq<Seq<char>>,
) -> bool {
    let left = s.entries.len() as int;
    &&& s.queue.no_duplicates()
    &&& dirs.no_duplicates()
    &&& forall|q: Seq<char>| #[trigger] s.queue.contains(q) ==> !dirs.contains(q)
    &&& files.no_duplicates()
    &&& forall|q: Seq<char>| #[trigger]
        s.queue.contains(q) ==> q == root || come_by(held, dirs, left, q, true)
    &&& forall|q: Seq<char>| #[trigger]
        dirs.contains(q) ==> q == root || come_by(held, dirs, left, q, true)
    &&& forall|p: Seq<char>| #[trigger]
        files.contains(p) ==> come_by(held, dirs, left, p, false)
}

proof fn lemma_under(root: Seq<char>, held: Holdings, d: Seq<char>, p: Seq<char>)
    requires
        held.is_under(root, d),
        held.holds(d, p, true),
    ensures
        held.is_under(root, p),
{
    let way = choose|way: Seq<Seq<char>>|
        way.len() > 0 && way[0] == root && way.last() == d && #[trigger] held.is_way(way);
    let longer = way.push(p);
    assert forall|i: int| 0 <= i < longer.len() - 1 implies held.holds(
        #[trigger] longer[i],
        longer[i + 1],
        true,
    ) by {
        assert(longer[i] == way[i]);
        if i < way.len() - 1 {
            assert(longer[i + 1] == way[i + 1]);
        }
    }
    assert(held.is_way(longer));
}

proof fn lemma_way_is_walked(
    root: Seq<char>,
    held: Holdings,
    s: GrepView,
    files: Seq<Seq<char>>,
    dirs: Seq<Seq<char>>,
    way: Seq<Seq<char>>,
    i: int,
)
    requires
        on_track(root, held, s, files, dirs),
        s.entries.len() == 0,
        s.queue.len() == 0,
        held.is_way(way),
        0 <= i < way.len(),
        way[0] == root,
    ensures
        dirs.contains(way[i]),
    decreases i,
{
    assert(forall|q: Seq<char>| !s.queue.contains(q));
    if i > 0 {
        lemma_way_is_walked(root, held, s, files, dirs, way, i - 1);
        let d = way[i - 1];
        assert(held.holds(way[i - 1], way[i - 1 + 1], true));
        let k = choose|k: int|
            0 <= k < held.entries(d).len() && held.entries(d)[k].is_dir == true && way[i]
                == #[trigger] held.child(d, k);
        assert(handled(held, dirs, 0, d, k));
    }
}

proof fn lemma_child_longer(held: Holdings, d: Seq<char>, k: int)
    requires
        held.is_tidy(),
        0 <= k < held.entries(d).len(),
    ensures
        held.child(d, k).len() > d.len(),
{
    assert(held.entries(d)[k].name.len() > 0);
}

proof fn lemma_under_not_shorter(root: Seq<char>, held: Holdings, way: Seq<Seq<char>>, i: int)
    requires
        held.is_tidy(),
        held.is_way(way),
        0 <= i < way.len(),
        way[0] == root,
    ensures
        way[i].len() >= root.len(),
    decreases i,
{
    if i > 0 {
        lemma_under_not_shorter(root, held, way, i - 1);
        let d = way[i - 1];
        assert(held.holds(way[i - 1], way[i - 1 + 1], true));
        let k = choose|k: int|
            0 <= k < held.entries(d).len() && held.entries(d)[k].is_dir == true && way[i]
                == #[trigger] held.child(d, k);
        lemma_child_longer(held, d, k);
    }
}

/// In a tidy workspace a path is that of one entry only.
proof fn lemma_one_parent(held: Holdings, a: Seq<char>, j: int, b: Seq<char>, k: int)
    requires
        held.is_tidy(),
        0 <= j < held.entries(a).len(),
        0 <= k < held.entries(b).len(),
        held.child(a, j) == held.child(b, k),
    ensures
        a == b,
        j == k,
{
    reveal_strlit("/");
    let x = held.entries(a)[j].name;
    let y = held.entries(b)[k].name;
    let p = held.child(a, j);
    assert("/"@.len() == 1 && "/"@[0] == '/');
    if a.len() > 0 {
        assert(p[a.len() as int] == '/');
        assert(p =~= a + "/"@ + x);
        assert(p.len() == a.len() + 1 + x.len());
    }
    if b.len() > 0 {
        assert(p[b.len() as int] == '/');
        assert(p =~= b + "/"@ + y);
        assert(p.len() == b.len() + 1 + y.len());
    }
    if a.len() == 0 && b.len() > 0 {
        assert(x[b.len() as int] == '/');
    } else if b.len() == 0 && a.len() > 0 {
        assert(y[a.len() as int] == '/');
    } else if a.len() < b.len() {
        assert((a + "/"@ + x)[b.len() as int] == x[b.len() - a.len() - 1]);
        assert(x[b.len() - a.len() - 1] == '/');
    } else if b.len() < a.len() {
        assert((b + "/"@ + y)[a.len() as int] == y[a.len() - b.len() - 1]);
        assert(y[a.len() - b.len() - 1] == '/');
    }
    assert(a.len() == b.len());
    if a.len() > 0 {
        assert(a =~= p.take(a.len() as int));
        assert(b =~= p.take(a.len() as int));
        assert(x =~= p.skip(a.len() as int + 1));
        assert(y =~= p.skip(a.len() as int + 1));
    } else {
        assert(a =~= b);
    }
    assert(x == y);
    if j < k {
        assert(held.entries(a)[j].name != held.entries(a)[k].name);
    } else if k < j {
        assert(held.entries(a)[k].name != held.entries(a)[j].name);
    }
}

/// The entry that is next was not come by before, where the workspace is tidy.
proof fn lemma_entry_is_new(
    root: Seq<char>,
    held: Holdings,
    s: GrepView,
    files: Seq<Seq<char>>,
    dirs: Seq<Seq<char>>,
)
    requires
        on_track(root, held, s, files, dirs),
        once_each(root, held, s, files, dirs),
        held.is_tidy(),
        s.entries.len() > 0,
    ensures
        ({
            let path = entry_path(s.directory, s.entries[0].name);
            !s.queue.contains(path) && !dirs.contains(path) && !files.contains(path)
        }),
{
    let path = entry_path(s.directory, s.entries[0].name);
    let left = s.entries.len() as int;
    let here = s.directory;
    let at = held.entries(here).len() - left;
    assert(path == held.child(here, at));
    assert(dirs.contains(here)) by {
        assert(dirs[dirs.len() - 1] == here);
    }
    let way = choose|way: Seq<Seq<char>>|
        way.len() > 0 && way[0] == root && way.last() == here && #[trigger] held.is_way(way);
    lemma_under_not_shorter(root, held, way, way.len() - 1);
    lemma_child_longer(held, here, at);
    assert forall|is_dir: bool| !come_by(held, dirs, left, path, is_dir) by {
        if come_by(held, dirs, left, path, is_dir) {
            let (d, k) = choose|d: Seq<char>, k: int| #[trigger]
                handled(held, dirs, left, d, k) && held.entries(d)[k].is_dir == is_dir && path
                    == held.child(d, k);
            lemma_one_parent(held, d, k, here, at);
        }
    }
}

proof fn lemma_come_by_more(
    held: Holdings,
    dirs: Seq<Seq<char>>,
    left: int,
    path: Seq<char>,
    is_dir: bool,
)
    requires
        come_by(held, dirs, left, path, is_dir),
    ensures
        come_by(held, dirs, left - 1, path, is_dir),
{
    let (d, k) = choose|d: Seq<char>, k: int| #[trigger]
        handled(held, dirs, left, d, k) && held.entries(d)[k].is_dir == is_dir && path
            == held.child(d, k);
    assert(handled(held, dirs, left - 1, d, k));
}

proof fn lemma_push_contains(s: Seq<Seq<char>>, x: Seq<char>)
    ensures
        forall|q: Seq<char>| #[trigger] s.push(x).contains(q) <==> s.contains(q) || q == x,
        s.no_duplicates() && !s.contains(x) ==> s.push(x).no_duplicates(),
{
    assert forall|q: Seq<char>| #[trigger] s.push(x).contains(q) <==> s.contains(q) || q == x by {
        if s.contains(q) {
            let i = choose|i: int| 0 <= i < s.len() && s[i] == q;
            assert(s.push(x)[i] == q);
        }
        if q == x {
            assert(s.push(x)[s.len() as int] == q);
        }
        if s.push(x).contains(q) && q != x {
            let i = choose|i: int| 0 <= i < s.push(x).len() && s.push(x)[i] == q;
            assert(s[i] == q);
        }
    }
}

/// Putting off a directory keeps a search on track.
proof fn lemma_directory_put_off(
    root: Seq<char>,
    held: Holdings,
    s: GrepView,
    files: Seq<Seq<char>>,
    dirs: Seq<Seq<char>>,
)
    requires
        on_track(root, held, s, files, dirs),
        held.is_tidy() ==> once_each(root, held, s, files, dirs),
        s.entries.len() > 0,
        s.entries[0].is_dir,
    ensures
        ({
            let path = entry_path(s.directory, s.entries[0].name);
            let t = GrepView { entries: s.entries.drop_first(), queue: s.queue.push(path), ..s };
            &&& on_track(root, held, t, files, dirs)
            &&& held.is_tidy() ==> once_each(root, held, t, files, dirs)
        }),
{
    let path = entry_path(s.directory, s.entries[0].name);
    let t = GrepView { entries: s.entries.drop_first(), queue: s.queue.push(path), ..s };
    let left = s.entries.len() as int;
    let here = s.directory;
    let all = held.entries(here);
    let at = all.len() - left;
    assert(s.entries[0] == all[at]);
    assert(path == held.child(here, at));
    assert(dirs.contains(here)) by {
        assert(dirs[dirs.len() - 1] == here);
    }
    assert(held.holds(here, path, true));
    lemma_under(root, held, here, path);
    lemma_push_contains(s.queue, path);
    assert(t.entries =~= all.skip(all.len() - (left - 1)));
    assert forall|d: Seq<char>, k: int| #[trigger] handled(held, dirs, left - 1, d, k) implies ({
        let p = held.child(d, k);
        if held.entries(d)[k].is_dir {
            t.queue.contains(p) || dirs.contains(p)
        } else {
            files.contains(p)
        }
    }) by {
        assert(handled(held, dirs, left, d, k) || (d == here && k == at));
    }
    if held.is_tidy() {
        lemma_entry_is_new(root, held, s, files, dirs);
        assert(handled(held, dirs, left - 1, here, at));
        assert(come_by(held, dirs, left - 1, path, true));
        assert forall|q: Seq<char>| #[trigger] t.queue.contains(q) implies q == root || come_by(
            held,
            dirs,
            left - 1,
            q,
            true,
        ) by {
            if q != path && q != root {
                lemma_come_by_more(held, dirs, left, q, true);
            }
        }
        assert forall|q: Seq<char>| #[trigger] dirs.contains(q) implies q == root || come_by(
            held,
            dirs,
            left - 1,
            q,
            true,
        ) by {
            if q != root {
                lemma_come_by_more(held, dirs, left, q, true);
            }
        }
        assert forall|p: Seq<char>| #[trigger] files.contains(p) implies come_by(
            held,
            dirs,
            left - 1,
            p,
            false,
        ) by {
            lemma_come_by_more(held, dirs, left, p, false);
        }
    }
}

/// Asking for a file keeps a search on track.
proof fn lemma_file_asked_for(
    root: Seq<char>,
    held: Holdings,
    s: GrepView,
    files: Seq<Seq<char>>,
    dirs: Seq<Seq<char>>,
)
    requires
        on_track(root, held, s, files, dirs),
        held.is_tidy() ==> once_each(root, held, s, files, dirs),
        s.entries.len() > 0,
        !s.entries[0].is_dir,
    ensures
        ({
            let path = entry_path(s.directory, s.entries[0].name);
            let t = GrepView {
                entries: s.entries.drop_first(),
                files_seen: s.files_seen + 1,
                ..s
            };
            &&& on_track(root, held, t, files.push(path), dirs)
            &&& held.is_tidy() ==> once_each(root, held, t, files.push(path), dirs)
        }),
{
    let path = entry_path(s.directory, s.entries[0].name);
    let t = GrepView { entries: s.entries.drop_first(), files_seen: s.files_seen + 1, ..s };
    let left = s.entries.len() as int;
    let here = s.directory;
    let all = held.entries(here);
    let at = all.len() - left;
    let more = files.push(path);
    assert(s.entries[0] == all[at]);
    assert(path == held.child(here, at));
    assert(dirs.contains(here)) by {
        assert(dirs[dirs.len() - 1] == here);
    }
    assert(held.holds(here, path, false));
    lemma_push_contains(files, path);
    assert(t.entries =~= all.skip(all.len() - (left - 1)));
    assert forall|d: Seq<char>, k: int| #[trigger] handled(held, dirs, left - 1, d, k) implies ({
        let p = held.child(d, k);
        if held.entries(d)[k].is_dir {
            t.queue.contains(p) || dirs.contains(p)
        } else {
            more.contains(p)
        }
    }) by {
        assert(handled(held, dirs, left, d, k) || (d == here && k == at));
    }
    if held.is_tidy() {
        lemma_entry_is_new(root, held, s, files, dirs);
        assert(handled(held, dirs, left - 1, here, at));
        assert(come_by(held, dirs, left - 1, path, false));
        assert forall|q: Seq<char>| #[trigger] t.queue.contains(q) implies q == root || come_by(
            held,
            dirs,
            left - 1,
            q,
            true,
        ) by {
            if q != root {
                lemma_come_by_more(held, dirs, left, q, true);
            }
        }
        assert forall|q: Seq<char>| #[trigger] dirs.contains(q) implies q == root || come_by(
            held,
            dirs,
            left - 1,
            q,
            true,
        ) by {
            if q != root {
                lemma_come_by_more(held, dirs, left, q, true);
            }
        }
        assert forall|p: Seq<char>| #[trigger] more.contains(p) implies come_by(
            held,
            dirs,
            left - 1,
            p,
            false,
        ) by {
            if p != path {
                lemma_come_by_more(held, dirs, left, p, false);
            }
        }
    }
}

/// Listing the next directory keeps a search on track.
proof fn lemma_directory_listed(
    root: Seq<char>,
    held: Holdings,
    s: GrepView,
    files: Seq<Seq<char>>,
    dirs: Seq<Seq<char>>,
)
    requires
        on_track(root, held, s, files, dirs),
        held.is_tidy() ==> once_each(root, held, s, files, dirs),
        s.entries.len() == 0,
        s.queue.len() > 0,
    ensures
        ({
            let d = s.queue.last();
            let t = GrepView {
                queue: s.queue.drop_last(),
                directory: d,
                entries: held.entries(d),
                ..s
            };
            &&& on_track(root, held, t, files, dirs.push(d))
            &&& held.is_tidy() ==> once_each(root, held, t, files, dirs.push(d))
        }),
{
    let new = s.queue.last();
    let t = GrepView {
        queue: s.queue.drop_last(),
        directory: new,
        entries: held.entries(new),
        ..s
    };
    let more = dirs.push(new);
    let left = held.entries(new).len() as int;
    assert(s.queue =~= t.queue.push(new));
    lemma_push_contains(t.queue, new);
    lemma_push_contains(dirs, new);
    assert forall|q: Seq<char>| #[trigger] t.queue.contains(q) implies s.queue.contains(q) by {
        assert(t.queue.push(new).contains(q));
    }
    assert(t.entries =~= held.entries(new).skip(0));
    assert(s.queue.contains(new));
    assert forall|d: Seq<char>, k: int| #[trigger] handled(held, more, left, d, k) implies ({
        let p = held.child(d, k);
        if held.entries(d)[k].is_dir {
            t.queue.contains(p) || more.contains(p)
        } else {
            files.contains(p)
        }
    }) by {
        assert(d != new);
        assert(handled(held, dirs, 0, d, k));
    }
    if held.is_tidy() {
        assert(t.queue.no_duplicates()) by {
            assert forall|i: int, j: int|
                0 <= i < t.queue.len() && 0 <= j < t.queue.len() && i != j implies t.queue[i]
                != t.queue[j] by {
                assert(s.queue[i] != s.queue[j]);
            }
        }
        assert(!t.queue.contains(new)) by {
            if t.queue.contains(new) {
                let i = choose|i: int| 0 <= i < t.queue.len() && t.queue[i] == new;
                assert(s.queue[i] != s.queue[s.queue.len() - 1]);
            }
        }
        assert forall|p: Seq<char>, is_dir: bool| #[trigger]
            come_by(held, dirs, 0, p, is_dir) implies come_by(held, more, left, p, is_dir) by {
            let (d, k) = choose|d: Seq<char>, k: int| #[trigger]
                handled(held, dirs, 0, d, k) && held.entries(d)[k].is_dir == is_dir && p
                    == held.child(d, k);
            assert(d != new);
            assert(handled(held, more, left, d, k));
        }
    }
}

/// One step keeps a search on track, and where it finds nothing more to ask
/// for, nothing is left.
proof fn lemma_next(
    root: Seq<char>,
    held: Holdings,
    s: GrepView,
    files: Seq<Seq<char>>,
    dirs: Seq<Seq<char>>,
)
    requires
        on_track(root, held, s, files, dirs),
        held.is_tidy() ==> once_each(root, held, s, files, dirs),
    ensures
        ({
            let (t, step) = grep_next(s);
            &&& t.matches == s.matches
            &&& s.truncated ==> t.truncated
            &&& !t.truncated ==> match step {
                StepView::List(d) => {
                    let u = GrepView { entries: held.entries(d), ..t };
                    &&& on_track(root, held, u, files, dirs.push(d))
                    &&& held.is_tidy() ==> once_each(root, held, u, files, dirs.push(d))
                },
                StepView::Read(p) => {
                    &&& on_track(root, held, t, files.push(p), dirs)
                    &&& held.is_tidy() ==> once_each(root, held, t, files.push(p), dirs)
                },
                StepView::Done => {
                    &&& t == s
                    &&& s.entries.len() == 0
                    &&& s.queue.len() == 0
                },
            }
        }),
    decreases s.entries.len(),
{
    if s.truncated {
    } else if s.entries.len() > 0 {
        if s.entries[0].is_dir {
            let path = entry_path(s.directory, s.entries[0].name);
            let t = GrepView { entries: s.entries.drop_first(), queue: s.queue.push(path), ..s };
            lemma_directory_put_off(root, held, s, files, dirs);
            lemma_next(root, held, t, files, dirs);
        } else {
            lemma_file_asked_for(root, held, s, files, dirs);
        }
    } else if s.queue.len() > 0 {
        lemma_directory_listed(root, held, s, files, dirs);
    }
}

proof fn lemma_below_the_limit(
    matches: Seq<Seq<char>>,
    path: Seq<char>,
    lines: Seq<Seq<char>>,
    hits: Seq<bool>,
    n: int,
)
    requires
        with_matches(matches, path, lines, hits, n).len() < MAX_GREP_MATCHES,
    ensures
        with_matches(matches, path, lines, hits, n) == matches + matches_in(path, lines, hits, n),
    decreases n,
{
    if n > 0 {
        lemma_below_the_limit(matches, path, lines, hits, n - 1);
        let found = matches_in(path, lines, hits, n - 1);
        let text = match_text(path, n, lines[n - 1]);
        assert((matches + found).push(text) =~= matches + found.push(text));
    } else {
        assert(matches + Seq::<Seq<char>>::empty() =~= matches);
    }
}

/// A search that did not stop at a limit is on track, with the directories
/// that it listed.
proof fn lemma_run(root: Seq<char>, held: Holdings, pattern: regex::Regex, n: nat) -> (dirs: Seq<
    Seq<char>,
>)
    requires
        !search_after(root, held, pattern, n).truncated,
    ensures
        ({
            let s = search_after(root, held, pattern, n);
            let files = files_after(root, held, pattern, n);
            &&& on_track(root, held, s, files, dirs)
            &&& held.is_tidy() ==> once_each(root, held, s, files, dirs)
            &&& s.matches == all_matches(held, pattern, files)
        }),
    decreases n,
{
    let s = search_after(root, held, pattern, n);
    let files = files_after(root, held, pattern, n);
    if n == 0 {
        let none = Seq::<Seq<char>>::empty();
        assert(s.queue[0] == root);
        let way = seq![root];
        assert(held.is_way(way) && way.last() == root);
        assert(held.is_under(root, root));
        assert forall|q: Seq<char>| #[trigger] s.queue.contains(q) implies q == root by {
            let i = choose|i: int| 0 <= i < s.queue.len() && s.queue[i] == q;
        }
        none
    } else {
        let before = search_after(root, held, pattern, (n - 1) as nat);
        let earlier = files_after(root, held, pattern, (n - 1) as nat);
        let (t, step) = grep_next(before);
        assert(s == answered(before, held, pattern));
        if before.truncated {
            assert(t == before && step == StepView::Done);
        }
        assert(!t.truncated);
        let dirs = lemma_run(root, held, pattern, (n - 1) as nat);
        lemma_next(root, held, before, earlier, dirs);
        match step {
            StepView::List(d) => dirs.push(d),
            StepView::Read(p) => {
                assert(files.drop_last() =~= earlier);
                match (held.read)(p) {
                    Some(content) => {
                        let lines = lines_of(content);
                        let hits = hits_of(pattern, lines);
                        lemma_below_the_limit(
                            t.matches,
                            p,
                            lines,
                            hits,
                            lines.len() as int,
                        );
                    },
                    None => {
                        assert(s.matches + Seq::<Seq<char>>::empty() =~= s.matches);
                    },
                }
                dirs
            },
            StepView::Done => dirs,
        }
    }
}

} // verus!
