//! What paths promise: where they lead, what they are kept under, and what
//! guards them.

use vstd::prelude::*;

use crate::filesystem::{blocked, climbs, components, described, entry_named, listed_at, EntryView};
use crate::filesystem::grep::{entry_path, fresh_search, grep_next, grep_scanned, match_text,
    with_matches, within_limits, GrepView, StepView};
use crate::filesystem::memory::{any_with_prefix, child_of, entry_of, is_listing, is_own_child,
    key_of, prefix_of, shows, without_prefix, Files};
use crate::text::{byte_len, decimal, lemma_head_len_is, split_on, tail_start, trimmed_end,
    trimmed_of};
use crate::text_facts::{ends_are_trimmed_of, splitting_goes_on, start_is_trimmed_of};

verus! {

/// Whether a text is one name: not empty, and without a slash.
pub open spec fn is_name(text: Seq<char>) -> bool {
    text.len() > 0 && forall|k: int| 0 <= k < text.len() ==> #[trigger] text[k] != '/'
}

proof fn lemma_tail_start(s: Seq<char>, c: char)
    ensures
        tail_start(s, c) <= s.len(),
        forall|k: int| tail_start(s, c) <= k < s.len() ==> #[trigger] s[k] != c,
        tail_start(s, c) > 0 ==> s[tail_start(s, c) - 1] == c,
    decreases s.len(),
{
    if s.len() > 0 && s.last() != c {
        lemma_tail_start(s.drop_last(), c);
        assert forall|k: int| tail_start(s, c) <= k < s.len() implies #[trigger] s[k] != c by {
            if k < s.len() - 1 {
                assert(s.drop_last()[k] == s[k]);
            }
        }
    }
}

/// A path is listed in its parent under its last name: the two, with a slash
/// between them, are the path without the slashes around it. Nothing but
/// slashes is the root, which is listed nowhere.
pub proof fn a_path_is_its_parent_and_its_name(path: Seq<char>)
    ensures
        match listed_at(path) {
            Some((parent, name)) => is_name(name) && trimmed_of(path, '/') == if parent.len() == 0 {
                name
            } else {
                parent + seq!['/'] + name
            },
            None => forall|k: int| 0 <= k < path.len() ==> #[trigger] path[k] == '/',
        },
{
    let (a, b) = ends_are_trimmed_of(path, '/');
    let inner = trimmed_of(path, '/');
    lemma_tail_start(inner, '/');
    let n = tail_start(inner, '/') as int;
    if inner.len() == 0 {
        assert(a == b);
    } else {
        assert(inner[0] == path[a]);
        assert(inner.last() == path[b - 1]);
        if n > 0 {
            assert(n < inner.len());
            assert(n > 1);
            assert(inner =~= inner.take(n - 1) + seq!['/'] + inner.skip(n));
        }
    }
}

/// A name in a directory is listed there, however many slashes stand around
/// the path.
#[verifier::rlimit(40)]
pub proof fn a_child_is_listed_in_its_directory(directory: Seq<char>, name: Seq<char>)
    requires
        is_name(name),
        directory.len() > 0,
        directory[0] != '/',
    ensures
        listed_at(directory + seq!['/'] + name) == Some((directory, name)),
        listed_at(seq!['/'] + directory + seq!['/'] + name + seq!['/']) == Some((directory, name)),
        listed_at(name) == Some((Seq::<char>::empty(), name)),
{
    let whole = directory + seq!['/'] + name;
    assert(listed_at(whole) == Some((directory, name))) by {
        assert(whole.subrange(0, whole.len() as int) =~= whole);
        lemma_trimmed_is(whole, whole, 0);
        lemma_listed(whole, directory, name);
    }
    let around = seq!['/'] + directory + seq!['/'] + name + seq!['/'];
    assert(listed_at(around) == Some((directory, name))) by {
        assert(around.subrange(1, around.len() - 1) =~= whole);
        lemma_trimmed_is(around, whole, 1);
        lemma_listed(whole, directory, name);
    }
    lemma_name_is_listed(name);
}

proof fn lemma_name_is_listed(name: Seq<char>)
    requires
        is_name(name),
    ensures
        listed_at(name) == Some((Seq::<char>::empty(), name)),
{
    assert(name.subrange(0, name.len() as int) =~= name);
    lemma_trimmed_is(name, name, 0);
    lemma_tail_start(name, '/');
    if tail_start(name, '/') > 0 {
        assert(name[tail_start(name, '/') - 1] == '/');
    }
}

proof fn lemma_listed(whole: Seq<char>, directory: Seq<char>, name: Seq<char>)
    requires
        is_name(name),
        directory.len() > 0,
        whole == directory + seq!['/'] + name,
    ensures
        tail_start(whole, '/') == directory.len() + 1,
        whole.take(directory.len() as int) == directory,
        whole.skip(directory.len() as int + 1) == name,
{
    lemma_tail_start(whole, '/');
    let n = tail_start(whole, '/') as int;
    let d = directory.len() as int;
    assert(whole[d] == '/');
    assert(n >= d + 1);
    if n > d + 1 {
        assert(whole[n - 1] == name[n - 1 - d - 1]);
    }
    assert(whole.take(d) =~= directory);
    assert(whole.skip(d + 1) =~= name);
}

/// A text with the same number of slashes at either end is trimmed to what
/// stands between them.
proof fn lemma_trimmed_is(path: Seq<char>, inner: Seq<char>, n: int)
    requires
        n >= 0,
        inner.len() > 0,
        inner[0] != '/',
        inner.last() != '/',
        path.len() == inner.len() + 2 * n,
        path.subrange(n, path.len() - n) == inner,
        forall|k: int| 0 <= k < n ==> path[k] == '/',
        forall|k: int| path.len() - n <= k < path.len() ==> path[k] == '/',
    ensures
        trimmed_of(path, '/') == inner,
{
    let (a, b) = ends_are_trimmed_of(path, '/');
    assert(path[n] == inner[0]);
    assert(path[path.len() - n - 1] == inner.last());
    assert(a <= n);
    assert(b >= path.len() - n);
    if a < n {
        assert(path[a] == '/');
    }
    if b > path.len() - n {
        assert(path[b - 1] == '/');
    }
}

/// The entry of a name is the first one that has it, and there is none only
/// where no entry has it.
pub proof fn the_first_of_a_name_is_found(entries: Seq<EntryView>, name: Seq<char>)
    ensures
        match entry_named(entries, name) {
            Some(entry) => exists|i: int|
                0 <= i < entries.len() && #[trigger] entries[i] == entry && entry.name == name
                    && forall|j: int| 0 <= j < i ==> (#[trigger] entries[j]).name != name,
            None => forall|i: int| 0 <= i < entries.len() ==> (#[trigger] entries[i]).name != name,
        },
    decreases entries.len(),
{
    if entries.len() > 0 {
        let rest = entries.drop_first();
        if entries[0].name == name {
            assert(entries[0] == entry_named(entries, name)->0);
        } else {
            the_first_of_a_name_is_found(rest, name);
            match entry_named(rest, name) {
                Some(entry) => {
                    let i = choose|i: int|
                        0 <= i < rest.len() && #[trigger] rest[i] == entry && entry.name == name
                            && forall|j: int| 0 <= j < i ==> (#[trigger] rest[j]).name != name;
                    assert(entries[i + 1] == entry);
                    assert forall|j: int| 0 <= j < i + 1 implies (#[trigger] entries[j]).name
                        != name by {
                        if j > 0 {
                            assert(rest[j - 1] == entries[j]);
                        }
                    }
                },
                None => {
                    assert forall|i: int| 0 <= i < entries.len() implies (
                    #[trigger] entries[i]).name != name by {
                        if i > 0 {
                            assert(rest[i - 1] == entries[i]);
                        }
                    }
                },
            }
        }
    }
}

/// A path is described by the entry of its name in its directory; without one,
/// or without a listing, there is nothing at the path. The root is always a
/// directory.
pub proof fn a_path_is_described_by_its_entry(
    path: Seq<char>,
    listing: Option<Seq<EntryView>>,
)
    ensures
        described(path, listing).path == path,
        listed_at(path) is None ==> described(path, listing).exists && described(
            path,
            listing,
        ).is_dir && described(path, listing).size == 0,
        listed_at(path) matches Some((_, name)) ==> match listing {
            None => !described(path, listing).exists,
            Some(entries) => described(path, listing).exists <==> exists|i: int|
                0 <= i < entries.len() && (#[trigger] entries[i]).name == name,
        },
        !described(path, listing).exists ==> !described(path, listing).is_dir && described(
            path,
            listing,
        ).size == 0,
        listed_at(path) matches Some((_, name)) ==> listing matches Some(entries) ==> described(
            path,
            listing,
        ).exists ==> exists|i: int|
            0 <= i < entries.len() && (#[trigger] entries[i]).name == name && described(
                path,
                listing,
            ).is_dir == entries[i].is_dir && described(path, listing).size == entries[i].size,
{
    if let Some((_, name)) = listed_at(path) {
        if let Some(entries) = listing {
            the_first_of_a_name_is_found(entries, name);
        }
    }
}

// ----------------------------------------------------------------- components

/// The components of a path are those of its parts, one after the other: a
/// name is one component, and nothing and a dot are none.
pub proof fn a_path_is_made_of_its_parts(a: Seq<char>, b: Seq<char>, name: Seq<char>)
    ensures
        components(a + seq!['/'] + b) == components(a) + components(b),
        is_name(name) && name != "."@ ==> components(name) == seq![name],
        components(Seq::empty()).len() == 0,
        components("."@).len() == 0,
{
    let keep = |c: Seq<char>| c.len() > 0 && c != "."@;
    splitting_goes_on(a, b, '/');
    Seq::filter_distributes_over_add(split_on(a, '/'), split_on(b, '/'), keep);
    splitting_goes_on(name, Seq::empty(), '/');
    splitting_goes_on(Seq::empty(), Seq::empty(), '/');
    reveal_strlit(".");
    splitting_goes_on("."@, Seq::empty(), '/');
    lemma_filter_one(name, keep);
    lemma_filter_one(Seq::empty(), keep);
    lemma_filter_one("."@, keep);
}

proof fn lemma_filter_one(piece: Seq<char>, keep: spec_fn(Seq<char>) -> bool)
    ensures
        keep(piece) ==> seq![piece].filter(keep) == seq![piece],
        !keep(piece) ==> seq![piece].filter(keep).len() == 0,
{
    reveal(Seq::filter);
    let one = seq![piece];
    assert(one.drop_last() =~= Seq::empty());
    assert(one.drop_last().filter(keep) =~= Seq::empty());
    assert(one.last() == piece);
    if keep(piece) {
        assert(one.filter(keep) =~= one);
    }
}

/// A path with a step up in it climbs, wherever the step stands; names and
/// dots alone do not climb.
#[verifier::rlimit(40)]
pub proof fn a_step_up_is_seen(a: Seq<char>, b: Seq<char>, name: Seq<char>)
    ensures
        climbs(a + seq!['/'] + ".."@ + seq!['/'] + b),
        climbs(a + seq!['/'] + b) <==> climbs(a) || climbs(b),
        is_name(name) && name != ".."@ ==> !climbs(name),
        climbs(".."@),
{
    reveal_strlit("..");
    reveal_strlit(".");
    assert("."@.len() != ".."@.len());
    assert(is_name(".."@));
    a_path_is_made_of_its_parts(a, b, name);
    a_path_is_made_of_its_parts(a, ".."@, ".."@);
    let front = a + seq!['/'] + ".."@;
    a_path_is_made_of_its_parts(front, b, ".."@);
    assert(components(".."@)[0] == ".."@);
    lemma_contains_either(components(a), components(b), ".."@);
    lemma_contains_either(components(a), components(".."@), ".."@);
    lemma_contains_either(components(front), components(b), ".."@);
    if is_name(name) && name != ".."@ {
        if name == "."@ {
            assert(components(name).len() == 0);
        } else {
            assert(components(name)[0] == name);
        }
    }
}

proof fn lemma_contains_either(a: Seq<Seq<char>>, b: Seq<Seq<char>>, x: Seq<char>)
    ensures
        (a + b).contains(x) <==> a.contains(x) || b.contains(x),
{
    if a.contains(x) {
        let i = choose|i: int| 0 <= i < a.len() && a[i] == x;
        assert((a + b)[i] == x);
    }
    if b.contains(x) {
        let i = choose|i: int| 0 <= i < b.len() && b[i] == x;
        assert((a + b)[a.len() + i] == x);
    }
}

/// A protected directory is guarded wherever it stands, with everything in it;
/// a path is guarded only where one of its components is protected.
#[verifier::rlimit(40)]
pub proof fn a_protected_directory_is_guarded(
    blocklist: Seq<Seq<char>>,
    a: Seq<char>,
    name: Seq<char>,
    b: Seq<char>,
)
    requires
        is_name(name),
        name != "."@,
        name != ".."@,
        blocklist.contains(name),
    ensures
        blocked(blocklist, name),
        blocked(blocklist, a + seq!['/'] + name),
        blocked(blocklist, name + seq!['/'] + b),
        blocked(blocklist, a + seq!['/'] + name + seq!['/'] + b),
{
    a_path_is_made_of_its_parts(a, name, name);
    a_path_is_made_of_its_parts(name, b, name);
    a_path_is_made_of_its_parts(a + seq!['/'] + name, b, name);
    let n = components(a).len() as int;
    assert(components(name)[0] == name);
    assert(components(a + seq!['/'] + name)[n] == name);
    assert(components(name + seq!['/'] + b)[0] == name);
    assert(components(a + seq!['/'] + name + seq!['/'] + b)[n] == name);
}

/// A path none of whose components is protected may be written.
pub proof fn an_unprotected_path_is_open(blocklist: Seq<Seq<char>>, path: Seq<char>)
    requires
        forall|i: int|
            0 <= i < components(path).len() ==> !blocklist.contains(
                #[trigger] components(path)[i],
            ),
    ensures
        !blocked(blocklist, path),
{
}

// --------------------------------------------------------------------- memory

/// A file is found under its path with or without slashes in front, and under
/// no other.
pub proof fn leading_slashes_do_not_matter(path: Seq<char>)
    ensures
        key_of(seq!['/'] + path) == key_of(path),
        path.len() > 0 && path[0] != '/' ==> key_of(path) == path,
        key_of(path).len() > 0 ==> key_of(path)[0] != '/',
        exists|n: int| 0 <= n <= path.len() && key_of(path) == #[trigger] path.skip(n),
{
    let n = start_is_trimmed_of(path, '/');
    assert(path.skip(n) == key_of(path));
    assert((seq!['/'] + path).drop_first() =~= path);
}

/// What a directory's paths begin with: its own path and a slash; the root's
/// begin with nothing.
pub proof fn a_directory_has_a_prefix(path: Seq<char>)
    ensures
        key_of(path).len() > 0 ==> prefix_of(path) == key_of(path) + seq!['/'],
        key_of(path).len() == 0 ==> prefix_of(path).len() == 0,
{
    reveal_strlit("/");
    assert("/"@ =~= seq!['/']);
}

/// A file in a directory shows up there under its name, as itself; one further
/// down shows up under the name of the directory it is in.
pub proof fn files_show_up_where_they_are(prefix: Seq<char>, name: Seq<char>, below: Seq<char>)
    requires
        is_name(name),
    ensures
        child_of(prefix, prefix + name) == Some(name),
        is_own_child(prefix, prefix + name),
        child_of(prefix, prefix + name + seq!['/'] + below) == Some(name),
        !is_own_child(prefix, prefix + name + seq!['/'] + below),
        child_of(prefix, prefix) is None,
        forall|key: Seq<char>|
            !prefix.is_prefix_of(key) ==> (#[trigger] child_of(prefix, key)) is None,
{
    let p = prefix.len() as int;
    let n = name.len() as int;
    let own = prefix + name;
    assert(own.skip(p) =~= name);
    assert(own.subrange(0, p) =~= prefix);
    lemma_head_len_is(name, '/', n);
    assert(name.take(n) =~= name);
    let deep = prefix + name + seq!['/'] + below;
    let rest = name + seq!['/'] + below;
    assert(deep.skip(p) =~= rest);
    assert(deep.subrange(0, p) =~= prefix);
    assert forall|k: int| 0 <= k < n implies rest[k] != '/' by {
        assert(rest[k] == name[k]);
    }
    lemma_head_len_is(rest, '/', n);
    assert(rest.take(n) =~= name);
}

/// A listing holds every file of its directory with its size, and every
/// directory that a path leads through, and nothing that no path leads to.
pub proof fn a_listing_shows_what_is_there(
    files: Files,
    prefix: Seq<char>,
    entries: Seq<EntryView>,
    name: Seq<char>,
    below: Seq<char>,
)
    requires
        is_listing(files, prefix, entries),
        is_name(name),
    ensures
        files.contains_key(prefix + name) ==> exists|i: int|
            0 <= i < entries.len() && #[trigger] entries[i] == (EntryView {
                name,
                is_dir: false,
                size: byte_len(files[prefix + name]) as int,
            }),
        !files.contains_key(prefix + name) && files.contains_key(
            prefix + name + seq!['/'] + below,
        ) ==> exists|i: int|
            0 <= i < entries.len() && #[trigger] entries[i] == (EntryView {
                name,
                is_dir: true,
                size: 0,
            }),
        forall|i: int|
            0 <= i < entries.len() && (#[trigger] entries[i]).name == name && !entries[i].is_dir
                ==> files.contains_key(prefix + name),
{
    files_show_up_where_they_are(prefix, name, below);
    if files.contains_key(prefix + name) {
        assert(shows(files, prefix, name));
        let i = choose|i: int| 0 <= i < entries.len() && (#[trigger] entries[i]).name == name;
        assert(entries[i] == entry_of(files, prefix, name));
    } else if files.contains_key(prefix + name + seq!['/'] + below) {
        assert(shows(files, prefix, name));
        let i = choose|i: int| 0 <= i < entries.len() && (#[trigger] entries[i]).name == name;
        assert(entries[i] == entry_of(files, prefix, name));
    }
    assert forall|i: int|
        0 <= i < entries.len() && (#[trigger] entries[i]).name == name
            && !entries[i].is_dir implies files.contains_key(prefix + name) by {
        assert(entries[i] == entry_of(files, prefix, name));
    }
}

/// Deleting a directory takes the files in it and no other, and leaves the
/// others as they were.
pub proof fn only_what_is_inside_is_deleted(files: Files, prefix: Seq<char>, key: Seq<char>)
    ensures
        without_prefix(files, prefix).contains_key(key) <==> files.contains_key(key)
            && !prefix.is_prefix_of(key),
        without_prefix(files, prefix).contains_key(key) ==> without_prefix(files, prefix)[key]
            == files[key],
{
}

/// A directory is there where a file is in it.
pub proof fn a_directory_is_where_a_file_is(files: Files, prefix: Seq<char>, rest: Seq<char>)
    ensures
        files.contains_key(prefix + rest) ==> any_with_prefix(files, prefix),
        any_with_prefix(files, prefix) ==> exists|tail: Seq<char>| #[trigger]
            files.contains_key(prefix + tail),
{
    assert((prefix + rest).subrange(0, prefix.len() as int) =~= prefix);
    assert(prefix.is_prefix_of(prefix + rest));
    if any_with_prefix(files, prefix) {
        let key = choose|key: Seq<char>| #[trigger]
            files.contains_key(key) && prefix.is_prefix_of(key);
        assert(prefix + key.skip(prefix.len() as int) =~= key);
        assert(files.contains_key(prefix + key.skip(prefix.len() as int)));
    }
}

// ----------------------------------------------------------------- searching

/// A search begins at its root, with nothing seen and nothing found yet.
pub proof fn a_search_begins_at_its_root(root: Seq<char>)
    ensures
        fresh_search(root).queue == seq![root],
        fresh_search(root).entries.len() == 0,
        fresh_search(root).matches.len() == 0,
        fresh_search(root).files_seen == 0,
        !fresh_search(root).truncated,
        grep_next(fresh_search(root)).1 == StepView::List(root),
{
    assert(fresh_search(root).queue.last() == root);
}

/// A search that is within its limits has two hundred matches at most, and has
/// looked at five thousand files at most where it did not stop early.
pub proof fn a_search_knows_its_limits(s: GrepView)
    requires
        within_limits(s),
    ensures
        s.matches.len() <= 200,
        !s.truncated ==> s.matches.len() < 200,
        !s.truncated ==> s.files_seen <= 5000,
{
}

/// Looking at a file adds its matching lines, in order and up to the limit, and
/// changes nothing else but whether the search is over.
pub proof fn matching_lines_are_added(
    s: GrepView,
    path: Seq<char>,
    lines: Seq<Seq<char>>,
    hits: Seq<bool>,
)
    requires
        hits.len() == lines.len(),
        s.matches.len() <= 200,
    ensures
        ({
            let after = grep_scanned(s, path, lines, hits);
            &&& after.queue == s.queue
            &&& after.directory == s.directory
            &&& after.entries == s.entries
            &&& after.files_seen == s.files_seen
            &&& s.matches.is_prefix_of(after.matches)
            &&& after.truncated <==> s.truncated || after.matches.len() >= 200
            &&& after.matches.len() < 200 ==> forall|i: int|
                0 <= i < lines.len() && #[trigger] hits[i] ==> after.matches.contains(
                    match_text(path, i + 1, lines[i]),
                )
        }),
{
    lemma_with_matches(s.matches, path, lines, hits, lines.len() as int);
}

proof fn lemma_with_matches(
    matches: Seq<Seq<char>>,
    path: Seq<char>,
    lines: Seq<Seq<char>>,
    hits: Seq<bool>,
    n: int,
)
    requires
        0 <= n <= lines.len(),
    ensures
        ({
            let after = with_matches(matches, path, lines, hits, n);
            &&& matches.is_prefix_of(after)
            &&& after.len() < 200 ==> forall|i: int|
                0 <= i < n && #[trigger] hits[i] ==> after.contains(
                    match_text(path, i + 1, lines[i]),
                )
        }),
    decreases n,
{
    let after = with_matches(matches, path, lines, hits, n);
    if n > 0 {
        let before = with_matches(matches, path, lines, hits, n - 1);
        lemma_with_matches(matches, path, lines, hits, n - 1);
        assert(after.subrange(0, matches.len() as int) =~= before.subrange(
            0,
            matches.len() as int,
        ));
        if after.len() < 200 {
            assert forall|i: int| 0 <= i < n && #[trigger] hits[i] implies after.contains(
                match_text(path, i + 1, lines[i]),
            ) by {
                let found = match_text(path, i + 1, lines[i]);
                if i < n - 1 {
                    assert(before.contains(found));
                    let k = choose|k: int| 0 <= k < before.len() && before[k] == found;
                    assert(after[k] == found);
                } else {
                    assert(after[after.len() - 1] == found);
                }
            }
        }
    } else {
        assert(matches.subrange(0, matches.len() as int) =~= matches);
    }
}

/// A match names its file and its line, and shows the line without the white
/// space behind it.
pub proof fn a_match_names_its_place(path: Seq<char>, number: int, line: Seq<char>)
    ensures
        ({
            let text = match_text(path, number, line);
            let digits = decimal(number as nat);
            let n = path.len() as int;
            &&& text.take(n) == path
            &&& text[n] == ':'
            &&& text.subrange(n + 1, n + 1 + digits.len()) == digits
            &&& text[n + 1 + digits.len()] == ':'
            &&& text[n + 2 + digits.len()] == ' '
            &&& text.skip(n + 3 + digits.len()) == trimmed_end(line)
        }),
{
    reveal_strlit(":");
    reveal_strlit(": ");
    let text = match_text(path, number, line);
    let digits = decimal(number as nat);
    let n = path.len() as int;
    assert(text.take(n) =~= path);
    assert(text.subrange(n + 1, n + 1 + digits.len()) =~= digits);
    assert(text.skip(n + 3 + digits.len()) =~= trimmed_end(line));
}

/// The path of an entry is that of its directory, a slash, and its name; in
/// the root it is the name alone.
pub proof fn an_entry_is_found_in_its_directory(directory: Seq<char>, name: Seq<char>)
    requires
        is_name(name),
    ensures
        directory.len() == 0 ==> listed_at(entry_path(directory, name)) == Some(
            (Seq::<char>::empty(), name),
        ),
        directory.len() > 0 && directory[0] != '/' ==> listed_at(entry_path(directory, name))
            == Some((directory, name)),
{
    reveal_strlit("/");
    assert("/"@ =~= seq!['/']);
    if directory.len() > 0 && directory[0] != '/' {
        a_child_is_listed_in_its_directory(directory, name);
    } else {
        a_child_is_listed_in_its_directory(seq!['.'], name);
    }
}

} // verus!
