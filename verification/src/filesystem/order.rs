//! The order in which a listing is shown.

use vstd::prelude::*;

use crate::filesystem::{entries_view, EntryView, FileEntry};
use crate::text::{comes_before, lemma_text_less_transitive, lemma_text_order, text_less};

verus! {

/// A listing with one more entry, behind those whose names do not come after
/// its own.
pub open spec fn placed(entries: Seq<EntryView>, entry: EntryView) -> Seq<EntryView>
    decreases entries.len(),
{
    if entries.len() == 0 || !text_less(entry.name, entries.last().name) {
        entries.push(entry)
    } else {
        placed(entries.drop_last(), entry).push(entries.last())
    }
}

/// A listing in the order of its names. Entries of the same name stay in the
/// order they came in.
pub open spec fn by_name(entries: Seq<EntryView>) -> Seq<EntryView>
    decreases entries.len(),
{
    if entries.len() == 0 {
        Seq::empty()
    } else {
        placed(by_name(entries.drop_last()), entries.last())
    }
}

/// Whether no entry comes before one that stands ahead of it.
pub open spec fn in_order(entries: Seq<EntryView>) -> bool {
    forall|i: int, j: int|
        0 <= i < j < entries.len() ==> !text_less(
            (#[trigger] entries[j]).name,
            (#[trigger] entries[i]).name,
        )
}

proof fn lemma_not_less(a: Seq<char>, b: Seq<char>, c: Seq<char>)
    requires
        !text_less(b, a),
        !text_less(c, b),
    ensures
        !text_less(c, a),
{
    lemma_text_order(a, b);
    lemma_text_order(b, c);
    if text_less(c, a) {
        if text_less(a, b) {
            lemma_text_less_transitive(c, a, b);
        }
    }
}

proof fn lemma_placed(entries: Seq<EntryView>, entry: EntryView)
    requires
        in_order(entries),
    ensures
        in_order(placed(entries, entry)),
        placed(entries, entry).to_multiset() == entries.to_multiset().insert(entry),
        forall|k: int|
            0 <= k < placed(entries, entry).len() ==> {
                ||| #[trigger] placed(entries, entry)[k] == entry
                ||| entries.contains(placed(entries, entry)[k])
            },
    decreases entries.len(),
{
    broadcast use vstd::seq_lib::group_to_multiset_ensures;

    let r = placed(entries, entry);
    if entries.len() == 0 || !text_less(entry.name, entries.last().name) {
        assert forall|i: int, j: int| 0 <= i < j < r.len() implies !text_less(
            (#[trigger] r[j]).name,
            (#[trigger] r[i]).name,
        ) by {
            if j == entries.len() && i < entries.len() - 1 {
                assert(!text_less(entries.last().name, entries[i].name));
                lemma_not_less(entries[i].name, entries.last().name, entry.name);
            }
        }
        assert forall|k: int| 0 <= k < r.len() implies #[trigger] r[k] == entry
            || entries.contains(r[k]) by {
            if k < entries.len() {
                assert(entries[k] == r[k]);
            }
        }
    } else {
        let front = entries.drop_last();
        let last = entries.last();
        let p = placed(front, entry);
        lemma_placed(front, entry);
        assert(r == p.push(last));
        assert(entries =~= front.push(last));
        assert(r.to_multiset() =~= entries.to_multiset().insert(entry));
        assert forall|i: int, j: int| 0 <= i < j < r.len() implies !text_less(
            (#[trigger] r[j]).name,
            (#[trigger] r[i]).name,
        ) by {
            if j == p.len() {
                if p[i] == entry {
                    lemma_text_order(entry.name, last.name);
                } else {
                    assert(front.contains(p[i]));
                    let k = choose|k: int| 0 <= k < front.len() && front[k] == p[i];
                    assert(!text_less(entries[entries.len() - 1].name, entries[k].name));
                }
            } else {
                assert(r[i] == p[i] && r[j] == p[j]);
            }
        }
        assert forall|k: int| 0 <= k < r.len() implies #[trigger] r[k] == entry
            || entries.contains(r[k]) by {
            if k < p.len() {
                assert(r[k] == p[k]);
                if p[k] != entry {
                    let m = choose|m: int| 0 <= m < front.len() && front[m] == p[k];
                    assert(entries[m] == r[k]);
                }
            } else {
                assert(entries[entries.len() - 1] == r[k]);
            }
        }
    }
}

/// Putting a listing in order loses nothing and adds nothing, and no entry
/// stands behind one that comes after it.
pub proof fn ordering_keeps_the_entries(entries: Seq<EntryView>)
    ensures
        in_order(by_name(entries)),
        by_name(entries).to_multiset() == entries.to_multiset(),
    decreases entries.len(),
{
    broadcast use vstd::seq_lib::group_to_multiset_ensures;

    if entries.len() > 0 {
        ordering_keeps_the_entries(entries.drop_last());
        lemma_placed(by_name(entries.drop_last()), entries.last());
        assert(entries =~= entries.drop_last().push(entries.last()));
    }
}

proof fn lemma_placed_at(entries: Seq<EntryView>, entry: EntryView, at: int)
    requires
        0 <= at <= entries.len(),
        forall|k: int|
            at <= k < entries.len() ==> text_less(entry.name, (#[trigger] entries[k]).name),
        at > 0 ==> !text_less(entry.name, entries[at - 1].name),
    ensures
        placed(entries, entry) == entries.insert(at, entry),
    decreases entries.len(),
{
    if at == entries.len() {
        assert(entries.insert(at, entry) =~= entries.push(entry));
    } else {
        assert(text_less(entry.name, entries[entries.len() - 1].name));
        let front = entries.drop_last();
        assert forall|k: int| at <= k < front.len() implies text_less(
            entry.name,
            (#[trigger] front[k]).name,
        ) by {
            assert(front[k] == entries[k]);
        }
        lemma_placed_at(front, entry, at);
        assert(front.insert(at, entry).push(entries.last()) =~= entries.insert(at, entry));
    }
}

/// Put a listing in the order of its names.
pub fn ordered(entries: Vec<FileEntry>) -> (r: Vec<FileEntry>)
    ensures
        entries_view(r@) == by_name(entries_view(entries@)),
{
    let mut r: Vec<FileEntry> = Vec::new();
    let ghost all = entries_view(entries@);
    let mut i: usize = 0;
    assert(entries_view(r@) =~= by_name(all.take(0)));
    while i < entries.len()
        invariant
            i <= entries@.len(),
            all == entries_view(entries@),
            entries_view(r@) == by_name(all.take(i as int)),
        decreases entries.len() - i,
    {
        let ghost before = entries_view(r@);
        let entry = entries[i].clone();
        let mut at: usize = r.len();
        while at > 0 && comes_before(entry.name.as_str(), r[at - 1].name.as_str())
            invariant
                at <= r@.len(),
                before == entries_view(r@),
                forall|k: int|
                    at <= k < r@.len() ==> text_less(entry@.name, (#[trigger] before[k]).name),
            decreases at,
        {
            assert(before[at - 1].name == r@[at - 1].name@);
            at -= 1;
        }
        proof {
            if at > 0 {
                assert(before[at - 1].name == r@[at - 1].name@);
            }
            lemma_placed_at(before, entry@, at as int);
            assert(all.take(i as int + 1).drop_last() =~= all.take(i as int));
        }
        r.insert(at, entry);
        assert(entries_view(r@) =~= before.insert(at as int, entry@));
        i += 1;
    }
    assert(all.take(i as int) =~= all);
    r
}

} // verus!
