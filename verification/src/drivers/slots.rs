//! Numbered slots that are read back in ascending order.

use vstd::prelude::*;

verus! {

/// The value in slot `key`.
pub open spec fn slot_get<V>(s: Seq<(int, V)>, key: int) -> Option<V>
    decreases s.len(),
{
    if s.len() == 0 {
        None
    } else if s[0].0 == key {
        Some(s[0].1)
    } else {
        slot_get(s.drop_first(), key)
    }
}

/// The slots with `value` in slot `key`, ascending slots staying ascending.
pub open spec fn slot_put<V>(s: Seq<(int, V)>, key: int, value: V) -> Seq<(int, V)>
    decreases s.len(),
{
    if s.len() == 0 || key < s[0].0 {
        seq![(key, value)] + s
    } else if s[0].0 == key {
        seq![(key, value)] + s.drop_first()
    } else {
        seq![s[0]] + slot_put(s.drop_first(), key, value)
    }
}

/// Whether each slot has a greater number than the one before it.
pub open spec fn ascending<V>(s: Seq<(int, V)>) -> bool {
    forall|i: int, j: int| 0 <= i < j < s.len() ==> (#[trigger] s[i]).0 < (#[trigger] s[j]).0
}

/// Filling a slot keeps the slots ascending.
pub proof fn put_keeps_order<V>(s: Seq<(int, V)>, key: int, value: V)
    requires
        ascending(s),
    ensures
        ascending(slot_put(s, key, value)),
        forall|j: int|
            0 <= j < slot_put(s, key, value).len() ==> {
                ||| (#[trigger] slot_put(s, key, value)[j]).0 == key
                ||| exists|i: int| 0 <= i < s.len() && s[i].0 == slot_put(s, key, value)[j].0
            },
    decreases s.len(),
{
    let r = slot_put(s, key, value);
    if s.len() == 0 || key < s[0].0 {
        assert forall|j: int| 0 <= j < r.len() implies {
            ||| (#[trigger] r[j]).0 == key
            ||| exists|i: int| 0 <= i < s.len() && s[i].0 == r[j].0
        } by {
            if j > 0 {
                assert(r[j] == s[j - 1]);
            }
        }
    } else if s[0].0 == key {
        assert forall|j: int| 0 <= j < r.len() implies {
            ||| (#[trigger] r[j]).0 == key
            ||| exists|i: int| 0 <= i < s.len() && s[i].0 == r[j].0
        } by {
            if j > 0 {
                assert(r[j] == s[j]);
            }
        }
    } else {
        let t = s.drop_first();
        let u = slot_put(t, key, value);
        put_keeps_order(t, key, value);
        assert forall|j: int| 0 <= j < r.len() implies {
            ||| (#[trigger] r[j]).0 == key
            ||| exists|i: int| 0 <= i < s.len() && s[i].0 == r[j].0
        } by {
            if j == 0 {
                assert(s[0].0 == r[0].0);
            } else {
                assert(r[j] == u[j - 1]);
                if u[j - 1].0 != key {
                    let i = choose|i: int| 0 <= i < t.len() && t[i].0 == u[j - 1].0;
                    assert(s[i + 1].0 == r[j].0);
                }
            }
        }
        assert forall|i: int, j: int| 0 <= i < j < r.len() implies (#[trigger] r[i]).0 < (
        #[trigger] r[j]).0 by {
            assert(r[j] == u[j - 1]);
            if i == 0 {
                if u[j - 1].0 != key {
                    let k = choose|k: int| 0 <= k < t.len() && t[k].0 == u[j - 1].0;
                    assert(s[0].0 < s[k + 1].0);
                }
            } else {
                assert(r[i] == u[i - 1]);
            }
        }
    }
}

/// A slot reads back what was put into it last; every other slot is untouched.
pub proof fn put_then_get<V>(s: Seq<(int, V)>, key: int, value: V, other: int)
    requires
        ascending(s),
    ensures
        slot_get(slot_put(s, key, value), other) == if other == key {
            Some(value)
        } else {
            slot_get(s, other)
        },
    decreases s.len(),
{
    let r = slot_put(s, key, value);
    if s.len() == 0 || key < s[0].0 {
        assert(r.drop_first() =~= s);
    } else if s[0].0 == key {
        assert(r.drop_first() =~= s.drop_first());
    } else {
        put_then_get(s.drop_first(), key, value, other);
        assert(r.drop_first() =~= slot_put(s.drop_first(), key, value));
    }
}

proof fn lemma_put_at<V>(s: Seq<(int, V)>, key: int, value: V, i: int)
    requires
        0 <= i <= s.len(),
        forall|k: int| 0 <= k < i ==> (#[trigger] s[k]).0 < key,
        i < s.len() ==> key <= s[i].0,
    ensures
        slot_put(s, key, value) == if i < s.len() && s[i].0 == key {
            s.update(i, (key, value))
        } else {
            s.insert(i, (key, value))
        },
    decreases s.len(),
{
    if i == 0 {
        if s.len() > 0 && s[0].0 == key {
            assert(seq![(key, value)] + s.drop_first() =~= s.update(0, (key, value)));
        } else {
            assert(seq![(key, value)] + s =~= s.insert(0, (key, value)));
        }
    } else {
        assert(s[0].0 < key);
        let t = s.drop_first();
        lemma_put_at(t, key, value, i - 1);
        if i < s.len() && s[i].0 == key {
            assert(seq![s[0]] + t.update(i - 1, (key, value)) =~= s.update(i, (key, value)));
        } else {
            assert(seq![s[0]] + t.insert(i - 1, (key, value)) =~= s.insert(i, (key, value)));
        }
    }
}

proof fn lemma_get_at<V>(s: Seq<(int, V)>, key: int, i: int)
    requires
        ascending(s),
        0 <= i <= s.len(),
        forall|k: int| 0 <= k < i ==> (#[trigger] s[k]).0 < key,
        i < s.len() ==> key <= s[i].0,
    ensures
        slot_get(s, key) == if i < s.len() && s[i].0 == key {
            Some(s[i].1)
        } else {
            None
        },
    decreases s.len(),
{
    if s.len() > 0 && s[0].0 != key {
        let t = s.drop_first();
        if i > 0 {
            lemma_get_at(t, key, i - 1);
        } else {
            assert(t.len() > 0 ==> s[0].0 < s[1].0);
            lemma_get_at(t, key, 0);
        }
    }
}

/// The last of ascending slots is found under its number, and no other slot
/// needs it.
pub proof fn last_slot<V>(s: Seq<(int, V)>, other: int)
    requires
        ascending(s),
        s.len() > 0,
    ensures
        ascending(s.drop_last()),
        slot_get(s, s.last().0) == Some(s.last().1),
        other != s.last().0 ==> slot_get(s, other) == slot_get(s.drop_last(), other),
    decreases s.len(),
{
    let n = s.len() - 1;
    lemma_get_at(s, s.last().0, n);
    if n > 0 {
        let t = s.drop_first();
        assert(t.drop_last() =~= s.drop_last().drop_first());
        last_slot(t, other);
    } else {
        assert(s.drop_first() =~= s.drop_last());
    }
}

/// A slot is found under its number.
pub proof fn each_slot_is_found<V>(s: Seq<(int, V)>, i: int)
    requires
        ascending(s),
        0 <= i < s.len(),
    ensures
        slot_get(s, s[i].0) == Some(s[i].1),
{
    lemma_get_at(s, s[i].0, i);
}

/// Values in numbered slots, kept in ascending order of their numbers.
#[derive(Debug)]
pub struct Slots<T> {
    entries: Vec<(u64, T)>,
}

impl<T: View> View for Slots<T> {
    type V = Seq<(int, T::V)>;

    closed spec fn view(&self) -> Seq<(int, T::V)> {
        self.entries@.map_values(|e: (u64, T)| (e.0 as int, e.1@))
    }
}

impl<T: View> Slots<T> {
    /// The slots are in ascending order.
    pub open spec fn wf(&self) -> bool {
        ascending(self@)
    }

    /// No slot filled.
    pub fn new() -> (r: Self)
        ensures
            r.wf(),
            r@ == Seq::<(int, T::V)>::empty(),
    {
        let r = Slots { entries: Vec::new() };
        assert(r@ =~= Seq::<(int, T::V)>::empty());
        r
    }

    /// Where slot `key` is, or would go.
    fn position(&self, key: u64) -> (i: usize)
        requires
            self.wf(),
        ensures
            i <= self@.len(),
            forall|k: int| 0 <= k < i ==> (#[trigger] self@[k]).0 < key,
            i < self@.len() ==> key <= self@[i as int].0,
    {
        let mut i: usize = 0;
        while i < self.entries.len() && self.entries[i].0 < key
            invariant
                i <= self.entries@.len(),
                forall|k: int| 0 <= k < i ==> (#[trigger] self@[k]).0 < key,
            decreases self.entries.len() - i,
        {
            i += 1;
        }
        i
    }

    /// Empty slot `key` and return what it held.
    pub fn take(&mut self, key: u64) -> (r: Option<T>)
        requires
            old(self).wf(),
        ensures
            final(self).wf(),
            match r {
                Some(value) => slot_get(old(self)@, key as int) == Some(value@),
                None => slot_get(old(self)@, key as int) is None,
            },
            forall|value: T::V| #[trigger]
                slot_put(final(self)@, key as int, value) == slot_put(
                    old(self)@,
                    key as int,
                    value,
                ),
    {
        let i = self.position(key);
        let ghost before = self@;
        proof {
            lemma_get_at(before, key as int, i as int);
        }
        if i < self.entries.len() && self.entries[i].0 == key {
            let (_, value) = self.entries.remove(i);
            proof {
                let after = self@;
                assert(after =~= before.remove(i as int));
                assert(before[i as int].0 == key);
                assert forall|v: T::V| #[trigger]
                    slot_put(after, key as int, v) == slot_put(before, key as int, v) by {
                    lemma_put_at(before, key as int, v, i as int);
                    assert forall|k: int| 0 <= k < i implies (#[trigger] after[k]).0 < key by {
                        assert(after[k] == before[k]);
                    }
                    if i < after.len() {
                        assert(after[i as int] == before[i + 1]);
                        assert(before[i as int].0 < before[i + 1].0);
                    }
                    lemma_put_at(after, key as int, v, i as int);
                    assert(after.insert(i as int, (key as int, v)) =~= before.update(
                        i as int,
                        (key as int, v),
                    ));
                }
                assert forall|a: int, b: int| 0 <= a < b < after.len() implies (#[trigger] after[a]).0
                    < (#[trigger] after[b]).0 by {
                    let x = if a < i {
                        a
                    } else {
                        a + 1
                    };
                    let y = if b < i {
                        b
                    } else {
                        b + 1
                    };
                    assert(after[a] == before[x] && after[b] == before[y]);
                }
            }
            Some(value)
        } else {
            None
        }
    }

    /// Fill slot `key`.
    pub fn put(&mut self, key: u64, value: T)
        requires
            old(self).wf(),
        ensures
            final(self).wf(),
            final(self)@ == slot_put(old(self)@, key as int, value@),
    {
        let i = self.position(key);
        let ghost before = self@;
        proof {
            lemma_put_at(before, key as int, value@, i as int);
            put_keeps_order(before, key as int, value@);
        }
        if i < self.entries.len() && self.entries[i].0 == key {
            self.entries.set(i, (key, value));
            assert(self@ =~= before.update(i as int, (key as int, value@)));
        } else {
            self.entries.insert(i, (key, value));
            assert(self@ =~= before.insert(i as int, (key as int, value@)));
        }
    }

    /// How many slots are filled.
    pub fn len(&self) -> (n: usize)
        ensures
            n == self@.len(),
    {
        self.entries.len()
    }

    /// The value of the `i`-th filled slot.
    pub fn at(&self, i: usize) -> (r: &T)
        requires
            i < self@.len(),
        ensures
            r@ == self@[i as int].1,
    {
        &self.entries[i].1
    }
}

} // verus!
