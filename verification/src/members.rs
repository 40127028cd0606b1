//! Which members an object has, found by their names.

use vstd::prelude::*;

use crate::json::{lemma_lookup_at, lookup, put, put_then_lookup, JsonView};

verus! {

/// Whether two names differ in their length or in a letter near their ends.
pub open spec fn differ(a: Seq<char>, b: Seq<char>) -> bool {
    a.len() != b.len() || a[0] != b[0] || a[1] != b[1] || a[2] != b[2] || a[6] != b[6] || a.last()
        != b.last()
}

/// The members of an object of two.
pub proof fn members_of_two(k1: Seq<char>, v1: JsonView, k2: Seq<char>, v2: JsonView)
    requires
        differ(k1, k2),
    ensures
        ({
            let o = JsonView::Object(seq![(k1, v1), (k2, v2)]);
            &&& o.get(k1) == Some(v1)
            &&& o.get(k2) == Some(v2)
            &&& forall|k: Seq<char>| k != k1 && k != k2 ==> (#[trigger] o.get(k)) is None
        }),
{
    let members = seq![(k1, v1), (k2, v2)];
    lemma_lookup_at(members, k1, 0);
    lemma_lookup_at(members, k2, 1);
    assert forall|k: Seq<char>| k != k1 && k != k2 implies (#[trigger] JsonView::Object(
        members,
    ).get(k)) is None by {
        lemma_lookup_at(members, k, 2);
    }
}

/// The members of an object of three.
pub proof fn members_of_three(
    k1: Seq<char>,
    v1: JsonView,
    k2: Seq<char>,
    v2: JsonView,
    k3: Seq<char>,
    v3: JsonView,
)
    requires
        differ(k1, k2),
        differ(k1, k3),
        differ(k2, k3),
    ensures
        ({
            let o = JsonView::Object(seq![(k1, v1), (k2, v2), (k3, v3)]);
            &&& o.get(k1) == Some(v1)
            &&& o.get(k2) == Some(v2)
            &&& o.get(k3) == Some(v3)
            &&& forall|k: Seq<char>|
                k != k1 && k != k2 && k != k3 ==> (#[trigger] o.get(k)) is None
        }),
{
    let members = seq![(k1, v1), (k2, v2), (k3, v3)];
    lemma_lookup_at(members, k1, 0);
    lemma_lookup_at(members, k2, 1);
    lemma_lookup_at(members, k3, 2);
    assert forall|k: Seq<char>| k != k1 && k != k2 && k != k3 implies (
    #[trigger] JsonView::Object(members).get(k)) is None by {
        lemma_lookup_at(members, k, 3);
    }
}

/// The members of an object of four.
pub proof fn members_of_four(
    k1: Seq<char>,
    v1: JsonView,
    k2: Seq<char>,
    v2: JsonView,
    k3: Seq<char>,
    v3: JsonView,
    k4: Seq<char>,
    v4: JsonView,
)
    requires
        differ(k1, k2),
        differ(k1, k3),
        differ(k1, k4),
        differ(k2, k3),
        differ(k2, k4),
        differ(k3, k4),
    ensures
        ({
            let o = JsonView::Object(seq![(k1, v1), (k2, v2), (k3, v3), (k4, v4)]);
            &&& o.get(k1) == Some(v1)
            &&& o.get(k2) == Some(v2)
            &&& o.get(k3) == Some(v3)
            &&& o.get(k4) == Some(v4)
            &&& forall|k: Seq<char>|
                k != k1 && k != k2 && k != k3 && k != k4 ==> (#[trigger] o.get(k)) is None
        }),
{
    let members = seq![(k1, v1), (k2, v2), (k3, v3), (k4, v4)];
    lemma_lookup_at(members, k1, 0);
    lemma_lookup_at(members, k2, 1);
    lemma_lookup_at(members, k3, 2);
    lemma_lookup_at(members, k4, 3);
    assert forall|k: Seq<char>| k != k1 && k != k2 && k != k3 && k != k4 implies (
    #[trigger] JsonView::Object(members).get(k)) is None by {
        lemma_lookup_at(members, k, 4);
    }
}

/// An object of one member.
pub proof fn member_of_one(k1: Seq<char>, v1: JsonView)
    ensures
        ({
            let o = JsonView::Object(seq![(k1, v1)]);
            &&& o.get(k1) == Some(v1)
            &&& forall|k: Seq<char>| k != k1 ==> (#[trigger] o.get(k)) is None
        }),
{
    let members = seq![(k1, v1)];
    lemma_lookup_at(members, k1, 0);
    assert forall|k: Seq<char>| k != k1 implies (#[trigger] JsonView::Object(members).get(
        k,
    )) is None by {
        lemma_lookup_at(members, k, 1);
    }
}

/// A member of members in two parts is the one of the first part, or else the
/// one of the second.
pub proof fn members_in_two_parts(
    a: Seq<(Seq<char>, JsonView)>,
    b: Seq<(Seq<char>, JsonView)>,
    key: Seq<char>,
)
    ensures
        lookup(a + b, key) == match lookup(a, key) {
            Some(v) => Some(v),
            None => lookup(b, key),
        },
    decreases a.len(),
{
    if a.len() == 0 {
        assert(a + b =~= b);
    } else {
        assert((a + b).drop_first() =~= a.drop_first() + b);
        members_in_two_parts(a.drop_first(), b, key);
    }
}

/// Setting a member of an object sets that one, and leaves every other.
pub proof fn setting_a_member(
    members: Seq<(Seq<char>, JsonView)>,
    key: Seq<char>,
    value: JsonView,
)
    ensures
        ({
            let o = JsonView::Object(put(members, key, value));
            &&& o.get(key) == Some(value)
            &&& forall|other: Seq<char>|
                other != key ==> #[trigger] o.get(other) == JsonView::Object(members).get(other)
        }),
{
    put_then_lookup(members, key, value, key);
    assert forall|other: Seq<char>| other != key implies #[trigger] JsonView::Object(
        put(members, key, value),
    ).get(other) == JsonView::Object(members).get(other) by {
        put_then_lookup(members, key, value, other);
    }
}

} // verus!
