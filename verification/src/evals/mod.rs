//! Grading agents: what a case is, how it is run, what was observed of it and
//! how it is scored.

use vstd::prelude::*;

use crate::json::{lemma_lookup_at, lookup, members_view, put, put_member, Json, JsonView};
use crate::text::{same, text_pairs, texts};

pub mod cases;
pub mod grading;
pub mod harness;
pub mod observation;
pub mod scorers;

verus! {

/// A case: what is said to the agent, the files it finds, and what the case
/// asks of the harness and of the scorers, by name.
#[derive(Debug)]
pub struct Sample {
    pub id: String,
    /// What is said, turn by turn, in one session.
    pub input: Vec<String>,
    /// The workspace that the agent finds, by path.
    pub files: Vec<(String, String)>,
    pub tags: Vec<String>,
    pub metadata: Vec<(String, Json)>,
}

/// The content of a [`Sample`].
#[verifier::ext_equal]
pub ghost struct SampleView {
    pub id: Seq<char>,
    pub input: Seq<Seq<char>>,
    pub files: Seq<(Seq<char>, Seq<char>)>,
    pub tags: Seq<Seq<char>>,
    pub metadata: Seq<(Seq<char>, JsonView)>,
}

impl View for Sample {
    type V = SampleView;

    open spec fn view(&self) -> SampleView {
        SampleView {
            id: self.id@,
            input: texts(self.input@),
            files: text_pairs(self.files@),
            tags: texts(self.tags@),
            metadata: members_view(self.metadata@),
        }
    }
}

/// The contents of a list of cases.
pub open spec fn samples_view(samples: Seq<Sample>) -> Seq<SampleView> {
    samples.map_values(|s: Sample| s@)
}

/// The content of the first pair under a name.
pub open spec fn find_pair(pairs: Seq<(Seq<char>, Seq<char>)>, name: Seq<char>) -> Option<Seq<char>>
    decreases pairs.len(),
{
    if pairs.len() == 0 {
        None
    } else if pairs[0].0 == name {
        Some(pairs[0].1)
    } else {
        find_pair(pairs.drop_first(), name)
    }
}

/// The pairs with the content of a name set: replaced in place when there is
/// one, appended otherwise.
pub open spec fn put_pair(
    pairs: Seq<(Seq<char>, Seq<char>)>,
    name: Seq<char>,
    content: Seq<char>,
) -> Seq<(Seq<char>, Seq<char>)>
    decreases pairs.len(),
{
    if pairs.len() == 0 {
        seq![(name, content)]
    } else if pairs[0].0 == name {
        seq![(name, content)] + pairs.drop_first()
    } else {
        seq![pairs[0]] + put_pair(pairs.drop_first(), name, content)
    }
}

proof fn lemma_put_pair_at(
    pairs: Seq<(Seq<char>, Seq<char>)>,
    name: Seq<char>,
    content: Seq<char>,
    i: int,
)
    requires
        0 <= i <= pairs.len(),
        forall|k: int| 0 <= k < i ==> (#[trigger] pairs[k]).0 != name,
        i < pairs.len() ==> pairs[i].0 == name,
    ensures
        put_pair(pairs, name, content) == if i < pairs.len() {
            pairs.update(i, (name, content))
        } else {
            pairs.push((name, content))
        },
        find_pair(pairs, name) == if i < pairs.len() {
            Some(pairs[i].1)
        } else {
            None
        },
    decreases pairs.len(),
{
    if pairs.len() == 0 {
        assert(put_pair(pairs, name, content) =~= pairs.push((name, content)));
    } else if i == 0 {
        assert(put_pair(pairs, name, content) =~= pairs.update(0, (name, content)));
    } else {
        let rest = pairs.drop_first();
        assert forall|k: int| 0 <= k < i - 1 implies (#[trigger] rest[k]).0 != name by {
            assert(rest[k] == pairs[k + 1]);
        }
        lemma_put_pair_at(rest, name, content, i - 1);
        assert(pairs[0].0 != name);
        if i < pairs.len() {
            assert(put_pair(pairs, name, content) =~= pairs.update(i, (name, content)));
        } else {
            assert(put_pair(pairs, name, content) =~= pairs.push((name, content)));
        }
    }
}

/// The content of the first pair under a name.
pub fn pair_of<'a>(pairs: &'a Vec<(String, String)>, name: &str) -> (r: Option<&'a String>)
    ensures
        match r {
            Some(content) => find_pair(text_pairs(pairs@), name@) == Some(content@),
            None => find_pair(text_pairs(pairs@), name@) is None,
        },
{
    let ghost all = text_pairs(pairs@);
    let mut i: usize = 0;
    while i < pairs.len()
        invariant
            i <= pairs@.len(),
            all == text_pairs(pairs@),
            forall|k: int| 0 <= k < i ==> (#[trigger] all[k]).0 != name@,
        decreases pairs.len() - i,
    {
        if same(pairs[i].0.as_str(), name) {
            proof {
                lemma_put_pair_at(all, name@, Seq::empty(), i as int);
            }
            return Some(&pairs[i].1);
        }
        i += 1;
    }
    proof {
        lemma_put_pair_at(all, name@, Seq::empty(), i as int);
    }
    None
}

impl SampleView {
    /// A case of one turn.
    pub open spec fn one(id: Seq<char>, prompt: Seq<char>) -> SampleView {
        SampleView::many(id, seq![prompt])
    }

    /// A case of several turns.
    pub open spec fn many(id: Seq<char>, turns: Seq<Seq<char>>) -> SampleView {
        SampleView {
            id,
            input: turns,
            files: Seq::empty(),
            tags: Seq::empty(),
            metadata: Seq::empty(),
        }
    }

    /// The case with a tag added.
    pub open spec fn tag(self, tag: Seq<char>) -> SampleView {
        SampleView { tags: self.tags.push(tag), ..self }
    }

    /// The case with a file set.
    pub open spec fn file(self, path: Seq<char>, content: Seq<char>) -> SampleView {
        SampleView { files: put_pair(self.files, path, content), ..self }
    }

    /// The case with what it asks under a name set.
    pub open spec fn meta(self, key: Seq<char>, value: JsonView) -> SampleView {
        SampleView { metadata: put(self.metadata, key, value), ..self }
    }

    /// What the case asks under a name.
    pub open spec fn asks(self, key: Seq<char>) -> Option<JsonView> {
        lookup(self.metadata, key)
    }
}

impl Sample {
    /// A case of one turn.
    pub fn new(id: &str, prompt: &str) -> (r: Self)
        ensures
            r@ == SampleView::one(id@, prompt@),
    {
        let r = Sample::turns(id, vec![prompt.to_owned()]);
        assert(r@.input =~= seq![prompt@]);
        r
    }

    /// A case of several turns.
    pub fn turns(id: &str, turns: Vec<String>) -> (r: Self)
        ensures
            r@ == SampleView::many(id@, texts(turns@)),
    {
        let r = Sample {
            id: id.to_owned(),
            input: turns,
            files: Vec::new(),
            tags: Vec::new(),
            metadata: Vec::new(),
        };
        assert(r@ =~= SampleView::many(id@, texts(turns@)));
        r
    }

    /// Add a tag.
    pub fn tag(self, tag: &str) -> (r: Self)
        ensures
            r@ == self@.tag(tag@),
    {
        let mut r = self;
        r.tags.push(tag.to_owned());
        assert(r@ =~= self@.tag(tag@));
        r
    }

    /// Set a file of the workspace.
    pub fn file(self, path: &str, content: &str) -> (r: Self)
        ensures
            r@ == self@.file(path@, content@),
    {
        let mut r = self;
        let ghost all = self@.files;
        let mut i: usize = 0;
        while i < r.files.len()
            invariant
                r == self,
                i <= r.files@.len(),
                all == text_pairs(r.files@),
                forall|k: int| 0 <= k < i ==> (#[trigger] all[k]).0 != path@,
            decreases r.files.len() - i,
        {
            if same(r.files[i].0.as_str(), path) {
                proof {
                    lemma_put_pair_at(all, path@, content@, i as int);
                }
                r.files.set(i, (path.to_owned(), content.to_owned()));
                assert(text_pairs(r.files@) =~= all.update(i as int, (path@, content@)));
                return r;
            }
            i += 1;
        }
        proof {
            lemma_put_pair_at(all, path@, content@, i as int);
        }
        r.files.push((path.to_owned(), content.to_owned()));
        assert(text_pairs(r.files@) =~= all.push((path@, content@)));
        r
    }

    /// Set what the case asks under a name.
    pub fn meta(self, key: &str, value: Json) -> (r: Self)
        ensures
            r@ == self@.meta(key@, value@),
    {
        let mut r = self;
        put_member(&mut r.metadata, key, value);
        r
    }

    /// What the case asks under a name.
    pub fn asks(&self, key: &str) -> (r: Option<&Json>)
        ensures
            match r {
                Some(value) => self@.asks(key@) == Some(value@),
                None => self@.asks(key@) is None,
            },
    {
        let ghost model = members_view(self.metadata@);
        let mut i: usize = 0;
        while i < self.metadata.len()
            invariant
                i <= self.metadata@.len(),
                model == members_view(self.metadata@),
                forall|k: int| 0 <= k < i ==> (#[trigger] model[k]).0 != key@,
            decreases self.metadata.len() - i,
        {
            if same(self.metadata[i].0.as_str(), key) {
                proof {
                    lemma_lookup_at(model, key@, i as int);
                }
                return Some(&self.metadata[i].1);
            }
            i += 1;
        }
        proof {
            lemma_lookup_at(model, key@, i as int);
        }
        None
    }
}

} // verus!
