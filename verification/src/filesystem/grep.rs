//! Searching a workspace for lines that match a pattern.

use vstd::prelude::*;

use crate::filesystem::{entries_view, EntryView, FileEntry};
use crate::text::{cat3, cat5, decimal, decimal_of, lines, lines_of, texts, trim_end, trim_of,
    trimmed_end, trimmed_of};

verus! {

/// How many matches one search returns at most.
pub const MAX_GREP_MATCHES: usize = 200;

/// How many files one search looks at, at most.
pub const MAX_GREP_FILES: usize = 5000;

/// A compiled regular expression of the `regex` crate, opaque here.
#[verifier::external_type_specification]
#[verifier::external_body]
pub struct ExRegex(regex::Regex);

/// What `regex::Regex::new` makes of a pattern: the compiled expression, or
/// the message of the error.
pub uninterp spec fn regex_new(pattern: Seq<char>) -> Result<regex::Regex, Seq<char>>;

/// Whether `regex::Regex::is_match` finds a match in a text.
pub uninterp spec fn regex_is_match(pattern: regex::Regex, text: Seq<char>) -> bool;

/// Compiles a pattern with `regex::Regex::new`: the result depends on the
/// pattern alone.
#[verifier::external_body]
pub(crate) fn compile(pattern: &str) -> (r: Result<regex::Regex, String>)
    ensures
        match r {
            Ok(regex) => regex_new(pattern@) == Ok::<regex::Regex, Seq<char>>(regex),
            Err(message) => regex_new(pattern@) == Err::<regex::Regex, Seq<char>>(message@),
        },
{
    regex::Regex::new(pattern).map_err(|e| e.to_string())
}

/// Asks `regex::Regex::is_match` whether a text holds a match: the result
/// depends on the expression and the text alone.
#[verifier::external_body]
fn is_match(pattern: &regex::Regex, text: &str) -> (r: bool)
    ensures
        r == regex_is_match(*pattern, text@),
{
    pattern.is_match(text)
}

/// What the search asks for next.
#[derive(Debug, PartialEq, Eq)]
pub enum GrepStep {
    /// The entries of a directory.
    List(String),
    /// The content of a file.
    Read(String),
    /// Nothing: the search is over.
    Done,
}

/// The content of a [`GrepStep`].
pub ghost enum StepView {
    List(Seq<char>),
    Read(Seq<char>),
    Done,
}

impl View for GrepStep {
    type V = StepView;

    open spec fn view(&self) -> StepView {
        match *self {
            GrepStep::List(path) => StepView::List(path@),
            GrepStep::Read(path) => StepView::Read(path@),
            GrepStep::Done => StepView::Done,
        }
    }
}

/// A search that is under way. It decides what to look at; a host lists
/// directories and reads files for it.
#[derive(Debug)]
pub struct GrepSearch {
    queue: Vec<String>,
    directory: String,
    entries: Vec<FileEntry>,
    next: usize,
    files_seen: usize,
    matches: Vec<String>,
    truncated: bool,
}

/// The state of a [`GrepSearch`].
#[verifier::ext_equal]
pub ghost struct GrepView {
    /// The directories still to list; the last one is next.
    pub queue: Seq<Seq<char>>,
    /// The directory that is being looked at.
    pub directory: Seq<char>,
    /// Its entries that are still to look at.
    pub entries: Seq<EntryView>,
    pub files_seen: int,
    pub matches: Seq<Seq<char>>,
    pub truncated: bool,
}

impl View for GrepSearch {
    type V = GrepView;

    closed spec fn view(&self) -> GrepView {
        GrepView {
            queue: texts(self.queue@),
            directory: self.directory@,
            entries: entries_view(self.entries@).skip(self.next as int),
            files_seen: self.files_seen as int,
            matches: texts(self.matches@),
            truncated: self.truncated,
        }
    }
}

/// A search under a directory, before its first step.
pub open spec fn fresh_search(root: Seq<char>) -> GrepView {
    GrepView {
        queue: seq![root],
        directory: Seq::empty(),
        entries: Seq::empty(),
        files_seen: 0,
        matches: Seq::empty(),
        truncated: false,
    }
}

/// The path of an entry of a directory.
pub open spec fn entry_path(directory: Seq<char>, name: Seq<char>) -> Seq<char> {
    if directory.len() == 0 {
        name
    } else {
        directory + "/"@ + name
    }
}

/// What the search asks for next, and its state then. Directories on the way
/// are put off, and the last one put off is looked at first.
pub open spec fn grep_next(s: GrepView) -> (GrepView, StepView)
    decreases s.entries.len(),
{
    if s.truncated {
        (s, StepView::Done)
    } else if s.entries.len() > 0 {
        let entry = s.entries[0];
        let path = entry_path(s.directory, entry.name);
        let s = GrepView { entries: s.entries.drop_first(), ..s };
        if entry.is_dir {
            grep_next(GrepView { queue: s.queue.push(path), ..s })
        } else if s.files_seen >= MAX_GREP_FILES {
            (
                GrepView { files_seen: s.files_seen + 1, truncated: true, ..s },
                StepView::Done,
            )
        } else {
            (GrepView { files_seen: s.files_seen + 1, ..s }, StepView::Read(path))
        }
    } else if s.queue.len() > 0 {
        (
            GrepView { queue: s.queue.drop_last(), directory: s.queue.last(), ..s },
            StepView::List(s.queue.last()),
        )
    } else {
        (s, StepView::Done)
    }
}

/// How a matching line is reported.
pub open spec fn match_text(path: Seq<char>, number: int, line: Seq<char>) -> Seq<char> {
    path + ":"@ + decimal(number as nat) + ": "@ + trimmed_end(line)
}

/// The matches with those of a file's first `n` lines added, up to the limit.
pub open spec fn with_matches(
    matches: Seq<Seq<char>>,
    path: Seq<char>,
    lines: Seq<Seq<char>>,
    hits: Seq<bool>,
    n: int,
) -> Seq<Seq<char>>
    decreases n,
{
    if n <= 0 {
        matches
    } else {
        let earlier = with_matches(matches, path, lines, hits, n - 1);
        if hits[n - 1] && earlier.len() < MAX_GREP_MATCHES {
            earlier.push(match_text(path, n, lines[n - 1]))
        } else {
            earlier
        }
    }
}

/// The state after a file's lines were looked at.
pub open spec fn grep_scanned(
    s: GrepView,
    path: Seq<char>,
    lines: Seq<Seq<char>>,
    hits: Seq<bool>,
) -> GrepView {
    let matches = with_matches(s.matches, path, lines, hits, lines.len() as int);
    GrepView { matches, truncated: s.truncated || matches.len() >= MAX_GREP_MATCHES, ..s }
}

/// Which of the lines match.
pub open spec fn hits_of(pattern: regex::Regex, lines: Seq<Seq<char>>) -> Seq<bool> {
    lines.map_values(|line: Seq<char>| regex_is_match(pattern, line))
}

/// Whether a search is within its limits.
pub open spec fn within_limits(s: GrepView) -> bool {
    &&& s.matches.len() <= MAX_GREP_MATCHES
    &&& s.matches.len() == MAX_GREP_MATCHES ==> s.truncated
    &&& 0 <= s.files_seen <= MAX_GREP_FILES + 1
    &&& s.files_seen == MAX_GREP_FILES + 1 ==> s.truncated
}

/// Looking further keeps a search within its limits.
pub proof fn next_stays_within_limits(s: GrepView)
    requires
        within_limits(s),
    ensures
        within_limits(grep_next(s).0),
    decreases s.entries.len(),
{
    if !s.truncated && s.entries.len() > 0 && s.entries[0].is_dir {
        let path = entry_path(s.directory, s.entries[0].name);
        next_stays_within_limits(
            GrepView { entries: s.entries.drop_first(), queue: s.queue.push(path), ..s },
        );
    }
}

/// Adding the matches of a file keeps a search within its limits: never more
/// than the limit, and a search that reached it says that it stopped early.
pub proof fn scan_stays_within_limits(
    s: GrepView,
    path: Seq<char>,
    lines: Seq<Seq<char>>,
    hits: Seq<bool>,
)
    requires
        within_limits(s),
    ensures
        within_limits(grep_scanned(s, path, lines, hits)),
{
    lemma_with_matches_limit(s.matches, path, lines, hits, lines.len() as int);
}

proof fn lemma_with_matches_limit(
    matches: Seq<Seq<char>>,
    path: Seq<char>,
    lines: Seq<Seq<char>>,
    hits: Seq<bool>,
    n: int,
)
    requires
        matches.len() <= MAX_GREP_MATCHES,
    ensures
        with_matches(matches, path, lines, hits, n).len() <= MAX_GREP_MATCHES,
    decreases n,
{
    if n > 0 {
        lemma_with_matches_limit(matches, path, lines, hits, n - 1);
    }
}

impl GrepSearch {
    /// The state is consistent and within the limits.
    pub closed spec fn wf(&self) -> bool {
        self.next <= self.entries@.len() && within_limits(self@)
    }

    /// A search under a directory.
    pub fn new(root: &str) -> (r: Self)
        ensures
            r.wf(),
            r@ == fresh_search(trimmed_of(root@, '/')),
    {
        let r = GrepSearch {
            queue: vec![trim_of(root, '/')],
            directory: String::new(),
            entries: Vec::new(),
            next: 0,
            files_seen: 0,
            matches: Vec::new(),
            truncated: false,
        };
        assert(r@.queue =~= seq![trimmed_of(root@, '/')]);
        assert(r@.entries =~= Seq::<EntryView>::empty());
        assert(r@.matches =~= Seq::<Seq<char>>::empty());
        r
    }

    /// What the search asks for next.
    pub fn step(&mut self) -> (r: GrepStep)
        requires
            old(self).wf(),
        ensures
            final(self).wf(),
            (final(self)@, r@) == grep_next(old(self)@),
    {
        proof {
            next_stays_within_limits(self@);
        }
        let ghost goal = grep_next(self@);
        if self.truncated {
            return GrepStep::Done;
        }
        while self.next < self.entries.len()
            invariant
                self.wf(),
                !self.truncated,
                goal == grep_next(old(self)@),
                grep_next(self@) == goal,
                within_limits(goal.0),
            decreases self.entries.len() - self.next,
        {
            let ghost before = self@;
            let entry = &self.entries[self.next];
            let path = if self.directory.as_str().is_empty() {
                entry.name.clone()
            } else {
                cat3(self.directory.as_str(), "/", entry.name.as_str())
            };
            let is_dir = entry.is_dir;
            assert(before.entries[0] == entry@);
            assert(path@ == entry_path(before.directory, entry@.name));
            self.next += 1;
            assert(self@.entries =~= before.entries.drop_first());
            if is_dir {
                self.queue.push(path);
                assert(self@.queue =~= before.queue.push(path@));
                continue;
            }
            self.files_seen += 1;
            if self.files_seen > MAX_GREP_FILES {
                self.truncated = true;
                assert(self@ == goal.0);
                return GrepStep::Done;
            }
            assert(self@ == goal.0);
            return GrepStep::Read(path);
        }
        let ghost before = self@;
        assert(before.entries.len() == 0);
        match self.queue.pop() {
            None => GrepStep::Done,
            Some(directory) => {
                assert(self@.queue =~= before.queue.drop_last());
                self.directory = directory.clone();
                assert(self@ =~= goal.0);
                GrepStep::List(directory)
            },
        }
    }

    /// The entries of the directory that was asked for; nothing for one that
    /// could not be listed, which is skipped.
    pub fn listed(&mut self, entries: Option<Vec<FileEntry>>)
        requires
            old(self).wf(),
        ensures
            final(self).wf(),
            final(self)@ == (GrepView {
                entries: match entries {
                    Some(entries) => entries_view(entries@),
                    None => Seq::empty(),
                },
                ..old(self)@
            }),
    {
        let ghost before = self@;
        self.entries = match entries {
            Some(entries) => entries,
            None => Vec::new(),
        };
        self.next = 0;
        assert(self@.entries =~= entries_view(self.entries@));
        assert(within_limits(self@));
        assert(self@.entries =~= match entries {
            Some(entries) => entries_view(entries@),
            None => Seq::empty(),
        });
    }

    /// Add the matching lines of a file, up to the limit.
    pub fn add_matches(&mut self, path: &str, lines: &Vec<String>, hits: &Vec<bool>)
        requires
            old(self).wf(),
            hits@.len() == lines@.len(),
        ensures
            final(self).wf(),
            final(self)@ == grep_scanned(old(self)@, path@, texts(lines@), hits@),
    {
        let ghost before = self@;
        let ghost all = texts(lines@);
        proof {
            scan_stays_within_limits(before, path@, all, hits@);
        }
        let mut i: usize = 0;
        while i < lines.len()
            invariant
                i <= lines@.len(),
                hits@.len() == lines@.len(),
                all == texts(lines@),
                before.matches.len() <= MAX_GREP_MATCHES,
                self.next <= self.entries@.len(),
                self@ == (GrepView { matches: texts(self.matches@), ..before }),
                texts(self.matches@) == with_matches(before.matches, path@, all, hits@, i as int),
            decreases lines.len() - i,
        {
            let ghost earlier = texts(self.matches@);
            if hits[i] && self.matches.len() < MAX_GREP_MATCHES {
                let number = decimal_of(i as u64 + 1);
                let text = trim_end(lines[i].as_str());
                let found = cat5(path, ":", number.as_str(), ": ", text.as_str());
                self.matches.push(found);
                assert(texts(self.matches@) =~= earlier.push(found@));
            }
            i += 1;
        }
        if self.matches.len() >= MAX_GREP_MATCHES {
            self.truncated = true;
        }
        assert(self@ =~= grep_scanned(before, path@, all, hits@));
    }

    /// Look at the content of the file that was asked for.
    pub fn read(&mut self, pattern: &regex::Regex, path: &str, content: &str)
        requires
            old(self).wf(),
        ensures
            final(self).wf(),
            final(self)@ == grep_scanned(
                old(self)@,
                path@,
                lines_of(content@),
                hits_of(*pattern, lines_of(content@)),
            ),
    {
        let lines = lines(content);
        let ghost all = texts(lines@);
        let mut hits: Vec<bool> = Vec::new();
        let mut i: usize = 0;
        while i < lines.len()
            invariant
                hits@.len() == i <= lines@.len(),
                all == texts(lines@),
                forall|k: int| 0 <= k < i ==> hits@[k] == regex_is_match(*pattern, #[trigger] all[k]),
            decreases lines.len() - i,
        {
            hits.push(is_match(pattern, lines[i].as_str()));
            i += 1;
        }
        assert(hits@ =~= hits_of(*pattern, all));
        self.add_matches(path, &lines, &hits);
    }

    /// The matches found so far.
    pub fn matches(&self) -> (r: &Vec<String>)
        ensures
            texts(r@) == self@.matches,
    {
        &self.matches
    }

    /// Whether the search stopped at one of its limits.
    pub fn truncated(&self) -> (r: bool)
        ensures
            r == self@.truncated,
    {
        self.truncated
    }
}

} // verus!
