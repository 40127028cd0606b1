//! Text primitives: comparing, searching, splitting and joining strings.
//!
//! A string is modelled by its sequence of characters, so every function here
//! is stated over `Seq<char>`.

use vstd::prelude::*;
use vstd::utf8::{decode_utf8, encode_utf8, valid_utf8};

verus! {

/// `String::push` appends one character to the end of the string.
pub assume_specification[ String::push ](s: &mut String, ch: char)
    ensures
        final(s)@ == old(s)@.push(ch),
;

/// The text held by each string of a list.
pub open spec fn texts(list: Seq<String>) -> Seq<Seq<char>> {
    list.map_values(|s: String| s@)
}

/// The text held by each pair of strings of a list.
pub open spec fn text_pairs(list: Seq<(String, String)>) -> Seq<(Seq<char>, Seq<char>)> {
    list.map_values(|p: (String, String)| (p.0@, p.1@))
}

/// The text of an optional string.
pub open spec fn opt_text(s: Option<String>) -> Option<Seq<char>> {
    match s {
        Some(s) => Some(s@),
        None => None,
    }
}

/// The characters of a string, in order.
pub fn chars_of(s: &str) -> (chars: Vec<char>)
    ensures
        chars@ == s@,
{
    let mut chars: Vec<char> = Vec::new();
    for c in it: s.chars()
        invariant
            chars@ == it.seq().take(it.index()),
            it.seq() == s@,
    {
        chars.push(c);
        proof {
            assert(it.seq().take(it.index() + 1) =~= it.seq().take(it.index()).push(c));
        }
    }
    assert(s@.take(s@.len() as int) =~= s@);
    chars
}

/// The string spelled by `chars[from..to]`.
pub fn string_of(chars: &Vec<char>, from: usize, to: usize) -> (s: String)
    requires
        from <= to <= chars@.len(),
    ensures
        s@ == chars@.subrange(from as int, to as int),
{
    let mut s = String::new();
    let mut i: usize = from;
    while i < to
        invariant
            from <= i <= to <= chars@.len(),
            s@ == chars@.subrange(from as int, i as int),
        decreases to - i,
    {
        s.push(chars[i]);
        i += 1;
        assert(chars@.subrange(from as int, i as int) =~= chars@.subrange(
            from as int,
            i as int - 1,
        ).push(chars@[i as int - 1]));
    }
    s
}

/// Whether two strings hold the same text.
pub fn same(a: &str, b: &str) -> (r: bool)
    ensures
        r == (a@ == b@),
{
    let x = chars_of(a);
    let y = chars_of(b);
    if x.len() != y.len() {
        return false;
    }
    let mut i: usize = 0;
    while i < x.len()
        invariant
            i <= x@.len() == y@.len(),
            x@ == a@,
            y@ == b@,
            forall|k: int| 0 <= k < i ==> x@[k] == y@[k],
        decreases x.len() - i,
    {
        if x[i] != y[i] {
            return false;
        }
        i += 1;
    }
    assert(x@ =~= y@);
    true
}

/// A copy of an optional string.
pub fn clone_opt(s: &Option<String>) -> (r: Option<String>)
    ensures
        opt_text(r) == opt_text(*s),
{
    match s {
        Some(s) => Some(s.clone()),
        None => None,
    }
}

/// A copy of a list of strings.
pub fn clone_strings(list: &Vec<String>) -> (r: Vec<String>)
    ensures
        texts(r@) == texts(list@),
{
    let mut r: Vec<String> = Vec::new();
    let mut i: usize = 0;
    while i < list.len()
        invariant
            r@.len() == i <= list@.len(),
            forall|k: int| 0 <= k < i ==> (#[trigger] r@[k])@ == list@[k]@,
        decreases list.len() - i,
    {
        r.push(list[i].clone());
        i += 1;
    }
    assert(texts(r@) =~= texts(list@));
    r
}

/// A copy of a list of string pairs.
pub fn clone_pairs(list: &Vec<(String, String)>) -> (r: Vec<(String, String)>)
    ensures
        text_pairs(r@) == text_pairs(list@),
{
    let mut r: Vec<(String, String)> = Vec::new();
    let mut i: usize = 0;
    while i < list.len()
        invariant
            r@.len() == i <= list@.len(),
            forall|k: int|
                0 <= k < i ==> (#[trigger] r@[k]).0@ == list@[k].0@ && r@[k].1@ == list@[k].1@,
        decreases list.len() - i,
    {
        r.push((list[i].0.clone(), list[i].1.clone()));
        i += 1;
    }
    assert(text_pairs(r@) =~= text_pairs(list@));
    r
}

/// The characters with the Unicode property White_Space.
pub open spec fn is_space(c: char) -> bool {
    ||| '\u{9}' <= c <= '\u{d}'
    ||| c == ' '
    ||| c == '\u{85}'
    ||| c == '\u{a0}'
    ||| c == '\u{1680}'
    ||| '\u{2000}' <= c <= '\u{200a}'
    ||| c == '\u{2028}'
    ||| c == '\u{2029}'
    ||| c == '\u{202f}'
    ||| c == '\u{205f}'
    ||| c == '\u{3000}'
}

/// Whether a character is white space.
pub fn is_space_char(c: char) -> (r: bool)
    ensures
        r == is_space(c),
{
    ('\u{9}' <= c && c <= '\u{d}') || c == ' ' || c == '\u{85}' || c == '\u{a0}' || c == '\u{1680}'
        || ('\u{2000}' <= c && c <= '\u{200a}') || c == '\u{2028}' || c == '\u{2029}'
        || c == '\u{202f}' || c == '\u{205f}' || c == '\u{3000}'
}

/// A text without its leading white space.
pub open spec fn trimmed_start(s: Seq<char>) -> Seq<char>
    decreases s.len(),
{
    if s.len() > 0 && is_space(s[0]) {
        trimmed_start(s.drop_first())
    } else {
        s
    }
}

/// A text without its trailing white space.
pub open spec fn trimmed_end(s: Seq<char>) -> Seq<char>
    decreases s.len(),
{
    if s.len() > 0 && is_space(s.last()) {
        trimmed_end(s.drop_last())
    } else {
        s
    }
}

/// A text without the white space around it.
pub open spec fn trimmed(s: Seq<char>) -> Seq<char> {
    trimmed_end(trimmed_start(s))
}

/// A text without the repetitions of `c` at its end.
pub open spec fn trimmed_end_of(s: Seq<char>, c: char) -> Seq<char>
    decreases s.len(),
{
    if s.len() > 0 && s.last() == c {
        trimmed_end_of(s.drop_last(), c)
    } else {
        s
    }
}

/// How many characters of white space `chars[..to]` starts with.
fn leading_space(chars: &Vec<char>, to: usize) -> (n: usize)
    requires
        to <= chars@.len(),
    ensures
        n <= to,
        trimmed_start(chars@.take(to as int)) == chars@.subrange(n as int, to as int),
{
    let ghost whole = chars@.take(to as int);
    let mut n: usize = 0;
    assert(whole =~= chars@.subrange(0, to as int));
    while n < to && is_space_char(chars[n])
        invariant
            n <= to <= chars@.len(),
            whole == chars@.take(to as int),
            trimmed_start(whole) == trimmed_start(chars@.subrange(n as int, to as int)),
        decreases to - n,
    {
        assert(chars@.subrange(n as int, to as int).drop_first() =~= chars@.subrange(
            n as int + 1,
            to as int,
        ));
        n += 1;
    }
    n
}

/// The end of `chars[from..]` once its trailing white space is gone.
fn end_of_text(chars: &Vec<char>, from: usize) -> (end: usize)
    requires
        from <= chars@.len(),
    ensures
        from <= end <= chars@.len(),
        trimmed_end(chars@.skip(from as int)) == chars@.subrange(from as int, end as int),
{
    let ghost whole = chars@.skip(from as int);
    let mut end: usize = chars.len();
    assert(whole =~= chars@.subrange(from as int, end as int));
    while end > from && is_space_char(chars[end - 1])
        invariant
            from <= end <= chars@.len(),
            trimmed_end(whole) == trimmed_end(chars@.subrange(from as int, end as int)),
        decreases end,
    {
        assert(chars@.subrange(from as int, end as int).drop_last() =~= chars@.subrange(
            from as int,
            end as int - 1,
        ));
        end -= 1;
    }
    end
}

/// The text without leading white space.
pub fn trim_start(s: &str) -> (r: String)
    ensures
        r@ == trimmed_start(s@),
{
    let chars = chars_of(s);
    let n = leading_space(&chars, chars.len());
    assert(chars@.take(chars@.len() as int) =~= s@);
    string_of(&chars, n, chars.len())
}

/// The text without the white space around it.
pub fn trim(s: &str) -> (r: String)
    ensures
        r@ == trimmed(s@),
{
    let chars = chars_of(s);
    let n = leading_space(&chars, chars.len());
    assert(chars@.take(chars@.len() as int) =~= s@);
    assert(chars@.skip(n as int) =~= chars@.subrange(n as int, chars@.len() as int));
    let end = end_of_text(&chars, n);
    string_of(&chars, n, end)
}

/// The text without the repetitions of `c` at its end.
pub fn trim_end_of(s: &str, c: char) -> (r: String)
    ensures
        r@ == trimmed_end_of(s@, c),
{
    let chars = chars_of(s);
    let mut end: usize = chars.len();
    assert(s@ =~= chars@.subrange(0, end as int));
    while end > 0 && chars[end - 1] == c
        invariant
            end <= chars@.len(),
            trimmed_end_of(s@, c) == trimmed_end_of(chars@.subrange(0, end as int), c),
        decreases end,
    {
        assert(chars@.subrange(0, end as int).drop_last() =~= chars@.subrange(0, end as int - 1));
        end -= 1;
    }
    string_of(&chars, 0, end)
}

/// Whether `s` begins with `prefix`.
pub fn starts_with(s: &str, prefix: &str) -> (r: bool)
    ensures
        r == prefix@.is_prefix_of(s@),
{
    let x = chars_of(s);
    let y = chars_of(prefix);
    if y.len() > x.len() {
        return false;
    }
    let r = occurs(&x, &y, 0);
    assert(x@.subrange(0, y@.len() as int) =~= x@.take(y@.len() as int));
    r
}

/// What follows `prefix` in `s`, when `s` begins with it.
pub fn strip_prefix(s: &str, prefix: &str) -> (r: Option<String>)
    ensures
        match r {
            Some(rest) => prefix@.is_prefix_of(s@) && rest@ == s@.skip(prefix@.len() as int),
            None => !prefix@.is_prefix_of(s@),
        },
{
    if starts_with(s, prefix) {
        let x = chars_of(s);
        let n = chars_of(prefix).len();
        assert(s@.skip(prefix@.len() as int) =~= x@.subrange(n as int, x@.len() as int));
        Some(string_of(&x, n, x.len()))
    } else {
        None
    }
}

/// Whether `s` ends with `suffix`.
pub fn ends_with(s: &str, suffix: &str) -> (r: bool)
    ensures
        r == suffix@.is_suffix_of(s@),
{
    let x = chars_of(s);
    let y = chars_of(suffix);
    if y.len() > x.len() {
        return false;
    }
    let r = occurs(&x, &y, x.len() - y.len());
    assert(x@.subrange((x@.len() - y@.len()) as int, x@.len() as int) =~= x@.skip(
        (x@.len() - y@.len()) as int,
    ));
    r
}

/// Whether `p` stands in `s` at position `i`.
pub open spec fn occurs_at(s: Seq<char>, p: Seq<char>, i: int) -> bool {
    &&& 0 <= i
    &&& i + p.len() <= s.len()
    &&& s.subrange(i, i + p.len()) == p
}

/// Whether `p` stands somewhere in `s`.
pub open spec fn has_text(s: Seq<char>, p: Seq<char>) -> bool {
    exists|i: int| occurs_at(s, p, i)
}

/// The first position from `from` on at which `p` stands in `s`.
pub open spec fn find_from(s: Seq<char>, p: Seq<char>, from: int) -> Option<int>
    decreases s.len() + 1 - from,
{
    if from + p.len() > s.len() {
        None
    } else if occurs_at(s, p, from) {
        Some(from)
    } else {
        find_from(s, p, from + 1)
    }
}

/// The search finds a position where the pattern stands, no earlier one, and
/// finds one whenever there is one.
pub proof fn lemma_find_from(s: Seq<char>, p: Seq<char>, from: int)
    requires
        0 <= from,
    ensures
        match find_from(s, p, from) {
            Some(i) => from <= i && occurs_at(s, p, i) && (forall|k: int|
                from <= k < i ==> !occurs_at(s, p, k)),
            None => forall|k: int| from <= k ==> !occurs_at(s, p, k),
        },
    decreases s.len() + 1 - from,
{
    if from + p.len() <= s.len() && !occurs_at(s, p, from) {
        lemma_find_from(s, p, from + 1);
    }
}

/// Whether `y` stands in `x` at position `i`.
pub fn occurs(x: &Vec<char>, y: &Vec<char>, i: usize) -> (r: bool)
    requires
        i <= x@.len(),
    ensures
        r == occurs_at(x@, y@, i as int),
{
    if y.len() > x.len() - i {
        return false;
    }
    let mut k: usize = 0;
    while k < y.len()
        invariant
            k <= y@.len(),
            i + y@.len() <= x@.len(),
            forall|j: int| 0 <= j < k ==> x@[i + j] == y@[j],
        decreases y.len() - k,
    {
        assert(i + k < x.len());
        if x[i + k] != y[k] {
            assert(x@.subrange(i as int, i + y@.len())[k as int] != y@[k as int]);
            return false;
        }
        k += 1;
    }
    assert(x@.subrange(i as int, i + y@.len()) =~= y@);
    true
}

/// The first position from `from` on at which `y` stands in `x`.
pub fn find_chars(x: &Vec<char>, y: &Vec<char>, from: usize) -> (r: Option<usize>)
    requires
        from <= x@.len(),
    ensures
        match r {
            Some(i) => find_from(x@, y@, from as int) == Some(i as int),
            None => find_from(x@, y@, from as int) is None,
        },
{
    let mut i: usize = from;
    loop
        invariant
            from <= i <= x@.len(),
            find_from(x@, y@, from as int) == find_from(x@, y@, i as int),
        decreases x.len() - i,
    {
        if y.len() > x.len() - i {
            return None;
        }
        if occurs(x, y, i) {
            return Some(i);
        }
        if i == x.len() {
            assert(x@.subrange(i as int, i + y@.len()) =~= y@);
            return None;
        }
        i += 1;
    }
}

/// Whether `p` stands somewhere in `s`.
pub fn contains(s: &str, p: &str) -> (r: bool)
    ensures
        r == has_text(s@, p@),
{
    let x = chars_of(s);
    let y = chars_of(p);
    proof {
        lemma_find_from(s@, p@, 0);
    }
    match find_chars(&x, &y, 0) {
        Some(_) => true,
        None => {
            assert forall|i: int| !occurs_at(s@, p@, i) by {
                if 0 <= i {
                }
            }
            false
        },
    }
}

/// How often `p` stands in `s[from..]`, counting from the left without
/// overlap.
pub open spec fn count_from(s: Seq<char>, p: Seq<char>, from: int) -> nat
    decreases s.len() - from,
    when 0 <= from && p.len() > 0
    via count_from_decreases
{
    match find_from(s, p, from) {
        None => 0,
        Some(i) => 1 + count_from(s, p, i + p.len()),
    }
}

#[via_fn]
proof fn count_from_decreases(s: Seq<char>, p: Seq<char>, from: int) {
    lemma_find_from(s, p, from);
}

/// `s[from..]` with each occurrence of `p`, taken from the left without
/// overlap, replaced by `with`.
pub open spec fn replace_from(s: Seq<char>, p: Seq<char>, with: Seq<char>, from: int) -> Seq<char>
    decreases s.len() - from,
    when 0 <= from && p.len() > 0
    via replace_from_decreases
{
    match find_from(s, p, from) {
        None => s.skip(from),
        Some(i) => s.subrange(from, i) + with + replace_from(s, p, with, i + p.len()),
    }
}

#[via_fn]
proof fn replace_from_decreases(s: Seq<char>, p: Seq<char>, with: Seq<char>, from: int) {
    lemma_find_from(s, p, from);
}

/// How often `p` stands in `s`, counting from the left without overlap.
pub fn count_matches(s: &str, p: &str) -> (n: usize)
    requires
        p@.len() > 0,
    ensures
        n == count_from(s@, p@, 0),
{
    let x = chars_of(s);
    let y = chars_of(p);
    let mut n: usize = 0;
    let mut from: usize = 0;
    loop
        invariant
            x@ == s@,
            y@ == p@,
            p@.len() > 0,
            n <= from <= x@.len(),
            count_from(s@, p@, 0) == n + count_from(s@, p@, from as int),
        decreases x.len() - from,
    {
        proof {
            lemma_find_from(s@, p@, from as int);
        }
        match find_chars(&x, &y, from) {
            None => {
                return n;
            },
            Some(i) => {
                from = i + y.len();
                n += 1;
            },
        }
    }
}

/// `s` with each occurrence of `p`, taken from the left without overlap,
/// replaced by `with`.
pub fn replace(s: &str, p: &str, with: &str) -> (r: String)
    requires
        p@.len() > 0,
    ensures
        r@ == replace_from(s@, p@, with@, 0),
{
    let x = chars_of(s);
    let y = chars_of(p);
    let mut r = String::new();
    let mut from: usize = 0;
    assert(r@ + replace_from(s@, p@, with@, 0) =~= replace_from(s@, p@, with@, 0));
    loop
        invariant
            x@ == s@,
            y@ == p@,
            p@.len() > 0,
            from <= x@.len(),
            replace_from(s@, p@, with@, 0) == r@ + replace_from(s@, p@, with@, from as int),
        decreases x.len() - from,
    {
        proof {
            lemma_find_from(s@, p@, from as int);
        }
        match find_chars(&x, &y, from) {
            None => {
                let rest = string_of(&x, from, x.len());
                assert(rest@ =~= s@.skip(from as int));
                r.append(rest.as_str());
                return r;
            },
            Some(i) => {
                let before = string_of(&x, from, i);
                let ghost earlier = r@;
                let ghost tail = replace_from(s@, p@, with@, i + p@.len());
                r.append(before.as_str());
                r.append(with);
                assert(earlier + (before@ + with@ + tail) =~= (earlier + before@ + with@) + tail);
                from = i + y.len();
            },
        }
    }
}

/// How many elements stand before the first `c`: all of them when there is
/// none.
pub open spec fn head_len<T>(s: Seq<T>, c: T) -> nat
    decreases s.len(),
{
    if s.len() == 0 || s[0] == c {
        0
    } else {
        1 + head_len(s.drop_first(), c)
    }
}

/// The first `c` stands right after `head_len` elements that are not `c`.
pub proof fn lemma_head_len<T>(s: Seq<T>, c: T)
    ensures
        head_len(s, c) <= s.len(),
        forall|k: int| 0 <= k < head_len(s, c) ==> s[k] != c,
        head_len(s, c) < s.len() ==> s[head_len(s, c) as int] == c,
    decreases s.len(),
{
    if s.len() > 0 && s[0] != c {
        lemma_head_len(s.drop_first(), c);
        assert forall|k: int| 0 <= k < head_len(s, c) implies s[k] != c by {
            if k > 0 {
                assert(s[k] == s.drop_first()[k - 1]);
            }
        }
    }
}

/// A position that ends a stretch free of `c` is where the head ends.
pub proof fn lemma_head_len_is<T>(s: Seq<T>, c: T, n: int)
    requires
        0 <= n <= s.len(),
        forall|k: int| 0 <= k < n ==> s[k] != c,
        n < s.len() ==> s[n] == c,
    ensures
        head_len(s, c) == n,
    decreases s.len(),
{
    if n > 0 {
        assert(s[0] != c);
        assert forall|k: int| 0 <= k < n - 1 implies s.drop_first()[k] != c by {
            assert(s[k + 1] != c);
        }
        lemma_head_len_is(s.drop_first(), c, n - 1);
    }
}

/// The position of the first `c` from `from` on, or the end.
pub fn next_char(chars: &Vec<char>, c: char, from: usize) -> (end: usize)
    requires
        from <= chars@.len(),
    ensures
        from <= end <= chars@.len(),
        end == from + head_len(chars@.skip(from as int), c),
{
    let ghost rest = chars@.skip(from as int);
    let mut end: usize = from;
    while end < chars.len() && chars[end] != c
        invariant
            from <= end <= chars@.len(),
            rest == chars@.skip(from as int),
            forall|k: int| 0 <= k < end - from ==> rest[k] != c,
        decreases chars.len() - end,
    {
        assert(rest[end - from] == chars@[end as int]);
        end += 1;
    }
    proof {
        if end < chars@.len() {
            assert(rest[end - from] == chars@[end as int]);
        }
        lemma_head_len_is(rest, c, end - from);
    }
    end
}

/// The pieces of a text between the occurrences of `c`.
pub open spec fn split_on(s: Seq<char>, c: char) -> Seq<Seq<char>>
    decreases s.len(),
    via split_on_decreases
{
    let n = head_len(s, c) as int;
    if n >= s.len() {
        seq![s]
    } else {
        seq![s.take(n)] + split_on(s.skip(n + 1), c)
    }
}

#[via_fn]
proof fn split_on_decreases(s: Seq<char>, c: char) {
    lemma_head_len(s, c);
}

/// The pieces of a text between the occurrences of `c`.
pub fn split(s: &str, c: char) -> (r: Vec<String>)
    ensures
        texts(r@) == split_on(s@, c),
{
    let chars = chars_of(s);
    let mut r: Vec<String> = Vec::new();
    let mut from: usize = 0;
    assert(chars@.skip(0) =~= s@);
    assert(texts(r@) + split_on(s@, c) =~= split_on(s@, c));
    loop
        invariant
            from <= chars@.len(),
            split_on(s@, c) == texts(r@) + split_on(chars@.skip(from as int), c),
        decreases chars.len() - from,
    {
        let ghost rest = chars@.skip(from as int);
        let ghost before = texts(r@);
        let end = next_char(&chars, c, from);
        let piece = string_of(&chars, from, end);
        r.push(piece);
        assert(texts(r@) =~= before + seq![piece@]);
        if end == chars.len() {
            assert(piece@ =~= rest);
            return r;
        }
        assert(piece@ =~= rest.take(end - from));
        assert(rest.skip(end - from + 1) =~= chars@.skip(end + 1));
        assert(before + (seq![piece@] + split_on(chars@.skip(end + 1), c)) =~= (before + seq![
            piece@,
        ]) + split_on(chars@.skip(end + 1), c));
        from = end + 1;
    }
}

/// A line without the carriage return before its line feed.
pub open spec fn without_cr(line: Seq<char>) -> Seq<char> {
    if line.len() > 0 && line.last() == '\r' {
        line.drop_last()
    } else {
        line
    }
}

/// The lines of a text: each ends with a line feed, or a carriage return and a
/// line feed; the last one may lack its ending.
pub open spec fn lines_of(s: Seq<char>) -> Seq<Seq<char>>
    decreases s.len(),
    via lines_of_decreases
{
    let n = head_len(s, '\n') as int;
    if s.len() == 0 {
        Seq::empty()
    } else if n >= s.len() {
        seq![s]
    } else {
        seq![without_cr(s.take(n))] + lines_of(s.skip(n + 1))
    }
}

#[via_fn]
proof fn lines_of_decreases(s: Seq<char>) {
    lemma_head_len(s, '\n');
}

/// The lines of a text.
pub fn lines(s: &str) -> (r: Vec<String>)
    ensures
        texts(r@) == lines_of(s@),
{
    let chars = chars_of(s);
    let mut r: Vec<String> = Vec::new();
    let mut from: usize = 0;
    assert(chars@.skip(0) =~= s@);
    assert(texts(r@) + lines_of(s@) =~= lines_of(s@));
    while from < chars.len()
        invariant
            from <= chars@.len(),
            lines_of(s@) == texts(r@) + lines_of(chars@.skip(from as int)),
        decreases chars.len() - from,
    {
        let ghost rest = chars@.skip(from as int);
        let ghost before = texts(r@);
        let end = next_char(&chars, '\n', from);
        if end == chars.len() {
            let piece = string_of(&chars, from, end);
            r.push(piece);
            assert(piece@ =~= rest);
            assert(texts(r@) =~= before + seq![piece@]);
            return r;
        }
        let stop: usize = if end > from && chars[end - 1] == '\r' {
            end - 1
        } else {
            end
        };
        let piece = string_of(&chars, from, stop);
        r.push(piece);
        assert(texts(r@) =~= before + seq![piece@]);
        assert(piece@ =~= without_cr(rest.take(end - from)));
        assert(rest.skip(end - from + 1) =~= chars@.skip(end + 1));
        assert(before + (seq![piece@] + lines_of(chars@.skip(end + 1))) =~= (before + seq![piece@])
            + lines_of(chars@.skip(end + 1)));
        from = end + 1;
    }
    assert(chars@.skip(from as int) =~= Seq::<char>::empty());
    assert(texts(r@) + Seq::<Seq<char>>::empty() =~= texts(r@));
    r
}

/// The texts one after the other, with `sep` between each two.
pub open spec fn joined(parts: Seq<Seq<char>>, sep: Seq<char>) -> Seq<char>
    decreases parts.len(),
{
    if parts.len() == 0 {
        Seq::empty()
    } else if parts.len() == 1 {
        parts[0]
    } else {
        joined(parts.drop_last(), sep) + sep + parts.last()
    }
}

/// The strings one after the other, with `sep` between each two.
pub fn join(parts: &Vec<String>, sep: &str) -> (r: String)
    ensures
        r@ == joined(texts(parts@), sep@),
{
    let mut r = String::new();
    let mut i: usize = 0;
    let ghost all = texts(parts@);
    while i < parts.len()
        invariant
            i <= parts@.len(),
            all == texts(parts@),
            r@ == joined(all.take(i as int), sep@),
        decreases parts.len() - i,
    {
        if i > 0 {
            r.append(sep);
        }
        r.append(parts[i].as_str());
        proof {
            assert(all.take(i as int + 1).drop_last() =~= all.take(i as int));
            if i == 0 {
                assert(r@ =~= parts@[0]@);
            }
        }
        i += 1;
    }
    assert(all.take(i as int) =~= all);
    r
}

/// Two texts, one after the other.
pub fn cat2(a: &str, b: &str) -> (r: String)
    ensures
        r@ == a@ + b@,
{
    let mut r = a.to_owned();
    r.append(b);
    r
}

/// Three texts, one after the other.
pub fn cat3(a: &str, b: &str, c: &str) -> (r: String)
    ensures
        r@ == a@ + b@ + c@,
{
    let mut r = cat2(a, b);
    r.append(c);
    r
}

/// Four texts, one after the other.
pub fn cat4(a: &str, b: &str, c: &str, d: &str) -> (r: String)
    ensures
        r@ == a@ + b@ + c@ + d@,
{
    let mut r = cat3(a, b, c);
    r.append(d);
    r
}

/// Five texts, one after the other.
pub fn cat5(a: &str, b: &str, c: &str, d: &str, e: &str) -> (r: String)
    ensures
        r@ == a@ + b@ + c@ + d@ + e@,
{
    let mut r = cat4(a, b, c, d);
    r.append(e);
    r
}

/// The digit `d`.
pub open spec fn digit(d: nat) -> char {
    (48 + d) as char
}

/// A number in decimal.
pub open spec fn decimal(n: nat) -> Seq<char>
    decreases n,
{
    if n < 10 {
        seq![digit(n)]
    } else {
        decimal(n / 10).push(digit(n % 10))
    }
}

/// A signed number in decimal.
pub open spec fn decimal_int(n: int) -> Seq<char> {
    if n < 0 {
        seq!['-'] + decimal((-n) as nat)
    } else {
        decimal(n as nat)
    }
}

fn digit_char(d: u64) -> (c: char)
    requires
        d < 10,
    ensures
        c == digit(d as nat),
{
    (48 + d as u8) as char
}

/// A number in decimal.
pub fn decimal_of(n: u64) -> (r: String)
    ensures
        r@ == decimal(n as nat),
    decreases n,
{
    let mut r = if n < 10 {
        String::new()
    } else {
        decimal_of(n / 10)
    };
    r.push(digit_char(n % 10));
    assert(n < 10 ==> r@ =~= seq![digit(n as nat)]);
    r
}

/// A signed number in decimal.
pub fn decimal_of_i64(n: i64) -> (r: String)
    ensures
        r@ == decimal_int(n as int),
{
    if n >= 0 {
        return decimal_of(n as u64);
    }
    let magnitude: u64 = (-(n + 1)) as u64 + 1;
    let mut r = String::new();
    r.push('-');
    let digits = decimal_of(magnitude);
    r.append(digits.as_str());
    assert(seq!['-'] =~= Seq::<char>::empty().push('-'));
    r
}

/// A character with the ASCII capitals made small.
pub open spec fn lower_char(c: char) -> char {
    if 'A' <= c <= 'Z' {
        (c as u32 + 32) as char
    } else {
        c
    }
}

/// A text with the ASCII capitals made small.
pub open spec fn lower(s: Seq<char>) -> Seq<char> {
    s.map_values(|c: char| lower_char(c))
}

/// The text with the ASCII capitals made small.
pub fn to_lower(s: &str) -> (r: String)
    ensures
        r@ == lower(s@),
{
    let chars = chars_of(s);
    let mut r = String::new();
    let mut i: usize = 0;
    while i < chars.len()
        invariant
            i <= chars@.len(),
            chars@ == s@,
            r@ == lower(s@).take(i as int),
        decreases chars.len() - i,
    {
        let c = chars[i];
        if 'A' <= c && c <= 'Z' {
            r.push((c as u8 + 32) as char);
        } else {
            r.push(c);
        }
        assert(lower(s@).take(i as int + 1) =~= lower(s@).take(i as int).push(lower_char(c)));
        i += 1;
    }
    assert(lower(s@).take(i as int) =~= lower(s@));
    r
}

/// The text, or a default for none.
pub open spec fn or_else(text: Option<Seq<char>>, default: Seq<char>) -> Seq<char> {
    match text {
        Some(text) => text,
        None => default,
    }
}

/// The text, or a default for none.
pub fn or_text<'a>(s: &'a Option<String>, default: &'a str) -> (r: &'a str)
    ensures
        r@ == or_else(opt_text(*s), default@),
{
    match s {
        Some(s) => s.as_str(),
        None => default,
    }
}

/// A text without the repetitions of `c` at its start.
pub open spec fn trimmed_start_of(s: Seq<char>, c: char) -> Seq<char>
    decreases s.len(),
{
    if s.len() > 0 && s[0] == c {
        trimmed_start_of(s.drop_first(), c)
    } else {
        s
    }
}

/// The text without the repetitions of `c` at its start.
pub fn trim_start_of(s: &str, c: char) -> (r: String)
    ensures
        r@ == trimmed_start_of(s@, c),
{
    let chars = chars_of(s);
    let mut from: usize = 0;
    assert(s@ =~= chars@.skip(0));
    while from < chars.len() && chars[from] == c
        invariant
            from <= chars@.len(),
            trimmed_start_of(s@, c) == trimmed_start_of(chars@.skip(from as int), c),
        decreases chars.len() - from,
    {
        assert(chars@.skip(from as int).drop_first() =~= chars@.skip(from + 1));
        from += 1;
    }
    assert(chars@.skip(from as int) =~= chars@.subrange(from as int, chars@.len() as int));
    string_of(&chars, from, chars.len())
}

/// A text without the repetitions of `c` at either end.
pub open spec fn trimmed_of(s: Seq<char>, c: char) -> Seq<char> {
    trimmed_end_of(trimmed_start_of(s, c), c)
}

/// The text without the repetitions of `c` at either end.
pub fn trim_of(s: &str, c: char) -> (r: String)
    ensures
        r@ == trimmed_of(s@, c),
{
    let s = trim_start_of(s, c);
    trim_end_of(s.as_str(), c)
}

/// The text without trailing white space.
pub fn trim_end(s: &str) -> (r: String)
    ensures
        r@ == trimmed_end(s@),
{
    let chars = chars_of(s);
    let end = end_of_text(&chars, 0);
    assert(chars@.skip(0) =~= s@);
    string_of(&chars, 0, end)
}

/// How many bytes a text takes in UTF-8.
pub open spec fn byte_len(s: Seq<char>) -> nat {
    encode_utf8(s).len()
}

/// How many bytes a text takes in UTF-8.
pub fn byte_len_of(s: &str) -> (n: usize)
    ensures
        n == byte_len(s@),
{
    s.as_bytes().len()
}

/// The text that bytes stand for when what is no UTF-8 among them is replaced:
/// the result of `String::from_utf8_lossy`.
pub uninterp spec fn utf8_lossy(bytes: Seq<u8>) -> Seq<char>;

/// `String::from_utf8_lossy`: bytes that are UTF-8 are the text they encode.
/// How other bytes are replaced is named, not stated.
#[verifier::external_body]
pub(crate) fn lossy_text(bytes: &Vec<u8>) -> (r: String)
    ensures
        r@ == utf8_lossy(bytes@),
        valid_utf8(bytes@) ==> r@ == decode_utf8(bytes@),
{
    String::from_utf8_lossy(bytes).into_owned()
}

/// The text that bytes are read as: the one they encode, or, where they are no
/// UTF-8, what `String::from_utf8_lossy` makes of them.
pub open spec fn read_as_text(bytes: Seq<u8>) -> Seq<char> {
    if valid_utf8(bytes) {
        decode_utf8(bytes)
    } else {
        utf8_lossy(bytes)
    }
}

/// Bytes, read as text.
pub fn text_of_bytes(bytes: &Vec<u8>) -> (r: String)
    ensures
        r@ == read_as_text(bytes@),
{
    lossy_text(bytes)
}

/// A text in quotes, with what cannot be printed escaped: how std's `Debug`
/// for strings writes it.
pub uninterp spec fn quoted(text: Seq<char>) -> Seq<char>;

/// `Debug` for strings, by `format!`: the result is named, not stated.
#[verifier::external_body]
pub(crate) fn quote(text: &str) -> (r: String)
    ensures
        r@ == quoted(text@),
{
    format!("{:?}", text)
}

/// A list of texts in quotes, between brackets.
pub open spec fn quoted_list(list: Seq<Seq<char>>) -> Seq<char> {
    "["@ + joined(list.map_values(|t: Seq<char>| quoted(t)), ", "@) + "]"@
}

/// A list of texts in quotes, between brackets.
pub fn quote_list(list: &Vec<String>) -> (r: String)
    ensures
        r@ == quoted_list(texts(list@)),
{
    let mut parts: Vec<String> = Vec::new();
    let mut i: usize = 0;
    while i < list.len()
        invariant
            parts@.len() == i <= list@.len(),
            forall|k: int| 0 <= k < i ==> (#[trigger] parts@[k])@ == quoted(list@[k]@),
        decreases list.len() - i,
    {
        parts.push(quote(list[i].as_str()));
        i += 1;
    }
    assert(texts(parts@) =~= texts(list@).map_values(|t: Seq<char>| quoted(t)));
    let inner = join(&parts, ", ");
    cat3("[", inner.as_str(), "]")
}

/// Whether `a` comes before `b` in the order of strings, which compares them
/// character by character.
pub open spec fn text_less(a: Seq<char>, b: Seq<char>) -> bool
    decreases a.len(),
{
    if b.len() == 0 {
        false
    } else if a.len() == 0 {
        true
    } else if a[0] == b[0] {
        text_less(a.drop_first(), b.drop_first())
    } else {
        a[0] < b[0]
    }
}

/// The order of strings is total: two that are equally placed are the same.
pub proof fn lemma_text_order(a: Seq<char>, b: Seq<char>)
    ensures
        !(text_less(a, b) && text_less(b, a)),
        text_less(a, b) || text_less(b, a) || a == b,
        a == b ==> !text_less(a, b),
    decreases a.len(),
{
    if a.len() > 0 && b.len() > 0 && a[0] == b[0] {
        lemma_text_order(a.drop_first(), b.drop_first());
        if a.drop_first() == b.drop_first() {
            assert(a =~= seq![a[0]] + a.drop_first());
            assert(b =~= seq![b[0]] + b.drop_first());
        }
    } else if a.len() == 0 && b.len() == 0 {
        assert(a =~= b);
    }
}

/// The order of strings is transitive.
pub proof fn lemma_text_less_transitive(a: Seq<char>, b: Seq<char>, c: Seq<char>)
    requires
        text_less(a, b),
        text_less(b, c),
    ensures
        text_less(a, c),
    decreases a.len(),
{
    if a.len() > 0 && a[0] == b[0] && b[0] == c[0] {
        lemma_text_less_transitive(a.drop_first(), b.drop_first(), c.drop_first());
    }
}

/// Whether `a` comes before `b` in the order of strings.
pub fn comes_before(a: &str, b: &str) -> (r: bool)
    ensures
        r == text_less(a@, b@),
{
    let x = chars_of(a);
    let y = chars_of(b);
    let mut i: usize = 0;
    assert(x@.skip(0) =~= a@);
    assert(y@.skip(0) =~= b@);
    loop
        invariant
            i <= x@.len(),
            i <= y@.len(),
            text_less(a@, b@) == text_less(x@.skip(i as int), y@.skip(i as int)),
        decreases x.len() - i,
    {
        if i == y.len() {
            return false;
        }
        if i == x.len() {
            return true;
        }
        if x[i] != y[i] {
            return x[i] < y[i];
        }
        assert(x@.skip(i as int).drop_first() =~= x@.skip(i + 1));
        assert(y@.skip(i as int).drop_first() =~= y@.skip(i + 1));
        i += 1;
    }
}

/// Where the part after the last `c` of a text begins: zero when there is no
/// `c` in it.
pub open spec fn tail_start(s: Seq<char>, c: char) -> nat
    decreases s.len(),
{
    if s.len() == 0 || s.last() == c {
        s.len()
    } else {
        tail_start(s.drop_last(), c)
    }
}

/// Where the part after the last `c` of a text begins.
pub fn tail_of(chars: &Vec<char>, c: char) -> (n: usize)
    ensures
        n == tail_start(chars@, c),
        n <= chars@.len(),
        n > 0 ==> chars@[n - 1] == c,
{
    let mut n: usize = chars.len();
    assert(chars@.take(n as int) =~= chars@);
    while n > 0 && chars[n - 1] != c
        invariant
            n <= chars@.len(),
            tail_start(chars@, c) == tail_start(chars@.take(n as int), c),
        decreases n,
    {
        assert(chars@.take(n as int).drop_last() =~= chars@.take(n - 1));
        n -= 1;
    }
    n
}

/// Whether one of the texts is this one.
pub fn lists(list: &Vec<String>, text: &str) -> (r: bool)
    ensures
        r == texts(list@).contains(text@),
{
    let ghost all = texts(list@);
    let mut i: usize = 0;
    while i < list.len()
        invariant
            i <= list@.len(),
            all == texts(list@),
            forall|k: int| 0 <= k < i ==> all[k] != text@,
        decreases list.len() - i,
    {
        if same(list[i].as_str(), text) {
            assert(all[i as int] == text@);
            return true;
        }
        i += 1;
    }
    false
}

} // verus!
