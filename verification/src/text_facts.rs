//! What the text functions promise of every text.

use vstd::prelude::*;

use crate::text::{count_from, decimal, decimal_int, digit, find_from, has_text, head_len, is_space,
    joined, lemma_find_from, lemma_head_len, lemma_head_len_is, lines_of, lower, occurs_at,
    or_else, replace_from, split_on, trimmed, trimmed_end, trimmed_end_of, trimmed_of,
    trimmed_start, trimmed_start_of, without_cr};

verus! {

// ---------------------------------------------------------------- trimming

/// White space is what Unicode says it is, by its code points.
pub proof fn white_space_is_known_by_its_code(c: char)
    ensures
        is_space(c) <==> {
            let code = c as u32;
            ||| 9 <= code <= 13
            ||| code == 32
            ||| code == 133
            ||| code == 160
            ||| code == 5760
            ||| 8192 <= code <= 8202
            ||| code == 8232
            ||| code == 8233
            ||| code == 8239
            ||| code == 8287
            ||| code == 12288
        },
{
}

/// Trimming the start of a text takes the white space before its first other
/// character, and nothing else.
pub proof fn start_is_trimmed(s: Seq<char>) -> (n: int)
    ensures
        0 <= n <= s.len(),
        trimmed_start(s) == s.skip(n),
        forall|k: int| 0 <= k < n ==> is_space(#[trigger] s[k]),
        n < s.len() ==> !is_space(s[n]),
    decreases s.len(),
{
    if s.len() > 0 && is_space(s[0]) {
        let m = start_is_trimmed(s.drop_first());
        assert(s.drop_first().skip(m) =~= s.skip(m + 1));
        assert forall|k: int| 0 <= k < m + 1 implies is_space(#[trigger] s[k]) by {
            if k > 0 {
                assert(s.drop_first()[k - 1] == s[k]);
            }
        }
        m + 1
    } else {
        assert(s.skip(0) =~= s);
        0
    }
}

/// Trimming the end of a text takes the white space behind its last other
/// character, and nothing else.
pub proof fn end_is_trimmed(s: Seq<char>) -> (n: int)
    ensures
        0 <= n <= s.len(),
        trimmed_end(s) == s.take(n),
        forall|k: int| n <= k < s.len() ==> is_space(#[trigger] s[k]),
        n > 0 ==> !is_space(s[n - 1]),
    decreases s.len(),
{
    if s.len() > 0 && is_space(s.last()) {
        let m = end_is_trimmed(s.drop_last());
        assert(s.drop_last().take(m) =~= s.take(m));
        assert forall|k: int| m <= k < s.len() implies is_space(#[trigger] s[k]) by {
            if k < s.len() - 1 {
                assert(s.drop_last()[k] == s[k]);
            }
        }
        m
    } else {
        assert(s.take(s.len() as int) =~= s);
        s.len() as int
    }
}

/// A trimmed text has no white space at either end, and is empty only where
/// there was nothing else.
pub proof fn trimmed_text_has_no_edges(s: Seq<char>)
    ensures
        trimmed(s).len() > 0 ==> !is_space(trimmed(s)[0]) && !is_space(trimmed(s).last()),
        trimmed(s).len() == 0 <==> forall|k: int| 0 <= k < s.len() ==> is_space(#[trigger] s[k]),
        exists|i: int| 0 <= i && i + trimmed(s).len() <= s.len() && trimmed(s) == #[trigger] s.skip(
            i,
        ).take(trimmed(s).len() as int),
{
    let n = start_is_trimmed(s);
    let rest = s.skip(n);
    let m = end_is_trimmed(rest);
    assert(trimmed(s) == rest.take(m));
    assert(s.skip(n).take(trimmed(s).len() as int) == trimmed(s));
    if m > 0 {
        assert(rest[0] == s[n]);
    } else {
        if n < s.len() {
            assert(is_space(rest[0]));
            assert(rest[0] == s[n]);
        }
    }
    if forall|k: int| 0 <= k < s.len() ==> is_space(#[trigger] s[k]) {
        if n < s.len() {
            assert(is_space(s[n]));
        }
    }
}

/// Trimming a character off both ends leaves none there, and takes nothing
/// else.
pub proof fn ends_are_trimmed_of(s: Seq<char>, c: char) -> (r: (int, int))
    ensures
        0 <= r.0 <= r.1 <= s.len(),
        trimmed_of(s, c) == s.subrange(r.0, r.1),
        forall|k: int| 0 <= k < r.0 ==> #[trigger] s[k] == c,
        forall|k: int| r.1 <= k < s.len() ==> #[trigger] s[k] == c,
        r.0 < r.1 ==> s[r.0] != c && s[r.1 - 1] != c,
{
    let n = start_is_trimmed_of(s, c);
    let rest = s.skip(n);
    let m = end_is_trimmed_of(rest, c);
    assert(rest.take(m) =~= s.subrange(n, n + m));
    assert forall|k: int| n + m <= k < s.len() implies #[trigger] s[k] == c by {
        assert(rest[k - n] == s[k]);
    }
    if m > 0 {
        assert(rest[0] == s[n]);
        assert(rest[m - 1] == s[n + m - 1]);
    }
    (n, n + m)
}

/// Trimming a character off the start takes its repetitions there, and nothing
/// else.
pub proof fn start_is_trimmed_of(s: Seq<char>, c: char) -> (n: int)
    ensures
        0 <= n <= s.len(),
        trimmed_start_of(s, c) == s.skip(n),
        forall|k: int| 0 <= k < n ==> #[trigger] s[k] == c,
        n < s.len() ==> s[n] != c,
    decreases s.len(),
{
    if s.len() > 0 && s[0] == c {
        let m = start_is_trimmed_of(s.drop_first(), c);
        assert(s.drop_first().skip(m) =~= s.skip(m + 1));
        assert forall|k: int| 0 <= k < m + 1 implies #[trigger] s[k] == c by {
            if k > 0 {
                assert(s.drop_first()[k - 1] == s[k]);
            }
        }
        m + 1
    } else {
        assert(s.skip(0) =~= s);
        0
    }
}

/// Trimming a character off the end takes its repetitions there, and nothing
/// else.
pub proof fn end_is_trimmed_of(s: Seq<char>, c: char) -> (n: int)
    ensures
        0 <= n <= s.len(),
        trimmed_end_of(s, c) == s.take(n),
        forall|k: int| n <= k < s.len() ==> #[trigger] s[k] == c,
        n > 0 ==> s[n - 1] != c,
    decreases s.len(),
{
    if s.len() > 0 && s.last() == c {
        let m = end_is_trimmed_of(s.drop_last(), c);
        assert(s.drop_last().take(m) =~= s.take(m));
        assert forall|k: int| m <= k < s.len() implies #[trigger] s[k] == c by {
            if k < s.len() - 1 {
                assert(s.drop_last()[k] == s[k]);
            }
        }
        m
    } else {
        assert(s.take(s.len() as int) =~= s);
        s.len() as int
    }
}

// --------------------------------------------------------- splitting, joining

/// Joining puts the separator between each two texts: one text more in front is
/// that text, the separator and the rest.
pub proof fn joining_goes_on(first: Seq<char>, rest: Seq<Seq<char>>, sep: Seq<char>)
    ensures
        rest.len() == 0 ==> joined(seq![first] + rest, sep) == first,
        rest.len() > 0 ==> joined(seq![first] + rest, sep) == first + sep + joined(rest, sep),
        joined(Seq::empty(), sep).len() == 0,
    decreases rest.len(),
{
    let all = seq![first] + rest;
    if rest.len() == 1 {
        assert(all.drop_last() =~= seq![first]);
        assert(joined(all.drop_last(), sep) == first);
    } else if rest.len() > 1 {
        joining_goes_on(first, rest.drop_last(), sep);
        assert(all.drop_last() =~= seq![first] + rest.drop_last());
        assert(joined(all, sep) =~= first + sep + joined(rest, sep));
    }
}

/// The pieces that a text is split into hold no separator, and joined by it
/// they are the text again.
pub proof fn split_text_is_joined_again(s: Seq<char>, c: char)
    ensures
        joined(split_on(s, c), seq![c]) == s,
        split_on(s, c).len() > 0,
        forall|i: int, k: int|
            0 <= i < split_on(s, c).len() && 0 <= k < split_on(s, c)[i].len() ==> (
            #[trigger] split_on(s, c)[i][k]) != c,
    decreases s.len(),
{
    lemma_head_len(s, c);
    let n = head_len(s, c) as int;
    if n < s.len() {
        let rest = s.skip(n + 1);
        split_text_is_joined_again(rest, c);
        joining_goes_on(s.take(n), split_on(rest, c), seq![c]);
        assert(s.take(n) + seq![c] + rest =~= s);
        let all = split_on(s, c);
        assert forall|i: int, k: int| 0 <= i < all.len() && 0 <= k < all[i].len() implies (
        #[trigger] all[i][k]) != c by {
            if i > 0 {
                assert(all[i] == split_on(rest, c)[i - 1]);
                assert(split_on(rest, c)[i - 1][k] != c);
            } else {
                assert(all[0] == s.take(n));
            }
        }
    }
}

/// A text with a separator in it is split into the pieces before it and the
/// pieces behind it.
pub proof fn splitting_goes_on(a: Seq<char>, b: Seq<char>, c: char)
    ensures
        split_on(a + seq![c] + b, c) == split_on(a, c) + split_on(b, c),
        (forall|k: int| 0 <= k < a.len() ==> a[k] != c) ==> split_on(a, c) == seq![a],
    decreases a.len(),
{
    let whole = a + seq![c] + b;
    lemma_head_len(a, c);
    let n = head_len(a, c) as int;
    if n < a.len() {
        assert forall|k: int| 0 <= k < n implies whole[k] != c by {
            assert(whole[k] == a[k]);
        }
        lemma_head_len_is(whole, c, n);
        let rest = a.skip(n + 1);
        splitting_goes_on(rest, b, c);
        assert(whole.skip(n + 1) =~= rest + seq![c] + b);
        assert(whole.take(n) =~= a.take(n));
        assert(split_on(whole, c) =~= split_on(a, c) + split_on(b, c));
    } else {
        assert forall|k: int| 0 <= k < n implies whole[k] != c by {
            assert(whole[k] == a[k]);
        }
        lemma_head_len_is(whole, c, n);
        assert(whole.take(n) =~= a);
        assert(whole.skip(n + 1) =~= b);
    }
}

/// No line of a text holds a line feed. A text without carriage returns is its
/// lines again, joined by line feeds, but for the one that may end it.
pub proof fn lines_make_the_text_again(s: Seq<char>)
    ensures
        forall|i: int, k: int|
            0 <= i < lines_of(s).len() && 0 <= k < lines_of(s)[i].len() ==> (#[trigger] lines_of(
                s,
            )[i][k]) != '\n',
        s.len() == 0 <==> lines_of(s).len() == 0,
        !s.contains('\r') && s.len() > 0 && s.last() != '\n' ==> joined(lines_of(s), seq!['\n'])
            == s,
        !s.contains('\r') && s.len() > 0 && s.last() == '\n' ==> joined(lines_of(s), seq!['\n'])
            == s.drop_last(),
    decreases s.len(),
{
    lemma_head_len(s, '\n');
    let n = head_len(s, '\n') as int;
    let all = lines_of(s);
    if s.len() > 0 && n < s.len() {
        let rest = s.skip(n + 1);
        let first = without_cr(s.take(n));
        lines_make_the_text_again(rest);
        joining_goes_on(first, lines_of(rest), seq!['\n']);
        assert forall|i: int, k: int| 0 <= i < all.len() && 0 <= k < all[i].len() implies (
        #[trigger] all[i][k]) != '\n' by {
            if i > 0 {
                assert(all[i] == lines_of(rest)[i - 1]);
                assert(lines_of(rest)[i - 1][k] != '\n');
            } else {
                assert(all[0] == first);
                assert(first[k] == s[k]);
            }
        }
        if !s.contains('\r') {
            if n > 0 {
                assert(s.contains(s[n - 1]));
            }
            assert(first == s.take(n));
            if rest.contains('\r') {
                let k = choose|k: int| 0 <= k < rest.len() && rest[k] == '\r';
                assert(s[n + 1 + k] == '\r');
            }
            if rest.len() == 0 {
                assert(lines_of(rest).len() == 0);
                assert(seq![first] + lines_of(rest) =~= seq![first]);
                assert(s.drop_last() =~= first);
            } else {
                assert(rest.last() == s.last());
                assert(s.take(n) + seq!['\n'] + rest =~= s);
                assert(s.take(n) + seq!['\n'] + rest.drop_last() =~= s.drop_last());
            }
        }
    } else if s.len() > 0 {
        assert(all =~= seq![s]);
        assert(s[s.len() - 1] != '\n');
        assert(joined(all, seq!['\n']) == s);
    }
}

/// A line loses its carriage return and no other character.
pub proof fn carriage_returns_are_taken_off(line: Seq<char>, rest: Seq<char>)
    requires
        forall|k: int| 0 <= k < line.len() ==> line[k] != '\n',
    ensures
        lines_of(line + seq!['\r', '\n'] + rest) == seq![line] + lines_of(rest),
        line.len() == 0 || line.last() != '\r' ==> lines_of(line + seq!['\n'] + rest) == seq![line]
            + lines_of(rest),
{
    let n = line.len() as int;
    let a = line + seq!['\r', '\n'] + rest;
    assert forall|k: int| 0 <= k < n + 1 implies a[k] != '\n' by {
        if k < n {
            assert(a[k] == line[k]);
        }
    }
    lemma_head_len_is(a, '\n', n + 1);
    assert(a.take(n + 1) =~= line.push('\r'));
    assert(line.push('\r').drop_last() =~= line);
    assert(a.skip(n + 2) =~= rest);
    let b = line + seq!['\n'] + rest;
    assert forall|k: int| 0 <= k < n implies b[k] != '\n' by {
        assert(b[k] == line[k]);
    }
    lemma_head_len_is(b, '\n', n);
    assert(b.take(n) =~= line);
    assert(b.skip(n + 1) =~= rest);
}

// ----------------------------------------------------------------- replacing

/// What stands between the occurrences that are replaced.
spec fn between(s: Seq<char>, p: Seq<char>, from: int) -> Seq<Seq<char>>
    decreases s.len() - from,
    when 0 <= from && p.len() > 0
    via between_decreases
{
    match find_from(s, p, from) {
        None => seq![s.skip(from)],
        Some(i) => seq![s.subrange(from, i)] + between(s, p, i + p.len()),
    }
}

#[via_fn]
proof fn between_decreases(s: Seq<char>, p: Seq<char>, from: int) {
    lemma_find_from(s, p, from);
}

proof fn lemma_between(s: Seq<char>, p: Seq<char>, with: Seq<char>, from: int)
    requires
        0 <= from <= s.len(),
        p.len() > 0,
    ensures
        between(s, p, from).len() == count_from(s, p, from) + 1,
        joined(between(s, p, from), p) == s.skip(from),
        joined(between(s, p, from), with) == replace_from(s, p, with, from),
        forall|i: int|
            0 <= i < between(s, p, from).len() ==> !has_text(#[trigger] between(s, p, from)[i], p),
    decreases s.len() - from,
{
    lemma_find_from(s, p, from);
    let pieces = between(s, p, from);
    match find_from(s, p, from) {
        None => {
            assert forall|i: int| 0 <= i < pieces.len() implies !has_text(#[trigger] pieces[i], p) by {
                assert forall|k: int| !occurs_at(s.skip(from), p, k) by {
                    if occurs_at(s.skip(from), p, k) {
                        assert(s.skip(from).subrange(k, k + p.len()) =~= s.subrange(
                            from + k,
                            from + k + p.len(),
                        ));
                        assert(occurs_at(s, p, from + k));
                    }
                }
            }
        },
        Some(i) => {
            let next = i + p.len();
            lemma_between(s, p, with, next);
            let piece = s.subrange(from, i);
            joining_goes_on(piece, between(s, p, next), p);
            joining_goes_on(piece, between(s, p, next), with);
            assert(piece + p + s.skip(next) =~= s.skip(from));
            assert forall|j: int| 0 <= j < pieces.len() implies !has_text(#[trigger] pieces[j], p) by {
                if j > 0 {
                    assert(pieces[j] == between(s, p, next)[j - 1]);
                } else {
                    assert forall|k: int| !occurs_at(piece, p, k) by {
                        if occurs_at(piece, p, k) {
                            assert(piece.subrange(k, k + p.len()) =~= s.subrange(
                                from + k,
                                from + k + p.len(),
                            ));
                            assert(occurs_at(s, p, from + k));
                        }
                    }
                }
            }
        },
    }
}

/// Replacing a text puts the new one in every place of the old one and changes
/// nothing else: what stands between the places is the same before and after,
/// holds the old text nowhere, and there are as many places as are counted.
pub proof fn every_place_is_replaced(s: Seq<char>, p: Seq<char>, with: Seq<char>) -> (pieces: Seq<
    Seq<char>,
>)
    requires
        p.len() > 0,
    ensures
        pieces.len() == count_from(s, p, 0) + 1,
        joined(pieces, p) == s,
        joined(pieces, with) == replace_from(s, p, with, 0),
        forall|i: int| 0 <= i < pieces.len() ==> !has_text(#[trigger] pieces[i], p),
{
    lemma_between(s, p, with, 0);
    assert(s.skip(0) =~= s);
    between(s, p, 0)
}

/// A text that is nowhere is counted as nothing, and replacing it changes
/// nothing; one that is somewhere is counted.
pub proof fn only_what_is_there_is_counted(s: Seq<char>, p: Seq<char>, with: Seq<char>)
    requires
        p.len() > 0,
    ensures
        count_from(s, p, 0) == 0 <==> !has_text(s, p),
        !has_text(s, p) ==> replace_from(s, p, with, 0) == s,
        replace_from(s, p, p, 0) == s,
{
    lemma_find_from(s, p, 0);
    if find_from(s, p, 0) is None {
        assert forall|i: int| !occurs_at(s, p, i) by {
            if 0 <= i {
            }
        }
        assert(s.skip(0) =~= s);
    } else {
        assert(occurs_at(s, p, find_from(s, p, 0).unwrap()));
    }
    lemma_between(s, p, p, 0);
    assert(s.skip(0) =~= s);
}

// ------------------------------------------------------------------- numbers

/// The number that digits stand for.
pub open spec fn number_of(digits: Seq<char>) -> int
    decreases digits.len(),
{
    if digits.len() == 0 {
        0
    } else {
        10 * number_of(digits.drop_last()) + (digits.last() as u32 - '0' as u32)
    }
}

/// A number is written in digits that stand for it, without a zero in front.
pub proof fn numbers_are_read_back(n: nat)
    ensures
        number_of(decimal(n)) == n,
        decimal(n).len() > 0,
        forall|k: int| 0 <= k < decimal(n).len() ==> '0' <= (#[trigger] decimal(n)[k]) <= '9',
        n > 0 ==> decimal(n)[0] != '0',
        n < 10 ==> decimal(n).len() == 1,
    decreases n,
{
    if n < 10 {
        assert(decimal(n).drop_last() =~= Seq::<char>::empty());
        assert(number_of(decimal(n).drop_last()) == 0);
        assert(decimal(n).last() == digit(n));
    } else {
        numbers_are_read_back(n / 10);
        assert(decimal(n).drop_last() =~= decimal(n / 10));
        assert(decimal(n).last() == digit(n % 10));
        assert forall|k: int| 0 <= k < decimal(n).len() implies '0' <= (#[trigger] decimal(n)[k])
            <= '9' by {
            if k < decimal(n).len() - 1 {
                assert(decimal(n)[k] == decimal(n / 10)[k]);
            }
        }
        assert(decimal(n)[0] == decimal(n / 10)[0]);
    }
}

/// A number below zero has a sign in front of its digits, and no other has.
pub proof fn signs_are_written(n: int)
    ensures
        n >= 0 ==> number_of(decimal_int(n)) == n && decimal_int(n)[0] != '-',
        n < 0 ==> decimal_int(n)[0] == '-' && number_of(decimal_int(n).drop_first()) == -n,
{
    if n >= 0 {
        numbers_are_read_back(n as nat);
    } else {
        numbers_are_read_back((-n) as nat);
        assert(decimal_int(n).drop_first() =~= decimal((-n) as nat));
    }
}

/// Making letters small changes the capitals of ASCII and nothing else.
pub proof fn capitals_are_made_small(s: Seq<char>, i: int)
    requires
        0 <= i < s.len(),
    ensures
        lower(s).len() == s.len(),
        !('A' <= s[i] <= 'Z') ==> lower(s)[i] == s[i],
        'A' <= s[i] <= 'Z' ==> lower(s)[i] as u32 == s[i] as u32 + 32,
{
}

/// A default stands in for what is missing, and for nothing else.
pub proof fn defaults_stand_in(text: Option<Seq<char>>, default: Seq<char>)
    ensures
        text is Some ==> or_else(text, default) == text->0,
        text is None ==> or_else(text, default) == default,
{
}

} // verus!
