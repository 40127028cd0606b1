//! Server-sent events: the framing that every streaming response shares.

use vstd::prelude::*;
use vstd::utf8::{char_u32_cast, decode_first_scalar, encode_scalar, encode_utf8,
    encode_utf8_decode_utf8, encode_utf8_first_scalar, encode_utf8_valid_utf8,
    is_continuation_byte};

use crate::text::{head_len, is_space, lemma_head_len, lemma_head_len_is, read_as_text,
    strip_prefix, text_of_bytes, texts, trim_end_of, trim_start, trimmed_end_of, trimmed_start};
use crate::text_facts::end_is_trimmed_of;

verus! {

/// The byte that ends a line.
pub const FEED: u8 = 10;

/// The parts of a sequence that `feed` ends, each without it.
pub open spec fn complete_lines<T>(s: Seq<T>, feed: T) -> Seq<Seq<T>>
    decreases s.len(),
{
    let n = head_len(s, feed) as int;
    if n >= s.len() {
        Seq::empty()
    } else {
        seq![s.take(n)] + complete_lines(s.skip(n + 1), feed)
    }
}

/// What follows the last `feed` of a sequence.
pub open spec fn partial_line<T>(s: Seq<T>, feed: T) -> Seq<T>
    decreases s.len(),
{
    let n = head_len(s, feed) as int;
    if n >= s.len() {
        s
    } else {
        partial_line(s.skip(n + 1), feed)
    }
}

/// The payload of one `data:` line; nothing for any other line.
pub open spec fn payload_of(line: Seq<char>) -> Option<Seq<char>> {
    let line = trimmed_end_of(line, '\r');
    if "data:"@.is_prefix_of(line) {
        Some(trimmed_start(line.skip("data:"@.len() as int)))
    } else {
        None
    }
}

/// The payloads that are not empty, of the lines that carry one.
pub open spec fn payloads_of(lines: Seq<Seq<char>>) -> Seq<Seq<char>>
    decreases lines.len(),
{
    if lines.len() == 0 {
        Seq::empty()
    } else {
        match payload_of(lines[0]) {
            Some(data) if data.len() > 0 => seq![data] + payloads_of(lines.drop_first()),
            _ => payloads_of(lines.drop_first()),
        }
    }
}

/// Payloads come line by line.
proof fn lemma_payloads_of_concat(a: Seq<Seq<char>>, b: Seq<Seq<char>>)
    ensures
        payloads_of(a + b) == payloads_of(a) + payloads_of(b),
    decreases a.len(),
{
    if a.len() == 0 {
        assert(a + b =~= b);
        assert(payloads_of(a) + payloads_of(b) =~= payloads_of(b));
    } else {
        lemma_payloads_of_concat(a.drop_first(), b);
        assert((a + b).drop_first() =~= a.drop_first() + b);
        assert((a + b)[0] == a[0]);
        let tail = payloads_of(a.drop_first());
        match payload_of(a[0]) {
            Some(data) if data.len() > 0 => {
                assert(seq![data] + (tail + payloads_of(b)) =~= (seq![data] + tail) + payloads_of(
                    b,
                ));
            },
            _ => {},
        }
    }
}

/// Lines do not depend on where a sequence is cut: the complete lines of the
/// whole are those of the first part, and then those of its remainder followed
/// by the second part.
pub proof fn lines_of_concat<T>(a: Seq<T>, b: Seq<T>, feed: T)
    ensures
        complete_lines(a + b, feed) == complete_lines(a, feed) + complete_lines(
            partial_line(a, feed) + b,
            feed,
        ),
        partial_line(a + b, feed) == partial_line(partial_line(a, feed) + b, feed),
    decreases a.len(),
{
    lemma_head_len(a, feed);
    let n = head_len(a, feed) as int;
    if n >= a.len() {
        assert(Seq::<Seq<T>>::empty() + complete_lines(a + b, feed) =~= complete_lines(
            a + b,
            feed,
        ));
    } else {
        let rest = a.skip(n + 1);
        lines_of_concat(rest, b, feed);
        assert((a + b)[n] == feed);
        assert forall|k: int| 0 <= k < n implies (a + b)[k] != feed by {
            assert(a[k] != feed);
        }
        lemma_head_len_is(a + b, feed, n);
        assert((a + b).take(n) =~= a.take(n));
        assert((a + b).skip(n + 1) =~= rest + b);
        let tail = complete_lines(partial_line(rest, feed) + b, feed);
        assert(seq![a.take(n)] + (complete_lines(rest, feed) + tail) =~= (seq![a.take(n)]
            + complete_lines(rest, feed)) + tail);
    }
}

/// The complete lines of bytes, each read as text. A line feed never stands
/// inside a character, so no character is ever cut.
pub open spec fn lines_read(bytes: Seq<u8>) -> Seq<Seq<char>> {
    complete_lines(bytes, FEED).map_values(|line: Seq<u8>| read_as_text(line))
}

/// The payloads that bytes complete.
pub open spec fn payloads_in(bytes: Seq<u8>) -> Seq<Seq<char>> {
    payloads_of(lines_read(bytes))
}

/// The payloads of a stream do not depend on how its bytes were cut into
/// chunks, be it inside a line or inside a character: feeding `a` and then `b`
/// yields, one after the other, exactly the payloads of feeding `a + b` at
/// once, and leaves the same bytes behind.
pub proof fn chunking_does_not_matter(held: Seq<u8>, a: Seq<u8>, b: Seq<u8>)
    ensures
        payloads_in(held + (a + b)) == payloads_in(held + a) + payloads_in(
            partial_line(held + a, FEED) + b,
        ),
        partial_line(held + (a + b), FEED) == partial_line(partial_line(held + a, FEED) + b, FEED),
{
    assert(held + (a + b) =~= (held + a) + b);
    lines_of_concat(held + a, b, FEED);
    let read = |line: Seq<u8>| read_as_text(line);
    let first = complete_lines(held + a, FEED);
    let second = complete_lines(partial_line(held + a, FEED) + b, FEED);
    assert((first + second).map_values(read) =~= first.map_values(read) + second.map_values(read));
    lemma_payloads_of_concat(first.map_values(read), second.map_values(read));
}

proof fn lemma_encode_concat(a: Seq<char>, b: Seq<char>)
    ensures
        encode_utf8(a + b) == encode_utf8(a) + encode_utf8(b),
    decreases a.len(),
{
    if a.len() == 0 {
        assert(a + b =~= b);
        assert(encode_utf8(a) + encode_utf8(b) =~= encode_utf8(b));
    } else {
        assert((a + b).drop_first() =~= a.drop_first() + b);
        lemma_encode_concat(a.drop_first(), b);
        let first = encode_scalar(a[0] as u32);
        assert(first + (encode_utf8(a.drop_first()) + encode_utf8(b)) =~= (first + encode_utf8(
            a.drop_first(),
        )) + encode_utf8(b));
    }
}

/// A text without a line feed encodes to bytes without one.
proof fn lemma_no_feed(text: Seq<char>)
    requires
        forall|k: int| 0 <= k < text.len() ==> text[k] != '\n',
    ensures
        forall|k: int| 0 <= k < encode_utf8(text).len() ==> encode_utf8(text)[k] != FEED,
    decreases text.len(),
{
    if text.len() > 0 {
        let rest = text.drop_first();
        let bytes = encode_utf8(text);
        let first = encode_scalar(text[0] as u32);
        assert forall|k: int| 0 <= k < rest.len() implies rest[k] != '\n' by {
            assert(text[k + 1] != '\n');
        }
        lemma_no_feed(rest);
        encode_utf8_first_scalar(text);
        assert(text[0] != '\n');
        assert(10u8 & 0x7f == 10u8) by (bit_vector);
        if bytes[0] == FEED {
            assert(decode_first_scalar(bytes) == 10);
            char_u32_cast(text[0], 10);
        }
        assert forall|k: int| 0 <= k < bytes.len() implies bytes[k] != FEED by {
            if k >= first.len() {
                assert(bytes[k] == encode_utf8(rest)[k - first.len()]);
            } else if k > 0 {
                assert(is_continuation_byte(bytes[k]));
            }
        }
    }
}

/// Bytes that encode a text are read as the lines of the text.
pub proof fn text_is_read_back(text: Seq<char>)
    ensures
        lines_read(encode_utf8(text)) == complete_lines(text, '\n'),
        partial_line(encode_utf8(text), FEED) == encode_utf8(partial_line(text, '\n')),
    decreases text.len(),
{
    broadcast use encode_utf8_valid_utf8, encode_utf8_decode_utf8;

    let bytes = encode_utf8(text);
    let n = head_len(text, '\n') as int;
    lemma_head_len(text, '\n');
    if n >= text.len() {
        lemma_no_feed(text);
        lemma_head_len_is(bytes, FEED, bytes.len() as int);
        assert(lines_read(bytes) =~= Seq::<Seq<char>>::empty());
    } else {
        let line = text.take(n);
        let rest = text.skip(n + 1);
        assert(text =~= line + (seq!['\n'] + rest));
        lemma_encode_concat(line, seq!['\n'] + rest);
        lemma_encode_concat(seq!['\n'], rest);
        assert(10u32 & 0x7f == 10u32) by (bit_vector);
        let end = seq!['\n'];
        assert(end.drop_first() =~= Seq::<char>::empty());
        assert(encode_utf8(end.drop_first()) =~= Seq::<u8>::empty());
        assert(end[0] as u32 == 10u32);
        assert(encode_scalar(10u32) =~= seq![FEED]);
        assert(encode_utf8(end) =~= seq![FEED]);
        let head = encode_utf8(line);
        assert(bytes =~= head + (seq![FEED] + encode_utf8(rest)));
        lemma_no_feed(line);
        assert forall|k: int| 0 <= k < head.len() implies bytes[k] != FEED by {
            assert(bytes[k] == head[k]);
        }
        lemma_head_len_is(bytes, FEED, head.len() as int);
        assert(bytes.take(head.len() as int) =~= head);
        assert(bytes.skip(head.len() as int + 1) =~= encode_utf8(rest));
        text_is_read_back(rest);
        assert(lines_read(bytes) =~= seq![line] + lines_read(encode_utf8(rest)));
    }
}

/// Reassembles `data:` payloads from arbitrarily chunked bytes.
///
/// A chunk may end in the middle of a line, and even of a character, so the
/// bytes of a partial line are held until the rest of it arrives. Other fields
/// and comments are skipped.
#[derive(Debug)]
pub struct SseDecoder {
    held: Vec<u8>,
}

impl View for SseDecoder {
    type V = Seq<u8>;

    /// The bytes of the partial line that the decoder holds.
    closed spec fn view(&self) -> Seq<u8> {
        self.held@
    }
}

fn next_feed(bytes: &Vec<u8>, from: usize) -> (end: usize)
    requires
        from <= bytes@.len(),
    ensures
        from <= end <= bytes@.len(),
        end == from + head_len(bytes@.skip(from as int), FEED),
{
    let ghost rest = bytes@.skip(from as int);
    let mut end: usize = from;
    while end < bytes.len() && bytes[end] != FEED
        invariant
            from <= end <= bytes@.len(),
            rest == bytes@.skip(from as int),
            forall|k: int| 0 <= k < end - from ==> rest[k] != FEED,
        decreases bytes.len() - end,
    {
        assert(rest[end - from] == bytes@[end as int]);
        end += 1;
    }
    proof {
        if end < bytes@.len() {
            assert(rest[end - from] == bytes@[end as int]);
        }
        lemma_head_len_is(rest, FEED, end - from);
    }
    end
}

fn copy_of(bytes: &Vec<u8>, from: usize, to: usize) -> (r: Vec<u8>)
    requires
        from <= to <= bytes@.len(),
    ensures
        r@ == bytes@.subrange(from as int, to as int),
{
    let mut r: Vec<u8> = Vec::new();
    let mut i: usize = from;
    while i < to
        invariant
            from <= i <= to <= bytes@.len(),
            r@ == bytes@.subrange(from as int, i as int),
        decreases to - i,
    {
        r.push(bytes[i]);
        assert(r@ =~= bytes@.subrange(from as int, i as int + 1));
        i += 1;
    }
    r
}

impl SseDecoder {
    /// A decoder at the start of a stream.
    pub fn new() -> (r: Self)
        ensures
            r@ == Seq::<u8>::empty(),
    {
        SseDecoder { held: Vec::new() }
    }

    /// Feed the next text of the stream; returns the `data:` payloads that it
    /// completed, in order. Where text alone is fed, they are those of the
    /// lines of that text.
    pub fn push(&mut self, chunk: &str) -> (payloads: Vec<String>)
        ensures
            texts(payloads@) == payloads_in(old(self)@ + encode_utf8(chunk@)),
            final(self)@ == partial_line(old(self)@ + encode_utf8(chunk@), FEED),
            forall|text: Seq<char>| #[trigger]
                encode_utf8(text) == old(self)@ ==> {
                    &&& texts(payloads@) == payloads_of(complete_lines(text + chunk@, '\n'))
                    &&& final(self)@ == encode_utf8(partial_line(text + chunk@, '\n'))
                },
    {
        let payloads = self.push_bytes(chunk.as_bytes());
        proof {
            assert forall|text: Seq<char>| #[trigger]
                encode_utf8(text) == old(self)@ implies texts(payloads@) == payloads_of(
                complete_lines(text + chunk@, '\n'),
            ) && self@ == encode_utf8(partial_line(text + chunk@, '\n')) by {
                lemma_encode_concat(text, chunk@);
                text_is_read_back(text + chunk@);
            }
        }
        payloads
    }

    /// Feed the next bytes of the stream; returns the `data:` payloads that
    /// they completed, in order.
    pub fn push_bytes(&mut self, chunk: &[u8]) -> (payloads: Vec<String>)
        ensures
            texts(payloads@) == payloads_in(old(self)@ + chunk@),
            final(self)@ == partial_line(old(self)@ + chunk@, FEED),
    {
        let mut k: usize = 0;
        while k < chunk.len()
            invariant
                k <= chunk@.len(),
                self@ == old(self)@ + chunk@.take(k as int),
            decreases chunk.len() - k,
        {
            let ghost before = self@;
            self.held.push(chunk[k]);
            assert(self@ =~= before.push(chunk@[k as int]));
            assert(self@ =~= old(self)@ + chunk@.take(k as int + 1));
            k += 1;
        }
        assert(chunk@.take(k as int) =~= chunk@);
        let ghost all = self.held@;
        let ghost read = |line: Seq<u8>| read_as_text(line);
        let mut payloads: Vec<String> = Vec::new();
        let mut from: usize = 0;
        assert(all.skip(0) =~= all);
        assert(texts(payloads@) + payloads_in(all) =~= payloads_in(all));
        loop
            invariant
                from <= self.held@.len(),
                all == self.held@,
                payloads_in(all) == texts(payloads@) + payloads_in(all.skip(from as int)),
                partial_line(all, FEED) == partial_line(all.skip(from as int), FEED),
            ensures
                from <= self.held@.len(),
                texts(payloads@) == payloads_in(all),
                all.skip(from as int) == partial_line(all, FEED),
            decreases self.held.len() - from,
        {
            let ghost rest = all.skip(from as int);
            let ghost before = texts(payloads@);
            let end = next_feed(&self.held, from);
            if end == self.held.len() {
                assert(lines_read(rest) =~= Seq::<Seq<char>>::empty());
                assert(before + Seq::<Seq<char>>::empty() =~= before);
                break;
            }
            let line = text_of_bytes(&copy_of(&self.held, from, end));
            assert(rest.take(end - from) =~= all.subrange(from as int, end as int));
            assert(rest.skip(end - from + 1) =~= all.skip(end + 1));
            let ghost later = lines_read(all.skip(end + 1));
            assert(lines_read(rest) =~= seq![line@] + later);
            assert((seq![line@] + later).drop_first() =~= later);
            if let Some(data) = data_field(line.as_str()) {
                if !data.as_str().is_empty() {
                    assert(before + (seq![data@] + payloads_of(later)) =~= (before + seq![data@])
                        + payloads_of(later));
                    payloads.push(data);
                    assert(texts(payloads@) =~= before + seq![data@]);
                }
            }
            from = end + 1;
        }
        self.held = copy_of(&self.held, from, self.held.len());
        assert(self.held@ =~= all.skip(from as int));
        payloads
    }
}

/// The payload of one `data:` line, or nothing for any other line.
pub fn data_field(line: &str) -> (r: Option<String>)
    ensures
        match r {
            Some(data) => payload_of(line@) == Some(data@),
            None => payload_of(line@) is None,
        },
{
    let line = trim_end_of(line, '\r');
    match strip_prefix(line.as_str(), "data:") {
        Some(data) => Some(trim_start(data.as_str())),
        None => None,
    }
}

/// A line is complete once its feed came: what stands before a feed is one
/// line, and what follows the last feed is held back.
pub proof fn a_feed_completes_a_line<T>(line: Seq<T>, rest: Seq<T>, feed: T)
    requires
        forall|k: int| 0 <= k < line.len() ==> line[k] != feed,
    ensures
        complete_lines(line + seq![feed] + rest, feed) == seq![line] + complete_lines(rest, feed),
        partial_line(line + seq![feed] + rest, feed) == partial_line(rest, feed),
        complete_lines(line, feed).len() == 0,
        partial_line(line, feed) == line,
{
    let n = line.len() as int;
    let all = line + seq![feed] + rest;
    assert forall|k: int| 0 <= k < n implies all[k] != feed by {
        assert(all[k] == line[k]);
    }
    lemma_head_len_is(all, feed, n);
    lemma_head_len_is(line, feed, n);
    assert(all.take(n) =~= line);
    assert(all.skip(n + 1) =~= rest);
}

/// A data line carries its payload, without the white space in front of it and
/// without the carriage returns behind it; any other line carries none.
pub proof fn a_data_line_carries_its_payload(payload: Seq<char>, other: Seq<char>)
    requires
        payload.len() > 0,
        !is_space(payload[0]),
        payload.last() != '\r',
    ensures
        payload_of("data:"@ + payload) == Some(payload),
        payload_of("data: "@ + payload) == Some(payload),
        payload_of("data: "@ + payload + seq!['\r']) == Some(payload),
        !"data:"@.is_prefix_of(other) ==> payload_of(other) is None,
{
    reveal_strlit("data:");
    reveal_strlit("data: ");
    let a = "data:"@ + payload;
    let b = "data: "@ + payload;
    let c = b + seq!['\r'];
    assert(a.last() == payload.last());
    assert(b.last() == payload.last());
    assert(a.subrange(0, 5) =~= "data:"@);
    assert(a.skip(5) =~= payload);
    assert(b.subrange(0, 5) =~= "data:"@);
    assert(b.skip(5) =~= seq![' '] + payload);
    assert((seq![' '] + payload).drop_first() =~= payload);
    assert(is_space(' '));
    assert(c.drop_last() =~= b);
    assert(trimmed_end_of(c, '\r') == b);
    if payload_of(other) is Some {
        let n = end_is_trimmed_of(other, '\r');
        let kept = other.take(n);
        assert("data:"@ =~= kept.subrange(0, 5));
        assert(other.subrange(0, 5) =~= kept.subrange(0, 5));
    }
}

/// Payloads come line by line, each once and in order, and an empty one is
/// passed over.
pub proof fn payloads_come_line_by_line(a: Seq<Seq<char>>, b: Seq<Seq<char>>, line: Seq<char>)
    ensures
        payloads_of(a + b) == payloads_of(a) + payloads_of(b),
        match payload_of(line) {
            Some(data) => if data.len() > 0 {
                payloads_of(seq![line]) == seq![data]
            } else {
                payloads_of(seq![line]).len() == 0
            },
            None => payloads_of(seq![line]).len() == 0,
        },
{
    lemma_payloads_of_concat(a, b);
    assert(seq![line].drop_first() =~= Seq::empty());
    assert(payloads_of(seq![line].drop_first()) =~= Seq::empty());
    if let Some(data) = payload_of(line) {
        assert(seq![data] + Seq::<Seq<char>>::empty() =~= seq![data]);
    }
}

} // verus!
