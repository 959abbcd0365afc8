//! What holds of the parser whatever the bytes: it never reads past what it
//! consumes, and bytes that arrive later never change what it has decided.

use crate::decimal::decimal;
use crate::decimal::int_text;
use crate::decimal::lemma_decimal_value;
use crate::decimal::lemma_int_text_round_trip;
use crate::decimal::spec_parse_int;
use crate::parser::crlf_at;
use crate::parser::first_crlf;
use crate::parser::has_line;
use crate::parser::is_tag;
use crate::parser::lemma_line_end;
use crate::parser::line_end;
use crate::parser::spec_parse;
use crate::parser::spec_parse_items;
use crate::parser::CR;
use crate::parser::LF;
use crate::parser::TAG_INT;
use crate::parser::Parsed;
use crate::value::Reply;
use vstd::prelude::*;

verus! {

/// Whether `frame` is one whole reply, `reply`, with nothing behind it.
pub open spec fn is_frame_of(frame: Seq<u8>, reply: Reply) -> bool {
    spec_parse(frame) == Parsed::Done(reply, frame.len() as int)
}

/// Whether `frames` are whole replies, the replies `replies`.
pub open spec fn are_frames_of(frames: Seq<Seq<u8>>, replies: Seq<Reply>) -> bool {
    &&& frames.len() == replies.len()
    &&& forall|i: int| 0 <= i < frames.len() ==> is_frame_of(#[trigger] frames[i], replies[i])
}

/// A reply takes at least one byte and no more bytes than there are.
pub proof fn lemma_parse_consumed(s: Seq<u8>)
    ensures
        spec_parse(s) matches Parsed::Done(_, consumed) ==> 0 < consumed <= s.len(),
    decreases s.len(), 0nat,
{
    if s.len() > 0 && is_tag(s[0]) && has_line(s) {
        let end = line_end(s);
        assert(first_crlf(s, end));
        assert(crlf_at(s, end));
        if let Some(n) = spec_parse_int(s.subrange(1, end)) {
            if n >= 0 {
                lemma_items_consumed(s.skip(end + 2), n as nat);
            }
        }
    }
}

/// A run of replies takes no more bytes than there are.
pub proof fn lemma_items_consumed(s: Seq<u8>, count: nat)
    ensures
        spec_parse_items(s, count) matches Parsed::Done(items, consumed) ==> 0 <= consumed
            <= s.len() && items.len() == count,
    decreases s.len(), count + 1,
{
    if count > 0 {
        if let Parsed::Done(reply, consumed) = spec_parse(s) {
            if 0 < consumed <= s.len() {
                lemma_items_consumed(s.skip(consumed), (count - 1) as nat);
            }
        }
    }
}

/// The first CR LF of a byte string is the first CR LF of every extension.
pub proof fn lemma_first_crlf_extends(s: Seq<u8>, k: int, i: int)
    requires
        0 <= k <= s.len(),
        first_crlf(s.take(k), i),
    ensures
        first_crlf(s, i),
{
    let p = s.take(k);
    assert(crlf_at(p, i));
    assert forall|j: int| 0 <= j < i implies !crlf_at(s, j) by {
        if crlf_at(s, j) {
            assert(crlf_at(p, j));
        }
    }
}

/// Once the parser has decided on the first `k` bytes of `s`, on a reply or
/// on a refusal, it decides the same on all of `s`.
pub proof fn lemma_parse_extends(s: Seq<u8>, k: int)
    requires
        0 <= k <= s.len(),
    ensures
        !(spec_parse(s.take(k)) is NeedMoreData) ==> spec_parse(s) == spec_parse(s.take(k)),
    decreases s.len(), 0nat,
{
    let p = s.take(k);
    if p.len() > 0 && is_tag(p[0]) && has_line(p) {
        let end = line_end(p);
        assert(first_crlf(p, end));
        assert(crlf_at(p, end));
        lemma_first_crlf_extends(s, k, end);
        lemma_line_end(s, end);
        assert(p.subrange(1, end) =~= s.subrange(1, end));
        let header = end + 2;
        assert(p.skip(header) =~= s.skip(header).take(k - header));
        if let Some(n) = spec_parse_int(s.subrange(1, end)) {
            if n >= 0 {
                lemma_items_extend(s.skip(header), k - header, n as nat);
                if n + 2 <= p.skip(header).len() {
                    assert(p.skip(header).take(n as int) =~= s.skip(header).take(n as int));
                }
            }
        }
    }
}

/// Once the parser has decided on a run of replies in the first `k` bytes
/// of `s`, it decides the same on all of `s`.
pub proof fn lemma_items_extend(s: Seq<u8>, k: int, count: nat)
    requires
        0 <= k <= s.len(),
    ensures
        !(spec_parse_items(s.take(k), count) is NeedMoreData) ==> spec_parse_items(s, count)
            == spec_parse_items(s.take(k), count),
    decreases s.len(), count + 1,
{
    let p = s.take(k);
    if count > 0 {
        lemma_parse_extends(s, k);
        lemma_parse_consumed(p);
        if let Parsed::Done(reply, consumed) = spec_parse(p) {
            assert(p.skip(consumed) =~= s.skip(consumed).take(k - consumed));
            lemma_items_extend(s.skip(consumed), k - consumed, (count - 1) as nat);
        }
    }
}

/// The parser reads a reply from the bytes that it consumes and from no
/// others: cut off behind them, the bytes give the same reply.
pub proof fn lemma_parse_local(s: Seq<u8>)
    ensures
        spec_parse(s) matches Parsed::Done(_, consumed) ==> spec_parse(s.take(consumed))
            == spec_parse(s),
    decreases s.len(), 0nat,
{
    if let Parsed::Done(reply, consumed) = spec_parse(s) {
        lemma_parse_consumed(s);
        let p = s.take(consumed);
        let end = line_end(s);
        let header = end + 2;
        assert(first_crlf(s, end));
        assert(crlf_at(s, end));
        if let Some(n) = spec_parse_int(s.subrange(1, end)) {
            if n >= 0 {
                lemma_items_consumed(s.skip(header), n as nat);
                lemma_items_local(s.skip(header), n as nat);
            }
        }
        assert(crlf_at(p, end));
        assert forall|j: int| 0 <= j < end implies !crlf_at(p, j) by {
            if crlf_at(p, j) {
                assert(crlf_at(s, j));
            }
        }
        lemma_line_end(p, end);
        assert(p.subrange(1, end) =~= s.subrange(1, end));
        assert(p.skip(header) =~= s.skip(header).take(consumed - header));
        if let Some(n) = spec_parse_int(s.subrange(1, end)) {
            if n >= 0 && n + 2 <= consumed - header {
                assert(p.skip(header).take(n as int) =~= s.skip(header).take(n as int));
            }
        }
    }
}

/// A run of replies is read from the bytes that it consumes and from no
/// others.
pub proof fn lemma_items_local(s: Seq<u8>, count: nat)
    ensures
        spec_parse_items(s, count) matches Parsed::Done(_, consumed) ==> spec_parse_items(
            s.take(consumed),
            count,
        ) == spec_parse_items(s, count),
    decreases s.len(), count + 1,
{
    if let Parsed::Done(items, consumed) = spec_parse_items(s, count) {
        if count > 0 {
            lemma_items_consumed(s, count);
            lemma_parse_consumed(s);
            if let Parsed::Done(reply, first) = spec_parse(s) {
                let tail = s.skip(first);
                lemma_items_consumed(tail, (count - 1) as nat);
                lemma_items_local(tail, (count - 1) as nat);
                lemma_parse_local(s);
                let p = s.take(consumed);
                assert(p.take(first) =~= s.take(first));
                lemma_parse_extends(p, first);
                assert(p.skip(first) =~= tail.take(consumed - first));
            }
        }
    }
}

/// Bytes that follow a reply, or a refused start, change nothing.
pub proof fn lemma_parse_ignores_rest(s: Seq<u8>, rest: Seq<u8>)
    ensures
        !(spec_parse(s) is NeedMoreData) ==> spec_parse(s + rest) == spec_parse(s),
{
    assert((s + rest).take(s.len() as int) =~= s);
    lemma_parse_extends(s + rest, s.len() as int);
}

/// A whole reply can be fed to the parser piece by piece: of every proper
/// prefix of a frame the parser says that it needs more data, and of the
/// frame it gives the reply and consumes exactly the frame.
pub proof fn lemma_parse_resumable(frame: Seq<u8>, reply: Reply, k: int)
    requires
        spec_parse(frame) == Parsed::Done(reply, frame.len() as int),
        0 <= k < frame.len(),
    ensures
        spec_parse(frame.take(k)) == Parsed::<Reply>::NeedMoreData,
{
    lemma_parse_extends(frame, k);
    lemma_parse_consumed(frame.take(k));
}

/// Where the parser finds a reply in `s`, it finds the same reply in every
/// prefix of `s` that holds the consumed bytes, and asks for more data on
/// every shorter prefix.
pub proof fn lemma_parse_prefixes(s: Seq<u8>, k: int)
    requires
        spec_parse(s) is Done,
        0 <= k <= s.len(),
    ensures
        k < spec_parse(s)->Done_1 ==> spec_parse(s.take(k)) == Parsed::<Reply>::NeedMoreData,
        k >= spec_parse(s)->Done_1 ==> spec_parse(s.take(k)) == spec_parse(s),
{
    let consumed = spec_parse(s)->Done_1;
    lemma_parse_consumed(s);
    if k < consumed {
        lemma_parse_extends(s, k);
        lemma_parse_consumed(s.take(k));
    } else {
        lemma_parse_local(s);
        assert(s.take(k).take(consumed) =~= s.take(consumed));
        lemma_parse_extends(s.take(k), consumed);
    }
}

/// A header that holds no CR ends at the CR LF that follows it.
pub proof fn lemma_header_line(head: Seq<u8>, rest: Seq<u8>)
    requires
        forall|i: int| 0 <= i < head.len() ==> head[i] != CR,
    ensures
        has_line(head + seq![CR, LF] + rest),
        line_end(head + seq![CR, LF] + rest) == head.len(),
{
    let s = head + seq![CR, LF] + rest;
    assert(crlf_at(s, head.len() as int));
    assert forall|j: int| 0 <= j < head.len() implies !crlf_at(s, j) by {
        assert(s[j] == head[j]);
    }
    lemma_line_end(s, head.len() as int);
}

/// A header line that states the integer `n` is read as `n`.
pub proof fn lemma_int_frame_line(tag: u8, n: i64, rest: Seq<u8>)
    requires
        tag != CR,
    ensures
        has_line(seq![tag] + int_text(n as int) + seq![CR, LF] + rest),
        line_end(seq![tag] + int_text(n as int) + seq![CR, LF] + rest) == int_text(
            n as int,
        ).len() + 1,
        spec_parse_int(
            (seq![tag] + int_text(n as int) + seq![CR, LF] + rest).subrange(
                1,
                int_text(n as int).len() as int + 1,
            ),
        ) == Some(n),
{
    let text = int_text(n as int);
    let head = seq![tag] + text;
    let s = head + seq![CR, LF] + rest;
    lemma_int_text_round_trip(n);
    lemma_decimal_value((if n < 0 {
        -(n as int)
    } else {
        n as int
    }) as nat);
    assert(crlf_at(s, head.len() as int));
    assert forall|j: int| 0 <= j < head.len() implies !crlf_at(s, j) by {
        if j > 0 {
            assert(s[j] == text[j - 1]);
            if n < 0 && j > 1 {
                assert(text[j - 1] == decimal((-(n as int)) as nat)[j - 2]);
            }
        }
    }
    lemma_line_end(s, head.len() as int);
    assert(s.subrange(1, text.len() as int + 1) =~= text);
}

/// The frame of an integer reply parses to that integer: `:`, the decimal
/// text, CR LF.
pub proof fn lemma_int_frame(n: i64, rest: Seq<u8>)
    ensures
        spec_parse(seq![TAG_INT] + int_text(n as int) + seq![CR, LF] + rest) == Parsed::Done(
            Reply::Int(n),
            int_text(n as int).len() as int + 3,
        ),
{
    lemma_int_frame_line(TAG_INT, n, rest);
}

} // verus!
