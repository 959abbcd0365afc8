//! The frame of each reply, and the proof that the parser reads it back:
//! whatever a server may send, the parser finds in its frame.

use crate::cmd::encode_arg;
use crate::cmd_laws::lemma_arg_parses;
use crate::cmd_laws::lemma_count_header;
use crate::decimal::decimal;
use crate::decimal::int_text;
use crate::decimal::lemma_int_text_round_trip;
use crate::parser::crlf_at;
use crate::parser::has_line;
use crate::parser::line_end;
use crate::parser::lemma_line_end;
use crate::parser::spec_parse;
use crate::parser::spec_parse_items;
use crate::parser::Parsed;
use crate::parser::CR;
use crate::parser::LF;
use crate::parser::TAG_BULK;
use crate::parser::TAG_DATA;
use crate::parser::TAG_ERROR;
use crate::parser::TAG_INT;
use crate::parser::TAG_STATUS;
use crate::parser_laws::are_frames_of;
use crate::parser_laws::is_frame_of;
use crate::parser_laws::lemma_int_frame;
use crate::parser_laws::lemma_int_frame_line;
use crate::parser_laws::lemma_parse_consumed;
use crate::value::Reply;
use vstd::prelude::*;
use vstd::utf8::encode_utf8;
use vstd::utf8::encode_utf8_decode_utf8;
use vstd::utf8::encode_utf8_valid_utf8;

verus! {

/// Whether a text can stand on a header line: its bytes hold no CR LF.
pub open spec fn fits_line(text: Seq<char>) -> bool {
    forall|i: int| !crlf_at(encode_utf8(text), i)
}

/// Whether a reply can be sent: its texts fit a header line, and a header
/// line can state its lengths and counts.
pub open spec fn sendable(reply: Reply) -> bool
    decreases reply, 0nat,
{
    match reply {
        Reply::Nil => true,
        Reply::Int(_) => true,
        Reply::Data(bytes) => bytes.len() <= i64::MAX,
        Reply::Status(text) => fits_line(text),
        Reply::ServerError(text) => fits_line(text),
        Reply::Bulk(items) => items.len() <= i64::MAX && all_sendable(items, items.len()),
    }
}

/// Whether the first `k` of `items` can be sent.
pub open spec fn all_sendable(items: Seq<Reply>, k: nat) -> bool
    decreases items, k,
{
    if k == 0 || k > items.len() {
        true
    } else {
        all_sendable(items, (k - 1) as nat) && sendable(items[k - 1])
    }
}

/// The frame of a reply: its tag, its header line, and what the header
/// line announces. The absent value is sent as a byte string of length -1.
pub open spec fn frame_of(reply: Reply) -> Seq<u8>
    decreases reply, 0nat,
{
    match reply {
        Reply::Nil => seq![TAG_DATA, 0x2du8, 0x31u8, CR, LF],
        Reply::Int(n) => seq![TAG_INT] + int_text(n as int) + seq![CR, LF],
        Reply::Data(bytes) => encode_arg(bytes),
        Reply::Status(text) => seq![TAG_STATUS] + encode_utf8(text) + seq![CR, LF],
        Reply::ServerError(text) => seq![TAG_ERROR] + encode_utf8(text) + seq![CR, LF],
        Reply::Bulk(items) => seq![TAG_BULK] + decimal(items.len()) + seq![CR, LF] + frames_from(
            items,
            0,
        ),
    }
}

/// The frames of `items` from index `k` on, one after the other.
pub open spec fn frames_from(items: Seq<Reply>, k: nat) -> Seq<u8>
    decreases items, items.len() - k,
{
    if k >= items.len() {
        Seq::empty()
    } else {
        frame_of(items[k as int]) + frames_from(items, k + 1)
    }
}

/// A text that fits a header line is read back from the line.
pub proof fn lemma_text_line(tag: u8, text: Seq<char>, rest: Seq<u8>)
    requires
        tag != CR,
        fits_line(text),
    ensures
        has_line(seq![tag] + encode_utf8(text) + seq![CR, LF] + rest),
        line_end(seq![tag] + encode_utf8(text) + seq![CR, LF] + rest) == encode_utf8(text).len()
            + 1,
        (seq![tag] + encode_utf8(text) + seq![CR, LF] + rest).subrange(
            1,
            encode_utf8(text).len() as int + 1,
        ) == encode_utf8(text),
{
    let bytes = encode_utf8(text);
    let head = seq![tag] + bytes;
    let s = head + seq![CR, LF] + rest;
    assert(crlf_at(s, head.len() as int));
    assert forall|j: int| 0 <= j < head.len() implies !crlf_at(s, j) by {
        if 1 <= j && j + 1 < head.len() {
            assert(!crlf_at(bytes, j - 1));
            assert(s[j] == bytes[j - 1]);
            assert(s[j + 1] == bytes[j]);
        }
    }
    lemma_line_end(s, head.len() as int);
    assert(s.subrange(1, bytes.len() as int + 1) =~= bytes);
}

/// Every one of the first `k` items that can all be sent can be sent.
pub proof fn lemma_all_sendable(items: Seq<Reply>, k: nat, i: int)
    requires
        all_sendable(items, k),
        0 <= i < k <= items.len(),
    ensures
        sendable(items[i]),
    decreases k,
{
    if i < k - 1 {
        lemma_all_sendable(items, (k - 1) as nat, i);
    }
}

/// The parser reads every reply back from its frame, and consumes the
/// frame and nothing behind it.
pub proof fn lemma_frame_parses(reply: Reply, rest: Seq<u8>)
    requires
        sendable(reply),
    ensures
        spec_parse(frame_of(reply) + rest) == Parsed::Done(reply, frame_of(reply).len() as int),
    decreases reply, 0nat,
{
    let s = frame_of(reply) + rest;
    match reply {
        Reply::Nil => {
            let line = seq![0x2du8, 0x31u8];
            assert(s =~= seq![TAG_DATA] + line + seq![CR, LF] + rest);
            lemma_int_text_round_trip(-1i64);
            assert(int_text(-1) =~= line) by {
                reveal_with_fuel(decimal, 2);
            }
            lemma_int_frame_line(TAG_DATA, -1i64, rest);
        },
        Reply::Int(n) => {
            lemma_int_frame(n, rest);
        },
        Reply::Data(bytes) => {
            lemma_arg_parses(bytes, rest);
        },
        Reply::Status(text) => {
            lemma_text_line(TAG_STATUS, text, rest);
            encode_utf8_valid_utf8(text);
            encode_utf8_decode_utf8(text);
        },
        Reply::ServerError(text) => {
            lemma_text_line(TAG_ERROR, text, rest);
            encode_utf8_valid_utf8(text);
            encode_utf8_decode_utf8(text);
        },
        Reply::Bulk(items) => {
            let n = items.len();
            let behind = frames_from(items, 0) + rest;
            assert(s =~= seq![TAG_BULK] + decimal(n) + seq![CR, LF] + behind);
            lemma_count_header(TAG_BULK, n, behind);
            assert(s.skip(decimal(n).len() as int + 3) =~= behind);
            lemma_frames_parse(items, 0, rest);
            assert(items.skip(0) =~= items);
        },
    }
}

/// The parser reads a run of replies back from their frames.
pub proof fn lemma_frames_parse(items: Seq<Reply>, k: nat, rest: Seq<u8>)
    requires
        all_sendable(items, items.len()),
        k <= items.len(),
    ensures
        spec_parse_items(frames_from(items, k) + rest, (items.len() - k) as nat) == Parsed::Done(
            items.skip(k as int),
            frames_from(items, k).len() as int,
        ),
    decreases items, items.len() - k,
{
    if k < items.len() {
        let first = frame_of(items[k as int]);
        let behind = frames_from(items, k + 1) + rest;
        let s = frames_from(items, k) + rest;
        assert(s =~= first + behind);
        lemma_all_sendable(items, items.len(), k as int);
        lemma_frame_parses(items[k as int], behind);
        lemma_parse_consumed(s);
        assert(s.skip(first.len() as int) =~= behind);
        lemma_frames_parse(items, k + 1, rest);
        assert(seq![items[k as int]] + items.skip(k as int + 1) =~= items.skip(k as int));
    } else {
        assert(items.skip(k as int) =~= Seq::<Reply>::empty());
    }
}

/// The frames of `replies`, one for each.
pub open spec fn frames_of(replies: Seq<Reply>) -> Seq<Seq<u8>> {
    Seq::new(replies.len(), |i: int| frame_of(replies[i]))
}

/// The frame of a reply that can be sent is one whole frame of that reply.
pub proof fn lemma_frame_is_whole(reply: Reply)
    requires
        sendable(reply),
    ensures
        is_frame_of(frame_of(reply), reply),
{
    lemma_frame_parses(reply, Seq::empty());
    assert(frame_of(reply) + Seq::<u8>::empty() =~= frame_of(reply));
}

/// The frames of replies that can be sent are whole frames of those
/// replies, one for each.
pub proof fn lemma_frames_are_whole(replies: Seq<Reply>)
    requires
        forall|i: int| 0 <= i < replies.len() ==> sendable(#[trigger] replies[i]),
    ensures
        are_frames_of(frames_of(replies), replies),
{
    assert forall|i: int| 0 <= i < replies.len() implies is_frame_of(
        #[trigger] frames_of(replies)[i],
        replies[i],
    ) by {
        lemma_frame_is_whole(replies[i]);
    }
}

} // verus!
