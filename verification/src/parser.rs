//! The reply parser.
//!
//! A reply starts with a one-byte tag and a header line that ends in CR LF.
//! Byte strings carry their length and sequences their count, so no content
//! is ever scanned for a terminator. The parser can be called again on the
//! same bytes with more appended: it reports [`ParseResult::NeedMoreData`]
//! until one whole reply is there.

use crate::decimal::parse_int;
use crate::decimal::spec_parse_int;
use crate::text::copy_range;
use crate::text::string_from_utf8;
use crate::value::lemma_bulk_view;
use crate::value::replies_of;
use crate::value::Reply;
use crate::value::Value;
use vstd::prelude::*;
use vstd::utf8::decode_utf8;
use vstd::utf8::valid_utf8;

verus! {

pub const CR: u8 = 0x0d;

pub const LF: u8 = 0x0a;

/// `+`, the tag of a status.
pub const TAG_STATUS: u8 = 0x2b;

/// `-`, the tag of an error reply.
pub const TAG_ERROR: u8 = 0x2d;

/// `:`, the tag of an integer.
pub const TAG_INT: u8 = 0x3a;

/// `$`, the tag of a byte string.
pub const TAG_DATA: u8 = 0x24;

/// `*`, the tag of a sequence.
pub const TAG_BULK: u8 = 0x2a;

/// What parsing a byte string comes to: a result and the number of bytes it
/// was read from, a wait for more bytes, or a refusal.
pub enum Parsed<T> {
    Done(T, int),
    NeedMoreData,
    ParseError,
}

/// What [`parse`] returns.
#[derive(Debug, PartialEq, Eq)]
pub enum ParseResult {
    /// One whole reply, and the number of bytes that it took.
    Done(Value, usize),
    /// The bytes so far are the start of a reply; nothing was consumed.
    NeedMoreData,
    /// The bytes are not the start of any reply.
    ParseError,
}

impl View for ParseResult {
    type V = Parsed<Reply>;

    open spec fn view(&self) -> Parsed<Reply> {
        match self {
            ParseResult::Done(value, consumed) => Parsed::Done(value@, *consumed as int),
            ParseResult::NeedMoreData => Parsed::NeedMoreData,
            ParseResult::ParseError => Parsed::ParseError,
        }
    }
}

/// Whether `b` is one of the five tags.
pub open spec fn is_tag(b: u8) -> bool {
    b == TAG_STATUS || b == TAG_ERROR || b == TAG_INT || b == TAG_DATA || b == TAG_BULK
}

/// Whether CR LF stands at index `i` of `s`.
pub open spec fn crlf_at(s: Seq<u8>, i: int) -> bool {
    0 <= i && i + 1 < s.len() && s[i] == CR && s[i + 1] == LF
}

/// Whether the first CR LF of `s` stands at index `i`.
pub open spec fn first_crlf(s: Seq<u8>, i: int) -> bool {
    crlf_at(s, i) && forall|j: int| 0 <= j < i ==> !crlf_at(s, j)
}

/// Whether `s` holds a CR LF.
pub open spec fn has_line(s: Seq<u8>) -> bool {
    exists|i: int| first_crlf(s, i)
}

/// The index of the first CR LF of `s`.
pub open spec fn line_end(s: Seq<u8>) -> int {
    choose|i: int| first_crlf(s, i)
}

/// The reply that a header line of text makes, by the constructor given.
pub open spec fn spec_parse_text(line: Seq<u8>, consumed: int, error: bool) -> Parsed<Reply> {
    if !valid_utf8(line) {
        Parsed::ParseError
    } else if error {
        Parsed::Done(Reply::ServerError(decode_utf8(line)), consumed)
    } else {
        Parsed::Done(Reply::Status(decode_utf8(line)), consumed)
    }
}

/// The byte string of `length` bytes at the start of `rest`, which must be
/// followed by CR LF; `header` bytes come before `rest`.
pub open spec fn spec_parse_data(rest: Seq<u8>, length: int, header: int) -> Parsed<Reply> {
    if rest.len() < length + 2 {
        Parsed::NeedMoreData
    } else if rest[length] == CR && rest[length + 1] == LF {
        Parsed::Done(Reply::Data(rest.take(length)), header + length + 2)
    } else {
        Parsed::ParseError
    }
}

/// The sequence that `items` make, with `header` bytes before them.
pub open spec fn spec_bulk_of(items: Parsed<Seq<Reply>>, header: int) -> Parsed<Reply> {
    match items {
        Parsed::Done(replies, consumed) => Parsed::Done(Reply::Bulk(replies), header + consumed),
        Parsed::NeedMoreData => Parsed::NeedMoreData,
        Parsed::ParseError => Parsed::ParseError,
    }
}

/// The items `tail`, after `first` items that took `used` bytes.
pub open spec fn items_after(first: Seq<Reply>, used: int, tail: Parsed<Seq<Reply>>) -> Parsed<
    Seq<Reply>,
> {
    match tail {
        Parsed::Done(rest, consumed) => Parsed::Done(first + rest, used + consumed),
        Parsed::NeedMoreData => Parsed::NeedMoreData,
        Parsed::ParseError => Parsed::ParseError,
    }
}

/// The first reply in `s`.
///
/// No bytes, or a tag without a whole header line, ask for more data. A
/// first byte that is no tag is refused at once. A status and an error reply
/// hold the text of the header line, which must be valid UTF-8. An integer
/// is the number on the header line. A byte string is as long as the header
/// line says and is followed by CR LF; a sequence holds as many replies as
/// it says. The length or count -1 makes the absent value; any other
/// negative one is refused.
pub open spec fn spec_parse(s: Seq<u8>) -> Parsed<Reply>
    decreases s.len(), 0nat,
{
    if s.len() == 0 {
        Parsed::NeedMoreData
    } else if !is_tag(s[0]) {
        Parsed::ParseError
    } else if !has_line(s) {
        Parsed::NeedMoreData
    } else {
        let end = line_end(s);
        let line = s.subrange(1, end);
        let header = end + 2;
        if s[0] == TAG_STATUS {
            spec_parse_text(line, header, false)
        } else if s[0] == TAG_ERROR {
            spec_parse_text(line, header, true)
        } else {
            match spec_parse_int(line) {
                None => Parsed::ParseError,
                Some(n) => if s[0] == TAG_INT {
                    Parsed::Done(Reply::Int(n), header)
                } else if n == -1 {
                    Parsed::Done(Reply::Nil, header)
                } else if n < 0 {
                    Parsed::ParseError
                } else if s[0] == TAG_DATA {
                    spec_parse_data(s.skip(header), n as int, header)
                } else {
                    spec_bulk_of(spec_parse_items(s.skip(header), n as nat), header)
                },
            }
        }
    }
}

/// The first `count` replies in `s`, one after the other.
pub open spec fn spec_parse_items(s: Seq<u8>, count: nat) -> Parsed<Seq<Reply>>
    decreases s.len(), count + 1,
{
    if count == 0 {
        Parsed::Done(Seq::empty(), 0)
    } else {
        match spec_parse(s) {
            Parsed::Done(reply, consumed) => if 0 < consumed <= s.len() {
                items_after(
                    seq![reply],
                    consumed,
                    spec_parse_items(s.skip(consumed), (count - 1) as nat),
                )
            } else {
                Parsed::ParseError
            },
            Parsed::NeedMoreData => Parsed::NeedMoreData,
            Parsed::ParseError => Parsed::ParseError,
        }
    }
}

/// The first CR LF of a byte string stands at one index only.
pub proof fn lemma_line_end(s: Seq<u8>, i: int)
    requires
        first_crlf(s, i),
    ensures
        has_line(s),
        line_end(s) == i,
{
    let j = line_end(s);
    assert(first_crlf(s, j));
    if j < i {
        assert(crlf_at(s, j));
    }
    if i < j {
        assert(crlf_at(s, i));
    }
}

/// Finds the first CR LF at or after `start`.
pub fn find_crlf(buf: &[u8], start: usize) -> (found: Option<usize>)
    requires
        start <= buf.len(),
    ensures
        match found {
            Some(at) => start <= at && at + 2 <= buf.len() && first_crlf(
                buf@.skip(start as int),
                at - start,
            ),
            None => !has_line(buf@.skip(start as int)),
        },
{
    let ghost s = buf@.skip(start as int);
    if buf.len() - start < 2 {
        assert forall|i: int| !first_crlf(s, i) by {}
        return None;
    }
    let mut i: usize = start;
    while i + 1 < buf.len()
        invariant
            start <= i,
            i + 1 <= buf.len(),
            s == buf@.skip(start as int),
            forall|j: int| 0 <= j < i - start ==> !crlf_at(s, j),
        decreases buf.len() - i,
    {
        if buf[i] == CR && buf[i + 1] == LF {
            assert(crlf_at(s, i - start));
            return Some(i);
        }
        assert(!crlf_at(s, i - start));
        i += 1;
    }
    assert forall|j: int| !first_crlf(s, j) by {
        if crlf_at(s, j) {
            assert(j < i - start);
        }
    }
    None
}

/// Reads the first reply in `buf`.
///
/// On [`ParseResult::NeedMoreData`] nothing is consumed: call again with
/// the same bytes and those that came since.
pub fn parse(buf: &[u8]) -> (r: ParseResult)
    ensures
        r@ == spec_parse(buf@),
{
    assert(buf@.skip(0) =~= buf@);
    parse_at(buf, 0)
}

/// Reads the first reply in `buf[start..]`; the count of consumed bytes
/// starts at `start`.
pub fn parse_at(buf: &[u8], start: usize) -> (r: ParseResult)
    requires
        start <= buf.len(),
    ensures
        r@ == spec_parse(buf@.skip(start as int)),
        r matches ParseResult::Done(_, consumed) ==> 0 < consumed <= buf.len() - start,
    decreases buf.len() - start,
{
    let ghost s = buf@.skip(start as int);
    if start == buf.len() {
        return ParseResult::NeedMoreData;
    }
    let tag = buf[start];
    if !(tag == TAG_STATUS || tag == TAG_ERROR || tag == TAG_INT || tag == TAG_DATA || tag
        == TAG_BULK) {
        return ParseResult::ParseError;
    }
    let at = match find_crlf(buf, start) {
        None => {
            return ParseResult::NeedMoreData;
        },
        Some(at) => at,
    };
    proof {
        lemma_line_end(s, at - start);
    }
    assert(at > start) by {
        assert(crlf_at(s, at - start));
    }
    let ghost line = s.subrange(1, at - start);
    assert(line =~= buf@.subrange(start + 1, at as int));
    let body: usize = at + 2;
    let header: usize = body - start;
    assert(s.skip(header as int) =~= buf@.skip(body as int));
    if tag == TAG_STATUS || tag == TAG_ERROR {
        return match string_from_utf8(copy_range(buf, start + 1, at)) {
            None => ParseResult::ParseError,
            Some(text) => if tag == TAG_ERROR {
                ParseResult::Done(Value::ServerError(text), header)
            } else {
                ParseResult::Done(Value::Status(text), header)
            },
        };
    }
    let n = match parse_int(buf, start + 1, at) {
        None => {
            return ParseResult::ParseError;
        },
        Some(n) => n,
    };
    if tag == TAG_INT {
        return ParseResult::Done(Value::Int(n), header);
    }
    if n == -1 {
        return ParseResult::Done(Value::Nil, header);
    }
    if n < 0 {
        return ParseResult::ParseError;
    }
    if tag == TAG_DATA {
        let available: usize = buf.len() - body;
        if available < 2 || ((available - 2) as u64) < (n as u64) {
            return ParseResult::NeedMoreData;
        }
        let length: usize = n as usize;
        if buf[body + length] == CR && buf[body + length + 1] == LF {
            let bytes = copy_range(buf, body, body + length);
            assert(bytes@ =~= buf@.skip(body as int).take(length as int));
            return ParseResult::Done(Value::Data(bytes), header + length + 2);
        }
        return ParseResult::ParseError;
    }
    let mut items: Vec<Value> = Vec::new();
    let mut pos: usize = body;
    let mut k: i64 = 0;
    assert(replies_of(items@) =~= Seq::<Reply>::empty());
    assert(spec_parse_items(buf@.skip(body as int), n as nat) == items_after(
        replies_of(items@),
        0,
        spec_parse_items(buf@.skip(pos as int), (n - k) as nat),
    )) by {
        let tail = spec_parse_items(buf@.skip(pos as int), (n - k) as nat);
        if let Parsed::Done(rest, m) = tail {
            assert(Seq::<Reply>::empty() + rest =~= rest);
        }
    }
    assert(spec_parse(s) == spec_bulk_of(
        spec_parse_items(buf@.skip(body as int), n as nat),
        body - start,
    ));
    while k < n
        invariant
            0 <= k <= n,
            start < body <= pos <= buf.len(),
            spec_parse(buf@.skip(start as int)) == spec_bulk_of(
                spec_parse_items(buf@.skip(body as int), n as nat),
                body - start,
            ),
            spec_parse_items(buf@.skip(body as int), n as nat) == items_after(
                replies_of(items@),
                pos - body,
                spec_parse_items(buf@.skip(pos as int), (n - k) as nat),
            ),
        decreases n - k,
    {
        let ghost before = replies_of(items@);
        let ghost here = buf@.skip(pos as int);
        match parse_at(buf, pos) {
            ParseResult::NeedMoreData => {
                return ParseResult::NeedMoreData;
            },
            ParseResult::ParseError => {
                return ParseResult::ParseError;
            },
            ParseResult::Done(value, consumed) => {
                proof {
                    let tail = spec_parse_items(here.skip(consumed as int), (n - k - 1) as nat);
                    assert(here.skip(consumed as int) =~= buf@.skip(pos + consumed));
                    assert(replies_of(items@.push(value)) =~= before.push(value@));
                    if let Parsed::Done(rest, m) = tail {
                        assert(before + (seq![value@] + rest) =~= before.push(value@) + rest);
                    }
                }
                items.push(value);
                pos = pos + consumed;
                k = k + 1;
            },
        }
    }
    proof {
        lemma_bulk_view(items);
        assert(replies_of(items@) + Seq::<Reply>::empty() =~= replies_of(items@));
    }
    ParseResult::Done(Value::Bulk(items), pos - start)
}

} // verus!
