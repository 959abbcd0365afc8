//! What holds of the conversions: a value that is sent and comes back as
//! the server echoes it decodes to itself, and the absent value decodes to
//! an absent optional and to no scalar.

use crate::cmd::encode_command;
use crate::cmd_laws::data_of;
use crate::cmd_laws::fits_header;
use crate::cmd_laws::lemma_command_parses;
use crate::convert::all_decode;
use crate::convert::decode_each;
use crate::convert::flat_args;
use crate::convert::models_of;
use crate::convert::FromRedisValue;
use crate::convert::ToRedisArgs;
use crate::decimal::int_text;
use crate::parser::spec_parse;
use crate::parser::Parsed;
use crate::parser::CR;
use crate::parser::LF;
use crate::parser::TAG_INT;
use crate::parser_laws::lemma_int_frame;
use crate::value::Okay;
use crate::value::Reply;
use vstd::prelude::*;
use vstd::utf8::encode_utf8_decode_utf8;
use vstd::utf8::encode_utf8_valid_utf8;

verus! {

/// Whether every value of the scalar type `T` is sent as one argument and
/// decodes to itself from the byte string that holds that argument.
pub open spec fn echoes<T: ToRedisArgs + FromRedisValue>() -> bool {
    forall|x: T|
        #![trigger x.args()]
        x.single() && x.args().len() == 1 && T::decode(Reply::Data(x.args()[0])) == Some(
            x.model(),
        )
}

/// A text that is sent and echoed decodes to the same text.
pub proof fn lemma_text_echoes()
    ensures
        echoes::<String>(),
{
    assert forall|x: String|
        #![trigger x.args()]
        x.single() && x.args().len() == 1 && String::decode(Reply::Data(x.args()[0])) == Some(
            x.model(),
        ) by {
        encode_utf8_valid_utf8(x@);
        encode_utf8_decode_utf8(x@);
    }
}

/// A byte string that is sent and echoed decodes to the same bytes.
pub proof fn lemma_bytes_echo()
    ensures
        echoes::<Vec<u8>>(),
{
}

/// A sequence of scalars is sent as one argument for each item, in order.
pub proof fn lemma_flat_args<T: ToRedisArgs + FromRedisValue>(items: Seq<T>)
    requires
        echoes::<T>(),
    ensures
        flat_args(items).len() == items.len(),
        forall|i: int| 0 <= i < items.len() ==> flat_args(items)[i] == (#[trigger] items[i]).args()[0],
    decreases items.len(),
{
    if items.len() > 0 {
        lemma_flat_args(items.drop_last());
        let last = items.last();
        assert(last.args().len() == 1);
        assert forall|i: int| 0 <= i < items.len() implies flat_args(items)[i] == (
        #[trigger] items[i]).args()[0] by {
            if i < items.len() - 1 {
                assert(items.drop_last()[i] == items[i]);
            }
        }
    }
}

/// A sequence of scalars that is sent and echoed decodes to the same
/// sequence: the same items in the same order. The sequence reports that it
/// is no single argument, whatever its length.
pub proof fn lemma_sequence_round_trip<T: ToRedisArgs + FromRedisValue>(xs: Vec<T>)
    requires
        echoes::<T>(),
    ensures
        !xs.single(),
        xs.args().len() == xs@.len(),
        Vec::<T>::decode(Reply::Bulk(data_of(xs.args()))) == Some(xs.model()),
{
    lemma_flat_args(xs@);
    let replies = data_of(xs.args());
    assert forall|i: int| 0 <= i < replies.len() implies (#[trigger] T::decode(replies[i]))
        == Some(xs@[i].model()) by {
        assert(replies[i] == Reply::Data(xs@[i].args()[0]));
    }
    assert(all_decode::<T>(replies));
    assert(decode_each::<T>(replies) =~= models_of(xs@));
}

/// A server may answer a request for a sequence of one item with that item
/// alone: its byte string decodes to the sequence of that one item.
pub proof fn lemma_collapsed_round_trip<T: ToRedisArgs + FromRedisValue>(x: T)
    requires
        echoes::<T>(),
    ensures
        Vec::<T>::decode(Reply::Data(x.args()[0])) == Some(seq![x.model()]),
{
    assert(x.args().len() == 1);
}

/// The arguments of a sequence of scalars, written as a request frame and
/// read back by the parser, decode to the sequence.
pub proof fn lemma_frame_round_trip<T: ToRedisArgs + FromRedisValue>(xs: Vec<T>)
    requires
        echoes::<T>(),
        fits_header(xs.args()),
    ensures
        spec_parse(encode_command(xs.args())) matches Parsed::Done(reply, consumed)
            && consumed == encode_command(xs.args()).len() && Vec::<T>::decode(reply) == Some(
            xs.model(),
        ),
{
    lemma_command_parses(xs.args(), Seq::empty());
    assert(encode_command(xs.args()) + Seq::<u8>::empty() =~= encode_command(xs.args()));
    lemma_sequence_round_trip(xs);
}

/// An integer is sent as its decimal text. A reply that carries that text
/// as an integer decodes to the integer; a byte string with the same text
/// is no integer.
pub proof fn lemma_integer_round_trip(n: i64)
    ensures
        n.single(),
        n.args() == seq![int_text(n as int)],
        spec_parse(seq![TAG_INT] + n.args()[0] + seq![CR, LF]) == Parsed::Done(
            Reply::Int(n),
            n.args()[0].len() as int + 3,
        ),
        i64::decode(Reply::Int(n)) == Some(n),
        i64::decode(Reply::Data(n.args()[0])) is None,
{
    lemma_int_frame(n, Seq::empty());
    let frame = seq![TAG_INT] + int_text(n as int) + seq![CR, LF];
    assert(frame + Seq::<u8>::empty() =~= frame);
}

/// The integer types other than `i64` take an integer reply exactly where
/// its value is one of theirs, and then decode to that value.
pub proof fn lemma_integer_ranges(n: i64)
    ensures
        i32::decode(Reply::Int(n)) == if i32::MIN <= n <= i32::MAX {
            Some(n as i32)
        } else {
            None
        },
        u32::decode(Reply::Int(n)) == if 0 <= n <= u32::MAX {
            Some(n as u32)
        } else {
            None
        },
        u64::decode(Reply::Int(n)) == if 0 <= n {
            Some(n as u64)
        } else {
            None
        },
        usize::decode(Reply::Int(n)) == if 0 <= n <= usize::MAX {
            Some(n as usize)
        } else {
            None
        },
{
}

/// The absent value decodes to an absent optional, whatever the optional
/// would hold; any other reply decodes as what the optional holds.
pub proof fn lemma_nil_is_absent<T: FromRedisValue>(reply: Reply)
    ensures
        Option::<T>::decode(Reply::Nil) == Some(None::<T::Model>),
        !(reply is Nil) ==> Option::<T>::decode(reply) == match T::decode(reply) {
            Some(m) => Some(Some(m)),
            None => None,
        },
{
}

/// The absent value is no integer, no text, no byte string, no
/// acknowledgement and no sequence.
pub proof fn lemma_nil_is_no_scalar<T: FromRedisValue>()
    ensures
        i64::decode(Reply::Nil) is None,
        i32::decode(Reply::Nil) is None,
        u64::decode(Reply::Nil) is None,
        u32::decode(Reply::Nil) is None,
        usize::decode(Reply::Nil) is None,
        String::decode(Reply::Nil) is None,
        Vec::<u8>::decode(Reply::Nil) is None,
        Okay::decode(Reply::Nil) is None,
        Vec::<T>::decode(Reply::Nil) is None,
{
}

} // verus!
