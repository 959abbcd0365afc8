//! The request frames that the encoder writes are frames that the parser
//! reads: a command is on the wire a sequence of byte strings, its
//! arguments in their order.

use crate::cmd::encode_arg;
use crate::cmd::encode_args;
use crate::cmd::encode_command;
use crate::decimal::decimal;
use crate::decimal::digits_of;
use crate::decimal::lemma_decimal_value;
use crate::decimal::spec_parse_int;
use crate::parser::has_line;
use crate::parser::line_end;
use crate::parser::spec_parse;
use crate::parser::spec_parse_items;
use crate::parser::Parsed;
use crate::parser::CR;
use crate::parser::LF;
use crate::parser::TAG_BULK;
use crate::parser::TAG_DATA;
use crate::parser_laws::lemma_header_line;
use crate::value::Reply;
use vstd::prelude::*;

verus! {

/// The arguments as a server would send them back: byte strings, in order.
pub open spec fn data_of(args: Seq<Seq<u8>>) -> Seq<Reply> {
    Seq::new(args.len(), |i: int| Reply::Data(args[i]))
}

/// Whether a header line can state the length of every argument and their
/// number.
pub open spec fn fits_header(args: Seq<Seq<u8>>) -> bool {
    &&& args.len() <= i64::MAX
    &&& forall|i: int| 0 <= i < args.len() ==> (#[trigger] args[i]).len() <= i64::MAX
}

/// Whether `s` starts with a header line that states the count `n`.
pub open spec fn has_header(s: Seq<u8>, n: nat) -> bool {
    &&& has_line(s)
    &&& line_end(s) == decimal(n).len() + 1
    &&& spec_parse_int(s.subrange(1, line_end(s))) == Some(n as i64)
}

/// A header of a tag and a count is read as that count.
pub proof fn lemma_count_header(tag: u8, n: nat, rest: Seq<u8>)
    requires
        tag != CR,
        n <= i64::MAX,
    ensures
        has_header(seq![tag] + decimal(n) + seq![CR, LF] + rest, n),
{
    let head = seq![tag] + decimal(n);
    let s = head + seq![CR, LF] + rest;
    lemma_decimal_value(n);
    assert forall|i: int| 0 <= i < head.len() implies head[i] != CR by {
        if i > 0 {
            assert(head[i] == decimal(n)[i - 1]);
        }
    }
    lemma_header_line(head, rest);
    assert(s.subrange(1, head.len() as int) =~= decimal(n));
    assert(digits_of(decimal(n)) == decimal(n));
}

/// An encoded argument parses to the byte string that was encoded,
/// whatever bytes it holds and whatever follows it.
pub proof fn lemma_arg_parses(arg: Seq<u8>, rest: Seq<u8>)
    requires
        arg.len() <= i64::MAX,
    ensures
        spec_parse(encode_arg(arg) + rest) == Parsed::Done(
            Reply::Data(arg),
            encode_arg(arg).len() as int,
        ),
{
    let n = arg.len();
    let behind = arg + seq![CR, LF] + rest;
    let s = encode_arg(arg) + rest;
    assert(s =~= seq![TAG_DATA] + decimal(n) + seq![CR, LF] + behind);
    lemma_count_header(TAG_DATA, n, behind);
    let header = decimal(n).len() as int + 3;
    assert(s.skip(header) =~= behind);
    assert(behind.take(n as int) =~= arg);
    assert(behind[n as int] == CR);
    assert(behind[n as int + 1] == LF);
}

/// The encoding of a list of arguments starts with that of the first.
pub proof fn lemma_encode_args_front(args: Seq<Seq<u8>>)
    requires
        args.len() > 0,
    ensures
        encode_args(args) == encode_arg(args[0]) + encode_args(args.skip(1)),
    decreases args.len(),
{
    if args.len() == 1 {
        assert(args.drop_last() =~= Seq::<Seq<u8>>::empty());
        assert(args.skip(1) =~= Seq::<Seq<u8>>::empty());
        assert(encode_args(args) =~= encode_arg(args[0]) + encode_args(args.skip(1)));
    } else {
        lemma_encode_args_front(args.drop_last());
        assert(args.drop_last().skip(1) =~= args.skip(1).drop_last());
        assert(args.skip(1).last() == args.last());
        assert(encode_args(args) =~= encode_arg(args[0]) + encode_args(args.skip(1)));
    }
}

/// Encoded arguments parse to the byte strings that were encoded, one for
/// each argument, in their order.
pub proof fn lemma_args_parse(args: Seq<Seq<u8>>, rest: Seq<u8>)
    requires
        fits_header(args),
    ensures
        spec_parse_items(encode_args(args) + rest, args.len()) == Parsed::Done(
            data_of(args),
            encode_args(args).len() as int,
        ),
    decreases args.len(),
{
    if args.len() == 0 {
        assert(data_of(args) =~= Seq::<Reply>::empty());
    } else {
        let tail = args.skip(1);
        let behind = encode_args(tail) + rest;
        let s = encode_args(args) + rest;
        lemma_encode_args_front(args);
        assert(s =~= encode_arg(args[0]) + behind);
        lemma_arg_parses(args[0], behind);
        assert(s.skip(encode_arg(args[0]).len() as int) =~= behind);
        assert forall|i: int| 0 <= i < tail.len() implies (#[trigger] tail[i]).len()
            <= i64::MAX by {
            assert(tail[i] == args[i + 1]);
        }
        lemma_args_parse(tail, rest);
        assert(seq![Reply::Data(args[0])] + data_of(tail) =~= data_of(args));
    }
}

/// A request frame is one whole frame: the parser reads it as the sequence
/// of its arguments, consumes exactly the frame, and leaves what follows.
pub proof fn lemma_command_parses(args: Seq<Seq<u8>>, rest: Seq<u8>)
    requires
        fits_header(args),
    ensures
        spec_parse(encode_command(args) + rest) == Parsed::Done(
            Reply::Bulk(data_of(args)),
            encode_command(args).len() as int,
        ),
{
    let n = args.len();
    let behind = encode_args(args) + rest;
    let s = encode_command(args) + rest;
    assert(s =~= seq![TAG_BULK] + decimal(n) + seq![CR, LF] + behind);
    lemma_count_header(TAG_BULK, n, behind);
    let header = decimal(n).len() as int + 3;
    assert(s.skip(header) =~= behind);
    lemma_args_parse(args, rest);
}

} // verus!
