//! Commands and their encoding as request frames.

use crate::convert::args_view;
use crate::convert::ToRedisArgs;
use crate::decimal::decimal;
use crate::decimal::push_decimal;
use crate::parser::CR;
use crate::parser::LF;
use crate::parser::TAG_BULK;
use crate::parser::TAG_DATA;
use crate::text::push_bytes;
use vstd::prelude::*;

verus! {

/// One argument on the wire: `$`, its length, CR LF, its bytes, CR LF.
pub open spec fn encode_arg(arg: Seq<u8>) -> Seq<u8> {
    seq![TAG_DATA] + decimal(arg.len()) + seq![CR, LF] + arg + seq![CR, LF]
}

/// The arguments on the wire, one after the other.
pub open spec fn encode_args(args: Seq<Seq<u8>>) -> Seq<u8>
    decreases args.len(),
{
    if args.len() == 0 {
        Seq::empty()
    } else {
        encode_args(args.drop_last()) + encode_arg(args.last())
    }
}

/// A request frame: `*`, the number of arguments, CR LF, then the arguments.
pub open spec fn encode_command(args: Seq<Seq<u8>>) -> Seq<u8> {
    seq![TAG_BULK] + decimal(args.len()) + seq![CR, LF] + encode_args(args)
}

/// A command under construction: the verb, then its arguments, in the order
/// in which they were added.
#[derive(Debug)]
pub struct Cmd {
    args: Vec<Vec<u8>>,
}

impl View for Cmd {
    type V = Seq<Seq<u8>>;

    closed spec fn view(&self) -> Seq<Seq<u8>> {
        args_view(self.args@)
    }
}

impl Cmd {
    /// A command without arguments.
    pub fn new() -> (cmd: Cmd)
        ensures
            cmd@ == Seq::<Seq<u8>>::empty(),
    {
        let cmd = Cmd { args: Vec::new() };
        assert(cmd@ =~= Seq::<Seq<u8>>::empty());
        cmd
    }

    /// Adds the argument, or arguments, that `arg` stands for, behind those
    /// already there.
    pub fn arg<T: ToRedisArgs>(&mut self, arg: T) -> (r: &mut Cmd)
        ensures
            r@ == old(self)@ + arg.args(),
            *final(self) == *final(r),
    {
        let mut more = arg.to_redis_args();
        assert(args_view(self.args@ + more@) =~= args_view(self.args@) + args_view(more@));
        self.args.append(&mut more);
        self
    }

    /// The number of arguments added so far.
    pub fn len(&self) -> (n: usize)
        ensures
            n == self@.len(),
    {
        self.args.len()
    }

    /// Ends the command and gives its request frame. The command is used up:
    /// nothing can be added to what was sent.
    pub fn finish(self) -> (frame: Vec<u8>)
        ensures
            frame@ == encode_command(self@),
    {
        let mut out: Vec<u8> = Vec::new();
        out.push(TAG_BULK);
        push_decimal(&mut out, self.args.len() as u64);
        out.push(CR);
        out.push(LF);
        let ghost head = seq![TAG_BULK] + decimal(self@.len()) + seq![CR, LF];
        assert(out@ =~= head);
        let mut i: usize = 0;
        assert(self@.take(0) =~= Seq::<Seq<u8>>::empty());
        assert(head + Seq::<u8>::empty() =~= head);
        while i < self.args.len()
            invariant
                i <= self.args.len(),
                out@ == head + encode_args(self@.take(i as int)),
            decreases self.args.len() - i,
        {
            let ghost before = out@;
            let arg = &self.args[i];
            out.push(TAG_DATA);
            push_decimal(&mut out, arg.len() as u64);
            out.push(CR);
            out.push(LF);
            push_bytes(&mut out, arg.as_slice());
            out.push(CR);
            out.push(LF);
            assert(out@ =~= before + encode_arg(arg@));
            assert(self@.take(i + 1).drop_last() =~= self@.take(i as int));
            assert(self@.take(i + 1).last() == arg@);
            assert(head + encode_args(self@.take(i + 1)) =~= head + encode_args(
                self@.take(i as int),
            ) + encode_arg(arg@));
            i += 1;
        }
        assert(self@.take(i as int) =~= self@);
        out
    }
}

} // verus!
