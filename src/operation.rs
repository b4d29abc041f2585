use vstd::prelude::*;
use crate::tape::Blank;

verus! {

/// One instruction of the language.
#[derive(PartialEq, Eq, Structural, Clone, Copy, Debug)]
pub enum Operation {
    MoveRight,
    MoveLeft,
    Increment,
    Decrement,
    Output,
    Input,
    JumpForward,
    JumpBack,
    NoOp,
}

/// The instruction that a source symbol stands for; every other symbol is
/// a no-op.
pub open spec fn symbol_op(c: char) -> Operation {
    if c == '>' {
        Operation::MoveRight
    } else if c == '<' {
        Operation::MoveLeft
    } else if c == '+' {
        Operation::Increment
    } else if c == '-' {
        Operation::Decrement
    } else if c == '.' {
        Operation::Output
    } else if c == ',' {
        Operation::Input
    } else if c == '[' {
        Operation::JumpForward
    } else if c == ']' {
        Operation::JumpBack
    } else {
        Operation::NoOp
    }
}

/// The instruction that a source byte stands for.
pub open spec fn byte_op(b: u8) -> Operation {
    symbol_op(b as char)
}

impl Default for Operation {
    fn default() -> (r: Operation)
        ensures
            r == Operation::NoOp,
    {
        Operation::NoOp
    }
}

impl Blank for Operation {
    open spec fn blank_spec() -> Operation {
        Operation::NoOp
    }

    fn blank() -> (r: Operation) {
        Operation::NoOp
    }
}

impl From<char> for Operation {
    fn from(c: char) -> (r: Operation) {
        match c {
            '>' => Operation::MoveRight,
            '<' => Operation::MoveLeft,
            '+' => Operation::Increment,
            '-' => Operation::Decrement,
            '.' => Operation::Output,
            ',' => Operation::Input,
            '[' => Operation::JumpForward,
            ']' => Operation::JumpBack,
            _ => Operation::NoOp,
        }
    }
}

impl vstd::std_specs::convert::FromSpecImpl<char> for Operation {
    open spec fn obeys_from_spec() -> bool {
        true
    }

    open spec fn from_spec(c: char) -> Operation {
        symbol_op(c)
    }
}

impl From<u8> for Operation {
    fn from(n: u8) -> (r: Operation) {
        Self::from(n as char)
    }
}

impl vstd::std_specs::convert::FromSpecImpl<u8> for Operation {
    open spec fn obeys_from_spec() -> bool {
        true
    }

    open spec fn from_spec(n: u8) -> Operation {
        byte_op(n)
    }
}

/// The instructions of a source text, in order, with the no-ops left out.
pub open spec fn parsed(source: Seq<u8>) -> Seq<Operation>
    decreases source.len(),
{
    if source.len() == 0 {
        Seq::empty()
    } else {
        let rest = parsed(source.drop_last());
        let op = byte_op(source.last());
        if op == Operation::NoOp {
            rest
        } else {
            rest.push(op)
        }
    }
}

/// Decodes a source text into the instructions it holds; bytes that stand
/// for no instruction are skipped.
pub fn parse(source: &[u8]) -> (r: Vec<Operation>)
    ensures
        r@ == parsed(source@),
{
    let mut ops: Vec<Operation> = Vec::new();
    let mut i: usize = 0;
    while i < source.len()
        invariant
            i <= source@.len(),
            ops@ == parsed(source@.take(i as int)),
        decreases source@.len() - i,
    {
        let op = Operation::from(source[i]);
        assert(source@.take(i + 1).drop_last() =~= source@.take(i as int));
        if op != Operation::NoOp {
            ops.push(op);
        }
        i = i + 1;
    }
    assert(source@.take(source@.len() as int) =~= source@);
    ops
}

} // verus!
