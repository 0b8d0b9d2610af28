//! The stack of indentation widths of the tokeniser.

use tinyvec::TinyVec;
use vstd::prelude::*;

verus! {

/// The stack of open indentation widths, kept in a `tinyvec::TinyVec` with
/// fourteen inline slots. Verus sees nothing inside it: what it holds is
/// `indent_widths`, and the four functions below are believed, not proved.
#[verifier::external_body]
pub struct IndentStack {
    widths: TinyVec<[usize; 14]>,
}

/// The widths that the stack holds, the oldest first.
pub uninterp spec fn indent_widths(stack: IndentStack) -> Seq<usize>;

/// `TinyVec::new`: a stack that holds nothing.
#[verifier::external_body]
pub(crate) fn new_stack() -> (stack: IndentStack)
    ensures
        indent_widths(stack) == Seq::<usize>::empty(),
{
    IndentStack { widths: TinyVec::new() }
}

/// `TinyVec::push`: the width is added at the end; the stack moves to the heap
/// when the inline slots are full, so the call does not fail on a full stack.
#[verifier::external_body]
pub(crate) fn push_width(stack: &mut IndentStack, width: usize)
    ensures
        indent_widths(*final(stack)) == indent_widths(*old(stack)).push(width),
    no_unwind
{
    stack.widths.push(width)
}

/// `TinyVec::pop`: the last width leaves the stack and is returned; an empty
/// stack stays empty and gives `None`.
#[verifier::external_body]
pub(crate) fn pop_width(stack: &mut IndentStack) -> (width: Option<usize>)
    ensures
        indent_widths(*old(stack)).len() == 0 ==> width is None && indent_widths(*final(stack))
            == indent_widths(*old(stack)),
        indent_widths(*old(stack)).len() > 0 ==> width == Some(indent_widths(*old(stack)).last())
            && indent_widths(*final(stack)) == indent_widths(*old(stack)).drop_last(),
    no_unwind
{
    stack.widths.pop()
}

/// The last element of the slice that a `TinyVec` dereferences to: the width
/// pushed last, or `None` for an empty stack.
#[verifier::external_body]
pub(crate) fn last_width(stack: &IndentStack) -> (width: Option<usize>)
    ensures
        width == (if indent_widths(*stack).len() == 0 {
            None
        } else {
            Some(indent_widths(*stack).last())
        }),
{
    stack.widths.last().copied()
}

} // verus!
