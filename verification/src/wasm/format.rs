//! The indentation of the text, and what every part of a module offers to
//! be written.

use crate::text::push_char;
use vstd::prelude::*;

verus! {

/// The text before a nested element: a newline and `indent` spaces, or
/// nothing at indentation 0.
pub open spec fn new_line(indent: nat) -> Seq<char> {
    if indent > 0 {
        seq!['\n'] + Seq::new(indent, |i: int| ' ')
    } else {
        Seq::empty()
    }
}

/// How far the text being written is indented, in spaces.
#[derive(Debug, Copy, Clone)]
pub struct WasmIndentation {
    indent: u32,
}

impl WasmIndentation {
    /// The indentation in spaces.
    pub closed spec fn width(self) -> nat {
        self.indent as nat
    }

    /// An indentation fits in a `u32`.
    pub proof fn lemma_width_fits(self)
        ensures
            self.width() <= u32::MAX,
    {
    }

    /// The indentation as a number.
    pub fn spaces(self) -> (indent: u32)
        ensures
            indent == self.width(),
    {
        self.indent
    }

    /// The indentation of an element nested one level deeper: two spaces
    /// more.
    pub fn increase_indent(self) -> (deeper: WasmIndentation)
        requires
            self.width() + 2 <= u32::MAX,
        ensures
            deeper.width() == self.width() + 2,
    {
        WasmIndentation { indent: self.indent + 2 }
    }

    /// Writes a newline and the indentation; at indentation 0 nothing.
    pub fn new_line_with_indent(self, writer: &mut String)
        ensures
            final(writer)@ == old(writer)@ + new_line(self.width()),
    {
        if self.indent > 0 {
            push_char(writer, '\n');
            let mut i: u32 = 0;
            while i < self.indent
                invariant
                    i <= self.indent,
                    writer@ == old(writer)@ + (seq!['\n'] + Seq::new(i as nat, |i: int| ' ')),
                decreases self.indent - i,
            {
                push_char(writer, ' ');
                i += 1;
                assert(writer@ =~= old(writer)@ + (seq!['\n'] + Seq::new(i as nat, |i: int| ' ')));
            }
        } else {
            assert(writer@ =~= old(writer)@ + new_line(self.width()));
        }
    }
}

impl Default for WasmIndentation {
    /// No indentation.
    fn default() -> (format: WasmIndentation)
        ensures
            format.width() == 0,
    {
        WasmIndentation { indent: 0 }
    }
}

/// A part of a module that is written in the WebAssembly text format.
pub trait Wasm {
    /// The text of the part at an indentation.
    spec fn text(&self, indent: nat) -> Seq<char>;

    /// How many spaces deeper than its own indentation the part indents what
    /// is nested in it.
    spec fn reach(&self) -> nat;

    /// Whether the part can be written at an indentation: whether the
    /// deepest indentation in it fits in a `u32`.
    fn fits(&self, format: WasmIndentation) -> (ok: bool)
        ensures
            ok == (format.width() + self.reach() <= u32::MAX),
    ;

    /// Appends the text of the part to `writer`. The deepest indentation has
    /// to fit in a `u32`.
    fn write_text(&self, writer: &mut String, format: WasmIndentation)
        requires
            format.width() + self.reach() <= u32::MAX,
        ensures
            final(writer)@ == old(writer)@ + self.text(format.width()),
    ;
}

} // verus!
