//! The tokeniser: from the characters of a source text to its tokens, with
//! the indentation of the lines turned into tokens that open and close a
//! level.

use crate::indent_stack::{indent_widths, last_width, new_stack, pop_width, push_width, IndentStack};
use crate::keywords::{get_matching_keyword, keyword_of};
use crate::operators::BinaryOperator;
use crate::text::{alphabetic, chars_of, is_alphabetic, is_numeric, numeric, string_of};
use crate::tokens::{Constant, ConstantView, Token, TokenView};
use vstd::prelude::*;

verus! {

/// Why a source text could not be cut into tokens at some place.
#[derive(Debug, Copy, Clone, PartialEq, Eq)]
pub enum TokeniserError {
    /// A `"` has no closing `"` after it.
    UnterminatedString,
    /// A character that starts no token.
    UnexpectedCharacter(char),
    /// A number with a digit outside `0`..`9`, or a whole number above
    /// `i64::MAX`.
    InvalidNumber,
}

/// One element of the token sequence: a token, or the mark of a lexical error.
pub type LexItem = Result<TokenView, TokeniserError>;

/// What the tokeniser remembers between two tokens: how far it has read, the
/// indentation widths that are open, the indentation of the line it read
/// last, and whether a lexical error has halted it.
pub struct LexState {
    pub pos: int,
    pub stack: Seq<usize>,
    pub line_indent: nat,
    pub halted: bool,
}

/// What one pull gives: an element and the state after it, or the end.
pub enum LexStep {
    Emit(LexItem, LexState),
    End,
}

/// The innermost open indentation width, 0 when none is open.
pub open spec fn open_indent(stack: Seq<usize>) -> int {
    if stack.len() == 0 {
        0
    } else {
        stack.last() as int
    }
}

/// A character that ends a line.
pub open spec fn is_newline(c: char) -> bool {
    c == '\n' || c == '\r'
}

/// A character that continues an identifier.
pub open spec fn name_char(c: char) -> bool {
    alphabetic(c) || c == '_'
}

/// One of the digits `0`..`9`.
pub open spec fn ascii_digit(c: char) -> bool {
    '0' <= c <= '9'
}

/// The end of the longest run of identifier characters that starts at `pos`.
pub open spec fn name_end(src: Seq<char>, pos: int) -> int
    decreases src.len() - pos,
{
    if 0 <= pos < src.len() && name_char(src[pos]) {
        name_end(src, pos + 1)
    } else {
        pos
    }
}

/// The end of the longest run of numeric characters that starts at `pos`.
pub open spec fn digits_end(src: Seq<char>, pos: int) -> int
    decreases src.len() - pos,
{
    if 0 <= pos < src.len() && numeric(src[pos]) {
        digits_end(src, pos + 1)
    } else {
        pos
    }
}

/// The place of the first `"` at or after `pos`, if there is one.
pub open spec fn find_quote(src: Seq<char>, pos: int) -> Option<int>
    decreases src.len() - pos,
{
    if 0 <= pos < src.len() {
        if src[pos] == '"' {
            Some(pos)
        } else {
            find_quote(src, pos + 1)
        }
    } else {
        None
    }
}

/// The number that a sequence of decimal digits writes.
pub open spec fn decimal_value(digits: Seq<char>) -> nat
    decreases digits.len(),
{
    if digits.len() == 0 {
        0
    } else {
        decimal_value(digits.drop_last()) * 10 + (if ascii_digit(digits.last()) {
            (digits.last() as int - '0' as int) as nat
        } else {
            0
        })
    }
}

/// Whether every character is one of the digits `0`..`9`.
pub open spec fn all_ascii_digits(digits: Seq<char>) -> bool {
    forall|i: int| 0 <= i < digits.len() ==> ascii_digit(#[trigger] digits[i])
}

/// The value of a whole-number literal: its digits are `0`..`9` and it is at
/// most `i64::MAX`.
pub open spec fn int_literal(lexeme: Seq<char>) -> Option<i64> {
    if all_ascii_digits(lexeme) && decimal_value(lexeme) <= i64::MAX {
        Some(decimal_value(lexeme) as i64)
    } else {
        None
    }
}

/// Whether a literal with a `.` is well formed: its digits are `0`..`9`.
pub open spec fn float_literal(lexeme: Seq<char>) -> bool {
    forall|i: int| 0 <= i < lexeme.len() ==> ascii_digit(#[trigger] lexeme[i]) || lexeme[i] == '.'
}

/// The token that a one-character symbol stands for.
pub open spec fn symbol_token(c: char) -> Option<TokenView> {
    if c == '(' {
        Some(TokenView::OpenParen)
    } else if c == ')' {
        Some(TokenView::CloseParen)
    } else if c == ':' {
        Some(TokenView::Colon)
    } else if c == '|' {
        Some(TokenView::Pipe)
    } else if c == '+' {
        Some(TokenView::BinOp(BinaryOperator::Plus))
    } else if c == '*' {
        Some(TokenView::BinOp(BinaryOperator::Multiply))
    } else if c == '-' {
        Some(TokenView::BinOp(BinaryOperator::Minus))
    } else if c == '/' {
        Some(TokenView::BinOp(BinaryOperator::Divide))
    } else if c == ',' {
        Some(TokenView::Comma)
    } else {
        None
    }
}

/// The token for an identifier's lexeme: a keyword or a name.
pub open spec fn word_token(lexeme: Seq<char>) -> TokenView {
    match keyword_of(lexeme) {
        Some(keyword) => TokenView::Keyword(keyword),
        None => TokenView::Name(lexeme),
    }
}

/// The element for a number's lexeme.
pub open spec fn number_item(lexeme: Seq<char>, is_float: bool) -> LexItem {
    if is_float {
        if float_literal(lexeme) {
            Ok(TokenView::Constant(ConstantView::Float(lexeme)))
        } else {
            Err(TokeniserError::InvalidNumber)
        }
    } else {
        match int_literal(lexeme) {
            Some(value) => Ok(TokenView::Constant(ConstantView::Int(value))),
            None => Err(TokeniserError::InvalidNumber),
        }
    }
}

/// Where the number that starts at `pos` ends, and whether it has a `.`:
/// numeric characters, then at most one `.` with numeric characters after it.
pub open spec fn number_span(src: Seq<char>, pos: int) -> (int, bool) {
    let whole_end = digits_end(src, pos + 1);
    if whole_end < src.len() && src[whole_end] == '.' {
        (digits_end(src, whole_end + 1), true)
    } else {
        (whole_end, false)
    }
}

impl LexState {
    /// The state at another place of the text.
    pub open spec fn at(self, pos: int) -> LexState {
        LexState { pos, ..self }
    }

    /// The state with the innermost level closed.
    pub open spec fn popped(self) -> LexState {
        LexState { stack: self.stack.drop_last(), ..self }
    }
}

/// How a token starts.
#[derive(Debug, Copy, Clone, PartialEq, Eq, Structural)]
pub enum CharClass {
    /// One of the symbols that are a token by themselves.
    Symbol,
    /// The `"` that opens a string.
    Quote,
    /// The `=` of `=`, `=>` and `==`.
    Equals,
    /// The first character of a name or keyword.
    Word,
    /// The first character of a number.
    Number,
    /// A character that starts no token.
    Unexpected,
}

/// How a token starts with the character `c`, which is neither a space nor a
/// newline: the symbols come first, then `"` and `=`, then the alphabetic
/// characters, then the numeric ones. `alphabetic` and `numeric` say whether
/// the character is one.
pub open spec fn char_class(c: char, alphabetic: bool, numeric: bool) -> CharClass {
    if symbol_token(c) is Some {
        CharClass::Symbol
    } else if c == '"' {
        CharClass::Quote
    } else if c == '=' {
        CharClass::Equals
    } else if alphabetic {
        CharClass::Word
    } else if numeric {
        CharClass::Number
    } else {
        CharClass::Unexpected
    }
}

/// The element that starts at the character `src[st.pos]`, which is neither a
/// space nor a newline.
pub open spec fn lex_token(src: Seq<char>, st: LexState) -> LexStep
    recommends
        0 <= st.pos < src.len(),
{
    let pos = st.pos;
    let c = src[pos];
    match char_class(c, alphabetic(c), numeric(c)) {
        CharClass::Symbol => LexStep::Emit(Ok(symbol_token(c)->Some_0), st.at(pos + 1)),
        CharClass::Quote => match find_quote(src, pos + 1) {
            Some(quote) => LexStep::Emit(
                Ok(TokenView::Constant(ConstantView::Str(src.subrange(pos + 1, quote)))),
                st.at(quote + 1),
            ),
            None => LexStep::Emit(Err(TokeniserError::UnterminatedString), st.at(src.len() as int)),
        },
        CharClass::Equals => if pos + 1 < src.len() && src[pos + 1] == '>' {
            LexStep::Emit(Ok(TokenView::FatRightArrow), st.at(pos + 2))
        } else if pos + 1 < src.len() && src[pos + 1] == '=' {
            LexStep::Emit(Ok(TokenView::BinOp(BinaryOperator::DoubleEquals)), st.at(pos + 2))
        } else {
            LexStep::Emit(Ok(TokenView::Equals), st.at(pos + 1))
        },
        CharClass::Word => {
            let end = name_end(src, pos + 1);
            LexStep::Emit(Ok(word_token(src.subrange(pos, end))), st.at(end))
        },
        CharClass::Number => {
            let (end, is_float) = number_span(src, pos);
            LexStep::Emit(number_item(src.subrange(pos, end), is_float), st.at(end))
        },
        CharClass::Unexpected => LexStep::Emit(
            Err(TokeniserError::UnexpectedCharacter(c)),
            st.at(pos + 1),
        ),
    }
}

/// After a newline: the place of the first character from `pos` on that is
/// neither a space nor a newline (or the end of the text), and the number of
/// spaces between the last newline before it and that place. `width` is the
/// number of spaces counted so far on the line of `pos`.
pub open spec fn skip_blank(src: Seq<char>, pos: int, width: nat) -> (int, nat)
    decreases src.len() - pos,
{
    if 0 <= pos < src.len() && src[pos] == ' ' {
        skip_blank(src, pos + 1, width + 1)
    } else if 0 <= pos < src.len() && is_newline(src[pos]) {
        skip_blank(src, pos + 1, 0)
    } else {
        (pos, width)
    }
}

/// What a newline makes of the indentation, `st.pos` being the place after
/// the newline: blank lines are skipped and the spaces of the first line that
/// is not blank are counted. Where that line exists and the count is above
/// the open width, the count is pushed and `IndentIncr` is the token; where
/// it is below, one level is popped and `IndentDecr` is the token; otherwise
/// there is no token and the stack is kept. In each case the state stands at
/// the first character of that line, which is not read, or at the end of the
/// text, and the count is the indentation of the line read last.
pub open spec fn line_change(src: Seq<char>, st: LexState) -> (Option<TokenView>, LexState) {
    let (pos, width) = skip_blank(src, st.pos, 0);
    let line = LexState { pos, line_indent: width, ..st };
    if 0 <= pos < src.len() && width > open_indent(st.stack) {
        (Some(TokenView::IndentIncr), LexState { stack: st.stack.push(width as usize), ..line })
    } else if 0 <= pos < src.len() && width < open_indent(st.stack) {
        (Some(TokenView::IndentDecr), line.popped())
    } else {
        (None, line)
    }
}

/// Reads on from `st.pos` to the next element. Spaces are skipped. A newline
/// gives the token for the change of level, if the level changes; if it does
/// not, the element that starts the line. At the end of the text the open
/// levels are closed one by one.
pub open spec fn scan(src: Seq<char>, st: LexState) -> LexStep
    decreases src.len() - st.pos,
{
    if 0 <= st.pos < src.len() {
        let c = src[st.pos];
        if c == ' ' {
            scan(src, st.at(st.pos + 1))
        } else if is_newline(c) {
            match line_change(src, st.at(st.pos + 1)) {
                (Some(token), after) => LexStep::Emit(Ok(token), after),
                (None, line) => if 0 <= line.pos < src.len() {
                    lex_token(src, line)
                } else {
                    scan_end(line)
                },
            }
        } else {
            lex_token(src, st)
        }
    } else {
        scan_end(st)
    }
}

/// At the end of the text: closes one open level, or ends the sequence.
pub open spec fn scan_end(st: LexState) -> LexStep {
    if st.stack.len() > 0 {
        LexStep::Emit(Ok(TokenView::IndentDecr), st.popped())
    } else {
        LexStep::End
    }
}

/// A step after which the tokeniser is halted where its element is a
/// lexical error.
pub open spec fn halt_on_error(step: LexStep) -> LexStep {
    match step {
        LexStep::Emit(Err(error), after) => LexStep::Emit(
            Err(error),
            LexState { halted: true, ..after },
        ),
        _ => step,
    }
}

/// One pull. A halted tokeniser gives nothing more. A level that is deeper
/// than the line read last is closed first; otherwise the text is read on. A
/// lexical error halts the tokeniser: it is the last element.
pub open spec fn lex_step(src: Seq<char>, st: LexState) -> LexStep {
    if st.halted {
        LexStep::End
    } else if open_indent(st.stack) > st.line_indent {
        LexStep::Emit(Ok(TokenView::IndentDecr), st.popped())
    } else {
        halt_on_error(scan(src, st))
    }
}

/// The state in which tokenising starts.
pub open spec fn initial_state() -> LexState {
    LexState { pos: 0, stack: Seq::empty(), line_indent: 0, halted: false }
}

/// All the elements that are pulled from a state on, until the end.
pub open spec fn lex_from(src: Seq<char>, st: LexState) -> Seq<LexItem>
    decreases src.len() - st.pos, st.stack.len(),
    via lex_from_decreases
{
    match lex_step(src, st) {
        LexStep::Emit(item, after) => seq![item] + lex_from(src, after),
        LexStep::End => Seq::empty(),
    }
}

/// The token sequence of a source text.
pub open spec fn lex(src: Seq<char>) -> Seq<LexItem> {
    lex_from(src, initial_state())
}

/// The state in which the sequence pulled from `st` ends.
pub open spec fn lex_end(src: Seq<char>, st: LexState) -> LexState
    decreases src.len() - st.pos, st.stack.len(),
    via lex_end_decreases
{
    match lex_step(src, st) {
        LexStep::Emit(_, after) => lex_end(src, after),
        LexStep::End => st,
    }
}

/// Whether no element of a sequence is a lexical error.
pub open spec fn error_free(items: Seq<LexItem>) -> bool {
    forall|i: int| 0 <= i < items.len() ==> (#[trigger] items[i]) is Ok
}

#[via_fn]
proof fn lex_from_decreases(src: Seq<char>, st: LexState) {
    lemma_lex_step_progress(src, st);
}

#[via_fn]
proof fn lex_end_decreases(src: Seq<char>, st: LexState) {
    lemma_lex_step_progress(src, st);
}

/// The run of identifier characters ends within the text.
pub proof fn lemma_name_end_bounds(src: Seq<char>, pos: int)
    requires
        0 <= pos <= src.len(),
    ensures
        pos <= name_end(src, pos) <= src.len(),
    decreases src.len() - pos,
{
    if pos < src.len() && name_char(src[pos]) {
        lemma_name_end_bounds(src, pos + 1);
    }
}

/// The run of numeric characters ends within the text.
pub proof fn lemma_digits_end_bounds(src: Seq<char>, pos: int)
    requires
        0 <= pos <= src.len(),
    ensures
        pos <= digits_end(src, pos) <= src.len(),
    decreases src.len() - pos,
{
    if pos < src.len() && numeric(src[pos]) {
        lemma_digits_end_bounds(src, pos + 1);
    }
}

/// A quote that is found stands at or after the place searched from.
pub proof fn lemma_find_quote_bounds(src: Seq<char>, pos: int)
    requires
        0 <= pos <= src.len(),
    ensures
        find_quote(src, pos) matches Some(quote) ==> pos <= quote < src.len() && src[quote] == '"',
    decreases src.len() - pos,
{
    if pos < src.len() && src[pos] != '"' {
        lemma_find_quote_bounds(src, pos + 1);
    }
}

/// Skipping blank lines ends within the text, at a character that is
/// neither a space nor a newline or at the end, and counts no more spaces
/// than it passes.
pub proof fn lemma_skip_blank(src: Seq<char>, pos: int, width: nat)
    requires
        0 <= pos <= src.len(),
    ensures
        pos <= skip_blank(src, pos, width).0 <= src.len(),
        skip_blank(src, pos, width).1 <= width + (skip_blank(src, pos, width).0 - pos),
        skip_blank(src, pos, width).0 < src.len() ==> src[skip_blank(src, pos, width).0] != ' '
            && !is_newline(src[skip_blank(src, pos, width).0]),
    decreases src.len() - pos,
{
    if pos < src.len() && src[pos] == ' ' {
        lemma_skip_blank(src, pos + 1, width + 1);
    } else if pos < src.len() && is_newline(src[pos]) {
        lemma_skip_blank(src, pos + 1, 0);
    }
}

/// An element that starts at a character ends after it, and leaves the
/// indentation as it was.
pub proof fn lemma_lex_token_progress(src: Seq<char>, st: LexState)
    requires
        0 <= st.pos < src.len(),
    ensures
        lex_token(src, st) matches LexStep::Emit(item, after) && st.pos < after.pos <= src.len()
            && after.stack == st.stack && after.line_indent == st.line_indent && after.halted
            == st.halted && item != Ok::<TokenView, TokeniserError>(TokenView::IndentIncr) && item
            != Ok::<TokenView, TokeniserError>(TokenView::IndentDecr),
{
    let pos = st.pos;
    lemma_find_quote_bounds(src, pos + 1);
    lemma_name_end_bounds(src, pos + 1);
    lemma_digits_end_bounds(src, pos + 1);
    let whole_end = digits_end(src, pos + 1);
    if whole_end < src.len() {
        lemma_digits_end_bounds(src, whole_end + 1);
    }
}

/// How one element changes the number of open levels: `IndentIncr` opens
/// one, `IndentDecr` closes one, no other element changes it.
pub open spec fn levels_after(levels: int, item: LexItem) -> int {
    if item == Ok::<TokenView, TokeniserError>(TokenView::IndentIncr) {
        levels + 1
    } else if item == Ok::<TokenView, TokeniserError>(TokenView::IndentDecr) {
        levels - 1
    } else {
        levels
    }
}

/// Reading on either ends the sequence on an empty stack, or gives an
/// element and a state that is further in the text or has one level fewer;
/// the stack has an entry more after `IndentIncr`, one fewer after
/// `IndentDecr`, and as many after any other element.
pub proof fn lemma_scan_progress(src: Seq<char>, st: LexState)
    ensures
        match scan(src, st) {
            LexStep::Emit(item, after) => {
                &&& st.pos < after.pos <= src.len() || (after.pos == st.pos && after.stack.len()
                    < st.stack.len())
                &&& after.stack.len() == levels_after(st.stack.len() as int, item)
                &&& after.halted == st.halted
            },
            LexStep::End => st.stack.len() == 0,
        },
    decreases src.len() - st.pos,
{
    if 0 <= st.pos < src.len() {
        let c = src[st.pos];
        if c == ' ' {
            lemma_scan_progress(src, st.at(st.pos + 1));
        } else if is_newline(c) {
            lemma_skip_blank(src, st.pos + 1, 0);
            let line = line_change(src, st.at(st.pos + 1)).1;
            if line_change(src, st.at(st.pos + 1)).0 is None && 0 <= line.pos < src.len() {
                lemma_lex_token_progress(src, line);
            }
        } else {
            lemma_lex_token_progress(src, st);
        }
    }
}

/// A pull either ends the sequence, or gives an element and makes progress:
/// it reads on in the text, or it reads nothing and closes a level. The
/// sequence ends where the tokeniser is halted or no level is open.
pub proof fn lemma_lex_step_progress(src: Seq<char>, st: LexState)
    ensures
        match lex_step(src, st) {
            LexStep::Emit(_, after) => {
                ||| st.pos < after.pos <= src.len()
                ||| after.pos == st.pos && after.stack.len() < st.stack.len()
            },
            LexStep::End => st.halted || st.stack.len() == 0,
        },
{
    if !st.halted && open_indent(st.stack) <= st.line_indent {
        lemma_scan_progress(src, st);
    }
}

/// How often a token occurs in a sequence of elements.
pub open spec fn occurrences(items: Seq<LexItem>, token: TokenView) -> nat
    decreases items.len(),
{
    if items.len() == 0 {
        0
    } else {
        occurrences(items.drop_first(), token) + (if items[0] == Ok::<TokenView, TokeniserError>(
            token,
        ) {
            1nat
        } else {
            0nat
        })
    }
}

/// The stack of open widths has as many entries as levels are open: every
/// pull that opens or closes a level emits the token for it. The tokeniser
/// is halted after a pull exactly when the element is a lexical error.
pub proof fn lemma_lex_step_levels(src: Seq<char>, st: LexState)
    ensures
        lex_step(src, st) matches LexStep::Emit(item, after) ==> after.stack.len() == levels_after(
            st.stack.len() as int,
            item,
        ) && (after.halted <==> item is Err),
{
    if !st.halted && open_indent(st.stack) <= st.line_indent {
        lemma_scan_progress(src, st);
    }
}

/// A lexical error halts the stream: an error element is the last element of
/// the sequence, and nothing is pulled from a halted tokeniser.
pub proof fn lemma_error_is_last(src: Seq<char>, st: LexState)
    ensures
        st.halted ==> lex_from(src, st) == Seq::<LexItem>::empty(),
        forall|i: int|
            0 <= i < lex_from(src, st).len() && (#[trigger] lex_from(src, st)[i]) is Err ==> i
                == lex_from(src, st).len() - 1,
        lex_end(src, st).halted <==> st.halted || !error_free(lex_from(src, st)),
    decreases src.len() - st.pos, st.stack.len(),
{
    lemma_lex_step_progress(src, st);
    lemma_lex_step_levels(src, st);
    match lex_step(src, st) {
        LexStep::Emit(item, after) => {
            lemma_error_is_last(src, after);
            let items = lex_from(src, st);
            let rest = lex_from(src, after);
            assert(items =~= seq![item] + rest);
            assert forall|i: int| 0 <= i < items.len() && (#[trigger] items[i]) is Err implies i
                == items.len() - 1 by {
                if i > 0 {
                    assert(rest[i - 1] == items[i]);
                }
            }
            if item is Err {
                assert(items[0] is Err);
            } else if error_free(rest) {
                assert forall|i: int| 0 <= i < items.len() implies (#[trigger] items[i]) is Ok by {
                    if i > 0 {
                        assert(rest[i - 1] == items[i]);
                    }
                }
            } else {
                let i = choose|i: int| 0 <= i < rest.len() && !((#[trigger] rest[i]) is Ok);
                assert(items[i + 1] == rest[i]);
            }
        },
        LexStep::End => {},
    }
}

/// From any state on that is not halted, a sequence without a lexical error
/// holds as many `IndentDecr` as it holds `IndentIncr` and levels are open at
/// the start.
pub proof fn lemma_levels_closed(src: Seq<char>, st: LexState)
    requires
        !st.halted,
        error_free(lex_from(src, st)),
    ensures
        occurrences(lex_from(src, st), TokenView::IndentDecr) == occurrences(
            lex_from(src, st),
            TokenView::IndentIncr,
        ) + st.stack.len(),
    decreases src.len() - st.pos, st.stack.len(),
{
    lemma_lex_step_progress(src, st);
    lemma_lex_step_levels(src, st);
    match lex_step(src, st) {
        LexStep::Emit(item, after) => {
            let items = lex_from(src, st);
            let rest = lex_from(src, after);
            assert(items.drop_first() =~= rest);
            assert(items[0] == item);
            assert forall|i: int| 0 <= i < rest.len() implies (#[trigger] rest[i]) is Ok by {
                assert(items[i + 1] == rest[i]);
            }
            lemma_levels_closed(src, after);
        },
        LexStep::End => {},
    }
}

/// Over a whole source text without a lexical error the tokeniser emits
/// `IndentIncr` and `IndentDecr` equally often.
pub proof fn lemma_indentation_balanced(src: Seq<char>)
    requires
        error_free(lex(src)),
    ensures
        occurrences(lex(src), TokenView::IndentIncr) == occurrences(lex(src), TokenView::IndentDecr),
{
    lemma_levels_closed(src, initial_state());
}

/// When the token sequence has ended without a lexical error, no indentation
/// level is open: the stack of widths is empty after the last token.
pub proof fn lemma_no_level_open_at_end(src: Seq<char>, st: LexState)
    ensures
        !lex_end(src, st).halted ==> lex_end(src, st).stack.len() == 0,
        lex_step(src, lex_end(src, st)) == LexStep::End,
    decreases src.len() - st.pos, st.stack.len(),
{
    lemma_lex_step_progress(src, st);
    match lex_step(src, st) {
        LexStep::Emit(_, after) => {
            lemma_no_level_open_at_end(src, after);
        },
        LexStep::End => {},
    }
}

/// What a pulled element holds, as a mathematical value.
pub open spec fn item_view(item: Result<Token, TokeniserError>) -> LexItem {
    match item {
        Ok(token) => Ok(token@),
        Err(error) => Err(error),
    }
}

/// The value of a prefix of a digit sequence is at most that of the whole.
proof fn lemma_decimal_value_prefix(digits: Seq<char>, k: int)
    requires
        0 <= k <= digits.len(),
    ensures
        decimal_value(digits.subrange(0, k)) <= decimal_value(digits),
    decreases digits.len() - k,
{
    if k == digits.len() {
        assert(digits.subrange(0, k) =~= digits);
    } else {
        lemma_decimal_value_prefix(digits.drop_last(), k);
        assert(digits.drop_last().subrange(0, k) =~= digits.subrange(0, k));
    }
}

/// The whole number that `chars[from..to]` writes, if it is a literal.
fn parse_int(chars: &Vec<char>, from: usize, to: usize) -> (value: Option<i64>)
    requires
        from <= to <= chars.len(),
    ensures
        value == int_literal(chars@.subrange(from as int, to as int)),
{
    let ghost lexeme = chars@.subrange(from as int, to as int);
    let mut value: i64 = 0;
    let mut i: usize = from;
    while i < to
        invariant
            from <= i <= to <= chars.len(),
            lexeme == chars@.subrange(from as int, to as int),
            all_ascii_digits(lexeme.subrange(0, i - from)),
            value == decimal_value(lexeme.subrange(0, i - from)),
        decreases to - i,
    {
        let c = chars[i];
        let ghost before = lexeme.subrange(0, i - from);
        let ghost after = lexeme.subrange(0, i + 1 - from);
        proof {
            assert(after.drop_last() =~= before);
            assert(after.last() == c);
            lemma_decimal_value_prefix(lexeme, i + 1 - from);
        }
        if !(c >= '0' && c <= '9') {
            proof {
                assert(lexeme[i - from] == c);
            }
            return None;
        }
        let digit: i64 = (c as u32 - '0' as u32) as i64;
        if value > 922337203685477580 || (value == 922337203685477580 && digit > 7) {
            return None;
        }
        value = value * 10 + digit;
        i += 1;
        proof {
            assert forall|j: int| 0 <= j < after.len() implies ascii_digit(#[trigger] after[j]) by {
                if j < before.len() {
                    assert(before[j] == after[j]);
                }
            }
        }
    }
    proof {
        assert(lexeme.subrange(0, to - from) =~= lexeme);
    }
    Some(value)
}

/// Whether `chars[from..to]` holds nothing but the digits `0`..`9` and `.`.
fn check_float(chars: &Vec<char>, from: usize, to: usize) -> (ok: bool)
    requires
        from <= to <= chars.len(),
    ensures
        ok == float_literal(chars@.subrange(from as int, to as int)),
{
    let ghost lexeme = chars@.subrange(from as int, to as int);
    let mut i: usize = from;
    while i < to
        invariant
            from <= i <= to <= chars.len(),
            lexeme == chars@.subrange(from as int, to as int),
            forall|j: int| 0 <= j < i - from ==> ascii_digit(#[trigger] lexeme[j]) || lexeme[j] == '.',
        decreases to - i,
    {
        let c = chars[i];
        if !((c >= '0' && c <= '9') || c == '.') {
            proof {
                assert(lexeme[i - from] == c);
            }
            return false;
        }
        i += 1;
    }
    true
}

/// How a token starts with the character `c`, given whether the character is
/// alphabetic and whether it is numeric.
pub fn classify(c: char, alphabetic: bool, numeric: bool) -> (class: CharClass)
    ensures
        class == char_class(c, alphabetic, numeric),
{
    if c == '(' || c == ')' || c == ':' || c == '|' || c == '+' || c == '*' || c == '-' || c == '/'
        || c == ',' {
        CharClass::Symbol
    } else if c == '"' {
        CharClass::Quote
    } else if c == '=' {
        CharClass::Equals
    } else if alphabetic {
        CharClass::Word
    } else if numeric {
        CharClass::Number
    } else {
        CharClass::Unexpected
    }
}

/// The token that a one-character symbol stands for.
pub fn symbol(c: char) -> (token: Option<Token>)
    ensures
        match symbol_token(c) {
            Some(view) => token matches Some(t) && t@ == view,
            None => token is None,
        },
{
    if c == '(' {
        Some(Token::OpenParen)
    } else if c == ')' {
        Some(Token::CloseParen)
    } else if c == ':' {
        Some(Token::Colon)
    } else if c == '|' {
        Some(Token::Pipe)
    } else if c == '+' {
        Some(Token::BinOp(BinaryOperator::Plus))
    } else if c == '*' {
        Some(Token::BinOp(BinaryOperator::Multiply))
    } else if c == '-' {
        Some(Token::BinOp(BinaryOperator::Minus))
    } else if c == '/' {
        Some(Token::BinOp(BinaryOperator::Divide))
    } else if c == ',' {
        Some(Token::Comma)
    } else {
        None
    }
}

/// A tokeniser over a source text: each pull gives the next token, a lexical
/// error, or the end. A lexical error halts it.
pub struct Tokeniser {
    chars: Vec<char>,
    pos: usize,
    indent_stack: IndentStack,
    current_line_indent: usize,
    halted: bool,
}

/// Starts tokenising a source text.
pub fn tokenise(source: &str) -> (tokeniser: Tokeniser)
    ensures
        tokeniser.source() == source@,
        tokeniser.state() == initial_state(),
{
    Tokeniser {
        chars: chars_of(source),
        pos: 0,
        indent_stack: new_stack(),
        current_line_indent: 0,
        halted: false,
    }
}

impl Tokeniser {
    #[verifier::type_invariant]
    spec fn well_formed(self) -> bool {
        self.current_line_indent <= self.pos <= self.chars.len()
    }

    /// The text that is being tokenised.
    pub closed spec fn source(&self) -> Seq<char> {
        self.chars@
    }

    /// Where the tokeniser stands.
    pub closed spec fn state(&self) -> LexState {
        LexState {
            pos: self.pos as int,
            stack: indent_widths(self.indent_stack),
            line_indent: self.current_line_indent as nat,
            halted: self.halted,
        }
    }

    /// The elements that are still to come.
    pub open spec fn remaining(&self) -> Seq<LexItem> {
        lex_from(self.source(), self.state())
    }

    /// The next token or lexical error, or `None` at the end of the sequence.
    /// A lexical error halts the tokeniser: every pull after it gives `None`.
    /// At an end that no error has brought about, no indentation level is
    /// open. A pull after the end gives `None` again.
    pub fn next(&mut self) -> (item: Option<Result<Token, TokeniserError>>)
        ensures
            final(self).source() == old(self).source(),
            lex_step(old(self).source(), old(self).state()) == (match item {
                Some(item) => LexStep::Emit(item_view(item), final(self).state()),
                None => LexStep::End,
            }),
            old(self).state().halted ==> item is None,
            item matches Some(Err(_)) ==> final(self).state().halted,
            item matches Some(Ok(_)) ==> !final(self).state().halted,
            item is None ==> final(self).state().halted == old(self).state().halted && (
            final(self).state().halted || final(self).state().stack.len() == 0),
            item is None || (item matches Some(Err(_))) ==> final(self).remaining() == Seq::<
                LexItem,
            >::empty(),
            old(self).remaining() == (match item {
                Some(item) => seq![item_view(item)] + final(self).remaining(),
                None => Seq::empty(),
            }),
    {
        proof {
            use_type_invariant(&*self);
            lemma_lex_step_progress(self.source(), self.state());
            lemma_lex_step_levels(self.source(), self.state());
        }
        if self.halted {
            return None;
        }
        let top = self.indent_level();
        if top > self.current_line_indent {
            pop_width(&mut self.indent_stack);
            return Some(Ok(Token::IndentDecr));
        }
        let len = self.chars.len();
        let ghost src = self.chars@;
        let ghost start = self.state();
        while self.pos < len
            invariant
                self.chars@ == src,
                src == old(self).source(),
                start == old(self).state(),
                !start.halted,
                !self.halted,
                open_indent(start.stack) <= start.line_indent,
                len == self.chars.len(),
                self.current_line_indent <= self.pos <= len,
                scan(src, self.state()) == scan(src, start),
            decreases len - self.pos,
        {
            let at = self.pos;
            let c = self.chars[at];
            self.pos = at + 1;
            if c == ' ' {
            } else if c == '\n' || c == '\r' {
                proof {
                    lemma_skip_blank(src, at + 1, 0);
                }
                match self.newline() {
                    Some(token) => {
                        return Some(Ok(token));
                    },
                    None => {},
                }
            } else {
                let item = self.token(at, c);
                proof {
                    use_type_invariant(&*self);
                }
                if item.is_err() {
                    self.halted = true;
                }
                proof {
                    lemma_error_is_last(self.source(), self.state());
                }
                return Some(item);
            }
        }
        let closed = pop_width(&mut self.indent_stack);
        proof {
            lemma_lex_step_progress(self.source(), self.state());
        }
        match closed {
            Some(_) => Some(Ok(Token::IndentDecr)),
            None => None,
        }
    }

    /// The innermost open indentation width.
    fn indent_level(&self) -> (width: usize)
        ensures
            width as int == open_indent(self.state().stack),
    {
        match last_width(&self.indent_stack) {
            Some(width) => width,
            None => 0,
        }
    }

    /// What a newline makes of the indentation, the newline being read
    /// already: skips blank lines, counts the spaces of the next line that is
    /// not blank, and stops before its first character. Gives `IndentIncr`
    /// and pushes the count where it is above the open width, gives
    /// `IndentDecr` and pops one level where it is below; otherwise, and at
    /// the end of the text, gives `None` and keeps the stack.
    fn newline(&mut self) -> (token: Option<Token>)
        requires
            old(self).pos >= 1,
        ensures
            final(self).source() == old(self).source(),
            old(self).pos <= final(self).pos <= final(self).chars.len(),
            final(self).current_line_indent <= final(self).pos,
            match line_change(old(self).source(), old(self).state()).0 {
                Some(view) => token matches Some(t) && t@ == view,
                None => token is None,
            },
            final(self).state() == line_change(old(self).source(), old(self).state()).1,
    {
        proof {
            use_type_invariant(&*self);
        }
        let ghost src = self.chars@;
        let ghost start = self.state();
        let len = self.chars.len();
        self.current_line_indent = 0;
        while self.pos < len
            invariant
                self.chars@ == src,
                len == self.chars.len(),
                src == old(self).source(),
                start == old(self).state(),
                self.current_line_indent < self.pos <= len,
                self.pos >= start.pos,
                self.halted == start.halted,
                indent_widths(self.indent_stack) == start.stack,
                skip_blank(src, self.pos as int, self.current_line_indent as nat) == skip_blank(
                    src,
                    start.pos,
                    0,
                ),
            decreases len - self.pos,
        {
            let c = self.chars[self.pos];
            if c == ' ' {
                self.current_line_indent += 1;
            } else if c == '\n' || c == '\r' {
                self.current_line_indent = 0;
            } else {
                let top = self.indent_level();
                if self.current_line_indent > top {
                    push_width(&mut self.indent_stack, self.current_line_indent);
                    return Some(Token::IndentIncr);
                } else if self.current_line_indent < top {
                    pop_width(&mut self.indent_stack);
                    return Some(Token::IndentDecr);
                } else {
                    return None;
                }
            }
            self.pos += 1;
        }
        None
    }

    /// The element that starts with the character `c`, read at `at`.
    fn token(&mut self, at: usize, c: char) -> (item: Result<Token, TokeniserError>)
        requires
            at < old(self).chars.len(),
            old(self).pos == at + 1,
            c == old(self).chars[at as int],
            c != ' ' && !is_newline(c),
        ensures
            final(self).source() == old(self).source(),
            final(self).halted == old(self).halted,
            lex_token(old(self).source(), old(self).state().at(at as int)) == LexStep::Emit(
                item_view(item),
                final(self).state(),
            ),
    {
        proof {
            use_type_invariant(&*self);
        }
        match classify(c, is_alphabetic(c), is_numeric(c)) {
            CharClass::Symbol => match symbol(c) {
                Some(token) => Ok(token),
                None => Err(TokeniserError::UnexpectedCharacter(c)),
            },
            CharClass::Quote => self.string_constant(at),
            CharClass::Equals => {
                if self.pos < self.chars.len() && self.chars[self.pos] == '>' {
                    self.pos += 1;
                    Ok(Token::FatRightArrow)
                } else if self.pos < self.chars.len() && self.chars[self.pos] == '=' {
                    self.pos += 1;
                    Ok(Token::BinOp(BinaryOperator::DoubleEquals))
                } else {
                    Ok(Token::Equals)
                }
            },
            CharClass::Word => Ok(self.name(at)),
            CharClass::Number => self.number(at),
            CharClass::Unexpected => Err(TokeniserError::UnexpectedCharacter(c)),
        }
    }

    /// The string literal whose opening quote was read at `at`.
    fn string_constant(&mut self, at: usize) -> (item: Result<Token, TokeniserError>)
        requires
            old(self).pos == at + 1,
        ensures
            final(self).source() == old(self).source(),
            final(self).state().stack == old(self).state().stack,
            final(self).state().line_indent == old(self).state().line_indent,
            final(self).state().halted == old(self).state().halted,
            match find_quote(old(self).source(), at + 1) {
                Some(quote) => item_view(item) == Ok::<TokenView, TokeniserError>(
                    TokenView::Constant(
                        ConstantView::Str(old(self).source().subrange(at + 1, quote)),
                    ),
                ) && final(self).state().pos == quote + 1,
                None => item == Err::<Token, TokeniserError>(TokeniserError::UnterminatedString)
                    && final(self).state().pos == old(self).source().len(),
            },
    {
        proof {
            use_type_invariant(&*self);
        }
        let ghost src = self.chars@;
        let len = self.chars.len();
        while self.pos < len
            invariant
                self.chars@ == src,
                len == self.chars.len(),
                src == old(self).source(),
                self.current_line_indent <= self.pos <= len,
                at < self.pos,
                find_quote(src, self.pos as int) == find_quote(src, at + 1),
                indent_widths(self.indent_stack) == indent_widths(old(self).indent_stack),
                self.current_line_indent == old(self).current_line_indent,
                self.halted == old(self).halted,
            decreases len - self.pos,
        {
            let end = self.pos;
            let c = self.chars[end];
            self.pos += 1;
            if c == '"' {
                assert(find_quote(src, end as int) == Some(end as int));
                return Ok(Token::Constant(Constant::Str(string_of(&self.chars, at + 1, end))));
            }
        }
        Err(TokeniserError::UnterminatedString)
    }

    /// The keyword or name whose first character was read at `at`.
    fn name(&mut self, at: usize) -> (token: Token)
        requires
            old(self).pos == at + 1,
        ensures
            final(self).source() == old(self).source(),
            final(self).state() == old(self).state().at(name_end(old(self).source(), at + 1)),
            token@ == word_token(
                old(self).source().subrange(at as int, name_end(old(self).source(), at + 1)),
            ),
    {
        proof {
            use_type_invariant(&*self);
        }
        let ghost src = self.chars@;
        let len = self.chars.len();
        while self.pos < len
            invariant
                self.chars@ == src,
                len == self.chars.len(),
                src == old(self).source(),
                self.current_line_indent <= self.pos <= len,
                at < self.pos,
                name_end(src, self.pos as int) == name_end(src, at + 1),
                indent_widths(self.indent_stack) == indent_widths(old(self).indent_stack),
                self.current_line_indent == old(self).current_line_indent,
                self.halted == old(self).halted,
            ensures
                name_end(src, at + 1) == self.pos,
            decreases len - self.pos,
        {
            let c = self.chars[self.pos];
            if is_alphabetic(c) || c == '_' {
                self.pos += 1;
            } else {
                break;
            }
        }
        let lexeme = string_of(&self.chars, at, self.pos);
        match get_matching_keyword(lexeme.as_str()) {
            Some(keyword) => Token::Keyword(keyword),
            None => Token::Name(lexeme),
        }
    }

    /// Reads on over numeric characters.
    fn digits(&mut self)
        ensures
            final(self).source() == old(self).source(),
            final(self).state() == old(self).state().at(
                digits_end(old(self).source(), old(self).state().pos),
            ),
            old(self).pos <= final(self).pos <= final(self).chars.len(),
    {
        proof {
            use_type_invariant(&*self);
        }
        let ghost src = self.chars@;
        let ghost from = self.pos;
        let len = self.chars.len();
        while self.pos < len
            invariant
                self.chars@ == src,
                len == self.chars.len(),
                src == old(self).source(),
                from == old(self).pos,
                self.current_line_indent <= self.pos <= len,
                from <= self.pos,
                digits_end(src, self.pos as int) == digits_end(src, from as int),
                indent_widths(self.indent_stack) == indent_widths(old(self).indent_stack),
                self.current_line_indent == old(self).current_line_indent,
                self.halted == old(self).halted,
            ensures
                digits_end(src, from as int) == self.pos,
            decreases len - self.pos,
        {
            if is_numeric(self.chars[self.pos]) {
                self.pos += 1;
            } else {
                break;
            }
        }
    }

    /// The number whose first character was read at `at`.
    fn number(&mut self, at: usize) -> (item: Result<Token, TokeniserError>)
        requires
            at < old(self).chars.len(),
            old(self).pos == at + 1,
        ensures
            final(self).source() == old(self).source(),
            final(self).state() == old(self).state().at(number_span(old(self).source(), at as int).0),
            item_view(item) == number_item(
                old(self).source().subrange(at as int, number_span(old(self).source(), at as int).0),
                number_span(old(self).source(), at as int).1,
            ),
    {
        proof {
            use_type_invariant(&*self);
        }
        self.digits();
        let is_float = self.pos < self.chars.len() && self.chars[self.pos] == '.';
        if is_float {
            self.pos += 1;
            self.digits();
        }
        if is_float {
            if check_float(&self.chars, at, self.pos) {
                Ok(Token::Constant(Constant::Float(string_of(&self.chars, at, self.pos))))
            } else {
                Err(TokeniserError::InvalidNumber)
            }
        } else {
            match parse_int(&self.chars, at, self.pos) {
                Some(value) => Ok(Token::Constant(Constant::Int(value))),
                None => Err(TokeniserError::InvalidNumber),
            }
        }
    }
}

} // verus!
