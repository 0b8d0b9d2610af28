//! Instructions and their text.

use super::format::{new_line, Wasm, WasmIndentation};
use crate::text::{decimal_string, decimal_text};
use vstd::prelude::*;

verus! {

/// A sequence of instructions.
pub type WasmBlock = Vec<WasmInstr>;

/// A value type of WebAssembly. The lowering pass uses `I32` alone.
#[derive(Debug, Copy, Clone, PartialEq, Eq, Structural)]
pub enum WasmType {
    I32,
    I64,
}

impl WasmType {
    /// The type as it is written in the text format.
    pub open spec fn text(self) -> Seq<char> {
        match self {
            WasmType::I32 => "i32"@,
            WasmType::I64 => "i64"@,
        }
    }

    /// The type as it is written in the text format.
    pub fn to_wasm_text(self) -> (text: &'static str)
        ensures
            text@ == self.text(),
    {
        match self {
            WasmType::I32 => "i32",
            WasmType::I64 => "i64",
        }
    }
}

/// An instruction. A floating-point constant holds its digits as they are
/// written; the 64-bit instructions are never made by the lowering pass.
#[derive(Debug)]
pub enum WasmInstr {
    GetLocal(String),
    SetLocal(String),
    ConstI32(i32),
    ConstI64(i64),
    ConstF32(String),
    AddI32,
    AddI64,
    MinusI32,
    MultiplyI32,
    SignedDivideI32,
    EqualI32,
    Call(String),
    If { result_type: WasmType, condition: WasmBlock, then: WasmBlock, else_: Option<WasmBlock> },
}

/// A `WasmInstr` as a mathematical value.
pub enum WasmInstrView {
    GetLocal(Seq<char>),
    SetLocal(Seq<char>),
    ConstI32(i32),
    ConstI64(i64),
    ConstF32(Seq<char>),
    AddI32,
    AddI64,
    MinusI32,
    MultiplyI32,
    SignedDivideI32,
    EqualI32,
    Call(Seq<char>),
    If {
        result_type: WasmType,
        condition: Seq<WasmInstrView>,
        then: Seq<WasmInstrView>,
        else_: Option<Seq<WasmInstrView>>,
    },
}

impl WasmInstr {
    /// The instruction as a mathematical value.
    pub open spec fn view(&self) -> WasmInstrView
        decreases self,
    {
        match self {
            WasmInstr::GetLocal(name) => WasmInstrView::GetLocal(name@),
            WasmInstr::SetLocal(name) => WasmInstrView::SetLocal(name@),
            WasmInstr::ConstI32(value) => WasmInstrView::ConstI32(*value),
            WasmInstr::ConstI64(value) => WasmInstrView::ConstI64(*value),
            WasmInstr::ConstF32(digits) => WasmInstrView::ConstF32(digits@),
            WasmInstr::AddI32 => WasmInstrView::AddI32,
            WasmInstr::AddI64 => WasmInstrView::AddI64,
            WasmInstr::MinusI32 => WasmInstrView::MinusI32,
            WasmInstr::MultiplyI32 => WasmInstrView::MultiplyI32,
            WasmInstr::SignedDivideI32 => WasmInstrView::SignedDivideI32,
            WasmInstr::EqualI32 => WasmInstrView::EqualI32,
            WasmInstr::Call(name) => WasmInstrView::Call(name@),
            WasmInstr::If { result_type, condition, then, else_ } => WasmInstrView::If {
                result_type: *result_type,
                condition: instructions_view(condition@),
                then: instructions_view(then@),
                else_: match else_ {
                    Some(block) => Some(instructions_view(block@)),
                    None => None,
                },
            },
        }
    }
}

/// The views of a sequence of instructions, in order.
pub open spec fn instructions_view(instructions: Seq<WasmInstr>) -> Seq<WasmInstrView>
    decreases instructions,
{
    if instructions.len() == 0 {
        Seq::empty()
    } else {
        instructions_view(instructions.drop_last()).push(instructions.last().view())
    }
}

/// The view of a sequence of instructions has the views of the instructions
/// at their places.
pub proof fn lemma_instructions_view(instructions: Seq<WasmInstr>)
    ensures
        instructions_view(instructions).len() == instructions.len(),
        forall|i: int|
            0 <= i < instructions.len() ==> #[trigger] instructions_view(instructions)[i]
                == instructions[i].view(),
    decreases instructions.len(),
{
    if instructions.len() > 0 {
        lemma_instructions_view(instructions.drop_last());
    }
}

/// The views of two sequences one after the other.
pub proof fn lemma_instructions_view_concat(first: Seq<WasmInstr>, second: Seq<WasmInstr>)
    ensures
        instructions_view(first + second) == instructions_view(first) + instructions_view(second),
    decreases second.len(),
{
    if second.len() == 0 {
        assert(first + second =~= first);
        assert(instructions_view(first) + instructions_view(second) =~= instructions_view(first));
    } else {
        lemma_instructions_view_concat(first, second.drop_last());
        assert((first + second).drop_last() =~= first + second.drop_last());
        assert(instructions_view(first + second) =~= instructions_view(first) + instructions_view(
            second,
        ));
    }
}

/// The text of an instruction: a newline and the indentation, then the
/// instruction. An `if` is written as its condition, then `(if` with its
/// result type and its branches.
pub open spec fn instruction_text(instruction: WasmInstrView, indent: nat) -> Seq<char>
    decreases instruction, 0nat,
{
    new_line(indent) + (match instruction {
        WasmInstrView::GetLocal(name) => "local.get $"@ + name,
        WasmInstrView::SetLocal(name) => "local.set $"@ + name,
        WasmInstrView::ConstI32(value) => "i32.const "@ + decimal_text(value as int),
        WasmInstrView::ConstI64(value) => "i64.const "@ + decimal_text(value as int),
        WasmInstrView::ConstF32(digits) => "f32.const "@ + digits,
        WasmInstrView::AddI32 => "i32.add"@,
        WasmInstrView::AddI64 => "i64.add"@,
        WasmInstrView::MinusI32 => "i32.sub"@,
        WasmInstrView::MultiplyI32 => "i32.mul"@,
        WasmInstrView::SignedDivideI32 => "i32.div_s"@,
        WasmInstrView::EqualI32 => "i32.eq"@,
        WasmInstrView::Call(name) => "call $"@ + name,
        WasmInstrView::If { result_type, condition, then, else_ } => block_text(condition, indent)
            + if_head(result_type, indent) + branch_text("(then"@, then, indent) + (match else_ {
            Some(block) => branch_text("(else"@, block, indent),
            None => Seq::empty(),
        }) + ")"@,
    })
}

/// The line that opens an `if`, with the type of its result.
pub open spec fn if_head(result_type: WasmType, indent: nat) -> Seq<char> {
    new_line(indent) + " (if (result "@ + result_type.text() + ")"@
}

/// A branch of an `if` that stands at `indent`: its keyword in an opening
/// bracket one level deeper, its instructions two levels deeper, and the
/// closing bracket on a line of its own.
pub open spec fn branch_text(keyword: Seq<char>, block: Seq<WasmInstrView>, indent: nat) -> Seq<
    char,
>
    decreases block, 1nat,
{
    new_line(indent + 2) + keyword + block_text(block, indent + 4) + new_line(indent + 2) + ")"@
}

/// The texts of a sequence of instructions, one after the other.
pub open spec fn block_text(instructions: Seq<WasmInstrView>, indent: nat) -> Seq<char>
    decreases instructions, 0nat,
{
    if instructions.len() == 0 {
        Seq::empty()
    } else {
        block_text(instructions.drop_last(), indent) + instruction_text(instructions.last(), indent)
    }
}

/// The larger of two numbers.
pub open spec fn larger(a: nat, b: nat) -> nat {
    if a >= b {
        a
    } else {
        b
    }
}

/// How many spaces deeper than its own indentation an instruction indents:
/// an `if` four, and as much more as the instructions in its branches.
pub open spec fn instruction_reach(instruction: WasmInstrView) -> nat
    decreases instruction,
{
    match instruction {
        WasmInstrView::If { condition, then, else_, .. } => {
            let inner = match else_ {
                Some(block) => larger(block_reach(then), block_reach(block)),
                None => block_reach(then),
            };
            larger(block_reach(condition), 4 + inner)
        },
        _ => 0,
    }
}

/// The deepest reach of a sequence of instructions.
pub open spec fn block_reach(instructions: Seq<WasmInstrView>) -> nat
    decreases instructions,
{
    if instructions.len() == 0 {
        0
    } else {
        larger(block_reach(instructions.drop_last()), instruction_reach(instructions.last()))
    }
}

/// The reach of a sequence is at least that of each of its instructions.
pub proof fn lemma_block_reach(instructions: Seq<WasmInstrView>, i: int)
    requires
        0 <= i < instructions.len(),
    ensures
        instruction_reach(instructions[i]) <= block_reach(instructions),
        block_reach(instructions.subrange(0, i)) <= block_reach(instructions),
    decreases instructions.len(),
{
    if i < instructions.len() - 1 {
        lemma_block_reach(instructions.drop_last(), i);
        assert(instructions.drop_last().subrange(0, i) =~= instructions.subrange(0, i));
    } else {
        assert(instructions.drop_last() =~= instructions.subrange(0, i));
    }
}

/// Appends the texts of the instructions to `writer`.
pub fn write_block(instructions: &Vec<WasmInstr>, writer: &mut String, format: WasmIndentation)
    requires
        format.width() + block_reach(instructions_view(instructions@)) <= u32::MAX,
    ensures
        final(writer)@ == old(writer)@ + block_text(
            instructions_view(instructions@),
            format.width(),
        ),
    decreases instructions, 0nat,
{
    let ghost all = instructions_view(instructions@);
    let mut i: usize = 0;
    proof {
        lemma_instructions_view(instructions@);
        assert(all.subrange(0, 0) =~= Seq::<WasmInstrView>::empty());
        assert(writer@ =~= old(writer)@ + block_text(all.subrange(0, 0), format.width()));
    }
    while i < instructions.len()
        invariant
            i <= instructions.len(),
            all == instructions_view(instructions@),
            all.len() == instructions.len(),
            forall|j: int| 0 <= j < all.len() ==> #[trigger] all[j] == instructions[j].view(),
            format.width() + block_reach(all) <= u32::MAX,
            writer@ == old(writer)@ + block_text(all.subrange(0, i as int), format.width()),
        decreases instructions.len() - i,
    {
        proof {
            lemma_block_reach(all, i as int);
            assert(all.subrange(0, i + 1).drop_last() =~= all.subrange(0, i as int));
        }
        write_instruction(&instructions[i], writer, format);
        i += 1;
        assert(writer@ =~= old(writer)@ + block_text(all.subrange(0, i as int), format.width()));
    }
    proof {
        assert(all.subrange(0, i as int) =~= all);
    }
}

/// Appends a keyword and the text after it to `writer`.
fn write_pair(writer: &mut String, keyword: &str, rest: &str)
    ensures
        final(writer)@ == old(writer)@ + (keyword@ + rest@),
{
    writer.append(keyword);
    writer.append(rest);
    assert(writer@ =~= old(writer)@ + (keyword@ + rest@));
}

/// Appends the line that opens an `if`.
fn write_if_head(result_type: WasmType, writer: &mut String, format: WasmIndentation)
    ensures
        final(writer)@ == old(writer)@ + if_head(result_type, format.width()),
{
    format.new_line_with_indent(writer);
    writer.append(" (if (result ");
    writer.append(result_type.to_wasm_text());
    writer.append(")");
    assert(writer@ =~= old(writer)@ + if_head(result_type, format.width()));
}

/// Appends the opening of a branch of an `if` that stands at the indentation
/// `format`, and gives the indentation of the instructions of the branch.
fn open_branch(keyword: &str, writer: &mut String, format: WasmIndentation) -> (body_format:
    WasmIndentation)
    requires
        format.width() + 4 <= u32::MAX,
    ensures
        final(writer)@ == old(writer)@ + (new_line(format.width() + 2) + keyword@),
        body_format.width() == format.width() + 4,
{
    let indent_1 = format.increase_indent();
    indent_1.new_line_with_indent(writer);
    writer.append(keyword);
    assert(writer@ =~= old(writer)@ + (new_line(format.width() + 2) + keyword@));
    indent_1.increase_indent()
}

/// Appends the closing of a branch of an `if` that stands at the indentation
/// `format`.
fn close_branch(writer: &mut String, format: WasmIndentation)
    requires
        format.width() + 2 <= u32::MAX,
    ensures
        final(writer)@ == old(writer)@ + (new_line(format.width() + 2) + ")"@),
{
    let indent_1 = format.increase_indent();
    indent_1.new_line_with_indent(writer);
    writer.append(")");
    assert(writer@ =~= old(writer)@ + (new_line(format.width() + 2) + ")"@));
}

/// A branch is its opening, its instructions and its closing.
proof fn lemma_branch_text(
    before: Seq<char>,
    keyword: Seq<char>,
    block: Seq<WasmInstrView>,
    indent: nat,
)
    ensures
        before + (new_line(indent + 2) + keyword) + block_text(block, indent + 4) + (new_line(
            indent + 2,
        ) + ")"@) == before + branch_text(keyword, block, indent),
{
    assert(before + (new_line(indent + 2) + keyword) + block_text(block, indent + 4) + (new_line(
        indent + 2,
    ) + ")"@) =~= before + branch_text(keyword, block, indent));
}

/// Appends the text of an `if` from its condition on.
fn write_if(instruction: &WasmInstr, writer: &mut String, format: WasmIndentation)
    requires
        instruction is If,
        format.width() + instruction_reach(instruction.view()) <= u32::MAX,
    ensures
        instruction.view() matches WasmInstrView::If { result_type, condition, then, else_ }
            && final(writer)@ == old(writer)@ + (block_text(condition, format.width()) + if_head(
            result_type,
            format.width(),
        ) + branch_text("(then"@, then, format.width()) + (match else_ {
            Some(block) => branch_text("(else"@, block, format.width()),
            None => Seq::empty(),
        }) + ")"@),
    decreases instruction, 0nat,
{
    let ghost start = writer@;
    let ghost indent = format.width();
    match instruction {
        WasmInstr::If { result_type, condition, then, else_ } => {
            let ghost condition_text = block_text(instructions_view(condition@), indent);
            let ghost then_text = branch_text("(then"@, instructions_view(then@), indent);
            write_block(condition, writer, format);
            write_if_head(*result_type, writer, format);
            let ghost headed = writer@;
            let body_format = open_branch("(then", writer, format);
            write_block(then, writer, body_format);
            close_branch(writer, format);
            proof {
                lemma_branch_text(headed, "(then"@, instructions_view(then@), indent);
            }
            let ghost branched = writer@;
            assert(branched == headed + then_text);
            let ghost else_text = match else_ {
                Some(block) => branch_text("(else"@, instructions_view(block@), indent),
                None => Seq::empty(),
            };
            match else_ {
                Some(block) => {
                    let body_format = open_branch("(else", writer, format);
                    write_block(block, writer, body_format);
                    close_branch(writer, format);
                    proof {
                        lemma_branch_text(branched, "(else"@, instructions_view(block@), indent);
                    }
                },
                None => {
                    assert(branched + else_text =~= branched);
                },
            }
            assert(writer@ == branched + else_text);
            writer.append(")");
            assert(writer@ =~= start + (condition_text + if_head(*result_type, indent) + then_text
                + else_text + ")"@));
        },
        _ => {},
    }
}

/// Appends the text of the instruction to `writer`.
pub fn write_instruction(instruction: &WasmInstr, writer: &mut String, format: WasmIndentation)
    requires
        format.width() + instruction_reach(instruction.view()) <= u32::MAX,
    ensures
        final(writer)@ == old(writer)@ + instruction_text(instruction.view(), format.width()),
    decreases instruction, 1nat,
{
    let ghost start = writer@;
    let ghost indent = format.width();
    format.new_line_with_indent(writer);
    match instruction {
        WasmInstr::GetLocal(name) => {
            write_pair(writer, "local.get $", name.as_str());
        },
        WasmInstr::SetLocal(name) => {
            write_pair(writer, "local.set $", name.as_str());
        },
        WasmInstr::ConstI32(value) => {
            write_pair(writer, "i32.const ", decimal_string(*value as i64).as_str());
        },
        WasmInstr::ConstI64(value) => {
            write_pair(writer, "i64.const ", decimal_string(*value).as_str());
        },
        WasmInstr::ConstF32(digits) => {
            write_pair(writer, "f32.const ", digits.as_str());
        },
        WasmInstr::AddI32 => {
            writer.append("i32.add");
        },
        WasmInstr::AddI64 => {
            writer.append("i64.add");
        },
        WasmInstr::MinusI32 => {
            writer.append("i32.sub");
        },
        WasmInstr::MultiplyI32 => {
            writer.append("i32.mul");
        },
        WasmInstr::SignedDivideI32 => {
            writer.append("i32.div_s");
        },
        WasmInstr::EqualI32 => {
            writer.append("i32.eq");
        },
        WasmInstr::Call(name) => {
            write_pair(writer, "call $", name.as_str());
        },
        WasmInstr::If { .. } => {
            write_if(instruction, writer, format);
        },
    }
    assert(writer@ =~= start + instruction_text(instruction.view(), indent));
}

/// Whether no instruction of the sequence reaches deeper than `limit`.
pub fn block_within(instructions: &Vec<WasmInstr>, limit: u32) -> (ok: bool)
    ensures
        ok == (block_reach(instructions_view(instructions@)) <= limit),
    decreases instructions,
{
    let ghost all = instructions_view(instructions@);
    let mut i: usize = 0;
    proof {
        lemma_instructions_view(instructions@);
        assert(all.subrange(0, 0) =~= Seq::<WasmInstrView>::empty());
    }
    while i < instructions.len()
        invariant
            i <= instructions.len(),
            all == instructions_view(instructions@),
            all.len() == instructions.len(),
            forall|j: int| 0 <= j < all.len() ==> #[trigger] all[j] == instructions[j].view(),
            block_reach(all.subrange(0, i as int)) <= limit,
        decreases instructions.len() - i,
    {
        proof {
            lemma_block_reach(all, i as int);
            assert(all.subrange(0, i + 1).drop_last() =~= all.subrange(0, i as int));
        }
        if !instruction_within(&instructions[i], limit) {
            return false;
        }
        i += 1;
    }
    proof {
        assert(all.subrange(0, i as int) =~= all);
    }
    true
}

/// Whether the instruction reaches no deeper than `limit`.
pub fn instruction_within(instruction: &WasmInstr, limit: u32) -> (ok: bool)
    ensures
        ok == (instruction_reach(instruction.view()) <= limit),
    decreases instruction,
{
    match instruction {
        WasmInstr::If { result_type: _, condition, then, else_ } => {
            if limit < 4 || !block_within(condition, limit) || !block_within(then, limit - 4) {
                false
            } else {
                match else_ {
                    Some(block) => block_within(block, limit - 4),
                    None => true,
                }
            }
        },
        _ => true,
    }
}

impl Wasm for WasmInstr {
    open spec fn text(&self, indent: nat) -> Seq<char> {
        instruction_text(self.view(), indent)
    }

    open spec fn reach(&self) -> nat {
        instruction_reach(self.view())
    }

    fn fits(&self, format: WasmIndentation) -> (ok: bool) {
        instruction_within(self, u32::MAX - format.spaces())
    }

    fn write_text(&self, writer: &mut String, format: WasmIndentation) {
        write_instruction(self, writer, format)
    }
}

} // verus!
