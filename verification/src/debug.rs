use crate::chunk::Chunk;
use crate::chunk::ChunkView;
use crate::chunk::Constant;
use crate::chunk::ConstantView;
use crate::chunk::Op;
use crate::chunk::constants_live;
use crate::chunk::decodes;
use crate::chunk::whole;
use crate::chunk::width;
use crate::memory::Heap;
use crate::object::Obj;
use crate::scanner::ascii;
use crate::text::append;
use crate::text::append_name;
use crate::text::append_number;
use crate::text::append_str;
use crate::text::digits;
use crate::text::lemma_digits;
use crate::text::lemma_digits_injective;
use crate::text::lemma_digits_short;
use crate::text::lemma_right_aligned_injective;
use crate::text::left_aligned;
use crate::text::right_aligned;
use vstd::prelude::*;
use vstd::string::StringSliceAdditionalSpecFns;

verus! {

impl Op {
    /// The name of the opcode in a listing.
    pub open spec fn mnemonic(self) -> Seq<char> {
        match self {
            Op::Constant => "OP_CONSTANT"@,
            Op::Nil => "OP_NIL"@,
            Op::False => "OP_FALSE"@,
            Op::True => "OP_TRUE"@,
            Op::Equal => "OP_EQUAL"@,
            Op::Greater => "OP_GREATER"@,
            Op::Less => "OP_LESS"@,
            Op::Add => "OP_ADD"@,
            Op::Subtract => "OP_SUBTRACT"@,
            Op::Multiply => "OP_MULTIPLY"@,
            Op::Divide => "OP_DIVIDE"@,
            Op::Not => "OP_NOT"@,
            Op::Negate => "OP_NEGATE"@,
            Op::Return => "OP_RETURN"@,
        }
    }

    /// The name of the opcode in a listing.
    pub fn name(self) -> (name: &'static str)
        ensures
            name@ == self.mnemonic(),
            name.is_ascii(),
    {
        proof {
            reveal_strlit("OP_CONSTANT");
            reveal_strlit("OP_NIL");
            reveal_strlit("OP_FALSE");
            reveal_strlit("OP_TRUE");
            reveal_strlit("OP_EQUAL");
            reveal_strlit("OP_GREATER");
            reveal_strlit("OP_LESS");
            reveal_strlit("OP_ADD");
            reveal_strlit("OP_SUBTRACT");
            reveal_strlit("OP_MULTIPLY");
            reveal_strlit("OP_DIVIDE");
            reveal_strlit("OP_NOT");
            reveal_strlit("OP_NEGATE");
            reveal_strlit("OP_RETURN");
        }
        match self {
            Op::Constant => "OP_CONSTANT",
            Op::Nil => "OP_NIL",
            Op::False => "OP_FALSE",
            Op::True => "OP_TRUE",
            Op::Equal => "OP_EQUAL",
            Op::Greater => "OP_GREATER",
            Op::Less => "OP_LESS",
            Op::Add => "OP_ADD",
            Op::Subtract => "OP_SUBTRACT",
            Op::Multiply => "OP_MULTIPLY",
            Op::Divide => "OP_DIVIDE",
            Op::Not => "OP_NOT",
            Op::Negate => "OP_NEGATE",
            Op::Return => "OP_RETURN",
        }
    }
}

/// The column of a listing that shows the source line of an instruction: a
/// bar where the line is that of the byte before, else the line's number.
pub open spec fn line_column(lines: Seq<usize>, offset: int) -> Seq<u8> {
    if offset > 0 && lines[offset] == lines[offset - 1] {
        ascii("   | "@)
    } else {
        right_aligned(digits(lines[offset] as nat), 4, ' ' as u8) + ascii(" "@)
    }
}

/// The texts that a host has made of the numbers of a pool, by the index of
/// the constant. The entry of a constant that is no number is not read.
pub open spec fn texts(numbers: &Vec<Vec<u8>>) -> Seq<Seq<u8>> {
    Seq::new(numbers@.len(), |i: int| numbers@[i]@)
}

/// A constant as a listing shows it: a number by the text that the host
/// has made of it, a string between double quotes.
pub open spec fn constant_text(
    constant: ConstantView,
    objects: Seq<Seq<u8>>,
    number: Seq<u8>,
) -> Seq<u8> {
    match constant {
        ConstantView::Number(_) => number,
        ConstantView::String(r) => Obj::LString(r).quoted(objects),
    }
}

/// What a listing shows of the instruction itself: its name, and for a
/// `Constant` the operand and the opening quote of the constant. An
/// unknown opcode is shown by its byte.
pub open spec fn instruction_name(code: Seq<u8>, offset: int) -> Seq<u8> {
    match Op::decode(code[offset]) {
        Some(Op::Constant) => left_aligned(ascii(Op::Constant.mnemonic()), 16) + ascii(" "@)
            + right_aligned(digits(code[offset + 1] as nat), 4, ' ' as u8) + ascii(" '"@),
        Some(op) => ascii(op.mnemonic()) + ascii("\n"@),
        None => ascii("Unknown opcode: "@) + digits(code[offset] as nat) + ascii("\n"@),
    }
}

/// The line of a listing for the instruction at `offset`, up to where the
/// constant of a `Constant` is shown: the offset in four digits, the line
/// column, and the instruction.
pub open spec fn instruction_head(chunk: ChunkView, offset: int) -> Seq<u8> {
    right_aligned(digits(offset as nat), 4, '0' as u8) + ascii(" "@) + line_column(
        chunk.lines,
        offset,
    ) + instruction_name(chunk.code, offset)
}

/// The rest of the line for a `Constant`: the constant and the closing
/// quote. Other instructions have no such rest.
pub open spec fn instruction_tail(
    chunk: ChunkView,
    objects: Seq<Seq<u8>>,
    numbers: Seq<Seq<u8>>,
    offset: int,
) -> Seq<u8> {
    if Op::decode(chunk.code[offset]) == Some(Op::Constant) {
        constant_text(
            chunk.constants[chunk.code[offset + 1] as int],
            objects,
            numbers[chunk.code[offset + 1] as int],
        ) + ascii("'\n"@)
    } else {
        Seq::empty()
    }
}

/// The line of a listing for the instruction at `offset`.
pub open spec fn instruction_text(
    chunk: ChunkView,
    objects: Seq<Seq<u8>>,
    numbers: Seq<Seq<u8>>,
    offset: int,
) -> Seq<u8> {
    instruction_head(chunk, offset) + instruction_tail(chunk, objects, numbers, offset)
}

/// The lines of a listing for the instructions from `offset` on.
pub open spec fn listing(
    chunk: ChunkView,
    objects: Seq<Seq<u8>>,
    numbers: Seq<Seq<u8>>,
    offset: int,
) -> Seq<u8>
    decreases chunk.code.len() + 1 - offset,
{
    if 0 <= offset < chunk.code.len() {
        instruction_text(chunk, objects, numbers, offset) + listing(
            chunk,
            objects,
            numbers,
            offset + width(chunk.code[offset]),
        )
    } else {
        Seq::empty()
    }
}

/// The listing of a chunk under a title.
pub open spec fn disassembly(
    title: Seq<u8>,
    chunk: ChunkView,
    objects: Seq<Seq<u8>>,
    numbers: Seq<Seq<u8>>,
) -> Seq<u8> {
    ascii("== "@) + title + ascii(" ==\n"@) + listing(chunk, objects, numbers, 0)
}

/// The heads of the lines of a listing, one for each instruction from
/// `offset` on: the listing without the constants that it shows.
pub open spec fn heads(chunk: ChunkView, offset: int) -> Seq<Seq<u8>>
    decreases chunk.code.len() + 1 - offset,
{
    if 0 <= offset < chunk.code.len() {
        seq![instruction_head(chunk, offset)] + heads(chunk, offset + width(chunk.code[offset]))
    } else {
        Seq::empty()
    }
}

/// The fourth and the fifth byte of what a listing shows of an
/// instruction. They differ between any two opcodes, and between an
/// opcode and a byte that is none.
spec fn marks(op: Option<Op>) -> (u8, u8) {
    match op {
        Some(Op::Constant) => ('C' as u8, 'O' as u8),
        Some(Op::Nil) => ('N' as u8, 'I' as u8),
        Some(Op::False) => ('F' as u8, 'A' as u8),
        Some(Op::True) => ('T' as u8, 'R' as u8),
        Some(Op::Equal) => ('E' as u8, 'Q' as u8),
        Some(Op::Greater) => ('G' as u8, 'R' as u8),
        Some(Op::Less) => ('L' as u8, 'E' as u8),
        Some(Op::Add) => ('A' as u8, 'D' as u8),
        Some(Op::Subtract) => ('S' as u8, 'U' as u8),
        Some(Op::Multiply) => ('M' as u8, 'U' as u8),
        Some(Op::Divide) => ('D' as u8, 'I' as u8),
        Some(Op::Not) => ('N' as u8, 'O' as u8),
        Some(Op::Negate) => ('N' as u8, 'E' as u8),
        Some(Op::Return) => ('R' as u8, 'E' as u8),
        None => ('n' as u8, 'o' as u8),
    }
}

proof fn lemma_name_marks(code: Seq<u8>, offset: int)
    requires
        0 <= offset < code.len(),
    ensures
        instruction_name(code, offset).len() > 4,
        instruction_name(code, offset)[0] == 'O' as u8 || instruction_name(code, offset)[0]
            == 'U' as u8,
        instruction_name(code, offset)[3] == marks(Op::decode(code[offset])).0,
        instruction_name(code, offset)[4] == marks(Op::decode(code[offset])).1,
{
    reveal_strlit("OP_CONSTANT");
    reveal_strlit("OP_NIL");
    reveal_strlit("OP_FALSE");
    reveal_strlit("OP_TRUE");
    reveal_strlit("OP_EQUAL");
    reveal_strlit("OP_GREATER");
    reveal_strlit("OP_LESS");
    reveal_strlit("OP_ADD");
    reveal_strlit("OP_SUBTRACT");
    reveal_strlit("OP_MULTIPLY");
    reveal_strlit("OP_DIVIDE");
    reveal_strlit("OP_NOT");
    reveal_strlit("OP_NEGATE");
    reveal_strlit("OP_RETURN");
    reveal_strlit("Unknown opcode: ");
    reveal_strlit("\n");
    let name = instruction_name(code, offset);
    match Op::decode(code[offset]) {
        Some(Op::Constant) => {
            let padded = left_aligned(ascii(Op::Constant.mnemonic()), 16);
            assert(padded.len() == 16);
            assert(padded[0] == ascii(Op::Constant.mnemonic())[0]);
            assert(padded[3] == ascii(Op::Constant.mnemonic())[3]);
            assert(padded[4] == ascii(Op::Constant.mnemonic())[4]);
            assert(name[0] == padded[0]);
            assert(name[3] == padded[3]);
            assert(name[4] == padded[4]);
        },
        Some(op) => {
            let text = ascii(op.mnemonic());
            assert(text.len() >= 6);
            assert(name[0] == text[0]);
            assert(name[3] == text[3]);
            assert(name[4] == text[4]);
        },
        None => {
            let text = ascii("Unknown opcode: "@);
            assert(text.len() == 16);
            assert(name[0] == text[0]);
            assert(name[3] == text[3]);
            assert(name[4] == text[4]);
        },
    }
}

/// The line column holds blanks, digits and the bar, and so neither of the
/// letters with which what follows it begins.
proof fn lemma_line_column(lines: Seq<usize>, offset: int)
    ensures
        forall|i: int|
            0 <= i < line_column(lines, offset).len() ==> #[trigger] line_column(lines, offset)[i]
                != 'O' as u8 && line_column(lines, offset)[i] != 'U' as u8,
{
    reveal_strlit("   | ");
    reveal_strlit(" ");
    let column = line_column(lines, offset);
    let number = digits(lines[offset] as nat);
    lemma_digits(lines[offset] as nat);
    assert forall|i: int| 0 <= i < column.len() implies #[trigger] column[i] != 'O' as u8
        && column[i] != 'U' as u8 by {
        if !(offset > 0 && lines[offset] == lines[offset - 1]) {
            let aligned = right_aligned(number, 4, ' ' as u8);
            let fill = aligned.len() - number.len();
            if i < fill {
                assert(column[i] == ' ' as u8);
            } else if i < aligned.len() {
                assert(column[i] == number[i - fill]);
            } else {
                assert(column[i] == ' ' as u8);
            }
        }
    }
}

/// The byte that encodes an opcode is the only one that decodes to it.
proof fn lemma_decode_byte(byte: u8)
    ensures
        Op::decode(byte) matches Some(op) ==> op.byte() == byte,
{
}

/// What a listing shows of an instruction tells the opcode byte and, for
/// a `Constant`, the operand.
proof fn lemma_name_determines(a: Seq<u8>, b: Seq<u8>, offset: int)
    requires
        0 <= offset < a.len(),
        0 <= offset < b.len(),
        Op::decode(a[offset]) == Some(Op::Constant) ==> offset + 1 < a.len(),
        Op::decode(b[offset]) == Some(Op::Constant) ==> offset + 1 < b.len(),
        instruction_name(a, offset) == instruction_name(b, offset),
    ensures
        a[offset] == b[offset],
        Op::decode(a[offset]) == Some(Op::Constant) ==> a[offset + 1] == b[offset + 1],
{
    lemma_name_marks(a, offset);
    lemma_name_marks(b, offset);
    lemma_decode_byte(a[offset]);
    lemma_decode_byte(b[offset]);
    let name = instruction_name(a, offset);
    assert(Op::decode(a[offset]) == Op::decode(b[offset]));
    match Op::decode(a[offset]) {
        Some(Op::Constant) => {
            reveal_strlit("OP_CONSTANT");
            reveal_strlit(" ");
            reveal_strlit(" '");
            let x = a[offset + 1] as nat;
            let y = b[offset + 1] as nat;
            lemma_digits_short(x);
            lemma_digits_short(y);
            lemma_digits(x);
            lemma_digits(y);
            let padded = left_aligned(ascii(Op::Constant.mnemonic()), 16);
            assert(padded.len() == 16);
            assert(right_aligned(digits(x), 4, ' ' as u8).len() == 4);
            assert(right_aligned(digits(y), 4, ' ' as u8).len() == 4);
            assert(name.subrange(17, 21) =~= right_aligned(digits(x), 4, ' ' as u8));
            assert(instruction_name(b, offset).subrange(17, 21) =~= right_aligned(
                digits(y),
                4,
                ' ' as u8,
            ));
            lemma_right_aligned_injective(x, y, 4, ' ' as u8);
        },
        Some(_) => {},
        None => {
            reveal_strlit("Unknown opcode: ");
            reveal_strlit("\n");
            let x = a[offset] as nat;
            let y = b[offset] as nat;
            assert(name.subrange(16, name.len() - 1) =~= digits(x));
            assert(instruction_name(b, offset).subrange(16, name.len() - 1) =~= digits(y));
            lemma_digits_injective(x, y);
        },
    }
}

/// The head of a line of a listing tells the opcode byte of the
/// instruction and, for a `Constant`, the operand.
proof fn lemma_head_determines(a: ChunkView, b: ChunkView, offset: int)
    requires
        0 <= offset < a.code.len(),
        0 <= offset < b.code.len(),
        Op::decode(a.code[offset]) == Some(Op::Constant) ==> offset + 1 < a.code.len(),
        Op::decode(b.code[offset]) == Some(Op::Constant) ==> offset + 1 < b.code.len(),
        instruction_head(a, offset) == instruction_head(b, offset),
    ensures
        a.code[offset] == b.code[offset],
        Op::decode(a.code[offset]) == Some(Op::Constant) ==> a.code[offset + 1] == b.code[offset
            + 1],
{
    let start = right_aligned(digits(offset as nat), 4, '0' as u8) + ascii(" "@);
    let column_a = line_column(a.lines, offset);
    let column_b = line_column(b.lines, offset);
    let name_a = instruction_name(a.code, offset);
    let name_b = instruction_name(b.code, offset);
    let rest_a = column_a + name_a;
    let rest_b = column_b + name_b;
    assert(instruction_head(a, offset).skip(start.len() as int) =~= rest_a);
    assert(instruction_head(b, offset).skip(start.len() as int) =~= rest_b);
    lemma_line_column(a.lines, offset);
    lemma_line_column(b.lines, offset);
    lemma_name_marks(a.code, offset);
    lemma_name_marks(b.code, offset);
    if column_a.len() < column_b.len() {
        assert(rest_a[column_a.len() as int] == name_a[0]);
        assert(rest_b[column_a.len() as int] == column_b[column_a.len() as int]);
    } else if column_b.len() < column_a.len() {
        assert(rest_b[column_b.len() as int] == name_b[0]);
        assert(rest_a[column_b.len() as int] == column_a[column_b.len() as int]);
    }
    assert(rest_a.skip(column_a.len() as int) =~= name_a);
    assert(rest_b.skip(column_b.len() as int) =~= name_b);
    lemma_name_determines(a.code, b.code, offset);
}

proof fn lemma_heads_determine(a: ChunkView, b: ChunkView, offset: int)
    requires
        0 <= offset <= a.code.len(),
        offset <= b.code.len(),
        decodes(a.code, a.constants.len(), offset),
        decodes(b.code, b.constants.len(), offset),
        heads(a, offset) == heads(b, offset),
        a.code.take(offset) == b.code.take(offset),
    ensures
        a.code == b.code,
    decreases a.code.len() - offset,
{
    if offset < a.code.len() {
        let rest_a = heads(a, offset + width(a.code[offset]));
        assert(heads(a, offset).len() == 1 + rest_a.len());
        assert(offset < b.code.len());
        let rest_b = heads(b, offset + width(b.code[offset]));
        assert(heads(a, offset)[0] == instruction_head(a, offset));
        assert(heads(b, offset)[0] == instruction_head(b, offset));
        lemma_head_determines(a, b, offset);
        let next = offset + width(a.code[offset]);
        assert(rest_a =~= heads(a, offset).skip(1));
        assert(rest_b =~= heads(b, offset).skip(1));
        assert(a.code.take(next) =~= b.code.take(next)) by {
            assert forall|i: int| 0 <= i < next implies a.code.take(next)[i] == b.code.take(
                next,
            )[i] by {
                if i < offset {
                    assert(a.code.take(offset)[i] == b.code.take(offset)[i]);
                }
            }
        }
        lemma_heads_determine(a, b, next);
    } else {
        assert(heads(a, offset).len() == 0);
        if offset < b.code.len() {
            assert(heads(b, offset).len() == 1 + heads(
                b,
                offset + width(b.code[offset]),
            ).len());
        }
        assert(a.code =~= a.code.take(offset));
        assert(b.code =~= b.code.take(offset));
    }
}

/// A listing tells the code that it lists. If the listings of two well
/// formed chunks agree line by line in all but the constants that they
/// show, the two chunks hold the same bytes of code.
pub proof fn lemma_listing_determines_code(a: Chunk, b: Chunk)
    requires
        a.well_formed(),
        b.well_formed(),
        heads(a@, 0) == heads(b@, 0),
    ensures
        a.code@ == b.code@,
{
    assert(a@.code.take(0) =~= b@.code.take(0));
    lemma_heads_determine(a@, b@, 0);
}

impl Chunk {
    /// The listing of the chunk under the title `name`: one line for each
    /// instruction. `numbers` holds, at the index of each constant that is
    /// a number, the text by which the listing shows it.
    pub fn disassemble(&self, name: &str, heap: &Heap, numbers: &Vec<Vec<u8>>) -> (text: Vec<u8>)
        requires
            self.well_formed(),
            constants_live(self@, heap.objects().len()),
            numbers@.len() == self.constants@.len(),
        ensures
            text@ == disassembly(name.spec_bytes(), self@, heap.objects(), texts(numbers)),
    {
        let mut text: Vec<u8> = Vec::new();
        proof {
            reveal_strlit("== ");
            reveal_strlit(" ==\n");
        }
        append_str(&mut text, "== ");
        append(&mut text, name.as_bytes());
        append_str(&mut text, " ==\n");

        let ghost title = text@;
        let mut offset: usize = 0;
        while offset < self.code.len()
            invariant
                self.lines@.len() == self.code@.len(),
                constants_live(self@, heap.objects().len()),
                numbers@.len() == self.constants@.len(),
                offset <= self.code@.len(),
                decodes(self.code@, self.constants@.len(), offset as int),
                title + listing(self@, heap.objects(), texts(numbers), 0) == text@ + listing(
                    self@,
                    heap.objects(),
                    texts(numbers),
                    offset as int,
                ),
            decreases self.code@.len() - offset,
        {
            let ghost rest = listing(self@, heap.objects(), texts(numbers), offset as int);
            let ghost before = text@;
            let (line, next) = self.disassemble_instruction(offset, heap, numbers);
            append(&mut text, line.as_slice());
            assert(before + rest =~= text@ + listing(self@, heap.objects(), texts(numbers), next as int));
            offset = next;
        }
        assert(text@ + listing(self@, heap.objects(), texts(numbers), offset as int) =~= text@);
        text
    }

    /// The line of a listing for the instruction at `offset`, and the
    /// offset of the instruction behind it. `numbers` is as for
    /// [`Chunk::disassemble`].
    pub fn disassemble_instruction(
        &self,
        offset: usize,
        heap: &Heap,
        numbers: &Vec<Vec<u8>>,
    ) -> (listed: (Vec<u8>, usize))
        requires
            self.lines@.len() == self.code@.len(),
            whole(self.code@, self.constants@.len(), offset as int),
            constants_live(self@, heap.objects().len()),
            numbers@.len() == self.constants@.len(),
        ensures
            listed.0@ == instruction_text(self@, heap.objects(), texts(numbers), offset as int),
            listed.1 == offset + width(self.code@[offset as int]),
    {
        let mut text: Vec<u8> = Vec::new();
        append_number(&mut text, offset, 4, '0' as u8);
        assert(text@ =~= right_aligned(digits(offset as nat), 4, '0' as u8));
        proof {
            reveal_strlit(" ");
        }
        append_str(&mut text, " ");
        line_info(self, offset, &mut text);

        assert(self.code.len() == self.code@.len());
        let instruction = self.code[offset];
        let next = match Op::from_u8(instruction) {
            Some(Op::Constant) => constant_instruction(
                Op::Constant.name(),
                self,
                offset,
                heap,
                numbers,
                &mut text,
            ),
            Some(op) => {
                let next = simple_instruction(op.name(), offset, &mut text);
                assert(text@ =~= instruction_text(self@, heap.objects(), texts(numbers), offset as int));
                next
            },
            None => {
                let next = unknown_instruction(instruction, offset, &mut text);
                assert(text@ =~= instruction_text(self@, heap.objects(), texts(numbers), offset as int));
                next
            },
        };
        (text, next)
    }
}

/// Lists the source line of the instruction at `offset`.
fn line_info(chunk: &Chunk, offset: usize, text: &mut Vec<u8>)
    requires
        chunk.lines@.len() == chunk.code@.len(),
        offset < chunk.code@.len(),
    ensures
        final(text)@ == old(text)@ + line_column(chunk.lines@, offset as int),
{
    proof {
        reveal_strlit(" ");
        reveal_strlit("   | ");
    }
    if offset > 0 && chunk.lines[offset] == chunk.lines[offset - 1] {
        append_str(text, "   | ");
    } else {
        append_number(text, chunk.lines[offset], 4, ' ' as u8);
        append_str(text, " ");
        assert(text@ =~= old(text)@ + line_column(chunk.lines@, offset as int));
    }
}

/// Lists an instruction that has no operand.
fn simple_instruction(name: &str, offset: usize, text: &mut Vec<u8>) -> (next: usize)
    requires
        name.is_ascii(),
        offset < usize::MAX,
    ensures
        final(text)@ == old(text)@ + (ascii(name@) + ascii("\n"@)),
        next == offset + 1,
{
    proof {
        reveal_strlit("\n");
    }
    append_str(text, name);
    append_str(text, "\n");
    assert(text@ =~= old(text)@ + (ascii(name@) + ascii("\n"@)));
    offset + 1
}

/// Lists a byte that is no opcode.
fn unknown_instruction(byte: u8, offset: usize, text: &mut Vec<u8>) -> (next: usize)
    requires
        offset < usize::MAX,
    ensures
        final(text)@ == old(text)@ + (ascii("Unknown opcode: "@) + digits(byte as nat) + ascii(
            "\n"@,
        )),
        next == offset + 1,
{
    proof {
        reveal_strlit("\n");
        reveal_strlit("Unknown opcode: ");
    }
    append_str(text, "Unknown opcode: ");
    append_number(text, byte as usize, 0, ' ' as u8);
    append_str(text, "\n");
    assert(right_aligned(digits(byte as nat), 0, ' ' as u8) =~= digits(byte as nat));
    assert(text@ =~= old(text)@ + (ascii("Unknown opcode: "@) + digits(byte as nat) + ascii(
        "\n"@,
    )));
    offset + 1
}

/// Lists an instruction whose operand names a constant.
fn constant_instruction(
    name: &str,
    chunk: &Chunk,
    offset: usize,
    heap: &Heap,
    numbers: &Vec<Vec<u8>>,
    text: &mut Vec<u8>,
) -> (next: usize)
    requires
        name.is_ascii(),
        name@ == Op::Constant.mnemonic(),
        whole(chunk.code@, chunk.constants@.len(), offset as int),
        Op::decode(chunk.code@[offset as int]) == Some(Op::Constant),
        constants_live(chunk@, heap.objects().len()),
        numbers@.len() == chunk.constants@.len(),
    ensures
        final(text)@ == old(text)@ + instruction_name(chunk.code@, offset as int)
            + instruction_tail(chunk@, heap.objects(), texts(numbers), offset as int),
        next == offset + 2,
{
    proof {
        reveal_strlit(" ");
        reveal_strlit(" '");
        reveal_strlit("'\n");
    }
    assert(chunk.code.len() == chunk.code@.len());
    let constant = chunk.code[offset + 1];

    append_name(text, name, 16);
    append_str(text, " ");
    append_number(text, constant as usize, 4, ' ' as u8);
    append_str(text, " '");
    assert(text@ =~= old(text)@ + instruction_name(chunk.code@, offset as int));
    let ghost head = text@;
    assert(chunk@.constants[constant as int] == chunk.constants@[constant as int]@);
    match &chunk.constants[constant as usize] {
        Constant::Number(_) => {
            append(text, numbers[constant as usize].as_slice());
        },
        Constant::String(r) => {
            let shown = Obj::LString(*r).print_obj(heap);
            append(text, shown.as_slice());
        },
    }
    append_str(text, "'\n");
    assert(text@ =~= head + instruction_tail(chunk@, heap.objects(), texts(numbers), offset as int));

    offset + 2
}

} // verus!
