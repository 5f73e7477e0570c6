use crate::memory::Ref;
use crate::value::Kind;
use vstd::prelude::*;

verus! {

/// The instructions of the machine. An opcode's byte is its place in this
/// list, counted from zero.
#[derive(Clone, Copy, PartialEq, Eq, Structural, Debug)]
pub enum Op {
    Constant,
    Nil,
    False,
    True,
    Equal,
    Greater,
    Less,
    Add,
    Subtract,
    Multiply,
    Divide,
    Not,
    Negate,
    Return,
}

impl Op {
    /// The byte that encodes the opcode.
    pub open spec fn byte(self) -> u8 {
        match self {
            Op::Constant => 0,
            Op::Nil => 1,
            Op::False => 2,
            Op::True => 3,
            Op::Equal => 4,
            Op::Greater => 5,
            Op::Less => 6,
            Op::Add => 7,
            Op::Subtract => 8,
            Op::Multiply => 9,
            Op::Divide => 10,
            Op::Not => 11,
            Op::Negate => 12,
            Op::Return => 13,
        }
    }

    /// The opcode that a byte encodes, if it encodes one.
    pub open spec fn decode(byte: u8) -> Option<Op> {
        if byte == 0 {
            Some(Op::Constant)
        } else if byte == 1 {
            Some(Op::Nil)
        } else if byte == 2 {
            Some(Op::False)
        } else if byte == 3 {
            Some(Op::True)
        } else if byte == 4 {
            Some(Op::Equal)
        } else if byte == 5 {
            Some(Op::Greater)
        } else if byte == 6 {
            Some(Op::Less)
        } else if byte == 7 {
            Some(Op::Add)
        } else if byte == 8 {
            Some(Op::Subtract)
        } else if byte == 9 {
            Some(Op::Multiply)
        } else if byte == 10 {
            Some(Op::Divide)
        } else if byte == 11 {
            Some(Op::Not)
        } else if byte == 12 {
            Some(Op::Negate)
        } else if byte == 13 {
            Some(Op::Return)
        } else {
            None
        }
    }

    /// How many values the instruction takes from the stack. Every
    /// instruction but `Return` then leaves one value there.
    pub open spec fn pops(self) -> nat {
        match self {
            Op::Constant | Op::Nil | Op::False | Op::True => 0,
            Op::Not | Op::Negate | Op::Return => 1,
            _ => 2,
        }
    }

    pub fn to_u8(self) -> (byte: u8)
        ensures
            byte == self.byte(),
            byte <= 13,
            Op::decode(byte) == Some(self),
    {
        match self {
            Op::Constant => 0,
            Op::Nil => 1,
            Op::False => 2,
            Op::True => 3,
            Op::Equal => 4,
            Op::Greater => 5,
            Op::Less => 6,
            Op::Add => 7,
            Op::Subtract => 8,
            Op::Multiply => 9,
            Op::Divide => 10,
            Op::Not => 11,
            Op::Negate => 12,
            Op::Return => 13,
        }
    }

    pub fn from_u8(byte: u8) -> (op: Option<Op>)
        ensures
            op == Op::decode(byte),
            op matches Some(o) ==> o.byte() == byte,
            op is None <==> byte > 13,
    {
        match byte {
            0 => Some(Op::Constant),
            1 => Some(Op::Nil),
            2 => Some(Op::False),
            3 => Some(Op::True),
            4 => Some(Op::Equal),
            5 => Some(Op::Greater),
            6 => Some(Op::Less),
            7 => Some(Op::Add),
            8 => Some(Op::Subtract),
            9 => Some(Op::Multiply),
            10 => Some(Op::Divide),
            11 => Some(Op::Not),
            12 => Some(Op::Negate),
            13 => Some(Op::Return),
            _ => None,
        }
    }
}

/// An entry of a chunk's constant pool.
///
/// A number is kept as the text of its literal: digits, and optionally a
/// point and more digits. The host of the machine converts it when the
/// constant is loaded.
#[derive(Debug)]
pub enum Constant {
    Number(Vec<u8>),
    String(Ref),
}

/// What a [`Constant`] holds.
pub enum ConstantView {
    Number(Seq<u8>),
    String(Ref),
}

impl ConstantView {
    /// The kind of the value that the constant loads.
    pub open spec fn kind(self) -> Kind {
        match self {
            ConstantView::Number(_) => Kind::Number,
            ConstantView::String(_) => Kind::Object,
        }
    }
}

impl View for Constant {
    type V = ConstantView;

    open spec fn view(&self) -> ConstantView {
        match self {
            Constant::Number(text) => ConstantView::Number(text@),
            Constant::String(r) => ConstantView::String(*r),
        }
    }
}

/// A compiled unit: the bytecode, the source line of each of its bytes, and
/// the constants that it refers to.
pub struct Chunk {
    pub code: Vec<u8>,
    pub lines: Vec<usize>,
    pub constants: Vec<Constant>,
}

/// What a [`Chunk`] holds.
pub struct ChunkView {
    pub code: Seq<u8>,
    pub lines: Seq<usize>,
    pub constants: Seq<ConstantView>,
}

impl View for Chunk {
    type V = ChunkView;

    open spec fn view(&self) -> ChunkView {
        ChunkView {
            code: self.code@,
            lines: self.lines@,
            constants: Seq::new(self.constants@.len(), |i: int| self.constants@[i]@),
        }
    }
}

/// Every string constant of the chunk is a handle into a heap of `live`
/// strings.
pub open spec fn constants_live(chunk: ChunkView, live: nat) -> bool {
    forall|i: int|
        0 <= i < chunk.constants.len() ==> (#[trigger] chunk.constants[i] matches ConstantView::String(
            r,
        ) ==> r.index < live)
}

/// The number of bytes of the instruction whose opcode byte is `byte`: two
/// for a `Constant`, which has an operand, and one for any other.
pub open spec fn width(byte: u8) -> int {
    if Op::decode(byte) == Some(Op::Constant) {
        2
    } else {
        1
    }
}

/// The instruction at `offset` can be read: `offset` lies in the code, and
/// if a `Constant` stands there, its operand follows and names one of the
/// `pool` constants.
pub open spec fn whole(code: Seq<u8>, pool: nat, offset: int) -> bool {
    &&& 0 <= offset < code.len()
    &&& Op::decode(code[offset]) == Some(Op::Constant) ==> offset + 1 < code.len() && code[offset
        + 1] < pool
}

/// Every instruction of `code` from offset `at` on is whole, has a known
/// opcode, and, where it names a constant, names one of the first `pool`.
pub open spec fn decodes(code: Seq<u8>, pool: nat, at: int) -> bool
    decreases code.len() - at,
{
    if at >= code.len() {
        at == code.len()
    } else {
        match Op::decode(code[at]) {
            None => false,
            Some(Op::Constant) => at + 1 < code.len() && code[at + 1] < pool && decodes(
                code,
                pool,
                at + 2,
            ),
            Some(_) => decodes(code, pool, at + 1),
        }
    }
}

/// The height of the stack when execution, begun at `ip` on a stack of
/// `depth` values, arrives at the end of `code`. There is none if on the way
/// an instruction is broken, finds too few values, or is a `Return`.
pub open spec fn depth_at_end(code: Seq<u8>, pool: nat, ip: int, depth: nat) -> Option<nat>
    decreases code.len() - ip,
{
    if ip >= code.len() {
        if ip == code.len() {
            Some(depth)
        } else {
            None
        }
    } else {
        match Op::decode(code[ip]) {
            None => None,
            Some(Op::Return) => None,
            Some(Op::Constant) => if ip + 1 < code.len() && code[ip + 1] < pool {
                depth_at_end(code, pool, ip + 2, depth + 1)
            } else {
                None
            },
            Some(op) => if depth >= op.pops() {
                depth_at_end(code, pool, ip + 1, (depth - op.pops() + 1) as nat)
            } else {
                None
            },
        }
    }
}

/// Execution, begun at `ip` on a stack of `depth` values, arrives at a
/// `Return` that finds a value to return, and on the way every instruction
/// is whole, known, finds its operands on the stack and its constant in the
/// first `pool`.
pub open spec fn runnable(code: Seq<u8>, pool: nat, ip: int, depth: nat) -> bool
    decreases code.len() - ip,
{
    if ip < 0 || ip >= code.len() {
        false
    } else {
        match Op::decode(code[ip]) {
            None => false,
            Some(Op::Return) => depth >= 1,
            Some(Op::Constant) => ip + 1 < code.len() && code[ip + 1] < pool && runnable(
                code,
                pool,
                ip + 2,
                depth + 1,
            ),
            Some(op) => depth >= op.pops() && runnable(
                code,
                pool,
                ip + 1,
                (depth - op.pops() + 1) as nat,
            ),
        }
    }
}

/// The two topmost kinds are both `kind`.
pub open spec fn both(kinds: Seq<Kind>, kind: Kind) -> bool {
    kinds[kinds.len() - 2] == kind && kinds[kinds.len() - 1] == kind
}

/// The kinds without the `n` topmost, and `kind` on top of them.
pub open spec fn replaced(kinds: Seq<Kind>, n: int, kind: Kind) -> Seq<Kind> {
    kinds.take(kinds.len() - n).push(kind)
}

/// Execution, begun at `ip` on a stack of values of these kinds, never
/// goes wrong: every instruction that it reaches is whole and known and
/// finds its operands on the stack and its constant in the pool, and it
/// ends at a `Return` that finds a value to return, or in a type error.
///
/// This follows the values by their kinds, which is all that the machine
/// asks of them. It is weaker than [`runnable`], which counts the values
/// and so asks for the operands of instructions that a type error keeps
/// the machine from reaching.
pub open spec fn safe(chunk: ChunkView, ip: int, kinds: Seq<Kind>) -> bool
    decreases chunk.code.len() - ip,
{
    if ip < 0 || ip >= chunk.code.len() {
        false
    } else {
        let next = ip + 1;
        match Op::decode(chunk.code[ip]) {
            None => false,
            Some(Op::Constant) => ip + 1 < chunk.code.len() && chunk.code[ip + 1]
                < chunk.constants.len() && safe(
                chunk,
                ip + 2,
                kinds.push(chunk.constants[chunk.code[ip + 1] as int].kind()),
            ),
            Some(Op::Nil) => safe(chunk, next, kinds.push(Kind::Nil)),
            Some(Op::False) | Some(Op::True) => safe(chunk, next, kinds.push(Kind::Bool)),
            Some(Op::Return) => kinds.len() >= 1,
            Some(Op::Not) => kinds.len() >= 1 && safe(chunk, next, replaced(kinds, 1, Kind::Bool)),
            Some(Op::Negate) => kinds.len() >= 1 && (kinds[kinds.len() - 1] == Kind::Number
                ==> safe(chunk, next, replaced(kinds, 1, Kind::Number))),
            Some(Op::Equal) => kinds.len() >= 2 && safe(
                chunk,
                next,
                replaced(kinds, 2, Kind::Bool),
            ),
            Some(Op::Greater) | Some(Op::Less) => kinds.len() >= 2 && (both(kinds, Kind::Number)
                ==> safe(chunk, next, replaced(kinds, 2, Kind::Bool))),
            Some(Op::Add) => kinds.len() >= 2 && (both(kinds, Kind::Number) ==> safe(
                chunk,
                next,
                replaced(kinds, 2, Kind::Number),
            )) && (both(kinds, Kind::Object) ==> safe(
                chunk,
                next,
                replaced(kinds, 2, Kind::Object),
            )),
            Some(_) => kinds.len() >= 2 && (both(kinds, Kind::Number) ==> safe(
                chunk,
                next,
                replaced(kinds, 2, Kind::Number),
            )),
        }
    }
}

/// Code that can be run by the count of its values never goes wrong.
pub proof fn lemma_runnable_safe(chunk: ChunkView, ip: int, kinds: Seq<Kind>)
    requires
        runnable(chunk.code, chunk.constants.len(), ip, kinds.len()),
    ensures
        safe(chunk, ip, kinds),
    decreases chunk.code.len() - ip,
{
    let next = ip + 1;
    match Op::decode(chunk.code[ip]) {
        None => {},
        Some(Op::Constant) => {
            lemma_runnable_safe(
                chunk,
                ip + 2,
                kinds.push(chunk.constants[chunk.code[ip + 1] as int].kind()),
            );
        },
        Some(Op::Nil) => {
            lemma_runnable_safe(chunk, next, kinds.push(Kind::Nil));
        },
        Some(Op::False) | Some(Op::True) => {
            lemma_runnable_safe(chunk, next, kinds.push(Kind::Bool));
        },
        Some(Op::Return) => {},
        Some(Op::Not) => {
            lemma_runnable_safe(chunk, next, replaced(kinds, 1, Kind::Bool));
        },
        Some(Op::Negate) => {
            lemma_runnable_safe(chunk, next, replaced(kinds, 1, Kind::Number));
        },
        Some(Op::Equal) | Some(Op::Greater) | Some(Op::Less) => {
            lemma_runnable_safe(chunk, next, replaced(kinds, 2, Kind::Bool));
        },
        Some(_) => {
            lemma_runnable_safe(chunk, next, replaced(kinds, 2, Kind::Number));
            lemma_runnable_safe(chunk, next, replaced(kinds, 2, Kind::Object));
        },
    }
}

/// Appending an instruction without operand keeps code decodable.
pub proof fn lemma_decodes_push(code: Seq<u8>, pool: nat, at: int, op: Op)
    requires
        0 <= at <= code.len(),
        decodes(code, pool, at),
        op != Op::Constant,
    ensures
        decodes(code.push(op.byte()), pool, at),
    decreases code.len() - at,
{
    let longer = code.push(op.byte());
    if at < code.len() {
        assert(longer[at] == code[at]);
        if Op::decode(code[at]) == Some(Op::Constant) {
            assert(longer[at + 1] == code[at + 1]);
            lemma_decodes_push(code, pool, at + 2, op);
        } else {
            lemma_decodes_push(code, pool, at + 1, op);
        }
    } else {
        assert(decodes(longer, pool, at + 1));
    }
}

/// Appending a `Constant` instruction whose operand is in the pool keeps
/// code decodable.
pub proof fn lemma_decodes_push_constant(code: Seq<u8>, pool: nat, at: int, index: u8)
    requires
        0 <= at <= code.len(),
        decodes(code, pool, at),
        index < pool,
    ensures
        decodes(code.push(Op::Constant.byte()).push(index), pool, at),
    decreases code.len() - at,
{
    let longer = code.push(Op::Constant.byte()).push(index);
    if at < code.len() {
        assert(longer[at] == code[at]);
        if Op::decode(code[at]) == Some(Op::Constant) {
            assert(longer[at + 1] == code[at + 1]);
            lemma_decodes_push_constant(code, pool, at + 2, index);
        } else {
            lemma_decodes_push_constant(code, pool, at + 1, index);
        }
    } else {
        assert(decodes(longer, pool, at + 2));
    }
}

/// Decodable code stays decodable when the pool grows.
pub proof fn lemma_decodes_pool(code: Seq<u8>, pool: nat, larger: nat, at: int)
    requires
        0 <= at,
        decodes(code, pool, at),
        pool <= larger,
    ensures
        decodes(code, larger, at),
    decreases code.len() - at,
{
    if at < code.len() {
        if Op::decode(code[at]) == Some(Op::Constant) {
            lemma_decodes_pool(code, pool, larger, at + 2);
        } else {
            lemma_decodes_pool(code, pool, larger, at + 1);
        }
    }
}

/// Appending an instruction without operand that finds its operands changes
/// the final stack height by the instruction's effect.
pub proof fn lemma_depth_push(code: Seq<u8>, pool: nat, ip: int, depth: nat, op: Op)
    requires
        0 <= ip <= code.len(),
        depth_at_end(code, pool, ip, depth) is Some,
        op != Op::Constant,
        op != Op::Return,
        depth_at_end(code, pool, ip, depth).unwrap() >= op.pops(),
    ensures
        depth_at_end(code.push(op.byte()), pool, ip, depth) == Some(
            (depth_at_end(code, pool, ip, depth).unwrap() - op.pops() + 1) as nat,
        ),
    decreases code.len() - ip,
{
    let longer = code.push(op.byte());
    if ip < code.len() {
        assert(longer[ip] == code[ip]);
        let here = Op::decode(code[ip]).unwrap();
        if here == Op::Constant {
            assert(longer[ip + 1] == code[ip + 1]);
            lemma_depth_push(code, pool, ip + 2, depth + 1, op);
        } else {
            lemma_depth_push(code, pool, ip + 1, (depth - here.pops() + 1) as nat, op);
        }
    } else {
        assert(depth_at_end(longer, pool, ip + 1, (depth - op.pops() + 1) as nat) == Some(
            (depth - op.pops() + 1) as nat,
        ));
    }
}

/// Appending a `Constant` instruction whose operand is in the pool raises
/// the final stack height by one.
pub proof fn lemma_depth_push_constant(code: Seq<u8>, pool: nat, ip: int, depth: nat, index: u8)
    requires
        0 <= ip <= code.len(),
        depth_at_end(code, pool, ip, depth) is Some,
        index < pool,
    ensures
        depth_at_end(code.push(Op::Constant.byte()).push(index), pool, ip, depth) == Some(
            depth_at_end(code, pool, ip, depth).unwrap() + 1,
        ),
    decreases code.len() - ip,
{
    let longer = code.push(Op::Constant.byte()).push(index);
    if ip < code.len() {
        assert(longer[ip] == code[ip]);
        let here = Op::decode(code[ip]).unwrap();
        if here == Op::Constant {
            assert(longer[ip + 1] == code[ip + 1]);
            lemma_depth_push_constant(code, pool, ip + 2, depth + 1, index);
        } else {
            lemma_depth_push_constant(
                code,
                pool,
                ip + 1,
                (depth - here.pops() + 1) as nat,
                index,
            );
        }
    } else {
        assert(depth_at_end(longer, pool, ip + 2, depth + 1) == Some(depth + 1));
    }
}

/// The final stack height does not depend on constants beyond those named.
pub proof fn lemma_depth_pool(code: Seq<u8>, pool: nat, larger: nat, ip: int, depth: nat)
    requires
        0 <= ip,
        depth_at_end(code, pool, ip, depth) is Some,
        pool <= larger,
    ensures
        depth_at_end(code, larger, ip, depth) == depth_at_end(code, pool, ip, depth),
    decreases code.len() - ip,
{
    if ip < code.len() {
        let here = Op::decode(code[ip]).unwrap();
        if here == Op::Constant {
            lemma_depth_pool(code, pool, larger, ip + 2, depth + 1);
        } else {
            lemma_depth_pool(code, pool, larger, ip + 1, (depth - here.pops() + 1) as nat);
        }
    }
}

/// Code that leaves at least one value at its end can be run once a
/// `Return` is appended.
pub proof fn lemma_runnable_push_return(code: Seq<u8>, pool: nat, ip: int, depth: nat)
    requires
        0 <= ip <= code.len(),
        depth_at_end(code, pool, ip, depth) is Some,
        depth_at_end(code, pool, ip, depth).unwrap() >= 1,
    ensures
        runnable(code.push(Op::Return.byte()), pool, ip, depth),
    decreases code.len() - ip,
{
    let longer = code.push(Op::Return.byte());
    if ip < code.len() {
        assert(longer[ip] == code[ip]);
        let here = Op::decode(code[ip]).unwrap();
        if here == Op::Constant {
            assert(longer[ip + 1] == code[ip + 1]);
            lemma_runnable_push_return(code, pool, ip + 2, depth + 1);
        } else {
            lemma_runnable_push_return(code, pool, ip + 1, (depth - here.pops() + 1) as nat);
        }
    }
}

impl Chunk {
    /// The invariant of a chunk: every byte of code has its line, every
    /// instruction is whole and known, and every constant operand names a
    /// constant of the pool.
    pub open spec fn well_formed(&self) -> bool {
        &&& self.lines@.len() == self.code@.len()
        &&& decodes(self.code@, self.constants@.len(), 0)
    }

    pub fn new() -> (chunk: Chunk)
        ensures
            chunk.code@ == Seq::<u8>::empty(),
            chunk.lines@ == Seq::<usize>::empty(),
            chunk.constants@ == Seq::<Constant>::empty(),
            chunk.well_formed(),
    {
        Chunk { code: Vec::new(), lines: Vec::new(), constants: Vec::new() }
    }

    /// Appends one byte of code, emitted for source line `line`.
    pub fn write(&mut self, byte: u8, line: usize)
        ensures
            final(self).code@ == old(self).code@.push(byte),
            final(self).lines@ == old(self).lines@.push(line),
            final(self).constants == old(self).constants,
    {
        self.code.push(byte);
        self.lines.push(line);
    }

    /// Appends the byte of an opcode, emitted for source line `line`.
    pub fn write_op(&mut self, op: Op, line: usize)
        ensures
            final(self).code@ == old(self).code@.push(op.byte()),
            final(self).lines@ == old(self).lines@.push(line),
            final(self).constants == old(self).constants,
    {
        self.write(op.to_u8(), line);
    }

    /// Whether the chunk is well formed: see [`Chunk::well_formed`].
    pub fn is_well_formed(&self) -> (ok: bool)
        ensures
            ok == self.well_formed(),
    {
        if self.lines.len() != self.code.len() {
            return false;
        }
        let mut at: usize = 0;
        while at < self.code.len()
            invariant
                at <= self.code@.len(),
                decodes(self.code@, self.constants@.len(), 0) == decodes(
                    self.code@,
                    self.constants@.len(),
                    at as int,
                ),
            decreases self.code@.len() - at,
        {
            match Op::from_u8(self.code[at]) {
                None => {
                    return false;
                },
                Some(Op::Constant) => {
                    if at + 1 >= self.code.len() {
                        return false;
                    }
                    let index: usize = self.code[at + 1] as usize;
                    if index >= self.constants.len() {
                        return false;
                    }
                    at += 2;
                },
                Some(_) => {
                    at += 1;
                },
            }
        }
        true
    }

    /// Whether every string constant is a handle into a heap of `live`
    /// strings.
    pub fn constants_within(&self, live: usize) -> (ok: bool)
        ensures
            ok == constants_live(self@, live as nat),
    {
        let mut i: usize = 0;
        while i < self.constants.len()
            invariant
                i <= self.constants@.len(),
                forall|j: int|
                    0 <= j < i ==> (#[trigger] self@.constants[j] matches ConstantView::String(r)
                        ==> r.index < live),
            decreases self.constants@.len() - i,
        {
            match &self.constants[i] {
                Constant::String(r) => {
                    if r.index >= live {
                        assert(self@.constants[i as int] == ConstantView::String(*r));
                        return false;
                    }
                },
                Constant::Number(_) => {},
            }
            i += 1;
        }
        true
    }

    /// The height of the stack that the code leaves when it is run from its
    /// first byte on an empty stack to its end, if it can be run so: see
    /// [`depth_at_end`].
    pub fn runs_to_end(&self) -> (height: Option<usize>)
        ensures
            match height {
                Some(h) => depth_at_end(self.code@, self.constants@.len(), 0, 0) == Some(h as nat),
                None => depth_at_end(self.code@, self.constants@.len(), 0, 0) is None,
            },
    {
        let mut ip: usize = 0;
        let mut depth: usize = 0;
        while ip < self.code.len()
            invariant
                ip <= self.code@.len(),
                depth <= ip,
                depth_at_end(self.code@, self.constants@.len(), 0, 0) == depth_at_end(
                    self.code@,
                    self.constants@.len(),
                    ip as int,
                    depth as nat,
                ),
            decreases self.code@.len() - ip,
        {
            match Op::from_u8(self.code[ip]) {
                None => {
                    return None;
                },
                Some(Op::Return) => {
                    return None;
                },
                Some(Op::Constant) => {
                    if ip + 1 >= self.code.len() {
                        return None;
                    }
                    let index: usize = self.code[ip + 1] as usize;
                    if index >= self.constants.len() {
                        return None;
                    }
                    ip += 2;
                    depth += 1;
                },
                Some(Op::Not) | Some(Op::Negate) => {
                    if depth < 1 {
                        return None;
                    }
                    ip += 1;
                },
                Some(Op::Nil) | Some(Op::False) | Some(Op::True) => {
                    ip += 1;
                    depth += 1;
                },
                Some(_) => {
                    if depth < 2 {
                        return None;
                    }
                    ip += 1;
                    depth -= 1;
                },
            }
        }
        Some(depth)
    }

    /// Whether the chunk can be run from its first byte on an empty stack
    /// without going wrong: see [`safe`].
    pub fn can_run(&self) -> (ok: bool)
        ensures
            ok == (self.lines@.len() == self.code@.len() && safe(self@, 0, Seq::empty())),
    {
        if self.lines.len() != self.code.len() {
            return false;
        }
        let mut ip: usize = 0;
        let mut kinds: Vec<Kind> = Vec::new();
        while ip < self.code.len()
            invariant
                self.lines@.len() == self.code@.len(),
                ip <= self.code@.len(),
                safe(self@, 0, Seq::empty()) == safe(self@, ip as int, kinds@),
            decreases self.code@.len() - ip,
        {
            let ghost before = kinds@;
            let n = kinds.len();
            match Op::from_u8(self.code[ip]) {
                None => {
                    return false;
                },
                Some(Op::Return) => {
                    return n >= 1;
                },
                Some(Op::Constant) => {
                    if ip + 1 >= self.code.len() {
                        return false;
                    }
                    let index: usize = self.code[ip + 1] as usize;
                    if index >= self.constants.len() {
                        return false;
                    }
                    assert(self@.constants[index as int] == self.constants@[index as int]@);
                    match &self.constants[index] {
                        Constant::Number(_) => kinds.push(Kind::Number),
                        Constant::String(_) => kinds.push(Kind::Object),
                    }
                    ip += 1;
                },
                Some(Op::Nil) => {
                    kinds.push(Kind::Nil);
                },
                Some(Op::False) | Some(Op::True) => {
                    kinds.push(Kind::Bool);
                },
                Some(Op::Not) => {
                    if n < 1 {
                        return false;
                    }
                    kinds.pop();
                    kinds.push(Kind::Bool);
                    assert(kinds@ =~= replaced(before, 1, Kind::Bool));
                },
                Some(Op::Negate) => {
                    if n < 1 {
                        return false;
                    }
                    if kinds[n - 1] != Kind::Number {
                        return true;
                    }
                    assert(kinds@ =~= replaced(before, 1, Kind::Number));
                },
                Some(Op::Equal) => {
                    if n < 2 {
                        return false;
                    }
                    kinds.pop();
                    kinds.pop();
                    kinds.push(Kind::Bool);
                    assert(kinds@ =~= replaced(before, 2, Kind::Bool));
                },
                Some(Op::Greater) | Some(Op::Less) => {
                    if n < 2 {
                        return false;
                    }
                    if kinds[n - 2] != Kind::Number || kinds[n - 1] != Kind::Number {
                        return true;
                    }
                    kinds.pop();
                    kinds.pop();
                    kinds.push(Kind::Bool);
                    assert(kinds@ =~= replaced(before, 2, Kind::Bool));
                },
                Some(Op::Add) => {
                    if n < 2 {
                        return false;
                    }
                    let kind = kinds[n - 1];
                    if kinds[n - 2] != kind || (kind != Kind::Number && kind != Kind::Object) {
                        return true;
                    }
                    kinds.pop();
                    assert(kinds@ =~= replaced(before, 2, kind));
                },
                Some(_) => {
                    if n < 2 {
                        return false;
                    }
                    if kinds[n - 2] != Kind::Number || kinds[n - 1] != Kind::Number {
                        return true;
                    }
                    kinds.pop();
                    assert(kinds@ =~= replaced(before, 2, Kind::Number));
                },
            }
            ip += 1;
        }
        false
    }

    /// Appends a constant to the pool and returns its index there. The pool
    /// may grow beyond what one operand byte can name: the caller checks.
    pub fn add_constant(&mut self, constant: Constant) -> (index: usize)
        ensures
            index == old(self).constants@.len(),
            final(self).constants@ == old(self).constants@.push(constant),
            final(self).code == old(self).code,
            final(self).lines == old(self).lines,
    {
        self.constants.push(constant);
        self.constants.len() - 1
    }
}

} // verus!
