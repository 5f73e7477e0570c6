use crate::chunk::Chunk;
use crate::chunk::ChunkView;
use crate::chunk::Constant;
use crate::chunk::ConstantView;
use crate::chunk::Op;
use crate::chunk::constants_live;
use crate::chunk::both;
use crate::chunk::lemma_runnable_safe;
use crate::chunk::replaced;
use crate::chunk::safe;
use crate::compiler::Compiler;
use crate::compiler::Diagnostic;
use crate::compiler::compiled;
use crate::compiler::fresh_compiler;
use crate::memory::Heap;
use crate::memory::Ref;
use crate::memory::joined;
use crate::object::Obj;
use crate::value::Kind;
use crate::value::Value;
use crate::value::falsey;
use crate::value::is_falsey;
use crate::value::kinds_of;
use crate::value::less_number;
use crate::value::negate_number;
use crate::value::negated;
use crate::value::number_less;
use crate::value::values_equal;
use crate::scanner::ascii;
use crate::text::append_number;
use crate::text::append_str;
use crate::text::digits;
use vstd::prelude::*;
use vstd::utf8::encode_utf8;

verus! {

/// The room that a new machine reserves for its stack. The stack grows
/// beyond it when a program needs more.
pub const STACK_MAX: usize = 256;

/// How the interpretation of a program ended.
#[derive(Clone, Copy, PartialEq, Eq, Structural, Debug)]
pub enum InterpretResult {
    Success,
    CompileError,
    RuntimeError,
}

/// The arithmetic that the machine leaves to its host.
#[derive(Clone, Copy, PartialEq, Eq, Structural, Debug)]
pub enum Arith {
    Add,
    Subtract,
    Multiply,
    Divide,
}

/// The type errors that end a run.
#[derive(Clone, Copy, PartialEq, Eq, Structural, Debug)]
pub enum RuntimeError {
    OperandMustBeNumber,
    OperandsMustBeNumbers,
    OperandsMustBeNumbersOrStrings,
}

/// What the machine asks of its host when it stops in mid-run. The host
/// answers with the bit pattern of a binary64 value, through
/// [`VM::resume`].
#[derive(Clone, Copy, Debug)]
pub enum Pause {
    /// The value of the numeric literal that is constant `constant` of the
    /// chunk.
    Literal { constant: u8 },
    /// The result of `a op b`, both given by their bit patterns.
    Arithmetic { op: Arith, a: u64, b: u64 },
}

/// Why the machine stopped.
#[derive(Clone, Copy, Debug)]
pub enum Outcome {
    /// The machine waits for an answer of its host.
    Suspended(Pause),
    /// The program did not compile. This is the error that was reported.
    CompileFailed(Diagnostic),
    /// The program returned this value, for the host to print.
    Returned(Value),
    /// An instruction found operands of the wrong type. `line` is the
    /// source line of the instruction.
    RuntimeFailed { error: RuntimeError, line: usize },
}

/// Whether the machine can go on.
#[derive(Clone, Copy, PartialEq, Eq, Structural, Debug)]
pub enum Status {
    /// The next instruction can be executed.
    Ready,
    /// The host owes the machine a number.
    Waiting,
    /// No program is loaded, or the program has ended.
    Halted,
}

/// The state of a machine: the offset of the next instruction, the stack
/// with its top last, and the strings on the heap.
pub struct Machine {
    pub ip: int,
    pub stack: Seq<Value>,
    pub objects: Seq<Seq<u8>>,
}

/// The value on top of the stack.
pub open spec fn top(stack: Seq<Value>) -> Value {
    stack[stack.len() - 1]
}

/// The value under the top of the stack.
pub open spec fn second(stack: Seq<Value>) -> Value {
    stack[stack.len() - 2]
}

/// The stack without its `n` topmost values.
pub open spec fn without(stack: Seq<Value>, n: int) -> Seq<Value> {
    stack.take(stack.len() - n)
}

/// The state in which a type error leaves the machine, and the report of
/// the error: the stack is emptied, and the line is that of the instruction.
pub open spec fn fails(chunk: ChunkView, m: Machine, error: RuntimeError) -> (Machine, Option<
    Outcome,
>) {
    (
        Machine { ip: m.ip + 1, stack: Seq::empty(), objects: m.objects },
        Some(Outcome::RuntimeFailed { error, line: chunk.lines[m.ip] }),
    )
}

/// An instruction that hands two numbers to the host. Anything else on
/// top of the stack is a type error.
pub open spec fn asks(chunk: ChunkView, m: Machine, op: Arith) -> (Machine, Option<Outcome>) {
    match (second(m.stack), top(m.stack)) {
        (Value::Number(a), Value::Number(b)) => (
            Machine { ip: m.ip + 1, stack: without(m.stack, 2), objects: m.objects },
            Some(Outcome::Suspended(Pause::Arithmetic { op, a, b })),
        ),
        _ => fails(chunk, m, RuntimeError::OperandsMustBeNumbers),
    }
}

/// An instruction that replaces its operands by one value.
pub open spec fn yields(m: Machine, pops: int, value: Value) -> (Machine, Option<Outcome>) {
    (
        Machine { ip: m.ip + 1, stack: without(m.stack, pops).push(value), objects: m.objects },
        None,
    )
}

/// The effect of the instruction at `m.ip`: the state after it, and why the
/// machine stops there, if it does.
///
/// This is meaningful where the instruction is whole and known and finds
/// its operands and its constant: see [`safe`].
pub open spec fn step(chunk: ChunkView, m: Machine) -> (Machine, Option<Outcome>) {
    match Op::decode(chunk.code[m.ip]) {
        Some(Op::Constant) => {
            let constant = chunk.code[m.ip + 1];
            match chunk.constants[constant as int] {
                ConstantView::Number(_) => (
                    Machine { ip: m.ip + 2, stack: m.stack, objects: m.objects },
                    Some(Outcome::Suspended(Pause::Literal { constant })),
                ),
                ConstantView::String(r) => (
                    Machine {
                        ip: m.ip + 2,
                        stack: m.stack.push(Value::Object(Obj::LString(r))),
                        objects: m.objects,
                    },
                    None,
                ),
            }
        },
        Some(Op::Nil) => yields(m, 0, Value::Nil),
        Some(Op::False) => yields(m, 0, Value::Bool(false)),
        Some(Op::True) => yields(m, 0, Value::Bool(true)),
        Some(Op::Equal) => yields(
            m,
            2,
            Value::Bool(values_equal(second(m.stack), top(m.stack), m.objects)),
        ),
        Some(Op::Greater) => match (second(m.stack), top(m.stack)) {
            (Value::Number(a), Value::Number(b)) => yields(m, 2, Value::Bool(number_less(b, a))),
            _ => fails(chunk, m, RuntimeError::OperandsMustBeNumbers),
        },
        Some(Op::Less) => match (second(m.stack), top(m.stack)) {
            (Value::Number(a), Value::Number(b)) => yields(m, 2, Value::Bool(number_less(a, b))),
            _ => fails(chunk, m, RuntimeError::OperandsMustBeNumbers),
        },
        Some(Op::Add) => match (second(m.stack), top(m.stack)) {
            (Value::Number(a), Value::Number(b)) => asks(chunk, m, Arith::Add),
            (Value::Object(a), Value::Object(b)) => (
                Machine {
                    ip: m.ip + 1,
                    stack: without(m.stack, 2).push(
                        Value::Object(Obj::LString(Ref { index: m.objects.len() as usize })),
                    ),
                    objects: m.objects.push(
                        m.objects[a.handle().index as int] + m.objects[b.handle().index as int],
                    ),
                },
                None,
            ),
            _ => fails(chunk, m, RuntimeError::OperandsMustBeNumbersOrStrings),
        },
        Some(Op::Subtract) => asks(chunk, m, Arith::Subtract),
        Some(Op::Multiply) => asks(chunk, m, Arith::Multiply),
        Some(Op::Divide) => asks(chunk, m, Arith::Divide),
        Some(Op::Not) => yields(m, 1, Value::Bool(falsey(top(m.stack)))),
        Some(Op::Negate) => match top(m.stack) {
            Value::Number(n) => yields(m, 1, Value::Number(negated(n))),
            _ => fails(chunk, m, RuntimeError::OperandMustBeNumber),
        },
        Some(Op::Return) => (
            Machine { ip: m.ip + 1, stack: without(m.stack, 1), objects: m.objects },
            Some(Outcome::Returned(top(m.stack))),
        ),
        None => arbitrary(),
    }
}

/// The state in which the machine next stops when it runs on from `m`, and
/// why it stops there.
pub open spec fn run_from(chunk: ChunkView, m: Machine) -> (Machine, Outcome)
    decreases chunk.code.len() + 1 - m.ip,
{
    if 0 <= m.ip < chunk.code.len() {
        let (next, outcome) = step(chunk, m);
        match outcome {
            Some(o) => (next, o),
            None => if m.ip < next.ip <= m.ip + 2 {
                run_from(chunk, next)
            } else {
                arbitrary()
            },
        }
    } else {
        arbitrary()
    }
}

/// The state in which the machine next stops after its host has answered
/// with `bits`: the number goes onto the stack, and the machine runs on.
pub open spec fn resume_from(chunk: ChunkView, m: Machine, bits: u64) -> (Machine, Outcome) {
    run_from(chunk, Machine { ip: m.ip, stack: m.stack.push(Value::Number(bits)), objects: m.objects })
}

/// How a run goes on from where the machine has stopped when its host
/// answers with `answers`, in their order: as long as the machine is
/// suspended and an answer is left, it resumes with the answer.
pub open spec fn driven(chunk: ChunkView, stopped: (Machine, Outcome), answers: Seq<u64>) -> (
    Machine,
    Outcome,
)
    decreases answers.len(),
{
    if stopped.1 is Suspended && answers.len() > 0 {
        driven(chunk, resume_from(chunk, stopped.0, answers[0]), answers.skip(1))
    } else {
        stopped
    }
}

/// Where a run of the chunk from its first byte stops when the host
/// answers with `answers`, and why.
pub open spec fn answered(chunk: ChunkView, objects: Seq<Seq<u8>>, answers: Seq<u64>) -> (
    Machine,
    Outcome,
) {
    driven(
        chunk,
        run_from(chunk, Machine { ip: 0, stack: Seq::empty(), objects }),
        answers,
    )
}

impl RuntimeError {
    /// The text of the error.
    pub open spec fn text(self) -> Seq<char> {
        match self {
            RuntimeError::OperandMustBeNumber => "Operand must be a number."@,
            RuntimeError::OperandsMustBeNumbers => "Operands must be numbers."@,
            RuntimeError::OperandsMustBeNumbersOrStrings => "Operands must be numbers or strings."@,
        }
    }

    pub fn message(self) -> (text: &'static str)
        ensures
            text@ == self.text(),
            text.is_ascii(),
    {
        proof {
            reveal_strlit("Operand must be a number.");
            reveal_strlit("Operands must be numbers.");
            reveal_strlit("Operands must be numbers or strings.");
        }
        match self {
            RuntimeError::OperandMustBeNumber => "Operand must be a number.",
            RuntimeError::OperandsMustBeNumbers => "Operands must be numbers.",
            RuntimeError::OperandsMustBeNumbersOrStrings => "Operands must be numbers or strings.",
        }
    }

    /// The two lines that report the error in an instruction of source
    /// line `line`: the text of the error, then `[line 1] in script`.
    pub open spec fn report(self, line: usize) -> Seq<u8> {
        ascii(self.text()) + ascii("\n[line "@) + digits(line as nat) + ascii("] in script\n"@)
    }

    /// The two lines that report the error.
    pub fn render(self, line: usize) -> (text: Vec<u8>)
        ensures
            text@ == self.report(line),
    {
        proof {
            reveal_strlit("\n[line ");
            reveal_strlit("] in script\n");
        }
        let mut text: Vec<u8> = Vec::new();
        append_str(&mut text, self.message());
        append_str(&mut text, "\n[line ");
        append_number(&mut text, line, 0, ' ' as u8);
        append_str(&mut text, "] in script\n");
        assert(text@ =~= self.report(line));
        text
    }
}

impl Outcome {
    /// The class of an outcome that ends interpretation; none while the
    /// machine is only suspended.
    pub fn result(&self) -> (r: Option<InterpretResult>)
        ensures
            r == match *self {
                Outcome::Suspended(_) => None,
                Outcome::CompileFailed(_) => Some(InterpretResult::CompileError),
                Outcome::Returned(_) => Some(InterpretResult::Success),
                Outcome::RuntimeFailed { .. } => Some(InterpretResult::RuntimeError),
            },
    {
        match self {
            Outcome::Suspended(_) => None,
            Outcome::CompileFailed(_) => Some(InterpretResult::CompileError),
            Outcome::Returned(_) => Some(InterpretResult::Success),
            Outcome::RuntimeFailed { .. } => Some(InterpretResult::RuntimeError),
        }
    }
}

/// The stack machine.
pub struct VM {
    chunk: Chunk,
    ip: usize,
    stack: Vec<Value>,
    heap: Heap,
    status: Status,
}

/// Every object on the stack is a handle into a heap of `live` strings.
pub open spec fn stack_live(stack: Seq<Value>, live: nat) -> bool {
    forall|i: int|
        0 <= i < stack.len() ==> (#[trigger] stack[i] matches Value::Object(o) ==> o.handle().index
            < live)
}

impl View for VM {
    type V = Machine;

    closed spec fn view(&self) -> Machine {
        Machine { ip: self.ip as int, stack: self.stack@, objects: self.heap.objects() }
    }
}

impl VM {
    /// The chunk that the machine runs.
    pub closed spec fn program(&self) -> ChunkView {
        self.chunk@
    }

    pub closed spec fn status(&self) -> Status {
        self.status
    }

    /// The intern pool of the machine's heap.
    pub closed spec fn pool(&self) -> Seq<usize> {
        self.heap.pool()
    }

    /// The machine's invariant. Every line has its byte of code; the chunk's
    /// constants and the objects on the stack are handles into the heap;
    /// and unless the machine has halted, the rest of the code can be run
    /// without going wrong on the stack as it is, or as it is once the
    /// number that the host owes is on it.
    pub closed spec fn wf(&self) -> bool {
        &&& self.heap.wf()
        &&& self.chunk.lines@.len() == self.chunk.code@.len()
        &&& constants_live(self.chunk@, self.heap.objects().len())
        &&& stack_live(self.stack@, self.heap.objects().len())
        &&& self.status == Status::Ready ==> safe(
            self.chunk@,
            self.ip as int,
            kinds_of(self.stack@),
        )
        &&& self.status == Status::Waiting ==> safe(
            self.chunk@,
            self.ip as int,
            kinds_of(self.stack@).push(Kind::Number),
        )
    }

    /// A machine without a program.
    pub fn new() -> (vm: VM)
        ensures
            vm.wf(),
            vm.status() == Status::Halted,
            vm.program() == fresh_compiler().chunk,
            vm@ == (Machine { ip: 0, stack: Seq::empty(), objects: Seq::empty() }),
            vm.pool() == Seq::<usize>::empty(),
    {
        let vm = VM {
            chunk: Chunk::new(),
            ip: 0,
            stack: Vec::with_capacity(STACK_MAX),
            heap: Heap::new(),
            status: Status::Halted,
        };
        assert(vm.chunk@.constants =~= Seq::empty());
        vm
    }

    /// Loads a chunk and the heap that its string constants live on, and
    /// makes the machine ready to run the chunk from its first byte on an
    /// empty stack. The machine refuses, and stays as it is, if the run
    /// would go wrong (see [`safe`]) or the chunk names a string that the
    /// heap does not hold.
    pub fn load(&mut self, chunk: Chunk, heap: Heap) -> (loaded: bool)
        requires
            old(self).wf(),
            heap.wf(),
        ensures
            final(self).wf(),
            loaded == (chunk@.lines.len() == chunk@.code.len() && safe(chunk@, 0, Seq::empty())
                && constants_live(chunk@, heap.objects().len())),
            loaded ==> final(self).program() == chunk@ && final(self)@ == (Machine {
                ip: 0,
                stack: Seq::empty(),
                objects: heap.objects(),
            }) && final(self).pool() == heap.pool() && final(self).status() == Status::Ready,
            !loaded ==> *final(self) == *old(self),
    {
        if !chunk.can_run() {
            return false;
        }
        if !chunk.constants_within(heap.len()) {
            return false;
        }
        self.chunk = chunk;
        self.heap = heap;
        self.ip = 0;
        self.stack.clear();
        self.status = Status::Ready;
        assert(kinds_of(self.stack@) =~= Seq::empty());
        true
    }

    pub fn is_ready(&self) -> (r: bool)
        ensures
            r == (self.status() == Status::Ready),
    {
        self.status == Status::Ready
    }

    pub fn is_waiting(&self) -> (r: bool)
        ensures
            r == (self.status() == Status::Waiting),
    {
        self.status == Status::Waiting
    }

    /// The chunk that the machine runs.
    pub fn chunk(&self) -> (chunk: &Chunk)
        ensures
            chunk@ == self.program(),
    {
        &self.chunk
    }

    /// The offset of the next instruction.
    pub fn ip(&self) -> (ip: usize)
        ensures
            ip == self@.ip,
    {
        self.ip
    }

    /// The stack, its top last.
    pub fn stack(&self) -> (stack: &Vec<Value>)
        ensures
            stack@ == self@.stack,
    {
        &self.stack
    }

    /// The heap of the machine.
    pub fn heap(&self) -> (heap: &Heap)
        ensures
            heap.objects() == self@.objects,
            heap.pool() == self.pool(),
    {
        &self.heap
    }

    fn reset_stack(&mut self)
        ensures
            final(self).stack@ == Seq::<Value>::empty(),
            final(self).chunk == old(self).chunk,
            final(self).heap == old(self).heap,
            final(self).ip == old(self).ip,
            final(self).status == old(self).status,
    {
        self.stack.clear();
    }

    fn push(&mut self, value: Value)
        ensures
            final(self).stack@ == old(self).stack@.push(value),
            kinds_of(final(self).stack@) == kinds_of(old(self).stack@).push(value.kind()),
            final(self).chunk == old(self).chunk,
            final(self).heap == old(self).heap,
            final(self).ip == old(self).ip,
            final(self).status == old(self).status,
    {
        self.stack.push(value);
        assert(kinds_of(self.stack@) =~= kinds_of(old(self).stack@).push(value.kind()));
    }

    fn pop(&mut self) -> (value: Value)
        requires
            old(self).stack@.len() > 0,
        ensures
            value == top(old(self).stack@),
            final(self).stack@ == without(old(self).stack@, 1),
            kinds_of(final(self).stack@) == kinds_of(old(self).stack@).take(
                old(self).stack@.len() - 1,
            ),
            final(self).chunk == old(self).chunk,
            final(self).heap == old(self).heap,
            final(self).ip == old(self).ip,
            final(self).status == old(self).status,
    {
        let value = self.stack.pop().unwrap();
        assert(self.stack@ =~= without(old(self).stack@, 1));
        assert(kinds_of(self.stack@) =~= kinds_of(old(self).stack@).take(
            old(self).stack@.len() - 1,
        ));
        value
    }

    /// The value `distance` places under the top of the stack.
    pub fn peek(&self, distance: usize) -> (value: Value)
        requires
            distance < self@.stack.len(),
        ensures
            value == self@.stack[self@.stack.len() - 1 - distance],
    {
        let index = self.stack.len() - 1 - distance;
        self.stack[index]
    }

    /// Ends the run on a type error of the instruction just fetched.
    fn runtime_error(&mut self, error: RuntimeError) -> (outcome: Outcome)
        requires
            0 < old(self).ip <= old(self).chunk.lines@.len(),
        ensures
            outcome == (Outcome::RuntimeFailed {
                error,
                line: old(self).chunk.lines@[old(self).ip - 1],
            }),
            final(self).stack@ == Seq::<Value>::empty(),
            final(self).status == Status::Halted,
            final(self).chunk == old(self).chunk,
            final(self).heap == old(self).heap,
            final(self).ip == old(self).ip,
    {
        let instruction = self.ip - 1;
        let line = self.chunk.lines[instruction];
        self.reset_stack();
        self.status = Status::Halted;
        Outcome::RuntimeFailed { error, line }
    }

    /// Takes two numbers from the stack for the host to work on, or ends the
    /// run if the two topmost values are not both numbers.
    fn binary_op(&mut self, op: Arith) -> (outcome: Outcome)
        requires
            old(self).stack@.len() >= 2,
            0 < old(self).ip <= old(self).chunk.lines@.len(),
        ensures
            (final(self)@, Some(outcome)) == asks(
                old(self).chunk@,
                Machine { ip: old(self).ip - 1, stack: old(self).stack@, objects: old(self).heap.objects() },
                op,
            ),
            final(self).status == (if outcome is Suspended {
                Status::Waiting
            } else {
                Status::Halted
            }),
            outcome is Suspended ==> both(kinds_of(old(self).stack@), Kind::Number) && kinds_of(
                final(self).stack@,
            ).push(Kind::Number) == replaced(kinds_of(old(self).stack@), 2, Kind::Number),
            final(self).chunk == old(self).chunk,
            final(self).heap == old(self).heap,
            final(self).ip == old(self).ip,
    {
        let b = self.pop();
        let a = self.pop();
        assert(self.stack@ =~= without(old(self).stack@, 2));
        assert(kinds_of(self.stack@) =~= kinds_of(old(self).stack@).take(
            old(self).stack@.len() - 2,
        ));
        assert(a == second(old(self).stack@) && b == top(old(self).stack@));
        match (a, b) {
            (Value::Number(a), Value::Number(b)) => {
                self.status = Status::Waiting;
                Outcome::Suspended(Pause::Arithmetic { op, a, b })
            },
            _ => self.runtime_error(RuntimeError::OperandsMustBeNumbers),
        }
    }

    /// Compiles `source` with a new chunk and a new heap and, if it
    /// compiles, makes the machine ready to run it from its first byte on
    /// an empty stack. If it does not compile, the result is the error
    /// that was reported, and the machine stays as it is.
    pub fn compile(&mut self, source: &String) -> (error: Option<Diagnostic>)
        requires
            old(self).wf(),
            encode_utf8(source@).len() < usize::MAX,
        ensures
            final(self).wf(),
            ({
                let c = compiled(encode_utf8(source@), fresh_compiler());
                if c.parser.had_error {
                    &&& error == Some(c.parser.errors[0])
                    &&& *final(self) == *old(self)
                } else {
                    &&& error is None
                    &&& final(self).program() == c.chunk
                    &&& final(self).pool() == c.pool
                    &&& final(self)@ == (Machine {
                        ip: 0,
                        stack: Seq::empty(),
                        objects: c.objects,
                    })
                    &&& final(self).status() == Status::Ready
                }
            }),
    {
        let chunk = Chunk::new();
        let heap = Heap::new();
        assert(chunk@.constants =~= Seq::empty());
        let mut compiler = Compiler::new(source, chunk, heap);
        let ok = compiler.compile();
        proof {
            compiler.lemma_wf();
        }
        if !ok {
            let errors = compiler.errors();
            return Some(errors[0]);
        }
        let (chunk, heap) = compiler.finish();
        self.chunk = chunk;
        self.heap = heap;
        self.ip = 0;
        self.reset_stack();
        self.status = Status::Ready;
        proof {
            assert(kinds_of(self.stack@) =~= Seq::empty());
            lemma_runnable_safe(self.chunk@, 0, Seq::empty());
        }
        None
    }

    /// Compiles `source` with a new chunk and a new heap and, if it
    /// compiles, runs it up to where the machine first stops. If it does
    /// not compile, the machine stays as it is.
    pub fn interpret(&mut self, source: &String) -> (outcome: Outcome)
        requires
            old(self).wf(),
            encode_utf8(source@).len() < usize::MAX,
        ensures
            final(self).wf(),
            ({
                let c = compiled(encode_utf8(source@), fresh_compiler());
                if c.parser.had_error {
                    &&& outcome == Outcome::CompileFailed(c.parser.errors[0])
                    &&& *final(self) == *old(self)
                } else {
                    &&& final(self).program() == c.chunk
                    &&& final(self).pool() == c.pool
                    &&& (final(self)@, outcome) == run_from(
                        c.chunk,
                        Machine { ip: 0, stack: Seq::empty(), objects: c.objects },
                    )
                    &&& final(self).status() == (if outcome is Suspended {
                        Status::Waiting
                    } else {
                        Status::Halted
                    })
                }
            }),
    {
        match self.compile(source) {
            Some(error) => Outcome::CompileFailed(error),
            None => self.run(),
        }
    }

    /// Executes the next instruction. The result tells why the machine
    /// stops behind it, if it does.
    pub fn step(&mut self) -> (outcome: Option<Outcome>)
        requires
            old(self).wf(),
            old(self).status() == Status::Ready,
        ensures
            final(self).wf(),
            final(self).program() == old(self).program(),
            final(self).pool() == old(self).pool(),
            (final(self)@, outcome) == step(old(self).program(), old(self)@),
            old(self)@.ip < final(self)@.ip <= old(self)@.ip + 2,
            0 <= old(self)@.ip < old(self).program().code.len(),
            final(self).status() == (match outcome {
                None => Status::Ready,
                Some(Outcome::Suspended(_)) => Status::Waiting,
                Some(_) => Status::Halted,
            }),
    {
        let ghost before = self@;
        let ghost program = self.chunk@;
        assert(self.ip < self.chunk.code.len());
        let instruction = Op::from_u8(self.chunk.code[self.ip]).unwrap();
        self.ip = self.ip + 1;
        match instruction {
            Op::Constant => {
                let byte = self.chunk.code[self.ip];
                self.ip = self.ip + 1;
                assert(program.constants[byte as int] == self.chunk.constants@[byte as int]@);
                match &self.chunk.constants[byte as usize] {
                    Constant::Number(_) => {
                        self.status = Status::Waiting;
                        return Some(Outcome::Suspended(Pause::Literal { constant: byte }));
                    },
                    Constant::String(r) => {
                        let r: Ref = *r;
                        self.push(Value::Object(Obj::LString(r)));
                    },
                }
            },
            Op::Nil => {
                self.push(Value::Nil);
                assert(without(before.stack, 0) =~= before.stack);
            },
            Op::False => {
                self.push(Value::Bool(false));
                assert(without(before.stack, 0) =~= before.stack);
            },
            Op::True => {
                self.push(Value::Bool(true));
                assert(without(before.stack, 0) =~= before.stack);
            },
            Op::Equal => {
                let b = self.pop();
                let a = self.pop();
                assert(self.stack@ =~= without(before.stack, 2));
                assert(kinds_of(self.stack@) =~= kinds_of(before.stack).take(
                    before.stack.len() - 2,
                ));
                let same = a.equals(&b, &self.heap);
                self.push(Value::Bool(same));
            },
            Op::Greater => {
                let b = self.pop();
                let a = self.pop();
                assert(self.stack@ =~= without(before.stack, 2));
                assert(kinds_of(self.stack@) =~= kinds_of(before.stack).take(
                    before.stack.len() - 2,
                ));
                match (a, b) {
                    (Value::Number(a), Value::Number(b)) => {
                        self.push(Value::Bool(less_number(b, a)));
                    },
                    _ => {
                        return Some(self.runtime_error(RuntimeError::OperandsMustBeNumbers));
                    },
                }
            },
            Op::Less => {
                let b = self.pop();
                let a = self.pop();
                assert(self.stack@ =~= without(before.stack, 2));
                assert(kinds_of(self.stack@) =~= kinds_of(before.stack).take(
                    before.stack.len() - 2,
                ));
                match (a, b) {
                    (Value::Number(a), Value::Number(b)) => {
                        self.push(Value::Bool(less_number(a, b)));
                    },
                    _ => {
                        return Some(self.runtime_error(RuntimeError::OperandsMustBeNumbers));
                    },
                }
            },
            Op::Add => {
                match (self.peek(1), self.peek(0)) {
                    (Value::Number(_), Value::Number(_)) => {
                        return Some(self.binary_op(Arith::Add));
                    },
                    (Value::Object(Obj::LString(a)), Value::Object(Obj::LString(b))) => {
                        self.pop();
                        self.pop();
                        assert(self.stack@ =~= without(before.stack, 2));
                assert(kinds_of(self.stack@) =~= kinds_of(before.stack).take(
                    before.stack.len() - 2,
                ));
                        let text = joined(a.obj(&self.heap), b.obj(&self.heap));
                        let r = self.heap.manage(text);
                        self.push(Value::Object(Obj::LString(r)));
                    },
                    _ => {
                        return Some(self.runtime_error(RuntimeError::OperandsMustBeNumbersOrStrings));
                    },
                }
            },
            Op::Subtract => {
                return Some(self.binary_op(Arith::Subtract));
            },
            Op::Multiply => {
                return Some(self.binary_op(Arith::Multiply));
            },
            Op::Divide => {
                return Some(self.binary_op(Arith::Divide));
            },
            Op::Not => {
                let val = self.pop();
                self.push(Value::Bool(is_falsey(val)));
            },
            Op::Negate => {
                match self.pop() {
                    Value::Number(n) => {
                        self.push(Value::Number(negate_number(n)));
                    },
                    _ => {
                        return Some(self.runtime_error(RuntimeError::OperandMustBeNumber));
                    },
                }
            },
            Op::Return => {
                let value = self.pop();
                self.status = Status::Halted;
                return Some(Outcome::Returned(value));
            },
        }
        None
    }

    /// Runs the program on until the machine stops: at a `Return`, at a
    /// type error, or where it needs its host.
    pub fn run(&mut self) -> (outcome: Outcome)
        requires
            old(self).wf(),
            old(self).status() == Status::Ready,
        ensures
            final(self).wf(),
            final(self).program() == old(self).program(),
            final(self).pool() == old(self).pool(),
            (final(self)@, outcome) == run_from(old(self).program(), old(self)@),
            final(self).status() == (if outcome is Suspended {
                Status::Waiting
            } else {
                Status::Halted
            }),
    {
        loop
            invariant
                self.wf(),
                self.status == Status::Ready,
                self.chunk@ == old(self).chunk@,
                self.heap.pool() == old(self).heap.pool(),
                run_from(self.chunk@, self@) == run_from(old(self).chunk@, old(self)@),
            decreases self.chunk.code@.len() - self.ip,
        {
            match self.step() {
                Some(outcome) => {
                    return outcome;
                },
                None => {},
            }
        }
    }

    /// Hands the machine the number that it waits for: the number goes
    /// onto the stack, and the machine is ready to run on.
    pub fn supply(&mut self, bits: u64)
        requires
            old(self).wf(),
            old(self).status() == Status::Waiting,
        ensures
            final(self).wf(),
            final(self).program() == old(self).program(),
            final(self).pool() == old(self).pool(),
            final(self)@ == (Machine {
                ip: old(self)@.ip,
                stack: old(self)@.stack.push(Value::Number(bits)),
                objects: old(self)@.objects,
            }),
            final(self).status() == Status::Ready,
    {
        self.push(Value::Number(bits));
        self.status = Status::Ready;
    }

    /// Hands the machine the number that it waits for, and runs on.
    pub fn resume(&mut self, bits: u64) -> (outcome: Outcome)
        requires
            old(self).wf(),
            old(self).status() == Status::Waiting,
        ensures
            final(self).wf(),
            final(self).program() == old(self).program(),
            final(self).pool() == old(self).pool(),
            (final(self)@, outcome) == resume_from(old(self).program(), old(self)@, bits),
            final(self).status() == (if outcome is Suspended {
                Status::Waiting
            } else {
                Status::Halted
            }),
    {
        self.supply(bits);
        self.run()
    }

    /// Releases the strings of the program, and the program with them: the
    /// machine is as new.
    pub fn free_objects(&mut self)
        requires
            old(self).wf(),
        ensures
            final(self).wf(),
            final(self).status() == Status::Halted,
            final(self).program() == fresh_compiler().chunk,
            final(self)@ == (Machine { ip: 0, stack: Seq::empty(), objects: Seq::empty() }),
            final(self).pool() == Seq::<usize>::empty(),
    {
        self.chunk = Chunk::new();
        self.ip = 0;
        self.reset_stack();
        self.heap.clear();
        self.status = Status::Halted;
        assert(self.chunk@.constants =~= Seq::empty());
    }
}

} // verus!
