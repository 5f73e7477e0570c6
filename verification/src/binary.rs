//! Programs of one binary operator between two number literals: what they
//! compile to, and what they return.

use crate::chunk::ChunkView;
use crate::chunk::ConstantView;
use crate::chunk::Op;
use crate::compiler::CompilerView;
use crate::compiler::ParserView;
use crate::compiler::Precedence;
use crate::compiler::advanced;
use crate::compiler::binary_applied;
use crate::compiler::compiled;
use crate::compiler::continued;
use crate::compiler::emitted;
use crate::compiler::fresh_compiler;
use crate::compiler::infix_precedence;
use crate::compiler::lexeme;
use crate::compiler::loaded;
use crate::compiler::number_compiled;
use crate::compiler::parsed;
use crate::compiler::remaining;
use crate::compiler::rescanned;
use crate::compiler::stepped;
use crate::scanner::Lexeme;
use crate::scanner::Token;
use crate::scanner::TokenType;
use crate::scanner::ascii;
use crate::scanner::digit;
use crate::scanner::digit_byte;
use crate::scanner::lemma_run_end;
use crate::scanner::lemma_same_line;
use crate::scanner::lex;
use crate::scanner::lex_at;
use crate::scanner::newlines;
use crate::scanner::number_end;
use crate::scanner::run_end;
use crate::scanner::skip_blank;
use crate::scanner::token_at;
use crate::value::Value;
use crate::value::is_nan;
use crate::value::number_equal;
use crate::value::number_less;
use crate::value::ordinal;
use crate::vm::Arith;
use crate::vm::Machine;
use crate::vm::Outcome;
use crate::vm::Pause;
use crate::vm::answered;
use crate::vm::driven;
use crate::vm::resume_from;
use crate::vm::run_from;
use crate::vm::step;
use vstd::prelude::*;

verus! {

/// The text is one number literal: it begins with a digit, and read as a
/// number it ends where the text ends.
pub open spec fn is_number(text: Seq<u8>) -> bool {
    text.len() >= 1 && digit(text[0]) && number_end(text, 1) == text.len()
}

/// The kind is that of a binary operator.
pub open spec fn is_binary(kind: TokenType) -> bool {
    infix_precedence(kind) != Precedence::Lowest
}

/// The text of a binary operator.
pub open spec fn operator_text(kind: TokenType) -> Seq<u8> {
    match kind {
        TokenType::Plus => ascii("+"@),
        TokenType::Minus => ascii("-"@),
        TokenType::Star => ascii("*"@),
        TokenType::Slash => ascii("/"@),
        TokenType::EqualEqual => ascii("=="@),
        TokenType::BangEqual => ascii("!="@),
        TokenType::Less => ascii("<"@),
        TokenType::LessEqual => ascii("<="@),
        TokenType::Greater => ascii(">"@),
        TokenType::GreaterEqual => ascii(">="@),
        _ => Seq::empty(),
    }
}

/// The program `x op y`, with one space on each side of the operator.
#[verifier::opaque]
pub open spec fn binary_program(x: Seq<u8>, kind: TokenType, y: Seq<u8>) -> Seq<u8> {
    x + ascii(" "@) + operator_text(kind) + ascii(" "@) + y
}

/// The end of a run is where the run is seen to end.
pub proof fn lemma_run_end_exact(src: Seq<u8>, from: int, end: int, p: spec_fn(u8) -> bool)
    requires
        0 <= from <= end <= src.len(),
        forall|i: int| from <= i < end ==> p(#[trigger] src[i]),
        end < src.len() ==> !p(src[end]),
    ensures
        run_end(src, from, p) == end,
    decreases end - from,
{
    if from < end {
        lemma_run_end_exact(src, from + 1, end, p);
    }
}

/// A number literal holds digits and at most one point, and no newline.
pub proof fn lemma_number_bytes(x: Seq<u8>)
    requires
        is_number(x),
    ensures
        forall|i: int| 0 <= i < x.len() ==> digit(#[trigger] x[i]) || x[i] == '.' as u8,
{
    lemma_run_end(x, 1, digit_byte());
    let whole = run_end(x, 1, digit_byte());
    if whole + 1 < x.len() && x[whole] == '.' as u8 && digit(x[whole + 1]) {
        lemma_run_end(x, whole + 1, digit_byte());
    }
    assert forall|i: int| 0 <= i < x.len() implies digit(#[trigger] x[i]) || x[i] == '.' as u8 by {
        if 1 <= i < whole {
            assert(digit_byte()(x[i]));
        } else if whole < i {
            assert(digit_byte()(x[i]));
        }
    }
}

/// A number literal that stands in a source before a space or at its end
/// is scanned as one token.
pub proof fn lemma_number_scanned(src: Seq<u8>, at: int, x: Seq<u8>)
    requires
        is_number(x),
        0 <= at,
        at + x.len() <= src.len(),
        src.subrange(at, at + x.len()) == x,
        at + x.len() < src.len() ==> src[at + x.len()] == ' ' as u8,
    ensures
        lex_at(src, at) == (Lexeme { kind: TokenType::Number, start: at, end: at + x.len() }),
{
    let end = at + x.len();
    assert forall|i: int| 0 <= i < x.len() implies src[at + i] == #[trigger] x[i] by {
        assert(src.subrange(at, end)[i] == src[at + i]);
    }
    lemma_run_end(x, 1, digit_byte());
    let whole = run_end(x, 1, digit_byte());
    assert forall|i: int| at + 1 <= i < at + whole implies digit_byte()(#[trigger] src[i]) by {
        assert(src[i] == x[i - at]);
        assert(digit_byte()(x[i - at]));
    }
    if whole < x.len() {
        assert(src[at + whole] == x[whole]);
    }
    lemma_run_end_exact(src, at + 1, at + whole, digit_byte());
    if whole + 1 < x.len() && x[whole] == '.' as u8 && digit(x[whole + 1]) {
        lemma_run_end(x, whole + 1, digit_byte());
        assert(src[at + whole + 1] == x[whole + 1]);
        assert forall|i: int| at + whole + 1 <= i < end implies digit_byte()(#[trigger] src[i]) by {
            assert(src[i] == x[i - at]);
            assert(digit_byte()(x[i - at]));
        }
        lemma_run_end_exact(src, at + whole + 1, end, digit_byte());
    } else {
        assert(whole == x.len());
    }
    assert(src[at] == x[0]);
}

/// The bytes of the program `x op y`, place by place.
proof fn lemma_binary_bytes(x: Seq<u8>, kind: TokenType, y: Seq<u8>)
    requires
        is_binary(kind),
    ensures
        ({
            let src = binary_program(x, kind, y);
            let op = operator_text(kind);
            let p1 = x.len() as int;
            let p2 = p1 + 1 + op.len();
            &&& 1 <= op.len() <= 2
            &&& src.len() == p2 + 1 + y.len()
            &&& forall|i: int| 0 <= i < p1 ==> #[trigger] src[i] == x[i]
            &&& src[p1] == ' ' as u8
            &&& forall|i: int| 0 <= i < op.len() ==> #[trigger] src[p1 + 1 + i] == op[i]
            &&& src[p2] == ' ' as u8
            &&& forall|i: int| 0 <= i < y.len() ==> #[trigger] src[p2 + 1 + i] == y[i]
            &&& src.subrange(0, p1) == x
            &&& src.subrange(p2 + 1, src.len() as int) == y
        }),
{
    reveal_strlit(" ");
    reveal_strlit("+");
    reveal_strlit("-");
    reveal_strlit("*");
    reveal_strlit("/");
    reveal_strlit("==");
    reveal_strlit("!=");
    reveal_strlit("<");
    reveal_strlit("<=");
    reveal_strlit(">");
    reveal_strlit(">=");
    reveal(binary_program);
    let src = binary_program(x, kind, y);
    let op = operator_text(kind);
    let p1 = x.len() as int;
    let p2 = p1 + 1 + op.len();
    assert(src.subrange(0, p1) =~= x);
    assert(src.subrange(p2 + 1, src.len() as int) =~= y);
}

/// The first byte of an operator and, where it has two, its second.
proof fn lemma_operator_bytes(kind: TokenType)
    requires
        is_binary(kind),
    ensures
        ({
            let op = operator_text(kind);
            match kind {
                TokenType::Plus => op.len() == 1 && op[0] == '+' as u8,
                TokenType::Minus => op.len() == 1 && op[0] == '-' as u8,
                TokenType::Star => op.len() == 1 && op[0] == '*' as u8,
                TokenType::Slash => op.len() == 1 && op[0] == '/' as u8,
                TokenType::EqualEqual => op.len() == 2 && op[0] == '=' as u8 && op[1] == '=' as u8,
                TokenType::BangEqual => op.len() == 2 && op[0] == '!' as u8 && op[1] == '=' as u8,
                TokenType::Less => op.len() == 1 && op[0] == '<' as u8,
                TokenType::LessEqual => op.len() == 2 && op[0] == '<' as u8 && op[1] == '=' as u8,
                TokenType::Greater => op.len() == 1 && op[0] == '>' as u8,
                TokenType::GreaterEqual => op.len() == 2 && op[0] == '>' as u8 && op[1] == '=' as u8,
                _ => false,
            }
        }),
{
    reveal_strlit("+");
    reveal_strlit("-");
    reveal_strlit("*");
    reveal_strlit("/");
    reveal_strlit("==");
    reveal_strlit("!=");
    reveal_strlit("<");
    reveal_strlit("<=");
    reveal_strlit(">");
    reveal_strlit(">=");
}

/// The tokens of the program `x op y`: the two numbers, the operator
/// between them, and the end. All of them stand on the first line.
pub proof fn lemma_binary_tokens(x: Seq<u8>, kind: TokenType, y: Seq<u8>)
    requires
        is_number(x),
        is_number(y),
        is_binary(kind),
    ensures
        ({
            let src = binary_program(x, kind, y);
            let p1 = x.len() as int;
            let p2 = p1 + 1 + operator_text(kind).len();
            let p3 = src.len() as int;
            &&& p3 == p2 + 1 + y.len()
            &&& lex(src, 0) == (Lexeme { kind: TokenType::Number, start: 0, end: p1 })
            &&& lex(src, p1) == (Lexeme { kind, start: p1 + 1, end: p2 })
            &&& lex(src, p2) == (Lexeme { kind: TokenType::Number, start: p2 + 1, end: p3 })
            &&& lex(src, p3) == (Lexeme { kind: TokenType::EOF, start: p3, end: p3 })
            &&& forall|k: int| 0 <= k <= p3 ==> newlines(src, k) == 0
        }),
{
    let src = binary_program(x, kind, y);
    let op = operator_text(kind);
    let p1 = x.len() as int;
    let p2 = p1 + 1 + op.len();
    let p3 = src.len() as int;
    lemma_binary_bytes(x, kind, y);
    lemma_operator_bytes(kind);
    lemma_number_bytes(x);
    lemma_number_bytes(y);

    // The first number.
    assert(src[0] == x[0]);
    assert(skip_blank(src, 0) == 0);
    lemma_number_scanned(src, 0, x);

    // The operator.
    assert(src[p1 + 1 + 0] == op[0]);
    if op.len() == 2 {
        assert(src[p1 + 1 + 1] == op[1]);
    }
    assert(skip_blank(src, p1 + 1) == p1 + 1);
    assert(skip_blank(src, p1) == p1 + 1);
    assert(lex_at(src, p1 + 1) == (Lexeme { kind, start: p1 + 1, end: p2 }));

    // The second number.
    assert(src[p2 + 1 + 0] == y[0]);
    assert(skip_blank(src, p2 + 1) == p2 + 1);
    assert(skip_blank(src, p2) == p2 + 1);
    lemma_number_scanned(src, p2 + 1, y);

    // The end.
    assert(skip_blank(src, p3) == p3);

    assert forall|k: int| 0 <= k <= p3 implies newlines(src, k) == 0 by {
        assert forall|i: int| 0 <= i < k implies src[i] != '\n' as u8 by {
            if i < p1 {
                assert(src[i] == x[i]);
            } else if i == p1 {
            } else if i < p2 {
                assert(src[p1 + 1 + (i - p1 - 1)] == op[i - p1 - 1]);
            } else if i == p2 {
            } else {
                assert(src[p2 + 1 + (i - p2 - 1)] == y[i - p2 - 1]);
            }
        }
        lemma_same_line(src, 0, k);
    }
}

/// The instructions of a binary operator.
pub open spec fn operator_code(kind: TokenType) -> Seq<u8> {
    match kind {
        TokenType::BangEqual => seq![Op::Equal.byte(), Op::Not.byte()],
        TokenType::EqualEqual => seq![Op::Equal.byte()],
        TokenType::Greater => seq![Op::Greater.byte()],
        TokenType::GreaterEqual => seq![Op::Less.byte(), Op::Not.byte()],
        TokenType::Less => seq![Op::Less.byte()],
        TokenType::LessEqual => seq![Op::Greater.byte(), Op::Not.byte()],
        TokenType::Plus => seq![Op::Add.byte()],
        TokenType::Minus => seq![Op::Subtract.byte()],
        TokenType::Star => seq![Op::Multiply.byte()],
        TokenType::Slash => seq![Op::Divide.byte()],
        _ => Seq::empty(),
    }
}

/// The code of the program `x op y`: the two constants are loaded, the
/// operator is applied, and the result is returned.
pub open spec fn binary_code(kind: TokenType) -> Seq<u8> {
    seq![Op::Constant.byte(), 0u8, Op::Constant.byte(), 1u8] + operator_code(kind)
        + seq![Op::Return.byte()]
}

/// A parser that has found no error passes a token that is no `Error` in
/// one step.
proof fn lemma_advanced_plain(src: Seq<u8>, p: ParserView)
    requires
        0 <= p.position <= src.len(),
        token_at(src, p.position).token_type != TokenType::Error,
    ensures
        advanced(src, p) == (ParserView {
            position: lex(src, p.position).end,
            mark: lex(src, p.position).start,
            current: token_at(src, p.position),
            previous: p.current,
            ..p
        }),
{
    let q = ParserView { previous: p.current, ..p };
    assert(rescanned(src, q) == ParserView {
        position: lex(src, q.position).end,
            mark: lex(src, q.position).start,
        current: token_at(src, q.position),
        ..q
    });
}

/// An expression that is one number before the end of the source compiles
/// to the load of the number.
proof fn lemma_last_number(src: Seq<u8>, c: CompilerView, precedence: Precedence)
    requires
        0 <= c.parser.position <= src.len(),
        c.parser.current.token_type == TokenType::Number,
        advanced(src, c.parser).current.token_type == TokenType::EOF,
    ensures
        parsed(src, c, precedence) == number_compiled(src, stepped(src, c)),
{
    let start = stepped(src, c);
    crate::compiler::lemma_advanced(src, c.parser);
    let head = number_compiled(src, start);
    assert(head.parser.position == start.parser.position);
    assert(head.parser.current == start.parser.current);
    assert(remaining(src, head.parser) <= remaining(src, start.parser));
    assert(continued(src, head, precedence) == head);
}

/// A parser that has found no error, and whose scanner has just scanned
/// the token it looks at.
pub open spec fn clean(position: int, current: Token, previous: Token) -> ParserView {
    ParserView {
        position,
        mark: current.start as int,
        current,
        previous,
        had_error: false,
        panic_mode: false,
        errors: Seq::empty(),
    }
}

/// The `i`-th token of the program `x op y`, counted from one: the left
/// number, the operator, the right number, and the end.
pub open spec fn binary_token(x: Seq<u8>, kind: TokenType, y: Seq<u8>, i: int) -> Token {
    let p1 = x.len();
    let p2 = p1 + 1 + operator_text(kind).len();
    let p3 = p2 + 1 + y.len();
    if i == 1 {
        Token { token_type: TokenType::Number, start: 0, length: p1 as usize, line: 1 }
    } else if i == 2 {
        Token {
            token_type: kind,
            start: (p1 + 1) as usize,
            length: operator_text(kind).len() as usize,
            line: 1,
        }
    } else if i == 3 {
        Token {
            token_type: TokenType::Number,
            start: (p2 + 1) as usize,
            length: y.len() as usize,
            line: 1,
        }
    } else {
        Token { token_type: TokenType::EOF, start: p3 as usize, length: 0, line: 1 }
    }
}

/// The parser on its way through the program `x op y`.
proof fn lemma_binary_parser(x: Seq<u8>, kind: TokenType, y: Seq<u8>)
    requires
        is_number(x),
        is_number(y),
        is_binary(kind),
        binary_program(x, kind, y).len() < usize::MAX,
    ensures
        ({
            let src = binary_program(x, kind, y);
            let p1 = x.len() as int;
            let p2 = p1 + 1 + operator_text(kind).len();
            let p3 = src.len() as int;
            let t0 = crate::compiler::null_token();
            let t1 = binary_token(x, kind, y, 1);
            let t2 = binary_token(x, kind, y, 2);
            let t3 = binary_token(x, kind, y, 3);
            let t4 = binary_token(x, kind, y, 4);
            &&& 0 < p1 < p2 < p3
            &&& advanced(src, clean(0, t0, t0)) == clean(p1, t1, t0)
            &&& advanced(src, clean(p1, t1, t0)) == clean(p2, t2, t1)
            &&& advanced(src, clean(p2, t2, t1)) == clean(p3, t3, t2)
            &&& advanced(src, clean(p3, t3, t2)) == clean(p3, t4, t3)
            &&& advanced(src, clean(p3, t4, t3)) == clean(p3, t4, t4)
            &&& lexeme(src, t1) == x
            &&& lexeme(src, t3) == y
        }),
{
    let src = binary_program(x, kind, y);
    let p1 = x.len() as int;
    let p2 = p1 + 1 + operator_text(kind).len();
    let p3 = src.len() as int;
    lemma_binary_tokens(x, kind, y);
    lemma_binary_bytes(x, kind, y);
    let t0 = crate::compiler::null_token();
    let t1 = binary_token(x, kind, y, 1);
    let t2 = binary_token(x, kind, y, 2);
    let t3 = binary_token(x, kind, y, 3);
    let t4 = binary_token(x, kind, y, 4);
    assert(token_at(src, 0) == t1);
    assert(token_at(src, p1) == t2);
    assert(token_at(src, p2) == t3);
    assert(token_at(src, p3) == t4);
    lemma_advanced_plain(src, clean(0, t0, t0));
    lemma_advanced_plain(src, clean(p1, t1, t0));
    lemma_advanced_plain(src, clean(p2, t2, t1));
    lemma_advanced_plain(src, clean(p3, t3, t2));
    lemma_advanced_plain(src, clean(p3, t4, t3));
}

/// The load of a number, where the pool has room: the instruction and its
/// operand are written, and the number joins the pool.
proof fn lemma_number_loaded(c: CompilerView, text: Seq<u8>)
    requires
        c.chunk.constants.len() <= u8::MAX,
    ensures
        loaded(c, ConstantView::Number(text)) == (CompilerView {
            chunk: ChunkView {
                code: c.chunk.code.push(Op::Constant.byte()).push(c.chunk.constants.len() as u8),
                lines: c.chunk.lines.push(c.parser.previous.line).push(c.parser.previous.line),
                constants: c.chunk.constants.push(ConstantView::Number(text)),
            },
            ..c
        }),
{
}

/// The instructions of a binary operator are written behind the code.
proof fn lemma_operator_applied(c: CompilerView, kind: TokenType)
    requires
        is_binary(kind),
    ensures
        binary_applied(c, kind).parser == c.parser,
        binary_applied(c, kind).objects == c.objects,
        binary_applied(c, kind).pool == c.pool,
        binary_applied(c, kind).chunk.constants == c.chunk.constants,
        binary_applied(c, kind).chunk.code == c.chunk.code + operator_code(kind),
        binary_applied(c, kind).chunk.lines.len() == c.chunk.lines.len() + operator_code(
            kind,
        ).len(),
{
    assert(binary_applied(c, kind).chunk.code =~= c.chunk.code + operator_code(kind));
}

/// An expression that begins with a number: the number is loaded, and the
/// binary operators behind it are taken.
proof fn lemma_number_first(src: Seq<u8>, c: CompilerView, precedence: Precedence)
    requires
        0 <= c.parser.position <= src.len(),
        c.parser.current.token_type == TokenType::Number,
    ensures
        parsed(src, c, precedence) == continued(
            src,
            number_compiled(src, stepped(src, c)),
            precedence,
        ),
{
    let start = stepped(src, c);
    crate::compiler::lemma_advanced(src, c.parser);
    let head = number_compiled(src, start);
    assert(head.parser.position == start.parser.position);
    assert(head.parser.current == start.parser.current);
    assert(remaining(src, head.parser) <= remaining(src, start.parser));
}

/// A binary operator that binds strongly enough is taken with its right
/// operand, and then the operators behind that.
proof fn lemma_operator_taken(src: Seq<u8>, c: CompilerView, precedence: Precedence)
    requires
        0 <= c.parser.position <= src.len(),
        is_binary(c.parser.current.token_type),
        precedence.level() <= infix_precedence(c.parser.current.token_type).level(),
    ensures
        continued(src, c, precedence) == continued(
            src,
            binary_applied(
                parsed(
                    src,
                    stepped(src, c),
                    infix_precedence(c.parser.current.token_type).successor(),
                ),
                c.parser.current.token_type,
            ),
            precedence,
        ),
{
    let operator = c.parser.current.token_type;
    let start = stepped(src, c);
    crate::compiler::lemma_advanced(src, c.parser);
    crate::compiler::lemma_parsed_progress(src, start, infix_precedence(operator).successor());
    lemma_operator_applied(parsed(src, start, infix_precedence(operator).successor()), operator);
}

/// At the end of the source no operator is taken.
proof fn lemma_nothing_taken(src: Seq<u8>, c: CompilerView, precedence: Precedence)
    requires
        0 <= c.parser.position <= src.len(),
        c.parser.current.token_type == TokenType::EOF,
    ensures
        continued(src, c, precedence) == c,
{
}

/// The compiler after the expression of a source whose tokens are a
/// number, a binary operator, a number, and the end.
pub open spec fn three_tokens_parsed(src: Seq<u8>, q1: ParserView, q2: ParserView, q3: ParserView, q4: ParserView) -> CompilerView {
    CompilerView {
        parser: q4,
        chunk: ChunkView {
            code: seq![Op::Constant.byte(), 0u8, Op::Constant.byte(), 1u8] + operator_code(
                q2.current.token_type,
            ),
            lines: seq![q2.previous.line, q2.previous.line, q4.previous.line, q4.previous.line]
                + Seq::new(operator_code(q2.current.token_type).len(), |i: int| q4.previous.line),
            constants: seq![
                ConstantView::Number(lexeme(src, q1.current)),
                ConstantView::Number(lexeme(src, q3.current)),
            ],
        },
        objects: Seq::empty(),
        pool: Seq::empty(),
    }
}

/// The right operand and the operator of such a source, compiled behind
/// the left operand.
proof fn lemma_three_tokens_right(
    src: Seq<u8>,
    left: CompilerView,
    q1: ParserView,
    q2: ParserView,
    q3: ParserView,
    q4: ParserView,
)
    requires
        q3 == advanced(src, q2),
        q4 == advanced(src, q3),
        q2 == clean(q2.position, q2.current, q2.previous),
        q3 == clean(q3.position, q3.current, q3.previous),
        q4 == clean(q4.position, q4.current, q4.previous),
        0 <= q2.position <= src.len(),
        0 <= q3.position <= src.len(),
        0 <= q4.position <= src.len(),
        is_binary(q2.current.token_type),
        q3.current.token_type == TokenType::Number,
        q4.current.token_type == TokenType::EOF,
        left == (CompilerView {
            parser: q2,
            chunk: ChunkView {
                code: seq![Op::Constant.byte(), 0u8],
                lines: seq![q2.previous.line, q2.previous.line],
                constants: seq![ConstantView::Number(lexeme(src, q1.current))],
            },
            objects: Seq::empty(),
            pool: Seq::empty(),
        }),
    ensures
        continued(src, left, Precedence::Assignment) == three_tokens_parsed(src, q1, q2, q3, q4),
{
    let kind = q2.current.token_type;
    let y = lexeme(src, q3.current);
    crate::compiler::lemma_advanced(src, q2);
    crate::compiler::lemma_advanced(src, q3);
    lemma_operator_taken(src, left, Precedence::Assignment);
    let start2 = stepped(src, left);
    let successor = infix_precedence(kind).successor();
    lemma_last_number(src, start2, successor);
    let start3 = stepped(src, start2);
    lemma_number_loaded(start3, y);
    let right = number_compiled(src, start3);
    assert(right.parser == q4);
    assert(right.chunk.code =~= seq![Op::Constant.byte(), 0u8, Op::Constant.byte(), 1u8]);
    assert(right.chunk.lines =~= seq![
        q2.previous.line,
        q2.previous.line,
        q4.previous.line,
        q4.previous.line,
    ]);
    lemma_operator_applied(right, kind);
    let applied = binary_applied(right, kind);
    lemma_nothing_taken(src, applied, Precedence::Assignment);
    assert(applied.chunk.lines =~= three_tokens_parsed(src, q1, q2, q3, q4).chunk.lines);
    assert(applied.chunk.constants =~= three_tokens_parsed(src, q1, q2, q3, q4).chunk.constants);
    assert(applied.chunk == three_tokens_parsed(src, q1, q2, q3, q4).chunk);
}

/// What a source compiles to whose tokens are a number, a binary operator,
/// a number, and the end.
proof fn lemma_three_tokens(
    src: Seq<u8>,
    q1: ParserView,
    q2: ParserView,
    q3: ParserView,
    q4: ParserView,
    q5: ParserView,
)
    requires
        q1 == advanced(src, fresh_compiler().parser),
        q2 == advanced(src, q1),
        q3 == advanced(src, q2),
        q4 == advanced(src, q3),
        q5 == advanced(src, q4),
        q1 == clean(q1.position, q1.current, q1.previous),
        q2 == clean(q2.position, q2.current, q2.previous),
        q3 == clean(q3.position, q3.current, q3.previous),
        q4 == clean(q4.position, q4.current, q4.previous),
        q5 == clean(q5.position, q5.current, q5.previous),
        0 <= q1.position <= src.len(),
        0 <= q2.position <= src.len(),
        0 <= q3.position <= src.len(),
        0 <= q4.position <= src.len(),
        q1.current.token_type == TokenType::Number,
        is_binary(q2.current.token_type),
        q3.current.token_type == TokenType::Number,
        q4.current.token_type == TokenType::EOF,
    ensures
        compiled(src, fresh_compiler()) == emitted(
            CompilerView { parser: q5, ..three_tokens_parsed(src, q1, q2, q3, q4) },
            Op::Return.byte(),
        ),
{
    let x = lexeme(src, q1.current);
    let c0 = fresh_compiler();
    let c1 = stepped(src, c0);
    crate::compiler::lemma_advanced(src, q1);

    lemma_number_first(src, c1, Precedence::Assignment);
    let start = stepped(src, c1);
    lemma_number_loaded(start, x);
    let left = number_compiled(src, start);
    assert(left.chunk.code =~= seq![Op::Constant.byte(), 0u8]);
    assert(left.chunk.lines =~= seq![q2.previous.line, q2.previous.line]);
    assert(left.chunk.constants =~= seq![ConstantView::Number(x)]);
    lemma_three_tokens_right(src, left, q1, q2, q3, q4);
    assert(parsed(src, c1, Precedence::Assignment) == three_tokens_parsed(src, q1, q2, q3, q4));
}

/// What the program `x op y` compiles to: no error is found, the two
/// numbers are the constants in their order, and the code loads them,
/// applies the operator and returns.
pub proof fn lemma_binary_compiled(x: Seq<u8>, kind: TokenType, y: Seq<u8>)
    requires
        is_number(x),
        is_number(y),
        is_binary(kind),
        binary_program(x, kind, y).len() < usize::MAX,
    ensures
        ({
            let c = compiled(binary_program(x, kind, y), fresh_compiler());
            &&& !c.parser.had_error
            &&& c.chunk.code == binary_code(kind)
            &&& c.chunk.lines.len() == c.chunk.code.len()
            &&& c.chunk.constants == seq![ConstantView::Number(x), ConstantView::Number(y)]
            &&& c.objects == Seq::<Seq<u8>>::empty()
        }),
{
    let src = binary_program(x, kind, y);
    let p1 = x.len() as int;
    let p2 = p1 + 1 + operator_text(kind).len();
    let p3 = src.len() as int;
    let t0 = crate::compiler::null_token();
    let t1 = binary_token(x, kind, y, 1);
    let t2 = binary_token(x, kind, y, 2);
    let t3 = binary_token(x, kind, y, 3);
    let t4 = binary_token(x, kind, y, 4);
    lemma_binary_parser(x, kind, y);
    lemma_three_tokens(
        src,
        clean(p1, t1, t0),
        clean(p2, t2, t1),
        clean(p3, t3, t2),
        clean(p3, t4, t3),
        clean(p3, t4, t4),
    );
    let c = compiled(src, fresh_compiler());
    assert(c.chunk.code =~= binary_code(kind));
}

/// The kind is that of a comparison or of an equality operator.
pub open spec fn is_relation(kind: TokenType) -> bool {
    infix_precedence(kind) == Precedence::Comparison || infix_precedence(kind)
        == Precedence::Equality
}

/// The kind is that of `+`, `-`, `*` or `/`.
pub open spec fn is_arithmetic(kind: TokenType) -> bool {
    infix_precedence(kind) == Precedence::Term || infix_precedence(kind) == Precedence::Factor
}

/// What a relation says of two numbers, given by their bit patterns. With a
/// NaN on either side, `<`, `>` and `==` are false, and so `<=`, `>=` and
/// `!=`, which are compiled as their negations, are true.
pub open spec fn relation(kind: TokenType, a: u64, b: u64) -> bool {
    match kind {
        TokenType::Less => number_less(a, b),
        TokenType::Greater => number_less(b, a),
        TokenType::LessEqual => !number_less(b, a),
        TokenType::GreaterEqual => !number_less(a, b),
        TokenType::EqualEqual => number_equal(a, b),
        _ => !number_equal(a, b),
    }
}

/// The work that an arithmetic operator leaves to the host.
pub open spec fn arithmetic(kind: TokenType) -> Arith {
    match kind {
        TokenType::Plus => Arith::Add,
        TokenType::Minus => Arith::Subtract,
        TokenType::Star => Arith::Multiply,
        _ => Arith::Divide,
    }
}

/// Between two numbers of which neither is a NaN, each relation is that
/// of their places in the order of the numbers.
pub proof fn lemma_relation_order(kind: TokenType, a: u64, b: u64)
    requires
        is_relation(kind),
        !is_nan(a),
        !is_nan(b),
    ensures
        relation(kind, a, b) == match kind {
            TokenType::Less => ordinal(a) < ordinal(b),
            TokenType::Greater => ordinal(a) > ordinal(b),
            TokenType::LessEqual => ordinal(a) <= ordinal(b),
            TokenType::GreaterEqual => ordinal(a) >= ordinal(b),
            TokenType::EqualEqual => ordinal(a) == ordinal(b),
            _ => ordinal(a) != ordinal(b),
        },
{
}

/// The run of the code of `x op y` up to where both numbers are on the
/// stack: the machine asks for the one, then for the other.
proof fn lemma_operands_loaded(chunk: ChunkView, objects: Seq<Seq<u8>>, kind: TokenType, a: u64, b: u64)
    requires
        is_binary(kind),
        chunk.code == binary_code(kind),
        chunk.constants.len() == 2,
        chunk.constants[0] is Number,
        chunk.constants[1] is Number,
    ensures
        answered(chunk, objects, seq![a, b]) == run_from(
            chunk,
            Machine { ip: 4, stack: seq![Value::Number(a), Value::Number(b)], objects },
        ),
        forall|r: u64|
            answered(chunk, objects, seq![a, b, r]) == driven(
                chunk,
                run_from(
                    chunk,
                    Machine { ip: 4, stack: seq![Value::Number(a), Value::Number(b)], objects },
                ),
                #[trigger] seq![r],
            ),
{
    let code = chunk.code;
    assert(code.len() >= 6);
    assert(code[0] == Op::Constant.byte() && code[1] == 0 && code[2] == Op::Constant.byte()
        && code[3] == 1);
    let m0 = Machine { ip: 0, stack: Seq::empty(), objects };
    let m2 = Machine { ip: 2, stack: Seq::empty(), objects };
    assert(run_from(chunk, m0) == (m2, Outcome::Suspended(Pause::Literal { constant: 0 })));
    let m2a = Machine { ip: 2, stack: seq![Value::Number(a)], objects };
    assert(m2.stack.push(Value::Number(a)) =~= m2a.stack);
    let m4 = Machine { ip: 4, stack: seq![Value::Number(a)], objects };
    assert(run_from(chunk, m2a) == (m4, Outcome::Suspended(Pause::Literal { constant: 1 })));
    assert(resume_from(chunk, m2, a) == (m4, Outcome::Suspended(Pause::Literal { constant: 1 })));
    let m4b = Machine { ip: 4, stack: seq![Value::Number(a), Value::Number(b)], objects };
    assert(m4.stack.push(Value::Number(b)) =~= m4b.stack);
    assert(resume_from(chunk, m4, b) == run_from(chunk, m4b));

    let first = run_from(chunk, m0);
    let second = resume_from(chunk, m2, a);
    let third = resume_from(chunk, m4, b);
    assert(seq![a, b].skip(1) =~= seq![b]);
    assert(seq![b].skip(1) =~= Seq::<u64>::empty());
    assert(driven(chunk, third, Seq::empty()) == third);
    assert(driven(chunk, second, seq![b]) == third);
    assert(driven(chunk, first, seq![a, b]) == third);
    assert forall|r: u64| answered(chunk, objects, seq![a, b, r]) == driven(
        chunk,
        third,
        #[trigger] seq![r],
    ) by {
        assert(seq![a, b, r].skip(1) =~= seq![b, r]);
        assert(seq![b, r].skip(1) =~= seq![r]);
        assert(driven(chunk, second, seq![b, r]) == driven(chunk, third, seq![r]));
        assert(driven(chunk, first, seq![a, b, r]) == driven(chunk, third, seq![r]));
    }
}

/// With both numbers on the stack, the code of a relation returns what
/// the relation says of them.
proof fn lemma_relation_applied(chunk: ChunkView, objects: Seq<Seq<u8>>, kind: TokenType, a: u64, b: u64)
    requires
        is_relation(kind),
        chunk.code == binary_code(kind),
    ensures
        run_from(
            chunk,
            Machine { ip: 4, stack: seq![Value::Number(a), Value::Number(b)], objects },
        ).1 == Outcome::Returned(Value::Bool(relation(kind, a, b))),
{
    let code = chunk.code;
    let operator = operator_code(kind);
    assert(forall|i: int| 0 <= i < operator.len() ==> code[4 + i] == operator[i]);
    assert(code[4 + operator.len() as int] == Op::Return.byte());
    let stack = seq![Value::Number(a), Value::Number(b)];
    let m4 = Machine { ip: 4, stack, objects };
    assert(code[4int + 0] == operator[0]);
    let first = match kind {
        TokenType::Less | TokenType::GreaterEqual => number_less(a, b),
        TokenType::Greater | TokenType::LessEqual => number_less(b, a),
        _ => number_equal(a, b),
    };
    let m5 = Machine { ip: 5, stack: seq![Value::Bool(first)], objects };
    assert(crate::vm::without(stack, 2).push(Value::Bool(first)) =~= m5.stack);
    assert(step(chunk, m4) == (m5, None::<Outcome>));
    assert(run_from(chunk, m4) == run_from(chunk, m5));
    if operator.len() == 2 {
        assert(code[4int + 1] == operator[1]);
        let m6 = Machine { ip: 6, stack: seq![Value::Bool(!first)], objects };
        assert(crate::vm::without(m5.stack, 1).push(Value::Bool(!first)) =~= m6.stack);
        assert(step(chunk, m5) == (m6, None::<Outcome>));
        assert(run_from(chunk, m5) == run_from(chunk, m6));
        assert(code[6] == Op::Return.byte());
        assert(run_from(chunk, m6).1 == Outcome::Returned(Value::Bool(!first)));
    } else {
        assert(code[5] == Op::Return.byte());
        assert(run_from(chunk, m5).1 == Outcome::Returned(Value::Bool(first)));
    }
}

/// With both numbers on the stack, the code of an arithmetic operator
/// hands them to the host, and returns what the host answers.
proof fn lemma_arithmetic_applied(
    chunk: ChunkView,
    objects: Seq<Seq<u8>>,
    kind: TokenType,
    a: u64,
    b: u64,
    r: u64,
)
    requires
        is_arithmetic(kind),
        chunk.code == binary_code(kind),
    ensures
        ({
            let asked = run_from(
                chunk,
                Machine { ip: 4, stack: seq![Value::Number(a), Value::Number(b)], objects },
            );
            &&& asked.1 == Outcome::Suspended(Pause::Arithmetic { op: arithmetic(kind), a, b })
            &&& driven(chunk, asked, seq![r]).1 == Outcome::Returned(Value::Number(r))
        }),
{
    let code = chunk.code;
    let operator = operator_code(kind);
    assert(operator.len() == 1);
    assert(code[4int + 0] == operator[0]);
    assert(code[5] == Op::Return.byte());
    let stack = seq![Value::Number(a), Value::Number(b)];
    let m4 = Machine { ip: 4, stack, objects };
    let m5 = Machine { ip: 5, stack: Seq::empty(), objects };
    assert(crate::vm::without(stack, 2) =~= m5.stack);
    let asked = run_from(chunk, m4);
    assert(asked == (m5, Outcome::Suspended(Pause::Arithmetic { op: arithmetic(kind), a, b })));
    let m5r = Machine { ip: 5, stack: seq![Value::Number(r)], objects };
    assert(m5.stack.push(Value::Number(r)) =~= m5r.stack);
    assert(run_from(chunk, m5r).1 == Outcome::Returned(Value::Number(r)));
    assert(resume_from(chunk, m5, r).1 == Outcome::Returned(Value::Number(r)));
    assert(seq![r].skip(1) =~= Seq::<u64>::empty());
    assert(driven(chunk, resume_from(chunk, m5, r), Seq::empty()) == resume_from(chunk, m5, r));
}

/// A relation between two numbers evaluates to what it says of them.
///
/// The program `x op y`, where `x` and `y` are number literals and `op` is
/// one of `<`, `>`, `<=`, `>=`, `==` and `!=`, compiles, and when its host
/// answers `a` for `x` and `b` for `y`, it returns the boolean that the
/// relation gives for `a` and `b`.
pub proof fn lemma_relation_program(x: Seq<u8>, kind: TokenType, y: Seq<u8>, a: u64, b: u64)
    requires
        is_number(x),
        is_number(y),
        is_relation(kind),
        binary_program(x, kind, y).len() < usize::MAX,
    ensures
        ({
            let c = compiled(binary_program(x, kind, y), fresh_compiler());
            &&& !c.parser.had_error
            &&& answered(c.chunk, c.objects, seq![a, b]).1 == Outcome::Returned(
                Value::Bool(relation(kind, a, b)),
            )
        }),
{
    lemma_binary_compiled(x, kind, y);
    let c = compiled(binary_program(x, kind, y), fresh_compiler());
    lemma_operands_loaded(c.chunk, c.objects, kind, a, b);
    lemma_relation_applied(c.chunk, c.objects, kind, a, b);
}

/// Arithmetic on two numbers evaluates to what the host computes of them.
///
/// The program `x op y`, where `x` and `y` are number literals and `op` is
/// one of `+`, `-`, `*` and `/`, compiles, and when its host answers `a`
/// for `x` and `b` for `y`, it asks the host for `a op b` and returns the
/// number that the host answers.
pub proof fn lemma_arithmetic_program(
    x: Seq<u8>,
    kind: TokenType,
    y: Seq<u8>,
    a: u64,
    b: u64,
    r: u64,
)
    requires
        is_number(x),
        is_number(y),
        is_arithmetic(kind),
        binary_program(x, kind, y).len() < usize::MAX,
    ensures
        ({
            let c = compiled(binary_program(x, kind, y), fresh_compiler());
            &&& !c.parser.had_error
            &&& answered(c.chunk, c.objects, seq![a, b]).1 == Outcome::Suspended(
                Pause::Arithmetic { op: arithmetic(kind), a, b },
            )
            &&& answered(c.chunk, c.objects, seq![a, b, r]).1 == Outcome::Returned(
                Value::Number(r),
            )
        }),
{
    lemma_binary_compiled(x, kind, y);
    let c = compiled(binary_program(x, kind, y), fresh_compiler());
    lemma_operands_loaded(c.chunk, c.objects, kind, a, b);
    lemma_arithmetic_applied(c.chunk, c.objects, kind, a, b, r);
    assert(answered(c.chunk, c.objects, seq![a, b, r]) == driven(
        c.chunk,
        run_from(
            c.chunk,
            Machine { ip: 4, stack: seq![Value::Number(a), Value::Number(b)], objects: c.objects },
        ),
        seq![r],
    ));
}

} // verus!
