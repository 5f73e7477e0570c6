use crate::chunk::Chunk;
use crate::chunk::ChunkView;
use crate::chunk::Constant;
use crate::chunk::ConstantView;
use crate::chunk::Op;
use crate::chunk::constants_live;
use crate::chunk::decodes;
use crate::chunk::depth_at_end;
use crate::chunk::lemma_decodes_pool;
use crate::chunk::lemma_decodes_push;
use crate::chunk::lemma_decodes_push_constant;
use crate::chunk::lemma_depth_pool;
use crate::chunk::lemma_depth_push;
use crate::chunk::lemma_depth_push_constant;
use crate::chunk::lemma_runnable_push_return;
use crate::chunk::runnable;
use crate::memory::Heap;
use crate::memory::Ref;
use crate::memory::intern_index;
use crate::memory::intern_objects;
use crate::memory::intern_pool;
use crate::memory::pool_wf;
use crate::scanner::Scanner;
use crate::scanner::Token;
use crate::scanner::TokenType;
use crate::scanner::lemma_lex;
use crate::scanner::lex;
use crate::scanner::ascii;
use crate::scanner::token_at;
use crate::text::append;
use crate::text::append_number;
use crate::text::append_str;
use crate::text::digits;
use vstd::slice::slice_subrange;
use vstd::slice::slice_to_vec;
use vstd::prelude::*;
use vstd::utf8::encode_utf8;

verus! {

/// The binding strengths of the grammar, weakest first.
#[derive(Clone, Copy, PartialEq, Eq, Structural, Debug)]
pub enum Precedence {
    Lowest,
    Assignment,  // =
    Or,  // or
    And,  // and
    Equality,  // == !=
    Comparison,  // < > <= >=
    Term,  // + -
    Factor,  // * /
    Unary,  // ! -
    Call,  // . ()
    Primary,
}

/// The handlers of the grammar.
#[derive(Clone, Copy, PartialEq, Eq, Structural, Debug)]
pub enum ParseFn {
    Grouping,
    Unary,
    Binary,
    Number,
    Literal,
    String,
}

/// What the grammar says of a token kind: how an expression that begins
/// with it is parsed, how it joins two operands, and how strongly it binds
/// when it does.
#[derive(Clone, Copy, PartialEq, Eq, Structural, Debug)]
pub struct ParseRule {
    pub prefix: Option<ParseFn>,
    pub infix: Option<ParseFn>,
    pub precedence: Precedence,
}

/// The errors that the compiler reports.
#[derive(Clone, Copy, PartialEq, Eq, Structural, Debug)]
pub enum Message {
    UnknownToken,
    ExpectExpression,
    ExpectEndOfExpression,
    ExpectRightParen,
    TooManyConstants,
}

/// A reported error: the token at which it was found, and what it is.
#[derive(Clone, Copy, PartialEq, Eq, Structural, Debug)]
pub struct Diagnostic {
    pub token: Token,
    pub message: Message,
}

impl Message {
    /// The text of the error.
    pub open spec fn text(self) -> Seq<char> {
        match self {
            Message::UnknownToken => "Unknown token"@,
            Message::ExpectExpression => "Expect expression."@,
            Message::ExpectEndOfExpression => "Expect end of expression"@,
            Message::ExpectRightParen => "Expect ')' after expression."@,
            Message::TooManyConstants => "Too many constants in one chunk"@,
        }
    }

    pub fn message(self) -> (text: &'static str)
        ensures
            text@ == self.text(),
            text.is_ascii(),
    {
        proof {
            reveal_strlit("Unknown token");
            reveal_strlit("Expect expression.");
            reveal_strlit("Expect end of expression");
            reveal_strlit("Expect ')' after expression.");
            reveal_strlit("Too many constants in one chunk");
        }
        match self {
            Message::UnknownToken => "Unknown token",
            Message::ExpectExpression => "Expect expression.",
            Message::ExpectEndOfExpression => "Expect end of expression",
            Message::ExpectRightParen => "Expect ')' after expression.",
            Message::TooManyConstants => "Too many constants in one chunk",
        }
    }
}

impl Diagnostic {
    /// Where the error was found, as the report says it: at the end of the
    /// source, at the text of a token, or nowhere for an `Error` token.
    pub open spec fn place(self, src: Seq<u8>) -> Seq<u8> {
        match self.token.token_type {
            TokenType::EOF => ascii(" at end"@),
            TokenType::Error => Seq::empty(),
            _ => ascii(" at '"@) + lexeme(src, self.token) + ascii("'"@),
        }
    }

    /// The line that reports the error:
    /// `[line 1] Error at ')': Expect expression.`
    pub open spec fn report(self, src: Seq<u8>) -> Seq<u8> {
        ascii("[line "@) + digits(self.token.line as nat) + ascii("] Error"@) + self.place(src)
            + ascii(": "@) + ascii(self.message.text()) + ascii("\n"@)
    }

    /// The line that reports the error, for a token of `source`.
    pub fn render(&self, source: &[u8]) -> (text: Vec<u8>)
        requires
            self.token.start + self.token.length <= source@.len(),
        ensures
            text@ == self.report(source@),
    {
        proof {
            reveal_strlit("[line ");
            reveal_strlit("] Error");
            reveal_strlit(" at end");
            reveal_strlit(" at '");
            reveal_strlit("'");
            reveal_strlit(": ");
            reveal_strlit("\n");
        }
        let mut text: Vec<u8> = Vec::new();
        append_str(&mut text, "[line ");
        append_number(&mut text, self.token.line, 0, ' ' as u8);
        append_str(&mut text, "] Error");
        assert(text@ =~= ascii("[line "@) + digits(self.token.line as nat) + ascii("] Error"@));
        let ghost head = text@;

        match self.token.token_type {
            TokenType::EOF => {
                append_str(&mut text, " at end");
            },
            TokenType::Error => {
                // Nothing.
            },
            _ => {
                append_str(&mut text, " at '");
                assert(source.len() == source@.len());
                let end = self.token.start + self.token.length;
                append(&mut text, slice_subrange(source, self.token.start, end));
                append_str(&mut text, "'");
            },
        }
        assert(text@ =~= head + self.place(source@));
        let ghost placed = text@;

        append_str(&mut text, ": ");
        append_str(&mut text, self.message.message());
        append_str(&mut text, "\n");
        assert(text@ =~= placed + ascii(": "@) + ascii(self.message.text()) + ascii("\n"@));
        text
    }
}

impl Precedence {
    /// The place of the precedence in the ladder, from zero.
    pub open spec fn level(self) -> nat {
        match self {
            Precedence::Lowest => 0,
            Precedence::Assignment => 1,
            Precedence::Or => 2,
            Precedence::And => 3,
            Precedence::Equality => 4,
            Precedence::Comparison => 5,
            Precedence::Term => 6,
            Precedence::Factor => 7,
            Precedence::Unary => 8,
            Precedence::Call => 9,
            Precedence::Primary => 10,
        }
    }

    /// The next stronger precedence; `Primary` is the strongest, and its
    /// own successor.
    pub open spec fn successor(self) -> Precedence {
        match self {
            Precedence::Lowest => Precedence::Assignment,
            Precedence::Assignment => Precedence::Or,
            Precedence::Or => Precedence::And,
            Precedence::And => Precedence::Equality,
            Precedence::Equality => Precedence::Comparison,
            Precedence::Comparison => Precedence::Term,
            Precedence::Term => Precedence::Factor,
            Precedence::Factor => Precedence::Unary,
            Precedence::Unary => Precedence::Call,
            Precedence::Call => Precedence::Primary,
            Precedence::Primary => Precedence::Primary,
        }
    }

    pub fn next(&self) -> (stronger: Precedence)
        ensures
            stronger == self.successor(),
            stronger.level() == (if *self == Precedence::Primary {
                10
            } else {
                self.level() + 1
            }),
    {
        match self {
            Precedence::Lowest => Precedence::Assignment,
            Precedence::Assignment => Precedence::Or,
            Precedence::Or => Precedence::And,
            Precedence::And => Precedence::Equality,
            Precedence::Equality => Precedence::Comparison,
            Precedence::Comparison => Precedence::Term,
            Precedence::Term => Precedence::Factor,
            Precedence::Factor => Precedence::Unary,
            Precedence::Unary => Precedence::Call,
            Precedence::Call => Precedence::Primary,
            Precedence::Primary => Precedence::Primary,
        }
    }

    pub fn to_u8(&self) -> (level: u8)
        ensures
            level == self.level(),
    {
        match self {
            Precedence::Lowest => 0,
            Precedence::Assignment => 1,
            Precedence::Or => 2,
            Precedence::And => 3,
            Precedence::Equality => 4,
            Precedence::Comparison => 5,
            Precedence::Term => 6,
            Precedence::Factor => 7,
            Precedence::Unary => 8,
            Precedence::Call => 9,
            Precedence::Primary => 10,
        }
    }
}

/// How an expression that begins with a token of this kind is parsed, if
/// one can begin so.
pub open spec fn prefix_of(kind: TokenType) -> Option<ParseFn> {
    match kind {
        TokenType::LeftParen => Some(ParseFn::Grouping),
        TokenType::Minus | TokenType::Bang => Some(ParseFn::Unary),
        TokenType::Number => Some(ParseFn::Number),
        TokenType::Nil | TokenType::False | TokenType::True => Some(ParseFn::Literal),
        TokenType::String => Some(ParseFn::String),
        _ => None,
    }
}

/// How strongly a token of this kind binds as a binary operator: `Lowest`
/// where it is none.
pub open spec fn infix_precedence(kind: TokenType) -> Precedence {
    match kind {
        TokenType::Minus | TokenType::Plus => Precedence::Term,
        TokenType::Slash | TokenType::Star => Precedence::Factor,
        TokenType::BangEqual | TokenType::EqualEqual => Precedence::Equality,
        TokenType::Greater
        | TokenType::GreaterEqual
        | TokenType::Less
        | TokenType::LessEqual => Precedence::Comparison,
        _ => Precedence::Lowest,
    }
}

/// The rule of a token kind.
pub open spec fn rule(kind: TokenType) -> ParseRule {
    ParseRule {
        prefix: prefix_of(kind),
        infix: if infix_precedence(kind) == Precedence::Lowest {
            None
        } else {
            Some(ParseFn::Binary)
        },
        precedence: infix_precedence(kind),
    }
}

pub fn get_rule(token_type: TokenType) -> (r: ParseRule)
    ensures
        r == rule(token_type),
{
    match token_type {
        TokenType::LeftParen => ParseRule {
            prefix: Some(ParseFn::Grouping),
            infix: None,
            precedence: Precedence::Lowest,
        },
        TokenType::Minus => ParseRule {
            prefix: Some(ParseFn::Unary),
            infix: Some(ParseFn::Binary),
            precedence: Precedence::Term,
        },
        TokenType::Plus => ParseRule {
            prefix: None,
            infix: Some(ParseFn::Binary),
            precedence: Precedence::Term,
        },
        TokenType::Slash | TokenType::Star => ParseRule {
            prefix: None,
            infix: Some(ParseFn::Binary),
            precedence: Precedence::Factor,
        },
        TokenType::Number => ParseRule {
            prefix: Some(ParseFn::Number),
            infix: None,
            precedence: Precedence::Lowest,
        },
        TokenType::Bang => ParseRule {
            prefix: Some(ParseFn::Unary),
            infix: None,
            precedence: Precedence::Lowest,
        },
        TokenType::BangEqual | TokenType::EqualEqual => ParseRule {
            prefix: None,
            infix: Some(ParseFn::Binary),
            precedence: Precedence::Equality,
        },
        TokenType::Greater
        | TokenType::GreaterEqual
        | TokenType::Less
        | TokenType::LessEqual => ParseRule {
            prefix: None,
            infix: Some(ParseFn::Binary),
            precedence: Precedence::Comparison,
        },
        TokenType::Nil | TokenType::False | TokenType::True => ParseRule {
            prefix: Some(ParseFn::Literal),
            infix: None,
            precedence: Precedence::Lowest,
        },
        TokenType::String => ParseRule {
            prefix: Some(ParseFn::String),
            infix: None,
            precedence: Precedence::Lowest,
        },
        _ => ParseRule { prefix: None, infix: None, precedence: Precedence::Lowest },
    }
}

/// The state of a parser: where its scanner stands and where the token it
/// last scanned starts, the token it looks at, the token it has just
/// passed, and what it has reported.
pub struct ParserView {
    pub position: int,
    pub mark: int,
    pub current: Token,
    pub previous: Token,
    pub had_error: bool,
    pub panic_mode: bool,
    pub errors: Seq<Diagnostic>,
}

/// The token that a parser holds before it has scanned any.
pub open spec fn null_token() -> Token {
    Token { token_type: TokenType::EOF, start: 0, length: 0, line: 0 }
}

/// The text of the token lies in the source, and a string has its quotes.
pub open spec fn well_placed(src: Seq<u8>, token: Token) -> bool {
    &&& token.start + token.length <= src.len()
    &&& token.token_type == TokenType::String ==> token.length >= 2
}

/// The text of a token.
pub open spec fn lexeme(src: Seq<u8>, token: Token) -> Seq<u8> {
    src.subrange(token.start as int, token.start + token.length)
}

/// The parser after an error at `token`. While the parser panics, which it
/// does from its first error on, it reports nothing.
pub open spec fn reported(p: ParserView, token: Token, message: Message) -> ParserView {
    if p.panic_mode {
        p
    } else {
        ParserView {
            panic_mode: true,
            had_error: true,
            errors: p.errors.push(Diagnostic { token, message }),
            ..p
        }
    }
}

/// The parser panics exactly when it has found an error, and it has then
/// reported one error, the first.
pub open spec fn tidy(p: ParserView) -> bool {
    &&& p.had_error == p.panic_mode
    &&& p.errors.len() == (if p.had_error {
        1nat
    } else {
        0nat
    })
}

/// The parser after it has scanned up to the next token that is no `Error`,
/// reporting each `Error` token on the way.
pub open spec fn rescanned(src: Seq<u8>, p: ParserView) -> ParserView
    decreases src.len() - p.position,
    when 0 <= p.position <= src.len()
{
    let next = ParserView {
        position: lex(src, p.position).end,
        mark: lex(src, p.position).start,
        current: token_at(src, p.position),
        ..p
    };
    if next.current.token_type != TokenType::Error {
        next
    } else {
        proof {
            lemma_lex(src, p.position);
        }
        rescanned(src, reported(next, next.current, Message::UnknownToken))
    }
}

/// The parser after it has passed its current token.
pub open spec fn advanced(src: Seq<u8>, p: ParserView) -> ParserView {
    rescanned(src, ParserView { previous: p.current, ..p })
}

/// The parser after it has passed a token of the given kind, or reported
/// that there is none.
pub open spec fn consumed(
    src: Seq<u8>,
    p: ParserView,
    kind: TokenType,
    message: Message,
) -> ParserView {
    if p.current.token_type == kind {
        advanced(src, p)
    } else {
        reported(p, p.current, message)
    }
}

/// A bound on the tokens that the parser has yet to pass.
pub open spec fn remaining(src: Seq<u8>, p: ParserView) -> nat {
    let bytes: nat = if p.position <= src.len() {
        (src.len() - p.position) as nat
    } else {
        0
    };
    if p.current.token_type != TokenType::EOF {
        bytes + 1
    } else {
        bytes
    }
}

/// A token of the scanner is well placed.
pub proof fn lemma_token_placed(src: Seq<u8>, at: int)
    requires
        0 <= at <= src.len(),
        src.len() < usize::MAX,
    ensures
        well_placed(src, token_at(src, at)),
{
    lemma_lex(src, at);
    crate::scanner::lemma_string_length(src, at);
}

/// What scanning on changes: the position does not go back, the new current
/// token is no `Error`, and errors are only added.
pub proof fn lemma_rescanned(src: Seq<u8>, p: ParserView)
    requires
        0 <= p.position <= src.len(),
    ensures
        p.position <= rescanned(src, p).position <= src.len(),
        rescanned(src, p).previous == p.previous,
        rescanned(src, p).current.token_type != TokenType::Error,
        rescanned(src, p).current.token_type != TokenType::EOF ==> p.position < rescanned(
            src,
            p,
        ).position,
        p.had_error ==> rescanned(src, p).had_error,
        tidy(p) ==> tidy(rescanned(src, p)),
        src.len() < usize::MAX ==> well_placed(src, rescanned(src, p).current),
    decreases src.len() - p.position,
{
    lemma_lex(src, p.position);
    if src.len() < usize::MAX {
        lemma_token_placed(src, p.position);
    }
    let next = ParserView {
        position: lex(src, p.position).end,
        mark: lex(src, p.position).start,
        current: token_at(src, p.position),
        ..p
    };
    if next.current.token_type == TokenType::Error {
        lemma_rescanned(src, reported(next, next.current, Message::UnknownToken));
    }
}

/// Passing a token brings the parser nearer to the end of the source.
pub proof fn lemma_advanced(src: Seq<u8>, p: ParserView)
    requires
        0 <= p.position <= src.len(),
    ensures
        p.position <= advanced(src, p).position <= src.len(),
        advanced(src, p).previous == p.current,
        advanced(src, p).current.token_type != TokenType::Error,
        remaining(src, advanced(src, p)) <= remaining(src, p),
        p.current.token_type != TokenType::EOF ==> remaining(src, advanced(src, p)) < remaining(
            src,
            p,
        ),
        p.had_error ==> advanced(src, p).had_error,
        tidy(p) ==> tidy(advanced(src, p)),
        src.len() < usize::MAX ==> well_placed(src, advanced(src, p).current),
{
    lemma_rescanned(src, ParserView { previous: p.current, ..p });
}

/// The state of a compiler: its parser, the chunk that it writes, and the
/// strings and the intern pool of its heap.
pub struct CompilerView {
    pub parser: ParserView,
    pub chunk: ChunkView,
    pub objects: Seq<Seq<u8>>,
    pub pool: Seq<usize>,
}

/// A compiler that has compiled nothing: it stands before the first byte
/// of the source, its chunk and its heap are empty.
pub open spec fn fresh_compiler() -> CompilerView {
    CompilerView {
        parser: ParserView {
            position: 0,
            mark: 0,
            current: null_token(),
            previous: null_token(),
            had_error: false,
            panic_mode: false,
            errors: Seq::empty(),
        },
        chunk: ChunkView { code: Seq::empty(), lines: Seq::empty(), constants: Seq::empty() },
        objects: Seq::empty(),
        pool: Seq::empty(),
    }
}

/// The compiler after it has written one byte of code, for the line of the
/// token just passed.
pub open spec fn emitted(c: CompilerView, byte: u8) -> CompilerView {
    CompilerView {
        chunk: ChunkView {
            code: c.chunk.code.push(byte),
            lines: c.chunk.lines.push(c.parser.previous.line),
            ..c.chunk
        },
        ..c
    }
}

/// The compiler after it has added a constant to the pool, and the operand
/// that names the constant. The 257th constant and those after it are
/// reported as an error, and named by operand zero.
pub open spec fn pooled(c: CompilerView, constant: ConstantView) -> (CompilerView, u8) {
    let index = c.chunk.constants.len();
    let added = CompilerView {
        chunk: ChunkView { constants: c.chunk.constants.push(constant), ..c.chunk },
        ..c
    };
    if index > u8::MAX {
        (
            CompilerView {
                parser: reported(added.parser, added.parser.previous, Message::TooManyConstants),
                ..added
            },
            0u8,
        )
    } else {
        (added, index as u8)
    }
}

/// The compiler after it has written the instruction that loads a new
/// constant.
pub open spec fn loaded(c: CompilerView, constant: ConstantView) -> CompilerView {
    let (added, index) = pooled(emitted(c, Op::Constant.byte()), constant);
    emitted(added, index)
}

/// The compiler after it has compiled the number that it has just passed.
pub open spec fn number_compiled(src: Seq<u8>, c: CompilerView) -> CompilerView {
    loaded(c, ConstantView::Number(lexeme(src, c.parser.previous)))
}

/// The text of a string literal: what stands between its quotes.
pub open spec fn string_text(src: Seq<u8>, token: Token) -> Seq<u8> {
    src.subrange(token.start + 1, token.start + token.length - 1)
}

/// The compiler after it has compiled the string literal that it has just
/// passed: the text is interned, and the handle becomes a constant.
pub open spec fn string_compiled(src: Seq<u8>, c: CompilerView) -> CompilerView {
    let text = string_text(src, c.parser.previous);
    let interned = CompilerView {
        objects: intern_objects(c.objects, c.pool, text),
        pool: intern_pool(c.objects, c.pool, text),
        ..c
    };
    loaded(
        interned,
        ConstantView::String(Ref { index: intern_index(c.objects, c.pool, text) as usize }),
    )
}

/// The compiler after it has compiled the `nil`, `false` or `true` that it
/// has just passed.
pub open spec fn literal_compiled(c: CompilerView) -> CompilerView {
    match c.parser.previous.token_type {
        TokenType::Nil => emitted(c, Op::Nil.byte()),
        TokenType::False => emitted(c, Op::False.byte()),
        TokenType::True => emitted(c, Op::True.byte()),
        _ => c,
    }
}

/// The compiler after it has written the instruction of a unary operator,
/// its operand compiled.
pub open spec fn unary_applied(c: CompilerView, operator: TokenType) -> CompilerView {
    match operator {
        TokenType::Minus => emitted(c, Op::Negate.byte()),
        TokenType::Bang => emitted(c, Op::Not.byte()),
        _ => c,
    }
}

/// The compiler after it has written the instructions of a binary operator,
/// both operands compiled.
pub open spec fn binary_applied(c: CompilerView, operator: TokenType) -> CompilerView {
    match operator {
        TokenType::BangEqual => emitted(emitted(c, Op::Equal.byte()), Op::Not.byte()),
        TokenType::EqualEqual => emitted(c, Op::Equal.byte()),
        TokenType::Greater => emitted(c, Op::Greater.byte()),
        TokenType::GreaterEqual => emitted(emitted(c, Op::Less.byte()), Op::Not.byte()),
        TokenType::Less => emitted(c, Op::Less.byte()),
        TokenType::LessEqual => emitted(emitted(c, Op::Greater.byte()), Op::Not.byte()),
        TokenType::Plus => emitted(c, Op::Add.byte()),
        TokenType::Minus => emitted(c, Op::Subtract.byte()),
        TokenType::Star => emitted(c, Op::Multiply.byte()),
        TokenType::Slash => emitted(c, Op::Divide.byte()),
        _ => c,
    }
}

/// The compiler after its parser has passed a token.
pub open spec fn stepped(src: Seq<u8>, c: CompilerView) -> CompilerView {
    CompilerView { parser: advanced(src, c.parser), ..c }
}

/// The compiler after its parser has passed a token of the given kind, or
/// reported that there is none.
pub open spec fn expected(
    src: Seq<u8>,
    c: CompilerView,
    kind: TokenType,
    message: Message,
) -> CompilerView {
    CompilerView { parser: consumed(src, c.parser, kind, message), ..c }
}

/// The compiler after it has compiled an expression whose operators all
/// bind at least as strongly as `precedence`.
///
/// It passes one token and compiles the operand that begins with it: a
/// literal, a unary operator with its operand, or an expression in
/// parentheses. Then it takes binary operators with their right operands
/// as long as they bind strongly enough: see [`continued`].
///
/// The test on what remains is always met: see [`lemma_parsed_progress`].
/// It is here so that the definition is seen to end.
pub open spec fn parsed(src: Seq<u8>, c: CompilerView, precedence: Precedence) -> CompilerView
    decreases remaining(src, c.parser), 1int,
    when 0 <= c.parser.position <= src.len()
{
    let start = stepped(src, c);
    let operator = start.parser.previous.token_type;
    let head = match prefix_of(operator) {
        None => CompilerView {
            parser: reported(start.parser, start.parser.previous, Message::ExpectExpression),
            ..start
        },
        Some(ParseFn::Grouping) => {
            proof {
                lemma_advanced(src, c.parser);
            }
            expected(
                src,
                parsed(src, start, Precedence::Assignment),
                TokenType::RightParen,
                Message::ExpectRightParen,
            )
        },
        Some(ParseFn::Unary) => {
            proof {
                lemma_advanced(src, c.parser);
            }
            unary_applied(parsed(src, start, Precedence::Unary), operator)
        },
        Some(ParseFn::Number) => number_compiled(src, start),
        Some(ParseFn::Literal) => literal_compiled(start),
        Some(ParseFn::String) => string_compiled(src, start),
        Some(ParseFn::Binary) => start,
    };
    proof {
        lemma_advanced(src, c.parser);
    }
    if remaining(src, head.parser) <= remaining(src, start.parser) {
        continued(src, head, precedence)
    } else {
        head
    }
}

/// The compiler after it has taken, behind a compiled operand, the binary
/// operators that bind at least as strongly as `precedence`, each with its
/// right operand. The right operand of an operator holds only operators
/// that bind more strongly than it, so operators of one strength group to
/// the left.
pub open spec fn continued(src: Seq<u8>, c: CompilerView, precedence: Precedence) -> CompilerView
    decreases remaining(src, c.parser), 0int,
    when 0 <= c.parser.position <= src.len()
{
    let operator = c.parser.current.token_type;
    if infix_precedence(operator) != Precedence::Lowest && precedence.level() <= infix_precedence(
        operator,
    ).level() {
        let start = stepped(src, c);
        proof {
            lemma_advanced(src, c.parser);
        }
        let next = binary_applied(
            parsed(src, start, infix_precedence(operator).successor()),
            operator,
        );
        if remaining(src, next.parser) <= remaining(src, start.parser) {
            continued(src, next, precedence)
        } else {
            next
        }
    } else {
        c
    }
}

/// Compiling an expression does not move the parser back: it stays inside
/// the source, and has no more tokens to pass than before. So the tests on
/// what remains in [`parsed`] and [`continued`] are always met.
pub proof fn lemma_parsed_progress(src: Seq<u8>, c: CompilerView, precedence: Precedence)
    requires
        0 <= c.parser.position <= src.len(),
    ensures
        0 <= parsed(src, c, precedence).parser.position <= src.len(),
        remaining(src, parsed(src, c, precedence).parser) <= remaining(src, c.parser),
    decreases remaining(src, c.parser), 1int,
{
    let start = stepped(src, c);
    lemma_advanced(src, c.parser);
    let operator = start.parser.previous.token_type;
    let head = match prefix_of(operator) {
        None => CompilerView {
            parser: reported(start.parser, start.parser.previous, Message::ExpectExpression),
            ..start
        },
        Some(ParseFn::Grouping) => {
            lemma_parsed_progress(src, start, Precedence::Assignment);
            lemma_advanced(src, parsed(src, start, Precedence::Assignment).parser);
            expected(
                src,
                parsed(src, start, Precedence::Assignment),
                TokenType::RightParen,
                Message::ExpectRightParen,
            )
        },
        Some(ParseFn::Unary) => {
            lemma_parsed_progress(src, start, Precedence::Unary);
            unary_applied(parsed(src, start, Precedence::Unary), operator)
        },
        Some(ParseFn::Number) => number_compiled(src, start),
        Some(ParseFn::Literal) => literal_compiled(start),
        Some(ParseFn::String) => string_compiled(src, start),
        Some(ParseFn::Binary) => start,
    };
    assert(head.parser.position == start.parser.position || prefix_of(operator) == Some(
        ParseFn::Grouping,
    ) || prefix_of(operator) == Some(ParseFn::Unary));
    assert(remaining(src, head.parser) <= remaining(src, start.parser));
    lemma_continued_progress(src, head, precedence);
}

/// Taking binary operators does not move the parser back.
pub proof fn lemma_continued_progress(src: Seq<u8>, c: CompilerView, precedence: Precedence)
    requires
        0 <= c.parser.position <= src.len(),
    ensures
        0 <= continued(src, c, precedence).parser.position <= src.len(),
        remaining(src, continued(src, c, precedence).parser) <= remaining(src, c.parser),
    decreases remaining(src, c.parser), 0int,
{
    let operator = c.parser.current.token_type;
    if infix_precedence(operator) != Precedence::Lowest && precedence.level() <= infix_precedence(
        operator,
    ).level() {
        let start = stepped(src, c);
        lemma_advanced(src, c.parser);
        lemma_parsed_progress(src, start, infix_precedence(operator).successor());
        let next = binary_applied(
            parsed(src, start, infix_precedence(operator).successor()),
            operator,
        );
        assert(next.parser == parsed(src, start, infix_precedence(operator).successor()).parser);
        lemma_continued_progress(src, next, precedence);
    }
}

/// The compiler after it has compiled a whole program: one expression, the
/// end of the source, and a `Return`.
pub open spec fn compiled(src: Seq<u8>, c: CompilerView) -> CompilerView {
    emitted(
        expected(
            src,
            parsed(src, stepped(src, c), Precedence::Assignment),
            TokenType::EOF,
            Message::ExpectEndOfExpression,
        ),
        Op::Return.byte(),
    )
}

/// The parser: the scanner, a window of two tokens on its output, and the
/// errors found.
pub struct Parser<'a> {
    scanner: Scanner<'a>,
    current: Token,
    previous: Token,
    had_error: bool,
    panic_mode: bool,
    errors: Vec<Diagnostic>,
}

impl<'a> View for Parser<'a> {
    type V = ParserView;

    closed spec fn view(&self) -> ParserView {
        ParserView {
            position: self.scanner.position(),
            mark: self.scanner.mark(),
            current: self.current,
            previous: self.previous,
            had_error: self.had_error,
            panic_mode: self.panic_mode,
            errors: self.errors@,
        }
    }
}

impl<'a> Parser<'a> {
    /// The bytes of the program.
    pub closed spec fn source(&self) -> Seq<u8> {
        self.scanner.bytes()
    }

    /// The parser's invariant: its scanner's, both tokens are well placed,
    /// and the parser panics exactly when it has found an error.
    pub closed spec fn wf(&self) -> bool {
        &&& self.scanner.wf()
        &&& well_placed(self.scanner.bytes(), self.current)
        &&& well_placed(self.scanner.bytes(), self.previous)
        &&& tidy(self@)
    }

    /// A parser's position is inside its source, and whether it has found
    /// an error tells whether it panics.
    pub proof fn lemma_wf(&self)
        requires
            self.wf(),
        ensures
            0 <= self@.mark <= self@.position <= self.source().len() < usize::MAX,
            well_placed(self.source(), self@.current),
            well_placed(self.source(), self@.previous),
            tidy(self@),
    {
        self.scanner.lemma_bounds();
    }

    /// A parser that has scanned nothing yet.
    pub fn new(scanner: Scanner<'a>) -> (parser: Parser<'a>)
        requires
            scanner.wf(),
        ensures
            parser.wf(),
            parser.source() == scanner.bytes(),
            parser@ == (ParserView {
                position: scanner.position(),
                mark: scanner.mark(),
                current: null_token(),
                previous: null_token(),
                had_error: false,
                panic_mode: false,
                errors: Seq::empty(),
            }),
    {
        Parser {
            scanner,
            current: Token { token_type: TokenType::EOF, start: 0, length: 0, line: 0 },
            previous: Token { token_type: TokenType::EOF, start: 0, length: 0, line: 0 },
            had_error: false,
            panic_mode: false,
            errors: Vec::new(),
        }
    }

    /// Passes the current token: scans up to the next token that is no
    /// `Error`, and reports each `Error` token on the way.
    pub fn advance(&mut self)
        requires
            old(self).wf(),
        ensures
            final(self).wf(),
            final(self).source() == old(self).source(),
            final(self)@ == advanced(old(self).source(), old(self)@),
    {
        self.previous = self.current;
        let ghost src = self.source();
        let ghost target = advanced(src, old(self)@);
        proof {
            self.scanner.lemma_bounds();
        }
        loop
            invariant_except_break
                rescanned(src, self@) == target,
            invariant
                self.wf(),
                self.source() == src,
                src == old(self).source(),
                target == advanced(src, old(self)@),
            ensures
                self@ == target,
            decreases src.len() - self.scanner.position(),
        {
            proof {
                self.scanner.lemma_bounds();
                lemma_lex(src, self.scanner.position());
                lemma_token_placed(src, self.scanner.position());
            }
            self.current = self.scanner.scan();
            proof {
                self.scanner.lemma_bounds();
            }
            if self.current.token_type != TokenType::Error {
                break ;
            }
            self.error_at_current(Message::UnknownToken);
        }
    }

    /// Passes the current token if it is of the given kind, and reports
    /// `message` at it if it is not.
    pub fn consume(&mut self, token_type: TokenType, message: Message)
        requires
            old(self).wf(),
        ensures
            final(self).wf(),
            final(self).source() == old(self).source(),
            final(self)@ == consumed(old(self).source(), old(self)@, token_type, message),
    {
        if self.current.token_type == token_type {
            self.advance();
            return ;
        }
        self.error_at_current(message);
    }

    /// Reports an error at the current token.
    pub fn error_at_current(&mut self, message: Message)
        requires
            old(self).wf(),
        ensures
            final(self).wf(),
            final(self).source() == old(self).source(),
            final(self)@ == reported(old(self)@, old(self)@.current, message),
    {
        let current = self.current;
        self.error_at(&current, message);
    }

    /// Reports an error at the token just passed.
    pub fn error(&mut self, message: Message)
        requires
            old(self).wf(),
        ensures
            final(self).wf(),
            final(self).source() == old(self).source(),
            final(self)@ == reported(old(self)@, old(self)@.previous, message),
    {
        let previous = self.previous;
        self.error_at(&previous, message);
    }

    /// Reports an error at `token`, unless the parser panics already, and
    /// makes the parser panic.
    pub fn error_at(&mut self, token: &Token, message: Message)
        requires
            old(self).wf(),
        ensures
            final(self).wf(),
            final(self).source() == old(self).source(),
            final(self)@ == reported(old(self)@, *token, message),
    {
        if self.panic_mode {
            return ;
        }
        self.panic_mode = true;
        self.errors.push(Diagnostic { token: *token, message });
        self.had_error = true;
    }

    /// Whether the parser has found an error.
    pub fn had_error(&self) -> (r: bool)
        ensures
            r == self@.had_error,
    {
        self.had_error
    }

    /// The errors that the parser has reported, oldest first.
    pub fn errors(&self) -> (errors: &Vec<Diagnostic>)
        ensures
            errors@ == self@.errors,
    {
        &self.errors
    }
}

/// What holds of a compiler between any two of its steps: every byte of
/// code has its line, the code decodes, the string constants are handles
/// into the heap, and the heap is well formed.
pub open spec fn sound(c: CompilerView) -> bool {
    &&& c.chunk.lines.len() == c.chunk.code.len()
    &&& decodes(c.chunk.code, c.chunk.constants.len(), 0)
    &&& constants_live(c.chunk, c.objects.len())
    &&& pool_wf(c.objects, c.pool)
}

/// The height of the stack that the code written so far leaves, where the
/// code can be run to its end.
pub open spec fn height(c: CompilerView) -> Option<nat> {
    depth_at_end(c.chunk.code, c.chunk.constants.len(), 0, 0)
}

/// As long as no error was found, the code written so far can be run to
/// its end.
pub open spec fn balanced(c: CompilerView) -> bool {
    !c.parser.had_error ==> height(c) is Some
}

/// How the compiler `after` a step relates to the compiler `before` it: it
/// is sound, an error found stays found, it has no more tokens to pass than
/// before, and unless an error was found its code leaves `grown` values
/// more on the stack, and one byte can still name each of its constants if
/// one byte could before.
pub open spec fn follows(src: Seq<u8>, before: CompilerView, after: CompilerView, grown: nat) -> bool {
    &&& sound(after)
    &&& before.parser.had_error ==> after.parser.had_error
    &&& remaining(src, after.parser) <= remaining(src, before.parser)
    &&& !after.parser.had_error ==> height(before) is Some && height(after) == Some(
        height(before).unwrap() + grown,
    )
    &&& !after.parser.had_error && before.chunk.constants.len() <= 256
        ==> after.chunk.constants.len() <= 256
}

/// Writing an instruction without operand keeps the compiler sound, and
/// changes the height by the effect of the instruction.
pub proof fn lemma_emitted(c: CompilerView, op: Op)
    requires
        sound(c),
        op != Op::Constant,
    ensures
        sound(emitted(c, op.byte())),
        emitted(c, op.byte()).parser == c.parser,
        op != Op::Return && height(c) is Some && height(c).unwrap() >= op.pops() ==> height(
            emitted(c, op.byte()),
        ) == Some((height(c).unwrap() - op.pops() + 1) as nat),
{
    lemma_decodes_push(c.chunk.code, c.chunk.constants.len(), 0, op);
    if op != Op::Return && height(c) is Some && height(c).unwrap() >= op.pops() {
        lemma_depth_push(c.chunk.code, c.chunk.constants.len(), 0, 0, op);
    }
}

/// Writing the load of a new constant keeps the compiler sound, and raises
/// the height by one.
pub proof fn lemma_loaded(c: CompilerView, constant: ConstantView)
    requires
        sound(c),
        constant matches ConstantView::String(r) ==> r.index < c.objects.len(),
    ensures
        sound(loaded(c, constant)),
        c.parser.had_error ==> loaded(c, constant).parser.had_error,
        loaded(c, constant).parser.position == c.parser.position,
        loaded(c, constant).parser.current == c.parser.current,
        height(c) is Some ==> height(loaded(c, constant)) == Some(height(c).unwrap() + 1),
        tidy(c.parser) && !loaded(c, constant).parser.had_error ==> loaded(
            c,
            constant,
        ).chunk.constants.len() <= 256,
{
    let code = c.chunk.code;
    let pool = c.chunk.constants.len();
    let (added, index) = pooled(emitted(c, Op::Constant.byte()), constant);
    let after = loaded(c, constant);
    assert(after.chunk.code == code.push(Op::Constant.byte()).push(index));
    assert(after.chunk.constants == c.chunk.constants.push(constant));
    lemma_decodes_pool(code, pool, pool + 1, 0);
    lemma_decodes_push_constant(code, pool + 1, 0, index);
    if height(c) is Some {
        lemma_depth_pool(code, pool, pool + 1, 0, 0);
        lemma_depth_push_constant(code, pool + 1, 0, 0, index);
    }
}

/// The compiler: a parser, the chunk that it fills, and the heap on which
/// it interns string literals.
pub struct Compiler<'a> {
    parser: Parser<'a>,
    compiling_chunk: Chunk,
    heap: Heap,
}

impl<'a> View for Compiler<'a> {
    type V = CompilerView;

    closed spec fn view(&self) -> CompilerView {
        CompilerView {
            parser: self.parser@,
            chunk: self.compiling_chunk@,
            objects: self.heap.objects(),
            pool: self.heap.pool(),
        }
    }
}

impl<'a> Compiler<'a> {
    /// The bytes of the program.
    pub closed spec fn source(&self) -> Seq<u8> {
        self.parser.source()
    }

    /// The compiler's invariant: its parser's, and [`sound`].
    pub closed spec fn wf(&self) -> bool {
        &&& self.parser.wf()
        &&& sound(self@)
    }

    /// What the invariant says of the compiler's state.
    pub proof fn lemma_wf(&self)
        requires
            self.wf(),
        ensures
            sound(self@),
            tidy(self@.parser),
            0 <= self@.parser.position <= self.source().len() < usize::MAX,
    {
        self.parser.lemma_wf();
    }

    /// A compiler at the start of `source`, which will write behind what
    /// `chunk` holds and intern into `heap`. The chunk is well formed, its
    /// string constants live on the heap, and its code runs to its end:
    /// see [`Chunk::runs_to_end`]. A new chunk is such a chunk.
    pub fn new(source: &'a String, chunk: Chunk, heap: Heap) -> (compiler: Compiler<'a>)
        requires
            encode_utf8(source@).len() < usize::MAX,
            heap.wf(),
            chunk.well_formed(),
            constants_live(chunk@, heap.objects().len()),
            depth_at_end(chunk@.code, chunk@.constants.len(), 0, 0) is Some,
        ensures
            compiler.wf(),
            balanced(compiler@),
            compiler.source() == encode_utf8(source@),
            compiler@ == (CompilerView {
                chunk: chunk@,
                objects: heap.objects(),
                pool: heap.pool(),
                ..fresh_compiler()
            }),
    {
        let scanner = Scanner::new(source);
        let parser = Parser::new(scanner);
        Compiler { parser, compiling_chunk: chunk, heap }
    }

    /// Compiles the program: one expression, then the end of the source.
    /// Returns whether no error was found. If so, the chunk can be run.
    pub fn compile(&mut self) -> (ok: bool)
        requires
            old(self).wf(),
            balanced(old(self)@),
        ensures
            final(self).wf(),
            final(self).source() == old(self).source(),
            final(self)@ == compiled(old(self).source(), old(self)@),
            ok == !final(self)@.parser.had_error,
            sound(final(self)@),
            ok && old(self)@.chunk.constants.len() <= 256 ==> final(self)@.chunk.constants.len()
                <= 256,
            ok ==> runnable(final(self)@.chunk.code, final(self)@.chunk.constants.len(), 0, 0),
    {
        let ghost src = self.source();
        proof {
            self.parser.lemma_wf();
            lemma_advanced(src, self@.parser);
        }
        self.parser.advance();
        self.expression();
        proof {
            self.parser.lemma_wf();
            lemma_advanced(src, self@.parser);
        }
        self.parser.consume(TokenType::EOF, Message::ExpectEndOfExpression);
        proof {
            let c = self@;
            if !c.parser.had_error {
                lemma_runnable_push_return(c.chunk.code, c.chunk.constants.len(), 0, 0);
            }
            lemma_emitted(c, Op::Return);
        }
        self.end();
        !self.parser.had_error
    }

    /// Gives back the chunk and the heap.
    pub fn finish(self) -> (parts: (Chunk, Heap))
        requires
            self.wf(),
        ensures
            parts.0@ == self@.chunk,
            parts.1.objects() == self@.objects,
            parts.1.pool() == self@.pool,
            parts.1.wf(),
            parts.0.well_formed(),
    {
        (self.compiling_chunk, self.heap)
    }

    /// The errors that the compiler has reported, oldest first.
    pub fn errors(&self) -> (errors: &Vec<Diagnostic>)
        ensures
            errors@ == self@.parser.errors,
    {
        self.parser.errors()
    }

    fn grouping(&mut self)
        requires
            old(self).wf(),
            balanced(old(self)@),
        ensures
            final(self).wf(),
            final(self).source() == old(self).source(),
            final(self)@ == expected(
                old(self).source(),
                parsed(old(self).source(), old(self)@, Precedence::Assignment),
                TokenType::RightParen,
                Message::ExpectRightParen,
            ),
            follows(old(self).source(), old(self)@, final(self)@, 1),
        decreases remaining(old(self).source(), old(self)@.parser), 3int,
    {
        self.expression();
        proof {
            self.parser.lemma_wf();
            lemma_advanced(self.source(), self@.parser);
        }
        self.parser.consume(TokenType::RightParen, Message::ExpectRightParen);
    }

    fn expression(&mut self)
        requires
            old(self).wf(),
            balanced(old(self)@),
        ensures
            final(self).wf(),
            final(self).source() == old(self).source(),
            final(self)@ == parsed(old(self).source(), old(self)@, Precedence::Assignment),
            follows(old(self).source(), old(self)@, final(self)@, 1),
        decreases remaining(old(self).source(), old(self)@.parser), 2int,
    {
        self.parse_precedence(Precedence::Assignment);
    }

    fn unary(&mut self)
        requires
            old(self).wf(),
            balanced(old(self)@),
            old(self)@.parser.previous.token_type == TokenType::Minus || old(
                self,
            )@.parser.previous.token_type == TokenType::Bang,
        ensures
            final(self).wf(),
            final(self).source() == old(self).source(),
            final(self)@ == unary_applied(
                parsed(old(self).source(), old(self)@, Precedence::Unary),
                old(self)@.parser.previous.token_type,
            ),
            follows(old(self).source(), old(self)@, final(self)@, 1),
        decreases remaining(old(self).source(), old(self)@.parser), 2int,
    {
        let operator_type = self.parser.previous.token_type;

        // Compile the operand.
        self.parse_precedence(Precedence::Unary);

        // Emit the operator instruction.
        proof {
            lemma_emitted(self@, Op::Negate);
            lemma_emitted(self@, Op::Not);
        }
        match operator_type {
            TokenType::Minus => self.emit_op(Op::Negate),
            TokenType::Bang => self.emit_op(Op::Not),
            _ => {},
        }
    }

    fn binary(&mut self)
        requires
            old(self).wf(),
            balanced(old(self)@),
            infix_precedence(old(self)@.parser.previous.token_type) != Precedence::Lowest,
            !old(self)@.parser.had_error ==> height(old(self)@).unwrap() >= 1,
        ensures
            final(self).wf(),
            final(self).source() == old(self).source(),
            final(self)@ == binary_applied(
                parsed(
                    old(self).source(),
                    old(self)@,
                    infix_precedence(old(self)@.parser.previous.token_type).successor(),
                ),
                old(self)@.parser.previous.token_type,
            ),
            follows(old(self).source(), old(self)@, final(self)@, 0),
        decreases remaining(old(self).source(), old(self)@.parser), 2int,
    {
        let operator_type = self.parser.previous.token_type;
        let rule = get_rule(operator_type);
        self.parse_precedence(rule.precedence.next());

        let ghost operand = self@;
        proof {
            lemma_emitted(operand, Op::Equal);
            lemma_emitted(operand, Op::Greater);
            lemma_emitted(operand, Op::Less);
            lemma_emitted(operand, Op::Add);
            lemma_emitted(operand, Op::Subtract);
            lemma_emitted(operand, Op::Multiply);
            lemma_emitted(operand, Op::Divide);
            lemma_emitted(emitted(operand, Op::Equal.byte()), Op::Not);
            lemma_emitted(emitted(operand, Op::Less.byte()), Op::Not);
            lemma_emitted(emitted(operand, Op::Greater.byte()), Op::Not);
        }
        match operator_type {
            TokenType::BangEqual => self.emit_ops(Op::Equal, Op::Not),
            TokenType::EqualEqual => self.emit_op(Op::Equal),
            TokenType::Greater => self.emit_op(Op::Greater),
            TokenType::GreaterEqual => self.emit_ops(Op::Less, Op::Not),
            TokenType::Less => self.emit_op(Op::Less),
            TokenType::LessEqual => self.emit_ops(Op::Greater, Op::Not),
            TokenType::Plus => self.emit_op(Op::Add),
            TokenType::Minus => self.emit_op(Op::Subtract),
            TokenType::Star => self.emit_op(Op::Multiply),
            TokenType::Slash => self.emit_op(Op::Divide),
            _ => {},
        }
    }

    fn literal(&mut self)
        requires
            old(self).wf(),
            balanced(old(self)@),
            prefix_of(old(self)@.parser.previous.token_type) == Some(ParseFn::Literal),
        ensures
            final(self).wf(),
            final(self).source() == old(self).source(),
            final(self)@ == literal_compiled(old(self)@),
            follows(old(self).source(), old(self)@, final(self)@, 1),
    {
        proof {
            lemma_emitted(self@, Op::Nil);
            lemma_emitted(self@, Op::False);
            lemma_emitted(self@, Op::True);
        }
        match self.parser.previous.token_type {
            TokenType::Nil => self.emit_op(Op::Nil),
            TokenType::False => self.emit_op(Op::False),
            TokenType::True => self.emit_op(Op::True),
            _ => {},
        }
    }

    fn string(&mut self)
        requires
            old(self).wf(),
            balanced(old(self)@),
            old(self)@.parser.previous.token_type == TokenType::String,
        ensures
            final(self).wf(),
            final(self).source() == old(self).source(),
            final(self)@ == string_compiled(old(self).source(), old(self)@),
            follows(old(self).source(), old(self)@, final(self)@, 1),
    {
        proof {
            self.parser.lemma_wf();
        }
        let token = self.parser.previous;
        let quoted = self.parser.scanner.get_lexeme(&token);
        let text = slice_to_vec(slice_subrange(quoted, 1, token.length - 1));
        assert(text@ =~= string_text(self.source(), token));
        let interned = self.intern_string(text);
        proof {
            lemma_loaded(self@, interned@);
        }
        self.emit_constant(interned);
    }

    /// Interns the text of a string literal and makes the handle a
    /// constant.
    fn intern_string(&mut self, str: Vec<u8>) -> (constant: Constant)
        requires
            old(self).wf(),
        ensures
            final(self).wf(),
            final(self).parser == old(self).parser,
            final(self).compiling_chunk == old(self).compiling_chunk,
            final(self)@.objects == intern_objects(old(self)@.objects, old(self)@.pool, str@),
            final(self)@.pool == intern_pool(old(self)@.objects, old(self)@.pool, str@),
            constant@ == ConstantView::String(
                Ref { index: intern_index(old(self)@.objects, old(self)@.pool, str@) as usize },
            ),
            constant@ matches ConstantView::String(r) && r.index < final(self)@.objects.len(),
    {
        Constant::String(self.heap.manage_str(str))
    }

    #[verifier::rlimit(80)]
    fn parse_precedence(&mut self, precedence: Precedence)
        requires
            old(self).wf(),
            balanced(old(self)@),
            precedence != Precedence::Lowest,
        ensures
            final(self).wf(),
            final(self).source() == old(self).source(),
            final(self)@ == parsed(old(self).source(), old(self)@, precedence),
            follows(old(self).source(), old(self)@, final(self)@, 1),
        decreases remaining(old(self).source(), old(self)@.parser), 1int,
    {
        let ghost src = self.source();
        proof {
            self.parser.lemma_wf();
            lemma_advanced(src, self@.parser);
        }
        let ghost target = parsed(src, old(self)@, precedence);
        self.parser.advance();
        proof {
            self.parser.lemma_wf();
        }
        let prefix_rule = get_rule(self.parser.previous.token_type).prefix;
        match prefix_rule {
            None => self.parser.error(Message::ExpectExpression),
            Some(ParseFn::Grouping) => self.grouping(),
            Some(ParseFn::Unary) => self.unary(),
            Some(ParseFn::Number) => self.number(),
            Some(ParseFn::Literal) => self.literal(),
            Some(ParseFn::String) => self.string(),
            Some(ParseFn::Binary) => {},
        }
        proof {
            self.parser.lemma_wf();
        }
        assert(continued(src, self@, precedence) == target);

        let prec_byte = precedence.to_u8();

        while prec_byte <= get_rule(self.parser.current.token_type).precedence.to_u8()
            invariant
                self.wf(),
                self.source() == src,
                src == old(self).source(),
                prec_byte == precedence.level(),
                precedence != Precedence::Lowest,
                continued(src, self@, precedence) == target,
                follows(src, old(self)@, self@, 1),
            decreases remaining(src, self@.parser),
        {
            proof {
                self.parser.lemma_wf();
                lemma_advanced(src, self@.parser);
            }
            self.parser.advance();
            let infix_rule = get_rule(self.parser.previous.token_type).infix;
            match infix_rule {
                Some(ParseFn::Binary) => self.binary(),
                _ => {},
            }
            proof {
                self.parser.lemma_wf();
            }
        }
        proof {
            self.parser.lemma_wf();
        }
    }

    fn end(&mut self)
        requires
            old(self).parser.wf(),
        ensures
            final(self).parser.wf(),
            final(self).source() == old(self).source(),
            final(self)@ == emitted(old(self)@, Op::Return.byte()),
    {
        self.emit_return();
    }

    fn number(&mut self)
        requires
            old(self).wf(),
            balanced(old(self)@),
        ensures
            final(self).wf(),
            final(self).source() == old(self).source(),
            final(self)@ == number_compiled(old(self).source(), old(self)@),
            follows(old(self).source(), old(self)@, final(self)@, 1),
    {
        proof {
            self.parser.lemma_wf();
        }
        let token = self.parser.previous;
        let value = slice_to_vec(self.parser.scanner.get_lexeme(&token));
        proof {
            lemma_loaded(self@, ConstantView::Number(value@));
        }
        self.emit_constant(Constant::Number(value));
    }

    fn emit_return(&mut self)
        requires
            old(self).parser.wf(),
        ensures
            final(self).parser.wf(),
            final(self).source() == old(self).source(),
            final(self)@ == emitted(old(self)@, Op::Return.byte()),
    {
        self.emit_op(Op::Return);
    }

    fn emit_op(&mut self, op: Op)
        requires
            old(self).parser.wf(),
        ensures
            final(self).parser.wf(),
            final(self).source() == old(self).source(),
            final(self)@ == emitted(old(self)@, op.byte()),
    {
        self.compiling_chunk.write_op(op, self.parser.previous.line);
        assert(self@.chunk.constants =~= old(self)@.chunk.constants);
    }

    fn emit_ops(&mut self, op1: Op, op2: Op)
        requires
            old(self).parser.wf(),
        ensures
            final(self).parser.wf(),
            final(self).source() == old(self).source(),
            final(self)@ == emitted(emitted(old(self)@, op1.byte()), op2.byte()),
    {
        self.compiling_chunk.write_op(op1, self.parser.previous.line);
        self.compiling_chunk.write_op(op2, self.parser.previous.line);
        assert(self@.chunk.constants =~= old(self)@.chunk.constants);
    }

    fn emit_byte(&mut self, byte: u8)
        requires
            old(self).parser.wf(),
        ensures
            final(self).parser.wf(),
            final(self).source() == old(self).source(),
            final(self)@ == emitted(old(self)@, byte),
    {
        self.compiling_chunk.write(byte, self.parser.previous.line);
        assert(self@.chunk.constants =~= old(self)@.chunk.constants);
    }

    fn emit_constant(&mut self, value: Constant)
        requires
            old(self).parser.wf(),
        ensures
            final(self).parser.wf(),
            final(self).source() == old(self).source(),
            final(self)@ == loaded(old(self)@, value@),
    {
        self.emit_op(Op::Constant);
        let constant = self.make_constant(value);
        self.emit_byte(constant);
    }

    /// Adds a constant to the pool and returns the operand that names it.
    fn make_constant(&mut self, value: Constant) -> (operand: u8)
        requires
            old(self).parser.wf(),
        ensures
            final(self).parser.wf(),
            final(self).source() == old(self).source(),
            (final(self)@, operand) == pooled(old(self)@, value@),
    {
        let constant = self.compiling_chunk.add_constant(value);
        assert(self@.chunk.constants =~= old(self)@.chunk.constants.push(value@));
        if constant > u8::MAX as usize {
            self.parser.error(Message::TooManyConstants);
            return 0;
        }
        constant as u8
    }
}

} // verus!
