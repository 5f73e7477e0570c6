use rlox::chunk::Chunk;
use rlox::chunk::Constant;
use rlox::chunk::Op;
use rlox::compiler::get_rule;
use rlox::compiler::Compiler;
use rlox::compiler::Diagnostic;
use rlox::compiler::Message;
use rlox::compiler::ParseFn;
use rlox::compiler::Parser;
use rlox::compiler::Precedence;
use rlox::memory::Heap;
use rlox::scanner::Scanner;
use rlox::scanner::Token;
use rlox::scanner::TokenType;

struct Compiled {
    ok: bool,
    chunk: Chunk,
    heap: Heap,
    errors: Vec<Diagnostic>,
}

fn compile(source: &str) -> Compiled {
    let source = source.to_string();
    let mut compiler = Compiler::new(&source, Chunk::new(), Heap::new());
    let ok = compiler.compile();
    let errors = compiler.errors().clone();
    let (chunk, heap) = compiler.finish();
    Compiled { ok, chunk, heap, errors }
}

fn ops(list: &[Op]) -> Vec<u8> {
    list.iter().map(|op| op.to_u8()).collect()
}

fn number_texts(chunk: &Chunk) -> Vec<String> {
    chunk
        .constants
        .iter()
        .map(|c| match c {
            Constant::Number(text) => String::from_utf8(text.clone()).unwrap(),
            Constant::String(_) => panic!("a string among the numbers"),
        })
        .collect()
}

#[test]
fn precedence_ladder_climbs_one_step_at_a_time() {
    let ladder = [
        Precedence::Lowest,
        Precedence::Assignment,
        Precedence::Or,
        Precedence::And,
        Precedence::Equality,
        Precedence::Comparison,
        Precedence::Term,
        Precedence::Factor,
        Precedence::Unary,
        Precedence::Call,
        Precedence::Primary,
    ];
    for i in 0..ladder.len() {
        assert_eq!(ladder[i].to_u8() as usize, i);
        if i + 1 < ladder.len() {
            assert_eq!(ladder[i].next(), ladder[i + 1]);
        }
    }
    assert_eq!(Precedence::Primary.next(), Precedence::Primary);
}

#[test]
fn rule_table_is_the_canonical_one() {
    let r = get_rule(TokenType::LeftParen);
    assert_eq!((r.prefix, r.infix, r.precedence), (Some(ParseFn::Grouping), None, Precedence::Lowest));
    let r = get_rule(TokenType::Minus);
    assert_eq!(
        (r.prefix, r.infix, r.precedence),
        (Some(ParseFn::Unary), Some(ParseFn::Binary), Precedence::Term)
    );
    let r = get_rule(TokenType::Plus);
    assert_eq!((r.prefix, r.infix, r.precedence), (None, Some(ParseFn::Binary), Precedence::Term));
    for kind in [TokenType::Slash, TokenType::Star] {
        let r = get_rule(kind);
        assert_eq!((r.prefix, r.infix, r.precedence), (None, Some(ParseFn::Binary), Precedence::Factor));
    }
    let r = get_rule(TokenType::Number);
    assert_eq!((r.prefix, r.infix, r.precedence), (Some(ParseFn::Number), None, Precedence::Lowest));
    let r = get_rule(TokenType::Bang);
    assert_eq!((r.prefix, r.infix, r.precedence), (Some(ParseFn::Unary), None, Precedence::Lowest));
    for kind in [TokenType::BangEqual, TokenType::EqualEqual] {
        let r = get_rule(kind);
        assert_eq!((r.prefix, r.infix, r.precedence), (None, Some(ParseFn::Binary), Precedence::Equality));
    }
    for kind in [TokenType::Greater, TokenType::GreaterEqual, TokenType::Less, TokenType::LessEqual] {
        let r = get_rule(kind);
        assert_eq!(
            (r.prefix, r.infix, r.precedence),
            (None, Some(ParseFn::Binary), Precedence::Comparison)
        );
    }
    for kind in [TokenType::Nil, TokenType::False, TokenType::True] {
        let r = get_rule(kind);
        assert_eq!((r.prefix, r.infix, r.precedence), (Some(ParseFn::Literal), None, Precedence::Lowest));
    }
    let r = get_rule(TokenType::String);
    assert_eq!((r.prefix, r.infix, r.precedence), (Some(ParseFn::String), None, Precedence::Lowest));
    for kind in [
        TokenType::RightParen,
        TokenType::LeftBrace,
        TokenType::Equal,
        TokenType::Identifier,
        TokenType::And,
        TokenType::Print,
        TokenType::Error,
        TokenType::EOF,
    ] {
        let r = get_rule(kind);
        assert_eq!((r.prefix, r.infix, r.precedence), (None, None, Precedence::Lowest));
    }
}

#[test]
fn number_becomes_a_constant() {
    let c = compile("12.5");
    assert!(c.ok);
    assert_eq!(c.chunk.code, vec![0, 0, 13]);
    assert_eq!(c.chunk.lines, vec![1, 1, 1]);
    assert_eq!(number_texts(&c.chunk), vec!["12.5"]);
    assert!(c.errors.is_empty());
}

#[test]
fn literals_have_their_own_instructions() {
    assert_eq!(compile("nil").chunk.code, ops(&[Op::Nil, Op::Return]));
    assert_eq!(compile("false").chunk.code, ops(&[Op::False, Op::Return]));
    assert_eq!(compile("true").chunk.code, ops(&[Op::True, Op::Return]));
}

#[test]
fn unary_operators_follow_their_operand() {
    assert_eq!(compile("!nil").chunk.code, ops(&[Op::Nil, Op::Not, Op::Return]));
    assert_eq!(compile("-1").chunk.code, vec![0, 0, 12, 13]);
    assert_eq!(compile("!!true").chunk.code, ops(&[Op::True, Op::Not, Op::Not, Op::Return]));
    assert_eq!(compile("--1").chunk.code, vec![0, 0, 12, 12, 13]);
}

#[test]
fn each_binary_operator_emits_its_instructions() {
    let cases: Vec<(&str, Vec<Op>)> = vec![
        ("+", vec![Op::Add]),
        ("-", vec![Op::Subtract]),
        ("*", vec![Op::Multiply]),
        ("/", vec![Op::Divide]),
        ("==", vec![Op::Equal]),
        ("!=", vec![Op::Equal, Op::Not]),
        ("<", vec![Op::Less]),
        ("<=", vec![Op::Greater, Op::Not]),
        (">", vec![Op::Greater]),
        (">=", vec![Op::Less, Op::Not]),
    ];
    for (text, emitted) in cases {
        let c = compile(&format!("nil {} true", text));
        assert!(c.ok);
        let mut expected = ops(&[Op::Nil, Op::True]);
        expected.extend(ops(&emitted));
        expected.push(Op::Return.to_u8());
        assert_eq!(c.chunk.code, expected, "{}", text);
    }
}

#[test]
fn factor_binds_tighter_than_term() {
    let c = compile("1 + 2 * 3");
    assert!(c.ok);
    assert_eq!(c.chunk.code, vec![0, 0, 0, 1, 0, 2, 9, 7, 13]);
    assert_eq!(number_texts(&c.chunk), vec!["1", "2", "3"]);
    let c = compile("1 * 2 + 3");
    assert_eq!(c.chunk.code, vec![0, 0, 0, 1, 9, 0, 2, 7, 13]);
}

#[test]
fn operators_of_one_strength_group_to_the_left() {
    let c = compile("1 - 2 - 3");
    assert_eq!(c.chunk.code, vec![0, 0, 0, 1, 8, 0, 2, 8, 13]);
    let c = compile("1 < 2 < 3");
    assert!(c.ok);
    assert_eq!(c.chunk.code, vec![0, 0, 0, 1, 6, 0, 2, 6, 13]);
}

#[test]
fn grouping_is_compiled_first() {
    let c = compile("(1 + 2) * 3");
    assert!(c.ok);
    assert_eq!(c.chunk.code, vec![0, 0, 0, 1, 7, 0, 2, 9, 13]);
    let c = compile("((nil))");
    assert!(c.ok);
    assert_eq!(c.chunk.code, ops(&[Op::Nil, Op::Return]));
}

#[test]
fn unary_binds_tighter_than_binary() {
    let c = compile("-1 + 2");
    assert_eq!(c.chunk.code, vec![0, 0, 12, 0, 1, 7, 13]);
    let c = compile("!true == false");
    assert_eq!(c.chunk.code, ops(&[Op::True, Op::Not, Op::False, Op::Equal, Op::Return]));
    let c = compile("1 - -2");
    assert_eq!(c.chunk.code, vec![0, 0, 0, 1, 12, 8, 13]);
}

#[test]
fn comparison_binds_tighter_than_equality() {
    let c = compile("!(5 - 4 > 3 * 2 == !nil)");
    assert!(c.ok);
    assert_eq!(
        c.chunk.code,
        vec![0, 0, 0, 1, 8, 0, 2, 0, 3, 9, 5, 1, 11, 4, 11, 13]
    );
}

#[test]
fn string_literals_are_interned_without_their_quotes() {
    let c = compile("\"st\" + \"r\" + \"st\"");
    assert!(c.ok);
    assert_eq!(c.chunk.code, vec![0, 0, 0, 1, 7, 0, 2, 7, 13]);
    let handles: Vec<usize> = c
        .chunk
        .constants
        .iter()
        .map(|c| match c {
            Constant::String(r) => r.index,
            Constant::Number(_) => panic!("a number among the strings"),
        })
        .collect();
    assert_eq!(handles, vec![0, 1, 0]);
    assert_eq!(c.heap.len(), 2);
    match &c.chunk.constants[0] {
        Constant::String(r) => assert_eq!(r.obj(&c.heap).as_slice(), b"st"),
        Constant::Number(_) => unreachable!(),
    }
    match &c.chunk.constants[1] {
        Constant::String(r) => assert_eq!(r.obj(&c.heap).as_slice(), b"r"),
        Constant::Number(_) => unreachable!(),
    }
}

#[test]
fn string_literals_have_no_escapes() {
    let c = compile("\"a\\n\"");
    assert!(c.ok);
    match &c.chunk.constants[0] {
        Constant::String(r) => assert_eq!(r.obj(&c.heap).as_slice(), b"a\\n"),
        Constant::Number(_) => unreachable!(),
    }
}

#[test]
fn code_carries_the_line_of_the_token_before_it() {
    let c = compile("1 +\n2\n");
    assert!(c.ok);
    assert_eq!(c.chunk.code, vec![0, 0, 0, 1, 7, 13]);
    // The return is emitted once the end of the source, on line 3, is passed.
    assert_eq!(c.chunk.lines, vec![1, 1, 2, 2, 2, 3]);
}

#[test]
fn comments_and_blanks_are_ignored() {
    let c = compile("  // nothing here\n 1 // one\n + 2 // two");
    assert!(c.ok);
    assert_eq!(c.chunk.code, vec![0, 0, 0, 1, 7, 13]);
    assert_eq!(c.chunk.lines, vec![2, 2, 3, 3, 3, 3]);
}

fn long_sum(terms: usize) -> String {
    let mut source = String::from("0");
    for i in 1..terms {
        source.push_str(&format!(" + {}", i));
    }
    source
}

#[test]
fn two_hundred_and_fifty_six_constants_are_accepted() {
    let c = compile(&long_sum(256));
    assert!(c.ok);
    assert_eq!(c.chunk.constants.len(), 256);
    assert_eq!(c.chunk.code[c.chunk.code.len() - 3], 255);
    assert!(c.chunk.can_run());
}

#[test]
fn the_constant_after_those_is_one_too_many() {
    let c = compile(&long_sum(257));
    assert!(!c.ok);
    assert_eq!(c.errors.len(), 1);
    assert_eq!(c.errors[0].message, Message::TooManyConstants);
    assert_eq!(c.errors[0].message.message(), "Too many constants in one chunk");
    assert_eq!(c.errors[0].token.token_type, TokenType::Number);
    // The constant is added all the same, and named by operand zero.
    assert_eq!(c.chunk.constants.len(), 257);
    assert_eq!(c.chunk.code[c.chunk.code.len() - 3], 0);
}

#[test]
fn missing_operand_is_reported_at_the_end() {
    let source = "1 +";
    let c = compile(source);
    assert!(!c.ok);
    assert_eq!(c.errors.len(), 1);
    assert_eq!(c.errors[0].message, Message::ExpectExpression);
    assert_eq!(c.errors[0].token.token_type, TokenType::EOF);
    assert_eq!(
        String::from_utf8(c.errors[0].render(source.as_bytes())).unwrap(),
        "[line 1] Error at end: Expect expression.\n"
    );
}

#[test]
fn missing_parenthesis_is_reported() {
    let source = "(1 + 2";
    let c = compile(source);
    assert!(!c.ok);
    assert_eq!(c.errors[0].message, Message::ExpectRightParen);
    assert_eq!(
        String::from_utf8(c.errors[0].render(source.as_bytes())).unwrap(),
        "[line 1] Error at end: Expect ')' after expression.\n"
    );
}

#[test]
fn what_follows_the_expression_is_reported() {
    let source = "1\n 2";
    let c = compile(source);
    assert!(!c.ok);
    assert_eq!(c.errors[0].message, Message::ExpectEndOfExpression);
    assert_eq!(c.errors[0].token, Token { token_type: TokenType::Number, start: 3, length: 1, line: 2 });
    assert_eq!(
        String::from_utf8(c.errors[0].render(source.as_bytes())).unwrap(),
        "[line 2] Error at '2': Expect end of expression\n"
    );
}

#[test]
fn a_token_that_begins_no_expression_is_reported() {
    let source = "* 2";
    let c = compile(source);
    assert!(!c.ok);
    assert_eq!(
        String::from_utf8(c.errors[0].render(source.as_bytes())).unwrap(),
        "[line 1] Error at '*': Expect expression.\n"
    );
    let c = compile("");
    assert!(!c.ok);
    assert_eq!(c.errors[0].message, Message::ExpectExpression);
    let c = compile("print 1");
    assert!(!c.ok);
    assert_eq!(c.errors[0].message, Message::ExpectExpression);
    assert_eq!(c.errors[0].token.token_type, TokenType::Print);
}

#[test]
fn unterminated_string_is_a_compile_error() {
    let source = "\"abc";
    let c = compile(source);
    assert!(!c.ok);
    assert_eq!(c.errors.len(), 1);
    assert_eq!(c.errors[0].message, Message::UnknownToken);
    assert_eq!(c.errors[0].token.token_type, TokenType::Error);
    assert_eq!(
        String::from_utf8(c.errors[0].render(source.as_bytes())).unwrap(),
        "[line 1] Error: Unknown token\n"
    );
}

#[test]
fn only_the_first_error_is_reported() {
    let c = compile("@ + ) (");
    assert!(!c.ok);
    assert_eq!(c.errors.len(), 1);
    assert_eq!(c.errors[0].message, Message::UnknownToken);
    let c = compile("1 + + )");
    assert!(!c.ok);
    assert_eq!(c.errors.len(), 1);
    assert_eq!(c.errors[0].message, Message::ExpectExpression);
    assert_eq!(c.errors[0].token.token_type, TokenType::Plus);
    // An unknown byte is reported when the parser first looks at it, which
    // is before it reports the operator in front of it.
    let c = compile("1 + + @");
    assert!(!c.ok);
    assert_eq!(c.errors.len(), 1);
    assert_eq!(c.errors[0].message, Message::UnknownToken);
}

#[test]
fn every_compiled_chunk_keeps_its_invariants() {
    let sources = [
        "1",
        "1 + 2 * 3",
        "(1 + 2) * 3",
        "!(5 - 4 > 3 * 2 == !nil)",
        "\"st\" + \"r\"",
        "-true",
        "1 < 2 < 3",
        "nil == (nil == (nil == nil))",
        "1 +",
        ") (",
        "\"open",
        "",
    ];
    for source in sources {
        let c = compile(source);
        assert_eq!(c.chunk.code.len(), c.chunk.lines.len(), "{}", source);
        let mut at = 0;
        while at < c.chunk.code.len() {
            let op = Op::from_u8(c.chunk.code[at]).unwrap();
            if op == Op::Constant {
                assert!((c.chunk.code[at + 1] as usize) < c.chunk.constants.len(), "{}", source);
                at += 2;
            } else {
                at += 1;
            }
        }
        assert_eq!(c.ok, c.errors.is_empty());
        if c.ok {
            assert!(c.chunk.can_run(), "{}", source);
        }
    }
}

#[test]
fn compiler_writes_behind_what_the_chunk_holds() {
    let mut chunk = Chunk::new();
    chunk.add_constant(Constant::Number(b"9".to_vec()));
    chunk.write_op(Op::Constant, 7);
    chunk.write(0, 7);
    chunk.write_op(Op::Negate, 7);
    assert_eq!(chunk.runs_to_end(), Some(1));
    let source = "1 + 2".to_string();
    let mut compiler = Compiler::new(&source, chunk, Heap::new());
    assert!(compiler.compile());
    let (chunk, _) = compiler.finish();
    assert_eq!(chunk.code, vec![0, 0, 12, 0, 1, 0, 2, 7, 13]);
    assert_eq!(chunk.lines, vec![7, 7, 7, 1, 1, 1, 1, 1, 1]);
    assert_eq!(number_texts(&chunk), vec!["9", "1", "2"]);
    assert!(chunk.can_run());
}

#[test]
fn parser_walks_the_tokens_two_at_a_time() {
    let source = "1 @ + )".to_string();
    let mut parser = Parser::new(Scanner::new(&source));
    assert!(!parser.had_error());
    parser.advance();
    assert!(!parser.had_error());
    // The unknown byte is reported while the parser passes the number.
    parser.advance();
    assert!(parser.had_error());
    assert_eq!(parser.errors().len(), 1);
    assert_eq!(parser.errors()[0].message, Message::UnknownToken);
    parser.consume(TokenType::Plus, Message::ExpectExpression);
    parser.consume(TokenType::LeftParen, Message::ExpectRightParen);
    parser.error(Message::ExpectExpression);
    parser.error_at_current(Message::ExpectExpression);
    // The parser panics since its first error, and reports no other.
    assert_eq!(parser.errors().len(), 1);
}

#[test]
fn consume_reports_what_it_does_not_find() {
    let source = "1 2".to_string();
    let mut parser = Parser::new(Scanner::new(&source));
    parser.advance();
    parser.consume(TokenType::Number, Message::ExpectExpression);
    assert!(!parser.had_error());
    parser.consume(TokenType::RightParen, Message::ExpectRightParen);
    assert!(parser.had_error());
    assert_eq!(
        parser.errors()[0],
        Diagnostic {
            token: Token { token_type: TokenType::Number, start: 2, length: 1, line: 1 },
            message: Message::ExpectRightParen,
        }
    );
}
