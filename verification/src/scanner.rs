use vstd::prelude::*;
use vstd::utf8::encode_utf8;

verus! {

/// The scanner: a cursor over the bytes of a program.
///
/// `start` is where the token being scanned begins, `current` the next byte
/// to read, and `line` the line that `current` is on, counted from one.
pub struct Scanner<'a> {
    pub source: &'a [u8],
    start: usize,
    current: usize,
    line: usize,
}

/// A token: its kind, the place of its text in the source, and the line on
/// which it ends. A token of kind `Error` has no text.
#[derive(Clone, Copy, PartialEq, Eq, Structural, Debug)]
pub struct Token {
    pub token_type: TokenType,
    pub start: usize,
    pub length: usize,
    pub line: usize,
}

#[derive(Clone, Copy, PartialEq, Eq, Structural, Debug)]
pub enum TokenType {
    // Single-character tokens.
    LeftParen,
    RightParen,
    LeftBrace,
    RightBrace,
    Comma,
    Dot,
    Minus,
    Plus,
    Semicolon,
    Slash,
    Star,
    // One or two character tokens.
    Bang,
    BangEqual,
    Equal,
    EqualEqual,
    Greater,
    GreaterEqual,
    Less,
    LessEqual,
    // Literals.
    Identifier,
    String,
    Number,
    // Keywords.
    And,
    Class,
    Else,
    False,
    For,
    Fun,
    If,
    Nil,
    Or,
    Print,
    Return,
    Super,
    This,
    True,
    Var,
    While,
    Error,
    EOF,
}

/// An ASCII digit.
pub open spec fn digit(c: u8) -> bool {
    '0' as u8 <= c <= '9' as u8
}

/// An ASCII letter or the underscore.
pub open spec fn alpha(c: u8) -> bool {
    ('a' as u8 <= c <= 'z' as u8) || ('A' as u8 <= c <= 'Z' as u8) || c == '_' as u8
}

/// Space, carriage return, tab or newline.
pub open spec fn blank(c: u8) -> bool {
    c == ' ' as u8 || c == '\r' as u8 || c == '\t' as u8 || c == '\n' as u8
}

/// The bytes that may follow the first byte of an identifier.
pub open spec fn word_byte() -> spec_fn(u8) -> bool {
    |c: u8| alpha(c) || digit(c)
}

pub open spec fn digit_byte() -> spec_fn(u8) -> bool {
    |c: u8| digit(c)
}

/// The bytes inside a comment: all but the newline.
pub open spec fn comment_byte() -> spec_fn(u8) -> bool {
    |c: u8| c != '\n' as u8
}

/// The bytes inside a string literal: all but the double quote.
pub open spec fn string_byte() -> spec_fn(u8) -> bool {
    |c: u8| c != '"' as u8
}

/// The end of the longest run of bytes from `from` on that all satisfy `p`.
pub open spec fn run_end(src: Seq<u8>, from: int, p: spec_fn(u8) -> bool) -> int
    decreases src.len() - from,
{
    if 0 <= from < src.len() && p(src[from]) {
        run_end(src, from + 1, p)
    } else {
        from
    }
}

pub proof fn lemma_run_end(src: Seq<u8>, from: int, p: spec_fn(u8) -> bool)
    requires
        0 <= from <= src.len(),
    ensures
        from <= run_end(src, from, p) <= src.len(),
        forall|i: int| from <= i < run_end(src, from, p) ==> p(#[trigger] src[i]),
        run_end(src, from, p) < src.len() ==> !p(src[run_end(src, from, p)]),
    decreases src.len() - from,
{
    if from < src.len() && p(src[from]) {
        lemma_run_end(src, from + 1, p);
    }
}

/// Where the next token starts when the scanner stands at `at`: behind the
/// blanks and the comments. A comment runs from `//` up to the newline.
pub open spec fn skip_blank(src: Seq<u8>, at: int) -> int
    decreases src.len() - at,
{
    if at < 0 || at >= src.len() {
        at
    } else if blank(src[at]) {
        skip_blank(src, at + 1)
    } else if src[at] == '/' as u8 && at + 1 < src.len() && src[at + 1] == '/' as u8 {
        proof {
            lemma_run_end(src, at + 2, comment_byte());
        }
        skip_blank(src, run_end(src, at + 2, comment_byte()))
    } else {
        at
    }
}

pub proof fn lemma_skip_blank(src: Seq<u8>, at: int)
    requires
        0 <= at <= src.len(),
    ensures
        at <= skip_blank(src, at) <= src.len(),
        skip_blank(src, at) < src.len() ==> !blank(src[skip_blank(src, at)]),
    decreases src.len() - at,
{
    if at < src.len() {
        if blank(src[at]) {
            lemma_skip_blank(src, at + 1);
        } else if src[at] == '/' as u8 && at + 1 < src.len() && src[at + 1] == '/' as u8 {
            lemma_run_end(src, at + 2, comment_byte());
            lemma_skip_blank(src, run_end(src, at + 2, comment_byte()));
        }
    }
}

/// The number of newlines among the first `upto` bytes.
pub open spec fn newlines(src: Seq<u8>, upto: int) -> nat
    decreases upto,
{
    if upto <= 0 {
        0
    } else if upto <= src.len() && src[upto - 1] == '\n' as u8 {
        newlines(src, upto - 1) + 1
    } else {
        newlines(src, upto - 1)
    }
}

/// The line, counted from one, that the byte at `at` is on.
pub open spec fn line_at(src: Seq<u8>, at: int) -> nat {
    newlines(src, at) + 1
}

pub proof fn lemma_newlines_bound(src: Seq<u8>, upto: int)
    requires
        0 <= upto,
    ensures
        newlines(src, upto) <= upto,
    decreases upto,
{
    if upto > 0 {
        lemma_newlines_bound(src, upto - 1);
    }
}

/// A run of bytes without a newline stays on its line.
pub proof fn lemma_same_line(src: Seq<u8>, from: int, to: int)
    requires
        0 <= from <= to <= src.len(),
        forall|i: int| from <= i < to ==> src[i] != '\n' as u8,
    ensures
        newlines(src, to) == newlines(src, from),
    decreases to - from,
{
    if from < to {
        lemma_same_line(src, from, to - 1);
    }
}

/// The bytes of a text that is all ASCII.
pub open spec fn ascii(text: Seq<char>) -> Seq<u8> {
    Seq::new(text.len(), |i: int| text[i] as u8)
}

/// The kind of a word: a keyword where the word is one, else `Identifier`.
pub open spec fn keyword(word: Seq<u8>) -> TokenType {
    if word == ascii("and"@) {
        TokenType::And
    } else if word == ascii("class"@) {
        TokenType::Class
    } else if word == ascii("else"@) {
        TokenType::Else
    } else if word == ascii("false"@) {
        TokenType::False
    } else if word == ascii("for"@) {
        TokenType::For
    } else if word == ascii("fun"@) {
        TokenType::Fun
    } else if word == ascii("if"@) {
        TokenType::If
    } else if word == ascii("nil"@) {
        TokenType::Nil
    } else if word == ascii("or"@) {
        TokenType::Or
    } else if word == ascii("print"@) {
        TokenType::Print
    } else if word == ascii("return"@) {
        TokenType::Return
    } else if word == ascii("super"@) {
        TokenType::Super
    } else if word == ascii("this"@) {
        TokenType::This
    } else if word == ascii("true"@) {
        TokenType::True
    } else if word == ascii("var"@) {
        TokenType::Var
    } else if word == ascii("while"@) {
        TokenType::While
    } else {
        TokenType::Identifier
    }
}

/// The token that one byte of punctuation makes by itself, whatever
/// follows it.
pub open spec fn single(c: u8) -> Option<TokenType> {
    if c == '(' as u8 {
        Some(TokenType::LeftParen)
    } else if c == ')' as u8 {
        Some(TokenType::RightParen)
    } else if c == '{' as u8 {
        Some(TokenType::LeftBrace)
    } else if c == '}' as u8 {
        Some(TokenType::RightBrace)
    } else if c == ';' as u8 {
        Some(TokenType::Semicolon)
    } else if c == ',' as u8 {
        Some(TokenType::Comma)
    } else if c == '.' as u8 {
        Some(TokenType::Dot)
    } else if c == '-' as u8 {
        Some(TokenType::Minus)
    } else if c == '+' as u8 {
        Some(TokenType::Plus)
    } else if c == '/' as u8 {
        Some(TokenType::Slash)
    } else if c == '*' as u8 {
        Some(TokenType::Star)
    } else {
        None
    }
}

/// The token that an operator byte makes, alone or with `=` behind it.
pub open spec fn operator(c: u8, with_equal: bool) -> Option<TokenType> {
    if c == '!' as u8 {
        Some(if with_equal { TokenType::BangEqual } else { TokenType::Bang })
    } else if c == '=' as u8 {
        Some(if with_equal { TokenType::EqualEqual } else { TokenType::Equal })
    } else if c == '<' as u8 {
        Some(if with_equal { TokenType::LessEqual } else { TokenType::Less })
    } else if c == '>' as u8 {
        Some(if with_equal { TokenType::GreaterEqual } else { TokenType::Greater })
    } else {
        None
    }
}

/// Where a number ends whose first digit is just before `from`: behind the
/// digits, and behind a point and more digits if a digit follows the point.
pub open spec fn number_end(src: Seq<u8>, from: int) -> int {
    let whole = run_end(src, from, digit_byte());
    if whole + 1 < src.len() && src[whole] == '.' as u8 && digit(src[whole + 1]) {
        run_end(src, whole + 1, digit_byte())
    } else {
        whole
    }
}

/// A token as the scanner finds it: its kind and the bytes that it covers.
pub struct Lexeme {
    pub kind: TokenType,
    pub start: int,
    pub end: int,
}

/// The token that starts at `start`, where no blank and no comment starts.
pub open spec fn lex_at(src: Seq<u8>, start: int) -> Lexeme {
    if start < 0 || start >= src.len() {
        Lexeme { kind: TokenType::EOF, start, end: start }
    } else {
        let c = src[start];
        if alpha(c) {
            let end = run_end(src, start + 1, word_byte());
            Lexeme { kind: keyword(src.subrange(start, end)), start, end }
        } else if digit(c) {
            Lexeme { kind: TokenType::Number, start, end: number_end(src, start + 1) }
        } else if c == '"' as u8 {
            let close = run_end(src, start + 1, string_byte());
            if close < src.len() {
                Lexeme { kind: TokenType::String, start, end: close + 1 }
            } else {
                Lexeme { kind: TokenType::Error, start, end: close }
            }
        } else if single(c) is Some {
            Lexeme { kind: single(c).unwrap(), start, end: start + 1 }
        } else if operator(c, false) is Some {
            if start + 1 < src.len() && src[start + 1] == '=' as u8 {
                Lexeme { kind: operator(c, true).unwrap(), start, end: start + 2 }
            } else {
                Lexeme { kind: operator(c, false).unwrap(), start, end: start + 1 }
            }
        } else {
            Lexeme { kind: TokenType::Error, start, end: start + 1 }
        }
    }
}

/// The token that a scanner at `at` finds next.
pub open spec fn lex(src: Seq<u8>, at: int) -> Lexeme {
    lex_at(src, skip_blank(src, at))
}

/// The token that the scanner hands out for a lexeme.
pub open spec fn token_of(src: Seq<u8>, lexeme: Lexeme) -> Token {
    if lexeme.kind == TokenType::Error {
        Token {
            token_type: TokenType::Error,
            start: 0,
            length: 0,
            line: line_at(src, lexeme.end) as usize,
        }
    } else {
        Token {
            token_type: lexeme.kind,
            start: lexeme.start as usize,
            length: (lexeme.end - lexeme.start) as usize,
            line: line_at(src, lexeme.end) as usize,
        }
    }
}

/// The token that a scanner at `at` hands out next.
pub open spec fn token_at(src: Seq<u8>, at: int) -> Token {
    token_of(src, lex(src, at))
}

/// A token ends where it starts only at the end of the source, it does not
/// reach beyond the source, and it holds no blank byte at its start.
pub proof fn lemma_lex(src: Seq<u8>, at: int)
    requires
        0 <= at <= src.len(),
    ensures
        at <= lex(src, at).start <= lex(src, at).end <= src.len(),
        lex(src, at).kind == TokenType::EOF <==> lex(src, at).start == src.len(),
        lex(src, at).kind != TokenType::EOF ==> lex(src, at).start < lex(src, at).end,
{
    lemma_skip_blank(src, at);
    let start = skip_blank(src, at);
    if start < src.len() {
        lemma_run_end(src, start + 1, word_byte());
        lemma_run_end(src, start + 1, digit_byte());
        lemma_run_end(src, start + 1, string_byte());
        let whole = run_end(src, start + 1, digit_byte());
        if whole + 1 < src.len() {
            lemma_run_end(src, whole + 1, digit_byte());
        }
        lemma_keyword_kinds(src.subrange(start, run_end(src, start + 1, word_byte())));
    }
}

/// A string token holds at least its two quotes.
pub proof fn lemma_string_length(src: Seq<u8>, at: int)
    requires
        0 <= at <= src.len(),
    ensures
        lex(src, at).kind == TokenType::String ==> lex(src, at).end - lex(src, at).start >= 2,
{
    lemma_skip_blank(src, at);
    let start = skip_blank(src, at);
    if start < src.len() {
        lemma_run_end(src, start + 1, string_byte());
        lemma_keyword_kinds(src.subrange(start, run_end(src, start + 1, word_byte())));
    }
}

/// A word is a keyword or an identifier.
pub proof fn lemma_keyword_kinds(word: Seq<u8>)
    ensures
        keyword(word) != TokenType::EOF,
        keyword(word) != TokenType::Error,
        keyword(word) != TokenType::String,
        keyword(word) != TokenType::Number,
{
}

/// A word is a given text exactly when it has the length of the text,
/// begins with the first `n` bytes of the text, and goes on as the text
/// does.
pub proof fn lemma_begins(word: Seq<u8>, text: Seq<u8>, n: int)
    requires
        0 <= n <= text.len(),
    ensures
        word == text <==> word.len() == text.len() && (forall|i: int|
            0 <= i < n ==> word[i] == text[i]) && word.skip(n) == text.skip(n),
{
    if word.len() == text.len() && (forall|i: int| 0 <= i < n ==> word[i] == text[i]) && word.skip(
        n,
    ) == text.skip(n) {
        assert forall|i: int| 0 <= i < word.len() implies word[i] == text[i] by {
            if i >= n {
                assert(word[i] == word.skip(n)[i - n]);
                assert(text[i] == text.skip(n)[i - n]);
            }
        }
        assert(word =~= text);
    }
}

/// Each keyword, split as the scanner tests it: by its first byte or two,
/// its length, and the rest of its text.
pub proof fn lemma_keyword_split(word: Seq<u8>)
    requires
        word.len() >= 1,
    ensures
        word == ascii("and"@) <==> word.len() == 3 && word[0] == 'a' as u8 && word.skip(1) == ascii(
            "nd"@,
        ),
        word == ascii("class"@) <==> word.len() == 5 && word[0] == 'c' as u8 && word.skip(1) == ascii(
            "lass"@,
        ),
        word == ascii("else"@) <==> word.len() == 4 && word[0] == 'e' as u8 && word.skip(1) == ascii(
            "lse"@,
        ),
        word == ascii("false"@) <==> word.len() == 5 && word[0] == 'f' as u8 && word[1] == 'a' as u8 && word.skip(2) == ascii(
            "lse"@,
        ),
        word == ascii("for"@) <==> word.len() == 3 && word[0] == 'f' as u8 && word[1] == 'o' as u8 && word.skip(2) == ascii(
            "r"@,
        ),
        word == ascii("fun"@) <==> word.len() == 3 && word[0] == 'f' as u8 && word[1] == 'u' as u8 && word.skip(2) == ascii(
            "n"@,
        ),
        word == ascii("if"@) <==> word.len() == 2 && word[0] == 'i' as u8 && word.skip(1) == ascii(
            "f"@,
        ),
        word == ascii("nil"@) <==> word.len() == 3 && word[0] == 'n' as u8 && word.skip(1) == ascii(
            "il"@,
        ),
        word == ascii("or"@) <==> word.len() == 2 && word[0] == 'o' as u8 && word.skip(1) == ascii(
            "r"@,
        ),
        word == ascii("print"@) <==> word.len() == 5 && word[0] == 'p' as u8 && word.skip(1) == ascii(
            "rint"@,
        ),
        word == ascii("return"@) <==> word.len() == 6 && word[0] == 'r' as u8 && word.skip(1) == ascii(
            "eturn"@,
        ),
        word == ascii("super"@) <==> word.len() == 5 && word[0] == 's' as u8 && word.skip(1) == ascii(
            "uper"@,
        ),
        word == ascii("this"@) <==> word.len() == 4 && word[0] == 't' as u8 && word[1] == 'h' as u8 && word.skip(2) == ascii(
            "is"@,
        ),
        word == ascii("true"@) <==> word.len() == 4 && word[0] == 't' as u8 && word[1] == 'r' as u8 && word.skip(2) == ascii(
            "ue"@,
        ),
        word == ascii("var"@) <==> word.len() == 3 && word[0] == 'v' as u8 && word.skip(1) == ascii(
            "ar"@,
        ),
        word == ascii("while"@) <==> word.len() == 5 && word[0] == 'w' as u8 && word.skip(1) == ascii(
            "hile"@,
        ),
{
    assert(word == ascii("and"@) <==> word.len() == 3 && word[0] == 'a' as u8 && word.skip(1) == ascii(
        "nd"@,
    )) by {
        reveal_strlit("and");
        reveal_strlit("nd");
        lemma_begins(word, ascii("and"@), 1);
        assert(ascii("and"@).skip(1) =~= ascii("nd"@));
    }
    assert(word == ascii("class"@) <==> word.len() == 5 && word[0] == 'c' as u8 && word.skip(1) == ascii(
        "lass"@,
    )) by {
        reveal_strlit("class");
        reveal_strlit("lass");
        lemma_begins(word, ascii("class"@), 1);
        assert(ascii("class"@).skip(1) =~= ascii("lass"@));
    }
    assert(word == ascii("else"@) <==> word.len() == 4 && word[0] == 'e' as u8 && word.skip(1) == ascii(
        "lse"@,
    )) by {
        reveal_strlit("else");
        reveal_strlit("lse");
        lemma_begins(word, ascii("else"@), 1);
        assert(ascii("else"@).skip(1) =~= ascii("lse"@));
    }
    assert(word == ascii("false"@) <==> word.len() == 5 && word[0] == 'f' as u8 && word[1] == 'a' as u8 && word.skip(2) == ascii(
        "lse"@,
    )) by {
        reveal_strlit("false");
        reveal_strlit("lse");
        lemma_begins(word, ascii("false"@), 2);
        assert(ascii("false"@).skip(2) =~= ascii("lse"@));
    }
    assert(word == ascii("for"@) <==> word.len() == 3 && word[0] == 'f' as u8 && word[1] == 'o' as u8 && word.skip(2) == ascii(
        "r"@,
    )) by {
        reveal_strlit("for");
        reveal_strlit("r");
        lemma_begins(word, ascii("for"@), 2);
        assert(ascii("for"@).skip(2) =~= ascii("r"@));
    }
    assert(word == ascii("fun"@) <==> word.len() == 3 && word[0] == 'f' as u8 && word[1] == 'u' as u8 && word.skip(2) == ascii(
        "n"@,
    )) by {
        reveal_strlit("fun");
        reveal_strlit("n");
        lemma_begins(word, ascii("fun"@), 2);
        assert(ascii("fun"@).skip(2) =~= ascii("n"@));
    }
    assert(word == ascii("if"@) <==> word.len() == 2 && word[0] == 'i' as u8 && word.skip(1) == ascii(
        "f"@,
    )) by {
        reveal_strlit("if");
        reveal_strlit("f");
        lemma_begins(word, ascii("if"@), 1);
        assert(ascii("if"@).skip(1) =~= ascii("f"@));
    }
    assert(word == ascii("nil"@) <==> word.len() == 3 && word[0] == 'n' as u8 && word.skip(1) == ascii(
        "il"@,
    )) by {
        reveal_strlit("nil");
        reveal_strlit("il");
        lemma_begins(word, ascii("nil"@), 1);
        assert(ascii("nil"@).skip(1) =~= ascii("il"@));
    }
    assert(word == ascii("or"@) <==> word.len() == 2 && word[0] == 'o' as u8 && word.skip(1) == ascii(
        "r"@,
    )) by {
        reveal_strlit("or");
        reveal_strlit("r");
        lemma_begins(word, ascii("or"@), 1);
        assert(ascii("or"@).skip(1) =~= ascii("r"@));
    }
    assert(word == ascii("print"@) <==> word.len() == 5 && word[0] == 'p' as u8 && word.skip(1) == ascii(
        "rint"@,
    )) by {
        reveal_strlit("print");
        reveal_strlit("rint");
        lemma_begins(word, ascii("print"@), 1);
        assert(ascii("print"@).skip(1) =~= ascii("rint"@));
    }
    assert(word == ascii("return"@) <==> word.len() == 6 && word[0] == 'r' as u8 && word.skip(1) == ascii(
        "eturn"@,
    )) by {
        reveal_strlit("return");
        reveal_strlit("eturn");
        lemma_begins(word, ascii("return"@), 1);
        assert(ascii("return"@).skip(1) =~= ascii("eturn"@));
    }
    assert(word == ascii("super"@) <==> word.len() == 5 && word[0] == 's' as u8 && word.skip(1) == ascii(
        "uper"@,
    )) by {
        reveal_strlit("super");
        reveal_strlit("uper");
        lemma_begins(word, ascii("super"@), 1);
        assert(ascii("super"@).skip(1) =~= ascii("uper"@));
    }
    assert(word == ascii("this"@) <==> word.len() == 4 && word[0] == 't' as u8 && word[1] == 'h' as u8 && word.skip(2) == ascii(
        "is"@,
    )) by {
        reveal_strlit("this");
        reveal_strlit("is");
        lemma_begins(word, ascii("this"@), 2);
        assert(ascii("this"@).skip(2) =~= ascii("is"@));
    }
    assert(word == ascii("true"@) <==> word.len() == 4 && word[0] == 't' as u8 && word[1] == 'r' as u8 && word.skip(2) == ascii(
        "ue"@,
    )) by {
        reveal_strlit("true");
        reveal_strlit("ue");
        lemma_begins(word, ascii("true"@), 2);
        assert(ascii("true"@).skip(2) =~= ascii("ue"@));
    }
    assert(word == ascii("var"@) <==> word.len() == 3 && word[0] == 'v' as u8 && word.skip(1) == ascii(
        "ar"@,
    )) by {
        reveal_strlit("var");
        reveal_strlit("ar");
        lemma_begins(word, ascii("var"@), 1);
        assert(ascii("var"@).skip(1) =~= ascii("ar"@));
    }
    assert(word == ascii("while"@) <==> word.len() == 5 && word[0] == 'w' as u8 && word.skip(1) == ascii(
        "hile"@,
    )) by {
        reveal_strlit("while");
        reveal_strlit("hile");
        lemma_begins(word, ascii("while"@), 1);
        assert(ascii("while"@).skip(1) =~= ascii("hile"@));
    }
}

impl<'a> Scanner<'a> {
    /// The scanner's invariant: the cursor is inside the source, and `line`
    /// counts the newlines before it.
    pub closed spec fn wf(&self) -> bool {
        &&& self.source@.len() < usize::MAX
        &&& self.start <= self.current <= self.source@.len()
        &&& self.line == line_at(self.source@, self.current as int)
    }

    /// The bytes of the program.
    pub closed spec fn bytes(&self) -> Seq<u8> {
        self.source@
    }

    /// The offset of the next byte that the scanner reads.
    pub closed spec fn position(&self) -> int {
        self.current as int
    }

    /// The offset at which the token last scanned, or being scanned, starts.
    pub closed spec fn mark(&self) -> int {
        self.start as int
    }

    /// The bytes of the token being scanned.
    pub closed spec fn word(&self) -> Seq<u8> {
        self.source@.subrange(self.start as int, self.current as int)
    }

    /// The cursor of a scanner is inside its source, whose length a `usize`
    /// can count with room to spare.
    pub proof fn lemma_bounds(&self)
        requires
            self.wf(),
        ensures
            0 <= self.mark() <= self.position() <= self.bytes().len() < usize::MAX,
    {
    }

    /// Whether `source` is short enough to be scanned: its lines must be
    /// countable in a `usize`, so it must be shorter than `usize::MAX` bytes.
    pub fn accepts(source: &String) -> (ok: bool)
        ensures
            ok == (encode_utf8(source@).len() < usize::MAX),
    {
        source.as_str().as_bytes().len() < usize::MAX
    }

    /// A scanner at the first byte of `source`.
    pub fn new(source: &'a String) -> (scanner: Scanner<'a>)
        requires
            encode_utf8(source@).len() < usize::MAX,
        ensures
            scanner.wf(),
            scanner.bytes() == encode_utf8(source@),
            scanner.position() == 0,
            scanner.mark() == 0,
    {
        Scanner { source: source.as_str().as_bytes(), start: 0, current: 0, line: 1 }
    }

    /// Scans the next token and moves behind it. At the end of the source
    /// the token is `EOF`, again and again.
    pub fn scan(&mut self) -> (token: Token)
        requires
            old(self).wf(),
        ensures
            final(self).wf(),
            final(self).bytes() == old(self).bytes(),
            token == token_at(old(self).bytes(), old(self).position()),
            final(self).mark() == lex(old(self).bytes(), old(self).position()).start,
            final(self).position() == lex(old(self).bytes(), old(self).position()).end,
    {
        self.skip_whitespace();
        self.start = self.current;
        proof {
            lemma_skip_blank(self.source@, old(self).current as int);
        }

        if self.at_end() {
            return self.make_token(TokenType::EOF);
        }
        let c = self.advance();
        if is_alpha(c) {
            return self.identifier();
        }
        if is_digit(c) {
            return self.number();
        }
        if c == '(' as u8 {
            return self.make_token(TokenType::LeftParen);
        } else if c == ')' as u8 {
            return self.make_token(TokenType::RightParen);
        } else if c == '{' as u8 {
            return self.make_token(TokenType::LeftBrace);
        } else if c == '}' as u8 {
            return self.make_token(TokenType::RightBrace);
        } else if c == ';' as u8 {
            return self.make_token(TokenType::Semicolon);
        } else if c == ',' as u8 {
            return self.make_token(TokenType::Comma);
        } else if c == '.' as u8 {
            return self.make_token(TokenType::Dot);
        } else if c == '-' as u8 {
            return self.make_token(TokenType::Minus);
        } else if c == '+' as u8 {
            return self.make_token(TokenType::Plus);
        } else if c == '/' as u8 {
            return self.make_token(TokenType::Slash);
        } else if c == '*' as u8 {
            return self.make_token(TokenType::Star);
        } else if c == '!' as u8 {
            let tt = if self.match_char('=' as u8) {
                TokenType::BangEqual
            } else {
                TokenType::Bang
            };
            return self.make_token(tt);
        } else if c == '=' as u8 {
            let tt = if self.match_char('=' as u8) {
                TokenType::EqualEqual
            } else {
                TokenType::Equal
            };
            return self.make_token(tt);
        } else if c == '<' as u8 {
            let tt = if self.match_char('=' as u8) {
                TokenType::LessEqual
            } else {
                TokenType::Less
            };
            return self.make_token(tt);
        } else if c == '>' as u8 {
            let tt = if self.match_char('=' as u8) {
                TokenType::GreaterEqual
            } else {
                TokenType::Greater
            };
            return self.make_token(tt);
        } else if c == '"' as u8 {
            return self.string();
        }
        self.error_token()
    }

    /// Reads the next byte and moves behind it. The byte is no newline, so
    /// the line stays.
    fn advance(&mut self) -> (c: u8)
        requires
            old(self).wf(),
            old(self).current < old(self).source@.len(),
            old(self).source@[old(self).current as int] != '\n' as u8,
        ensures
            final(self).wf(),
            c == old(self).source@[old(self).current as int],
            final(self).current == old(self).current + 1,
            final(self).source == old(self).source,
            final(self).start == old(self).start,
            final(self).line == old(self).line,
    {
        self.current = self.current + 1;
        self.source[self.current - 1]
    }

    /// Moves behind the next byte if it is `expected`.
    fn match_char(&mut self, expected: u8) -> (matched: bool)
        requires
            old(self).wf(),
            expected != '\n' as u8,
        ensures
            final(self).wf(),
            matched == (old(self).current < old(self).source@.len() && old(self).source@[old(
                self,
            ).current as int] == expected),
            final(self).current == old(self).current + (if matched { 1int } else { 0int }),
            final(self).source == old(self).source,
            final(self).start == old(self).start,
    {
        if self.at_end() {
            return false;
        }
        if self.peek() != expected {
            return false;
        }
        self.current = self.current + 1;
        true
    }

    /// Moves behind blanks and comments, counting the lines. The start of
    /// the token stays where it is.
    fn skip_whitespace(&mut self)
        requires
            old(self).wf(),
        ensures
            final(self).wf(),
            final(self).source == old(self).source,
            final(self).start == old(self).start,
            final(self).current == skip_blank(old(self).source@, old(self).current as int),
    {
        loop
            invariant
                self.wf(),
                self.source == old(self).source,
                self.start == old(self).start,
                skip_blank(self.source@, self.current as int) == skip_blank(
                    old(self).source@,
                    old(self).current as int,
                ),
            decreases self.source@.len() - self.current,
        {
            let ghost src = self.source@;
            let ghost at = self.current as int;
            let c = self.peek();
            if c == ' ' as u8 || c == '\r' as u8 || c == '\t' as u8 {
                self.advance();
            } else if c == '\n' as u8 {
                proof {
                    lemma_newlines_bound(src, at);
                }
                self.line = self.line + 1;
                self.current = self.current + 1;
            } else if c == '/' as u8 {
                if self.peek_next() == '/' as u8 {
                    // A comment goes until the end of the line.
                    assert(run_end(src, at, comment_byte()) == run_end(src, at + 1, comment_byte()));
                    assert(run_end(src, at + 1, comment_byte()) == run_end(
                        src,
                        at + 2,
                        comment_byte(),
                    ));
                    while self.peek() != '\n' as u8 && !self.at_end()
                        invariant
                            self.wf(),
                            self.source == old(self).source,
                            self.start == old(self).start,
                            src == self.source@,
                            at <= self.current,
                            run_end(src, self.current as int, comment_byte()) == run_end(
                                src,
                                at,
                                comment_byte(),
                            ),
                        decreases self.source@.len() - self.current,
                    {
                        self.advance();
                    }
                    proof {
                        lemma_run_end(src, at + 2, comment_byte());
                    }
                } else {
                    return ;
                }
            } else {
                return ;
            }
        }
    }

    /// The next byte, or zero at the end of the source.
    fn peek(&self) -> (c: u8)
        requires
            self.wf(),
        ensures
            c == (if self.current < self.source@.len() {
                self.source@[self.current as int]
            } else {
                0u8
            }),
    {
        if self.at_end() {
            return 0;
        }
        self.source[self.current]
    }

    /// The byte behind the next one, or zero where the source ends before.
    fn peek_next(&self) -> (c: u8)
        requires
            self.wf(),
        ensures
            c == (if self.current + 1 < self.source@.len() {
                self.source@[self.current + 1]
            } else {
                0u8
            }),
    {
        if self.current + 1 >= self.source.len() {
            0
        } else {
            self.source[self.current + 1]
        }
    }

    fn at_end(&self) -> (r: bool)
        ensures
            r == (self.current >= self.source@.len()),
    {
        self.current >= self.source.len()
    }

    /// Scans the rest of a string literal whose opening quote was just read.
    fn string(&mut self) -> (token: Token)
        requires
            old(self).wf(),
            old(self).current == old(self).start + 1,
            old(self).source@[old(self).start as int] == '"' as u8,
        ensures
            final(self).wf(),
            final(self).source == old(self).source,
            final(self).start == old(self).start,
            token == token_of(old(self).source@, lex_at(old(self).source@, old(self).start as int)),
            final(self).current == lex_at(old(self).source@, old(self).start as int).end,
    {
        while self.peek() != '"' as u8 && !self.at_end()
            invariant
                self.wf(),
                self.source == old(self).source,
                self.start == old(self).start,
                self.start < self.current,
                run_end(self.source@, self.current as int, string_byte()) == run_end(
                    self.source@,
                    self.start + 1,
                    string_byte(),
                ),
            decreases self.source@.len() - self.current,
        {
            if self.peek() == '\n' as u8 {
                proof {
                    lemma_newlines_bound(self.source@, self.current as int);
                }
                self.line = self.line + 1;
                self.current = self.current + 1;
            } else {
                self.advance();
            }
        }

        if self.at_end() {
            return self.error_token();
        }
        // The closing quote.
        self.advance();
        self.make_token(TokenType::String)
    }

    /// Scans the rest of a number whose first digit was just read.
    fn number(&mut self) -> (token: Token)
        requires
            old(self).wf(),
            old(self).current == old(self).start + 1,
            digit(old(self).source@[old(self).start as int]),
        ensures
            final(self).wf(),
            final(self).source == old(self).source,
            final(self).start == old(self).start,
            token == token_of(old(self).source@, lex_at(old(self).source@, old(self).start as int)),
            final(self).current == lex_at(old(self).source@, old(self).start as int).end,
    {
        while is_digit(self.peek())
            invariant
                self.wf(),
                self.source == old(self).source,
                self.start == old(self).start,
                self.start < self.current,
                run_end(self.source@, self.current as int, digit_byte()) == run_end(
                    self.source@,
                    self.start + 1,
                    digit_byte(),
                ),
            decreases self.source@.len() - self.current,
        {
            self.advance();
        }

        // Look for a fractional part.
        if self.peek() == '.' as u8 && is_digit(self.peek_next()) {
            let ghost whole = self.current as int;
            // Consume the ".".
            self.advance();

            while is_digit(self.peek())
                invariant
                    self.wf(),
                    self.source == old(self).source,
                    self.start == old(self).start,
                    self.start < self.current,
                    run_end(self.source@, self.current as int, digit_byte()) == run_end(
                        self.source@,
                        whole + 1,
                        digit_byte(),
                    ),
                decreases self.source@.len() - self.current,
            {
                self.advance();
            }
        }
        self.make_token(TokenType::Number)
    }

    /// Scans the rest of a word whose first byte was just read.
    fn identifier(&mut self) -> (token: Token)
        requires
            old(self).wf(),
            old(self).current == old(self).start + 1,
            alpha(old(self).source@[old(self).start as int]),
        ensures
            final(self).wf(),
            final(self).source == old(self).source,
            final(self).start == old(self).start,
            token == token_of(old(self).source@, lex_at(old(self).source@, old(self).start as int)),
            final(self).current == lex_at(old(self).source@, old(self).start as int).end,
    {
        while is_alpha(self.peek()) || is_digit(self.peek())
            invariant
                self.wf(),
                self.source == old(self).source,
                self.start == old(self).start,
                self.start < self.current,
                run_end(self.source@, self.current as int, word_byte()) == run_end(
                    self.source@,
                    self.start + 1,
                    word_byte(),
                ),
            decreases self.source@.len() - self.current,
        {
            self.advance();
        }
        proof {
            lemma_keyword_kinds(self.word());
        }
        self.make_token(self.identifier_type())
    }

    /// The kind of the word just scanned.
    fn identifier_type(&self) -> (kind: TokenType)
        requires
            self.wf(),
            self.start < self.current,
        ensures
            kind == keyword(self.word()),
    {
        proof {
            lemma_keyword_split(self.word());
            reveal_strlit("nd");
            reveal_strlit("lass");
            reveal_strlit("lse");
            reveal_strlit("r");
            reveal_strlit("n");
            reveal_strlit("f");
            reveal_strlit("il");
            reveal_strlit("rint");
            reveal_strlit("eturn");
            reveal_strlit("uper");
            reveal_strlit("is");
            reveal_strlit("ue");
            reveal_strlit("ar");
            reveal_strlit("hile");
        }
        let c = self.source[self.start];
        assert(c == self.word()[0]);
        if c == 'a' as u8 {
            return self.check_keyword(1, "nd", TokenType::And);
        } else if c == 'c' as u8 {
            return self.check_keyword(1, "lass", TokenType::Class);
        } else if c == 'e' as u8 {
            return self.check_keyword(1, "lse", TokenType::Else);
        } else if c == 'f' as u8 {
            if self.current - self.start > 1 {
                let d = self.source[self.start + 1];
                assert(d == self.word()[1]);
                if d == 'a' as u8 {
                    return self.check_keyword(2, "lse", TokenType::False);
                } else if d == 'o' as u8 {
                    return self.check_keyword(2, "r", TokenType::For);
                } else if d == 'u' as u8 {
                    return self.check_keyword(2, "n", TokenType::Fun);
                } else {
                    return TokenType::Identifier;
                }
            }
            return TokenType::Identifier;
        } else if c == 'i' as u8 {
            return self.check_keyword(1, "f", TokenType::If);
        } else if c == 'n' as u8 {
            return self.check_keyword(1, "il", TokenType::Nil);
        } else if c == 'o' as u8 {
            return self.check_keyword(1, "r", TokenType::Or);
        } else if c == 'p' as u8 {
            return self.check_keyword(1, "rint", TokenType::Print);
        } else if c == 'r' as u8 {
            return self.check_keyword(1, "eturn", TokenType::Return);
        } else if c == 's' as u8 {
            return self.check_keyword(1, "uper", TokenType::Super);
        } else if c == 't' as u8 {
            if self.current - self.start > 1 {
                let d = self.source[self.start + 1];
                assert(d == self.word()[1]);
                if d == 'h' as u8 {
                    return self.check_keyword(2, "is", TokenType::This);
                } else if d == 'r' as u8 {
                    return self.check_keyword(2, "ue", TokenType::True);
                } else {
                    return TokenType::Identifier;
                }
            }
            return TokenType::Identifier;
        } else if c == 'v' as u8 {
            return self.check_keyword(1, "ar", TokenType::Var);
        } else if c == 'w' as u8 {
            return self.check_keyword(1, "hile", TokenType::While);
        }
        TokenType::Identifier
    }

    /// `token_type` if the word just scanned is `start` bytes long and then
    /// goes on as `rest` and ends, else `Identifier`.
    fn check_keyword(&self, start: usize, rest: &str, token_type: TokenType) -> (kind: TokenType)
        requires
            self.wf(),
            rest.is_ascii(),
            start + rest@.len() <= usize::MAX,
        ensures
            kind == (if self.word().len() == start + rest@.len() && self.word().skip(start as int)
                == ascii(rest@) {
                token_type
            } else {
                TokenType::Identifier
            }),
    {
        proof {
            vstd::string::is_ascii_spec_bytes(rest);
        }
        let bytes = rest.as_bytes();
        if self.current - self.start == start + bytes.len() {
            let mut i: usize = 0;
            while i < bytes.len()
                invariant
                    self.wf(),
                    i <= bytes@.len(),
                    bytes@ == ascii(rest@),
                    self.word().len() == start + bytes@.len(),
                    forall|j: int| 0 <= j < i ==> self.word()[start + j] == bytes@[j],
                decreases bytes@.len() - i,
            {
                let b = self.source[self.start + start + i];
                assert(b == self.word()[start + i]);
                if bytes[i] != b {
                    assert(self.word().skip(start as int)[i as int] != ascii(rest@)[i as int]);
                    return TokenType::Identifier;
                }
                i += 1;
            }
            assert(self.word().skip(start as int) =~= ascii(rest@));
            return token_type;
        }
        TokenType::Identifier
    }

    /// The token of the given kind whose text was just scanned.
    fn make_token(&self, token_type: TokenType) -> (token: Token)
        requires
            self.wf(),
            token_type != TokenType::Error,
        ensures
            token == token_of(
                self.source@,
                Lexeme { kind: token_type, start: self.start as int, end: self.current as int },
            ),
    {
        Token {
            token_type,
            start: self.start,
            length: self.current - self.start,
            line: self.line,
        }
    }

    /// The token for text that is no token.
    fn error_token(&self) -> (token: Token)
        requires
            self.wf(),
        ensures
            token == token_of(
                self.source@,
                Lexeme { kind: TokenType::Error, start: self.start as int, end: self.current as int },
            ),
    {
        Token { token_type: TokenType::Error, start: 0, length: 0, line: self.line }
    }

    /// The text of a token of this scanner's source.
    pub fn get_lexeme(&self, token: &Token) -> (text: &'a [u8])
        requires
            token.start + token.length <= self.bytes().len(),
        ensures
            text@ == self.bytes().subrange(token.start as int, token.start + token.length),
    {
        assert(self.source.len() == self.source@.len());
        vstd::slice::slice_subrange(self.source, token.start, token.start + token.length)
    }
}

pub fn is_digit(c: u8) -> (r: bool)
    ensures
        r == digit(c),
{
    c >= '0' as u8 && c <= '9' as u8
}

pub fn is_alpha(c: u8) -> (r: bool)
    ensures
        r == alpha(c),
{
    (c >= 'a' as u8 && c <= 'z' as u8) || (c >= 'A' as u8 && c <= 'Z' as u8) || c == '_' as u8
}

} // verus!
