//! The lexer: turns program text into tokens.
use vstd::prelude::*;
use vstd::string::StrSliceExecFns;
use vstd::string::StringExecFns;
use crate::text::alphabetic;
use crate::text::canon;
use crate::text::is_alphabetic;
use crate::text::is_digit;
use crate::text::is_digit_exec;
use crate::text::lemma_canon;
use crate::text::string_equal;
use crate::text::string_of;

verus! {

/// A token of the trove language. The lexer produces the punctuation tokens,
/// numbers, strings, identifiers and the `i32`/`u32` keywords; the parser also
/// understands the keyword and operator tokens after `FN`.
#[derive(Debug, PartialEq, Eq)]
pub enum Token {
    END,
    PLUS,
    MINUS,
    STAR,
    DIV,
    LCURLY,
    RCURLY,
    LPAREN,
    RPAREN,
    LBRACKET,
    RBRACKET,
    COMMA,
    COLON,
    SEMICOLON,
    EQUAL,
    NUMBER(String),
    STRING(String),
    IDENTIFIER(String),
    U32,
    I32,
    BOOL,
    FN,
    F32,
    CONST,
    MUT,
    PUB,
    PRIV,
    AT,
    VAR,
    TYPE,
    DOT,
    HASH,
    TRUE,
    FALSE,
    IF,
    ELSE,
    RET,
}

/// A token is seen with its text as a character sequence: two tokens have the
/// same view exactly when they are the same variant with the same characters.
impl View for Token {
    type V = Token;

    open spec fn view(&self) -> Token {
        match self {
            Token::NUMBER(s) => Token::NUMBER(canon(s@)),
            Token::STRING(s) => Token::STRING(canon(s@)),
            Token::IDENTIFIER(s) => Token::IDENTIFIER(canon(s@)),
            _ => *self,
        }
    }
}

/// The views of a sequence of tokens.
pub open spec fn tokens_view(v: Seq<Token>) -> Seq<Token> {
    v.map_values(|t: Token| t@)
}

/// The text of a token: the characters of a number, string or identifier,
/// and the variant's name for the other tokens.
pub open spec fn token_text(t: Token) -> Seq<char> {
    match t {
            Token::END => "END"@,
            Token::PLUS => "PLUS"@,
            Token::MINUS => "MINUS"@,
            Token::STAR => "STAR"@,
            Token::DIV => "DIV"@,
            Token::LCURLY => "LCURLY"@,
            Token::RCURLY => "RCURLY"@,
            Token::LPAREN => "LPAREN"@,
            Token::RPAREN => "RPAREN"@,
            Token::LBRACKET => "LBRACKET"@,
            Token::RBRACKET => "RBRACKET"@,
            Token::COMMA => "COMMA"@,
            Token::COLON => "COLON"@,
            Token::SEMICOLON => "SEMICOLON"@,
            Token::EQUAL => "EQUAL"@,
            Token::NUMBER(s) => s@,
            Token::STRING(s) => s@,
            Token::IDENTIFIER(s) => s@,
            Token::U32 => "U32"@,
            Token::I32 => "I32"@,
            Token::BOOL => "BOOL"@,
            Token::FN => "FN"@,
            Token::F32 => "F32"@,
            Token::CONST => "CONST"@,
            Token::MUT => "MUT"@,
            Token::PUB => "PUB"@,
            Token::PRIV => "PRIV"@,
            Token::AT => "AT"@,
            Token::VAR => "VAR"@,
            Token::TYPE => "TYPE"@,
            Token::DOT => "DOT"@,
            Token::HASH => "HASH"@,
            Token::TRUE => "TRUE"@,
            Token::FALSE => "FALSE"@,
            Token::IF => "IF"@,
            Token::ELSE => "ELSE"@,
            Token::RET => "RET"@,
    }
}

/// A token's text is that of its view.
pub proof fn lemma_token_text_view(t: Token)
    ensures
        token_text(t@) == token_text(t),
{
    match t {
        Token::NUMBER(s) => lemma_canon(s),
        Token::STRING(s) => lemma_canon(s),
        Token::IDENTIFIER(s) => lemma_canon(s),
        _ => {},
    }
}

impl Token {
    /// An equal copy of the token.
    pub fn copied(&self) -> (r: Token)
        ensures
            r == *self,
    {
        match self {
            Token::NUMBER(s) => Token::NUMBER(s.clone()),
            Token::STRING(s) => Token::STRING(s.clone()),
            Token::IDENTIFIER(s) => Token::IDENTIFIER(s.clone()),
            Token::END => Token::END,
            Token::PLUS => Token::PLUS,
            Token::MINUS => Token::MINUS,
            Token::STAR => Token::STAR,
            Token::DIV => Token::DIV,
            Token::LCURLY => Token::LCURLY,
            Token::RCURLY => Token::RCURLY,
            Token::LPAREN => Token::LPAREN,
            Token::RPAREN => Token::RPAREN,
            Token::LBRACKET => Token::LBRACKET,
            Token::RBRACKET => Token::RBRACKET,
            Token::COMMA => Token::COMMA,
            Token::COLON => Token::COLON,
            Token::SEMICOLON => Token::SEMICOLON,
            Token::EQUAL => Token::EQUAL,
            Token::U32 => Token::U32,
            Token::I32 => Token::I32,
            Token::BOOL => Token::BOOL,
            Token::FN => Token::FN,
            Token::F32 => Token::F32,
            Token::CONST => Token::CONST,
            Token::MUT => Token::MUT,
            Token::PUB => Token::PUB,
            Token::PRIV => Token::PRIV,
            Token::AT => Token::AT,
            Token::VAR => Token::VAR,
            Token::TYPE => Token::TYPE,
            Token::DOT => Token::DOT,
            Token::HASH => Token::HASH,
            Token::TRUE => Token::TRUE,
            Token::FALSE => Token::FALSE,
            Token::IF => Token::IF,
            Token::ELSE => Token::ELSE,
            Token::RET => Token::RET,
        }
    }

    /// Whether the two tokens are the same variant with the same text.
    pub fn same(&self, other: &Token) -> (r: bool)
        ensures
            r == (self@ == other@),
    {
        match (self, other) {
            (Token::END, Token::END) => true,
            (Token::PLUS, Token::PLUS) => true,
            (Token::MINUS, Token::MINUS) => true,
            (Token::STAR, Token::STAR) => true,
            (Token::DIV, Token::DIV) => true,
            (Token::LCURLY, Token::LCURLY) => true,
            (Token::RCURLY, Token::RCURLY) => true,
            (Token::LPAREN, Token::LPAREN) => true,
            (Token::RPAREN, Token::RPAREN) => true,
            (Token::LBRACKET, Token::LBRACKET) => true,
            (Token::RBRACKET, Token::RBRACKET) => true,
            (Token::COMMA, Token::COMMA) => true,
            (Token::COLON, Token::COLON) => true,
            (Token::SEMICOLON, Token::SEMICOLON) => true,
            (Token::EQUAL, Token::EQUAL) => true,
            (Token::NUMBER(a), Token::NUMBER(b)) => {
                proof {
                    lemma_canon(*a);
                    lemma_canon(*b);
                }
                string_equal(a, b)
            },
            (Token::STRING(a), Token::STRING(b)) => {
                proof {
                    lemma_canon(*a);
                    lemma_canon(*b);
                }
                string_equal(a, b)
            },
            (Token::IDENTIFIER(a), Token::IDENTIFIER(b)) => {
                proof {
                    lemma_canon(*a);
                    lemma_canon(*b);
                }
                string_equal(a, b)
            },
            (Token::U32, Token::U32) => true,
            (Token::I32, Token::I32) => true,
            (Token::BOOL, Token::BOOL) => true,
            (Token::FN, Token::FN) => true,
            (Token::F32, Token::F32) => true,
            (Token::CONST, Token::CONST) => true,
            (Token::MUT, Token::MUT) => true,
            (Token::PUB, Token::PUB) => true,
            (Token::PRIV, Token::PRIV) => true,
            (Token::AT, Token::AT) => true,
            (Token::VAR, Token::VAR) => true,
            (Token::TYPE, Token::TYPE) => true,
            (Token::DOT, Token::DOT) => true,
            (Token::HASH, Token::HASH) => true,
            (Token::TRUE, Token::TRUE) => true,
            (Token::FALSE, Token::FALSE) => true,
            (Token::IF, Token::IF) => true,
            (Token::ELSE, Token::ELSE) => true,
            (Token::RET, Token::RET) => true,
            _ => false,
        }
    }

    /// The text of the token (see `token_text`).
    pub fn text(&self) -> (r: String)
        ensures
            r@ == token_text(*self),
    {
        proof {
            reveal_strlit("END");
            reveal_strlit("PLUS");
            reveal_strlit("MINUS");
            reveal_strlit("STAR");
            reveal_strlit("DIV");
            reveal_strlit("LCURLY");
            reveal_strlit("RCURLY");
            reveal_strlit("LPAREN");
            reveal_strlit("RPAREN");
            reveal_strlit("LBRACKET");
            reveal_strlit("RBRACKET");
            reveal_strlit("COMMA");
            reveal_strlit("COLON");
            reveal_strlit("SEMICOLON");
            reveal_strlit("EQUAL");
            reveal_strlit("U32");
            reveal_strlit("I32");
            reveal_strlit("BOOL");
            reveal_strlit("FN");
            reveal_strlit("F32");
            reveal_strlit("CONST");
            reveal_strlit("MUT");
            reveal_strlit("PUB");
            reveal_strlit("PRIV");
            reveal_strlit("AT");
            reveal_strlit("VAR");
            reveal_strlit("TYPE");
            reveal_strlit("DOT");
            reveal_strlit("HASH");
            reveal_strlit("TRUE");
            reveal_strlit("FALSE");
            reveal_strlit("IF");
            reveal_strlit("ELSE");
            reveal_strlit("RET");
        }
        match self {
            Token::END => string_of("END"),
            Token::PLUS => string_of("PLUS"),
            Token::MINUS => string_of("MINUS"),
            Token::STAR => string_of("STAR"),
            Token::DIV => string_of("DIV"),
            Token::LCURLY => string_of("LCURLY"),
            Token::RCURLY => string_of("RCURLY"),
            Token::LPAREN => string_of("LPAREN"),
            Token::RPAREN => string_of("RPAREN"),
            Token::LBRACKET => string_of("LBRACKET"),
            Token::RBRACKET => string_of("RBRACKET"),
            Token::COMMA => string_of("COMMA"),
            Token::COLON => string_of("COLON"),
            Token::SEMICOLON => string_of("SEMICOLON"),
            Token::EQUAL => string_of("EQUAL"),
            Token::NUMBER(s) => s.clone(),
            Token::STRING(s) => s.clone(),
            Token::IDENTIFIER(s) => s.clone(),
            Token::U32 => string_of("U32"),
            Token::I32 => string_of("I32"),
            Token::BOOL => string_of("BOOL"),
            Token::FN => string_of("FN"),
            Token::F32 => string_of("F32"),
            Token::CONST => string_of("CONST"),
            Token::MUT => string_of("MUT"),
            Token::PUB => string_of("PUB"),
            Token::PRIV => string_of("PRIV"),
            Token::AT => string_of("AT"),
            Token::VAR => string_of("VAR"),
            Token::TYPE => string_of("TYPE"),
            Token::DOT => string_of("DOT"),
            Token::HASH => string_of("HASH"),
            Token::TRUE => string_of("TRUE"),
            Token::FALSE => string_of("FALSE"),
            Token::IF => string_of("IF"),
            Token::ELSE => string_of("ELSE"),
            Token::RET => string_of("RET"),
        }
    }
}

/// The token that a punctuation character stands for.
pub open spec fn symbol_token(c: char) -> Option<Token> {
    if c == '+' {
        Some(Token::PLUS)
    } else if c == '-' {
        Some(Token::MINUS)
    } else if c == '*' {
        Some(Token::STAR)
    } else if c == '/' {
        Some(Token::DIV)
    } else if c == '{' {
        Some(Token::LCURLY)
    } else if c == '}' {
        Some(Token::RCURLY)
    } else if c == '(' {
        Some(Token::LPAREN)
    } else if c == ')' {
        Some(Token::RPAREN)
    } else if c == '[' {
        Some(Token::LBRACKET)
    } else if c == ']' {
        Some(Token::RBRACKET)
    } else if c == ',' {
        Some(Token::COMMA)
    } else if c == ':' {
        Some(Token::COLON)
    } else if c == ';' {
        Some(Token::SEMICOLON)
    } else if c == '=' {
        Some(Token::EQUAL)
    } else {
        None
    }
}

/// Characters that separate tokens and produce none.
pub open spec fn is_blank(c: char) -> bool {
    c == '\n' || c == '\t' || c == '\r' || c == ' '
}

/// Where the run of digits starting at `pos` ends.
pub open spec fn digits_end(s: Seq<char>, pos: int) -> int
    decreases s.len() - pos,
{
    if 0 <= pos < s.len() && is_digit(s[pos]) {
        digits_end(s, pos + 1)
    } else {
        pos
    }
}

/// Where the run of letters starting at `pos` ends, `l` telling which
/// characters of `s` are letters.
pub open spec fn alpha_end(s: Seq<char>, l: Seq<bool>, pos: int) -> int
    decreases s.len() - pos,
{
    if 0 <= pos < s.len() && l[pos] {
        alpha_end(s, l, pos + 1)
    } else {
        pos
    }
}

/// The position of the first `q` at or after `pos`, or the end of `s`.
pub open spec fn quote_end(s: Seq<char>, pos: int, q: char) -> int
    decreases s.len() - pos,
{
    if 0 <= pos < s.len() && s[pos] != q {
        quote_end(s, pos + 1, q)
    } else {
        pos
    }
}

pub proof fn lemma_run_ends(s: Seq<char>, l: Seq<bool>, pos: int, q: char)
    requires
        0 <= pos <= s.len(),
    ensures
        pos <= digits_end(s, pos) <= s.len(),
        pos <= alpha_end(s, l, pos) <= s.len(),
        pos <= quote_end(s, pos, q) <= s.len(),
    decreases s.len() - pos,
{
    if pos < s.len() {
        lemma_run_ends(s, l, pos + 1, q);
    }
}

/// The tokens that the lexer produces from position `pos` of `s`, where `l`
/// tells which characters are letters (those that identifiers are made of), with the
/// position where it stops; `None` where the lexer fails: at an `i` or `u`
/// within the last two characters (the keyword check reads past the end), and
/// at a character that starts no token (the lexer makes no progress there and
/// never stops).
pub open spec fn lex_classes(s: Seq<char>, l: Seq<bool>, pos: int) -> Option<(Seq<Token>, int)>
    decreases s.len() - pos,
{
    if pos < 0 {
        None
    } else if pos >= s.len() {
        Some((seq![], pos))
    } else {
        let c = s[pos];
        if is_blank(c) {
            lex_classes(s, l, pos + 1)
        } else if symbol_token(c) is Some {
            match lex_classes(s, l, pos + 1) {
                Some((rest, end)) => Some((seq![symbol_token(c).unwrap()] + rest, end)),
                None => None,
            }
        } else if c == 'i' || c == 'u' {
            if pos + 2 >= s.len() {
                None
            } else if s[pos + 1] == '3' && s[pos + 2] == '2' {
                let t = if c == 'i' {
                    Token::I32
                } else {
                    Token::U32
                };
                match lex_classes(s, l, pos + 3) {
                    Some((rest, end)) => Some((seq![t] + rest, end)),
                    None => None,
                }
            } else {
                lex_classes(s, l, pos + 1)
            }
        } else if is_digit(c) {
            let e = digits_end(s, pos);
            proof {
                lemma_run_ends(s, l, pos + 1, c);
            }
            match lex_classes(s, l, e) {
                Some((rest, end)) => Some(
                    (seq![Token::NUMBER(canon(s.subrange(pos, e)))] + rest, end),
                ),
                None => None,
            }
        } else if l[pos] {
            let e = alpha_end(s, l, pos);
            proof {
                lemma_run_ends(s, l, pos + 1, c);
            }
            match lex_classes(s, l, e) {
                Some((rest, end)) => Some(
                    (seq![Token::IDENTIFIER(canon(s.subrange(pos, e)))] + rest, end),
                ),
                None => None,
            }
        } else if c == '"' || c == '\'' {
            let e = quote_end(s, pos + 1, c);
            proof {
                lemma_run_ends(s, l, pos + 1, c);
            }
            let t = Token::STRING(canon(s.subrange(pos + 1, e)));
            if e >= s.len() {
                Some((seq![t], e + 1))
            } else {
                match lex_classes(s, l, e + 1) {
                    Some((rest, end)) => Some((seq![t] + rest, end)),
                    None => None,
                }
            }
        } else {
            None
        }
    }
}

/// Which characters of `s` are letters: those with the Unicode `Alphabetic`
/// property.
pub open spec fn letters_of(s: Seq<char>) -> Seq<bool> {
    Seq::new(s.len(), |i: int| alphabetic(s[i]))
}

/// The tokens that the lexer produces from position `pos` of `s`, with the
/// position where it stops (see `lex_classes`), identifiers being made of
/// the characters with the Unicode `Alphabetic` property.
pub open spec fn lex_from(s: Seq<char>, pos: int) -> Option<(Seq<Token>, int)> {
    lex_classes(s, letters_of(s), pos)
}

/// One step of the lexer from `pos` to `next`, having produced `pushed`.
pub open spec fn lex_step(s: Seq<char>, l: Seq<bool>, pos: int, next: int, pushed: Seq<Token>) -> bool {
    let c = s[pos];
    if is_blank(c) {
        next == pos + 1 && pushed == Seq::<Token>::empty()
    } else if symbol_token(c) is Some {
        next == pos + 1 && pushed == seq![symbol_token(c).unwrap()]
    } else if c == 'i' || c == 'u' {
        &&& pos + 2 < s.len()
        &&& if s[pos + 1] == '3' && s[pos + 2] == '2' {
            next == pos + 3 && pushed == seq![if c == 'i' { Token::I32 } else { Token::U32 }]
        } else {
            next == pos + 1 && pushed == Seq::<Token>::empty()
        }
    } else if is_digit(c) {
        next == digits_end(s, pos) && pushed == seq![Token::NUMBER(canon(s.subrange(pos, next)))]
    } else if l[pos] {
        next == alpha_end(s, l, pos) && pushed == seq![
            Token::IDENTIFIER(canon(s.subrange(pos, next))),
        ]
    } else if c == '"' || c == '\'' {
        let e = quote_end(s, pos + 1, c);
        next == e + 1 && pushed == seq![Token::STRING(canon(s.subrange(pos + 1, e)))]
    } else {
        false
    }
}

proof fn lemma_lex_step(s: Seq<char>, l: Seq<bool>, pos: int, next: int, pushed: Seq<Token>)
    requires
        0 <= pos < s.len(),
        lex_step(s, l, pos, next, pushed),
    ensures
        lex_classes(s, l, pos) is Some <==> lex_classes(s, l, next) is Some,
        lex_classes(s, l, pos) is Some ==> lex_classes(s, l, pos).unwrap().0 == pushed + lex_classes(
            s,
            l,
            next,
        ).unwrap().0 && lex_classes(s, l, pos).unwrap().1 == lex_classes(s, l, next).unwrap().1,
{
    let c = s[pos];
    lemma_run_ends(s, l, pos + 1, c);
    if is_blank(c) {
        assert(pushed + lex_classes(s, l, next).unwrap_or((seq![], 0)).0 =~= lex_classes(s, l, next).unwrap_or((seq![], 0)).0);
    } else if c == '"' || c == '\'' {
        if !(symbol_token(c) is Some) && !is_digit(c) && !l[pos] && next >= s.len() {
            assert(lex_classes(s, l, next) == Some((Seq::<Token>::empty(), next)));
            assert(pushed + Seq::<Token>::empty() =~= pushed);
        }
    } else if c == 'i' || c == 'u' {
        if !(s[pos + 1] == '3' && s[pos + 2] == '2') {
            assert(pushed + lex_classes(s, l, next).unwrap_or((seq![], 0)).0 =~= lex_classes(s, l, next).unwrap_or((seq![], 0)).0);
        }
    }
}

/// The lexer's state: the position in the program and the tokens so far.
pub struct Lexer {
    pub current: usize,
    pub program: Box<String>,
    pub tokens: Box<Vec<Token>>,
}

impl Lexer {
    /// A lexer at position 0 of an empty program, with no tokens.
    pub fn new() -> (r: Lexer)
        ensures
            r.current == 0,
            r.program@ == Seq::<char>::empty(),
            r.tokens@ == Seq::<Token>::empty(),
    {
        proof {
            reveal_strlit("");
        }
        Lexer { current: 0, program: Box::new(string_of("")), tokens: Box::new(Vec::new()) }
    }

    /// Lexes `program` from the current position, appending its tokens. The
    /// lexer must accept the program; `try_lex` tests that and lexes in one call.
    pub fn lex(&mut self, program: Box<String>)
        requires
            lex_from(program@, old(self).current as int) is Some,
            program@.len() + 3 <= usize::MAX,
        ensures
            *final(self).program == *program,
            tokens_view(final(self).tokens@) == tokens_view(old(self).tokens@) + lex_from(
                program@,
                old(self).current as int,
            ).unwrap().0,
            final(self).current == lex_from(program@, old(self).current as int).unwrap().1,
    {
        let ok = self.try_lex(program);
        assert(ok);
    }

    /// Lexes `program` from the current position as `lex` does, where the
    /// lexer can; returns whether it could (see `lex_from`). Where it could
    /// not, the tokens and position are left partly advanced.
    pub fn try_lex(&mut self, program: Box<String>) -> (r: bool)
        requires
            program@.len() + 3 <= usize::MAX,
        ensures
            *final(self).program == *program,
            r == lex_from(program@, old(self).current as int) is Some,
            r ==> tokens_view(final(self).tokens@) == tokens_view(old(self).tokens@) + lex_from(
                program@,
                old(self).current as int,
            ).unwrap().0,
            r ==> final(self).current == lex_from(program@, old(self).current as int).unwrap().1,
    {
        let n: usize = program.as_str().unicode_len();
        let mut letters: Vec<bool> = Vec::new();
        let mut i: usize = 0;
        while i < n
            invariant
                n == program@.len(),
                i <= n,
                letters@ == letters_of(program@).take(i as int),
            decreases n - i,
        {
            let c = program.as_str().get_char(i);
            let is_letter = is_alphabetic(c);
            letters.push(is_letter);
            proof {
                assert(letters@ =~= letters_of(program@).take(i + 1));
            }
            i = i + 1;
        }
        proof {
            assert(letters@ =~= letters_of(program@));
        }
        self.try_lex_with_letters(program, &letters)
    }

    /// Lexes `program` from the current position, `letters` telling which of its
    /// characters are letters; returns whether the lexer could (see
    /// `lex_classes`). Where it could not, the tokens and position are left
    /// partly advanced.
    pub fn try_lex_with_letters(&mut self, program: Box<String>, letters: &Vec<bool>) -> (r: bool)
        requires
            program@.len() + 3 <= usize::MAX,
            letters@.len() == program@.len(),
        ensures
            *final(self).program == *program,
            r == lex_classes(program@, letters@, old(self).current as int) is Some,
            r ==> tokens_view(final(self).tokens@) == tokens_view(old(self).tokens@) + lex_classes(
                program@,
                letters@,
                old(self).current as int,
            ).unwrap().0,
            r ==> final(self).current == lex_classes(program@, letters@, old(self).current as int).unwrap().1,
    {
        broadcast use lemma_tokens_view_push;

        self.program = program;
        let n: usize = self.program.as_str().unicode_len();
        let ghost s = self.program@;
        let ghost start = self.current as int;
        let ghost old_tokens = tokens_view(self.tokens@);
        while !self.end()
            invariant
                s == self.program@,
                *self.program == *program,
                n == s.len(),
                letters@.len() == s.len(),
                n + 3 <= usize::MAX,
                start <= self.current,
                start == old(self).current,
                lex_classes(s, letters@, start) is Some <==> lex_classes(s, letters@, self.current as int) is Some,
                lex_classes(s, letters@, start) is Some ==> ({
                    let full = lex_classes(s, letters@, start).unwrap();
                    let rest = lex_classes(s, letters@, self.current as int).unwrap();
                    &&& old_tokens + full.0 == tokens_view(self.tokens@) + rest.0
                    &&& full.1 == rest.1
                }),
            decreases n + 2 - self.current,
        {
            let cur: usize = self.current;
            let ghost before = tokens_view(self.tokens@);
            let ghost mut pushed: Seq<Token> = seq![];
            let c: char = self.program.as_str().get_char(self.current);
            assert(c == s[cur as int]);
            if c == 'i' || c == 'u' {
                if self.current + 2 >= n {
                    assert(lex_classes(s, letters@, cur as int) is None);
                    return false;
                }
                proof {
                    reveal_strlit("i32");
                    reveal_strlit("u32");
                }
                let keyword = if c == 'i' {
                    string_of("i32")
                } else {
                    string_of("u32")
                };
                assert(keyword@ =~= seq![c, '3', '2']);
                let found = self.is_keyword(keyword);
                proof {
                    let sub = s.subrange(cur as int, cur + 3);
                    assert(sub[0] == c && sub[1] == s[cur + 1] && sub[2] == s[cur + 2]);
                    if s[cur + 1] == '3' && s[cur + 2] == '2' {
                        assert(sub =~= seq![c, '3', '2']);
                    }
                }
                if found {
                    if c == 'i' {
                        self.tokens.push(Token::I32);
                        proof { pushed = seq![Token::I32]; }
                    } else {
                        self.tokens.push(Token::U32);
                        proof { pushed = seq![Token::U32]; }
                    }
                    self.current = self.current + 3;
                } else {
                    self.current = self.current + 1;
                }
            } else if c == '\n' || c == '\t' || c == '\r' || c == ' ' {
                self.current = self.current + 1;
            } else if c == '+' || c == '-' || c == '*' || c == '/' || c == '{' || c == '}'
                || c == '(' || c == ')' || c == '[' || c == ']' || c == ',' || c == ':'
                || c == ';' || c == '=' {
                let t = if c == '+' {
                    Token::PLUS
                } else if c == '-' {
                    Token::MINUS
                } else if c == '*' {
                    Token::STAR
                } else if c == '/' {
                    Token::DIV
                } else if c == '{' {
                    Token::LCURLY
                } else if c == '}' {
                    Token::RCURLY
                } else if c == '(' {
                    Token::LPAREN
                } else if c == ')' {
                    Token::RPAREN
                } else if c == '[' {
                    Token::LBRACKET
                } else if c == ']' {
                    Token::RBRACKET
                } else if c == ',' {
                    Token::COMMA
                } else if c == ':' {
                    Token::COLON
                } else if c == ';' {
                    Token::SEMICOLON
                } else {
                    Token::EQUAL
                };
                assert(symbol_token(c) == Some(t));
                self.tokens.push(t);
                proof { pushed = seq![t]; }
                self.current = self.current + 1;
            } else {
                self.other(letters);
                proof {
                    lemma_run_ends(s, letters@, cur as int + 1, c);
                }
                if self.current == cur {
                    assert(lex_classes(s, letters@, cur as int) is None);
                    return false;
                }
                proof {
                    pushed = seq![tokens_view(self.tokens@).last()];
                }
            }
            proof {
                assert(tokens_view(self.tokens@) =~= before + pushed);
                lemma_lex_step(s, letters@, cur as int, self.current as int, pushed);
                if lex_classes(s, letters@, start) is Some {
                    let full = lex_classes(s, letters@, start).unwrap();
                    let r0 = lex_classes(s, letters@, cur as int).unwrap();
                    let r1 = lex_classes(s, letters@, self.current as int).unwrap();
                    assert(r0.0 =~= pushed + r1.0);
                    assert(old_tokens + full.0 =~= before + r0.0);
                    assert(old_tokens + full.0 =~= tokens_view(self.tokens@) + r1.0);
                }
            }
        }
        proof {
            assert(lex_classes(s, letters@, self.current as int) == Some((Seq::<Token>::empty(), self.current as int)));
        }
        true
    }

    /// Whether the program holds `keyword` at the current position.
    fn is_keyword(&self, keyword: String) -> (r: bool)
        requires
            self.current + keyword@.len() <= self.program@.len(),
            self.program@.len() <= usize::MAX,
        ensures
            r == (self.program@.subrange(
                self.current as int,
                self.current + keyword@.len(),
            ) == keyword@),
    {
        let mut matched = true;
        let k: usize = keyword.as_str().unicode_len();
        let mut i: usize = 0;
        while i < k
            invariant
                k == keyword@.len(),
                self.current + k <= self.program@.len(),
                self.program@.len() <= usize::MAX,
                i <= k,
                matched == forall|j: int|
                    0 <= j < i ==> self.program@[self.current + j] == keyword@[j],
            decreases k - i,
        {
            if self.program.as_str().get_char(self.current + i) != keyword.as_str().get_char(i) {
                matched = false;
            }
            i = i + 1;
        }
        proof {
            let sub = self.program@.subrange(self.current as int, self.current + k);
            if matched {
                assert(sub =~= keyword@);
            } else {
                let j = choose|j: int| 0 <= j < k && self.program@[self.current + j] != keyword@[j];
                assert(sub[j] != keyword@[j]);
            }
        }
        matched
    }

    /// Whether the whole program has been read.
    fn end(&self) -> (r: bool)
        ensures
            r == (self.current >= self.program@.len()),
    {
        self.current >= self.program.as_str().unicode_len()
    }

    /// Lexes a number, identifier or string at the current position; does
    /// nothing at any other character.
    fn other(&mut self, letters: &Vec<bool>)
        requires
            old(self).current < old(self).program@.len(),
            old(self).program@.len() + 3 <= usize::MAX,
            letters@.len() == old(self).program@.len(),
        ensures
            final(self).program == old(self).program,
            ({
                let s = old(self).program@;
                let pos = old(self).current as int;
                let c = s[pos];
                if is_digit(c) {
                    let e = digits_end(s, pos);
                    &&& final(self).current == e
                    &&& tokens_view(final(self).tokens@) == tokens_view(old(self).tokens@).push(
                        Token::NUMBER(canon(s.subrange(pos, e))),
                    )
                } else if letters@[pos] {
                    let e = alpha_end(s, letters@, pos);
                    &&& final(self).current == e
                    &&& tokens_view(final(self).tokens@) == tokens_view(old(self).tokens@).push(
                        Token::IDENTIFIER(canon(s.subrange(pos, e))),
                    )
                } else if c == '"' || c == '\'' {
                    let e = quote_end(s, pos + 1, c);
                    &&& final(self).current == e + 1
                    &&& tokens_view(final(self).tokens@) == tokens_view(old(self).tokens@).push(
                        Token::STRING(canon(s.subrange(pos + 1, e))),
                    )
                } else {
                    &&& final(self).current == old(self).current
                    &&& final(self).tokens@ == old(self).tokens@
                }
            }),
    {
        let c: char = self.program.as_str().get_char(self.current);
        if is_digit_exec(c) {
            self.number();
        } else if letters[self.current] {
            self.identifier(letters);
        } else if c == '"' || c == '\'' {
            self.string();
        }
    }

    /// Lexes the run of digits at the current position as a `NUMBER`.
    fn number(&mut self)
        requires
            old(self).current <= old(self).program@.len(),
            old(self).program@.len() + 3 <= usize::MAX,
        ensures
            final(self).program == old(self).program,
            final(self).current == digits_end(old(self).program@, old(self).current as int),
            tokens_view(final(self).tokens@) == tokens_view(old(self).tokens@).push(
                Token::NUMBER(canon(old(self).program@.subrange(old(self).current as int, final(self).current as int))),
            ),
    {
        broadcast use lemma_tokens_view_push;

        let ghost s = self.program@;
        let start: usize = self.current;
        proof {
            lemma_run_ends(s, Seq::<bool>::empty(), start as int, ' ');
        }
        while !self.end() && is_digit_exec(self.program.as_str().get_char(self.current))
            invariant
                s == self.program@,
                start <= self.current <= s.len(),
                s.len() + 3 <= usize::MAX,
                digits_end(s, start as int) == digits_end(s, self.current as int),
                self.tokens == old(self).tokens,
                self.program == old(self).program,
            decreases s.len() - self.current,
        {
            self.current = self.current + 1;
        }
        let text = string_of(self.program.as_str().substring_char(start, self.current));
        self.tokens.push(Token::NUMBER(text));
    }

    /// Lexes the run of alphabetic characters at the current position as an
    /// `IDENTIFIER`.
    fn identifier(&mut self, letters: &Vec<bool>)
        requires
            old(self).current <= old(self).program@.len(),
            old(self).program@.len() + 3 <= usize::MAX,
            letters@.len() == old(self).program@.len(),
        ensures
            final(self).program == old(self).program,
            final(self).current == alpha_end(old(self).program@, letters@, old(self).current as int),
            tokens_view(final(self).tokens@) == tokens_view(old(self).tokens@).push(
                Token::IDENTIFIER(canon(old(self).program@.subrange(old(self).current as int, final(self).current as int))),
            ),
    {
        broadcast use lemma_tokens_view_push;

        let ghost s = self.program@;
        let start: usize = self.current;
        proof {
            lemma_run_ends(s, Seq::<bool>::empty(), start as int, ' ');
        }
        while !self.end() && letters[self.current]
            invariant
                s == self.program@,
                letters@.len() == s.len(),
                start <= self.current <= s.len(),
                s.len() + 3 <= usize::MAX,
                alpha_end(s, letters@, start as int) == alpha_end(s, letters@, self.current as int),
                self.tokens == old(self).tokens,
                self.program == old(self).program,
            decreases s.len() - self.current,
        {
            self.current = self.current + 1;
        }
        let text = string_of(self.program.as_str().substring_char(start, self.current));
        self.tokens.push(Token::IDENTIFIER(text));
    }

    /// Lexes a string delimited by the quote at the current position (up to the
    /// next such quote, or the end of the program) as a `STRING`.
    fn string(&mut self)
        requires
            old(self).current < old(self).program@.len(),
            old(self).program@.len() + 3 <= usize::MAX,
        ensures
            final(self).program == old(self).program,
            ({
                let s = old(self).program@;
                let pos = old(self).current as int;
                let e = quote_end(s, pos + 1, s[pos]);
                &&& final(self).current == e + 1
                &&& tokens_view(final(self).tokens@) == tokens_view(old(self).tokens@).push(
                    Token::STRING(canon(s.subrange(pos + 1, e))),
                )
            }),
    {
        broadcast use lemma_tokens_view_push;

        let ghost s = self.program@;
        let first_char: char = self.program.as_str().get_char(self.current);
        self.current = self.current + 1;
        let start: usize = self.current;
        proof {
            lemma_run_ends(s, Seq::<bool>::empty(), start as int, first_char);
        }
        while !self.end() && self.program.as_str().get_char(self.current) != first_char
            invariant
                s == self.program@,
                start <= self.current <= s.len(),
                s.len() + 3 <= usize::MAX,
                quote_end(s, start as int, first_char) == quote_end(s, self.current as int, first_char),
                self.tokens == old(self).tokens,
                self.program == old(self).program,
            decreases s.len() - self.current,
        {
            self.current = self.current + 1;
        }
        let end: usize = self.current;
        let text = string_of(self.program.as_str().substring_char(start, end));
        self.current = self.current + 1;
        self.tokens.push(Token::STRING(text));
    }
}

pub broadcast proof fn lemma_tokens_view_push(a: Seq<Token>, x: Token)
    ensures
        #[trigger] tokens_view(a.push(x)) == tokens_view(a).push(x@),
{
    assert(tokens_view(a.push(x)) =~= tokens_view(a).push(x@));
}

/// The tokens the lexer can produce: punctuation, the `i32` and `u32`
/// keywords, numbers, strings and identifiers.
pub open spec fn lexer_token(t: Token) -> bool {
    match t {
        Token::PLUS | Token::MINUS | Token::STAR | Token::DIV | Token::LCURLY | Token::RCURLY
        | Token::LPAREN | Token::RPAREN | Token::LBRACKET | Token::RBRACKET | Token::COMMA
        | Token::COLON | Token::SEMICOLON | Token::EQUAL | Token::I32 | Token::U32 => true,
        Token::NUMBER(_) | Token::STRING(_) | Token::IDENTIFIER(_) => true,
        _ => false,
    }
}

/// Lexing produces only the lexer's own tokens (never `END` nor a keyword of
/// the parser), and it stops at the end of the text or past it, whichever
/// characters count as letters (`lex_from` takes the `Alphabetic` ones).
pub proof fn lemma_lex_from_tokens(s: Seq<char>, l: Seq<bool>, pos: int)
    requires
        0 <= pos,
    ensures
        lex_classes(s, l, pos) matches Some((ts, end)) ==> end >= s.len() && forall|i: int|
            0 <= i < ts.len() ==> lexer_token(#[trigger] ts[i]),
    decreases s.len() - pos,
{
    if pos < s.len() {
        let c = s[pos];
        lemma_run_ends(s, l, pos + 1, c);
        lemma_run_ends(s, l, pos, c);
        if is_blank(c) || symbol_token(c) is Some {
            lemma_lex_from_tokens(s, l, pos + 1);
        } else if c == 'i' || c == 'u' {
            if pos + 2 < s.len() {
                if s[pos + 1] == '3' && s[pos + 2] == '2' {
                    lemma_lex_from_tokens(s, l, pos + 3);
                } else {
                    lemma_lex_from_tokens(s, l, pos + 1);
                }
            }
        } else if is_digit(c) {
            assert(digits_end(s, pos) == digits_end(s, pos + 1));
            lemma_lex_from_tokens(s, l, digits_end(s, pos));
        } else if l[pos] {
            assert(alpha_end(s, l, pos) == alpha_end(s, l, pos + 1));
            lemma_lex_from_tokens(s, l, alpha_end(s, l, pos));
        } else if c == '"' || c == '\'' {
            let e = quote_end(s, pos + 1, c);
            if e < s.len() {
                lemma_lex_from_tokens(s, l, e + 1);
            }
        }
        if let Some((ts, end)) = lex_classes(s, l, pos) {
            assert forall|i: int| 0 <= i < ts.len() implies lexer_token(#[trigger] ts[i]) by {
                if i > 0 {
                    let rest = ts.subrange(1, ts.len() as int);
                    assert(ts[i] == rest[i - 1]) by {
                        assert(ts =~= seq![ts[0]] + rest);
                    }
                }
            }
        }
    }
}

/// A string token: where the text at `pos` opens with a quote `q` (`"` or
/// `'`, not counted as a letter), the first token lexed there is a string holding everything from
/// after that quote up to the next `q` (or to the end of the text), other
/// quote characters included.
pub proof fn lemma_lex_string(s: Seq<char>, l: Seq<bool>, pos: int, e: int)
    requires
        0 <= pos < e <= s.len(),
        s[pos] == '"' || s[pos] == '\'',
        !l[pos],
        forall|k: int| pos < k < e ==> s[k] != s[pos],
        e == s.len() || s[e] == s[pos],
    ensures
        lex_classes(s, l, pos) matches Some((ts, _)) ==> ts.len() > 0 && ts[0] == Token::STRING(
            canon(s.subrange(pos + 1, e)),
        ),
{
    let q = s[pos];
    lemma_quote_end_first(s, pos + 1, q, e);
    if let Some((ts, _)) = lex_classes(s, l, pos) {
        let t = Token::STRING(canon(s.subrange(pos + 1, e)));
        assert(ts[0] == t);
    }
}

/// `quote_end` stops at the first `q` at or after `from`.
proof fn lemma_quote_end_first(s: Seq<char>, from: int, q: char, e: int)
    requires
        0 <= from <= e <= s.len(),
        forall|k: int| from <= k < e ==> s[k] != q,
        e == s.len() || s[e] == q,
    ensures
        quote_end(s, from, q) == e,
    decreases e - from,
{
    if from < e {
        lemma_quote_end_first(s, from + 1, q, e);
    }
}

/// `digits_end` stops at the first non-digit at or after `from`.
proof fn lemma_digits_end_first(s: Seq<char>, from: int, e: int)
    requires
        0 <= from <= e <= s.len(),
        forall|k: int| from <= k < e ==> is_digit(s[k]),
        e == s.len() || !is_digit(s[e]),
    ensures
        digits_end(s, from) == e,
    decreases e - from,
{
    if from < e {
        lemma_digits_end_first(s, from + 1, e);
    }
}

/// `alpha_end` stops at the first non-letter at or after `from`.
proof fn lemma_alpha_end_first(s: Seq<char>, l: Seq<bool>, from: int, e: int)
    requires
        0 <= from <= e <= s.len(),
        forall|k: int| from <= k < e ==> l[k],
        e == s.len() || !l[e],
    ensures
        alpha_end(s, l, from) == e,
    decreases e - from,
{
    if from < e {
        lemma_alpha_end_first(s, l, from + 1, e);
    }
}

/// A number token: where the text at `pos` starts with a digit, the first
/// token lexed there is a number holding the whole run of digits from `pos`.
pub proof fn lemma_lex_number(s: Seq<char>, l: Seq<bool>, pos: int, e: int)
    requires
        0 <= pos < e <= s.len(),
        forall|k: int| pos <= k < e ==> is_digit(s[k]),
        e == s.len() || !is_digit(s[e]),
    ensures
        lex_classes(s, l, pos) matches Some((ts, _)) ==> ts.len() > 0 && ts[0] == Token::NUMBER(
            canon(s.subrange(pos, e)),
        ),
{
    lemma_digits_end_first(s, pos, e);
    if let Some((ts, _)) = lex_classes(s, l, pos) {
        assert(ts[0] == Token::NUMBER(canon(s.subrange(pos, e))));
    }
}

/// An identifier: where the text at `pos` starts with a letter that is no
/// digit, blank, punctuation, `i` or `u`, the first token lexed there is an
/// identifier holding the whole run of letters from `pos`.
pub proof fn lemma_lex_identifier(s: Seq<char>, l: Seq<bool>, pos: int, e: int)
    requires
        0 <= pos < e <= s.len(),
        forall|k: int| pos <= k < e ==> l[k],
        e == s.len() || !l[e],
        !is_digit(s[pos]),
        !is_blank(s[pos]),
        symbol_token(s[pos]) is None,
        s[pos] != 'i' && s[pos] != 'u',
    ensures
        lex_classes(s, l, pos) matches Some((ts, _)) ==> ts.len() > 0 && ts[0]
            == Token::IDENTIFIER(canon(s.subrange(pos, e))),
{
    lemma_alpha_end_first(s, l, pos, e);
    if let Some((ts, _)) = lex_classes(s, l, pos) {
        assert(ts[0] == Token::IDENTIFIER(canon(s.subrange(pos, e))));
    }
}

/// Punctuation and the `i32`/`u32` keywords: each is lexed as its own token,
/// and the lexer goes on after it.
pub proof fn lemma_lex_punctuation(s: Seq<char>, l: Seq<bool>, pos: int)
    requires
        0 <= pos < s.len(),
    ensures
        ({
            let c = s[pos];
            let t = if c == '+' {
                Some(Token::PLUS)
            } else if c == '-' {
                Some(Token::MINUS)
            } else if c == '*' {
                Some(Token::STAR)
            } else if c == '/' {
                Some(Token::DIV)
            } else if c == '{' {
                Some(Token::LCURLY)
            } else if c == '}' {
                Some(Token::RCURLY)
            } else if c == '(' {
                Some(Token::LPAREN)
            } else if c == ')' {
                Some(Token::RPAREN)
            } else if c == '[' {
                Some(Token::LBRACKET)
            } else if c == ']' {
                Some(Token::RBRACKET)
            } else if c == ',' {
                Some(Token::COMMA)
            } else if c == ':' {
                Some(Token::COLON)
            } else if c == ';' {
                Some(Token::SEMICOLON)
            } else if c == '=' {
                Some(Token::EQUAL)
            } else {
                None
            };
            t matches Some(tok) ==> lex_classes(s, l, pos) == cons_token(tok, lex_classes(s, l, pos + 1))
        }),
        pos + 2 < s.len() && s[pos] == 'i' && s[pos + 1] == '3' && s[pos + 2] == '2' ==> lex_classes(
            s,
            l,
            pos,
        ) == cons_token(Token::I32, lex_classes(s, l, pos + 3)),
        pos + 2 < s.len() && s[pos] == 'u' && s[pos + 1] == '3' && s[pos + 2] == '2' ==> lex_classes(
            s,
            l,
            pos,
        ) == cons_token(Token::U32, lex_classes(s, l, pos + 3)),
{
}

/// `r` with `t` in front of its tokens.
pub open spec fn cons_token(t: Token, r: Option<(Seq<Token>, int)>) -> Option<(Seq<Token>, int)> {
    match r {
        Some((ts, e)) => Some((seq![t] + ts, e)),
        None => None,
    }
}

/// Spaces, tabs and line breaks produce no token.
pub proof fn lemma_lex_blank(s: Seq<char>, l: Seq<bool>, pos: int)
    requires
        0 <= pos < s.len(),
        s[pos] == ' ' || s[pos] == '\n' || s[pos] == '\t' || s[pos] == '\r',
    ensures
        lex_classes(s, l, pos) == lex_classes(s, l, pos + 1),
{
}

} // verus!
