use vstd::prelude::*;

use crate::text::{debug_quoted, str_eq, string_debug, string_of};

verus! {

/// A lexical token of the language.
#[derive(Debug, PartialEq, Eq)]
pub enum Token {
    ASSIGN,
    PLUS,
    MINUS,
    BANG,
    ASTERISK,
    LT,
    GT,
    SLASH,
    COMMA,
    SEMICOLON,
    LPAREN,
    RPAREN,
    LBRACE,
    RBRACE,
    EOF,
    ILLEGAL(String),
    INT(String),
    KEYWORD(Keyword),
    IDENTIFIER(String),
    EQ,
    NOTEQ,
    TRUE,
    FALSE,
    IF,
    ELSE,
    FUNCTION,
}

/// The statement keywords.
#[derive(Debug, PartialEq, Eq, Structural, Clone, Copy)]
pub enum Keyword {
    LET,
    RETURN,
}

/// The mathematical value of a token: its variant, with the text it carries.
pub enum SpecToken {
    ASSIGN,
    PLUS,
    MINUS,
    BANG,
    ASTERISK,
    LT,
    GT,
    SLASH,
    COMMA,
    SEMICOLON,
    LPAREN,
    RPAREN,
    LBRACE,
    RBRACE,
    EOF,
    ILLEGAL(Seq<char>),
    INT(Seq<char>),
    KEYWORD(Keyword),
    IDENTIFIER(Seq<char>),
    EQ,
    NOTEQ,
    TRUE,
    FALSE,
    IF,
    ELSE,
    FUNCTION,
}

impl View for Token {
    type V = SpecToken;

    open spec fn view(&self) -> SpecToken {
        match self {
            Token::ASSIGN => SpecToken::ASSIGN,
            Token::PLUS => SpecToken::PLUS,
            Token::MINUS => SpecToken::MINUS,
            Token::BANG => SpecToken::BANG,
            Token::ASTERISK => SpecToken::ASTERISK,
            Token::LT => SpecToken::LT,
            Token::GT => SpecToken::GT,
            Token::SLASH => SpecToken::SLASH,
            Token::COMMA => SpecToken::COMMA,
            Token::SEMICOLON => SpecToken::SEMICOLON,
            Token::LPAREN => SpecToken::LPAREN,
            Token::RPAREN => SpecToken::RPAREN,
            Token::LBRACE => SpecToken::LBRACE,
            Token::RBRACE => SpecToken::RBRACE,
            Token::EOF => SpecToken::EOF,
            Token::ILLEGAL(s) => SpecToken::ILLEGAL(s@),
            Token::INT(s) => SpecToken::INT(s@),
            Token::KEYWORD(k) => SpecToken::KEYWORD(*k),
            Token::IDENTIFIER(s) => SpecToken::IDENTIFIER(s@),
            Token::EQ => SpecToken::EQ,
            Token::NOTEQ => SpecToken::NOTEQ,
            Token::TRUE => SpecToken::TRUE,
            Token::FALSE => SpecToken::FALSE,
            Token::IF => SpecToken::IF,
            Token::ELSE => SpecToken::ELSE,
            Token::FUNCTION => SpecToken::FUNCTION,
        }
    }
}

impl Clone for Token {
    fn clone(&self) -> (res: Self)
        ensures
            res == *self,
    {
        match self {
            Token::ASSIGN => Token::ASSIGN,
            Token::PLUS => Token::PLUS,
            Token::MINUS => Token::MINUS,
            Token::BANG => Token::BANG,
            Token::ASTERISK => Token::ASTERISK,
            Token::LT => Token::LT,
            Token::GT => Token::GT,
            Token::SLASH => Token::SLASH,
            Token::COMMA => Token::COMMA,
            Token::SEMICOLON => Token::SEMICOLON,
            Token::LPAREN => Token::LPAREN,
            Token::RPAREN => Token::RPAREN,
            Token::LBRACE => Token::LBRACE,
            Token::RBRACE => Token::RBRACE,
            Token::EOF => Token::EOF,
            Token::ILLEGAL(s) => Token::ILLEGAL(s.clone()),
            Token::INT(s) => Token::INT(s.clone()),
            Token::KEYWORD(k) => Token::KEYWORD(*k),
            Token::IDENTIFIER(s) => Token::IDENTIFIER(s.clone()),
            Token::EQ => Token::EQ,
            Token::NOTEQ => Token::NOTEQ,
            Token::TRUE => Token::TRUE,
            Token::FALSE => Token::FALSE,
            Token::IF => Token::IF,
            Token::ELSE => Token::ELSE,
            Token::FUNCTION => Token::FUNCTION,
        }
    }
}

/// Kinds of tokens that the parser tests for.
pub const KIND_ASSIGN: u64 = 0;
pub const KIND_COMMA: u64 = 8;
pub const KIND_SEMICOLON: u64 = 9;
pub const KIND_LPAREN: u64 = 10;
pub const KIND_RPAREN: u64 = 11;
pub const KIND_LBRACE: u64 = 12;
pub const KIND_RBRACE: u64 = 13;
pub const KIND_EOF: u64 = 14;
pub const KIND_IDENTIFIER: u64 = 18;
pub const KIND_TRUE: u64 = 21;
pub const KIND_ELSE: u64 = 24;

/// The variant of a token, with what it carries ignored: two tokens have the
/// same kind exactly when they have the same enum variant.
pub open spec fn kind_of(t: SpecToken) -> u64 {
    match t {
        SpecToken::ASSIGN => 0,
        SpecToken::PLUS => 1,
        SpecToken::MINUS => 2,
        SpecToken::BANG => 3,
        SpecToken::ASTERISK => 4,
        SpecToken::LT => 5,
        SpecToken::GT => 6,
        SpecToken::SLASH => 7,
        SpecToken::COMMA => 8,
        SpecToken::SEMICOLON => 9,
        SpecToken::LPAREN => 10,
        SpecToken::RPAREN => 11,
        SpecToken::LBRACE => 12,
        SpecToken::RBRACE => 13,
        SpecToken::EOF => 14,
        SpecToken::ILLEGAL(_) => 15,
        SpecToken::INT(_) => 16,
        SpecToken::KEYWORD(_) => 17,
        SpecToken::IDENTIFIER(_) => 18,
        SpecToken::EQ => 19,
        SpecToken::NOTEQ => 20,
        SpecToken::TRUE => 21,
        SpecToken::FALSE => 22,
        SpecToken::IF => 23,
        SpecToken::ELSE => 24,
        SpecToken::FUNCTION => 25,
    }
}

/// The text of a keyword, in capitals.
pub open spec fn keyword_text(k: Keyword) -> Seq<char> {
    match k {
        Keyword::LET => "LET"@,
        Keyword::RETURN => "RETURN"@,
    }
}

/// The literal that a token prints as.
pub open spec fn token_text(t: SpecToken) -> Seq<char> {
    match t {
        SpecToken::ILLEGAL(v) => v,
        SpecToken::EOF => ""@,
        SpecToken::ASSIGN => "="@,
        SpecToken::PLUS => "+"@,
        SpecToken::MINUS => "-"@,
        SpecToken::BANG => "!"@,
        SpecToken::ASTERISK => "*"@,
        SpecToken::LT => "<"@,
        SpecToken::GT => ">"@,
        SpecToken::SLASH => "/"@,
        SpecToken::COMMA => ","@,
        SpecToken::SEMICOLON => ";"@,
        SpecToken::LPAREN => "("@,
        SpecToken::RPAREN => ")"@,
        SpecToken::LBRACE => "{"@,
        SpecToken::RBRACE => "}"@,
        SpecToken::INT(v) => v,
        SpecToken::IDENTIFIER(v) => v,
        SpecToken::KEYWORD(k) => keyword_text(k),
        SpecToken::EQ => "=="@,
        SpecToken::NOTEQ => "!="@,
        SpecToken::TRUE => "TRUE"@,
        SpecToken::FALSE => "FALSE"@,
        SpecToken::IF => "IF"@,
        SpecToken::ELSE => "ELSE"@,
        SpecToken::FUNCTION => "FUNCTION"@,
    }
}

/// The token that a word made of letters stands for.
pub open spec fn keyword_token(word: Seq<char>) -> SpecToken {
    if word == "if"@ {
        SpecToken::IF
    } else if word == "else"@ {
        SpecToken::ELSE
    } else if word == "fn"@ {
        SpecToken::FUNCTION
    } else if word == "let"@ {
        SpecToken::KEYWORD(Keyword::LET)
    } else if word == "return"@ {
        SpecToken::KEYWORD(Keyword::RETURN)
    } else {
        SpecToken::IDENTIFIER(word)
    }
}

/// The `Debug` form of a token: the name of its variant, followed by what it
/// carries in brackets.
pub open spec fn token_debug(t: SpecToken) -> Seq<char> {
    match t {
        SpecToken::ILLEGAL(v) => "ILLEGAL("@ + string_debug(v) + ")"@,
        SpecToken::INT(v) => "INT("@ + string_debug(v) + ")"@,
        SpecToken::KEYWORD(k) => "KEYWORD("@ + keyword_text(k) + ")"@,
        SpecToken::IDENTIFIER(v) => "IDENTIFIER("@ + string_debug(v) + ")"@,
        SpecToken::ASSIGN => "ASSIGN"@,
        SpecToken::PLUS => "PLUS"@,
        SpecToken::MINUS => "MINUS"@,
        SpecToken::BANG => "BANG"@,
        SpecToken::ASTERISK => "ASTERISK"@,
        SpecToken::LT => "LT"@,
        SpecToken::GT => "GT"@,
        SpecToken::SLASH => "SLASH"@,
        SpecToken::COMMA => "COMMA"@,
        SpecToken::SEMICOLON => "SEMICOLON"@,
        SpecToken::LPAREN => "LPAREN"@,
        SpecToken::RPAREN => "RPAREN"@,
        SpecToken::LBRACE => "LBRACE"@,
        SpecToken::RBRACE => "RBRACE"@,
        SpecToken::EOF => "EOF"@,
        SpecToken::EQ => "EQ"@,
        SpecToken::NOTEQ => "NOTEQ"@,
        SpecToken::TRUE => "TRUE"@,
        SpecToken::FALSE => "FALSE"@,
        SpecToken::IF => "IF"@,
        SpecToken::ELSE => "ELSE"@,
        SpecToken::FUNCTION => "FUNCTION"@,
    }
}

/// `head`, then the `Debug` form of `v`, then `)`.
fn wrapped(head: &str, v: &String) -> (s: String)
    ensures
        s@ == head@ + string_debug(v@) + ")"@,
{
    let mut s = string_of(head);
    let d = debug_quoted(v.as_str());
    s.append(d.as_str());
    s.append(")");
    s
}

impl Token {
    /// The kind of this token (its variant).
    pub fn kind(&self) -> (k: u64)
        ensures
            k == kind_of(self@),
    {
        match self {
            Token::ASSIGN => 0,
            Token::PLUS => 1,
            Token::MINUS => 2,
            Token::BANG => 3,
            Token::ASTERISK => 4,
            Token::LT => 5,
            Token::GT => 6,
            Token::SLASH => 7,
            Token::COMMA => 8,
            Token::SEMICOLON => 9,
            Token::LPAREN => 10,
            Token::RPAREN => 11,
            Token::LBRACE => 12,
            Token::RBRACE => 13,
            Token::EOF => 14,
            Token::ILLEGAL(_) => 15,
            Token::INT(_) => 16,
            Token::KEYWORD(_) => 17,
            Token::IDENTIFIER(_) => 18,
            Token::EQ => 19,
            Token::NOTEQ => 20,
            Token::TRUE => 21,
            Token::FALSE => 22,
            Token::IF => 23,
            Token::ELSE => 24,
            Token::FUNCTION => 25,
        }
    }

    /// The `Debug` form of this token.
    pub(crate) fn debug_text(&self) -> (s: String)
        ensures
            s@ == token_debug(self@),
    {
        match self {
            Token::ILLEGAL(v) => wrapped("ILLEGAL(", v),
            Token::INT(v) => wrapped("INT(", v),
            Token::KEYWORD(k) => {
                let mut s = string_of("KEYWORD(");
                let k = k.to_string();
                s.append(k.as_str());
                s.append(")");
                s
            },
            Token::IDENTIFIER(v) => wrapped("IDENTIFIER(", v),
            Token::ASSIGN => string_of("ASSIGN"),
            Token::PLUS => string_of("PLUS"),
            Token::MINUS => string_of("MINUS"),
            Token::BANG => string_of("BANG"),
            Token::ASTERISK => string_of("ASTERISK"),
            Token::LT => string_of("LT"),
            Token::GT => string_of("GT"),
            Token::SLASH => string_of("SLASH"),
            Token::COMMA => string_of("COMMA"),
            Token::SEMICOLON => string_of("SEMICOLON"),
            Token::LPAREN => string_of("LPAREN"),
            Token::RPAREN => string_of("RPAREN"),
            Token::LBRACE => string_of("LBRACE"),
            Token::RBRACE => string_of("RBRACE"),
            Token::EOF => string_of("EOF"),
            Token::EQ => string_of("EQ"),
            Token::NOTEQ => string_of("NOTEQ"),
            Token::TRUE => string_of("TRUE"),
            Token::FALSE => string_of("FALSE"),
            Token::IF => string_of("IF"),
            Token::ELSE => string_of("ELSE"),
            Token::FUNCTION => string_of("FUNCTION"),
        }
    }

    /// The literal of this token.
    pub fn to_string(&self) -> (s: String)
        ensures
            s@ == token_text(self@),
    {
        match self {
            Token::ILLEGAL(value) => value.clone(),
            Token::EOF => string_of(""),
            Token::ASSIGN => string_of("="),
            Token::PLUS => string_of("+"),
            Token::MINUS => string_of("-"),
            Token::BANG => string_of("!"),
            Token::ASTERISK => string_of("*"),
            Token::LT => string_of("<"),
            Token::GT => string_of(">"),
            Token::SLASH => string_of("/"),
            Token::COMMA => string_of(","),
            Token::SEMICOLON => string_of(";"),
            Token::LPAREN => string_of("("),
            Token::RPAREN => string_of(")"),
            Token::LBRACE => string_of("{"),
            Token::RBRACE => string_of("}"),
            Token::INT(value) => value.clone(),
            Token::IDENTIFIER(name) => name.clone(),
            Token::KEYWORD(keyword) => keyword.to_string(),
            Token::EQ => string_of("=="),
            Token::NOTEQ => string_of("!="),
            Token::TRUE => string_of("TRUE"),
            Token::FALSE => string_of("FALSE"),
            Token::IF => string_of("IF"),
            Token::ELSE => string_of("ELSE"),
            Token::FUNCTION => string_of("FUNCTION"),
        }
    }
}

impl Keyword {
    /// The token that `word` stands for: a keyword token for the five
    /// keywords, an identifier carrying the word otherwise.
    pub fn read_keyword(word: &str) -> (t: Token)
        ensures
            t@ == keyword_token(word@),
    {
        if str_eq(word, "if") {
            Token::IF
        } else if str_eq(word, "else") {
            Token::ELSE
        } else if str_eq(word, "fn") {
            Token::FUNCTION
        } else if str_eq(word, "let") {
            Token::KEYWORD(Keyword::LET)
        } else if str_eq(word, "return") {
            Token::KEYWORD(Keyword::RETURN)
        } else {
            Token::IDENTIFIER(word.to_owned())
        }
    }

    /// The text of this keyword, in capitals.
    pub fn to_string(&self) -> (s: String)
        ensures
            s@ == keyword_text(*self),
    {
        match self {
            Keyword::LET => string_of("LET"),
            Keyword::RETURN => string_of("RETURN"),
        }
    }
}

} // verus!
