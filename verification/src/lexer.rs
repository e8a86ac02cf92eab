use vstd::prelude::*;

use crate::text::{push_char, string_new};
use crate::token::{keyword_token, token_text, Keyword, SpecToken, Token};

verus! {

/// The byte that the lexer sees at index `i` of its input: the character
/// truncated to its low eight bits, or 0 past the end.
pub open spec fn byte_at(input: Seq<char>, i: int) -> u8 {
    if 0 <= i < input.len() {
        input[i] as u8
    } else {
        0
    }
}

/// Space, tab, line feed or carriage return.
pub open spec fn is_blank(b: u8) -> bool {
    b == ' ' as u8 || b == '\t' as u8 || b == '\n' as u8 || b == '\r' as u8
}

/// An ASCII letter or an underscore.
pub open spec fn is_word_byte(b: u8) -> bool {
    ('a' as u8 <= b <= 'z' as u8) || ('A' as u8 <= b <= 'Z' as u8) || b == '_' as u8
}

/// An ASCII decimal digit.
pub open spec fn is_digit_byte(b: u8) -> bool {
    '0' as u8 <= b <= '9' as u8
}

/// The first index at or after `p` whose byte is not blank.
pub open spec fn skip_blanks(input: Seq<char>, p: int) -> int
    decreases input.len() - p,
{
    if p < input.len() && is_blank(byte_at(input, p)) {
        skip_blanks(input, p + 1)
    } else {
        p
    }
}

/// The first index at or after `p` whose byte is not a letter or underscore.
pub open spec fn word_end(input: Seq<char>, p: int) -> int
    decreases input.len() - p,
{
    if p < input.len() && is_word_byte(byte_at(input, p)) {
        word_end(input, p + 1)
    } else {
        p
    }
}

/// The first index at or after `p` whose byte is not a digit.
pub open spec fn digits_end(input: Seq<char>, p: int) -> int
    decreases input.len() - p,
{
    if p < input.len() && is_digit_byte(byte_at(input, p)) {
        digits_end(input, p + 1)
    } else {
        p
    }
}

/// The token the lexer reads when it stands at index `p` of `input`, and the
/// index it stands at afterwards.
pub open spec fn lex(input: Seq<char>, p: int) -> (SpecToken, int) {
    let q = skip_blanks(input, p);
    let c = byte_at(input, q);
    if c == '=' as u8 {
        if byte_at(input, q + 1) == '=' as u8 {
            (SpecToken::EQ, q + 2)
        } else {
            (SpecToken::ASSIGN, q + 1)
        }
    } else if c == ',' as u8 {
        (SpecToken::COMMA, q + 1)
    } else if c == ';' as u8 {
        (SpecToken::SEMICOLON, q + 1)
    } else if c == '(' as u8 {
        (SpecToken::LPAREN, q + 1)
    } else if c == ')' as u8 {
        (SpecToken::RPAREN, q + 1)
    } else if c == '+' as u8 {
        (SpecToken::PLUS, q + 1)
    } else if c == '{' as u8 {
        (SpecToken::LBRACE, q + 1)
    } else if c == '}' as u8 {
        (SpecToken::RBRACE, q + 1)
    } else if c == '-' as u8 {
        (SpecToken::MINUS, q + 1)
    } else if c == '!' as u8 {
        if byte_at(input, q + 1) == '=' as u8 {
            (SpecToken::NOTEQ, q + 2)
        } else {
            (SpecToken::BANG, q + 1)
        }
    } else if c == '*' as u8 {
        (SpecToken::ASTERISK, q + 1)
    } else if c == '<' as u8 {
        (SpecToken::LT, q + 1)
    } else if c == '>' as u8 {
        (SpecToken::GT, q + 1)
    } else if c == '/' as u8 {
        (SpecToken::SLASH, q + 1)
    } else if c == 0 {
        (SpecToken::EOF, q + 1)
    } else if is_word_byte(c) {
        let e = word_end(input, q);
        (keyword_token(input.subrange(q, e)), e)
    } else if is_digit_byte(c) {
        let e = digits_end(input, q);
        (SpecToken::INT(input.subrange(q, e)), e)
    } else {
        (SpecToken::ILLEGAL(seq![c as char]), q)
    }
}

/// Whether reading the next token from index `p` stays within the range of
/// positions that the lexer can count.
pub open spec fn lex_fits(input: Seq<char>, p: int) -> bool {
    lex(input, p).1 < usize::MAX
}

/// A lexer over a sequence of characters.
pub struct Lexer {
    input: Vec<char>,
    position: usize,
    read_position: usize,
    ch: u8,
}

impl Lexer {
    /// The characters the lexer reads.
    pub closed spec fn chars(&self) -> Seq<char> {
        self.input@
    }

    /// The index of the character under examination.
    pub closed spec fn pos(&self) -> int {
        self.position as int
    }

    /// The index of the next character to read.
    pub closed spec fn read_pos(&self) -> int {
        self.read_position as int
    }

    /// The byte under examination.
    pub closed spec fn cur_byte(&self) -> u8 {
        self.ch
    }

    /// The lexer reads on from its position: the next index to read is the one
    /// after it, and the byte under examination is the one at it.
    pub open spec fn wf(&self) -> bool {
        &&& self.read_pos() == self.pos() + 1
        &&& self.cur_byte() == byte_at(self.chars(), self.pos())
    }

    /// A lexer standing at the first character of `input`.
    pub fn new(input: &str) -> (lexer: Self)
        ensures
            lexer.wf(),
            lexer.chars() == input@,
            lexer.pos() == 0,
    {
        let mut chars: Vec<char> = Vec::new();
        for c in it: input.chars()
            invariant
                chars@ == it.seq().take(it.index() as int),
        {
            chars.push(c);
        }
        proof {
            broadcast use vstd::string::axiom_spec_iter;
        }
        assert(chars@ =~= input@);
        let mut lexer = Lexer { input: chars, position: 0, read_position: 0, ch: 0 };
        lexer.read_char();
        lexer
    }

    /// Reads the next token and moves past it.
    pub fn next_token(&mut self) -> (token: Token)
        requires
            old(self).wf(),
            lex_fits(old(self).chars(), old(self).pos()),
        ensures
            final(self).wf(),
            final(self).chars() == old(self).chars(),
            token@ == lex(old(self).chars(), old(self).pos()).0,
            final(self).pos() == lex(old(self).chars(), old(self).pos()).1,
    {
        proof {
            self.lemma_skip_blanks_fits();
        }
        self.skip_whitespace();
        let ghost input = self.input@;
        let ghost q = self.position as int;
        let mut advance = true;
        let token = if self.ch == ('=' as u8) {
            if self.peek_char() == ('=' as u8) {
                self.read_char();
                Token::EQ
            } else {
                Token::ASSIGN
            }
        } else if self.ch == (',' as u8) {
            Token::COMMA
        } else if self.ch == (';' as u8) {
            Token::SEMICOLON
        } else if self.ch == ('(' as u8) {
            Token::LPAREN
        } else if self.ch == (')' as u8) {
            Token::RPAREN
        } else if self.ch == ('+' as u8) {
            Token::PLUS
        } else if self.ch == ('{' as u8) {
            Token::LBRACE
        } else if self.ch == ('}' as u8) {
            Token::RBRACE
        } else if self.ch == ('-' as u8) {
            Token::MINUS
        } else if self.ch == ('!' as u8) {
            if self.peek_char() == ('=' as u8) {
                self.read_char();
                Token::NOTEQ
            } else {
                Token::BANG
            }
        } else if self.ch == ('*' as u8) {
            Token::ASTERISK
        } else if self.ch == ('<' as u8) {
            Token::LT
        } else if self.ch == ('>' as u8) {
            Token::GT
        } else if self.ch == ('/' as u8) {
            Token::SLASH
        } else if self.ch == 0 {
            Token::EOF
        } else {
            advance = !advance;
            if is_ascii_word_byte(self.ch) {
                proof {
                    lemma_word_end_bounds(input, q);
                }
                let word = self.read_identifier();
                Keyword::read_keyword(word.as_str())
            } else if is_ascii_digit_byte(self.ch) {
                proof {
                    lemma_digits_end_bounds(input, q);
                }
                Token::INT(self.read_number())
            } else {
                let mut s = string_new();
                push_char(&mut s, self.ch as char);
                Token::ILLEGAL(s)
            }
        };

        if advance {
            self.read_char();
        }
        token
    }

    proof fn lemma_skip_blanks_fits(&self)
        requires
            self.wf(),
            lex_fits(self.chars(), self.pos()),
        ensures
            skip_blanks(self.chars(), self.pos()) < usize::MAX,
            skip_blanks(self.chars(), self.pos()) >= self.pos(),
    {
        lemma_skip_blanks_bounds(self.chars(), self.pos());
        let q = skip_blanks(self.chars(), self.pos());
        lemma_word_end_bounds(self.chars(), q);
        lemma_digits_end_bounds(self.chars(), q);
    }

    /// Moves one character on.
    pub fn read_char(&mut self)
        requires
            old(self).read_pos() < usize::MAX,
        ensures
            final(self).chars() == old(self).chars(),
            final(self).pos() == old(self).read_pos(),
            final(self).read_pos() == old(self).read_pos() + 1,
            final(self).cur_byte() == byte_at(old(self).chars(), old(self).read_pos()),
    {
        if self.read_position >= self.input.len() {
            self.ch = 0;
        } else {
            self.ch = self.input[self.read_position] as u8;
        }
        self.position = self.read_position;
        self.read_position += 1;
    }

    /// Reads the run of letters and underscores that starts at the position.
    pub fn read_identifier(&mut self) -> (word: String)
        requires
            old(self).wf(),
            old(self).pos() <= old(self).chars().len(),
            word_end(old(self).chars(), old(self).pos()) < usize::MAX,
        ensures
            final(self).wf(),
            final(self).chars() == old(self).chars(),
            final(self).pos() == word_end(old(self).chars(), old(self).pos()),
            word@ == old(self).chars().subrange(old(self).pos(), final(self).pos()),
    {
        let position = self.position;
        proof {
            lemma_word_end_bounds(self.input@, position as int);
        }
        while is_ascii_word_byte(self.ch)
            invariant
                self.wf(),
                self.chars() == old(self).chars(),
                position <= self.pos() <= word_end(self.chars(), position as int),
                word_end(self.chars(), self.pos()) == word_end(self.chars(), position as int),
                word_end(self.chars(), position as int) < usize::MAX,
                word_end(self.chars(), position as int) <= self.chars().len(),
            decreases self.chars().len() - self.pos(),
        {
            proof {
                assert(word_end(self.chars(), self.pos()) == word_end(self.chars(), self.pos() + 1));
                lemma_word_end_bounds(self.chars(), self.pos() + 1);
            }
            self.read_char();
        }
        self.collect_range(position, self.position)
    }

    /// Moves past blanks.
    pub fn skip_whitespace(&mut self)
        requires
            old(self).wf(),
            skip_blanks(old(self).chars(), old(self).pos()) < usize::MAX,
        ensures
            final(self).wf(),
            final(self).chars() == old(self).chars(),
            final(self).pos() == skip_blanks(old(self).chars(), old(self).pos()),
    {
        let ghost start = self.position as int;
        proof {
            lemma_skip_blanks_bounds(self.input@, start);
        }
        while is_blank_byte(self.ch)
            invariant
                self.wf(),
                self.chars() == old(self).chars(),
                start <= self.pos() <= skip_blanks(self.chars(), start),
                skip_blanks(self.chars(), self.pos()) == skip_blanks(self.chars(), start),
                skip_blanks(self.chars(), start) < usize::MAX,
            decreases skip_blanks(self.chars(), start) - self.pos(),
        {
            proof {
                assert(skip_blanks(self.chars(), self.pos()) == skip_blanks(self.chars(), self.pos() + 1));
                lemma_skip_blanks_bounds(self.chars(), self.pos() + 1);
            }
            self.read_char();
        }
    }

    /// Reads the run of digits that starts at the position.
    pub fn read_number(&mut self) -> (number: String)
        requires
            old(self).wf(),
            old(self).pos() <= old(self).chars().len(),
            digits_end(old(self).chars(), old(self).pos()) < usize::MAX,
        ensures
            final(self).wf(),
            final(self).chars() == old(self).chars(),
            final(self).pos() == digits_end(old(self).chars(), old(self).pos()),
            number@ == old(self).chars().subrange(old(self).pos(), final(self).pos()),
    {
        let position = self.position;
        proof {
            lemma_digits_end_bounds(self.input@, position as int);
        }
        while is_ascii_digit_byte(self.ch)
            invariant
                self.wf(),
                self.chars() == old(self).chars(),
                position <= self.pos() <= digits_end(self.chars(), position as int),
                digits_end(self.chars(), self.pos()) == digits_end(self.chars(), position as int),
                digits_end(self.chars(), position as int) < usize::MAX,
                digits_end(self.chars(), position as int) <= self.chars().len(),
            decreases self.chars().len() - self.pos(),
        {
            proof {
                assert(digits_end(self.chars(), self.pos()) == digits_end(self.chars(), self.pos() + 1));
                lemma_digits_end_bounds(self.chars(), self.pos() + 1);
            }
            self.read_char();
        }
        self.collect_range(position, self.position)
    }

    /// The byte after the one under examination.
    pub fn peek_char(&self) -> (b: u8)
        ensures
            b == byte_at(self.chars(), self.read_pos()),
    {
        if self.read_position >= self.input.len() {
            0
        } else {
            self.input[self.read_position] as u8
        }
    }

    /// The characters of the input between `from` and `to`, as a string.
    fn collect_range(&self, from: usize, to: usize) -> (s: String)
        requires
            from <= to <= self.chars().len(),
        ensures
            s@ == self.chars().subrange(from as int, to as int),
    {
        let mut s = string_new();
        let mut i = from;
        while i < to
            invariant
                from <= i <= to <= self.chars().len(),
                s@ == self.chars().subrange(from as int, i as int),
            decreases to - i,
        {
            push_char(&mut s, self.input[i]);
            i = i + 1;
            assert(s@ =~= self.chars().subrange(from as int, i as int));
        }
        s
    }
}

fn is_blank_byte(b: u8) -> (r: bool)
    ensures
        r == is_blank(b),
{
    b == (' ' as u8) || b == ('\t' as u8) || b == ('\n' as u8) || b == ('\r' as u8)
}

fn is_ascii_word_byte(b: u8) -> (r: bool)
    ensures
        r == is_word_byte(b),
{
    (('a' as u8) <= b && b <= ('z' as u8)) || (('A' as u8) <= b && b <= ('Z' as u8)) || b == ('_' as u8)
}

fn is_ascii_digit_byte(b: u8) -> (r: bool)
    ensures
        r == is_digit_byte(b),
{
    ('0' as u8) <= b && b <= ('9' as u8)
}

/// `skip_blanks` stops at a byte that is not blank, no earlier than it
/// started and no later than the end of the input.
pub proof fn lemma_skip_blanks_bounds(input: Seq<char>, p: int)
    ensures
        p <= skip_blanks(input, p),
        p <= input.len() ==> skip_blanks(input, p) <= input.len(),
        !is_blank(byte_at(input, skip_blanks(input, p))),
        forall|i: int| p <= i <= skip_blanks(input, p) ==> skip_blanks(input, i) == skip_blanks(input, p),
    decreases input.len() - p,
{
    if p < input.len() && is_blank(byte_at(input, p)) {
        lemma_skip_blanks_bounds(input, p + 1);
    }
}

/// `word_end` stops at a byte that is no letter, no earlier than it started
/// and no later than the end of the input.
pub proof fn lemma_word_end_bounds(input: Seq<char>, p: int)
    ensures
        p <= word_end(input, p),
        p <= input.len() ==> word_end(input, p) <= input.len(),
        !is_word_byte(byte_at(input, word_end(input, p))),
        forall|i: int| p <= i <= word_end(input, p) ==> word_end(input, i) == word_end(input, p),
    decreases input.len() - p,
{
    if p < input.len() && is_word_byte(byte_at(input, p)) {
        lemma_word_end_bounds(input, p + 1);
    }
}

/// `digits_end` stops at a byte that is no digit, no earlier than it started
/// and no later than the end of the input.
pub proof fn lemma_digits_end_bounds(input: Seq<char>, p: int)
    ensures
        p <= digits_end(input, p),
        p <= input.len() ==> digits_end(input, p) <= input.len(),
        !is_digit_byte(byte_at(input, digits_end(input, p))),
        forall|i: int| p <= i <= digits_end(input, p) ==> digits_end(input, i) == digits_end(input, p),
    decreases input.len() - p,
{
    if p < input.len() && is_digit_byte(byte_at(input, p)) {
        lemma_digits_end_bounds(input, p + 1);
    }
}


// ---------------------------------------------------------------------------
// Laws of the token stream.

/// Once only blanks are left, the lexer reads `EOF`, one past the end of the
/// input; from there on it reads `EOF` again each time it is asked.
pub proof fn lemma_eof_at_end(input: Seq<char>, p: int)
    requires
        0 <= p,
        forall|i: int| p <= i < input.len() ==> is_blank(#[trigger] byte_at(input, i)),
    ensures
        lex(input, p).0 == SpecToken::EOF,
        lex(input, p).1 == if p <= input.len() { input.len() + 1int } else { p + 1 },
        lex(input, lex(input, p).1).0 == SpecToken::EOF,
    decreases input.len() - p,
{
    if p < input.len() {
        assert(is_blank(byte_at(input, p)));
        lemma_eof_at_end(input, p + 1);
    }
}

/// A character the language has no use for is read as an `ILLEGAL` token that
/// the lexer does not move past: reading again gives the same token at the
/// same place.
pub proof fn lemma_illegal_stays(input: Seq<char>, p: int)
    requires
        lex(input, p).0 is ILLEGAL,
    ensures
        lex(input, p).1 == skip_blanks(input, p),
        lex(input, lex(input, p).1) == lex(input, p),
{
    lemma_skip_blanks_bounds(input, p);
}

/// Every token but an `ILLEGAL` one ends after the place the lexer started
/// from.
pub proof fn lemma_token_advances(input: Seq<char>, p: int)
    requires
        !(lex(input, p).0 is ILLEGAL),
    ensures
        lex(input, p).1 > p,
{
    lemma_skip_blanks_bounds(input, p);
    let q = skip_blanks(input, p);
    lemma_word_end_bounds(input, q + 1);
    lemma_digits_end_bounds(input, q + 1);
}

/// The literal of an integer or an identifier token is the run of input
/// characters it was read from.
pub proof fn lemma_literal_is_source(input: Seq<char>, p: int)
    requires
        lex(input, p).0 is INT || lex(input, p).0 is IDENTIFIER,
    ensures
        token_text(lex(input, p).0) == input.subrange(skip_blanks(input, p), lex(input, p).1),
{
}

/// Where no character of the input has a zero low byte, `EOF` only comes at
/// the end: once the lexer has read it, it stands past the end and reads
/// `EOF` again each time, one position further on. The next call can be made
/// while that position fits in a machine word.
pub proof fn lemma_eof_absorbing(input: Seq<char>, p: int)
    requires
        0 <= p,
        forall|i: int| 0 <= i < input.len() ==> #[trigger] byte_at(input, i) != 0,
        lex(input, p).0 == SpecToken::EOF,
    ensures
        lex(input, p).1 > input.len(),
        lex(input, lex(input, p).1) == (SpecToken::EOF, lex(input, p).1 + 1),
        lex_fits(input, lex(input, p).1) <==> lex(input, p).1 + 1 < usize::MAX,
{
    lemma_skip_blanks_bounds(input, p);
    let q = skip_blanks(input, p);
    assert(byte_at(input, q) == 0);
    if q < input.len() {
        assert(byte_at(input, q) != 0);
    }
}

/// A byte that is an ASCII letter, upper or lower case, or `_`, written by
/// its code: `A`..`Z` are 65..90, `a`..`z` are 97..122, `_` is 95.
pub open spec fn letter_code(b: u8) -> bool {
    (65 <= b <= 90) || (97 <= b <= 122) || b == 95
}

/// The word characters are exactly the ASCII letters of either case and `_`.
pub proof fn lemma_word_bytes(b: u8)
    ensures
        is_word_byte(b) <==> letter_code(b),
{
}

/// Where the next non-blank byte is a letter of either case or `_`, the lexer
/// reads the whole run of such bytes that starts there as one word: the
/// keyword it spells, or an identifier holding exactly that run.
pub proof fn lemma_word_token(input: Seq<char>, p: int)
    requires
        0 <= p,
        letter_code(byte_at(input, skip_blanks(input, p))),
    ensures
        skip_blanks(input, p) < lex(input, p).1 <= input.len(),
        forall|i: int| skip_blanks(input, p) <= i < lex(input, p).1 ==> letter_code(
            #[trigger] byte_at(input, i),
        ),
        !letter_code(byte_at(input, lex(input, p).1)),
        lex(input, p).0 == keyword_token(input.subrange(skip_blanks(input, p), lex(input, p).1)),
{
    lemma_skip_blanks_bounds(input, p);
    let q = skip_blanks(input, p);
    lemma_word_end_bounds(input, q);
    lemma_word_end_bounds(input, q + 1);
    lemma_word_run(input, q);
}

/// Every byte from `p` up to `word_end(input, p)` is a word byte.
proof fn lemma_word_run(input: Seq<char>, p: int)
    ensures
        forall|i: int| p <= i < word_end(input, p) ==> is_word_byte(#[trigger] byte_at(input, i)),
    decreases input.len() - p,
{
    if p < input.len() && is_word_byte(byte_at(input, p)) {
        lemma_word_run(input, p + 1);
    }
}

/// The blanks are exactly space (32), tab (9), line feed (10) and carriage
/// return (13); the digits are exactly the bytes 48..57 (`0`..`9`).
pub proof fn lemma_blank_and_digit_bytes(b: u8)
    ensures
        is_blank(b) <==> (b == 32 || b == 9 || b == 10 || b == 13),
        is_digit_byte(b) <==> 48 <= b <= 57,
{
}

/// Where the next non-blank byte is a digit, the lexer reads the whole run of
/// digits that starts there as one integer token holding exactly that run.
pub proof fn lemma_number_token(input: Seq<char>, p: int)
    requires
        0 <= p,
        48 <= byte_at(input, skip_blanks(input, p)) <= 57,
    ensures
        skip_blanks(input, p) < lex(input, p).1 <= input.len(),
        forall|i: int| skip_blanks(input, p) <= i < lex(input, p).1 ==> 48 <= #[trigger] byte_at(
            input,
            i,
        ) <= 57,
        !(48 <= byte_at(input, lex(input, p).1) <= 57),
        lex(input, p).0 == SpecToken::INT(input.subrange(skip_blanks(input, p), lex(input, p).1)),
{
    lemma_skip_blanks_bounds(input, p);
    let q = skip_blanks(input, p);
    lemma_digits_end_bounds(input, q);
    lemma_digits_end_bounds(input, q + 1);
    lemma_digit_run(input, q);
}

/// Every byte from `p` up to `digits_end(input, p)` is a digit.
proof fn lemma_digit_run(input: Seq<char>, p: int)
    ensures
        forall|i: int| p <= i < digits_end(input, p) ==> is_digit_byte(#[trigger] byte_at(input, i)),
    decreases input.len() - p,
{
    if p < input.len() && is_digit_byte(byte_at(input, p)) {
        lemma_digit_run(input, p + 1);
    }
}

/// The punctuation the lexer knows, by byte code: `=` (61) and `!` (33) make
/// `==` and `!=` when a `=` follows, and `ASSIGN` and `BANG` otherwise; `,`
/// (44), `;` (59), `(` (40), `)` (41), `+` (43), `{` (123), `}` (125), `-`
/// (45), `*` (42), `<` (60), `>` (62) and `/` (47) are one-byte tokens.
pub proof fn lemma_punctuation(input: Seq<char>, p: int)
    ensures
        ({
            let q = skip_blanks(input, p);
            let c = byte_at(input, q);
            let two = byte_at(input, q + 1) == 61;
            &&& c == 61 && two ==> lex(input, p) == (SpecToken::EQ, q + 2)
            &&& c == 61 && !two ==> lex(input, p) == (SpecToken::ASSIGN, q + 1)
            &&& c == 33 && two ==> lex(input, p) == (SpecToken::NOTEQ, q + 2)
            &&& c == 33 && !two ==> lex(input, p) == (SpecToken::BANG, q + 1)
            &&& c == 44 ==> lex(input, p) == (SpecToken::COMMA, q + 1)
            &&& c == 59 ==> lex(input, p) == (SpecToken::SEMICOLON, q + 1)
            &&& c == 40 ==> lex(input, p) == (SpecToken::LPAREN, q + 1)
            &&& c == 41 ==> lex(input, p) == (SpecToken::RPAREN, q + 1)
            &&& c == 43 ==> lex(input, p) == (SpecToken::PLUS, q + 1)
            &&& c == 123 ==> lex(input, p) == (SpecToken::LBRACE, q + 1)
            &&& c == 125 ==> lex(input, p) == (SpecToken::RBRACE, q + 1)
            &&& c == 45 ==> lex(input, p) == (SpecToken::MINUS, q + 1)
            &&& c == 42 ==> lex(input, p) == (SpecToken::ASTERISK, q + 1)
            &&& c == 60 ==> lex(input, p) == (SpecToken::LT, q + 1)
            &&& c == 62 ==> lex(input, p) == (SpecToken::GT, q + 1)
            &&& c == 47 ==> lex(input, p) == (SpecToken::SLASH, q + 1)
        }),
{
}

} // verus!
