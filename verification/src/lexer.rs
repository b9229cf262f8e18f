//! The scanner: turns source text into tokens, one at a time.

use crate::text::{
    char_is_alphabetic, char_is_alphanumeric, char_is_whitespace, chars_of, is_alphabetic,
    is_alphanumeric, is_whitespace, push_char,
};
use crate::token::{tokens_view, SpecToken, Token};
use vstd::prelude::*;
use vstd::string::StringExecFns;

verus! {

/// The classes of characters that the scanner reads in runs.
#[derive(Debug, Clone, Copy, PartialEq, Eq, Structural)]
pub enum CharClass {
    /// White space, which separates tokens.
    Space,
    /// A decimal digit.
    Digit,
    /// A character of an identifier: a letter, a digit or `_`.
    Word,
    /// A character inside a string literal: anything but `"`.
    Quoted,
}

/// Whether `c` is a decimal digit `0` to `9`.
pub open spec fn is_digit(c: char) -> bool {
    '0' <= c <= '9'
}

/// Whether `c` is an ASCII character.
pub open spec fn is_ascii(c: char) -> bool {
    c <= '\x7f'
}

/// Whether `c` is white space: of the ASCII characters the blank and the
/// controls from tab to carriage return, of the others those with the
/// Unicode property `White_Space`.
pub open spec fn is_space(c: char) -> bool {
    if is_ascii(c) {
        c == ' ' || ('\t' <= c && c <= '\r')
    } else {
        char_is_whitespace(c)
    }
}

/// Whether `c` is a letter: of the ASCII characters the letters `a` to
/// `z` and `A` to `Z`, of the others those with the Unicode property
/// `Alphabetic`.
pub open spec fn is_letter(c: char) -> bool {
    if is_ascii(c) {
        ('a' <= c && c <= 'z') || ('A' <= c && c <= 'Z')
    } else {
        char_is_alphabetic(c)
    }
}

/// Whether `c` can start an identifier or keyword: a letter or `_`.
pub open spec fn starts_word(c: char) -> bool {
    is_letter(c) || c == '_'
}

/// Whether `c` can stand in an identifier or keyword: a letter, `_`, an
/// ASCII digit, or a character that is not ASCII and alphanumeric in the
/// sense of Unicode.
pub open spec fn continues_word(c: char) -> bool {
    starts_word(c) || if is_ascii(c) {
        is_digit(c)
    } else {
        char_is_alphanumeric(c)
    }
}

/// Whether `c` belongs to the class.
pub open spec fn in_class(class: CharClass, c: char) -> bool {
    match class {
        CharClass::Space => is_space(c),
        CharClass::Digit => is_digit(c),
        CharClass::Word => continues_word(c),
        CharClass::Quoted => c != '"',
    }
}

/// Whether `c` is white space.
fn space(c: char) -> (b: bool)
    ensures
        b == is_space(c),
{
    if c <= '\x7f' {
        c == ' ' || ('\t' <= c && c <= '\r')
    } else {
        is_whitespace(c)
    }
}

/// Whether `c` is a letter.
fn letter(c: char) -> (b: bool)
    ensures
        b == is_letter(c),
{
    if c <= '\x7f' {
        ('a' <= c && c <= 'z') || ('A' <= c && c <= 'Z')
    } else {
        is_alphabetic(c)
    }
}

/// Whether `c` can stand in an identifier or keyword.
fn word_char(c: char) -> (b: bool)
    ensures
        b == continues_word(c),
{
    if c == '_' || letter(c) {
        true
    } else if c <= '\x7f' {
        '0' <= c && c <= '9'
    } else {
        is_alphanumeric(c)
    }
}

/// Where the longest run of characters of the class that starts at `pos`
/// ends: the first position from `pos` on that holds a character outside
/// the class, or the end of the input.
pub open spec fn run_end(input: Seq<char>, pos: nat, class: CharClass) -> nat
    decreases input.len() - pos,
{
    if pos < input.len() && in_class(class, input[pos as int]) {
        run_end(input, pos + 1, class)
    } else {
        pos
    }
}

/// A run ends at or behind its start, and inside the input if it starts
/// there.
pub proof fn lemma_run_end_bounds(input: Seq<char>, pos: nat, class: CharClass)
    ensures
        pos <= run_end(input, pos, class),
        pos <= input.len() ==> run_end(input, pos, class) <= input.len(),
        run_end(input, pos, class) < input.len() ==> !in_class(
            class,
            input[run_end(input, pos, class) as int],
        ),
        forall|i: int| pos <= i < run_end(input, pos, class) ==> in_class(class, input[i]),
    decreases input.len() - pos,
{
    if pos < input.len() && in_class(class, input[pos as int]) {
        lemma_run_end_bounds(input, pos + 1, class);
    }
}

/// The number that a sequence of decimal digits denotes.
pub open spec fn digits_value(digits: Seq<char>) -> nat
    decreases digits.len(),
{
    if digits.len() == 0 {
        0
    } else {
        digits_value(digits.drop_last()) * 10 + (digits.last() as nat - 48) as nat
    }
}

/// The value of an integer literal: the number its digits denote, or the
/// largest 64-bit integer if that number is larger.
pub open spec fn literal_value(digits: Seq<char>) -> i64 {
    if digits_value(digits) <= i64::MAX {
        digits_value(digits) as i64
    } else {
        i64::MAX
    }
}

/// The token of a word: a keyword, or else an identifier.
pub open spec fn word_token(word: Seq<char>) -> SpecToken {
    if word == "fn"@ {
        SpecToken::Fn
    } else if word == "let"@ {
        SpecToken::Let
    } else if word == "if"@ {
        SpecToken::If
    } else if word == "else"@ {
        SpecToken::Else
    } else if word == "while"@ {
        SpecToken::While
    } else if word == "return"@ {
        SpecToken::Return
    } else if word == "break"@ {
        SpecToken::Break
    } else if word == "continue"@ {
        SpecToken::Continue
    } else {
        SpecToken::Ident(word)
    }
}

/// The token of a punctuation character that is a token by itself.
pub open spec fn punctuation(c: char) -> Option<SpecToken> {
    if c == '(' {
        Some(SpecToken::LParen)
    } else if c == ')' {
        Some(SpecToken::RParen)
    } else if c == '{' {
        Some(SpecToken::LBrace)
    } else if c == '}' {
        Some(SpecToken::RBrace)
    } else if c == ',' {
        Some(SpecToken::Comma)
    } else if c == ';' {
        Some(SpecToken::Semicolon)
    } else if c == '+' {
        Some(SpecToken::Plus)
    } else if c == '-' {
        Some(SpecToken::Minus)
    } else if c == '*' {
        Some(SpecToken::Star)
    } else if c == '/' {
        Some(SpecToken::Slash)
    } else if c == '>' {
        Some(SpecToken::Greater)
    } else if c == '<' {
        Some(SpecToken::Less)
    } else {
        None
    }
}

/// The token that starts with the character at `at`, and where it ends;
/// `None` if no token starts with that character.
///
/// An integer literal is the longest run of digits. A string literal
/// runs to the next `"`, or to the end of the input if there is none;
/// nothing in it is an escape. An identifier or keyword is the longest
/// run of letters, digits and `_`.
pub open spec fn token_at(input: Seq<char>, at: nat) -> Option<(SpecToken, nat)>
    recommends
        at < input.len(),
{
    let c = input[at as int];
    if punctuation(c) is Some {
        Some((punctuation(c)->Some_0, at + 1))
    } else if c == '=' {
        if at + 1 < input.len() && input[at as int + 1] == '=' {
            Some((SpecToken::EqualEqual, at + 2))
        } else {
            Some((SpecToken::Equal, at + 1))
        }
    } else if is_digit(c) {
        let end = run_end(input, at, CharClass::Digit);
        Some((SpecToken::Int(literal_value(input.subrange(at as int, end as int))), end))
    } else if c == '"' {
        let end = run_end(input, at + 1, CharClass::Quoted);
        let text = input.subrange(at as int + 1, end as int);
        if end < input.len() {
            Some((SpecToken::String(text), end + 1))
        } else {
            Some((SpecToken::String(text), end))
        }
    } else if starts_word(c) {
        let end = run_end(input, at, CharClass::Word);
        Some((word_token(input.subrange(at as int, end as int)), end))
    } else {
        None
    }
}

/// The next token from position `pos` on, and the position behind it.
/// White space is skipped, and so is any character that starts no token.
/// At the end of the input the token is the end marker.
pub open spec fn next_token(input: Seq<char>, pos: nat) -> (SpecToken, nat)
    decreases input.len() - pos,
{
    let at = run_end(input, pos, CharClass::Space);
    if at >= input.len() {
        (SpecToken::EOF, at)
    } else {
        match token_at(input, at) {
            Some(found) => found,
            None => {
                proof {
                    lemma_run_end_bounds(input, pos, CharClass::Space);
                }
                next_token(input, at + 1)
            },
        }
    }
}

/// A token that starts inside the input ends behind its start and inside
/// the input.
pub proof fn lemma_token_at_bounds(input: Seq<char>, at: nat)
    requires
        at < input.len(),
    ensures
        token_at(input, at) matches Some((token, end)) ==> at < end <= input.len() && token
            !is EOF,
{
    let c = input[at as int];
    lemma_run_end_bounds(input, at, CharClass::Digit);
    lemma_run_end_bounds(input, at + 1, CharClass::Quoted);
    lemma_run_end_bounds(input, at, CharClass::Word);
    lemma_run_end_bounds(input, at + 1, CharClass::Word);
    if starts_word(c) {
        assert(in_class(CharClass::Word, c));
    }
    if is_digit(c) {
        assert(in_class(CharClass::Digit, c));
    }
}

/// Scanning moves forward: the position behind the next token is not
/// before `pos`, it is inside the input, and it is behind `pos` unless
/// the token is the end marker.
pub proof fn lemma_next_token_advances(input: Seq<char>, pos: nat)
    requires
        pos <= input.len(),
    ensures
        pos <= next_token(input, pos).1 <= input.len(),
        next_token(input, pos).0 !is EOF ==> pos < next_token(input, pos).1,
        next_token(input, pos).0 is EOF ==> next_token(input, pos).1 == input.len(),
    decreases input.len() - pos,
{
    let at = run_end(input, pos, CharClass::Space);
    lemma_run_end_bounds(input, pos, CharClass::Space);
    if at < input.len() {
        lemma_token_at_bounds(input, at);
        if token_at(input, at) is None {
            lemma_next_token_advances(input, at + 1);
        }
    }
}

/// All tokens from position `pos` on, up to and with the end marker.
pub open spec fn tokens_from(input: Seq<char>, pos: nat) -> Seq<SpecToken>
    recommends
        pos <= input.len(),
    decreases input.len() - pos,
{
    let (token, next) = next_token(input, pos);
    if token is EOF || pos > input.len() {
        seq![SpecToken::EOF]
    } else {
        proof {
            lemma_next_token_advances(input, pos);
        }
        seq![token] + tokens_from(input, next)
    }
}

/// Model of a scanner: the input and the position of the cursor in it.
pub struct SpecLexer {
    pub input: Seq<char>,
    pub position: nat,
}

/// The scanner. It holds the input and a cursor, and hands out the
/// tokens on request.
pub struct Lexer {
    input: Vec<char>,
    position: usize,
}

impl View for Lexer {
    type V = SpecLexer;

    closed spec fn view(&self) -> SpecLexer {
        SpecLexer { input: self.input@, position: self.position as nat }
    }
}

impl Lexer {
    /// The cursor never leaves the input.
    #[verifier::type_invariant]
    spec fn cursor_inside(self) -> bool {
        self.position <= self.input.len()
    }

    /// A scanner at the start of `source`.
    pub fn new(source: &str) -> (l: Self)
        ensures
            l@ == (SpecLexer { input: source@, position: 0 }),
    {
        Lexer { input: chars_of(source), position: 0 }
    }

    fn current_char(&self) -> (r: Option<char>)
        ensures
            self@.position <= self@.input.len(),
            r == if self@.position < self@.input.len() {
                Some(self@.input[self@.position as int])
            } else {
                None
            },
    {
        proof {
            use_type_invariant(self);
        }
        if self.position < self.input.len() {
            Some(self.input[self.position])
        } else {
            None
        }
    }

    fn advance(&mut self)
        requires
            old(self)@.position < old(self)@.input.len(),
        ensures
            final(self)@ == (SpecLexer { position: old(self)@.position + 1, ..old(self)@ }),
    {
        proof {
            use_type_invariant(&*self);
        }
        self.position = self.position + 1;
    }

    /// Moves the cursor to the end of the run of `class` that starts
    /// under it, and returns the characters passed.
    fn read_run(&mut self, class: CharClass) -> (text: String)
        ensures
            final(self)@.input == old(self)@.input,
            final(self)@.position == run_end(old(self)@.input, old(self)@.position, class),
            old(self)@.position <= final(self)@.position <= old(self)@.input.len(),
            text@ == old(self)@.input.subrange(
                old(self)@.position as int,
                final(self)@.position as int,
            ),
    {
        let ghost input = self.input@;
        let ghost start = self.position as nat;
        let mut text = String::new();
        proof {
            use_type_invariant(&*self);
            assert(text@ == input.subrange(start as int, start as int));
        }
        loop
            invariant
                input == old(self)@.input,
                start == old(self)@.position,
                self.input@ == input,
                start <= self.position <= input.len(),
                run_end(input, start, class) == run_end(input, self.position as nat, class),
                text@ == input.subrange(start as int, self.position as int),
            ensures
                self.position == run_end(input, start, class),
            decreases input.len() - self.position,
        {
            match self.current_char() {
                None => {
                    break ;
                },
                Some(c) => {
                    let inside = match class {
                        CharClass::Space => space(c),
                        CharClass::Digit => '0' <= c && c <= '9',
                        CharClass::Word => word_char(c),
                        CharClass::Quoted => c != '"',
                    };
                    if !inside {
                        break ;
                    }
                    assert(input.subrange(start as int, self.position + 1) == input.subrange(
                        start as int,
                        self.position as int,
                    ).push(c));
                    push_char(&mut text, c);
                    self.advance();
                },
            }
        }
        text
    }

    fn skip_whitespace(&mut self)
        ensures
            final(self)@.input == old(self)@.input,
            final(self)@.position == run_end(
                old(self)@.input,
                old(self)@.position,
                CharClass::Space,
            ),
    {
        let ghost input = self.input@;
        let ghost start = self.position as nat;
        loop
            invariant
                input == old(self)@.input,
                start == old(self)@.position,
                self.input@ == input,
                run_end(input, start, CharClass::Space) == run_end(
                    input,
                    self.position as nat,
                    CharClass::Space,
                ),
            ensures
                self.position == run_end(input, start, CharClass::Space),
            decreases input.len() - self.position,
        {
            match self.current_char() {
                None => {
                    break ;
                },
                Some(c) => {
                    if !space(c) {
                        break ;
                    }
                    self.advance();
                },
            }
        }
    }

    fn read_identifier(&mut self) -> (word: String)
        ensures
            final(self)@.input == old(self)@.input,
            final(self)@.position == run_end(
                old(self)@.input,
                old(self)@.position,
                CharClass::Word,
            ),
            word@ == old(self)@.input.subrange(
                old(self)@.position as int,
                final(self)@.position as int,
            ),
    {
        self.read_run(CharClass::Word)
    }

    /// Reads a string literal whose opening quote is under the cursor.
    fn read_string(&mut self) -> (text: String)
        requires
            old(self)@.position < old(self)@.input.len(),
        ensures
            final(self)@.input == old(self)@.input,
            ({
                let input = old(self)@.input;
                let end = run_end(input, old(self)@.position + 1, CharClass::Quoted);
                &&& text@ == input.subrange(old(self)@.position as int + 1, end as int)
                &&& final(self)@.position == if end < input.len() {
                    end + 1
                } else {
                    end
                }
            }),
    {
        self.advance();
        let text = self.read_run(CharClass::Quoted);
        if self.position < self.input.len() {
            self.advance();
        }
        text
    }

    /// Reads an integer literal whose first digit is under the cursor.
    fn read_number(&mut self) -> (value: i64)
        ensures
            final(self)@.input == old(self)@.input,
            final(self)@.position == run_end(
                old(self)@.input,
                old(self)@.position,
                CharClass::Digit,
            ),
            value == literal_value(
                old(self)@.input.subrange(old(self)@.position as int, final(self)@.position as int),
            ),
    {
        let ghost input = self.input@;
        let ghost start = self.position as nat;
        let mut value: i64 = 0;
        proof {
            use_type_invariant(&*self);
            assert(input.subrange(start as int, start as int) == Seq::<char>::empty());
        }
        loop
            invariant
                input == old(self)@.input,
                start == old(self)@.position,
                self.input@ == input,
                start <= self.position <= input.len(),
                run_end(input, start, CharClass::Digit) == run_end(
                    input,
                    self.position as nat,
                    CharClass::Digit,
                ),
                value == literal_value(input.subrange(start as int, self.position as int)),
                value >= 0,
            ensures
                self.position == run_end(input, start, CharClass::Digit),
            decreases input.len() - self.position,
        {
            match self.current_char() {
                None => {
                    break ;
                },
                Some(c) => {
                    if !('0' <= c && c <= '9') {
                        break ;
                    }
                    let digit: i64 = (c as u8 - 48) as i64;
                    proof {
                        let seen = input.subrange(start as int, self.position as int);
                        let more = input.subrange(start as int, self.position + 1);
                        assert(more.drop_last() == seen);
                        assert(more.last() == c);
                    }
                    if value > (i64::MAX - digit) / 10 {
                        value = i64::MAX;
                    } else {
                        value = value * 10 + digit;
                    }
                    self.advance();
                },
            }
        }
        value
    }

    /// The token of a word that was read.
    fn classify(word: String) -> (token: Token)
        ensures
            token@ == word_token(word@),
    {
        if word == String::from_str("fn") {
            Token::Fn
        } else if word == String::from_str("let") {
            Token::Let
        } else if word == String::from_str("if") {
            Token::If
        } else if word == String::from_str("else") {
            Token::Else
        } else if word == String::from_str("while") {
            Token::While
        } else if word == String::from_str("return") {
            Token::Return
        } else if word == String::from_str("break") {
            Token::Break
        } else if word == String::from_str("continue") {
            Token::Continue
        } else {
            Token::Ident(word)
        }
    }

    /// The token that starts with the character `c` under the cursor, if
    /// one does; the cursor moves behind it.
    fn read_token(&mut self, c: char) -> (r: Option<Token>)
        requires
            old(self)@.position < old(self)@.input.len(),
            c == old(self)@.input[old(self)@.position as int],
        ensures
            final(self)@.input == old(self)@.input,
            match token_at(old(self)@.input, old(self)@.position) {
                Some((token, end)) => r matches Some(t) && t@ == token && final(self)@.position
                    == end,
                None => r is None && final(self)@.position == old(self)@.position,
            },
    {
        if c == '(' {
            self.advance();
            Some(Token::LParen)
        } else if c == ')' {
            self.advance();
            Some(Token::RParen)
        } else if c == '{' {
            self.advance();
            Some(Token::LBrace)
        } else if c == '}' {
            self.advance();
            Some(Token::RBrace)
        } else if c == ',' {
            self.advance();
            Some(Token::Comma)
        } else if c == ';' {
            self.advance();
            Some(Token::Semicolon)
        } else if c == '+' {
            self.advance();
            Some(Token::Plus)
        } else if c == '-' {
            self.advance();
            Some(Token::Minus)
        } else if c == '*' {
            self.advance();
            Some(Token::Star)
        } else if c == '/' {
            self.advance();
            Some(Token::Slash)
        } else if c == '>' {
            self.advance();
            Some(Token::Greater)
        } else if c == '<' {
            self.advance();
            Some(Token::Less)
        } else if c == '=' {
            self.advance();
            match self.current_char() {
                Some('=') => {
                    self.advance();
                    Some(Token::EqualEqual)
                },
                _ => Some(Token::Equal),
            }
        } else if '0' <= c && c <= '9' {
            Some(Token::Int(self.read_number()))
        } else if c == '"' {
            Some(Token::String(self.read_string()))
        } else if letter(c) || c == '_' {
            let word = self.read_identifier();
            Some(Self::classify(word))
        } else {
            None
        }
    }

    /// Returns the next token and moves the cursor behind it. At the end
    /// of the input it returns the end marker, again and again.
    pub fn next_token(&mut self) -> (token: Token)
        ensures
            final(self)@.input == old(self)@.input,
            token@ == next_token(old(self)@.input, old(self)@.position).0,
            final(self)@.position == next_token(old(self)@.input, old(self)@.position).1,
    {
        let ghost input = self.input@;
        let ghost start = self.position as nat;
        loop
            invariant
                input == old(self)@.input,
                start == old(self)@.position,
                self.input@ == input,
                next_token(input, start) == next_token(input, self.position as nat),
            decreases input.len() - self.position,
        {
            proof {
                use_type_invariant(&*self);
                lemma_run_end_bounds(input, self.position as nat, CharClass::Space);
            }
            self.skip_whitespace();
            match self.current_char() {
                None => {
                    return Token::EOF;
                },
                Some(c) => {
                    match self.read_token(c) {
                        Some(token) => {
                            return token;
                        },
                        None => {
                            self.advance();
                        },
                    }
                },
            }
        }
    }
}

/// Scans a whole text: all its tokens in order, with the end marker
/// last.
pub fn tokenize(source: &str) -> (tokens: Vec<Token>)
    ensures
        tokens_view(tokens@) == tokens_from(source@, 0),
{
    let mut lexer = Lexer::new(source);
    let mut tokens: Vec<Token> = Vec::new();
    let ghost input = source@;
    assert(tokens_view(tokens@) + tokens_from(input, 0) == tokens_from(input, 0));
    loop
        invariant
            input == source@,
            lexer@.input == input,
            lexer@.position <= input.len(),
            tokens_from(input, 0) == tokens_view(tokens@) + tokens_from(input, lexer@.position),
        decreases input.len() - lexer@.position,
    {
        let ghost here = lexer@.position;
        let ghost seen = tokens_view(tokens@);
        proof {
            lemma_next_token_advances(input, here);
        }
        let token = lexer.next_token();
        let done = match token {
            Token::EOF => true,
            _ => false,
        };
        assert(tokens_view(tokens@.push(token)) == seen.push(token@));
        tokens.push(token);
        if done {
            assert(seen.push(SpecToken::EOF) == seen + seq![SpecToken::EOF]);
            return tokens;
        }
        assert(seen + (seq![token@] + tokens_from(input, lexer@.position)) == seen.push(token@)
            + tokens_from(input, lexer@.position));
    }
}

} // verus!
