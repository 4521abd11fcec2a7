//! Lexical analysis: from the characters of a document to its tokens.

use vstd::prelude::*;
use vstd::string::StringExecFns;
use crate::chars::{
    char_is_numeric, char_is_whitespace, chars_of, hex_digit, in_number_class, joined, message,
    plain_escape, push_char, same_chars, string_of,
};
use crate::number::is_float_literal;
use crate::scan::{
    advance, hex_quad, lemma_scan_token_advances, lemma_tokens_then_empty, lone_surrogate_message,
    number_end, scan_all, scan_number, scan_string, scan_token, scan_word, tokens_then, Scan,
};
use crate::utf16::{decode, decode_utf16};

verus! {

/// A lexical unit of a document.
#[derive(Debug, PartialEq, Clone)]
pub enum Token {
    /// A string, with its `\u` escapes decoded.
    String(String),
    /// A number, as the decimal literal that was read.
    Number(String),
    /// `true` or `false`.
    Bool(bool),
    /// `null`.
    Null,
    /// One character of white space; never part of a token sequence.
    WhiteSpace,
    /// `{`
    LeftBrace,
    /// `}`
    RightBrace,
    /// `[`
    LeftBracket,
    /// `]`
    RightBracket,
    /// `,`
    Comma,
    /// `:`
    Colon,
}

/// The mathematical value of a [`Token`].
pub enum TokenView {
    String(Seq<char>),
    Number(Seq<char>),
    Bool(bool),
    Null,
    WhiteSpace,
    LeftBrace,
    RightBrace,
    LeftBracket,
    RightBracket,
    Comma,
    Colon,
}

impl View for Token {
    type V = TokenView;

    open spec fn view(&self) -> TokenView {
        match *self {
            Token::String(text) => TokenView::String(text@),
            Token::Number(text) => TokenView::Number(text@),
            Token::Bool(b) => TokenView::Bool(b),
            Token::Null => TokenView::Null,
            Token::WhiteSpace => TokenView::WhiteSpace,
            Token::LeftBrace => TokenView::LeftBrace,
            Token::RightBrace => TokenView::RightBrace,
            Token::LeftBracket => TokenView::LeftBracket,
            Token::RightBracket => TokenView::RightBracket,
            Token::Comma => TokenView::Comma,
            Token::Colon => TokenView::Colon,
        }
    }
}

/// A token in words: the name of its kind, and what it carries.
pub open spec fn describe(token: TokenView) -> Seq<char> {
    match token {
        TokenView::String(text) => "String(\""@ + text + "\")"@,
        TokenView::Number(text) => "Number("@ + text + ")"@,
        TokenView::Bool(true) => "Bool(true)"@,
        TokenView::Bool(false) => "Bool(false)"@,
        TokenView::Null => "Null"@,
        TokenView::WhiteSpace => "WhiteSpace"@,
        TokenView::LeftBrace => "LeftBrace"@,
        TokenView::RightBrace => "RightBrace"@,
        TokenView::LeftBracket => "LeftBracket"@,
        TokenView::RightBracket => "RightBracket"@,
        TokenView::Comma => "Comma"@,
        TokenView::Colon => "Colon"@,
    }
}

impl Token {
    /// The token in words, for messages.
    pub fn describe(&self) -> (out: String)
        ensures
            out@ == describe(self@),
    {
        match self {
            Token::String(text) => joined(joined("String(\"", text.as_str()).as_str(), "\")"),
            Token::Number(text) => joined(joined("Number(", text.as_str()).as_str(), ")"),
            Token::Bool(true) => "Bool(true)".to_owned(),
            Token::Bool(false) => "Bool(false)".to_owned(),
            Token::Null => "Null".to_owned(),
            Token::WhiteSpace => "WhiteSpace".to_owned(),
            Token::LeftBrace => "LeftBrace".to_owned(),
            Token::RightBrace => "RightBrace".to_owned(),
            Token::LeftBracket => "LeftBracket".to_owned(),
            Token::RightBracket => "RightBracket".to_owned(),
            Token::Comma => "Comma".to_owned(),
            Token::Colon => "Colon".to_owned(),
        }
    }
}

/// The values of a sequence of tokens.
pub open spec fn token_views(tokens: Seq<Token>) -> Seq<TokenView> {
    tokens.map_values(|t: Token| t@)
}

/// An error met during lexical analysis.
#[derive(Debug)]
pub struct LexerError {
    /// What went wrong.
    pub msg: String,
}

impl LexerError {
    /// An error with the given message.
    pub fn new(msg: &str) -> (e: LexerError)
        ensures
            e.msg@ == msg@,
    {
        LexerError { msg: msg.to_owned() }
    }
}

/// Splits the text of a document into tokens.
pub struct Lexer {
    /// The characters of the document.
    chars: Vec<char>,
    /// The index of the next character to read.
    pos: usize,
}

impl Lexer {
    #[verifier::type_invariant]
    spec fn cursor_in_bounds(self) -> bool {
        self.pos <= self.chars.len()
    }

    /// The characters of the document.
    pub closed spec fn input(&self) -> Seq<char> {
        self.chars@
    }

    /// The index of the next character to read.
    pub closed spec fn cursor(&self) -> int {
        self.pos as int
    }

    /// A lexer at the start of the given text.
    pub fn new(input: &str) -> (lexer: Lexer)
        ensures
            lexer.input() == input@,
            lexer.cursor() == 0,
    {
        Lexer { chars: chars_of(input), pos: 0 }
    }

    /// Reads the rest of the document and returns its tokens in order, white
    /// space left out, or the first error.
    pub fn tokenize(&mut self) -> (r: Result<Vec<Token>, LexerError>)
        ensures
            final(self).input() == old(self).input(),
            match scan_all(old(self).input(), old(self).cursor()) {
                Ok(tokens) => r is Ok && token_views(r->Ok_0@) == tokens && final(self).cursor()
                    == old(self).input().len(),
                Err(m) => r is Err && r->Err_0.msg@ == m,
            },
    {
        let mut tokens: Vec<Token> = Vec::new();
        proof {
            use_type_invariant(&*self);
            assert(token_views(tokens@) == Seq::<TokenView>::empty());
            lemma_tokens_then_empty(scan_all(self.input(), self.cursor()));
        }
        loop
            invariant
                self.input() == old(self).input(),
                scan_all(old(self).input(), old(self).cursor()) == tokens_then(
                    token_views(tokens@),
                    scan_all(self.input(), self.cursor()),
                ),
            decreases self.input().len() - self.cursor(),
        {
            proof {
                use_type_invariant(&*self);
                lemma_scan_token_advances(self.input(), self.cursor());
            }
            let ghost before = token_views(tokens@);
            match self.next_token() {
                Err(e) => {
                    return Err(e);
                },
                Ok(None) => {
                    proof {
                        use_type_invariant(&*self);
                        assert(before + Seq::<TokenView>::empty() == before);
                    }
                    return Ok(tokens);
                },
                Ok(Some(token)) => {
                    let ghost after = scan_all(self.input(), self.cursor());
                    match token {
                        Token::WhiteSpace => {
                            proof {
                                lemma_tokens_then_empty(after);
                            }
                        },
                        _ => {
                            tokens.push(token);
                            proof {
                                assert(token_views(tokens@) == before.push(token@));
                                if let Ok(tail) = after {
                                    assert(before + (seq![token@] + tail) == before.push(token@)
                                        + tail);
                                }
                            }
                        },
                    }
                },
            }
        }
    }

    /// Steps over one character and returns the token that it stands for.
    fn next_return_token(&mut self, token: Token) -> (r: Option<Token>)
        requires
            old(self).cursor() < old(self).input().len(),
        ensures
            final(self).input() == old(self).input(),
            final(self).cursor() == old(self).cursor() + 1,
            r == Some(token),
    {
        assert(self.pos < self.chars.len());
        self.pos = self.pos + 1;
        Some(token)
    }

    /// Reads one lexical unit at the cursor: a token, `None` at the end of
    /// the input, or an error.
    fn next_token(&mut self) -> (r: Result<Option<Token>, LexerError>)
        ensures
            final(self).input() == old(self).input(),
            match scan_token(old(self).input(), old(self).cursor()) {
                Scan::Token(token, next) => r is Ok && r->Ok_0 is Some && r->Ok_0->Some_0@ == token
                    && final(self).cursor() == next,
                Scan::End => r is Ok && r->Ok_0 is None && final(self).cursor() == old(self).cursor(),
                Scan::Fail(m) => r is Err && r->Err_0.msg@ == m,
            },
    {
        proof {
            use_type_invariant(&*self);
        }
        if self.pos >= self.chars.len() {
            return Ok(None);
        }
        let c: char = self.chars[self.pos];
        if char_is_whitespace(c) {
            Ok(self.next_return_token(Token::WhiteSpace))
        } else if c == '{' {
            Ok(self.next_return_token(Token::LeftBrace))
        } else if c == '}' {
            Ok(self.next_return_token(Token::RightBrace))
        } else if c == '[' {
            Ok(self.next_return_token(Token::LeftBracket))
        } else if c == ']' {
            Ok(self.next_return_token(Token::RightBracket))
        } else if c == ',' {
            Ok(self.next_return_token(Token::Comma))
        } else if c == ':' {
            Ok(self.next_return_token(Token::Colon))
        } else if c == '"' {
            self.pos = self.pos + 1;
            self.parse_string_token()
        } else if char_is_numeric(c) || c == '+' || c == '-' || c == '.' {
            self.parse_number_token()
        } else if c == 't' {
            self.parse_bool_token(true)
        } else if c == 'f' {
            self.parse_bool_token(false)
        } else if c == 'n' {
            self.parse_null_token()
        } else {
            let mut msg = "error: an unexpected char ".to_owned();
            push_char(&mut msg, c);
            Err(LexerError { msg })
        }
    }

    /// Reads as many characters as `word` has, fewer at the end of the input,
    /// and gives `token` if they spell `word`.
    fn parse_word(&mut self, word: &str, token: Token, complaint: &str) -> (r: Result<
        Option<Token>,
        LexerError,
    >)
        ensures
            final(self).input() == old(self).input(),
            match scan_word(old(self).input(), old(self).cursor(), word@, token@, complaint@) {
                Scan::Token(t, next) => r == Ok::<Option<Token>, LexerError>(Some(token))
                    && final(self).cursor() == next,
                Scan::End => false,
                Scan::Fail(m) => r is Err && r->Err_0.msg@ == m,
            },
    {
        let expected = chars_of(word);
        let read = self.take(expected.len());
        if same_chars(&read, &expected) {
            Ok(Some(token))
        } else {
            Err(LexerError { msg: message(complaint, &read) })
        }
    }

    /// Reads the keyword `null`.
    fn parse_null_token(&mut self) -> (r: Result<Option<Token>, LexerError>)
        ensures
            final(self).input() == old(self).input(),
            match scan_word(
                old(self).input(),
                old(self).cursor(),
                "null"@,
                TokenView::Null,
                "error: a null value is expected "@,
            ) {
                Scan::Token(t, next) => r is Ok && r->Ok_0 is Some && r->Ok_0->Some_0@ == t
                    && final(self).cursor() == next,
                Scan::End => false,
                Scan::Fail(m) => r is Err && r->Err_0.msg@ == m,
            },
    {
        self.parse_word("null", Token::Null, "error: a null value is expected ")
    }

    /// Reads the keyword `true` where `b` holds, else the keyword `false`.
    fn parse_bool_token(&mut self, b: bool) -> (r: Result<Option<Token>, LexerError>)
        ensures
            final(self).input() == old(self).input(),
            match (if b {
                scan_word(
                    old(self).input(),
                    old(self).cursor(),
                    "true"@,
                    TokenView::Bool(true),
                    "error: a boolean true is expected "@,
                )
            } else {
                scan_word(
                    old(self).input(),
                    old(self).cursor(),
                    "false"@,
                    TokenView::Bool(false),
                    "error: a boolean false is expected "@,
                )
            }) {
                Scan::Token(t, next) => r is Ok && r->Ok_0 is Some && r->Ok_0->Some_0@ == t
                    && final(self).cursor() == next,
                Scan::End => false,
                Scan::Fail(m) => r is Err && r->Err_0.msg@ == m,
            },
    {
        if b {
            self.parse_word("true", Token::Bool(true), "error: a boolean true is expected ")
        } else {
            self.parse_word("false", Token::Bool(false), "error: a boolean false is expected ")
        }
    }

    /// Reads the longest run of number characters and gives it as a number
    /// if it is a decimal floating-point literal.
    fn parse_number_token(&mut self) -> (r: Result<Option<Token>, LexerError>)
        ensures
            final(self).input() == old(self).input(),
            match scan_number(old(self).input(), old(self).cursor()) {
                Scan::Token(t, next) => r is Ok && r->Ok_0 is Some && r->Ok_0->Some_0@ == t
                    && final(self).cursor() == next,
                Scan::End => false,
                Scan::Fail(m) => r is Err && r->Err_0.msg@ == m,
            },
    {
        proof {
            use_type_invariant(&*self);
        }
        let start: usize = self.pos;
        let mut run: Vec<char> = Vec::new();
        while self.pos < self.chars.len() && Self::number_char(self.chars[self.pos])
            invariant
                self.chars@ == old(self).chars@,
                start == old(self).pos,
                start <= self.pos <= self.chars.len(),
                run@ == self.chars@.subrange(start as int, self.pos as int),
                number_end(self.chars@, start as int) == number_end(self.chars@, self.pos as int),
            decreases self.chars.len() - self.pos,
        {
            run.push(self.chars[self.pos]);
            self.pos = self.pos + 1;
            assert(self.chars@.subrange(start as int, self.pos as int) == self.chars@.subrange(
                start as int,
                self.pos - 1,
            ).push(self.chars@[self.pos - 1]));
        }
        if is_float_literal(&run) {
            Ok(Some(Token::Number(string_of(&run))))
        } else if run.len() == 0 {
            Err(LexerError::new("error: cannot parse float from empty string"))
        } else {
            Err(LexerError::new("error: invalid float literal"))
        }
    }

    /// Tests for a character that number scanning consumes.
    fn number_char(c: char) -> (r: bool)
        ensures
            r == in_number_class(c),
    {
        char_is_numeric(c) || c == '+' || c == '-' || c == '.' || c == 'e' || c == 'E'
    }

    /// Reads the code unit that four hexadecimal digits at the cursor spell.
    /// Four characters are read in any case, fewer at the end of the input.
    fn parse_code_unit(&mut self) -> (r: Result<u16, LexerError>)
        ensures
            final(self).input() == old(self).input(),
            match hex_quad(old(self).input(), old(self).cursor()) {
                Some(unit) => r is Ok && r->Ok_0 == unit && final(self).cursor() == old(self).cursor() + 4,
                None => r is Err && r->Err_0.msg@ == "error: a unicode character is expected "@
                    + old(self).input().subrange(
                    old(self).cursor(),
                    advance(old(self).input(), old(self).cursor(), 4),
                ),
            },
    {
        let read = self.take(4);
        if read.len() == 4 {
            match (hex_digit(read[0]), hex_digit(read[1]), hex_digit(read[2]), hex_digit(read[3])) {
                (Some(a), Some(b), Some(c), Some(d)) => {
                    return Ok(((a * 16 + b) * 16 + c) * 16 + d);
                },
                _ => {},
            }
        }
        Err(LexerError { msg: message("error: a unicode character is expected ", &read) })
    }

    /// Reads `width` characters, fewer at the end of the input.
    fn take(&mut self, width: usize) -> (read: Vec<char>)
        ensures
            final(self).input() == old(self).input(),
            final(self).cursor() == advance(old(self).input(), old(self).cursor(), width as int),
            old(self).cursor() <= final(self).cursor() <= old(self).input().len(),
            read@ == old(self).input().subrange(old(self).cursor(), final(self).cursor()),
    {
        proof {
            use_type_invariant(&*self);
        }
        let left: usize = self.chars.len() - self.pos;
        let start: usize = self.pos;
        let end: usize = if width <= left {
            start + width
        } else {
            self.chars.len()
        };
        let mut read: Vec<char> = Vec::new();
        while self.pos < end
            invariant
                self.chars@ == old(self).chars@,
                start <= self.pos <= end <= self.chars.len(),
                read@ == self.chars@.subrange(start as int, self.pos as int),
            decreases end - self.pos,
        {
            read.push(self.chars[self.pos]);
            self.pos = self.pos + 1;
            assert(self.chars@.subrange(start as int, self.pos as int) == self.chars@.subrange(
                start as int,
                self.pos - 1,
            ).push(self.chars@[self.pos - 1]));
        }
        read
    }

    /// Reads a string up to its closing quote; the cursor stands just past
    /// the opening quote.
    fn parse_string_token(&mut self) -> (r: Result<Option<Token>, LexerError>)
        ensures
            final(self).input() == old(self).input(),
            match scan_string(
                old(self).input(),
                old(self).cursor(),
                Seq::empty(),
                Seq::empty(),
            ) {
                Scan::Token(t, next) => r is Ok && r->Ok_0 is Some && r->Ok_0->Some_0@ == t
                    && final(self).cursor() == next,
                Scan::End => false,
                Scan::Fail(m) => r is Err && r->Err_0.msg@ == m,
            },
    {
        let mut utf16: Vec<u16> = Vec::new();
        let mut result = String::new();
        proof {
            use_type_invariant(&*self);
        }
        while self.pos < self.chars.len()
            invariant
                self.chars@ == old(self).chars@,
                self.pos <= self.chars.len(),
                scan_string(old(self).chars@, old(self).pos as int, Seq::empty(), Seq::empty())
                    == scan_string(self.chars@, self.pos as int, result@, utf16@),
            decreases self.chars.len() - self.pos,
        {
            let c1: char = self.chars[self.pos];
            self.pos = self.pos + 1;
            if c1 == '\\' {
                if self.pos >= self.chars.len() {
                    return Err(LexerError::new("error: a next char is expected"));
                }
                let c2: char = self.chars[self.pos];
                self.pos = self.pos + 1;
                if plain_escape(c2) {
                    match Self::push_utf16(&mut result, &mut utf16) {
                        Err(e) => {
                            return Err(e);
                        },
                        Ok(()) => {},
                    }
                    push_char(&mut result, '\\');
                    push_char(&mut result, c2);
                } else if c2 == 'u' {
                    match self.parse_code_unit() {
                        Ok(unit) => {
                            utf16.push(unit);
                        },
                        Err(e) => {
                            return Err(e);
                        },
                    }
                } else {
                    let mut msg = "error: an unexpected escaped char ".to_owned();
                    push_char(&mut msg, c2);
                    return Err(LexerError { msg });
                }
            } else if c1 == '"' {
                match Self::push_utf16(&mut result, &mut utf16) {
                    Err(e) => {
                        return Err(e);
                    },
                    Ok(()) => {},
                }
                return Ok(Some(Token::String(result)));
            } else {
                match Self::push_utf16(&mut result, &mut utf16) {
                    Err(e) => {
                        return Err(e);
                    },
                    Ok(()) => {},
                }
                push_char(&mut result, c1);
            }
        }
        Err(LexerError::new("error: not close string"))
    }

    /// Decodes the pending code units and appends them to the text, leaving
    /// none pending. Where they do not decode, both stay as they are.
    pub fn push_utf16(result: &mut String, utf16: &mut Vec<u16>) -> (r: Result<(), LexerError>)
        ensures
            match decode_utf16(old(utf16)@) {
                Some(decoded) => r is Ok && final(result)@ == old(result)@ + decoded && final(utf16)@ == Seq::<u16>::empty(),
                None => r is Err && r->Err_0.msg@ == lone_surrogate_message() && final(result)@
                    == old(result)@ && final(utf16)@ == old(utf16)@,
            },
    {
        if utf16.len() == 0 {
            assert(result@ + Seq::<char>::empty() == result@);
            assert(utf16@ == Seq::<u16>::empty());
            return Ok(());
        }
        match decode(utf16) {
            Some(decoded) => {
                result.append(decoded.as_str());
                utf16.clear();
                Ok(())
            },
            None => Err(LexerError::new("error: invalid utf-16: lone surrogate found")),
        }
    }
}

} // verus!
