//! Syntactic analysis: from the tokens of a document to its value tree.

use vstd::prelude::*;
use crate::chars::joined;
use crate::grammar::{
    lemma_parse_value_advances, no_token_message, parse_array, parse_elements, parse_members,
    parse_object, parse_value, Parsed,
};
use crate::lexer::{token_views, Token, TokenView};
use crate::value::{value_views, Object, Value, ValueView};

verus! {

/// An error met during syntactic analysis.
#[derive(Debug, Clone)]
pub struct ParserError {
    /// What went wrong.
    pub msg: String,
}

impl ParserError {
    /// An error with the given message.
    pub fn new(msg: &str) -> (e: ParserError)
        ensures
            e.msg@ == msg@,
    {
        ParserError { msg: msg.to_owned() }
    }
}

/// Builds the value tree of a sequence of tokens.
pub struct Parser {
    /// The tokens of the document.
    tokens: Vec<Token>,
    /// The index of the next token to read.
    index: usize,
}

impl Parser {
    #[verifier::type_invariant]
    spec fn index_in_bounds(self) -> bool {
        self.index <= self.tokens.len()
    }

    /// The tokens of the document.
    pub closed spec fn tokens(&self) -> Seq<TokenView> {
        token_views(self.tokens@)
    }

    /// The index of the next token to read.
    pub closed spec fn cursor(&self) -> int {
        self.index as int
    }

    /// A parser at the start of the given tokens.
    pub fn new(tokens: Vec<Token>) -> (parser: Parser)
        ensures
            parser.tokens() == token_views(tokens@),
            parser.cursor() == 0,
    {
        Parser { tokens, index: 0 }
    }

    /// The index of the next token to read: after a value has been parsed,
    /// the number of tokens read so far.
    pub fn position(&self) -> (index: usize)
        ensures
            index == self.cursor(),
            index <= self.tokens().len(),
    {
        proof {
            use_type_invariant(self);
        }
        self.index
    }

    /// Parses an array: `[`, elements separated by commas, `]`.
    fn parse_array(&mut self) -> (r: Result<Value, ParserError>)
        ensures
            final(self).tokens() == old(self).tokens(),
            match parse_array(old(self).tokens(), old(self).cursor()) {
                Parsed::Value(v, next) => r is Ok && r->Ok_0@ == v && final(self).cursor() == next,
                Parsed::Fail(m) => r is Err && r->Err_0.msg@ == m,
            },
        decreases old(self).tokens().len() - old(self).cursor(), 1int,
    {
        match self.peek_expect() {
            Err(e) => {
                return Err(e);
            },
            Ok(token) => match token {
                Token::LeftBracket => {},
                _ => {
                    return Err(
                        ParserError {
                            msg: joined(
                                "error: JSON array must start [ ",
                                token.describe().as_str(),
                            ),
                        },
                    );
                },
            },
        }
        self.step();
        let mut array: Vec<Value> = Vec::new();
        match self.peek_expect() {
            Err(e) => {
                return Err(e);
            },
            Ok(token) => match token {
                Token::RightBracket => {
                    self.step();
                    assert(Value::Array(array)@ == ValueView::Array(Seq::empty())) by {
                        assert(Value::Array(array)@->Array_0 =~= Seq::<ValueView>::empty());
                    }
                    return Ok(Value::Array(array));
                },
                _ => {},
            },
        }
        assert(value_views(array@) =~= Seq::<ValueView>::empty());
        loop
            invariant
                self.tokens() == old(self).tokens(),
                old(self).cursor() < self.cursor(),
                parse_array(old(self).tokens(), old(self).cursor()) == parse_elements(
                    self.tokens(),
                    self.cursor(),
                    value_views(array@),
                ),
            decreases self.tokens().len() - self.cursor(),
        {
            let ghost items = value_views(array@);
            let ghost start = self.cursor();
            proof {
                use_type_invariant(&*self);
                lemma_parse_value_advances(self.tokens(), start);
            }
            let value = match self.parse() {
                Ok(value) => value,
                Err(e) => {
                    return Err(e);
                },
            };
            array.push(value);
            assert(value_views(array@) =~= items.push(value@));
            match self.next_expect() {
                Err(e) => {
                    return Err(e);
                },
                Ok(token) => match token {
                    Token::RightBracket => {
                        assert(Value::Array(array)@ == ValueView::Array(value_views(array@))) by {
                            assert(Value::Array(array)@->Array_0 =~= value_views(array@));
                        }
                        return Ok(Value::Array(array));
                    },
                    Token::Comma => {},
                    _ => {
                        return Err(
                            ParserError {
                                msg: joined(
                                    "error: a | or, token is expected ",
                                    token.describe().as_str(),
                                ),
                            },
                        );
                    },
                },
            }
        }
    }

    /// Parses an object: `{`, members separated by commas, `}`; a member is
    /// a string key, `:` and a value.
    fn parse_object(&mut self) -> (r: Result<Value, ParserError>)
        ensures
            final(self).tokens() == old(self).tokens(),
            match parse_object(old(self).tokens(), old(self).cursor()) {
                Parsed::Value(v, next) => r is Ok && r->Ok_0@ == v && final(self).cursor() == next,
                Parsed::Fail(m) => r is Err && r->Err_0.msg@ == m,
            },
        decreases old(self).tokens().len() - old(self).cursor(), 1int,
    {
        match self.peek_expect() {
            Err(e) => {
                return Err(e);
            },
            Ok(token) => match token {
                Token::LeftBrace => {},
                _ => {
                    return Err(
                        ParserError {
                            msg: joined(
                                "error: JSON object must start { ",
                                token.describe().as_str(),
                            ),
                        },
                    );
                },
            },
        }
        self.step();
        let mut object = Object::new();
        match self.peek_expect() {
            Err(e) => {
                return Err(e);
            },
            Ok(token) => match token {
                Token::RightBrace => {
                    self.step();
                    return Ok(Value::Object(object));
                },
                _ => {},
            },
        }
        loop
            invariant
                self.tokens() == old(self).tokens(),
                old(self).cursor() < self.cursor(),
                parse_object(old(self).tokens(), old(self).cursor()) == parse_members(
                    self.tokens(),
                    self.cursor(),
                    object@,
                ),
            decreases self.tokens().len() - self.cursor(),
        {
            let ghost start = self.cursor();
            let first: Option<String> = match self.next_expect() {
                Err(e) => {
                    return Err(e);
                },
                Ok(token) => match token {
                    Token::String(text) => Some(text.clone()),
                    _ => None,
                },
            };
            let colon: bool = match self.next_expect() {
                Err(e) => {
                    return Err(e);
                },
                Ok(token) => match token {
                    Token::Colon => true,
                    _ => false,
                },
            };
            let key: String = match first {
                Some(key) => if colon {
                    key
                } else {
                    return Err(
                        ParserError::new(
                            "error: a pair (key(string) and :token) token is expected",
                        ),
                    );
                },
                None => {
                    return Err(
                        ParserError::new(
                            "error: a pair (key(string) and :token) token is expected",
                        ),
                    );
                },
            };
            proof {
                lemma_parse_value_advances(self.tokens(), start + 2);
            }
            let value = match self.parse() {
                Ok(value) => value,
                Err(e) => {
                    return Err(e);
                },
            };
            object.insert(key, value);
            match self.next_expect() {
                Err(e) => {
                    return Err(e);
                },
                Ok(token) => match token {
                    Token::RightBrace => {
                        return Ok(Value::Object(object));
                    },
                    Token::Comma => {},
                    _ => {
                        return Err(
                            ParserError {
                                msg: joined(
                                    joined(
                                        "error: a { or , token is expected ",
                                        token.describe().as_str(),
                                    ).as_str(),
                                    "}",
                                ),
                            },
                        );
                    },
                },
            }
        }
    }

    /// Parses the value that starts at the cursor and leaves the cursor just
    /// past its tokens. Tokens that follow the value are left unread.
    pub fn parse(&mut self) -> (r: Result<Value, ParserError>)
        ensures
            final(self).tokens() == old(self).tokens(),
            match parse_value(old(self).tokens(), old(self).cursor()) {
                Parsed::Value(v, next) => r is Ok && r->Ok_0@ == v && final(self).cursor() == next,
                Parsed::Fail(m) => r is Err && r->Err_0.msg@ == m,
            },
        decreases old(self).tokens().len() - old(self).cursor(), 2int,
    {
        let token = match self.peek_expect() {
            Err(e) => {
                return Err(e);
            },
            Ok(token) => token,
        };
        match token {
            Token::LeftBrace => self.parse_object(),
            Token::LeftBracket => self.parse_array(),
            Token::String(text) => {
                let value = Value::String(text.clone());
                self.step();
                Ok(value)
            },
            Token::Number(text) => {
                let value = Value::Number(text.clone());
                self.step();
                Ok(value)
            },
            Token::Bool(b) => {
                let value = Value::Bool(*b);
                self.step();
                Ok(value)
            },
            Token::Null => {
                self.step();
                Ok(Value::Null)
            },
            _ => Err(
                ParserError {
                    msg: joined(
                        "error: a token must start { or [ or string or number or bool or null ",
                        token.describe().as_str(),
                    ),
                },
            ),
        }
    }

    /// Moves the cursor past the token that it stands at.
    fn step(&mut self)
        requires
            old(self).cursor() < old(self).tokens().len(),
        ensures
            final(self).tokens() == old(self).tokens(),
            final(self).cursor() == old(self).cursor() + 1,
    {
        assert(self.index < self.tokens.len());
        self.index = self.index + 1;
    }

    /// The token at the cursor, if one is left.
    fn peek(&self) -> (r: Option<&Token>)
        ensures
            match r {
                Some(token) => self.cursor() < self.tokens().len() && token@
                    == self.tokens()[self.cursor()],
                None => self.cursor() >= self.tokens().len(),
            },
    {
        if self.index < self.tokens.len() {
            Some(&self.tokens[self.index])
        } else {
            None
        }
    }

    /// The token at the cursor, or an error where none is left.
    fn peek_expect(&self) -> (r: Result<&Token, ParserError>)
        ensures
            match r {
                Ok(token) => self.cursor() < self.tokens().len() && token@
                    == self.tokens()[self.cursor()],
                Err(e) => self.cursor() >= self.tokens().len() && e.msg@ == no_token_message(),
            },
    {
        match self.peek() {
            Some(token) => Ok(token),
            None => Err(ParserError::new("error: a token isn't peekable")),
        }
    }

    /// The token at the cursor, which moves past it, if one is left.
    fn next(&mut self) -> (r: Option<&Token>)
        ensures
            final(self).tokens() == old(self).tokens(),
            match r {
                Some(token) => old(self).cursor() < old(self).tokens().len() && token@ == old(self).tokens()[old(self).cursor()] && final(self).cursor() == old(self).cursor() + 1,
                None => old(self).cursor() >= old(self).tokens().len() && final(self).cursor()
                    == old(self).cursor(),
            },
    {
        if self.index < self.tokens.len() {
            self.index = self.index + 1;
            Some(&self.tokens[self.index - 1])
        } else {
            None
        }
    }

    /// The token at the cursor, which moves past it, or an error where none
    /// is left.
    fn next_expect(&mut self) -> (r: Result<&Token, ParserError>)
        ensures
            final(self).tokens() == old(self).tokens(),
            match r {
                Ok(token) => old(self).cursor() < old(self).tokens().len() && token@ == old(self).tokens()[old(self).cursor()] && final(self).cursor() == old(self).cursor() + 1,
                Err(e) => old(self).cursor() >= old(self).tokens().len() && e.msg@
                    == no_token_message() && final(self).cursor() == old(self).cursor(),
            },
    {
        match self.next() {
            Some(token) => Ok(token),
            None => Err(ParserError::new("error: a token isn't peekable")),
        }
    }
}

} // verus!
