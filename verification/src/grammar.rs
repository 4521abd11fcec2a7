//! What syntactic analysis gives, as a function of the tokens of the
//! document.

use vstd::prelude::*;
use crate::lexer::{describe, TokenView};
use crate::value::ValueView;

verus! {

/// What parsing at one position gives.
pub enum Parsed {
    /// A value, and the position just past its tokens.
    Value(ValueView, int),
    /// Parsing fails, with this message.
    Fail(Seq<char>),
}

/// The message for a token that is needed where none is left.
pub open spec fn no_token_message() -> Seq<char> {
    "error: a token isn't peekable"@
}

/// Parsing one value at `pos`, chosen by the token that stands there.
pub open spec fn parse_value(ts: Seq<TokenView>, pos: int) -> Parsed
    decreases ts.len() - pos, 2int,
{
    if pos < 0 || pos >= ts.len() {
        Parsed::Fail(no_token_message())
    } else {
        match ts[pos] {
            TokenView::LeftBrace => parse_object(ts, pos),
            TokenView::LeftBracket => parse_array(ts, pos),
            TokenView::String(text) => Parsed::Value(ValueView::String(text), pos + 1),
            TokenView::Number(text) => Parsed::Value(ValueView::Number(text), pos + 1),
            TokenView::Bool(b) => Parsed::Value(ValueView::Bool(b), pos + 1),
            TokenView::Null => Parsed::Value(ValueView::Null, pos + 1),
            _ => Parsed::Fail(
                "error: a token must start { or [ or string or number or bool or null "@
                    + describe(ts[pos]),
            ),
        }
    }
}

/// Parsing an array whose opening bracket stands at `pos`.
pub open spec fn parse_array(ts: Seq<TokenView>, pos: int) -> Parsed
    decreases ts.len() - pos, 1int,
{
    if pos < 0 || pos >= ts.len() {
        Parsed::Fail(no_token_message())
    } else if ts[pos] != TokenView::LeftBracket {
        Parsed::Fail("error: JSON array must start [ "@ + describe(ts[pos]))
    } else if pos + 1 >= ts.len() {
        Parsed::Fail(no_token_message())
    } else if ts[pos + 1] == TokenView::RightBracket {
        Parsed::Value(ValueView::Array(Seq::empty()), pos + 2)
    } else {
        parse_elements(ts, pos + 1, Seq::empty())
    }
}

/// Parsing the elements of an array from `pos`, after the elements `items`:
/// a value, then a comma and more elements, or the closing bracket.
pub open spec fn parse_elements(ts: Seq<TokenView>, pos: int, items: Seq<ValueView>) -> Parsed
    decreases ts.len() - pos, 3int,
{
    match parse_value(ts, pos) {
        Parsed::Fail(m) => Parsed::Fail(m),
        Parsed::Value(v, next) => if pos < next < ts.len() {
            match ts[next] {
                TokenView::RightBracket => Parsed::Value(ValueView::Array(items.push(v)), next + 1),
                TokenView::Comma => parse_elements(ts, next + 1, items.push(v)),
                _ => Parsed::Fail("error: a | or, token is expected "@ + describe(ts[next])),
            }
        } else {
            Parsed::Fail(no_token_message())
        },
    }
}

/// Parsing an object whose opening brace stands at `pos`.
pub open spec fn parse_object(ts: Seq<TokenView>, pos: int) -> Parsed
    decreases ts.len() - pos, 1int,
{
    if pos < 0 || pos >= ts.len() {
        Parsed::Fail(no_token_message())
    } else if ts[pos] != TokenView::LeftBrace {
        Parsed::Fail("error: JSON object must start { "@ + describe(ts[pos]))
    } else if pos + 1 >= ts.len() {
        Parsed::Fail(no_token_message())
    } else if ts[pos + 1] == TokenView::RightBrace {
        Parsed::Value(ValueView::Object(Map::empty()), pos + 2)
    } else {
        parse_members(ts, pos + 1, Map::empty())
    }
}

/// Parsing the members of an object from `pos`, after the members
/// `members`: a string key, a colon and a value, then a comma and more
/// members, or the closing brace. A key that comes again overwrites.
pub open spec fn parse_members(
    ts: Seq<TokenView>,
    pos: int,
    members: Map<Seq<char>, ValueView>,
) -> Parsed
    decreases ts.len() - pos, 3int,
{
    if pos < 0 || pos + 1 >= ts.len() {
        Parsed::Fail(no_token_message())
    } else {
        match (ts[pos], ts[pos + 1]) {
            (TokenView::String(key), TokenView::Colon) => match parse_value(ts, pos + 2) {
                Parsed::Fail(m) => Parsed::Fail(m),
                Parsed::Value(v, next) => if pos < next < ts.len() {
                    match ts[next] {
                        TokenView::RightBrace => Parsed::Value(
                            ValueView::Object(members.insert(key, v)),
                            next + 1,
                        ),
                        TokenView::Comma => parse_members(ts, next + 1, members.insert(key, v)),
                        _ => Parsed::Fail(
                            "error: a { or , token is expected "@ + describe(ts[next]) + "}"@,
                        ),
                    }
                } else {
                    Parsed::Fail(no_token_message())
                },
            },
            _ => Parsed::Fail("error: a pair (key(string) and :token) token is expected"@),
        }
    }
}

/// A value that parses takes at least one token, and none past the end.
pub proof fn lemma_parse_value_advances(ts: Seq<TokenView>, pos: int)
    ensures
        match parse_value(ts, pos) {
            Parsed::Value(_, next) => 0 <= pos < next <= ts.len(),
            Parsed::Fail(_) => true,
        },
    decreases ts.len() - pos, 2int,
{
    if 0 <= pos < ts.len() {
        match ts[pos] {
            TokenView::LeftBrace => {
                if pos + 1 < ts.len() && ts[pos + 1] != TokenView::RightBrace {
                    lemma_parse_members_advances(ts, pos + 1, Map::empty());
                }
            },
            TokenView::LeftBracket => {
                if pos + 1 < ts.len() && ts[pos + 1] != TokenView::RightBracket {
                    lemma_parse_elements_advances(ts, pos + 1, Seq::empty());
                }
            },
            _ => {},
        }
    }
}

/// The elements of an array that parse end after the position where they
/// began.
pub proof fn lemma_parse_elements_advances(ts: Seq<TokenView>, pos: int, items: Seq<ValueView>)
    requires
        0 <= pos,
    ensures
        match parse_elements(ts, pos, items) {
            Parsed::Value(_, next) => pos < next <= ts.len(),
            Parsed::Fail(_) => true,
        },
    decreases ts.len() - pos, 3int,
{
    lemma_parse_value_advances(ts, pos);
    if let Parsed::Value(v, next) = parse_value(ts, pos) {
        if pos < next < ts.len() && ts[next] == TokenView::Comma {
            lemma_parse_elements_advances(ts, next + 1, items.push(v));
        }
    }
}

/// The members of an object that parse end after the position where they
/// began.
pub proof fn lemma_parse_members_advances(
    ts: Seq<TokenView>,
    pos: int,
    members: Map<Seq<char>, ValueView>,
)
    requires
        0 <= pos,
    ensures
        match parse_members(ts, pos, members) {
            Parsed::Value(_, next) => pos < next <= ts.len(),
            Parsed::Fail(_) => true,
        },
    decreases ts.len() - pos, 3int,
{
    if pos + 1 < ts.len() {
        if let (TokenView::String(key), TokenView::Colon) = (ts[pos], ts[pos + 1]) {
            lemma_parse_value_advances(ts, pos + 2);
            if let Parsed::Value(v, next) = parse_value(ts, pos + 2) {
                if pos < next < ts.len() && ts[next] == TokenView::Comma {
                    lemma_parse_members_advances(ts, next + 1, members.insert(key, v));
                }
            }
        }
    }
}

/// An opening bracket with the closing one right after it is the empty
/// array, and an opening brace with the closing one right after it is the
/// empty object.
pub proof fn lemma_empty_containers(ts: Seq<TokenView>, pos: int)
    requires
        0 <= pos,
        pos + 1 < ts.len(),
    ensures
        ts[pos] == TokenView::LeftBracket && ts[pos + 1] == TokenView::RightBracket
            ==> parse_value(ts, pos) == Parsed::Value(ValueView::Array(Seq::empty()), pos + 2),
        ts[pos] == TokenView::LeftBrace && ts[pos + 1] == TokenView::RightBrace ==> parse_value(
            ts,
            pos,
        ) == Parsed::Value(ValueView::Object(Map::empty()), pos + 2),
{
}

/// An object whose first key is not followed by a colon, or whose first
/// member does not start with a string, does not parse.
pub proof fn lemma_member_without_colon_fails(ts: Seq<TokenView>, pos: int)
    requires
        0 <= pos,
        pos + 2 < ts.len(),
        ts[pos] == TokenView::LeftBrace,
        ts[pos + 1] != TokenView::RightBrace,
        !(ts[pos + 1] is String) || ts[pos + 2] != TokenView::Colon,
    ensures
        parse_value(ts, pos) == Parsed::Fail(
            "error: a pair (key(string) and :token) token is expected"@,
        ),
{
}

/// Parsing a value reads the tokens of that value and no others: where it
/// succeeds, it gives the same on every sequence of tokens that has the same
/// tokens from `pos` up to where the value ends.
pub proof fn lemma_parse_value_local(ts: Seq<TokenView>, other: Seq<TokenView>, pos: int)
    requires
        parse_value(ts, pos) is Value,
        parse_value(ts, pos)->Value_1 <= other.len(),
        forall|i: int| pos <= i < parse_value(ts, pos)->Value_1 ==> other[i] == ts[i],
    ensures
        parse_value(other, pos) == parse_value(ts, pos),
    decreases ts.len() - pos, 2int,
{
    lemma_parse_value_advances(ts, pos);
    match ts[pos] {
        TokenView::LeftBrace => {
            if ts[pos + 1] != TokenView::RightBrace {
                lemma_parse_members_advances(ts, pos + 1, Map::empty());
            }
            assert(other[pos + 1] == ts[pos + 1]);
            if ts[pos + 1] != TokenView::RightBrace {
                lemma_parse_members_local(ts, other, pos + 1, Map::empty());
            }
        },
        TokenView::LeftBracket => {
            if ts[pos + 1] != TokenView::RightBracket {
                lemma_parse_elements_advances(ts, pos + 1, Seq::empty());
            }
            assert(other[pos + 1] == ts[pos + 1]);
            if ts[pos + 1] != TokenView::RightBracket {
                lemma_parse_elements_local(ts, other, pos + 1, Seq::empty());
            }
        },
        _ => {},
    }
}

/// Parsing the elements of an array reads the tokens up to the closing
/// bracket and no others.
pub proof fn lemma_parse_elements_local(
    ts: Seq<TokenView>,
    other: Seq<TokenView>,
    pos: int,
    items: Seq<ValueView>,
)
    requires
        0 <= pos,
        parse_elements(ts, pos, items) is Value,
        parse_elements(ts, pos, items)->Value_1 <= other.len(),
        forall|i: int| pos <= i < parse_elements(ts, pos, items)->Value_1 ==> other[i] == ts[i],
    ensures
        parse_elements(other, pos, items) == parse_elements(ts, pos, items),
    decreases ts.len() - pos, 3int,
{
    lemma_parse_value_advances(ts, pos);
    let v = parse_value(ts, pos)->Value_0;
    let next = parse_value(ts, pos)->Value_1;
    if ts[next] == TokenView::Comma {
        lemma_parse_elements_advances(ts, next + 1, items.push(v));
    }
    lemma_parse_value_local(ts, other, pos);
    assert(other[next] == ts[next]);
    if ts[next] == TokenView::Comma {
        lemma_parse_elements_local(ts, other, next + 1, items.push(v));
    }
}

/// Parsing the members of an object reads the tokens up to the closing
/// brace and no others.
pub proof fn lemma_parse_members_local(
    ts: Seq<TokenView>,
    other: Seq<TokenView>,
    pos: int,
    members: Map<Seq<char>, ValueView>,
)
    requires
        0 <= pos,
        parse_members(ts, pos, members) is Value,
        parse_members(ts, pos, members)->Value_1 <= other.len(),
        forall|i: int| pos <= i < parse_members(ts, pos, members)->Value_1 ==> other[i] == ts[i],
    ensures
        parse_members(other, pos, members) == parse_members(ts, pos, members),
    decreases ts.len() - pos, 3int,
{
    lemma_parse_value_advances(ts, pos + 2);
    let key = ts[pos]->String_0;
    let v = parse_value(ts, pos + 2)->Value_0;
    let next = parse_value(ts, pos + 2)->Value_1;
    if ts[next] == TokenView::Comma {
        lemma_parse_members_advances(ts, next + 1, members.insert(key, v));
    }
    assert(other[pos] == ts[pos]);
    assert(other[pos + 1] == ts[pos + 1]);
    lemma_parse_value_local(ts, other, pos + 2);
    assert(other[next] == ts[next]);
    if ts[next] == TokenView::Comma {
        lemma_parse_members_local(ts, other, next + 1, members.insert(key, v));
    }
}

} // verus!
