//! What lexical analysis gives, as a function of the characters of the
//! document.

use vstd::prelude::*;
use crate::chars::{
    hex_value, in_number_class, is_plain_escape, is_white_space, starts_number,
};
use crate::lexer::TokenView;
use crate::number::{float_literal, lemma_float_literal_chars};
use crate::utf16::decode_utf16;

verus! {

/// What scanning at one position gives.
pub enum Scan {
    /// A token, and the position just past it.
    Token(TokenView, int),
    /// The input is exhausted.
    End,
    /// Scanning fails, with this message.
    Fail(Seq<char>),
}

/// The position `width` characters after `pos`, or the end of `s` where fewer
/// are left.
pub open spec fn advance(s: Seq<char>, pos: int, width: int) -> int {
    if pos + width <= s.len() {
        pos + width
    } else {
        s.len() as int
    }
}

/// Matching a keyword: as many characters as the keyword has are read, fewer
/// at the end of the input, and must spell it.
pub open spec fn scan_word(
    s: Seq<char>,
    pos: int,
    word: Seq<char>,
    token: TokenView,
    complaint: Seq<char>,
) -> Scan {
    let end = advance(s, pos, word.len() as int);
    let read = s.subrange(pos, end);
    if read == word {
        Scan::Token(token, end)
    } else {
        Scan::Fail(complaint + read)
    }
}

/// The position just past the run of number characters that starts at `pos`.
pub open spec fn number_end(s: Seq<char>, pos: int) -> int
    decreases s.len() - pos,
{
    if 0 <= pos < s.len() && in_number_class(s[pos]) {
        number_end(s, pos + 1)
    } else {
        pos
    }
}

/// Scanning a number: the longest run of number characters is read, and must
/// be a decimal floating-point literal.
pub open spec fn scan_number(s: Seq<char>, pos: int) -> Scan {
    let end = number_end(s, pos);
    let text = s.subrange(pos, end);
    if float_literal(text) {
        Scan::Token(TokenView::Number(text), end)
    } else if text.len() == 0 {
        Scan::Fail("error: cannot parse float from empty string"@)
    } else {
        Scan::Fail("error: invalid float literal"@)
    }
}

/// The code unit that the four hexadecimal digits at `pos` spell, if four
/// such digits stand there.
pub open spec fn hex_quad(s: Seq<char>, pos: int) -> Option<int> {
    if 0 <= pos && pos + 4 <= s.len() && hex_value(s[pos]) is Some && hex_value(s[pos + 1]) is Some
        && hex_value(s[pos + 2]) is Some && hex_value(s[pos + 3]) is Some {
        Some(
            ((hex_value(s[pos])->0 * 16 + hex_value(s[pos + 1])->0) * 16 + hex_value(
                s[pos + 2],
            )->0) * 16 + hex_value(s[pos + 3])->0,
        )
    } else {
        None
    }
}

/// The text with the pending code units decoded and appended, or `None`
/// where they do not decode.
pub open spec fn flushed(text: Seq<char>, units: Seq<u16>) -> Option<Seq<char>> {
    match decode_utf16(units) {
        Some(decoded) => Some(text + decoded),
        None => None,
    }
}

/// The message for code units that do not decode.
pub open spec fn lone_surrogate_message() -> Seq<char> {
    "error: invalid utf-16: lone surrogate found"@
}

/// Scanning the inside of a string from `pos`, with `text` read so far and
/// `units` the code units of the `\u` escapes that are not yet decoded.
pub open spec fn scan_string(s: Seq<char>, pos: int, text: Seq<char>, units: Seq<u16>) -> Scan
    decreases s.len() - pos,
{
    if pos < 0 || pos >= s.len() {
        Scan::Fail("error: not close string"@)
    } else if s[pos] == '\\' {
        if pos + 1 >= s.len() {
            Scan::Fail("error: a next char is expected"@)
        } else if is_plain_escape(s[pos + 1]) {
            match flushed(text, units) {
                Some(t) => scan_string(s, pos + 2, t.push('\\').push(s[pos + 1]), Seq::empty()),
                None => Scan::Fail(lone_surrogate_message()),
            }
        } else if s[pos + 1] == 'u' {
            match hex_quad(s, pos + 2) {
                Some(unit) => scan_string(s, pos + 6, text, units.push(unit as u16)),
                None => Scan::Fail(
                    "error: a unicode character is expected "@ + s.subrange(
                        pos + 2,
                        advance(s, pos + 2, 4),
                    ),
                ),
            }
        } else {
            Scan::Fail("error: an unexpected escaped char "@.push(s[pos + 1]))
        }
    } else if s[pos] == '"' {
        match flushed(text, units) {
            Some(t) => Scan::Token(TokenView::String(t), pos + 1),
            None => Scan::Fail(lone_surrogate_message()),
        }
    } else {
        match flushed(text, units) {
            Some(t) => scan_string(s, pos + 1, t.push(s[pos]), Seq::empty()),
            None => Scan::Fail(lone_surrogate_message()),
        }
    }
}

/// Scanning one lexical unit at `pos`, chosen by the character that stands
/// there.
pub open spec fn scan_token(s: Seq<char>, pos: int) -> Scan {
    if pos < 0 || pos >= s.len() {
        Scan::End
    } else if is_white_space(s[pos]) {
        Scan::Token(TokenView::WhiteSpace, pos + 1)
    } else if s[pos] == '{' {
        Scan::Token(TokenView::LeftBrace, pos + 1)
    } else if s[pos] == '}' {
        Scan::Token(TokenView::RightBrace, pos + 1)
    } else if s[pos] == '[' {
        Scan::Token(TokenView::LeftBracket, pos + 1)
    } else if s[pos] == ']' {
        Scan::Token(TokenView::RightBracket, pos + 1)
    } else if s[pos] == ',' {
        Scan::Token(TokenView::Comma, pos + 1)
    } else if s[pos] == ':' {
        Scan::Token(TokenView::Colon, pos + 1)
    } else if s[pos] == '"' {
        scan_string(s, pos + 1, Seq::empty(), Seq::empty())
    } else if starts_number(s[pos]) {
        scan_number(s, pos)
    } else if s[pos] == 't' {
        scan_word(s, pos, "true"@, TokenView::Bool(true), "error: a boolean true is expected "@)
    } else if s[pos] == 'f' {
        scan_word(s, pos, "false"@, TokenView::Bool(false), "error: a boolean false is expected "@)
    } else if s[pos] == 'n' {
        scan_word(s, pos, "null"@, TokenView::Null, "error: a null value is expected "@)
    } else {
        Scan::Fail("error: an unexpected char "@.push(s[pos]))
    }
}

/// A sequence of tokens put before the outcome of scanning what follows them.
pub open spec fn tokens_then(head: Seq<TokenView>, rest: Result<Seq<TokenView>, Seq<char>>) -> Result<
    Seq<TokenView>,
    Seq<char>,
> {
    match rest {
        Ok(tail) => Ok(head + tail),
        Err(m) => Err(m),
    }
}

/// The tokens of `s` from `pos` to its end, white space left out, or the
/// message of the first failure.
pub open spec fn scan_all(s: Seq<char>, pos: int) -> Result<Seq<TokenView>, Seq<char>>
    decreases s.len() - pos,
    via scan_all_terminates
{
    match scan_token(s, pos) {
        Scan::End => Ok(Seq::empty()),
        Scan::Fail(m) => Err(m),
        Scan::Token(token, next) => tokens_then(
            if token is WhiteSpace {
                Seq::empty()
            } else {
                seq![token]
            },
            scan_all(s, next),
        ),
    }
}

#[via_fn]
proof fn scan_all_terminates(s: Seq<char>, pos: int) {
    lemma_scan_token_advances(s, pos);
}

/// The run of number characters that starts at `pos` ends between `pos` and
/// the end of the input.
pub proof fn lemma_number_end_bounds(s: Seq<char>, pos: int)
    requires
        0 <= pos <= s.len(),
    ensures
        pos <= number_end(s, pos) <= s.len(),
    decreases s.len() - pos,
{
    if pos < s.len() && in_number_class(s[pos]) {
        lemma_number_end_bounds(s, pos + 1);
    }
}

/// Whether a quote that closes the string stands at or after `pos`: one
/// that no backslash takes with it. A backslash takes the character after
/// it with it, whatever that is.
pub open spec fn has_closing_quote(s: Seq<char>, pos: int) -> bool
    decreases s.len() - pos,
{
    if pos < 0 || pos >= s.len() {
        false
    } else if s[pos] == '"' {
        true
    } else if s[pos] == '\\' {
        pos + 1 < s.len() && has_closing_quote(s, pos + 2)
    } else {
        has_closing_quote(s, pos + 1)
    }
}

/// Whether `s` goes on with `word` at `pos`.
pub open spec fn starts_with(s: Seq<char>, pos: int, word: Seq<char>) -> bool {
    0 <= pos && pos + word.len() <= s.len() && s.subrange(pos, pos + word.len()) == word
}

/// Four hexadecimal digits hold neither a quote nor a backslash, so a
/// closing quote at or after them stands after them.
proof fn lemma_closing_quote_after_hex_quad(s: Seq<char>, pos: int)
    requires
        hex_quad(s, pos) is Some,
    ensures
        has_closing_quote(s, pos) == has_closing_quote(s, pos + 4),
{
    assert(has_closing_quote(s, pos) == has_closing_quote(s, pos + 1));
    assert(has_closing_quote(s, pos + 1) == has_closing_quote(s, pos + 2));
    assert(has_closing_quote(s, pos + 2) == has_closing_quote(s, pos + 3));
    assert(has_closing_quote(s, pos + 3) == has_closing_quote(s, pos + 4));
}

/// Where a string scan gives a token, that token is a string, it ends after
/// the position where the scan began, and a closing quote stood at or after
/// that position. A string scan never finds the input exhausted: it fails.
pub proof fn lemma_scan_string_outcome(s: Seq<char>, pos: int, text: Seq<char>, units: Seq<u16>)
    requires
        0 <= pos,
    ensures
        match scan_string(s, pos, text, units) {
            Scan::Token(token, next) => token is String && pos < next <= s.len()
                && has_closing_quote(s, pos),
            Scan::End => false,
            Scan::Fail(_) => true,
        },
    decreases s.len() - pos,
{
    if pos < s.len() {
        if s[pos] == '\\' {
            if pos + 1 < s.len() {
                if is_plain_escape(s[pos + 1]) {
                    if let Some(t) = flushed(text, units) {
                        lemma_scan_string_outcome(
                            s,
                            pos + 2,
                            t.push('\\').push(s[pos + 1]),
                            Seq::empty(),
                        );
                    }
                } else if s[pos + 1] == 'u' {
                    if let Some(unit) = hex_quad(s, pos + 2) {
                        lemma_closing_quote_after_hex_quad(s, pos + 2);
                        lemma_scan_string_outcome(s, pos + 6, text, units.push(unit as u16));
                    }
                }
            }
        } else if s[pos] != '"' {
            if let Some(t) = flushed(text, units) {
                lemma_scan_string_outcome(s, pos + 1, t.push(s[pos]), Seq::empty());
            }
        }
    }
}

/// Every token takes at least one character, and none reaches past the end
/// of the input; scanning ends only where no character is left.
pub proof fn lemma_scan_token_advances(s: Seq<char>, pos: int)
    ensures
        match scan_token(s, pos) {
            Scan::Token(_, next) => 0 <= pos < next <= s.len(),
            Scan::End => pos < 0 || pos >= s.len(),
            Scan::Fail(_) => true,
        },
{
    if 0 <= pos < s.len() {
        lemma_scan_string_outcome(s, pos + 1, Seq::empty(), Seq::empty());
        lemma_number_end_bounds(s, pos);
        if starts_number(s[pos]) {
            lemma_number_end_bounds(s, pos + 1);
        }
        reveal_strlit("true");
        reveal_strlit("false");
        reveal_strlit("null");
    }
}

/// Putting no tokens before an outcome leaves it as it is.
pub proof fn lemma_tokens_then_empty(rest: Result<Seq<TokenView>, Seq<char>>)
    ensures
        tokens_then(Seq::empty(), rest) == rest,
{
    if let Ok(tail) = rest {
        assert(Seq::<TokenView>::empty() + tail == tail);
    }
}

/// No token of white space is among the tokens of a document.
pub proof fn lemma_white_space_left_out(s: Seq<char>, pos: int)
    ensures
        match scan_all(s, pos) {
            Ok(tokens) => forall|i: int| 0 <= i < tokens.len() ==> !(tokens[i] is WhiteSpace),
            Err(_) => true,
        },
    decreases s.len() - pos,
{
    lemma_scan_token_advances(s, pos);
    if let Scan::Token(token, next) = scan_token(s, pos) {
        lemma_white_space_left_out(s, next);
        if token is WhiteSpace {
            assert(0 <= pos < s.len());
            lemma_scan_string_outcome(s, pos + 1, Seq::empty(), Seq::empty());
            reveal_strlit("true");
            reveal_strlit("false");
            reveal_strlit("null");
        }
    }
}

/// The run of number characters that starts at `pos` ends at `end` where
/// every character from `pos` up to `end` is a number character and the
/// character at `end`, if there is one, is none.
pub proof fn lemma_number_end_is(s: Seq<char>, pos: int, end: int)
    requires
        0 <= pos <= end <= s.len(),
        forall|k: int| pos <= k < end ==> in_number_class(#[trigger] s[k]),
        end == s.len() || !in_number_class(s[end]),
    ensures
        number_end(s, pos) == end,
    decreases end - pos,
{
    if pos < end {
        lemma_number_end_is(s, pos + 1, end);
    }
}

/// Number scanning is greedy and judges the run as a whole: the longest run
/// of number characters is read, whatever follows it; it is given as one
/// number, with the position just past it, exactly where the run is a
/// decimal floating-point literal, and fails otherwise.
pub proof fn lemma_scan_number_reads_the_run(s: Seq<char>, pos: int, end: int)
    requires
        0 <= pos <= end <= s.len(),
        forall|k: int| pos <= k < end ==> in_number_class(#[trigger] s[k]),
        end == s.len() || !in_number_class(s[end]),
    ensures
        float_literal(s.subrange(pos, end)) ==> scan_number(s, pos) == Scan::Token(
            TokenView::Number(s.subrange(pos, end)),
            end,
        ),
        !float_literal(s.subrange(pos, end)) ==> scan_number(s, pos) is Fail,
{
    lemma_number_end_is(s, pos, end);
}

/// A character that may start a number and is no white space starts number
/// scanning.
pub proof fn lemma_number_start(s: Seq<char>, pos: int)
    requires
        0 <= pos < s.len(),
        starts_number(s[pos]),
        !is_white_space(s[pos]),
    ensures
        scan_token(s, pos) == scan_number(s, pos),
{
}

/// Matching a keyword gives its token, with the position just past the
/// keyword, exactly where the input goes on with the keyword, and fails
/// otherwise, naming what was read.
pub proof fn lemma_scan_word(
    s: Seq<char>,
    pos: int,
    word: Seq<char>,
    token: TokenView,
    complaint: Seq<char>,
)
    requires
        0 <= pos <= s.len(),
    ensures
        starts_with(s, pos, word) ==> scan_word(s, pos, word, token, complaint) == Scan::Token(
            token,
            pos + word.len(),
        ),
        !starts_with(s, pos, word) ==> scan_word(s, pos, word, token, complaint) == Scan::Fail(
            complaint + s.subrange(pos, advance(s, pos, word.len() as int)),
        ),
{
    if pos + word.len() > s.len() {
        assert(s.subrange(pos, s.len() as int).len() < word.len());
    }
}

/// At `t`, `f` and `n` the keywords are matched: the token is `true`,
/// `false` or `null` exactly where the input goes on with that keyword, the
/// keyword's characters are then read and no more, and scanning fails
/// otherwise.
pub proof fn lemma_keywords(s: Seq<char>, pos: int)
    requires
        0 <= pos < s.len(),
    ensures
        s[pos] == 't' ==> scan_token(s, pos) == (if starts_with(s, pos, "true"@) {
            Scan::Token(TokenView::Bool(true), pos + 4)
        } else {
            Scan::Fail(
                "error: a boolean true is expected "@ + s.subrange(pos, advance(s, pos, 4)),
            )
        }),
        s[pos] == 'f' ==> scan_token(s, pos) == (if starts_with(s, pos, "false"@) {
            Scan::Token(TokenView::Bool(false), pos + 5)
        } else {
            Scan::Fail(
                "error: a boolean false is expected "@ + s.subrange(pos, advance(s, pos, 5)),
            )
        }),
        s[pos] == 'n' ==> scan_token(s, pos) == (if starts_with(s, pos, "null"@) {
            Scan::Token(TokenView::Null, pos + 4)
        } else {
            Scan::Fail("error: a null value is expected "@ + s.subrange(pos, advance(s, pos, 4)))
        }),
{
    reveal_strlit("true");
    reveal_strlit("false");
    reveal_strlit("null");
    lemma_scan_word(
        s,
        pos,
        "true"@,
        TokenView::Bool(true),
        "error: a boolean true is expected "@,
    );
    lemma_scan_word(
        s,
        pos,
        "false"@,
        TokenView::Bool(false),
        "error: a boolean false is expected "@,
    );
    lemma_scan_word(s, pos, "null"@, TokenView::Null, "error: a null value is expected "@);
}

/// A decimal floating-point literal, alone in a document, gives exactly one
/// token: the number with that literal.
pub proof fn lemma_literal_is_one_number(t: Seq<char>)
    requires
        float_literal(t),
    ensures
        scan_all(t, 0) == Ok::<Seq<TokenView>, Seq<char>>(seq![TokenView::Number(t)]),
{
    lemma_float_literal_chars(t);
    lemma_number_end_is(t, 0, t.len() as int);
    assert(t.subrange(0, t.len() as int) == t);
    assert(scan_token(t, 0) == Scan::Token(TokenView::Number(t), t.len() as int));
    assert(scan_token(t, t.len() as int) == Scan::End);
    assert(scan_all(t, t.len() as int) == Ok::<Seq<TokenView>, Seq<char>>(Seq::empty()));
    assert(seq![TokenView::Number(t)] + Seq::<TokenView>::empty() == seq![TokenView::Number(t)]);
}

/// A run of number characters that is no decimal floating-point literal,
/// alone in a document, does not lex: the characters are all read, and
/// rejected together.
pub proof fn lemma_malformed_number_fails(t: Seq<char>)
    requires
        t.len() > 0,
        starts_number(t[0]),
        !is_white_space(t[0]),
        forall|k: int| 0 <= k < t.len() ==> in_number_class(#[trigger] t[k]),
        !float_literal(t),
    ensures
        scan_all(t, 0) == Err::<Seq<TokenView>, Seq<char>>("error: invalid float literal"@),
{
    lemma_number_end_is(t, 0, t.len() as int);
    assert(t.subrange(0, t.len() as int) == t);
    assert(scan_token(t, 0) == scan_number(t, 0));
}

/// A text between quotes, with `t.take(k)` read so far and nothing pending,
/// is read to its end where it holds neither a quote nor a backslash.
proof fn lemma_plain_string_from(t: Seq<char>, k: int)
    requires
        0 <= k <= t.len(),
        forall|i: int| 0 <= i < t.len() ==> #[trigger] t[i] != '"' && t[i] != '\\',
    ensures
        scan_string(seq!['"'] + t + seq!['"'], 1 + k, t.take(k), Seq::empty()) == Scan::Token(
            TokenView::String(t),
            t.len() as int + 2,
        ),
    decreases t.len() - k,
{
    let s = seq!['"'] + t + seq!['"'];
    let text = t.take(k);
    assert(decode_utf16(Seq::<u16>::empty()) == Some(Seq::<char>::empty()));
    assert(text + Seq::<char>::empty() == text);
    assert(flushed(text, Seq::empty()) == Some(text));
    if k == t.len() {
        assert(s[1 + k] == '"');
        assert(text == t);
    } else {
        assert(s[1 + k] == t[k]);
        assert(text.push(t[k]) == t.take(k + 1));
        lemma_plain_string_from(t, k + 1);
    }
}

/// A text that holds neither a quote nor a backslash, put between quotes,
/// gives exactly one token: the string with that text.
pub proof fn lemma_plain_string_is_one_token(t: Seq<char>)
    requires
        forall|i: int| 0 <= i < t.len() ==> #[trigger] t[i] != '"' && t[i] != '\\',
    ensures
        scan_all(seq!['"'] + t + seq!['"'], 0) == Ok::<Seq<TokenView>, Seq<char>>(
            seq![TokenView::String(t)],
        ),
{
    let s = seq!['"'] + t + seq!['"'];
    lemma_plain_string_from(t, 0);
    assert(t.take(0) == Seq::<char>::empty());
    assert(s[0] == '"');
    assert(scan_token(s, 0) == Scan::Token(TokenView::String(t), s.len() as int));
    assert(scan_token(s, s.len() as int) == Scan::End);
    assert(scan_all(s, s.len() as int) == Ok::<Seq<TokenView>, Seq<char>>(Seq::empty()));
    assert(seq![TokenView::String(t)] + Seq::<TokenView>::empty() == seq![TokenView::String(t)]);
}

/// A string scan fails where no closing quote follows: at the end of the
/// input, where the input ends in a backslash, and where every quote that
/// follows is taken by a backslash.
pub proof fn lemma_unclosed_string_fails(s: Seq<char>, pos: int, text: Seq<char>, units: Seq<u16>)
    requires
        0 <= pos,
        !has_closing_quote(s, pos),
    ensures
        scan_string(s, pos, text, units) is Fail,
{
    lemma_scan_string_outcome(s, pos, text, units);
}

/// No closing quote follows where no quote follows at all.
pub proof fn lemma_no_quote_never_closes(s: Seq<char>, pos: int)
    requires
        0 <= pos,
        forall|i: int| pos <= i < s.len() ==> #[trigger] s[i] != '"',
    ensures
        !has_closing_quote(s, pos),
    decreases s.len() - pos,
{
    if pos < s.len() {
        if s[pos] == '\\' {
            if pos + 1 < s.len() {
                lemma_no_quote_never_closes(s, pos + 2);
            }
        } else {
            lemma_no_quote_never_closes(s, pos + 1);
        }
    }
}

/// A document that opens a string which no quote closes does not lex.
pub proof fn lemma_unclosed_document_fails(s: Seq<char>)
    requires
        s.len() > 0,
        s[0] == '"',
        !has_closing_quote(s, 1),
    ensures
        scan_all(s, 0) is Err,
{
    lemma_unclosed_string_fails(s, 1, Seq::empty(), Seq::empty());
}

} // verus!
