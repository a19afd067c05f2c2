//! Lexical analysis: from the bytes of the source text to tokens with their
//! spans. Whitespace and comments separate tokens and are dropped.

use vstd::prelude::*;
use vstd::slice::slice_subrange;
use crate::literal::{literal_fault, literal_value, parse_int_literal};
use crate::token::{LexicalError, Span, Token};

verus! {

/// `String::push` appends one character to the end of the string.
pub assume_specification[ String::push ](s: &mut String, ch: char)
    ensures
        final(s)@ == old(s)@.push(ch),
;

/// Blank, tab, line feed or carriage return.
#[verifier::allow_in_spec]
pub fn is_space(b: u8) -> bool
    returns
        b == 32 || b == 9 || b == 10 || b == 13,
{
    b == 32 || b == 9 || b == 10 || b == 13
}

/// A decimal digit.
#[verifier::allow_in_spec]
pub fn is_digit(b: u8) -> bool
    returns
        48 <= b && b <= 57,
{
    48 <= b && b <= 57
}

/// A letter or the underscore: what an identifier may start with.
#[verifier::allow_in_spec]
pub fn is_alpha(b: u8) -> bool
    returns
        (65 <= b && b <= 90) || (97 <= b && b <= 122) || b == 95,
{
    (65 <= b && b <= 90) || (97 <= b && b <= 122) || b == 95
}

/// A letter, a digit or the underscore: what an identifier or a number goes
/// on with.
#[verifier::allow_in_spec]
pub fn is_word(b: u8) -> bool
    returns
        is_alpha(b) || is_digit(b),
{
    is_alpha(b) || is_digit(b)
}

/// How many bytes of whitespace stand at `pos`.
pub open spec fn space_run(s: Seq<u8>, pos: int) -> nat
    decreases s.len() - pos,
{
    if 0 <= pos < s.len() && is_space(s[pos]) {
        1 + space_run(s, pos + 1)
    } else {
        0
    }
}

/// How many word bytes stand at `pos`.
pub open spec fn word_run(s: Seq<u8>, pos: int) -> nat
    decreases s.len() - pos,
{
    if 0 <= pos < s.len() && is_word(s[pos]) {
        1 + word_run(s, pos + 1)
    } else {
        0
    }
}

/// How many bytes stand at `pos` before the line ends.
pub open spec fn line_run(s: Seq<u8>, pos: int) -> nat
    decreases s.len() - pos,
{
    if 0 <= pos < s.len() && s[pos] != 10 && s[pos] != 13 {
        1 + line_run(s, pos + 1)
    } else {
        0
    }
}

/// How many bytes the rest of a block comment takes from `pos` on, its
/// closing `*/` included; `None` where it is never closed.
pub open spec fn comment_run(s: Seq<u8>, pos: int) -> Option<nat>
    decreases s.len() - pos,
{
    if pos < 0 || pos + 1 >= s.len() {
        None
    } else if s[pos] == 42 && s[pos + 1] == 47 {
        Some(2)
    } else {
        match comment_run(s, pos + 1) {
            Some(n) => Some(n + 1),
            None => None,
        }
    }
}

/// The byte at `i`, or -1 past the end.
pub open spec fn peek(s: Seq<u8>, i: int) -> int {
    if 0 <= i < s.len() {
        s[i] as int
    } else {
        -1
    }
}

/// The operator or punctuation mark at `pos`, the longest that fits, with
/// its length.
pub open spec fn punct_at(s: Seq<u8>, pos: int) -> Option<(Token, nat)> {
    let a = peek(s, pos);
    let b = peek(s, pos + 1);
    let c = peek(s, pos + 2);
    if a == 43 {
        Some((Token::Add, 1))
    } else if a == 45 {
        Some((Token::Sub, 1))
    } else if a == 42 {
        Some((Token::Mul, 1))
    } else if a == 47 {
        Some((Token::Div, 1))
    } else if a == 37 {
        Some((Token::Mod, 1))
    } else if a == 94 {
        Some((Token::Pow, 1))
    } else if a == 126 {
        Some((Token::BitNot, 1))
    } else if a == 33 {
        if b == 61 {
            Some((Token::Neq, 2))
        } else {
            Some((Token::Not, 1))
        }
    } else if a == 38 {
        if b == 38 {
            Some((Token::And, 2))
        } else {
            Some((Token::BitAnd, 1))
        }
    } else if a == 124 {
        if b == 124 {
            Some((Token::Or, 2))
        } else {
            Some((Token::BitOr, 1))
        }
    } else if a == 60 {
        if b == 60 {
            Some((Token::ShiftL, 2))
        } else if b == 61 {
            Some((Token::Le, 2))
        } else {
            Some((Token::Lt, 1))
        }
    } else if a == 62 {
        if b == 62 {
            Some((Token::ShiftR, 2))
        } else if b == 61 {
            Some((Token::Ge, 2))
        } else {
            Some((Token::Gt, 1))
        }
    } else if a == 61 {
        if b == 61 {
            Some((Token::Eq, 2))
        } else {
            Some((Token::Assign, 1))
        }
    } else if a == 40 {
        Some((Token::LParen, 1))
    } else if a == 41 {
        Some((Token::RParen, 1))
    } else if a == 123 {
        Some((Token::LBrace, 1))
    } else if a == 125 {
        Some((Token::RBrace, 1))
    } else if a == 91 {
        Some((Token::LBracket, 1))
    } else if a == 93 {
        Some((Token::RBracket, 1))
    } else if a == 44 {
        Some((Token::Comma, 1))
    } else if a == 59 {
        Some((Token::SemiColon, 1))
    } else if a == 58 {
        if b == 58 {
            Some((Token::DoubleColon, 2))
        } else {
            Some((Token::Colon, 1))
        }
    } else if a == 46 {
        if b == 46 && c == 46 {
            Some((Token::Dots, 3))
        } else if b == 46 {
            Some((Token::Concat, 2))
        } else {
            Some((Token::Dot, 1))
        }
    } else {
        None
    }
}

/// The keyword that `text` spells, if any.
pub open spec fn keyword_of(text: Seq<u8>) -> Option<Token> {
    if text == seq![99u8, 111u8, 110u8, 115u8, 116u8] {
        Some(Token::Const)
    } else if text == seq![105u8, 102u8] {
        Some(Token::If)
    } else if text == seq![101u8, 108u8, 115u8, 101u8] {
        Some(Token::Else)
    } else if text == seq![119u8, 104u8, 105u8, 108u8, 101u8] {
        Some(Token::While)
    } else if text == seq![98u8, 114u8, 101u8, 97u8, 107u8] {
        Some(Token::Break)
    } else if text == seq![99u8, 111u8, 110u8, 116u8, 105u8, 110u8, 117u8, 101u8] {
        Some(Token::Continue)
    } else if text == seq![114u8, 101u8, 116u8, 117u8, 114u8, 110u8] {
        Some(Token::Return)
    } else if text == seq![105u8, 110u8, 116u8] {
        Some(Token::Int)
    } else if text == seq![118u8, 111u8, 105u8, 100u8] {
        Some(Token::Void)
    } else {
        None
    }
}

/// The characters that ASCII bytes stand for.
pub open spec fn as_chars(text: Seq<u8>) -> Seq<char> {
    Seq::new(text.len(), |i: int| text[i] as char)
}

/// What stands at one place of the source text.
pub enum Lexeme {
    /// Whitespace or a comment, up to the given offset.
    Skip(int),
    /// An identifier or keyword, up to the given offset.
    Word(int),
    /// A numeric literal, up to the given offset.
    Number(int),
    /// An operator or punctuation mark, up to the given offset.
    Punct(Token, int),
    /// A byte that starts nothing.
    Invalid,
}

/// What stands at `pos`, which lies inside `s`. A `/*` that is never closed
/// is a division sign followed by a star.
pub open spec fn lexeme_at(s: Seq<u8>, pos: int) -> Lexeme {
    let a = s[pos];
    if is_space(a) {
        Lexeme::Skip(pos + 1 + space_run(s, pos + 1))
    } else if a == 47 && peek(s, pos + 1) == 47 {
        Lexeme::Skip(pos + 2 + line_run(s, pos + 2))
    } else if a == 47 && peek(s, pos + 1) == 42 && comment_run(s, pos + 2) is Some {
        Lexeme::Skip(pos + 2 + comment_run(s, pos + 2)->0)
    } else if is_digit(a) {
        Lexeme::Number(pos + 1 + word_run(s, pos + 1))
    } else if is_alpha(a) {
        Lexeme::Word(pos + 1 + word_run(s, pos + 1))
    } else {
        match punct_at(s, pos) {
            Some((t, n)) => Lexeme::Punct(t, pos + n),
            None => Lexeme::Invalid,
        }
    }
}

/// The span from `start` to `end`.
pub open spec fn span_of(start: int, end: int) -> Span {
    Span { start: start as usize, end: end as usize }
}

/// Why the lexeme at `pos` is no token, if it is none: a byte that starts
/// nothing, or a number that is no literal, with its fault.
pub open spec fn lexeme_error(s: Seq<u8>, pos: int) -> Option<(LexicalError, Span)> {
    match lexeme_at(s, pos) {
        Lexeme::Invalid => Some((LexicalError::InvalidToken, span_of(pos, pos + 1))),
        Lexeme::Number(end) => match literal_fault(s.subrange(pos, end)) {
            Some(f) => Some((LexicalError::InvalidInteger(f), span_of(pos, end))),
            None => None,
        },
        _ => None,
    }
}

/// Where the lexeme at `pos` ends; `pos` itself for a byte that starts nothing.
pub open spec fn lexeme_end(s: Seq<u8>, pos: int) -> int {
    match lexeme_at(s, pos) {
        Lexeme::Skip(end) => end,
        Lexeme::Word(end) => end,
        Lexeme::Number(end) => end,
        Lexeme::Punct(_, end) => end,
        Lexeme::Invalid => pos,
    }
}

/// Whether `t` is the token that the lexeme at `pos` stands for. A word is a
/// keyword where it spells one and an identifier of the same characters
/// otherwise; a number has the value of its literal.
pub open spec fn yields(s: Seq<u8>, pos: int, t: Token) -> bool {
    match lexeme_at(s, pos) {
        Lexeme::Word(end) => match keyword_of(s.subrange(pos, end)) {
            Some(k) => t == k,
            None => t matches Token::Ident(name) && name@ == as_chars(s.subrange(pos, end)),
        },
        Lexeme::Number(end) => literal_value(s.subrange(pos, end)) matches Some(v) && v <= i64::MAX
            && t == Token::IntConst(v as i64),
        Lexeme::Punct(k, _) => t == k,
        _ => false,
    }
}

/// The first thing from `pos` on that is no token, with its span.
pub open spec fn first_error(s: Seq<u8>, pos: int) -> Option<(LexicalError, Span)>
    decreases
        (if pos < s.len() {
            s.len() - pos
        } else {
            0
        }),
{
    if pos < 0 || pos >= s.len() {
        None
    } else if lexeme_error(s, pos) is Some {
        lexeme_error(s, pos)
    } else if lexeme_end(s, pos) > pos {
        first_error(s, lexeme_end(s, pos))
    } else {
        None
    }
}

/// Whether `toks` are the tokens of `s` from `pos` on, each with the span of
/// its lexeme, in the order of the text.
pub open spec fn lexes(s: Seq<u8>, pos: int, toks: Seq<(Token, Span)>) -> bool
    decreases
        (if pos < s.len() {
            s.len() - pos
        } else {
            0
        }),
{
    if pos < 0 || pos >= s.len() {
        toks.len() == 0
    } else if lexeme_end(s, pos) <= pos {
        false
    } else if lexeme_at(s, pos) is Skip {
        lexes(s, lexeme_end(s, pos), toks)
    } else {
        &&& toks.len() > 0
        &&& yields(s, pos, toks[0].0)
        &&& toks[0].1 == span_of(pos, lexeme_end(s, pos))
        &&& lexes(s, lexeme_end(s, pos), toks.drop_first())
    }
}

/// Where the whitespace at `pos` ends.
fn scan_spaces(src: &[u8], pos: usize) -> (end: usize)
    requires
        pos <= src.len(),
    ensures
        end == pos + space_run(src@, pos as int),
        end <= src.len(),
{
    let mut i: usize = pos;
    while i < src.len() && is_space(src[i])
        invariant
            pos <= i <= src.len(),
            pos + space_run(src@, pos as int) == i + space_run(src@, i as int),
        decreases src.len() - i,
    {
        i = i + 1;
    }
    i
}

/// Where the word bytes at `pos` end.
fn scan_word(src: &[u8], pos: usize) -> (end: usize)
    requires
        pos <= src.len(),
    ensures
        end == pos + word_run(src@, pos as int),
        end <= src.len(),
{
    let mut i: usize = pos;
    while i < src.len() && is_word(src[i])
        invariant
            pos <= i <= src.len(),
            pos + word_run(src@, pos as int) == i + word_run(src@, i as int),
        decreases src.len() - i,
    {
        i = i + 1;
    }
    i
}

/// Where the line that `pos` lies in ends.
fn scan_line(src: &[u8], pos: usize) -> (end: usize)
    requires
        pos <= src.len(),
    ensures
        end == pos + line_run(src@, pos as int),
        end <= src.len(),
{
    let mut i: usize = pos;
    while i < src.len() && src[i] != 10 && src[i] != 13
        invariant
            pos <= i <= src.len(),
            pos + line_run(src@, pos as int) == i + line_run(src@, i as int),
        decreases src.len() - i,
    {
        i = i + 1;
    }
    i
}

/// Where the block comment whose body starts at `pos` ends, if it does.
fn scan_comment(src: &[u8], pos: usize) -> (end: Option<usize>)
    requires
        pos <= src.len(),
    ensures
        match end {
            Some(e) => comment_run(src@, pos as int) == Some((e - pos) as nat) && pos < e
                <= src.len(),
            None => comment_run(src@, pos as int) is None,
        },
{
    let mut i: usize = pos;
    while src.len() - i >= 2
        invariant
            pos <= i <= src.len(),
            comment_run(src@, pos as int) == match comment_run(src@, i as int) {
                Some(n) => Some((n + (i - pos)) as nat),
                None => None::<nat>,
            },
        decreases src.len() - i,
    {
        if src[i] == 42 && src[i + 1] == 47 {
            return Some(i + 2);
        }
        i = i + 1;
    }
    None
}

/// The byte at `i`, or -1 past the end.
fn byte_at(src: &[u8], i: usize) -> (b: i16)
    ensures
        b == peek(src@, i as int),
{
    if i < src.len() {
        src[i] as i16
    } else {
        -1
    }
}

/// The operator or punctuation mark at `pos`, with where it ends.
fn scan_punct(src: &[u8], pos: usize) -> (r: Option<(Token, usize)>)
    requires
        pos < src.len(),
    ensures
        match r {
            Some((t, end)) => punct_at(src@, pos as int) == Some((t, (end - pos) as nat)) && pos
                < end <= src.len(),
            None => punct_at(src@, pos as int) is None,
        },
{
    let a = src[pos];
    let b = byte_at(src, pos + 1);
    let c = if pos + 1 < src.len() {
        byte_at(src, pos + 2)
    } else {
        -1
    };
    let two = pos + 1 < src.len();
    let (t, n): (Token, usize) = if a == 43 {
        (Token::Add, 1)
    } else if a == 45 {
        (Token::Sub, 1)
    } else if a == 42 {
        (Token::Mul, 1)
    } else if a == 47 {
        (Token::Div, 1)
    } else if a == 37 {
        (Token::Mod, 1)
    } else if a == 94 {
        (Token::Pow, 1)
    } else if a == 126 {
        (Token::BitNot, 1)
    } else if a == 33 {
        if b == 61 {
            (Token::Neq, 2)
        } else {
            (Token::Not, 1)
        }
    } else if a == 38 {
        if b == 38 {
            (Token::And, 2)
        } else {
            (Token::BitAnd, 1)
        }
    } else if a == 124 {
        if b == 124 {
            (Token::Or, 2)
        } else {
            (Token::BitOr, 1)
        }
    } else if a == 60 {
        if b == 60 {
            (Token::ShiftL, 2)
        } else if b == 61 {
            (Token::Le, 2)
        } else {
            (Token::Lt, 1)
        }
    } else if a == 62 {
        if b == 62 {
            (Token::ShiftR, 2)
        } else if b == 61 {
            (Token::Ge, 2)
        } else {
            (Token::Gt, 1)
        }
    } else if a == 61 {
        if b == 61 {
            (Token::Eq, 2)
        } else {
            (Token::Assign, 1)
        }
    } else if a == 40 {
        (Token::LParen, 1)
    } else if a == 41 {
        (Token::RParen, 1)
    } else if a == 123 {
        (Token::LBrace, 1)
    } else if a == 125 {
        (Token::RBrace, 1)
    } else if a == 91 {
        (Token::LBracket, 1)
    } else if a == 93 {
        (Token::RBracket, 1)
    } else if a == 44 {
        (Token::Comma, 1)
    } else if a == 59 {
        (Token::SemiColon, 1)
    } else if a == 58 {
        if b == 58 {
            (Token::DoubleColon, 2)
        } else {
            (Token::Colon, 1)
        }
    } else if a == 46 {
        if b == 46 && c == 46 {
            (Token::Dots, 3)
        } else if b == 46 {
            (Token::Concat, 2)
        } else {
            (Token::Dot, 1)
        }
    } else {
        return None;
    };
    Some((t, pos + n))
}

/// Whether two byte strings are the same.
fn bytes_eq(a: &[u8], b: &[u8]) -> (same: bool)
    ensures
        same == (a@ == b@),
{
    if a.len() != b.len() {
        return false;
    }
    let mut i: usize = 0;
    while i < a.len()
        invariant
            a.len() == b.len(),
            i <= a.len(),
            a@.subrange(0, i as int) == b@.subrange(0, i as int),
        decreases a.len() - i,
    {
        if a[i] != b[i] {
            return false;
        }
        proof {
            assert(a@.subrange(0, i + 1) =~= a@.subrange(0, i as int).push(a@[i as int]));
            assert(b@.subrange(0, i + 1) =~= b@.subrange(0, i as int).push(b@[i as int]));
        }
        i = i + 1;
    }
    proof {
        assert(a@.subrange(0, i as int) =~= a@);
        assert(b@.subrange(0, i as int) =~= b@);
    }
    true
}

/// The keyword that `text` spells, if any.
fn keyword(text: &[u8]) -> (k: Option<Token>)
    ensures
        k == keyword_of(text@),
{
    let kw_const: [u8; 5] = [99, 111, 110, 115, 116];
    let kw_if: [u8; 2] = [105, 102];
    let kw_else: [u8; 4] = [101, 108, 115, 101];
    let kw_while: [u8; 5] = [119, 104, 105, 108, 101];
    let kw_break: [u8; 5] = [98, 114, 101, 97, 107];
    let kw_continue: [u8; 8] = [99, 111, 110, 116, 105, 110, 117, 101];
    let kw_return: [u8; 6] = [114, 101, 116, 117, 114, 110];
    let kw_int: [u8; 3] = [105, 110, 116];
    let kw_void: [u8; 4] = [118, 111, 105, 100];
    proof {
        assert(kw_const@ =~= seq![99u8, 111u8, 110u8, 115u8, 116u8]);
        assert(kw_if@ =~= seq![105u8, 102u8]);
        assert(kw_else@ =~= seq![101u8, 108u8, 115u8, 101u8]);
        assert(kw_while@ =~= seq![119u8, 104u8, 105u8, 108u8, 101u8]);
        assert(kw_break@ =~= seq![98u8, 114u8, 101u8, 97u8, 107u8]);
        assert(kw_continue@ =~= seq![99u8, 111u8, 110u8, 116u8, 105u8, 110u8, 117u8, 101u8]);
        assert(kw_return@ =~= seq![114u8, 101u8, 116u8, 117u8, 114u8, 110u8]);
        assert(kw_int@ =~= seq![105u8, 110u8, 116u8]);
        assert(kw_void@ =~= seq![118u8, 111u8, 105u8, 100u8]);
    }
    if bytes_eq(text, kw_const.as_slice()) {
        Some(Token::Const)
    } else if bytes_eq(text, kw_if.as_slice()) {
        Some(Token::If)
    } else if bytes_eq(text, kw_else.as_slice()) {
        Some(Token::Else)
    } else if bytes_eq(text, kw_while.as_slice()) {
        Some(Token::While)
    } else if bytes_eq(text, kw_break.as_slice()) {
        Some(Token::Break)
    } else if bytes_eq(text, kw_continue.as_slice()) {
        Some(Token::Continue)
    } else if bytes_eq(text, kw_return.as_slice()) {
        Some(Token::Return)
    } else if bytes_eq(text, kw_int.as_slice()) {
        Some(Token::Int)
    } else if bytes_eq(text, kw_void.as_slice()) {
        Some(Token::Void)
    } else {
        None
    }
}

/// The string of the characters that the ASCII bytes `text` stand for.
fn ascii_string(text: &[u8]) -> (name: String)
    ensures
        name@ == as_chars(text@),
{
    let mut name = String::new();
    let mut i: usize = 0;
    while i < text.len()
        invariant
            i <= text.len(),
            name@ == as_chars(text@.subrange(0, i as int)),
        decreases text.len() - i,
    {
        name.push(text[i] as char);
        proof {
            assert(as_chars(text@.subrange(0, i + 1)) =~= as_chars(
                text@.subrange(0, i as int),
            ).push(text@[i as int] as char));
        }
        i = i + 1;
    }
    proof {
        assert(text@.subrange(0, i as int) =~= text@);
    }
    name
}

/// Whether `t` is one of the three kinds that name what the lexer skips.
pub open spec fn is_trivia(t: Token) -> bool {
    t is Whitespace || t is SingleLineComment || t is MultipleLinesComment
}

/// Reads the lexeme at `pos`: its token, or nothing for whitespace and
/// comments, and where it ends.
fn scan(src: &[u8], pos: usize) -> (r: Result<(Option<Token>, usize), (LexicalError, Span)>)
    requires
        pos < src.len(),
    ensures
        match r {
            Ok((t, end)) => {
                &&& lexeme_error(src@, pos as int) is None
                &&& end == lexeme_end(src@, pos as int)
                &&& pos < end <= src.len()
                &&& match t {
                    Some(t) => !(lexeme_at(src@, pos as int) is Skip) && yields(
                        src@,
                        pos as int,
                        t,
                    ) && !is_trivia(t),
                    None => lexeme_at(src@, pos as int) is Skip,
                }
            },
            Err(e) => lexeme_error(src@, pos as int) == Some(e),
        },
{
    let a = src[pos];
    if is_space(a) {
        return Ok((None, scan_spaces(src, pos + 1)));
    }
    if a == 47 && byte_at(src, pos + 1) == 47 {
        return Ok((None, scan_line(src, pos + 2)));
    }
    if a == 47 && byte_at(src, pos + 1) == 42 {
        match scan_comment(src, pos + 2) {
            Some(end) => {
                return Ok((None, end));
            },
            None => {},
        }
    }
    if is_digit(a) {
        let end = scan_word(src, pos + 1);
        return match parse_int_literal(slice_subrange(src, pos, end)) {
            Ok(v) => Ok((Some(Token::IntConst(v)), end)),
            Err(e) => Err((e, Span { start: pos, end })),
        };
    }
    if is_alpha(a) {
        let end = scan_word(src, pos + 1);
        let text = slice_subrange(src, pos, end);
        return match keyword(text) {
            Some(k) => Ok((Some(k), end)),
            None => Ok((Some(Token::Ident(ascii_string(text))), end)),
        };
    }
    match scan_punct(src, pos) {
        Some((t, end)) => Ok((Some(t), end)),
        None => Err((LexicalError::InvalidToken, Span { start: pos, end: pos + 1 })),
    }
}

/// Splits source text into its tokens, each with the span of bytes it was
/// read from, in the order of the text. Whitespace, `//` comments up to the
/// end of the line and `/* */` comments are dropped. Fails at the first byte
/// that starts no token and at the first number that is no literal of its
/// radix or does not fit in 64 bits, with the span of the offender.
pub fn tokenize(src: &[u8]) -> (r: Result<Vec<(Token, Span)>, (LexicalError, Span)>)
    ensures
        match r {
            Ok(toks) => {
                &&& first_error(src@, 0) is None
                &&& lexes(src@, 0, toks@)
                &&& forall|i: int| 0 <= i < toks.len() ==> !is_trivia(#[trigger] toks[i].0)
            },
            Err(e) => first_error(src@, 0) == Some(e),
        },
{
    let mut toks: Vec<(Token, Span)> = Vec::new();
    let mut pos: usize = 0;
    proof {
        assert forall|rest: Seq<(Token, Span)>| #[trigger]
            lexes(src@, 0, rest) implies lexes(src@, 0, toks@ + rest) by {
            assert(toks@ + rest =~= rest);
        }
    }
    while pos < src.len()
        invariant
            pos <= src.len(),
            first_error(src@, 0) == first_error(src@, pos as int),
            forall|rest: Seq<(Token, Span)>| #[trigger]
                lexes(src@, pos as int, rest) ==> lexes(src@, 0, toks@ + rest),
            forall|i: int| 0 <= i < toks.len() ==> !is_trivia(#[trigger] toks[i].0),
        decreases src.len() - pos,
    {
        match scan(src, pos) {
            Err(e) => {
                return Err(e);
            },
            Ok((None, end)) => {
                proof {
                    assert forall|rest: Seq<(Token, Span)>| #[trigger]
                        lexes(src@, end as int, rest) implies lexes(src@, 0, toks@ + rest) by {
                        assert(lexes(src@, pos as int, rest));
                    }
                }
                pos = end;
            },
            Ok((Some(t), end)) => {
                let ghost before = toks@;
                let entry = (t, Span { start: pos, end });
                toks.push(entry);
                proof {
                    assert forall|rest: Seq<(Token, Span)>| #[trigger]
                        lexes(src@, end as int, rest) implies lexes(src@, 0, toks@ + rest) by {
                        let longer = seq![entry] + rest;
                        assert(longer.drop_first() =~= rest);
                        assert(longer[0] == entry);
                        assert(lexes(src@, pos as int, longer));
                        assert(before + longer =~= toks@ + rest);
                    }
                }
                pos = end;
            },
        }
    }
    proof {
        assert(lexes(src@, pos as int, Seq::empty()));
        assert(toks@ + Seq::empty() =~= toks@);
    }
    Ok(toks)
}

} // verus!
