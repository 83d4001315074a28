//! The tokenizer for the query language: names, numbers, strings with
//! escapes, punctuators, comments, and insignificant separators.

use vstd::prelude::*;
use vstd::string::StrSliceExecFns;
use vstd::string::StringExecFns;

use crate::sourcepos::SourcePosition;
use crate::sourcepos::Spanning;

verus! {

/// One lexical token. Number and string tokens carry their decoded value;
/// a float carries its source text.
#[derive(PartialEq, Eq, Debug)]
pub enum Token {
    Name(String),
    IntLit(i32),
    FloatLit(String),
    StrLit(String),
    ExclamationMark,
    Dollar,
    ParenOpen,
    ParenClose,
    Ellipsis,
    Colon,
    Equals,
    At,
    BracketOpen,
    BracketClose,
    CurlyOpen,
    CurlyClose,
    Pipe,
    Eof,
}

/// The kind of a token, without its payload: what parse errors report.
#[derive(Clone, Copy, PartialEq, Eq, Structural, Debug)]
pub enum TokenKind {
    Name,
    IntLit,
    FloatLit,
    StrLit,
    ExclamationMark,
    Dollar,
    ParenOpen,
    ParenClose,
    Ellipsis,
    Colon,
    Equals,
    At,
    BracketOpen,
    BracketClose,
    CurlyOpen,
    CurlyClose,
    Pipe,
    Eof,
}

impl Token {
    /// The kind of this token.
    pub open spec fn spec_kind(self) -> TokenKind {
        match self {
            Token::Name(_) => TokenKind::Name,
            Token::IntLit(_) => TokenKind::IntLit,
            Token::FloatLit(_) => TokenKind::FloatLit,
            Token::StrLit(_) => TokenKind::StrLit,
            Token::ExclamationMark => TokenKind::ExclamationMark,
            Token::Dollar => TokenKind::Dollar,
            Token::ParenOpen => TokenKind::ParenOpen,
            Token::ParenClose => TokenKind::ParenClose,
            Token::Ellipsis => TokenKind::Ellipsis,
            Token::Colon => TokenKind::Colon,
            Token::Equals => TokenKind::Equals,
            Token::At => TokenKind::At,
            Token::BracketOpen => TokenKind::BracketOpen,
            Token::BracketClose => TokenKind::BracketClose,
            Token::CurlyOpen => TokenKind::CurlyOpen,
            Token::CurlyClose => TokenKind::CurlyClose,
            Token::Pipe => TokenKind::Pipe,
            Token::Eof => TokenKind::Eof,
        }
    }

    /// The kind of this token.
    pub fn kind(&self) -> (r: TokenKind)
        ensures
            r == self.spec_kind(),
    {
        match self {
            Token::Name(_) => TokenKind::Name,
            Token::IntLit(_) => TokenKind::IntLit,
            Token::FloatLit(_) => TokenKind::FloatLit,
            Token::StrLit(_) => TokenKind::StrLit,
            Token::ExclamationMark => TokenKind::ExclamationMark,
            Token::Dollar => TokenKind::Dollar,
            Token::ParenOpen => TokenKind::ParenOpen,
            Token::ParenClose => TokenKind::ParenClose,
            Token::Ellipsis => TokenKind::Ellipsis,
            Token::Colon => TokenKind::Colon,
            Token::Equals => TokenKind::Equals,
            Token::At => TokenKind::At,
            Token::BracketOpen => TokenKind::BracketOpen,
            Token::BracketClose => TokenKind::BracketClose,
            Token::CurlyOpen => TokenKind::CurlyOpen,
            Token::CurlyClose => TokenKind::CurlyClose,
            Token::Pipe => TokenKind::Pipe,
            Token::Eof => TokenKind::Eof,
        }
    }
}

/// A well-formed token stream: non-empty, with exactly one end-of-file
/// token, which stands last.
pub open spec fn wf_tokens(toks: Seq<Spanning<Token>>) -> bool {
    &&& toks.len() >= 1
    &&& toks.last().item == Token::Eof
    &&& forall|i: int| 0 <= i < toks.len() - 1 ==> (#[trigger] toks[i].item) != Token::Eof
}

/// What went wrong while reading a token.
#[derive(Clone, Copy, PartialEq, Eq, Debug)]
pub enum LexError {
    UnknownCharacter,
    UnexpectedCharacter,
    UnterminatedString,
    UnknownEscapeSequence,
    InvalidNumber,
}

/// What the stream promises of each token: its span lies inside the
/// source with the start not past the end, and a name token's text is
/// exactly the source slice its span covers.
pub open spec fn spec_token_wf(src: Seq<char>, t: Spanning<Token>) -> bool {
    &&& t.start.index <= t.end.index <= src.len()
    &&& (t.item matches Token::Name(n) ==> n@ == src.subrange(
        t.start.index as int,
        t.end.index as int,
    ))
}

/// A position is well formed for a source of `len` characters when its
/// index stays inside the source and its line and column never run ahead
/// of the index.
pub open spec fn wf_pos(p: SourcePosition, len: nat) -> bool {
    p.index <= len && p.line <= p.index && p.col <= p.index
}

/// Whether `c` may start a name: a letter or an underscore.
pub open spec fn spec_is_name_start(c: char) -> bool {
    c == '_' || ('a' <= c && c <= 'z') || ('A' <= c && c <= 'Z')
}

/// Whether `c` may continue a name: a letter, a digit, or an underscore.
pub open spec fn spec_is_name_cont(c: char) -> bool {
    spec_is_name_start(c) || ('0' <= c && c <= '9')
}

/// Whether `c` is a decimal digit.
pub open spec fn spec_is_digit(c: char) -> bool {
    '0' <= c && c <= '9'
}

/// The exclusive upper bound of a hexadecimal accumulator that has read
/// `k` digits.
pub open spec fn hex_bound(k: int) -> int {
    if k <= 0 {
        1
    } else if k == 1 {
        16
    } else if k == 2 {
        256
    } else if k == 3 {
        4096
    } else {
        65536
    }
}

fn is_name_start(c: char) -> (r: bool)
    ensures
        r == spec_is_name_start(c),
{
    c == '_' || ('a' <= c && c <= 'z') || ('A' <= c && c <= 'Z')
}

fn is_name_cont(c: char) -> (r: bool)
    ensures
        r == spec_is_name_cont(c),
{
    is_name_start(c) || ('0' <= c && c <= '9')
}

fn is_digit(c: char) -> (r: bool)
    ensures
        r == spec_is_digit(c),
{
    '0' <= c && c <= '9'
}

/// Step over characters as long as they satisfy name continuation,
/// starting at `pos`; used for names after their first character.
#[verifier::loop_isolation(false)]
fn scan_name_end(s: &str, len: usize, pos: SourcePosition) -> (r: SourcePosition)
    requires
        len == s@.len(),
        wf_pos(pos, len as nat),
        pos.index < len,
    ensures
        wf_pos(r, len as nat),
        pos.index < r.index,
{
    let first = s.get_char(pos.index);
    let mut cur = pos.advanced_by(first);
    loop
        invariant
            wf_pos(cur, len as nat),
            pos.index < cur.index,
        decreases len - cur.index,
    {
        if cur.index >= len {
            break;
        }
        let c = s.get_char(cur.index);
        if !is_name_cont(c) {
            break;
        }
        cur = cur.advanced_by(c);
    }
    cur
}

/// The decoded body of a double-quoted string, read from just after the
/// opening quote; yields the value and the position after the closing
/// quote.
#[verifier::loop_isolation(false)]
fn scan_string_body(s: &str, len: usize, pos: SourcePosition, start: SourcePosition) -> (r: Result<
    (String, SourcePosition),
    Spanning<LexError>,
>)
    requires
        len == s@.len(),
        wf_pos(pos, len as nat),
    ensures
        r matches Ok(p) ==> wf_pos(p.1, len as nat) && pos.index < p.1.index,
{
    let mut cur = pos;
    let mut acc = String::new();
    loop
        invariant
            len == s@.len(),
            wf_pos(cur, len as nat),
            pos.index <= cur.index,
        decreases len - cur.index,
    {
        if cur.index >= len {
            return Err(Spanning::zero_width(LexError::UnterminatedString, start));
        }
        let iter_start = cur;
        let c = s.get_char(cur.index);
        if c == '"' {
            let done = cur.advanced_by(c);
            return Ok((acc, done));
        } else if c == '\n' || c == '\r' {
            return Err(Spanning::zero_width(LexError::UnterminatedString, start));
        } else if c == '\\' {
            cur = cur.advanced_by(c);
            if cur.index >= len {
                return Err(Spanning::zero_width(LexError::UnterminatedString, start));
            }
            let e = s.get_char(cur.index);
            cur = cur.advanced_by(e);
            if e == '"' {
                acc.push('"');
            } else if e == '\\' {
                acc.push('\\');
            } else if e == '/' {
                acc.push('/');
            } else if e == 'n' {
                acc.push('\n');
            } else if e == 'r' {
                acc.push('\r');
            } else if e == 't' {
                acc.push('\t');
            } else if e == 'b' {
                acc.push('\u{0008}');
            } else if e == 'f' {
                acc.push('\u{000C}');
            } else if e == 'u' {
                let mut code: u32 = 0;
                let mut k: usize = 0;
                while k < 4
                    invariant
                        wf_pos(cur, len as nat),
                        pos.index <= cur.index,
                        iter_start.index < cur.index,
                        k <= 4,
                        code < hex_bound(k as int),
                    decreases 4 - k,
                {
                    if cur.index >= len {
                        return Err(Spanning::zero_width(LexError::UnterminatedString, start));
                    }
                    let h = s.get_char(cur.index);
                    let d: u32 = if '0' <= h && h <= '9' {
                        h as u32 - '0' as u32
                    } else if 'a' <= h && h <= 'f' {
                        h as u32 - 'a' as u32 + 10
                    } else if 'A' <= h && h <= 'F' {
                        h as u32 - 'A' as u32 + 10
                    } else {
                        return Err(Spanning::zero_width(LexError::UnknownEscapeSequence, start));
                    };
                    cur = cur.advanced_by(h);
                    code = code * 16 + d;
                    k = k + 1;
                }
                match char::from_u32(code) {
                    Option::Some(u) => acc.push(u),
                    Option::None => {
                        return Err(Spanning::zero_width(LexError::UnknownEscapeSequence, start));
                    },
                }
            } else {
                return Err(Spanning::zero_width(LexError::UnknownEscapeSequence, start));
            }
        } else {
            cur = cur.advanced_by(c);
            acc.push(c);
        }
    }
}

/// A number token read at `pos`: an optionally signed integer, or a float
/// once a fraction or exponent part appears. Integers must fit an `i32`.
#[verifier::loop_isolation(false)]
fn scan_number(s: &str, len: usize, pos: SourcePosition) -> (r: Result<
    (Token, SourcePosition),
    Spanning<LexError>,
>)
    requires
        len == s@.len(),
        wf_pos(pos, len as nat),
        pos.index < len,
    ensures
        r matches Ok(p) ==> wf_pos(p.1, len as nat) && pos.index < p.1.index && (
        p.0 matches Token::IntLit(_) || p.0 matches Token::FloatLit(_)),
{
    let mut cur = pos;
    let mut negative = false;
    let first = s.get_char(cur.index);
    if first == '-' {
        negative = true;
        cur = cur.advanced_by(first);
    }
    if cur.index >= len || !is_digit(s.get_char(cur.index)) {
        return Err(Spanning::zero_width(LexError::InvalidNumber, pos));
    }
    let d0 = s.get_char(cur.index);
    let mut magnitude: u64 = (d0 as u32 - '0' as u32) as u64;
    cur = cur.advanced_by(d0);
    let mut is_float = false;
    loop
        invariant
            wf_pos(cur, len as nat),
            pos.index < cur.index,
            magnitude <= 42949672959u64,
        decreases len - cur.index,
    {
        if cur.index >= len {
            break;
        }
        let c = s.get_char(cur.index);
        if !is_digit(c) {
            break;
        }
        if magnitude > 0xFFFF_FFFFu64 {
            return Err(Spanning::zero_width(LexError::InvalidNumber, pos));
        }
        magnitude = magnitude * 10 + ((c as u32 - '0' as u32) as u64);
        cur = cur.advanced_by(c);
    }
    if cur.index < len && s.get_char(cur.index) == '.' {
        is_float = true;
        cur = cur.advanced_by('.');
        if cur.index >= len || !is_digit(s.get_char(cur.index)) {
            return Err(Spanning::zero_width(LexError::InvalidNumber, pos));
        }
        loop
            invariant
                wf_pos(cur, len as nat),
                pos.index < cur.index,
            decreases len - cur.index,
        {
            if cur.index >= len {
                break;
            }
            let c = s.get_char(cur.index);
            if !is_digit(c) {
                break;
            }
            cur = cur.advanced_by(c);
        }
    }
    if cur.index < len && {
        let c = s.get_char(cur.index);
        c == 'e' || c == 'E'
    } {
        is_float = true;
        cur = cur.advanced_by(s.get_char(cur.index));
        if cur.index < len && {
            let c = s.get_char(cur.index);
            c == '+' || c == '-'
        } {
            cur = cur.advanced_by(s.get_char(cur.index));
        }
        if cur.index >= len || !is_digit(s.get_char(cur.index)) {
            return Err(Spanning::zero_width(LexError::InvalidNumber, pos));
        }
        loop
            invariant
                wf_pos(cur, len as nat),
                pos.index < cur.index,
            decreases len - cur.index,
        {
            if cur.index >= len {
                break;
            }
            let c = s.get_char(cur.index);
            if !is_digit(c) {
                break;
            }
            cur = cur.advanced_by(c);
        }
    }
    if is_float {
        let text = s.substring_char(pos.index, cur.index).to_owned();
        Ok((Token::FloatLit(text), cur))
    } else {
        if negative {
            if magnitude > 0x8000_0000u64 {
                return Err(Spanning::zero_width(LexError::InvalidNumber, pos));
            }
            if magnitude == 0x8000_0000u64 {
                return Ok((Token::IntLit(i32::MIN), cur));
            }
            Ok((Token::IntLit(-(magnitude as i32)), cur))
        } else {
            if magnitude > 0x7FFF_FFFFu64 {
                return Err(Spanning::zero_width(LexError::InvalidNumber, pos));
            }
            Ok((Token::IntLit(magnitude as i32), cur))
        }
    }
}

/// The token stream of a whole source: every token carries its span, and
/// the stream always ends with a single end-of-file token.
#[verifier::loop_isolation(false)]
pub fn tokenize(s: &str) -> (r: Result<Vec<Spanning<Token>>, Spanning<LexError>>)
    ensures
        r matches Ok(toks) ==> wf_tokens(toks@) && (forall|k: int|
            0 <= k < toks@.len() ==> spec_token_wf(s@, #[trigger] toks@[k]))
            && toks@.last().start.index == s@.len() && (forall|k: int|
            0 <= k < toks@.len() - 1 ==> (#[trigger] toks@[k]).start.index < toks@[k].end.index
                && toks@[k].end.index <= toks@[k + 1].start.index),
{
    let len = s.unicode_len();
    let mut toks: Vec<Spanning<Token>> = Vec::new();
    let mut pos = SourcePosition::origin();
    while pos.index < len
        invariant
            len == s@.len(),
            wf_pos(pos, len as nat),
            forall|i: int| 0 <= i < toks@.len() ==> (#[trigger] toks@[i].item) != Token::Eof,
            forall|k: int| 0 <= k < toks@.len() ==> spec_token_wf(s@, #[trigger] toks@[k]),
            toks@.len() > 0 ==> toks@.last().end.index <= pos.index,
            forall|k: int|
                0 <= k < toks@.len() - 1 ==> (#[trigger] toks@[k]).start.index < toks@[
                k].end.index && toks@[k].end.index <= toks@[k + 1].start.index,
            forall|k: int|
                0 <= k < toks@.len() ==> (#[trigger] toks@[k]).start.index < toks@[k].end.index,
        decreases len - pos.index,
    {
        let c = s.get_char(pos.index);
        if c == ' ' || c == '\t' || c == '\n' || c == '\r' || c == ',' {
            pos = pos.advanced_by(c);
        } else if c == '#' {
            let comment_start = pos;
            pos = pos.advanced_by(c);
            loop
                invariant
                    wf_pos(pos, len as nat),
                    comment_start.index < pos.index,
                decreases len - pos.index,
            {
                if pos.index >= len {
                    break;
                }
                let h = s.get_char(pos.index);
                if h == '\n' {
                    break;
                }
                pos = pos.advanced_by(h);
            }
        } else if c == '!' || c == '$' || c == '(' || c == ')' || c == ':' || c == '=' || c == '@'
            || c == '[' || c == ']' || c == '{' || c == '}' || c == '|' {
            let next = pos.advanced_by(c);
            let t = if c == '!' {
                Token::ExclamationMark
            } else if c == '$' {
                Token::Dollar
            } else if c == '(' {
                Token::ParenOpen
            } else if c == ')' {
                Token::ParenClose
            } else if c == ':' {
                Token::Colon
            } else if c == '=' {
                Token::Equals
            } else if c == '@' {
                Token::At
            } else if c == '[' {
                Token::BracketOpen
            } else if c == ']' {
                Token::BracketClose
            } else if c == '{' {
                Token::CurlyOpen
            } else if c == '}' {
                Token::CurlyClose
            } else {
                Token::Pipe
            };
            toks.push(Spanning::new(t, pos, next));
            pos = next;
        } else if c == '.' {
            if len - pos.index >= 3 && s.get_char(pos.index + 1) == '.' && s.get_char(
                pos.index + 2,
            ) == '.' {
                let mut next = pos.advanced_by('.');
                next = next.advanced_by('.');
                next = next.advanced_by('.');
                toks.push(Spanning::new(Token::Ellipsis, pos, next));
                pos = next;
            } else {
                return Err(Spanning::zero_width(LexError::UnexpectedCharacter, pos));
            }
        } else if c == '"' {
            let body_start = pos.advanced_by(c);
            match scan_string_body(s, len, body_start, pos) {
                Ok((value, next)) => {
                    toks.push(Spanning::new(Token::StrLit(value), pos, next));
                    pos = next;
                },
                Err(e) => {
                    return Err(e);
                },
            }
        } else if is_name_start(c) {
            let end = scan_name_end(s, len, pos);
            let name = s.substring_char(pos.index, end.index).to_owned();
            toks.push(Spanning::new(Token::Name(name), pos, end));
            pos = end;
        } else if c == '-' || is_digit(c) {
            match scan_number(s, len, pos) {
                Ok((t, next)) => {
                    toks.push(Spanning::new(t, pos, next));
                    pos = next;
                },
                Err(e) => {
                    return Err(e);
                },
            }
        } else {
            return Err(Spanning::zero_width(LexError::UnknownCharacter, pos));
        }
    }
    toks.push(Spanning::zero_width(Token::Eof, pos));
    Ok(toks)
}

} // verus!
