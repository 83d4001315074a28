//! The recursive-descent parser: turns a token stream into a document,
//! failing fast with one located error.

use vstd::prelude::*;

use crate::ast::Definition;
use crate::ast::lemma_wf_selections_iff;
use crate::ast::wf_definition;
use crate::ast::wf_document;
use crate::ast::wf_selection;
use crate::ast::wf_selections;
use crate::ast::Document;
use crate::ast::Field;
use crate::ast::Fragment;
use crate::ast::FragmentSpread;
use crate::ast::InlineFragment;
use crate::ast::InputValue;
use crate::ast::Operation;
use crate::ast::OperationType;
use crate::ast::Selection;
use crate::ast::TypeRef;
use crate::ast::VariableDefinition;
use crate::lexer::LexError;
use crate::lexer::Token;
use crate::lexer::TokenKind;
use crate::lexer::tokenize;
use crate::lexer::wf_tokens;
use crate::sourcepos::SourcePosition;
use crate::sourcepos::Spanning;
use crate::strutil::str_eq;

verus! {

broadcast use vstd::std_specs::vec::group_vec_axioms;

/// Why parsing stopped: the kind of token that was not expected there, a
/// premature end of the source, or a malformed token.
#[derive(Clone, Copy, PartialEq, Eq, Debug)]
pub enum ParseErrorDetail {
    UnexpectedToken(TokenKind),
    UnexpectedEndOfFile,
    LexerError(LexError),
}

/// A located parse error.
pub type ParseError = Spanning<ParseErrorDetail>;

/// A parser state is sound while the cursor stands on some token of a
/// well-formed stream; the end-of-file token is never stepped over, so the
/// cursor always has a token to look at.
pub open spec fn wf_at(toks: Seq<Spanning<Token>>, pos: int) -> bool {
    wf_tokens(toks) && 0 <= pos < toks.len()
}

/// The view of a token vector is never longer than the machine can
/// address.
proof fn vec_len_bound(toks: &Vec<Spanning<Token>>)
    ensures
        toks@.len() <= usize::MAX,
{
    assert(toks@.len() == toks.len());
}

/// The error for an unexpected token: end-of-file gets its own detail.
fn unexpected(t: &Spanning<Token>) -> (r: ParseError)
    ensures
        r.start == t.start,
{
    let k = t.item.kind();
    let detail = if k == TokenKind::Eof {
        ParseErrorDetail::UnexpectedEndOfFile
    } else {
        ParseErrorDetail::UnexpectedToken(k)
    };
    Spanning::new(detail, t.start, t.end)
}

/// Step over the token under the cursor if it has the wanted kind, which
/// must not be end-of-file.
fn expect_kind(toks: &Vec<Spanning<Token>>, pos: usize, want: TokenKind) -> (r: Result<
    usize,
    ParseError,
>)
    requires
        wf_at(toks@, pos as int),
        want != TokenKind::Eof,
    ensures
        r matches Ok(p) ==> p == pos + 1 && pos < p < toks@.len() && toks@[pos as int].item.spec_kind()
            == want,
        r matches Err(_) ==> toks@[pos as int].item.spec_kind() != want,
{
    proof {
        vec_len_bound(toks);
    }
    if toks[pos].item.kind() == want {
        Ok(pos + 1)
    } else {
        Err(unexpected(&toks[pos]))
    }
}

/// Whether the token under the cursor has the given kind.
fn peek_kind(toks: &Vec<Spanning<Token>>, pos: usize, want: TokenKind) -> (r: bool)
    requires
        wf_at(toks@, pos as int),
    ensures
        r == (toks@[pos as int].item.spec_kind() == want),
{
    toks[pos].item.kind() == want
}

/// Step over a name token and keep its text with its span.
fn expect_name(toks: &Vec<Spanning<Token>>, pos: usize) -> (r: Result<
    (Spanning<String>, usize),
    ParseError,
>)
    requires
        wf_at(toks@, pos as int),
    ensures
        r matches Ok(p) ==> p.1 == pos + 1 && pos < p.1 < toks@.len()
            && (toks@[pos as int].item matches Token::Name(m) && p.0.item@ == m@)
            && p.0.start == toks@[pos as int].start && p.0.end == toks@[pos as int].end,
{
    proof {
        vec_len_bound(toks);
    }
    let t = &toks[pos];
    match &t.item {
        Token::Name(n) => Ok((Spanning::new(n.clone(), t.start, t.end), pos + 1)),
        _ => Err(unexpected(t)),
    }
}

/// The end position of the token just stepped over.
fn end_of(toks: &Vec<Spanning<Token>>, pos: usize) -> (r: SourcePosition)
    requires
        1 <= pos < toks@.len(),
    ensures
        r == toks@[pos as int - 1].end,
{
    toks[pos - 1].end
}

/// Where the tokens from `pos` on spell exactly the type `t`: the
/// position just past its last token, or nothing when they do not spell
/// `t`. A name is a named type, non-null when a mark follows (the mark
/// is taken greedily, so a named type proper has no mark after it); a
/// bracketed inner type is a list, non-null when a mark follows the
/// closing bracket.
pub open spec fn spec_type_end(toks: Seq<Spanning<Token>>, pos: int, t: TypeRef) -> Option<int>
    decreases t,
{
    match t {
        TypeRef::Named(n) => {
            if 0 <= pos && pos + 1 < toks.len() && (toks[pos].item matches Token::Name(m) && m@
                == n@) && toks[pos + 1].item.spec_kind() != TokenKind::ExclamationMark {
                Option::Some(pos + 1)
            } else {
                Option::None
            }
        },
        TypeRef::NonNullNamed(n) => {
            if 0 <= pos && pos + 1 < toks.len() && (toks[pos].item matches Token::Name(m) && m@
                == n@) && toks[pos + 1].item.spec_kind() == TokenKind::ExclamationMark {
                Option::Some(pos + 2)
            } else {
                Option::None
            }
        },
        TypeRef::List(inner) => {
            if 0 <= pos < toks.len() && toks[pos].item.spec_kind() == TokenKind::BracketOpen {
                match spec_type_end(toks, pos + 1, *inner) {
                    Option::Some(q) => {
                        if q + 1 < toks.len() && toks[q].item.spec_kind()
                            == TokenKind::BracketClose && toks[q + 1].item.spec_kind()
                            != TokenKind::ExclamationMark {
                            Option::Some(q + 1)
                        } else {
                            Option::None
                        }
                    },
                    Option::None => Option::None,
                }
            } else {
                Option::None
            }
        },
        TypeRef::NonNullList(inner) => {
            if 0 <= pos < toks.len() && toks[pos].item.spec_kind() == TokenKind::BracketOpen {
                match spec_type_end(toks, pos + 1, *inner) {
                    Option::Some(q) => {
                        if q + 1 < toks.len() && toks[q].item.spec_kind()
                            == TokenKind::BracketClose && toks[q + 1].item.spec_kind()
                            == TokenKind::ExclamationMark {
                            Option::Some(q + 2)
                        } else {
                            Option::None
                        }
                    },
                    Option::None => Option::None,
                }
            } else {
                Option::None
            }
        },
    }
}

/// A type reference: a bare name, a bracketed list, either one optionally
/// followed by a non-null marker. An accepted type is exactly what the
/// consumed tokens spell, spanned from its first to its last token.
fn parse_type(toks: &Vec<Spanning<Token>>, pos: usize) -> (r: Result<
    (Spanning<TypeRef>, usize),
    ParseError,
>)
    requires
        wf_at(toks@, pos as int),
    ensures
        r matches Ok(p) ==> pos < p.1 < toks@.len() && spec_type_end(toks@, pos as int, p.0.item)
            == Option::Some(p.1 as int) && p.0.start == toks@[pos as int].start && p.0.end
            == toks@[p.1 - 1].end,
    decreases toks@.len() - pos,
{
    proof {
        vec_len_bound(toks);
    }
    let start = toks[pos].start;
    if peek_kind(toks, pos, TokenKind::BracketOpen) {
        let p1 = pos + 1;
        let (inner, p2) = parse_type(toks, p1)?;
        let p3 = expect_kind(toks, p2, TokenKind::BracketClose)?;
        if peek_kind(toks, p3, TokenKind::ExclamationMark) {
            let p4 = p3 + 1;
            let t = TypeRef::NonNullList(Box::new(inner.item));
            proof {
                assert(spec_type_end(toks@, pos as int + 1, *t->NonNullList_0) == Option::Some(
                    p2 as int,
                ));
                assert(spec_type_end(toks@, pos as int, t) == Option::Some(p4 as int));
            }
            Ok((Spanning::new(t, start, end_of(toks, p4)), p4))
        } else {
            let t = TypeRef::List(Box::new(inner.item));
            proof {
                assert(spec_type_end(toks@, pos as int + 1, *t->List_0) == Option::Some(
                    p2 as int,
                ));
                assert(spec_type_end(toks@, pos as int, t) == Option::Some(p3 as int));
            }
            Ok((Spanning::new(t, start, end_of(toks, p3)), p3))
        }
    } else {
        let (name, p1) = expect_name(toks, pos)?;
        if peek_kind(toks, p1, TokenKind::ExclamationMark) {
            let p2 = p1 + 1;
            let t = TypeRef::NonNullNamed(name.item);
            proof {
                assert(spec_type_end(toks@, pos as int, t) == Option::Some(p2 as int));
            }
            Ok((Spanning::new(t, start, end_of(toks, p2)), p2))
        } else {
            let t = TypeRef::Named(name.item);
            proof {
                assert(spec_type_end(toks@, pos as int, t) == Option::Some(p1 as int));
            }
            Ok((Spanning::new(t, start, end_of(toks, p1)), p1))
        }
    }
}

/// A value literal. Inside a const position (a variable default) a
/// variable reference is not accepted.
#[verifier::loop_isolation(false)]
fn parse_value(toks: &Vec<Spanning<Token>>, pos: usize, is_const: bool) -> (r: Result<
    (Spanning<InputValue>, usize),
    ParseError,
>)
    requires
        wf_at(toks@, pos as int),
    ensures
        r matches Ok(p) ==> pos < p.1 < toks@.len(),
    decreases toks@.len() - pos,
{
    proof {
        vec_len_bound(toks);
    }
    let t = &toks[pos];
    let start = t.start;
    match &t.item {
        Token::IntLit(i) => Ok((Spanning::new(InputValue::Int(*i), start, t.end), pos + 1)),
        Token::FloatLit(f) => Ok(
            (Spanning::new(InputValue::Float(f.clone()), start, t.end), pos + 1),
        ),
        Token::StrLit(v) => Ok((Spanning::new(InputValue::Str(v.clone()), start, t.end), pos + 1)),
        Token::Name(n) => {
            let v = if str_eq(n.as_str(), "true") {
                InputValue::Boolean(true)
            } else if str_eq(n.as_str(), "false") {
                InputValue::Boolean(false)
            } else if str_eq(n.as_str(), "null") {
                InputValue::Null
            } else {
                InputValue::Enum(n.clone())
            };
            Ok((Spanning::new(v, start, t.end), pos + 1))
        },
        Token::Dollar => {
            if is_const {
                return Err(unexpected(t));
            }
            let (name, p1) = expect_name(toks, pos + 1)?;
            Ok((Spanning::new(InputValue::Variable(name.item), start, end_of(toks, p1)), p1))
        },
        Token::BracketOpen => {
            let mut items: Vec<Spanning<InputValue>> = Vec::new();
            let mut p: usize = pos + 1;
            loop
                invariant
                    pos < p < toks@.len(),
                decreases toks@.len() - p,
            {
                if peek_kind(toks, p, TokenKind::BracketClose) {
                    p = p + 1;
                    break;
                }
                let (item, p2) = parse_value(toks, p, is_const)?;
                items.push(item);
                p = p2;
            }
            Ok((Spanning::new(InputValue::List(items), start, end_of(toks, p)), p))
        },
        Token::CurlyOpen => {
            let mut fields: Vec<(Spanning<String>, Spanning<InputValue>)> = Vec::new();
            let mut p: usize = pos + 1;
            loop
                invariant
                    pos < p < toks@.len(),
                decreases toks@.len() - p,
            {
                if peek_kind(toks, p, TokenKind::CurlyClose) {
                    p = p + 1;
                    break;
                }
                let (key, p2) = expect_name(toks, p)?;
                let p3 = expect_kind(toks, p2, TokenKind::Colon)?;
                let (val, p4) = parse_value(toks, p3, is_const)?;
                fields.push((key, val));
                p = p4;
            }
            Ok((Spanning::new(InputValue::Object(fields), start, end_of(toks, p)), p))
        },
        _ => Err(unexpected(t)),
    }
}

/// The parenthesised argument list of a field: `(name: value, ...)`, with
/// at least one argument.
#[verifier::loop_isolation(false)]
fn parse_arguments(toks: &Vec<Spanning<Token>>, pos: usize) -> (r: Result<
    (Vec<(Spanning<String>, Spanning<InputValue>)>, usize),
    ParseError,
>)
    requires
        wf_at(toks@, pos as int),
        toks@[pos as int].item.spec_kind() == TokenKind::ParenOpen,
    ensures
        r matches Ok(p) ==> pos < p.1 < toks@.len(),
{
    proof {
        vec_len_bound(toks);
    }
    let mut args: Vec<(Spanning<String>, Spanning<InputValue>)> = Vec::new();
    let mut p: usize = pos + 1;
    proof {
        assert(toks@[pos as int].item != Token::Eof);
    }
    loop
        invariant
            pos < p < toks@.len(),
        decreases toks@.len() - p,
    {
        if peek_kind(toks, p, TokenKind::ParenClose) {
            if args.len() == 0 {
                return Err(unexpected(&toks[p]));
            }
            p = p + 1;
            break;
        }
        let (key, p2) = expect_name(toks, p)?;
        let p3 = expect_kind(toks, p2, TokenKind::Colon)?;
        let (val, p4) = parse_value(toks, p3, false)?;
        args.push((key, val));
        p = p4;
    }
    Ok((args, p))
}

/// A braced selection set with at least one selection.
#[verifier::loop_isolation(false)]
fn parse_selection_set(toks: &Vec<Spanning<Token>>, pos: usize) -> (r: Result<
    (Vec<Selection>, usize),
    ParseError,
>)
    requires
        wf_at(toks@, pos as int),
    ensures
        r matches Ok(p) ==> pos < p.1 < toks@.len() && p.0@.len() >= 1 && wf_selections(p.0@),
    decreases toks@.len() - pos, 3int,
{
    broadcast use lemma_wf_selections_iff;
    proof {
        vec_len_bound(toks);
    }
    let p1 = expect_kind(toks, pos, TokenKind::CurlyOpen)?;
    let mut selections: Vec<Selection> = Vec::new();
    let mut p: usize = p1;
    loop
        invariant
            pos < p < toks@.len(),
            forall|j: int| 0 <= j < selections@.len() ==> wf_selection(#[trigger] selections@[j]),
        decreases toks@.len() - p,
    {
        if peek_kind(toks, p, TokenKind::CurlyClose) {
            if selections.len() == 0 {
                return Err(unexpected(&toks[p]));
            }
            p = p + 1;
            break;
        }
        let (sel, p2) = parse_selection(toks, p)?;
        selections.push(sel);
        p = p2;
    }
    Ok((selections, p))
}

/// One selection: a field, a fragment spread, or an inline fragment.
fn parse_selection(toks: &Vec<Spanning<Token>>, pos: usize) -> (r: Result<
    (Selection, usize),
    ParseError,
>)
    requires
        wf_at(toks@, pos as int),
    ensures
        r matches Ok(p) ==> pos < p.1 < toks@.len() && wf_selection(p.0),
    decreases toks@.len() - pos, 2int,
{
    proof {
        vec_len_bound(toks);
    }
    let start = toks[pos].start;
    if peek_kind(toks, pos, TokenKind::Ellipsis) {
        let p1 = pos + 1;
        if peek_kind(toks, p1, TokenKind::CurlyOpen) {
            let (sels, p2) = parse_selection_set(toks, p1)?;
            let frag = InlineFragment { type_condition: Option::None, selection_set: sels };
            return Ok(
                (Selection::InlineFragment(Spanning::new(frag, start, end_of(toks, p2))), p2),
            );
        }
        let (name, p2) = expect_name(toks, p1)?;
        if str_eq(name.item.as_str(), "on") {
            let (cond, p3) = expect_name(toks, p2)?;
            let (sels, p4) = parse_selection_set(toks, p3)?;
            let frag = InlineFragment { type_condition: Option::Some(cond), selection_set: sels };
            return Ok(
                (Selection::InlineFragment(Spanning::new(frag, start, end_of(toks, p4))), p4),
            );
        }
        let spread = FragmentSpread { name };
        return Ok((Selection::FragmentSpread(Spanning::new(spread, start, end_of(toks, p2))), p2));
    }
    parse_field(toks, pos)
}

/// One field selection: `alias: name(args) { subselections }`, everything
/// after the name optional.
fn parse_field(toks: &Vec<Spanning<Token>>, pos: usize) -> (r: Result<
    (Selection, usize),
    ParseError,
>)
    requires
        wf_at(toks@, pos as int),
    ensures
        r matches Ok(p) ==> pos < p.1 < toks@.len() && wf_selection(p.0),
    decreases toks@.len() - pos, 1int,
{
    proof {
        vec_len_bound(toks);
    }
    let start = toks[pos].start;
    let (first, p1) = expect_name(toks, pos)?;
    let mut alias: Option<Spanning<String>> = Option::None;
    let mut name = first;
    let mut p = p1;
    if peek_kind(toks, p, TokenKind::Colon) {
        let (real_name, p2) = expect_name(toks, p + 1)?;
        alias = Option::Some(name);
        name = real_name;
        p = p2;
    }
    let mut arguments: Vec<(Spanning<String>, Spanning<InputValue>)> = Vec::new();
    if peek_kind(toks, p, TokenKind::ParenOpen) {
        let (args, p2) = parse_arguments(toks, p)?;
        arguments = args;
        p = p2;
    }
    let mut selection_set: Option<Vec<Selection>> = Option::None;
    if peek_kind(toks, p, TokenKind::CurlyOpen) {
        let (sels, p2) = parse_selection_set(toks, p)?;
        selection_set = Option::Some(sels);
        p = p2;
    }
    let f = Field { alias, name, arguments, selection_set };
    Ok((Selection::Field(Spanning::new(f, start, end_of(toks, p))), p))
}

/// The variable definitions of an operation header:
/// `($name: Type = default, ...)`, with at least one definition.
#[verifier::loop_isolation(false)]
fn parse_variable_definitions(toks: &Vec<Spanning<Token>>, pos: usize) -> (r: Result<
    (Vec<(Spanning<String>, VariableDefinition)>, usize),
    ParseError,
>)
    requires
        wf_at(toks@, pos as int),
        toks@[pos as int].item.spec_kind() == TokenKind::ParenOpen,
    ensures
        r matches Ok(p) ==> pos < p.1 < toks@.len(),
{
    proof {
        vec_len_bound(toks);
    }
    let mut defs: Vec<(Spanning<String>, VariableDefinition)> = Vec::new();
    let mut p: usize = pos + 1;
    proof {
        assert(toks@[pos as int].item != Token::Eof);
    }
    loop
        invariant
            pos < p < toks@.len(),
        decreases toks@.len() - p,
    {
        if peek_kind(toks, p, TokenKind::ParenClose) {
            if defs.len() == 0 {
                return Err(unexpected(&toks[p]));
            }
            p = p + 1;
            break;
        }
        let dollar_start = toks[p].start;
        let p2 = expect_kind(toks, p, TokenKind::Dollar)?;
        let (name, p3) = expect_name(toks, p2)?;
        let var_name = Spanning::new(name.item, dollar_start, name.end);
        let p4 = expect_kind(toks, p3, TokenKind::Colon)?;
        let (var_type, p5) = parse_type(toks, p4)?;
        let mut default_value: Option<Spanning<InputValue>> = Option::None;
        let mut p6 = p5;
        if peek_kind(toks, p5, TokenKind::Equals) {
            let (dv, p7) = parse_value(toks, p5 + 1, true)?;
            default_value = Option::Some(dv);
            p6 = p7;
        }
        defs.push((var_name, VariableDefinition { var_type, default_value }));
        p = p6;
    }
    Ok((defs, p))
}

/// One definition: an operation (named or shorthand) or a fragment.
fn parse_definition(toks: &Vec<Spanning<Token>>, pos: usize) -> (r: Result<
    (Definition, usize),
    ParseError,
>)
    requires
        wf_at(toks@, pos as int),
    ensures
        r matches Ok(p) ==> pos < p.1 < toks@.len() && wf_definition(p.0),
{
    proof {
        vec_len_bound(toks);
    }
    let start = toks[pos].start;
    if peek_kind(toks, pos, TokenKind::CurlyOpen) {
        let (sels, p1) = parse_selection_set(toks, pos)?;
        let op = Operation {
            operation_type: OperationType::Query,
            name: Option::None,
            variable_definitions: Vec::new(),
            selection_set: sels,
        };
        return Ok((Definition::Operation(Spanning::new(op, start, end_of(toks, p1))), p1));
    }
    let (keyword, p1) = expect_name(toks, pos)?;
    if str_eq(keyword.item.as_str(), "fragment") {
        let (name, p2) = expect_name(toks, p1)?;
        let (on_kw, p3) = expect_name(toks, p2)?;
        if !str_eq(on_kw.item.as_str(), "on") {
            return Err(
                Spanning::new(
                    ParseErrorDetail::UnexpectedToken(TokenKind::Name),
                    on_kw.start,
                    on_kw.end,
                ),
            );
        }
        let (cond, p4) = expect_name(toks, p3)?;
        let (sels, p5) = parse_selection_set(toks, p4)?;
        let frag = Fragment { name, type_condition: cond, selection_set: sels };
        return Ok((Definition::Fragment(Spanning::new(frag, start, end_of(toks, p5))), p5));
    }
    let operation_type = if str_eq(keyword.item.as_str(), "query") {
        OperationType::Query
    } else if str_eq(keyword.item.as_str(), "mutation") {
        OperationType::Mutation
    } else {
        return Err(
            Spanning::new(
                ParseErrorDetail::UnexpectedToken(TokenKind::Name),
                keyword.start,
                keyword.end,
            ),
        );
    };
    let mut name: Option<Spanning<String>> = Option::None;
    let mut p = p1;
    if peek_kind(toks, p, TokenKind::Name) {
        let (n, p2) = expect_name(toks, p)?;
        name = Option::Some(n);
        p = p2;
    }
    let mut variable_definitions: Vec<(Spanning<String>, VariableDefinition)> = Vec::new();
    if peek_kind(toks, p, TokenKind::ParenOpen) {
        let (defs, p2) = parse_variable_definitions(toks, p)?;
        variable_definitions = defs;
        p = p2;
    }
    let (sels, p3) = parse_selection_set(toks, p)?;
    let op = Operation { operation_type, name, variable_definitions, selection_set: sels };
    Ok((Definition::Operation(Spanning::new(op, start, end_of(toks, p3))), p3))
}

/// The whole document: at least one definition, then end of file.
#[verifier::loop_isolation(false)]
pub fn parse_document(source: &str) -> (r: Result<Document, ParseError>)
    ensures
        r matches Ok(d) ==> wf_document(d@),
{
    let toks = match tokenize(source) {
        Ok(t) => t,
        Err(e) => {
            return Err(Spanning::new(ParseErrorDetail::LexerError(e.item), e.start, e.end));
        },
    };
    proof {
        vec_len_bound(&toks);
    }
    let mut defs: Vec<Definition> = Vec::new();
    let mut p: usize = 0;
    loop
        invariant
            wf_tokens(toks@),
            p < toks@.len(),
            forall|j: int| 0 <= j < defs@.len() ==> wf_definition(#[trigger] defs@[j]),
        decreases toks@.len() - p,
    {
        if peek_kind(&toks, p, TokenKind::Eof) {
            break;
        }
        let (def, p2) = parse_definition(&toks, p)?;
        defs.push(def);
        p = p2;
    }
    if defs.len() == 0 {
        return Err(
            Spanning::zero_width(ParseErrorDetail::UnexpectedEndOfFile, toks[p].start),
        );
    }
    Ok(defs)
}

} // verus!
