//! What reading a value leaves alone.

use vstd::prelude::*;

use crate::hir::{default_tag, field_keyed, Ctx, LocalId, NbtTag, Scale, Type};
use crate::hir::model::{Expr, Field, Kind, Place};
use crate::hir::rules::{negated, Cx, Env};
use crate::hir::rules::laws::{grows_facts, keeps};
use crate::hir::rules::laws::types::resolve_scale_grows;
use crate::hir::rules::values::{
    binary_type, binding_component, component_of, convert, coords, fix_binary_type, forward,
    index_fault, instance_of, nbt_bool, nbt_compound, nbt_elements, nbt_list, nbt_lit, nbt_members,
    nbt_number, nbt_value, place_element, place_field, position_text, require, scale_of,
    side_fault, string_binary_type, string_method, token_is, tokens_left, written_at, Coord,
};
use crate::hir::types::{element_of, lookup, struct_of};
use crate::syntax::ast::BinaryOp;
use crate::syntax::lexer::{Keyword, Punct, Span};
use crate::syntax::model::{Expr as Written, Ident, ScaleArg, Token, TokenKind};

verus! {

pub(crate) proof fn fix_binary_type_keeps(cx: Cx, op: BinaryOp, lhs: Type, rhs: Type, span: Span)
    ensures
        keeps(cx, fix_binary_type(cx, op, lhs, rhs, span).0),
{
    grows_facts();
    reveal(fix_binary_type);
}

pub(crate) proof fn string_binary_type_keeps(cx: Cx, op: BinaryOp, lhs: Type, rhs: Type, span: Span)
    ensures
        keeps(cx, string_binary_type(cx, op, lhs, rhs, span).0),
{
    grows_facts();
    reveal(string_binary_type);
}

pub(crate) proof fn binary_type_keeps(cx: Cx, op: BinaryOp, lhs: Type, rhs: Type, span: Span)
    ensures
        keeps(cx, binary_type(cx, op, lhs, rhs, span).0),
{
    grows_facts();
    reveal(binary_type);
    match (side_fault(cx, lhs), side_fault(cx, rhs)) {
        (None, None) => {
            if lhs is Str || rhs is Str {
                string_binary_type_keeps(cx, op, lhs, rhs, span);
            } else if lhs is Fix || rhs is Fix {
                fix_binary_type_keeps(cx, op, lhs, rhs, span);
            }
        },
        _ => {},
    }
}

pub(crate) proof fn scale_of_keeps(env: Env, cx: Cx, written: ScaleArg)
    ensures
        keeps(cx, scale_of(env, cx, written).0),
{
    grows_facts();
    reveal(scale_of);
    let known = match written {
        ScaleArg::Param(name) => match lookup(env.type_params, name.name) {
            Some(Type::Fix(Scale::Const(scale))) => Some(scale),
            _ => None,
        },
        ScaleArg::Int(_, _) => None,
    };
    match known {
        None => {
            resolve_scale_grows(cx.errs, written, seq![]);
        },
        _ => {},
    }
}

pub(crate) proof fn place_field_keeps(cx: Cx, base: Place, base_span: Span, name: Ident, span: Span)
    ensures
        keeps(cx, place_field(cx, base, base_span, name, span).0),
{
    grows_facts();
    reveal(place_field);
}

pub(crate) proof fn index_fault_keeps(cx: Cx, base: Place, base_span: Span, span: Span)
    ensures
        keeps(cx, index_fault(cx, base, base_span, span).0),
{
    grows_facts();
    reveal(index_fault);
}

pub(crate) proof fn place_element_keeps(cx: Cx, base: Place, index: Expr)
    ensures
        keeps(cx, place_element(cx, base, index).0),
{
    grows_facts();
    reveal(place_element);
}

pub(crate) proof fn convert_keeps(
    cx: Cx,
    place: Place,
    target: Type,
    name: Seq<char>,
    given: nat,
    span: Span,
)
    ensures
        keeps(cx, convert(cx, place, target, name, given, span).0),
{
    grows_facts();
    reveal(convert);
}

pub(crate) proof fn string_method_keeps(
    cx: Cx,
    place: Place,
    name: Ident,
    args: Seq<Written>,
    span: Span,
)
    ensures
        keeps(cx, string_method(cx, place, name, args, span).0),
{
    grows_facts();
    reveal(string_method);
}

pub(crate) proof fn require_keeps(cx: Cx, ctx: Ctx, span: Span, what: Seq<char>)
    ensures
        keeps(cx, require(cx, ctx, span, what)),
{
    grows_facts();
}

pub(crate) proof fn binding_component_keeps(env: Env, cx: Cx, local: LocalId, ty: Type, span: Span)
    ensures
        keeps(cx, binding_component(env, cx, local, ty, span).0),
{
    grows_facts();
    reveal(binding_component);
}

pub(crate) proof fn component_of_keeps(env: Env, cx: Cx, shown: Expr)
    ensures
        keeps(cx, component_of(env, cx, shown).0),
{
    grows_facts();
    reveal(component_of);
    match shown.kind {
        Kind::Local(local) => {
            binding_component_keeps(env, cx, local, shown.ty, shown.span);
        },
        _ => {},
    }
}

pub(crate) proof fn nbt_value_keeps(
    cx: Cx,
    tokens: Seq<Token>,
    at: int,
    want: Type,
    tag: Option<NbtTag>,
    span: Span,
)
    ensures
        keeps(cx, nbt_value(cx, tokens, at, want, tag, span).0),
    decreases tokens_left(tokens, at), 1int,
{
    grows_facts();
    reveal(nbt_value);
    reveal(nbt_compound);
    reveal(nbt_list);
    if at >= 0 && at < tokens.len() {
        let here = tokens[at].span;
        match tokens[at].kind {
            TokenKind::Punct(Punct::LBrace) => {
                nbt_compound_keeps(cx, tokens, at, want, here);
            },
            TokenKind::Punct(Punct::LBracket) => {
                nbt_list_keeps(cx, tokens, at, want, here);
            },
            TokenKind::Keyword(Keyword::True) => {
                nbt_bool_keeps(cx, at, want, true, here);
            },
            TokenKind::Keyword(Keyword::False) => {
                nbt_bool_keeps(cx, at, want, false, here);
            },
            TokenKind::Punct(Punct::Minus) => {
                nbt_number_keeps(cx, tokens, at, want, tag, here);
            },
            TokenKind::Int(_) => {
                nbt_number_keeps(cx, tokens, at, want, tag, here);
            },
            _ => {},
        }
    }
}

pub(crate) proof fn nbt_bool_keeps(cx: Cx, at: int, want: Type, b: bool, span: Span)
    ensures
        keeps(cx, nbt_bool(cx, at, want, b, span).0),
{
    grows_facts();
}

pub(crate) proof fn nbt_number_keeps(
    cx: Cx,
    tokens: Seq<Token>,
    at: int,
    want: Type,
    tag: Option<NbtTag>,
    span: Span,
)
    ensures
        keeps(cx, nbt_number(cx, tokens, at, want, tag, span).0),
{
    grows_facts();
    reveal(nbt_number);
}

pub(crate) proof fn nbt_compound_keeps(cx: Cx, tokens: Seq<Token>, at: int, want: Type, span: Span)
    ensures
        keeps(cx, nbt_compound(cx, tokens, at, want, span).0),
    decreases tokens_left(tokens, at), 0int,
{
    grows_facts();
    reveal(nbt_compound);
    reveal(nbt_members);
    let def = match want {
        Type::Struct(id) => struct_of(cx.types, id),
        _ => None,
    };
    match def {
        Some(def) => {
            if at >= 0 && at < tokens.len() {
                nbt_members_keeps(cx, tokens, at + 1, want, def.fields, span, seq![]);
            }
        },
        _ => {},
    }
}

pub(crate) proof fn nbt_members_keeps(
    cx: Cx,
    tokens: Seq<Token>,
    at: int,
    want: Type,
    fields: Seq<Field>,
    span: Span,
    acc: Seq<(Seq<char>, Seq<char>)>,
)
    ensures
        keeps(cx, nbt_members(cx, tokens, at, want, fields, span, acc).0),
    decreases tokens_left(tokens, at), 2int,
{
    grows_facts();
    reveal(nbt_members);
    reveal(nbt_value);
    if !token_is(tokens, at, Punct::RBrace) {
        if at >= 0 && at < tokens.len() {
            let key = tokens[at].span;
            let name = match tokens[at].kind {
                TokenKind::Ident(name) => Some(name),
                TokenKind::Str(name) => Some(name),
                _ => None,
            };
            match name {
                Some(name) => {
                    if token_is(tokens, at + 1, Punct::Colon) {
                        let i = field_keyed(fields, name, 0);
                        if i < fields.len() {
                            nbt_value_keeps(cx, tokens, at + 2, fields[i].ty, fields[i].tag, key);
                            match forward(
                                at + 2,
                                nbt_value(cx, tokens, at + 2, fields[i].ty, fields[i].tag, key),
                            ) {
                                (cx1, at1, Some(text)) => {
                                    if written_at(acc, name, 0) >= acc.len() {
                                        let acc1 = acc.push((name, text));
                                        if token_is(tokens, at1, Punct::Comma) {
                                            nbt_members_keeps(
                                                cx1,
                                                tokens,
                                                at1 + 1,
                                                want,
                                                fields,
                                                span,
                                                acc1,
                                            );
                                        }
                                    }
                                },
                                _ => {},
                            }
                        }
                    }
                },
                _ => {},
            }
        }
    }
}

pub(crate) proof fn nbt_list_keeps(cx: Cx, tokens: Seq<Token>, at: int, want: Type, span: Span)
    ensures
        keeps(cx, nbt_list(cx, tokens, at, want, span).0),
    decreases tokens_left(tokens, at), 0int,
{
    grows_facts();
    reveal(nbt_list);
    reveal(nbt_elements);
    match want {
        Type::Vec(id) => {
            if at >= 0 && at < tokens.len() {
                nbt_elements_keeps(cx, tokens, at + 1, element_of(cx.types, id), span, seq![]);
            }
        },
        _ => {},
    }
}

pub(crate) proof fn nbt_elements_keeps(
    cx: Cx,
    tokens: Seq<Token>,
    at: int,
    elem: Type,
    span: Span,
    acc: Seq<Seq<char>>,
)
    ensures
        keeps(cx, nbt_elements(cx, tokens, at, elem, span, acc).0),
    decreases tokens_left(tokens, at), 2int,
{
    grows_facts();
    reveal(nbt_elements);
    reveal(nbt_value);
    if !token_is(tokens, at, Punct::RBracket) {
        nbt_value_keeps(cx, tokens, at, elem, default_tag(elem), span);
        match forward(at, nbt_value(cx, tokens, at, elem, default_tag(elem), span)) {
            (cx1, at1, Some(text)) => {
                if token_is(tokens, at1, Punct::Comma) {
                    nbt_elements_keeps(cx1, tokens, at1 + 1, elem, span, acc.push(text));
                }
            },
            _ => {},
        }
    }
}

pub(crate) proof fn nbt_lit_keeps(cx: Cx, tokens: Seq<Token>, want: Type, span: Span)
    ensures
        keeps(cx, nbt_lit(cx, tokens, want, span).0),
{
    grows_facts();
    reveal(nbt_lit);
    nbt_value_keeps(cx, tokens, 0, want, None, span);
}

pub(crate) proof fn coords_keeps(cx: Cx, tokens: Seq<Token>, i: int, acc: Seq<Coord>)
    ensures
        keeps(cx, coords(cx, tokens, i, acc).0),
    decreases tokens.len() - i,
{
    grows_facts();
    reveal(coords);
    if i >= 0 && i < tokens.len() {
        let prefix = if token_is(tokens, i, Punct::Tilde) {
            Some('~')
        } else if token_is(tokens, i, Punct::Caret) {
            Some('^')
        } else {
            None
        };
        if prefix is Some {
            let minus = token_is(tokens, i + 1, Punct::Minus);
            let j = if minus {
                i + 2
            } else {
                i + 1
            };
            if j < tokens.len() && tokens[j].kind is Int {
                let n = tokens[j].kind->Int_0;
                let number = Some(
                    if minus {
                        negated(n)
                    } else {
                        n
                    },
                );
                coords_keeps(cx, tokens, j + 1, acc.push(Coord { prefix, number }));
            } else if !minus {
                coords_keeps(cx, tokens, j, acc.push(Coord { prefix, number: None }));
            }
        } else if tokens[i].kind is Int {
            coords_keeps(
                cx,
                tokens,
                i + 1,
                acc.push(Coord { prefix, number: Some(tokens[i].kind->Int_0) }),
            );
        } else if token_is(tokens, i, Punct::Minus) && i + 1 < tokens.len()
            && tokens[i + 1].kind is Int {
            coords_keeps(
                cx,
                tokens,
                i + 2,
                acc.push(Coord { prefix, number: Some(negated(tokens[i + 1].kind->Int_0)) }),
            );
        }
    }
}

pub(crate) proof fn position_text_keeps(cx: Cx, tokens: Seq<Token>, span: Span)
    ensures
        keeps(cx, position_text(cx, tokens, span).0),
{
    grows_facts();
    reveal(position_text);
    coords_keeps(cx, tokens, 0, seq![]);
}

pub(crate) proof fn instance_of_keeps(
    env: Env,
    cx: Cx,
    item: usize,
    args: Seq<Type>,
    borrows: Seq<Option<Place>>,
    base: Seq<char>,
    span: Span,
)
    ensures
        keeps(cx, instance_of(env, cx, item, args, borrows, base, span).0),
{
    grows_facts();
    reveal(instance_of);
}

} // verus!
