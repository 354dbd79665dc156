//! What lowering a statement leaves alone.

use vstd::prelude::*;

use crate::hir::{
    ctx_named, field_named, variant_named, ArmTest, ContextKind, Ctx, Inline, NbtTag, Type,
};
use crate::hir::model::{
    Arm, Attr, Binding, EnumDef, Expr, Field, Kind, Place, RawPart, Scrutinee, Selector, Stmt,
};
use crate::hir::rules::{has_sig, Cx, Env};
use crate::hir::rules::exprs::{
    condition, expr, expr_expecting, place, resolve, selector_of, wanted_element, Outcome,
};
use crate::hir::rules::laws::{
    contains, grows_facts, keeps, kept_back, leaving_undoes_entering, runs,
};
use crate::hir::rules::laws::exprs::{
    command_keeps, condition_keeps, expr_expecting_keeps, expr_keeps, invoke_keeps,
    list_values_keeps, method_call_keeps, path_keeps, place_keeps, resolve_keeps,
    selector_of_keeps,
};
use crate::hir::rules::laws::values::{nbt_lit_keeps, require_keeps};
use crate::hir::rules::stmts::{
    arm, assign, assignable, attr_of, attrs_of, bind_payload, bind_value, block, context_stmt,
    covers, ctx_attr, ctx_kinds, else_stmts, entity_stmt, enum_arms, enum_match, enum_pattern,
    expr_stmt, for_vec, if_stmt, inline_attr, inline_from, interpolate, interpolated, jump,
    kind_of, let_stmt, let_type, let_value, list_source, loop_stmt, macro_stmt, match_stmt,
    option_arms, option_match, option_pattern, payload_of, positioned_stmt, provide, return_stmt,
    scrutinee_tag, stmt, stmts, Interpolated, Payload,
};
use crate::hir::rules::types::{attr_word, misplaced};
use crate::hir::rules::values::{is_static, require};
use crate::hir::types::{element_of, enum_of, inner_of};
use crate::syntax::ast::{BinaryOp, ContextKind as WrittenKind};
use crate::syntax::lexer::Span;
use crate::syntax::model::{
    Attribute, ContextStmt, Else, Expr as Written, Ident, IfStmt, LetStmt, LoopStmt, MatchArm,
    MatchStmt, Pattern, Stmt as WrittenStmt, Token, TokenKind,
};
use crate::text::find_from;

verus! {

pub(crate) proof fn ctx_kinds_keeps(cx: Cx, tokens: Seq<Token>, i: int, acc: Seq<Ctx>)
    ensures
        keeps(cx, ctx_kinds(cx, tokens, i, acc).0),
    decreases tokens.len() - i,
{
    grows_facts();
    reveal(ctx_kinds);
    if i >= 0 && i < tokens.len() {
        match tokens[i].kind {
            TokenKind::Ident(name) => {
                match ctx_named(name) {
                    Some(kind) => {
                        ctx_kinds_keeps(cx, tokens, i + 1, acc.push(kind));
                    },
                    _ => {},
                }
            },
            TokenKind::Punct(_) => {
                ctx_kinds_keeps(cx, tokens, i + 1, acc);
            },
            _ => {},
        }
    }
}

pub(crate) proof fn ctx_attr_keeps(cx: Cx, attr: Attribute)
    ensures
        keeps(cx, ctx_attr(cx, attr).0),
{
    grows_facts();
    reveal(ctx_attr);
    ctx_kinds_keeps(cx, attr.tokens, 1, seq![]);
}

pub(crate) proof fn attr_of_keeps(cx: Cx, attr: Attribute)
    ensures
        keeps(cx, attr_of(cx, attr).0),
{
    grows_facts();
    reveal(attr_of);
    match attr_word(attr) {
        Some(name) => {
            if name == "ctx"@ {
                ctx_attr_keeps(cx, attr);
            }
        },
        _ => {},
    }
}

pub(crate) proof fn attrs_of_keeps(cx: Cx, attrs: Seq<Attribute>, i: int, acc: Seq<Attr>)
    ensures
        keeps(cx, attrs_of(cx, attrs, i, acc).0),
    decreases attrs.len() - i,
{
    grows_facts();
    reveal(attrs_of);
    if i >= 0 && i < attrs.len() {
        attr_of_keeps(cx, attrs[i]);
        match attr_of(cx, attrs[i]) {
            (cx1, Some(attr)) => {
                attrs_of_keeps(cx1, attrs, i + 1, acc.push(attr));
            },
            (cx1, None) => {
                attrs_of_keeps(cx1, attrs, i + 1, acc);
            },
        }
    }
}

pub(crate) proof fn inline_from_keeps(cx: Cx, attrs: Seq<Attribute>, i: int, acc: Option<Inline>)
    ensures
        keeps(cx, inline_from(cx, attrs, i, acc).0),
    decreases attrs.len() - i,
{
    grows_facts();
    reveal(inline_from);
    if i >= 0 && i < attrs.len() {
        attr_of_keeps(cx, attrs[i]);
        match attr_of(cx, attrs[i]) {
            (cx1, None) => {
                inline_from_keeps(cx1, attrs, i + 1, acc);
            },
            (cx1, Some(attr)) => {
                match attr {
                    Attr::Inline => {
                        inline_from_keeps(
                            cx1,
                            attrs,
                            i + 1,
                            if acc is Some { Some(Inline::Always) } else { None },
                        );
                    },
                    Attr::NoInline => {
                        inline_from_keeps(
                            cx1,
                            attrs,
                            i + 1,
                            if acc is Some { Some(Inline::Never) } else { None },
                        );
                    },
                    _ => {
                        inline_from_keeps(
                            cx1.fault(attrs[i].span, misplaced(attrs[i], "a statement"@)),
                            attrs,
                            i + 1,
                            None,
                        );
                    },
                }
            },
        }
    }
}

pub(crate) proof fn inline_attr_keeps(cx: Cx, attrs: Seq<Attribute>)
    ensures
        keeps(cx, inline_attr(cx, attrs).0),
{
    grows_facts();
    inline_from_keeps(cx, attrs, 0, Some(Inline::Auto));
}

pub(crate) proof fn interpolated_keeps(cx: Cx, name: Seq<char>, span: Span)
    ensures
        keeps(cx, interpolated(cx, name, span).0),
{
    grows_facts();
    reveal(interpolated);
    if name.len() != 0 {
        path_keeps(cx, Ident { name, span });
    }
}

pub(crate) proof fn interpolate_keeps(
    cx: Cx,
    text: Seq<char>,
    i: int,
    lit: Seq<char>,
    parts: Seq<RawPart>,
    ok: bool,
    span: Span,
)
    ensures
        keeps(cx, interpolate(cx, text, i, lit, parts, ok, span).0),
    decreases text.len() - i,
{
    grows_facts();
    reveal(interpolate);
    if i >= 0 && i < text.len() {
        let c = text[i];
        if c != '{' && c != '}' {
            interpolate_keeps(cx, text, i + 1, lit.push(c), parts, ok, span);
        } else if i + 1 < text.len() && text[i + 1] == c {
            interpolate_keeps(cx, text, i + 2, lit.push(c), parts, ok, span);
        } else if c != '}' {
            let end = find_from(text, '}', i + 1);
            if i < end < text.len() {
                interpolated_keeps(cx, text.subrange(i + 1, end), span);
                match interpolated(cx, text.subrange(i + 1, end), span) {
                    (cx1, Some(Interpolated::Const(known))) => {
                        interpolate_keeps(cx1, text, end + 1, lit + known, parts, ok, span);
                    },
                    (cx1, Some(Interpolated::Value(v))) => {
                        interpolate_keeps(
                            cx1,
                            text,
                            end + 1,
                            seq![],
                            parts.push(RawPart::Lit(lit)).push(RawPart::Value(v)),
                            ok,
                            span,
                        );
                    },
                    (cx1, None) => {
                        interpolate_keeps(cx1, text, end + 1, lit, parts, false, span);
                    },
                }
            }
        }
    }
}

pub(crate) proof fn macro_stmt_keeps(cx: Cx, name: Ident, tokens: Seq<Token>, span: Span)
    ensures
        keeps(cx, macro_stmt(cx, name, tokens, span).0),
{
    grows_facts();
    reveal(macro_stmt);
    if name.name == "raw"@ {
        if tokens.len() != 0 {
            if tokens.len() <= 1 {
                match tokens[0].kind {
                    TokenKind::Str(text) => {
                        interpolate_keeps(cx, text, 0, seq![], seq![], true, tokens[0].span);
                    },
                    _ => {},
                }
            }
        }
    }
}

pub(crate) proof fn return_stmt_keeps(env: Env, cx: Cx, returned: Option<Written>, span: Span)
    ensures
        keeps(cx, return_stmt(env, cx, returned, span).0),
{
    grows_facts();
    reveal(return_stmt);
    match (returned, env.ret) {
        (Some(e), Some(want)) => {
            expr_expecting_keeps(env, cx, e, want);
        },
        _ => {},
    }
}

pub(crate) proof fn jump_keeps(cx: Cx, span: Span, keyword: Seq<char>, s: Stmt)
    ensures
        keeps(cx, jump(cx, span, keyword, s).0),
{
    grows_facts();
}

pub(crate) proof fn let_value_keeps(env: Env, cx: Cx, s: LetStmt)
    ensures
        keeps(cx, let_value(env, cx, s).0),
{
    grows_facts();
    reveal(let_value);
    match s.ty {
        None => {
            expr_keeps(env, cx, s.value);
        },
        Some(written) => {
            resolve_keeps(env, cx, written);
            match resolve(env, cx, written) {
                (cx1, Some(want)) => {
                    match s.value {
                        Written::List(values, span) => {
                            list_values_keeps(
                                env,
                                cx1,
                                values,
                                0,
                                wanted_element(cx1, want),
                                seq![],
                                span,
                            );
                        },
                        Written::Macro(name, tokens, span) => {
                            if name.name == "nbt"@ {
                                nbt_lit_keeps(cx1, tokens, want, span);
                            } else {
                                expr_expecting_keeps(env, cx1, s.value, want);
                            }
                        },
                        _ => {
                            expr_expecting_keeps(env, cx1, s.value, want);
                        },
                    }
                },
                _ => {},
            }
        },
    }
}

pub(crate) proof fn let_type_keeps(env: Env, cx: Cx, s: LetStmt, found: Type)
    ensures
        keeps(cx, let_type(env, cx, s, found).0),
{
    grows_facts();
    reveal(let_type);
    match s.ty {
        Some(written) => {
            resolve_keeps(env, cx, written);
        },
        _ => {},
    }
}

pub(crate) proof fn bind_value_keeps(cx: Cx, s: LetStmt, v: Expr, ty: Type)
    ensures
        runs(cx, bind_value(cx, s, v, ty).0),
{
    grows_facts();
    reveal(bind_value);
    leaving_undoes_entering();
}

pub(crate) proof fn let_stmt_keeps(env: Env, cx: Cx, s: LetStmt)
    ensures
        runs(cx, let_stmt(env, cx, s).0),
{
    grows_facts();
    reveal(let_stmt);
    let_value_keeps(env, cx, s);
    match let_value(env, cx, s) {
        (cx1, Some(v)) => {
            let_type_keeps(env, cx1, s, v.ty);
            match let_type(env, cx1, s, v.ty) {
                (cx2, Some(ty)) => {
                    bind_value_keeps(cx2, s, v, ty);
                },
                _ => {},
            }
        },
        _ => {},
    }
}

pub(crate) proof fn assign_keeps(
    env: Env,
    cx: Cx,
    op: Option<BinaryOp>,
    target: Written,
    assigned: Written,
    span: Span,
)
    ensures
        keeps(cx, assign(env, cx, op, target, assigned, span).0),
{
    grows_facts();
    reveal(assign);
    place_keeps(env, cx, target);
    match place(env, cx, target) {
        (cx1, Some(p)) => {
            expr_expecting_keeps(env, cx1, assigned, p.ty);
            match expr_expecting(env, cx1, assigned, p.ty) {
                (cx2, Some(v)) => {
                    if p.mutable {
                        match op {
                            Some(by) => {
                                if assignable(by, p.ty, v.ty) {
                                    if (by is Mul || by is Div) && p.ty is Fix && p.ty == v.ty {
                                        expr_keeps(env, cx2, target);
                                    }
                                }
                            },
                            _ => {},
                        }
                    }
                },
                _ => {},
            }
        },
        _ => {},
    }
}

pub(crate) proof fn expr_stmt_keeps(env: Env, cx: Cx, e: Written)
    ensures
        keeps(cx, expr_stmt(env, cx, e).0),
{
    grows_facts();
    reveal(expr_stmt);
    match e {
        Written::Assert(cond, message, span) => {
            condition_keeps(env, cx, *cond);
        },
        Written::Macro(name, tokens, span) => {
            macro_stmt_keeps(cx, name, tokens, span);
        },
        Written::Assign(op, target, assigned, span) => {
            assign_keeps(env, cx, op, *target, *assigned, span);
        },
        Written::Method(_, _, _, span) => {
            method_call_keeps(env, cx, e, true);
        },
        Written::Call(callee, args, span) => {
            if !has_sig(env.sigs, callee.name) {
                command_keeps(env, cx, callee, args, span);
            } else {
                invoke_keeps(env, cx, callee.name, span, None, args);
            }
        },
        _ => {},
    }
}

pub(crate) proof fn stmts_keeps(env: Env, cx: Cx, written: Seq<WrittenStmt>, i: int, acc: Seq<Stmt>)
    ensures
        runs(cx, stmts(env, cx, written, i, acc).0),
    decreases written, written.len() - i, 6int,
{
    grows_facts();
    reveal(stmts);
    reveal(stmt);
    if i >= 0 && i < written.len() {
        stmt_keeps(env, cx, written[i]);
        match stmt(env, cx, written[i]) {
            (cx1, Some(s)) => {
                stmts_keeps(env, cx1, written, i + 1, acc.push(s));
            },
            (cx1, None) => {
                stmts_keeps(env, cx1, written, i + 1, acc);
            },
        }
    }
}

pub(crate) proof fn block_keeps(env: Env, cx: Cx, written: Seq<WrittenStmt>)
    ensures
        contains(cx, block(env, cx, written).0),
    decreases written, written.len() + 1, 7int,
{
    grows_facts();
    reveal(block);
    reveal(stmts);
    leaving_undoes_entering();
    stmts_keeps(env, cx.enter(), written, 0, seq![]);
}

pub(crate) proof fn stmt_keeps(env: Env, cx: Cx, s: WrittenStmt)
    ensures
        runs(cx, stmt(env, cx, s).0),
    decreases s, 0int, 5int,
{
    grows_facts();
    reveal(stmt);
    reveal(if_stmt);
    reveal(loop_stmt);
    reveal(context_stmt);
    reveal(match_stmt);
    match s {
        WrittenStmt::Let(s) => {
            let_stmt_keeps(env, cx, s);
        },
        WrittenStmt::Expr(e) => {
            expr_stmt_keeps(env, cx, e);
        },
        WrittenStmt::If(s) => {
            if_stmt_keeps(env, cx, s);
        },
        WrittenStmt::Loop(s) => {
            loop_stmt_keeps(env, cx, s);
        },
        WrittenStmt::Context(s) => {
            context_stmt_keeps(env, cx, s);
        },
        WrittenStmt::Match(s) => {
            match_stmt_keeps(env, cx, s);
        },
        WrittenStmt::Break(span) => {
            jump_keeps(cx, span, "break"@, Stmt::Break(span));
        },
        WrittenStmt::Continue(span) => {
            jump_keeps(cx, span, "continue"@, Stmt::Continue(span));
        },
        WrittenStmt::Return(returned, span) => {
            return_stmt_keeps(env, cx, returned, span);
        },
    }
}

pub(crate) proof fn else_stmts_keeps(env: Env, cx: Cx, branch: Else)
    ensures
        contains(cx, else_stmts(env, cx, branch).0),
    decreases branch, 0int, 5int,
{
    grows_facts();
    reveal(else_stmts);
    reveal(block);
    reveal(if_stmt);
    match branch {
        Else::Block(b) => {
            block_keeps(env, cx, b.stmts);
        },
        Else::If(nested) => {
            if_stmt_keeps(env, cx, nested);
        },
    }
}

pub(crate) proof fn if_stmt_keeps(env: Env, cx: Cx, s: IfStmt)
    ensures
        contains(cx, if_stmt(env, cx, s).0),
    decreases s, 0int, 4int,
{
    grows_facts();
    reveal(if_stmt);
    reveal(block);
    reveal(else_stmts);
    condition_keeps(env, cx, s.cond);
    match condition(env, cx, s.cond) {
        (cx1, Some(cond)) => {
            block_keeps(env, cx1, s.taken.stmts);
            let (cx2, taken) = block(env, cx1, s.taken.stmts);
            match s.otherwise {
                Some(branch) => {
                    else_stmts_keeps(env, cx2, *branch);
                },
                _ => {},
            }
            let (cx3, otherwise) = match s.otherwise {
                None => (cx2, None),
                Some(branch) => {
                    let (cx3, body) = else_stmts(env, cx2, *branch);
                    (cx3, Some(body))
                },
            };
            inline_attr_keeps(cx3, s.attrs);
        },
        _ => {},
    }
}

pub(crate) proof fn loop_stmt_keeps(env: Env, cx: Cx, s: LoopStmt)
    ensures
        contains(cx, loop_stmt(env, cx, s).0),
    decreases s, 0int, 4int,
{
    grows_facts();
    reveal(loop_stmt);
    reveal(block);
    match s.cond {
        Some(e) => {
            condition_keeps(env, cx, e);
        },
        _ => {},
    }
    let (cx1, cond) = match s.cond {
        None => (cx, Some(None)),
        Some(e) => match condition(env, cx, e) {
            (cx1, None) => (cx1, None),
            (cx1, Some(v)) => (cx1, Some(Some(v))),
        },
    };
    match cond {
        Some(cond) => {
            inline_attr_keeps(cx1, s.attrs);
            match inline_attr(cx1, s.attrs) {
                (cx2, Some(inline)) => {
                    if inline != Inline::Always {
                        block_keeps(env, Cx { in_loop: true, ..cx2 }, s.body.stmts);
                    }
                },
                _ => {},
            }
        },
        _ => {},
    }
}

pub(crate) proof fn positioned_stmt_keeps(env: Env, cx: Cx, s: ContextStmt)
    ensures
        contains(cx, positioned_stmt(env, cx, s).0),
    decreases s, 0int, 3int,
{
    grows_facts();
    reveal(positioned_stmt);
    reveal(stmts);
    leaving_undoes_entering();
    expr_keeps(env, cx, s.selector);
    match expr(env, cx, s.selector) {
        (cx1, Some(v)) => {
            match v.kind {
                Kind::Pos(text) => {
                    inline_attr_keeps(cx1, s.attrs);
                    match inline_attr(cx1, s.attrs) {
                        (cx2, Some(inline)) => {
                            stmts_keeps(env, provide(cx2, Ctx::Position), s.body.stmts, 0, seq![]);
                        },
                        _ => {},
                    }
                },
                _ => {},
            }
        },
        _ => {},
    }
}

pub(crate) proof fn for_vec_keeps(env: Env, cx: Cx, s: ContextStmt, source: Place)
    ensures
        contains(cx, for_vec(env, cx, s, source).0),
    decreases s, 0int, 3int,
{
    grows_facts();
    reveal(for_vec);
    reveal(stmts);
    leaving_undoes_entering();
    if is_static(source) {
        let elem = match source.ty {
            Type::Vec(id) => element_of(cx.types, id),
            _ => Type::I32,
        };
        inline_attr_keeps(cx, s.attrs);
        match inline_attr(cx, s.attrs) {
            (cx1, Some(inline)) => {
                if inline == Inline::Auto {
                    match s.binding {
                        Some(name) => {
                            let cx2 = cx1.enter();
                            let cx3 = cx2.declare(name.name, elem, false);
                            stmts_keeps(env, Cx { in_loop: true, ..cx3 }, s.body.stmts, 0, seq![]);
                        },
                        _ => {},
                    }
                }
            },
            _ => {},
        }
    }
}

pub(crate) proof fn list_source_keeps(env: Env, cx: Cx, s: ContextStmt)
    ensures
        keeps(cx, list_source(env, cx, s).0),
{
    grows_facts();
    reveal(list_source);
    kept_back();
    if s.kind == WrittenKind::For
        && (s.selector is Path || s.selector is Field || s.selector is Index) {
        place_keeps(env, cx, s.selector);
    }
}

pub(crate) proof fn context_stmt_keeps(env: Env, cx: Cx, s: ContextStmt)
    ensures
        contains(cx, context_stmt(env, cx, s).0),
    decreases s, 0int, 4int,
{
    grows_facts();
    reveal(context_stmt);
    reveal(for_vec);
    reveal(positioned_stmt);
    reveal(entity_stmt);
    list_source_keeps(env, cx, s);
    match list_source(env, cx, s) {
        (cx1, Some(source)) => {
            for_vec_keeps(env, cx1, s, source);
        },
        (cx1, None) => {
            if s.kind == WrittenKind::Positioned {
                positioned_stmt_keeps(env, cx1, s);
            } else {
                entity_stmt_keeps(env, cx1, s);
            }
        },
    }
}

pub(crate) proof fn entity_stmt_keeps(env: Env, cx: Cx, s: ContextStmt)
    ensures
        contains(cx, entity_stmt(env, cx, s).0),
    decreases s, 0int, 3int,
{
    grows_facts();
    reveal(entity_stmt);
    reveal(stmts);
    leaving_undoes_entering();
    selector_of_keeps(env, cx, s.selector);
    match selector_of(env, cx, s.selector) {
        (cx1, Some((text, at))) => {
            let kind = kind_of(s.kind);
            if text == "@s"@ {
                require_keeps(cx1, Ctx::Entity, at, "@s"@);
            }
            let cx2 = if text == "@s"@ {
                require(cx1, Ctx::Entity, at, "@s"@)
            } else {
                cx1
            };
            inline_attr_keeps(cx2, s.attrs);
            match inline_attr(cx2, s.attrs) {
                (cx3, Some(inline)) => {
                    let cx4 = provide(
                        cx3,
                        if kind == ContextKind::At {
                            Ctx::Position
                        } else {
                            Ctx::Entity
                        },
                    );
                    let cx5 = match s.binding {
                        Some(name) => cx4.declare(name.name, Type::Selector, false).select(
                            cx4.next_local(),
                            "@s"@,
                        ),
                        None => cx4,
                    };
                    stmts_keeps(env, Cx { in_loop: true, ..cx5 }, s.body.stmts, 0, seq![]);
                },
                _ => {},
            }
        },
        _ => {},
    }
}

pub(crate) proof fn bind_payload_keeps(cx: Cx, payload: Seq<Payload>, i: int, acc: Seq<Binding>)
    ensures
        runs(cx, bind_payload(cx, payload, i, acc).0),
    decreases payload.len() - i,
{
    grows_facts();
    reveal(bind_payload);
    leaving_undoes_entering();
    if i >= 0 && i < payload.len() {
        let p = payload[i];
        bind_payload_keeps(
            cx.declare(p.name, p.ty, false),
            payload,
            i + 1,
            acc.push(Binding { local: cx.next_local(), nbt: p.nbt, ty: p.ty, tag: p.tag }),
        );
    }
}

pub(crate) proof fn arm_keeps(
    env: Env,
    cx: Cx,
    test: ArmTest,
    payload: Seq<Payload>,
    path: Seq<char>,
    written: Seq<WrittenStmt>,
)
    ensures
        contains(cx, arm(env, cx, test, payload, path, written).0),
    decreases written, written.len() + 1, 7int,
{
    grows_facts();
    reveal(arm);
    reveal(bind_payload);
    reveal(stmts);
    leaving_undoes_entering();
    bind_payload_keeps(cx.enter(), payload, 0, seq![]);
    let (cx1, bindings) = bind_payload(cx.enter(), payload, 0, seq![]);
    stmts_keeps(env, cx1, written, 0, seq![]);
}

pub(crate) proof fn payload_of_keeps(
    cx: Cx,
    variant: Ident,
    fields: Seq<Field>,
    binds: Seq<Ident>,
    i: int,
    acc: Seq<Payload>,
)
    ensures
        keeps(cx, payload_of(cx, variant, fields, binds, i, acc).0),
    decreases binds.len() - i,
{
    grows_facts();
    reveal(payload_of);
    if i >= 0 && i < binds.len() {
        let at = field_named(fields, binds[i].name, 0);
        if at < fields.len() {
            let f = fields[at];
            payload_of_keeps(
                cx,
                variant,
                fields,
                binds,
                i + 1,
                acc.push(Payload { name: binds[i].name, nbt: f.nbt, ty: f.ty, tag: f.tag }),
            );
        }
    }
}

pub(crate) proof fn enum_pattern_keeps(cx: Cx, def: EnumDef, arms: Seq<Arm>, pattern: Pattern)
    ensures
        keeps(cx, enum_pattern(cx, def, arms, pattern).0),
{
    grows_facts();
    reveal(enum_pattern);
    match pattern {
        Pattern::Variant(ty, variant, binds, span) => {
            if ty.name == def.name {
                let at = variant_named(def.variants, variant.name, 0);
                if at < def.variants.len() {
                    if !covers(arms, ArmTest::Variant(at as u32), 0) {
                        payload_of_keeps(cx, variant, def.variants[at].fields, binds, 0, seq![]);
                    }
                }
            }
        },
        _ => {},
    }
}

pub(crate) proof fn enum_arms_keeps(
    env: Env,
    cx: Cx,
    def: EnumDef,
    written: Seq<MatchArm>,
    i: int,
    acc: Seq<Arm>,
    wildcard: bool,
)
    ensures
        contains(cx, enum_arms(env, cx, def, written, i, acc, wildcard).0),
    decreases written, written.len() - i, 8int,
{
    grows_facts();
    reveal(enum_arms);
    reveal(arm);
    if i >= 0 && i < written.len() {
        if !wildcard {
            enum_pattern_keeps(cx, def, acc, written[i].pattern);
            match enum_pattern(cx, def, acc, written[i].pattern) {
                (cx1, Some((test, payload, path))) => {
                    arm_keeps(env, cx1, test, payload, path, written[i].body.stmts);
                    let (cx2, a) = arm(env, cx1, test, payload, path, written[i].body.stmts);
                    enum_arms_keeps(
                        env,
                        cx2,
                        def,
                        written,
                        i + 1,
                        acc.push(a),
                        written[i].pattern is Wildcard,
                    );
                },
                _ => {},
            }
        }
    }
}

pub(crate) proof fn enum_match_keeps(env: Env, cx: Cx, s: MatchStmt, def: EnumDef, scrutinee: Place)
    ensures
        contains(cx, enum_match(env, cx, s, def, scrutinee).0),
    decreases s, 0int, 3int,
{
    grows_facts();
    reveal(enum_match);
    reveal(enum_arms);
    enum_arms_keeps(env, cx, def, s.arms, 0, seq![], false);
}

pub(crate) proof fn option_pattern_keeps(cx: Cx, pattern: Pattern, inner: Type, tag: Option<NbtTag>)
    ensures
        keeps(cx, option_pattern(cx, pattern, inner, tag).0),
{
    grows_facts();
    reveal(option_pattern);
}

pub(crate) proof fn option_arms_keeps(
    env: Env,
    cx: Cx,
    written: Seq<MatchArm>,
    i: int,
    inner: Type,
    tag: Option<NbtTag>,
    acc: Seq<Arm>,
    wildcard: bool,
)
    ensures
        contains(cx, option_arms(env, cx, written, i, inner, tag, acc, wildcard).0),
    decreases written, written.len() - i, 8int,
{
    grows_facts();
    reveal(option_arms);
    reveal(arm);
    if i >= 0 && i < written.len() {
        if !wildcard {
            option_pattern_keeps(cx, written[i].pattern, inner, tag);
            match option_pattern(cx, written[i].pattern, inner, tag) {
                (cx1, Some((test, payload, path))) => {
                    if !covers(acc, test, 0) {
                        arm_keeps(env, cx1, test, payload, path, written[i].body.stmts);
                        let (cx2, a) = arm(env, cx1, test, payload, path, written[i].body.stmts);
                        option_arms_keeps(
                            env,
                            cx2,
                            written,
                            i + 1,
                            inner,
                            tag,
                            acc.push(a),
                            written[i].pattern is Wildcard,
                        );
                    }
                },
                _ => {},
            }
        }
    }
}

pub(crate) proof fn option_match_keeps(
    env: Env,
    cx: Cx,
    s: MatchStmt,
    scrutinee: Scrutinee,
    inner: Type,
)
    ensures
        contains(cx, option_match(env, cx, s, scrutinee, inner).0),
    decreases s, 0int, 3int,
{
    grows_facts();
    reveal(option_match);
    reveal(option_arms);
    option_arms_keeps(env, cx, s.arms, 0, inner, scrutinee_tag(scrutinee), seq![], false);
}

pub(crate) proof fn match_stmt_keeps(env: Env, cx: Cx, s: MatchStmt)
    ensures
        contains(cx, match_stmt(env, cx, s).0),
    decreases s, 0int, 4int,
{
    grows_facts();
    reveal(match_stmt);
    reveal(option_match);
    reveal(enum_match);
    if s.scrutinee is Call {
        expr_keeps(env, cx, s.scrutinee);
        match expr(env, cx, s.scrutinee) {
            (cx1, Some(v)) => {
                match v.ty {
                    Type::Option(id) => {
                        let inner = inner_of(cx1.types, id);
                        if !inner.storage() {
                            option_match_keeps(env, cx1, s, Scrutinee::Outcome(v), inner);
                        }
                    },
                    _ => {},
                }
            },
            _ => {},
        }
    } else {
        place_keeps(env, cx, s.scrutinee);
        match place(env, cx, s.scrutinee) {
            (cx1, Some(p)) => {
                match p.ty {
                    Type::Option(id) => {
                        option_match_keeps(
                            env,
                            cx1,
                            s,
                            Scrutinee::Place(p),
                            inner_of(cx1.types, id),
                        );
                    },
                    Type::Enum(id) => {
                        match enum_of(cx1.types, id) {
                            Some(def) => {
                                enum_match_keeps(env, cx1, s, def, p);
                            },
                            _ => {},
                        }
                    },
                    _ => {},
                }
            },
            _ => {},
        }
    }
}

} // verus!
