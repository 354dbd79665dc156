//! What statements mean.

use vstd::prelude::*;

use crate::hir::model::{
    Arm, Attr, Binding, EnumDef, Expr, Field, Kind, Place, RawCommand, RawPart, Scrutinee, Selector,
    Stmt,
};
use crate::hir::rules::exprs::{
    command, condition, expr, expr_expecting, invoke, list_values, method_call, mismatch, path,
    place, resolve, selector_of, wanted_element, Outcome,
};
use crate::hir::rules::types::{attr_word, misplaced, sorted_ctx};
use crate::hir::rules::values::{combine, is_static, nbt_lit, require, runtime_index_message};
use crate::hir::rules::{entry_of, has_sig, value, Cx, Env};
use crate::hir::types::{element_of, enum_of, inner_of};
use crate::hir::{
    attr_named, ctx_named, field_named, is_planned_attr, variant_named, ArmTest, ContextKind, Ctx,
    Inline, NbtTag, Type,
};
use crate::syntax::ast::{BinaryOp, ContextKind as WrittenKind};
use crate::syntax::lexer::Span;
use crate::syntax::model::{
    Attribute, ContextStmt, Else, Expr as Written, Ident, IfStmt, LetStmt, LoopStmt, MatchArm,
    MatchStmt, Pattern, Stmt as WrittenStmt, Token, TokenKind,
};
use crate::text::{find_from, join, lowercase};

verus! {

// Attributes.

/// The contexts a `#[ctx(..)]` names, from token `i` on.
#[verifier::opaque]
pub open spec fn ctx_kinds(cx: Cx, tokens: Seq<Token>, i: int, acc: Seq<Ctx>) -> (
    Cx,
    Option<Seq<Ctx>>,
)
    decreases tokens.len() - i,
{
    if i < 0 || i >= tokens.len() {
        (cx, Some(acc))
    } else {
        match tokens[i].kind {
            TokenKind::Ident(name) => match ctx_named(name) {
                Some(kind) => ctx_kinds(cx, tokens, i + 1, acc.push(kind)),
                None => (
                    cx.fault(
                        tokens[i].span,
                        "unknown context '"@ + name + "'; expected entity or position"@,
                    ),
                    None,
                ),
            },
            TokenKind::Punct(_) => ctx_kinds(cx, tokens, i + 1, acc),
            _ => (cx.fault(tokens[i].span, "expected a context name"@), None),
        }
    }
}

/// `#[ctx(entity)]`, `#[ctx(entity, position)]`.
#[verifier::opaque]
pub open spec fn ctx_attr(cx: Cx, attr: Attribute) -> (Cx, Option<Attr>) {
    match ctx_kinds(cx, attr.tokens, 1, seq![]) {
        (cx1, None) => (cx1, None),
        (cx1, Some(kinds)) => if kinds.len() == 0 {
            (
                cx1.fault(attr.span, "#[ctx(..)] needs at least one of entity, position"@),
                None,
            )
        } else {
            (cx1, Some(Attr::Ctx(sorted_ctx(kinds))))
        },
    }
}

/// One attribute. An unknown one is an error rather than being ignored.
#[verifier::opaque]
pub open spec fn attr_of(cx: Cx, attr: Attribute) -> (Cx, Option<Attr>) {
    match attr_word(attr) {
        None => (cx.fault(attr.span, "expected an attribute name"@), None),
        Some(name) => if name == "ctx"@ {
            ctx_attr(cx, attr)
        } else if attr_named(name) is Some {
            (cx, attr_named(name))
        } else if is_planned_attr(name) {
            (cx.fault(attr.span, "'"@ + name + "' is planned but not implemented yet"@), None)
        } else {
            (cx.fault(attr.span, "unknown attribute '"@ + name + "'"@), None)
        },
    }
}

#[verifier::opaque]
pub open spec fn attrs_of(cx: Cx, attrs: Seq<Attribute>, i: int, acc: Seq<Attr>) -> (
    Cx,
    Seq<Attr>,
)
    decreases attrs.len() - i,
{
    if i < 0 || i >= attrs.len() {
        (cx, acc)
    } else {
        match attr_of(cx, attrs[i]) {
            (cx1, Some(attr)) => attrs_of(cx1, attrs, i + 1, acc.push(attr)),
            (cx1, None) => attrs_of(cx1, attrs, i + 1, acc),
        }
    }
}

/// What inlining the attributes of a statement ask for, from the `i`th on. One that is about
/// something else does not apply to a statement, and is an error.
#[verifier::opaque]
pub open spec fn inline_from(cx: Cx, attrs: Seq<Attribute>, i: int, acc: Option<Inline>) -> (
    Cx,
    Option<Inline>,
)
    decreases attrs.len() - i,
{
    if i < 0 || i >= attrs.len() {
        (cx, acc)
    } else {
        match attr_of(cx, attrs[i]) {
            (cx1, None) => inline_from(cx1, attrs, i + 1, acc),
            (cx1, Some(attr)) => match attr {
                Attr::Inline => inline_from(
                    cx1,
                    attrs,
                    i + 1,
                    if acc is Some {
                        Some(Inline::Always)
                    } else {
                        None
                    },
                ),
                Attr::NoInline => inline_from(
                    cx1,
                    attrs,
                    i + 1,
                    if acc is Some {
                        Some(Inline::Never)
                    } else {
                        None
                    },
                ),
                _ => inline_from(
                    cx1.fault(attrs[i].span, misplaced(attrs[i], "a statement"@)),
                    attrs,
                    i + 1,
                    None,
                ),
            },
        }
    }
}

pub open spec fn inline_attr(cx: Cx, attrs: Seq<Attribute>) -> (Cx, Option<Inline>) {
    inline_from(cx, attrs, 0, Some(Inline::Auto))
}

// Macros.

/// What a `{name}` in a `raw!` string turned out to be: text that is known now, or a value
/// that only the running game knows.
pub enum Interpolated {
    Const(Seq<char>),
    Value(Expr),
}

#[verifier::opaque]
pub open spec fn interpolated(cx: Cx, name: Seq<char>, span: Span) -> (Cx, Option<Interpolated>) {
    if name.len() == 0 {
        (cx.fault(span, "raw! needs a name between the braces"@), None)
    } else {
        match path(cx, Ident { name, span }) {
            (cx1, None) => (cx1, None),
            (cx1, Some(v)) => {
                let alias = match v.kind {
                    Kind::Local(local) => entry_of(cx1.selectors, local),
                    _ => None,
                };
                match alias {
                    Some(text) => (cx1, Some(Interpolated::Const(text))),
                    None => if v.ty is I32 || v.ty is Bool || v.ty is Str {
                        (cx1, Some(Interpolated::Value(v)))
                    } else if v.ty is Fix {
                        (
                            cx1.fault(
                                span,
                                "'"@ + name
                                    + "' is a fixed-point number, which holds scaled units;                          interpolating it would print the wrong value"@,
                            ),
                            None,
                        )
                    } else {
                        (
                            cx1.fault(
                                span,
                                "a "@ + cx1.ty(v.ty)
                                    + " cannot be interpolated into a raw! command"@,
                            ),
                            None,
                        )
                    },
                }
            },
        }
    }
}

/// The parts of a `raw!` string from position `i` on, with `lit` read since the last part.
/// `{` always opens an interpolation; `{{` and `}}` are the characters themselves.
#[verifier::opaque]
pub open spec fn interpolate(
    cx: Cx,
    text: Seq<char>,
    i: int,
    lit: Seq<char>,
    parts: Seq<RawPart>,
    ok: bool,
    span: Span,
) -> (Cx, Option<Seq<RawPart>>)
    decreases text.len() - i,
{
    if i < 0 || i >= text.len() {
        if ok {
            (cx, Some(parts.push(RawPart::Lit(lit))))
        } else {
            (cx, None)
        }
    } else {
        let c = text[i];
        if c != '{' && c != '}' {
            interpolate(cx, text, i + 1, lit.push(c), parts, ok, span)
        } else if i + 1 < text.len() && text[i + 1] == c {
            interpolate(cx, text, i + 2, lit.push(c), parts, ok, span)
        } else if c == '}' {
            (
                cx.fault(
                    span,
                    "this '}' in raw! closes nothing; write '}}' to mean the character"@,
                ),
                None,
            )
        } else {
            let end = find_from(text, '}', i + 1);
            if !(i < end < text.len()) {
                (
                    cx.fault(
                        span,
                        "this '{' in raw! is never closed; write '{{' to mean the character"@,
                    ),
                    None,
                )
            } else {
                match interpolated(cx, text.subrange(i + 1, end), span) {
                    (cx1, Some(Interpolated::Const(known))) => interpolate(
                        cx1,
                        text,
                        end + 1,
                        lit + known,
                        parts,
                        ok,
                        span,
                    ),
                    (cx1, Some(Interpolated::Value(v))) => interpolate(
                        cx1,
                        text,
                        end + 1,
                        seq![],
                        parts.push(RawPart::Lit(lit)).push(RawPart::Value(v)),
                        ok,
                        span,
                    ),
                    (cx1, None) => interpolate(cx1, text, end + 1, lit, parts, false, span),
                }
            }
        }
    }
}

/// A macro as a statement: only `raw!` is one.
#[verifier::opaque]
pub open spec fn macro_stmt(cx: Cx, name: Ident, tokens: Seq<Token>, span: Span) -> (
    Cx,
    Option<RawCommand>,
) {
    if name.name != "raw"@ {
        (cx.fault(span, "unknown macro '"@ + name.name + "!'"@), None)
    } else if tokens.len() == 0 {
        (cx.fault(span, "raw! takes a string literal"@), None)
    } else if tokens.len() > 1 {
        (cx.fault(tokens[1].span, "raw! takes a single string literal"@), None)
    } else {
        match tokens[0].kind {
            TokenKind::Str(text) => match interpolate(
                cx,
                text,
                0,
                seq![],
                seq![],
                true,
                tokens[0].span,
            ) {
                (cx1, None) => (cx1, None),
                (cx1, Some(parts)) => (cx1, Some(RawCommand { parts, span })),
            },
            _ => (cx.fault(tokens[0].span, "raw! takes a string literal"@), None),
        }
    }
}

// Statements without others inside.

#[verifier::opaque]
pub open spec fn return_stmt(env: Env, cx: Cx, returned: Option<Written>, span: Span) -> (
    Cx,
    Option<Stmt>,
) {
    match (returned, env.ret) {
        (None, None) => (cx, Some(Stmt::Return(None, span))),
        (Some(e), Some(want)) => match expr_expecting(env, cx, e, want) {
            (cx1, None) => (cx1, None),
            (cx1, Some(v)) => if v.ty != want {
                (cx1.fault(v.span, mismatch(cx1.ty(want), cx1.ty(v.ty))), None)
            } else {
                (cx1, Some(Stmt::Return(Some(v), span)))
            },
        },
        (Some(e), None) => (
            cx.fault(e.span(), "this function does not return a value"@),
            None,
        ),
        (None, Some(want)) => (
            cx.fault(span, "expected a "@ + cx.ty(want) + " to return"@),
            None,
        ),
    }
}

/// `break` and `continue` are only allowed inside a loop.
pub open spec fn jump(cx: Cx, span: Span, keyword: Seq<char>, s: Stmt) -> (Cx, Option<Stmt>) {
    if cx.in_loop {
        (cx, Some(s))
    } else {
        (cx.fault(span, "'"@ + keyword + "' is only allowed inside a loop"@), None)
    }
}

/// What a `let` binds. The annotation is read first for what cannot say what it is on its
/// own: a list, `nbt!`, and anything holding a `None`.
#[verifier::opaque]
pub open spec fn let_value(env: Env, cx: Cx, s: LetStmt) -> (Cx, Option<Expr>) {
    match s.ty {
        None => expr(env, cx, s.value),
        Some(written) => match resolve(env, cx, written) {
            (cx1, None) => (cx1, None),
            (cx1, Some(want)) => match s.value {
                Written::List(values, span) => list_values(
                    env,
                    cx1,
                    values,
                    0,
                    wanted_element(cx1, want),
                    seq![],
                    span,
                ),
                Written::Macro(name, tokens, span) => if name.name == "nbt"@ {
                    nbt_lit(cx1, tokens, want, span)
                } else {
                    expr_expecting(env, cx1, s.value, want)
                },
                _ => expr_expecting(env, cx1, s.value, want),
            },
        },
    }
}

/// The type a `let` gives its binding: that of the annotation, or of the value.
#[verifier::opaque]
pub open spec fn let_type(env: Env, cx: Cx, s: LetStmt, found: Type) -> (Cx, Option<Type>) {
    match s.ty {
        None => (cx, Some(found)),
        Some(written) => match resolve(env, cx, written) {
            (cx1, None) => (cx1, None),
            (cx1, Some(ty)) => if ty != found {
                (cx1.fault(s.value.span(), mismatch(cx1.ty(ty), cx1.ty(found))), None)
            } else {
                (cx1, Some(ty))
            },
        },
    }
}

/// What a binding of a value is. A compile-time value has nothing to put anywhere: the
/// binding is a name for it, and the `let` itself is not a statement at all.
#[verifier::opaque]
pub open spec fn bind_value(cx: Cx, s: LetStmt, v: Expr, ty: Type) -> (Cx, Option<Stmt>) {
    let local = cx.next_local();
    let cx1 = cx.declare(s.name.name, ty, s.mutable);
    match v.kind {
        Kind::Selector(text) => (cx1.select(local, text), None),
        Kind::View(p) => (
            cx1.alias(local, Place { mutable: s.mutable, via: s.name.name, ..p }),
            None,
        ),
        _ => if v.ty.compile_time() {
            (
                cx1.fault(
                    s.value.span(),
                    "a "@ + cx1.ty(v.ty)
                        + " cannot be bound to a name; write it where it is used"@,
                ),
                None,
            )
        } else {
            (cx1, Some(Stmt::Let(local, v, s.span)))
        },
    }
}

#[verifier::opaque]
pub open spec fn let_stmt(env: Env, cx: Cx, s: LetStmt) -> (Cx, Option<Stmt>) {
    match let_value(env, cx, s) {
        (cx1, None) => (cx1, None),
        (cx1, Some(v)) => match let_type(env, cx1, s, v.ty) {
            (cx2, None) => (cx2, None),
            (cx2, Some(ty)) => bind_value(cx2, s, v, ty),
        },
    }
}

/// Whether a compound assignment's arithmetic is there for these types.
pub open spec fn assignable(op: BinaryOp, to: Type, from: Type) -> bool {
    match (to, from) {
        (Type::I32, Type::I32) => true,
        (Type::Fix(_), Type::I32) => op is Mul || op is Div,
        (Type::Fix(_), _) => to == from,
        _ => false,
    }
}

/// An assignment. A compound assignment is the arithmetic, so it inherits arithmetic's
/// rules; a scale correction is a second command, so `a *= b` on a fix becomes `a = a * b`.
#[verifier::opaque]
pub open spec fn assign(
    env: Env,
    cx: Cx,
    op: Option<BinaryOp>,
    target: Written,
    assigned: Written,
    span: Span,
) -> (Cx, Option<Stmt>) {
    match place(env, cx, target) {
        (cx1, None) => (cx1, None),
        (cx1, Some(p)) => match expr_expecting(env, cx1, assigned, p.ty) {
            (cx2, None) => (cx2, None),
            (cx2, Some(v)) => if !p.mutable {
                (
                    cx2.fault(
                        span,
                        "'"@ + p.via + "' is not mutable; declare it with 'let mut'"@,
                    ),
                    None,
                )
            } else {
                match op {
                    None => if p.ty != v.ty {
                        (
                            cx2.fault(assigned.span(), mismatch(cx2.ty(p.ty), cx2.ty(v.ty))),
                            None,
                        )
                    } else {
                        (cx2, Some(Stmt::Assign(p, op, v, span)))
                    },
                    Some(by) => if !assignable(by, p.ty, v.ty) {
                        (
                            cx2.fault(
                                span,
                                if p.ty is I32 || p.ty is Fix {
                                    mismatch(cx2.ty(p.ty), cx2.ty(v.ty))
                                } else {
                                    "compound assignment needs i32, found "@ + cx2.ty(p.ty)
                                },
                            ),
                            None,
                        )
                    } else if (by is Mul || by is Div) && p.ty is Fix && p.ty == v.ty {
                        match expr(env, cx2, target) {
                            (cx3, None) => (cx3, None),
                            (cx3, Some(t)) => (
                                cx3,
                                Some(
                                    Stmt::Assign(
                                        p,
                                        None,
                                        combine(by, t, v, p.ty, span),
                                        span,
                                    ),
                                ),
                            ),
                        }
                    } else {
                        (cx2, Some(Stmt::Assign(p, op, v, span)))
                    },
                }
            },
        },
    }
}

/// An expression as a statement. Every expression but these is pure, so evaluating one for
/// its effect is asking for nothing to happen.
#[verifier::opaque]
pub open spec fn expr_stmt(env: Env, cx: Cx, e: Written) -> (Cx, Option<Stmt>) {
    match e {
        Written::Assert(cond, message, span) => match condition(env, cx, *cond) {
            (cx1, None) => (cx1, None),
            (cx1, Some(v)) => (cx1, Some(Stmt::Assert(v, message, span))),
        },
        Written::Macro(name, tokens, span) => match macro_stmt(cx, name, tokens, span) {
            (cx1, None) => (cx1, None),
            (cx1, Some(raw)) => (cx1, Some(Stmt::Raw(raw))),
        },
        Written::Assign(op, target, assigned, span) => assign(
            env,
            cx,
            op,
            *target,
            *assigned,
            span,
        ),
        Written::Method(_, _, _, span) => match method_call(env, cx, e, true) {
            (cx1, None) => (cx1, None),
            (cx1, Some(Outcome::Stmt(s))) => (cx1, Some(s)),
            (cx1, Some(Outcome::Value(_))) => (
                cx1.fault(span, "this expression has no effect"@),
                None,
            ),
        },
        Written::Call(callee, args, span) => if !has_sig(env.sigs, callee.name) {
            match command(env, cx, callee, args, span) {
                (cx1, None) => (cx1, None),
                (cx1, Some(v)) => match v.kind {
                    Kind::Command(text) => (
                        cx1,
                        Some(Stmt::Raw(RawCommand { parts: seq![RawPart::Lit(text)], span })),
                    ),
                    _ => (cx1.fault(span, "this expression has no effect"@), None),
                },
            }
        } else {
            match invoke(env, cx, callee.name, span, None, args) {
                (cx1, None) => (cx1, None),
                (cx1, Some(r)) => (cx1, Some(Stmt::CallFor(r.callee, r.args, span))),
            }
        },
        _ => (cx.fault(e.span(), "this expression has no effect"@), None),
    }
}

// Statements with others inside.

/// The statements from the `i`th on that mean something.
#[verifier::opaque]
pub open spec fn stmts(env: Env, cx: Cx, written: Seq<WrittenStmt>, i: int, acc: Seq<Stmt>) -> (
    Cx,
    Seq<Stmt>,
)
    decreases written, written.len() - i, 6int,
{
    if i < 0 || i >= written.len() {
        (cx, acc)
    } else {
        match stmt(env, cx, written[i]) {
            (cx1, Some(s)) => stmts(env, cx1, written, i + 1, acc.push(s)),
            (cx1, None) => stmts(env, cx1, written, i + 1, acc),
        }
    }
}

/// The statements of a block, in a scope of their own.
#[verifier::opaque]
pub open spec fn block(env: Env, cx: Cx, written: Seq<WrittenStmt>) -> (Cx, Seq<Stmt>)
    decreases written, written.len() + 1, 7int,
{
    let (cx1, body) = stmts(env, cx.enter(), written, 0, seq![]);
    (cx1.leave(), body)
}

#[verifier::opaque]
pub open spec fn stmt(env: Env, cx: Cx, s: WrittenStmt) -> (Cx, Option<Stmt>)
    decreases s, 0int, 5int,
{
    match s {
        WrittenStmt::Let(s) => let_stmt(env, cx, s),
        WrittenStmt::Expr(e) => expr_stmt(env, cx, e),
        WrittenStmt::If(s) => if_stmt(env, cx, s),
        WrittenStmt::Loop(s) => loop_stmt(env, cx, s),
        WrittenStmt::Context(s) => context_stmt(env, cx, s),
        WrittenStmt::Match(s) => match_stmt(env, cx, s),
        WrittenStmt::Break(span) => jump(cx, span, "break"@, Stmt::Break(span)),
        WrittenStmt::Continue(span) => jump(cx, span, "continue"@, Stmt::Continue(span)),
        WrittenStmt::Return(returned, span) => return_stmt(env, cx, returned, span),
    }
}

/// The other side of an `if`. `else if` is just an `if` in the else block.
#[verifier::opaque]
pub open spec fn else_stmts(env: Env, cx: Cx, branch: Else) -> (Cx, Seq<Stmt>)
    decreases branch, 0int, 5int,
{
    match branch {
        Else::Block(b) => block(env, cx, b.stmts),
        Else::If(nested) => match if_stmt(env, cx, nested) {
            (cx1, Some(s)) => (cx1, seq![s]),
            (cx1, None) => (cx1, seq![]),
        },
    }
}

#[verifier::opaque]
pub open spec fn if_stmt(env: Env, cx: Cx, s: IfStmt) -> (Cx, Option<Stmt>)
    decreases s, 0int, 4int,
{
    match condition(env, cx, s.cond) {
        (cx1, None) => (cx1, None),
        (cx1, Some(cond)) => {
            let (cx2, taken) = block(env, cx1, s.taken.stmts);
            let (cx3, otherwise) = match s.otherwise {
                None => (cx2, None),
                Some(branch) => {
                    let (cx3, body) = else_stmts(env, cx2, *branch);
                    (cx3, Some(body))
                },
            };
            match inline_attr(cx3, s.attrs) {
                (cx4, None) => (cx4, None),
                (cx4, Some(inline)) => if inline == Inline::Always && !(otherwise is None
                    && taken.len() == 1) {
                    (
                        cx4.fault(
                            s.span,
                            "only a single-statement 'if' with no 'else' can be inlined"@,
                        ),
                        None,
                    )
                } else {
                    (cx4, Some(Stmt::If(cond, taken, otherwise, inline, s.span)))
                },
            }
        },
    }
}

#[verifier::opaque]
pub open spec fn loop_stmt(env: Env, cx: Cx, s: LoopStmt) -> (Cx, Option<Stmt>)
    decreases s, 0int, 4int,
{
    let (cx1, cond) = match s.cond {
        None => (cx, Some(None)),
        Some(e) => match condition(env, cx, e) {
            (cx1, None) => (cx1, None),
            (cx1, Some(v)) => (cx1, Some(Some(v))),
        },
    };
    match cond {
        None => (cx1, None),
        Some(cond) => match inline_attr(cx1, s.attrs) {
            (cx2, None) => (cx2, None),
            (cx2, Some(inline)) => if inline == Inline::Always {
                (cx2.fault(s.span, "a loop is always its own function"@), None)
            } else {
                let (cx3, body) = block(env, Cx { in_loop: true, ..cx2 }, s.body.stmts);
                (
                    Cx { in_loop: cx2.in_loop, ..cx3 },
                    Some(Stmt::Loop(cond, body, inline, s.span)),
                )
            },
        },
    }
}

/// The statements of the body of a context statement, in a scope that is already open.
pub open spec fn provide(cx: Cx, ctx: Ctx) -> Cx {
    Cx { provided: cx.provided.push(ctx), ..cx.enter() }
}

pub open spec fn withdraw(cx: Cx) -> Cx {
    Cx {
        provided: if cx.provided.len() > 0 {
            cx.provided.drop_last()
        } else {
            cx.provided
        },
        ..cx.leave()
    }
}

/// `positioned pos!(~ ~1 ~) { .. }`. It provides a position and nothing else: there is no
/// entity behind a coordinate.
#[verifier::opaque]
pub open spec fn positioned_stmt(env: Env, cx: Cx, s: ContextStmt) -> (Cx, Option<Stmt>)
    decreases s, 0int, 3int,
{
    match expr(env, cx, s.selector) {
        (cx1, None) => (cx1, None),
        (cx1, Some(v)) => match v.kind {
            Kind::Pos(text) => match inline_attr(cx1, s.attrs) {
                (cx2, None) => (cx2, None),
                (cx2, Some(inline)) => {
                    let (cx3, body) = stmts(
                        env,
                        provide(cx2, Ctx::Position),
                        s.body.stmts,
                        0,
                        seq![],
                    );
                    (
                        withdraw(cx3),
                        Some(
                            Stmt::Context(
                                ContextKind::Positioned,
                                Selector { text, span: v.span },
                                body,
                                inline,
                                s.span,
                            ),
                        ),
                    )
                },
            },
            _ => (
                cx1.fault(
                    v.span,
                    "'positioned' takes coordinates, as in 'positioned pos!(~ ~1 ~)'; found "@
                        + cx1.ty(v.ty),
                ),
                None,
            ),
        },
    }
}

/// `for x in v { .. }` over a list.
#[verifier::opaque]
pub open spec fn for_vec(env: Env, cx: Cx, s: ContextStmt, source: Place) -> (Cx, Option<Stmt>)
    decreases s, 0int, 3int,
{
    if !is_static(source) {
        (cx.fault(s.selector.span(), runtime_index_message()), None)
    } else {
        let elem = match source.ty {
            Type::Vec(id) => element_of(cx.types, id),
            _ => Type::I32,
        };
        match inline_attr(cx, s.attrs) {
            (cx1, None) => (cx1, None),
            (cx1, Some(inline)) => if inline != Inline::Auto {
                (cx1.fault(s.span, "a loop is always its own function"@), None)
            } else {
                match s.binding {
                    None => (cx1, None),
                    Some(name) => {
                        let cx2 = cx1.enter();
                        let binding = cx2.next_local();
                        let cx3 = cx2.declare(name.name, elem, false);
                        let (cx4, body) = stmts(
                            env,
                            Cx { in_loop: true, ..cx3 },
                            s.body.stmts,
                            0,
                            seq![],
                        );
                        (
                            Cx { in_loop: cx3.in_loop, ..cx4.leave() },
                            Some(Stmt::ForVec(source, binding, body, s.span)),
                        )
                    },
                }
            },
        }
    }
}

/// What a `for` iterates over, if it is a list. Anything else is a selector, and what is
/// wrong with it as a list is not reported.
#[verifier::opaque]
pub open spec fn list_source(env: Env, cx: Cx, s: ContextStmt) -> (Cx, Option<Place>) {
    if s.kind == WrittenKind::For && (s.selector is Path || s.selector is Field
        || s.selector is Index) {
        match place(env, cx, s.selector) {
            (cx1, Some(p)) => if p.ty is Vec {
                (cx1, Some(p))
            } else {
                (Cx { errs: kept(cx1.errs, cx.errs.len()), ..cx1 }, None)
            },
            (cx1, None) => (Cx { errs: kept(cx1.errs, cx.errs.len()), ..cx1 }, None),
        }
    } else {
        (cx, None)
    }
}

/// The first `n` of a list.
pub open spec fn kept<T>(s: Seq<T>, n: nat) -> Seq<T> {
    if n <= s.len() {
        s.take(n as int)
    } else {
        s
    }
}

pub open spec fn kind_of(kind: WrittenKind) -> ContextKind {
    match kind {
        WrittenKind::As => ContextKind::As,
        WrittenKind::At => ContextKind::At,
        WrittenKind::For => ContextKind::For,
        WrittenKind::Positioned => ContextKind::Positioned,
    }
}

#[verifier::opaque]
pub open spec fn context_stmt(env: Env, cx: Cx, s: ContextStmt) -> (Cx, Option<Stmt>)
    decreases s, 0int, 4int,
{
    match list_source(env, cx, s) {
        (cx1, Some(source)) => for_vec(env, cx1, s, source),
        (cx1, None) => if s.kind == WrittenKind::Positioned {
            positioned_stmt(env, cx1, s)
        } else {
            entity_stmt(env, cx1, s)
        },
    }
}

/// `as`, `at` and `for` over the entities a selector finds. `break` and `continue` mean
/// something inside them.
#[verifier::opaque]
pub open spec fn entity_stmt(env: Env, cx: Cx, s: ContextStmt) -> (Cx, Option<Stmt>)
    decreases s, 0int, 3int,
{
    match selector_of(env, cx, s.selector) {
        (cx1, None) => (cx1, None),
        (cx1, Some((text, at))) => {
            let kind = kind_of(s.kind);
            let cx2 = if text == "@s"@ {
                require(cx1, Ctx::Entity, at, "@s"@)
            } else {
                cx1
            };
            match inline_attr(cx2, s.attrs) {
                (cx3, None) => (cx3, None),
                (cx3, Some(inline)) => {
                    let cx4 = provide(
                        cx3,
                        if kind == ContextKind::At {
                            Ctx::Position
                        } else {
                            Ctx::Entity
                        },
                    );
                    // The binding is a name for `@s` inside the body.
                    let cx5 = match s.binding {
                        Some(name) => cx4.declare(name.name, Type::Selector, false).select(
                            cx4.next_local(),
                            "@s"@,
                        ),
                        None => cx4,
                    };
                    let (cx6, body) = stmts(
                        env,
                        Cx { in_loop: true, ..cx5 },
                        s.body.stmts,
                        0,
                        seq![],
                    );
                    (
                        withdraw(Cx { in_loop: cx5.in_loop, ..cx6 }),
                        Some(
                            Stmt::Context(
                                kind,
                                Selector { text, span: at },
                                body,
                                inline,
                                s.span,
                            ),
                        ),
                    )
                },
            }
        },
    }
}

/// A payload field to bind: the name, the key it is stored under, its type and its tag.
pub struct Payload {
    pub name: Seq<char>,
    pub nbt: Seq<char>,
    pub ty: Type,
    pub tag: Option<NbtTag>,
}

/// The bindings of an arm, from the `i`th on.
#[verifier::opaque]
pub open spec fn bind_payload(cx: Cx, payload: Seq<Payload>, i: int, acc: Seq<Binding>) -> (
    Cx,
    Seq<Binding>,
)
    decreases payload.len() - i,
{
    if i < 0 || i >= payload.len() {
        (cx, acc)
    } else {
        let p = payload[i];
        bind_payload(
            cx.declare(p.name, p.ty, false),
            payload,
            i + 1,
            acc.push(Binding { local: cx.next_local(), nbt: p.nbt, ty: p.ty, tag: p.tag }),
        )
    }
}

/// One arm's body, with its payload bindings in scope.
#[verifier::opaque]
pub open spec fn arm(
    env: Env,
    cx: Cx,
    test: ArmTest,
    payload: Seq<Payload>,
    path: Seq<char>,
    written: Seq<WrittenStmt>,
) -> (Cx, Arm)
    decreases written, written.len() + 1, 7int,
{
    let (cx1, bindings) = bind_payload(cx.enter(), payload, 0, seq![]);
    let (cx2, body) = stmts(env, cx1, written, 0, seq![]);
    (cx2.leave(), Arm { test, path, bindings, body })
}

/// Whether one of the arms from the `i`th on has that test.
pub open spec fn covers(arms: Seq<Arm>, test: ArmTest, i: int) -> bool
    decreases arms.len() - i,
{
    if i < 0 || i >= arms.len() {
        false
    } else {
        arms[i].test == test || covers(arms, test, i + 1)
    }
}

/// The payload fields a pattern binds, from the `i`th name on.
#[verifier::opaque]
pub open spec fn payload_of(
    cx: Cx,
    variant: Ident,
    fields: Seq<Field>,
    binds: Seq<Ident>,
    i: int,
    acc: Seq<Payload>,
) -> (Cx, Option<Seq<Payload>>)
    decreases binds.len() - i,
{
    if i < 0 || i >= binds.len() {
        (cx, Some(acc))
    } else {
        let at = field_named(fields, binds[i].name, 0);
        if at >= fields.len() {
            (
                cx.fault(
                    binds[i].span,
                    "'"@ + variant.name + "' has no field named '"@ + binds[i].name + "'"@,
                ),
                None,
            )
        } else {
            let f = fields[at];
            payload_of(
                cx,
                variant,
                fields,
                binds,
                i + 1,
                acc.push(Payload { name: binds[i].name, nbt: f.nbt, ty: f.ty, tag: f.tag }),
            )
        }
    }
}

/// What a pattern of a `match` on an enum tests, binds and is called.
#[verifier::opaque]
pub open spec fn enum_pattern(cx: Cx, def: EnumDef, arms: Seq<Arm>, pattern: Pattern) -> (
    Cx,
    Option<(ArmTest, Seq<Payload>, Seq<char>)>,
) {
    match pattern {
        Pattern::Wildcard(_) => (cx, Some((ArmTest::Other, seq![], "other"@))),
        Pattern::Variant(ty, variant, binds, span) => if ty.name != def.name {
            (
                cx.fault(
                    ty.span,
                    "expected a variant of '"@ + def.name + "', found '"@ + ty.name + "'"@,
                ),
                None,
            )
        } else {
            let at = variant_named(def.variants, variant.name, 0);
            if at >= def.variants.len() {
                (
                    cx.fault(
                        variant.span,
                        "'"@ + def.name + "' has no variant named '"@ + variant.name + "'"@,
                    ),
                    None,
                )
            } else if covers(arms, ArmTest::Variant(at as u32), 0) {
                (
                    cx.fault(
                        span,
                        "'"@ + variant.name + "' is already covered by an earlier arm"@,
                    ),
                    None,
                )
            } else {
                match payload_of(cx, variant, def.variants[at].fields, binds, 0, seq![]) {
                    (cx1, None) => (cx1, None),
                    (cx1, Some(payload)) => (
                        cx1,
                        Some(
                            (
                                ArmTest::Variant(at as u32),
                                payload,
                                lowercase(def.variants[at].name),
                            ),
                        ),
                    ),
                }
            }
        },
        _ => (
            cx.fault(
                pattern.span(),
                "'"@ + def.name + "' is an enum, so its arms name its variants"@,
            ),
            None,
        ),
    }
}

/// The arms of a `match` on an enum, from the `i`th on. `_` has to be the last.
#[verifier::opaque]
pub open spec fn enum_arms(
    env: Env,
    cx: Cx,
    def: EnumDef,
    written: Seq<MatchArm>,
    i: int,
    acc: Seq<Arm>,
    wildcard: bool,
) -> (Cx, Option<(Seq<Arm>, bool)>)
    decreases written, written.len() - i, 8int,
{
    if i < 0 || i >= written.len() {
        (cx, Some((acc, wildcard)))
    } else if wildcard {
        (
            cx.fault(
                written[i].span,
                "'_' has to be the last arm; nothing after it can run"@,
            ),
            None,
        )
    } else {
        match enum_pattern(cx, def, acc, written[i].pattern) {
            (cx1, None) => (cx1, None),
            (cx1, Some((test, payload, path))) => {
                let (cx2, a) = arm(env, cx1, test, payload, path, written[i].body.stmts);
                enum_arms(
                    env,
                    cx2,
                    def,
                    written,
                    i + 1,
                    acc.push(a),
                    written[i].pattern is Wildcard,
                )
            },
        }
    }
}

/// The names of the variants from the `i`th on that no arm covers.
pub open spec fn uncovered(def: EnumDef, arms: Seq<Arm>, i: int) -> Seq<Seq<char>>
    decreases def.variants.len() - i,
{
    if i < 0 || i >= def.variants.len() {
        seq![]
    } else if covers(arms, ArmTest::Variant(i as u32), 0) {
        uncovered(def, arms, i + 1)
    } else {
        seq![def.variants[i].name] + uncovered(def, arms, i + 1)
    }
}

pub open spec fn last_span(written: Seq<MatchArm>, span: Span) -> Span {
    if written.len() > 0 {
        written.last().span
    } else {
        span
    }
}

/// `match` on an enum, checked for exhaustiveness: the guards of a match that misses a
/// variant would simply all fail and the block would do nothing.
#[verifier::opaque]
pub open spec fn enum_match(env: Env, cx: Cx, s: MatchStmt, def: EnumDef, scrutinee: Place) -> (
    Cx,
    Option<Stmt>,
)
    decreases s, 0int, 3int,
{
    match enum_arms(env, cx, def, s.arms, 0, seq![], false) {
        (cx1, None) => (cx1, None),
        (cx1, Some((arms, wildcard))) => {
            let missing = uncovered(def, arms, 0);
            if !wildcard && missing.len() > 0 {
                (
                    cx1.fault(
                        s.span,
                        "this match does not cover every variant of '"@ + def.name + "': "@
                            + join(missing, ", "@),
                    ),
                    None,
                )
            } else if wildcard && arms.len() > def.variants.len() {
                (
                    cx1.fault(
                        last_span(s.arms, s.span),
                        "this arm cannot be reached: every variant is already covered"@,
                    ),
                    None,
                )
            } else {
                (cx1, Some(Stmt::Match(Scrutinee::Place(scrutinee), arms, s.span)))
            }
        },
    }
}

/// What a pattern of a `match` on an option tests, binds and is called. What an option
/// holds is stored under no key of its own.
#[verifier::opaque]
pub open spec fn option_pattern(
    cx: Cx,
    pattern: Pattern,
    inner: Type,
    tag: Option<NbtTag>,
) -> (Cx, Option<(ArmTest, Seq<Payload>, Seq<char>)>) {
    match pattern {
        Pattern::Present(bind, _) => (
            cx,
            Some(
                (
                    ArmTest::Present,
                    seq![Payload { name: bind.name, nbt: seq![], ty: inner, tag }],
                    "some"@,
                ),
            ),
        ),
        Pattern::Absent(_) => (cx, Some((ArmTest::Absent, seq![], "none"@))),
        Pattern::Wildcard(_) => (cx, Some((ArmTest::Other, seq![], "other"@))),
        Pattern::Variant(ty, _, _, _) => (
            cx.fault(
                pattern.span(),
                "an option is matched with 'Some(x)' and 'None', not '"@ + ty.name + "'"@,
            ),
            None,
        ),
    }
}

/// The arms of a `match` on an option, from the `i`th on.
#[verifier::opaque]
pub open spec fn option_arms(
    env: Env,
    cx: Cx,
    written: Seq<MatchArm>,
    i: int,
    inner: Type,
    tag: Option<NbtTag>,
    acc: Seq<Arm>,
    wildcard: bool,
) -> (Cx, Option<(Seq<Arm>, bool)>)
    decreases written, written.len() - i, 8int,
{
    if i < 0 || i >= written.len() {
        (cx, Some((acc, wildcard)))
    } else if wildcard {
        (
            cx.fault(
                written[i].span,
                "'_' has to be the last arm; nothing after it can run"@,
            ),
            None,
        )
    } else {
        match option_pattern(cx, written[i].pattern, inner, tag) {
            (cx1, None) => (cx1, None),
            (cx1, Some((test, payload, path))) => if covers(acc, test, 0) {
                (cx1.fault(written[i].pattern.span(), "this arm is already covered"@), None)
            } else {
                let (cx2, a) = arm(env, cx1, test, payload, path, written[i].body.stmts);
                option_arms(
                    env,
                    cx2,
                    written,
                    i + 1,
                    inner,
                    tag,
                    acc.push(a),
                    written[i].pattern is Wildcard,
                )
            },
        }
    }
}

pub open spec fn scrutinee_tag(scrutinee: Scrutinee) -> Option<NbtTag> {
    match scrutinee {
        Scrutinee::Place(p) => p.tag,
        Scrutinee::Outcome(_) => None,
    }
}

/// `match o { Some(x) => .., None => .. }`. Two arms, and the test is whether the path is
/// there at all.
#[verifier::opaque]
pub open spec fn option_match(
    env: Env,
    cx: Cx,
    s: MatchStmt,
    scrutinee: Scrutinee,
    inner: Type,
) -> (Cx, Option<Stmt>)
    decreases s, 0int, 3int,
{
    match option_arms(env, cx, s.arms, 0, inner, scrutinee_tag(scrutinee), seq![], false) {
        (cx1, None) => (cx1, None),
        (cx1, Some((arms, wildcard))) => {
            let other = covers(arms, ArmTest::Other, 0);
            let present = covers(arms, ArmTest::Present, 0) || other;
            let absent = covers(arms, ArmTest::Absent, 0) || other;
            if !(present && absent) {
                (
                    cx1.fault(
                        s.span,
                        "this match does not cover "@ + if present {
                            "None"@
                        } else {
                            "Some(x)"@
                        },
                    ),
                    None,
                )
            } else if wildcard && arms.len() > 2 {
                (
                    cx1.fault(
                        last_span(s.arms, s.span),
                        "this arm cannot be reached: Some and None are already covered"@,
                    ),
                    None,
                )
            } else {
                (cx1, Some(Stmt::Match(scrutinee, arms, s.span)))
            }
        },
    }
}

pub open spec fn not_matchable(found: Seq<char>) -> Seq<char> {
    "only an enum or an option can be matched on, found "@ + found
}

/// `match`. A call that answers with an option is matched where it stands: there is no
/// compound to look at, only the two halves of its outcome.
#[verifier::opaque]
pub open spec fn match_stmt(env: Env, cx: Cx, s: MatchStmt) -> (Cx, Option<Stmt>)
    decreases s, 0int, 4int,
{
    if s.scrutinee is Call {
        match expr(env, cx, s.scrutinee) {
            (cx1, None) => (cx1, None),
            (cx1, Some(v)) => match v.ty {
                Type::Option(id) => {
                    let inner = inner_of(cx1.types, id);
                    if inner.storage() {
                        (
                            cx1.fault(
                                s.scrutinee.span(),
                                "a "@ + cx1.ty(inner)
                                    + " does not fit in a register; bind the option first"@,
                            ),
                            None,
                        )
                    } else {
                        option_match(env, cx1, s, Scrutinee::Outcome(v), inner)
                    }
                },
                _ => (cx1.fault(s.scrutinee.span(), not_matchable(cx1.ty(v.ty))), None),
            },
        }
    } else {
        match place(env, cx, s.scrutinee) {
            (cx1, None) => (cx1, None),
            (cx1, Some(p)) => match p.ty {
                Type::Option(id) => option_match(
                    env,
                    cx1,
                    s,
                    Scrutinee::Place(p),
                    inner_of(cx1.types, id),
                ),
                Type::Enum(id) => match enum_of(cx1.types, id) {
                    Some(def) => enum_match(env, cx1, s, def, p),
                    None => (cx1, None),
                },
                _ => (cx1.fault(s.scrutinee.span(), not_matchable(cx1.ty(p.ty))), None),
            },
        }
    }
}

/// Whether control cannot reach the end of a statement list without returning.
///
/// Deliberately shallow: a `return`, or an `if`/`else` or a `match` where every side
/// returns.
#[verifier::opaque]
pub open spec fn always_returns(body: Seq<Stmt>, i: int) -> bool
    decreases body, body.len() - i, 1int,
{
    if i < 0 || i >= body.len() {
        false
    } else {
        stmt_returns(body[i]) || always_returns(body, i + 1)
    }
}

#[verifier::opaque]
pub open spec fn stmt_returns(s: Stmt) -> bool
    decreases s, 0int, 0int,
{
    match s {
        Stmt::Return(_, _) => true,
        Stmt::If(_, taken, Some(otherwise), _, _) => always_returns(taken, 0) && always_returns(
            otherwise,
            0,
        ),
        Stmt::Match(_, arms, _) => arms_return(arms, 0),
        _ => false,
    }
}

#[verifier::opaque]
pub open spec fn arms_return(arms: Seq<Arm>, i: int) -> bool
    decreases arms, arms.len() - i, 0int,
{
    if i < 0 || i >= arms.len() {
        true
    } else {
        always_returns(arms[i].body, 0) && arms_return(arms, i + 1)
    }
}

} // verus!
