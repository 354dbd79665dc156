//! What expressions mean.

use vstd::prelude::*;

use crate::hir::model::{
    Component, Expr, Field, Generic, Kind, Place, Reference, Root, Stmt, Template, Types,
};
use crate::hir::rules::types::{resolve_written, Table};
use crate::hir::rules::values::{
    binary_type, binding_place, combine, by_const, component_json, component_of, convert,
    finds_one, index_fault, instance_of, is_static, lend, nbt_lit, place_element, place_field,
    position_text, require, scale_of, set_member, string_method, style_member, text_component,
};
use crate::hir::rules::{entry_of, has_sig, resolve_name, sig_at, value, Cx, Env, Sig};
use crate::hir::types::{
    element_of, enum_of, inner_of, instantiated, lookup, option_type, struct_of, substituted,
    template_of, unified, vec_type, DEPTH,
};
use crate::hir::{
    builtin_type, field_named, variant_named, Ctx, FnId, ParamSig, RefKind, Scale, Type,
};
use crate::schema::{command_named, ArgType, Command, ParamModel, PartModel};
use crate::syntax::ast::{BinaryOp, Borrow, UnaryOp};
use crate::syntax::lexer::Span;
use crate::syntax::model::{
    Expr as Written, FieldInit, Ident, ScaleArg, StructLit, TypeName,
};
use crate::text::{begins, bool_text, int_text, join, nat_text, quote};

verus! {

/// What a method call turned out to be.
pub enum Outcome {
    Stmt(Stmt),
    Value(Expr),
}

pub open spec fn not_defined(name: Seq<char>) -> Seq<char> {
    "'"@ + name + "' is not defined"@
}

pub open spec fn mismatch(want: Seq<char>, found: Seq<char>) -> Seq<char> {
    "expected "@ + want + ", found "@ + found
}

/// A name: a binding, or `None` where no binding has that name.
#[verifier::opaque]
pub open spec fn path(cx: Cx, name: Ident) -> (Cx, Option<Expr>) {
    let span = name.span;
    match resolve_name(cx.scopes, name.name) {
        Some(local) => match entry_of(cx.aliases, local) {
            Some(place) => (cx, value(Kind::Field(place), place.ty, span)),
            None => (cx, value(Kind::Local(local), cx.local(local).ty, span)),
        },
        None => if name.name == "None"@ {
            match cx.expected {
                Some(ty) => if ty is Option {
                    (cx, value(Kind::Absent, ty, span))
                } else {
                    (cx.fault(span, "expected "@ + cx.ty(ty) + ", found None"@), None)
                },
                None => (
                    cx.fault(
                        span,
                        "'None' does not say what it is an option of: annotate the binding, as in 'let x: Option<i32> = None;'"@,
                    ),
                    None,
                ),
            }
        } else {
            (cx.fault(span, not_defined(name.name)), None)
        },
    }
}

/// An operator in front of a value. Negation is the same command whatever the scale is.
#[verifier::opaque]
pub open spec fn unary_of(cx: Cx, op: UnaryOp, operand: Expr, span: Span) -> (Cx, Option<Expr>) {
    let want = if op == UnaryOp::Not {
        Type::Bool
    } else if operand.ty is Fix {
        operand.ty
    } else {
        Type::I32
    };
    if operand.ty != want {
        (cx.fault(span, mismatch(want.name_text(), cx.ty(operand.ty))), None)
    } else {
        (cx, value(Kind::Unary(op, Box::new(operand)), want, span))
    }
}

/// `fix::<S>(e)` of a value: the raw units of an `i32`, or another fix restated at `S`.
/// What storage holds is read from its place instead.
#[verifier::opaque]
pub open spec fn fix_of(cx: Cx, scale: u32, operand: Expr, span: Span) -> (Cx, Option<Expr>) {
    let ty = Type::Fix(Scale::Const(scale));
    match operand.ty {
        Type::I32 => (cx, Some(Expr { ty, ..operand })),
        Type::Fix(Scale::Const(from)) => if from == scale {
            (cx, Some(operand))
        } else {
            (
                cx,
                Some(
                    by_const(
                        BinaryOp::Div,
                        by_const(BinaryOp::Mul, operand, scale, ty, span),
                        from,
                        ty,
                        span,
                    ),
                ),
            )
        },
        _ => (
            cx.fault(
                span,
                "'fix::<"@ + nat_text(scale as nat) + ">' takes an i32 or another fix, found "@
                    + cx.ty(operand.ty),
            ),
            None,
        ),
    }
}

/// `Some(e)` of a value.
#[verifier::opaque]
pub open spec fn some_of(cx: Cx, held: Expr, span: Span) -> (Cx, Option<Expr>) {
    if held.ty.compile_time() {
        (
            cx.fault(span, "a "@ + held.ty.name_text() + " has no runtime value to hold"@),
            None,
        )
    } else if held.ty is Option {
        (
            cx.fault(
                span,
                "Some(None) and None cannot be told apart: a path is either there or not"@,
            ),
            None,
        )
    } else {
        let (types, ty) = option_type(cx.types, held.ty);
        (Cx { types, ..cx }, value(Kind::Present(Box::new(held)), ty, span))
    }
}

/// `o?` of a value. It comes out into a register, so it has to be the kind of thing a
/// register holds, and only a function that can return nothing can leave with nothing.
#[verifier::opaque]
pub open spec fn try_of(env: Env, cx: Cx, tried: Expr, span: Span) -> (Cx, Option<Expr>) {
    match tried.ty {
        Type::Option(id) => {
            let inner = inner_of(cx.types, id);
            if inner.storage() {
                (
                    cx.fault(
                        span,
                        "'?' unwraps into a register, and a "@ + cx.ty(inner)
                            + " does not fit in one; match on it instead"@,
                    ),
                    None,
                )
            } else if !(env.ret is Some && env.ret->0 is Option) {
                (
                    cx.fault(
                        span,
                        "'?' leaves the function with nothing, so the function has to return an Option"@,
                    ),
                    None,
                )
            } else {
                (cx, value(Kind::Try(Box::new(tried)), inner, span))
            }
        },
        _ => (cx.fault(span, "'?' takes an Option, found "@ + cx.ty(tried.ty)), None),
    }
}

/// A selector that is already lowered: a literal, or a name bound to one.
#[verifier::opaque]
pub open spec fn selector_text(cx: Cx, e: Expr) -> (Cx, Option<Seq<char>>) {
    let text = match e.kind {
        Kind::Selector(text) => Some(text),
        Kind::Local(local) => entry_of(cx.selectors, local),
        _ => None,
    };
    match text {
        Some(text) => (cx, Some(text)),
        None => (cx.fault(e.span, "expected a selector"@), None),
    }
}

/// A view of the entity a selector finds. Vanilla's `data` commands take one entity and
/// fail silently on several; how many a selector may find is known here.
#[verifier::opaque]
pub open spec fn view_place(cx: Cx, ty: Ident, text: Seq<char>, at: Span, span: Span) -> (
    Cx,
    Option<Expr>,
) {
    let shape = lookup(cx.types.by_name, ty.name);
    if !finds_one(text) {
        (
            cx.fault(
                at,
                "'"@ + text
                    + "' can find more than one entity, and data takes exactly                      one; add 'limit=1' or use '@s', '@p' or '@r'"@,
            ),
            None,
        )
    } else {
        let cx1 = if text == "@s"@ {
            require(cx, Ctx::Entity, at, "a view of '@s'"@)
        } else {
            cx
        };
        let shown = match shape {
            Some(shape) => shape,
            None => Type::I32,
        };
        (
            cx1,
            value(
                Kind::View(
                    Place {
                        root: Root::Entity(text),
                        steps: seq![],
                        ty: shown,
                        tag: None,
                        mutable: false,
                        via: ty.name,
                    },
                ),
                shown,
                span,
            ),
        )
    }
}

pub open spec fn is_view(cx: Cx, ty: Ident) -> bool {
    match lookup(cx.types.by_name, ty.name) {
        Some(Type::View(_)) => true,
        _ => false,
    }
}

/// How one argument is written into a command's text. Everything has to be known now: a
/// command is a string.
#[verifier::opaque]
pub open spec fn render_arg(cx: Cx, arg: Expr, want: ArgType) -> (Cx, Option<Seq<char>>) {
    match (arg.kind, want) {
        (Kind::Component(c), ArgType::Component) => (cx, Some(component_json(c))),
        (Kind::Pos(text), ArgType::Pos) => (cx, Some(text)),
        (Kind::Resource(text), ArgType::Resource) => (cx, Some(text)),
        (Kind::Selector(text), ArgType::Selector) => (cx, Some(text)),
        (Kind::Int(n), ArgType::I32) => (cx, Some(int_text(n as int))),
        (Kind::Bool(b), ArgType::Bool) => (cx, Some(bool_text(b))),
        (Kind::Str(text), ArgType::Str) => (cx, Some(text)),
        (Kind::Str(text), ArgType::Nbt) => (cx, Some(text)),
        (Kind::Str(text), ArgType::Component) => (cx, Some(text)),
        (Kind::Str(text), ArgType::Raw) => (cx, Some(text)),
        _ => if arg.kind is Local || arg.kind is Binary || arg.kind is Unary {
            (
                cx.fault(
                    arg.span,
                    "a command argument has to be known at compile time; passing a runtime value needs a macro function, which is not implemented yet"@,
                ),
                None,
            )
        } else {
            (
                cx.fault(
                    arg.span,
                    "expected "@ + want.name_text() + " here, found "@ + cx.ty(arg.ty),
                ),
                None,
            )
        },
    }
}

/// The words of a command with its arguments in their places.
pub open spec fn command_words(parts: Seq<PartModel>, args: Seq<Seq<char>>) -> Seq<Seq<char>> {
    Seq::new(
        parts.len(),
        |i: int|
            match parts[i] {
                PartModel::Literal(word) => word,
                PartModel::Arg(index) => if index < args.len() {
                    args[index as int]
                } else {
                    seq![]
                },
            },
    )
}

/// The contexts a call needs and does not have, from `i` on.
pub open spec fn missing_ctx(provided: Seq<Ctx>, ctx: Seq<Ctx>, i: int) -> Seq<Seq<char>>
    decreases ctx.len() - i,
{
    if i < 0 || i >= ctx.len() {
        seq![]
    } else if provided.contains(ctx[i]) {
        missing_ctx(provided, ctx, i + 1)
    } else {
        seq![ctx[i].name_text()] + missing_ctx(provided, ctx, i + 1)
    }
}

/// Complains when a call needs a context the caller does not have.
#[verifier::opaque]
pub open spec fn check_ctx(cx: Cx, name: Seq<char>, ctx: Seq<Ctx>, span: Span) -> Cx {
    let missing = missing_ctx(cx.provided, ctx, 0);
    if missing.len() == 0 {
        cx
    } else {
        let kinds = join(missing, ", "@);
        cx.fault(
            span,
            "'"@ + name + "' declares #[ctx("@ + kinds + ")] but no "@ + kinds
                + " context is available here; wrap the call in an 'as' block, or declare #[ctx("@
                + kinds + ")] on this function too"@,
        )
    }
}

/// What a call's arguments came to: the values to write before it, the places it borrows,
/// and the type of each.
pub struct Given {
    pub values: Seq<Expr>,
    pub borrows: Seq<Option<Place>>,
    pub actual: Seq<Type>,
}

/// A place handed to a borrowed parameter. A borrow is a name for a path, and a path that
/// is only finished at runtime has no name.
#[verifier::opaque]
pub open spec fn borrow_place(
    env: Env,
    cx: Cx,
    kind: Borrow,
    place: Place,
    span: Span,
    given: Given,
) -> (Cx, Option<Given>) {
    if !is_static(place) {
        (
            cx.fault(
                span,
                "an element reached by a runtime index cannot be borrowed: its path is not known while compiling; assign to it instead"@,
            ),
            None,
        )
    } else if kind == Borrow::Mutable && !place.mutable {
        (
            cx.fault(span, "'"@ + place.via + "' is not mutable; declare it with 'let mut'"@),
            None,
        )
    } else {
        (
            cx,
            Some(
                Given {
                    values: given.values,
                    borrows: given.borrows.push(Some(lend(env, cx, place))),
                    actual: given.actual.push(place.ty),
                },
            ),
        )
    }
}

/// The parameters matched against the actual types, one after the other.
pub open spec fn bind_params(
    t: Types,
    params: Seq<ParamSig>,
    actual: Seq<Type>,
    i: int,
    bound: Seq<Option<Type>>,
) -> Seq<Option<Type>>
    decreases params.len() - i,
{
    if i < 0 || i >= params.len() || i >= actual.len() {
        bound
    } else {
        bind_params(
            t,
            params,
            actual,
            i + 1,
            unified(t, params[i].ty, actual[i], bound, DEPTH as nat).0,
        )
    }
}

/// What is bound, if everything is.
pub open spec fn all_bound(bound: Seq<Option<Type>>) -> Option<Seq<Type>> {
    if forall|i: int| 0 <= i < bound.len() ==> #[trigger] bound[i] is Some {
        Some(Seq::new(bound.len(), |i: int| bound[i]->0))
    } else {
        None
    }
}

/// The names of the parameters nothing is bound to, from `i` on.
pub open spec fn unbound(generics: Seq<Generic>, bound: Seq<Option<Type>>, i: int) -> Seq<
    Seq<char>,
>
    decreases generics.len() - i,
{
    if i < 0 || i >= generics.len() || i >= bound.len() {
        seq![]
    } else if bound[i] is None {
        seq![generics[i].name] + unbound(generics, bound, i + 1)
    } else {
        unbound(generics, bound, i + 1)
    }
}

/// The arguments checked against the parameters, now that those are concrete.
pub open spec fn check_params(
    cx: Cx,
    params: Seq<ParamSig>,
    actual: Seq<Type>,
    i: int,
    args: Seq<Type>,
    span: Span,
) -> (Cx, bool)
    decreases params.len() - i,
{
    if i < 0 || i >= params.len() || i >= actual.len() {
        (cx, true)
    } else {
        let (types, want) = substituted(cx.types, params[i].ty, args);
        let cx1 = Cx { types, ..cx };
        if actual[i] != want {
            (cx1.fault(span, mismatch(cx1.ty(want), cx1.ty(actual[i]))), false)
        } else {
            check_params(cx1, params, actual, i + 1, args, span)
        }
    }
}

/// What a call resolved to: the function, what it returns, and the values to write
/// before it.
pub struct Resolved {
    pub callee: FnId,
    pub ret: Option<Type>,
    pub args: Seq<Expr>,
}

/// The function a call means, once its arguments are known: the argument types decide the
/// type arguments, and those pick the instance.
#[verifier::opaque]
pub open spec fn pick(env: Env, cx: Cx, sig: Sig, name: Seq<char>, given: Given, span: Span) -> (
    Cx,
    Option<Resolved>,
) {
    let bound = bind_params(
        cx.types,
        sig.params,
        given.actual,
        0,
        Seq::new(sig.generics.len(), |i: int| None),
    );
    match all_bound(bound) {
        None => (
            cx.fault(
                span,
                "cannot tell what "@ + join(unbound(sig.generics, bound, 0), ", "@)
                    + " is in the call to '"@ + name + "'; no argument mentions it"@,
            ),
            None,
        ),
        Some(args) => match check_params(cx, sig.params, given.actual, 0, args, span) {
            (cx1, false) => (cx1, None),
            (cx1, true) => {
                let (types, ret) = match sig.ret {
                    Some(ty) => {
                        let (types, ty) = substituted(cx1.types, ty, args);
                        (types, Some(ty))
                    },
                    None => (cx1.types, None),
                };
                let cx2 = Cx { types, ..cx1 };
                match sig.id {
                    Some(id) => (
                        cx2,
                        Some(Resolved { callee: id, ret, args: given.values }),
                    ),
                    None => match instance_of(
                        env,
                        cx2,
                        sig.item,
                        args,
                        given.borrows,
                        name,
                        span,
                    ) {
                        (cx3, None) => (cx3, None),
                        (cx3, Some(id)) => (
                            cx3,
                            Some(Resolved { callee: id, ret, args: given.values }),
                        ),
                    },
                }
            },
        },
    }
}

/// The names of the declared fields that got no value, from `i` on.
pub open spec fn missing_fields(declared: Seq<Field>, slots: Seq<Option<Expr>>, i: int) -> Seq<
    Seq<char>,
>
    decreases declared.len() - i,
{
    if i < 0 || i >= declared.len() || i >= slots.len() {
        seq![]
    } else if slots[i] is None {
        seq!["'"@ + declared[i].name + "'"@] + missing_fields(declared, slots, i + 1)
    } else {
        missing_fields(declared, slots, i + 1)
    }
}

/// The written fields put where they were declared, from the `i`th written one on.
#[verifier::opaque]
pub open spec fn fill_fields(
    cx: Cx,
    declared: Seq<Field>,
    written: Seq<(Ident, Expr)>,
    i: int,
    slots: Seq<Option<Expr>>,
    what: Seq<char>,
) -> (Cx, Option<Seq<Option<Expr>>>)
    decreases written.len() - i,
{
    if i < 0 || i >= written.len() {
        (cx, Some(slots))
    } else {
        let (name, given) = written[i];
        let at = field_named(declared, name.name, 0);
        if at >= declared.len() || at >= slots.len() {
            (
                cx.fault(
                    name.span,
                    "'"@ + what + "' has no field named '"@ + name.name + "'"@,
                ),
                None,
            )
        } else if given.ty != declared[at].ty {
            (
                cx.fault(given.span, mismatch(cx.ty(declared[at].ty), cx.ty(given.ty))),
                None,
            )
        } else if slots[at] is Some {
            (cx.fault(name.span, "the field '"@ + name.name + "' is set twice"@), None)
        } else {
            fill_fields(cx, declared, written, i + 1, slots.update(at, Some(given)), what)
        }
    }
}

/// Checks an initialiser list against a declaration: every field, exactly once, at its
/// declared type. A compound missing a key is not an error in NBT, so a partial
/// construction would only show up as a value that is quietly never there.
#[verifier::opaque]
pub open spec fn check_fields(
    cx: Cx,
    declared: Seq<Field>,
    written: Seq<(Ident, Expr)>,
    span: Span,
    what: Seq<char>,
) -> (Cx, Option<Seq<Expr>>) {
    match fill_fields(
        cx,
        declared,
        written,
        0,
        Seq::new(declared.len(), |i: int| None),
        what,
    ) {
        (cx1, None) => (cx1, None),
        (cx1, Some(slots)) => {
            let missing = missing_fields(declared, slots, 0);
            if missing.len() > 0 {
                (
                    cx1.fault(
                        span,
                        "'"@ + what + "' is missing a value for "@ + join(missing, ", "@),
                    ),
                    None,
                )
            } else {
                (cx1, Some(Seq::new(slots.len(), |i: int| slots[i]->0)))
            }
        },
    }
}

/// The types a generic struct's written fields bind, from the `i`th on.
pub open spec fn bind_fields(
    t: Types,
    fields: Seq<Field>,
    written: Seq<(Ident, Expr)>,
    i: int,
    bound: Seq<Option<Type>>,
) -> Seq<Option<Type>>
    decreases written.len() - i,
{
    if i < 0 || i >= written.len() {
        bound
    } else {
        let at = field_named(fields, written[i].0.name, 0);
        bind_fields(
            t,
            fields,
            written,
            i + 1,
            if at < fields.len() {
                unified(t, fields[at].ty, written[i].1.ty, bound, DEPTH as nat).0
            } else {
                bound
            },
        )
    }
}

/// `Pair { a: 1, b: 2 }` for a generic struct: the values decide the type arguments.
#[verifier::opaque]
pub open spec fn generic_struct(
    cx: Cx,
    template: Template,
    written: Seq<(Ident, Expr)>,
    span: Span,
) -> (Cx, Option<Expr>) {
    let bound = bind_fields(
        cx.types,
        template.fields,
        written,
        0,
        Seq::new(template.generics.len(), |i: int| None),
    );
    match all_bound(bound) {
        None => (
            cx.fault(
                span,
                "cannot tell what "@ + join(unbound(template.generics, bound, 0), ", "@)
                    + " is in '"@ + template.name
                    + "' here; annotate the binding, as in 'let p: "@ + template.name
                    + "<i32> = ..'"@,
            ),
            None,
        ),
        Some(args) => match instantiated(cx.types, template.name, args) {
            (types, Some(Type::Struct(id))) => {
                let cx1 = Cx { types, ..cx };
                match struct_of(types, id) {
                    None => (cx1, None),
                    Some(def) => match check_fields(
                        cx1,
                        def.fields,
                        written,
                        span,
                        def.name,
                    ) {
                        (cx2, None) => (cx2, None),
                        (cx2, Some(fields)) => (
                            cx2,
                            value(Kind::Struct(id, fields), Type::Struct(id), span),
                        ),
                    },
                }
            },
            (types, _) => (Cx { types, ..cx }, None),
        },
    }
}

/// A list whose elements are known. `[]` alone says nothing about what it holds.
#[verifier::opaque]
pub open spec fn list_of(cx: Cx, elem: Option<Type>, values: Seq<Expr>, span: Span) -> (
    Cx,
    Option<Expr>,
) {
    match elem {
        None => (
            cx.fault(span, "an empty list needs a type: write 'let v: Vec<i32> = [];'"@),
            None,
        ),
        Some(elem) => if elem.compile_time() {
            (
                cx.fault(
                    span,
                    "a "@ + elem.name_text()
                        + " exists only while compiling, so a list cannot hold one"@,
                ),
                None,
            )
        } else {
            let (types, ty) = vec_type(cx.types, elem);
            (Cx { types, ..cx }, value(Kind::List(elem, values), ty, span))
        },
    }
}

/// `o.expect("m")`.
#[verifier::opaque]
pub open spec fn expect_of(cx: Cx, place: Place, inner: Type, args: Seq<Written>, span: Span) -> (
    Cx,
    Option<Expr>,
) {
    if !(args.len() == 1 && args[0] is Str) {
        (cx.fault(span, "'expect' takes one message, as a string literal"@), None)
    } else if inner.storage() {
        (
            cx.fault(
                span,
                "'expect' unwraps into a register, and a "@ + cx.ty(inner)
                    + " does not fit in one; match on it instead"@,
            ),
            None,
        )
    } else {
        (
            cx,
            value(
                Kind::Expect(
                    Box::new(Expr { kind: Kind::Field(place), ty: place.ty, span }),
                    args[0]->Str_0,
                ),
                inner,
                span,
            ),
        )
    }
}

/// The type a conversion method is named after.
pub open spec fn conversion_target(name: Seq<char>) -> Option<Type> {
    if begins(name, "as_"@) {
        builtin_type(name.skip(3))
    } else {
        builtin_type(""@)
    }
}

// ---------------------------------------------------------------------------
// Expressions inside expressions.
// ---------------------------------------------------------------------------

#[verifier::opaque]
pub open spec fn expr(env: Env, cx: Cx, e: Written) -> (Cx, Option<Expr>)
    decreases e, 0int, 10int,
{
    let span = e.span();
    match e {
        Written::Int(n, _) => (cx, value(Kind::Int(n), Type::I32, span)),
        Written::Bool(b, _) => (cx, value(Kind::Bool(b), Type::Bool, span)),
        Written::Str(text, _) => (cx, value(Kind::Str(text), Type::Str, span)),
        Written::Selector(text, _) => (cx, value(Kind::Selector(text), Type::Selector, span)),
        Written::Resource(text, _) => (cx, value(Kind::Resource(text), Type::Resource, span)),
        Written::Path(name) => path(cx, name),
        Written::Unary(op, operand, _) => match expr(env, cx, *operand) {
            (cx1, None) => (cx1, None),
            (cx1, Some(v)) => unary_of(cx1, op, v, span),
        },
        Written::Binary(op, lhs, rhs, _) => match expr(env, cx, *lhs) {
            (cx1, None) => (cx1, None),
            (cx1, Some(l)) => match expr(env, cx1, *rhs) {
                (cx2, None) => (cx2, None),
                (cx2, Some(r)) => match binary_type(cx2, op, l.ty, r.ty, span) {
                    (cx3, None) => (cx3, None),
                    (cx3, Some(ty)) => (cx3, Some(combine(op, l, r, ty, span))),
                },
            },
        },
        Written::Fix(scale, operand, _) => fix_cast(env, cx, scale, *operand, span),
        Written::Assign(_, _, _, _) => (
            cx.fault(span, "an assignment is a statement and produces no value"@),
            None,
        ),
        Written::Call(callee, args, _) => call(env, cx, callee, args, span),
        Written::Text(args, _) => match text_macro(env, cx, args) {
            (cx1, None) => (cx1, None),
            (cx1, Some(c)) => (cx1, value(Kind::Component(c), Type::Component, span)),
        },
        Written::Macro(name, tokens, _) => if name.name == "pos"@ {
            match position_text(cx, tokens, span) {
                (cx1, None) => (cx1, None),
                (cx1, Some(text)) => (cx1, value(Kind::Pos(text), Type::Pos, span)),
            }
        } else if name.name == "nbt"@ {
            if cx.expected is Some && !(cx.expected->0 is Param) {
                nbt_lit(cx, tokens, cx.expected->0, span)
            } else {
                (
                    cx.fault(
                        span,
                        "nbt! has to know what it is being written into: annotate the binding, as in 'let m: Mob = nbt!({ .. });'"@,
                    ),
                    None,
                )
            }
        } else {
            (cx.fault(span, "'"@ + name.name + "!' does not produce a value"@), None)
        },
        Written::Struct(lit) => composite_lit(env, cx, lit),
        Written::Borrow(_, _, _) => (
            cx.fault(
                span,
                "a reference can only be an argument: pass it to a function, or use the place directly"@,
            ),
            None,
        ),
        Written::Field(_, _, _) => match place(env, cx, e) {
            (cx1, None) => (cx1, None),
            (cx1, Some(p)) => (cx1, value(Kind::Field(p), p.ty, span)),
        },
        Written::Index(_, _, _) => match place(env, cx, e) {
            (cx1, None) => (cx1, None),
            (cx1, Some(p)) => (cx1, value(Kind::Field(p), p.ty, span)),
        },
        Written::Try(tried, _) => match expr(env, cx, *tried) {
            (cx1, None) => (cx1, None),
            (cx1, Some(v)) => try_of(env, cx1, v, span),
        },
        Written::Assert(_, _, _) => (
            cx.fault(span, "'debug_assert!' is a statement and produces no value"@),
            None,
        ),
        Written::ViewOf(ty, selector, _) => if !is_view(cx, ty) {
            (
                cx.fault(
                    ty.span,
                    "'"@ + ty.name + "' is not a view; declare it with #[entity]"@,
                ),
                None,
            )
        } else {
            match selector_of(env, cx, *selector) {
                (cx1, None) => (cx1, None),
                (cx1, Some((text, at))) => view_place(cx1, ty, text, at, span),
            }
        },
        Written::Range(_, _, _) => (
            cx.fault(
                span,
                "a range is only the argument of 'slice'; there is no range type"@,
            ),
            None,
        ),
        Written::List(values, _) => list_values(env, cx, values, 0, None, seq![], span),
        Written::Method(_, name, _, _) => match method_call(env, cx, e, false) {
            (cx1, None) => (cx1, None),
            (cx1, Some(Outcome::Value(v))) => (cx1, Some(v)),
            (cx1, Some(Outcome::Stmt(_))) => (
                cx1.fault(span, "'"@ + name.name + "' does not return a value"@),
                None,
            ),
        },
    }
}

/// An expression in a place whose type is already known.
#[verifier::opaque]
pub open spec fn expr_expecting(env: Env, cx: Cx, e: Written, want: Type) -> (Cx, Option<Expr>)
    decreases e, 0int, 11int,
{
    let (cx1, v) = expr(env, cx.expecting(Some(want)), e);
    (cx1.expecting(cx.expected), v)
}

/// A selector: a literal, or a name bound to one.
#[verifier::opaque]
pub open spec fn selector_of(env: Env, cx: Cx, e: Written) -> (Cx, Option<(Seq<char>, Span)>)
    decreases e, 0int, 11int,
{
    match expr(env, cx, e) {
        (cx1, None) => (cx1, None),
        (cx1, Some(v)) => match selector_text(cx1, v) {
            (cx2, None) => (cx2, None),
            (cx2, Some(text)) => (cx2, Some((text, v.span))),
        },
    }
}

/// `fix::<S>(e)`.
#[verifier::opaque]
pub open spec fn fix_cast(env: Env, cx: Cx, scale: ScaleArg, operand: Written, span: Span) -> (
    Cx,
    Option<Expr>,
)
    decreases operand, 0int, 12int,
{
    match scale_of(env, cx, scale) {
        (cx1, None) => (cx1, None),
        (cx1, Some(scale)) => match expr(env, cx1, operand) {
            (cx2, None) => (cx2, None),
            (cx2, Some(v)) => if v.ty.nbt_scalar() {
                match place(env, cx2, operand) {
                    (cx3, None) => (cx3, None),
                    (cx3, Some(p)) => (
                        cx3,
                        value(
                            Kind::ReadScaled(p, scale),
                            Type::Fix(Scale::Const(scale)),
                            span,
                        ),
                    ),
                }
            } else {
                fix_of(cx2, scale, v, span)
            },
        },
    }
}

/// `p`, `p.x` or `o.inner.a`: the value it addresses. Only a binding and its fields can
/// be addressed.
#[verifier::opaque]
pub open spec fn place(env: Env, cx: Cx, e: Written) -> (Cx, Option<Place>)
    decreases e, 0int, 5int,
{
    match e {
        Written::Path(name) => match resolve_name(cx.scopes, name.name) {
            None => (cx.fault(name.span, not_defined(name.name)), None),
            Some(local) => (cx, Some(binding_place(cx, local, name.name))),
        },
        Written::Field(base, name, span) => match place(env, cx, *base) {
            (cx1, None) => (cx1, None),
            (cx1, Some(p)) => place_field(cx1, p, base.span(), name, span),
        },
        Written::Index(base, index, span) => match place(env, cx, *base) {
            (cx1, None) => (cx1, None),
            (cx1, Some(p)) => match index_fault(cx1, p, base.span(), span) {
                (cx2, false) => (cx2, None),
                (cx2, true) => match expr(env, cx2, *index) {
                    (cx3, None) => (cx3, None),
                    (cx3, Some(i)) => place_element(cx3, p, i),
                },
            },
        },
        _ => (cx.fault(e.span(), "expected a binding or one of its fields"@), None),
    }
}

/// A call: a built-in, a command, or a function of the program. User functions win:
/// defining `fn setblock` shadows the command.
#[verifier::opaque]
pub open spec fn call(env: Env, cx: Cx, callee: Ident, args: Seq<Written>, span: Span) -> (
    Cx,
    Option<Expr>,
)
    decreases args, args.len() + 1, 20int,
{
    if callee.name == "Some"@ {
        if args.len() != 1 {
            (cx.fault(span, "Some takes one value"@), None)
        } else {
            match expr(env, cx, args[0]) {
                (cx1, None) => (cx1, None),
                (cx1, Some(v)) => some_of(cx1, v, span),
            }
        }
    } else if !has_sig(env.sigs, callee.name) {
        command(env, cx, callee, args, span)
    } else {
        match invoke(env, cx, callee.name, span, None, args) {
            (cx1, None) => (cx1, None),
            (cx1, Some(r)) => match r.ret {
                None => (
                    cx1.fault(span, "'"@ + callee.name + "' does not return a value"@),
                    None,
                ),
                Some(ty) => (cx1, value(Kind::Call(r.callee, r.args), ty, span)),
            },
        }
    }
}

/// A call of the game: `block(..)`, or a command.
#[verifier::opaque]
pub open spec fn command(env: Env, cx: Cx, callee: Ident, args: Seq<Written>, span: Span) -> (
    Cx,
    Option<Expr>,
)
    decreases args, args.len() + 1, 19int,
{
    if callee.name == "block"@ {
        block_test(env, cx, args, span)
    } else {
        match env.toolchain {
            None => (
                cx.fault(
                    callee.span,
                    "'"@ + callee.name
                        + "' is not defined; if it is a Minecraft command, set 'toolchain' in minewell.toml so the compiler knows the command set"@,
                ),
                None,
            ),
            Some(commands) => {
                let at = command_named(commands, callee.name, 0);
                if at >= commands.len() {
                    (cx.fault(callee.span, not_defined(callee.name)), None)
                } else {
                    let sig = commands[at];
                    if args.len() != sig.params.len() {
                        (
                            cx.fault(
                                span,
                                "the command '"@ + sig.name + "' takes "@ + nat_text(
                                    sig.params.len(),
                                ) + " argument(s), but "@ + nat_text(args.len())
                                    + " were given"@,
                            ),
                            None,
                        )
                    } else {
                        match command_args(env, cx, args, 0, sig.params, seq![]) {
                            (cx1, None) => (cx1, None),
                            (cx1, Some(texts)) => (
                                cx1,
                                value(
                                    Kind::Command(
                                        join(command_words(sig.parts, texts), " "@),
                                    ),
                                    Type::I32,
                                    span,
                                ),
                            ),
                        }
                    }
                }
            },
        }
    }
}

/// The arguments of a command as text, from the `i`th on. A command naming a function
/// that does not exist is the archetypal silent failure, so such a name is kept to be
/// checked once the pack is known.
#[verifier::opaque]
pub open spec fn command_args(
    env: Env,
    cx: Cx,
    args: Seq<Written>,
    i: int,
    params: Seq<ParamModel>,
    acc: Seq<Seq<char>>,
) -> (Cx, Option<Seq<Seq<char>>>)
    decreases args, args.len() - i, 18int,
{
    if i < 0 || i >= args.len() || i >= params.len() {
        (cx, Some(acc))
    } else {
        match expr(env, cx, args[i]) {
            (cx1, None) => (cx1, None),
            (cx1, Some(v)) => match render_arg(cx1, v, params[i].ty) {
                (cx2, None) => (cx2, None),
                (cx2, Some(text)) => {
                    let cx3 = if params[i].parser == "minecraft:function"@ {
                        Cx {
                            refs: cx2.refs.push(
                                Reference {
                                    id: text,
                                    kind: RefKind::Function,
                                    span: args[i].span(),
                                },
                            ),
                            ..cx2
                        }
                    } else {
                        cx2
                    };
                    command_args(env, cx3, args, i + 1, params, acc.push(text))
                },
            },
        }
    }
}

pub open spec fn block_message() -> Seq<char> {
    "'block' takes a position and a block id, as in 'block(pos!(~ ~-1 ~), minecraft:stone)'"@
}

/// `block(pos!(~ ~-1 ~), minecraft:stone)`: is that block there?
#[verifier::opaque]
pub open spec fn block_test(env: Env, cx: Cx, args: Seq<Written>, span: Span) -> (Cx, Option<Expr>)
    decreases args, args.len() + 1, 18int,
{
    if args.len() != 2 {
        (cx.fault(span, block_message()), None)
    } else {
        match expr(env, cx, args[0]) {
            (cx1, None) => (cx1, None),
            (cx1, Some(at)) => match expr(env, cx1, args[1]) {
                (cx2, None) => (cx2, None),
                (cx2, Some(id)) => match (at.kind, id.kind) {
                    (Kind::Pos(at), Kind::Resource(id)) => (
                        cx2,
                        value(Kind::Block(at, id), Type::Bool, span),
                    ),
                    _ => (cx2.fault(span, block_message()), None),
                },
            },
        }
    }
}

/// Resolves a call: checks the arguments, borrows what is borrowed, and picks the
/// instance this combination belongs to.
#[verifier::opaque]
pub open spec fn invoke(
    env: Env,
    cx: Cx,
    name: Seq<char>,
    span: Span,
    receiver: Option<Place>,
    args: Seq<Written>,
) -> (Cx, Option<Resolved>)
    decreases args, args.len() + 1, 19int,
{
    let at = sig_at(env.sigs, name, 0);
    if at >= env.sigs.len() {
        (cx, None)
    } else {
        let sig = env.sigs[at];
        let cx1 = check_ctx(cx, name, sig.ctx, span);
        let given = args.len() + if receiver is Some {
            1nat
        } else {
            0nat
        };
        if given != sig.params.len() {
            (
                cx1.fault(
                    span,
                    "'"@ + name + "' takes "@ + nat_text(sig.params.len())
                        + " argument(s), but "@ + nat_text(given) + " were given"@,
                ),
                None,
            )
        } else {
            let start = Given { values: seq![], borrows: seq![], actual: seq![] };
            let first = match receiver {
                None => (cx1, Some(start)),
                Some(place) => receive(env, cx1, sig.params[0], place, span, start),
            };
            match first {
                (cx2, None) => (cx2, None),
                (cx2, Some(begun)) => match pass_args(
                    env,
                    cx2,
                    name,
                    span,
                    sig.params,
                    args,
                    0,
                    begun,
                ) {
                    (cx3, None) => (cx3, None),
                    (cx3, Some(given)) => pick(env, cx3, sig, name, given, span),
                },
            }
        }
    }
}

/// The receiver of a method: read like any other expression, or borrowed.
#[verifier::opaque]
pub open spec fn receive(
    env: Env,
    cx: Cx,
    param: ParamSig,
    place: Place,
    span: Span,
    given: Given,
) -> (Cx, Option<Given>) {
    match param.borrow {
        None => (
            cx,
            Some(
                Given {
                    values: given.values.push(
                        Expr { kind: Kind::Field(place), ty: place.ty, span },
                    ),
                    borrows: given.borrows.push(None),
                    actual: given.actual.push(place.ty),
                },
            ),
        ),
        Some(kind) => borrow_place(env, cx, kind, place, span, given),
    }
}

/// The written arguments, from the `i`th on. Every parameter is either a value to write
/// before the call, or a place to lend.
#[verifier::opaque]
pub open spec fn pass_args(
    env: Env,
    cx: Cx,
    name: Seq<char>,
    span: Span,
    params: Seq<ParamSig>,
    args: Seq<Written>,
    i: int,
    given: Given,
) -> (Cx, Option<Given>)
    decreases args, args.len() - i, 18int,
{
    let at = given.actual.len() as int;
    if i < 0 || i >= args.len() || at >= params.len() {
        (cx, Some(given))
    } else {
        let passed = match params[at].borrow {
            None => match expr_expecting(env, cx, args[i], params[at].ty) {
                (cx1, None) => (cx1, None),
                (cx1, Some(v)) => (
                    cx1,
                    Some(
                        Given {
                            values: given.values.push(v),
                            borrows: given.borrows.push(None),
                            actual: given.actual.push(v.ty),
                        },
                    ),
                ),
            },
            Some(kind) => match args[i] {
                Written::Borrow(borrow, lent, at_span) => if borrow != kind && kind
                    == Borrow::Mutable {
                    (
                        cx.fault(
                            at_span,
                            "'"@ + name + "' takes this by &mut; write '&mut'"@,
                        ),
                        None,
                    )
                } else {
                    match place(env, cx, *lent) {
                        (cx1, None) => (cx1, None),
                        (cx1, Some(p)) => borrow_place(env, cx1, kind, p, span, given),
                    }
                },
                _ => (
                    cx.fault(
                        args[i].span(),
                        "'"@ + name + "' takes this by reference; write '&' or '&mut'"@,
                    ),
                    None,
                ),
            },
        };
        match passed {
            (cx1, None) => (cx1, None),
            (cx1, Some(given1)) => pass_args(
                env,
                cx1,
                name,
                span,
                params,
                args,
                i + 1,
                given1,
            ),
        }
    }
}

/// `text!(a, b, c)`. The head of several is empty on purpose: the first element of a list
/// is what the rest inherit style from.
#[verifier::opaque]
pub open spec fn text_macro(env: Env, cx: Cx, args: Seq<Written>) -> (Cx, Option<Component>)
    decreases args, args.len() + 1, 19int,
{
    match text_parts(env, cx, args, 0, seq![], true) {
        (cx1, None) => (cx1, None),
        (cx1, Some(parts)) => if parts.len() == 1 {
            (cx1, Some(parts[0]))
        } else {
            (cx1, Some(Component { extra: parts, ..text_component(""@) }))
        },
    }
}

/// The arguments of `text!` from the `i`th on; every one of them is looked at.
#[verifier::opaque]
pub open spec fn text_parts(
    env: Env,
    cx: Cx,
    args: Seq<Written>,
    i: int,
    acc: Seq<Component>,
    ok: bool,
) -> (Cx, Option<Seq<Component>>)
    decreases args, args.len() - i, 18int,
{
    if i < 0 || i >= args.len() {
        if ok {
            (cx, Some(acc))
        } else {
            (cx, None)
        }
    } else {
        match component(env, cx, args[i]) {
            (cx1, Some(c)) => text_parts(env, cx1, args, i + 1, acc.push(c), ok),
            (cx1, None) => text_parts(env, cx1, args, i + 1, acc, false),
        }
    }
}

/// One argument of `text!`, as a component.
#[verifier::opaque]
pub open spec fn component(env: Env, cx: Cx, e: Written) -> (Cx, Option<Component>)
    decreases e, 0int, 11int,
{
    match expr(env, cx, e) {
        (cx1, None) => (cx1, None),
        (cx1, Some(v)) => component_of(env, cx1, v),
    }
}

/// The value a style method sets.
#[verifier::opaque]
pub open spec fn style_value(
    cx: Cx,
    name: Seq<char>,
    fixed: Option<Seq<char>>,
    args: Seq<Written>,
    span: Span,
) -> (Cx, Option<Seq<char>>) {
    match fixed {
        Some(shown) => if args.len() > 0 {
            (cx.fault(span, "'"@ + name + "' takes no arguments"@), None)
        } else {
            (cx, Some(shown))
        },
        None => if args.len() == 1 && args[0] is Str {
            (cx, Some(quote(args[0]->Str_0)))
        } else {
            (
                cx.fault(
                    span,
                    "'"@ + name + "' takes one string, as in '.color(\"#ff8800\")'"@,
                ),
                None,
            )
        },
    }
}

/// A method call: styling, an inherent method from an `impl`, a conversion, or one of the
/// few methods values have on their own.
#[verifier::opaque]
pub open spec fn method_call(env: Env, cx: Cx, e: Written, as_statement: bool) -> (
    Cx,
    Option<Outcome>,
)
    decreases e, 0int, 8int,
{
    match e {
        Written::Method(receiver, name, args, span) => match style_member(name.name) {
            Some((key, fixed)) => match style_value(cx, name.name, fixed, args, span) {
                (cx1, None) => (cx1, None),
                (cx1, Some(shown)) => match component(env, cx1, *receiver) {
                    (cx2, None) => (cx2, None),
                    (cx2, Some(c)) => (
                        cx2,
                        Some(
                            Outcome::Value(
                                Expr {
                                    kind: Kind::Component(set_member(c, key, shown)),
                                    ty: Type::Component,
                                    span,
                                },
                            ),
                        ),
                    ),
                },
            },
            None => match place(env, cx, *receiver) {
                (cx1, None) => (cx1, None),
                (cx1, Some(p)) => place_method(env, cx1, p, name, args, span, as_statement),
            },
        },
        _ => (cx, None),
    }
}

/// A method of the value at a place.
#[verifier::opaque]
pub open spec fn place_method(
    env: Env,
    cx: Cx,
    p: Place,
    name: Ident,
    args: Seq<Written>,
    span: Span,
    as_statement: bool,
) -> (Cx, Option<Outcome>)
    decreases args, args.len() + 1, 21int,
{
    let key = cx.ty(p.ty) + "::"@ + name.name;
    if has_sig(env.sigs, key) {
        match invoke(env, cx, key, span, Some(p), args) {
            (cx1, None) => (cx1, None),
            (cx1, Some(r)) => if as_statement {
                (cx1, Some(Outcome::Stmt(Stmt::CallFor(r.callee, r.args, span))))
            } else {
                match r.ret {
                    Some(ty) => (
                        cx1,
                        Some(
                            Outcome::Value(
                                Expr { kind: Kind::Call(r.callee, r.args), ty, span },
                            ),
                        ),
                    ),
                    None => (
                        cx1.fault(span, "'"@ + name.name + "' does not return a value"@),
                        None,
                    ),
                }
            },
        }
    } else if conversion_target(name.name) is Some {
        let (cx1, v) = convert(
            cx,
            p,
            conversion_target(name.name)->0,
            name.name,
            args.len(),
            span,
        );
        (cx1, outcome(v))
    } else if p.ty is Option && name.name == "expect"@ {
        let (cx1, v) = expect_of(cx, p, inner_of(cx.types, p.ty->Option_0), args, span);
        (cx1, outcome(v))
    } else if p.ty is Str {
        let (cx1, v) = string_method(cx, p, name, args, span);
        (cx1, outcome(v))
    } else {
        vec_method(env, cx, p, name, args, span, as_statement)
    }
}

pub open spec fn outcome(v: Option<Expr>) -> Option<Outcome> {
    match v {
        Some(v) => Some(Outcome::Value(v)),
        None => None,
    }
}

/// The two methods of a list.
#[verifier::opaque]
pub open spec fn vec_method(
    env: Env,
    cx: Cx,
    p: Place,
    name: Ident,
    args: Seq<Written>,
    span: Span,
    as_statement: bool,
) -> (Cx, Option<Outcome>)
    decreases args, args.len() + 1, 20int,
{
    match p.ty {
        Type::Vec(id) => if name.name == "push"@ {
            if !as_statement {
                (cx.fault(span, "'push' does not return a value"@), None)
            } else if !p.mutable {
                (
                    cx.fault(
                        span,
                        "'"@ + p.via + "' is not mutable; declare it with 'let mut'"@,
                    ),
                    None,
                )
            } else if args.len() != 1 {
                (cx.fault(span, "'push' takes one value"@), None)
            } else {
                match expr(env, cx, args[0]) {
                    (cx1, None) => (cx1, None),
                    (cx1, Some(v)) => {
                        // The element type as it was before the value was lowered.
                        let elem = element_of(cx.types, id);
                        if v.ty != elem {
                            (cx1.fault(v.span, mismatch(cx1.ty(elem), cx1.ty(v.ty))), None)
                        } else {
                            (cx1, Some(Outcome::Stmt(Stmt::Push(p, v, span))))
                        }
                    },
                }
            }
        } else if name.name == "len"@ {
            if args.len() > 0 {
                (cx.fault(span, "'len' takes no arguments"@), None)
            } else {
                (
                    cx,
                    Some(Outcome::Value(Expr { kind: Kind::Len(p), ty: Type::I32, span })),
                )
            }
        } else {
            (
                cx.fault(
                    name.span,
                    "'"@ + cx.ty(p.ty) + "' has no method named '"@ + name.name + "'"@,
                ),
                None,
            )
        },
        _ => (
            cx.fault(
                name.span,
                "'"@ + cx.ty(p.ty) + "' has no method named '"@ + name.name + "'"@,
            ),
            None,
        ),
    }
}

/// The elements of a list literal from the `i`th on. Every element has the same type,
/// which is the list's.
#[verifier::opaque]
pub open spec fn list_values(
    env: Env,
    cx: Cx,
    values: Seq<Written>,
    i: int,
    elem: Option<Type>,
    acc: Seq<Expr>,
    span: Span,
) -> (Cx, Option<Expr>)
    decreases values, values.len() - i, 18int,
{
    if i < 0 || i >= values.len() {
        list_of(cx, elem, acc, span)
    } else {
        match expr(env, cx, values[i]) {
            (cx1, None) => (cx1, None),
            (cx1, Some(v)) => match elem {
                None => list_values(env, cx1, values, i + 1, Some(v.ty), acc.push(v), span),
                Some(ty) => if ty != v.ty {
                    (
                        cx1.fault(
                            v.span,
                            "every element of a list has the same type: expected "@ + cx1.ty(ty)
                                + ", found "@ + cx1.ty(v.ty),
                        ),
                        None,
                    )
                } else {
                    list_values(env, cx1, values, i + 1, elem, acc.push(v), span)
                },
            },
        }
    }
}

/// What a list written where `want` is wanted has to hold.
pub open spec fn wanted_element(cx: Cx, want: Type) -> Option<Type> {
    match want {
        Type::Vec(id) => Some(element_of(cx.types, id)),
        _ => None,
    }
}

/// `Point { x: 1, y: 2 }` and `State::Chasing { target: 3 }`.
#[verifier::opaque]
pub open spec fn composite_lit(env: Env, cx: Cx, lit: StructLit) -> (Cx, Option<Expr>)
    decreases lit, 0int, 9int,
{
    match template_of(cx.types, lit.name.name) {
        Some(template) => match lit.variant {
            Some(variant) => (
                cx.fault(variant.span, no_variant(template.name, variant.name)),
                None,
            ),
            None => match field_values(env, cx, lit.fields, 0, None, seq![]) {
                (cx1, None) => (cx1, None),
                (cx1, Some(written)) => generic_struct(cx1, template, written, lit.span),
            },
        },
        None => match lookup(cx.types.by_name, lit.name.name) {
            None => (
                cx.fault(lit.name.span, "unknown type '"@ + lit.name.name + "'"@),
                None,
            ),
            Some(ty) => named_lit(env, cx, lit, ty),
        },
    }
}

pub open spec fn no_variant(name: Seq<char>, wanted: Seq<char>) -> Seq<char> {
    "'"@ + name + "' is a struct, so it has no variant '"@ + wanted + "'"@
}

/// A literal of a type that has a name.
#[verifier::opaque]
pub open spec fn named_lit(env: Env, cx: Cx, lit: StructLit, ty: Type) -> (Cx, Option<Expr>)
    decreases lit, 0int, 8int,
{
    let as_struct = match ty {
        Type::Struct(id) => struct_of(cx.types, id),
        _ => None,
    };
    let as_enum = match ty {
        Type::Enum(id) => enum_of(cx.types, id),
        _ => None,
    };
    match (as_struct, as_enum, lit.variant) {
        (Some(def), _, None) => match init_fields(env, cx, lit, def.fields, def.name) {
            (cx1, None) => (cx1, None),
            (cx1, Some(fields)) => (
                cx1,
                value(Kind::Struct(ty->Struct_0, fields), ty, lit.span),
            ),
        },
        (Some(def), _, Some(variant)) => (
            cx.fault(variant.span, no_variant(def.name, variant.name)),
            None,
        ),
        (None, Some(def), Some(written)) => {
            let at = variant_named(def.variants, written.name, 0);
            if at >= def.variants.len() {
                (
                    cx.fault(
                        written.span,
                        "'"@ + def.name + "' has no variant named '"@ + written.name + "'"@,
                    ),
                    None,
                )
            } else {
                let declared = def.variants[at];
                match init_fields(
                    env,
                    cx,
                    lit,
                    declared.fields,
                    def.name + "::"@ + declared.name,
                ) {
                    (cx1, None) => (cx1, None),
                    (cx1, Some(fields)) => (
                        cx1,
                        value(Kind::Enum(ty->Enum_0, at as u32, fields), ty, lit.span),
                    ),
                }
            }
        },
        (None, Some(def), None) => (
            cx.fault(
                lit.span,
                "'"@ + def.name + "' is an enum; name the variant, as in '"@ + def.name
                    + "::Idle'"@,
            ),
            None,
        ),
        (None, None, _) => (
            cx.fault(lit.span, "'"@ + cx.ty(ty) + "' is not a composite type"@),
            None,
        ),
    }
}

#[verifier::opaque]
pub open spec fn init_fields(
    env: Env,
    cx: Cx,
    lit: StructLit,
    declared: Seq<Field>,
    what: Seq<char>,
) -> (Cx, Option<Seq<Expr>>)
    decreases lit, 0int, 7int,
{
    match field_values(env, cx, lit.fields, 0, Some(declared), seq![]) {
        (cx1, None) => (cx1, None),
        (cx1, Some(written)) => check_fields(cx1, declared, written, lit.span, what),
    }
}

/// The values of a literal's fields from the `i`th on. Where the declaration is known, so
/// is the type each value is going into.
#[verifier::opaque]
pub open spec fn field_values(
    env: Env,
    cx: Cx,
    fields: Seq<FieldInit>,
    i: int,
    declared: Option<Seq<Field>>,
    acc: Seq<(Ident, Expr)>,
) -> (Cx, Option<Seq<(Ident, Expr)>>)
    decreases fields, fields.len() - i, 6int,
{
    if i < 0 || i >= fields.len() {
        (cx, Some(acc))
    } else {
        let want = match declared {
            Some(declared) => {
                let at = field_named(declared, fields[i].name.name, 0);
                if at < declared.len() {
                    Some(declared[at].ty)
                } else {
                    None
                }
            },
            None => None,
        };
        let lowered = match want {
            Some(ty) => expr_expecting(env, cx, fields[i].value, ty),
            None => expr(env, cx, fields[i].value),
        };
        match lowered {
            (cx1, None) => (cx1, None),
            (cx1, Some(v)) => field_values(
                env,
                cx1,
                fields,
                i + 1,
                declared,
                acc.push((fields[i].name, v)),
            ),
        }
    }
}

/// A condition has to be `bool`. There is no truthiness: an `i32` is not a condition.
#[verifier::opaque]
pub open spec fn condition(env: Env, cx: Cx, e: Written) -> (Cx, Option<Expr>) {
    match expr(env, cx, e) {
        (cx1, None) => (cx1, None),
        (cx1, Some(v)) => if !(v.ty is Bool) {
            (cx1.fault(v.span, "a condition must be bool, found "@ + cx1.ty(v.ty)), None)
        } else {
            (cx1, Some(v))
        },
    }
}

/// A written type inside a function, where type parameters are already concrete.
#[verifier::opaque]
pub open spec fn resolve(env: Env, cx: Cx, written: TypeName) -> (Cx, Option<Type>) {
    if written.borrow is Some {
        (
            cx.fault(
                written.span,
                "a reference can only be a parameter: a binding would need a lifetime to say how long it stays valid"@,
            ),
            None,
        )
    } else if written.name == "fix"@ {
        match written.scale {
            None => (cx, None),
            Some(scale) => match scale_of(env, cx, scale) {
                (cx1, None) => (cx1, None),
                (cx1, Some(scale)) => (cx1, Some(Type::Fix(Scale::Const(scale)))),
            },
        }
    } else {
        match lookup(env.type_params, written.name) {
            Some(ty) => if written.args.len() > 0 {
                (
                    cx.fault(
                        written.span,
                        "'"@ + written.name
                            + "' is a type parameter; it does not take type arguments"@,
                    ),
                    None,
                )
            } else {
                (cx, Some(ty))
            },
            None => {
                let (t, ty) = resolve_written(
                    Table { types: cx.types, errs: cx.errs },
                    written,
                    seq![],
                );
                (Cx { types: t.types, errs: t.errs, ..cx }, ty)
            },
        }
    }
}

} // verus!
