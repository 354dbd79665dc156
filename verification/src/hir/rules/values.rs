//! What values, literals and texts mean, as far as no other expression is involved.

use vstd::prelude::*;

use crate::hir::model::{Component, Expr, Field, Kind, Place, Root, Step, Types};
use crate::hir::rules::types::resolve_scale;
use crate::hir::rules::{entry_of, negated, value, Cx, Env, Pending};
use crate::hir::types::{element_of, lookup, mangled, struct_of};
use crate::hir::{
    default_tag, field_keyed, field_named, Ctx, FnId, LocalId, NbtTag, Scale, Type,
};
use crate::map::{
    lemma_last_value_counts, lemma_order_of_setting_is_forgotten, lemma_put_keeps_order, put, sorted,
};
use crate::names::{fake_player_name, storage_name, var_objective_name, var_path_name};
use crate::syntax::ast::BinaryOp;
use crate::syntax::lexer::{Keyword, Punct, Span};
use crate::syntax::model::{Expr as Written, Ident, ScaleArg, Token, TokenKind};
use crate::text::{
    debug_text, find_from, int_text, join, lowercase, nat_text, quote, replace_colons,
    split_from, trim, trim_end, without,
};

verus! {

// Operators.

/// `value * n` or `value / n`, where `n` is a scale rather than a value.
pub open spec fn by_const(op: BinaryOp, operand: Expr, n: u32, ty: Type, span: Span) -> Expr {
    Expr {
        kind: Kind::Binary(
            op,
            Box::new(operand),
            Box::new(Expr { kind: Kind::Int(n as i32), ty: Type::I32, span }),
        ),
        ty,
        span,
    }
}

/// An arithmetic node, with the scale correction `*` and `/` need on a fix. Both multiply
/// first: dividing first would throw away the digits the scale exists to keep.
#[verifier::opaque]
pub open spec fn combine(op: BinaryOp, lhs: Expr, rhs: Expr, ty: Type, span: Span) -> Expr {
    match (lhs.ty, rhs.ty) {
        (Type::Fix(Scale::Const(scale)), Type::Fix(_)) => if op == BinaryOp::Mul {
            by_const(
                BinaryOp::Div,
                Expr { kind: Kind::Binary(op, Box::new(lhs), Box::new(rhs)), ty, span },
                scale,
                ty,
                span,
            )
        } else if op == BinaryOp::Div {
            Expr {
                kind: Kind::Binary(
                    op,
                    Box::new(by_const(BinaryOp::Mul, lhs, scale, ty, span)),
                    Box::new(rhs),
                ),
                ty,
                span,
            }
        } else {
            Expr { kind: Kind::Binary(op, Box::new(lhs), Box::new(rhs)), ty, span }
        },
        _ => Expr { kind: Kind::Binary(op, Box::new(lhs), Box::new(rhs)), ty, span },
    }
}

pub open spec fn is_arithmetic(op: BinaryOp) -> bool {
    op is Add || op is Sub || op is Mul || op is Div || op is Rem
}

pub open spec fn is_ordering(op: BinaryOp) -> bool {
    op is Lt || op is Le || op is Gt || op is Ge
}

pub open spec fn is_equality(op: BinaryOp) -> bool {
    op is Eq || op is Ne
}

/// Why one side of an operator cannot be there: it has no runtime value, no arithmetic,
/// or is a compound, of which the game cannot compare two.
pub open spec fn side_fault(cx: Cx, side: Type) -> Option<Seq<char>> {
    if side.compile_time() {
        Some("a "@ + side.name_text() + " has no runtime value"@)
    } else if side.nbt_scalar() {
        Some(
            "an "@ + side.name_text()
                + " is for NBT interop and has no arithmetic; read it into a fix first, as in 'fix::<1000>(x)'"@,
        )
    } else if side.compound() {
        Some("'"@ + cx.ty(side) + "' is a struct, and the game cannot compare two compounds"@)
    } else {
        None
    }
}

/// The type of an operator with a fix on either side. An integer multiplier has no scale
/// of its own, so it needs no correction and mixes freely.
#[verifier::opaque]
pub open spec fn fix_binary_type(cx: Cx, op: BinaryOp, lhs: Type, rhs: Type, span: Span) -> (
    Cx,
    Option<Type>,
) {
    if (op is Mul || op is Div) && lhs is Fix && rhs is I32 {
        (cx, Some(lhs))
    } else if op is Mul && lhs is I32 && rhs is Fix {
        (cx, Some(rhs))
    } else if lhs != rhs {
        (
            cx.fault(
                span,
                "cannot mix "@ + cx.ty(lhs) + " with "@ + cx.ty(rhs)
                    + "; convert one of them with 'fix::<S>(x)'"@,
            ),
            None,
        )
    } else if is_arithmetic(op) {
        (cx, Some(lhs))
    } else if is_ordering(op) || is_equality(op) {
        (cx, Some(Type::Bool))
    } else {
        (cx.fault(span, "this operator needs bool, found "@ + cx.ty(lhs)), None)
    }
}

/// The type of an operator with a string on either side.
#[verifier::opaque]
pub open spec fn string_binary_type(cx: Cx, op: BinaryOp, lhs: Type, rhs: Type, span: Span) -> (
    Cx,
    Option<Type>,
) {
    if lhs != rhs {
        (cx.fault(span, "cannot mix "@ + cx.ty(lhs) + " with "@ + cx.ty(rhs)), None)
    } else if is_equality(op) {
        (cx, Some(Type::Bool))
    } else if op is Add {
        (cx, Some(Type::Str))
    } else {
        (
            cx.fault(
                span,
                "a String has no arithmetic; '+' joins two of them and that is the whole of it"@,
            ),
            None,
        )
    }
}

/// What an operator wants of both sides: nothing in particular for equality.
pub open spec fn operand_type(op: BinaryOp) -> Option<Type> {
    if is_arithmetic(op) || is_ordering(op) {
        Some(Type::I32)
    } else if is_equality(op) {
        None
    } else {
        Some(Type::Bool)
    }
}

/// The type of an operator applied to two types.
#[verifier::opaque]
pub open spec fn binary_type(cx: Cx, op: BinaryOp, lhs: Type, rhs: Type, span: Span) -> (
    Cx,
    Option<Type>,
) {
    match (side_fault(cx, lhs), side_fault(cx, rhs)) {
        (Some(message), _) => (cx.fault(span, message), None),
        (None, Some(message)) => (cx.fault(span, message), None),
        (None, None) => if lhs is Str || rhs is Str {
            string_binary_type(cx, op, lhs, rhs, span)
        } else if lhs is Fix || rhs is Fix {
            fix_binary_type(cx, op, lhs, rhs, span)
        } else {
            let result = if is_arithmetic(op) {
                Type::I32
            } else {
                Type::Bool
            };
            match operand_type(op) {
                Some(want) => if lhs != want || rhs != want {
                    let found = if lhs != want {
                        lhs
                    } else {
                        rhs
                    };
                    (
                        cx.fault(
                            span,
                            "this operator needs "@ + want.name_text() + ", found "@
                                + found.name_text(),
                        ),
                        None,
                    )
                } else {
                    (cx, Some(result))
                },
                None => if lhs != rhs {
                    (
                        cx.fault(
                            span,
                            "cannot compare "@ + cx.ty(lhs) + " with "@ + cx.ty(rhs),
                        ),
                        None,
                    )
                } else {
                    (cx, Some(result))
                },
            }
        },
    }
}

/// The scale a `fix<S>` was written with. Inside an instance a const parameter is already
/// a number, which is what the type arguments carry.
#[verifier::opaque]
pub open spec fn scale_of(env: Env, cx: Cx, written: ScaleArg) -> (Cx, Option<u32>) {
    let known = match written {
        ScaleArg::Param(name) => match lookup(env.type_params, name.name) {
            Some(Type::Fix(Scale::Const(scale))) => Some(scale),
            _ => None,
        },
        ScaleArg::Int(_, _) => None,
    };
    match known {
        Some(scale) => (cx, Some(scale)),
        None => match resolve_scale(cx.errs, written, seq![]) {
            (errs, Some(Scale::Const(scale))) => (Cx { errs, ..cx }, Some(scale)),
            (errs, _) => (Cx { errs, ..cx }, None),
        },
    }
}

// Places.

/// Whether the whole path is known while compiling.
pub open spec fn is_static(place: Place) -> bool {
    forall|i: int| 0 <= i < place.steps.len() ==> !(#[trigger] place.steps[i] is At)
}

/// How one step is told apart from another.
pub open spec fn step_key(step: Step) -> Seq<char> {
    match step {
        Step::Field(name) => "."@ + name,
        Step::Index(index) => "["@ + int_text(index as int) + "]"@,
        Step::At(_) => "[?]"@,
    }
}

pub open spec fn steps_key(steps: Seq<Step>, i: int) -> Seq<char>
    decreases i,
{
    if i <= 0 || i > steps.len() {
        seq![]
    } else {
        steps_key(steps, i - 1) + step_key(steps[i - 1])
    }
}

pub open spec fn root_key(root: Root) -> Seq<char> {
    match root {
        Root::Local(id) => "l"@ + nat_text(id.0 as nat),
        Root::Entity(selector) => "e"@ + selector,
        Root::Lent(owner, local, storage) => owner + "."@ + local + "."@
            + crate::text::bool_text(storage),
    }
}

/// A stable spelling of where a place points, for telling instances apart by what they
/// borrow.
pub open spec fn place_key(place: Place) -> Seq<char> {
    root_key(place.root) + steps_key(place.steps, place.steps.len() as int)
}

/// A place of this function as the callee can name it. Lending on what was already lent
/// does not change the owner.
pub open spec fn lend(env: Env, cx: Cx, place: Place) -> Place {
    Place {
        root: match place.root {
            Root::Local(id) => Root::Lent(
                env.function,
                cx.local(id).name,
                cx.local(id).ty.storage(),
            ),
            _ => place.root,
        },
        ..place
    }
}

/// The place of a binding: the caller's, where it names that.
pub open spec fn binding_place(cx: Cx, local: LocalId, name: Seq<char>) -> Place {
    match entry_of(cx.aliases, local) {
        Some(place) => place,
        None => Place {
            root: Root::Local(local),
            steps: seq![],
            ty: cx.local(local).ty,
            tag: default_tag(cx.local(local).ty),
            mutable: cx.local(local).mutable,
            via: name,
        },
    }
}

pub open spec fn runtime_index_message() -> Seq<char> {
    "an index that is only known at runtime has to be the last step; read the element into a binding first"@
}

/// The field of a place.
#[verifier::opaque]
pub open spec fn place_field(cx: Cx, base: Place, base_span: Span, name: Ident, span: Span) -> (
    Cx,
    Option<Place>,
) {
    if !is_static(base) {
        (cx.fault(span, runtime_index_message()), None)
    } else {
        let def = match base.ty {
            Type::Struct(id) => struct_of(cx.types, id),
            Type::View(id) => struct_of(cx.types, id),
            _ => None,
        };
        if base.ty is Enum {
            (
                cx.fault(
                    base_span,
                    "'"@ + cx.ty(base.ty)
                        + "' is an enum, so which fields it has depends on its variant; read it with 'match'"@,
                ),
                None,
            )
        } else {
            match def {
                None => (
                    cx.fault(
                        base_span,
                        cx.ty(base.ty) + " has no fields; only a struct or a view does"@,
                    ),
                    None,
                ),
                Some(def) => {
                    let i = field_named(def.fields, name.name, 0);
                    if i < def.fields.len() {
                        let field = def.fields[i];
                        (
                            cx,
                            Some(
                                Place {
                                    steps: base.steps.push(Step::Field(field.nbt)),
                                    ty: field.ty,
                                    tag: field.tag,
                                    ..base
                                },
                            ),
                        )
                    } else {
                        (
                            cx.fault(
                                name.span,
                                "'"@ + def.name + "' has no field named '"@ + name.name + "'"@,
                            ),
                            None,
                        )
                    }
                },
            }
        }
    }
}

/// Why a place cannot be indexed.
#[verifier::opaque]
pub open spec fn index_fault(cx: Cx, base: Place, base_span: Span, span: Span) -> (Cx, bool) {
    if !(base.ty is Vec) {
        (cx.fault(base_span, cx.ty(base.ty) + " cannot be indexed; only a Vec can"@), false)
    } else if !is_static(base) {
        (cx.fault(span, runtime_index_message()), false)
    } else {
        (cx, true)
    }
}

/// The element of a place.
#[verifier::opaque]
pub open spec fn place_element(cx: Cx, base: Place, index: Expr) -> (Cx, Option<Place>) {
    if !(index.ty is I32) {
        (cx.fault(index.span, "an index has to be i32, found "@ + cx.ty(index.ty)), None)
    } else {
        let ty = match base.ty {
            Type::Vec(id) => element_of(cx.types, id),
            _ => Type::I32,
        };
        let step = match index.kind {
            Kind::Int(n) => Step::Index(n),
            _ => Step::At(Box::new(index)),
        };
        (
            cx,
            Some(Place { steps: base.steps.push(step), ty, tag: default_tag(ty), ..base }),
        )
    }
}

// Conversions and methods.

/// `x.as_f64()` and `d.as_i32()`: the two directions of the score/storage round trip.
#[verifier::opaque]
pub open spec fn convert(
    cx: Cx,
    place: Place,
    target: Type,
    name: Seq<char>,
    given: nat,
    span: Span,
) -> (Cx, Option<Expr>) {
    if given > 0 {
        (cx.fault(span, "'"@ + name + "' takes no arguments"@), None)
    } else if place.ty.nbt_scalar() && target is I32 {
        (cx, value(Kind::ReadScaled(place, 1), target, span))
    } else {
        let scale = match place.ty {
            Type::Fix(Scale::Const(scale)) => if target is F32 || target is F64 {
                Some(scale)
            } else {
                None
            },
            Type::I32 => if target.nbt_scalar() {
                Some(1u32)
            } else {
                None
            },
            _ => None,
        };
        match scale {
            Some(scale) => (
                cx,
                value(
                    Kind::AsNbt(
                        Box::new(Expr { kind: Kind::Field(place), ty: place.ty, span }),
                        scale,
                    ),
                    target,
                    span,
                ),
            ),
            None => (
                cx.fault(
                    span,
                    "there is no conversion from "@ + cx.ty(place.ty) + " to "@ + cx.ty(target)
                        + "; NBT numbers                              go through i32, and a fix only through f32 or f64"@,
                ),
                None,
            ),
        }
    }
}

/// A bound of a slice: absent, a number, or the span of something that is neither.
pub open spec fn slice_bound(bound: Option<Box<Written>>) -> Result<Option<i32>, Span> {
    match bound {
        None => Ok(None),
        Some(e) => match *e {
            Written::Int(n, _) => Ok(Some(n)),
            _ => Err(e.span()),
        },
    }
}

/// The methods a `String` has: only the ones vanilla can do.
#[verifier::opaque]
pub open spec fn string_method(
    cx: Cx,
    place: Place,
    name: Ident,
    args: Seq<Written>,
    span: Span,
) -> (Cx, Option<Expr>) {
    if name.name == "len"@ {
        if args.len() > 0 {
            (cx.fault(span, "'len' takes no arguments"@), None)
        } else {
            (cx, value(Kind::Len(place), Type::I32, span))
        }
    } else if name.name == "slice"@ {
        if args.len() == 1 && args[0] is Range {
            match (slice_bound(args[0]->Range_0), slice_bound(args[0]->Range_1)) {
                (Ok(start), Ok(end)) => (
                    cx,
                    value(Kind::Slice(place, start, end), Type::Str, span),
                ),
                (Err(at), _) => (
                    cx.fault(at, "a slice's bounds have to be known while compiling"@),
                    None,
                ),
                (_, Err(at)) => (
                    cx.fault(at, "a slice's bounds have to be known while compiling"@),
                    None,
                ),
            }
        } else {
            (cx.fault(span, "'slice' takes one range, as in 's.slice(1..3)'"@), None)
        }
    } else {
        (
            cx.fault(
                name.span,
                "'String' has no method named '"@ + name.name
                    + "'; vanilla can measure, slice and compare a string, and nothing else"@,
            ),
            None,
        )
    }
}

// Selectors.

/// Whether a part of a selector's brackets says that it finds one entity.
pub open spec fn limits_to_one(part: Seq<char>) -> bool {
    without(trim_end(part, ']'), ' ') == "limit=1"@
}

pub open spec fn any_limits(parts: Seq<Seq<char>>, i: int) -> bool
    decreases parts.len() - i,
{
    if i < 0 || i >= parts.len() {
        false
    } else {
        limits_to_one(parts[i]) || any_limits(parts, i + 1)
    }
}

/// Whether a selector can only ever find one entity. `@s`, `@p`, `@r` and `@n` are single
/// by definition; the others need `limit=1` to be.
#[verifier::opaque]
pub open spec fn finds_one(text: Seq<char>) -> bool {
    let at = find_from(text, '[', 0);
    let head = trim(text.take(at));
    let body = if at < text.len() {
        text.skip(at + 1)
    } else {
        seq![]
    };
    head == "@s"@ || head == "@p"@ || head == "@r"@ || head == "@n"@ || any_limits(
        split_from(body, ',', 0),
        0,
    )
}

/// What is said where a context is missing.
pub open spec fn needs_context(what: Seq<char>, ctx: Ctx) -> Seq<char> {
    what + " needs an "@ + ctx.name_text()
        + " context here; wrap it in an 'as' block, or declare #[ctx("@ + ctx.name_text()
        + ")] on this function"@
}

/// Complains when a context is missing.
pub open spec fn require(cx: Cx, ctx: Ctx, span: Span, what: Seq<char>) -> Cx {
    if cx.provided.contains(ctx) {
        cx
    } else {
        cx.fault(span, needs_context(what, ctx))
    }
}

// Chat components.

pub open spec fn empty_component() -> Component {
    Component { members: seq![], extra: seq![] }
}

pub open spec fn set_member(c: Component, key: Seq<char>, shown: Seq<char>) -> Component {
    Component { members: put(c.members, key, shown), ..c }
}

/// Of two values given to one member of a component, the last is the one that counts, and
/// members can be given in any order.
pub proof fn lemma_last_style_counts(
    c: Component,
    key: Seq<char>,
    first: Seq<char>,
    last: Seq<char>,
    other: Seq<char>,
    its: Seq<char>,
)
    requires
        sorted(c.members),
    ensures
        set_member(set_member(c, key, first), key, last) == set_member(c, key, last),
        key != other ==> set_member(set_member(c, key, last), other, its) == set_member(
            set_member(c, other, its),
            key,
            last,
        ),
        sorted(set_member(c, key, last).members),
{
    lemma_last_value_counts(c.members, key, first, last);
    lemma_put_keeps_order(c.members, key, last);
    if key != other {
        lemma_order_of_setting_is_forgotten(c.members, key, last, other, its);
    }
}

/// A literal run of text.
pub open spec fn text_component(text: Seq<char>) -> Component {
    set_member(empty_component(), "text"@, quote(text))
}

/// The members as JSON, up to the `i`th.
pub open spec fn members_json(members: Seq<(Seq<char>, Seq<char>)>) -> Seq<Seq<char>> {
    Seq::new(members.len(), |i: int| "\""@ + members[i].0 + "\":"@ + members[i].1)
}

/// A component as JSON. `extra` sorts in among the members so that a given component is
/// always spelled the same way.
#[verifier::opaque]
pub open spec fn component_json(c: Component) -> Seq<char>
    decreases c, 0int,
{
    let members = if c.extra.len() > 0 {
        put(
            c.members,
            "extra"@,
            "["@ + join(components_json(c.extra, 0), ","@) + "]"@,
        )
    } else {
        c.members
    };
    "{"@ + join(members_json(members), ","@) + "}"@
}

#[verifier::opaque]
pub open spec fn components_json(cs: Seq<Component>, i: int) -> Seq<Seq<char>>
    decreases cs, cs.len() - i,
{
    if i < 0 || i >= cs.len() {
        seq![]
    } else {
        seq![component_json(cs[i])] + components_json(cs, i + 1)
    }
}

pub open spec fn is_colour(name: Seq<char>) -> bool {
    name == "black"@ || name == "dark_blue"@ || name == "dark_green"@ || name == "dark_aqua"@
        || name == "dark_red"@ || name == "dark_purple"@ || name == "gold"@ || name == "gray"@
        || name == "dark_gray"@ || name == "blue"@ || name == "green"@ || name == "aqua"@ || name
        == "red"@ || name == "light_purple"@ || name == "yellow"@ || name == "white"@
}

/// What a style method sets: its JSON key, and the value it stands for. No value means
/// that the method takes it as an argument, which only `.color("#rrggbb")` does.
#[verifier::opaque]
pub open spec fn style_member(method: Seq<char>) -> Option<(Seq<char>, Option<Seq<char>>)> {
    if is_colour(method) {
        Some(("color"@, Some("\""@ + method + "\""@)))
    } else if method == "color"@ {
        Some(("color"@, None))
    } else if method == "bold"@ || method == "italic"@ || method == "underlined"@ || method
        == "strikethrough"@ || method == "obfuscated"@ {
        Some((method, Some("true"@)))
    } else {
        None
    }
}

/// The component that names where a binding's value lives. A binding is *named*, not
/// read: vanilla's JSON can point at a score or a storage path itself.
#[verifier::opaque]
pub open spec fn binding_component(env: Env, cx: Cx, local: LocalId, ty: Type, span: Span) -> (
    Cx,
    Option<Component>,
) {
    let binding = cx.local(local).name;
    if ty is Fix {
        (
            cx.fault(
                span,
                "'"@ + binding
                    + "' is a fixed-point number, which holds scaled units; a score component cannot divide it back"@,
            ),
            None,
        )
    } else if ty is I32 || ty is Bool {
        (
            cx,
            Some(
                set_member(
                    empty_component(),
                    "score"@,
                    "{\"name\":"@ + quote(fake_player_name(env.function, binding))
                        + ",\"objective\":"@ + quote(var_objective_name(env.namespace)) + "}"@,
                ),
            ),
        )
    } else if ty.storage_scalar() {
        (
            cx,
            Some(
                set_member(
                    set_member(
                        empty_component(),
                        "nbt"@,
                        quote(var_path_name(env.function, binding)),
                    ),
                    "storage"@,
                    quote(storage_name(env.namespace)),
                ),
            ),
        )
    } else {
        (cx.fault(span, "a "@ + cx.ty(ty) + " cannot be shown by text!"@), None)
    }
}

/// The component of a value that is already lowered.
#[verifier::opaque]
pub open spec fn component_of(env: Env, cx: Cx, shown: Expr) -> (Cx, Option<Component>) {
    match shown.kind {
        Kind::Component(component) => (cx, Some(component)),
        Kind::Str(text) => (cx, Some(text_component(text))),
        Kind::Int(n) => (cx, Some(text_component(int_text(n as int)))),
        Kind::Bool(b) => (cx, Some(text_component(crate::text::bool_text(b)))),
        Kind::Local(local) => binding_component(env, cx, local, shown.ty, shown.span),
        _ => (
            cx.fault(
                shown.span,
                "text! can only show a literal or a binding; bind this to a name first and write the name"@,
            ),
            None,
        ),
    }
}

// Literals made of tokens.

pub open spec fn token_is(tokens: Seq<Token>, at: int, punct: Punct) -> bool {
    0 <= at < tokens.len() && tokens[at].kind == TokenKind::Punct(punct)
}

/// A reading of tokens that began at `at` never goes back.
pub open spec fn forward<T>(at: int, r: (Cx, int, T)) -> (Cx, int, T) {
    (
        r.0,
        if r.1 >= at {
            r.1
        } else {
            at
        },
        r.2,
    )
}

pub open spec fn tokens_left(tokens: Seq<Token>, at: int) -> int {
    if at <= tokens.len() {
        tokens.len() - at
    } else {
        0
    }
}

/// One SNBT value, rendered as the game spells it. `want` is what the value has to be,
/// and `tag` the tag the field it lands in was declared with, which decides the suffix a
/// number gets.
#[verifier::opaque]
pub open spec fn nbt_value(
    cx: Cx,
    tokens: Seq<Token>,
    at: int,
    want: Type,
    tag: Option<NbtTag>,
    span: Span,
) -> (Cx, int, Option<Seq<char>>)
    decreases tokens_left(tokens, at), 1int,
{
    if at < 0 || at >= tokens.len() {
        (cx.fault(span, "expected a value"@), at, None)
    } else {
        let here = tokens[at].span;
        match tokens[at].kind {
            TokenKind::Punct(Punct::LBrace) => nbt_compound(cx, tokens, at, want, here),
            TokenKind::Punct(Punct::LBracket) => nbt_list(cx, tokens, at, want, here),
            TokenKind::Str(text) => if !(want is Str) {
                (
                    cx.fault(here, "expected "@ + cx.ty(want) + ", found a string"@),
                    at + 1,
                    None,
                )
            } else {
                (cx, at + 1, Some(debug_text(text)))
            },
            TokenKind::Keyword(Keyword::True) => nbt_bool(cx, at, want, true, here),
            TokenKind::Keyword(Keyword::False) => nbt_bool(cx, at, want, false, here),
            TokenKind::Punct(Punct::Minus) => nbt_number(cx, tokens, at, want, tag, here),
            TokenKind::Int(_) => nbt_number(cx, tokens, at, want, tag, here),
            _ => (cx.fault(here, "expected a value"@), at, None),
        }
    }
}

pub open spec fn nbt_bool(cx: Cx, at: int, want: Type, b: bool, span: Span) -> (
    Cx,
    int,
    Option<Seq<char>>,
) {
    if !(want is Bool) {
        (cx.fault(span, "expected "@ + cx.ty(want) + ", found a bool"@), at + 1, None)
    } else if b {
        (cx, at + 1, Some("1b"@))
    } else {
        (cx, at + 1, Some("0b"@))
    }
}

/// `20`, `-3`: an integer, which takes the suffix of the field it lands in. The suffix is
/// never written: the field's type already says what tag it is stored as.
#[verifier::opaque]
pub open spec fn nbt_number(
    cx: Cx,
    tokens: Seq<Token>,
    at: int,
    want: Type,
    tag: Option<NbtTag>,
    span: Span,
) -> (Cx, int, Option<Seq<char>>) {
    let minus = token_is(tokens, at, Punct::Minus);
    let at1 = if minus {
        at + 1
    } else {
        at
    };
    if !(0 <= at1 < tokens.len() && tokens[at1].kind is Int) {
        (cx.fault(span, "expected a number"@), at1, None)
    } else {
        let written = tokens[at1].kind->Int_0;
        let n = if minus {
            negated(written)
        } else {
            written
        };
        let stored = match tag {
            Some(tag) => Some(tag),
            None => default_tag(want),
        };
        match stored {
            None => (
                cx.fault(span, "expected "@ + cx.ty(want) + ", found a number"@),
                at1 + 1,
                None,
            ),
            Some(stored) => if at1 + 1 < tokens.len() && tokens[at1 + 1].kind is Ident {
                (
                    cx.fault(
                        tokens[at1 + 1].span,
                        "no suffix here: the field is stored as a "@ + stored.keyword_text()
                            + " already"@,
                    ),
                    at1 + 1,
                    None,
                )
            } else if want is Bool && !(0 <= n <= 1) {
                (cx.fault(span, "a bool is 0 or 1; write true or false"@), at1 + 1, None)
            } else {
                (cx, at1 + 1, Some(int_text(n as int) + stored.suffix_text()))
            },
        }
    }
}

/// A compound, from its `{` on.
#[verifier::opaque]
pub open spec fn nbt_compound(cx: Cx, tokens: Seq<Token>, at: int, want: Type, span: Span) -> (
    Cx,
    int,
    Option<Seq<char>>,
)
    decreases tokens_left(tokens, at), 0int,
{
    let def = match want {
        Type::Struct(id) => struct_of(cx.types, id),
        _ => None,
    };
    match def {
        None => (
            cx.fault(span, "expected "@ + cx.ty(want) + ", found a compound"@),
            at,
            None,
        ),
        Some(def) => if at < 0 || at >= tokens.len() {
            (cx, at, None)
        } else {
            match nbt_members(cx, tokens, at + 1, want, def.fields, span, seq![]) {
                (cx1, at1, None) => (cx1, at1, None),
                (cx1, at1, Some(written)) => {
                    let missing = unwritten(def.fields, written, 0);
                    if missing < def.fields.len() {
                        (
                            cx1.fault(
                                span,
                                "'"@ + cx1.ty(want) + "' needs a value for '"@
                                    + def.fields[missing].nbt + "' too"@,
                            ),
                            at1,
                            None,
                        )
                    } else {
                        (
                            cx1,
                            at1,
                            Some(
                                "{"@ + join(members_snbt(def.fields, written), ","@) + "}"@,
                            ),
                        )
                    }
                },
            }
        },
    }
}

/// The value written under a key.
pub open spec fn written_at(written: Seq<(Seq<char>, Seq<char>)>, key: Seq<char>, i: int) -> int
    decreases written.len() - i,
{
    if i < 0 || i >= written.len() {
        written.len() as int
    } else if written[i].0 == key {
        i
    } else {
        written_at(written, key, i + 1)
    }
}

/// The first field from `i` on that nothing was written for, or the number of fields.
pub open spec fn unwritten(fields: Seq<Field>, written: Seq<(Seq<char>, Seq<char>)>, i: int) -> int
    decreases fields.len() - i,
{
    if i < 0 || i >= fields.len() {
        fields.len() as int
    } else if written_at(written, fields[i].nbt, 0) >= written.len() {
        i
    } else {
        unwritten(fields, written, i + 1)
    }
}

/// The members of a compound in the order the fields were declared.
pub open spec fn members_snbt(fields: Seq<Field>, written: Seq<(Seq<char>, Seq<char>)>) -> Seq<
    Seq<char>,
> {
    Seq::new(
        fields.len(),
        |i: int|
            fields[i].nbt + ":"@ + {
                let at = written_at(written, fields[i].nbt, 0);
                if at < written.len() {
                    written[at].1
                } else {
                    seq![]
                }
            },
    )
}

/// The members of a compound and the `}` that closes it.
#[verifier::opaque]
pub open spec fn nbt_members(
    cx: Cx,
    tokens: Seq<Token>,
    at: int,
    want: Type,
    fields: Seq<Field>,
    span: Span,
    acc: Seq<(Seq<char>, Seq<char>)>,
) -> (Cx, int, Option<Seq<(Seq<char>, Seq<char>)>>)
    decreases tokens_left(tokens, at), 2int,
{
    if token_is(tokens, at, Punct::RBrace) {
        (cx, at + 1, Some(acc))
    } else if at < 0 || at >= tokens.len() {
        (cx.fault(span, "a compound has to be closed with '}'"@), at, None)
    } else {
        let key = tokens[at].span;
        let name = match tokens[at].kind {
            TokenKind::Ident(name) => Some(name),
            TokenKind::Str(name) => Some(name),
            _ => None,
        };
        match name {
            None => (cx.fault(key, "expected a field name"@), at, None),
            Some(name) => if !token_is(tokens, at + 1, Punct::Colon) {
                (cx.fault(key, "expected ':' after a field name"@), at + 1, None)
            } else {
                let i = field_keyed(fields, name, 0);
                if i >= fields.len() {
                    (
                        cx.fault(
                            key,
                            "'"@ + cx.ty(want) + "' has no field written as '"@ + name
                                + "' in NBT"@,
                        ),
                        at + 2,
                        None,
                    )
                } else {
                    match forward(
                        at + 2,
                        nbt_value(cx, tokens, at + 2, fields[i].ty, fields[i].tag, key),
                    ) {
                        (cx1, at1, None) => (cx1, at1, None),
                        (cx1, at1, Some(text)) => if written_at(acc, name, 0) < acc.len() {
                            (cx1.fault(key, "'"@ + name + "' is written twice"@), at1, None)
                        } else {
                            let acc1 = acc.push((name, text));
                            if token_is(tokens, at1, Punct::Comma) {
                                nbt_members(cx1, tokens, at1 + 1, want, fields, span, acc1)
                            } else if token_is(tokens, at1, Punct::RBrace) {
                                (cx1, at1 + 1, Some(acc1))
                            } else {
                                (cx1.fault(key, "expected ',' or '}'"@), at1, None)
                            }
                        },
                    }
                }
            },
        }
    }
}

/// A list, from its `[` on.
#[verifier::opaque]
pub open spec fn nbt_list(cx: Cx, tokens: Seq<Token>, at: int, want: Type, span: Span) -> (
    Cx,
    int,
    Option<Seq<char>>,
)
    decreases tokens_left(tokens, at), 0int,
{
    match want {
        Type::Vec(id) => if at < 0 || at >= tokens.len() {
            (cx, at, None)
        } else {
            match nbt_elements(cx, tokens, at + 1, element_of(cx.types, id), span, seq![]) {
                (cx1, at1, None) => (cx1, at1, None),
                (cx1, at1, Some(values)) => (
                    cx1,
                    at1,
                    Some("["@ + join(values, ","@) + "]"@),
                ),
            }
        },
        _ => (cx.fault(span, "expected "@ + cx.ty(want) + ", found a list"@), at, None),
    }
}

/// The elements of a list and the `]` that closes it.
#[verifier::opaque]
pub open spec fn nbt_elements(
    cx: Cx,
    tokens: Seq<Token>,
    at: int,
    elem: Type,
    span: Span,
    acc: Seq<Seq<char>>,
) -> (Cx, int, Option<Seq<Seq<char>>>)
    decreases tokens_left(tokens, at), 2int,
{
    if token_is(tokens, at, Punct::RBracket) {
        (cx, at + 1, Some(acc))
    } else {
        match forward(at, nbt_value(cx, tokens, at, elem, default_tag(elem), span)) {
            (cx1, at1, None) => (cx1, at1, None),
            (cx1, at1, Some(text)) => if token_is(tokens, at1, Punct::Comma) {
                nbt_elements(cx1, tokens, at1 + 1, elem, span, acc.push(text))
            } else if token_is(tokens, at1, Punct::RBracket) {
                (cx1, at1 + 1, Some(acc.push(text)))
            } else {
                (cx1.fault(span, "expected ',' or ']'"@), at1, None)
            },
        }
    }
}

/// `nbt!({ hp: 20 })`, checked against the type it is being written into.
#[verifier::opaque]
pub open spec fn nbt_lit(cx: Cx, tokens: Seq<Token>, want: Type, span: Span) -> (
    Cx,
    Option<Expr>,
) {
    match nbt_value(cx, tokens, 0, want, None, span) {
        (cx1, _, None) => (cx1, None),
        (cx1, at, Some(text)) => if 0 <= at < tokens.len() {
            (cx1.fault(tokens[at].span, "nbt! takes one value"@), None)
        } else {
            (cx1, value(Kind::Nbt(text), want, span))
        },
    }
}

/// One coordinate: its notation, and its number where one is written.
pub struct Coord {
    pub prefix: Option<char>,
    pub number: Option<i32>,
}

/// The coordinates of a `pos!`, from token `i` on.
#[verifier::opaque]
pub open spec fn coords(cx: Cx, tokens: Seq<Token>, i: int, acc: Seq<Coord>) -> (
    Cx,
    Option<Seq<Coord>>,
)
    decreases tokens.len() - i,
{
    if i < 0 || i >= tokens.len() {
        (cx, Some(acc))
    } else {
        let span = tokens[i].span;
        let prefix = if token_is(tokens, i, Punct::Tilde) {
            Some('~')
        } else if token_is(tokens, i, Punct::Caret) {
            Some('^')
        } else {
            None
        };
        if prefix is Some {
            // `~-1` is three tokens, and it is the offset datapacks write most.
            let minus = token_is(tokens, i + 1, Punct::Minus);
            let j = if minus {
                i + 2
            } else {
                i + 1
            };
            if j < tokens.len() && tokens[j].kind is Int {
                let n = tokens[j].kind->Int_0;
                let number = Some(
                    if minus {
                        negated(n)
                    } else {
                        n
                    },
                );
                coords(cx, tokens, j + 1, acc.push(Coord { prefix, number }))
            } else if minus {
                (cx.fault(span, "expected a coordinate after '-'"@), None)
            } else {
                coords(cx, tokens, j, acc.push(Coord { prefix, number: None }))
            }
        } else if tokens[i].kind is Int {
            coords(
                cx,
                tokens,
                i + 1,
                acc.push(Coord { prefix, number: Some(tokens[i].kind->Int_0) }),
            )
        } else if token_is(tokens, i, Punct::Minus) && i + 1 < tokens.len() && tokens[i
            + 1].kind is Int {
            coords(
                cx,
                tokens,
                i + 2,
                acc.push(Coord { prefix, number: Some(negated(tokens[i + 1].kind->Int_0)) }),
            )
        } else {
            (cx.fault(span, "expected a coordinate"@), None)
        }
    }
}

pub open spec fn coord_text(c: Coord) -> Seq<char> {
    match (c.prefix, c.number) {
        (Some(p), Some(n)) => seq![p] + int_text(n as int),
        (Some(p), None) => seq![p],
        (None, Some(n)) => int_text(n as int),
        (None, None) => "0"@,
    }
}

/// `pos!(~ ~1 ~)`: three coordinates, all in the same notation, as vanilla requires.
#[verifier::opaque]
pub open spec fn position_text(cx: Cx, tokens: Seq<Token>, span: Span) -> (Cx, Option<Seq<char>>) {
    match coords(cx, tokens, 0, seq![]) {
        (cx1, None) => (cx1, None),
        (cx1, Some(cs)) => if cs.len() != 3 {
            (cx1.fault(span, "pos! takes three coordinates"@), None)
        } else if cs[1].prefix != cs[0].prefix || cs[2].prefix != cs[0].prefix {
            (
                cx1.fault(
                    span,
                    "all three coordinates must use the same notation: all absolute, all '~' or all '^'"@,
                ),
                None,
            )
        } else {
            (
                cx1,
                Some(
                    coord_text(cs[0]) + " "@ + coord_text(cs[1]) + " "@ + coord_text(cs[2]),
                ),
            )
        },
    }
}

// Instances.

/// What the borrowed places of an instance add to its name.
pub open spec fn steps_suffix(steps: Seq<Step>, i: int) -> Seq<char>
    decreases i,
{
    if i <= 0 || i > steps.len() {
        seq![]
    } else {
        steps_suffix(steps, i - 1) + match steps[i - 1] {
            Step::Field(name) => "_"@ + name,
            Step::Index(index) => "_"@ + int_text(index as int),
            Step::At(_) => seq![],
        }
    }
}

pub open spec fn place_suffix(place: Place) -> Seq<char> {
    (match place.root {
        Root::Lent(owner, local, _) => "_"@ + lowercase(replace_colons(owner, '_', 0)) + "_"@
            + local,
        _ => seq![],
    }) + steps_suffix(place.steps, place.steps.len() as int)
}

pub open spec fn borrows_suffix(borrows: Seq<Option<Place>>, i: int) -> Seq<char>
    decreases i,
{
    if i <= 0 || i > borrows.len() {
        seq![]
    } else {
        borrows_suffix(borrows, i - 1) + match borrows[i - 1] {
            Some(place) => place_suffix(place),
            None => seq![],
        }
    }
}

pub open spec fn args_suffix(t: Types, args: Seq<Type>, i: int) -> Seq<char>
    decreases i,
{
    if i <= 0 || i > args.len() {
        seq![]
    } else {
        args_suffix(t, args, i - 1) + ("_"@ + mangled(t, args[i - 1]))
    }
}

/// A function's name as a datapack path: `Counter::bump` lands in `counter/bump`.
pub open spec fn path_of(name: Seq<char>) -> Seq<char> {
    lowercase(replace_colons(name, '/', 0))
}

/// The name of an instance, which says what it was instantiated with so that the output
/// stays readable.
#[verifier::opaque]
pub open spec fn instance_name(
    t: Types,
    base: Seq<char>,
    args: Seq<Type>,
    borrows: Seq<Option<Place>>,
) -> Seq<char> {
    path_of(base) + args_suffix(t, args, args.len() as int) + borrows_suffix(
        borrows,
        borrows.len() as int,
    )
}

/// How what an instance borrows is told apart.
pub open spec fn lent_keys(borrows: Seq<Option<Place>>) -> Seq<Seq<char>> {
    Seq::new(
        borrows.len(),
        |i: int|
            match borrows[i] {
                Some(place) => place_key(place),
                None => seq![],
            },
    )
}

/// The first instance from `i` on that was asked for in the same way, or their number.
pub open spec fn pending_at(
    pending: Seq<Pending>,
    item: usize,
    args: Seq<Type>,
    lent: Seq<Seq<char>>,
    i: int,
) -> int
    decreases pending.len() - i,
{
    if i < 0 || i >= pending.len() {
        pending.len() as int
    } else if pending[i].item == item && pending[i].args == args && pending[i].lent == lent {
        i
    } else {
        pending_at(pending, item, args, lent, i + 1)
    }
}

/// The function an instance is, made once and then found again. There is no number left
/// for one more than a `u32` can count.
#[verifier::opaque]
pub open spec fn instance_of(
    env: Env,
    cx: Cx,
    item: usize,
    args: Seq<Type>,
    borrows: Seq<Option<Place>>,
    base: Seq<char>,
    span: Span,
) -> (Cx, Option<FnId>) {
    let lent = lent_keys(borrows);
    let known = pending_at(cx.pending, item, args, lent, 0);
    if known < cx.pending.len() {
        (cx, Some(cx.pending[known].id))
    } else if env.concrete + cx.pending.len() >= u32::MAX {
        (cx.fault(span, "there are more functions than can be numbered"@), None)
    } else {
        let id = FnId((env.concrete + cx.pending.len()) as u32);
        (
            Cx {
                pending: cx.pending.push(
                    Pending {
                        id,
                        item,
                        args,
                        borrows,
                        lent,
                        name: instance_name(cx.types, base, args, borrows),
                    },
                ),
                ..cx
            },
            Some(id),
        )
    }
}

} // verus!
