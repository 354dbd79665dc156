//! What lowering an expression leaves alone.

use vstd::prelude::*;

use crate::hir::{field_named, variant_named, Ctx, ParamSig, RefKind, Type};
use crate::hir::model::{Component, Expr, Field, Place, Reference, Template, Types};
use crate::hir::rules::{has_sig, sig_at, Cx, Env, Sig};
use crate::hir::rules::exprs::{
    all_bound, bind_fields, bind_params, block_test, borrow_place, call, check_ctx, check_fields,
    check_params, command, command_args, component, composite_lit, condition, conversion_target,
    expect_of, expr, expr_expecting, field_values, fill_fields, fix_cast, fix_of, generic_struct,
    init_fields, invoke, is_view, list_of, list_values, method_call, named_lit, pass_args, path,
    pick, place, place_method, receive, render_arg, resolve, selector_of, selector_text, some_of,
    style_value, text_macro, text_parts, try_of, unary_of, vec_method, view_place, Given,
};
use crate::hir::rules::laws::{grows_facts, keeps};
use crate::hir::rules::laws::table::{
    instantiated_extends, lemma_bindings_stay, option_type_extends, substituted_extends,
    templates_are_found, tidy, vec_type_extends,
};
use crate::hir::rules::laws::types::resolve_written_grows;
use crate::hir::rules::laws::values::{
    binary_type_keeps, component_of_keeps, convert_keeps, index_fault_keeps, instance_of_keeps,
    nbt_lit_keeps, place_element_keeps, place_field_keeps, position_text_keeps, require_keeps,
    scale_of_keeps, string_method_keeps,
};
use crate::hir::rules::types::Table;
use crate::hir::rules::values::{finds_one, index_fault, scale_of, style_member};
use crate::hir::types::{
    enum_of, inner_of, instantiated, lookup, struct_of, substituted, template_of, unified, DEPTH,
};
use crate::schema::{command_named, ArgType, ParamModel};
use crate::syntax::ast::{Borrow, UnaryOp};
use crate::syntax::lexer::Span;
use crate::syntax::model::{Expr as Written, FieldInit, Ident, ScaleArg, StructLit, TypeName};

verus! {

pub(crate) proof fn path_keeps(cx: Cx, name: Ident)
    ensures
        keeps(cx, path(cx, name).0),
{
    grows_facts();
    reveal(path);
}

pub(crate) proof fn unary_of_keeps(cx: Cx, op: UnaryOp, operand: Expr, span: Span)
    ensures
        keeps(cx, unary_of(cx, op, operand, span).0),
{
    grows_facts();
    reveal(unary_of);
}

pub(crate) proof fn fix_of_keeps(cx: Cx, scale: u32, operand: Expr, span: Span)
    ensures
        keeps(cx, fix_of(cx, scale, operand, span).0),
{
    grows_facts();
    reveal(fix_of);
}

pub(crate) proof fn some_of_keeps(cx: Cx, held: Expr, span: Span)
    ensures
        keeps(cx, some_of(cx, held, span).0),
{
    grows_facts();
    reveal(some_of);
    if !held.ty.compile_time() {
        if !(held.ty is Option) {
            option_type_extends(cx.types, held.ty);
        }
    }
}

pub(crate) proof fn try_of_keeps(env: Env, cx: Cx, tried: Expr, span: Span)
    ensures
        keeps(cx, try_of(env, cx, tried, span).0),
{
    grows_facts();
    reveal(try_of);
}

pub(crate) proof fn selector_text_keeps(cx: Cx, e: Expr)
    ensures
        keeps(cx, selector_text(cx, e).0),
{
    grows_facts();
    reveal(selector_text);
}

pub(crate) proof fn view_place_keeps(cx: Cx, ty: Ident, text: Seq<char>, at: Span, span: Span)
    ensures
        keeps(cx, view_place(cx, ty, text, at, span).0),
{
    grows_facts();
    reveal(view_place);
    if finds_one(text) {
        if text == "@s"@ {
            require_keeps(cx, Ctx::Entity, at, "a view of '@s'"@);
        }
    }
}

pub(crate) proof fn render_arg_keeps(cx: Cx, arg: Expr, want: ArgType)
    ensures
        keeps(cx, render_arg(cx, arg, want).0),
{
    grows_facts();
    reveal(render_arg);
}

pub(crate) proof fn check_ctx_keeps(cx: Cx, name: Seq<char>, ctx: Seq<Ctx>, span: Span)
    ensures
        keeps(cx, check_ctx(cx, name, ctx, span)),
{
    grows_facts();
    reveal(check_ctx);
}

pub(crate) proof fn borrow_place_keeps(
    env: Env,
    cx: Cx,
    kind: Borrow,
    place: Place,
    span: Span,
    given: Given,
)
    ensures
        keeps(cx, borrow_place(env, cx, kind, place, span, given).0),
{
    grows_facts();
    reveal(borrow_place);
}

#[verifier::spinoff_prover]
pub(crate) proof fn check_params_keeps(
    cx: Cx,
    params: Seq<ParamSig>,
    actual: Seq<Type>,
    i: int,
    args: Seq<Type>,
    span: Span,
)
    ensures
        keeps(cx, check_params(cx, params, actual, i, args, span).0),
    decreases params.len() - i,
{
    grows_facts();
    if i >= 0 && i < params.len() && i < actual.len() {
        substituted_extends(cx.types, params[i].ty, args);
        let (types, want) = substituted(cx.types, params[i].ty, args);
        let cx1 = Cx { types, ..cx };
        if actual[i] == want {
            check_params_keeps(cx1, params, actual, i + 1, args, span);
        }
    }
}

pub(crate) proof fn pick_keeps(
    env: Env,
    cx: Cx,
    sig: Sig,
    name: Seq<char>,
    given: Given,
    span: Span,
)
    ensures
        keeps(cx, pick(env, cx, sig, name, given, span).0),
{
    grows_facts();
    reveal(pick);
    let bound = bind_params(
        cx.types,
        sig.params,
        given.actual,
        0,
        Seq::new(sig.generics.len(), |i: int| None),
    );
    match all_bound(bound) {
        Some(args) => {
            check_params_keeps(cx, sig.params, given.actual, 0, args, span);
            match check_params(cx, sig.params, given.actual, 0, args, span) {
                (cx1, true) => {
                    match sig.ret {
                        Some(ty) => {
                            substituted_extends(cx1.types, ty, args);
                        },
                        _ => {},
                    }
                    let (types, ret) = match sig.ret {
                        Some(ty) => {
                            let (types, ty) = substituted(cx1.types, ty, args);
                            (types, Some(ty))
                        },
                        None => (cx1.types, None),
                    };
                    let cx2 = Cx { types, ..cx1 };
                    match sig.id {
                        None => {
                            instance_of_keeps(env, cx2, sig.item, args, given.borrows, name, span);
                        },
                        _ => {},
                    }
                },
                _ => {},
            }
        },
        _ => {},
    }
}

#[verifier::spinoff_prover]
pub(crate) proof fn fill_fields_keeps(
    cx: Cx,
    declared: Seq<Field>,
    written: Seq<(Ident, Expr)>,
    i: int,
    slots: Seq<Option<Expr>>,
    what: Seq<char>,
)
    ensures
        keeps(cx, fill_fields(cx, declared, written, i, slots, what).0),
    decreases written.len() - i,
{
    grows_facts();
    reveal(fill_fields);
    if i >= 0 && i < written.len() {
        let (name, given) = written[i];
        let at = field_named(declared, name.name, 0);
        if at < declared.len() && at < slots.len() {
            if given.ty == declared[at].ty {
                if !(slots[at] is Some) {
                    fill_fields_keeps(
                        cx,
                        declared,
                        written,
                        i + 1,
                        slots.update(at, Some(given)),
                        what,
                    );
                }
            }
        }
    }
}

pub(crate) proof fn check_fields_keeps(
    cx: Cx,
    declared: Seq<Field>,
    written: Seq<(Ident, Expr)>,
    span: Span,
    what: Seq<char>,
)
    ensures
        keeps(cx, check_fields(cx, declared, written, span, what).0),
{
    grows_facts();
    reveal(check_fields);
    fill_fields_keeps(cx, declared, written, 0, Seq::new(declared.len(), |i: int| None), what);
}

pub(crate) proof fn generic_struct_keeps(
    cx: Cx,
    template: Template,
    written: Seq<(Ident, Expr)>,
    span: Span,
)
    requires
        tidy(cx.types) ==> template_of(cx.types, template.name) == Some(template),
    ensures
        keeps(cx, generic_struct(cx, template, written, span).0),
{
    grows_facts();
    reveal(generic_struct);
    bind_fields_len(
        cx.types,
        template.fields,
        written,
        0,
        Seq::new(template.generics.len(), |i: int| None),
    );
    let bound = bind_fields(
        cx.types,
        template.fields,
        written,
        0,
        Seq::new(template.generics.len(), |i: int| None),
    );
    match all_bound(bound) {
        Some(args) => {
            instantiated_extends(cx.types, template.name, args);
            match instantiated(cx.types, template.name, args) {
                (types, Some(Type::Struct(id))) => {
                    let cx1 = Cx { types, ..cx };
                    match struct_of(types, id) {
                        Some(def) => {
                            check_fields_keeps(cx1, def.fields, written, span, def.name);
                        },
                        _ => {},
                    }
                },
                _ => {},
            }
        },
        _ => {},
    }
}

pub(crate) proof fn list_of_keeps(cx: Cx, elem: Option<Type>, values: Seq<Expr>, span: Span)
    ensures
        keeps(cx, list_of(cx, elem, values, span).0),
{
    grows_facts();
    reveal(list_of);
    match elem {
        Some(elem) => {
            if !elem.compile_time() {
                vec_type_extends(cx.types, elem);
            }
        },
        _ => {},
    }
}

pub(crate) proof fn expect_of_keeps(
    cx: Cx,
    place: Place,
    inner: Type,
    args: Seq<Written>,
    span: Span,
)
    ensures
        keeps(cx, expect_of(cx, place, inner, args, span).0),
{
    grows_facts();
    reveal(expect_of);
}

#[verifier::spinoff_prover]
pub(crate) proof fn expr_keeps(env: Env, cx: Cx, e: Written)
    ensures
        keeps(cx, expr(env, cx, e).0),
    decreases e, 0int, 10int,
{
    grows_facts();
    reveal(expr);
    reveal(fix_cast);
    reveal(call);
    reveal(text_macro);
    reveal(composite_lit);
    reveal(place);
    reveal(selector_of);
    reveal(list_values);
    reveal(method_call);
    let span = e.span();
    match e {
        Written::Path(name) => {
            path_keeps(cx, name);
        },
        Written::Unary(op, operand, _) => {
            expr_keeps(env, cx, *operand);
            match expr(env, cx, *operand) {
                (cx1, Some(v)) => {
                    unary_of_keeps(cx1, op, v, span);
                },
                _ => {},
            }
        },
        Written::Binary(op, lhs, rhs, _) => {
            expr_keeps(env, cx, *lhs);
            match expr(env, cx, *lhs) {
                (cx1, Some(l)) => {
                    expr_keeps(env, cx1, *rhs);
                    match expr(env, cx1, *rhs) {
                        (cx2, Some(r)) => {
                            binary_type_keeps(cx2, op, l.ty, r.ty, span);
                        },
                        _ => {},
                    }
                },
                _ => {},
            }
        },
        Written::Fix(scale, operand, _) => {
            fix_cast_keeps(env, cx, scale, *operand, span);
        },
        Written::Call(callee, args, _) => {
            call_keeps(env, cx, callee, args, span);
        },
        Written::Text(args, _) => {
            text_macro_keeps(env, cx, args);
        },
        Written::Macro(name, tokens, _) => {
            if name.name == "pos"@ {
                position_text_keeps(cx, tokens, span);
            } else if name.name == "nbt"@ {
                if cx.expected is Some && !(cx.expected->0 is Param) {
                    nbt_lit_keeps(cx, tokens, cx.expected->0, span);
                }
            }
        },
        Written::Struct(lit) => {
            composite_lit_keeps(env, cx, lit);
        },
        Written::Field(_, _, _) => {
            place_keeps(env, cx, e);
        },
        Written::Index(_, _, _) => {
            place_keeps(env, cx, e);
        },
        Written::Try(tried, _) => {
            expr_keeps(env, cx, *tried);
            match expr(env, cx, *tried) {
                (cx1, Some(v)) => {
                    try_of_keeps(env, cx1, v, span);
                },
                _ => {},
            }
        },
        Written::ViewOf(ty, selector, _) => {
            if is_view(cx, ty) {
                selector_of_keeps(env, cx, *selector);
                match selector_of(env, cx, *selector) {
                    (cx1, Some((text, at))) => {
                        view_place_keeps(cx1, ty, text, at, span);
                    },
                    _ => {},
                }
            }
        },
        Written::List(values, _) => {
            list_values_keeps(env, cx, values, 0, None, seq![], span);
        },
        Written::Method(_, name, _, _) => {
            method_call_keeps(env, cx, e, false);
        },
        _ => {},
    }
}

#[verifier::spinoff_prover]
pub(crate) proof fn expr_expecting_keeps(env: Env, cx: Cx, e: Written, want: Type)
    ensures
        keeps(cx, expr_expecting(env, cx, e, want).0),
    decreases e, 0int, 11int,
{
    grows_facts();
    reveal(expr_expecting);
    reveal(expr);
    expr_keeps(env, cx.expecting(Some(want)), e);
}

#[verifier::spinoff_prover]
pub(crate) proof fn selector_of_keeps(env: Env, cx: Cx, e: Written)
    ensures
        keeps(cx, selector_of(env, cx, e).0),
    decreases e, 0int, 11int,
{
    grows_facts();
    reveal(selector_of);
    reveal(expr);
    expr_keeps(env, cx, e);
    match expr(env, cx, e) {
        (cx1, Some(v)) => {
            selector_text_keeps(cx1, v);
        },
        _ => {},
    }
}

#[verifier::spinoff_prover]
pub(crate) proof fn fix_cast_keeps(env: Env, cx: Cx, scale: ScaleArg, operand: Written, span: Span)
    ensures
        keeps(cx, fix_cast(env, cx, scale, operand, span).0),
    decreases operand, 0int, 12int,
{
    grows_facts();
    reveal(fix_cast);
    reveal(expr);
    reveal(place);
    scale_of_keeps(env, cx, scale);
    match scale_of(env, cx, scale) {
        (cx1, Some(scale)) => {
            expr_keeps(env, cx1, operand);
            match expr(env, cx1, operand) {
                (cx2, Some(v)) => {
                    if v.ty.nbt_scalar() {
                        place_keeps(env, cx2, operand);
                    } else {
                        fix_of_keeps(cx2, scale, v, span);
                    }
                },
                _ => {},
            }
        },
        _ => {},
    }
}

#[verifier::spinoff_prover]
pub(crate) proof fn place_keeps(env: Env, cx: Cx, e: Written)
    ensures
        keeps(cx, place(env, cx, e).0),
    decreases e, 0int, 5int,
{
    grows_facts();
    reveal(place);
    reveal(expr);
    match e {
        Written::Field(base, name, span) => {
            place_keeps(env, cx, *base);
            match place(env, cx, *base) {
                (cx1, Some(p)) => {
                    place_field_keeps(cx1, p, base.span(), name, span);
                },
                _ => {},
            }
        },
        Written::Index(base, index, span) => {
            place_keeps(env, cx, *base);
            match place(env, cx, *base) {
                (cx1, Some(p)) => {
                    index_fault_keeps(cx1, p, base.span(), span);
                    match index_fault(cx1, p, base.span(), span) {
                        (cx2, true) => {
                            expr_keeps(env, cx2, *index);
                            match expr(env, cx2, *index) {
                                (cx3, Some(i)) => {
                                    place_element_keeps(cx3, p, i);
                                },
                                _ => {},
                            }
                        },
                        _ => {},
                    }
                },
                _ => {},
            }
        },
        _ => {},
    }
}

#[verifier::spinoff_prover]
pub(crate) proof fn call_keeps(env: Env, cx: Cx, callee: Ident, args: Seq<Written>, span: Span)
    ensures
        keeps(cx, call(env, cx, callee, args, span).0),
    decreases args, args.len() + 1, 20int,
{
    grows_facts();
    reveal(call);
    reveal(expr);
    reveal(command);
    reveal(invoke);
    if callee.name == "Some"@ {
        if args.len() == 1 {
            expr_keeps(env, cx, args[0]);
            match expr(env, cx, args[0]) {
                (cx1, Some(v)) => {
                    some_of_keeps(cx1, v, span);
                },
                _ => {},
            }
        }
    } else if !has_sig(env.sigs, callee.name) {
        command_keeps(env, cx, callee, args, span);
    } else {
        invoke_keeps(env, cx, callee.name, span, None, args);
    }
}

#[verifier::spinoff_prover]
pub(crate) proof fn command_keeps(env: Env, cx: Cx, callee: Ident, args: Seq<Written>, span: Span)
    ensures
        keeps(cx, command(env, cx, callee, args, span).0),
    decreases args, args.len() + 1, 19int,
{
    grows_facts();
    reveal(command);
    reveal(block_test);
    reveal(command_args);
    if callee.name == "block"@ {
        block_test_keeps(env, cx, args, span);
    } else {
        match env.toolchain {
            Some(commands) => {
                let at = command_named(commands, callee.name, 0);
                if at < commands.len() {
                    let sig = commands[at];
                    if args.len() == sig.params.len() {
                        command_args_keeps(env, cx, args, 0, sig.params, seq![]);
                    }
                }
            },
            _ => {},
        }
    }
}

#[verifier::spinoff_prover]
pub(crate) proof fn command_args_keeps(
    env: Env,
    cx: Cx,
    args: Seq<Written>,
    i: int,
    params: Seq<ParamModel>,
    acc: Seq<Seq<char>>,
)
    ensures
        keeps(cx, command_args(env, cx, args, i, params, acc).0),
    decreases args, args.len() - i, 18int,
{
    grows_facts();
    reveal(command_args);
    reveal(expr);
    if i >= 0 && i < args.len() && i < params.len() {
        expr_keeps(env, cx, args[i]);
        match expr(env, cx, args[i]) {
            (cx1, Some(v)) => {
                render_arg_keeps(cx1, v, params[i].ty);
                match render_arg(cx1, v, params[i].ty) {
                    (cx2, Some(text)) => {
                        let cx3 = if params[i].parser == "minecraft:function"@ {
                            Cx {
                                refs: cx2.refs.push(
                                    Reference {
                                        id: text,
                                        kind: RefKind::Function,
                                        span: args[i].span(),
                                    },
                                ),
                                ..cx2
                            }
                        } else {
                            cx2
                        };
                        command_args_keeps(env, cx3, args, i + 1, params, acc.push(text));
                    },
                    _ => {},
                }
            },
            _ => {},
        }
    }
}

#[verifier::spinoff_prover]
pub(crate) proof fn block_test_keeps(env: Env, cx: Cx, args: Seq<Written>, span: Span)
    ensures
        keeps(cx, block_test(env, cx, args, span).0),
    decreases args, args.len() + 1, 18int,
{
    grows_facts();
    reveal(block_test);
    reveal(expr);
    if args.len() == 2 {
        expr_keeps(env, cx, args[0]);
        match expr(env, cx, args[0]) {
            (cx1, Some(at)) => {
                expr_keeps(env, cx1, args[1]);
            },
            _ => {},
        }
    }
}

#[verifier::spinoff_prover]
pub(crate) proof fn invoke_keeps(
    env: Env,
    cx: Cx,
    name: Seq<char>,
    span: Span,
    receiver: Option<Place>,
    args: Seq<Written>,
)
    ensures
        keeps(cx, invoke(env, cx, name, span, receiver, args).0),
    decreases args, args.len() + 1, 19int,
{
    grows_facts();
    reveal(invoke);
    reveal(pass_args);
    let at = sig_at(env.sigs, name, 0);
    if at < env.sigs.len() {
        let sig = env.sigs[at];
        check_ctx_keeps(cx, name, sig.ctx, span);
        let cx1 = check_ctx(cx, name, sig.ctx, span);
        let given = args.len() + if receiver is Some {
            1nat
        } else {
            0nat
        };
        if given == sig.params.len() {
            let start = Given { values: seq![], borrows: seq![], actual: seq![] };
            match receiver {
                Some(place) => {
                    receive_keeps(env, cx1, sig.params[0], place, span, start);
                },
                _ => {},
            }
            let first = match receiver {
                None => (cx1, Some(start)),
                Some(place) => receive(env, cx1, sig.params[0], place, span, start),
            };
            match first {
                (cx2, Some(begun)) => {
                    pass_args_keeps(env, cx2, name, span, sig.params, args, 0, begun);
                    match pass_args(env, cx2, name, span, sig.params, args, 0, begun) {
                        (cx3, Some(given)) => {
                            pick_keeps(env, cx3, sig, name, given, span);
                        },
                        _ => {},
                    }
                },
                _ => {},
            }
        }
    }
}

pub(crate) proof fn receive_keeps(
    env: Env,
    cx: Cx,
    param: ParamSig,
    place: Place,
    span: Span,
    given: Given,
)
    ensures
        keeps(cx, receive(env, cx, param, place, span, given).0),
{
    grows_facts();
    reveal(receive);
    match param.borrow {
        Some(kind) => {
            borrow_place_keeps(env, cx, kind, place, span, given);
        },
        _ => {},
    }
}

#[verifier::spinoff_prover]
pub(crate) proof fn pass_args_keeps(
    env: Env,
    cx: Cx,
    name: Seq<char>,
    span: Span,
    params: Seq<ParamSig>,
    args: Seq<Written>,
    i: int,
    given: Given,
)
    ensures
        keeps(cx, pass_args(env, cx, name, span, params, args, i, given).0),
    decreases args, args.len() - i, 18int,
{
    grows_facts();
    reveal(pass_args);
    reveal(expr_expecting);
    reveal(place);
    let at = given.actual.len() as int;
    if i >= 0 && i < args.len() && at < params.len() {
        match params[at].borrow {
            None => {
                expr_expecting_keeps(env, cx, args[i], params[at].ty);
            },
            Some(kind) => {
                match args[i] {
                    Written::Borrow(borrow, lent, at_span) => {
                        if !(borrow != kind && kind == Borrow::Mutable) {
                            place_keeps(env, cx, *lent);
                            match place(env, cx, *lent) {
                                (cx1, Some(p)) => {
                                    borrow_place_keeps(env, cx1, kind, p, span, given);
                                },
                                _ => {},
                            }
                        }
                    },
                    _ => {},
                }
            },
        }
        let passed = match params[at].borrow {
            None => match expr_expecting(env, cx, args[i], params[at].ty) {
                (cx1, None) => (cx1, None),
                (cx1, Some(v)) => (
                    cx1,
                    Some(
                        Given {
                            values: given.values.push(v),
                            borrows: given.borrows.push(None),
                            actual: given.actual.push(v.ty),
                        },
                    ),
                ),
            },
            Some(kind) => match args[i] {
                Written::Borrow(borrow, lent, at_span) => if borrow != kind && kind
                    == Borrow::Mutable {
                    (
                        cx.fault(
                            at_span,
                            "'"@ + name + "' takes this by &mut; write '&mut'"@,
                        ),
                        None,
                    )
                } else {
                    match place(env, cx, *lent) {
                        (cx1, None) => (cx1, None),
                        (cx1, Some(p)) => borrow_place(env, cx1, kind, p, span, given),
                    }
                },
                _ => (
                    cx.fault(
                        args[i].span(),
                        "'"@ + name + "' takes this by reference; write '&' or '&mut'"@,
                    ),
                    None,
                ),
            },
        };
        match passed {
            (cx1, Some(given1)) => {
                pass_args_keeps(env, cx1, name, span, params, args, i + 1, given1);
            },
            _ => {},
        }
    }
}

#[verifier::spinoff_prover]
pub(crate) proof fn text_macro_keeps(env: Env, cx: Cx, args: Seq<Written>)
    ensures
        keeps(cx, text_macro(env, cx, args).0),
    decreases args, args.len() + 1, 19int,
{
    grows_facts();
    reveal(text_macro);
    reveal(text_parts);
    text_parts_keeps(env, cx, args, 0, seq![], true);
}

#[verifier::spinoff_prover]
pub(crate) proof fn text_parts_keeps(
    env: Env,
    cx: Cx,
    args: Seq<Written>,
    i: int,
    acc: Seq<Component>,
    ok: bool,
)
    ensures
        keeps(cx, text_parts(env, cx, args, i, acc, ok).0),
    decreases args, args.len() - i, 18int,
{
    grows_facts();
    reveal(text_parts);
    reveal(component);
    if i >= 0 && i < args.len() {
        component_keeps(env, cx, args[i]);
        match component(env, cx, args[i]) {
            (cx1, Some(c)) => {
                text_parts_keeps(env, cx1, args, i + 1, acc.push(c), ok);
            },
            (cx1, None) => {
                text_parts_keeps(env, cx1, args, i + 1, acc, false);
            },
        }
    }
}

#[verifier::spinoff_prover]
pub(crate) proof fn component_keeps(env: Env, cx: Cx, e: Written)
    ensures
        keeps(cx, component(env, cx, e).0),
    decreases e, 0int, 11int,
{
    grows_facts();
    reveal(component);
    reveal(expr);
    expr_keeps(env, cx, e);
    match expr(env, cx, e) {
        (cx1, Some(v)) => {
            component_of_keeps(env, cx1, v);
        },
        _ => {},
    }
}

pub(crate) proof fn style_value_keeps(
    cx: Cx,
    name: Seq<char>,
    fixed: Option<Seq<char>>,
    args: Seq<Written>,
    span: Span,
)
    ensures
        keeps(cx, style_value(cx, name, fixed, args, span).0),
{
    grows_facts();
    reveal(style_value);
}

#[verifier::spinoff_prover]
pub(crate) proof fn method_call_keeps(env: Env, cx: Cx, e: Written, as_statement: bool)
    ensures
        keeps(cx, method_call(env, cx, e, as_statement).0),
    decreases e, 0int, 8int,
{
    grows_facts();
    reveal(method_call);
    reveal(component);
    reveal(place);
    reveal(place_method);
    match e {
        Written::Method(receiver, name, args, span) => {
            match style_member(name.name) {
                Some((key, fixed)) => {
                    style_value_keeps(cx, name.name, fixed, args, span);
                    match style_value(cx, name.name, fixed, args, span) {
                        (cx1, Some(shown)) => {
                            component_keeps(env, cx1, *receiver);
                        },
                        _ => {},
                    }
                },
                None => {
                    place_keeps(env, cx, *receiver);
                    match place(env, cx, *receiver) {
                        (cx1, Some(p)) => {
                            place_method_keeps(env, cx1, p, name, args, span, as_statement);
                        },
                        _ => {},
                    }
                },
            }
        },
        _ => {},
    }
}

#[verifier::spinoff_prover]
pub(crate) proof fn place_method_keeps(
    env: Env,
    cx: Cx,
    p: Place,
    name: Ident,
    args: Seq<Written>,
    span: Span,
    as_statement: bool,
)
    ensures
        keeps(cx, place_method(env, cx, p, name, args, span, as_statement).0),
    decreases args, args.len() + 1, 21int,
{
    grows_facts();
    reveal(place_method);
    reveal(invoke);
    reveal(vec_method);
    let key = cx.ty(p.ty) + "::"@ + name.name;
    if has_sig(env.sigs, key) {
        invoke_keeps(env, cx, key, span, Some(p), args);
    } else if conversion_target(name.name) is Some {
        convert_keeps(cx, p, conversion_target(name.name)->0, name.name, args.len(), span);
    } else if p.ty is Option && name.name == "expect"@ {
        expect_of_keeps(cx, p, inner_of(cx.types, p.ty->Option_0), args, span);
    } else if p.ty is Str {
        string_method_keeps(cx, p, name, args, span);
    } else {
        vec_method_keeps(env, cx, p, name, args, span, as_statement);
    }
}

#[verifier::spinoff_prover]
pub(crate) proof fn vec_method_keeps(
    env: Env,
    cx: Cx,
    p: Place,
    name: Ident,
    args: Seq<Written>,
    span: Span,
    as_statement: bool,
)
    ensures
        keeps(cx, vec_method(env, cx, p, name, args, span, as_statement).0),
    decreases args, args.len() + 1, 20int,
{
    grows_facts();
    reveal(vec_method);
    reveal(expr);
    match p.ty {
        Type::Vec(id) => {
            if name.name == "push"@ {
                if as_statement {
                    if p.mutable {
                        if args.len() == 1 {
                            expr_keeps(env, cx, args[0]);
                        }
                    }
                }
            }
        },
        _ => {},
    }
}

#[verifier::spinoff_prover]
pub(crate) proof fn list_values_keeps(
    env: Env,
    cx: Cx,
    values: Seq<Written>,
    i: int,
    elem: Option<Type>,
    acc: Seq<Expr>,
    span: Span,
)
    ensures
        keeps(cx, list_values(env, cx, values, i, elem, acc, span).0),
    decreases values, values.len() - i, 18int,
{
    grows_facts();
    reveal(list_values);
    reveal(expr);
    if i < 0 || i >= values.len() {
        list_of_keeps(cx, elem, acc, span);
    } else {
        expr_keeps(env, cx, values[i]);
        match expr(env, cx, values[i]) {
            (cx1, Some(v)) => {
                match elem {
                    None => {
                        list_values_keeps(env, cx1, values, i + 1, Some(v.ty), acc.push(v), span);
                    },
                    Some(ty) => {
                        if ty == v.ty {
                            list_values_keeps(env, cx1, values, i + 1, elem, acc.push(v), span);
                        }
                    },
                }
            },
            _ => {},
        }
    }
}

#[verifier::spinoff_prover]
pub(crate) proof fn composite_lit_keeps(env: Env, cx: Cx, lit: StructLit)
    ensures
        keeps(cx, composite_lit(env, cx, lit).0),
    decreases lit, 0int, 9int,
{
    grows_facts();
    reveal(composite_lit);
    reveal(field_values);
    reveal(named_lit);
    templates_are_found();
    match template_of(cx.types, lit.name.name) {
        Some(template) => {
            match lit.variant {
                None => {
                    field_values_keeps(env, cx, lit.fields, 0, None, seq![]);
                    match field_values(env, cx, lit.fields, 0, None, seq![]) {
                        (cx1, Some(written)) => {
                            generic_struct_keeps(cx1, template, written, lit.span);
                        },
                        _ => {},
                    }
                },
                _ => {},
            }
        },
        None => {
            match lookup(cx.types.by_name, lit.name.name) {
                Some(ty) => {
                    named_lit_keeps(env, cx, lit, ty);
                },
                _ => {},
            }
        },
    }
}

#[verifier::spinoff_prover]
pub(crate) proof fn named_lit_keeps(env: Env, cx: Cx, lit: StructLit, ty: Type)
    ensures
        keeps(cx, named_lit(env, cx, lit, ty).0),
    decreases lit, 0int, 8int,
{
    grows_facts();
    reveal(named_lit);
    reveal(init_fields);
    let as_struct = match ty {
        Type::Struct(id) => struct_of(cx.types, id),
        _ => None,
    };
    let as_enum = match ty {
        Type::Enum(id) => enum_of(cx.types, id),
        _ => None,
    };
    match (as_struct, as_enum, lit.variant) {
        (Some(def), _, None) => {
            init_fields_keeps(env, cx, lit, def.fields, def.name);
        },
        (None, Some(def), Some(written)) => {
            let at = variant_named(def.variants, written.name, 0);
            if at < def.variants.len() {
                let declared = def.variants[at];
                init_fields_keeps(env, cx, lit, declared.fields, def.name + "::"@ + declared.name);
            }
        },
        _ => {},
    }
}

#[verifier::spinoff_prover]
pub(crate) proof fn init_fields_keeps(
    env: Env,
    cx: Cx,
    lit: StructLit,
    declared: Seq<Field>,
    what: Seq<char>,
)
    ensures
        keeps(cx, init_fields(env, cx, lit, declared, what).0),
    decreases lit, 0int, 7int,
{
    grows_facts();
    reveal(init_fields);
    reveal(field_values);
    field_values_keeps(env, cx, lit.fields, 0, Some(declared), seq![]);
    match field_values(env, cx, lit.fields, 0, Some(declared), seq![]) {
        (cx1, Some(written)) => {
            check_fields_keeps(cx1, declared, written, lit.span, what);
        },
        _ => {},
    }
}

#[verifier::spinoff_prover]
pub(crate) proof fn field_values_keeps(
    env: Env,
    cx: Cx,
    fields: Seq<FieldInit>,
    i: int,
    declared: Option<Seq<Field>>,
    acc: Seq<(Ident, Expr)>,
)
    ensures
        keeps(cx, field_values(env, cx, fields, i, declared, acc).0),
    decreases fields, fields.len() - i, 6int,
{
    grows_facts();
    reveal(field_values);
    reveal(expr_expecting);
    reveal(expr);
    if i >= 0 && i < fields.len() {
        let want = match declared {
            Some(declared) => {
                let at = field_named(declared, fields[i].name.name, 0);
                if at < declared.len() {
                    Some(declared[at].ty)
                } else {
                    None
                }
            },
            None => None,
        };
        match want {
            Some(ty) => {
                expr_expecting_keeps(env, cx, fields[i].value, ty);
            },
            None => {
                expr_keeps(env, cx, fields[i].value);
            },
        }
        let lowered = match want {
            Some(ty) => expr_expecting(env, cx, fields[i].value, ty),
            None => expr(env, cx, fields[i].value),
        };
        match lowered {
            (cx1, Some(v)) => {
                field_values_keeps(
                    env,
                    cx1,
                    fields,
                    i + 1,
                    declared,
                    acc.push((fields[i].name, v)),
                );
            },
            _ => {},
        }
    }
}

pub(crate) proof fn condition_keeps(env: Env, cx: Cx, e: Written)
    ensures
        keeps(cx, condition(env, cx, e).0),
{
    grows_facts();
    reveal(condition);
    expr_keeps(env, cx, e);
}

pub(crate) proof fn resolve_keeps(env: Env, cx: Cx, written: TypeName)
    ensures
        keeps(cx, resolve(env, cx, written).0),
{
    grows_facts();
    reveal(resolve);
    if !(written.borrow is Some) {
        if written.name == "fix"@ {
            match written.scale {
                Some(scale) => {
                    scale_of_keeps(env, cx, scale);
                },
                _ => {},
            }
        } else {
            match lookup(env.type_params, written.name) {
                None => {
                    resolve_written_grows(
                        Table { types: cx.types, errs: cx.errs },
                        written,
                        seq![],
                    );
                },
                _ => {},
            }
        }
    }
}

/// Binding the fields of a generic struct binds as many parameters as there were.
proof fn bind_fields_len(
    t: Types,
    fields: Seq<Field>,
    written: Seq<(Ident, Expr)>,
    i: int,
    bound: Seq<Option<Type>>,
)
    ensures
        bind_fields(t, fields, written, i, bound).len() == bound.len(),
    decreases written.len() - i,
{
    if 0 <= i < written.len() {
        let at = field_named(fields, written[i].0.name, 0);
        let bound1 = if at < fields.len() {
            unified(t, fields[at].ty, written[i].1.ty, bound, DEPTH as nat).0
        } else {
            bound
        };
        if at < fields.len() {
            lemma_bindings_stay(t, fields[at].ty, written[i].1.ty, bound, DEPTH as nat);
        }
        bind_fields_len(t, fields, written, i + 1, bound1);
    }
}

} // verus!
