//! What a whole file means.

use vstd::prelude::*;

use crate::hir::model::{Attr, Function, Generic, Hir, Place, Types};
use crate::hir::rules::stmts::{always_returns, attrs_of, block};
use crate::hir::rules::types::{
    collect_types, declared_ctx, generic_defs, impl_attrs, resolve_written, Table,
};
use crate::hir::rules::values::path_of;
use crate::hir::rules::{has_sig, Cx, Env, Pending, Sig};
use crate::hir::types::{inner_of, lookup, name_of, substituted};
use crate::hir::{Ctx, FnId, LocalId, ParamSig, Type};
use crate::schema::Command;
use crate::syntax::ast::Borrow;
use crate::syntax::model::{Fault, FnItem, Item, ItemKind, Param, TypeName};

verus! {

/// A function as written: the item, the function, and the type whose `impl` it is in.
pub struct WrittenFn {
    pub item: Item,
    pub f: FnItem,
    pub owner: Option<Seq<char>>,
}

/// The functions of an `impl` block, from the `i`th method on.
pub open spec fn methods_of(
    errs: Seq<Fault>,
    methods: Seq<Item>,
    i: int,
    owner: Seq<char>,
    acc: Seq<WrittenFn>,
) -> (Seq<Fault>, Seq<WrittenFn>)
    decreases methods.len() - i,
{
    if i < 0 || i >= methods.len() {
        (errs, acc)
    } else {
        match methods[i].kind {
            ItemKind::Fn(f) => methods_of(
                errs,
                methods,
                i + 1,
                owner,
                acc.push(WrittenFn { item: methods[i], f, owner: Some(owner) }),
            ),
            _ => methods_of(
                errs.push(
                    Fault {
                        span: methods[i].span,
                        message: "an impl block holds functions only"@,
                    },
                ),
                methods,
                i + 1,
                owner,
                acc,
            ),
        }
    }
}

/// The functions of a file, from the `i`th item on. A method is a function whose name
/// carries its type and whose first parameter is the receiver.
pub open spec fn functions_of(errs: Seq<Fault>, items: Seq<Item>, i: int, acc: Seq<WrittenFn>) -> (
    Seq<Fault>,
    Seq<WrittenFn>,
)
    decreases items.len() - i,
{
    if i < 0 || i >= items.len() {
        (errs, acc)
    } else {
        match items[i].kind {
            ItemKind::Fn(f) => functions_of(
                errs,
                items,
                i + 1,
                acc.push(WrittenFn { item: items[i], f, owner: None }),
            ),
            ItemKind::Impl(ty, methods) => {
                let errs1 = impl_attrs(errs, items[i].attrs, 0);
                let (errs2, acc1) = methods_of(errs1, methods, 0, ty.name, acc);
                functions_of(errs2, items, i + 1, acc1)
            },
            _ => functions_of(errs, items, i + 1, acc),
        }
    }
}

/// One declared parameter.
#[verifier::opaque]
pub open spec fn param_sig(t: Table, param: Param, generics: Seq<Generic>) -> (Table, ParamSig) {
    let (t1, first) = resolve_written(t, param.ty, generics);
    let t2 = if first is Some && first->0.compile_time() {
        t1.fault(
            param.ty.span,
            "a "@ + name_of(t1.types, first->0)
                + " exists only while compiling, so it cannot be passed; write it where it is used"@,
        )
    } else {
        t1
    };
    match resolve_written(t2, param.ty, generics) {
        (t3, None) => (t3, ParamSig { ty: Type::I32, borrow: None }),
        (t3, Some(ty)) => (t3, ParamSig { ty, borrow: param.ty.borrow }),
    }
}

#[verifier::opaque]
pub open spec fn param_sigs(
    t: Table,
    params: Seq<Param>,
    i: int,
    generics: Seq<Generic>,
    acc: Seq<ParamSig>,
) -> (Table, Seq<ParamSig>)
    decreases params.len() - i,
{
    if i < 0 || i >= params.len() {
        (t, acc)
    } else {
        let (t1, one) = param_sig(t, params[i], generics);
        param_sigs(t1, params, i + 1, generics, acc.push(one))
    }
}

/// The receiver as the first parameter, with the type the `impl` block names.
#[verifier::opaque]
pub open spec fn receiver_sig(t: Table, w: WrittenFn) -> (Table, Seq<ParamSig>) {
    match w.f.receiver {
        None => (t, seq![]),
        Some(receiver) => {
            let ty = match w.owner {
                Some(owner) => lookup(t.types.by_name, owner),
                None => None,
            };
            match ty {
                Some(ty) => (t, seq![ParamSig { ty, borrow: receiver.borrow }]),
                None => (
                    t.fault(
                        receiver.span,
                        "'self' is only a parameter inside an impl block for a known type"@,
                    ),
                    seq![],
                ),
            }
        },
    }
}

/// What a function returns. Vanilla's function return is a single integer, so there is
/// nowhere for a compound to come back in; an option of a number is the two halves of a
/// call's outcome.
#[verifier::opaque]
pub open spec fn return_sig(t: Table, written: Option<TypeName>, generics: Seq<Generic>) -> (
    Table,
    Option<Type>,
) {
    match written {
        None => (t, None),
        Some(written) => {
            let (t1, ret) = resolve_written(t, written, generics);
            let t2 = if written.borrow is Some {
                t1.fault(
                    written.span,
                    "a reference cannot be returned: it is a name for a place in the caller, and the caller already has that name"@,
                )
            } else {
                t1
            };
            let t3 = match ret {
                Some(Type::Option(id)) => if inner_of(t2.types, id).storage() {
                    t2.fault(
                        written.span,
                        "an Option<"@ + name_of(t2.types, inner_of(t2.types, id))
                            + "> cannot come back from a function: the value half of a call's outcome is a single number"@,
                    )
                } else {
                    t2
                },
                Some(ty) => if ty.storage() {
                    t2.fault(
                        written.span,
                        "returning a composite value is not implemented yet: a function's return value is a single number, so a compound has nowhere to come back in"@,
                    )
                } else {
                    t2
                },
                None => t2,
            };
            (t3, ret)
        },
    }
}

/// The signatures collected so far, and the functions they belong to.
pub struct Sigs {
    pub t: Table,
    pub sigs: Seq<Sig>,
    pub fns: Seq<WrittenFn>,
    /// How many of them have an id of their own.
    pub concrete: nat,
}

/// `Counter::bump` for a method, and the plain name for a function.
pub open spec fn full_name(w: WrittenFn) -> Seq<char> {
    match w.owner {
        Some(ty) => ty + "::"@ + w.f.name.name,
        None => w.f.name.name,
    }
}

pub open spec fn any_borrowed(params: Seq<ParamSig>, i: int) -> bool
    decreases params.len() - i,
{
    if i < 0 || i >= params.len() {
        false
    } else {
        params[i].borrow is Some || any_borrowed(params, i + 1)
    }
}

/// One more signature. A template has no id of its own: only its instances are real
/// functions. A borrowed parameter makes one too, because the path it stands for is only
/// known at the call site.
#[verifier::opaque]
pub open spec fn add_sig(s: Sigs, w: WrittenFn) -> Sigs {
    let name = full_name(w);
    if has_sig(s.sigs, name) {
        Sigs {
            t: s.t.fault(w.f.name.span, "a function named '"@ + name + "' is already defined"@),
            ..s
        }
    } else {
        let generics = generic_defs(w.f.generics);
        let (t1, first) = receiver_sig(s.t, w);
        let (t2, params) = param_sigs(t1, w.f.params, 0, generics, first);
        let (t3, ret) = return_sig(t2, w.f.ret, generics);
        let plain = generics.len() == 0 && !any_borrowed(params, 0);
        Sigs {
            t: t3,
            sigs: s.sigs.push(
                Sig {
                    name,
                    id: if plain {
                        Some(FnId(s.concrete as u32))
                    } else {
                        None
                    },
                    generics,
                    params,
                    ret,
                    ctx: declared_ctx(w.item.attrs),
                    item: s.fns.len() as usize,
                },
            ),
            fns: s.fns.push(w),
            concrete: if plain {
                s.concrete + 1
            } else {
                s.concrete
            },
        }
    }
}

#[verifier::opaque]
pub open spec fn add_sigs(s: Sigs, written: Seq<WrittenFn>, i: int) -> Sigs
    decreases written.len() - i,
{
    if i < 0 || i >= written.len() {
        s
    } else {
        add_sigs(add_sig(s, written[i]), written, i + 1)
    }
}

/// The contexts a function's attributes declare.
pub open spec fn provided_by(attrs: Seq<Attr>, i: int) -> Seq<Ctx>
    decreases i,
{
    if i <= 0 || i > attrs.len() {
        seq![]
    } else {
        provided_by(attrs, i - 1) + match attrs[i - 1] {
            Attr::Ctx(kinds) => kinds,
            _ => seq![],
        }
    }
}

pub open spec fn is_tagged(attrs: Seq<Attr>, i: int) -> bool
    decreases attrs.len() - i,
{
    if i < 0 || i >= attrs.len() {
        false
    } else {
        attrs[i] is Tick || attrs[i] is Load || attrs[i] is Test || is_tagged(attrs, i + 1)
    }
}

pub open spec fn is_test(attrs: Seq<Attr>, i: int) -> bool
    decreases attrs.len() - i,
{
    if i < 0 || i >= attrs.len() {
        false
    } else {
        attrs[i] is Test || is_test(attrs, i + 1)
    }
}

/// The names of a function's parameters: the receiver is one like any other, under the
/// name `self`.
pub open spec fn param_names(f: FnItem) -> Seq<Seq<char>> {
    let written = Seq::new(f.params.len(), |i: int| f.params[i].name.name);
    if f.receiver is Some {
        seq!["self"@] + written
    } else {
        written
    }
}

/// The parameters declared as bindings, from the `i`th on. A borrowed one stands for the
/// caller's place, and nothing is written before the call.
#[verifier::opaque]
pub open spec fn declare_params(
    cx: Cx,
    names: Seq<Seq<char>>,
    params: Seq<ParamSig>,
    borrows: Seq<Option<Place>>,
    i: int,
    acc: Seq<LocalId>,
) -> (Cx, Seq<LocalId>)
    decreases params.len() - i,
{
    if i < 0 || i >= params.len() || i >= names.len() {
        (cx, acc)
    } else {
        let local = cx.next_local();
        let cx1 = cx.declare(names[i], params[i].ty, false);
        match params[i].borrow {
            None => declare_params(cx1, names, params, borrows, i + 1, acc.push(local)),
            Some(borrow) => {
                let cx2 = if i < borrows.len() && borrows[i] is Some {
                    cx1.alias(
                        local,
                        Place {
                            mutable: borrow == Borrow::Mutable,
                            via: names[i],
                            ..borrows[i]->0
                        },
                    )
                } else {
                    cx1
                };
                declare_params(cx2, names, params, borrows, i + 1, acc)
            },
        }
    }
}

/// What a function tag or a test runner cannot give a function that asks for it. Vanilla
/// can never say this: such a function silently does nothing.
#[verifier::opaque]
pub open spec fn check_attrs(cx: Cx, f: FnItem, attrs: Seq<Attr>) -> Cx {
    let cx1 = if is_tagged(attrs, 0) && cx.provided.len() > 0 {
        cx.fault(
            f.name.span,
            "a #[tick], #[load] or #[test] function cannot require a context: it is invoked with no executor, so it would silently do nothing"@,
        )
    } else {
        cx
    };
    if is_test(attrs, 0) && (f.params.len() > 0 || f.ret is Some) {
        cx1.fault(
            f.name.span,
            "a #[test] function takes no arguments and returns nothing: it is called on its own"@,
        )
    } else {
        cx1
    }
}

/// The state in which a function's lowering begins.
pub open spec fn fresh(cx: Cx) -> Cx {
    Cx {
        locals: seq![],
        aliases: seq![],
        selectors: seq![],
        scopes: seq![seq![]],
        expected: None,
        provided: seq![],
        in_loop: false,
        ..cx
    }
}

/// One function: the template it came from, and what it was instantiated with.
#[verifier::opaque]
pub open spec fn lower_function(
    env: Env,
    cx: Cx,
    w: WrittenFn,
    id: FnId,
    params: Seq<ParamSig>,
    borrows: Seq<Option<Place>>,
) -> (Cx, Function) {
    let (cx1, attrs) = attrs_of(fresh(cx), w.item.attrs, 0, seq![]);
    let cx2 = Cx { provided: provided_by(attrs, attrs.len() as int), ..cx1 };
    let cx3 = check_attrs(cx2, w.f, attrs);
    let (cx4, declared) = declare_params(cx3, param_names(w.f), params, borrows, 0, seq![]);
    let (cx5, body) = block(env, cx4, w.f.body.stmts);
    let cx6 = if env.ret is Some && !always_returns(body, 0) {
        cx5.fault(
            w.f.name.span,
            "this function can reach its end without returning a value"@,
        )
    } else {
        cx5
    };
    (
        cx6,
        Function {
            id,
            name: env.function,
            path: env.namespace + ":"@ + env.function,
            attrs,
            params: declared,
            ret: env.ret,
            locals: cx6.locals,
            body,
            span: w.item.span,
        },
    )
}

/// The functions with an id of their own, from the `i`th signature on.
#[verifier::opaque]
pub open spec fn lower_concrete(
    env: Env,
    cx: Cx,
    fns: Seq<WrittenFn>,
    i: int,
    acc: Seq<Function>,
) -> (Cx, Seq<Function>)
    decreases env.sigs.len() - i,
{
    if i < 0 || i >= env.sigs.len() || i >= fns.len() {
        (cx, acc)
    } else {
        match env.sigs[i].id {
            None => lower_concrete(env, cx, fns, i + 1, acc),
            Some(id) => {
                let one = Env {
                    function: path_of(env.sigs[i].name),
                    type_params: seq![],
                    ret: env.sigs[i].ret,
                    ..env
                };
                let (cx1, f) = lower_function(one, cx, fns[i], id, env.sigs[i].params, seq![]);
                lower_concrete(env, cx1, fns, i + 1, acc.push(f))
            },
        }
    }
}

/// The parameters of an instance, from the `i`th on.
#[verifier::opaque]
pub open spec fn instance_params(
    t: Types,
    params: Seq<ParamSig>,
    i: int,
    args: Seq<Type>,
    acc: Seq<ParamSig>,
) -> (Types, Seq<ParamSig>)
    decreases params.len() - i,
{
    if i < 0 || i >= params.len() {
        (t, acc)
    } else {
        let (t1, ty) = substituted(t, params[i].ty, args);
        instance_params(t1, params, i + 1, args, acc.push(ParamSig { ty, ..params[i] }))
    }
}

/// The type parameters of an instance bound to what it was asked for.
pub open spec fn bound_generics(generics: Seq<Generic>, args: Seq<Type>) -> Seq<(Seq<char>, Type)> {
    Seq::new(
        if generics.len() <= args.len() {
            generics.len()
        } else {
            args.len()
        },
        |i: int| (generics[i].name, args[i]),
    )
}

/// One instance.
#[verifier::opaque]
pub open spec fn lower_instance(env: Env, cx: Cx, fns: Seq<WrittenFn>, p: Pending) -> (
    Cx,
    Option<Function>,
) {
    if p.item >= env.sigs.len() || p.item >= fns.len() {
        (cx, None)
    } else {
        let sig = env.sigs[p.item as int];
        let (t1, params) = instance_params(cx.types, sig.params, 0, p.args, seq![]);
        let (t2, ret) = match sig.ret {
            Some(ty) => {
                let (t2, ty) = substituted(t1, ty, p.args);
                (t2, Some(ty))
            },
            None => (t1, None),
        };
        let one = Env {
            function: p.name,
            type_params: bound_generics(sig.generics, p.args),
            ret,
            ..env
        };
        let (cx1, f) = lower_function(
            one,
            Cx { types: t2, ..cx },
            fns[p.item as int],
            p.id,
            params,
            p.borrows,
        );
        (cx1, Some(f))
    }
}

/// The instances, in the order they were asked for. Lowering one can ask for more; there
/// are never more than a `u32` counts.
#[verifier::opaque]
pub open spec fn lower_pending(
    env: Env,
    cx: Cx,
    fns: Seq<WrittenFn>,
    at: int,
    acc: Seq<Function>,
) -> (Cx, Seq<Function>)
    decreases u32::MAX - at,
{
    if at < 0 || at >= cx.pending.len() || at >= u32::MAX {
        (cx, acc)
    } else {
        match lower_instance(env, cx, fns, cx.pending[at]) {
            (cx1, Some(f)) => lower_pending(env, cx1, fns, at + 1, acc.push(f)),
            (cx1, None) => lower_pending(env, cx1, fns, at + 1, acc),
        }
    }
}

/// A whole file: its program, and everything wrong with it.
#[verifier::opaque]
pub open spec fn lowered(items: Seq<Item>, namespace: Seq<char>, toolchain: Option<Seq<Command>>) -> (
    Hir,
    Seq<Fault>,
) {
    let t = collect_types(items);
    let (errs, written) = functions_of(t.errs, items, 0, seq![]);
    let s = add_sigs(
        Sigs { t: Table { errs, ..t }, sigs: seq![], fns: seq![], concrete: 0 },
        written,
        0,
    );
    let env = Env {
        namespace,
        function: seq![],
        type_params: seq![],
        ret: None,
        sigs: s.sigs,
        toolchain,
        concrete: s.concrete as u32,
    };
    let cx = fresh(
        Cx {
            types: s.t.types,
            pending: seq![],
            refs: seq![],
            errs: s.t.errs,
            locals: seq![],
            aliases: seq![],
            selectors: seq![],
            scopes: seq![],
            expected: None,
            provided: seq![],
            in_loop: false,
        },
    );
    let (cx1, first) = lower_concrete(env, cx, s.fns, 0, seq![]);
    let (cx2, all) = lower_pending(env, cx1, s.fns, 0, first);
    (Hir { functions: all, types: cx2.types, references: cx2.refs }, cx2.errs)
}

} // verus!
