//! Lowering of expressions.

use vstd::prelude::*;

use crate::hir::lower::checks::{
    command_words, conversion_target, inits, outcome_view, resolved_view, Given, Outcome, Resolved,
};
use crate::hir::lower::values::{combine, style_member};
use crate::hir::lower::{Frame, Lowering};
use crate::hir::model;
use crate::hir::rules::exprs;
use crate::hir::rules::values;
use crate::hir::{
    component_opt_view, copy_fields, copy_generics, expr_opt_view, exprs_opt_view, exprs_view, fields_view,
    find_field, generics_view, place_opt_view, Component, Expr, ExprKind, Field, GenericDef,
    ParamSig, Place, RefKind, Reference, Scale, Stmt, Type,
};
use crate::schema::{params_view, Param};
use crate::syntax::ast::{
    exprs_view as written_exprs, inits_view, text_opt_view, Borrow, Expr as Written, FieldInit,
    Ident, ScaleArg, StructLit, TypeName,
};
use crate::syntax::Span;
use crate::text::{
    cat2, cat3, cat4, cat5, cat7, join_texts, quoted, same, show_next, show_u64, texts,
};

verus! {

spec fn texts_view(v: Option<Vec<String>>) -> Option<Seq<Seq<char>>> {
    match v {
        Some(v) => Some(texts(v@)),
        None => None,
    }
}

spec fn inits_opt(v: Option<Vec<(Ident, Expr)>>) -> Option<
    Seq<(crate::syntax::model::Ident, model::Expr)>,
> {
    match v {
        Some(v) => Some(inits(v@)),
        None => None,
    }
}

impl Lowering {
    #[verifier::spinoff_prover]
    pub(super) fn expr(&mut self, env: &Frame, e: &Written) -> (r: Option<Expr>)
        ensures
            (final(self)@, expr_opt_view(r)) == exprs::expr(env@, old(self)@, e@),
        decreases e, 0int, 10int,
    {
        proof {
            reveal(exprs::expr);
            reveal(exprs::selector_of);
            reveal(exprs::fix_cast);
            reveal(exprs::place);
            reveal(exprs::call);
            reveal(exprs::text_macro);
            reveal(exprs::method_call);
            reveal(exprs::list_values);
            reveal(exprs::composite_lit);
            e.unfold();
        }
        let span = e.span();
        match e {
            Written::Int(lit) => Some(Expr::of(ExprKind::Int(lit.value), Type::I32, span)),
            Written::Bool(lit) => Some(Expr::of(ExprKind::Bool(lit.value), Type::Bool, span)),
            Written::Str(lit) => Some(
                Expr::of(ExprKind::Str(lit.value.clone()), Type::Str, span),
            ),
            Written::Selector(lit) => Some(
                Expr::of(ExprKind::Selector(lit.text.clone()), Type::Selector, span),
            ),
            Written::Resource(lit) => Some(
                Expr::of(ExprKind::Resource(lit.text.clone()), Type::Resource, span),
            ),
            Written::Path(name) => self.path(name),
            Written::Unary(u) => {
                let operand = self.expr(env, &u.operand)?;
                self.unary_of(u.op, operand, span)
            },
            Written::Binary(b) => {
                let lhs = self.expr(env, &b.lhs)?;
                let rhs = self.expr(env, &b.rhs)?;
                let ty = self.binary_type(b.op, lhs.ty, rhs.ty, span)?;
                Some(combine(b.op, lhs, rhs, ty, span))
            },
            Written::Fix(f) => self.fix_cast(env, &f.scale, &f.value, span),
            Written::Assign(_) => {
                self.error(span, "an assignment is a statement and produces no value");
                None
            },
            Written::Call(c) => self.call(env, &c.callee, &c.args, span),
            Written::Text(t) => {
                let component = self.text_macro(env, &t.args)?;
                Some(Expr::of(ExprKind::Component(component), Type::Component, span))
            },
            Written::Macro(m) => {
                if same(m.name.name.as_str(), "pos") {
                    let text = self.position_text(&m.tokens, span)?;
                    return Some(Expr::of(ExprKind::Pos(text), Type::Pos, span));
                }
                if same(m.name.name.as_str(), "nbt") {
                    match self.expected() {
                        Some(want) => {
                            if !matches!(want, Type::Param(_)) {
                                return self.nbt_lit(&m.tokens, want, span);
                            }
                        },
                        None => {},
                    }
                    self.error(
                        span,
                        "nbt! has to know what it is being written into: annotate the binding, as in 'let m: Mob = nbt!({ .. });'",
                    );
                    return None;
                }
                self.fault(span, cat3("'", m.name.name.as_str(), "!' does not produce a value"));
                None
            },
            Written::Struct(lit) => self.composite_lit(env, lit),
            Written::Borrow(_) => {
                self.error(
                    span,
                    "a reference can only be an argument: pass it to a function, or use the place directly",
                );
                None
            },
            Written::Field(_) => {
                let place = self.place(env, e)?;
                proof {
                    place.unfold();
                }
                let ty = place.ty;
                Some(Expr::of(ExprKind::Field(place), ty, span))
            },
            Written::Index(_) => {
                let place = self.place(env, e)?;
                proof {
                    place.unfold();
                }
                let ty = place.ty;
                Some(Expr::of(ExprKind::Field(place), ty, span))
            },
            Written::Try(t) => {
                let tried = self.expr(env, &t.value)?;
                self.try_of(env, tried, span)
            },
            Written::Assert(_) => {
                self.error(span, "'debug_assert!' is a statement and produces no value");
                None
            },
            Written::ViewOf(v) => {
                if !self.is_view(&v.ty) {
                    self.fault(
                        v.ty.span,
                        cat3(
                            "'",
                            v.ty.name.as_str(),
                            "' is not a view; declare it with #[entity]",
                        ),
                    );
                    return None;
                }
                let (text, at) = self.selector_of(env, &v.selector)?;
                self.view_place(&v.ty, text, at, span)
            },
            Written::Range(_) => {
                self.error(
                    span,
                    "a range is only the argument of 'slice'; there is no range type",
                );
                None
            },
            Written::List(l) => self.list_values(env, &l.values, None, span),
            Written::Method(m) => match self.method_call(env, e, false)? {
                Outcome::Value(value) => Some(value),
                Outcome::Stmt(_) => {
                    self.fault(
                        span,
                        cat3("'", m.name.name.as_str(), "' does not return a value"),
                    );
                    None
                },
            },
        }
    }

    /// An expression in a place whose type is already known.
    #[verifier::spinoff_prover]
    pub(super) fn expr_expecting(&mut self, env: &Frame, e: &Written, want: Type) -> (r: Option<
        Expr,
    >)
        ensures
            (final(self)@, expr_opt_view(r)) == exprs::expr_expecting(
                env@,
                old(self)@,
                e@,
                want,
            ),
        decreases e, 0int, 11int,
    {
        proof {
            reveal(exprs::expr_expecting);
            reveal(exprs::expr);
        }
        let outer = self.expected();
        self.expecting(Some(want));
        let value = self.expr(env, e);
        self.expecting(outer);
        value
    }

    /// A selector: a literal, or a name bound to one.
    #[verifier::spinoff_prover]
    pub(super) fn selector_of(&mut self, env: &Frame, e: &Written) -> (r: Option<(String, Span)>)
        ensures
            (
                final(self)@,
                match r {
                    Some((text, span)) => Some((text@, span)),
                    None => None,
                },
            ) == exprs::selector_of(env@, old(self)@, e@),
        decreases e, 0int, 11int,
    {
        proof {
            reveal(exprs::selector_of);
            reveal(exprs::expr);
        }
        let value = self.expr(env, e)?;
        let text = self.selector_text(&value)?;
        Some((text, value.span))
    }

    /// `fix::<S>(e)`.
    #[verifier::spinoff_prover]
    fn fix_cast(&mut self, env: &Frame, scale: &ScaleArg, operand: &Written, span: Span) -> (r:
        Option<Expr>)
        ensures
            (final(self)@, expr_opt_view(r)) == exprs::fix_cast(
                env@,
                old(self)@,
                scale@,
                operand@,
                span,
            ),
        decreases operand, 0int, 12int,
    {
        proof {
            reveal(exprs::fix_cast);
            reveal(exprs::expr);
            reveal(exprs::place);
        }
        let scale = self.scale_of(env, scale)?;
        let value = self.expr(env, operand)?;
        if value.ty.is_nbt_scalar() {
            let place = self.place(env, operand)?;
            return Some(
                Expr::of(
                    ExprKind::ReadScaled { place, scale },
                    Type::Fix(Scale::Const(scale)),
                    span,
                ),
            );
        }
        self.fix_of(scale, value, span)
    }

    /// `p`, `p.x` or `o.inner.a`: the value it addresses.
    #[verifier::spinoff_prover]
    pub(super) fn place(&mut self, env: &Frame, e: &Written) -> (r: Option<Place>)
        ensures
            (final(self)@, place_opt_view(r)) == exprs::place(env@, old(self)@, e@),
        decreases e, 0int, 5int,
    {
        proof {
            reveal(exprs::place);
            reveal(exprs::expr);
            e.unfold();
        }
        match e {
            Written::Path(name) => match self.resolve_name(name.name.as_str()) {
                None => {
                    self.fault(name.span, cat3("'", name.name.as_str(), "' is not defined"));
                    None
                },
                Some(local) => Some(self.binding_place(local, name.name.as_str())),
            },
            Written::Field(f) => {
                let base = self.place(env, &f.base)?;
                self.place_field(base, f.base.span(), &f.name, f.span)
            },
            Written::Index(i) => {
                let base = self.place(env, &i.base)?;
                if !self.index_fault(&base, i.base.span(), i.span) {
                    return None;
                }
                let index = self.expr(env, &i.index)?;
                self.place_element(base, index)
            },
            _ => {
                self.error(e.span(), "expected a binding or one of its fields");
                None
            },
        }
    }

    /// A call: a built-in, a command, or a function of the program.
    #[verifier::spinoff_prover]
    fn call(&mut self, env: &Frame, callee: &Ident, args: &Vec<Written>, span: Span) -> (r: Option<
        Expr,
    >)
        ensures
            (final(self)@, expr_opt_view(r)) == exprs::call(
                env@,
                old(self)@,
                callee@,
                written_exprs(args@),
                span,
            ),
        decreases args, 1int, 20int,
    {
        proof {
            reveal(exprs::call);
            reveal(exprs::expr);
            reveal(exprs::command);
            reveal(exprs::invoke);
        }
        if same(callee.name.as_str(), "Some") {
            if args.len() != 1 {
                self.error(span, "Some takes one value");
                return None;
            }
            proof {
                assert(decreases_to!(args => args[0]));
                assert(written_exprs(args@)[0] == args@[0]@);
            }
            let held = self.expr(env, &args[0])?;
            return self.some_of(held, span);
        }
        if !env.has_sig(callee.name.as_str()) {
            return self.command(env, callee, args, span);
        }
        let call = self.invoke(env, callee.name.as_str(), span, None, args)?;
        match call.ret {
            None => {
                self.fault(
                    span,
                    cat3("'", callee.name.as_str(), "' does not return a value"),
                );
                None
            },
            Some(ty) => Some(
                Expr::of(ExprKind::Call { callee: call.callee, args: call.args }, ty, span),
            ),
        }
    }

    /// A call of the game: `block(..)`, or a command.
    #[verifier::spinoff_prover]
    pub(super) fn command(&mut self, env: &Frame, callee: &Ident, args: &Vec<Written>, span: Span) -> (r:
        Option<Expr>)
        ensures
            (final(self)@, expr_opt_view(r)) == exprs::command(
                env@,
                old(self)@,
                callee@,
                written_exprs(args@),
                span,
            ),
        decreases args, 1int, 19int,
    {
        proof {
            reveal(exprs::command);
            reveal(exprs::block_test);
            reveal(exprs::command_args);
        }
        if same(callee.name.as_str(), "block") {
            return self.block_test(env, args, span);
        }
        let schema = match env.toolchain {
            Some(schema) => schema,
            None => {
                self.fault(
                    callee.span,
                    cat3(
                        "'",
                        callee.name.as_str(),
                        "' is not defined; if it is a Minecraft command, set 'toolchain' in minewell.toml so the compiler knows the command set",
                    ),
                );
                return None;
            },
        };
        let sig = match schema.get(callee.name.as_str()) {
            Some(sig) => sig,
            None => {
                self.fault(
                    callee.span,
                    cat3("'", callee.name.as_str(), "' is not defined"),
                );
                return None;
            },
        };
        if args.len() != sig.params.len() {
            self.fault(
                span,
                cat7(
                    "the command '",
                    sig.name.as_str(),
                    "' takes ",
                    show_u64(sig.params.len() as u64).as_str(),
                    " argument(s), but ",
                    show_u64(args.len() as u64).as_str(),
                    " were given",
                ),
            );
            return None;
        }
        let words = self.command_args(env, args, &sig.params)?;
        let text = join_texts(&command_words(&sig.parts, &words), " ");
        Some(Expr::of(ExprKind::Command(text), Type::I32, span))
    }

    /// The arguments of a command as text.
    #[verifier::spinoff_prover]
    fn command_args(&mut self, env: &Frame, args: &Vec<Written>, params: &Vec<Param>) -> (r: Option<
        Vec<String>,
    >)
        ensures
            (final(self)@, texts_view(r)) == exprs::command_args(
                env@,
                old(self)@,
                written_exprs(args@),
                0,
                params_view(params@),
                seq![],
            ),
        decreases args, 0int, 18int,
    {
        let ghost start = self@;
        let ghost all = written_exprs(args@);
        let ghost known = params_view(params@);
        let mut out: Vec<String> = Vec::new();
        proof {
            assert(texts(out@) =~= seq![]);
        }
        let mut i: usize = 0;
        while i < args.len() && i < params.len()
            invariant
                i <= args@.len(),
                start == old(self)@,
                all == written_exprs(args@),
                known == params_view(params@),
                exprs::command_args(env@, start, all, 0, known, seq![]) == exprs::command_args(
                    env@,
                    self@,
                    all,
                    i as int,
                    known,
                    texts(out@),
                ),
            decreases args.len() - i,
        {
            proof {
                reveal(exprs::command_args);
                reveal(exprs::expr);
                assert(decreases_to!(args => args[i as int]));
                assert(all[i as int] == args@[i as int]@);
                assert(known[i as int] == params@[i as int]@);
            }
            let value = self.expr(env, &args[i])?;
            let text = self.render_arg(&value, params[i].ty)?;
            if same(params[i].parser.as_str(), "minecraft:function") {
                self.add_reference(
                    Reference { id: text.clone(), kind: RefKind::Function, span: args[i].span() },
                );
            }
            let ghost before = texts(out@);
            let ghost shown = text@;
            out.push(text);
            proof {
                assert(texts(out@) =~= before.push(shown));
            }
            i += 1;
        }
        proof {
            reveal(exprs::command_args);
        }
        Some(out)
    }

    /// `block(pos!(~ ~-1 ~), minecraft:stone)`: is that block there?
    #[verifier::spinoff_prover]
    fn block_test(&mut self, env: &Frame, args: &Vec<Written>, span: Span) -> (r: Option<Expr>)
        ensures
            (final(self)@, expr_opt_view(r)) == exprs::block_test(
                env@,
                old(self)@,
                written_exprs(args@),
                span,
            ),
        decreases args, 1int, 18int,
    {
        proof {
            reveal(exprs::block_test);
            reveal(exprs::expr);
        }
        if args.len() == 2 {
            proof {
                assert(decreases_to!(args => args[0]));
                assert(decreases_to!(args => args[1]));
                assert(written_exprs(args@)[0] == args@[0]@);
                assert(written_exprs(args@)[1] == args@[1]@);
            }
            let at = self.expr(env, &args[0])?;
            let id = self.expr(env, &args[1])?;
            proof {
                at.unfold();
                id.unfold();
            }
            match (at.kind, id.kind) {
                (ExprKind::Pos(at), ExprKind::Resource(id)) => {
                    return Some(Expr::of(ExprKind::Block { at, id }, Type::Bool, span));
                },
                _ => {},
            }
        }
        self.error(
            span,
            "'block' takes a position and a block id, as in 'block(pos!(~ ~-1 ~), minecraft:stone)'",
        );
        None
    }

    /// Resolves a call: checks the arguments, borrows what is borrowed, and picks the
    /// instance this combination belongs to.
    #[verifier::spinoff_prover]
    pub(super) fn invoke(
        &mut self,
        env: &Frame,
        name: &str,
        span: Span,
        receiver: Option<Place>,
        args: &Vec<Written>,
    ) -> (r: Option<Resolved>)
        ensures
            (final(self)@, resolved_view(r)) == exprs::invoke(
                env@,
                old(self)@,
                name@,
                span,
                place_opt_view(receiver),
                written_exprs(args@),
            ),
        decreases args, 1int, 19int,
    {
        proof {
            reveal(exprs::invoke);
            reveal(exprs::pass_args);
        }
        let at: usize = env.find_sig(name);
        if at >= env.sigs.len() {
            return None;
        }
        let sig = &env.sigs[at];
        self.check_ctx(name, &sig.ctx, span);
        let count: u64 = args.len() as u64;
        let wanted: u64 = sig.params.len() as u64;
        let fits = if receiver.is_some() {
            wanted > 0 && wanted - 1 == count
        } else {
            wanted == count
        };
        if !fits {
            let given = if receiver.is_some() {
                show_next(count)
            } else {
                show_u64(count)
            };
            self.fault(
                span,
                cat7(
                    "'",
                    name,
                    "' takes ",
                    show_u64(wanted).as_str(),
                    " argument(s), but ",
                    given.as_str(),
                    " were given",
                ),
            );
            return None;
        }
        let mut given = Given::new();
        match receiver {
            Some(place) => {
                if !self.receive(env, sig.params[0], place, span, &mut given) {
                    return None;
                }
            },
            None => {},
        }
        let given = self.pass_args(env, name, span, &sig.params, args, given)?;
        self.pick(env, sig, name, given, span)
    }

    /// The written arguments. Every parameter is either a value to write before the call,
    /// or a place to lend.
    #[verifier::spinoff_prover]
    fn pass_args(
        &mut self,
        env: &Frame,
        name: &str,
        span: Span,
        params: &Vec<ParamSig>,
        args: &Vec<Written>,
        begun: Given,
    ) -> (r: Option<Given>)
        ensures
            (
                final(self)@,
                match r {
                    Some(given) => Some(given@),
                    None => None,
                },
            ) == exprs::pass_args(
                env@,
                old(self)@,
                name@,
                span,
                params@,
                written_exprs(args@),
                0,
                begun@,
            ),
        decreases args, 0int, 18int,
    {
        let ghost start = self@;
        let ghost first = begun@;
        let ghost all = written_exprs(args@);
        let mut given = begun;
        let mut i: usize = 0;
        while i < args.len() && given.actual.len() < params.len()
            invariant
                i <= args@.len(),
                start == old(self)@,
                first == begun@,
                all == written_exprs(args@),
                exprs::pass_args(env@, start, name@, span, params@, all, 0, first)
                    == exprs::pass_args(
                    env@,
                    self@,
                    name@,
                    span,
                    params@,
                    all,
                    i as int,
                    given@,
                ),
            decreases args.len() - i,
        {
            proof {
                reveal(exprs::pass_args);
                reveal(exprs::expr_expecting);
                reveal(exprs::place);
                assert(decreases_to!(args => args[i as int]));
                assert(all[i as int] == args@[i as int]@);
                args@[i as int].unfold();
            }
            let param = params[given.actual.len()];
            match param.borrow {
                None => {
                    let value = self.expr_expecting(env, &args[i], param.ty)?;
                    given.pass(value);
                },
                Some(kind) => match &args[i] {
                    Written::Borrow(b) => {
                        if b.borrow != kind && kind == Borrow::Mutable {
                            self.fault(
                                b.span,
                                cat3("'", name, "' takes this by &mut; write '&mut'"),
                            );
                            return None;
                        }
                        let place = self.place(env, &b.place)?;
                        if !self.borrow_place(env, kind, place, span, &mut given) {
                            return None;
                        }
                    },
                    _ => {
                        self.fault(
                            args[i].span(),
                            cat3("'", name, "' takes this by reference; write '&' or '&mut'"),
                        );
                        return None;
                    },
                },
            }
            i += 1;
        }
        proof {
            reveal(exprs::pass_args);
        }
        Some(given)
    }

    /// `text!(a, b, c)`.
    #[verifier::spinoff_prover]
    fn text_macro(&mut self, env: &Frame, args: &Vec<Written>) -> (r: Option<Component>)
        ensures
            (final(self)@, component_opt_view(r)) == exprs::text_macro(
                env@,
                old(self)@,
                written_exprs(args@),
            ),
        decreases args, 1int, 19int,
    {
        proof {
            reveal(exprs::text_macro);
            reveal(exprs::text_parts);
        }
        let parts = self.text_parts(env, args)?;
        if parts.len() == 1 {
            let one = parts[0].copy();
            return Some(one);
        }
        let mut all = Component::text("");
        proof {
            all.unfold();
        }
        all.extra = parts;
        proof {
            all.unfold();
        }
        Some(all)
    }

    /// The arguments of `text!`; every one of them is looked at.
    #[verifier::spinoff_prover]
    fn text_parts(&mut self, env: &Frame, args: &Vec<Written>) -> (r: Option<Vec<Component>>)
        ensures
            (
                final(self)@,
                match r {
                    Some(parts) => Some(crate::hir::components_view(parts@)),
                    None => None,
                },
            ) == exprs::text_parts(env@, old(self)@, written_exprs(args@), 0, seq![], true),
        decreases args, 0int, 18int,
    {
        let ghost start = self@;
        let ghost all = written_exprs(args@);
        let mut out: Vec<Component> = Vec::new();
        proof {
            assert(crate::hir::components_view(out@) =~= seq![]);
        }
        let mut ok = true;
        let mut i: usize = 0;
        while i < args.len()
            invariant
                i <= args@.len(),
                all == written_exprs(args@),
                exprs::text_parts(env@, start, all, 0, seq![], true) == exprs::text_parts(
                    env@,
                    self@,
                    all,
                    i as int,
                    crate::hir::components_view(out@),
                    ok,
                ),
            decreases args.len() - i,
        {
            proof {
                reveal(exprs::text_parts);
                reveal(exprs::component);
                assert(decreases_to!(args => args[i as int]));
                assert(all[i as int] == args@[i as int]@);
            }
            let ghost before = crate::hir::components_view(out@);
            match self.component(env, &args[i]) {
                Some(one) => {
                    let ghost shown = one@;
                    out.push(one);
                    proof {
                        assert(crate::hir::components_view(out@) =~= before.push(shown));
                    }
                },
                None => {
                    ok = false;
                },
            }
            i += 1;
        }
        proof {
            reveal(exprs::text_parts);
        }
        if ok {
            Some(out)
        } else {
            None
        }
    }

    /// One argument of `text!`, as a component.
    #[verifier::spinoff_prover]
    fn component(&mut self, env: &Frame, e: &Written) -> (r: Option<Component>)
        ensures
            (final(self)@, component_opt_view(r)) == exprs::component(env@, old(self)@, e@),
        decreases e, 0int, 11int,
    {
        proof {
            reveal(exprs::component);
            reveal(exprs::expr);
        }
        let value = self.expr(env, e)?;
        self.component_of(env, value)
    }

    /// The value a style method sets.
    fn style_value(&mut self, name: &str, fixed: Option<String>, args: &Vec<Written>, span: Span) -> (r:
        Option<String>)
        ensures
            (final(self)@, text_opt_view(r)) == exprs::style_value(
                old(self)@,
                name@,
                text_opt_view(fixed),
                written_exprs(args@),
                span,
            ),
    {
        proof {
            reveal(exprs::style_value);
        }
        match fixed {
            Some(shown) => {
                if args.len() > 0 {
                    self.fault(span, cat3("'", name, "' takes no arguments"));
                    return None;
                }
                Some(shown)
            },
            None => {
                if args.len() == 1 {
                    proof {
                        args@[0].unfold();
                        assert(written_exprs(args@)[0] == args@[0]@);
                    }
                    match &args[0] {
                        Written::Str(text) => {
                            return Some(quoted(text.value.as_str()));
                        },
                        _ => {},
                    }
                }
                self.fault(
                    span,
                    cat3("'", name, "' takes one string, as in '.color(\"#ff8800\")'"),
                );
                None
            },
        }
    }

    /// A method call: styling, an inherent method from an `impl`, a conversion, or one of
    /// the few methods values have on their own.
    #[verifier::spinoff_prover]
    pub(super) fn method_call(&mut self, env: &Frame, e: &Written, as_statement: bool) -> (r: Option<
        Outcome,
    >)
        ensures
            (final(self)@, outcome_view(r)) == exprs::method_call(
                env@,
                old(self)@,
                e@,
                as_statement,
            ),
        decreases e, 0int, 8int,
    {
        proof {
            reveal(exprs::method_call);
            reveal(exprs::component);
            reveal(exprs::place);
            reveal(exprs::place_method);
            e.unfold();
        }
        match e {
            Written::Method(m) => match style_member(m.name.name.as_str()) {
                Some((key, fixed)) => {
                    let shown = self.style_value(m.name.name.as_str(), fixed, &m.args, m.span)?;
                    let mut component = self.component(env, &m.receiver)?;
                    component.set(key.as_str(), shown);
                    Some(
                        Outcome::Value(
                            Expr::of(ExprKind::Component(component), Type::Component, m.span),
                        ),
                    )
                },
                None => {
                    let place = self.place(env, &m.receiver)?;
                    self.place_method(env, place, &m.name, &m.args, m.span, as_statement)
                },
            },
            _ => None,
        }
    }

    /// A method of the value at a place.
    #[verifier::spinoff_prover]
    fn place_method(
        &mut self,
        env: &Frame,
        place: Place,
        name: &Ident,
        args: &Vec<Written>,
        span: Span,
        as_statement: bool,
    ) -> (r: Option<Outcome>)
        ensures
            (final(self)@, outcome_view(r)) == exprs::place_method(
                env@,
                old(self)@,
                place@,
                name@,
                written_exprs(args@),
                span,
                as_statement,
            ),
        decreases args, 1int, 21int,
    {
        proof {
            reveal(exprs::place_method);
            reveal(exprs::invoke);
            reveal(exprs::vec_method);
            place.unfold();
        }
        let ty = place.ty;
        let key = cat3(self.name(ty).as_str(), "::", name.name.as_str());
        if env.has_sig(key.as_str()) {
            let call = self.invoke(env, key.as_str(), span, Some(place), args)?;
            if as_statement {
                let s = Stmt::CallFor { callee: call.callee, args: call.args, span };
                proof {
                    s.unfold();
                }
                return Some(Outcome::Stmt(s));
            }
            return match call.ret {
                Some(ty) => Some(
                    Outcome::Value(
                        Expr::of(
                            ExprKind::Call { callee: call.callee, args: call.args },
                            ty,
                            span,
                        ),
                    ),
                ),
                None => {
                    self.fault(
                        span,
                        cat3("'", name.name.as_str(), "' does not return a value"),
                    );
                    None
                },
            };
        }
        match conversion_target(name.name.as_str()) {
            Some(target) => {
                let value = self.convert(place, target, name.name.as_str(), args.len(), span)?;
                return Some(Outcome::Value(value));
            },
            None => {},
        }
        match ty {
            Type::Option(id) => {
                if same(name.name.as_str(), "expect") {
                    let inner = self.types().inner_at(id);
                    let value = self.expect_of(place, inner, args, span)?;
                    return Some(Outcome::Value(value));
                }
            },
            _ => {},
        }
        if ty == Type::Str {
            let value = self.string_method(place, name, args, span)?;
            return Some(Outcome::Value(value));
        }
        self.vec_method(env, place, name, args, span, as_statement)
    }

    /// The two methods of a list.
    #[verifier::spinoff_prover]
    fn vec_method(
        &mut self,
        env: &Frame,
        place: Place,
        name: &Ident,
        args: &Vec<Written>,
        span: Span,
        as_statement: bool,
    ) -> (r: Option<Outcome>)
        ensures
            (final(self)@, outcome_view(r)) == exprs::vec_method(
                env@,
                old(self)@,
                place@,
                name@,
                written_exprs(args@),
                span,
                as_statement,
            ),
        decreases args, 1int, 20int,
    {
        proof {
            reveal(exprs::vec_method);
            reveal(exprs::expr);
            place.unfold();
        }
        match place.ty {
            Type::Vec(id) => {
                if same(name.name.as_str(), "push") {
                    if !as_statement {
                        self.error(span, "'push' does not return a value");
                        return None;
                    }
                    if !place.mutable {
                        self.fault(
                            span,
                            cat3(
                                "'",
                                place.via.as_str(),
                                "' is not mutable; declare it with 'let mut'",
                            ),
                        );
                        return None;
                    }
                    if args.len() != 1 {
                        self.error(span, "'push' takes one value");
                        return None;
                    }
                    proof {
                        assert(decreases_to!(args => args[0]));
                        assert(written_exprs(args@)[0] == args@[0]@);
                    }
                    // The element type as it was before the value was lowered.
                    let elem = self.types().element_at(id);
                    let value = self.expr(env, &args[0])?;
                    if value.ty != elem {
                        self.mismatch(value.span, elem, value.ty);
                        return None;
                    }
                    let s = Stmt::Push { place, value, span };
                    proof {
                        s.unfold();
                    }
                    return Some(Outcome::Stmt(s));
                }
                if same(name.name.as_str(), "len") {
                    if args.len() > 0 {
                        self.error(span, "'len' takes no arguments");
                        return None;
                    }
                    return Some(
                        Outcome::Value(Expr::of(ExprKind::Len(place), Type::I32, span)),
                    );
                }
            },
            _ => {},
        }
        let message = cat5(
            "'",
            self.name(place.ty).as_str(),
            "' has no method named '",
            name.name.as_str(),
            "'",
        );
        self.fault(name.span, message);
        None
    }

    /// The elements of a list literal. Every element has the same type, which is the
    /// list's.
    #[verifier::spinoff_prover]
    pub(super) fn list_values(
        &mut self,
        env: &Frame,
        written: &Vec<Written>,
        want: Option<Type>,
        span: Span,
    ) -> (r: Option<Expr>)
        ensures
            (final(self)@, expr_opt_view(r)) == exprs::list_values(
                env@,
                old(self)@,
                written_exprs(written@),
                0,
                want,
                seq![],
                span,
            ),
        decreases written, 0int, 18int,
    {
        let ghost start = self@;
        let ghost all = written_exprs(written@);
        let mut elem = want;
        let mut out: Vec<Expr> = Vec::new();
        proof {
            assert(exprs_view(out@) =~= seq![]);
        }
        let mut i: usize = 0;
        while i < written.len()
            invariant
                i <= written@.len(),
                start == old(self)@,
                all == written_exprs(written@),
                exprs::list_values(env@, start, all, 0, want, seq![], span)
                    == exprs::list_values(
                    env@,
                    self@,
                    all,
                    i as int,
                    elem,
                    exprs_view(out@),
                    span,
                ),
            decreases written.len() - i,
        {
            proof {
                reveal(exprs::list_values);
                reveal(exprs::expr);
                assert(decreases_to!(written => written[i as int]));
                assert(all[i as int] == written@[i as int]@);
            }
            let value = self.expr(env, &written[i])?;
            match elem {
                None => {
                    elem = Some(value.ty);
                },
                Some(ty) => {
                    if ty != value.ty {
                        let message = cat4(
                            "every element of a list has the same type: expected ",
                            self.name(ty).as_str(),
                            ", found ",
                            self.name(value.ty).as_str(),
                        );
                        self.fault(value.span, message);
                        return None;
                    }
                },
            }
            let ghost before = exprs_view(out@);
            let ghost shown = value@;
            out.push(value);
            proof {
                assert(exprs_view(out@) =~= before.push(shown));
            }
            i += 1;
        }
        proof {
            reveal(exprs::list_values);
        }
        self.list_of(elem, out, span)
    }

    /// `Point { x: 1, y: 2 }` and `State::Chasing { target: 3 }`.
    #[verifier::spinoff_prover]
    fn composite_lit(&mut self, env: &Frame, lit: &StructLit) -> (r: Option<Expr>)
        ensures
            (final(self)@, expr_opt_view(r)) == exprs::composite_lit(env@, old(self)@, lit@),
        decreases lit, 0int, 9int,
    {
        proof {
            reveal(exprs::composite_lit);
            reveal(exprs::field_values);
            reveal(exprs::named_lit);
            lit.unfold();
        }
        let ghost template = crate::hir::types::template_of(self@.types, lit.name.name@);
        let parts: Option<(String, Vec<GenericDef>, Vec<Field>)> = match self.types().template(
            lit.name.name.as_str(),
        ) {
            Some(found) => Some(
                (found.name.clone(), copy_generics(&found.generics), copy_fields(&found.fields)),
            ),
            None => None,
        };
        match parts {
            Some((name, generics, fields)) => {
                match &lit.variant {
                    Some(variant) => {
                        self.fault(
                            variant.span,
                            cat5(
                                "'",
                                name.as_str(),
                                "' is a struct, so it has no variant '",
                                variant.name.as_str(),
                                "'",
                            ),
                        );
                        return None;
                    },
                    None => {},
                }
                let written = self.field_values(env, &lit.fields, None)?;
                self.generic_struct(
                    name.as_str(),
                    &generics,
                    &fields,
                    written,
                    lit.span,
                    Ghost(template->0),
                )
            },
            None => match self.types().get(lit.name.name.as_str()) {
                None => {
                    self.fault(
                        lit.name.span,
                        cat3("unknown type '", lit.name.name.as_str(), "'"),
                    );
                    None
                },
                Some(ty) => self.named_lit(env, lit, ty),
            },
        }
    }

    /// A literal of a type that has a name.
    #[verifier::spinoff_prover]
    fn named_lit(&mut self, env: &Frame, lit: &StructLit, ty: Type) -> (r: Option<Expr>)
        ensures
            (final(self)@, expr_opt_view(r)) == exprs::named_lit(env@, old(self)@, lit@, ty),
        decreases lit, 0int, 8int,
    {
        proof {
            reveal(exprs::named_lit);
            reveal(exprs::init_fields);
            lit.unfold();
        }
        let span = lit.span;
        match ty {
            Type::Struct(id) => match self.struct_parts(id) {
                Some((fields, name)) => {
                    match &lit.variant {
                        Some(variant) => {
                            self.fault(
                                variant.span,
                                cat5(
                                    "'",
                                    name.as_str(),
                                    "' is a struct, so it has no variant '",
                                    variant.name.as_str(),
                                    "'",
                                ),
                            );
                            return None;
                        },
                        None => {},
                    }
                    let values = self.init_fields(env, lit, &fields, name.as_str())?;
                    return Some(Expr::of(ExprKind::Struct { id, fields: values }, ty, span));
                },
                None => {},
            },
            Type::Enum(id) => {
                let parts = self.enum_name(id);
                match parts {
                    Some(owner) => match &lit.variant {
                        Some(written) => {
                            let (at, fields, name) = match self.variant_parts(
                                id,
                                written.name.as_str(),
                            ) {
                                Some(found) => found,
                                None => {
                                    self.fault(
                                        written.span,
                                        cat5(
                                            "'",
                                            owner.as_str(),
                                            "' has no variant named '",
                                            written.name.as_str(),
                                            "'",
                                        ),
                                    );
                                    return None;
                                },
                            };
                            let what = cat3(owner.as_str(), "::", name.as_str());
                            let values = self.init_fields(env, lit, &fields, what.as_str())?;
                            return Some(
                                Expr::of(
                                    ExprKind::Enum { id, variant: at, fields: values },
                                    ty,
                                    span,
                                ),
                            );
                        },
                        None => {
                            self.fault(
                                span,
                                cat5(
                                    "'",
                                    owner.as_str(),
                                    "' is an enum; name the variant, as in '",
                                    owner.as_str(),
                                    "::Idle'",
                                ),
                            );
                            return None;
                        },
                    },
                    None => {},
                }
            },
            _ => {},
        }
        let message = cat3("'", self.name(ty).as_str(), "' is not a composite type");
        self.fault(span, message);
        None
    }

    pub(super) fn enum_name(&self, id: crate::hir::EnumId) -> (r: Option<String>)
        ensures
            match r {
                Some(name) => ({
                    let def = crate::hir::types::enum_of(self@.types, id);
                    def is Some && name@ == def->0.name
                }),
                None => crate::hir::types::enum_of(self@.types, id) is None,
            },
    {
        match self.types().find_enum(id) {
            Some(def) => Some(def.name.clone()),
            None => None,
        }
    }

    /// A variant by name: its number, its fields and its name.
    pub(super) fn variant_parts(&self, id: crate::hir::EnumId, name: &str) -> (r: Option<
        (u32, Vec<Field>, String),
    >)
        ensures
            crate::hir::types::enum_of(self@.types, id) is Some ==> ({
                let def = crate::hir::types::enum_of(self@.types, id)->0;
                let i = crate::hir::variant_named(def.variants, name@, 0);
                match r {
                    Some((at, fields, found)) => i < def.variants.len() && at == i as u32
                        && fields_view(fields@) == def.variants[i].fields && found@
                        == def.variants[i].name,
                    None => i >= def.variants.len(),
                }
            }),
    {
        match self.types().find_enum(id) {
            Some(def) => {
                let i: usize = def.find_variant(name);
                if i < def.variants.len() {
                    Some(
                        (
                            i as u32,
                            copy_fields(&def.variants[i].fields),
                            def.variants[i].name.clone(),
                        ),
                    )
                } else {
                    None
                }
            },
            None => None,
        }
    }

    #[verifier::spinoff_prover]
    fn init_fields(&mut self, env: &Frame, lit: &StructLit, declared: &Vec<Field>, what: &str) -> (r:
        Option<Vec<Expr>>)
        ensures
            (final(self)@, exprs_opt_view(r)) == exprs::init_fields(
                env@,
                old(self)@,
                lit@,
                fields_view(declared@),
                what@,
            ),
        decreases lit, 0int, 7int,
    {
        proof {
            reveal(exprs::init_fields);
            reveal(exprs::field_values);
            lit.unfold();
        }
        let written = self.field_values(env, &lit.fields, Some(declared))?;
        self.check_fields(declared, written, lit.span, what)
    }

    /// The values of a literal's fields. Where the declaration is known, so is the type
    /// each value is going into.
    #[verifier::spinoff_prover]
    fn field_values(&mut self, env: &Frame, fields: &Vec<FieldInit>, declared: Option<&Vec<Field>>) -> (r:
        Option<Vec<(Ident, Expr)>>)
        ensures
            (final(self)@, inits_opt(r)) == exprs::field_values(
                env@,
                old(self)@,
                inits_view(fields@),
                0,
                match declared {
                    Some(declared) => Some(fields_view(declared@)),
                    None => None,
                },
                seq![],
            ),
        decreases fields, 0int, 6int,
    {
        let ghost start = self@;
        let ghost all = inits_view(fields@);
        let ghost known = match declared {
            Some(declared) => Some(fields_view(declared@)),
            None => None,
        };
        let mut out: Vec<(Ident, Expr)> = Vec::new();
        proof {
            assert(inits(out@) =~= seq![]);
        }
        let mut i: usize = 0;
        while i < fields.len()
            invariant
                i <= fields@.len(),
                start == old(self)@,
                all == inits_view(fields@),
                known == (match declared {
                    Some(declared) => Some(fields_view(declared@)),
                    None => None,
                }),
                exprs::field_values(env@, start, all, 0, known, seq![]) == exprs::field_values(
                    env@,
                    self@,
                    all,
                    i as int,
                    known,
                    inits(out@),
                ),
            decreases fields.len() - i,
        {
            proof {
                reveal(exprs::field_values);
                reveal(exprs::expr);
                reveal(exprs::expr_expecting);
                assert(decreases_to!(fields => fields[i as int]));
                assert(decreases_to!(fields[i as int] => fields[i as int].value));
                assert(all[i as int] == fields@[i as int]@);
                fields@[i as int].unfold();
            }
            let field = &fields[i];
            let want = match declared {
                Some(declared) => {
                    let at: usize = find_field(declared, field.name.name.as_str());
                    if at < declared.len() {
                        Some(declared[at].ty)
                    } else {
                        None
                    }
                },
                None => None,
            };
            let value = match want {
                Some(ty) => self.expr_expecting(env, &field.value, ty)?,
                None => self.expr(env, &field.value)?,
            };
            let ghost before = inits(out@);
            let ghost shown = (field.name@, value@);
            out.push((field.name.copy(), value));
            proof {
                assert(inits(out@) =~= before.push(shown));
            }
            i += 1;
        }
        proof {
            reveal(exprs::field_values);
        }
        Some(out)
    }

    /// A condition has to be `bool`. There is no truthiness: an `i32` is not a condition.
    pub(super) fn condition(&mut self, env: &Frame, e: &Written) -> (r: Option<Expr>)
        ensures
            (final(self)@, expr_opt_view(r)) == exprs::condition(env@, old(self)@, e@),
    {
        proof {
            reveal(exprs::condition);
        }
        let value = self.expr(env, e)?;
        if value.ty != Type::Bool {
            let message = cat2("a condition must be bool, found ", self.name(value.ty).as_str());
            self.fault(value.span, message);
            return None;
        }
        Some(value)
    }

    /// A written type inside a function, where type parameters are already concrete.
    pub(super) fn resolve(&mut self, env: &Frame, written: &TypeName) -> (r: Option<Type>)
        ensures
            (final(self)@, r) == exprs::resolve(env@, old(self)@, written@),
    {
        proof {
            reveal(exprs::resolve);
        }
        if written.borrow.is_some() {
            self.error(
                written.span,
                "a reference can only be a parameter: a binding would need a lifetime to say how long it stays valid",
            );
            return None;
        }
        if same(written.name.as_str(), "fix") {
            return match &written.scale {
                None => None,
                Some(scale) => {
                    let scale = self.scale_of(env, scale)?;
                    Some(Type::Fix(Scale::Const(scale)))
                },
            };
        }
        match env.type_param(written.name.as_str()) {
            Some(ty) => {
                if written.args.len() > 0 {
                    self.fault(
                        written.span,
                        cat3(
                            "'",
                            written.name.as_str(),
                            "' is a type parameter; it does not take type arguments",
                        ),
                    );
                    return None;
                }
                Some(ty)
            },
            None => self.resolve_written(written),
        }
    }

    fn resolve_written(&mut self, written: &TypeName) -> (r: Option<Type>)
        ensures
            ({
                let (t, ty) = crate::hir::rules::types::resolve_written(
                    crate::hir::rules::types::Table {
                        types: old(self)@.types,
                        errs: old(self)@.errs,
                    },
                    written@,
                    seq![],
                );
                final(self)@ == (crate::hir::rules::Cx {
                    types: t.types,
                    errs: t.errs,
                    ..old(self)@
                }) && r == ty
            }),
    {
        proof {
            reveal(Lowering::view);
        }
        let none: Vec<GenericDef> = Vec::new();
        proof {
            assert(generics_view(none@) =~= seq![]);
        }
        self.table.resolve_written(written, &none)
    }
}

} // verus!
