//! Checks on expressions that are lowered already, and what they come to together.

use vstd::prelude::*;

use crate::hir::lower::values::{by_const, finds_one};
use crate::hir::lower::{borrows_view, Frame, Lowering, Signature};
use crate::hir::model;
use crate::hir::rules::exprs;
use crate::hir::rules::values;
use crate::hir::{
    expr_opt_view, exprs_opt_view, exprs_view, fields_view, find_field, generics_view, Ctx, Expr,
    ExprKind, Field, FnId, GenericDef, ParamSig, Place, Root, Scale, Stmt, Type,
};
use crate::schema::{parts_view, ArgType, Part};
use crate::syntax::ast::{
    exprs_view as written_exprs, text_opt_view, BinaryOp, Borrow, Expr as Written, Ident, UnaryOp,
};
use crate::syntax::Span;
use crate::text::{
    begins, cat2, cat3, cat4, cat5, cat7, chars, join_texts, own, same, show_bool, show_i32,
    show_u64, slice, string, texts,
};

verus! {

/// What a method call turned out to be.
pub(crate) enum Outcome {
    Stmt(Stmt),
    Value(Expr),
}

pub(crate) open spec fn outcome_view(v: Option<Outcome>) -> Option<exprs::Outcome> {
    match v {
        Some(Outcome::Stmt(s)) => Some(exprs::Outcome::Stmt(s@)),
        Some(Outcome::Value(v)) => Some(exprs::Outcome::Value(v@)),
        None => None,
    }
}

/// What a call's arguments came to: the values to write before it, the places it borrows,
/// and the type of each.
pub(crate) struct Given {
    pub(crate) values: Vec<Expr>,
    pub(crate) borrows: Vec<Option<Place>>,
    pub(crate) actual: Vec<Type>,
}

impl Given {
    pub(crate) open spec fn view(&self) -> exprs::Given {
        exprs::Given {
            values: exprs_view(self.values@),
            borrows: borrows_view(self.borrows@),
            actual: self.actual@,
        }
    }

    pub(crate) fn new() -> (r: Given)
        ensures
            r@ == (exprs::Given { values: seq![], borrows: seq![], actual: seq![] }),
    {
        let r = Given { values: Vec::new(), borrows: Vec::new(), actual: Vec::new() };
        proof {
            assert(r@.values =~= seq![]);
            assert(r@.borrows =~= seq![]);
            assert(r@.actual =~= seq![]);
        }
        r
    }

    /// One more argument that is written before the call.
    pub(crate) fn pass(&mut self, value: Expr)
        ensures
            final(self)@ == (exprs::Given {
                values: old(self)@.values.push(value@),
                borrows: old(self)@.borrows.push(None),
                actual: old(self)@.actual.push(value@.ty),
            }),
    {
        let ghost before = self@;
        self.actual.push(value.ty);
        self.values.push(value);
        self.borrows.push(None);
        proof {
            assert(self@.values =~= before.values.push(value@));
            assert(self@.borrows =~= before.borrows.push(None));
        }
    }

    /// One more argument that is lent.
    fn lend(&mut self, place: Place, ty: Type)
        ensures
            final(self)@ == (exprs::Given {
                values: old(self)@.values,
                borrows: old(self)@.borrows.push(Some(place@)),
                actual: old(self)@.actual.push(ty),
            }),
    {
        let ghost before = self@;
        self.actual.push(ty);
        self.borrows.push(Some(place));
        proof {
            assert(self@.borrows =~= before.borrows.push(Some(place@)));
        }
    }
}

/// What a call resolved to: the function, what it returns, and the values to write before
/// it.
pub(crate) struct Resolved {
    pub(crate) callee: FnId,
    pub(crate) ret: Option<Type>,
    pub(crate) args: Vec<Expr>,
}

pub(crate) open spec fn resolved_view(v: Option<Resolved>) -> Option<exprs::Resolved> {
    match v {
        Some(v) => Some(
            exprs::Resolved { callee: v.callee, ret: v.ret, args: exprs_view(v.args@) },
        ),
        None => None,
    }
}

/// The initialisers of a literal, in the order they were written.
pub(crate) open spec fn inits(v: Seq<(Ident, Expr)>) -> Seq<
    (crate::syntax::model::Ident, model::Expr),
> {
    Seq::new(v.len(), |i: int| (v[i].0@, v[i].1@))
}

/// As many parameters without a type.
fn unbound_params(n: usize) -> (r: Vec<Option<Type>>)
    ensures
        r@ == Seq::new(n as nat, |i: int| None::<Type>),
{
    let mut out: Vec<Option<Type>> = Vec::new();
    let mut i: usize = 0;
    while i < n
        invariant
            i <= n,
            out@ == Seq::new(i as nat, |i: int| None::<Type>),
        decreases n - i,
    {
        out.push(None);
        proof {
            assert(out@ =~= Seq::new((i + 1) as nat, |i: int| None::<Type>));
        }
        i += 1;
    }
    out
}

/// What is bound, if everything is.
fn all_bound(bound: &Vec<Option<Type>>) -> (r: Option<Vec<Type>>)
    ensures
        match r {
            Some(types) => exprs::all_bound(bound@) == Some(types@),
            None => exprs::all_bound(bound@) is None,
        },
{
    let mut out: Vec<Type> = Vec::new();
    let mut i: usize = 0;
    while i < bound.len()
        invariant
            i <= bound@.len(),
            out@.len() == i,
            forall|k: int|
                0 <= k < i ==> #[trigger] bound@[k] is Some && out@[k] == bound@[k]->0,
        decreases bound.len() - i,
    {
        match bound[i] {
            Some(ty) => {
                out.push(ty);
            },
            None => {
                proof {
                    assert(!(bound@[i as int] is Some));
                }
                return None;
            },
        }
        i += 1;
    }
    proof {
        assert(out@ =~= Seq::new(bound@.len(), |i: int| bound@[i]->0));
    }
    Some(out)
}

/// The names of the parameters nothing is bound to.
fn unbound(generics: &Vec<GenericDef>, bound: &Vec<Option<Type>>) -> (r: Vec<String>)
    ensures
        texts(r@) == exprs::unbound(generics_view(generics@), bound@, 0),
{
    let ghost all = generics_view(generics@);
    let mut out: Vec<String> = Vec::new();
    let mut i: usize = 0;
    proof {
        assert(texts(out@) + exprs::unbound(all, bound@, 0) =~= exprs::unbound(all, bound@, 0));
    }
    while i < generics.len() && i < bound.len()
        invariant
            i <= generics@.len(),
            all == generics_view(generics@),
            texts(out@) + exprs::unbound(all, bound@, i as int) == exprs::unbound(all, bound@, 0),
        decreases generics.len() - i,
    {
        let ghost before = texts(out@);
        if bound[i].is_none() {
            out.push(generics[i].name.clone());
            proof {
                assert(texts(out@) =~= before.push(all[i as int].name));
                assert(texts(out@) + exprs::unbound(all, bound@, i + 1) =~= before + (
                seq![all[i as int].name] + exprs::unbound(all, bound@, i + 1)));
            }
        }
        i += 1;
    }
    proof {
        assert(texts(out@) + exprs::unbound(all, bound@, i as int) =~= texts(out@));
    }
    out
}

/// The words of a command with its arguments in their places.
pub(crate) fn command_words(parts: &Vec<Part>, args: &Vec<String>) -> (r: Vec<String>)
    ensures
        texts(r@) == exprs::command_words(parts_view(parts@), texts(args@)),
{
    let ghost words = exprs::command_words(parts_view(parts@), texts(args@));
    let mut out: Vec<String> = Vec::new();
    let mut i: usize = 0;
    while i < parts.len()
        invariant
            i <= parts@.len(),
            words == exprs::command_words(parts_view(parts@), texts(args@)),
            out@.len() == i,
            forall|k: int| 0 <= k < i ==> (#[trigger] out@[k])@ == words[k],
        decreases parts.len() - i,
    {
        let word = match &parts[i] {
            Part::Literal(word) => word.clone(),
            Part::Arg(index) => {
                if *index < args.len() {
                    args[*index].clone()
                } else {
                    String::new()
                }
            },
        };
        proof {
            assert(word@ =~= words[i as int]);
        }
        out.push(word);
        i += 1;
    }
    proof {
        assert(texts(out@) =~= words);
    }
    out
}

/// The type a conversion method is named after.
pub(crate) fn conversion_target(name: &str) -> (r: Option<Type>)
    ensures
        r == exprs::conversion_target(name@),
{
    let v = chars(name);
    proof {
        reveal_strlit("as_");
    }
    if v.len() >= 3 && v[0] == 'a' && v[1] == 's' && v[2] == '_' {
        proof {
            assert(name@.take(3) =~= "as_"@);
        }
        let rest = slice(&v, 3, v.len());
        proof {
            assert(rest@ =~= name@.skip(3));
        }
        Type::parse(rest.as_str())
    } else {
        proof {
            if begins(name@, "as_"@) {
                assert(name@.take(3)[0] == 'a');
                assert(name@.take(3)[1] == 's');
                assert(name@.take(3)[2] == '_');
            }
        }
        Type::parse("")
    }
}

/// The values of a literal in the order their fields were declared: for each field, which
/// of the written values it gets.
spec fn slots_view(slots: Seq<Option<usize>>, written: Seq<(Ident, Expr)>) -> Seq<
    Option<model::Expr>,
> {
    Seq::new(
        slots.len(),
        |i: int|
            match slots[i] {
                Some(k) => Some(written[k as int].1@),
                None => None,
            },
    )
}

spec fn slots_opt_view(slots: Option<Vec<Option<usize>>>, written: Seq<(Ident, Expr)>) -> Option<
    Seq<Option<model::Expr>>,
> {
    match slots {
        Some(slots) => Some(slots_view(slots@, written)),
        None => None,
    }
}

/// The names of the declared fields that got no value.
fn missing_fields(
    declared: &Vec<Field>,
    slots: &Vec<Option<usize>>,
    written: &Vec<(Ident, Expr)>,
) -> (r: Vec<String>)
    ensures
        texts(r@) == exprs::missing_fields(
            fields_view(declared@),
            slots_view(slots@, written@),
            0,
        ),
{
    let ghost all = fields_view(declared@);
    let ghost filled = slots_view(slots@, written@);
    let mut out: Vec<String> = Vec::new();
    let mut i: usize = 0;
    proof {
        assert(texts(out@) + exprs::missing_fields(all, filled, 0) =~= exprs::missing_fields(
            all,
            filled,
            0,
        ));
    }
    while i < declared.len() && i < slots.len()
        invariant
            i <= declared@.len(),
            all == fields_view(declared@),
            filled == slots_view(slots@, written@),
            texts(out@) + exprs::missing_fields(all, filled, i as int) == exprs::missing_fields(
                all,
                filled,
                0,
            ),
        decreases declared.len() - i,
    {
        let ghost before = texts(out@);
        if slots[i].is_none() {
            let one = cat3("'", declared[i].name.as_str(), "'");
            let ghost shown = one@;
            out.push(one);
            proof {
                assert(texts(out@) =~= before.push(shown));
                assert(texts(out@) + exprs::missing_fields(all, filled, i + 1) =~= before + (
                seq![shown] + exprs::missing_fields(all, filled, i + 1)));
            }
        }
        i += 1;
    }
    proof {
        assert(texts(out@) + exprs::missing_fields(all, filled, i as int) =~= texts(out@));
    }
    out
}

impl Lowering {
    /// A name: a binding, or `None` where no binding has that name.
    pub(super) fn path(&mut self, name: &Ident) -> (r: Option<Expr>)
        ensures
            (final(self)@, expr_opt_view(r)) == exprs::path(old(self)@, name@),
    {
        proof {
            reveal(exprs::path);
        }
        let span = name.span;
        match self.resolve_name(name.name.as_str()) {
            Some(local) => match self.alias_of(local) {
                Some(place) => {
                    proof {
                        place.unfold();
                    }
                    Some(Expr::of(ExprKind::Field(place.copy()), place.ty, span))
                },
                None => Some(Expr::of(ExprKind::Local(local), self.local_type(local), span)),
            },
            None => {
                if same(name.name.as_str(), "None") {
                    match self.expected() {
                        Some(ty) => {
                            if matches!(ty, Type::Option(_)) {
                                return Some(Expr::of(ExprKind::Absent, ty, span));
                            }
                            let message = cat3(
                                "expected ",
                                self.name(ty).as_str(),
                                ", found None",
                            );
                            self.fault(span, message);
                        },
                        None => {
                            self.error(
                                span,
                                "'None' does not say what it is an option of: annotate the binding, as in 'let x: Option<i32> = None;'",
                            );
                        },
                    }
                    None
                } else {
                    self.fault(span, cat3("'", name.name.as_str(), "' is not defined"));
                    None
                }
            },
        }
    }

    /// Complains that one type was expected and another was found.
    pub(super) fn mismatch(&mut self, span: Span, want: Type, found: Type)
        ensures
            final(self)@ == old(self)@.fault(
                span,
                exprs::mismatch(old(self)@.ty(want), old(self)@.ty(found)),
            ),
    {
        let message = cat4(
            "expected ",
            self.name(want).as_str(),
            ", found ",
            self.name(found).as_str(),
        );
        self.fault(span, message);
    }

    /// An operator in front of a value.
    pub(super) fn unary_of(&mut self, op: UnaryOp, operand: Expr, span: Span) -> (r: Option<Expr>)
        ensures
            (final(self)@, expr_opt_view(r)) == exprs::unary_of(old(self)@, op, operand@, span),
    {
        proof {
            reveal(exprs::unary_of);
        }
        let want = if op == UnaryOp::Not {
            Type::Bool
        } else if matches!(operand.ty, Type::Fix(_)) {
            operand.ty
        } else {
            Type::I32
        };
        if operand.ty != want {
            let message = cat4(
                "expected ",
                want.name(),
                ", found ",
                self.name(operand.ty).as_str(),
            );
            self.fault(span, message);
            return None;
        }
        Some(Expr::of(ExprKind::Unary(op, Box::new(operand)), want, span))
    }

    /// `fix::<S>(e)` of a value.
    pub(super) fn fix_of(&mut self, scale: u32, operand: Expr, span: Span) -> (r: Option<Expr>)
        ensures
            (final(self)@, expr_opt_view(r)) == exprs::fix_of(old(self)@, scale, operand@, span),
    {
        proof {
            reveal(exprs::fix_of);
            operand.unfold();
        }
        let ty = Type::Fix(Scale::Const(scale));
        match operand.ty {
            Type::I32 => {
                let r = Expr { ty, kind: operand.kind, span: operand.span };
                proof {
                    r.unfold();
                }
                Some(r)
            },
            Type::Fix(Scale::Const(from)) => {
                if from == scale {
                    return Some(operand);
                }
                let scaled = by_const(BinaryOp::Mul, operand, scale, ty, span);
                Some(by_const(BinaryOp::Div, scaled, from, ty, span))
            },
            _ => {
                let message = cat4(
                    "'fix::<",
                    show_u64(scale as u64).as_str(),
                    ">' takes an i32 or another fix, found ",
                    self.name(operand.ty).as_str(),
                );
                self.fault(span, message);
                None
            },
        }
    }

    /// `Some(e)` of a value.
    pub(super) fn some_of(&mut self, held: Expr, span: Span) -> (r: Option<Expr>)
        ensures
            (final(self)@, expr_opt_view(r)) == exprs::some_of(old(self)@, held@, span),
    {
        proof {
            reveal(exprs::some_of);
        }
        if held.ty.is_compile_time() {
            self.fault(span, cat3("a ", held.ty.name(), " has no runtime value to hold"));
            return None;
        }
        if matches!(held.ty, Type::Option(_)) {
            self.error(
                span,
                "Some(None) and None cannot be told apart: a path is either there or not",
            );
            return None;
        }
        let ty = self.option_of(held.ty);
        Some(Expr::of(ExprKind::Present(Box::new(held)), ty, span))
    }

    /// `o?` of a value.
    pub(super) fn try_of(&mut self, env: &Frame, tried: Expr, span: Span) -> (r: Option<Expr>)
        ensures
            (final(self)@, expr_opt_view(r)) == exprs::try_of(env@, old(self)@, tried@, span),
    {
        proof {
            reveal(exprs::try_of);
        }
        let inner = match tried.ty {
            Type::Option(id) => self.types().inner_at(id),
            _ => {
                let message = cat2("'?' takes an Option, found ", self.name(tried.ty).as_str());
                self.fault(span, message);
                return None;
            },
        };
        if inner.is_storage() {
            let message = cat3(
                "'?' unwraps into a register, and a ",
                self.name(inner).as_str(),
                " does not fit in one; match on it instead",
            );
            self.fault(span, message);
            return None;
        }
        match env.ret {
            Some(Type::Option(_)) => {},
            _ => {
                self.error(
                    span,
                    "'?' leaves the function with nothing, so the function has to return an Option",
                );
                return None;
            },
        }
        Some(Expr::of(ExprKind::Try(Box::new(tried)), inner, span))
    }

    /// A selector that is already lowered: a literal, or a name bound to one.
    pub(super) fn selector_text(&mut self, e: &Expr) -> (r: Option<String>)
        ensures
            (final(self)@, text_opt_view(r)) == exprs::selector_text(old(self)@, e@),
    {
        proof {
            reveal(exprs::selector_text);
            e.unfold();
        }
        let text = match &e.kind {
            ExprKind::Selector(text) => Some(text.clone()),
            ExprKind::Local(local) => match self.selector_alias(*local) {
                Some(text) => Some(text.clone()),
                None => None,
            },
            _ => None,
        };
        if text.is_none() {
            self.error(e.span, "expected a selector");
        }
        text
    }

    pub(super) fn is_view(&self, ty: &Ident) -> (r: bool)
        ensures
            r == exprs::is_view(self@, ty@),
    {
        match self.types().get(ty.name.as_str()) {
            Some(Type::View(_)) => true,
            _ => false,
        }
    }

    /// A view of the entity a selector finds.
    pub(super) fn view_place(&mut self, ty: &Ident, text: String, at: Span, span: Span) -> (r:
        Option<Expr>)
        ensures
            (final(self)@, expr_opt_view(r)) == exprs::view_place(
                old(self)@,
                ty@,
                text@,
                at,
                span,
            ),
    {
        proof {
            reveal(exprs::view_place);
        }
        let shape = self.types().get(ty.name.as_str());
        if !finds_one(text.as_str()) {
            self.fault(
                at,
                cat3(
                    "'",
                    text.as_str(),
                    "' can find more than one entity, and data takes exactly                      one; add 'limit=1' or use '@s', '@p' or '@r'",
                ),
            );
            return None;
        }
        if same(text.as_str(), "@s") {
            self.require(Ctx::Entity, at, "a view of '@s'");
        }
        let shown = match shape {
            Some(shape) => shape,
            None => Type::I32,
        };
        let place = Place {
            root: Root::Entity { selector: text },
            steps: Vec::new(),
            ty: shown,
            tag: None,
            mutable: false,
            via: ty.name.clone(),
        };
        proof {
            place.unfold();
            assert(place@.steps =~= seq![]);
        }
        Some(Expr::of(ExprKind::View(place), shown, span))
    }

    /// How one argument is written into a command's text.
    pub(super) fn render_arg(&mut self, arg: &Expr, want: ArgType) -> (r: Option<String>)
        ensures
            (final(self)@, text_opt_view(r)) == exprs::render_arg(old(self)@, arg@, want),
    {
        proof {
            reveal(exprs::render_arg);
            arg.unfold();
        }
        match (&arg.kind, want) {
            (ExprKind::Component(c), ArgType::Component) => Some(c.render()),
            (ExprKind::Pos(text), ArgType::Pos) => Some(text.clone()),
            (ExprKind::Resource(text), ArgType::Resource) => Some(text.clone()),
            (ExprKind::Selector(text), ArgType::Selector) => Some(text.clone()),
            (ExprKind::Int(n), ArgType::I32) => Some(show_i32(*n)),
            (ExprKind::Bool(b), ArgType::Bool) => Some(show_bool(*b)),
            (ExprKind::Str(text), ArgType::Str) => Some(text.clone()),
            (ExprKind::Str(text), ArgType::Nbt) => Some(text.clone()),
            (ExprKind::Str(text), ArgType::Component) => Some(text.clone()),
            (ExprKind::Str(text), ArgType::Raw) => Some(text.clone()),
            _ => {
                let runtime = match &arg.kind {
                    ExprKind::Local(_) => true,
                    ExprKind::Binary(_, _, _) => true,
                    ExprKind::Unary(_, _) => true,
                    _ => false,
                };
                if runtime {
                    self.error(
                        arg.span,
                        "a command argument has to be known at compile time; passing a runtime value needs a macro function, which is not implemented yet",
                    );
                } else {
                    let message = cat4(
                        "expected ",
                        want.name(),
                        " here, found ",
                        self.name(arg.ty).as_str(),
                    );
                    self.fault(arg.span, message);
                }
                None
            },
        }
    }

    /// Complains when a call needs a context the caller does not have.
    pub(super) fn check_ctx(&mut self, name: &str, ctx: &Vec<Ctx>, span: Span)
        ensures
            final(self)@ == exprs::check_ctx(old(self)@, name@, ctx@, span),
    {
        proof {
            reveal(exprs::check_ctx);
        }
        let ghost provided = self@.provided;
        let mut missing: Vec<String> = Vec::new();
        let mut i: usize = 0;
        proof {
            assert(texts(missing@) + exprs::missing_ctx(provided, ctx@, 0) =~= exprs::missing_ctx(
                provided,
                ctx@,
                0,
            ));
        }
        while i < ctx.len()
            invariant
                i <= ctx@.len(),
                provided == self@.provided,
                texts(missing@) + exprs::missing_ctx(provided, ctx@, i as int)
                    == exprs::missing_ctx(provided, ctx@, 0),
            decreases ctx.len() - i,
        {
            let ghost before = texts(missing@);
            if !self.has_ctx(ctx[i]) {
                let one = own(ctx[i].name());
                let ghost shown = one@;
                missing.push(one);
                proof {
                    assert(texts(missing@) =~= before.push(shown));
                    assert(texts(missing@) + exprs::missing_ctx(provided, ctx@, i + 1) =~= before
                        + (seq![shown] + exprs::missing_ctx(provided, ctx@, i + 1)));
                }
            }
            i += 1;
        }
        proof {
            assert(texts(missing@) + exprs::missing_ctx(provided, ctx@, i as int)
                =~= texts(missing@));
        }
        if missing.len() > 0 {
            let kinds = join_texts(&missing, ", ");
            let mut message = cat7(
                "'",
                name,
                "' declares #[ctx(",
                kinds.as_str(),
                ")] but no ",
                kinds.as_str(),
                " context is available here; wrap the call in an 'as' block, or declare #[ctx(",
            );
            message.append(kinds.as_str());
            message.append(")] on this function too");
            self.fault(span, message);
        }
    }

    /// A place handed to a borrowed parameter.
    pub(super) fn borrow_place(
        &mut self,
        env: &Frame,
        kind: Borrow,
        place: Place,
        span: Span,
        given: &mut Given,
    ) -> (r: bool)
        ensures
            (
                final(self)@,
                if r {
                    Some(final(given)@)
                } else {
                    None
                },
            ) == exprs::borrow_place(env@, old(self)@, kind, place@, span, old(given)@),
    {
        proof {
            reveal(exprs::borrow_place);
            place.unfold();
        }
        if !place.is_static() {
            self.error(
                span,
                "an element reached by a runtime index cannot be borrowed: its path is not known while compiling; assign to it instead",
            );
            return false;
        }
        if kind == Borrow::Mutable && !place.mutable {
            self.fault(
                span,
                cat3("'", place.via.as_str(), "' is not mutable; declare it with 'let mut'"),
            );
            return false;
        }
        let ty = place.ty;
        let lent = self.lend(env, place);
        given.lend(lent, ty);
        true
    }

    /// The receiver of a method: read like any other expression, or borrowed.
    pub(super) fn receive(
        &mut self,
        env: &Frame,
        param: ParamSig,
        place: Place,
        span: Span,
        given: &mut Given,
    ) -> (r: bool)
        ensures
            (
                final(self)@,
                if r {
                    Some(final(given)@)
                } else {
                    None
                },
            ) == exprs::receive(env@, old(self)@, param, place@, span, old(given)@),
    {
        proof {
            reveal(exprs::receive);
            place.unfold();
        }
        match param.borrow {
            None => {
                let ty = place.ty;
                given.pass(Expr::of(ExprKind::Field(place), ty, span));
                true
            },
            Some(kind) => self.borrow_place(env, kind, place, span, given),
        }
    }

    /// The parameters matched against the actual types, one after the other.
    fn bind_params(&self, params: &Vec<ParamSig>, actual: &Vec<Type>, generics: usize) -> (r: Vec<
        Option<Type>,
    >)
        ensures
            r@ == exprs::bind_params(
                self@.types,
                params@,
                actual@,
                0,
                Seq::new(generics as nat, |i: int| None),
            ),
    {
        let mut bound = unbound_params(generics);
        let ghost start = bound@;
        let types = self.types();
        let mut i: usize = 0;
        proof {
            assert(start =~= Seq::new(generics as nat, |i: int| None));
        }
        while i < params.len() && i < actual.len()
            invariant
                i <= params@.len(),
                types@ == self@.types,
                exprs::bind_params(types@, params@, actual@, 0, start) == exprs::bind_params(
                    types@,
                    params@,
                    actual@,
                    i as int,
                    bound@,
                ),
            decreases params.len() - i,
        {
            let _ = types.unify(params[i].ty, actual[i], &mut bound);
            i += 1;
        }
        bound
    }

    /// The arguments checked against the parameters, now that those are concrete.
    fn check_params(
        &mut self,
        params: &Vec<ParamSig>,
        actual: &Vec<Type>,
        args: &Vec<Type>,
        span: Span,
    ) -> (r: bool)
        ensures
            (final(self)@, r) == exprs::check_params(
                old(self)@,
                params@,
                actual@,
                0,
                args@,
                span,
            ),
    {
        let ghost start = self@;
        let mut i: usize = 0;
        while i < params.len() && i < actual.len()
            invariant
                i <= params@.len(),
                start == old(self)@,
                exprs::check_params(start, params@, actual@, 0, args@, span)
                    == exprs::check_params(self@, params@, actual@, i as int, args@, span),
            decreases params.len() - i,
        {
            let want = self.substitute(params[i].ty, args);
            if actual[i] != want {
                self.mismatch(span, want, actual[i]);
                return false;
            }
            i += 1;
        }
        true
    }

    /// The function a call means, once its arguments are known.
    pub(super) fn pick(
        &mut self,
        env: &Frame,
        sig: &Signature,
        name: &str,
        given: Given,
        span: Span,
    ) -> (r: Option<Resolved>)
        ensures
            (final(self)@, resolved_view(r)) == exprs::pick(
                env@,
                old(self)@,
                sig@,
                name@,
                given@,
                span,
            ),
    {
        proof {
            reveal(exprs::pick);
        }
        let bound = self.bind_params(&sig.params, &given.actual, sig.generics.len());
        let args = match all_bound(&bound) {
            Some(args) => args,
            None => {
                let loose = join_texts(&unbound(&sig.generics, &bound), ", ");
                self.fault(
                    span,
                    cat5(
                        "cannot tell what ",
                        loose.as_str(),
                        " is in the call to '",
                        name,
                        "'; no argument mentions it",
                    ),
                );
                return None;
            },
        };
        if !self.check_params(&sig.params, &given.actual, &args, span) {
            return None;
        }
        let ret = match sig.ret {
            Some(ty) => Some(self.substitute(ty, &args)),
            None => None,
        };
        let callee = match sig.id {
            Some(id) => id,
            None => self.instance_of(env, sig.item, args, given.borrows, name, span)?,
        };
        Some(Resolved { callee, ret, args: given.values })
    }

    /// The written fields put where they were declared.
    fn fill_fields(&mut self, declared: &Vec<Field>, written: &Vec<(Ident, Expr)>, what: &str) -> (r:
        Option<Vec<Option<usize>>>)
        ensures
            (final(self)@, slots_opt_view(r, written@)) == exprs::fill_fields(
                old(self)@,
                fields_view(declared@),
                inits(written@),
                0,
                Seq::new(declared@.len(), |i: int| None),
                what@,
            ),
            r is Some ==> r->0@.len() == declared@.len() && forall|k: int|
                0 <= k < declared@.len() && #[trigger] r->0@[k] is Some ==> r->0@[k]->0
                    < written@.len(),
    {
        let ghost start = self@;
        let ghost all = fields_view(declared@);
        let ghost given = inits(written@);
        let mut slots: Vec<Option<usize>> = Vec::new();
        let mut i: usize = 0;
        while i < declared.len()
            invariant
                i <= declared@.len(),
                slots@.len() == i,
                forall|k: int| 0 <= k < i ==> #[trigger] slots@[k] is None,
            decreases declared.len() - i,
        {
            slots.push(None);
            i += 1;
        }
        let ghost empty = slots_view(slots@, written@);
        proof {
            assert(empty =~= Seq::new(declared@.len(), |i: int| None));
        }
        let mut i: usize = 0;
        while i < written.len()
            invariant
                i <= written@.len(),
                start == old(self)@,
                all == fields_view(declared@),
                given == inits(written@),
                slots@.len() == declared@.len(),
                empty == Seq::new(declared@.len(), |i: int| None::<model::Expr>),
                forall|k: int|
                    0 <= k < slots@.len() && #[trigger] slots@[k] is Some ==> slots@[k]->0
                        < written@.len(),
                exprs::fill_fields(start, all, given, 0, empty, what@) == exprs::fill_fields(
                    self@,
                    all,
                    given,
                    i as int,
                    slots_view(slots@, written@),
                    what@,
                ),
            decreases written.len() - i,
        {
            proof {
                reveal(exprs::fill_fields);
                assert(given[i as int] == (written@[i as int].0@, written@[i as int].1@));
            }
            let name = &written[i].0;
            let value = &written[i].1;
            let at: usize = find_field(declared, name.name.as_str());
            if at >= declared.len() {
                self.fault(
                    name.span,
                    cat5("'", what, "' has no field named '", name.name.as_str(), "'"),
                );
                return None;
            }
            if value.ty != declared[at].ty {
                self.mismatch(value.span, declared[at].ty, value.ty);
                return None;
            }
            if slots[at].is_some() {
                self.fault(
                    name.span,
                    cat3("the field '", name.name.as_str(), "' is set twice"),
                );
                return None;
            }
            let ghost before = slots_view(slots@, written@);
            slots.set(at, Some(i));
            proof {
                assert(slots_view(slots@, written@) =~= before.update(
                    at as int,
                    Some(written@[i as int].1@),
                ));
            }
            i += 1;
        }
        proof {
            reveal(exprs::fill_fields);
        }
        Some(slots)
    }

    /// Checks an initialiser list against a declaration: every field, exactly once, at its
    /// declared type.
    pub(super) fn check_fields(
        &mut self,
        declared: &Vec<Field>,
        written: Vec<(Ident, Expr)>,
        span: Span,
        what: &str,
    ) -> (r: Option<Vec<Expr>>)
        ensures
            (final(self)@, exprs_opt_view(r)) == exprs::check_fields(
                old(self)@,
                fields_view(declared@),
                inits(written@),
                span,
                what@,
            ),
    {
        proof {
            reveal(exprs::check_fields);
        }
        let slots = self.fill_fields(declared, &written, what)?;
        let ghost filled = slots_view(slots@, written@);
        let missing = missing_fields(declared, &slots, &written);
        if missing.len() > 0 {
            self.fault(
                span,
                cat4(
                    "'",
                    what,
                    "' is missing a value for ",
                    join_texts(&missing, ", ").as_str(),
                ),
            );
            return None;
        }
        proof {
            assert(texts(missing@).len() == 0);
            lemma_none_missing(fields_view(declared@), filled, 0);
        }
        let mut out: Vec<Expr> = Vec::new();
        let mut i: usize = 0;
        while i < slots.len()
            invariant
                i <= slots@.len(),
                filled == slots_view(slots@, written@),
                forall|k: int| 0 <= k < filled.len() ==> #[trigger] filled[k] is Some,
                forall|k: int|
                    0 <= k < slots@.len() && #[trigger] slots@[k] is Some ==> slots@[k]->0
                        < written@.len(),
                out@.len() == i,
                forall|k: int| 0 <= k < i ==> (#[trigger] out@[k])@ == filled[k]->0,
            decreases slots.len() - i,
        {
            proof {
                assert(filled[i as int] is Some);
            }
            match slots[i] {
                Some(k) => {
                    out.push(written[k].1.copy());
                },
                None => {},
            }
            i += 1;
        }
        proof {
            assert(exprs_view(out@) =~= Seq::new(filled.len(), |i: int| filled[i]->0));
        }
        Some(out)
    }

    /// `Pair { a: 1, b: 2 }` for a generic struct: the values decide the type arguments.
    pub(super) fn generic_struct(
        &mut self,
        name: &str,
        generics: &Vec<GenericDef>,
        fields: &Vec<Field>,
        written: Vec<(Ident, Expr)>,
        span: Span,
        template: Ghost<model::Template>,
    ) -> (r: Option<Expr>)
        requires
            template@.name == name@,
            template@.generics == generics_view(generics@),
            template@.fields == fields_view(fields@),
        ensures
            (final(self)@, expr_opt_view(r)) == exprs::generic_struct(
                old(self)@,
                template@,
                inits(written@),
                span,
            ),
    {
        proof {
            reveal(exprs::generic_struct);
        }
        let ghost all = fields_view(fields@);
        let ghost given = inits(written@);
        let mut bound = unbound_params(generics.len());
        let ghost start = bound@;
        proof {
            assert(start =~= Seq::new(template@.generics.len(), |i: int| None));
        }
        let types = self.types();
        let mut i: usize = 0;
        while i < written.len()
            invariant
                i <= written@.len(),
                all == fields_view(fields@),
                given == inits(written@),
                types@ == self@.types,
                exprs::bind_fields(types@, all, given, 0, start) == exprs::bind_fields(
                    types@,
                    all,
                    given,
                    i as int,
                    bound@,
                ),
            decreases written.len() - i,
        {
            proof {
                assert(given[i as int] == (written@[i as int].0@, written@[i as int].1@));
            }
            let at: usize = find_field(fields, written[i].0.name.as_str());
            if at < fields.len() {
                let _ = types.unify(fields[at].ty, written[i].1.ty, &mut bound);
            }
            i += 1;
        }
        let args = match all_bound(&bound) {
            Some(args) => args,
            None => {
                let loose = join_texts(&unbound(generics, &bound), ", ");
                self.fault(
                    span,
                    cat7(
                        "cannot tell what ",
                        loose.as_str(),
                        " is in '",
                        name,
                        "' here; annotate the binding, as in 'let p: ",
                        name,
                        "<i32> = ..'",
                    ),
                );
                return None;
            },
        };
        match self.instantiate(name, &args) {
            Some(Type::Struct(id)) => {
                let (fields, what) = self.struct_parts(id)?;
                let values = self.check_fields(&fields, written, span, what.as_str())?;
                Some(Expr::of(ExprKind::Struct { id, fields: values }, Type::Struct(id), span))
            },
            _ => None,
        }
    }

    /// A list whose elements are known. `[]` alone says nothing about what it holds.
    pub(super) fn list_of(&mut self, elem: Option<Type>, values: Vec<Expr>, span: Span) -> (r:
        Option<Expr>)
        ensures
            (final(self)@, expr_opt_view(r)) == exprs::list_of(
                old(self)@,
                elem,
                exprs_view(values@),
                span,
            ),
    {
        proof {
            reveal(exprs::list_of);
        }
        match elem {
            None => {
                self.error(span, "an empty list needs a type: write 'let v: Vec<i32> = [];'");
                None
            },
            Some(elem) => {
                if elem.is_compile_time() {
                    self.fault(
                        span,
                        cat3(
                            "a ",
                            elem.name(),
                            " exists only while compiling, so a list cannot hold one",
                        ),
                    );
                    return None;
                }
                let ty = self.vec_of(elem);
                Some(Expr::of(ExprKind::List { elem, values }, ty, span))
            },
        }
    }

    /// `o.expect("m")`.
    pub(super) fn expect_of(&mut self, place: Place, inner: Type, args: &Vec<Written>, span: Span) -> (r:
        Option<Expr>)
        ensures
            (final(self)@, expr_opt_view(r)) == exprs::expect_of(
                old(self)@,
                place@,
                inner,
                written_exprs(args@),
                span,
            ),
    {
        proof {
            reveal(exprs::expect_of);
            place.unfold();
        }
        let message: Option<String> = if args.len() == 1 {
            proof {
                args@[0].unfold();
                assert(written_exprs(args@)[0] == args@[0]@);
            }
            match &args[0] {
                Written::Str(text) => Some(text.value.clone()),
                _ => None,
            }
        } else {
            None
        };
        let message = match message {
            Some(message) => message,
            None => {
                self.error(span, "'expect' takes one message, as a string literal");
                return None;
            },
        };
        if inner.is_storage() {
            let message = cat3(
                "'expect' unwraps into a register, and a ",
                self.name(inner).as_str(),
                " does not fit in one; match on it instead",
            );
            self.fault(span, message);
            return None;
        }
        let ty = place.ty;
        let read = Expr::of(ExprKind::Field(place), ty, span);
        Some(Expr::of(ExprKind::Expect { value: Box::new(read), message }, inner, span))
    }
}

/// Where no field is missing, every one of them has its value.
proof fn lemma_none_missing(
    declared: Seq<model::Field>,
    slots: Seq<Option<model::Expr>>,
    i: int,
)
    requires
        0 <= i,
        slots.len() == declared.len(),
        exprs::missing_fields(declared, slots, i).len() == 0,
    ensures
        forall|k: int| i <= k < slots.len() ==> #[trigger] slots[k] is Some,
    decreases declared.len() - i,
{
    if i < declared.len() {
        assert(slots[i] is Some);
        lemma_none_missing(declared, slots, i + 1);
    }
}

} // verus!
