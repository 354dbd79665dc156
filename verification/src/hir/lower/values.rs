//! Lowering of values, literals and texts, as far as no other expression is involved.

use vstd::prelude::*;

use crate::hir::lower::types::resolve_scale;
use crate::hir::lower::{Frame, Lowering};
use crate::hir::model;
use crate::hir::rules::values as rules;
use crate::hir::{
    copy_fields, expr_opt_view, fields_view, find_field, generics_view, place_opt_view, steps_view,
    Ctx, Expr, ExprKind, Field, GenericDef, LocalId, NbtTag, Place, Root, Scale, Step, StructId,
    Type,
};
use crate::syntax::ast::{
    exprs_view as written_exprs, text_opt_view, BinaryOp, Expr as Written, Ident, ScaleArg,
};
use crate::syntax::Span;
use crate::text::{
    cat2, cat3, cat4, cat5, cat6, chars, find, own, recoloned, removed, same, show_bool, show_i32,
    show_u64, slice, split, string, texts, to_lowercase, trimmed, trimmed_end,
};

verus! {

// Operators.

pub(crate) fn by_const(op: BinaryOp, operand: Expr, n: u32, ty: Type, span: Span) -> (r: Expr)
    ensures
        r@ == rules::by_const(op, operand@, n, ty, span),
{
    #[verifier::truncate]
    let n = n as i32;
    let constant = Expr::of(ExprKind::Int(n), Type::I32, span);
    Expr::of(ExprKind::Binary(op, Box::new(operand), Box::new(constant)), ty, span)
}

/// An arithmetic node, with the scale correction `*` and `/` need on a fix.
pub(crate) fn combine(op: BinaryOp, lhs: Expr, rhs: Expr, ty: Type, span: Span) -> (r: Expr)
    ensures
        r@ == rules::combine(op, lhs@, rhs@, ty, span),
{
    proof {
        reveal(rules::combine);
    }
    let scale = match (lhs.ty, rhs.ty) {
        (Type::Fix(Scale::Const(scale)), Type::Fix(_)) => Some(scale),
        _ => None,
    };
    match scale {
        Some(scale) => {
            if op == BinaryOp::Mul {
                let product = Expr::of(
                    ExprKind::Binary(op, Box::new(lhs), Box::new(rhs)),
                    ty,
                    span,
                );
                return by_const(BinaryOp::Div, product, scale, ty, span);
            }
            if op == BinaryOp::Div {
                let scaled = by_const(BinaryOp::Mul, lhs, scale, ty, span);
                return Expr::of(
                    ExprKind::Binary(op, Box::new(scaled), Box::new(rhs)),
                    ty,
                    span,
                );
            }
        },
        None => {},
    }
    Expr::of(ExprKind::Binary(op, Box::new(lhs), Box::new(rhs)), ty, span)
}

fn is_arithmetic(op: BinaryOp) -> (r: bool)
    ensures
        r == rules::is_arithmetic(op),
{
    matches!(op, BinaryOp::Add | BinaryOp::Sub | BinaryOp::Mul | BinaryOp::Div | BinaryOp::Rem)
}

fn is_ordering(op: BinaryOp) -> (r: bool)
    ensures
        r == rules::is_ordering(op),
{
    matches!(op, BinaryOp::Lt | BinaryOp::Le | BinaryOp::Gt | BinaryOp::Ge)
}

fn is_equality(op: BinaryOp) -> (r: bool)
    ensures
        r == rules::is_equality(op),
{
    matches!(op, BinaryOp::Eq | BinaryOp::Ne)
}

fn is_fix(ty: Type) -> (r: bool)
    ensures
        r == (ty is Fix),
{
    matches!(ty, Type::Fix(_))
}

/// Whether a selector can only ever find one entity. `@s`, `@p`, `@r` and `@n` are single
/// by definition; the others need `limit=1` to be.
pub(crate) fn finds_one(text: &str) -> (r: bool)
    ensures
        r == rules::finds_one(text@),
{
    proof {
        reveal(rules::finds_one);
    }
    let v = chars(text);
    let at: usize = find(&v, '[', 0);
    let front = chars(slice(&v, 0, at).as_str());
    proof {
        assert(front@ =~= text@.take(at as int));
    }
    let head = trimmed(&front);
    let head = head.as_str();
    if same(head, "@s") || same(head, "@p") || same(head, "@r") || same(head, "@n") {
        return true;
    }
    let body = if at < v.len() {
        slice(&v, at + 1, v.len())
    } else {
        String::new()
    };
    let body = chars(body.as_str());
    proof {
        assert(body@ =~= if at < text@.len() {
            text@.skip(at + 1)
        } else {
            seq![]
        });
    }
    let parts = split(&body, ',');
    let ghost all = texts(parts@);
    let mut i: usize = 0;
    while i < parts.len()
        invariant
            i <= parts@.len(),
            all == texts(parts@),
            rules::finds_one(text@) == rules::any_limits(all, 0),
            rules::any_limits(all, 0) == rules::any_limits(all, i as int),
        decreases parts.len() - i,
    {
        let part = chars(parts[i].as_str());
        let kept = removed(&trimmed_end(&part, ']'), ' ');
        if same(string(&kept).as_str(), "limit=1") {
            return true;
        }
        i += 1;
    }
    false
}

fn is_colour(name: &str) -> (r: bool)
    ensures
        r == rules::is_colour(name@),
{
    same(name, "black") || same(name, "dark_blue") || same(name, "dark_green") || same(
        name,
        "dark_aqua",
    ) || same(name, "dark_red") || same(name, "dark_purple") || same(name, "gold") || same(
        name,
        "gray",
    ) || same(name, "dark_gray") || same(name, "blue") || same(name, "green") || same(name, "aqua")
        || same(name, "red") || same(name, "light_purple") || same(name, "yellow") || same(
        name,
        "white",
    )
}

/// What a style method sets: its JSON key, and the value it stands for. No value means
/// that the method takes it as an argument, which only `.color("#rrggbb")` does.
pub(crate) fn style_member(method: &str) -> (r: Option<(String, Option<String>)>)
    ensures
        match r {
            Some((key, shown)) => rules::style_member(method@) == Some(
                (key@, text_opt_view(shown)),
            ),
            None => rules::style_member(method@) is None,
        },
{
    proof {
        reveal(rules::style_member);
    }
    if is_colour(method) {
        Some((own("color"), Some(cat3("\"", method, "\""))))
    } else if same(method, "color") {
        Some((own("color"), None))
    } else if same(method, "bold") || same(method, "italic") || same(method, "underlined") || same(
        method,
        "strikethrough",
    ) || same(method, "obfuscated") {
        Some((own(method), Some(own("true"))))
    } else {
        None
    }
}

// Places.

impl Place {
    /// Whether the whole path is known while compiling.
    pub fn is_static(&self) -> (r: bool)
        ensures
            r == rules::is_static(self@),
    {
        proof {
            self.unfold();
        }
        let mut i: usize = 0;
        while i < self.steps.len()
            invariant
                i <= self.steps@.len(),
                self@.steps == steps_view(self.steps@),
                forall|k: int| 0 <= k < i ==> !(#[trigger] self@.steps[k] is At),
            decreases self.steps.len() - i,
        {
            proof {
                self.steps@[i as int].unfold();
                assert(self@.steps[i as int] == self.steps@[i as int]@);
            }
            match &self.steps[i] {
                Step::At(_) => {
                    return false;
                },
                _ => {},
            }
            i += 1;
        }
        true
    }

    /// A stable spelling of where this points, for telling instances apart by what they
    /// borrow.
    pub fn key(&self) -> (r: String)
        ensures
            r@ == rules::place_key(self@),
    {
        proof {
            self.unfold();
        }
        let root = match &self.root {
            Root::Local(id) => cat2("l", show_u64(id.0 as u64).as_str()),
            Root::Entity { selector } => cat2("e", selector.as_str()),
            Root::Lent { owner, local, storage } => cat5(
                owner.as_str(),
                ".",
                local.as_str(),
                ".",
                show_bool(*storage).as_str(),
            ),
        };
        let mut steps = String::new();
        let mut i: usize = 0;
        proof {
            assert(steps@ =~= seq![]);
        }
        while i < self.steps.len()
            invariant
                i <= self.steps@.len(),
                self@.steps == steps_view(self.steps@),
                steps@ == rules::steps_key(self@.steps, i as int),
            decreases self.steps.len() - i,
        {
            proof {
                self.steps@[i as int].unfold();
                assert(self@.steps[i as int] == self.steps@[i as int]@);
            }
            let one = match &self.steps[i] {
                Step::Field(name) => cat2(".", name.as_str()),
                Step::Index(index) => cat3("[", show_i32(*index).as_str(), "]"),
                Step::At(_) => own("[?]"),
            };
            steps.append(one.as_str());
            i += 1;
        }
        cat2(root.as_str(), steps.as_str())
    }

    /// What a borrowed place adds to the name of an instance.
    pub(super) fn suffix(&self) -> (r: String)
        ensures
            r@ == rules::place_suffix(self@),
    {
        proof {
            self.unfold();
        }
        let root = match &self.root {
            Root::Lent { owner, local, storage } => cat4(
                "_",
                to_lowercase(recoloned(owner.as_str(), '_').as_str()).as_str(),
                "_",
                local.as_str(),
            ),
            _ => String::new(),
        };
        proof {
            if !(self@.root is Lent) {
                assert(root@ =~= seq![]);
            }
        }
        let mut steps = String::new();
        let mut i: usize = 0;
        proof {
            assert(steps@ =~= seq![]);
        }
        while i < self.steps.len()
            invariant
                i <= self.steps@.len(),
                self@.steps == steps_view(self.steps@),
                steps@ == rules::steps_suffix(self@.steps, i as int),
            decreases self.steps.len() - i,
        {
            proof {
                self.steps@[i as int].unfold();
                assert(self@.steps[i as int] == self.steps@[i as int]@);
            }
            let ghost before = steps@;
            match &self.steps[i] {
                Step::Field(name) => {
                    steps.append(cat2("_", name.as_str()).as_str());
                },
                Step::Index(index) => {
                    steps.append(cat2("_", show_i32(*index).as_str()).as_str());
                },
                Step::At(_) => {
                    proof {
                        assert(before + Seq::<char>::empty() =~= before);
                    }
                },
            }
            i += 1;
        }
        cat2(root.as_str(), steps.as_str())
    }

    /// The place with one more step.
    fn step(self, step: Step, ty: Type, tag: Option<NbtTag>) -> (r: Place)
        ensures
            r@ == (model::Place { steps: self@.steps.push(step@), ty, tag, ..self@ }),
    {
        let ghost before = self@;
        proof {
            self.unfold();
        }
        let mut place = self;
        let ghost shown = step@;
        place.steps.push(step);
        place.ty = ty;
        place.tag = tag;
        proof {
            place.unfold();
            assert(place@.steps =~= before.steps.push(shown));
        }
        place
    }
}

impl Lowering {
    /// Why one side of an operator cannot be there.
    fn side_fault(&self, side: Type) -> (r: Option<String>)
        ensures
            text_opt_view(r) == rules::side_fault(self@, side),
    {
        if side.is_compile_time() {
            Some(cat3("a ", side.name(), " has no runtime value"))
        } else if side.is_nbt_scalar() {
            Some(
                cat3(
                    "an ",
                    side.name(),
                    " is for NBT interop and has no arithmetic; read it into a fix first, as in 'fix::<1000>(x)'",
                ),
            )
        } else if side.is_compound() {
            Some(
                cat3(
                    "'",
                    self.name(side).as_str(),
                    "' is a struct, and the game cannot compare two compounds",
                ),
            )
        } else {
            None
        }
    }

    fn fix_binary_type(&mut self, op: BinaryOp, lhs: Type, rhs: Type, span: Span) -> (r: Option<
        Type,
    >)
        ensures
            (final(self)@, r) == rules::fix_binary_type(old(self)@, op, lhs, rhs, span),
    {
        proof {
            reveal(rules::fix_binary_type);
        }
        if (op == BinaryOp::Mul || op == BinaryOp::Div) && is_fix(lhs) && rhs == Type::I32 {
            Some(lhs)
        } else if op == BinaryOp::Mul && lhs == Type::I32 && is_fix(rhs) {
            Some(rhs)
        } else if lhs != rhs {
            let message = cat5(
                "cannot mix ",
                self.name(lhs).as_str(),
                " with ",
                self.name(rhs).as_str(),
                "; convert one of them with 'fix::<S>(x)'",
            );
            self.fault(span, message);
            None
        } else if is_arithmetic(op) {
            Some(lhs)
        } else if is_ordering(op) || is_equality(op) {
            Some(Type::Bool)
        } else {
            let message = cat2("this operator needs bool, found ", self.name(lhs).as_str());
            self.fault(span, message);
            None
        }
    }

    fn string_binary_type(&mut self, op: BinaryOp, lhs: Type, rhs: Type, span: Span) -> (r: Option<
        Type,
    >)
        ensures
            (final(self)@, r) == rules::string_binary_type(old(self)@, op, lhs, rhs, span),
    {
        proof {
            reveal(rules::string_binary_type);
        }
        if lhs != rhs {
            let message = cat4(
                "cannot mix ",
                self.name(lhs).as_str(),
                " with ",
                self.name(rhs).as_str(),
            );
            self.fault(span, message);
            None
        } else if is_equality(op) {
            Some(Type::Bool)
        } else if op == BinaryOp::Add {
            Some(Type::Str)
        } else {
            self.error(
                span,
                "a String has no arithmetic; '+' joins two of them and that is the whole of it",
            );
            None
        }
    }

    /// The type of an operator applied to two types.
    pub(super) fn binary_type(&mut self, op: BinaryOp, lhs: Type, rhs: Type, span: Span) -> (r:
        Option<Type>)
        ensures
            (final(self)@, r) == rules::binary_type(old(self)@, op, lhs, rhs, span),
    {
        proof {
            reveal(rules::binary_type);
        }
        match self.side_fault(lhs) {
            Some(message) => {
                self.fault(span, message);
                return None;
            },
            None => {},
        }
        match self.side_fault(rhs) {
            Some(message) => {
                self.fault(span, message);
                return None;
            },
            None => {},
        }
        if lhs == Type::Str || rhs == Type::Str {
            return self.string_binary_type(op, lhs, rhs, span);
        }
        if is_fix(lhs) || is_fix(rhs) {
            return self.fix_binary_type(op, lhs, rhs, span);
        }
        let result = if is_arithmetic(op) {
            Type::I32
        } else {
            Type::Bool
        };
        let want = if is_arithmetic(op) || is_ordering(op) {
            Some(Type::I32)
        } else if is_equality(op) {
            None
        } else {
            Some(Type::Bool)
        };
        match want {
            Some(want) => {
                if lhs != want || rhs != want {
                    let found = if lhs != want {
                        lhs
                    } else {
                        rhs
                    };
                    self.fault(
                        span,
                        cat4("this operator needs ", want.name(), ", found ", found.name()),
                    );
                    return None;
                }
            },
            None => {
                if lhs != rhs {
                    let message = cat4(
                        "cannot compare ",
                        self.name(lhs).as_str(),
                        " with ",
                        self.name(rhs).as_str(),
                    );
                    self.fault(span, message);
                    return None;
                }
            },
        }
        Some(result)
    }

    /// The scale a `fix<S>` was written with. Inside an instance a const parameter is
    /// already a number, which is what the type arguments carry.
    pub(super) fn scale_of(&mut self, env: &Frame, written: &ScaleArg) -> (r: Option<u32>)
        ensures
            (final(self)@, r) == rules::scale_of(env@, old(self)@, written@),
    {
        proof {
            reveal(rules::scale_of);
        }
        match written {
            ScaleArg::Param(name) => match env.type_param(name.name.as_str()) {
                Some(Type::Fix(Scale::Const(scale))) => {
                    return Some(scale);
                },
                _ => {},
            },
            ScaleArg::Int(_) => {},
        }
        match self.resolve_scale(written) {
            Some(Scale::Const(scale)) => Some(scale),
            _ => None,
        }
    }

    fn resolve_scale(&mut self, written: &ScaleArg) -> (r: Option<Scale>)
        ensures
            ({
                let (errs, scale) = crate::hir::rules::types::resolve_scale(
                    old(self)@.errs,
                    written@,
                    seq![],
                );
                final(self)@ == (crate::hir::rules::Cx { errs, ..old(self)@ }) && r == scale
            }),
    {
        proof {
            reveal(Lowering::view);
        }
        let none: Vec<GenericDef> = Vec::new();
        proof {
            assert(generics_view(none@) =~= seq![]);
        }
        resolve_scale(&mut self.table.errs, written, &none)
    }

    /// A place of this function as the callee can name it.
    pub(super) fn lend(&self, env: &Frame, place: Place) -> (r: Place)
        ensures
            r@ == rules::lend(env@, self@, place@),
    {
        proof {
            place.unfold();
        }
        let mut lent = place;
        let id = match &lent.root {
            Root::Local(id) => Some(*id),
            _ => None,
        };
        match id {
            Some(id) => {
                lent.root = Root::Lent {
                    owner: env.function.clone(),
                    local: self.local_name(id),
                    storage: self.local_type(id).is_storage(),
                };
            },
            None => {},
        }
        proof {
            lent.unfold();
        }
        lent
    }

    /// The place of a binding: the caller's, where it names that.
    pub(super) fn binding_place(&self, local: LocalId, name: &str) -> (r: Place)
        ensures
            r@ == rules::binding_place(self@, local, name@),
    {
        match self.alias_of(local) {
            Some(place) => place.copy(),
            None => {
                let ty = self.local_type(local);
                let r = Place {
                    root: Root::Local(local),
                    steps: Vec::new(),
                    ty,
                    tag: NbtTag::default_for(ty),
                    mutable: self.local_mutable(local),
                    via: own(name),
                };
                proof {
                    r.unfold();
                    assert(r@.steps =~= seq![]);
                }
                r
            },
        }
    }

    /// The fields of a struct, and its name.
    pub(super) fn struct_parts(&self, id: StructId) -> (r: Option<
        (Vec<Field>, String),
    >)
        ensures
            match r {
                Some((fields, name)) => ({
                    let def = crate::hir::types::struct_of(self@.types, id);
                    def is Some && fields_view(fields@) == def->0.fields && name@ == def->0.name
                }),
                None => crate::hir::types::struct_of(self@.types, id) is None,
            },
    {
        match self.types().find_struct(id) {
            Some(def) => Some((copy_fields(&def.fields), def.name.clone())),
            None => None,
        }
    }

    /// The field of a place.
    pub(super) fn place_field(&mut self, base: Place, base_span: Span, name: &Ident, span: Span) -> (r:
        Option<Place>)
        ensures
            (final(self)@, place_opt_view(r)) == rules::place_field(
                old(self)@,
                base@,
                base_span,
                name@,
                span,
            ),
    {
        proof {
            reveal(rules::place_field);
            base.unfold();
        }
        if !base.is_static() {
            self.error(
                span,
                "an index that is only known at runtime has to be the last step; read the element into a binding first",
            );
            return None;
        }
        if matches!(base.ty, Type::Enum(_)) {
            let message = cat3(
                "'",
                self.name(base.ty).as_str(),
                "' is an enum, so which fields it has depends on its variant; read it with 'match'",
            );
            self.fault(base_span, message);
            return None;
        }
        let def = match base.ty {
            Type::Struct(id) => self.struct_parts(id),
            Type::View(id) => self.struct_parts(id),
            _ => None,
        };
        match def {
            None => {
                let message = cat2(
                    self.name(base.ty).as_str(),
                    " has no fields; only a struct or a view does",
                );
                self.fault(base_span, message);
                None
            },
            Some((fields, owner)) => {
                let i: usize = find_field(&fields, name.name.as_str());
                if i < fields.len() {
                    let step = Step::Field(fields[i].nbt.clone());
                    proof {
                        step.unfold();
                    }
                    Some(base.step(step, fields[i].ty, fields[i].tag))
                } else {
                    self.fault(
                        name.span,
                        cat5(
                            "'",
                            owner.as_str(),
                            "' has no field named '",
                            name.name.as_str(),
                            "'",
                        ),
                    );
                    None
                }
            },
        }
    }

    /// Whether a place can be indexed.
    pub(super) fn index_fault(&mut self, base: &Place, base_span: Span, span: Span) -> (r: bool)
        ensures
            (final(self)@, r) == rules::index_fault(old(self)@, base@, base_span, span),
    {
        proof {
            reveal(rules::index_fault);
            base.unfold();
        }
        if !matches!(base.ty, Type::Vec(_)) {
            let message = cat2(self.name(base.ty).as_str(), " cannot be indexed; only a Vec can");
            self.fault(base_span, message);
            false
        } else if !base.is_static() {
            self.error(
                span,
                "an index that is only known at runtime has to be the last step; read the element into a binding first",
            );
            false
        } else {
            true
        }
    }

    /// The element of a place.
    pub(super) fn place_element(&mut self, base: Place, index: Expr) -> (r: Option<Place>)
        ensures
            (final(self)@, place_opt_view(r)) == rules::place_element(
                old(self)@,
                base@,
                index@,
            ),
    {
        proof {
            reveal(rules::place_element);
            base.unfold();
            index.unfold();
        }
        if index.ty != Type::I32 {
            let message = cat2("an index has to be i32, found ", self.name(index.ty).as_str());
            self.fault(index.span, message);
            return None;
        }
        let ty = match base.ty {
            Type::Vec(id) => self.types().element_at(id),
            _ => Type::I32,
        };
        let known: Option<i32> = match &index.kind {
            ExprKind::Int(n) => Some(*n),
            _ => None,
        };
        let step = match known {
            Some(n) => Step::Index(n),
            None => Step::At(Box::new(index)),
        };
        proof {
            step.unfold();
        }
        Some(base.step(step, ty, NbtTag::default_for(ty)))
    }

    // Conversions and methods.

    /// `x.as_f64()` and `d.as_i32()`: the two directions of the score/storage round trip.
    pub(super) fn convert(
        &mut self,
        place: Place,
        target: Type,
        name: &str,
        given: usize,
        span: Span,
    ) -> (r: Option<Expr>)
        ensures
            (final(self)@, expr_opt_view(r)) == rules::convert(
                old(self)@,
                place@,
                target,
                name@,
                given as nat,
                span,
            ),
    {
        proof {
            reveal(rules::convert);
            place.unfold();
        }
        let from = place.ty;
        if given > 0 {
            self.fault(span, cat3("'", name, "' takes no arguments"));
            return None;
        }
        if from.is_nbt_scalar() && target == Type::I32 {
            return Some(Expr::of(ExprKind::ReadScaled { place, scale: 1 }, target, span));
        }
        let scale: Option<u32> = match from {
            Type::Fix(Scale::Const(scale)) => {
                if target == Type::F32 || target == Type::F64 {
                    Some(scale)
                } else {
                    None
                }
            },
            Type::I32 => {
                if target.is_nbt_scalar() {
                    Some(1)
                } else {
                    None
                }
            },
            _ => None,
        };
        match scale {
            Some(scale) => {
                let read = Expr::of(ExprKind::Field(place), from, span);
                Some(Expr::of(ExprKind::AsNbt { value: Box::new(read), scale }, target, span))
            },
            None => {
                let message = cat5(
                    "there is no conversion from ",
                    self.name(from).as_str(),
                    " to ",
                    self.name(target).as_str(),
                    "; NBT numbers                              go through i32, and a fix only through f32 or f64",
                );
                self.fault(span, message);
                None
            },
        }
    }

    /// The methods a `String` has: only the ones vanilla can do.
    pub(super) fn string_method(
        &mut self,
        place: Place,
        name: &Ident,
        args: &Vec<Written>,
        span: Span,
    ) -> (r: Option<Expr>)
        ensures
            (final(self)@, expr_opt_view(r)) == rules::string_method(
                old(self)@,
                place@,
                name@,
                written_exprs(args@),
                span,
            ),
    {
        proof {
            reveal(rules::string_method);
        }
        if same(name.name.as_str(), "len") {
            if args.len() > 0 {
                self.error(span, "'len' takes no arguments");
                return None;
            }
            return Some(Expr::of(ExprKind::Len(place), Type::I32, span));
        }
        if same(name.name.as_str(), "slice") {
            if args.len() == 1 {
                proof {
                    assert(written_exprs(args@)[0] == args@[0]@);
                    args@[0].unfold();
                }
                match &args[0] {
                    Written::Range(range) => {
                        match slice_bound(&range.start) {
                            Ok(start) => match slice_bound(&range.end) {
                                Ok(end) => {
                                    return Some(
                                        Expr::of(
                                            ExprKind::Slice { place, start, end },
                                            Type::Str,
                                            span,
                                        ),
                                    );
                                },
                                Err(at) => {
                                    self.error(
                                        at,
                                        "a slice's bounds have to be known while compiling",
                                    );
                                    return None;
                                },
                            },
                            Err(at) => {
                                self.error(
                                    at,
                                    "a slice's bounds have to be known while compiling",
                                );
                                return None;
                            },
                        }
                    },
                    _ => {},
                }
            }
            self.error(span, "'slice' takes one range, as in 's.slice(1..3)'");
            return None;
        }
        self.fault(
            name.span,
            cat3(
                "'String' has no method named '",
                name.name.as_str(),
                "'; vanilla can measure, slice and compare a string, and nothing else",
            ),
        );
        None
    }

    /// Complains when a context is missing.
    pub(super) fn require(&mut self, ctx: Ctx, span: Span, what: &str)
        ensures
            final(self)@ == rules::require(old(self)@, ctx, span, what@),
    {
        if !self.has_ctx(ctx) {
            self.fault(
                span,
                cat6(
                    what,
                    " needs an ",
                    ctx.name(),
                    " context here; wrap it in an 'as' block, or declare #[ctx(",
                    ctx.name(),
                    ")] on this function",
                ),
            );
        }
    }
}

/// A bound of a slice: absent, a number, or the span of something that is neither.
fn slice_bound(bound: &Option<Box<Written>>) -> (r: Result<Option<i32>, Span>)
    ensures
        r == rules::slice_bound(
            match bound {
                Some(e) => Some(Box::new(e@)),
                None => None,
            },
        ),
{
    match bound {
        None => Ok(None),
        Some(e) => {
            proof {
                e.unfold();
            }
            match &**e {
                Written::Int(n) => Ok(Some(n.value)),
                _ => Err(e.span()),
            }
        },
    }
}

} // verus!
