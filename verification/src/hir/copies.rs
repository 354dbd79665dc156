//! Copies of the parts of a program that can hold one another.

use vstd::prelude::*;

use crate::hir::{
    components_view, exprs_view, steps_view, Component, Expr, ExprKind, Place, Root,
    Step,
};

verus! {

impl Root {
    pub(crate) fn copy(&self) -> (r: Root)
        ensures
            r@ == self@,
    {
        match self {
            Root::Local(id) => Root::Local(*id),
            Root::Entity { selector } => Root::Entity { selector: selector.clone() },
            Root::Lent { owner, local, storage } => Root::Lent {
                owner: owner.clone(),
                local: local.clone(),
                storage: *storage,
            },
        }
    }
}

fn copy_components(v: &Vec<Component>) -> (r: Vec<Component>)
    ensures
        components_view(r@) == components_view(v@),
    decreases v, 0int,
{
    let mut out: Vec<Component> = Vec::new();
    let mut i: usize = 0;
    while i < v.len()
        invariant
            i <= v@.len(),
            out@.len() == i,
            forall|k: int| 0 <= k < i ==> (#[trigger] out@[k])@ == v@[k]@,
        decreases v.len() - i,
    {
        proof {
            assert(decreases_to!(v => v[i as int]));
        }
        out.push(v[i].copy());
        i += 1;
    }
    proof {
        assert(components_view(out@) =~= components_view(v@));
    }
    out
}

impl Component {
    pub(crate) fn copy(&self) -> (r: Component)
        ensures
            r@ == self@,
        decreases self, 0int,
    {
        let r = Component {
            members: self.members.copy(),
            extra: copy_components(&self.extra),
        };
        proof {
            self.unfold();
            r.unfold();
        }
        r
    }
}

fn copy_steps(v: &Vec<Step>) -> (r: Vec<Step>)
    ensures
        steps_view(r@) == steps_view(v@),
    decreases v, 0int,
{
    let mut out: Vec<Step> = Vec::new();
    let mut i: usize = 0;
    while i < v.len()
        invariant
            i <= v@.len(),
            out@.len() == i,
            forall|k: int| 0 <= k < i ==> (#[trigger] out@[k])@ == v@[k]@,
        decreases v.len() - i,
    {
        proof {
            assert(decreases_to!(v => v[i as int]));
        }
        out.push(v[i].copy());
        i += 1;
    }
    proof {
        assert(steps_view(out@) =~= steps_view(v@));
    }
    out
}

impl Step {
    fn copy(&self) -> (r: Step)
        ensures
            r@ == self@,
        decreases self, 0int,
    {
        let r = match self {
            Step::Field(name) => Step::Field(name.clone()),
            Step::Index(index) => Step::Index(*index),
            Step::At(index) => Step::At(Box::new(index.copy())),
        };
        proof {
            self.unfold();
            r.unfold();
        }
        r
    }
}

impl Place {
    pub(crate) fn copy(&self) -> (r: Place)
        ensures
            r@ == self@,
        decreases self, 0int,
    {
        let r = Place {
            root: self.root.copy(),
            steps: copy_steps(&self.steps),
            ty: self.ty,
            tag: self.tag,
            mutable: self.mutable,
            via: self.via.clone(),
        };
        proof {
            self.unfold();
            r.unfold();
        }
        r
    }
}

fn copy_exprs(v: &Vec<Expr>) -> (r: Vec<Expr>)
    ensures
        exprs_view(r@) == exprs_view(v@),
    decreases v, 0int,
{
    let mut out: Vec<Expr> = Vec::new();
    let mut i: usize = 0;
    while i < v.len()
        invariant
            i <= v@.len(),
            out@.len() == i,
            forall|k: int| 0 <= k < i ==> (#[trigger] out@[k])@ == v@[k]@,
        decreases v.len() - i,
    {
        proof {
            assert(decreases_to!(v => v[i as int]));
        }
        out.push(v[i].copy());
        i += 1;
    }
    proof {
        assert(exprs_view(out@) =~= exprs_view(v@));
    }
    out
}

impl Expr {
    pub(crate) fn copy(&self) -> (r: Expr)
        ensures
            r@ == self@,
        decreases self, 1int,
    {
        let r = Expr { kind: self.kind.copy(), ty: self.ty, span: self.span };
        proof {
            self.unfold();
            r.unfold();
        }
        r
    }
}

impl ExprKind {
    #[verifier::spinoff_prover]
    fn copy(&self) -> (r: ExprKind)
        ensures
            r@ == self@,
        decreases self, 0int,
    {
        let r = match self {
            ExprKind::Int(n) => ExprKind::Int(*n),
            ExprKind::Bool(b) => ExprKind::Bool(*b),
            ExprKind::Str(text) => ExprKind::Str(text.clone()),
            ExprKind::Local(local) => ExprKind::Local(*local),
            ExprKind::Unary(op, operand) => ExprKind::Unary(*op, Box::new(operand.copy())),
            ExprKind::Binary(op, lhs, rhs) => ExprKind::Binary(
                *op,
                Box::new(lhs.copy()),
                Box::new(rhs.copy()),
            ),
            ExprKind::Call { callee, args } => ExprKind::Call {
                callee: *callee,
                args: copy_exprs(args),
            },
            ExprKind::Selector(text) => ExprKind::Selector(text.clone()),
            ExprKind::Block { at, id } => ExprKind::Block { at: at.clone(), id: id.clone() },
            ExprKind::Component(component) => ExprKind::Component(component.copy()),
            ExprKind::Resource(text) => ExprKind::Resource(text.clone()),
            ExprKind::Pos(text) => ExprKind::Pos(text.clone()),
            ExprKind::Command(text) => ExprKind::Command(text.clone()),
            ExprKind::Struct { id, fields } => ExprKind::Struct {
                id: *id,
                fields: copy_exprs(fields),
            },
            ExprKind::Field(place) => ExprKind::Field(place.copy()),
            ExprKind::Enum { id, variant, fields } => ExprKind::Enum {
                id: *id,
                variant: *variant,
                fields: copy_exprs(fields),
            },
            ExprKind::List { elem, values } => ExprKind::List {
                elem: *elem,
                values: copy_exprs(values),
            },
            ExprKind::Len(place) => ExprKind::Len(place.copy()),
            ExprKind::ReadScaled { place, scale } => ExprKind::ReadScaled {
                place: place.copy(),
                scale: *scale,
            },
            ExprKind::AsNbt { value, scale } => ExprKind::AsNbt {
                value: Box::new(value.copy()),
                scale: *scale,
            },
            ExprKind::Present(value) => ExprKind::Present(Box::new(value.copy())),
            ExprKind::Absent => ExprKind::Absent,
            ExprKind::Try(value) => ExprKind::Try(Box::new(value.copy())),
            ExprKind::Expect { value, message } => ExprKind::Expect {
                value: Box::new(value.copy()),
                message: message.clone(),
            },
            ExprKind::View(place) => ExprKind::View(place.copy()),
            ExprKind::Nbt(text) => ExprKind::Nbt(text.clone()),
            ExprKind::Slice { place, start, end } => ExprKind::Slice {
                place: place.copy(),
                start: *start,
                end: *end,
            },
        };
        proof {
            self.unfold();
            r.unfold();
        }
        r
    }
}

} // verus!
