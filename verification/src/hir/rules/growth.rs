//! Templates of which there is always one more instance to make.
//!
//! The fields of a template hand its parameters on to other templates, and an argument can
//! be built around a parameter on the way. Where a parameter comes back to itself with
//! something built around it, each instance needs a larger one. Where none does, only so
//! many instances can follow from one.

use vstd::prelude::*;

use crate::hir::model::{Field, Types};
use crate::hir::rules::types::{with_template_fields, Table};
use crate::hir::types::{element_of, inner_of, struct_of, DEPTH};
use crate::hir::{Scale, Type};

verus! {

/// A parameter of a template.
#[derive(Debug, Clone, Copy, PartialEq, Eq, Structural)]
pub struct Parameter {
    pub template: usize,
    pub index: u32,
}

/// A parameter that is handed on to another, and whether something is built around it.
#[derive(Debug, Clone, Copy, PartialEq, Eq, Structural)]
pub struct Flow {
    pub from: Parameter,
    pub to: Parameter,
    pub grows: bool,
}

/// The parameters that occur in a type, by index.
pub open spec fn occurring(t: Types, ty: Type, depth: nat) -> Seq<u32>
    decreases depth, 0int,
{
    match ty {
        Type::Param(index) => seq![index],
        Type::Fix(Scale::Param(index)) => seq![index],
        Type::Vec(id) => if depth == 0 {
            seq![]
        } else {
            occurring(t, element_of(t, id), (depth - 1) as nat)
        },
        Type::Option(id) => if depth == 0 {
            seq![]
        } else {
            occurring(t, inner_of(t, id), (depth - 1) as nat)
        },
        Type::Struct(id) => match struct_of(t, id) {
            Some(def) => match def.from {
                Some((_, args)) => if depth == 0 {
                    seq![]
                } else {
                    all_occurring(t, args, 0, (depth - 1) as nat)
                },
                None => seq![],
            },
            None => seq![],
        },
        _ => seq![],
    }
}

pub open spec fn all_occurring(t: Types, types: Seq<Type>, i: int, depth: nat) -> Seq<u32>
    decreases depth, types.len() - i + 1,
{
    if i < 0 || i >= types.len() {
        seq![]
    } else {
        occurring(t, types[i], depth) + all_occurring(t, types, i + 1, depth)
    }
}

/// Whether a type is a parameter with nothing around it. The scale of a `fix` travels as
/// the `fix` itself.
pub open spec fn is_bare(ty: Type) -> bool {
    match ty {
        Type::Param(_) => true,
        Type::Fix(Scale::Param(_)) => true,
        _ => false,
    }
}

/// Each of the parameters `occurs` of template `p`, handed on to `to`.
pub open spec fn flows_to(p: usize, occurs: Seq<u32>, to: Parameter, grows: bool) -> Seq<Flow> {
    Seq::new(
        occurs.len(),
        |i: int| Flow { from: Parameter { template: p, index: occurs[i] }, to, grows },
    )
}

/// Where the instances in a type of a field of template `p` hand its parameters.
pub open spec fn type_flows(t: Types, p: usize, ty: Type, depth: nat) -> Seq<Flow>
    decreases depth, 0int,
{
    match ty {
        Type::Vec(id) => if depth == 0 {
            seq![]
        } else {
            type_flows(t, p, element_of(t, id), (depth - 1) as nat)
        },
        Type::Option(id) => if depth == 0 {
            seq![]
        } else {
            type_flows(t, p, inner_of(t, id), (depth - 1) as nat)
        },
        Type::Struct(id) => match struct_of(t, id) {
            Some(def) => match def.from {
                Some((q, args)) => if depth == 0 {
                    seq![]
                } else {
                    args_flows(t, p, q, args, 0, (depth - 1) as nat)
                },
                None => seq![],
            },
            None => seq![],
        },
        _ => seq![],
    }
}

pub open spec fn args_flows(
    t: Types,
    p: usize,
    q: usize,
    args: Seq<Type>,
    i: int,
    depth: nat,
) -> Seq<Flow>
    decreases depth, args.len() - i + 1,
{
    if i < 0 || i >= args.len() {
        seq![]
    } else {
        flows_to(
            p,
            occurring(t, args[i], depth),
            Parameter { template: q, index: i as u32 },
            !is_bare(args[i]),
        ) + type_flows(t, p, args[i], depth) + args_flows(t, p, q, args, i + 1, depth)
    }
}

pub open spec fn fields_flows(t: Types, p: usize, fields: Seq<Field>, i: int) -> Seq<Flow>
    decreases fields.len() - i,
{
    if i < 0 || i >= fields.len() {
        seq![]
    } else {
        type_flows(t, p, fields[i].ty, DEPTH as nat) + fields_flows(t, p, fields, i + 1)
    }
}

/// Where the templates from the `p`th on hand their parameters.
#[verifier::opaque]
pub open spec fn flows(t: Types, p: int) -> Seq<Flow>
    decreases t.templates.len() - p,
{
    if p < 0 || p >= t.templates.len() {
        seq![]
    } else {
        fields_flows(t, p as usize, t.templates[p].fields, 0) + flows(t, p + 1)
    }
}

/// Whether flow `b` hands on what flow `a` was handed to.
pub open spec fn joins(all: Seq<Flow>, a: int, b: int) -> bool {
    0 <= a < all.len() && 0 <= b < all.len() && all[a].to == all[b].from
}

pub open spec fn is_route(all: Seq<Flow>, route: Seq<int>) -> bool {
    forall|i: int| 0 <= i < route.len() - 1 ==> joins(all, route[i], #[trigger] route[i + 1])
}

/// Whether what goes through flow `a` can go through flow `b` later.
pub open spec fn comes_to(all: Seq<Flow>, a: int, b: int) -> bool {
    exists|route: Seq<int>|
        route.len() >= 2 && route[0] == a && route.last() == b && #[trigger] is_route(all, route)
}

/// Whether a parameter of the template comes back to itself with something built around it:
/// it is on a round that has a flow that grows.
pub open spec fn is_endless(all: Seq<Flow>, p: usize) -> bool {
    exists|a: int, b: int|
        0 <= a < all.len() && 0 <= b < all.len() && (#[trigger] all[a]).grows && (
        #[trigger] all[b]).from.template == p && comes_to(all, a, b) && comes_to(all, b, a)
}

/// The templates from the `p`th on checked. One of which there is always one more instance
/// to make is reported, and has no fields that could ask for it.
#[verifier::opaque]
pub open spec fn check_growth(t: Table, all: Seq<Flow>, p: int) -> Table
    decreases t.types.templates.len() - p,
{
    if p < 0 || p >= t.types.templates.len() {
        t
    } else if is_endless(all, p as usize) {
        let template = t.types.templates[p];
        let t1 = Table { types: with_template_fields(t.types, p, seq![]), ..t };
        check_growth(
            t1.fault(
                template.span,
                "'"@ + template.name + "' never ends: each instance of it needs another"@,
            ),
            all,
            p + 1,
        )
    } else {
        check_growth(t, all, p + 1)
    }
}

} // verus!
