//! What holds of the table of types of every program.

use vstd::prelude::*;

use crate::hir::model::{Field, Generic, Place, Types, Variant};
use crate::hir::rules::growth::{check_growth, flows, is_endless, Flow};
use crate::hir::rules::laws::stmts::{attrs_of_keeps, block_keeps};
use crate::hir::rules::laws::table::{
    extends, extends_facts, fitting, leads, lemma_filling_keeps_order,
    lemma_names_lead_to_definitions, lemma_tidy_stays, substituted_extends, tidy,
};
use crate::hir::rules::laws::types::resolve_written_grows;
use crate::hir::rules::program::{
    add_sig, add_sigs, check_attrs, declare_params, fresh, functions_of, instance_params,
    lower_concrete, lower_function, lower_instance, lower_pending, lowered, param_names, param_sig,
    param_sigs, provided_by, receiver_sig, return_sig, Sigs, WrittenFn,
};
use crate::hir::rules::stmts::attrs_of;
use crate::hir::rules::types::{
    check_enums, check_structs, collect_enums, collect_field, collect_fields, collect_name,
    collect_names, collect_structs, collect_templates, collect_types, collect_variants,
    contains_itself, endless, entity_attrs, enum_span, generic_defs, has_attr, reject_attrs,
    resolve_written, shells, struct_span, with_fields, with_template_fields, with_templates,
    with_variants, Names, Table,
};
use crate::hir::rules::{Cx, Env, Pending};
use crate::hir::types::{empty_types, filled, lookup, name_of, substituted, ROOM};
use crate::hir::{EnumId, FnId, LocalId, ParamSig, StructId, Type};
use crate::schema::Command;
use crate::syntax::model::{FieldDef, Item, ItemKind, Param, VariantDef};

verus! {

// The names.

proof fn lemma_lookup<T>(entries: Seq<(Seq<char>, T)>, name: Seq<char>)
    ensures
        match lookup(entries, name) {
            Some(v) => exists|e: int| 0 <= e < entries.len() && #[trigger] entries[e] == (name, v),
            None => forall|e: int| 0 <= e < entries.len() ==> (#[trigger] entries[e]).0 != name,
        },
    decreases entries.len(),
{
    if entries.len() > 0 && entries.last().0 != name {
        let rest = entries.drop_last();
        lemma_lookup(rest, name);
        match lookup(rest, name) {
            Some(v) => {
                let e = choose|e: int| 0 <= e < rest.len() && #[trigger] rest[e] == (name, v);
                assert(entries[e] == (name, v));
            },
            None => {
                assert forall|e: int| 0 <= e < entries.len() implies (#[trigger] entries[e]).0
                    != name by {
                    if e < rest.len() {
                        assert(rest[e].0 != name);
                    }
                }
            },
        }
    } else if entries.len() > 0 {
        assert(entries[entries.len() - 1] == (name, entries.last().1));
    }
}

pub open spec fn is_struct_named(item: Item, name: Seq<char>) -> bool {
    match item.kind {
        ItemKind::Struct(declared) => declared.name.name == name,
        _ => false,
    }
}

pub open spec fn is_enum_named(item: Item, name: Seq<char>) -> bool {
    match item.kind {
        ItemKind::Enum(declared) => declared.name.name == name,
        _ => false,
    }
}

/// Whether a name stands for the item that declares it.
pub open spec fn stands_for(n: Names, name: Seq<char>, ty: Type) -> bool {
    match ty {
        Type::Struct(id) => exists|k: int|
            0 <= k < n.structs.len() && id == StructId(k as u32) && is_struct_named(
                #[trigger] n.structs[k],
                name,
            ),
        Type::View(id) => exists|k: int|
            0 <= k < n.structs.len() && id == StructId(k as u32) && is_struct_named(
                #[trigger] n.structs[k],
                name,
            ),
        Type::Enum(id) => exists|k: int|
            0 <= k < n.enums.len() && id == EnumId(k as u32) && is_enum_named(
                #[trigger] n.enums[k],
                name,
            ),
        _ => false,
    }
}

/// Whether every name stands for the item that declares it, and every template has its own.
pub open spec fn well_named(n: Names) -> bool {
    let types = n.t.types;
    &&& types.vecs.len() == 0
    &&& types.options.len() == 0
    &&& forall|e: int|
        0 <= e < types.by_name.len() ==> stands_for(
            n,
            (#[trigger] types.by_name[e]).0,
            types.by_name[e].1,
        )
    &&& types.template_by_name.len() == n.templates.len()
    &&& forall|e: int|
        0 <= e < n.templates.len() ==> (#[trigger] types.template_by_name[e]).1 == e as usize
            && is_struct_named(n.templates[e], types.template_by_name[e].0)
    &&& forall|a: int, b: int|
        0 <= a < b < n.templates.len() ==> (#[trigger] types.template_by_name[a]).0 != (
        #[trigger] types.template_by_name[b]).0
}

/// A name goes on standing for its item while more are added.
proof fn lemma_still_stands(a: Names, b: Names, name: Seq<char>, ty: Type)
    requires
        stands_for(a, name, ty),
        a.structs.len() <= b.structs.len(),
        forall|k: int| 0 <= k < a.structs.len() ==> #[trigger] b.structs[k] == a.structs[k],
        a.enums.len() <= b.enums.len(),
        forall|k: int| 0 <= k < a.enums.len() ==> #[trigger] b.enums[k] == a.enums[k],
    ensures
        stands_for(b, name, ty),
{
    match ty {
        Type::Struct(id) => {
            let k = choose|k: int|
                0 <= k < a.structs.len() && id == StructId(k as u32) && is_struct_named(
                    #[trigger] a.structs[k],
                    name,
                );
            assert(b.structs[k] == a.structs[k]);
        },
        Type::View(id) => {
            let k = choose|k: int|
                0 <= k < a.structs.len() && id == StructId(k as u32) && is_struct_named(
                    #[trigger] a.structs[k],
                    name,
                );
            assert(b.structs[k] == a.structs[k]);
        },
        Type::Enum(id) => {
            let k = choose|k: int|
                0 <= k < a.enums.len() && id == EnumId(k as u32) && is_enum_named(
                    #[trigger] a.enums[k],
                    name,
                );
            assert(b.enums[k] == a.enums[k]);
        },
        _ => {},
    }
}

proof fn lemma_collecting_a_name(n: Names, item: Item)
    requires
        well_named(n),
    ensures
        well_named(collect_name(n, item)),
        collect_name(n, item).templates.len() <= n.templates.len() + 1,
{
    reveal(collect_name);
    let m = collect_name(n, item);
    let types = n.t.types;
    match item.kind {
        ItemKind::Struct(declared) => {
            let name = declared.name.name;
            if declared.generics.len() > 0 {
                lemma_lookup(types.template_by_name, name);
                assert forall|e: int| 0 <= e < m.t.types.by_name.len() implies stands_for(
                    m,
                    (#[trigger] m.t.types.by_name[e]).0,
                    m.t.types.by_name[e].1,
                ) by {
                    lemma_still_stands(n, m, types.by_name[e].0, types.by_name[e].1);
                }
            } else {
                assert(m.structs[n.structs.len() as int] == item);
                assert forall|e: int| 0 <= e < m.t.types.by_name.len() implies stands_for(
                    m,
                    (#[trigger] m.t.types.by_name[e]).0,
                    m.t.types.by_name[e].1,
                ) by {
                    if e < types.by_name.len() {
                        lemma_still_stands(n, m, types.by_name[e].0, types.by_name[e].1);
                    } else {
                        assert(is_struct_named(m.structs[n.structs.len() as int], name));
                    }
                }
            }
        },
        ItemKind::Enum(declared) => {
            let name = declared.name.name;
            assert(m.enums[n.enums.len() as int] == item);
            assert forall|e: int| 0 <= e < m.t.types.by_name.len() implies stands_for(
                m,
                (#[trigger] m.t.types.by_name[e]).0,
                m.t.types.by_name[e].1,
            ) by {
                if e < types.by_name.len() {
                    lemma_still_stands(n, m, types.by_name[e].0, types.by_name[e].1);
                } else {
                    assert(is_enum_named(m.enums[n.enums.len() as int], name));
                }
            }
        },
        _ => {},
    }
}

proof fn lemma_collecting_names(n: Names, items: Seq<Item>, i: int)
    requires
        well_named(n),
        0 <= i <= items.len(),
        n.templates.len() <= i,
    ensures
        well_named(collect_names(n, items, i)),
        collect_names(n, items, i).templates.len() <= items.len(),
    decreases items.len() - i,
{
    reveal(collect_names);
    if i < items.len() {
        lemma_collecting_a_name(n, items[i]);
        lemma_collecting_names(collect_name(n, items[i]), items, i + 1);
    }
}

proof fn lemma_shells_are_tidy(n: Names)
    requires
        well_named(n),
        n.templates.len() <= usize::MAX,
    ensures
        tidy(shells(n).types),
        fitting(shells(n).types),
{
    reveal(tidy);
    reveal(fitting);
    let t = shells(n).types;
    assert forall|name: Seq<char>| #[trigger] leads(t, name) by {
        lemma_lookup(t.by_name, name);
        match lookup(t.by_name, name) {
            Some(ty) => {
                let e = choose|e: int|
                    0 <= e < t.by_name.len() && #[trigger] t.by_name[e] == (name, ty);
                assert(stands_for(n, t.by_name[e].0, t.by_name[e].1));
                match ty {
                    Type::Struct(id) => {
                        let k = choose|k: int|
                            0 <= k < n.structs.len() && id == StructId(k as u32)
                                && is_struct_named(#[trigger] n.structs[k], name);
                        assert(t.structs[k].name == name);
                    },
                    Type::View(id) => {
                        let k = choose|k: int|
                            0 <= k < n.structs.len() && id == StructId(k as u32)
                                && is_struct_named(#[trigger] n.structs[k], name);
                        assert(t.structs[k].name == name);
                    },
                    Type::Enum(id) => {
                        let k = choose|k: int|
                            0 <= k < n.enums.len() && id == EnumId(k as u32) && is_enum_named(
                                #[trigger] n.enums[k],
                                name,
                            );
                        assert(t.enums[k].name == name);
                    },
                    _ => {},
                }
            },
            None => {},
        }
    }
    assert forall|p: int| 0 <= p < t.templates.len() implies lookup(
        t.template_by_name,
        (#[trigger] t.templates[p]).name,
    ) == Some(p as usize) && p as usize == p by {
        let name = t.templates[p].name;
        assert(t.template_by_name[p].1 == p as usize);
        assert(is_struct_named(n.templates[p], t.template_by_name[p].0));
        lemma_lookup(t.template_by_name, name);
        let found = lookup(t.template_by_name, name);
        assert(t.template_by_name[p].0 == name);
        let v = found->0;
        let e = choose|e: int|
            0 <= e < t.template_by_name.len() && #[trigger] t.template_by_name[e] == (name, v);
        if e < p {
            assert(t.template_by_name[e].0 != t.template_by_name[p].0);
        }
        if p < e {
            assert(t.template_by_name[p].0 != t.template_by_name[e].0);
        }
    }
    assert forall|name: Seq<char>|
        match #[trigger] lookup(t.template_by_name, name) {
            Some(p) => p < t.templates.len() ==> t.templates[p as int].name == name,
            None => true,
        } by {
        lemma_lookup(t.template_by_name, name);
        match lookup(t.template_by_name, name) {
            Some(p) => {
                let e = choose|e: int|
                    0 <= e < t.template_by_name.len() && #[trigger] t.template_by_name[e] == (
                        name,
                        p,
                    );
                assert(is_struct_named(n.templates[e], t.template_by_name[e].0));
                assert(p == e as usize);
            },
            None => {},
        }
    }
}

// The fields.

proof fn collect_field_extends(
    t: Table,
    field: FieldDef,
    generics: Seq<Generic>,
    before: Seq<Field>,
)
    ensures
        extends(t.types, collect_field(t, field, generics, before).0.types),
{
    extends_facts();
    reveal(collect_field);
    resolve_written_grows(t, field.ty, generics);
}

proof fn collect_fields_extends(
    t: Table,
    declared: Seq<FieldDef>,
    i: int,
    generics: Seq<Generic>,
    acc: Seq<Field>,
)
    ensures
        extends(t.types, collect_fields(t, declared, i, generics, acc).0.types),
    decreases declared.len() - i,
{
    extends_facts();
    reveal(collect_fields);
    if 0 <= i < declared.len() {
        collect_field_extends(t, declared[i], generics, acc);
        match collect_field(t, declared[i], generics, acc) {
            (t1, Some(field)) => collect_fields_extends(
                t1,
                declared,
                i + 1,
                generics,
                acc.push(field),
            ),
            (t1, None) => collect_fields_extends(t1, declared, i + 1, generics, acc),
        }
    }
}

proof fn collect_structs_tidy(t: Table, items: Seq<Item>, i: int)
    requires
        tidy(t.types),
    ensures
        tidy(collect_structs(t, items, i).types),
        fitting(t.types) ==> fitting(collect_structs(t, items, i).types),
    decreases items.len() - i,
{
    reveal(collect_structs);
    if 0 <= i < items.len() {
        match items[i].kind {
            ItemKind::Struct(declared) => {
                let errs = if has_attr(items[i].attrs, "entity"@, 0) {
                    entity_attrs(t.errs, items[i].attrs, 0)
                } else {
                    reject_attrs(t.errs, items[i].attrs, 0, "a struct"@)
                };
                let t0 = Table { errs, ..t };
                let (t1, fields) = collect_fields(t0, declared.fields, 0, seq![], seq![]);
                collect_fields_extends(t0, declared.fields, 0, seq![], seq![]);
                reveal(extends);
                lemma_tidy_stays(t1.types, with_fields(t1.types, i, fields));
                let t2 = Table { types: with_fields(t1.types, i, fields), ..t1 };
                collect_structs_tidy(t2, items, i + 1);
            },
            _ => collect_structs_tidy(t, items, i + 1),
        }
    }
}

proof fn collect_templates_extends(t: Table, items: Seq<Item>, i: int, acc: Seq<Seq<Field>>)
    ensures
        extends(t.types, collect_templates(t, items, i, acc).0.types),
    decreases items.len() - i,
{
    extends_facts();
    reveal(collect_templates);
    if 0 <= i < items.len() {
        match items[i].kind {
            ItemKind::Struct(declared) => {
                let errs = reject_attrs(t.errs, items[i].attrs, 0, "a struct"@);
                let generics = generic_defs(declared.generics);
                let t0 = Table { errs, ..t };
                let (t1, fields) = collect_fields(t0, declared.fields, 0, generics, seq![]);
                collect_fields_extends(t0, declared.fields, 0, generics, seq![]);
                collect_templates_extends(t1, items, i + 1, acc.push(fields));
            },
            _ => collect_templates_extends(t, items, i + 1, acc.push(seq![])),
        }
    }
}

proof fn with_templates_tidy(t: Types, fields: Seq<Seq<Field>>, i: int)
    requires
        tidy(t),
    ensures
        tidy(with_templates(t, fields, i)),
        fitting(t) ==> fitting(with_templates(t, fields, i)),
    decreases fields.len() - i,
{
    if 0 <= i < fields.len() {
        let t1 = with_template_fields(t, i, fields[i]);
        lemma_tidy_stays(t, t1);
        with_templates_tidy(t1, fields, i + 1);
    }
}

proof fn check_growth_tidy(t: Table, all: Seq<Flow>, p: int)
    requires
        tidy(t.types),
    ensures
        tidy(check_growth(t, all, p).types),
        fitting(t.types) ==> fitting(check_growth(t, all, p).types),
    decreases t.types.templates.len() - p,
{
    reveal(check_growth);
    if 0 <= p < t.types.templates.len() {
        if is_endless(all, p as usize) {
            let template = t.types.templates[p];
            let types = with_template_fields(t.types, p, seq![]);
            lemma_tidy_stays(t.types, types);
            let t1 = Table { types, ..t }.fault(
                template.span,
                "'"@ + template.name + "' never ends: each instance of it needs another"@,
            );
            check_growth_tidy(t1, all, p + 1);
        } else {
            check_growth_tidy(t, all, p + 1);
        }
    }
}

proof fn collect_variants_extends(
    t: Table,
    declared: Seq<VariantDef>,
    i: int,
    acc: Seq<Variant>,
)
    ensures
        extends(t.types, collect_variants(t, declared, i, acc).0.types),
    decreases declared.len() - i,
{
    extends_facts();
    reveal(collect_variants);
    if 0 <= i < declared.len() {
        let variant = declared[i];
        let (t1, fields) = collect_fields(t, variant.fields, 0, seq![], seq![]);
        collect_fields_extends(t, variant.fields, 0, seq![], seq![]);
        let clash = crate::hir::field_keyed(fields, "tag"@, 0);
        let t2 = if clash < fields.len() {
            t1.fault(
                variant.span,
                "'"@ + fields[clash].name + "' collides with the 'tag' the variant is stored under"@,
            )
        } else {
            t1
        };
        collect_variants_extends(
            t2,
            declared,
            i + 1,
            acc.push(Variant { name: variant.name.name, fields }),
        );
    }
}

proof fn collect_enums_tidy(t: Table, items: Seq<Item>, i: int)
    requires
        tidy(t.types),
    ensures
        tidy(collect_enums(t, items, i).types),
        fitting(t.types) ==> fitting(collect_enums(t, items, i).types),
    decreases items.len() - i,
{
    reveal(collect_enums);
    if 0 <= i < items.len() {
        match items[i].kind {
            ItemKind::Enum(declared) => {
                let errs = reject_attrs(t.errs, items[i].attrs, 0, "an enum"@);
                let t0 = Table { errs, ..t };
                let (t1, variants) = collect_variants(t0, declared.variants, 0, seq![]);
                collect_variants_extends(t0, declared.variants, 0, seq![]);
                reveal(extends);
                lemma_tidy_stays(t1.types, with_variants(t1.types, i, variants));
                let t2 = Table {
                    types: with_variants(t1.types, i, variants),
                    errs: crate::hir::rules::types::check_cases(t1.errs, declared.variants, 0),
                };
                collect_enums_tidy(t2, items, i + 1);
            },
            _ => collect_enums_tidy(t, items, i + 1),
        }
    }
}

proof fn check_structs_same(t: Table, i: int, count: int)
    ensures
        check_structs(t, i, count).types == t.types,
    decreases count - i,
{
    reveal(check_structs);
    if 0 <= i < count && i < t.types.structs.len() {
        let def = t.types.structs[i];
        let ty = Type::Struct(def.id);
        let t1 = if contains_itself(t.types, ty) {
            t.fault(struct_span(t.types, def.id), endless(name_of(t.types, ty)))
        } else {
            t
        };
        check_structs_same(t1, i + 1, count);
    }
}

proof fn check_enums_same(t: Table, i: int)
    ensures
        check_enums(t, i).types == t.types,
    decreases t.types.enums.len() - i,
{
    reveal(check_enums);
    if 0 <= i < t.types.enums.len() {
        let def = t.types.enums[i];
        let ty = Type::Enum(def.id);
        let t1 = if contains_itself(t.types, ty) {
            t.fault(enum_span(t.types, def.id), endless(name_of(t.types, ty)))
        } else {
            t
        };
        check_enums_same(t1, i + 1);
    }
}

/// The definitions of every file make a tidy table.
pub proof fn lemma_definitions_are_tidy(items: Seq<Item>)
    requires
        items.len() <= usize::MAX,
    ensures
        tidy(collect_types(items).types),
        fitting(collect_types(items).types),
{
    reveal(collect_types);
    let start = Names {
        t: Table { types: empty_types(), errs: seq![] },
        structs: seq![],
        enums: seq![],
        templates: seq![],
    };
    lemma_collecting_names(start, items, 0);
    let n = collect_names(start, items, 0);
    lemma_shells_are_tidy(n);
    let t0 = shells(n);
    collect_structs_tidy(t0, n.structs, 0);
    let t1 = collect_structs(t0, n.structs, 0);
    collect_templates_extends(t1, n.templates, 0, seq![]);
    reveal(extends);
    let (t2, fields) = collect_templates(t1, n.templates, 0, seq![]);
    with_templates_tidy(t2.types, fields, 0);
    let t3 = Table { types: with_templates(t2.types, fields, 0), ..t2 };
    check_growth_tidy(t3, flows(t3.types, 0), 0);
    let t4 = check_growth(t3, flows(t3.types, 0), 0);
    let count = t4.types.structs.len();
    lemma_filling_keeps_order(t4.types, 0, count);
    let whole = filled(t4.types, 0, count);
    lemma_filling_keeps_order(whole, count as int, ROOM as nat);
    let t5 = Table { types: filled(whole, count as int, ROOM as nat), ..t4 };
    collect_enums_tidy(t5, n.enums, 0);
    let t6 = collect_enums(t5, n.enums, 0);
    check_structs_same(t6, 0, t6.types.structs.len() as int);
    let t7 = check_structs(t6, 0, t6.types.structs.len() as int);
    check_enums_same(t7, 0);
}

// The functions.

proof fn param_sig_extends(t: Table, param: Param, generics: Seq<Generic>)
    ensures
        extends(t.types, param_sig(t, param, generics).0.types),
{
    extends_facts();
    reveal(param_sig);
    resolve_written_grows(t, param.ty, generics);
    let (t1, first) = resolve_written(t, param.ty, generics);
    let t2 = if first is Some && first->0.compile_time() {
        t1.fault(
            param.ty.span,
            "a "@ + name_of(t1.types, first->0)
                + " exists only while compiling, so it cannot be passed; write it where it is used"@,
        )
    } else {
        t1
    };
    resolve_written_grows(t2, param.ty, generics);
}

proof fn param_sigs_extends(
    t: Table,
    params: Seq<Param>,
    i: int,
    generics: Seq<Generic>,
    acc: Seq<ParamSig>,
)
    ensures
        extends(t.types, param_sigs(t, params, i, generics, acc).0.types),
    decreases params.len() - i,
{
    extends_facts();
    reveal(param_sigs);
    if 0 <= i < params.len() {
        let (t1, one) = param_sig(t, params[i], generics);
        param_sig_extends(t, params[i], generics);
        param_sigs_extends(t1, params, i + 1, generics, acc.push(one));
    }
}

proof fn add_sig_extends(s: Sigs, w: WrittenFn)
    ensures
        extends(s.t.types, add_sig(s, w).t.types),
{
    extends_facts();
    reveal(add_sig);
    reveal(receiver_sig);
    reveal(return_sig);
    let generics = generic_defs(w.f.generics);
    let (t1, first) = receiver_sig(s.t, w);
    param_sigs_extends(t1, w.f.params, 0, generics, first);
    let (t2, params) = param_sigs(t1, w.f.params, 0, generics, first);
    match w.f.ret {
        Some(written) => resolve_written_grows(t2, written, generics),
        None => {},
    }
}

proof fn add_sigs_extends(s: Sigs, written: Seq<WrittenFn>, i: int)
    ensures
        extends(s.t.types, add_sigs(s, written, i).t.types),
    decreases written.len() - i,
{
    extends_facts();
    reveal(add_sigs);
    if 0 <= i < written.len() {
        add_sig_extends(s, written[i]);
        add_sigs_extends(add_sig(s, written[i]), written, i + 1);
    }
}

proof fn declare_params_same(
    cx: Cx,
    names: Seq<Seq<char>>,
    params: Seq<ParamSig>,
    borrows: Seq<Option<Place>>,
    i: int,
    acc: Seq<LocalId>,
)
    ensures
        declare_params(cx, names, params, borrows, i, acc).0.types == cx.types,
    decreases params.len() - i,
{
    reveal(declare_params);
    if 0 <= i < params.len() && i < names.len() {
        let local = cx.next_local();
        let cx1 = cx.declare(names[i], params[i].ty, false);
        match params[i].borrow {
            None => declare_params_same(cx1, names, params, borrows, i + 1, acc.push(local)),
            Some(borrow) => {
                let cx2 = if i < borrows.len() && borrows[i] is Some {
                    cx1.alias(
                        local,
                        Place {
                            mutable: borrow == crate::syntax::ast::Borrow::Mutable,
                            via: names[i],
                            ..borrows[i]->0
                        },
                    )
                } else {
                    cx1
                };
                declare_params_same(cx2, names, params, borrows, i + 1, acc);
            },
        }
    }
}

proof fn lower_function_extends(
    env: Env,
    cx: Cx,
    w: WrittenFn,
    id: FnId,
    params: Seq<ParamSig>,
    borrows: Seq<Option<Place>>,
)
    ensures
        extends(cx.types, lower_function(env, cx, w, id, params, borrows).0.types),
{
    extends_facts();
    reveal(lower_function);
    reveal(check_attrs);
    attrs_of_keeps(fresh(cx), w.item.attrs, 0, seq![]);
    let (cx1, attrs) = attrs_of(fresh(cx), w.item.attrs, 0, seq![]);
    let cx2 = Cx { provided: provided_by(attrs, attrs.len() as int), ..cx1 };
    let cx3 = check_attrs(cx2, w.f, attrs);
    declare_params_same(cx3, param_names(w.f), params, borrows, 0, seq![]);
    let (cx4, declared) = declare_params(cx3, param_names(w.f), params, borrows, 0, seq![]);
    block_keeps(env, cx4, w.f.body.stmts);
}

proof fn lower_concrete_extends(
    env: Env,
    cx: Cx,
    fns: Seq<WrittenFn>,
    i: int,
    acc: Seq<crate::hir::model::Function>,
)
    ensures
        extends(cx.types, lower_concrete(env, cx, fns, i, acc).0.types),
    decreases env.sigs.len() - i,
{
    extends_facts();
    reveal(lower_concrete);
    if 0 <= i < env.sigs.len() && i < fns.len() {
        match env.sigs[i].id {
            None => lower_concrete_extends(env, cx, fns, i + 1, acc),
            Some(id) => {
                let one = Env {
                    function: crate::hir::rules::values::path_of(env.sigs[i].name),
                    type_params: seq![],
                    ret: env.sigs[i].ret,
                    ..env
                };
                lower_function_extends(one, cx, fns[i], id, env.sigs[i].params, seq![]);
                let (cx1, f) = lower_function(one, cx, fns[i], id, env.sigs[i].params, seq![]);
                lower_concrete_extends(env, cx1, fns, i + 1, acc.push(f));
            },
        }
    }
}

proof fn instance_params_extends(
    t: Types,
    params: Seq<ParamSig>,
    i: int,
    args: Seq<Type>,
    acc: Seq<ParamSig>,
)
    ensures
        extends(t, instance_params(t, params, i, args, acc).0),
    decreases params.len() - i,
{
    extends_facts();
    reveal(instance_params);
    if 0 <= i < params.len() {
        let (t1, ty) = substituted(t, params[i].ty, args);
        substituted_extends(t, params[i].ty, args);
        instance_params_extends(t1, params, i + 1, args, acc.push(ParamSig { ty, ..params[i] }));
    }
}

proof fn lower_instance_extends(env: Env, cx: Cx, fns: Seq<WrittenFn>, p: Pending)
    ensures
        extends(cx.types, lower_instance(env, cx, fns, p).0.types),
{
    extends_facts();
    reveal(lower_instance);
    if p.item < env.sigs.len() && p.item < fns.len() {
        let sig = env.sigs[p.item as int];
        let (t1, params) = instance_params(cx.types, sig.params, 0, p.args, seq![]);
        instance_params_extends(cx.types, sig.params, 0, p.args, seq![]);
        let (t2, ret) = match sig.ret {
            Some(ty) => {
                let (t2, ty) = substituted(t1, ty, p.args);
                (t2, Some(ty))
            },
            None => (t1, None),
        };
        match sig.ret {
            Some(ty) => substituted_extends(t1, ty, p.args),
            None => {},
        }
        let one = Env {
            function: p.name,
            type_params: crate::hir::rules::program::bound_generics(sig.generics, p.args),
            ret,
            ..env
        };
        lower_function_extends(
            one,
            Cx { types: t2, ..cx },
            fns[p.item as int],
            p.id,
            params,
            p.borrows,
        );
    }
}

proof fn lower_pending_extends(
    env: Env,
    cx: Cx,
    fns: Seq<WrittenFn>,
    at: int,
    acc: Seq<crate::hir::model::Function>,
)
    ensures
        extends(cx.types, lower_pending(env, cx, fns, at, acc).0.types),
    decreases u32::MAX - at,
{
    extends_facts();
    reveal(lower_pending);
    if 0 <= at < cx.pending.len() && at < u32::MAX {
        lower_instance_extends(env, cx, fns, cx.pending[at]);
        match lower_instance(env, cx, fns, cx.pending[at]) {
            (cx1, Some(f)) => lower_pending_extends(env, cx1, fns, at + 1, acc.push(f)),
            (cx1, None) => lower_pending_extends(env, cx1, fns, at + 1, acc),
        }
    }
}

/// The types of every program make a tidy table: each list, option and instance is there
/// once, and names lead to what they name. Its instances have as many arguments as their
/// templates take.
pub proof fn lemma_every_table_is_tidy(
    items: Seq<Item>,
    namespace: Seq<char>,
    toolchain: Option<Seq<Command>>,
)
    requires
        items.len() <= usize::MAX,
    ensures
        tidy(lowered(items, namespace, toolchain).0.types),
        fitting(lowered(items, namespace, toolchain).0.types),
{
    extends_facts();
    reveal(lowered);
    lemma_definitions_are_tidy(items);
    let t = collect_types(items);
    let (errs, written) = functions_of(t.errs, items, 0, seq![]);
    let first = Sigs { t: Table { errs, ..t }, sigs: seq![], fns: seq![], concrete: 0 };
    add_sigs_extends(first, written, 0);
    let s = add_sigs(first, written, 0);
    let env = Env {
        namespace,
        function: seq![],
        type_params: seq![],
        ret: None,
        sigs: s.sigs,
        toolchain,
        concrete: s.concrete as u32,
    };
    let cx = fresh(
        Cx {
            types: s.t.types,
            pending: seq![],
            refs: seq![],
            errs: s.t.errs,
            locals: seq![],
            aliases: seq![],
            selectors: seq![],
            scopes: seq![],
            expected: None,
            provided: seq![],
            in_loop: false,
        },
    );
    lower_concrete_extends(env, cx, s.fns, 0, seq![]);
    let (cx1, some) = lower_concrete(env, cx, s.fns, 0, seq![]);
    lower_pending_extends(env, cx1, s.fns, 0, some);
    reveal(extends);
}

/// A name of a program's types leads to a definition that has that name and that id, and to
/// nothing else.
pub proof fn lemma_types_answer_to_their_names(
    items: Seq<Item>,
    namespace: Seq<char>,
    toolchain: Option<Seq<Command>>,
    name: Seq<char>,
)
    requires
        items.len() <= usize::MAX,
        lowered(items, namespace, toolchain).0.types.structs.len() <= u32::MAX,
        lowered(items, namespace, toolchain).0.types.enums.len() <= u32::MAX,
    ensures
        ({
            let t = lowered(items, namespace, toolchain).0.types;
            match lookup(t.by_name, name) {
                Some(Type::Struct(id)) => id.0 < t.structs.len() && t.structs[id.0 as int].name
                    == name && t.structs[id.0 as int].id == id,
                Some(Type::View(id)) => id.0 < t.structs.len() && t.structs[id.0 as int].name
                    == name && t.structs[id.0 as int].id == id,
                Some(Type::Enum(id)) => id.0 < t.enums.len() && t.enums[id.0 as int].name == name
                    && t.enums[id.0 as int].id == id,
                Some(_) => false,
                None => true,
            }
        }),
{
    lemma_every_table_is_tidy(items, namespace, toolchain);
    lemma_names_lead_to_definitions(lowered(items, namespace, toolchain).0.types, name);
}

} // verus!
