//! What holds of the table of types, and of the instances made from templates.

use vstd::prelude::*;

use crate::hir::model::{Field, Place, StructDef, Types};
use crate::hir::rules::values::{instance_of, lent_keys, pending_at};
use crate::hir::rules::{Cx, Env, Pending};
use crate::hir::types::{
    any_mentions, element_of, empty_types, filled, filled_at, inner_of, instance_at,
    instance_fields, instantiated, interned, lookup, mentions_within, option_type, position,
    replaced, replaced_all, reserved, struct_of, substituted, template_of, unified, unified_all,
    vec_type, DEPTH, ROOM,
};
use crate::hir::{default_tag, EnumId, OptionId, Scale, StructId, Type, VecId};
use crate::syntax::laws::{grows, grows_facts_for};
use crate::syntax::lexer::Span;

verus! {

proof fn lemma_position(types: Seq<Type>, ty: Type, i: int)
    requires
        0 <= i <= types.len(),
    ensures
        i <= position(types, ty, i) <= types.len(),
        position(types, ty, i) < types.len() ==> types[position(types, ty, i)] == ty,
        forall|k: int| i <= k < position(types, ty, i) ==> types[k] != ty,
    decreases types.len() - i,
{
    if i < types.len() && types[i] != ty {
        lemma_position(types, ty, i + 1);
    }
}

proof fn lemma_interned(types: Seq<Type>, ty: Type)
    ensures
        interned(types, ty)[position(types, ty, 0)] == ty,
        position(types, ty, 0) < interned(types, ty).len(),
        position(interned(types, ty), ty, 0) == position(types, ty, 0),
        grows(types, interned(types, ty)),
        types.no_duplicates() ==> interned(types, ty).no_duplicates(),
{
    reveal(grows);
    lemma_position(types, ty, 0);
    lemma_position(interned(types, ty), ty, 0);
    let at = position(types, ty, 0);
    let all = interned(types, ty);
    assert(all.take(types.len() as int) =~= types);
    let again = position(all, ty, 0);
    if again < at {
        assert(all[again] == types[again]);
    }
}

/// A list type holds what it was made for, and made again it is the same type.
pub proof fn lemma_list_types_are_made_once(t: Types, elem: Type)
    requires
        t.vecs.len() <= u32::MAX,
    ensures
        ({
            let (t1, ty) = vec_type(t, elem);
            &&& ty is Vec
            &&& element_of(t1, ty->Vec_0) == elem
            &&& vec_type(t1, elem) == (t1, ty)
        }),
{
    lemma_interned(t.vecs, elem);
    lemma_position(t.vecs, elem, 0);
}

/// Lists of different things are different types.
pub proof fn lemma_list_types_differ(t: Types, a: Type, b: Type)
    requires
        t.vecs.len() < u32::MAX,
    ensures
        vec_type(t, a).1 == vec_type(vec_type(t, a).0, b).1 <==> a == b,
{
    let t1 = vec_type(t, a).0;
    lemma_list_types_are_made_once(t, a);
    lemma_list_types_are_made_once(t1, b);
    lemma_interned(t.vecs, a);
    lemma_interned(t1.vecs, b);
    lemma_position(t.vecs, a, 0);
    reveal(grows);
    let id = vec_type(t, a).1->Vec_0;
    let t2 = vec_type(t1, b).0;
    assert(t2.vecs.take(t1.vecs.len() as int)[id.0 as int] == t1.vecs[id.0 as int]);
}

/// An option holds what it was made for, and made again it is the same type.
pub proof fn lemma_option_types_are_made_once(t: Types, inner: Type)
    requires
        t.options.len() <= u32::MAX,
    ensures
        ({
            let (t1, ty) = option_type(t, inner);
            &&& ty is Option
            &&& inner_of(t1, ty->Option_0) == inner
            &&& option_type(t1, inner) == (t1, ty)
        }),
{
    lemma_interned(t.options, inner);
    lemma_position(t.options, inner, 0);
}

/// Options of different things are different types.
pub proof fn lemma_option_types_differ(t: Types, a: Type, b: Type)
    requires
        t.options.len() < u32::MAX,
    ensures
        option_type(t, a).1 == option_type(option_type(t, a).0, b).1 <==> a == b,
{
    let t1 = option_type(t, a).0;
    lemma_option_types_are_made_once(t, a);
    lemma_option_types_are_made_once(t1, b);
    lemma_interned(t.options, a);
    lemma_interned(t1.options, b);
    lemma_position(t.options, a, 0);
    reveal(grows);
    let id = option_type(t, a).1->Option_0;
    let t2 = option_type(t1, b).0;
    assert(t2.options.take(t1.options.len() as int)[id.0 as int] == t1.options[id.0 as int]);
}

// What making types keeps.

/// Whether a table holds all that another does: what an id stands for there, it stands for
/// here.
pub open spec fn remembers(a: Types, b: Types) -> bool {
    &&& grows(a.structs, b.structs)
    &&& grows(a.vecs, b.vecs)
    &&& grows(a.options, b.options)
    &&& b.enums == a.enums
    &&& b.templates == a.templates
    &&& b.by_name == a.by_name
    &&& b.template_by_name == a.template_by_name
}

/// What came of a table that remembers another remembers it too.
pub proof fn lemma_remembering_goes_on(a: Types, b: Types, c: Types)
    requires
        remembers(a, b),
        remembers(b, c),
    ensures
        remembers(a, c),
        remembers(c, c),
{
    grows_facts_for::<StructDef>();
    grows_facts_for::<Type>();
}

/// Whether a name leads to a definition of that name.
pub open spec fn leads(t: Types, name: Seq<char>) -> bool {
    match lookup(t.by_name, name) {
        Some(Type::Struct(id)) => struct_named(t, name, id),
        Some(Type::View(id)) => struct_named(t, name, id),
        Some(Type::Enum(id)) => enum_named(t, name, id),
        Some(_) => false,
        None => true,
    }
}

pub open spec fn struct_named(t: Types, name: Seq<char>, id: StructId) -> bool {
    exists|k: int|
        0 <= k < t.structs.len() && id == StructId(k as u32) && (#[trigger] t.structs[k]).name
            == name
}

pub open spec fn enum_named(t: Types, name: Seq<char>, id: EnumId) -> bool {
    exists|k: int|
        0 <= k < t.enums.len() && id == EnumId(k as u32) && (#[trigger] t.enums[k]).name == name
            && t.enums[k].id == id
}

/// Whether a name leads to a template of that name, and each template has one.
pub open spec fn templates_named(t: Types) -> bool {
    &&& forall|p: int|
        0 <= p < t.templates.len() ==> lookup(
            t.template_by_name,
            (#[trigger] t.templates[p]).name,
        ) == Some(p as usize) && p as usize == p
    &&& forall|name: Seq<char>|
        match #[trigger] lookup(t.template_by_name, name) {
            Some(p) => p < t.templates.len() ==> t.templates[p as int].name == name,
            None => true,
        }
}

/// Whether a struct that is an instance is one of a template.
pub open spec fn has_template(t: Types, def: StructDef) -> bool {
    match def.from {
        Some((p, _)) => p < t.templates.len(),
        None => true,
    }
}

/// Whether an instance has as many arguments as its template takes.
pub open spec fn fits(t: Types, def: StructDef) -> bool {
    match def.from {
        Some((p, args)) => p < t.templates.len() ==> args.len()
            == t.templates[p as int].generics.len(),
        None => true,
    }
}

/// Whether every instance of a table has as many arguments as its template takes.
#[verifier::opaque]
pub open spec fn fitting(t: Types) -> bool {
    forall|i: int| 0 <= i < t.structs.len() ==> fits(t, #[trigger] t.structs[i])
}

/// Whether a table is in order: each list and option type is there once, a struct is at its
/// id, each instance is there once and is of a template, and names lead to what they name.
#[verifier::opaque]
pub open spec fn tidy(t: Types) -> bool {
    &&& t.vecs.no_duplicates()
    &&& t.options.no_duplicates()
    &&& forall|i: int|
        0 <= i < t.structs.len() ==> (#[trigger] t.structs[i]).id == StructId(i as u32)
    &&& forall|i: int| 0 <= i < t.structs.len() ==> has_template(t, #[trigger] t.structs[i])
    &&& forall|i: int, j: int|
        0 <= i < t.structs.len() && 0 <= j < t.structs.len() && (#[trigger] t.structs[i]).from
            is Some && t.structs[i].from == (#[trigger] t.structs[j]).from ==> i == j
    &&& templates_named(t)
    &&& forall|name: Seq<char>| #[trigger] leads(t, name)
}

/// Whether a table was made from another by making types: nothing was forgotten, it is as
/// tidy, and its instances fit as they did.
#[verifier::opaque]
pub open spec fn extends(a: Types, b: Types) -> bool {
    remembers(a, b) && (tidy(a) ==> tidy(b)) && (tidy(a) && fitting(a) ==> fitting(b))
}

pub(crate) proof fn extends_facts()
    ensures
        forall|a: Types| #[trigger] extends(a, a),
        forall|a: Types, b: Types, c: Types|
            #[trigger] extends(a, b) && #[trigger] extends(b, c) ==> extends(a, c),
        forall|a: Types, b: Types|
            #[trigger] extends(a, b) ==> b.templates == a.templates && b.template_by_name
                == a.template_by_name,
{
    reveal(extends);
    grows_facts_for::<StructDef>();
    grows_facts_for::<Type>();
}

proof fn lemma_grown<T>(a: Seq<T>, b: Seq<T>)
    requires
        grows(a, b),
    ensures
        a.len() <= b.len(),
        forall|i: int| 0 <= i < a.len() ==> #[trigger] b[i] == a[i],
{
    reveal(grows);
    assert forall|i: int| 0 <= i < a.len() implies #[trigger] b[i] == a[i] by {
        assert(b.take(a.len() as int)[i] == b[i]);
    }
}

/// Whether `b` is `a` with more structs, and perhaps other fields from the `n`th on.
pub open spec fn settles(a: Types, b: Types, n: int) -> bool {
    &&& a.structs.len() <= b.structs.len()
    &&& forall|i: int| 0 <= i < n && i < a.structs.len() ==> #[trigger] b.structs[i] == a.structs[i]
    &&& forall|i: int|
        0 <= i < a.structs.len() ==> (#[trigger] b.structs[i]).id == a.structs[i].id
            && b.structs[i].from == a.structs[i].from && b.structs[i].name == a.structs[i].name
    &&& grows(a.vecs, b.vecs)
    &&& grows(a.options, b.options)
    &&& b.enums == a.enums
    &&& b.templates == a.templates
    &&& b.by_name == a.by_name
    &&& b.template_by_name == a.template_by_name
    &&& tidy(a) ==> tidy(b)
    &&& tidy(a) && fitting(a) ==> fitting(b)
}

/// Names lead where they did when the structs and enums keep their names.
proof fn lemma_names_stay(a: Types, b: Types)
    requires
        b.by_name == a.by_name,
        a.structs.len() <= b.structs.len(),
        forall|i: int|
            0 <= i < a.structs.len() ==> (#[trigger] b.structs[i]).name == a.structs[i].name,
        a.enums.len() <= b.enums.len(),
        forall|i: int|
            0 <= i < a.enums.len() ==> (#[trigger] b.enums[i]).name == a.enums[i].name
                && b.enums[i].id == a.enums[i].id,
        forall|name: Seq<char>| #[trigger] leads(a, name),
    ensures
        forall|name: Seq<char>| #[trigger] leads(b, name),
{
    assert forall|name: Seq<char>| #[trigger] leads(b, name) by {
        assert(leads(a, name));
        match lookup(a.by_name, name) {
            Some(Type::Struct(id)) => {
                let k = choose|k: int|
                    0 <= k < a.structs.len() && id == StructId(k as u32) && (
                    #[trigger] a.structs[k]).name == name;
                assert(b.structs[k].name == name);
            },
            Some(Type::View(id)) => {
                let k = choose|k: int|
                    0 <= k < a.structs.len() && id == StructId(k as u32) && (
                    #[trigger] a.structs[k]).name == name;
                assert(b.structs[k].name == name);
            },
            Some(Type::Enum(id)) => {
                let k = choose|k: int|
                    0 <= k < a.enums.len() && id == EnumId(k as u32) && (
                    #[trigger] a.enums[k]).name == name && a.enums[k].id == id;
                assert(b.enums[k].name == name);
            },
            _ => {},
        }
    }
}

/// A table with other list and option types, each there once, is as tidy.
proof fn lemma_tidy_but_for_lists(a: Types, b: Types)
    requires
        tidy(a),
        b.vecs.no_duplicates(),
        b.options.no_duplicates(),
        b == (Types { vecs: b.vecs, options: b.options, ..a }),
    ensures
        tidy(b),
        fitting(a) ==> fitting(b),
{
    reveal(tidy);
    reveal(fitting);
    lemma_names_stay(a, b);
    assert forall|i: int| 0 <= i < b.structs.len() implies has_template(
        b,
        #[trigger] b.structs[i],
    ) by {
        assert(has_template(a, a.structs[i]));
    }
    if fitting(a) {
        assert forall|i: int| 0 <= i < b.structs.len() implies fits(b, #[trigger] b.structs[i]) by {
            assert(fits(a, a.structs[i]));
        }
    }
}

pub(crate) proof fn vec_type_extends(t: Types, elem: Type)
    ensures
        extends(t, vec_type(t, elem).0),
{
    reveal(extends);
    reveal(tidy);
    grows_facts_for::<StructDef>();
    grows_facts_for::<Type>();
    lemma_interned(t.vecs, elem);
    let b = vec_type(t, elem).0;
    if tidy(t) {
        lemma_tidy_but_for_lists(t, b);
    }
}

pub(crate) proof fn option_type_extends(t: Types, inner: Type)
    ensures
        extends(t, option_type(t, inner).0),
{
    reveal(extends);
    reveal(tidy);
    grows_facts_for::<StructDef>();
    grows_facts_for::<Type>();
    lemma_interned(t.options, inner);
    let b = option_type(t, inner).0;
    if tidy(t) {
        lemma_tidy_but_for_lists(t, b);
    }
}

/// Whether a template of that name, if there is one, takes that many arguments.
pub open spec fn takes(t: Types, name: Seq<char>, n: nat) -> bool {
    match template_of(t, name) {
        Some(template) => template.generics.len() == n,
        None => true,
    }
}

/// Making room for an instance forgets nothing and keeps a tidy table tidy, whatever its
/// arguments are. The instances fit where the arguments are as many as the template takes.
proof fn lemma_reserving(t: Types, name: Seq<char>, args: Seq<Type>)
    ensures
        ({
            let b = reserved(t, name, args).0;
            &&& remembers(t, b)
            &&& tidy(t) ==> tidy(b)
            &&& tidy(t) && fitting(t) && takes(t, name, args.len()) ==> fitting(b)
        }),
{
    reveal(tidy);
    reveal(fitting);
    grows_facts_for::<StructDef>();
    grows_facts_for::<Type>();
    let b = reserved(t, name, args).0;
    match (lookup(t.template_by_name, name), template_of(t, name)) {
        (Some(index), Some(template)) => {
            lemma_instance_at(t.structs, (index, args), 0);
            let n = t.structs.len() as int;
            if instance_at(t.structs, (index, args), 0) >= n {
                assert(b.structs == t.structs.push(b.structs[n]));
                if tidy(t) {
                    lemma_names_stay(t, b);
                    assert forall|i: int| 0 <= i < b.structs.len() implies has_template(
                        b,
                        #[trigger] b.structs[i],
                    ) by {
                        if i < n {
                            assert(has_template(t, t.structs[i]));
                        }
                    }
                    assert forall|i: int|
                        0 <= i < b.structs.len() implies (#[trigger] b.structs[i]).id
                        == StructId(i as u32) by {
                        if i < n {
                            assert(t.structs[i].id == StructId(i as u32));
                        }
                    }
                    assert forall|i: int, j: int|
                        0 <= i < b.structs.len() && 0 <= j < b.structs.len() && (
                        #[trigger] b.structs[i]).from is Some && b.structs[i].from == (
                        #[trigger] b.structs[j]).from implies i == j by {
                        if i < n {
                            assert(b.structs[i] == t.structs[i]);
                        }
                        if j < n {
                            assert(b.structs[j] == t.structs[j]);
                        }
                    }
                    if fitting(t) && takes(t, name, args.len()) {
                        assert forall|i: int| 0 <= i < b.structs.len() implies fits(
                            b,
                            #[trigger] b.structs[i],
                        ) by {
                            if i < n {
                                assert(fits(t, t.structs[i]));
                            }
                        }
                    }
                }
            }
        },
        _ => {},
    }
}

proof fn reserved_extends(t: Types, name: Seq<char>, args: Seq<Type>)
    requires
        tidy(t) && fitting(t) ==> takes(t, name, args.len()),
    ensures
        extends(t, reserved(t, name, args).0),
{
    reveal(extends);
    lemma_reserving(t, name, args);
}

proof fn replaced_extends(t: Types, ty: Type, args: Seq<Type>, depth: nat)
    ensures
        extends(t, replaced(t, ty, args, depth).0),
    decreases depth, 0int,
{
    extends_facts();
    match ty {
        Type::Vec(id) => if depth > 0 {
            let (t1, elem) = replaced(t, element_of(t, id), args, (depth - 1) as nat);
            replaced_extends(t, element_of(t, id), args, (depth - 1) as nat);
            vec_type_extends(t1, elem);
        },
        Type::Option(id) => if depth > 0 {
            let (t1, inner) = replaced(t, inner_of(t, id), args, (depth - 1) as nat);
            replaced_extends(t, inner_of(t, id), args, (depth - 1) as nat);
            option_type_extends(t1, inner);
        },
        Type::Struct(id) => match struct_of(t, id) {
            Some(def) => match def.from {
                Some((index, targs)) => if depth > 0 && any_mentions(t, targs, 0, DEPTH as nat)
                    && index < t.templates.len() {
                    let below = (depth - 1) as nat;
                    let (t1, made) = replaced_all(t, targs, 0, args, seq![], below);
                    let name = t.templates[index as int].name;
                    replaced_all_extends(t, targs, 0, args, seq![], below);
                    reveal(extends);
                    reveal(tidy);
                    reveal(fitting);
                    lemma_grown(t.structs, t1.structs);
                    if tidy(t1) && fitting(t1) {
                        assert(fits(t1, t1.structs[id.0 as int]));
                        assert(lookup(t1.template_by_name, t1.templates[index as int].name)
                            == Some(index));
                    }
                    reserved_extends(t1, name, made);
                },
                None => {},
            },
            None => {},
        },
        _ => {},
    }
}

proof fn replaced_all_extends(
    t: Types,
    types: Seq<Type>,
    i: int,
    args: Seq<Type>,
    acc: Seq<Type>,
    depth: nat,
)
    ensures
        extends(t, replaced_all(t, types, i, args, acc, depth).0),
        0 <= i <= types.len() ==> replaced_all(t, types, i, args, acc, depth).1.len() == acc.len()
            + types.len() - i,
    decreases depth, types.len() - i + 1,
{
    extends_facts();
    if 0 <= i < types.len() {
        let (t1, made) = replaced(t, types[i], args, depth);
        replaced_extends(t, types[i], args, depth);
        replaced_all_extends(t1, types, i + 1, args, acc.push(made), depth);
    }
}

proof fn instance_fields_extends(
    t: Types,
    fields: Seq<Field>,
    i: int,
    args: Seq<Type>,
    acc: Seq<Field>,
)
    ensures
        extends(t, instance_fields(t, fields, i, args, acc).0),
    decreases fields.len() - i,
{
    extends_facts();
    if 0 <= i < fields.len() {
        let field = fields[i];
        let (t1, ty) = replaced(t, field.ty, args, DEPTH as nat);
        let tag = if mentions_within(t1, field.ty, DEPTH as nat) {
            default_tag(ty)
        } else {
            field.tag
        };
        replaced_extends(t, field.ty, args, DEPTH as nat);
        instance_fields_extends(t1, fields, i + 1, args, acc.push(Field { ty, tag, ..field }));
    }
}

proof fn filled_at_settles(t: Types, i: int, n: int)
    requires
        0 <= n <= i < t.structs.len(),
    ensures
        settles(t, filled_at(t, i), n),
{
    grows_facts_for::<Type>();
    match t.structs[i].from {
        Some((p, args)) => if p < t.templates.len() {
            let declared = t.templates[p as int].fields;
            let (t1, fields) = instance_fields(t, declared, 0, args, seq![]);
            instance_fields_extends(t, declared, 0, args, seq![]);
            reveal(extends);
            lemma_grown(t.structs, t1.structs);
            let b = filled_at(t, i);
            assert(b.structs == t1.structs.update(i, StructDef { fields, ..t1.structs[i] }));
            if tidy(t) {
                lemma_tidy_stays(t1, b);
            }
        },
        None => {},
    }
}

/// A table stays tidy when structs only change their fields.
pub(crate) proof fn lemma_tidy_stays(a: Types, b: Types)
    requires
        tidy(a),
        b.structs.len() == a.structs.len(),
        forall|i: int|
            0 <= i < a.structs.len() ==> (#[trigger] b.structs[i]).id == a.structs[i].id
                && b.structs[i].from == a.structs[i].from && b.structs[i].name
                == a.structs[i].name,
        b.vecs == a.vecs,
        b.options == a.options,
        b.enums.len() == a.enums.len(),
        forall|i: int|
            0 <= i < a.enums.len() ==> (#[trigger] b.enums[i]).name == a.enums[i].name
                && b.enums[i].id == a.enums[i].id,
        b.templates.len() == a.templates.len(),
        forall|i: int|
            0 <= i < a.templates.len() ==> (#[trigger] b.templates[i]).name == a.templates[i].name
                && b.templates[i].generics == a.templates[i].generics,
        b.by_name == a.by_name,
        b.template_by_name == a.template_by_name,
    ensures
        tidy(b),
        fitting(a) ==> fitting(b),
{
    reveal(tidy);
    reveal(fitting);
    lemma_names_stay(a, b);
    assert forall|i: int| 0 <= i < b.structs.len() implies has_template(
        b,
        #[trigger] b.structs[i],
    ) by {
        assert(has_template(a, a.structs[i]));
    }
    if fitting(a) {
        assert forall|i: int| 0 <= i < b.structs.len() implies fits(b, #[trigger] b.structs[i]) by {
            assert(fits(a, a.structs[i]));
        }
    }
    assert forall|i: int|
        0 <= i < b.structs.len() implies (#[trigger] b.structs[i]).id == StructId(
        i as u32,
    ) by {
        assert(a.structs[i].id == StructId(i as u32));
    }
    assert forall|i: int, j: int|
        0 <= i < b.structs.len() && 0 <= j < b.structs.len() && (#[trigger] b.structs[i]).from
            is Some && b.structs[i].from == (#[trigger] b.structs[j]).from implies i == j by {
        assert(a.structs[i].from == a.structs[j].from);
    }
    assert forall|p: int| 0 <= p < b.templates.len() implies lookup(
        b.template_by_name,
        (#[trigger] b.templates[p]).name,
    ) == Some(p as usize) && p as usize == p by {
        assert(lookup(a.template_by_name, a.templates[p].name) == Some(p as usize));
    }
    assert forall|name: Seq<char>|
        match #[trigger] lookup(b.template_by_name, name) {
            Some(p) => p < b.templates.len() ==> b.templates[p as int].name == name,
            None => true,
        } by {
        assert(match lookup(a.template_by_name, name) {
            Some(p) => p < a.templates.len() ==> a.templates[p as int].name == name,
            None => true,
        });
    }
}

proof fn filled_settles(t: Types, i: int, room: nat, n: int)
    requires
        0 <= n <= i,
    ensures
        settles(t, filled(t, i, room), n),
    decreases room,
{
    grows_facts_for::<Type>();
    if i < t.structs.len() && room > 0 {
        let t1 = filled_at(t, i);
        filled_at_settles(t, i, n);
        filled_settles(t1, i + 1, (room - 1) as nat, n);
        let t2 = filled(t1, i + 1, (room - 1) as nat);
        assert forall|k: int| 0 <= k < n && k < t.structs.len() implies #[trigger] t2.structs[k]
            == t.structs[k] by {
            assert(t1.structs[k] == t.structs[k]);
        }
        assert forall|k: int|
            0 <= k < t.structs.len() implies (#[trigger] t2.structs[k]).id == t.structs[k].id
            && t2.structs[k].from == t.structs[k].from && t2.structs[k].name
            == t.structs[k].name by {
            assert(t1.structs[k].id == t.structs[k].id);
        }
    }
}

/// Settling the fields of instances keeps a table tidy, and the instances fitting.
pub proof fn lemma_filling_keeps_order(t: Types, i: int, room: nat)
    requires
        0 <= i,
        tidy(t),
    ensures
        tidy(filled(t, i, room)),
        fitting(t) ==> fitting(filled(t, i, room)),
{
    filled_settles(t, i, room, 0);
}

proof fn lemma_settled_remembers(t: Types, t1: Types, t2: Types)
    requires
        remembers(t, t1),
        settles(t1, t2, t.structs.len() as int),
    ensures
        remembers(t, t2),
{
    grows_facts_for::<StructDef>();
    grows_facts_for::<Type>();
    lemma_grown(t.structs, t1.structs);
    assert(grows(t.structs, t2.structs)) by {
        reveal(grows);
        assert(t2.structs.take(t.structs.len() as int) =~= t.structs);
    }
}

/// Making an instance forgets nothing and keeps a tidy table tidy, whatever its arguments
/// are. The instances fit where the arguments are as many as the template takes.
proof fn lemma_instantiating(t: Types, name: Seq<char>, args: Seq<Type>)
    ensures
        ({
            let b = instantiated(t, name, args).0;
            &&& remembers(t, b)
            &&& tidy(t) ==> tidy(b)
            &&& tidy(t) && fitting(t) && takes(t, name, args.len()) ==> fitting(b)
        }),
{
    reveal(instantiated);
    let t1 = reserved(t, name, args).0;
    let n = t.structs.len() as int;
    lemma_reserving(t, name, args);
    filled_settles(t1, n, ROOM as nat, n);
    lemma_settled_remembers(t, t1, filled(t1, n, ROOM as nat));
}

pub(crate) proof fn instantiated_extends(t: Types, name: Seq<char>, args: Seq<Type>)
    requires
        tidy(t) && fitting(t) ==> takes(t, name, args.len()),
    ensures
        extends(t, instantiated(t, name, args).0),
{
    reveal(extends);
    lemma_instantiating(t, name, args);
}

pub(crate) proof fn substituted_extends(t: Types, ty: Type, args: Seq<Type>)
    ensures
        extends(t, substituted(t, ty, args).0),
{
    reveal(substituted);
    let t1 = replaced(t, ty, args, DEPTH as nat).0;
    let n = t.structs.len() as int;
    replaced_extends(t, ty, args, DEPTH as nat);
    filled_settles(t1, n, ROOM as nat, n);
    reveal(extends);
    lemma_settled_remembers(t, t1, filled(t1, n, ROOM as nat));
}

/// A template that was found by one name is found by its own.
pub(crate) proof fn templates_are_found()
    ensures
        forall|a: Types, b: Types, name: Seq<char>|
            #[trigger] extends(a, b) && (#[trigger] template_of(a, name)) is Some && tidy(b)
                ==> template_of(b, template_of(a, name)->0.name) == template_of(a, name),
{
    reveal(extends);
    reveal(tidy);
    assert forall|a: Types, b: Types, name: Seq<char>|
        #[trigger] extends(a, b) && (#[trigger] template_of(a, name)) is Some && tidy(
            b,
        ) implies template_of(b, template_of(a, name)->0.name) == template_of(a, name) by {
        let p = lookup(a.template_by_name, name)->0;
        assert(b.templates[p as int] == template_of(a, name)->0);
        assert(lookup(b.template_by_name, b.templates[p as int].name) == Some(p));
    }
}

/// Making types forgets nothing and keeps a tidy table tidy, whichever way they are made.
pub proof fn lemma_making_types_keeps_the_table(
    t: Types,
    ty: Type,
    name: Seq<char>,
    args: Seq<Type>,
)
    requires
        tidy(t),
    ensures
        ({
            let made = vec_type(t, ty).0;
            tidy(made) && remembers(t, made)
        }),
        ({
            let made = option_type(t, ty).0;
            tidy(made) && remembers(t, made)
        }),
        ({
            let made = instantiated(t, name, args).0;
            tidy(made) && remembers(t, made)
        }),
        ({
            let made = substituted(t, ty, args).0;
            tidy(made) && remembers(t, made)
        }),
{
    vec_type_extends(t, ty);
    option_type_extends(t, ty);
    lemma_instantiating(t, name, args);
    substituted_extends(t, ty, args);
    reveal(extends);
}

/// Instances go on having as many arguments as their templates take, as long as those that
/// are asked for by name do.
pub proof fn lemma_making_types_keeps_instances_fitting(
    t: Types,
    ty: Type,
    name: Seq<char>,
    args: Seq<Type>,
)
    requires
        tidy(t),
        fitting(t),
    ensures
        fitting(vec_type(t, ty).0),
        fitting(option_type(t, ty).0),
        takes(t, name, args.len()) ==> fitting(instantiated(t, name, args).0),
        fitting(substituted(t, ty, args).0),
{
    vec_type_extends(t, ty);
    option_type_extends(t, ty);
    lemma_instantiating(t, name, args);
    substituted_extends(t, ty, args);
    reveal(extends);
}

/// The table with nothing in it is tidy.
pub proof fn lemma_the_empty_table_is_tidy()
    ensures
        tidy(empty_types()),
        fitting(empty_types()),
{
    reveal(tidy);
    reveal(fitting);
    let t = empty_types();
    assert forall|name: Seq<char>| #[trigger] leads(t, name) by {
        assert(lookup(t.by_name, name) is None);
    }
}

/// An instance is made once and then found again, in every table that came of the one it
/// was made in. There is one exactly where there is a template of that name, and asking for
/// one of which there is none makes nothing.
pub proof fn lemma_struct_instances_are_made_once(
    t: Types,
    name: Seq<char>,
    args: Seq<Type>,
    later: Types,
)
    requires
        tidy(t),
        tidy(later),
        remembers(instantiated(t, name, args).0, later),
    ensures
        ({
            let (t1, made) = instantiated(t, name, args);
            &&& made is Some <==> template_of(t, name) is Some
            &&& made is None ==> t1 == t
            &&& instantiated(t1, name, args) == (t1, made)
            &&& instantiated(later, name, args) == (later, made)
        }),
{
    let (t1, made) = instantiated(t, name, args);
    if template_of(t, name) is Some {
        lemma_instance_made(t, name, args);
        lemma_instance_known(t1, name, args, made->0->Struct_0);
        lemma_instance_stays(t1, later, made->0, name, args);
        lemma_instance_known(later, name, args, made->0->Struct_0);
    } else {
        reveal(instantiated);
    }
}

proof fn lemma_instance_stays(a: Types, b: Types, ty: Type, name: Seq<char>, args: Seq<Type>)
    requires
        remembers(a, b),
        is_instance(a, ty, name, args),
    ensures
        is_instance(b, ty, name, args),
{
    lemma_grown(a.structs, b.structs);
    let p = lookup(a.template_by_name, name)->0;
    let id = ty->Struct_0;
    let k = choose|k: int|
        0 <= k < a.structs.len() && id == StructId(k as u32) && (#[trigger] a.structs[k]).from
            == Some((p, args));
    assert(b.structs[k].from == Some((p, args)));
}

/// Where the instance that was asked for is.
pub open spec fn is_instance(t: Types, ty: Type, name: Seq<char>, args: Seq<Type>) -> bool {
    match (ty, lookup(t.template_by_name, name)) {
        (Type::Struct(id), Some(p)) => exists|k: int|
            0 <= k < t.structs.len() && id == StructId(k as u32) && (
            #[trigger] t.structs[k]).from == Some((p, args)),
        _ => false,
    }
}

proof fn lemma_instance_made(t: Types, name: Seq<char>, args: Seq<Type>)
    requires
        tidy(t),
        template_of(t, name) is Some,
    ensures
        ({
            let (t1, made) = instantiated(t, name, args);
            &&& made is Some
            &&& is_instance(t1, made->0, name, args)
            &&& remembers(t, t1)
            &&& tidy(t1)
        }),
{
    reveal(instantiated);
    let p = lookup(t.template_by_name, name)->0;
    let (t1, made) = reserved(t, name, args);
    let n = t.structs.len() as int;
    let t2 = filled(t1, n, ROOM as nat);
    lemma_instance_at(t.structs, (p, args), 0);
    let known = instance_at(t.structs, (p, args), 0);
    filled_settles(t1, n, ROOM as nat, n);
    lemma_instantiating(t, name, args);
    reveal(tidy);
    if known < n {
        assert(t1.structs[known].from == Some((p, args)));
        assert(t2.structs[known].from == Some((p, args)));
        assert(t1.structs[known].id == StructId(known as u32));
    } else {
        assert(t1.structs[n].from == Some((p, args)));
        assert(t2.structs[n].from == Some((p, args)));
    }
}

proof fn lemma_instance_known(t: Types, name: Seq<char>, args: Seq<Type>, id: StructId)
    requires
        tidy(t),
        template_of(t, name) is Some,
        is_instance(t, Type::Struct(id), name, args),
    ensures
        instantiated(t, name, args) == (t, Some(Type::Struct(id))),
        reserved(t, name, args) == (t, Some(Type::Struct(id))),
{
    reveal(instantiated);
    reveal(tidy);
    let p = lookup(t.template_by_name, name)->0;
    let k = choose|k: int|
        0 <= k < t.structs.len() && id == StructId(k as u32) && (#[trigger] t.structs[k]).from
            == Some((p, args));
    lemma_instance_at(t.structs, (p, args), 0);
    let at = instance_at(t.structs, (p, args), 0);
    assert(at < t.structs.len());
    assert(t.structs[at].from == t.structs[k].from);
    assert(t.structs[at].id == StructId(at as u32));
}

/// Instances of different templates, and instances with different arguments, are different
/// types, however many types were made between the two.
pub proof fn lemma_struct_instances_differ(
    t: Types,
    one: Seq<char>,
    a: Seq<Type>,
    later: Types,
    other: Seq<char>,
    b: Seq<Type>,
)
    requires
        tidy(t),
        tidy(later),
        remembers(instantiated(t, one, a).0, later),
        template_of(t, one) is Some,
        template_of(t, other) is Some,
        instantiated(later, other, b).0.structs.len() <= u32::MAX,
    ensures
        instantiated(t, one, a).1 == instantiated(later, other, b).1 <==> one == other && a == b,
{
    let (t1, first) = instantiated(t, one, a);
    let (t2, second) = instantiated(later, other, b);
    lemma_instance_made(t, one, a);
    reveal(tidy);
    assert(template_of(later, other) == template_of(t, other));
    lemma_instance_made(later, other, b);
    lemma_instance_stays(t1, later, first->0, one, a);
    lemma_instance_stays(later, t2, first->0, one, a);
    let p = lookup(t.template_by_name, one)->0;
    let q = lookup(t.template_by_name, other)->0;
    assert(t.templates[p as int].name == one);
    assert(t.templates[q as int].name == other);
    let id = first->0->Struct_0;
    let k = choose|k: int|
        0 <= k < t2.structs.len() && id == StructId(k as u32) && (#[trigger] t2.structs[k]).from
            == Some((p, a));
    let jd = second->0->Struct_0;
    let j = choose|j: int|
        0 <= j < t2.structs.len() && jd == StructId(j as u32) && (#[trigger] t2.structs[j]).from
            == Some((q, b));
    if one == other && a == b {
        assert(t2.structs[k].from == t2.structs[j].from);
        assert(k == j);
    }
    if first == second {
        assert(k as u32 == j as u32);
        assert(k == j);
    }
}

proof fn lemma_instance_at(structs: Seq<StructDef>, key: (usize, Seq<Type>), i: int)
    requires
        0 <= i <= structs.len(),
    ensures
        i <= instance_at(structs, key, i) <= structs.len(),
        instance_at(structs, key, i) < structs.len() ==> structs[instance_at(
            structs,
            key,
            i,
        )].from == Some(key),
        forall|k: int| i <= k < instance_at(structs, key, i) ==> structs[k].from != Some(key),
    decreases structs.len() - i,
{
    if i < structs.len() && structs[i].from != Some(key) {
        lemma_instance_at(structs, key, i + 1);
    }
}

/// A name of a tidy table leads to a definition that has that name and that id.
pub proof fn lemma_names_lead_to_definitions(t: Types, name: Seq<char>)
    requires
        tidy(t),
        t.structs.len() <= u32::MAX,
        t.enums.len() <= u32::MAX,
    ensures
        match lookup(t.by_name, name) {
            Some(Type::Struct(id)) => id.0 < t.structs.len() && t.structs[id.0 as int].name == name
                && t.structs[id.0 as int].id == id,
            Some(Type::View(id)) => id.0 < t.structs.len() && t.structs[id.0 as int].name == name
                && t.structs[id.0 as int].id == id,
            Some(Type::Enum(id)) => id.0 < t.enums.len() && t.enums[id.0 as int].name == name
                && t.enums[id.0 as int].id == id,
            Some(_) => false,
            None => true,
        },
{
    reveal(tidy);
    assert(leads(t, name));
    match lookup(t.by_name, name) {
        Some(Type::Struct(id)) => {
            let k = choose|k: int|
                0 <= k < t.structs.len() && id == StructId(k as u32) && (
                #[trigger] t.structs[k]).name == name;
            assert(t.structs[k].id == StructId(k as u32));
        },
        Some(Type::View(id)) => {
            let k = choose|k: int|
                0 <= k < t.structs.len() && id == StructId(k as u32) && (
                #[trigger] t.structs[k]).name == name;
            assert(t.structs[k].id == StructId(k as u32));
        },
        Some(Type::Enum(id)) => {
            let k = choose|k: int|
                0 <= k < t.enums.len() && id == EnumId(k as u32) && (
                #[trigger] t.enums[k]).name == name && t.enums[k].id == id;
        },
        _ => {},
    }
}

/// What an id stood for it stands for still in a table that remembers.
pub proof fn lemma_ids_stay(a: Types, b: Types)
    requires
        remembers(a, b),
    ensures
        forall|id: StructId|
            id.0 < a.structs.len() ==> #[trigger] struct_of(b, id) == struct_of(a, id),
        forall|id: VecId| id.0 < a.vecs.len() ==> #[trigger] element_of(b, id) == element_of(a, id),
        forall|id: OptionId|
            id.0 < a.options.len() ==> #[trigger] inner_of(b, id) == inner_of(a, id),
{
    reveal(grows);
    assert forall|id: StructId| id.0 < a.structs.len() implies #[trigger] struct_of(b, id)
        == struct_of(a, id) by {
        assert(b.structs.take(a.structs.len() as int)[id.0 as int] == b.structs[id.0 as int]);
    }
    assert forall|id: VecId| id.0 < a.vecs.len() implies #[trigger] element_of(b, id)
        == element_of(a, id) by {
        assert(b.vecs.take(a.vecs.len() as int)[id.0 as int] == b.vecs[id.0 as int]);
    }
    assert forall|id: OptionId| id.0 < a.options.len() implies #[trigger] inner_of(b, id)
        == inner_of(a, id) by {
        assert(b.options.take(a.options.len() as int)[id.0 as int] == b.options[id.0 as int]);
    }
}

// Type parameters.

/// Matching types never changes what a parameter is bound to.
pub proof fn lemma_bindings_stay(
    t: Types,
    declared: Type,
    actual: Type,
    bound: Seq<Option<Type>>,
    depth: nat,
)
    ensures
        unified(t, declared, actual, bound, depth).0.len() == bound.len(),
        forall|k: int|
            0 <= k < bound.len() && bound[k] is Some ==> #[trigger] unified(
                t,
                declared,
                actual,
                bound,
                depth,
            ).0[k] == bound[k],
    decreases depth, 0int,
{
    match (declared, actual) {
        (Type::Vec(a), Type::Vec(b)) => if depth > 0 {
            lemma_bindings_stay(t, element_of(t, a), element_of(t, b), bound, (depth - 1) as nat);
        },
        (Type::Option(a), Type::Option(b)) => if depth > 0 {
            lemma_bindings_stay(t, inner_of(t, a), inner_of(t, b), bound, (depth - 1) as nat);
        },
        (Type::Struct(a), Type::Struct(b)) => match (struct_of(t, a), struct_of(t, b)) {
            (Some(x), Some(y)) => match (x.from, y.from) {
                (Some((p, aargs)), Some((q, bargs))) => if p == q && depth > 0 {
                    lemma_all_bindings_stay(t, aargs, bargs, 0, bound, (depth - 1) as nat);
                },
                _ => {},
            },
            _ => {},
        },
        _ => {},
    }
}

proof fn lemma_all_bindings_stay(
    t: Types,
    declared: Seq<Type>,
    actual: Seq<Type>,
    i: int,
    bound: Seq<Option<Type>>,
    depth: nat,
)
    ensures
        unified_all(t, declared, actual, i, bound, depth).0.len() == bound.len(),
        forall|k: int|
            0 <= k < bound.len() && bound[k] is Some ==> #[trigger] unified_all(
                t,
                declared,
                actual,
                i,
                bound,
                depth,
            ).0[k] == bound[k],
    decreases depth, declared.len() - i + 1,
{
    if 0 <= i < declared.len() && i < actual.len() {
        lemma_bindings_stay(t, declared[i], actual[i], bound, depth);
        let bound1 = unified(t, declared[i], actual[i], bound, depth).0;
        lemma_all_bindings_stay(t, declared, actual, i + 1, bound1, depth);
    }
}

/// Whether every id in a type stands for something in the table.
pub open spec fn known(t: Types, ty: Type, depth: nat) -> bool
    decreases depth,
{
    match ty {
        Type::Vec(id) => id.0 < t.vecs.len() && (depth > 0 ==> known(
            t,
            element_of(t, id),
            (depth - 1) as nat,
        )),
        Type::Option(id) => id.0 < t.options.len() && (depth > 0 ==> known(
            t,
            inner_of(t, id),
            (depth - 1) as nat,
        )),
        Type::Struct(id) => match struct_of(t, id) {
            Some(def) => match def.from {
                Some((_, args)) => depth > 0 ==> forall|i: int|
                    0 <= i < args.len() ==> known(t, #[trigger] args[i], (depth - 1) as nat),
                None => true,
            },
            None => true,
        },
        _ => true,
    }
}

/// Whether the arguments are what the parameters were bound to.
pub open spec fn agrees(bound: Seq<Option<Type>>, args: Seq<Type>) -> bool {
    forall|k: int|
        0 <= k < bound.len() && (#[trigger] bound[k]) is Some ==> k < args.len() && args[k]
            == bound[k]->0
}

/// Whether every type of a table has an id of its own.
pub open spec fn in_bounds(t: Types) -> bool {
    &&& t.structs.len() <= u32::MAX
    &&& t.vecs.len() <= u32::MAX
    &&& t.options.len() <= u32::MAX
}

proof fn lemma_any_mentions(t: Types, types: Seq<Type>, i: int, k: int, depth: nat)
    requires
        0 <= i <= k < types.len(),
        !any_mentions(t, types, i, depth),
    ensures
        !mentions_within(t, types[k], depth),
    decreases k - i,
{
    if i < k {
        lemma_any_mentions(t, types, i + 1, k, depth);
    }
}

proof fn lemma_instance_is_found(t: Types, id: StructId)
    requires
        tidy(t),
        id.0 < t.structs.len(),
        t.structs[id.0 as int].from is Some,
    ensures
        ({
            let (p, args) = t.structs[id.0 as int].from->0;
            &&& p < t.templates.len()
            &&& reserved(t, t.templates[p as int].name, args) == (t, Some(Type::Struct(id)))
        }),
{
    reveal(tidy);
    let (p, args) = t.structs[id.0 as int].from->0;
    assert(has_template(t, t.structs[id.0 as int]));
    let name = t.templates[p as int].name;
    assert(lookup(t.template_by_name, name) == Some(p));
    assert(t.structs[id.0 as int].from == Some((p, args)));
    assert(is_instance(t, Type::Struct(id), name, args));
    lemma_instance_known(t, name, args, id);
}

proof fn lemma_concrete_types_stay(
    t: Types,
    ty: Type,
    args: Seq<Type>,
    depth: nat,
    reach: nat,
)
    requires
        tidy(t),
        in_bounds(t),
        known(t, ty, depth),
        depth <= reach,
        !mentions_within(t, ty, reach),
    ensures
        replaced(t, ty, args, depth) == (t, ty),
    decreases depth, 0int,
{
    reveal(tidy);
    match ty {
        Type::Vec(id) => if depth > 0 {
            let elem = element_of(t, id);
            lemma_concrete_types_stay(t, elem, args, (depth - 1) as nat, (reach - 1) as nat);
            lemma_position(t.vecs, elem, 0);
        },
        Type::Option(id) => if depth > 0 {
            let inner = inner_of(t, id);
            lemma_concrete_types_stay(t, inner, args, (depth - 1) as nat, (reach - 1) as nat);
            lemma_position(t.options, inner, 0);
        },
        Type::Struct(id) => match struct_of(t, id) {
            Some(def) => match def.from {
                Some((index, targs)) => if depth > 0 {
                    let below = (depth - 1) as nat;
                    assert(targs.take(0) =~= seq![]);
                    lemma_all_concrete_types_stay(t, targs, 0, args, below, (reach - 1) as nat);
                    lemma_instance_is_found(t, id);
                },
                None => {},
            },
            None => {},
        },
        _ => {},
    }
}

proof fn lemma_all_concrete_types_stay(
    t: Types,
    types: Seq<Type>,
    i: int,
    args: Seq<Type>,
    depth: nat,
    reach: nat,
)
    requires
        tidy(t),
        in_bounds(t),
        0 <= i <= types.len(),
        forall|k: int| 0 <= k < types.len() ==> known(t, #[trigger] types[k], depth),
        depth <= reach,
        !any_mentions(t, types, 0, reach),
    ensures
        replaced_all(t, types, i, args, types.take(i), depth) == (t, types),
    decreases depth, types.len() - i + 1,
{
    if i < types.len() {
        lemma_any_mentions(t, types, 0, i, reach);
        lemma_concrete_types_stay(t, types[i], args, depth, reach);
        assert(types.take(i).push(types[i]) =~= types.take(i + 1));
        lemma_all_concrete_types_stay(t, types, i + 1, args, depth, reach);
    } else {
        assert(types.take(i) =~= types);
    }
}

proof fn lemma_matching_is_undone(
    t: Types,
    declared: Type,
    actual: Type,
    bound: Seq<Option<Type>>,
    args: Seq<Type>,
    depth: nat,
)
    requires
        tidy(t),
        fitting(t),
        in_bounds(t),
        known(t, declared, depth),
        known(t, actual, depth),
        !mentions_within(t, actual, depth),
        depth <= DEPTH,
        unified(t, declared, actual, bound, depth).1,
        agrees(unified(t, declared, actual, bound, depth).0, args),
    ensures
        replaced(t, declared, args, depth) == (t, actual),
    decreases depth, 0int,
{
    reveal(tidy);
    reveal(fitting);
    let bound1 = unified(t, declared, actual, bound, depth).0;
    match (declared, actual) {
        (Type::Fix(Scale::Param(index)), Type::Fix(Scale::Const(_))) => {
            assert(bound1[index as int] is Some);
        },
        (Type::Param(index), _) => {
            assert(bound1[index as int] is Some);
        },
        (Type::Vec(a), Type::Vec(b)) => if depth > 0 {
            let (x, y) = (element_of(t, a), element_of(t, b));
            lemma_matching_is_undone(t, x, y, bound, args, (depth - 1) as nat);
            lemma_position(t.vecs, y, 0);
        },
        (Type::Option(a), Type::Option(b)) => if depth > 0 {
            let (x, y) = (inner_of(t, a), inner_of(t, b));
            lemma_matching_is_undone(t, x, y, bound, args, (depth - 1) as nat);
            lemma_position(t.options, y, 0);
        },
        (Type::Struct(a), Type::Struct(b)) => match (struct_of(t, a), struct_of(t, b)) {
            (Some(x), Some(y)) => match (x.from, y.from) {
                (Some((p, aargs)), Some((q, bargs))) => if p == q && depth > 0 {
                    let below = (depth - 1) as nat;
                    assert(fits(t, t.structs[a.0 as int]) && fits(t, t.structs[b.0 as int]));
                    assert(has_template(t, t.structs[a.0 as int]));
                    assert(bargs.take(0) =~= seq![]);
                    assert(aargs.take(0) =~= seq![]);
                    lemma_matching_all_is_undone(t, aargs, bargs, 0, bound, args, below);
                    lemma_instance_is_found(t, b);
                    if !any_mentions(t, aargs, 0, DEPTH as nat) {
                        lemma_all_concrete_types_stay(t, aargs, 0, args, below, DEPTH as nat);
                    }
                } else if p != q {
                    assert(x.id == StructId(a.0) && y.id == StructId(b.0));
                },
                _ => {},
            },
            _ => {},
        },
        _ => {},
    }
}

proof fn lemma_matching_all_is_undone(
    t: Types,
    declared: Seq<Type>,
    actual: Seq<Type>,
    i: int,
    bound: Seq<Option<Type>>,
    args: Seq<Type>,
    depth: nat,
)
    requires
        tidy(t),
        fitting(t),
        in_bounds(t),
        declared.len() == actual.len(),
        0 <= i <= actual.len(),
        forall|k: int| 0 <= k < declared.len() ==> known(t, #[trigger] declared[k], depth),
        forall|k: int| 0 <= k < actual.len() ==> known(t, #[trigger] actual[k], depth),
        !any_mentions(t, actual, 0, depth),
        depth <= DEPTH,
        unified_all(t, declared, actual, i, bound, depth).1,
        agrees(unified_all(t, declared, actual, i, bound, depth).0, args),
    ensures
        replaced_all(t, declared, i, args, actual.take(i), depth) == (t, actual),
    decreases depth, declared.len() - i + 1,
{
    if i < actual.len() {
        let bound1 = unified(t, declared[i], actual[i], bound, depth).0;
        let bound2 = unified_all(t, declared, actual, i + 1, bound1, depth).0;
        lemma_all_bindings_stay(t, declared, actual, i + 1, bound1, depth);
        assert forall|k: int| 0 <= k < bound1.len() && (#[trigger] bound1[k]) is Some implies k
            < args.len() && args[k] == bound1[k]->0 by {
            assert(bound2[k] == bound1[k]);
        }
        lemma_any_mentions(t, actual, 0, i, depth);
        lemma_matching_is_undone(t, declared[i], actual[i], bound, args, depth);
        assert(actual.take(i).push(actual[i]) =~= actual.take(i + 1));
        lemma_matching_all_is_undone(t, declared, actual, i + 1, bound1, args, depth);
    } else {
        assert(actual.take(i) =~= actual);
    }
}

/// A type in which no parameter occurs stays what it is, and nothing is made.
pub proof fn lemma_types_without_parameters_stay(t: Types, ty: Type, args: Seq<Type>)
    requires
        tidy(t),
        in_bounds(t),
        known(t, ty, DEPTH as nat),
        !mentions_within(t, ty, DEPTH as nat),
    ensures
        substituted(t, ty, args) == (t, ty),
{
    reveal(substituted);
    lemma_concrete_types_stay(t, ty, args, DEPTH as nat, DEPTH as nat);
}

/// What matching a declared type against an actual one binds the parameters to is what
/// turns the declared type into the actual one, and nothing new has to be made for it.
pub proof fn lemma_matching_is_undone_by_replacing(
    t: Types,
    declared: Type,
    actual: Type,
    bound: Seq<Option<Type>>,
    args: Seq<Type>,
)
    requires
        tidy(t),
        fitting(t),
        in_bounds(t),
        known(t, declared, DEPTH as nat),
        known(t, actual, DEPTH as nat),
        !mentions_within(t, actual, DEPTH as nat),
        unified(t, declared, actual, bound, DEPTH as nat).1,
        agrees(unified(t, declared, actual, bound, DEPTH as nat).0, args),
    ensures
        substituted(t, declared, args) == (t, actual),
{
    reveal(substituted);
    lemma_matching_is_undone(t, declared, actual, bound, args, DEPTH as nat);
}

// Instances of functions.

proof fn lemma_pending_at(
    pending: Seq<Pending>,
    item: usize,
    args: Seq<Type>,
    lent: Seq<Seq<char>>,
    i: int,
)
    requires
        0 <= i <= pending.len(),
    ensures
        ({
            let k = pending_at(pending, item, args, lent, i);
            &&& i <= k <= pending.len()
            &&& k < pending.len() ==> asked_as(pending[k], item, args, lent)
            &&& forall|j: int| i <= j < k ==> !asked_as(#[trigger] pending[j], item, args, lent)
        }),
    decreases pending.len() - i,
{
    if i < pending.len() && !asked_as(pending[i], item, args, lent) {
        lemma_pending_at(pending, item, args, lent, i + 1);
    }
}

/// Whether an instance was asked for with those arguments and borrowed places.
pub open spec fn asked_as(
    one: Pending,
    item: usize,
    args: Seq<Type>,
    lent: Seq<Seq<char>>,
) -> bool {
    one.item == item && one.args == args && one.lent == lent
}

/// Whether the instances are numbered in the order they were asked for, behind the
/// functions that are not instances.
pub open spec fn numbered(env: Env, cx: Cx) -> bool {
    forall|i: int|
        0 <= i < cx.pending.len() ==> (#[trigger] cx.pending[i]).id.0 == env.concrete + i
}

/// An instance that was made is found again: asking for it once more, from anywhere, gives
/// the same function and makes nothing. The numbering is kept, and what was there before
/// keeps its number.
pub proof fn lemma_function_instances_are_made_once(
    env: Env,
    cx: Cx,
    item: usize,
    args: Seq<Type>,
    borrows: Seq<Option<Place>>,
    base: Seq<char>,
    span: Span,
    again: Seq<char>,
    elsewhere: Span,
)
    requires
        numbered(env, cx),
        instance_of(env, cx, item, args, borrows, base, span).1 is Some,
    ensures
        ({
            let (cx1, id) = instance_of(env, cx, item, args, borrows, base, span);
            &&& numbered(env, cx1)
            &&& grows(cx.pending, cx1.pending)
            &&& instance_of(env, cx1, item, args, borrows, again, elsewhere) == (cx1, id)
        }),
{
    reveal(instance_of);
    grows_facts_for::<Pending>();
    let lent = lent_keys(borrows);
    let (cx1, id) = instance_of(env, cx, item, args, borrows, base, span);
    lemma_pending_at(cx.pending, item, args, lent, 0);
    lemma_pending_at(cx1.pending, item, args, lent, 0);
    let known = pending_at(cx.pending, item, args, lent, 0);
    if known >= cx.pending.len() {
        let n = cx.pending.len() as int;
        let k = pending_at(cx1.pending, item, args, lent, 0);
        assert(asked_as(cx1.pending[n], item, args, lent));
        if k < n {
            assert(cx1.pending[k] == cx.pending[k]);
            assert(asked_as(cx.pending[k], item, args, lent));
        }
        assert(k == n);
    }
}

/// Instances that were asked for differently are different functions.
pub proof fn lemma_function_instances_differ(env: Env, cx: Cx, a: int, b: int)
    requires
        numbered(env, cx),
        0 <= a < cx.pending.len(),
        0 <= b < cx.pending.len(),
    ensures
        cx.pending[a].id == cx.pending[b].id <==> a == b,
{
}

} // verus!
