//! The table of types: what a program defines, and the types it makes from others.

use vstd::prelude::*;

use crate::hir::model;
use crate::hir::rules::laws::table::{
    fitting, lemma_making_types_keeps_instances_fitting, lemma_making_types_keeps_the_table,
    lemma_the_empty_table_is_tidy, remembers, takes, tidy,
};
use crate::hir::rules::types::{with_fields, with_template_fields, with_variants};
use crate::hir::{
    copy_fields, copy_generics, default_tag, enums_view, fields_view, structs_view, templates_view,
    variants_view, EnumDef, EnumId, Field, NbtTag, OptionId, Scale, StructDef, StructId,
    StructTemplate, Type, Variant, VecId,
};
use crate::text::{
    cat2, cat3, cat4, chars, is_alnum, is_digit, is_path_char, join, join_texts, lemma_digits,
    lowered, nat_text, own, same, show_u64, string, texts, to_lowercase, trim_end, trim_start,
    underscored,
};

verus! {

/// How deep a type may be nested in others. No type comes near it.
pub const DEPTH: u32 = 0xffff_ffff;

// ---------------------------------------------------------------------------
// What the table says.
// ---------------------------------------------------------------------------

/// The entry a name was given last.
pub open spec fn lookup<T>(entries: Seq<(Seq<char>, T)>, name: Seq<char>) -> Option<T>
    decreases entries.len(),
{
    if entries.len() == 0 {
        None
    } else if entries.last().0 == name {
        Some(entries.last().1)
    } else {
        lookup(entries.drop_last(), name)
    }
}

/// What each entry of a list of names says.
pub open spec fn entries_view<T>(v: Seq<(String, T)>) -> Seq<(Seq<char>, T)> {
    Seq::new(v.len(), |i: int| (v[i].0@, v[i].1))
}

/// The template of that name. A template is known from the moment its fields are.
pub open spec fn template_of(t: model::Types, name: Seq<char>) -> Option<model::Template> {
    match lookup(t.template_by_name, name) {
        Some(i) => if i < t.templates.len() {
            Some(t.templates[i as int])
        } else {
            None
        },
        None => None,
    }
}

/// What a list holds.
pub open spec fn element_of(t: model::Types, id: VecId) -> Type {
    if id.0 < t.vecs.len() {
        t.vecs[id.0 as int]
    } else {
        Type::I32
    }
}

/// What an option holds when it holds anything.
pub open spec fn inner_of(t: model::Types, id: OptionId) -> Type {
    if id.0 < t.options.len() {
        t.options[id.0 as int]
    } else {
        Type::I32
    }
}

pub open spec fn struct_of(t: model::Types, id: StructId) -> Option<model::StructDef> {
    if id.0 < t.structs.len() {
        Some(t.structs[id.0 as int])
    } else {
        None
    }
}

pub open spec fn enum_of(t: model::Types, id: EnumId) -> Option<model::EnumDef> {
    if id.0 < t.enums.len() {
        Some(t.enums[id.0 as int])
    } else {
        None
    }
}

/// The first position of `ty` from `i` on, or the length.
pub open spec fn position(types: Seq<Type>, ty: Type, i: int) -> int
    decreases types.len() - i,
{
    if i < 0 || i >= types.len() {
        types.len() as int
    } else if types[i] == ty {
        i
    } else {
        position(types, ty, i + 1)
    }
}

/// The list with `ty` in it, once.
pub open spec fn interned(types: Seq<Type>, ty: Type) -> Seq<Type> {
    if position(types, ty, 0) < types.len() {
        types
    } else {
        types.push(ty)
    }
}

/// `Vec<elem>`, interned so that the same list type is the same id.
pub open spec fn vec_type(t: model::Types, elem: Type) -> (model::Types, Type) {
    (
        model::Types { vecs: interned(t.vecs, elem), ..t },
        Type::Vec(VecId(position(t.vecs, elem, 0) as u32)),
    )
}

/// `Option<inner>`, interned so that the same option type is the same id.
pub open spec fn option_type(t: model::Types, inner: Type) -> (model::Types, Type) {
    (
        model::Types { options: interned(t.options, inner), ..t },
        Type::Option(OptionId(position(t.options, inner, 0) as u32)),
    )
}

/// A type as a diagnostic should spell it, which for a user type is its own name.
pub open spec fn name_within(t: model::Types, ty: Type, depth: nat) -> Seq<char>
    decreases depth,
{
    match ty {
        Type::Fix(Scale::Const(scale)) => "fix<"@ + nat_text(scale as nat) + ">"@,
        Type::Struct(id) => match struct_of(t, id) {
            Some(def) => def.name,
            None => ty.name_text(),
        },
        Type::View(id) => match struct_of(t, id) {
            Some(def) => def.name,
            None => ty.name_text(),
        },
        Type::Enum(id) => match enum_of(t, id) {
            Some(def) => def.name,
            None => ty.name_text(),
        },
        Type::Vec(id) => if depth == 0 {
            ty.name_text()
        } else {
            "Vec<"@ + name_within(t, element_of(t, id), (depth - 1) as nat) + ">"@
        },
        Type::Option(id) => if depth == 0 {
            ty.name_text()
        } else {
            "Option<"@ + name_within(t, inner_of(t, id), (depth - 1) as nat) + ">"@
        },
        _ => ty.name_text(),
    }
}

#[verifier::opaque]
pub open spec fn name_of(t: model::Types, ty: Type) -> Seq<char> {
    name_within(t, ty, DEPTH as nat)
}

/// The type as a datapack path can spell it.
pub open spec fn mangle_within(t: model::Types, ty: Type, depth: nat) -> Seq<char>
    decreases depth,
{
    match ty {
        Type::Str => "string"@,
        Type::Vec(id) => if depth == 0 {
            "vec"@
        } else {
            "vec_"@ + mangle_within(t, element_of(t, id), (depth - 1) as nat)
        },
        Type::Option(id) => if depth == 0 {
            "option"@
        } else {
            "option_"@ + mangle_within(t, inner_of(t, id), (depth - 1) as nat)
        },
        Type::Fix(Scale::Const(scale)) => "fix_"@ + nat_text(scale as nat),
        Type::Struct(_) => path_name(name_of(t, ty)),
        Type::Enum(_) => path_name(name_of(t, ty)),
        _ => ty.name_text(),
    }
}

/// A name in lower case, with everything a path cannot hold written as `_` inside it and
/// left out around it.
pub open spec fn path_name(name: Seq<char>) -> Seq<char> {
    lowered(trim_start(trim_end(underscored(name), '_'), '_'))
}

#[verifier::opaque]
pub open spec fn mangled(t: model::Types, ty: Type) -> Seq<char> {
    mangle_within(t, ty, DEPTH as nat)
}

/// Whether a type parameter occurs in `ty`.
pub open spec fn mentions_within(t: model::Types, ty: Type, depth: nat) -> bool
    decreases depth, 0int,
{
    match ty {
        Type::Param(_) => true,
        Type::Fix(Scale::Param(_)) => true,
        Type::Vec(id) => depth > 0 && mentions_within(t, element_of(t, id), (depth - 1) as nat),
        Type::Option(id) => depth > 0 && mentions_within(t, inner_of(t, id), (depth - 1) as nat),
        Type::Struct(id) => match struct_of(t, id) {
            Some(def) => match def.from {
                Some((_, args)) => depth > 0 && any_mentions(t, args, 0, (depth - 1) as nat),
                None => false,
            },
            None => false,
        },
        _ => false,
    }
}

pub open spec fn any_mentions(t: model::Types, types: Seq<Type>, i: int, depth: nat) -> bool
    decreases depth, types.len() - i + 1,
{
    if i < 0 || i >= types.len() {
        false
    } else {
        mentions_within(t, types[i], depth) || any_mentions(t, types, i + 1, depth)
    }
}

/// `ty` with its type parameters replaced by `args`, and the table with whatever types
/// that makes. An instance that is made has no fields yet.
pub open spec fn replaced(t: model::Types, ty: Type, args: Seq<Type>, depth: nat) -> (
    model::Types,
    Type,
)
    decreases depth, 0int,
{
    match ty {
        Type::Fix(Scale::Param(index)) => (
            t,
            if index < args.len() {
                args[index as int]
            } else {
                Type::Fix(Scale::Const(1))
            },
        ),
        Type::Param(index) => (
            t,
            if index < args.len() {
                args[index as int]
            } else {
                Type::I32
            },
        ),
        Type::Vec(id) => if depth == 0 {
            (t, ty)
        } else {
            let (t1, elem) = replaced(t, element_of(t, id), args, (depth - 1) as nat);
            vec_type(t1, elem)
        },
        Type::Option(id) => if depth == 0 {
            (t, ty)
        } else {
            let (t1, inner) = replaced(t, inner_of(t, id), args, (depth - 1) as nat);
            option_type(t1, inner)
        },
        Type::Struct(id) => match struct_of(t, id) {
            Some(def) => match def.from {
                Some((index, targs)) => if depth > 0 && any_mentions(t, targs, 0, DEPTH as nat)
                    && index < t.templates.len() {
                    let (t1, made) = replaced_all(t, targs, 0, args, seq![], (depth - 1) as nat);
                    match reserved(t1, t.templates[index as int].name, made) {
                        (t2, Some(found)) => (t2, found),
                        (t2, None) => (t2, ty),
                    }
                } else {
                    (t, ty)
                },
                None => (t, ty),
            },
            None => (t, ty),
        },
        _ => (t, ty),
    }
}

pub open spec fn replaced_all(
    t: model::Types,
    types: Seq<Type>,
    i: int,
    args: Seq<Type>,
    acc: Seq<Type>,
    depth: nat,
) -> (model::Types, Seq<Type>)
    decreases depth, types.len() - i + 1,
{
    if i < 0 || i >= types.len() {
        (t, acc)
    } else {
        let (t1, made) = replaced(t, types[i], args, depth);
        replaced_all(t1, types, i + 1, args, acc.push(made), depth)
    }
}

/// The position of the struct made from that template with those arguments.
pub open spec fn instance_at(structs: Seq<model::StructDef>, key: (usize, Seq<Type>), i: int) -> int
    decreases structs.len() - i,
{
    if i < 0 || i >= structs.len() {
        structs.len() as int
    } else if structs[i].from == Some(key) {
        i
    } else {
        instance_at(structs, key, i + 1)
    }
}

/// How the types of a list are spelled.
pub open spec fn names_of(t: model::Types, types: Seq<Type>) -> Seq<Seq<char>> {
    Seq::new(types.len(), |i: int| name_of(t, types[i]))
}

/// The concrete struct for `name<args>`, made once and then found again. One that is made
/// gets its fields later, so that they can name it.
pub open spec fn reserved(t: model::Types, name: Seq<char>, args: Seq<Type>) -> (
    model::Types,
    Option<Type>,
) {
    match (lookup(t.template_by_name, name), template_of(t, name)) {
        (Some(index), Some(template)) => {
            let known = instance_at(t.structs, (index, args), 0);
            if known < t.structs.len() {
                (t, Some(Type::Struct(t.structs[known].id)))
            } else {
                let id = StructId(t.structs.len() as u32);
                let def = model::StructDef {
                    id,
                    name: template.name + "<"@ + join(names_of(t, args), ", "@) + ">"@,
                    fields: seq![],
                    span: template.span,
                    from: Some((index, args)),
                };
                (model::Types { structs: t.structs.push(def), ..t }, Some(Type::Struct(id)))
            }
        },
        _ => (t, None),
    }
}

/// The fields of an instance. A field whose type came from a parameter takes the tag of
/// what the parameter turned out to be.
pub open spec fn instance_fields(
    t: model::Types,
    fields: Seq<model::Field>,
    i: int,
    args: Seq<Type>,
    acc: Seq<model::Field>,
) -> (model::Types, Seq<model::Field>)
    decreases fields.len() - i,
{
    if i < 0 || i >= fields.len() {
        (t, acc)
    } else {
        let field = fields[i];
        let (t1, ty) = replaced(t, field.ty, args, DEPTH as nat);
        let tag = if mentions_within(t1, field.ty, DEPTH as nat) {
            default_tag(ty)
        } else {
            field.tag
        };
        instance_fields(
            t1,
            fields,
            i + 1,
            args,
            acc.push(model::Field { ty, tag, ..field }),
        )
    }
}

/// The table with the fields of the `i`th struct settled, if it is an instance.
pub open spec fn filled_at(t: model::Types, i: int) -> model::Types {
    match t.structs[i].from {
        Some((p, args)) => if p < t.templates.len() {
            let (t1, fields) = instance_fields(
                t,
                t.templates[p as int].fields,
                0,
                args,
                seq![],
            );
            model::Types {
                structs: t1.structs.update(i, model::StructDef { fields, ..t1.structs[i] }),
                ..t1
            }
        } else {
            t
        },
        None => t,
    }
}

/// How many instances are filled in at most when one is made: as many as there are ids.
pub const ROOM: u32 = 0xffff_ffff;

/// The table with the fields of the instances from the `i`th on settled, as many as there
/// is room for. Settling one can make others, which follow it.
pub open spec fn filled(t: model::Types, i: int, room: nat) -> model::Types
    decreases room,
{
    if i < 0 || i >= t.structs.len() || room == 0 {
        t
    } else {
        filled(filled_at(t, i), i + 1, (room - 1) as nat)
    }
}

/// The concrete struct for `name<args>`, with whatever its fields need.
#[verifier::opaque]
pub open spec fn instantiated(t: model::Types, name: Seq<char>, args: Seq<Type>) -> (
    model::Types,
    Option<Type>,
) {
    let (t1, made) = reserved(t, name, args);
    (filled(t1, t.structs.len() as int, ROOM as nat), made)
}

/// `ty` with its type parameters replaced by `args`, and the table with whatever types that
/// makes and their fields need.
#[verifier::opaque]
pub open spec fn substituted(t: model::Types, ty: Type, args: Seq<Type>) -> (model::Types, Type) {
    let (t1, made) = replaced(t, ty, args, DEPTH as nat);
    (filled(t1, t.structs.len() as int, ROOM as nat), made)
}

proof fn lemma_replaced_grows(t: model::Types, ty: Type, args: Seq<Type>, depth: nat)
    ensures
        replaced(t, ty, args, depth).0.structs.len() >= t.structs.len(),
    decreases depth, 0int,
{
    match ty {
        Type::Vec(id) => if depth > 0 {
            lemma_replaced_grows(t, element_of(t, id), args, (depth - 1) as nat);
        },
        Type::Option(id) => if depth > 0 {
            lemma_replaced_grows(t, inner_of(t, id), args, (depth - 1) as nat);
        },
        Type::Struct(id) => match struct_of(t, id) {
            Some(def) => match def.from {
                Some((index, targs)) => if depth > 0 {
                    lemma_replaced_all_grows(t, targs, 0, args, seq![], (depth - 1) as nat);
                },
                None => {},
            },
            None => {},
        },
        _ => {},
    }
}

proof fn lemma_replaced_all_grows(
    t: model::Types,
    types: Seq<Type>,
    i: int,
    args: Seq<Type>,
    acc: Seq<Type>,
    depth: nat,
)
    ensures
        replaced_all(t, types, i, args, acc, depth).0.structs.len() >= t.structs.len(),
    decreases depth, types.len() - i + 1,
{
    if 0 <= i < types.len() {
        let (t1, made) = replaced(t, types[i], args, depth);
        lemma_replaced_grows(t, types[i], args, depth);
        lemma_replaced_all_grows(t1, types, i + 1, args, acc.push(made), depth);
    }
}

proof fn lemma_instance_fields_grow(
    t: model::Types,
    fields: Seq<model::Field>,
    i: int,
    args: Seq<Type>,
    acc: Seq<model::Field>,
)
    ensures
        instance_fields(t, fields, i, args, acc).0.structs.len() >= t.structs.len(),
    decreases fields.len() - i,
{
    if 0 <= i < fields.len() {
        let field = fields[i];
        let (t1, ty) = replaced(t, field.ty, args, DEPTH as nat);
        let tag = if mentions_within(t1, field.ty, DEPTH as nat) {
            default_tag(ty)
        } else {
            field.tag
        };
        lemma_replaced_grows(t, field.ty, args, DEPTH as nat);
        lemma_instance_fields_grow(
            t1,
            fields,
            i + 1,
            args,
            acc.push(model::Field { ty, tag, ..field }),
        );
    }
}

/// Binds parameter `index` to `actual`, or checks it against what it is bound to.
pub open spec fn bind(bound: Seq<Option<Type>>, index: u32, actual: Type) -> (
    Seq<Option<Type>>,
    bool,
) {
    if index < bound.len() {
        match bound[index as int] {
            Some(known) => (bound, known == actual),
            None => (bound.update(index as int, Some(actual)), true),
        }
    } else {
        (bound, false)
    }
}

/// Matches a declared type against an actual one, binding type parameters.
///
/// Structural, not a solver: every parameter is bound by appearing somewhere in an
/// argument's type, and anything else is a mismatch.
pub open spec fn unified(
    t: model::Types,
    declared: Type,
    actual: Type,
    bound: Seq<Option<Type>>,
    depth: nat,
) -> (Seq<Option<Type>>, bool)
    decreases depth, 0int,
{
    match (declared, actual) {
        (Type::Fix(Scale::Param(index)), Type::Fix(Scale::Const(_))) => bind(bound, index, actual),
        (Type::Param(index), _) => bind(bound, index, actual),
        (Type::Vec(a), Type::Vec(b)) => if depth == 0 {
            (bound, declared == actual)
        } else {
            unified(t, element_of(t, a), element_of(t, b), bound, (depth - 1) as nat)
        },
        (Type::Option(a), Type::Option(b)) => if depth == 0 {
            (bound, declared == actual)
        } else {
            unified(t, inner_of(t, a), inner_of(t, b), bound, (depth - 1) as nat)
        },
        (Type::Struct(a), Type::Struct(b)) => match (struct_of(t, a), struct_of(t, b)) {
            (Some(x), Some(y)) => match (x.from, y.from) {
                (Some((p, aargs)), Some((q, bargs))) => if p == q && depth > 0 {
                    unified_all(t, aargs, bargs, 0, bound, (depth - 1) as nat)
                } else {
                    (bound, x.id == y.id)
                },
                _ => (bound, x.id == y.id),
            },
            _ => (bound, declared == actual),
        },
        _ => (bound, declared == actual),
    }
}

/// The same for two lists side by side, up to the first mismatch.
pub open spec fn unified_all(
    t: model::Types,
    declared: Seq<Type>,
    actual: Seq<Type>,
    i: int,
    bound: Seq<Option<Type>>,
    depth: nat,
) -> (Seq<Option<Type>>, bool)
    decreases depth, declared.len() - i + 1,
{
    if i < 0 || i >= declared.len() || i >= actual.len() {
        (bound, true)
    } else {
        match unified(t, declared[i], actual[i], bound, depth) {
            (bound1, true) => unified_all(t, declared, actual, i + 1, bound1, depth),
            (bound1, false) => (bound1, false),
        }
    }
}

/// The fields of the variants of an `enum` from `i` on, one after the other.
pub open spec fn variant_fields(variants: Seq<model::Variant>, i: int) -> Seq<model::Field>
    decreases variants.len() - i,
{
    if i < 0 || i >= variants.len() {
        seq![]
    } else {
        variants[i].fields + variant_fields(variants, i + 1)
    }
}

/// The fields a composite type holds, across every variant of an `enum`.
pub open spec fn fields_of(t: model::Types, ty: Type) -> Seq<model::Field> {
    match ty {
        Type::Struct(id) => match struct_of(t, id) {
            Some(def) => def.fields,
            None => seq![],
        },
        Type::Enum(id) => match enum_of(t, id) {
            Some(def) => variant_fields(def.variants, 0),
            None => seq![],
        },
        _ => seq![],
    }
}

// ---------------------------------------------------------------------------
// The table.
// ---------------------------------------------------------------------------

/// Every type the program defines, and the names they answer to.
#[derive(Debug, PartialEq, Eq)]
pub struct Types {
    /// Every concrete struct, including the instances monomorphisation creates.
    structs: Vec<StructDef>,
    enums: Vec<EnumDef>,
    /// Generic structs, kept as written. A template is never a type on its own.
    templates: Vec<StructTemplate>,
    by_name: Vec<(String, Type)>,
    template_by_name: Vec<(String, usize)>,
    /// Element type per `VecId`, interned the same way.
    vecs: Vec<Type>,
    /// Inner type per `OptionId`.
    options: Vec<Type>,
}

/// The entry a name was given last.
pub(crate) fn find_entry<T: Copy>(entries: &Vec<(String, T)>, name: &str) -> (r: Option<T>)
    ensures
        r == lookup(entries_view(entries@), name@),
{
    let mut i: usize = entries.len();
    proof {
        assert(entries_view(entries@).take(i as int) =~= entries_view(entries@));
    }
    while i > 0
        invariant
            i <= entries@.len(),
            lookup(entries_view(entries@), name@) == lookup(
                entries_view(entries@).take(i as int),
                name@,
            ),
        decreases i,
    {
        proof {
            assert(entries_view(entries@).take(i as int).drop_last() =~= entries_view(
                entries@,
            ).take(i - 1));
        }
        i -= 1;
        if same(entries[i].0.as_str(), name) {
            return Some(entries[i].1);
        }
    }
    None
}

pub(crate) fn same_types(a: &Vec<Type>, b: &Vec<Type>) -> (r: bool)
    ensures
        r == (a@ == b@),
{
    if a.len() != b.len() {
        return false;
    }
    let mut i: usize = 0;
    while i < a.len()
        invariant
            i <= a@.len(),
            a@.len() == b@.len(),
            forall|k: int| 0 <= k < i ==> a@[k] == b@[k],
        decreases a.len() - i,
    {
        if a[i] != b[i] {
            return false;
        }
        i += 1;
    }
    assert(a@ =~= b@);
    true
}

pub(crate) fn copy_types(v: &Vec<Type>) -> (r: Vec<Type>)
    ensures
        r@ == v@,
{
    let mut out: Vec<Type> = Vec::new();
    let mut i: usize = 0;
    while i < v.len()
        invariant
            i <= v@.len(),
            out@ == v@.take(i as int),
        decreases v.len() - i,
    {
        out.push(v[i]);
        i += 1;
    }
    assert(out@ =~= v@);
    out
}

fn find_type(types: &Vec<Type>, ty: Type) -> (r: usize)
    ensures
        r == position(types@, ty, 0),
        r <= types@.len(),
{
    let mut i: usize = 0;
    while i < types.len() && types[i] != ty
        invariant
            i <= types@.len(),
            position(types@, ty, 0) == position(types@, ty, i as int),
        decreases types.len() - i,
    {
        i += 1;
    }
    i
}

impl Default for Types {
    fn default() -> (r: Types)
        ensures
            r@ == empty_types(),
            tidy(r@),
            fitting(r@),
    {
        Types::new()
    }
}

impl Types {
    pub closed spec fn view(&self) -> model::Types {
        model::Types {
            structs: structs_view(self.structs@),
            enums: enums_view(self.enums@),
            templates: templates_view(self.templates@),
            by_name: entries_view(self.by_name@),
            template_by_name: entries_view(self.template_by_name@),
            vecs: self.vecs@,
            options: self.options@,
        }
    }

    /// A table with nothing in it.
    pub fn new() -> (r: Types)
        ensures
            r@ == empty_types(),
            tidy(r@),
            fitting(r@),
    {
        let r = Types {
            structs: Vec::new(),
            enums: Vec::new(),
            templates: Vec::new(),
            by_name: Vec::new(),
            template_by_name: Vec::new(),
            vecs: Vec::new(),
            options: Vec::new(),
        };
        proof {
            assert(r@.structs =~= seq![]);
            assert(r@.enums =~= seq![]);
            assert(r@.templates =~= seq![]);
            assert(r@.by_name =~= seq![]);
            assert(r@.template_by_name =~= seq![]);
            assert(r@.vecs =~= seq![]);
            assert(r@.options =~= seq![]);
            lemma_the_empty_table_is_tidy();
        }
        r
    }

    pub fn get(&self, name: &str) -> (r: Option<Type>)
        ensures
            r == lookup(self@.by_name, name@),
    {
        find_entry(&self.by_name, name)
    }

    /// A struct by id.
    pub fn struct_def(&self, id: StructId) -> (r: &StructDef)
        requires
            id.0 < self@.structs.len(),
        ensures
            r@ == self@.structs[id.0 as int],
    {
        &self.structs[id.0 as usize]
    }

    pub(crate) fn find_struct(&self, id: StructId) -> (r: Option<&StructDef>)
        ensures
            match r {
                Some(def) => struct_of(self@, id) == Some(def@),
                None => struct_of(self@, id) is None,
            },
    {
        if (id.0 as usize) < self.structs.len() {
            Some(&self.structs[id.0 as usize])
        } else {
            None
        }
    }

    pub fn struct_count(&self) -> (r: usize)
        ensures
            r == self@.structs.len(),
    {
        self.structs.len()
    }

    pub(crate) fn struct_at(&self, i: usize) -> (r: &StructDef)
        requires
            i < self@.structs.len(),
        ensures
            r@ == self@.structs[i as int],
    {
        &self.structs[i]
    }

    pub(crate) fn enum_at(&self, i: usize) -> (r: &EnumDef)
        requires
            i < self@.enums.len(),
        ensures
            r@ == self@.enums[i as int],
    {
        &self.enums[i]
    }

    pub(crate) fn enum_count(&self) -> (r: usize)
        ensures
            r == self@.enums.len(),
    {
        self.enums.len()
    }

    pub fn template(&self, name: &str) -> (r: Option<&StructTemplate>)
        ensures
            match r {
                Some(template) => template_of(self@, name@) == Some(template@),
                None => template_of(self@, name@) is None,
            },
    {
        match find_entry(&self.template_by_name, name) {
            Some(i) => {
                if i < self.templates.len() {
                    Some(&self.templates[i])
                } else {
                    None
                }
            },
            None => None,
        }
    }

    pub(crate) fn template_at(&self, p: usize) -> (r: Option<&StructTemplate>)
        ensures
            match r {
                Some(template) => p < self@.templates.len() && template@
                    == self@.templates[p as int],
                None => p >= self@.templates.len(),
            },
    {
        if p < self.templates.len() {
            Some(&self.templates[p])
        } else {
            None
        }
    }

    pub(crate) fn template_count(&self) -> (r: usize)
        ensures
            r == self@.templates.len(),
    {
        self.templates.len()
    }

    pub(crate) fn has_template(&self, name: &str) -> (r: bool)
        ensures
            r == (lookup(self@.template_by_name, name@) is Some),
    {
        find_entry(&self.template_by_name, name).is_some()
    }

    /// The concrete struct for `name<args>`, made once and then found again.
    pub fn instantiate(&mut self, name: &str, args: &Vec<Type>) -> (r: Option<Type>)
        ensures
            (final(self)@, r) == instantiated(old(self)@, name@, args@),
            tidy(old(self)@) ==> tidy(final(self)@) && remembers(old(self)@, final(self)@),
            tidy(old(self)@) && fitting(old(self)@) && takes(old(self)@, name@, args@.len())
                ==> fitting(final(self)@),
    {
        proof {
            reveal(instantiated);
            if tidy(self@) {
                lemma_making_types_keeps_the_table(self@, Type::I32, name@, args@);
                if fitting(self@) {
                    lemma_making_types_keeps_instances_fitting(self@, Type::I32, name@, args@);
                }
            }
        }
        let from: usize = self.structs.len();
        let made = self.reserve(name, args);
        self.fill(from, ROOM as usize);
        made
    }

    /// The concrete struct for `name<args>`, without its fields where it is new.
    fn reserve(&mut self, name: &str, args: &Vec<Type>) -> (r: Option<Type>)
        ensures
            (final(self)@, r) == reserved(old(self)@, name@, args@),
    {
        let index: usize = match find_entry(&self.template_by_name, name) {
            Some(index) => index,
            None => return None,
        };
        if index >= self.templates.len() {
            return None;
        }
        let known = self.find_instance(index, args);
        if known < self.structs.len() {
            return Some(Type::Struct(self.structs[known].id));
        }
        let ghost template = self.templates@[index as int]@;
        let span = self.templates[index].span;
        let id = StructId(self.structs.len() as u32);
        let names = self.names(args);
        let name = cat4(
            self.templates[index].name.as_str(),
            "<",
            join_texts(&names, ", ").as_str(),
            ">",
        );
        let fields: Vec<Field> = Vec::new();
        proof {
            assert(fields_view(fields@) =~= seq![]);
        }
        let def = StructDef { id, name, fields, span, from: Some((index, copy_types(args))) };
        let ghost shown = def@;
        let ghost before = self@;
        self.structs.push(def);
        proof {
            assert(self@.structs =~= before.structs.push(shown));
        }
        Some(Type::Struct(id))
    }

    /// Settles the fields of the `i`th struct, if it is an instance.
    fn fill_at(&mut self, i: usize)
        requires
            i < old(self)@.structs.len(),
        ensures
            final(self)@ == filled_at(old(self)@, i as int),
            final(self)@.structs.len() >= old(self)@.structs.len(),
    {
        let (p, args): (usize, Vec<Type>) = match &self.structs[i].from {
            Some((p, args)) => (*p, copy_types(args)),
            None => return,
        };
        if p >= self.templates.len() {
            return;
        }
        let declared = copy_fields(&self.templates[p].fields);
        let ghost before = self@;
        proof {
            lemma_instance_fields_grow(before, fields_view(declared@), 0, args@, seq![]);
        }
        let fields = self.instance_fields(&declared, &args);
        let ghost after = self@;
        let old_def = &self.structs[i];
        let def = StructDef {
            id: old_def.id,
            name: old_def.name.clone(),
            fields,
            span: old_def.span,
            from: match &old_def.from {
                Some((p, args)) => Some((*p, copy_types(args))),
                None => None,
            },
        };
        let ghost shown = def@;
        self.structs.set(i, def);
        proof {
            assert(self@.structs =~= after.structs.update(i as int, shown));
        }
    }

    /// Settles the fields of the instances from the `from`th on, as many as there is room
    /// for.
    pub(crate) fn fill(&mut self, from: usize, room: usize)
        ensures
            final(self)@ == filled(old(self)@, from as int, room as nat),
    {
        let mut i: usize = from;
        let mut left: usize = room;
        while i < self.structs.len() && left > 0
            invariant
                filled(old(self)@, from as int, room as nat) == filled(
                    self@,
                    i as int,
                    left as nat,
                ),
            decreases left,
        {
            self.fill_at(i);
            i += 1;
            left -= 1;
        }
    }

    fn find_instance(&self, index: usize, args: &Vec<Type>) -> (r: usize)
        ensures
            r == instance_at(self@.structs, (index, args@), 0),
            r <= self.structs@.len(),
    {
        let mut i: usize = 0;
        while i < self.structs.len()
            invariant
                i <= self.structs@.len(),
                instance_at(self@.structs, (index, args@), 0) == instance_at(
                    self@.structs,
                    (index, args@),
                    i as int,
                ),
            decreases self.structs.len() - i,
        {
            match &self.structs[i].from {
                Some((from, targs)) => {
                    if *from == index && same_types(targs, args) {
                        return i;
                    }
                },
                None => {},
            }
            i += 1;
        }
        i
    }

    /// How each of the types is spelled.
    pub(crate) fn names(&self, types: &Vec<Type>) -> (r: Vec<String>)
        ensures
            texts(r@) == names_of(self@, types@),
    {
        let mut out: Vec<String> = Vec::new();
        let mut i: usize = 0;
        while i < types.len()
            invariant
                i <= types@.len(),
                out@.len() == i,
                forall|k: int| 0 <= k < i ==> (#[trigger] out@[k])@ == name_of(self@, types@[k]),
            decreases types.len() - i,
        {
            out.push(self.name_of(types[i]));
            i += 1;
        }
        assert(texts(out@) =~= names_of(self@, types@));
        out
    }

    fn instance_fields(&mut self, fields: &Vec<Field>, args: &Vec<Type>) -> (r: Vec<Field>)
        ensures
            (final(self)@, fields_view(r@)) == instance_fields(
                old(self)@,
                fields_view(fields@),
                0,
                args@,
                seq![],
            ),
    {
        let mut out: Vec<Field> = Vec::new();
        let mut i: usize = 0;
        proof {
            assert(fields_view(out@) =~= seq![]);
        }
        while i < fields.len()
            invariant
                i <= fields@.len(),
                instance_fields(old(self)@, fields_view(fields@), 0, args@, seq![])
                    == instance_fields(
                    self@,
                    fields_view(fields@),
                    i as int,
                    args@,
                    fields_view(out@),
                ),
            decreases fields.len() - i,
        {
            let ty = self.replace(fields[i].ty, args, DEPTH);
            let tag = if self.mentions_within(fields[i].ty, DEPTH) {
                NbtTag::default_for(ty)
            } else {
                fields[i].tag
            };
            let field = Field { name: fields[i].name.clone(), nbt: fields[i].nbt.clone(), ty, tag };
            let ghost before = fields_view(out@);
            let ghost shown = field@;
            out.push(field);
            proof {
                assert(fields_view(out@) =~= before.push(shown));
            }
            i += 1;
        }
        out
    }

    /// Replaces the type parameters in `ty` with `args`.
    pub fn substitute(&mut self, ty: Type, args: &Vec<Type>) -> (r: Type)
        ensures
            (final(self)@, r) == substituted(old(self)@, ty, args@),
            tidy(old(self)@) ==> tidy(final(self)@) && remembers(old(self)@, final(self)@),
            tidy(old(self)@) && fitting(old(self)@) ==> fitting(final(self)@),
    {
        proof {
            reveal(substituted);
            if tidy(self@) {
                lemma_making_types_keeps_the_table(self@, ty, seq![], args@);
                if fitting(self@) {
                    lemma_making_types_keeps_instances_fitting(self@, ty, seq![], args@);
                }
            }
        }
        let from: usize = self.structs.len();
        let made = self.replace(ty, args, DEPTH);
        self.fill(from, ROOM as usize);
        made
    }

    #[verifier::spinoff_prover]
    fn replace(&mut self, ty: Type, args: &Vec<Type>, depth: u32) -> (r: Type)
        ensures
            (final(self)@, r) == replaced(old(self)@, ty, args@, depth as nat),
        decreases depth, 0int,
    {
        match ty {
            Type::Fix(Scale::Param(index)) => {
                if (index as usize) < args.len() {
                    args[index as usize]
                } else {
                    Type::Fix(Scale::Const(1))
                }
            },
            Type::Param(index) => {
                if (index as usize) < args.len() {
                    args[index as usize]
                } else {
                    Type::I32
                }
            },
            Type::Vec(id) => {
                if depth == 0 {
                    return ty;
                }
                let elem = self.element_at(id);
                let elem = self.replace(elem, args, depth - 1);
                self.vec_of(elem)
            },
            Type::Option(id) => {
                if depth == 0 {
                    return ty;
                }
                let inner = self.inner_at(id);
                let inner = self.replace(inner, args, depth - 1);
                self.option_of(inner)
            },
            Type::Struct(id) => {
                let (index, targs): (usize, Vec<Type>) = match self.find_struct(id) {
                    Some(def) => match &def.from {
                        Some((index, targs)) => (*index, copy_types(targs)),
                        None => return ty,
                    },
                    None => return ty,
                };
                if depth == 0 || !self.any_mentions(&targs, DEPTH) || index
                    >= self.templates.len() {
                    return ty;
                }
                let name = self.templates[index].name.clone();
                let made = self.replace_all(&targs, args, depth - 1);
                match self.reserve(name.as_str(), &made) {
                    Some(found) => found,
                    None => ty,
                }
            },
            _ => ty,
        }
    }

    fn replace_all(&mut self, types: &Vec<Type>, args: &Vec<Type>, depth: u32) -> (r: Vec<Type>)
        ensures
            (final(self)@, r@) == replaced_all(
                old(self)@,
                types@,
                0,
                args@,
                seq![],
                depth as nat,
            ),
        decreases depth, types.len() + 1,
    {
        let mut out: Vec<Type> = Vec::new();
        let mut i: usize = 0;
        proof {
            assert(out@ =~= seq![]);
        }
        while i < types.len()
            invariant
                i <= types@.len(),
                replaced_all(old(self)@, types@, 0, args@, seq![], depth as nat) == replaced_all(
                    self@,
                    types@,
                    i as int,
                    args@,
                    out@,
                    depth as nat,
                ),
            decreases types.len() - i,
        {
            let made = self.replace(types[i], args, depth);
            out.push(made);
            i += 1;
        }
        out
    }

    fn mentions_within(&self, ty: Type, depth: u32) -> (r: bool)
        ensures
            r == mentions_within(self@, ty, depth as nat),
        decreases depth, 0int,
    {
        match ty {
            Type::Param(_) => true,
            Type::Fix(Scale::Param(_)) => true,
            Type::Vec(id) => depth > 0 && self.mentions_within(self.element_at(id), depth - 1),
            Type::Option(id) => depth > 0 && self.mentions_within(self.inner_at(id), depth - 1),
            Type::Struct(id) => match self.find_struct(id) {
                Some(def) => match &def.from {
                    Some((_, args)) => depth > 0 && self.any_mentions(args, depth - 1),
                    None => false,
                },
                None => false,
            },
            _ => false,
        }
    }

    fn any_mentions(&self, types: &Vec<Type>, depth: u32) -> (r: bool)
        ensures
            r == any_mentions(self@, types@, 0, depth as nat),
        decreases depth, types.len() + 1,
    {
        let mut i: usize = 0;
        while i < types.len()
            invariant
                i <= types@.len(),
                any_mentions(self@, types@, 0, depth as nat) == any_mentions(
                    self@,
                    types@,
                    i as int,
                    depth as nat,
                ),
            decreases types.len() - i,
        {
            if self.mentions_within(types[i], depth) {
                return true;
            }
            i += 1;
        }
        false
    }

    /// Matches a declared type against an actual one, binding type parameters.
    pub fn unify(&self, declared: Type, actual: Type, args: &mut Vec<Option<Type>>) -> (r: bool)
        ensures
            (final(args)@, r) == unified(self@, declared, actual, old(args)@, DEPTH as nat),
    {
        self.unify_within(declared, actual, args, DEPTH)
    }

    fn bind(index: u32, actual: Type, args: &mut Vec<Option<Type>>) -> (r: bool)
        ensures
            (final(args)@, r) == bind(old(args)@, index, actual),
    {
        if (index as usize) < args.len() {
            match args[index as usize] {
                Some(known) => known == actual,
                None => {
                    args.set(index as usize, Some(actual));
                    true
                },
            }
        } else {
            false
        }
    }

    #[verifier::spinoff_prover]
    fn unify_within(
        &self,
        declared: Type,
        actual: Type,
        args: &mut Vec<Option<Type>>,
        depth: u32,
    ) -> (r: bool)
        ensures
            (final(args)@, r) == unified(self@, declared, actual, old(args)@, depth as nat),
        decreases depth, 0int,
    {
        match (declared, actual) {
            (Type::Fix(Scale::Param(index)), Type::Fix(Scale::Const(_))) => {
                Types::bind(index, actual, args)
            },
            (Type::Param(index), _) => Types::bind(index, actual, args),
            (Type::Vec(a), Type::Vec(b)) => {
                if depth == 0 {
                    return declared == actual;
                }
                let x = self.element_at(a);
                let y = self.element_at(b);
                self.unify_within(x, y, args, depth - 1)
            },
            (Type::Option(a), Type::Option(b)) => {
                if depth == 0 {
                    return declared == actual;
                }
                let x = self.inner_at(a);
                let y = self.inner_at(b);
                self.unify_within(x, y, args, depth - 1)
            },
            (Type::Struct(a), Type::Struct(b)) => {
                match (self.find_struct(a), self.find_struct(b)) {
                    (Some(x), Some(y)) => match (&x.from, &y.from) {
                        (Some((p, aargs)), Some((q, bargs))) => {
                            if *p == *q && depth > 0 {
                                self.unify_all(aargs, bargs, args, depth - 1)
                            } else {
                                x.id == y.id
                            }
                        },
                        _ => x.id == y.id,
                    },
                    _ => declared == actual,
                }
            },
            _ => declared == actual,
        }
    }

    fn unify_all(
        &self,
        declared: &Vec<Type>,
        actual: &Vec<Type>,
        args: &mut Vec<Option<Type>>,
        depth: u32,
    ) -> (r: bool)
        ensures
            (final(args)@, r) == unified_all(
                self@,
                declared@,
                actual@,
                0,
                old(args)@,
                depth as nat,
            ),
        decreases depth, declared.len() + 1,
    {
        let mut i: usize = 0;
        while i < declared.len() && i < actual.len()
            invariant
                i <= declared@.len(),
                unified_all(self@, declared@, actual@, 0, old(args)@, depth as nat)
                    == unified_all(self@, declared@, actual@, i as int, args@, depth as nat),
            decreases declared.len() - i,
        {
            if !self.unify_within(declared[i], actual[i], args, depth) {
                return false;
            }
            i += 1;
        }
        true
    }

    /// The type as a datapack path can spell it.
    pub fn mangle(&self, ty: Type) -> (r: String)
        ensures
            r@ == mangled(self@, ty),
    {
        proof {
            reveal(mangled);
        }
        self.mangle_within(ty, DEPTH)
    }

    fn mangle_within(&self, ty: Type, depth: u32) -> (r: String)
        ensures
            r@ == mangle_within(self@, ty, depth as nat),
        decreases depth,
    {
        match ty {
            Type::Str => own("string"),
            Type::Vec(id) => {
                if depth == 0 {
                    return own("vec");
                }
                cat2("vec_", self.mangle_within(self.element_at(id), depth - 1).as_str())
            },
            Type::Option(id) => {
                if depth == 0 {
                    return own("option");
                }
                cat2("option_", self.mangle_within(self.inner_at(id), depth - 1).as_str())
            },
            Type::Fix(Scale::Const(scale)) => cat2("fix_", show_u64(scale as u64).as_str()),
            Type::Struct(_) => to_path_name(self.name_of(ty).as_str()),
            Type::Enum(_) => to_path_name(self.name_of(ty).as_str()),
            _ => own(ty.name()),
        }
    }

    pub fn enum_def(&self, id: EnumId) -> (r: &EnumDef)
        requires
            id.0 < self@.enums.len(),
        ensures
            r@ == self@.enums[id.0 as int],
    {
        &self.enums[id.0 as usize]
    }

    pub(crate) fn find_enum(&self, id: EnumId) -> (r: Option<&EnumDef>)
        ensures
            match r {
                Some(def) => enum_of(self@, id) == Some(def@),
                None => enum_of(self@, id) is None,
            },
    {
        if (id.0 as usize) < self.enums.len() {
            Some(&self.enums[id.0 as usize])
        } else {
            None
        }
    }

    /// A type as a diagnostic should spell it, which for a user type is its own name.
    pub fn name_of(&self, ty: Type) -> (r: String)
        ensures
            r@ == name_of(self@, ty),
    {
        proof {
            reveal(name_of);
        }
        self.name_within(ty, DEPTH)
    }

    fn name_within(&self, ty: Type, depth: u32) -> (r: String)
        ensures
            r@ == name_within(self@, ty, depth as nat),
        decreases depth,
    {
        match ty {
            Type::Fix(Scale::Const(scale)) => cat3("fix<", show_u64(scale as u64).as_str(), ">"),
            Type::Struct(id) => match self.find_struct(id) {
                Some(def) => def.name.clone(),
                None => own(ty.name()),
            },
            Type::View(id) => match self.find_struct(id) {
                Some(def) => def.name.clone(),
                None => own(ty.name()),
            },
            Type::Enum(id) => match self.find_enum(id) {
                Some(def) => def.name.clone(),
                None => own(ty.name()),
            },
            Type::Vec(id) => {
                if depth == 0 {
                    return own(ty.name());
                }
                cat3("Vec<", self.name_within(self.element_at(id), depth - 1).as_str(), ">")
            },
            Type::Option(id) => {
                if depth == 0 {
                    return own(ty.name());
                }
                cat3("Option<", self.name_within(self.inner_at(id), depth - 1).as_str(), ">")
            },
            _ => own(ty.name()),
        }
    }

    /// `Vec<elem>`, interned so that the same list type is the same id.
    pub fn vec_of(&mut self, elem: Type) -> (r: Type)
        ensures
            (final(self)@, r) == vec_type(old(self)@, elem),
            tidy(old(self)@) ==> tidy(final(self)@) && remembers(old(self)@, final(self)@),
            tidy(old(self)@) && fitting(old(self)@) ==> fitting(final(self)@),
    {
        proof {
            if tidy(self@) {
                lemma_making_types_keeps_the_table(self@, elem, seq![], seq![]);
                if fitting(self@) {
                    lemma_making_types_keeps_instances_fitting(self@, elem, seq![], seq![]);
                }
            }
        }
        let index = find_type(&self.vecs, elem);
        if index >= self.vecs.len() {
            self.vecs.push(elem);
        }
        Type::Vec(VecId(index as u32))
    }

    /// What a list holds.
    pub fn element(&self, id: VecId) -> (r: Type)
        requires
            id.0 < self@.vecs.len(),
        ensures
            r == self@.vecs[id.0 as int],
    {
        self.vecs[id.0 as usize]
    }

    pub(crate) fn element_at(&self, id: VecId) -> (r: Type)
        ensures
            r == element_of(self@, id),
    {
        if (id.0 as usize) < self.vecs.len() {
            self.vecs[id.0 as usize]
        } else {
            Type::I32
        }
    }

    /// `Option<inner>`, interned so that the same option type is the same id.
    pub fn option_of(&mut self, inner: Type) -> (r: Type)
        ensures
            (final(self)@, r) == option_type(old(self)@, inner),
            tidy(old(self)@) ==> tidy(final(self)@) && remembers(old(self)@, final(self)@),
            tidy(old(self)@) && fitting(old(self)@) ==> fitting(final(self)@),
    {
        proof {
            if tidy(self@) {
                lemma_making_types_keeps_the_table(self@, inner, seq![], seq![]);
                if fitting(self@) {
                    lemma_making_types_keeps_instances_fitting(self@, inner, seq![], seq![]);
                }
            }
        }
        let index = find_type(&self.options, inner);
        if index >= self.options.len() {
            self.options.push(inner);
        }
        Type::Option(OptionId(index as u32))
    }

    /// What an option holds when it holds anything.
    pub fn inner(&self, id: OptionId) -> (r: Type)
        requires
            id.0 < self@.options.len(),
        ensures
            r == self@.options[id.0 as int],
    {
        self.options[id.0 as usize]
    }

    pub(crate) fn inner_at(&self, id: OptionId) -> (r: Type)
        ensures
            r == inner_of(self@, id),
    {
        if (id.0 as usize) < self.options.len() {
            self.options[id.0 as usize]
        } else {
            Type::I32
        }
    }

    /// The fields a composite type holds, across every variant of an `enum`.
    pub(crate) fn fields(&self, ty: Type) -> (r: Vec<Field>)
        ensures
            fields_view(r@) == fields_of(self@, ty),
    {
        let none: Vec<Field> = Vec::new();
        proof {
            assert(fields_view(none@) =~= seq![]);
        }
        match ty {
            Type::Struct(id) => match self.find_struct(id) {
                Some(def) => copy_fields(&def.fields),
                None => none,
            },
            Type::Enum(id) => match self.find_enum(id) {
                Some(def) => {
                    let mut out = none;
                    let mut i: usize = 0;
                    proof {
                        assert(fields_view(out@) + variant_fields(def@.variants, 0)
                            =~= variant_fields(def@.variants, 0));
                    }
                    while i < def.variants.len()
                        invariant
                            i <= def.variants@.len(),
                            variant_fields(def@.variants, 0) == fields_view(out@)
                                + variant_fields(def@.variants, i as int),
                        decreases def.variants.len() - i,
                    {
                        let mut more = copy_fields(&def.variants[i].fields);
                        let ghost before = fields_view(out@);
                        let ghost added = fields_view(more@);
                        out.append(&mut more);
                        proof {
                            assert(fields_view(out@) =~= before + added);
                            assert(before + (added + variant_fields(def@.variants, i + 1))
                                =~= (before + added) + variant_fields(def@.variants, i + 1));
                        }
                        i += 1;
                    }
                    proof {
                        assert(fields_view(out@) + variant_fields(def@.variants, i as int)
                            =~= fields_view(out@));
                    }
                    out
                },
                None => none,
            },
            _ => none,
        }
    }

    // What collecting a file's definitions adds.

    pub(crate) fn add_name(&mut self, name: String, ty: Type)
        ensures
            final(self)@ == (model::Types {
                by_name: old(self)@.by_name.push((name@, ty)),
                ..old(self)@
            }),
    {
        let ghost before = self@;
        self.by_name.push((name, ty));
        proof {
            assert(self@.by_name =~= before.by_name.push((name@, ty)));
        }
    }

    pub(crate) fn add_template_name(&mut self, name: String, index: usize)
        ensures
            final(self)@ == (model::Types {
                template_by_name: old(self)@.template_by_name.push((name@, index)),
                ..old(self)@
            }),
    {
        let ghost before = self@;
        self.template_by_name.push((name, index));
        proof {
            assert(self@.template_by_name =~= before.template_by_name.push((name@, index)));
        }
    }

    pub(crate) fn add_struct(&mut self, def: StructDef)
        ensures
            final(self)@ == (model::Types {
                structs: old(self)@.structs.push(def@),
                ..old(self)@
            }),
    {
        let ghost before = self@;
        self.structs.push(def);
        proof {
            assert(self@.structs =~= before.structs.push(def@));
        }
    }

    pub(crate) fn add_template(&mut self, template: StructTemplate)
        ensures
            final(self)@ == (model::Types {
                templates: old(self)@.templates.push(template@),
                ..old(self)@
            }),
    {
        let ghost before = self@;
        self.templates.push(template);
        proof {
            assert(self@.templates =~= before.templates.push(template@));
        }
    }

    /// Settles the fields of the `i`th struct.
    pub(crate) fn set_fields(&mut self, i: usize, fields: Vec<Field>)
        ensures
            final(self)@ == with_fields(old(self)@, i as int, fields_view(fields@)),
    {
        if i < self.structs.len() {
            let ghost before = self@;
            let known = &self.structs[i];
            let def = StructDef {
                id: known.id,
                name: known.name.clone(),
                fields,
                span: known.span,
                from: match &known.from {
                    Some((p, args)) => Some((*p, copy_types(args))),
                    None => None,
                },
            };
            let ghost shown = def@;
            self.structs.set(i, def);
            proof {
                assert(self@.structs =~= before.structs.update(i as int, shown));
            }
        }
    }

    /// Settles the fields of the `i`th template.
    pub(crate) fn set_template_fields(&mut self, i: usize, fields: Vec<Field>)
        ensures
            final(self)@ == with_template_fields(old(self)@, i as int, fields_view(fields@)),
    {
        if i < self.templates.len() {
            let ghost before = self@;
            let known = &self.templates[i];
            let template = StructTemplate {
                name: known.name.clone(),
                generics: copy_generics(&known.generics),
                fields,
                span: known.span,
            };
            let ghost shown = template@;
            self.templates.set(i, template);
            proof {
                assert(self@.templates =~= before.templates.update(i as int, shown));
            }
        }
    }

    /// Settles the variants of the `i`th enum.
    pub(crate) fn set_variants(&mut self, i: usize, variants: Vec<Variant>)
        ensures
            final(self)@ == with_variants(old(self)@, i as int, variants_view(variants@)),
    {
        if i < self.enums.len() {
            let ghost before = self@;
            let known = &self.enums[i];
            let def = EnumDef { id: known.id, name: known.name.clone(), variants, span: known.span };
            let ghost shown = def@;
            self.enums.set(i, def);
            proof {
                assert(self@.enums =~= before.enums.update(i as int, shown));
            }
        }
    }

    pub(crate) fn add_enum(&mut self, def: EnumDef)
        ensures
            final(self)@ == (model::Types { enums: old(self)@.enums.push(def@), ..old(self)@ }),
    {
        let ghost before = self@;
        self.enums.push(def);
        proof {
            assert(self@.enums =~= before.enums.push(def@));
        }
    }
}

/// The table with nothing in it.
pub open spec fn empty_types() -> model::Types {
    model::Types {
        structs: seq![],
        enums: seq![],
        templates: seq![],
        by_name: seq![],
        template_by_name: seq![],
        vecs: seq![],
        options: seq![],
    }
}

fn to_path_name(name: &str) -> (r: String)
    ensures
        r@ == path_name(name@),
{
    let v = chars(name);
    let mut out: Vec<char> = Vec::new();
    let mut i: usize = 0;
    while i < v.len()
        invariant
            i <= v@.len(),
            out@ == underscored(v@).take(i as int),
        decreases v.len() - i,
    {
        let c = v[i];
        if ('a' <= c && c <= 'z') || ('A' <= c && c <= 'Z') || ('0' <= c && c <= '9') {
            out.push(c);
        } else {
            out.push('_');
        }
        i += 1;
        proof {
            assert(out@ =~= underscored(v@).take(i as int));
        }
    }
    proof {
        assert(out@ =~= underscored(v@));
    }
    let trimmed = crate::text::trim_both(&out, '_');
    proof {
        lemma_plain(underscored(name@));
        lemma_trimming_keeps_plain(underscored(name@));
    }
    let r = to_lowercase(string(&trimmed).as_str());
    proof {
        let kept = trim_start(trim_end(underscored(name@), '_'), '_');
        assert forall|i: int| 0 <= i < kept.len() implies (#[trigger] kept[i] as u32) < 0x80 by {
            assert(is_plain(kept[i]));
        }
        assert(r@ =~= lowered(kept));
    }
    r
}

/// Whether a character is an ASCII letter, a digit or `_`.
pub open spec fn is_plain(c: char) -> bool {
    is_alnum(c) || c == '_'
}

pub open spec fn all_plain(s: Seq<char>) -> bool {
    forall|i: int| 0 <= i < s.len() ==> is_plain(#[trigger] s[i])
}

proof fn lemma_plain(s: Seq<char>)
    ensures
        all_plain(underscored(s)),
{
}

proof fn lemma_trim_end(s: Seq<char>)
    requires
        all_plain(s),
    ensures
        all_plain(trim_end(s, '_')),
    decreases s.len(),
{
    if s.len() > 0 && s.last() == '_' {
        assert(all_plain(s.drop_last()));
        lemma_trim_end(s.drop_last());
    }
}

proof fn lemma_trim_start(s: Seq<char>)
    requires
        all_plain(s),
    ensures
        all_plain(trim_start(s, '_')),
    decreases s.len(),
{
    if s.len() > 0 && s[0] == '_' {
        assert(all_plain(s.skip(1)));
        lemma_trim_start(s.skip(1));
    }
}

proof fn lemma_trimming_keeps_plain(s: Seq<char>)
    requires
        all_plain(s),
    ensures
        all_plain(trim_start(trim_end(s, '_'), '_')),
{
    lemma_trim_end(s);
    lemma_trim_start(trim_end(s, '_'));
}

/// Whether a datapack path can hold a text.
pub open spec fn fits_a_path(s: Seq<char>) -> bool {
    forall|i: int| 0 <= i < s.len() ==> is_path_char(#[trigger] s[i])
}

proof fn lemma_path_name(name: Seq<char>)
    ensures
        fits_a_path(path_name(name)),
{
    lemma_plain(underscored(name));
    lemma_trimming_keeps_plain(underscored(name));
    let kept = trim_start(trim_end(underscored(name), '_'), '_');
    assert forall|i: int| 0 <= i < lowered(kept).len() implies is_path_char(
        #[trigger] lowered(kept)[i],
    ) by {
        assert(is_plain(kept[i]));
    }
}

/// Whether a value of the type can be there at run time.
pub open spec fn has_values(t: model::Types, ty: Type, depth: nat) -> bool
    decreases depth,
{
    match ty {
        Type::Param(_) => false,
        Type::Fix(Scale::Param(_)) => false,
        Type::Vec(id) => depth > 0 ==> has_values(t, element_of(t, id), (depth - 1) as nat),
        Type::Option(id) => depth > 0 ==> has_values(t, inner_of(t, id), (depth - 1) as nat),
        _ => !ty.compile_time(),
    }
}

proof fn lemma_mangled_within(t: model::Types, ty: Type, depth: nat)
    requires
        has_values(t, ty, depth),
    ensures
        fits_a_path(mangle_within(t, ty, depth)),
    decreases depth,
{
    reveal(Type::name_text);
    reveal_strlit("i32");
    reveal_strlit("bool");
    reveal_strlit("i8");
    reveal_strlit("i16");
    reveal_strlit("i64");
    reveal_strlit("f32");
    reveal_strlit("f64");
    reveal_strlit("string");
    reveal_strlit("vec");
    reveal_strlit("option");
    reveal_strlit("vec_");
    reveal_strlit("option_");
    reveal_strlit("fix_");
    match ty {
        Type::Vec(id) => if depth > 0 {
            lemma_mangled_within(t, element_of(t, id), (depth - 1) as nat);
        },
        Type::Option(id) => if depth > 0 {
            lemma_mangled_within(t, inner_of(t, id), (depth - 1) as nat);
        },
        Type::Fix(Scale::Const(scale)) => {
            lemma_digits(scale as nat);
            let digits = nat_text(scale as nat);
            assert forall|i: int| 0 <= i < digits.len() implies is_path_char(
                #[trigger] digits[i],
            ) by {
                assert(is_digit(digits[i]));
            }
        },
        Type::Struct(_) => lemma_path_name(name_of(t, ty)),
        Type::Enum(_) => lemma_path_name(name_of(t, ty)),
        _ => {},
    }
}

/// The spelling of a type in a path is one a datapack path can hold: lower-case letters,
/// digits and `_`, for every type a value can have at run time.
pub proof fn lemma_mangled_names_fit_a_path(t: model::Types, ty: Type)
    requires
        has_values(t, ty, DEPTH as nat),
    ensures
        fits_a_path(mangled(t, ty)),
{
    reveal(mangled);
    lemma_mangled_within(t, ty, DEPTH as nat);
}

} // verus!
