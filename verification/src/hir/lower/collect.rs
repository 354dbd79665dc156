//! Collecting the `struct` and `enum` definitions of a file.

use vstd::prelude::*;
use vstd::set_lib::{lemma_int_range, lemma_len_subset, set_int_range};

use crate::hir::lower::types::{
    attr_word, entity_attrs, has_attr, reject_attrs, report, NbtOptions, Table,
};
use crate::hir::model;
use crate::hir::rules::types as rules;
use crate::hir::types::{fields_of, ROOM};
use crate::hir::{
    copy_fields, fields_view, find_field, find_key, generics_view, variants_view, Ctx, EnumDef,
    EnumId, Field, GenericDef, NbtTag, StructDef, StructId, StructTemplate, Type, Types, Variant,
    TAG_KEY,
};
use crate::syntax::ast::{
    attrs_view, fields_view as declared_view, items_view, variants_view as declared_variants,
    Attribute, FieldDef, Ident, Item, ItemKind, VariantDef,
};
use crate::syntax::lexer::{tokens_view, Token, TokenKind};
use crate::syntax::model::Item as ItemModel;
use crate::syntax::{faults, Span, SyntaxError};
use crate::text::{cat3, cat5, own, same, to_lowercase};

verus! {

pub(crate) open spec fn item_refs(v: Seq<&Item>) -> Seq<ItemModel> {
    Seq::new(v.len(), |i: int| v[i]@)
}

spec fn lists_view(v: Seq<Vec<Field>>) -> Seq<Seq<model::Field>> {
    Seq::new(v.len(), |i: int| fields_view(v[i]@))
}

/// The names of a file's types: structs, enums and templates, each with its number.
struct Names<'a> {
    t: Table,
    structs: Vec<&'a Item>,
    enums: Vec<&'a Item>,
    templates: Vec<&'a Item>,
}

impl<'a> Names<'a> {
    spec fn view(&self) -> rules::Names {
        rules::Names {
            t: self.t@,
            structs: item_refs(self.structs@),
            enums: item_refs(self.enums@),
            templates: item_refs(self.templates@),
        }
    }

    /// A type's name, unless it is taken.
    fn claim(&mut self, name: &Ident, ty: Type)
        ensures
            final(self)@ == rules::claim_name(old(self)@, name@, ty),
    {
        if self.t.types.get(name.name.as_str()).is_some() {
            self.t.fault(
                name.span,
                cat3("a type named '", name.name.as_str(), "' is already defined"),
            );
        } else {
            self.t.types.add_name(name.name.clone(), ty);
        }
    }

    /// What one item adds to the names.
    fn item(&mut self, item: &'a Item)
        ensures
            final(self)@ == rules::collect_name(old(self)@, item@),
    {
        proof {
            reveal(rules::collect_name);
        }
        let ghost before = self@;
        match &item.kind {
            ItemKind::Struct(declared) => {
                if declared.generics.len() > 0 {
                    let name = declared.name.name.as_str();
                    if self.t.types.has_template(name) || self.t.types.get(name).is_some() {
                        self.t.fault(
                            declared.name.span,
                            cat3("a type named '", name, "' is already defined"),
                        );
                    } else {
                        let index: usize = self.templates.len();
                        self.t.types.add_template_name(declared.name.name.clone(), index);
                        self.templates.push(item);
                        proof {
                            assert(self@.templates =~= before.templates.push(item@));
                        }
                    }
                } else {
                    let id = StructId(self.structs.len() as u32);
                    let ty = if has_attr(&item.attrs, "entity") {
                        Type::View(id)
                    } else {
                        Type::Struct(id)
                    };
                    self.structs.push(item);
                    proof {
                        assert(self@.structs =~= before.structs.push(item@));
                    }
                    self.claim(&declared.name, ty);
                }
            },
            ItemKind::Enum(declared) => {
                let id = EnumId(self.enums.len() as u32);
                self.enums.push(item);
                proof {
                    assert(self@.enums =~= before.enums.push(item@));
                }
                self.claim(&declared.name, Type::Enum(id));
            },
            _ => {},
        }
    }
}

/// The number that tells a composite type apart from every other.
spec fn code(ty: Type) -> int {
    match ty {
        Type::Struct(id) => 3 * id.0,
        Type::Enum(id) => 3 * id.0 + 1,
        Type::Vec(id) => 3 * id.0 + 2,
        _ => 0,
    }
}

spec fn codes() -> int {
    0x3_0000_0000int
}

/// There are only so many composite types.
proof fn lemma_bounded(seen: Seq<Type>)
    requires
        seen.no_duplicates(),
        forall|k: int| 0 <= k < seen.len() ==> (#[trigger] seen[k]).compound(),
    ensures
        seen.len() <= codes(),
{
    let numbers = seen.map_values(|ty: Type| code(ty));
    assert forall|i: int, j: int|
        0 <= i < numbers.len() && 0 <= j < numbers.len() && i != j implies numbers[i]
        != numbers[j] by {
        assert(seen[i] != seen[j]);
        assert(seen[i].compound() && seen[j].compound());
        assert(numbers[i] == code(seen[i]));
        assert(numbers[j] == code(seen[j]));
    }
    assert(numbers.no_duplicates());
    numbers.unique_seq_to_set();
    lemma_int_range(0, codes());
    assert forall|n: int| numbers.to_set().contains(n) implies set_int_range(
        0,
        codes(),
    ).contains(n) by {
        let i = choose|i: int| 0 <= i < numbers.len() && numbers[i] == n;
        assert(seen[i].compound());
        assert(numbers[i] == code(seen[i]));
    }
    lemma_len_subset(numbers.to_set(), set_int_range(0, codes()));
}

/// Whether `to` is reached from `from` through fields, in one step or more.
spec fn reaches(t: model::Types, from: Type, to: Type) -> bool {
    exists|path: Seq<Type>|
        path.len() >= 2 && path[0] == from && path.last() == to && #[trigger] rules::is_chain(
            t,
            path,
        )
}

proof fn lemma_reaches_one(t: model::Types, from: Type, to: Type)
    requires
        rules::holds(t, from, to),
    ensures
        reaches(t, from, to),
{
    let path = seq![from, to];
    assert(rules::is_chain(t, path));
}

proof fn lemma_reaches_more(t: model::Types, from: Type, mid: Type, to: Type)
    requires
        reaches(t, from, mid),
        rules::holds(t, mid, to),
    ensures
        reaches(t, from, to),
{
    let path = choose|path: Seq<Type>|
        path.len() >= 2 && path[0] == from && path.last() == mid && #[trigger] rules::is_chain(
            t,
            path,
        );
    let longer = path.push(to);
    assert forall|i: int| 0 <= i < longer.len() - 1 implies rules::holds(
        t,
        longer[i],
        #[trigger] longer[i + 1],
    ) by {
        if i < path.len() - 1 {
            assert(path[i + 1] == longer[i + 1]);
        }
    }
    assert(rules::is_chain(t, longer));
    assert(longer.last() == to);
}

/// What is reached stays inside a list that is closed under holding.
proof fn lemma_closed(t: model::Types, seen: Seq<Type>, path: Seq<Type>, n: int)
    requires
        rules::is_chain(t, path),
        1 <= n < path.len(),
        forall|to: Type| rules::holds(t, path[0], to) ==> #[trigger] seen.contains(to),
        forall|k: int, to: Type|
            0 <= k < seen.len() && rules::holds(t, seen[k], to) ==> #[trigger] seen.contains(to)
                || #[trigger] seen[k] != seen[k],
    ensures
        seen.contains(path[n]),
    decreases n,
{
    assert(rules::holds(t, path[n - 1], path[n - 1 + 1]));
    if n > 1 {
        lemma_closed(t, seen, path, n - 1);
        let k = choose|k: int| 0 <= k < seen.len() && seen[k] == path[n - 1];
        assert(rules::holds(t, seen[k], path[n]));
        assert(seen.contains(path[n]) || seen[k] != seen[k]);
    }
}

/// Adds the composite types among `fields` that are not in `seen` yet.
fn add_held(seen: &mut Vec<Type>, fields: &Vec<Field>)
    requires
        old(seen)@.no_duplicates(),
        forall|k: int| 0 <= k < old(seen)@.len() ==> (#[trigger] old(seen)@[k]).compound(),
    ensures
        final(seen)@.no_duplicates(),
        forall|k: int| 0 <= k < final(seen)@.len() ==> (#[trigger] final(seen)@[k]).compound(),
        old(seen)@.len() <= final(seen)@.len(),
        final(seen)@.take(old(seen)@.len() as int) == old(seen)@,
        forall|k: int|
            0 <= k < fields@.len() && (#[trigger] fields@[k]).ty.compound()
                ==> final(seen)@.contains(fields@[k].ty),
        forall|k: int|
            old(seen)@.len() <= k < final(seen)@.len() ==> exists|j: int|
                0 <= j < fields@.len() && fields@[j].ty == #[trigger] final(seen)@[k],
{
    let ghost start = seen@;
    let mut i: usize = 0;
    proof {
        assert(seen@.take(start.len() as int) =~= start);
    }
    while i < fields.len()
        invariant
            i <= fields@.len(),
            start == old(seen)@,
            seen@.no_duplicates(),
            forall|k: int| 0 <= k < seen@.len() ==> (#[trigger] seen@[k]).compound(),
            start.len() <= seen@.len(),
            seen@.take(start.len() as int) == start,
            forall|k: int|
                0 <= k < i && (#[trigger] fields@[k]).ty.compound() ==> seen@.contains(
                    fields@[k].ty,
                ),
            forall|k: int|
                start.len() <= k < seen@.len() ==> exists|j: int|
                    0 <= j < fields@.len() && fields@[j].ty == #[trigger] seen@[k],
        decreases fields.len() - i,
    {
        let ty = fields[i].ty;
        if ty.is_compound() {
            let known = has_type(seen, ty);
            if !known {
                let ghost before = seen@;
                seen.push(ty);
                proof {
                    assert(seen@.take(start.len() as int) =~= before.take(start.len() as int));
                    assert forall|x: Type| before.contains(x) implies seen@.contains(x) by {
                        let k = choose|k: int| 0 <= k < before.len() && before[k] == x;
                        assert(seen@[k] == x);
                    }
                    assert(seen@[before.len() as int] == ty);
                    assert forall|k: int|
                        start.len() <= k < seen@.len() implies exists|j: int|
                        0 <= j < fields@.len() && fields@[j].ty == #[trigger] seen@[k] by {
                        if k < before.len() {
                            assert(before[k] == seen@[k]);
                        } else {
                            assert(fields@[i as int].ty == seen@[k]);
                        }
                    }
                }
            }
        }
        i += 1;
    }
}

fn has_type(types: &Vec<Type>, ty: Type) -> (r: bool)
    ensures
        r == types@.contains(ty),
{
    let mut i: usize = 0;
    while i < types.len()
        invariant
            i <= types@.len(),
            forall|k: int| 0 <= k < i ==> types@[k] != ty,
        decreases types.len() - i,
    {
        if types[i] == ty {
            proof {
                assert(types@[i as int] == ty);
            }
            return true;
        }
        i += 1;
    }
    false
}

proof fn lemma_fields_hold(t: model::Types, from: Type, fields: Seq<Field>)
    requires
        fields_view(fields) == fields_of(t, from),
    ensures
        forall|to: Type|
            rules::holds(t, from, to) <==> to.compound() && exists|j: int|
                0 <= j < fields.len() && (#[trigger] fields[j]).ty == to,
{
    assert forall|to: Type| rules::holds(t, from, to) implies to.compound() && exists|j: int|
        0 <= j < fields.len() && (#[trigger] fields[j]).ty == to by {
        let i = choose|i: int|
            0 <= i < fields_of(t, from).len() && (#[trigger] fields_of(t, from)[i]).ty == to;
        assert(fields_view(fields)[i] == fields[i]@);
        assert(fields[i].ty == to);
    }
    assert forall|to: Type|
        to.compound() && (exists|j: int| 0 <= j < fields.len() && (#[trigger] fields[j]).ty
            == to) implies rules::holds(t, from, to) by {
        let j = choose|j: int| 0 <= j < fields.len() && (#[trigger] fields[j]).ty == to;
        assert(fields_view(fields)[j] == fields[j]@);
        assert(fields_of(t, from)[j].ty == to);
    }
}

/// Whether a composite type can reach itself through its fields. Such a type has no value
/// a compound could hold.
fn contains_itself(types: &Types, ty: Type) -> (r: bool)
    ensures
        r == rules::contains_itself(types@, ty),
{
    let ghost t = types@;
    let mut seen: Vec<Type> = Vec::new();
    let fields = types.fields(ty);
    add_held(&mut seen, &fields);
    proof {
        lemma_fields_hold(t, ty, fields@);
        assert forall|k: int| 0 <= k < seen@.len() implies reaches(
            t,
            ty,
            #[trigger] seen@[k],
        ) by {
            lemma_reaches_one(t, ty, seen@[k]);
        }
    }
    let mut i: usize = 0;
    while i < seen.len()
        invariant
            i <= seen@.len(),
            t == types@,
            seen@.no_duplicates(),
            forall|k: int| 0 <= k < seen@.len() ==> (#[trigger] seen@[k]).compound(),
            forall|k: int| 0 <= k < seen@.len() ==> reaches(t, ty, #[trigger] seen@[k]),
            forall|to: Type| rules::holds(t, ty, to) ==> #[trigger] seen@.contains(to),
            forall|k: int, to: Type|
                0 <= k < i && rules::holds(t, seen@[k], to) ==> #[trigger] seen@.contains(to)
                    || #[trigger] seen@[k] != seen@[k],
        decreases codes() - i,
    {
        let from = seen[i];
        let fields = types.fields(from);
        let ghost before = seen@;
        add_held(&mut seen, &fields);
        proof {
            lemma_fields_hold(t, from, fields@);
            assert forall|k: int| 0 <= k < before.len() implies before[k] == seen@[k] by {
                assert(seen@.take(before.len() as int)[k] == seen@[k]);
            }
            assert forall|x: Type| before.contains(x) implies seen@.contains(x) by {
                let k = choose|k: int| 0 <= k < before.len() && before[k] == x;
                assert(seen@[k] == x);
            }
            assert forall|to: Type| rules::holds(t, ty, to) implies #[trigger] seen@.contains(
                to,
            ) by {
                assert(before.contains(to));
            }
            assert forall|k: int| 0 <= k < seen@.len() implies reaches(
                t,
                ty,
                #[trigger] seen@[k],
            ) by {
                if k < before.len() {
                    assert(before[k] == seen@[k]);
                } else {
                    assert(rules::holds(t, from, seen@[k]));
                    lemma_reaches_more(t, ty, from, seen@[k]);
                }
            }
            assert forall|k: int, to: Type|
                0 <= k < i + 1 && rules::holds(t, seen@[k], to) implies #[trigger] seen@.contains(to)
                || #[trigger] seen@[k] != seen@[k] by {
                if k < i {
                    assert(before[k] == seen@[k]);
                    assert(before.contains(to) || before[k] != before[k]);
                } else {
                    let j = choose|j: int|
                        0 <= j < fields@.len() && (#[trigger] fields@[j]).ty == to;
                    assert(seen@.contains(fields@[j].ty));
                }
            }
            lemma_bounded(seen@);
        }
        i += 1;
    }
    let found = has_type(&seen, ty);
    proof {
        if found {
            let k = choose|k: int| 0 <= k < seen@.len() && seen@[k] == ty;
            assert(reaches(t, ty, seen@[k]));
        }
        if rules::contains_itself(t, ty) {
            let path = choose|path: Seq<Type>|
                path.len() >= 2 && path[0] == ty && path.last() == ty && #[trigger]
                    rules::is_chain(t, path);
            lemma_closed(t, seen@, path, path.len() - 1);
        }
    }
    found
}

impl Table {
    /// The `#[nbt(..)]` options on a field: which tag, and which key.
    fn nbt_attrs(&mut self, field: &FieldDef, ty: Type) -> (r: (Option<NbtTag>, Option<String>))
        ensures
            ({
                let o = rules::nbt_attrs(old(self)@, field@, ty);
                &&& final(self)@ == (rules::Table { errs: o.errs, ..old(self)@ })
                &&& r.0 == o.tag
                &&& crate::syntax::ast::text_opt_view(r.1) == o.rename
            }),
    {
        let of = match ty {
            Type::Option(id) => self.types.inner_at(id),
            _ => ty,
        };
        let mut errs: Vec<SyntaxError> = Vec::new();
        std::mem::swap(&mut errs, &mut self.errs);
        let mut options = NbtOptions { errs, tag: NbtTag::default_for(of), rename: None };
        options.attrs(&field.attrs, of);
        self.errs = options.errs;
        (options.tag, options.rename)
    }

    /// One declared field, unless something is wrong with it.
    fn collect_field(
        &mut self,
        field: &FieldDef,
        generics: &Vec<GenericDef>,
        before: &Vec<Field>,
    ) -> (r: Option<Field>)
        ensures
            (
                final(self)@,
                match r {
                    Some(field) => Some(field@),
                    None => None,
                },
            ) == rules::collect_field(
                old(self)@,
                field@,
                generics_view(generics@),
                fields_view(before@),
            ),
    {
        proof {
            reveal(rules::collect_field);
        }
        if field.ty.borrow.is_some() {
            self.error(
                field.ty.span,
                "a field cannot hold a reference: a reference is a name for a place in the caller, and a compound outlives the call",
            );
            return None;
        }
        let ty = self.resolve_written(&field.ty, generics)?;
        let name = field.name.name.as_str();
        if ty.is_compile_time() {
            let spelled = self.types.name_of(ty);
            self.fault(
                field.ty.span,
                cat3(
                    "a ",
                    spelled.as_str(),
                    " exists only while compiling, so a compound cannot hold one",
                ),
            );
            return None;
        }
        if find_field(before, name) < before.len() {
            self.fault(
                field.name.span,
                cat3("the field '", name, "' is declared twice"),
            );
            return None;
        }
        let (tag, rename) = self.nbt_attrs(field, ty);
        let nbt = match rename {
            Some(key) => key,
            None => field.name.name.clone(),
        };
        let clash: usize = find_key(before, nbt.as_str());
        if clash < before.len() {
            self.fault(
                field.name.span,
                cat5(
                    "this field and '",
                    before[clash].name.as_str(),
                    "' would both be stored as '",
                    nbt.as_str(),
                    "'",
                ),
            );
            return None;
        }
        Some(Field { name: field.name.name.clone(), nbt, ty, tag })
    }

    /// The fields of a struct, or of one variant, with their NBT keys and tags settled.
    fn collect_fields(&mut self, declared: &Vec<FieldDef>, generics: &Vec<GenericDef>) -> (r: Vec<
        Field,
    >)
        ensures
            (final(self)@, fields_view(r@)) == rules::collect_fields(
                old(self)@,
                declared_view(declared@),
                0,
                generics_view(generics@),
                seq![],
            ),
    {
        let ghost start = self@;
        let ghost all = declared_view(declared@);
        let ghost known = generics_view(generics@);
        let mut out: Vec<Field> = Vec::new();
        proof {
            assert(fields_view(out@) =~= seq![]);
        }
        let mut i: usize = 0;
        while i < declared.len()
            invariant
                i <= declared@.len(),
                all == declared_view(declared@),
                known == generics_view(generics@),
                rules::collect_fields(start, all, 0, known, seq![]) == rules::collect_fields(
                    self@,
                    all,
                    i as int,
                    known,
                    fields_view(out@),
                ),
            decreases declared.len() - i,
        {
            proof {
                reveal(rules::collect_fields);
                assert(all[i as int] == declared@[i as int]@);
            }
            let ghost before = fields_view(out@);
            match self.collect_field(&declared[i], generics, &out) {
                Some(field) => {
                    let ghost shown = field@;
                    out.push(field);
                    proof {
                        assert(fields_view(out@) =~= before.push(shown));
                    }
                },
                None => {},
            }
            i += 1;
        }
        proof {
            reveal(rules::collect_fields);
        }
        out
    }

    /// The plain structs, in order.
    fn collect_structs(&mut self, items: &Vec<&Item>)
        ensures
            final(self)@ == rules::collect_structs(old(self)@, item_refs(items@), 0),
    {
        let ghost start = self@;
        let ghost all = item_refs(items@);
        let none: Vec<GenericDef> = Vec::new();
        proof {
            assert(generics_view(none@) =~= seq![]);
        }
        let mut i: usize = 0;
        while i < items.len()
            invariant
                i <= items@.len(),
                all == item_refs(items@),
                generics_view(none@) == Seq::<model::Generic>::empty(),
                rules::collect_structs(start, all, 0) == rules::collect_structs(
                    self@,
                    all,
                    i as int,
                ),
            decreases items.len() - i,
        {
            proof {
                reveal(rules::collect_structs);
                assert(all[i as int] == items@[i as int]@);
            }
            match &items[i].kind {
                ItemKind::Struct(declared) => {
                    if has_attr(&items[i].attrs, "entity") {
                        entity_attrs(&mut self.errs, &items[i].attrs);
                    } else {
                        reject_attrs(&mut self.errs, &items[i].attrs, "a struct");
                    }
                    let fields = self.collect_fields(&declared.fields, &none);
                    self.types.set_fields(i, fields);
                },
                _ => {},
            }
            i += 1;
        }
        proof {
            reveal(rules::collect_structs);
        }
    }

    /// Makes every type of the file known by name.
    fn add_shells(&mut self, structs: &Vec<&Item>, enums: &Vec<&Item>, templates: &Vec<&Item>)
        requires
            old(self)@.types.structs.len() == 0,
            old(self)@.types.enums.len() == 0,
            old(self)@.types.templates.len() == 0,
        ensures
            final(self)@ == rules::shells(
                (rules::Names {
                    t: old(self)@,
                    structs: item_refs(structs@),
                    enums: item_refs(enums@),
                    templates: item_refs(templates@),
                }),
            ),
    {
        let ghost start = self@;
        let mut i: usize = 0;
        while i < structs.len()
            invariant
                i <= structs@.len(),
                self@ == (rules::Table {
                    types: model::Types { structs: self@.types.structs, ..start.types },
                    ..start
                }),
                self@.types.structs.len() == i,
                forall|k: int|
                    0 <= k < i ==> #[trigger] self@.types.structs[k] == rules::struct_shell(
                        item_refs(structs@)[k],
                        k,
                    ),
            decreases structs.len() - i,
        {
            let item = structs[i];
            let (name, span) = match &item.kind {
                ItemKind::Struct(declared) => (
                    declared.name.name.clone(),
                    declared.name.span,
                ),
                _ => (own(""), item.span),
            };
            proof {
                reveal_strlit("");
                assert(""@ =~= seq![]);
                assert(item_refs(structs@)[i as int] == item@);
            }
            let fields: Vec<Field> = Vec::new();
            proof {
                assert(fields_view(fields@) =~= seq![]);
            }
            self.types.add_struct(
                StructDef { id: StructId(i as u32), name, fields, span, from: None },
            );
            i += 1;
        }
        let ghost first = self@;
        let mut j: usize = 0;
        while j < enums.len()
            invariant
                j <= enums@.len(),
                self@ == (rules::Table {
                    types: model::Types { enums: self@.types.enums, ..first.types },
                    ..first
                }),
                self@.types.enums.len() == j,
                forall|k: int|
                    0 <= k < j ==> #[trigger] self@.types.enums[k] == rules::enum_shell(
                        item_refs(enums@)[k],
                        k,
                    ),
            decreases enums.len() - j,
        {
            let item = enums[j];
            let (name, span) = match &item.kind {
                ItemKind::Enum(declared) => (declared.name.name.clone(), declared.name.span),
                _ => (own(""), item.span),
            };
            proof {
                reveal_strlit("");
                assert(""@ =~= seq![]);
                assert(item_refs(enums@)[j as int] == item@);
            }
            let variants: Vec<Variant> = Vec::new();
            proof {
                assert(variants_view(variants@) =~= seq![]);
            }
            self.types.add_enum(EnumDef { id: EnumId(j as u32), name, variants, span });
            j += 1;
        }
        let ghost second = self@;
        let mut k: usize = 0;
        while k < templates.len()
            invariant
                k <= templates@.len(),
                self@ == (rules::Table {
                    types: model::Types { templates: self@.types.templates, ..second.types },
                    ..second
                }),
                self@.types.templates.len() == k,
                forall|m: int|
                    0 <= m < k ==> #[trigger] self@.types.templates[m] == rules::template_shell(
                        item_refs(templates@)[m],
                    ),
            decreases templates.len() - k,
        {
            let item = templates[k];
            let (name, generics, span) = match &item.kind {
                ItemKind::Struct(declared) => (
                    declared.name.name.clone(),
                    GenericDef::collect(&declared.generics),
                    declared.name.span,
                ),
                _ => (own(""), Vec::new(), item.span),
            };
            proof {
                reveal_strlit("");
                assert(""@ =~= seq![]);
                assert(item_refs(templates@)[k as int] == item@);
                if !(item.kind is Struct) {
                    assert(generics_view(generics@) =~= seq![]);
                }
            }
            let fields: Vec<Field> = Vec::new();
            proof {
                assert(fields_view(fields@) =~= seq![]);
            }
            self.types.add_template(StructTemplate { name, generics, fields, span });
            k += 1;
        }
        proof {
            let n = rules::Names {
                t: start,
                structs: item_refs(structs@),
                enums: item_refs(enums@),
                templates: item_refs(templates@),
            };
            assert(self@.types.structs =~= rules::shells(n).types.structs);
            assert(self@.types.enums =~= rules::shells(n).types.enums);
            assert(self@.types.templates =~= rules::shells(n).types.templates);
        }
    }

    /// The fields of the generic structs, in order.
    fn collect_templates(&mut self, items: &Vec<&Item>) -> (r: Vec<Vec<Field>>)
        ensures
            (final(self)@, lists_view(r@)) == rules::collect_templates(
                old(self)@,
                item_refs(items@),
                0,
                seq![],
            ),
    {
        let ghost start = self@;
        let ghost all = item_refs(items@);
        let mut out: Vec<Vec<Field>> = Vec::new();
        proof {
            assert(lists_view(out@) =~= seq![]);
        }
        let mut i: usize = 0;
        while i < items.len()
            invariant
                i <= items@.len(),
                all == item_refs(items@),
                rules::collect_templates(start, all, 0, seq![]) == rules::collect_templates(
                    self@,
                    all,
                    i as int,
                    lists_view(out@),
                ),
            decreases items.len() - i,
        {
            proof {
                reveal(rules::collect_templates);
                assert(all[i as int] == items@[i as int]@);
            }
            let fields = match &items[i].kind {
                ItemKind::Struct(declared) => {
                    reject_attrs(&mut self.errs, &items[i].attrs, "a struct");
                    let generics = GenericDef::collect(&declared.generics);
                    self.collect_fields(&declared.fields, &generics)
                },
                _ => {
                    let none: Vec<Field> = Vec::new();
                    proof {
                        assert(fields_view(none@) =~= seq![]);
                    }
                    none
                },
            };
            let ghost before = lists_view(out@);
            let ghost shown = fields_view(fields@);
            out.push(fields);
            proof {
                assert(lists_view(out@) =~= before.push(shown));
            }
            i += 1;
        }
        proof {
            reveal(rules::collect_templates);
        }
        out
    }

    /// Settles the fields of the templates.
    fn set_templates(&mut self, fields: &Vec<Vec<Field>>)
        ensures
            final(self)@ == (rules::Table {
                types: rules::with_templates(old(self)@.types, lists_view(fields@), 0),
                ..old(self)@
            }),
    {
        let ghost all = lists_view(fields@);
        let mut i: usize = 0;
        while i < fields.len()
            invariant
                i <= fields@.len(),
                all == lists_view(fields@),
                self@.errs == old(self)@.errs,
                rules::with_templates(old(self)@.types, all, 0) == rules::with_templates(
                    self@.types,
                    all,
                    i as int,
                ),
            decreases fields.len() - i,
        {
            self.types.set_template_fields(i, copy_fields(&fields[i]));
            i += 1;
        }
    }

    /// The variants of an enum. The tag shares the compound with the payload, so no field
    /// can be stored under its key.
    fn collect_variants(&mut self, declared: &Vec<VariantDef>) -> (r: Vec<Variant>)
        ensures
            (final(self)@, variants_view(r@)) == rules::collect_variants(
                old(self)@,
                declared_variants(declared@),
                0,
                seq![],
            ),
    {
        let ghost start = self@;
        let ghost all = declared_variants(declared@);
        let none: Vec<GenericDef> = Vec::new();
        let mut out: Vec<Variant> = Vec::new();
        proof {
            assert(generics_view(none@) =~= seq![]);
            assert(variants_view(out@) =~= seq![]);
        }
        let mut i: usize = 0;
        while i < declared.len()
            invariant
                i <= declared@.len(),
                all == declared_variants(declared@),
                generics_view(none@) == Seq::<model::Generic>::empty(),
                rules::collect_variants(start, all, 0, seq![]) == rules::collect_variants(
                    self@,
                    all,
                    i as int,
                    variants_view(out@),
                ),
            decreases declared.len() - i,
        {
            proof {
                reveal(rules::collect_variants);
                assert(all[i as int] == declared@[i as int]@);
            }
            let fields = self.collect_fields(&declared[i].fields, &none);
            let clash: usize = find_key(&fields, TAG_KEY);
            if clash < fields.len() {
                self.fault(
                    declared[i].span,
                    cat3(
                        "'",
                        fields[clash].name.as_str(),
                        "' collides with the 'tag' the variant is stored under",
                    ),
                );
            }
            let ghost before = variants_view(out@);
            let one = Variant { name: declared[i].name.name.clone(), fields };
            let ghost shown = one@;
            out.push(one);
            proof {
                assert(variants_view(out@) =~= before.push(shown));
            }
            i += 1;
        }
        proof {
            reveal(rules::collect_variants);
        }
        out
    }

    /// The enums, in order.
    fn collect_enums(&mut self, items: &Vec<&Item>)
        ensures
            final(self)@ == rules::collect_enums(old(self)@, item_refs(items@), 0),
    {
        let ghost start = self@;
        let ghost all = item_refs(items@);
        let mut i: usize = 0;
        while i < items.len()
            invariant
                i <= items@.len(),
                all == item_refs(items@),
                rules::collect_enums(start, all, 0) == rules::collect_enums(self@, all, i as int),
            decreases items.len() - i,
        {
            proof {
                reveal(rules::collect_enums);
                assert(all[i as int] == items@[i as int]@);
            }
            match &items[i].kind {
                ItemKind::Enum(declared) => {
                    reject_attrs(&mut self.errs, &items[i].attrs, "an enum");
                    let variants = self.collect_variants(&declared.variants);
                    self.types.set_variants(i, variants);
                    check_cases(&mut self.errs, &declared.variants);
                },
                _ => {},
            }
            i += 1;
        }
        proof {
            reveal(rules::collect_enums);
        }
    }

    /// One problem for each struct that contains itself.
    fn check_structs(&mut self)
        ensures
            final(self)@ == rules::check_structs(
                old(self)@,
                0,
                old(self)@.types.structs.len() as int,
            ),
    {
        let ghost start = self@;
        let count: usize = self.types.struct_count();
        let mut i: usize = 0;
        while i < count
            invariant
                i <= count,
                count == self@.types.structs.len(),
                rules::check_structs(start, 0, count as int) == rules::check_structs(
                    self@,
                    i as int,
                    count as int,
                ),
            decreases count - i,
        {
            proof {
                reveal(rules::check_structs);
            }
            let id = self.types.struct_at(i).id;
            let ty = Type::Struct(id);
            if contains_itself(&self.types, ty) {
                let span = match self.types.find_struct(id) {
                    Some(def) => def.span,
                    None => Span { start: 0, end: 0 },
                };
                let name = self.types.name_of(ty);
                self.fault(
                    span,
                    cat3(
                        "'",
                        name.as_str(),
                        "' contains itself, so it has no value a compound could hold",
                    ),
                );
            }
            i += 1;
        }
        proof {
            reveal(rules::check_structs);
        }
    }

    /// One problem for each enum that contains itself.
    fn check_enums(&mut self)
        ensures
            final(self)@ == rules::check_enums(old(self)@, 0),
    {
        let ghost start = self@;
        let count: usize = self.types.enum_count();
        let mut i: usize = 0;
        while i < count
            invariant
                i <= count,
                count == self@.types.enums.len(),
                rules::check_enums(start, 0) == rules::check_enums(self@, i as int),
            decreases count - i,
        {
            proof {
                reveal(rules::check_enums);
            }
            let id = self.types.enum_at(i).id;
            let ty = Type::Enum(id);
            if contains_itself(&self.types, ty) {
                let span = match self.types.find_enum(id) {
                    Some(def) => def.span,
                    None => Span { start: 0, end: 0 },
                };
                let name = self.types.name_of(ty);
                self.fault(
                    span,
                    cat3(
                        "'",
                        name.as_str(),
                        "' contains itself, so it has no value a compound could hold",
                    ),
                );
            }
            i += 1;
        }
        proof {
            reveal(rules::check_enums);
        }
    }
}

/// Arms become functions named after their variant, and a datapack path is lowercase
/// only, so two variants that differ in case would land on one file.
fn check_cases(errs: &mut Vec<SyntaxError>, declared: &Vec<VariantDef>)
    ensures
        faults(final(errs)@) == rules::check_cases(
            faults(old(errs)@),
            declared_variants(declared@),
            0,
        ),
{
    let ghost start = faults(errs@);
    let ghost all = declared_variants(declared@);
    let mut i: usize = 0;
    while i < declared.len()
        invariant
            i <= declared@.len(),
            all == declared_variants(declared@),
            rules::check_cases(start, all, 0) == rules::check_cases(faults(errs@), all, i as int),
        decreases declared.len() - i,
    {
        proof {
            reveal(rules::check_cases);
            assert(all[i as int] == declared@[i as int]@);
        }
        let name = &declared[i].name;
        let lowered = to_lowercase(name.name.as_str());
        let mut other: usize = 0;
        while other < i && !same(
            to_lowercase(declared[other].name.name.as_str()).as_str(),
            lowered.as_str(),
        )
            invariant
                other <= i < declared@.len(),
                all == declared_variants(declared@),
                rules::same_but_case(all, lowered@, 0, i as int) == rules::same_but_case(
                    all,
                    lowered@,
                    other as int,
                    i as int,
                ),
            decreases i - other,
        {
            proof {
                assert(all[other as int] == declared@[other as int]@);
            }
            other += 1;
        }
        proof {
            assert(all[other as int] == declared@[other as int]@);
        }
        if other < i {
            report(
                errs,
                name.span,
                cat5(
                    "'",
                    declared[other].name.name.as_str(),
                    "' and '",
                    name.name.as_str(),
                    "' differ only in case, and the functions their match arms generate would collide",
                ),
            );
        }
        i += 1;
    }
    proof {
        reveal(rules::check_cases);
    }
}

/// Collects the `struct` and `enum` definitions of a file: the names first, so a field can
/// refer to a type declared further down, then the fields.
pub(crate) fn collect_types(items: &Vec<Item>) -> (r: Table)
    ensures
        r@ == rules::collect_types(items_view(items@)),
{
    proof {
        reveal(rules::collect_types);
    }
    let mut names = Names {
        t: Table { types: Types::new(), errs: Vec::new() },
        structs: Vec::new(),
        enums: Vec::new(),
        templates: Vec::new(),
    };
    let ghost start = names@;
    let ghost all = items_view(items@);
    proof {
        assert(start.t.errs =~= seq![]);
        assert(start.structs =~= seq![]);
        assert(start.enums =~= seq![]);
        assert(start.templates =~= seq![]);
    }
    let mut i: usize = 0;
    while i < items.len()
        invariant
            i <= items@.len(),
            all == items_view(items@),
            rules::collect_names(start, all, 0) == rules::collect_names(names@, all, i as int),
            names@.t.types.structs.len() == 0,
            names@.t.types.enums.len() == 0,
            names@.t.types.templates.len() == 0,
        decreases items.len() - i,
    {
        proof {
            reveal(rules::collect_names);
            reveal(rules::collect_name);
            assert(all[i as int] == items@[i as int]@);
        }
        names.item(&items[i]);
        i += 1;
    }
    proof {
        reveal(rules::collect_names);
    }
    let mut table = names.t;
    table.add_shells(&names.structs, &names.enums, &names.templates);
    table.collect_structs(&names.structs);
    let fields = table.collect_templates(&names.templates);
    table.set_templates(&fields);
    table.check_growth();
    let count: usize = table.types.struct_count();
    table.types.fill(0, count);
    table.types.fill(count, ROOM as usize);
    table.collect_enums(&names.enums);
    table.check_structs();
    table.check_enums();
    table
}

/// The `#[ctx(..)]` kinds on an item, ignoring anything malformed.
pub(crate) fn declared_ctx(attrs: &Vec<Attribute>) -> (r: Vec<Ctx>)
    ensures
        r@ == rules::declared_ctx(attrs_view(attrs@)),
{
    proof {
        reveal(rules::declared_ctx);
    }
    let ghost all = attrs_view(attrs@);
    let mut out: Vec<Ctx> = Vec::new();
    let mut i: usize = 0;
    while i < attrs.len()
        invariant
            i <= attrs@.len(),
            all == attrs_view(attrs@),
            rules::all_ctx_names(all, 0, seq![]) == rules::all_ctx_names(all, i as int, out@),
        decreases attrs.len() - i,
    {
        proof {
            assert(all[i as int] == attrs@[i as int]@);
        }
        let is_ctx = match attr_word(&attrs[i]) {
            Some(word) => same(word.as_str(), "ctx"),
            None => false,
        };
        if is_ctx {
            ctx_names(&attrs[i].tokens, &mut out);
        }
        i += 1;
    }
    sorted_ctx(&out)
}

fn ctx_names(tokens: &Vec<Token>, out: &mut Vec<Ctx>)
    ensures
        final(out)@ == rules::ctx_names(tokens_view(tokens@), 1, old(out)@),
{
    let ghost start = out@;
    let ghost all = tokens_view(tokens@);
    let mut i: usize = 1;
    while i < tokens.len()
        invariant
            1 <= i,
            all == tokens_view(tokens@),
            rules::ctx_names(all, 1, start) == rules::ctx_names(all, i as int, out@),
        decreases tokens.len() - i,
    {
        proof {
            assert(all[i as int] == tokens@[i as int]@);
        }
        match &tokens[i].kind {
            TokenKind::Ident(name) => match Ctx::parse(name.as_str()) {
                Some(kind) => {
                    out.push(kind);
                },
                None => {},
            },
            _ => {},
        }
        i += 1;
    }
}

/// The contexts in order, each once.
pub(crate) fn sorted_ctx(kinds: &Vec<Ctx>) -> (r: Vec<Ctx>)
    ensures
        r@ == rules::sorted_ctx(kinds@),
{
    let mut entity = false;
    let mut position = false;
    let mut i: usize = 0;
    while i < kinds.len()
        invariant
            i <= kinds@.len(),
            entity == kinds@.take(i as int).contains(Ctx::Entity),
            position == kinds@.take(i as int).contains(Ctx::Position),
        decreases kinds.len() - i,
    {
        let ghost before = kinds@.take(i as int);
        proof {
            assert(kinds@.take(i + 1) =~= before.push(kinds@[i as int]));
            assert forall|c: Ctx| #[trigger]
                kinds@.take(i + 1).contains(c) == (before.contains(c) || kinds@[i as int] == c) by {
                if before.contains(c) {
                    let k = choose|k: int| 0 <= k < before.len() && before[k] == c;
                    assert(kinds@.take(i + 1)[k] == c);
                }
                if kinds@[i as int] == c {
                    assert(kinds@.take(i + 1)[i as int] == c);
                }
            }
        }
        match kinds[i] {
            Ctx::Entity => {
                entity = true;
            },
            Ctx::Position => {
                position = true;
            },
        }
        i += 1;
    }
    proof {
        assert(kinds@.take(i as int) =~= kinds@);
    }
    let mut out: Vec<Ctx> = Vec::new();
    if entity {
        out.push(Ctx::Entity);
    }
    if position {
        out.push(Ctx::Position);
    }
    proof {
        assert(out@ =~= rules::sorted_ctx(kinds@));
    }
    out
}

} // verus!
