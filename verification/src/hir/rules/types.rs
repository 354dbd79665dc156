//! Written types, and the definitions of a file.

use vstd::prelude::*;

use crate::hir::model::{EnumDef, Field, Generic, StructDef, Template, Types, Variant};
use crate::hir::rules::growth::{check_growth, flows};
use crate::hir::types::{
    empty_types, enum_of, fields_of, filled, inner_of, instantiated, lookup, name_of, option_type,
    struct_of, template_of, vec_type, ROOM,
};
use crate::hir::{
    attr_named, builtin_type, ctx_named, default_tag, field_keyed, field_named, is_planned_attr,
    tag_named, Ctx, EnumId, NbtTag, Scale, StructId, Type,
};
use crate::syntax::lexer::Span;
use crate::syntax::model::{
    Attribute, Fault, FieldDef, GenericParam, Ident, Item, ItemKind, ScaleArg, Token, TokenKind,
    TypeName, VariantDef,
};
use crate::text::{lowercase, nat_text};

verus! {

/// The table of types and the faults found so far.
pub struct Table {
    pub types: Types,
    pub errs: Seq<Fault>,
}

impl Table {
    pub open spec fn fault(self, span: Span, message: Seq<char>) -> Table {
        Table { errs: self.errs.push(Fault { span, message }), ..self }
    }
}

/// The position of the generic parameter of that name, or their number.
pub open spec fn generic_at(generics: Seq<Generic>, name: Seq<char>, i: int) -> int
    decreases generics.len() - i,
{
    if i < 0 || i >= generics.len() {
        generics.len() as int
    } else if generics[i].name == name {
        i
    } else {
        generic_at(generics, name, i + 1)
    }
}

/// The `1000` of `fix<1000>`, or the const parameter that will become one. A scale of
/// zero would divide by zero, and a negative one flips the sign of every value silently.
#[verifier::opaque]
pub open spec fn resolve_scale(errs: Seq<Fault>, written: ScaleArg, generics: Seq<Generic>) -> (
    Seq<Fault>,
    Option<Scale>,
) {
    match written {
        ScaleArg::Int(value, span) => if value >= 1 {
            (errs, Some(Scale::Const(value as u32)))
        } else {
            (
                errs.push(
                    Fault { span, message: "a scale is 1 or more: 'fix<1000>' counts thousandths"@ },
                ),
                None,
            )
        },
        ScaleArg::Param(name) => {
            let at = generic_at(generics, name.name, 0);
            if at < generics.len() && generics[at].is_const {
                (errs, Some(Scale::Param(at as u32)))
            } else if at < generics.len() {
                (
                    errs.push(
                        Fault {
                            span: name.span,
                            message: "'"@ + name.name
                                + "' is a type parameter; a scale needs 'const "@ + name.name
                                + ": i32'"@,
                        },
                    ),
                    None,
                )
            } else {
                (
                    errs.push(
                        Fault {
                            span: name.span,
                            message: "unknown scale '"@ + name.name
                                + "'; write a number or a const parameter"@,
                        },
                    ),
                    None,
                )
            }
        },
    }
}

/// The type a written one stands for, with type parameters in scope.
#[verifier::opaque]
pub open spec fn resolve_written(t: Table, written: TypeName, generics: Seq<Generic>) -> (
    Table,
    Option<Type>,
)
    decreases written, 0int, 1int,
{
    let at = generic_at(generics, written.name, 0);
    if written.name == "fix"@ {
        match written.scale {
            Some(scale) => match resolve_scale(t.errs, scale, generics) {
                (errs, Some(scale)) => (Table { errs, ..t }, Some(Type::Fix(scale))),
                (errs, None) => (Table { errs, ..t }, None),
            },
            None => (t, None),
        }
    } else if at < generics.len() {
        if generics[at].is_const {
            (
                t.fault(
                    written.span,
                    "'"@ + written.name + "' is a const parameter: it is a scale, not a type"@,
                ),
                None,
            )
        } else if written.args.len() > 0 {
            (
                t.fault(
                    written.span,
                    "'"@ + written.name
                        + "' is a type parameter; it does not take type arguments"@,
                ),
                None,
            )
        } else {
            (t, Some(Type::Param(at as u32)))
        }
    } else if written.name == "Option"@ {
        resolve_option(t, written, generics)
    } else if written.name == "Vec"@ {
        resolve_vec(t, written, generics)
    } else {
        match template_of(t.types, written.name) {
            Some(template) => if written.args.len() != template.generics.len() {
                (
                    t.fault(
                        written.span,
                        "'"@ + written.name + "' takes "@ + nat_text(template.generics.len())
                            + " type argument(s), but "@ + nat_text(written.args.len())
                            + " were given"@,
                    ),
                    None,
                )
            } else {
                match resolve_all(t, written.args, 0, generics, seq![]) {
                    (t1, None) => (t1, None),
                    (t1, Some(args)) => {
                        let (types, ty) = instantiated(
                            t1.types,
                            written.name,
                            args,
                        );
                        (Table { types, ..t1 }, ty)
                    },
                }
            },
            None => if written.args.len() > 0 {
                (
                    t.fault(
                        written.span,
                        "'"@ + written.name + "' does not take type arguments"@,
                    ),
                    None,
                )
            } else if builtin_type(written.name) is Some {
                (t, builtin_type(written.name))
            } else if lookup(t.types.by_name, written.name) is Some {
                (t, lookup(t.types.by_name, written.name))
            } else {
                (t.fault(written.span, "unknown type '"@ + written.name + "'"@), None)
            },
        }
    }
}

/// `Option<T>`. What says `None` is the path not being there, and a path is either there
/// or not: there is no second level to tell apart.
#[verifier::opaque]
pub open spec fn resolve_option(t: Table, written: TypeName, generics: Seq<Generic>) -> (
    Table,
    Option<Type>,
)
    decreases written, 0int, 0int,
{
    if written.args.len() != 1 {
        (
            t.fault(written.span, "Option takes one type argument: write 'Option<i32>'"@),
            None,
        )
    } else {
        match resolve_written(t, written.args[0], generics) {
            (t1, None) => (t1, None),
            (t1, Some(inner)) => if inner.compile_time() {
                (
                    t1.fault(
                        written.span,
                        "a "@ + inner.name_text()
                            + " exists only while compiling, so it is never missing"@,
                    ),
                    None,
                )
            } else if inner is Option {
                (
                    t1.fault(
                        written.span,
                        "Option<Option<T>> cannot be told apart: a path is either there or not, and that is the only thing 'None' is"@,
                    ),
                    None,
                )
            } else {
                let (types, ty) = option_type(t1.types, inner);
                (Table { types, ..t1 }, Some(ty))
            },
        }
    }
}

/// `Vec<T>`.
#[verifier::opaque]
pub open spec fn resolve_vec(t: Table, written: TypeName, generics: Seq<Generic>) -> (
    Table,
    Option<Type>,
)
    decreases written, 0int, 0int,
{
    if written.args.len() != 1 {
        (t.fault(written.span, "Vec takes one type argument: write 'Vec<i32>'"@), None)
    } else {
        match resolve_written(t, written.args[0], generics) {
            (t1, None) => (t1, None),
            (t1, Some(elem)) => if elem.compile_time() {
                (
                    t1.fault(
                        written.span,
                        "a "@ + elem.name_text()
                            + " exists only while compiling, so a list cannot hold one"@,
                    ),
                    None,
                )
            } else {
                let (types, ty) = vec_type(t1.types, elem);
                (Table { types, ..t1 }, Some(ty))
            },
        }
    }
}

/// Types in a row, up to the first that stands for nothing.
#[verifier::opaque]
pub open spec fn resolve_all(
    t: Table,
    written: Seq<TypeName>,
    i: int,
    generics: Seq<Generic>,
    acc: Seq<Type>,
) -> (Table, Option<Seq<Type>>)
    decreases written, written.len() - i, 2int,
{
    if i < 0 || i >= written.len() {
        (t, Some(acc))
    } else {
        match resolve_written(t, written[i], generics) {
            (t1, None) => (t1, None),
            (t1, Some(ty)) => resolve_all(t1, written, i + 1, generics, acc.push(ty)),
        }
    }
}

pub open spec fn generic_defs(params: Seq<GenericParam>) -> Seq<Generic> {
    Seq::new(
        params.len(),
        |i: int| Generic { name: params[i].name.name, is_const: params[i].is_const },
    )
}

/// The word an attribute begins with.
pub open spec fn attr_word(attr: Attribute) -> Option<Seq<char>> {
    if attr.tokens.len() > 0 {
        match attr.tokens[0].kind {
            TokenKind::Ident(name) => Some(name),
            _ => None,
        }
    } else {
        None
    }
}

/// Whether an item carries a bare `#[name]`.
pub open spec fn has_attr(attrs: Seq<Attribute>, name: Seq<char>, i: int) -> bool
    decreases attrs.len() - i,
{
    if i < 0 || i >= attrs.len() {
        false
    } else {
        (attr_word(attrs[i]) == Some(name) && attrs[i].tokens.len() == 1) || has_attr(
            attrs,
            name,
            i + 1,
        )
    }
}

/// What is wrong with an attribute that `what` cannot carry.
pub open spec fn misplaced(attr: Attribute, what: Seq<char>) -> Seq<char> {
    match attr_word(attr) {
        None => "expected an attribute name"@,
        Some(name) => if name == "ctx"@ || attr_named(name) is Some {
            "'"@ + name + "' does not apply to "@ + what
        } else if is_planned_attr(name) {
            "'"@ + name + "' is planned but not implemented yet"@
        } else {
            "unknown attribute '"@ + name + "'"@
        },
    }
}

/// One fault for each attribute of an `impl` block, which carries none.
pub open spec fn impl_attrs(errs: Seq<Fault>, attrs: Seq<Attribute>, i: int) -> Seq<Fault>
    decreases attrs.len() - i,
{
    if i < 0 || i >= attrs.len() {
        errs
    } else {
        impl_attrs(
            errs.push(
                Fault { span: attrs[i].span, message: misplaced(attrs[i], "an impl block"@) },
            ),
            attrs,
            i + 1,
        )
    }
}

/// Whether an attribute is a bare `#[name]`.
pub open spec fn is_bare(attr: Attribute, name: Seq<char>) -> bool {
    attr_word(attr) == Some(name) && attr.tokens.len() == 1
}

/// One fault for each attribute of a view but the one that makes it a view.
pub open spec fn entity_attrs(errs: Seq<Fault>, attrs: Seq<Attribute>, i: int) -> Seq<Fault>
    decreases attrs.len() - i,
{
    if i < 0 || i >= attrs.len() {
        errs
    } else if is_bare(attrs[i], "entity"@) {
        entity_attrs(errs, attrs, i + 1)
    } else {
        entity_attrs(
            errs.push(
                Fault {
                    span: attrs[i].span,
                    message: "attributes on a struct are not implemented yet"@,
                },
            ),
            attrs,
            i + 1,
        )
    }
}

/// One fault for each attribute of an item that takes none.
pub open spec fn reject_attrs(
    errs: Seq<Fault>,
    attrs: Seq<Attribute>,
    i: int,
    what: Seq<char>,
) -> Seq<Fault>
    decreases attrs.len() - i,
{
    if i < 0 || i >= attrs.len() {
        errs
    } else {
        reject_attrs(
            errs.push(
                Fault {
                    span: attrs[i].span,
                    message: "attributes on "@ + what + " are not implemented yet"@,
                },
            ),
            attrs,
            i + 1,
            what,
        )
    }
}

/// The tag and the key a field's `#[nbt(..)]` options ask for.
pub struct NbtOptions {
    pub errs: Seq<Fault>,
    pub tag: Option<NbtTag>,
    pub rename: Option<Seq<char>>,
}

impl NbtOptions {
    pub open spec fn fault(self, span: Span, message: Seq<char>) -> NbtOptions {
        NbtOptions { errs: self.errs.push(Fault { span, message }), ..self }
    }
}

/// One tag option of `#[nbt(..)]` on a field of type `ty`.
#[verifier::opaque]
pub open spec fn nbt_tag_option(o: NbtOptions, option: Seq<char>, span: Span, ty: Type) -> NbtOptions {
    match tag_named(option) {
        Some(chosen) => if ty is Param {
            o.fault(
                span,
                "the tag of a field whose type is a parameter comes from the type argument, so it cannot be written here"@,
            )
        } else if ty is Bool {
            o.fault(span, "a bool is stored as a byte; vanilla has no other boolean tag"@)
        } else if ty.compound() {
            o.fault(span, "a struct field is a compound, so it has no scalar tag"@)
        } else if ty.nbt_scalar() {
            o.fault(
                span,
                "an "@ + ty.name_text()
                    + " is already a tag: it is stored the one way                                  vanilla writes it, so there is nothing to choose here"@,
            )
        } else {
            NbtOptions { tag: Some(chosen), ..o }
        },
        None => o.fault(
            span,
            "unknown nbt option '"@ + option
                + "'; expected byte, short, int, long, float, double or rename"@,
        ),
    }
}

/// The options of one `#[nbt(..)]`, from token `i` on.
#[verifier::opaque]
pub open spec fn nbt_options(o: NbtOptions, tokens: Seq<Token>, i: int, ty: Type) -> NbtOptions
    decreases tokens.len() - i,
{
    if i < 0 || i >= tokens.len() {
        o
    } else {
        match tokens[i].kind {
            TokenKind::Ident(option) => if option == "rename"@ {
                // `rename = "Health"`: the `=` and the string after it are read here.
                let o1 = if i + 2 < tokens.len() && tokens[i + 2].kind is Str {
                    NbtOptions { rename: Some(tokens[i + 2].kind->Str_0), ..o }
                } else {
                    o.fault(
                        tokens[i].span,
                        "rename takes a string: #[nbt(rename = \"Health\")]"@,
                    )
                };
                if i + 3 <= tokens.len() {
                    nbt_options(o1, tokens, i + 3, ty)
                } else {
                    o1
                }
            } else if option == "optional"@ {
                nbt_options(
                    o.fault(
                        tokens[i].span,
                        "a missing field is written into the type: declare it as Option<T> rather than saying so twice"@,
                    ),
                    tokens,
                    i + 1,
                    ty,
                )
            } else {
                nbt_options(
                    nbt_tag_option(o, option, tokens[i].span, ty),
                    tokens,
                    i + 1,
                    ty,
                )
            },
            _ => nbt_options(o, tokens, i + 1, ty),
        }
    }
}

/// The options of a field's attributes, from attribute `i` on.
#[verifier::opaque]
pub open spec fn field_options(o: NbtOptions, attrs: Seq<Attribute>, i: int, ty: Type) -> NbtOptions
    decreases attrs.len() - i,
{
    if i < 0 || i >= attrs.len() {
        o
    } else {
        let o1 = match attr_word(attrs[i]) {
            None => o.fault(attrs[i].span, "expected an attribute name"@),
            Some(name) => if name != "nbt"@ {
                o.fault(
                    attrs[i].span,
                    "'"@ + name + "' is not an attribute a field can carry"@,
                )
            } else {
                nbt_options(o, attrs[i].tokens, 1, ty)
            },
        };
        field_options(o1, attrs, i + 1, ty)
    }
}

/// What a field's options are chosen for: an option holds its value directly, so its tag
/// is the tag of what it holds.
pub open spec fn tagged_type(t: Types, ty: Type) -> Type {
    match ty {
        Type::Option(id) => inner_of(t, id),
        _ => ty,
    }
}

/// The `#[nbt(..)]` options on a field: which tag, and which key.
pub open spec fn nbt_attrs(t: Table, field: FieldDef, ty: Type) -> NbtOptions {
    let of = tagged_type(t.types, ty);
    field_options(
        NbtOptions { errs: t.errs, tag: default_tag(of), rename: None },
        field.attrs,
        0,
        of,
    )
}

/// One declared field, unless something is wrong with it.
#[verifier::opaque]
pub open spec fn collect_field(
    t: Table,
    field: FieldDef,
    generics: Seq<Generic>,
    before: Seq<Field>,
) -> (Table, Option<Field>) {
    if field.ty.borrow is Some {
        (
            t.fault(
                field.ty.span,
                "a field cannot hold a reference: a reference is a name for a place in the caller, and a compound outlives the call"@,
            ),
            None,
        )
    } else {
        match resolve_written(t, field.ty, generics) {
            (t1, None) => (t1, None),
            (t1, Some(ty)) => if ty.compile_time() {
                (
                    t1.fault(
                        field.ty.span,
                        "a "@ + name_of(t1.types, ty)
                            + " exists only while compiling, so a compound cannot hold one"@,
                    ),
                    None,
                )
            } else if field_named(before, field.name.name, 0) < before.len() {
                (
                    t1.fault(
                        field.name.span,
                        "the field '"@ + field.name.name + "' is declared twice"@,
                    ),
                    None,
                )
            } else {
                let o = nbt_attrs(t1, field, ty);
                let t2 = Table { errs: o.errs, ..t1 };
                let nbt = match o.rename {
                    Some(key) => key,
                    None => field.name.name,
                };
                let clash = field_keyed(before, nbt, 0);
                if clash < before.len() {
                    (
                        t2.fault(
                            field.name.span,
                            "this field and '"@ + before[clash].name
                                + "' would both be stored as '"@ + nbt + "'"@,
                        ),
                        None,
                    )
                } else {
                    (t2, Some(Field { name: field.name.name, nbt, ty, tag: o.tag }))
                }
            },
        }
    }
}

/// The fields of a struct, or of one variant, with their NBT keys and tags settled.
#[verifier::opaque]
pub open spec fn collect_fields(
    t: Table,
    declared: Seq<FieldDef>,
    i: int,
    generics: Seq<Generic>,
    acc: Seq<Field>,
) -> (Table, Seq<Field>)
    decreases declared.len() - i,
{
    if i < 0 || i >= declared.len() {
        (t, acc)
    } else {
        match collect_field(t, declared[i], generics, acc) {
            (t1, Some(field)) => collect_fields(t1, declared, i + 1, generics, acc.push(field)),
            (t1, None) => collect_fields(t1, declared, i + 1, generics, acc),
        }
    }
}

/// The names of a file's types: structs, enums and templates, each with its number.
pub struct Names {
    pub t: Table,
    pub structs: Seq<Item>,
    pub enums: Seq<Item>,
    pub templates: Seq<Item>,
}

/// A type's name, unless it is taken.
pub open spec fn claim_name(n: Names, name: Ident, ty: Type) -> Names {
    if lookup(n.t.types.by_name, name.name) is Some {
        Names {
            t: n.t.fault(name.span, "a type named '"@ + name.name + "' is already defined"@),
            ..n
        }
    } else {
        Names {
            t: Table {
                types: Types {
                    by_name: n.t.types.by_name.push((name.name, ty)),
                    ..n.t.types
                },
                ..n.t
            },
            ..n
        }
    }
}

/// What one item adds to the names.
#[verifier::opaque]
pub open spec fn collect_name(n: Names, item: Item) -> Names {
    match item.kind {
        ItemKind::Struct(declared) => if declared.generics.len() > 0 {
            let name = declared.name;
            if lookup(n.t.types.template_by_name, name.name) is Some || lookup(
                n.t.types.by_name,
                name.name,
            ) is Some {
                Names {
                    t: n.t.fault(
                        name.span,
                        "a type named '"@ + name.name + "' is already defined"@,
                    ),
                    ..n
                }
            } else {
                Names {
                    t: Table {
                        types: Types {
                            template_by_name: n.t.types.template_by_name.push(
                                (name.name, n.templates.len() as usize),
                            ),
                            ..n.t.types
                        },
                        ..n.t
                    },
                    templates: n.templates.push(item),
                    ..n
                }
            }
        } else {
            let id = StructId(n.structs.len() as u32);
            let ty = if has_attr(item.attrs, "entity"@, 0) {
                Type::View(id)
            } else {
                Type::Struct(id)
            };
            claim_name(Names { structs: n.structs.push(item), ..n }, declared.name, ty)
        },
        ItemKind::Enum(declared) => claim_name(
            Names { enums: n.enums.push(item), ..n },
            declared.name,
            Type::Enum(EnumId(n.enums.len() as u32)),
        ),
        _ => n,
    }
}

#[verifier::opaque]
pub open spec fn collect_names(n: Names, items: Seq<Item>, i: int) -> Names
    decreases items.len() - i,
{
    if i < 0 || i >= items.len() {
        n
    } else {
        collect_names(collect_name(n, items[i]), items, i + 1)
    }
}

// A type is in the table, without what it holds, from the moment all names are known: a
// field can name any of them, wherever they are declared.

/// A struct without its fields.
pub open spec fn struct_shell(item: Item, i: int) -> StructDef {
    match item.kind {
        ItemKind::Struct(declared) => StructDef {
            id: StructId(i as u32),
            name: declared.name.name,
            fields: seq![],
            span: declared.name.span,
            from: None,
        },
        _ => StructDef {
            id: StructId(i as u32),
            name: seq![],
            fields: seq![],
            span: item.span,
            from: None,
        },
    }
}

/// A template without its fields.
pub open spec fn template_shell(item: Item) -> Template {
    match item.kind {
        ItemKind::Struct(declared) => Template {
            name: declared.name.name,
            generics: generic_defs(declared.generics),
            fields: seq![],
            span: declared.name.span,
        },
        _ => Template { name: seq![], generics: seq![], fields: seq![], span: item.span },
    }
}

/// An enum without its variants.
pub open spec fn enum_shell(item: Item, i: int) -> EnumDef {
    match item.kind {
        ItemKind::Enum(declared) => EnumDef {
            id: EnumId(i as u32),
            name: declared.name.name,
            variants: seq![],
            span: declared.name.span,
        },
        _ => EnumDef { id: EnumId(i as u32), name: seq![], variants: seq![], span: item.span },
    }
}

/// The table with the fields of the `i`th struct settled.
pub open spec fn with_fields(t: Types, i: int, fields: Seq<Field>) -> Types {
    if i < t.structs.len() {
        Types { structs: t.structs.update(i, StructDef { fields, ..t.structs[i] }), ..t }
    } else {
        t
    }
}

/// The table with the fields of the `i`th template settled.
pub open spec fn with_template_fields(t: Types, i: int, fields: Seq<Field>) -> Types {
    if i < t.templates.len() {
        Types { templates: t.templates.update(i, Template { fields, ..t.templates[i] }), ..t }
    } else {
        t
    }
}

/// The table with the variants of the `i`th enum settled.
pub open spec fn with_variants(t: Types, i: int, variants: Seq<Variant>) -> Types {
    if i < t.enums.len() {
        Types { enums: t.enums.update(i, EnumDef { variants, ..t.enums[i] }), ..t }
    } else {
        t
    }
}

/// The table in which every type of the file is known by name.
pub open spec fn shells(n: Names) -> Table {
    Table {
        types: Types {
            structs: Seq::new(n.structs.len(), |i: int| struct_shell(n.structs[i], i)),
            enums: Seq::new(n.enums.len(), |i: int| enum_shell(n.enums[i], i)),
            templates: Seq::new(n.templates.len(), |i: int| template_shell(n.templates[i])),
            ..n.t.types
        },
        ..n.t
    }
}

/// The plain structs, in order.
#[verifier::opaque]
pub open spec fn collect_structs(t: Table, items: Seq<Item>, i: int) -> Table
    decreases items.len() - i,
{
    if i < 0 || i >= items.len() {
        t
    } else {
        match items[i].kind {
            ItemKind::Struct(declared) => {
                let errs = if has_attr(items[i].attrs, "entity"@, 0) {
                    entity_attrs(t.errs, items[i].attrs, 0)
                } else {
                    reject_attrs(t.errs, items[i].attrs, 0, "a struct"@)
                };
                let (t1, fields) = collect_fields(
                    Table { errs, ..t },
                    declared.fields,
                    0,
                    seq![],
                    seq![],
                );
                collect_structs(
                    Table {
                        types: with_fields(t1.types, i, fields),
                        ..t1
                    },
                    items,
                    i + 1,
                )
            },
            _ => collect_structs(t, items, i + 1),
        }
    }
}

/// The fields of the generic structs, in order. No template has any before all are known:
/// an instance that is asked for on the way is settled with the others.
#[verifier::opaque]
pub open spec fn collect_templates(
    t: Table,
    items: Seq<Item>,
    i: int,
    acc: Seq<Seq<Field>>,
) -> (Table, Seq<Seq<Field>>)
    decreases items.len() - i,
{
    if i < 0 || i >= items.len() {
        (t, acc)
    } else {
        match items[i].kind {
            ItemKind::Struct(declared) => {
                let errs = reject_attrs(t.errs, items[i].attrs, 0, "a struct"@);
                let generics = generic_defs(declared.generics);
                let (t1, fields) = collect_fields(
                    Table { errs, ..t },
                    declared.fields,
                    0,
                    generics,
                    seq![],
                );
                collect_templates(t1, items, i + 1, acc.push(fields))
            },
            _ => collect_templates(t, items, i + 1, acc.push(seq![])),
        }
    }
}

/// The table with the fields of the templates from the `i`th on settled.
pub open spec fn with_templates(t: Types, fields: Seq<Seq<Field>>, i: int) -> Types
    decreases fields.len() - i,
{
    if i < 0 || i >= fields.len() {
        t
    } else {
        with_templates(with_template_fields(t, i, fields[i]), fields, i + 1)
    }
}

/// The variants of an enum. The tag shares the compound with the payload, so no field can
/// be stored under its key.
#[verifier::opaque]
pub open spec fn collect_variants(
    t: Table,
    declared: Seq<VariantDef>,
    i: int,
    acc: Seq<Variant>,
) -> (Table, Seq<Variant>)
    decreases declared.len() - i,
{
    if i < 0 || i >= declared.len() {
        (t, acc)
    } else {
        let variant = declared[i];
        let (t1, fields) = collect_fields(t, variant.fields, 0, seq![], seq![]);
        let clash = field_keyed(fields, "tag"@, 0);
        let t2 = if clash < fields.len() {
            t1.fault(
                variant.span,
                "'"@ + fields[clash].name + "' collides with the 'tag' the variant is stored under"@,
            )
        } else {
            t1
        };
        collect_variants(t2, declared, i + 1, acc.push(Variant { name: variant.name.name, fields }))
    }
}

/// The first variant before `upto` whose name is the same in lower case, or `upto`.
pub open spec fn same_but_case(declared: Seq<VariantDef>, lowered: Seq<char>, i: int, upto: int) -> int
    decreases upto - i,
{
    if i < 0 || i >= upto || i >= declared.len() {
        upto
    } else if lowercase(declared[i].name.name) == lowered {
        i
    } else {
        same_but_case(declared, lowered, i + 1, upto)
    }
}

/// Arms become functions named after their variant, and a datapack path is lowercase
/// only, so two variants that differ in case would land on one file.
#[verifier::opaque]
pub open spec fn check_cases(errs: Seq<Fault>, declared: Seq<VariantDef>, i: int) -> Seq<Fault>
    decreases declared.len() - i,
{
    if i < 0 || i >= declared.len() {
        errs
    } else {
        let name = declared[i].name;
        let other = same_but_case(declared, lowercase(name.name), 0, i);
        let errs1 = if other < i {
            errs.push(
                Fault {
                    span: name.span,
                    message: "'"@ + declared[other].name.name + "' and '"@ + name.name
                        + "' differ only in case, and the functions their match arms generate would collide"@,
                },
            )
        } else {
            errs
        };
        check_cases(errs1, declared, i + 1)
    }
}

/// The enums, in order.
#[verifier::opaque]
pub open spec fn collect_enums(t: Table, items: Seq<Item>, i: int) -> Table
    decreases items.len() - i,
{
    if i < 0 || i >= items.len() {
        t
    } else {
        match items[i].kind {
            ItemKind::Enum(declared) => {
                let errs = reject_attrs(t.errs, items[i].attrs, 0, "an enum"@);
                let (t1, variants) = collect_variants(
                    Table { errs, ..t },
                    declared.variants,
                    0,
                    seq![],
                );
                collect_enums(
                    Table {
                        types: with_variants(t1.types, i, variants),
                        errs: check_cases(t1.errs, declared.variants, 0),
                    },
                    items,
                    i + 1,
                )
            },
            _ => collect_enums(t, items, i + 1),
        }
    }
}

/// Whether some field of `from` has the composite type `to`.
pub open spec fn holds(t: Types, from: Type, to: Type) -> bool {
    to.compound() && exists|i: int|
        0 <= i < fields_of(t, from).len() && (#[trigger] fields_of(t, from)[i]).ty == to
}

/// Whether the types of `path` each hold the next.
pub open spec fn is_chain(t: Types, path: Seq<Type>) -> bool {
    forall|i: int| 0 <= i < path.len() - 1 ==> holds(t, path[i], #[trigger] path[i + 1])
}

/// Whether a composite type can reach itself through its fields.
pub open spec fn contains_itself(t: Types, ty: Type) -> bool {
    exists|path: Seq<Type>|
        path.len() >= 2 && path[0] == ty && path.last() == ty && #[trigger] is_chain(t, path)
}

/// One fault for each struct from `i` on that contains itself.
#[verifier::opaque]
pub open spec fn check_structs(t: Table, i: int, count: int) -> Table
    decreases count - i,
{
    if i < 0 || i >= count || i >= t.types.structs.len() {
        t
    } else {
        let def = t.types.structs[i];
        let ty = Type::Struct(def.id);
        let t1 = if contains_itself(t.types, ty) {
            t.fault(struct_span(t.types, def.id), endless(name_of(t.types, ty)))
        } else {
            t
        };
        check_structs(t1, i + 1, count)
    }
}

/// One fault for each enum from `i` on that contains itself.
#[verifier::opaque]
pub open spec fn check_enums(t: Table, i: int) -> Table
    decreases t.types.enums.len() - i,
{
    if i < 0 || i >= t.types.enums.len() {
        t
    } else {
        let def = t.types.enums[i];
        let ty = Type::Enum(def.id);
        let t1 = if contains_itself(t.types, ty) {
            t.fault(enum_span(t.types, def.id), endless(name_of(t.types, ty)))
        } else {
            t
        };
        check_enums(t1, i + 1)
    }
}

pub open spec fn endless(name: Seq<char>) -> Seq<char> {
    "'"@ + name + "' contains itself, so it has no value a compound could hold"@
}

pub open spec fn struct_span(t: Types, id: StructId) -> Span {
    match struct_of(t, id) {
        Some(def) => def.span,
        None => Span { start: 0, end: 0 },
    }
}

pub open spec fn enum_span(t: Types, id: EnumId) -> Span {
    match enum_of(t, id) {
        Some(def) => def.span,
        None => Span { start: 0, end: 0 },
    }
}

/// The `struct` and `enum` definitions of a file: the names first, so a field can refer
/// to a type declared further down, then the fields. Instances that were asked for before
/// their template had its fields get them once all templates do.
#[verifier::opaque]
pub open spec fn collect_types(items: Seq<Item>) -> Table {
    let n = collect_names(
        Names {
            t: Table { types: empty_types(), errs: seq![] },
            structs: seq![],
            enums: seq![],
            templates: seq![],
        },
        items,
        0,
    );
    let t1 = collect_structs(shells(n), n.structs, 0);
    let (t2, fields) = collect_templates(t1, n.templates, 0, seq![]);
    let t3 = Table { types: with_templates(t2.types, fields, 0), ..t2 };
    let t4 = check_growth(t3, flows(t3.types, 0), 0);
    let count = t4.types.structs.len();
    let t5 = Table {
        types: filled(filled(t4.types, 0, count), count as int, ROOM as nat),
        ..t4
    };
    let t6 = collect_enums(t5, n.enums, 0);
    let t7 = check_structs(t6, 0, t6.types.structs.len() as int);
    check_enums(t7, 0)
}

/// The contexts named in one `#[ctx(..)]`, from token `i` on, with `acc` before them.
pub open spec fn ctx_names(tokens: Seq<Token>, i: int, acc: Seq<Ctx>) -> Seq<Ctx>
    decreases tokens.len() - i,
{
    if i < 0 || i >= tokens.len() {
        acc
    } else {
        match tokens[i].kind {
            TokenKind::Ident(name) => match ctx_named(name) {
                Some(kind) => ctx_names(tokens, i + 1, acc.push(kind)),
                None => ctx_names(tokens, i + 1, acc),
            },
            _ => ctx_names(tokens, i + 1, acc),
        }
    }
}

/// The contexts in order, each once.
pub open spec fn sorted_ctx(kinds: Seq<Ctx>) -> Seq<Ctx> {
    if kinds.contains(Ctx::Entity) {
        if kinds.contains(Ctx::Position) {
            seq![Ctx::Entity, Ctx::Position]
        } else {
            seq![Ctx::Entity]
        }
    } else if kinds.contains(Ctx::Position) {
        seq![Ctx::Position]
    } else {
        seq![]
    }
}

pub open spec fn all_ctx_names(attrs: Seq<Attribute>, i: int, acc: Seq<Ctx>) -> Seq<Ctx>
    decreases attrs.len() - i,
{
    if i < 0 || i >= attrs.len() {
        acc
    } else if attr_word(attrs[i]) == Some("ctx"@) {
        all_ctx_names(attrs, i + 1, ctx_names(attrs[i].tokens, 1, acc))
    } else {
        all_ctx_names(attrs, i + 1, acc)
    }
}

/// The `#[ctx(..)]` kinds on an item, ignoring anything malformed.
#[verifier::opaque]
pub open spec fn declared_ctx(attrs: Seq<Attribute>) -> Seq<Ctx> {
    sorted_ctx(all_ctx_names(attrs, 0, seq![]))
}

/// Putting contexts in order neither adds one nor loses one, and leaves each once.
pub proof fn lemma_contexts_are_sorted(kinds: Seq<Ctx>)
    ensures
        forall|kind: Ctx| #[trigger] sorted_ctx(kinds).contains(kind) <==> kinds.contains(kind),
        sorted_ctx(kinds).no_duplicates(),
        sorted_ctx(sorted_ctx(kinds)) == sorted_ctx(kinds),
{
    let out = sorted_ctx(kinds);
    assert forall|kind: Ctx| #[trigger] out.contains(kind) <==> kinds.contains(kind) by {
        if kinds.contains(kind) {
            if kinds.contains(Ctx::Entity) {
                assert(out[0] == Ctx::Entity);
            }
            if kinds.contains(Ctx::Position) {
                assert(out.last() == Ctx::Position);
            }
        }
    }
}

} // verus!
