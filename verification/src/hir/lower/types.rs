//! Resolving written types, and collecting the definitions of a file.

use vstd::prelude::*;

use crate::hir::model;
use crate::hir::rules::types as rules;
use crate::hir::{generics_view, planned_attr, Attr, GenericDef, NbtTag, Scale, Type, Types};
use crate::syntax::ast::{
    attrs_view, generics_view as written_generics, text_opt_view, types_view, Attribute,
    GenericParam, ScaleArg, TypeName,
};
use crate::syntax::lexer::{tokens_view, Token, TokenKind};
use crate::syntax::model::Fault;
use crate::syntax::{faults, Span, SyntaxError};
use crate::text::{cat2, cat3, cat4, cat5, own, same, show_u64};

verus! {

/// The table of types and the problems found so far.
pub(crate) struct Table {
    pub(crate) types: Types,
    pub(crate) errs: Vec<SyntaxError>,
}

/// One more problem.
pub(crate) fn report(errs: &mut Vec<SyntaxError>, span: Span, message: String)
    ensures
        faults(final(errs)@) == faults(old(errs)@).push(Fault { span, message: message@ }),
{
    let ghost before = faults(errs@);
    errs.push(SyntaxError { span, message });
    proof {
        assert(faults(errs@) =~= before.push(Fault { span, message: message@ }));
    }
}

impl GenericDef {
    /// The generic parameters of an item.
    pub(crate) fn collect(params: &Vec<GenericParam>) -> (r: Vec<GenericDef>)
        ensures
            generics_view(r@) == rules::generic_defs(written_generics(params@)),
            r@.len() == params@.len(),
    {
        let mut out: Vec<GenericDef> = Vec::new();
        let mut i: usize = 0;
        while i < params.len()
            invariant
                i <= params@.len(),
                out@.len() == i,
                forall|k: int|
                    0 <= k < i ==> (#[trigger] out@[k])@ == (model::Generic {
                        name: params@[k].name.name@,
                        is_const: params@[k].is_const,
                    }),
            decreases params.len() - i,
        {
            out.push(
                GenericDef { name: params[i].name.name.clone(), is_const: params[i].is_const },
            );
            i += 1;
        }
        proof {
            assert(generics_view(out@) =~= rules::generic_defs(written_generics(params@)));
        }
        out
    }
}

/// The position of the generic parameter of that name, or their number.
fn find_generic(generics: &Vec<GenericDef>, name: &str) -> (r: usize)
    ensures
        r == rules::generic_at(generics_view(generics@), name@, 0),
        r <= generics@.len(),
{
    let mut i: usize = 0;
    while i < generics.len() && !same(generics[i].name.as_str(), name)
        invariant
            i <= generics@.len(),
            rules::generic_at(generics_view(generics@), name@, 0) == rules::generic_at(
                generics_view(generics@),
                name@,
                i as int,
            ),
        decreases generics.len() - i,
    {
        i += 1;
    }
    i
}

/// The `1000` of `fix<1000>`, or the const parameter that will become one.
pub(crate) fn resolve_scale(
    errs: &mut Vec<SyntaxError>,
    written: &ScaleArg,
    generics: &Vec<GenericDef>,
) -> (r: Option<Scale>)
    ensures
        (faults(final(errs)@), r) == rules::resolve_scale(
            faults(old(errs)@),
            written@,
            generics_view(generics@),
        ),
{
    proof {
        reveal(rules::resolve_scale);
    }
    match written {
        ScaleArg::Int(lit) => {
            if lit.value >= 1 {
                Some(Scale::Const(lit.value as u32))
            } else {
                report(
                    errs,
                    lit.span,
                    own("a scale is 1 or more: 'fix<1000>' counts thousandths"),
                );
                None
            }
        },
        ScaleArg::Param(name) => {
            let at: usize = find_generic(generics, name.name.as_str());
            if at < generics.len() && generics[at].is_const {
                Some(Scale::Param(at as u32))
            } else if at < generics.len() {
                report(
                    errs,
                    name.span,
                    cat5(
                        "'",
                        name.name.as_str(),
                        "' is a type parameter; a scale needs 'const ",
                        name.name.as_str(),
                        ": i32'",
                    ),
                );
                None
            } else {
                report(
                    errs,
                    name.span,
                    cat3(
                        "unknown scale '",
                        name.name.as_str(),
                        "'; write a number or a const parameter",
                    ),
                );
                None
            }
        },
    }
}

/// The word an attribute begins with.
pub(crate) fn attr_word(attr: &Attribute) -> (r: Option<&String>)
    ensures
        match r {
            Some(word) => rules::attr_word(attr@) == Some(word@),
            None => rules::attr_word(attr@) is None,
        },
{
    if attr.tokens.len() > 0 {
        match &attr.tokens[0].kind {
            TokenKind::Ident(name) => Some(name),
            _ => None,
        }
    } else {
        None
    }
}

/// Whether an item carries a bare `#[name]`.
pub(crate) fn has_attr(attrs: &Vec<Attribute>, name: &str) -> (r: bool)
    ensures
        r == rules::has_attr(attrs_view(attrs@), name@, 0),
{
    let mut i: usize = 0;
    while i < attrs.len()
        invariant
            i <= attrs@.len(),
            rules::has_attr(attrs_view(attrs@), name@, 0) == rules::has_attr(
                attrs_view(attrs@),
                name@,
                i as int,
            ),
        decreases attrs.len() - i,
    {
        proof {
            assert(attrs_view(attrs@)[i as int] == attrs@[i as int]@);
        }
        match attr_word(&attrs[i]) {
            Some(word) => {
                if same(word.as_str(), name) && attrs[i].tokens.len() == 1 {
                    return true;
                }
            },
            None => {},
        }
        i += 1;
    }
    false
}

/// What is wrong with an attribute that `what` cannot carry.
pub(crate) fn misplaced(attr: &Attribute, what: &str) -> (r: String)
    ensures
        r@ == rules::misplaced(attr@, what@),
{
    match attr_word(attr) {
        None => own("expected an attribute name"),
        Some(name) => {
            if same(name.as_str(), "ctx") || Attr::parse(name.as_str()).is_some() {
                cat4("'", name.as_str(), "' does not apply to ", what)
            } else if planned_attr(name.as_str()) {
                cat3("'", name.as_str(), "' is planned but not implemented yet")
            } else {
                cat3("unknown attribute '", name.as_str(), "'")
            }
        },
    }
}

/// One problem for each attribute of an `impl` block, which carries none.
pub(crate) fn impl_attrs(errs: &mut Vec<SyntaxError>, attrs: &Vec<Attribute>)
    ensures
        faults(final(errs)@) == rules::impl_attrs(faults(old(errs)@), attrs_view(attrs@), 0),
{
    let ghost start = faults(errs@);
    let ghost all = attrs_view(attrs@);
    let mut i: usize = 0;
    while i < attrs.len()
        invariant
            i <= attrs@.len(),
            all == attrs_view(attrs@),
            rules::impl_attrs(start, all, 0) == rules::impl_attrs(faults(errs@), all, i as int),
        decreases attrs.len() - i,
    {
        proof {
            assert(all[i as int] == attrs@[i as int]@);
        }
        let message = misplaced(&attrs[i], "an impl block");
        report(errs, attrs[i].span, message);
        i += 1;
    }
}

/// One problem for each attribute of a view but the one that makes it a view.
pub(crate) fn entity_attrs(errs: &mut Vec<SyntaxError>, attrs: &Vec<Attribute>)
    ensures
        faults(final(errs)@) == rules::entity_attrs(faults(old(errs)@), attrs_view(attrs@), 0),
{
    let ghost start = faults(errs@);
    let ghost all = attrs_view(attrs@);
    let mut i: usize = 0;
    while i < attrs.len()
        invariant
            i <= attrs@.len(),
            all == attrs_view(attrs@),
            rules::entity_attrs(start, all, 0) == rules::entity_attrs(
                faults(errs@),
                all,
                i as int,
            ),
        decreases attrs.len() - i,
    {
        proof {
            assert(all[i as int] == attrs@[i as int]@);
        }
        let bare = match attr_word(&attrs[i]) {
            Some(word) => same(word.as_str(), "entity") && attrs[i].tokens.len() == 1,
            None => false,
        };
        if !bare {
            report(errs, attrs[i].span, own("attributes on a struct are not implemented yet"));
        }
        i += 1;
    }
}

/// One problem for each attribute of an item that takes none.
pub(crate) fn reject_attrs(errs: &mut Vec<SyntaxError>, attrs: &Vec<Attribute>, what: &str)
    ensures
        faults(final(errs)@) == rules::reject_attrs(
            faults(old(errs)@),
            attrs_view(attrs@),
            0,
            what@,
        ),
{
    let ghost start = faults(errs@);
    let mut i: usize = 0;
    while i < attrs.len()
        invariant
            i <= attrs@.len(),
            rules::reject_attrs(start, attrs_view(attrs@), 0, what@) == rules::reject_attrs(
                faults(errs@),
                attrs_view(attrs@),
                i as int,
                what@,
            ),
        decreases attrs.len() - i,
    {
        proof {
            assert(attrs_view(attrs@)[i as int] == attrs@[i as int]@);
        }
        report(
            errs,
            attrs[i].span,
            cat3("attributes on ", what, " are not implemented yet"),
        );
        i += 1;
    }
}

/// The tag and the key a field's `#[nbt(..)]` options ask for.
pub(crate) struct NbtOptions {
    pub(crate) errs: Vec<SyntaxError>,
    pub(crate) tag: Option<NbtTag>,
    pub(crate) rename: Option<String>,
}

impl NbtOptions {
    pub(crate) open spec fn view(&self) -> rules::NbtOptions {
        rules::NbtOptions {
            errs: faults(self.errs@),
            tag: self.tag,
            rename: text_opt_view(self.rename),
        }
    }

    fn fault(&mut self, span: Span, message: String)
        ensures
            final(self)@ == old(self)@.fault(span, message@),
    {
        report(&mut self.errs, span, message);
    }

    /// One tag option on a field of type `ty`.
    fn tag_option(&mut self, option: &str, span: Span, ty: Type)
        ensures
            final(self)@ == rules::nbt_tag_option(old(self)@, option@, span, ty),
    {
        proof {
            reveal(rules::nbt_tag_option);
        }
        match NbtTag::parse(option) {
            Some(chosen) => {
                if matches!(ty, Type::Param(_)) {
                    self.fault(
                        span,
                        own(
                            "the tag of a field whose type is a parameter comes from the type argument, so it cannot be written here",
                        ),
                    );
                } else if matches!(ty, Type::Bool) {
                    self.fault(
                        span,
                        own("a bool is stored as a byte; vanilla has no other boolean tag"),
                    );
                } else if ty.is_compound() {
                    self.fault(
                        span,
                        own("a struct field is a compound, so it has no scalar tag"),
                    );
                } else if ty.is_nbt_scalar() {
                    self.fault(
                        span,
                        cat3(
                            "an ",
                            ty.name(),
                            " is already a tag: it is stored the one way                                  vanilla writes it, so there is nothing to choose here",
                        ),
                    );
                } else {
                    self.tag = Some(chosen);
                }
            },
            None => {
                self.fault(
                    span,
                    cat3(
                        "unknown nbt option '",
                        option,
                        "'; expected byte, short, int, long, float, double or rename",
                    ),
                );
            },
        }
    }

    /// The options of one `#[nbt(..)]`.
    fn options(&mut self, tokens: &Vec<Token>, ty: Type)
        ensures
            final(self)@ == rules::nbt_options(old(self)@, tokens_view(tokens@), 1, ty),
    {
        let ghost start = self@;
        let mut i: usize = 1;
        while i < tokens.len()
            invariant
                1 <= i,
                start == old(self)@,
                rules::nbt_options(start, tokens_view(tokens@), 1, ty) == rules::nbt_options(
                    self@,
                    tokens_view(tokens@),
                    i as int,
                    ty,
                ),
            decreases tokens.len() - i,
        {
            proof {
                reveal(rules::nbt_options);
                assert(tokens_view(tokens@)[i as int] == tokens@[i as int]@);
            }
            let span = tokens[i].span;
            match &tokens[i].kind {
                TokenKind::Ident(option) => {
                    if same(option.as_str(), "rename") {
                        // `rename = "Health"`: the `=` and the string after it are read here.
                        let found: Option<String> = if tokens.len() - i > 2 {
                            proof {
                                assert(tokens_view(tokens@)[i + 2] == tokens@[i + 2]@);
                            }
                            match &tokens[i + 2].kind {
                                TokenKind::Str(key) => Some(key.clone()),
                                _ => None,
                            }
                        } else {
                            None
                        };
                        if found.is_some() {
                            self.rename = found;
                        } else {
                            self.fault(
                                span,
                                own("rename takes a string: #[nbt(rename = \"Health\")]"),
                            );
                        }
                        if tokens.len() - i < 3 {
                            return;
                        }
                        i += 3;
                    } else if same(option.as_str(), "optional") {
                        self.fault(
                            span,
                            own(
                                "a missing field is written into the type: declare it as Option<T> rather than saying so twice",
                            ),
                        );
                        i += 1;
                    } else {
                        self.tag_option(option.as_str(), span, ty);
                        i += 1;
                    }
                },
                _ => {
                    i += 1;
                },
            }
        }
        proof {
            reveal(rules::nbt_options);
        }
    }

    /// The options of a field's attributes.
    pub(crate) fn attrs(&mut self, attrs: &Vec<Attribute>, ty: Type)
        ensures
            final(self)@ == rules::field_options(old(self)@, attrs_view(attrs@), 0, ty),
    {
        let ghost start = self@;
        let mut i: usize = 0;
        while i < attrs.len()
            invariant
                i <= attrs@.len(),
                rules::field_options(start, attrs_view(attrs@), 0, ty) == rules::field_options(
                    self@,
                    attrs_view(attrs@),
                    i as int,
                    ty,
                ),
            decreases attrs.len() - i,
        {
            proof {
                reveal(rules::field_options);
                assert(attrs_view(attrs@)[i as int] == attrs@[i as int]@);
            }
            match attr_word(&attrs[i]) {
                None => {
                    self.fault(attrs[i].span, own("expected an attribute name"));
                },
                Some(name) => {
                    if !same(name.as_str(), "nbt") {
                        self.fault(
                            attrs[i].span,
                            cat3("'", name.as_str(), "' is not an attribute a field can carry"),
                        );
                    } else {
                        self.options(&attrs[i].tokens, ty);
                    }
                },
            }
            i += 1;
        }
        proof {
            reveal(rules::field_options);
        }
    }
}

impl Table {
    pub(crate) open spec fn view(&self) -> rules::Table {
        rules::Table { types: self.types@, errs: faults(self.errs@) }
    }

    pub(crate) fn fault(&mut self, span: Span, message: String)
        ensures
            final(self)@ == old(self)@.fault(span, message@),
    {
        report(&mut self.errs, span, message);
    }

    pub(crate) fn error(&mut self, span: Span, message: &str)
        ensures
            final(self)@ == old(self)@.fault(span, message@),
    {
        report(&mut self.errs, span, own(message));
    }

    /// The type a written one stands for, with type parameters in scope.
    #[verifier::spinoff_prover]
    pub(crate) fn resolve_written(&mut self, written: &TypeName, generics: &Vec<GenericDef>) -> (r:
        Option<Type>)
        ensures
            (final(self)@, r) == rules::resolve_written(
                old(self)@,
                written@,
                generics_view(generics@),
            ),
        decreases written, 0int, 1int,
    {
        proof {
            reveal(rules::resolve_written);
            reveal(rules::resolve_option);
            reveal(rules::resolve_vec);
            reveal(rules::resolve_all);
            assert(written@.args =~= types_view(written.args@));
        }
        let name = written.name.as_str();
        if same(name, "fix") {
            return match &written.scale {
                Some(scale) => {
                    let scale = resolve_scale(&mut self.errs, scale, generics)?;
                    Some(Type::Fix(scale))
                },
                None => None,
            };
        }
        let at: usize = find_generic(generics, name);
        if at < generics.len() {
            if generics[at].is_const {
                self.fault(
                    written.span,
                    cat3("'", name, "' is a const parameter: it is a scale, not a type"),
                );
                return None;
            }
            if written.args.len() > 0 {
                self.fault(
                    written.span,
                    cat3("'", name, "' is a type parameter; it does not take type arguments"),
                );
                return None;
            }
            return Some(Type::Param(at as u32));
        }
        if same(name, "Option") {
            return self.resolve_option(written, generics);
        }
        if same(name, "Vec") {
            return self.resolve_vec(written, generics);
        }
        let wanted: Option<usize> = match self.types.template(name) {
            Some(template) => Some(template.generics.len()),
            None => None,
        };
        match wanted {
            Some(wanted) => {
                if written.args.len() != wanted {
                    let given = show_u64(written.args.len() as u64);
                    let takes = show_u64(wanted as u64);
                    self.fault(
                        written.span,
                        cat2(
                            cat5(
                                "'",
                                name,
                                "' takes ",
                                takes.as_str(),
                                " type argument(s), but ",
                            ).as_str(),
                            cat2(given.as_str(), " were given").as_str(),
                        ),
                    );
                    proof {
                        assert("'"@ + name@ + "' takes "@ + takes@ + " type argument(s), but "@
                            + given@ + " were given"@ =~= ("'"@ + name@ + "' takes "@ + takes@
                            + " type argument(s), but "@) + (given@ + " were given"@));
                    }
                    return None;
                }
                let args = self.resolve_all(&written.args, generics)?;
                self.types.instantiate(name, &args)
            },
            None => {
                if written.args.len() > 0 {
                    self.fault(written.span, cat3("'", name, "' does not take type arguments"));
                    return None;
                }
                match Type::parse(name) {
                    Some(ty) => Some(ty),
                    None => match self.types.get(name) {
                        Some(ty) => Some(ty),
                        None => {
                            self.fault(written.span, cat3("unknown type '", name, "'"));
                            None
                        },
                    },
                }
            },
        }
    }

    /// `Option<T>`.
    #[verifier::spinoff_prover]
    fn resolve_option(&mut self, written: &TypeName, generics: &Vec<GenericDef>) -> (r: Option<
        Type,
    >)
        ensures
            (final(self)@, r) == rules::resolve_option(
                old(self)@,
                written@,
                generics_view(generics@),
            ),
        decreases written, 0int, 0int,
    {
        proof {
            reveal(rules::resolve_option);
            reveal(rules::resolve_written);
            assert(written@.args =~= types_view(written.args@));
        }
        if written.args.len() != 1 {
            self.error(written.span, "Option takes one type argument: write 'Option<i32>'");
            return None;
        }
        proof {
            assert(decreases_to!(written => written.args));
            assert(decreases_to!(written.args => written.args[0]));
        }
        let inner = self.resolve_written(&written.args[0], generics)?;
        if inner.is_compile_time() {
            self.fault(
                written.span,
                cat3(
                    "a ",
                    inner.name(),
                    " exists only while compiling, so it is never missing",
                ),
            );
            return None;
        }
        if matches!(inner, Type::Option(_)) {
            self.error(
                written.span,
                "Option<Option<T>> cannot be told apart: a path is either there or not, and that is the only thing 'None' is",
            );
            return None;
        }
        Some(self.types.option_of(inner))
    }

    /// `Vec<T>`.
    #[verifier::spinoff_prover]
    fn resolve_vec(&mut self, written: &TypeName, generics: &Vec<GenericDef>) -> (r: Option<Type>)
        ensures
            (final(self)@, r) == rules::resolve_vec(old(self)@, written@, generics_view(generics@)),
        decreases written, 0int, 0int,
    {
        proof {
            reveal(rules::resolve_vec);
            reveal(rules::resolve_written);
            assert(written@.args =~= types_view(written.args@));
        }
        if written.args.len() != 1 {
            self.error(written.span, "Vec takes one type argument: write 'Vec<i32>'");
            return None;
        }
        proof {
            assert(decreases_to!(written => written.args));
            assert(decreases_to!(written.args => written.args[0]));
        }
        let elem = self.resolve_written(&written.args[0], generics)?;
        if elem.is_compile_time() {
            self.fault(
                written.span,
                cat3(
                    "a ",
                    elem.name(),
                    " exists only while compiling, so a list cannot hold one",
                ),
            );
            return None;
        }
        Some(self.types.vec_of(elem))
    }

    /// Types in a row, up to the first that stands for nothing.
    #[verifier::spinoff_prover]
    fn resolve_all(&mut self, written: &Vec<TypeName>, generics: &Vec<GenericDef>) -> (r: Option<
        Vec<Type>,
    >)
        ensures
            (
                final(self)@,
                match r {
                    Some(types) => Some(types@),
                    None => None,
                },
            ) == rules::resolve_all(
                old(self)@,
                types_view(written@),
                0,
                generics_view(generics@),
                seq![],
            ),
        decreases written, 0int, 2int,
    {
        let ghost start = self@;
        let ghost all = types_view(written@);
        let ghost known = generics_view(generics@);
        let mut out: Vec<Type> = Vec::new();
        let mut i: usize = 0;
        while i < written.len()
            invariant
                i <= written@.len(),
                all == types_view(written@),
                known == generics_view(generics@),
                start == old(self)@,
                rules::resolve_all(start, all, 0, known, seq![]) == rules::resolve_all(
                    self@,
                    all,
                    i as int,
                    known,
                    out@,
                ),
            decreases written.len() - i,
        {
            proof {
                reveal(rules::resolve_all);
                reveal(rules::resolve_written);
                assert(all[i as int] == written@[i as int]@);
                assert(decreases_to!(written => written[i as int]));
            }
            let ty = self.resolve_written(&written[i], generics)?;
            out.push(ty);
            i += 1;
        }
        proof {
            reveal(rules::resolve_all);
        }
        Some(out)
    }
}

} // verus!
