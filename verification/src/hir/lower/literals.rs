//! Lowering of chat components and of the literals made of tokens, and the instances of
//! functions.

use vstd::prelude::*;

use crate::hir::lower::{borrows_view, pending_view, Frame, Lowering, Pending};
use crate::hir::rules;
use crate::hir::rules::values;
use crate::hir::types::same_types;
use crate::hir::{
    component_opt_view, expr_opt_view, fields_view, find_key, Component, Expr,
    ExprKind, Field, FnId, LocalId, NbtTag, Place, Type, Types,
};
use crate::map::pairs_view;
use crate::names;
use crate::syntax::ast::text_opt_view;
use crate::syntax::lexer::{tokens_view, Keyword, Punct, Token, TokenKind};
use crate::syntax::Span;
use crate::text::{
    cat2, cat3, cat5, char_text, debug, join_texts, own, quoted, recoloned, same, show_bool,
    show_i32, texts, to_lowercase,
};

verus! {

/// `n` with its sign turned, as far as an `i32` holds it.
fn negated(n: i32) -> (r: i32)
    ensures
        r == rules::negated(n),
{
    if n == i32::MIN {
        n
    } else {
        -n
    }
}

fn token_is(tokens: &Vec<Token>, at: usize, punct: Punct) -> (r: bool)
    ensures
        r == values::token_is(tokens_view(tokens@), at as int, punct),
{
    if at < tokens.len() {
        proof {
            assert(tokens_view(tokens@)[at as int] == tokens@[at as int]@);
        }
        match &tokens[at].kind {
            TokenKind::Punct(found) => *found == punct,
            _ => false,
        }
    } else {
        false
    }
}

/// The value written under a key.
fn find_written(written: &Vec<(String, String)>, key: &str) -> (r: usize)
    ensures
        r == values::written_at(pairs_view(written@), key@, 0),
        r <= written@.len(),
{
    let mut i: usize = 0;
    while i < written.len() && !same(written[i].0.as_str(), key)
        invariant
            i <= written@.len(),
            values::written_at(pairs_view(written@), key@, 0) == values::written_at(
                pairs_view(written@),
                key@,
                i as int,
            ),
        decreases written.len() - i,
    {
        i += 1;
    }
    i
}

/// One coordinate: its notation, and its number where one is written.
struct Coord {
    prefix: Option<char>,
    number: Option<i32>,
}

impl Coord {
    spec fn view(&self) -> values::Coord {
        values::Coord { prefix: self.prefix, number: self.number }
    }

    fn text(&self) -> (r: String)
        ensures
            r@ == values::coord_text(self@),
    {
        match (self.prefix, self.number) {
            (Some(p), Some(n)) => cat2(char_text(p).as_str(), show_i32(n).as_str()),
            (Some(p), None) => char_text(p),
            (None, Some(n)) => show_i32(n),
            (None, None) => own("0"),
        }
    }
}

spec fn coords_view(v: Seq<Coord>) -> Seq<values::Coord> {
    Seq::new(v.len(), |i: int| v[i]@)
}

spec fn coords_opt_view(v: Option<Vec<Coord>>) -> Option<Seq<values::Coord>> {
    match v {
        Some(v) => Some(coords_view(v@)),
        None => None,
    }
}

fn push_coord(v: &mut Vec<Coord>, prefix: Option<char>, number: Option<i32>)
    ensures
        coords_view(final(v)@) == coords_view(old(v)@).push(values::Coord { prefix, number }),
{
    let ghost before = coords_view(v@);
    v.push(Coord { prefix, number });
    proof {
        assert(coords_view(v@) =~= before.push(values::Coord { prefix, number }));
    }
}

/// A function's name as a datapack path: `Counter::bump` lands in `counter/bump`.
pub(crate) fn path_of(name: &str) -> (r: String)
    ensures
        r@ == values::path_of(name@),
{
    to_lowercase(recoloned(name, '/').as_str())
}

/// The name of an instance, which says what it was instantiated with so that the output
/// stays readable.
fn instance_name(types: &Types, base: &str, args: &Vec<Type>, borrows: &Vec<Option<Place>>) -> (r:
    String)
    ensures
        r@ == values::instance_name(types@, base@, args@, borrows_view(borrows@)),
{
    proof {
        reveal(values::instance_name);
    }
    let mut by_args = String::new();
    proof {
        assert(by_args@ =~= seq![]);
    }
    let mut i: usize = 0;
    while i < args.len()
        invariant
            i <= args@.len(),
            by_args@ == values::args_suffix(types@, args@, i as int),
        decreases args.len() - i,
    {
        by_args.append(cat2("_", types.mangle(args[i]).as_str()).as_str());
        i += 1;
    }
    let ghost lent = borrows_view(borrows@);
    let mut by_borrows = String::new();
    proof {
        assert(by_borrows@ =~= seq![]);
    }
    let mut i: usize = 0;
    while i < borrows.len()
        invariant
            i <= borrows@.len(),
            lent == borrows_view(borrows@),
            by_borrows@ == values::borrows_suffix(lent, i as int),
        decreases borrows.len() - i,
    {
        let ghost before = by_borrows@;
        match &borrows[i] {
            Some(place) => {
                by_borrows.append(place.suffix().as_str());
            },
            None => {
                proof {
                    assert(before + Seq::<char>::empty() =~= before);
                }
            },
        }
        i += 1;
    }
    cat3(path_of(base).as_str(), by_args.as_str(), by_borrows.as_str())
}

/// How what an instance borrows is told apart.
fn lent_keys(borrows: &Vec<Option<Place>>) -> (r: Vec<String>)
    ensures
        texts(r@) == values::lent_keys(borrows_view(borrows@)),
{
    let ghost lent = borrows_view(borrows@);
    let mut out: Vec<String> = Vec::new();
    let mut i: usize = 0;
    while i < borrows.len()
        invariant
            i <= borrows@.len(),
            lent == borrows_view(borrows@),
            out@.len() == i,
            forall|k: int| 0 <= k < i ==> (#[trigger] out@[k])@ == values::lent_keys(lent)[k],
        decreases borrows.len() - i,
    {
        let one = match &borrows[i] {
            Some(place) => place.key(),
            None => String::new(),
        };
        proof {
            if borrows@[i as int] is None {
                assert(one@ =~= seq![]);
            }
        }
        out.push(one);
        i += 1;
    }
    proof {
        assert(texts(out@) =~= values::lent_keys(lent));
    }
    out
}

fn same_texts(a: &Vec<String>, b: &Vec<String>) -> (r: bool)
    ensures
        r == (texts(a@) == texts(b@)),
{
    if a.len() != b.len() {
        proof {
            assert(texts(a@).len() != texts(b@).len());
        }
        return false;
    }
    let mut i: usize = 0;
    while i < a.len()
        invariant
            i <= a@.len(),
            a@.len() == b@.len(),
            forall|k: int| 0 <= k < i ==> a@[k]@ == b@[k]@,
        decreases a.len() - i,
    {
        if !same(a[i].as_str(), b[i].as_str()) {
            proof {
                assert(texts(a@)[i as int] != texts(b@)[i as int]);
            }
            return false;
        }
        i += 1;
    }
    proof {
        assert(texts(a@) =~= texts(b@));
    }
    true
}

impl Lowering {
    // Chat components.

    /// The component that names where a binding's value lives.
    fn binding_component(&mut self, env: &Frame, local: LocalId, ty: Type, span: Span) -> (r: Option<
        Component,
    >)
        ensures
            (final(self)@, component_opt_view(r)) == values::binding_component(
                env@,
                old(self)@,
                local,
                ty,
                span,
            ),
    {
        proof {
            reveal(values::binding_component);
        }
        let binding = self.local_name(local);
        if matches!(ty, Type::Fix(_)) {
            self.fault(
                span,
                cat3(
                    "'",
                    binding.as_str(),
                    "' is a fixed-point number, which holds scaled units; a score component cannot divide it back",
                ),
            );
            None
        } else if ty == Type::I32 || ty == Type::Bool {
            let mut c = Component::empty();
            let player = names::fake_player(env.function.as_str(), binding.as_str());
            let objective = names::var_objective(env.namespace);
            c.set(
                "score",
                cat5(
                    "{\"name\":",
                    quoted(player.as_str()).as_str(),
                    ",\"objective\":",
                    quoted(objective.as_str()).as_str(),
                    "}",
                ),
            );
            Some(c)
        } else if ty.is_storage_scalar() {
            let mut c = Component::empty();
            let path = names::var_path(env.function.as_str(), binding.as_str());
            let storage = names::storage(env.namespace);
            c.set("nbt", quoted(path.as_str()));
            c.set("storage", quoted(storage.as_str()));
            Some(c)
        } else {
            let message = cat3("a ", self.name(ty).as_str(), " cannot be shown by text!");
            self.fault(span, message);
            None
        }
    }

    /// The component of a value that is already lowered.
    pub(super) fn component_of(&mut self, env: &Frame, shown: Expr) -> (r: Option<Component>)
        ensures
            (final(self)@, component_opt_view(r)) == values::component_of(
                env@,
                old(self)@,
                shown@,
            ),
    {
        proof {
            reveal(values::component_of);
            shown.unfold();
        }
        let ty = shown.ty;
        let span = shown.span;
        match shown.kind {
            ExprKind::Component(component) => Some(component),
            ExprKind::Str(text) => Some(Component::text(text.as_str())),
            ExprKind::Int(n) => Some(Component::text(show_i32(n).as_str())),
            ExprKind::Bool(b) => Some(Component::text(show_bool(b).as_str())),
            ExprKind::Local(local) => self.binding_component(env, local, ty, span),
            _ => {
                self.error(
                    span,
                    "text! can only show a literal or a binding; bind this to a name first and write the name",
                );
                None
            },
        }
    }

    // Literals made of tokens.

    fn nbt_bool(&mut self, at: usize, want: Type, b: bool, span: Span) -> (r: (
        usize,
        Option<String>,
    ))
        requires
            at < usize::MAX,
        ensures
            (final(self)@, r.0 as int, text_opt_view(r.1)) == values::nbt_bool(
                old(self)@,
                at as int,
                want,
                b,
                span,
            ),
            r.0 >= at,
    {
        if want != Type::Bool {
            let message = cat3("expected ", self.name(want).as_str(), ", found a bool");
            self.fault(span, message);
            (at + 1, None)
        } else if b {
            (at + 1, Some(own("1b")))
        } else {
            (at + 1, Some(own("0b")))
        }
    }

    /// One SNBT value, rendered as the game spells it.
    #[verifier::spinoff_prover]
    fn nbt_value(
        &mut self,
        tokens: &Vec<Token>,
        at: usize,
        want: Type,
        tag: Option<NbtTag>,
        span: Span,
    ) -> (r: (usize, Option<String>))
        ensures
            (final(self)@, r.0 as int, text_opt_view(r.1)) == values::nbt_value(
                old(self)@,
                tokens_view(tokens@),
                at as int,
                want,
                tag,
                span,
            ),
            r.0 >= at,
        decreases values::tokens_left(tokens_view(tokens@), at as int), 1int,
    {
        proof {
            reveal(values::nbt_value);
            reveal(values::nbt_compound);
            reveal(values::nbt_list);
        }
        if at >= tokens.len() {
            self.error(span, "expected a value");
            return (at, None);
        }
        proof {
            assert(tokens_view(tokens@)[at as int] == tokens@[at as int]@);
        }
        let here = tokens[at].span;
        match &tokens[at].kind {
            TokenKind::Punct(Punct::LBrace) => self.nbt_compound(tokens, at, want, here),
            TokenKind::Punct(Punct::LBracket) => self.nbt_list(tokens, at, want, here),
            TokenKind::Str(text) => {
                if want != Type::Str {
                    let message = cat3("expected ", self.name(want).as_str(), ", found a string");
                    self.fault(here, message);
                    (at + 1, None)
                } else {
                    (at + 1, Some(debug(text.as_str())))
                }
            },
            TokenKind::Keyword(Keyword::True) => self.nbt_bool(at, want, true, here),
            TokenKind::Keyword(Keyword::False) => self.nbt_bool(at, want, false, here),
            TokenKind::Punct(Punct::Minus) => self.nbt_number(tokens, at, want, tag, here),
            TokenKind::Int(_) => self.nbt_number(tokens, at, want, tag, here),
            _ => {
                self.error(here, "expected a value");
                (at, None)
            },
        }
    }

    /// `20`, `-3`: an integer, which takes the suffix of the field it lands in.
    #[verifier::spinoff_prover]
    fn nbt_number(
        &mut self,
        tokens: &Vec<Token>,
        at: usize,
        want: Type,
        tag: Option<NbtTag>,
        span: Span,
    ) -> (r: (usize, Option<String>))
        requires
            at < tokens@.len(),
        ensures
            (final(self)@, r.0 as int, text_opt_view(r.1)) == values::nbt_number(
                old(self)@,
                tokens_view(tokens@),
                at as int,
                want,
                tag,
                span,
            ),
            r.0 >= at,
    {
        proof {
            reveal(values::nbt_number);
        }
        let minus = at < tokens.len() && token_is(tokens, at, Punct::Minus);
        let at: usize = if minus {
            at + 1
        } else {
            at
        };
        let written: Option<i32> = if at < tokens.len() {
            proof {
                assert(tokens_view(tokens@)[at as int] == tokens@[at as int]@);
            }
            match &tokens[at].kind {
                TokenKind::Int(n) => Some(*n),
                _ => None,
            }
        } else {
            None
        };
        let written: i32 = match written {
            Some(n) => n,
            None => {
                self.error(span, "expected a number");
                return (at, None);
            },
        };
        let n: i32 = if minus {
            negated(written)
        } else {
            written
        };
        let stored = match tag {
            Some(tag) => Some(tag),
            None => NbtTag::default_for(want),
        };
        let stored = match stored {
            Some(stored) => stored,
            None => {
                let message = cat3("expected ", self.name(want).as_str(), ", found a number");
                self.fault(span, message);
                return (at + 1, None);
            },
        };
        if at + 1 < tokens.len() {
            proof {
                assert(tokens_view(tokens@)[at + 1] == tokens@[at + 1]@);
            }
            match &tokens[at + 1].kind {
                TokenKind::Ident(_) => {
                    self.fault(
                        tokens[at + 1].span,
                        cat3(
                            "no suffix here: the field is stored as a ",
                            stored.keyword(),
                            " already",
                        ),
                    );
                    return (at + 1, None);
                },
                _ => {},
            }
        }
        if want == Type::Bool && !(0 <= n && n <= 1) {
            self.error(span, "a bool is 0 or 1; write true or false");
            return (at + 1, None);
        }
        (at + 1, Some(cat2(show_i32(n).as_str(), stored.suffix())))
    }

    /// A compound, from its `{` on.
    #[verifier::spinoff_prover]
    fn nbt_compound(&mut self, tokens: &Vec<Token>, at: usize, want: Type, span: Span) -> (r: (
        usize,
        Option<String>,
    ))
        ensures
            (final(self)@, r.0 as int, text_opt_view(r.1)) == values::nbt_compound(
                old(self)@,
                tokens_view(tokens@),
                at as int,
                want,
                span,
            ),
            r.0 >= at,
        decreases values::tokens_left(tokens_view(tokens@), at as int), 0int,
    {
        proof {
            reveal(values::nbt_compound);
            reveal(values::nbt_members);
        }
        let def = match want {
            Type::Struct(id) => self.struct_parts(id),
            _ => None,
        };
        let fields = match def {
            Some((fields, _)) => fields,
            None => {
                let message = cat3("expected ", self.name(want).as_str(), ", found a compound");
                self.fault(span, message);
                return (at, None);
            },
        };
        if at >= tokens.len() {
            return (at, None);
        }
        let ghost known = fields_view(fields@);
        let (at, written) = self.nbt_members(tokens, at + 1, want, &fields, span);
        let written = match written {
            Some(written) => written,
            None => {
                return (at, None);
            },
        };
        let ghost given = pairs_view(written@);
        let mut missing: usize = 0;
        while missing < fields.len() && find_written(&written, fields[missing].nbt.as_str())
            < written.len()
            invariant
                missing <= fields@.len(),
                known == fields_view(fields@),
                given == pairs_view(written@),
                values::unwritten(known, given, 0) == values::unwritten(
                    known,
                    given,
                    missing as int,
                ),
            decreases fields.len() - missing,
        {
            missing += 1;
        }
        if missing < fields.len() {
            let message = cat5(
                "'",
                self.name(want).as_str(),
                "' needs a value for '",
                fields[missing].nbt.as_str(),
                "' too",
            );
            self.fault(span, message);
            return (at, None);
        }
        let mut parts: Vec<String> = Vec::new();
        let mut i: usize = 0;
        while i < fields.len()
            invariant
                i <= fields@.len(),
                known == fields_view(fields@),
                given == pairs_view(written@),
                parts@.len() == i,
                forall|k: int|
                    0 <= k < i ==> (#[trigger] parts@[k])@ == values::members_snbt(known, given)[k],
            decreases fields.len() - i,
        {
            let slot: usize = find_written(&written, fields[i].nbt.as_str());
            let shown = if slot < written.len() {
                written[slot].1.clone()
            } else {
                String::new()
            };
            proof {
                if slot >= written@.len() {
                    assert(shown@ =~= seq![]);
                }
            }
            parts.push(cat3(fields[i].nbt.as_str(), ":", shown.as_str()));
            i += 1;
        }
        proof {
            assert(texts(parts@) =~= values::members_snbt(known, given));
        }
        (at, Some(cat3("{", join_texts(&parts, ",").as_str(), "}")))
    }

    /// The members of a compound and the `}` that closes it.
    #[verifier::spinoff_prover]
    fn nbt_members(
        &mut self,
        tokens: &Vec<Token>,
        from: usize,
        want: Type,
        fields: &Vec<Field>,
        span: Span,
    ) -> (r: (usize, Option<Vec<(String, String)>>))
        requires
            from <= tokens@.len(),
        ensures
            (
                final(self)@,
                r.0 as int,
                match r.1 {
                    Some(written) => Some(pairs_view(written@)),
                    None => None,
                },
            ) == values::nbt_members(
                old(self)@,
                tokens_view(tokens@),
                from as int,
                want,
                fields_view(fields@),
                span,
                seq![],
            ),
            r.0 >= from,
        decreases values::tokens_left(tokens_view(tokens@), from as int), 2int,
    {
        let ghost all = tokens_view(tokens@);
        let ghost known = fields_view(fields@);
        let ghost start = self@;
        let mut acc: Vec<(String, String)> = Vec::new();
        let mut at: usize = from;
        proof {
            assert(pairs_view(acc@) =~= seq![]);
        }
        loop
            invariant
                from <= at <= tokens@.len(),
                all == tokens_view(tokens@),
                known == fields_view(fields@),
                start == old(self)@,
                values::nbt_members(start, all, from as int, want, known, span, seq![])
                    == values::nbt_members(
                    self@,
                    all,
                    at as int,
                    want,
                    known,
                    span,
                    pairs_view(acc@),
                ),
            decreases tokens.len() - at,
        {
            proof {
                reveal(values::nbt_members);
                reveal(values::nbt_value);
            }
            if token_is(tokens, at, Punct::RBrace) {
                return (at + 1, Some(acc));
            }
            if at >= tokens.len() {
                self.error(span, "a compound has to be closed with '}'");
                return (at, None);
            }
            proof {
                assert(all[at as int] == tokens@[at as int]@);
            }
            let key = tokens[at].span;
            let name = match &tokens[at].kind {
                TokenKind::Ident(name) => Some(name),
                TokenKind::Str(name) => Some(name),
                _ => None,
            };
            let name = match name {
                Some(name) => name,
                None => {
                    self.error(key, "expected a field name");
                    return (at, None);
                },
            };
            if !token_is(tokens, at + 1, Punct::Colon) {
                self.error(key, "expected ':' after a field name");
                return (at + 1, None);
            }
            let i: usize = find_key(fields, name.as_str());
            if i >= fields.len() {
                let message = cat5(
                    "'",
                    self.name(want).as_str(),
                    "' has no field written as '",
                    name.as_str(),
                    "' in NBT",
                );
                self.fault(key, message);
                return (at + 2, None);
            }
            let (at1, text) = self.nbt_value(tokens, at + 2, fields[i].ty, fields[i].tag, key);
            let text = match text {
                Some(text) => text,
                None => {
                    return (at1, None);
                },
            };
            if find_written(&acc, name.as_str()) < acc.len() {
                self.fault(key, cat3("'", name.as_str(), "' is written twice"));
                return (at1, None);
            }
            let ghost before = pairs_view(acc@);
            let ghost shown = (name@, text@);
            acc.push((name.clone(), text));
            proof {
                assert(pairs_view(acc@) =~= before.push(shown));
            }
            if token_is(tokens, at1, Punct::Comma) {
                at = at1 + 1;
            } else if token_is(tokens, at1, Punct::RBrace) {
                return (at1 + 1, Some(acc));
            } else {
                self.error(key, "expected ',' or '}'");
                return (at1, None);
            }
        }
    }

    /// A list, from its `[` on.
    #[verifier::spinoff_prover]
    fn nbt_list(&mut self, tokens: &Vec<Token>, at: usize, want: Type, span: Span) -> (r: (
        usize,
        Option<String>,
    ))
        ensures
            (final(self)@, r.0 as int, text_opt_view(r.1)) == values::nbt_list(
                old(self)@,
                tokens_view(tokens@),
                at as int,
                want,
                span,
            ),
            r.0 >= at,
        decreases values::tokens_left(tokens_view(tokens@), at as int), 0int,
    {
        proof {
            reveal(values::nbt_list);
            reveal(values::nbt_elements);
        }
        match want {
            Type::Vec(id) => {
                if at >= tokens.len() {
                    return (at, None);
                }
                let elem = self.types().element_at(id);
                let (at, found) = self.nbt_elements(tokens, at + 1, elem, span);
                match found {
                    Some(found) => (
                        at,
                        Some(cat3("[", join_texts(&found, ",").as_str(), "]")),
                    ),
                    None => (at, None),
                }
            },
            _ => {
                let message = cat3("expected ", self.name(want).as_str(), ", found a list");
                self.fault(span, message);
                (at, None)
            },
        }
    }

    /// The elements of a list and the `]` that closes it.
    #[verifier::spinoff_prover]
    fn nbt_elements(&mut self, tokens: &Vec<Token>, from: usize, elem: Type, span: Span) -> (r: (
        usize,
        Option<Vec<String>>,
    ))
        requires
            from <= tokens@.len(),
        ensures
            (
                final(self)@,
                r.0 as int,
                match r.1 {
                    Some(found) => Some(texts(found@)),
                    None => None,
                },
            ) == values::nbt_elements(
                old(self)@,
                tokens_view(tokens@),
                from as int,
                elem,
                span,
                seq![],
            ),
            r.0 >= from,
        decreases values::tokens_left(tokens_view(tokens@), from as int), 2int,
    {
        let ghost all = tokens_view(tokens@);
        let ghost start = self@;
        let mut acc: Vec<String> = Vec::new();
        let mut at: usize = from;
        proof {
            assert(texts(acc@) =~= seq![]);
        }
        loop
            invariant
                from <= at <= tokens@.len(),
                all == tokens_view(tokens@),
                start == old(self)@,
                values::nbt_elements(start, all, from as int, elem, span, seq![])
                    == values::nbt_elements(self@, all, at as int, elem, span, texts(acc@)),
            decreases tokens.len() - at,
        {
            proof {
                reveal(values::nbt_elements);
                reveal(values::nbt_value);
            }
            if token_is(tokens, at, Punct::RBracket) {
                return (at + 1, Some(acc));
            }
            let (at1, text) = self.nbt_value(tokens, at, elem, NbtTag::default_for(elem), span);
            let text = match text {
                Some(text) => text,
                None => {
                    return (at1, None);
                },
            };
            let ghost before = texts(acc@);
            let ghost shown = text@;
            acc.push(text);
            proof {
                assert(texts(acc@) =~= before.push(shown));
            }
            if token_is(tokens, at1, Punct::Comma) {
                at = at1 + 1;
            } else if token_is(tokens, at1, Punct::RBracket) {
                return (at1 + 1, Some(acc));
            } else {
                self.error(span, "expected ',' or ']'");
                return (at1, None);
            }
        }
    }

    /// `nbt!({ hp: 20 })`, checked against the type it is being written into.
    pub(super) fn nbt_lit(&mut self, tokens: &Vec<Token>, want: Type, span: Span) -> (r: Option<
        Expr,
    >)
        ensures
            (final(self)@, expr_opt_view(r)) == values::nbt_lit(
                old(self)@,
                tokens_view(tokens@),
                want,
                span,
            ),
    {
        proof {
            reveal(values::nbt_lit);
        }
        let (at, text) = self.nbt_value(tokens, 0, want, None, span);
        let text = text?;
        if at < tokens.len() {
            proof {
                assert(tokens_view(tokens@)[at as int] == tokens@[at as int]@);
            }
            self.error(tokens[at].span, "nbt! takes one value");
            return None;
        }
        Some(Expr::of(ExprKind::Nbt(text), want, span))
    }

    /// The coordinates of a `pos!`.
    #[verifier::spinoff_prover]
    fn coords(&mut self, tokens: &Vec<Token>) -> (r: Option<Vec<Coord>>)
        ensures
            (final(self)@, coords_opt_view(r)) == values::coords(
                old(self)@,
                tokens_view(tokens@),
                0,
                seq![],
            ),
    {
        let ghost all = tokens_view(tokens@);
        let ghost start = self@;
        let mut out: Vec<Coord> = Vec::new();
        proof {
            assert(coords_view(out@) =~= seq![]);
        }
        let mut i: usize = 0;
        while i < tokens.len()
            invariant
                i <= tokens@.len(),
                all == tokens_view(tokens@),
                start == old(self)@,
                values::coords(start, all, 0, seq![]) == values::coords(
                    self@,
                    all,
                    i as int,
                    coords_view(out@),
                ),
            decreases tokens.len() - i,
        {
            proof {
                reveal(values::coords);
                assert(forall|k: int|
                    0 <= k < tokens@.len() ==> #[trigger] all[k] == tokens@[k]@);
                assert(all[i as int] == tokens@[i as int]@);
            }
            let span = tokens[i].span;
            let prefix = if token_is(tokens, i, Punct::Tilde) {
                Some('~')
            } else if token_is(tokens, i, Punct::Caret) {
                Some('^')
            } else {
                None
            };
            if prefix.is_some() {
                // `~-1` is three tokens, and it is the offset datapacks write most.
                let minus = token_is(tokens, i + 1, Punct::Minus);
                let j: usize = if minus {
                    i + 2
                } else {
                    i + 1
                };
                let number: Option<i32> = if j < tokens.len() {
                    match &tokens[j].kind {
                        TokenKind::Int(n) => Some(*n),
                        _ => None,
                    }
                } else {
                    None
                };
                match number {
                    Some(n) => {
                        let n: i32 = if minus {
                            negated(n)
                        } else {
                            n
                        };
                        push_coord(&mut out, prefix, Some(n));
                        i = j + 1;
                    },
                    None => {
                        if minus {
                            self.error(span, "expected a coordinate after '-'");
                            return None;
                        }
                        push_coord(&mut out, prefix, None);
                        i = j;
                    },
                }
            } else {
                let minus = token_is(tokens, i, Punct::Minus);
                let j: usize = if minus {
                    i + 1
                } else {
                    i
                };
                let number: Option<i32> = if j < tokens.len() {
                    match &tokens[j].kind {
                        TokenKind::Int(n) => Some(*n),
                        _ => None,
                    }
                } else {
                    None
                };
                match number {
                    Some(n) => {
                        let n: i32 = if minus {
                            negated(n)
                        } else {
                            n
                        };
                        push_coord(&mut out, prefix, Some(n));
                        i = j + 1;
                    },
                    None => {
                        self.error(span, "expected a coordinate");
                        return None;
                    },
                }
            }
        }
        proof {
            reveal(values::coords);
        }
        Some(out)
    }

    /// `pos!(~ ~1 ~)`: three coordinates, all in the same notation, as vanilla requires.
    pub(super) fn position_text(&mut self, tokens: &Vec<Token>, span: Span) -> (r: Option<String>)
        ensures
            (final(self)@, text_opt_view(r)) == values::position_text(
                old(self)@,
                tokens_view(tokens@),
                span,
            ),
    {
        proof {
            reveal(values::position_text);
        }
        let cs = self.coords(tokens)?;
        if cs.len() != 3 {
            self.error(span, "pos! takes three coordinates");
            return None;
        }
        if cs[1].prefix != cs[0].prefix || cs[2].prefix != cs[0].prefix {
            self.error(
                span,
                "all three coordinates must use the same notation: all absolute, all '~' or all '^'",
            );
            return None;
        }
        Some(
            cat5(
                cs[0].text().as_str(),
                " ",
                cs[1].text().as_str(),
                " ",
                cs[2].text().as_str(),
            ),
        )
    }

    // Instances.

    /// The function an instance is, made once and then found again.
    pub(super) fn instance_of(
        &mut self,
        env: &Frame,
        item: usize,
        args: Vec<Type>,
        borrows: Vec<Option<Place>>,
        base: &str,
        span: Span,
    ) -> (r: Option<FnId>)
        ensures
            (final(self)@, r) == values::instance_of(
                env@,
                old(self)@,
                item,
                args@,
                borrows_view(borrows@),
                base@,
                span,
            ),
    {
        proof {
            reveal(values::instance_of);
        }
        let lent = lent_keys(&borrows);
        let ghost all = self@.pending;
        let pending = self.pending();
        let count: usize = pending.len();
        let mut known: usize = 0;
        while known < pending.len() && !(pending[known].item == item && same_types(
            &pending[known].args,
            &args,
        ) && same_texts(&pending[known].lent, &lent))
            invariant
                known <= pending@.len(),
                all == pending_view(pending@),
                values::pending_at(all, item, args@, texts(lent@), 0) == values::pending_at(
                    all,
                    item,
                    args@,
                    texts(lent@),
                    known as int,
                ),
            decreases pending.len() - known,
        {
            proof {
                assert(all[known as int] == pending@[known as int]@);
            }
            known += 1;
        }
        if known < pending.len() {
            proof {
                assert(all[known as int] == pending@[known as int]@);
            }
            return Some(pending[known].id);
        }
        if count >= (u32::MAX - env.concrete) as usize {
            self.error(span, "there are more functions than can be numbered");
            return None;
        }
        let id = FnId(env.concrete + count as u32);
        let name = instance_name(self.types(), base, &args, &borrows);
        self.add_pending(Pending { id, item, args, borrows, lent, name });
        Some(id)
    }
}

} // verus!
