//! Lowering of statements.

use vstd::prelude::*;

use crate::hir::lower::checks::Outcome;
use crate::hir::lower::collect::sorted_ctx;
use crate::hir::lower::types::{attr_word, misplaced};
use crate::hir::lower::values::combine;
use crate::hir::lower::{Frame, Lowering};
use crate::hir::model;
use crate::hir::rules::stmts;
use crate::hir::{
    arms_view, attr_opt_view, attrs_view, bindings_view, copy_fields, expr_opt_view, fields_view,
    find_field, parts_view, planned_attr, raw_opt_view, stmt_opt_view, stmts_view, variants_view,
    Arm, ArmTest, Attr, Binding, ContextKind, Ctx, EnumDef, Expr, ExprKind, Field, Inline, NbtTag,
    Place, RawCommand, RawPart, Scrutinee, Selector, Stmt, Type, Variant,
};
use crate::syntax::ast::{
    arms_view as written_arms, attrs_view as written_attrs, expr_opt_view as written_opt,
    idents_view, stmts_view as written_stmts, text_opt_view, Attribute, BinaryOp, Block,
    ContextKind as WrittenKind, ContextStmt, Else, Expr as Written, Ident, IfStmt, LetStmt,
    LoopStmt, MacroCall, MatchArm, MatchStmt, Pattern, Stmt as WrittenStmt,
};
use crate::syntax::lexer::{tokens_view, Token, TokenKind};
use crate::syntax::Span;
use crate::text::{
    cat2, cat3, cat4, cat5, chars, find, join_texts, own, push, same, slice, texts, to_lowercase,
};

verus! {

/// What a `{name}` in a `raw!` string turned out to be: text that is known now, or a value
/// that only the running game knows.
enum Interpolated {
    Const(String),
    Value(Expr),
}

spec fn interpolated_view(v: Option<Interpolated>) -> Option<stmts::Interpolated> {
    match v {
        Some(Interpolated::Const(text)) => Some(stmts::Interpolated::Const(text@)),
        Some(Interpolated::Value(value)) => Some(stmts::Interpolated::Value(value@)),
        None => None,
    }
}

spec fn parts_opt(v: Option<Vec<RawPart>>) -> Option<Seq<model::RawPart>> {
    match v {
        Some(v) => Some(parts_view(v@)),
        None => None,
    }
}

/// A payload field to bind: the name, the key it is stored under, its type and its tag.
struct Payload {
    name: String,
    nbt: String,
    ty: Type,
    tag: Option<NbtTag>,
}

impl Payload {
    spec fn view(&self) -> stmts::Payload {
        stmts::Payload { name: self.name@, nbt: self.nbt@, ty: self.ty, tag: self.tag }
    }
}

spec fn payload_view(v: Seq<Payload>) -> Seq<stmts::Payload> {
    Seq::new(v.len(), |i: int| v[i]@)
}

spec fn payload_opt(v: Option<Vec<Payload>>) -> Option<Seq<stmts::Payload>> {
    match v {
        Some(v) => Some(payload_view(v@)),
        None => None,
    }
}

spec fn pattern_view(v: Option<(ArmTest, Vec<Payload>, String)>) -> Option<
    (ArmTest, Seq<stmts::Payload>, Seq<char>),
> {
    match v {
        Some((test, payload, path)) => Some((test, payload_view(payload@), path@)),
        None => None,
    }
}

spec fn arms_opt(v: Option<(Vec<Arm>, bool)>) -> Option<(Seq<model::Arm>, bool)> {
    match v {
        Some((arms, wildcard)) => Some((arms_view(arms@), wildcard)),
        None => None,
    }
}

/// Whether one of the arms has that test.
fn covers(arms: &Vec<Arm>, test: ArmTest) -> (r: bool)
    ensures
        r == stmts::covers(arms_view(arms@), test, 0),
{
    let ghost all = arms_view(arms@);
    let mut i: usize = 0;
    while i < arms.len()
        invariant
            i <= arms@.len(),
            all == arms_view(arms@),
            stmts::covers(all, test, 0) == stmts::covers(all, test, i as int),
        decreases arms.len() - i,
    {
        proof {
            arms@[i as int].unfold();
            assert(all[i as int] == arms@[i as int]@);
        }
        if arms[i].test == test {
            return true;
        }
        i += 1;
    }
    false
}

/// The names of the variants that no arm covers.
fn uncovered(def: &EnumDef, arms: &Vec<Arm>) -> (r: Vec<String>)
    ensures
        texts(r@) == stmts::uncovered(def@, arms_view(arms@), 0),
{
    let ghost all = arms_view(arms@);
    let mut out: Vec<String> = Vec::new();
    let mut i: usize = 0;
    proof {
        assert(texts(out@) + stmts::uncovered(def@, all, 0) =~= stmts::uncovered(def@, all, 0));
    }
    while i < def.variants.len()
        invariant
            i <= def.variants@.len(),
            all == arms_view(arms@),
            texts(out@) + stmts::uncovered(def@, all, i as int) == stmts::uncovered(def@, all, 0),
        decreases def.variants.len() - i,
    {
        let ghost before = texts(out@);
        proof {
            assert(def@.variants[i as int] == def.variants@[i as int]@);
        }
        if !covers(arms, ArmTest::Variant(i as u32)) {
            let one = def.variants[i].name.clone();
            let ghost shown = one@;
            out.push(one);
            proof {
                assert(texts(out@) =~= before.push(shown));
                assert(texts(out@) + stmts::uncovered(def@, all, i + 1) =~= before + (seq![shown]
                    + stmts::uncovered(def@, all, i + 1)));
            }
        }
        i += 1;
    }
    proof {
        assert(texts(out@) + stmts::uncovered(def@, all, i as int) =~= texts(out@));
    }
    out
}

fn copy_enum(def: &EnumDef) -> (r: EnumDef)
    ensures
        r@ == def@,
{
    let mut out: Vec<Variant> = Vec::new();
    let mut i: usize = 0;
    while i < def.variants.len()
        invariant
            i <= def.variants@.len(),
            out@.len() == i,
            forall|k: int| 0 <= k < i ==> (#[trigger] out@[k])@ == def.variants@[k]@,
        decreases def.variants.len() - i,
    {
        out.push(
            Variant {
                name: def.variants[i].name.clone(),
                fields: copy_fields(&def.variants[i].fields),
            },
        );
        i += 1;
    }
    proof {
        assert(variants_view(out@) =~= variants_view(def.variants@));
    }
    EnumDef { id: def.id, name: def.name.clone(), variants: out, span: def.span }
}

fn last_span(written: &Vec<MatchArm>, span: Span) -> (r: Span)
    ensures
        r == stmts::last_span(written_arms(written@), span),
{
    if written.len() > 0 {
        written[written.len() - 1].span
    } else {
        span
    }
}

fn kind_of(kind: WrittenKind) -> (r: ContextKind)
    ensures
        r == stmts::kind_of(kind),
{
    match kind {
        WrittenKind::As => ContextKind::As,
        WrittenKind::At => ContextKind::At,
        WrittenKind::For => ContextKind::For,
        WrittenKind::Positioned => ContextKind::Positioned,
    }
}

/// Whether control cannot reach the end of a statement list without returning.
pub(crate) fn always_returns(body: &Vec<Stmt>) -> (r: bool)
    ensures
        r == stmts::always_returns(stmts_view(body@), 0),
    decreases body, 0int, 1int,
{
    let ghost all = stmts_view(body@);
    let mut i: usize = 0;
    while i < body.len()
        invariant
            i <= body@.len(),
            all == stmts_view(body@),
            stmts::always_returns(all, 0) == stmts::always_returns(all, i as int),
        decreases body.len() - i,
    {
        proof {
            reveal(stmts::always_returns);
            reveal(stmts::stmt_returns);
            assert(decreases_to!(body => body[i as int]));
            assert(all[i as int] == body@[i as int]@);
        }
        if stmt_returns(&body[i]) {
            return true;
        }
        i += 1;
    }
    proof {
        reveal(stmts::always_returns);
    }
    false
}

fn stmt_returns(s: &Stmt) -> (r: bool)
    ensures
        r == stmts::stmt_returns(s@),
    decreases s, 0int, 0int,
{
    proof {
        reveal(stmts::stmt_returns);
        reveal(stmts::always_returns);
        reveal(stmts::arms_return);
        s.unfold();
    }
    match s {
        Stmt::Return { .. } => true,
        Stmt::If { taken, otherwise, .. } => match otherwise {
            Some(otherwise) => always_returns(taken) && always_returns(otherwise),
            None => false,
        },
        Stmt::Match { arms, .. } => arms_return(arms),
        _ => false,
    }
}

fn arms_return(arms: &Vec<Arm>) -> (r: bool)
    ensures
        r == stmts::arms_return(arms_view(arms@), 0),
    decreases arms, 0int, 0int,
{
    let ghost all = arms_view(arms@);
    let mut i: usize = 0;
    while i < arms.len()
        invariant
            i <= arms@.len(),
            all == arms_view(arms@),
            stmts::arms_return(all, 0) == stmts::arms_return(all, i as int),
        decreases arms.len() - i,
    {
        proof {
            reveal(stmts::arms_return);
            reveal(stmts::always_returns);
            assert(decreases_to!(arms => arms[i as int]));
            assert(decreases_to!(arms[i as int] => arms[i as int].body));
            assert(all[i as int] == arms@[i as int]@);
            arms@[i as int].unfold();
        }
        if !always_returns(&arms[i].body) {
            return false;
        }
        i += 1;
    }
    proof {
        reveal(stmts::arms_return);
    }
    true
}

impl Lowering {
    // Attributes.

    /// The contexts a `#[ctx(..)]` names.
    fn ctx_kinds(&mut self, tokens: &Vec<Token>) -> (r: Option<Vec<Ctx>>)
        ensures
            (
                final(self)@,
                match r {
                    Some(kinds) => Some(kinds@),
                    None => None,
                },
            ) == stmts::ctx_kinds(old(self)@, tokens_view(tokens@), 1, seq![]),
    {
        let ghost start = self@;
        let ghost all = tokens_view(tokens@);
        let mut kinds: Vec<Ctx> = Vec::new();
        let mut i: usize = 1;
        while i < tokens.len()
            invariant
                1 <= i,
                start == old(self)@,
                all == tokens_view(tokens@),
                stmts::ctx_kinds(start, all, 1, seq![]) == stmts::ctx_kinds(
                    self@,
                    all,
                    i as int,
                    kinds@,
                ),
            decreases tokens.len() - i,
        {
            proof {
                reveal(stmts::ctx_kinds);
                assert(all[i as int] == tokens@[i as int]@);
            }
            match &tokens[i].kind {
                TokenKind::Ident(name) => match Ctx::parse(name.as_str()) {
                    Some(kind) => {
                        kinds.push(kind);
                    },
                    None => {
                        self.fault(
                            tokens[i].span,
                            cat3(
                                "unknown context '",
                                name.as_str(),
                                "'; expected entity or position",
                            ),
                        );
                        return None;
                    },
                },
                TokenKind::Punct(_) => {},
                _ => {
                    self.error(tokens[i].span, "expected a context name");
                    return None;
                },
            }
            i += 1;
        }
        proof {
            reveal(stmts::ctx_kinds);
        }
        Some(kinds)
    }

    /// `#[ctx(entity)]`, `#[ctx(entity, position)]`.
    fn ctx_attr(&mut self, attr: &Attribute) -> (r: Option<Attr>)
        ensures
            (final(self)@, attr_opt_view(r)) == stmts::ctx_attr(old(self)@, attr@),
    {
        proof {
            reveal(stmts::ctx_attr);
        }
        let kinds = self.ctx_kinds(&attr.tokens)?;
        if kinds.len() == 0 {
            self.error(attr.span, "#[ctx(..)] needs at least one of entity, position");
            return None;
        }
        Some(Attr::Ctx(sorted_ctx(&kinds)))
    }

    /// One attribute. An unknown one is an error rather than being ignored.
    fn attr_of(&mut self, attr: &Attribute) -> (r: Option<Attr>)
        ensures
            (final(self)@, attr_opt_view(r)) == stmts::attr_of(old(self)@, attr@),
    {
        proof {
            reveal(stmts::attr_of);
        }
        let name = match attr_word(attr) {
            Some(name) => name,
            None => {
                self.error(attr.span, "expected an attribute name");
                return None;
            },
        };
        if same(name.as_str(), "ctx") {
            return self.ctx_attr(attr);
        }
        let known = Attr::parse(name.as_str());
        if known.is_some() {
            return known;
        }
        if planned_attr(name.as_str()) {
            self.fault(
                attr.span,
                cat3("'", name.as_str(), "' is planned but not implemented yet"),
            );
        } else {
            self.fault(attr.span, cat3("unknown attribute '", name.as_str(), "'"));
        }
        None
    }

    pub(super) fn attrs_of(&mut self, attrs: &Vec<Attribute>) -> (r: Vec<Attr>)
        ensures
            (final(self)@, attrs_view(r@)) == stmts::attrs_of(
                old(self)@,
                written_attrs(attrs@),
                0,
                seq![],
            ),
    {
        let ghost start = self@;
        let ghost all = written_attrs(attrs@);
        let mut out: Vec<Attr> = Vec::new();
        proof {
            assert(attrs_view(out@) =~= seq![]);
        }
        let mut i: usize = 0;
        while i < attrs.len()
            invariant
                i <= attrs@.len(),
                all == written_attrs(attrs@),
                stmts::attrs_of(start, all, 0, seq![]) == stmts::attrs_of(
                    self@,
                    all,
                    i as int,
                    attrs_view(out@),
                ),
            decreases attrs.len() - i,
        {
            proof {
                reveal(stmts::attrs_of);
                assert(all[i as int] == attrs@[i as int]@);
            }
            let ghost before = attrs_view(out@);
            match self.attr_of(&attrs[i]) {
                Some(attr) => {
                    let ghost shown = attr@;
                    out.push(attr);
                    proof {
                        assert(attrs_view(out@) =~= before.push(shown));
                    }
                },
                None => {},
            }
            i += 1;
        }
        proof {
            reveal(stmts::attrs_of);
        }
        out
    }

    /// What inlining the attributes of a statement ask for. One that is about something
    /// else does not apply to a statement, and is an error.
    fn inline_attr(&mut self, attrs: &Vec<Attribute>) -> (r: Option<Inline>)
        ensures
            (final(self)@, r) == stmts::inline_attr(old(self)@, written_attrs(attrs@)),
    {
        let ghost start = self@;
        let ghost all = written_attrs(attrs@);
        let mut inline = Some(Inline::Auto);
        let mut i: usize = 0;
        while i < attrs.len()
            invariant
                i <= attrs@.len(),
                all == written_attrs(attrs@),
                stmts::inline_from(start, all, 0, Some(Inline::Auto)) == stmts::inline_from(
                    self@,
                    all,
                    i as int,
                    inline,
                ),
            decreases attrs.len() - i,
        {
            proof {
                reveal(stmts::inline_from);
                assert(all[i as int] == attrs@[i as int]@);
            }
            match self.attr_of(&attrs[i]) {
                Some(Attr::Inline) => {
                    if inline.is_some() {
                        inline = Some(Inline::Always);
                    }
                },
                Some(Attr::NoInline) => {
                    if inline.is_some() {
                        inline = Some(Inline::Never);
                    }
                },
                Some(_) => {
                    let message = misplaced(&attrs[i], "a statement");
                    self.fault(attrs[i].span, message);
                    inline = None;
                },
                None => {},
            }
            i += 1;
        }
        proof {
            reveal(stmts::inline_from);
        }
        inline
    }

    // Macros.

    fn interpolated(&mut self, name: String, span: Span) -> (r: Option<Interpolated>)
        ensures
            (final(self)@, interpolated_view(r)) == stmts::interpolated(
                old(self)@,
                name@,
                span,
            ),
    {
        proof {
            reveal(stmts::interpolated);
        }
        if chars(name.as_str()).len() == 0 {
            self.error(span, "raw! needs a name between the braces");
            return None;
        }
        let written = Ident { name, span };
        let value = self.path(&written)?;
        proof {
            value.unfold();
        }
        match &value.kind {
            ExprKind::Local(local) => match self.selector_alias(*local) {
                Some(text) => {
                    return Some(Interpolated::Const(text.clone()));
                },
                None => {},
            },
            _ => {},
        }
        match value.ty {
            Type::I32 => Some(Interpolated::Value(value)),
            Type::Bool => Some(Interpolated::Value(value)),
            Type::Str => Some(Interpolated::Value(value)),
            Type::Fix(_) => {
                self.fault(
                    span,
                    cat3(
                        "'",
                        written.name.as_str(),
                        "' is a fixed-point number, which holds scaled units;                          interpolating it would print the wrong value",
                    ),
                );
                None
            },
            _ => {
                let message = cat3(
                    "a ",
                    self.name(value.ty).as_str(),
                    " cannot be interpolated into a raw! command",
                );
                self.fault(span, message);
                None
            },
        }
    }

    /// The parts of a `raw!` string. `{` always opens an interpolation; `{{` and `}}` are
    /// the characters themselves.
    #[verifier::spinoff_prover]
    fn interpolate(&mut self, text: &str, span: Span) -> (r: Option<Vec<RawPart>>)
        ensures
            (final(self)@, parts_opt(r)) == stmts::interpolate(
                old(self)@,
                text@,
                0,
                seq![],
                seq![],
                true,
                span,
            ),
    {
        let ghost start = self@;
        let v = chars(text);
        let mut lit = String::new();
        let mut parts: Vec<RawPart> = Vec::new();
        let mut ok = true;
        proof {
            assert(lit@ =~= seq![]);
            assert(parts_view(parts@) =~= seq![]);
        }
        let mut i: usize = 0;
        while i < v.len()
            invariant
                i <= v@.len(),
                v@ == text@,
                start == old(self)@,
                stmts::interpolate(start, text@, 0, seq![], seq![], true, span)
                    == stmts::interpolate(
                    self@,
                    text@,
                    i as int,
                    lit@,
                    parts_view(parts@),
                    ok,
                    span,
                ),
            decreases v.len() - i,
        {
            proof {
                reveal(stmts::interpolate);
            }
            let c = v[i];
            if c != '{' && c != '}' {
                push(&mut lit, c);
                i += 1;
            } else if v.len() - i > 1 && v[i + 1] == c {
                push(&mut lit, c);
                i += 2;
            } else if c == '}' {
                self.error(
                    span,
                    "this '}' in raw! closes nothing; write '}}' to mean the character",
                );
                return None;
            } else {
                let end: usize = find(&v, '}', i + 1);
                if end >= v.len() {
                    self.error(
                        span,
                        "this '{' in raw! is never closed; write '{{' to mean the character",
                    );
                    return None;
                }
                let name = slice(&v, i + 1, end);
                match self.interpolated(name, span) {
                    Some(Interpolated::Const(known)) => {
                        lit.append(known.as_str());
                    },
                    Some(Interpolated::Value(value)) => {
                        let ghost before = parts_view(parts@);
                        let ghost held = lit@;
                        let ghost shown = value@;
                        parts.push(RawPart::Lit(lit));
                        parts.push(RawPart::Value(value));
                        lit = String::new();
                        proof {
                            assert(parts_view(parts@) =~= before.push(
                                model::RawPart::Lit(held),
                            ).push(model::RawPart::Value(shown)));
                            assert(lit@ =~= seq![]);
                        }
                    },
                    None => {
                        ok = false;
                    },
                }
                i = end + 1;
            }
        }
        proof {
            reveal(stmts::interpolate);
        }
        if ok {
            let ghost before = parts_view(parts@);
            let ghost held = lit@;
            parts.push(RawPart::Lit(lit));
            proof {
                assert(parts_view(parts@) =~= before.push(model::RawPart::Lit(held)));
            }
            Some(parts)
        } else {
            None
        }
    }

    /// A macro as a statement: only `raw!` is one.
    fn macro_stmt(&mut self, call: &MacroCall) -> (r: Option<RawCommand>)
        ensures
            (final(self)@, raw_opt_view(r)) == stmts::macro_stmt(
                old(self)@,
                call.name@,
                tokens_view(call.tokens@),
                call.span,
            ),
    {
        proof {
            reveal(stmts::macro_stmt);
        }
        let span = call.span;
        if !same(call.name.name.as_str(), "raw") {
            self.fault(span, cat3("unknown macro '", call.name.name.as_str(), "!'"));
            return None;
        }
        if call.tokens.len() == 0 {
            self.error(span, "raw! takes a string literal");
            return None;
        }
        proof {
            assert(tokens_view(call.tokens@)[0] == call.tokens@[0]@);
        }
        if call.tokens.len() > 1 {
            proof {
                assert(tokens_view(call.tokens@)[1] == call.tokens@[1]@);
            }
            self.error(call.tokens[1].span, "raw! takes a single string literal");
            return None;
        }
        match &call.tokens[0].kind {
            TokenKind::Str(text) => {
                let parts = self.interpolate(text.as_str(), call.tokens[0].span)?;
                Some(RawCommand { parts, span })
            },
            _ => {
                self.error(call.tokens[0].span, "raw! takes a string literal");
                None
            },
        }
    }

    // Statements without others inside.

    fn return_stmt(&mut self, env: &Frame, returned: &Option<Written>, span: Span) -> (r: Option<
        Stmt,
    >)
        ensures
            (final(self)@, stmt_opt_view(r)) == stmts::return_stmt(
                env@,
                old(self)@,
                written_opt(*returned),
                span,
            ),
    {
        proof {
            reveal(stmts::return_stmt);
        }
        let value: Option<Expr> = match (returned, env.ret) {
            (None, None) => None,
            (Some(e), Some(want)) => {
                let value = self.expr_expecting(env, e, want)?;
                if value.ty != want {
                    self.mismatch(value.span, want, value.ty);
                    return None;
                }
                Some(value)
            },
            (Some(e), None) => {
                self.error(e.span(), "this function does not return a value");
                return None;
            },
            (None, Some(want)) => {
                let message = cat3("expected a ", self.name(want).as_str(), " to return");
                self.fault(span, message);
                return None;
            },
        };
        let s = Stmt::Return { value, span };
        proof {
            s.unfold();
        }
        Some(s)
    }

    /// `break` and `continue` are only allowed inside a loop.
    fn jump(&mut self, span: Span, keyword: &str, s: Stmt) -> (r: Option<Stmt>)
        ensures
            (final(self)@, stmt_opt_view(r)) == stmts::jump(old(self)@, span, keyword@, s@),
    {
        if self.in_loop() {
            Some(s)
        } else {
            self.fault(span, cat3("'", keyword, "' is only allowed inside a loop"));
            None
        }
    }

    fn let_value(&mut self, env: &Frame, s: &LetStmt) -> (r: Option<Expr>)
        ensures
            (final(self)@, expr_opt_view(r)) == stmts::let_value(env@, old(self)@, s@),
    {
        proof {
            reveal(stmts::let_value);
            s.value.unfold();
        }
        match &s.ty {
            None => self.expr(env, &s.value),
            Some(written) => {
                let want = self.resolve(env, written)?;
                match &s.value {
                    Written::List(list) => {
                        let elem = match want {
                            Type::Vec(id) => Some(self.types().element_at(id)),
                            _ => None,
                        };
                        self.list_values(env, &list.values, elem, list.span)
                    },
                    Written::Macro(call) => {
                        if same(call.name.name.as_str(), "nbt") {
                            self.nbt_lit(&call.tokens, want, call.span)
                        } else {
                            self.expr_expecting(env, &s.value, want)
                        }
                    },
                    _ => self.expr_expecting(env, &s.value, want),
                }
            },
        }
    }

    fn let_type(&mut self, env: &Frame, s: &LetStmt, found: Type) -> (r: Option<Type>)
        ensures
            (final(self)@, r) == stmts::let_type(env@, old(self)@, s@, found),
    {
        proof {
            reveal(stmts::let_type);
        }
        match &s.ty {
            None => Some(found),
            Some(written) => {
                let ty = self.resolve(env, written)?;
                if ty != found {
                    self.mismatch(s.value.span(), ty, found);
                    return None;
                }
                Some(ty)
            },
        }
    }

    /// What a binding of a value is.
    fn bind_value(&mut self, s: &LetStmt, value: Expr, ty: Type) -> (r: Option<Stmt>)
        ensures
            (final(self)@, stmt_opt_view(r)) == stmts::bind_value(
                old(self)@,
                s@,
                value@,
                ty,
            ),
    {
        proof {
            reveal(stmts::bind_value);
            value.unfold();
        }
        let local = self.declare(s.name.name.as_str(), ty, s.mutable);
        match &value.kind {
            ExprKind::Selector(text) => {
                self.select(local, text.clone());
                return None;
            },
            ExprKind::View(place) => {
                let mut named = place.copy();
                proof {
                    named.unfold();
                }
                named.mutable = s.mutable;
                named.via = s.name.name.clone();
                proof {
                    named.unfold();
                }
                self.alias(local, named);
                return None;
            },
            _ => {},
        }
        if value.ty.is_compile_time() {
            let message = cat3(
                "a ",
                self.name(value.ty).as_str(),
                " cannot be bound to a name; write it where it is used",
            );
            self.fault(s.value.span(), message);
            return None;
        }
        let made = Stmt::Let { local, value, span: s.span };
        proof {
            made.unfold();
        }
        Some(made)
    }

    fn let_stmt(&mut self, env: &Frame, s: &LetStmt) -> (r: Option<Stmt>)
        ensures
            (final(self)@, stmt_opt_view(r)) == stmts::let_stmt(env@, old(self)@, s@),
    {
        proof {
            reveal(stmts::let_stmt);
        }
        let value = self.let_value(env, s)?;
        let ty = self.let_type(env, s, value.ty)?;
        self.bind_value(s, value, ty)
    }

    /// An assignment.
    #[verifier::spinoff_prover]
    fn assign(
        &mut self,
        env: &Frame,
        op: Option<BinaryOp>,
        target: &Written,
        assigned: &Written,
        span: Span,
    ) -> (r: Option<Stmt>)
        ensures
            (final(self)@, stmt_opt_view(r)) == stmts::assign(
                env@,
                old(self)@,
                op,
                target@,
                assigned@,
                span,
            ),
    {
        proof {
            reveal(stmts::assign);
        }
        let place = self.place(env, target)?;
        proof {
            place.unfold();
        }
        let value = self.expr_expecting(env, assigned, place.ty)?;
        if !place.mutable {
            self.fault(
                span,
                cat3("'", place.via.as_str(), "' is not mutable; declare it with 'let mut'"),
            );
            return None;
        }
        let ty = place.ty;
        match op {
            None => {
                if ty != value.ty {
                    self.mismatch(assigned.span(), ty, value.ty);
                    return None;
                }
            },
            Some(by) => {
                if !assignable(by, ty, value.ty) {
                    let numeric = match ty {
                        Type::I32 => true,
                        Type::Fix(_) => true,
                        _ => false,
                    };
                    if numeric {
                        self.mismatch(span, ty, value.ty);
                    } else {
                        let message = cat2(
                            "compound assignment needs i32, found ",
                            self.name(ty).as_str(),
                        );
                        self.fault(span, message);
                    }
                    return None;
                }
                if (by == BinaryOp::Mul || by == BinaryOp::Div) && matches!(ty, Type::Fix(_)) && ty
                    == value.ty {
                    let held = self.expr(env, target)?;
                    let combined = combine(by, held, value, ty, span);
                    let s = Stmt::Assign { place, op: None, value: combined, span };
                    proof {
                        s.unfold();
                    }
                    return Some(s);
                }
            },
        }
        let s = Stmt::Assign { place, op, value, span };
        proof {
            s.unfold();
        }
        Some(s)
    }

    /// An expression as a statement.
    #[verifier::spinoff_prover]
    fn expr_stmt(&mut self, env: &Frame, e: &Written) -> (r: Option<Stmt>)
        ensures
            (final(self)@, stmt_opt_view(r)) == stmts::expr_stmt(env@, old(self)@, e@),
    {
        proof {
            reveal(stmts::expr_stmt);
            e.unfold();
        }
        let made = match e {
            Written::Assert(a) => {
                let cond = self.condition(env, &a.cond)?;
                Stmt::Assert { cond, message: copy_text(&a.message), span: a.span }
            },
            Written::Macro(call) => Stmt::Raw(self.macro_stmt(call)?),
            Written::Assign(a) => {
                return self.assign(env, a.op, &a.target, &a.value, a.span);
            },
            Written::Method(m) => match self.method_call(env, e, true)? {
                Outcome::Stmt(s) => s,
                Outcome::Value(_) => {
                    self.error(m.span, "this expression has no effect");
                    return None;
                },
            },
            Written::Call(c) => {
                if !env.has_sig(c.callee.name.as_str()) {
                    let value = self.command(env, &c.callee, &c.args, c.span)?;
                    proof {
                        value.unfold();
                    }
                    match value.kind {
                        ExprKind::Command(text) => Stmt::Raw(RawCommand::literal(text, c.span)),
                        _ => {
                            self.error(c.span, "this expression has no effect");
                            return None;
                        },
                    }
                } else {
                    let call = self.invoke(env, c.callee.name.as_str(), c.span, None, &c.args)?;
                    Stmt::CallFor { callee: call.callee, args: call.args, span: c.span }
                }
            },
            _ => {
                self.error(e.span(), "this expression has no effect");
                return None;
            },
        };
        proof {
            made.unfold();
        }
        Some(made)
    }

    // Statements with others inside.

    /// The statements that mean something.
    #[verifier::spinoff_prover]
    fn stmts(&mut self, env: &Frame, written: &Vec<WrittenStmt>) -> (r: Vec<Stmt>)
        ensures
            (final(self)@, stmts_view(r@)) == stmts::stmts(
                env@,
                old(self)@,
                written_stmts(written@),
                0,
                seq![],
            ),
        decreases written, 0int, 6int,
    {
        let ghost start = self@;
        let ghost all = written_stmts(written@);
        let mut out: Vec<Stmt> = Vec::new();
        proof {
            assert(stmts_view(out@) =~= seq![]);
        }
        let mut i: usize = 0;
        while i < written.len()
            invariant
                i <= written@.len(),
                all == written_stmts(written@),
                stmts::stmts(env@, start, all, 0, seq![]) == stmts::stmts(
                    env@,
                    self@,
                    all,
                    i as int,
                    stmts_view(out@),
                ),
            decreases written.len() - i,
        {
            proof {
                reveal(stmts::stmts);
                reveal(stmts::stmt);
                assert(decreases_to!(written => written[i as int]));
                assert(all[i as int] == written@[i as int]@);
            }
            let ghost before = stmts_view(out@);
            match self.stmt(env, &written[i]) {
                Some(s) => {
                    let ghost shown = s@;
                    out.push(s);
                    proof {
                        assert(stmts_view(out@) =~= before.push(shown));
                    }
                },
                None => {},
            }
            i += 1;
        }
        proof {
            reveal(stmts::stmts);
        }
        out
    }

    /// The statements of a block, in a scope of their own.
    #[verifier::spinoff_prover]
    pub(super) fn block(&mut self, env: &Frame, written: &Vec<WrittenStmt>) -> (r: Vec<Stmt>)
        ensures
            (final(self)@, stmts_view(r@)) == stmts::block(
                env@,
                old(self)@,
                written_stmts(written@),
            ),
        decreases written, 1int, 7int,
    {
        proof {
            reveal(stmts::block);
            reveal(stmts::stmts);
        }
        self.enter();
        let body = self.stmts(env, written);
        self.leave();
        body
    }

    #[verifier::spinoff_prover]
    fn stmt(&mut self, env: &Frame, s: &WrittenStmt) -> (r: Option<Stmt>)
        ensures
            (final(self)@, stmt_opt_view(r)) == stmts::stmt(env@, old(self)@, s@),
        decreases s, 0int, 5int,
    {
        proof {
            reveal(stmts::stmt);
            reveal(stmts::if_stmt);
            reveal(stmts::loop_stmt);
            reveal(stmts::context_stmt);
            reveal(stmts::match_stmt);
        }
        match s {
            WrittenStmt::Let(s) => self.let_stmt(env, s),
            WrittenStmt::Expr(e) => self.expr_stmt(env, e),
            WrittenStmt::If(s) => self.if_stmt(env, s),
            WrittenStmt::Loop(s) => self.loop_stmt(env, s),
            WrittenStmt::Context(s) => self.context_stmt(env, s),
            WrittenStmt::Match(s) => self.match_stmt(env, s),
            WrittenStmt::Break(span) => {
                let made = Stmt::Break(*span);
                proof {
                    made.unfold();
                }
                self.jump(*span, "break", made)
            },
            WrittenStmt::Continue(span) => {
                let made = Stmt::Continue(*span);
                proof {
                    made.unfold();
                }
                self.jump(*span, "continue", made)
            },
            WrittenStmt::Return { value, span } => self.return_stmt(env, value, *span),
        }
    }

    /// The other side of an `if`.
    #[verifier::spinoff_prover]
    fn else_stmts(&mut self, env: &Frame, branch: &Else) -> (r: Vec<Stmt>)
        ensures
            (final(self)@, stmts_view(r@)) == stmts::else_stmts(env@, old(self)@, branch@),
        decreases branch, 0int, 5int,
    {
        proof {
            reveal(stmts::else_stmts);
            reveal(stmts::block);
            reveal(stmts::if_stmt);
        }
        match branch {
            Else::Block(b) => {
                proof {
                    assert(b@.stmts =~= written_stmts(b.stmts@));
                }
                self.block(env, &b.stmts)
            },
            Else::If(nested) => {
                let mut out: Vec<Stmt> = Vec::new();
                match self.if_stmt(env, nested) {
                    Some(s) => {
                        let ghost shown = s@;
                        out.push(s);
                        proof {
                            assert(stmts_view(out@) =~= seq![shown]);
                        }
                    },
                    None => {
                        proof {
                            assert(stmts_view(out@) =~= seq![]);
                        }
                    },
                }
                out
            },
        }
    }

    #[verifier::spinoff_prover]
    fn if_stmt(&mut self, env: &Frame, s: &IfStmt) -> (r: Option<Stmt>)
        ensures
            (final(self)@, stmt_opt_view(r)) == stmts::if_stmt(env@, old(self)@, s@),
        decreases s, 0int, 4int,
    {
        proof {
            reveal(stmts::if_stmt);
            reveal(stmts::block);
            reveal(stmts::else_stmts);
            assert(s@.taken.stmts =~= written_stmts(s.taken.stmts@));
        }
        let cond = self.condition(env, &s.cond)?;
        let taken = self.block(env, &s.taken.stmts);
        let otherwise = match &s.otherwise {
            Some(branch) => Some(self.else_stmts(env, branch)),
            None => None,
        };
        let inline = self.inline_attr(&s.attrs)?;
        if inline == Inline::Always && !(otherwise.is_none() && taken.len() == 1) {
            self.error(
                s.span,
                "only a single-statement 'if' with no 'else' can be inlined",
            );
            return None;
        }
        let made = Stmt::If { cond, taken, otherwise, inline, span: s.span };
        proof {
            made.unfold();
        }
        Some(made)
    }

    #[verifier::spinoff_prover]
    fn loop_stmt(&mut self, env: &Frame, s: &LoopStmt) -> (r: Option<Stmt>)
        ensures
            (final(self)@, stmt_opt_view(r)) == stmts::loop_stmt(env@, old(self)@, s@),
        decreases s, 0int, 4int,
    {
        proof {
            reveal(stmts::loop_stmt);
            reveal(stmts::block);
            assert(s@.body.stmts =~= written_stmts(s.body.stmts@));
        }
        let cond = match &s.cond {
            Some(e) => Some(self.condition(env, e)?),
            None => None,
        };
        let inline = self.inline_attr(&s.attrs)?;
        if inline == Inline::Always {
            self.error(s.span, "a loop is always its own function");
            return None;
        }
        let outer = self.in_loop();
        self.set_in_loop(true);
        let body = self.block(env, &s.body.stmts);
        self.set_in_loop(outer);
        let made = Stmt::Loop { cond, body, inline, span: s.span };
        proof {
            made.unfold();
        }
        Some(made)
    }

    /// `positioned pos!(~ ~1 ~) { .. }`.
    #[verifier::spinoff_prover]
    fn positioned_stmt(&mut self, env: &Frame, s: &ContextStmt) -> (r: Option<Stmt>)
        ensures
            (final(self)@, stmt_opt_view(r)) == stmts::positioned_stmt(env@, old(self)@, s@),
        decreases s, 0int, 3int,
    {
        proof {
            reveal(stmts::positioned_stmt);
            reveal(stmts::stmts);
            assert(s@.body.stmts =~= written_stmts(s.body.stmts@));
        }
        let value = self.expr(env, &s.selector)?;
        proof {
            value.unfold();
        }
        let at = value.span;
        let text = match value.kind {
            ExprKind::Pos(text) => text,
            _ => {
                let message = cat2(
                    "'positioned' takes coordinates, as in 'positioned pos!(~ ~1 ~)'; found ",
                    self.name(value.ty).as_str(),
                );
                self.fault(at, message);
                return None;
            },
        };
        let inline = self.inline_attr(&s.attrs)?;
        self.enter();
        self.push_ctx(Ctx::Position);
        let body = self.stmts(env, &s.body.stmts);
        self.leave();
        self.pop_ctx();
        let made = Stmt::Context {
            kind: ContextKind::Positioned,
            selector: Selector { text, span: at },
            body,
            inline,
            span: s.span,
        };
        proof {
            made.unfold();
        }
        Some(made)
    }

    /// `for x in v { .. }` over a list.
    #[verifier::spinoff_prover]
    fn for_vec(&mut self, env: &Frame, s: &ContextStmt, source: Place) -> (r: Option<Stmt>)
        ensures
            (final(self)@, stmt_opt_view(r)) == stmts::for_vec(
                env@,
                old(self)@,
                s@,
                source@,
            ),
        decreases s, 0int, 3int,
    {
        proof {
            reveal(stmts::for_vec);
            reveal(stmts::stmts);
            assert(s@.body.stmts =~= written_stmts(s.body.stmts@));
            source.unfold();
        }
        if !source.is_static() {
            self.error(
                s.selector.span(),
                "an index that is only known at runtime has to be the last step; read the element into a binding first",
            );
            return None;
        }
        let elem = match source.ty {
            Type::Vec(id) => self.types().element_at(id),
            _ => Type::I32,
        };
        let inline = self.inline_attr(&s.attrs)?;
        if inline != Inline::Auto {
            self.error(s.span, "a loop is always its own function");
            return None;
        }
        match &s.binding {
            None => None,
            Some(name) => {
                self.enter();
                let binding = self.declare(name.name.as_str(), elem, false);
                let outer = self.in_loop();
                self.set_in_loop(true);
                let body = self.stmts(env, &s.body.stmts);
                self.leave();
                self.set_in_loop(outer);
                let made = Stmt::ForVec { source, binding, body, span: s.span };
                proof {
                    made.unfold();
                }
                Some(made)
            },
        }
    }

    /// What a `for` iterates over, if it is a list.
    fn list_source(&mut self, env: &Frame, s: &ContextStmt) -> (r: Option<Place>)
        ensures
            (final(self)@, crate::hir::place_opt_view(r)) == stmts::list_source(
                env@,
                old(self)@,
                s@,
            ),
    {
        proof {
            reveal(stmts::list_source);
            s.selector.unfold();
        }
        let addressed = match &s.selector {
            Written::Path(_) => true,
            Written::Field(_) => true,
            Written::Index(_) => true,
            _ => false,
        };
        if s.kind != WrittenKind::For || !addressed {
            return None;
        }
        let before: usize = self.error_count();
        match self.place(env, &s.selector) {
            Some(place) => {
                proof {
                    place.unfold();
                }
                if matches!(place.ty, Type::Vec(_)) {
                    return Some(place);
                }
            },
            None => {},
        }
        self.forget_errors(before);
        None
    }

    #[verifier::spinoff_prover]
    fn context_stmt(&mut self, env: &Frame, s: &ContextStmt) -> (r: Option<Stmt>)
        ensures
            (final(self)@, stmt_opt_view(r)) == stmts::context_stmt(env@, old(self)@, s@),
        decreases s, 0int, 4int,
    {
        proof {
            reveal(stmts::context_stmt);
            reveal(stmts::for_vec);
            reveal(stmts::positioned_stmt);
            reveal(stmts::entity_stmt);
        }
        match self.list_source(env, s) {
            Some(source) => self.for_vec(env, s, source),
            None => {
                if s.kind == WrittenKind::Positioned {
                    self.positioned_stmt(env, s)
                } else {
                    self.entity_stmt(env, s)
                }
            },
        }
    }

    /// `as`, `at` and `for` over the entities a selector finds.
    #[verifier::spinoff_prover]
    fn entity_stmt(&mut self, env: &Frame, s: &ContextStmt) -> (r: Option<Stmt>)
        ensures
            (final(self)@, stmt_opt_view(r)) == stmts::entity_stmt(env@, old(self)@, s@),
        decreases s, 0int, 3int,
    {
        proof {
            reveal(stmts::entity_stmt);
            reveal(stmts::stmts);
            assert(s@.body.stmts =~= written_stmts(s.body.stmts@));
        }
        let (text, at) = self.selector_of(env, &s.selector)?;
        let kind = kind_of(s.kind);
        if same(text.as_str(), "@s") {
            self.require(Ctx::Entity, at, "@s");
        }
        let inline = self.inline_attr(&s.attrs)?;
        self.enter();
        self.push_ctx(
            if kind == ContextKind::At {
                Ctx::Position
            } else {
                Ctx::Entity
            },
        );
        // The binding is a name for `@s` inside the body.
        match &s.binding {
            Some(name) => {
                let local = self.declare(name.name.as_str(), Type::Selector, false);
                self.select(local, own("@s"));
            },
            None => {},
        }
        let outer = self.in_loop();
        self.set_in_loop(true);
        let body = self.stmts(env, &s.body.stmts);
        self.set_in_loop(outer);
        self.leave();
        self.pop_ctx();
        let made = Stmt::Context {
            kind,
            selector: Selector { text, span: at },
            body,
            inline,
            span: s.span,
        };
        proof {
            made.unfold();
        }
        Some(made)
    }

    /// The bindings of an arm.
    fn bind_payload(&mut self, payload: &Vec<Payload>) -> (r: Vec<Binding>)
        ensures
            (final(self)@, bindings_view(r@)) == stmts::bind_payload(
                old(self)@,
                payload_view(payload@),
                0,
                seq![],
            ),
    {
        let ghost start = self@;
        let ghost all = payload_view(payload@);
        let mut out: Vec<Binding> = Vec::new();
        proof {
            assert(bindings_view(out@) =~= seq![]);
        }
        let mut i: usize = 0;
        while i < payload.len()
            invariant
                i <= payload@.len(),
                all == payload_view(payload@),
                stmts::bind_payload(start, all, 0, seq![]) == stmts::bind_payload(
                    self@,
                    all,
                    i as int,
                    bindings_view(out@),
                ),
            decreases payload.len() - i,
        {
            proof {
                reveal(stmts::bind_payload);
                assert(all[i as int] == payload@[i as int]@);
            }
            let p = &payload[i];
            let local = self.declare(p.name.as_str(), p.ty, false);
            let ghost before = bindings_view(out@);
            let one = Binding { local, nbt: p.nbt.clone(), ty: p.ty, tag: p.tag };
            let ghost shown = one@;
            out.push(one);
            proof {
                assert(bindings_view(out@) =~= before.push(shown));
            }
            i += 1;
        }
        proof {
            reveal(stmts::bind_payload);
        }
        out
    }

    /// One arm's body, with its payload bindings in scope.
    #[verifier::spinoff_prover]
    fn arm(
        &mut self,
        env: &Frame,
        test: ArmTest,
        payload: Vec<Payload>,
        path: String,
        written: &Vec<WrittenStmt>,
    ) -> (r: Arm)
        ensures
            (final(self)@, r@) == stmts::arm(
                env@,
                old(self)@,
                test,
                payload_view(payload@),
                path@,
                written_stmts(written@),
            ),
            r.test == test,
        decreases written, 1int, 7int,
    {
        proof {
            reveal(stmts::arm);
            reveal(stmts::stmts);
        }
        self.enter();
        let bindings = self.bind_payload(&payload);
        let body = self.stmts(env, written);
        self.leave();
        let r = Arm { test, path, bindings, body };
        proof {
            r.unfold();
        }
        r
    }

    /// The payload fields a pattern binds.
    fn payload_of(&mut self, variant: &Ident, fields: &Vec<Field>, binds: &Vec<Ident>) -> (r: Option<
        Vec<Payload>,
    >)
        ensures
            (final(self)@, payload_opt(r)) == stmts::payload_of(
                old(self)@,
                variant@,
                fields_view(fields@),
                idents_view(binds@),
                0,
                seq![],
            ),
    {
        let ghost start = self@;
        let ghost all = idents_view(binds@);
        let ghost known = fields_view(fields@);
        let mut out: Vec<Payload> = Vec::new();
        proof {
            assert(payload_view(out@) =~= seq![]);
        }
        let mut i: usize = 0;
        while i < binds.len()
            invariant
                i <= binds@.len(),
                start == old(self)@,
                all == idents_view(binds@),
                known == fields_view(fields@),
                stmts::payload_of(start, variant@, known, all, 0, seq![]) == stmts::payload_of(
                    self@,
                    variant@,
                    known,
                    all,
                    i as int,
                    payload_view(out@),
                ),
            decreases binds.len() - i,
        {
            proof {
                reveal(stmts::payload_of);
                assert(all[i as int] == binds@[i as int]@);
            }
            let bind = &binds[i];
            let at: usize = find_field(fields, bind.name.as_str());
            if at >= fields.len() {
                self.fault(
                    bind.span,
                    cat5(
                        "'",
                        variant.name.as_str(),
                        "' has no field named '",
                        bind.name.as_str(),
                        "'",
                    ),
                );
                return None;
            }
            let ghost before = payload_view(out@);
            let one = Payload {
                name: bind.name.clone(),
                nbt: fields[at].nbt.clone(),
                ty: fields[at].ty,
                tag: fields[at].tag,
            };
            let ghost shown = one@;
            out.push(one);
            proof {
                assert(payload_view(out@) =~= before.push(shown));
            }
            i += 1;
        }
        proof {
            reveal(stmts::payload_of);
        }
        Some(out)
    }

    /// What a pattern of a `match` on an enum tests, binds and is called.
    fn enum_pattern(&mut self, def: &EnumDef, arms: &Vec<Arm>, pattern: &Pattern) -> (r: Option<
        (ArmTest, Vec<Payload>, String),
    >)
        ensures
            (final(self)@, pattern_view(r)) == stmts::enum_pattern(
                old(self)@,
                def@,
                arms_view(arms@),
                pattern@,
            ),
    {
        proof {
            reveal(stmts::enum_pattern);
        }
        match pattern {
            Pattern::Wildcard(_) => {
                let none: Vec<Payload> = Vec::new();
                proof {
                    assert(payload_view(none@) =~= seq![]);
                }
                Some((ArmTest::Other, none, own("other")))
            },
            Pattern::Variant { ty, variant, binds, span } => {
                if !same(ty.name.as_str(), def.name.as_str()) {
                    self.fault(
                        ty.span,
                        cat5(
                            "expected a variant of '",
                            def.name.as_str(),
                            "', found '",
                            ty.name.as_str(),
                            "'",
                        ),
                    );
                    return None;
                }
                let at: usize = def.find_variant(variant.name.as_str());
                if at >= def.variants.len() {
                    self.fault(
                        variant.span,
                        cat5(
                            "'",
                            def.name.as_str(),
                            "' has no variant named '",
                            variant.name.as_str(),
                            "'",
                        ),
                    );
                    return None;
                }
                let test = ArmTest::Variant(at as u32);
                if covers(arms, test) {
                    self.fault(
                        *span,
                        cat3(
                            "'",
                            variant.name.as_str(),
                            "' is already covered by an earlier arm",
                        ),
                    );
                    return None;
                }
                let payload = self.payload_of(variant, &def.variants[at].fields, binds)?;
                Some((test, payload, to_lowercase(def.variants[at].name.as_str())))
            },
            _ => {
                self.fault(
                    pattern.span(),
                    cat3(
                        "'",
                        def.name.as_str(),
                        "' is an enum, so its arms name its variants",
                    ),
                );
                None
            },
        }
    }

    /// The arms of a `match` on an enum. `_` has to be the last.
    #[verifier::spinoff_prover]
    fn enum_arms(&mut self, env: &Frame, def: &EnumDef, written: &Vec<MatchArm>) -> (r: Option<
        (Vec<Arm>, bool),
    >)
        ensures
            (final(self)@, arms_opt(r)) == stmts::enum_arms(
                env@,
                old(self)@,
                def@,
                written_arms(written@),
                0,
                seq![],
                false,
            ),
        decreases written, 0int, 8int,
    {
        let ghost start = self@;
        let ghost all = written_arms(written@);
        let mut out: Vec<Arm> = Vec::new();
        proof {
            assert(arms_view(out@) =~= seq![]);
        }
        let mut wildcard = false;
        let mut i: usize = 0;
        while i < written.len()
            invariant
                i <= written@.len(),
                start == old(self)@,
                all == written_arms(written@),
                stmts::enum_arms(env@, start, def@, all, 0, seq![], false) == stmts::enum_arms(
                    env@,
                    self@,
                    def@,
                    all,
                    i as int,
                    arms_view(out@),
                    wildcard,
                ),
            decreases written.len() - i,
        {
            proof {
                reveal(stmts::enum_arms);
                reveal(stmts::arm);
                assert(decreases_to!(written => written[i as int]));
                assert(decreases_to!(written[i as int] => written[i as int].body));
                assert(decreases_to!(written[i as int].body => written[i as int].body.stmts));
                assert(all[i as int] == written@[i as int]@);
                assert(all[i as int].body.stmts =~= written_stmts(
                    written@[i as int].body.stmts@,
                ));
            }
            let one = &written[i];
            if wildcard {
                self.error(one.span, "'_' has to be the last arm; nothing after it can run");
                return None;
            }
            let (test, payload, path) = self.enum_pattern(def, &out, &one.pattern)?;
            wildcard = matches!(one.pattern, Pattern::Wildcard(_));
            let arm = self.arm(env, test, payload, path, &one.body.stmts);
            let ghost before = arms_view(out@);
            let ghost shown = arm@;
            out.push(arm);
            proof {
                assert(arms_view(out@) =~= before.push(shown));
            }
            i += 1;
        }
        proof {
            reveal(stmts::enum_arms);
        }
        Some((out, wildcard))
    }

    /// `match` on an enum, checked for exhaustiveness.
    #[verifier::spinoff_prover]
    fn enum_match(&mut self, env: &Frame, s: &MatchStmt, def: &EnumDef, scrutinee: Place) -> (r:
        Option<Stmt>)
        ensures
            (final(self)@, stmt_opt_view(r)) == stmts::enum_match(
                env@,
                old(self)@,
                s@,
                def@,
                scrutinee@,
            ),
        decreases s, 0int, 3int,
    {
        proof {
            reveal(stmts::enum_match);
            reveal(stmts::enum_arms);
            assert(s@.arms =~= written_arms(s.arms@));
        }
        let (arms, wildcard) = self.enum_arms(env, def, &s.arms)?;
        let missing = uncovered(def, &arms);
        if !wildcard && missing.len() > 0 {
            self.fault(
                s.span,
                cat4(
                    "this match does not cover every variant of '",
                    def.name.as_str(),
                    "': ",
                    join_texts(&missing, ", ").as_str(),
                ),
            );
            return None;
        }
        if wildcard && arms.len() > def.variants.len() {
            self.error(
                last_span(&s.arms, s.span),
                "this arm cannot be reached: every variant is already covered",
            );
            return None;
        }
        let made = Stmt::Match { scrutinee: Scrutinee::Place(scrutinee), arms, span: s.span };
        proof {
            made.unfold();
        }
        Some(made)
    }

    /// What a pattern of a `match` on an option tests, binds and is called.
    fn option_pattern(&mut self, pattern: &Pattern, inner: Type, tag: Option<NbtTag>) -> (r: Option<
        (ArmTest, Vec<Payload>, String),
    >)
        ensures
            (final(self)@, pattern_view(r)) == stmts::option_pattern(
                old(self)@,
                pattern@,
                inner,
                tag,
            ),
    {
        proof {
            reveal(stmts::option_pattern);
        }
        let mut payload: Vec<Payload> = Vec::new();
        proof {
            assert(payload_view(payload@) =~= seq![]);
        }
        match pattern {
            Pattern::Present { bind, span } => {
                let one = Payload { name: bind.name.clone(), nbt: String::new(), ty: inner, tag };
                let ghost shown = one@;
                proof {
                    assert(shown.nbt =~= seq![]);
                }
                payload.push(one);
                proof {
                    assert(payload_view(payload@) =~= seq![shown]);
                }
                Some((ArmTest::Present, payload, own("some")))
            },
            Pattern::Absent(_) => Some((ArmTest::Absent, payload, own("none"))),
            Pattern::Wildcard(_) => Some((ArmTest::Other, payload, own("other"))),
            Pattern::Variant { ty, .. } => {
                self.fault(
                    pattern.span(),
                    cat3(
                        "an option is matched with 'Some(x)' and 'None', not '",
                        ty.name.as_str(),
                        "'",
                    ),
                );
                None
            },
        }
    }

    /// The arms of a `match` on an option.
    #[verifier::spinoff_prover]
    fn option_arms(
        &mut self,
        env: &Frame,
        written: &Vec<MatchArm>,
        inner: Type,
        tag: Option<NbtTag>,
    ) -> (r: Option<(Vec<Arm>, bool)>)
        ensures
            (final(self)@, arms_opt(r)) == stmts::option_arms(
                env@,
                old(self)@,
                written_arms(written@),
                0,
                inner,
                tag,
                seq![],
                false,
            ),
        decreases written, 0int, 8int,
    {
        let ghost start = self@;
        let ghost all = written_arms(written@);
        let mut out: Vec<Arm> = Vec::new();
        proof {
            assert(arms_view(out@) =~= seq![]);
        }
        let mut wildcard = false;
        let mut i: usize = 0;
        while i < written.len()
            invariant
                i <= written@.len(),
                start == old(self)@,
                all == written_arms(written@),
                stmts::option_arms(env@, start, all, 0, inner, tag, seq![], false)
                    == stmts::option_arms(
                    env@,
                    self@,
                    all,
                    i as int,
                    inner,
                    tag,
                    arms_view(out@),
                    wildcard,
                ),
            decreases written.len() - i,
        {
            proof {
                reveal(stmts::option_arms);
                reveal(stmts::arm);
                assert(decreases_to!(written => written[i as int]));
                assert(decreases_to!(written[i as int] => written[i as int].body));
                assert(decreases_to!(written[i as int].body => written[i as int].body.stmts));
                assert(all[i as int] == written@[i as int]@);
                assert(all[i as int].body.stmts =~= written_stmts(
                    written@[i as int].body.stmts@,
                ));
            }
            let one = &written[i];
            if wildcard {
                self.error(one.span, "'_' has to be the last arm; nothing after it can run");
                return None;
            }
            let (test, payload, path) = self.option_pattern(&one.pattern, inner, tag)?;
            if covers(&out, test) {
                self.error(one.pattern.span(), "this arm is already covered");
                return None;
            }
            wildcard = matches!(one.pattern, Pattern::Wildcard(_));
            let arm = self.arm(env, test, payload, path, &one.body.stmts);
            let ghost before = arms_view(out@);
            let ghost shown = arm@;
            out.push(arm);
            proof {
                assert(arms_view(out@) =~= before.push(shown));
            }
            i += 1;
        }
        proof {
            reveal(stmts::option_arms);
        }
        Some((out, wildcard))
    }

    /// `match o { Some(x) => .., None => .. }`.
    #[verifier::spinoff_prover]
    fn option_match(&mut self, env: &Frame, s: &MatchStmt, scrutinee: Scrutinee, inner: Type) -> (r:
        Option<Stmt>)
        ensures
            (final(self)@, stmt_opt_view(r)) == stmts::option_match(
                env@,
                old(self)@,
                s@,
                scrutinee@,
                inner,
            ),
        decreases s, 0int, 3int,
    {
        proof {
            reveal(stmts::option_match);
            reveal(stmts::option_arms);
            assert(s@.arms =~= written_arms(s.arms@));
        }
        let tag = scrutinee.tag();
        let (arms, wildcard) = self.option_arms(env, &s.arms, inner, tag)?;
        let other = covers(&arms, ArmTest::Other);
        let present = covers(&arms, ArmTest::Present) || other;
        let absent = covers(&arms, ArmTest::Absent) || other;
        if !(present && absent) {
            self.fault(
                s.span,
                cat2(
                    "this match does not cover ",
                    if present {
                        "None"
                    } else {
                        "Some(x)"
                    },
                ),
            );
            return None;
        }
        if wildcard && arms.len() > 2 {
            self.error(
                last_span(&s.arms, s.span),
                "this arm cannot be reached: Some and None are already covered",
            );
            return None;
        }
        let made = Stmt::Match { scrutinee, arms, span: s.span };
        proof {
            made.unfold();
        }
        Some(made)
    }

    /// `match`.
    #[verifier::spinoff_prover]
    fn match_stmt(&mut self, env: &Frame, s: &MatchStmt) -> (r: Option<Stmt>)
        ensures
            (final(self)@, stmt_opt_view(r)) == stmts::match_stmt(env@, old(self)@, s@),
        decreases s, 0int, 4int,
    {
        proof {
            reveal(stmts::match_stmt);
            reveal(stmts::option_match);
            reveal(stmts::enum_match);
            s.scrutinee.unfold();
        }
        let at = s.scrutinee.span();
        if matches!(&s.scrutinee, Written::Call(_)) {
            let value = self.expr(env, &s.scrutinee)?;
            return match value.ty {
                Type::Option(id) => {
                    let inner = self.types().inner_at(id);
                    if inner.is_storage() {
                        let message = cat3(
                            "a ",
                            self.name(inner).as_str(),
                            " does not fit in a register; bind the option first",
                        );
                        self.fault(at, message);
                        return None;
                    }
                    self.option_match(env, s, Scrutinee::Outcome(value), inner)
                },
                _ => {
                    let message = cat2(
                        "only an enum or an option can be matched on, found ",
                        self.name(value.ty).as_str(),
                    );
                    self.fault(at, message);
                    None
                },
            };
        }
        let place = self.place(env, &s.scrutinee)?;
        proof {
            place.unfold();
        }
        match place.ty {
            Type::Option(id) => {
                let inner = self.types().inner_at(id);
                self.option_match(env, s, Scrutinee::Place(place), inner)
            },
            Type::Enum(id) => {
                let def = match self.types().find_enum(id) {
                    Some(def) => copy_enum(def),
                    None => {
                        return None;
                    },
                };
                self.enum_match(env, s, &def, place)
            },
            _ => {
                let message = cat2(
                    "only an enum or an option can be matched on, found ",
                    self.name(place.ty).as_str(),
                );
                self.fault(at, message);
                None
            },
        }
    }
}

/// Whether a compound assignment's arithmetic is there for these types.
fn assignable(op: BinaryOp, to: Type, from: Type) -> (r: bool)
    ensures
        r == stmts::assignable(op, to, from),
{
    match (to, from) {
        (Type::I32, Type::I32) => true,
        (Type::Fix(_), Type::I32) => op == BinaryOp::Mul || op == BinaryOp::Div,
        (Type::Fix(_), _) => to == from,
        _ => false,
    }
}

fn copy_text(text: &Option<String>) -> (r: Option<String>)
    ensures
        text_opt_view(r) == text_opt_view(*text),
{
    match text {
        Some(text) => Some(text.clone()),
        None => None,
    }
}

} // verus!
