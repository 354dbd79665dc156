//! Lowering of a whole file.

use vstd::prelude::*;

use crate::hir::lower::collect::{collect_types, declared_ctx};
use crate::hir::lower::literals::path_of;
use crate::hir::lower::stmts::always_returns;
use crate::hir::lower::types::{impl_attrs, report, Table};
use crate::hir::lower::{borrows_view, sigs_view, Frame, Lowering, Pending, Signature};
use crate::hir::rules;
use crate::hir::rules::laws::program::lemma_every_table_is_tidy;
use crate::hir::rules::laws::table::{fitting, tidy};
use crate::hir::rules::program;
use crate::hir::types::{copy_types, entries_view};
use crate::hir::{
    attrs_view, functions_view, generics_view, Attr, Ctx, FnId, Function, GenericDef, Hir, LocalId,
    ParamSig, Place, Type,
};
use crate::schema::Schema;
use crate::syntax::ast::{
    items_view, params_view, type_opt_view, Borrow, FnItem, Item, ItemKind, Param, SourceFile,
    TypeName,
};
use crate::syntax::{faults, SyntaxError};
use crate::text::{cat3, own, texts};

verus! {

/// A function as written: the item, the function, and the type whose `impl` it is in.
struct WrittenFn<'a> {
    item: &'a Item,
    f: &'a FnItem,
    owner: Option<&'a str>,
}

impl<'a> WrittenFn<'a> {
    spec fn view(&self) -> program::WrittenFn {
        program::WrittenFn {
            item: self.item@,
            f: self.f@,
            owner: match self.owner {
                Some(owner) => Some(owner@),
                None => None,
            },
        }
    }

    /// `Counter::bump` for a method, and the plain name for a function.
    fn full_name(&self) -> (r: String)
        ensures
            r@ == program::full_name(self@),
    {
        match self.owner {
            Some(ty) => cat3(ty, "::", self.f.name.name.as_str()),
            None => self.f.name.name.clone(),
        }
    }
}

spec fn written_view(v: Seq<WrittenFn>) -> Seq<program::WrittenFn> {
    Seq::new(v.len(), |i: int| v[i]@)
}

/// The functions of an `impl` block.
fn methods_of<'a>(
    errs: &mut Vec<SyntaxError>,
    methods: &'a Vec<Item>,
    owner: &'a str,
    out: &mut Vec<WrittenFn<'a>>,
)
    ensures
        (faults(final(errs)@), written_view(final(out)@)) == program::methods_of(
            faults(old(errs)@),
            items_view(methods@),
            0,
            owner@,
            written_view(old(out)@),
        ),
{
    let ghost start = faults(errs@);
    let ghost first = written_view(out@);
    let ghost all = items_view(methods@);
    let mut i: usize = 0;
    while i < methods.len()
        invariant
            i <= methods@.len(),
            all == items_view(methods@),
            program::methods_of(start, all, 0, owner@, first) == program::methods_of(
                faults(errs@),
                all,
                i as int,
                owner@,
                written_view(out@),
            ),
        decreases methods.len() - i,
    {
        proof {
            assert(all[i as int] == methods@[i as int]@);
        }
        let ghost before = written_view(out@);
        match &methods[i].kind {
            ItemKind::Fn(f) => {
                let one = WrittenFn { item: &methods[i], f, owner: Some(owner) };
                let ghost shown = one@;
                out.push(one);
                proof {
                    assert(written_view(out@) =~= before.push(shown));
                }
            },
            _ => {
                report(errs, methods[i].span, own("an impl block holds functions only"));
            },
        }
        i += 1;
    }
}

/// The functions of a file. A method is a function whose name carries its type and whose
/// first parameter is the receiver.
fn functions_of<'a>(errs: &mut Vec<SyntaxError>, items: &'a Vec<Item>) -> (r: Vec<WrittenFn<'a>>)
    ensures
        (faults(final(errs)@), written_view(r@)) == program::functions_of(
            faults(old(errs)@),
            items_view(items@),
            0,
            seq![],
        ),
{
    let ghost start = faults(errs@);
    let ghost all = items_view(items@);
    let mut out: Vec<WrittenFn<'a>> = Vec::new();
    proof {
        assert(written_view(out@) =~= seq![]);
    }
    let mut i: usize = 0;
    while i < items.len()
        invariant
            i <= items@.len(),
            all == items_view(items@),
            program::functions_of(start, all, 0, seq![]) == program::functions_of(
                faults(errs@),
                all,
                i as int,
                written_view(out@),
            ),
        decreases items.len() - i,
    {
        proof {
            assert(all[i as int] == items@[i as int]@);
        }
        let ghost before = written_view(out@);
        match &items[i].kind {
            ItemKind::Fn(f) => {
                let one = WrittenFn { item: &items[i], f, owner: None };
                let ghost shown = one@;
                out.push(one);
                proof {
                    assert(written_view(out@) =~= before.push(shown));
                }
            },
            ItemKind::Impl(block) => {
                proof {
                    assert(items@[i as int].kind@->Impl_1 =~= items_view(block.methods@));
                }
                impl_attrs(errs, &items[i].attrs);
                methods_of(errs, &block.methods, block.ty.name.as_str(), &mut out);
            },
            _ => {},
        }
        i += 1;
    }
    out
}

impl Table {
    /// One declared parameter.
    fn param_sig(&mut self, param: &Param, generics: &Vec<GenericDef>) -> (r: ParamSig)
        ensures
            (final(self)@, r) == program::param_sig(
                old(self)@,
                param@,
                generics_view(generics@),
            ),
    {
        proof {
            reveal(program::param_sig);
        }
        match self.resolve_written(&param.ty, generics) {
            Some(ty) => {
                if ty.is_compile_time() {
                    let spelled = self.types.name_of(ty);
                    self.fault(
                        param.ty.span,
                        cat3(
                            "a ",
                            spelled.as_str(),
                            " exists only while compiling, so it cannot be passed; write it where it is used",
                        ),
                    );
                }
            },
            None => {},
        }
        match self.resolve_written(&param.ty, generics) {
            None => ParamSig { ty: Type::I32, borrow: None },
            Some(ty) => ParamSig { ty, borrow: param.ty.borrow },
        }
    }

    fn param_sigs(
        &mut self,
        params: &Vec<Param>,
        generics: &Vec<GenericDef>,
        first: Vec<ParamSig>,
    ) -> (r: Vec<ParamSig>)
        ensures
            (final(self)@, r@) == program::param_sigs(
                old(self)@,
                params_view(params@),
                0,
                generics_view(generics@),
                first@,
            ),
    {
        let ghost start = self@;
        let ghost all = params_view(params@);
        let ghost known = generics_view(generics@);
        let mut out = first;
        let mut i: usize = 0;
        while i < params.len()
            invariant
                i <= params@.len(),
                all == params_view(params@),
                known == generics_view(generics@),
                program::param_sigs(start, all, 0, known, first@) == program::param_sigs(
                    self@,
                    all,
                    i as int,
                    known,
                    out@,
                ),
            decreases params.len() - i,
        {
            proof {
                reveal(program::param_sigs);
                assert(all[i as int] == params@[i as int]@);
            }
            let one = self.param_sig(&params[i], generics);
            out.push(one);
            i += 1;
        }
        proof {
            reveal(program::param_sigs);
        }
        out
    }

    /// The receiver as the first parameter, with the type the `impl` block names.
    fn receiver_sig(&mut self, w: &WrittenFn) -> (r: Vec<ParamSig>)
        ensures
            (final(self)@, r@) == program::receiver_sig(old(self)@, w@),
    {
        proof {
            reveal(program::receiver_sig);
        }
        let mut out: Vec<ParamSig> = Vec::new();
        match w.f.receiver {
            None => {},
            Some(receiver) => {
                let ty = match w.owner {
                    Some(owner) => self.types.get(owner),
                    None => None,
                };
                match ty {
                    Some(ty) => {
                        out.push(ParamSig { ty, borrow: receiver.borrow });
                    },
                    None => {
                        self.error(
                            receiver.span,
                            "'self' is only a parameter inside an impl block for a known type",
                        );
                    },
                }
            },
        }
        proof {
            assert(out@ =~= program::receiver_sig(old(self)@, w@).1);
        }
        out
    }

    /// What a function returns.
    fn return_sig(&mut self, written: &Option<TypeName>, generics: &Vec<GenericDef>) -> (r: Option<
        Type,
    >)
        ensures
            (final(self)@, r) == program::return_sig(
                old(self)@,
                type_opt_view(*written),
                generics_view(generics@),
            ),
    {
        proof {
            reveal(program::return_sig);
        }
        match written {
            None => None,
            Some(written) => {
                let ret = self.resolve_written(written, generics);
                if written.borrow.is_some() {
                    self.error(
                        written.span,
                        "a reference cannot be returned: it is a name for a place in the caller, and the caller already has that name",
                    );
                }
                match ret {
                    Some(Type::Option(id)) => {
                        let inner = self.types.inner_at(id);
                        if inner.is_storage() {
                            let spelled = self.types.name_of(inner);
                            self.fault(
                                written.span,
                                cat3(
                                    "an Option<",
                                    spelled.as_str(),
                                    "> cannot come back from a function: the value half of a call's outcome is a single number",
                                ),
                            );
                        }
                    },
                    Some(ty) => {
                        if ty.is_storage() {
                            self.error(
                                written.span,
                                "returning a composite value is not implemented yet: a function's return value is a single number, so a compound has nowhere to come back in",
                            );
                        }
                    },
                    None => {},
                }
                ret
            },
        }
    }
}

fn any_borrowed(params: &Vec<ParamSig>) -> (r: bool)
    ensures
        r == program::any_borrowed(params@, 0),
{
    let mut i: usize = 0;
    while i < params.len()
        invariant
            i <= params@.len(),
            program::any_borrowed(params@, 0) == program::any_borrowed(params@, i as int),
        decreases params.len() - i,
    {
        if params[i].borrow.is_some() {
            return true;
        }
        i += 1;
    }
    false
}

/// The signatures collected so far, and the functions they belong to.
struct Sigs<'a> {
    t: Table,
    sigs: Vec<Signature>,
    fns: Vec<WrittenFn<'a>>,
    /// How many of them have an id of their own.
    concrete: usize,
}

impl<'a> Sigs<'a> {
    spec fn view(&self) -> program::Sigs {
        program::Sigs {
            t: self.t@,
            sigs: sigs_view(self.sigs@),
            fns: written_view(self.fns@),
            concrete: self.concrete as nat,
        }
    }

    fn has(&self, name: &str) -> (r: bool)
        ensures
            r == rules::has_sig(self@.sigs, name@),
    {
        let mut i: usize = 0;
        while i < self.sigs.len()
            invariant
                i <= self.sigs@.len(),
                rules::sig_at(self@.sigs, name@, 0) == rules::sig_at(self@.sigs, name@, i as int),
            decreases self.sigs.len() - i,
        {
            if crate::text::same(self.sigs[i].name.as_str(), name) {
                return true;
            }
            i += 1;
        }
        false
    }

    /// One more signature.
    fn add_sig(&mut self, w: WrittenFn<'a>)
        requires
            old(self).concrete <= old(self).sigs@.len(),
        ensures
            final(self)@ == program::add_sig(old(self)@, w@),
            final(self).concrete <= final(self).sigs@.len(),
    {
        proof {
            reveal(program::add_sig);
        }
        let ghost before = self@;
        let ghost shown_fn = w@;
        let name = w.full_name();
        if self.has(name.as_str()) {
            self.t.fault(
                w.f.name.span,
                cat3("a function named '", name.as_str(), "' is already defined"),
            );
            return;
        }
        let generics = GenericDef::collect(&w.f.generics);
        let first = self.t.receiver_sig(&w);
        let params = self.t.param_sigs(&w.f.params, &generics, first);
        let ret = self.t.return_sig(&w.f.ret, &generics);
        let plain = generics.len() == 0 && !any_borrowed(&params);
        let id = if plain {
            Some(FnId(self.concrete as u32))
        } else {
            None
        };
        let ctx = declared_ctx(&w.item.attrs);
        let item: usize = self.fns.len();
        let sig = Signature { name, id, generics, params, ret, ctx, item };
        let ghost shown = sig@;
        self.sigs.push(sig);
        self.fns.push(w);
        if plain && self.concrete < self.sigs.len() {
            self.concrete = self.concrete + 1;
        }
        proof {
            assert(self@.sigs =~= before.sigs.push(shown));
            assert(self@.fns =~= before.fns.push(shown_fn));
        }
    }
}

fn param_names(f: &FnItem) -> (r: Vec<String>)
    ensures
        texts(r@) == program::param_names(f@),
{
    let mut out: Vec<String> = Vec::new();
    if f.receiver.is_some() {
        out.push(own("self"));
    }
    let ghost first = texts(out@);
    let ghost written = Seq::new(f@.params.len(), |i: int| f@.params[i].name.name);
    let mut i: usize = 0;
    proof {
        assert(first + written.take(0) =~= first);
    }
    while i < f.params.len()
        invariant
            i <= f.params@.len(),
            written == Seq::new(f@.params.len(), |i: int| f@.params[i].name.name),
            texts(out@) == first + written.take(i as int),
        decreases f.params.len() - i,
    {
        let ghost before = texts(out@);
        let one = f.params[i].name.name.clone();
        let ghost shown = one@;
        out.push(one);
        proof {
            assert(texts(out@) =~= before.push(shown));
            assert(f@.params[i as int] == f.params@[i as int]@);
            assert(texts(out@) =~= first + written.take(i + 1));
        }
        i += 1;
    }
    proof {
        assert(texts(out@) =~= program::param_names(f@));
    }
    out
}

/// The contexts a function's attributes declare.
fn provided_by(attrs: &Vec<Attr>) -> (r: Vec<Ctx>)
    ensures
        r@ == program::provided_by(attrs_view(attrs@), attrs@.len() as int),
{
    let ghost all = attrs_view(attrs@);
    let mut out: Vec<Ctx> = Vec::new();
    let mut i: usize = 0;
    while i < attrs.len()
        invariant
            i <= attrs@.len(),
            all == attrs_view(attrs@),
            out@ == program::provided_by(all, i as int),
        decreases attrs.len() - i,
    {
        let ghost before = out@;
        proof {
            assert(all[i as int] == attrs@[i as int]@);
        }
        match &attrs[i] {
            Attr::Ctx(kinds) => {
                let mut k: usize = 0;
                while k < kinds.len()
                    invariant
                        k <= kinds@.len(),
                        out@ == before + kinds@.take(k as int),
                    decreases kinds.len() - k,
                {
                    out.push(kinds[k]);
                    proof {
                        assert(out@ =~= before + kinds@.take(k + 1));
                    }
                    k += 1;
                }
                proof {
                    assert(kinds@.take(k as int) =~= kinds@);
                }
            },
            _ => {
                proof {
                    assert(before + Seq::<Ctx>::empty() =~= before);
                }
            },
        }
        i += 1;
    }
    out
}

fn is_tagged(attrs: &Vec<Attr>) -> (r: bool)
    ensures
        r == program::is_tagged(attrs_view(attrs@), 0),
{
    let ghost all = attrs_view(attrs@);
    let mut i: usize = 0;
    while i < attrs.len()
        invariant
            i <= attrs@.len(),
            all == attrs_view(attrs@),
            program::is_tagged(all, 0) == program::is_tagged(all, i as int),
        decreases attrs.len() - i,
    {
        proof {
            assert(all[i as int] == attrs@[i as int]@);
        }
        match &attrs[i] {
            Attr::Tick | Attr::Load | Attr::Test => {
                return true;
            },
            _ => {},
        }
        i += 1;
    }
    false
}

fn is_test(attrs: &Vec<Attr>) -> (r: bool)
    ensures
        r == program::is_test(attrs_view(attrs@), 0),
{
    let ghost all = attrs_view(attrs@);
    let mut i: usize = 0;
    while i < attrs.len()
        invariant
            i <= attrs@.len(),
            all == attrs_view(attrs@),
            program::is_test(all, 0) == program::is_test(all, i as int),
        decreases attrs.len() - i,
    {
        proof {
            assert(all[i as int] == attrs@[i as int]@);
        }
        match &attrs[i] {
            Attr::Test => {
                return true;
            },
            _ => {},
        }
        i += 1;
    }
    false
}

fn copy_borrows(v: &Vec<Option<Place>>) -> (r: Vec<Option<Place>>)
    ensures
        borrows_view(r@) == borrows_view(v@),
{
    let mut out: Vec<Option<Place>> = Vec::new();
    let mut i: usize = 0;
    while i < v.len()
        invariant
            i <= v@.len(),
            out@.len() == i,
            forall|k: int|
                0 <= k < i ==> borrows_view(out@)[k] == #[trigger] borrows_view(v@)[k],
        decreases v.len() - i,
    {
        let ghost before = borrows_view(out@);
        let one = match &v[i] {
            Some(place) => Some(place.copy()),
            None => None,
        };
        out.push(one);
        proof {
            assert forall|k: int| 0 <= k < i + 1 implies borrows_view(out@)[k]
                == #[trigger] borrows_view(v@)[k] by {
                if k < i {
                    assert(before[k] == borrows_view(v@)[k]);
                    assert(borrows_view(out@)[k] == before[k]);
                }
            }
        }
        i += 1;
    }
    proof {
        assert(borrows_view(out@) =~= borrows_view(v@));
    }
    out
}

impl Lowering {
    /// The parameters declared as bindings. A borrowed one stands for the caller's place,
    /// and nothing is written before the call.
    fn declare_params(
        &mut self,
        names: &Vec<String>,
        params: &Vec<ParamSig>,
        borrows: &Vec<Option<Place>>,
    ) -> (r: Vec<LocalId>)
        ensures
            (final(self)@, r@) == program::declare_params(
                old(self)@,
                texts(names@),
                params@,
                borrows_view(borrows@),
                0,
                seq![],
            ),
    {
        let ghost start = self@;
        let ghost all = texts(names@);
        let ghost lent = borrows_view(borrows@);
        let mut out: Vec<LocalId> = Vec::new();
        let mut i: usize = 0;
        while i < params.len() && i < names.len()
            invariant
                i <= params@.len(),
                all == texts(names@),
                lent == borrows_view(borrows@),
                program::declare_params(start, all, params@, lent, 0, seq![])
                    == program::declare_params(self@, all, params@, lent, i as int, out@),
            decreases params.len() - i,
        {
            proof {
                reveal(program::declare_params);
            }
            let name = names[i].as_str();
            let local = self.declare(name, params[i].ty, false);
            match params[i].borrow {
                None => {
                    out.push(local);
                },
                Some(borrow) => {
                    if i < borrows.len() {
                        match &borrows[i] {
                            Some(place) => {
                                let mut lent_place = place.copy();
                                proof {
                                    lent_place.unfold();
                                }
                                lent_place.mutable = borrow == Borrow::Mutable;
                                lent_place.via = own(name);
                                proof {
                                    lent_place.unfold();
                                }
                                self.alias(local, lent_place);
                            },
                            None => {},
                        }
                    }
                },
            }
            i += 1;
        }
        proof {
            reveal(program::declare_params);
        }
        out
    }

    /// What a function tag or a test runner cannot give a function that asks for it.
    fn check_attrs(&mut self, f: &FnItem, attrs: &Vec<Attr>)
        ensures
            final(self)@ == program::check_attrs(old(self)@, f@, attrs_view(attrs@)),
    {
        proof {
            reveal(program::check_attrs);
        }
        if is_tagged(attrs) && self.any_provided() {
            self.error(
                f.name.span,
                "a #[tick], #[load] or #[test] function cannot require a context: it is invoked with no executor, so it would silently do nothing",
            );
        }
        if is_test(attrs) && (f.params.len() > 0 || f.ret.is_some()) {
            self.error(
                f.name.span,
                "a #[test] function takes no arguments and returns nothing: it is called on its own",
            );
        }
    }

    /// One function.
    fn lower_function(
        &mut self,
        env: &Frame,
        w: &WrittenFn,
        id: FnId,
        params: &Vec<ParamSig>,
        borrows: &Vec<Option<Place>>,
    ) -> (r: Function)
        ensures
            (final(self)@, r@) == program::lower_function(
                env@,
                old(self)@,
                w@,
                id,
                params@,
                borrows_view(borrows@),
            ),
    {
        proof {
            reveal(program::lower_function);
            assert(w.f.body@.stmts =~= crate::syntax::ast::stmts_view(w.f.body.stmts@));
        }
        self.fresh();
        let attrs = self.attrs_of(&w.item.attrs);
        self.set_provided(provided_by(&attrs));
        self.check_attrs(w.f, &attrs);
        let names = param_names(w.f);
        let declared = self.declare_params(&names, params, borrows);
        let body = self.block(env, &w.f.body.stmts);
        if env.ret.is_some() && !always_returns(&body) {
            self.error(
                w.f.name.span,
                "this function can reach its end without returning a value",
            );
        }
        Function {
            id,
            name: env.function.clone(),
            path: cat3(env.namespace, ":", env.function.as_str()),
            attrs,
            params: declared,
            ret: env.ret,
            locals: self.locals(),
            body,
            span: w.item.span,
        }
    }

    /// The parameters of an instance.
    fn instance_params(&mut self, params: &Vec<ParamSig>, args: &Vec<Type>) -> (r: Vec<ParamSig>)
        ensures
            ({
                let (types, made) = program::instance_params(
                    old(self)@.types,
                    params@,
                    0,
                    args@,
                    seq![],
                );
                final(self)@ == (rules::Cx { types, ..old(self)@ }) && r@ == made
            }),
    {
        let ghost start = self@;
        let mut out: Vec<ParamSig> = Vec::new();
        let mut i: usize = 0;
        while i < params.len()
            invariant
                i <= params@.len(),
                self@ == (rules::Cx { types: self@.types, ..start }),
                program::instance_params(start.types, params@, 0, args@, seq![])
                    == program::instance_params(self@.types, params@, i as int, args@, out@),
            decreases params.len() - i,
        {
            proof {
                reveal(program::instance_params);
            }
            let ty = self.substitute(params[i].ty, args);
            out.push(ParamSig { ty, borrow: params[i].borrow });
            i += 1;
        }
        proof {
            reveal(program::instance_params);
        }
        out
    }

    /// One instance.
    fn lower_instance(&mut self, base: &Frame, fns: &Vec<WrittenFn>, p: &Pending) -> (r: Option<
        Function,
    >)
        ensures
            (
                final(self)@,
                match r {
                    Some(f) => Some(f@),
                    None => None,
                },
            ) == program::lower_instance(base@, old(self)@, written_view(fns@), p@),
    {
        proof {
            reveal(program::lower_instance);
        }
        if p.item >= base.sigs.len() || p.item >= fns.len() {
            return None;
        }
        let sig = &base.sigs[p.item];
        let params = self.instance_params(&sig.params, &p.args);
        let ret = match sig.ret {
            Some(ty) => Some(self.substitute(ty, &p.args)),
            None => None,
        };
        let env = Frame {
            namespace: base.namespace,
            function: p.name.clone(),
            type_params: bound_generics(&sig.generics, &p.args),
            ret,
            sigs: base.sigs,
            toolchain: base.toolchain,
            concrete: base.concrete,
        };
        Some(self.lower_function(&env, &fns[p.item], p.id, &params, &p.borrows))
    }
}

/// The type parameters of an instance bound to what it was asked for.
fn bound_generics(generics: &Vec<GenericDef>, args: &Vec<Type>) -> (r: Vec<(String, Type)>)
    ensures
        entries_view(r@) == program::bound_generics(generics_view(generics@), args@),
{
    let mut out: Vec<(String, Type)> = Vec::new();
    let mut i: usize = 0;
    while i < generics.len() && i < args.len()
        invariant
            i <= generics@.len(),
            i <= args@.len(),
            out@.len() == i,
            forall|k: int|
                0 <= k < i ==> (#[trigger] out@[k]).0@ == generics@[k].name@ && out@[k].1
                    == args@[k],
        decreases generics.len() - i,
    {
        out.push((generics[i].name.clone(), args[i]));
        i += 1;
    }
    proof {
        assert(entries_view(out@) =~= program::bound_generics(generics_view(generics@), args@));
    }
    out
}

fn copy_pending(p: &Pending) -> (r: Pending)
    ensures
        r@ == p@,
{
    let mut lent: Vec<String> = Vec::new();
    let mut i: usize = 0;
    while i < p.lent.len()
        invariant
            i <= p.lent@.len(),
            lent@.len() == i,
            forall|k: int| 0 <= k < i ==> (#[trigger] lent@[k])@ == p.lent@[k]@,
        decreases p.lent.len() - i,
    {
        lent.push(p.lent[i].clone());
        i += 1;
    }
    proof {
        assert(texts(lent@) =~= texts(p.lent@));
    }
    Pending {
        id: p.id,
        item: p.item,
        args: copy_types(&p.args),
        borrows: copy_borrows(&p.borrows),
        lent,
        name: p.name.clone(),
    }
}

/// What the commands of a toolchain are, where there is one.
pub open spec fn toolchain_view(toolchain: Option<&Schema>) -> Option<
    Seq<crate::schema::Command>,
> {
    match toolchain {
        Some(schema) => Some(schema@),
        None => None,
    }
}

/// Lowers a file: its program, and everything wrong with it.
pub fn lower(file: &SourceFile, namespace: &str, toolchain: Option<&Schema>) -> (r: (
    Hir,
    Vec<SyntaxError>,
))
    ensures
        (r.0@, faults(r.1@)) == program::lowered(file@, namespace@, toolchain_view(toolchain)),
        tidy(r.0.types@),
        fitting(r.0.types@),
{
    proof {
        reveal(program::lowered);
        assert(file@.len() == file.items.len());
        lemma_every_table_is_tidy(file@, namespace@, toolchain_view(toolchain));
    }
    let mut table = collect_types(&file.items);
    let written = functions_of(&mut table.errs, &file.items);
    let mut sigs = Sigs { t: table, sigs: Vec::new(), fns: Vec::new(), concrete: 0 };
    let ghost start = sigs@;
    let ghost all = written_view(written@);
    proof {
        assert(start.sigs =~= seq![]);
        assert(start.fns =~= seq![]);
    }
    let mut i: usize = 0;
    while i < written.len()
        invariant
            i <= written@.len(),
            all == written_view(written@),
            sigs.concrete <= sigs.sigs@.len(),
            program::add_sigs(start, all, 0) == program::add_sigs(sigs@, all, i as int),
        decreases written.len() - i,
    {
        proof {
            reveal(program::add_sigs);
            assert(all[i as int] == written@[i as int]@);
        }
        let w = WrittenFn {
            item: written[i].item,
            f: written[i].f,
            owner: written[i].owner,
        };
        sigs.add_sig(w);
        i += 1;
    }
    proof {
        reveal(program::add_sigs);
    }
    let base = Frame {
        namespace,
        function: String::new(),
        type_params: Vec::new(),
        ret: None,
        sigs: &sigs.sigs,
        toolchain,
        concrete: sigs.concrete as u32,
    };
    proof {
        assert(base@.function =~= seq![]);
        assert(base@.type_params =~= seq![]);
    }
    let mut cx = Lowering::start(sigs.t);
    cx.fresh();
    let functions = lower_concrete(&base, &mut cx, &sigs.fns);
    let functions = lower_pending(&base, &mut cx, &sigs.fns, functions);
    let (table, references) = cx.finish();
    (Hir { functions, types: table.types, references }, table.errs)
}

/// The functions with an id of their own.
fn lower_concrete(base: &Frame, cx: &mut Lowering, fns: &Vec<WrittenFn>) -> (r: Vec<Function>)
    ensures
        (final(cx)@, functions_view(r@)) == program::lower_concrete(
            base@,
            old(cx)@,
            written_view(fns@),
            0,
            seq![],
        ),
{
    let ghost start = cx@;
    let ghost all = written_view(fns@);
    let none: Vec<Option<Place>> = Vec::new();
    let mut out: Vec<Function> = Vec::new();
    proof {
        assert(borrows_view(none@) =~= seq![]);
        assert(functions_view(out@) =~= seq![]);
    }
    let mut i: usize = 0;
    while i < base.sigs.len() && i < fns.len()
        invariant
            i <= base.sigs@.len(),
            all == written_view(fns@),
            borrows_view(none@) == Seq::<Option<crate::hir::model::Place>>::empty(),
            program::lower_concrete(base@, start, all, 0, seq![]) == program::lower_concrete(
                base@,
                cx@,
                all,
                i as int,
                functions_view(out@),
            ),
        decreases base.sigs.len() - i,
    {
        proof {
            reveal(program::lower_concrete);
            assert(all[i as int] == fns@[i as int]@);
            assert(base@.sigs[i as int] == base.sigs@[i as int]@);
        }
        let sig = &base.sigs[i];
        match sig.id {
            None => {},
            Some(id) => {
                let env = Frame {
                    namespace: base.namespace,
                    function: path_of(sig.name.as_str()),
                    type_params: Vec::new(),
                    ret: sig.ret,
                    sigs: base.sigs,
                    toolchain: base.toolchain,
                    concrete: base.concrete,
                };
                proof {
                    assert(env@.type_params =~= seq![]);
                }
                let f = cx.lower_function(&env, &fns[i], id, &sig.params, &none);
                let ghost before = functions_view(out@);
                let ghost shown = f@;
                out.push(f);
                proof {
                    assert(functions_view(out@) =~= before.push(shown));
                }
            },
        }
        i += 1;
    }
    proof {
        reveal(program::lower_concrete);
    }
    out
}

/// The instances, in the order they were asked for. Lowering one can ask for more.
fn lower_pending(base: &Frame, cx: &mut Lowering, fns: &Vec<WrittenFn>, first: Vec<Function>) -> (r:
    Vec<Function>)
    ensures
        (final(cx)@, functions_view(r@)) == program::lower_pending(
            base@,
            old(cx)@,
            written_view(fns@),
            0,
            functions_view(first@),
        ),
{
    let ghost start = cx@;
    let ghost all = written_view(fns@);
    let mut out = first;
    let mut at: usize = 0;
    while at < cx.pending().len() && at < u32::MAX as usize
        invariant
            at <= u32::MAX,
            all == written_view(fns@),
            program::lower_pending(base@, start, all, 0, functions_view(first@))
                == program::lower_pending(base@, cx@, all, at as int, functions_view(out@)),
        decreases u32::MAX - at,
    {
        proof {
            reveal(program::lower_pending);
        }
        let one = copy_pending(&cx.pending()[at]);
        proof {
            assert(one@ == cx@.pending[at as int]);
        }
        match cx.lower_instance(base, fns, &one) {
            Some(f) => {
                let ghost before = functions_view(out@);
                let ghost shown = f@;
                out.push(f);
                proof {
                    assert(functions_view(out@) =~= before.push(shown));
                }
            },
            None => {},
        }
        at += 1;
    }
    proof {
        reveal(program::lower_pending);
    }
    out
}

} // verus!
