//! From the syntax tree to the high-level representation.

use vstd::prelude::*;

use crate::hir::model;
use crate::hir::rules;
use crate::hir::types::{entries_view, find_entry, lookup};
use crate::hir::{
    generics_view, locals_view, references_view, Ctx, FnId, GenericDef, Local, LocalId, ParamSig,
    Place, Reference, Type, Types,
};
use crate::schema::Schema;
use crate::syntax::Span;
use crate::text::{own, same, texts};

mod checks;
mod collect;
mod exprs;
mod growth;
mod literals;
mod program;
mod stmts;
mod types;
mod values;

pub use program::{lower, toolchain_view};
pub(crate) use types::Table;

verus! {

/// A function's shape, known before any body is lowered so that a call can be checked
/// no matter which order the two were written in.
pub(crate) struct Signature {
    pub(crate) name: String,
    /// The id of the one function this name means, or `None` for a template.
    pub(crate) id: Option<FnId>,
    pub(crate) generics: Vec<GenericDef>,
    pub(crate) params: Vec<ParamSig>,
    pub(crate) ret: Option<Type>,
    /// What the function requires of its caller, from `#[ctx(..)]`.
    pub(crate) ctx: Vec<Ctx>,
    /// Where among the functions of the file the body stands.
    pub(crate) item: usize,
}

impl Signature {
    pub(crate) open spec fn view(&self) -> rules::Sig {
        rules::Sig {
            name: self.name@,
            id: self.id,
            generics: generics_view(self.generics@),
            params: self.params@,
            ret: self.ret,
            ctx: self.ctx@,
            item: self.item,
        }
    }
}

pub(crate) open spec fn sigs_view(v: Seq<Signature>) -> Seq<rules::Sig> {
    Seq::new(v.len(), |i: int| v[i]@)
}

/// An instance that was asked for.
pub(crate) struct Pending {
    pub(crate) id: FnId,
    pub(crate) item: usize,
    pub(crate) args: Vec<Type>,
    /// What each borrowed parameter was lent, in parameter order.
    pub(crate) borrows: Vec<Option<Place>>,
    /// How what is borrowed is told apart.
    pub(crate) lent: Vec<String>,
    /// The name the instance is emitted under.
    pub(crate) name: String,
}

pub(crate) open spec fn borrows_view(v: Seq<Option<Place>>) -> Seq<Option<model::Place>> {
    Seq::new(
        v.len(),
        |i: int|
            match v[i] {
                Some(place) => Some(place@),
                None => None,
            },
    )
}

impl Pending {
    pub(crate) open spec fn view(&self) -> rules::Pending {
        rules::Pending {
            id: self.id,
            item: self.item,
            args: self.args@,
            borrows: borrows_view(self.borrows@),
            lent: texts(self.lent@),
            name: self.name@,
        }
    }
}

pub(crate) open spec fn pending_view(v: Seq<Pending>) -> Seq<rules::Pending> {
    Seq::new(v.len(), |i: int| v[i]@)
}

/// What stays the same while one function is lowered.
pub(crate) struct Frame<'a> {
    pub(crate) namespace: &'a str,
    /// The name of the function being lowered.
    pub(crate) function: String,
    /// The type parameters of the instance being lowered, already concrete.
    pub(crate) type_params: Vec<(String, Type)>,
    pub(crate) ret: Option<Type>,
    pub(crate) sigs: &'a Vec<Signature>,
    /// The commands of the configured Minecraft version, if there is one.
    pub(crate) toolchain: Option<&'a Schema>,
    /// How many functions have an id of their own; instances are numbered after them.
    pub(crate) concrete: u32,
}

impl<'a> Frame<'a> {
    pub(crate) open spec fn view(&self) -> rules::Env {
        rules::Env {
            namespace: self.namespace@,
            function: self.function@,
            type_params: entries_view(self.type_params@),
            ret: self.ret,
            sigs: sigs_view(self.sigs@),
            toolchain: match self.toolchain {
                Some(schema) => Some(schema@),
                None => None,
            },
            concrete: self.concrete,
        }
    }

    /// The position of the signature of that name, or their number.
    pub(crate) fn find_sig(&self, name: &str) -> (r: usize)
        ensures
            r == rules::sig_at(self@.sigs, name@, 0),
            r <= self.sigs@.len(),
    {
        let mut i: usize = 0;
        while i < self.sigs.len() && !same(self.sigs[i].name.as_str(), name)
            invariant
                i <= self.sigs@.len(),
                rules::sig_at(self@.sigs, name@, 0) == rules::sig_at(self@.sigs, name@, i as int),
            decreases self.sigs.len() - i,
        {
            i += 1;
        }
        i
    }

    pub(crate) fn has_sig(&self, name: &str) -> (r: bool)
        ensures
            r == rules::has_sig(self@.sigs, name@),
    {
        self.find_sig(name) < self.sigs.len()
    }

    pub(crate) fn type_param(&self, name: &str) -> (r: Option<Type>)
        ensures
            r == lookup(self@.type_params, name@),
    {
        find_entry(&self.type_params, name)
    }
}

pub(crate) open spec fn aliases_view(v: Seq<(LocalId, Place)>) -> Seq<(LocalId, model::Place)> {
    Seq::new(v.len(), |i: int| (v[i].0, v[i].1@))
}

pub(crate) open spec fn selectors_view(v: Seq<(LocalId, String)>) -> Seq<(LocalId, Seq<char>)> {
    Seq::new(v.len(), |i: int| (v[i].0, v[i].1@))
}

pub(crate) open spec fn scopes_view(v: Seq<Vec<(String, LocalId)>>) -> Seq<
    Seq<(Seq<char>, LocalId)>,
> {
    Seq::new(v.len(), |i: int| entries_view(v[i]@))
}

/// The state of a lowering.
pub(crate) struct Lowering {
    table: Table,
    pending: Vec<Pending>,
    refs: Vec<Reference>,
    locals: Vec<Local>,
    aliases: Vec<(LocalId, Place)>,
    selectors: Vec<(LocalId, String)>,
    scopes: Vec<Vec<(String, LocalId)>>,
    expected: Option<Type>,
    provided: Vec<Ctx>,
    in_loop: bool,
}

impl Lowering {
    #[verifier::opaque]
    pub(crate) closed spec fn view(&self) -> rules::Cx {
        rules::Cx {
            types: self.table@.types,
            pending: pending_view(self.pending@),
            refs: references_view(self.refs@),
            errs: self.table@.errs,
            locals: locals_view(self.locals@),
            aliases: aliases_view(self.aliases@),
            selectors: selectors_view(self.selectors@),
            scopes: scopes_view(self.scopes@),
            expected: self.expected,
            provided: self.provided@,
            in_loop: self.in_loop,
        }
    }

    /// A lowering in which nothing was lowered yet.
    pub(crate) fn start(table: Table) -> (r: Lowering)
        ensures
            r@ == (rules::Cx {
                types: table@.types,
                pending: seq![],
                refs: seq![],
                errs: table@.errs,
                locals: seq![],
                aliases: seq![],
                selectors: seq![],
                scopes: seq![],
                expected: None,
                provided: seq![],
                in_loop: false,
            }),
    {
        let r = Lowering {
            table,
            pending: Vec::new(),
            refs: Vec::new(),
            locals: Vec::new(),
            aliases: Vec::new(),
            selectors: Vec::new(),
            scopes: Vec::new(),
            expected: None,
            provided: Vec::new(),
            in_loop: false,
        };
        proof {
            reveal(Lowering::view);
            assert(r@.pending =~= seq![]);
            assert(r@.refs =~= seq![]);
            assert(r@.locals =~= seq![]);
            assert(r@.aliases =~= seq![]);
            assert(r@.selectors =~= seq![]);
            assert(r@.scopes =~= seq![]);
            assert(r@.provided =~= seq![]);
        }
        r
    }

    pub(crate) fn types(&self) -> (r: &Types)
        ensures
            r@ == self@.types,
    {
        proof {
            reveal(Lowering::view);
        }
        &self.table.types
    }

    /// How a diagnostic spells a type.
    pub(crate) fn name(&self, ty: Type) -> (r: String)
        ensures
            r@ == self@.ty(ty),
    {
        proof {
            reveal(Lowering::view);
        }
        self.table.types.name_of(ty)
    }

    /// Records a problem.
    pub(crate) fn fault(&mut self, span: Span, message: String)
        ensures
            final(self)@ == old(self)@.fault(span, message@),
    {
        proof {
            reveal(Lowering::view);
        }
        self.table.fault(span, message);
    }

    /// Records a problem whose message is always the same.
    pub(crate) fn error(&mut self, span: Span, message: &str)
        ensures
            final(self)@ == old(self)@.fault(span, message@),
    {
        self.fault(span, own(message))
    }

    pub(crate) fn enter(&mut self)
        ensures
            final(self)@ == old(self)@.enter(),
    {
        proof {
            reveal(Lowering::view);
        }
        let ghost before = self@;
        let scope: Vec<(String, LocalId)> = Vec::new();
        proof {
            assert(entries_view(scope@) =~= seq![]);
        }
        self.scopes.push(scope);
        proof {
            assert(self@.scopes =~= before.enter().scopes);
        }
    }

    pub(crate) fn leave(&mut self)
        ensures
            final(self)@ == old(self)@.leave(),
    {
        proof {
            reveal(Lowering::view);
        }
        let ghost before = self@;
        let _ = self.scopes.pop();
        proof {
            assert(self@.scopes =~= before.leave().scopes);
        }
    }

    /// A new binding in the innermost scope.
    pub(crate) fn declare(&mut self, name: &str, ty: Type, mutable: bool) -> (r: LocalId)
        ensures
            r == old(self)@.next_local(),
            final(self)@ == old(self)@.declare(name@, ty, mutable),
    {
        proof {
            reveal(Lowering::view);
        }
        let ghost before = self@;
        let id = LocalId(self.locals.len() as u32);
        self.locals.push(Local { id, name: own(name), ty, mutable });
        match self.scopes.pop() {
            Some(scope) => {
                let mut scope = scope;
                let ghost held = entries_view(scope@);
                scope.push((own(name), id));
                proof {
                    assert(entries_view(scope@) =~= held.push((name@, id)));
                }
                self.scopes.push(scope);
            },
            None => {},
        }
        proof {
            assert(self@.locals =~= before.declare(name@, ty, mutable).locals);
            assert(self@.scopes =~= before.declare(name@, ty, mutable).scopes);
        }
        id
    }

    pub(crate) fn local_name(&self, local: LocalId) -> (r: String)
        ensures
            r@ == self@.local(local).name,
    {
        proof {
            reveal(Lowering::view);
        }
        if (local.0 as usize) < self.locals.len() {
            self.locals[local.0 as usize].name.clone()
        } else {
            let r = String::new();
            proof {
                assert(r@ =~= seq![]);
            }
            r
        }
    }

    pub(crate) fn local_type(&self, local: LocalId) -> (r: Type)
        ensures
            r == self@.local(local).ty,
    {
        proof {
            reveal(Lowering::view);
        }
        if (local.0 as usize) < self.locals.len() {
            self.locals[local.0 as usize].ty
        } else {
            Type::I32
        }
    }

    pub(crate) fn local_mutable(&self, local: LocalId) -> (r: bool)
        ensures
            r == self@.local(local).mutable,
    {
        proof {
            reveal(Lowering::view);
        }
        if (local.0 as usize) < self.locals.len() {
            self.locals[local.0 as usize].mutable
        } else {
            false
        }
    }

    /// The binding a name stands for, innermost scope first.
    pub(crate) fn resolve_name(&self, name: &str) -> (r: Option<LocalId>)
        ensures
            r == rules::resolve_name(self@.scopes, name@),
    {
        proof {
            reveal(Lowering::view);
        }
        let mut i: usize = self.scopes.len();
        proof {
            assert(self@.scopes.take(i as int) =~= self@.scopes);
        }
        while i > 0
            invariant
                i <= self.scopes@.len(),
                self@.scopes == scopes_view(self.scopes@),
                rules::resolve_name(self@.scopes, name@) == rules::resolve_name(
                    self@.scopes.take(i as int),
                    name@,
                ),
            decreases i,
        {
            proof {
                let upto = self@.scopes.take(i as int);
                assert(upto.last() == entries_view(self.scopes@[i - 1]@));
                assert(upto.drop_last() =~= self@.scopes.take(i - 1));
            }
            let found = find_entry(&self.scopes[i - 1], name);
            if found.is_some() {
                return found;
            }
            i -= 1;
        }
        None
    }

    /// The place a binding names, where it is not its own.
    pub(crate) fn alias_of(&self, local: LocalId) -> (r: Option<&Place>)
        ensures
            match r {
                Some(place) => rules::entry_of(self@.aliases, local) == Some(place@),
                None => rules::entry_of(self@.aliases, local) is None,
            },
    {
        proof {
            reveal(Lowering::view);
        }
        let mut i: usize = self.aliases.len();
        proof {
            assert(self@.aliases.take(i as int) =~= self@.aliases);
        }
        while i > 0
            invariant
                i <= self.aliases@.len(),
                self@.aliases == aliases_view(self.aliases@),
                rules::entry_of(self@.aliases, local) == rules::entry_of(
                    self@.aliases.take(i as int),
                    local,
                ),
            decreases i,
        {
            proof {
                let upto = self@.aliases.take(i as int);
                assert(upto.last() == (self.aliases@[i - 1].0, self.aliases@[i - 1].1@));
                assert(upto.drop_last() =~= self@.aliases.take(i - 1));
            }
            if self.aliases[i - 1].0 == local {
                return Some(&self.aliases[i - 1].1);
            }
            i -= 1;
        }
        None
    }

    /// The selector a binding stands for.
    pub(crate) fn selector_alias(&self, local: LocalId) -> (r: Option<&String>)
        ensures
            match r {
                Some(text) => rules::entry_of(self@.selectors, local) == Some(text@),
                None => rules::entry_of(self@.selectors, local) is None,
            },
    {
        proof {
            reveal(Lowering::view);
        }
        let mut i: usize = self.selectors.len();
        proof {
            assert(self@.selectors.take(i as int) =~= self@.selectors);
        }
        while i > 0
            invariant
                i <= self.selectors@.len(),
                self@.selectors == selectors_view(self.selectors@),
                rules::entry_of(self@.selectors, local) == rules::entry_of(
                    self@.selectors.take(i as int),
                    local,
                ),
            decreases i,
        {
            proof {
                let upto = self@.selectors.take(i as int);
                assert(upto.last() == (self.selectors@[i - 1].0, self.selectors@[i - 1].1@));
                assert(upto.drop_last() =~= self@.selectors.take(i - 1));
            }
            if self.selectors[i - 1].0 == local {
                return Some(&self.selectors[i - 1].1);
            }
            i -= 1;
        }
        None
    }

    pub(crate) fn alias(&mut self, local: LocalId, place: Place)
        ensures
            final(self)@ == old(self)@.alias(local, place@),
    {
        proof {
            reveal(Lowering::view);
        }
        let ghost before = self@;
        self.aliases.push((local, place));
        proof {
            assert(self@.aliases =~= before.alias(local, place@).aliases);
        }
    }

    pub(crate) fn select(&mut self, local: LocalId, text: String)
        ensures
            final(self)@ == old(self)@.select(local, text@),
    {
        proof {
            reveal(Lowering::view);
        }
        let ghost before = self@;
        self.selectors.push((local, text));
        proof {
            assert(self@.selectors =~= before.select(local, text@).selectors);
        }
    }

    pub(crate) fn expected(&self) -> (r: Option<Type>)
        ensures
            r == self@.expected,
    {
        proof {
            reveal(Lowering::view);
        }
        self.expected
    }

    pub(crate) fn expecting(&mut self, want: Option<Type>)
        ensures
            final(self)@ == old(self)@.expecting(want),
    {
        proof {
            reveal(Lowering::view);
        }
        self.expected = want;
    }

    pub(crate) fn in_loop(&self) -> (r: bool)
        ensures
            r == self@.in_loop,
    {
        proof {
            reveal(Lowering::view);
        }
        self.in_loop
    }

    pub(crate) fn set_in_loop(&mut self, in_loop: bool)
        ensures
            final(self)@ == (rules::Cx { in_loop, ..old(self)@ }),
    {
        proof {
            reveal(Lowering::view);
        }
        self.in_loop = in_loop;
    }

    /// Whether a context is available here.
    pub(crate) fn has_ctx(&self, ctx: Ctx) -> (r: bool)
        ensures
            r == self@.provided.contains(ctx),
    {
        proof {
            reveal(Lowering::view);
        }
        let mut i: usize = 0;
        while i < self.provided.len()
            invariant
                i <= self.provided@.len(),
                self@.provided == self.provided@,
                forall|k: int| 0 <= k < i ==> self.provided@[k] != ctx,
            decreases self.provided.len() - i,
        {
            if self.provided[i] == ctx {
                proof {
                    assert(self@.provided[i as int] == ctx);
                }
                return true;
            }
            i += 1;
        }
        false
    }

    pub(crate) fn any_provided(&self) -> (r: bool)
        ensures
            r == (self@.provided.len() > 0),
    {
        proof {
            reveal(Lowering::view);
        }
        self.provided.len() > 0
    }

    pub(crate) fn push_ctx(&mut self, ctx: Ctx)
        ensures
            final(self)@ == (rules::Cx {
                provided: old(self)@.provided.push(ctx),
                ..old(self)@
            }),
    {
        proof {
            reveal(Lowering::view);
        }
        self.provided.push(ctx);
    }

    pub(crate) fn pop_ctx(&mut self)
        ensures
            final(self)@ == (rules::Cx {
                provided: if old(self)@.provided.len() > 0 {
                    old(self)@.provided.drop_last()
                } else {
                    old(self)@.provided
                },
                ..old(self)@
            }),
    {
        proof {
            reveal(Lowering::view);
        }
        let _ = self.provided.pop();
    }

    pub(crate) fn set_provided(&mut self, provided: Vec<Ctx>)
        ensures
            final(self)@ == (rules::Cx { provided: provided@, ..old(self)@ }),
    {
        proof {
            reveal(Lowering::view);
        }
        self.provided = provided;
    }

    pub(crate) fn add_reference(&mut self, reference: Reference)
        ensures
            final(self)@ == (rules::Cx { refs: old(self)@.refs.push(reference@), ..old(self)@ }),
    {
        proof {
            reveal(Lowering::view);
        }
        let ghost before = self@;
        self.refs.push(reference);
        proof {
            assert(self@.refs =~= before.refs.push(reference@));
        }
    }

    pub(crate) fn error_count(&self) -> (r: usize)
        ensures
            r == self@.errs.len(),
    {
        proof {
            reveal(Lowering::view);
        }
        self.table.errs.len()
    }

    /// Forgets the problems after the first `n`.
    pub(crate) fn forget_errors(&mut self, n: usize)
        ensures
            final(self)@ == (rules::Cx {
                errs: rules::stmts::kept(old(self)@.errs, n as nat),
                ..old(self)@
            }),
    {
        proof {
            reveal(Lowering::view);
        }
        let ghost before = self@;
        if n <= self.table.errs.len() {
            self.table.errs.truncate(n);
        }
        proof {
            assert(self@.errs =~= rules::stmts::kept(before.errs, n as nat));
        }
    }

    pub(crate) fn pending(&self) -> (r: &Vec<Pending>)
        ensures
            pending_view(r@) == self@.pending,
    {
        proof {
            reveal(Lowering::view);
        }
        &self.pending
    }

    pub(crate) fn add_pending(&mut self, one: Pending)
        ensures
            final(self)@ == (rules::Cx {
                pending: old(self)@.pending.push(one@),
                ..old(self)@
            }),
    {
        proof {
            reveal(Lowering::view);
        }
        let ghost before = self@;
        self.pending.push(one);
        proof {
            assert(self@.pending =~= before.pending.push(one@));
        }
    }

    pub(crate) fn option_of(&mut self, inner: Type) -> (r: Type)
        ensures
            final(self)@ == (rules::Cx {
                types: crate::hir::types::option_type(old(self)@.types, inner).0,
                ..old(self)@
            }),
            r == crate::hir::types::option_type(old(self)@.types, inner).1,
    {
        proof {
            reveal(Lowering::view);
        }
        self.table.types.option_of(inner)
    }

    pub(crate) fn vec_of(&mut self, elem: Type) -> (r: Type)
        ensures
            final(self)@ == (rules::Cx {
                types: crate::hir::types::vec_type(old(self)@.types, elem).0,
                ..old(self)@
            }),
            r == crate::hir::types::vec_type(old(self)@.types, elem).1,
    {
        proof {
            reveal(Lowering::view);
        }
        self.table.types.vec_of(elem)
    }

    pub(crate) fn instantiate(&mut self, name: &str, args: &Vec<Type>) -> (r: Option<Type>)
        ensures
            ({
                let (types, ty) = crate::hir::types::instantiated(
                    old(self)@.types,
                    name@,
                    args@,
                );
                final(self)@ == (rules::Cx { types, ..old(self)@ }) && r == ty
            }),
    {
        proof {
            reveal(Lowering::view);
        }
        self.table.types.instantiate(name, args)
    }

    pub(crate) fn substitute(&mut self, ty: Type, args: &Vec<Type>) -> (r: Type)
        ensures
            ({
                let (types, made) = crate::hir::types::substituted(
                    old(self)@.types,
                    ty,
                    args@,
                );
                final(self)@ == (rules::Cx { types, ..old(self)@ }) && r == made
            }),
    {
        proof {
            reveal(Lowering::view);
        }
        self.table.types.substitute(ty, args)
    }

    /// Begins another function.
    pub(crate) fn fresh(&mut self)
        ensures
            final(self)@ == rules::program::fresh(old(self)@),
    {
        proof {
            reveal(Lowering::view);
        }
        self.locals = Vec::new();
        self.aliases = Vec::new();
        self.selectors = Vec::new();
        self.scopes = Vec::new();
        self.expected = None;
        self.provided = Vec::new();
        self.in_loop = false;
        proof {
            assert(self@.locals =~= seq![]);
            assert(self@.aliases =~= seq![]);
            assert(self@.selectors =~= seq![]);
            assert(self@.scopes =~= seq![]);
            assert(self@.provided =~= seq![]);
        }
        self.enter();
    }

    /// The bindings declared so far.
    pub(crate) fn locals(&self) -> (r: Vec<Local>)
        ensures
            locals_view(r@) == self@.locals,
    {
        proof {
            reveal(Lowering::view);
        }
        let mut out: Vec<Local> = Vec::new();
        let mut i: usize = 0;
        while i < self.locals.len()
            invariant
                i <= self.locals@.len(),
                out@.len() == i,
                forall|k: int| 0 <= k < i ==> (#[trigger] out@[k])@ == self.locals@[k]@,
            decreases self.locals.len() - i,
        {
            let one = &self.locals[i];
            out.push(
                Local { id: one.id, name: one.name.clone(), ty: one.ty, mutable: one.mutable },
            );
            i += 1;
        }
        proof {
            assert(locals_view(out@) =~= locals_view(self.locals@));
        }
        out
    }

    /// What is left when every function is lowered.
    pub(crate) fn finish(self) -> (r: (Table, Vec<Reference>))
        ensures
            r.0@.types == self@.types,
            r.0@.errs == self@.errs,
            references_view(r.1@) == self@.refs,
    {
        proof {
            reveal(Lowering::view);
        }
        (self.table, self.refs)
    }
}

} // verus!
