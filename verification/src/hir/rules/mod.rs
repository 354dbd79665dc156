//! The rules of the language: what each construct means, and what is wrong with it
//! where it means nothing.
//!
//! Every function here takes the state of a lowering and gives the state after it,
//! together with what the construct was lowered to. Where it was lowered to nothing,
//! the faults say why.

use vstd::prelude::*;

use crate::hir::model::{Expr, Generic, Kind, Local, Place, Reference, Types};
use crate::hir::types::{lookup, name_of};
use crate::hir::{Ctx, FnId, LocalId, ParamSig, Type};
use crate::schema::Command;
use crate::syntax::lexer::Span;
use crate::syntax::model::Fault;

pub mod exprs;
pub mod growth;
pub mod laws;
pub mod program;
pub mod stmts;
pub mod types;
pub mod values;

verus! {

/// A function's shape, known before any body is lowered so that a call can be checked
/// no matter which order the two were written in.
pub struct Sig {
    pub name: Seq<char>,
    /// The id of the one function this name means, or `None` for a template.
    pub id: Option<FnId>,
    pub generics: Seq<Generic>,
    pub params: Seq<ParamSig>,
    pub ret: Option<Type>,
    /// What the function requires of its caller, from `#[ctx(..)]`.
    pub ctx: Seq<Ctx>,
    /// Where among the functions of the file the body stands.
    pub item: usize,
}

/// An instance that was asked for.
pub struct Pending {
    pub id: FnId,
    pub item: usize,
    pub args: Seq<Type>,
    /// What each borrowed parameter was lent, in parameter order.
    pub borrows: Seq<Option<Place>>,
    /// How what is borrowed is told apart.
    pub lent: Seq<Seq<char>>,
    /// The name the instance is emitted under.
    pub name: Seq<char>,
}

/// What stays the same while one function is lowered.
pub struct Env {
    pub namespace: Seq<char>,
    /// The name of the function being lowered.
    pub function: Seq<char>,
    /// The type parameters of the instance being lowered, already concrete.
    pub type_params: Seq<(Seq<char>, Type)>,
    pub ret: Option<Type>,
    pub sigs: Seq<Sig>,
    /// The commands of the configured Minecraft version, if there is one.
    pub toolchain: Option<Seq<Command>>,
    /// How many functions have an id of their own; instances are numbered after them.
    pub concrete: u32,
}

/// The state of a lowering.
pub struct Cx {
    pub types: Types,
    /// The instances asked for so far, in order.
    pub pending: Seq<Pending>,
    pub refs: Seq<Reference>,
    pub errs: Seq<Fault>,
    pub locals: Seq<Local>,
    /// Bindings that name a place that is not their own.
    pub aliases: Seq<(LocalId, Place)>,
    /// Bindings that stand for a selector rather than a value.
    pub selectors: Seq<(LocalId, Seq<char>)>,
    /// Innermost scope last.
    pub scopes: Seq<Seq<(Seq<char>, LocalId)>>,
    /// The type the expression being lowered is going into, where one is known.
    pub expected: Option<Type>,
    /// The contexts available at this point.
    pub provided: Seq<Ctx>,
    pub in_loop: bool,
}

impl Cx {
    pub open spec fn fault(self, span: Span, message: Seq<char>) -> Cx {
        Cx { errs: self.errs.push(Fault { span, message }), ..self }
    }

    /// How a diagnostic spells a type.
    pub open spec fn ty(self, ty: Type) -> Seq<char> {
        name_of(self.types, ty)
    }

    pub open spec fn enter(self) -> Cx {
        Cx { scopes: self.scopes.push(seq![]), ..self }
    }

    pub open spec fn leave(self) -> Cx {
        Cx {
            scopes: if self.scopes.len() > 0 {
                self.scopes.drop_last()
            } else {
                self.scopes
            },
            ..self
        }
    }

    pub open spec fn next_local(self) -> LocalId {
        LocalId(self.locals.len() as u32)
    }

    /// A new binding in the innermost scope.
    pub open spec fn declare(self, name: Seq<char>, ty: Type, mutable: bool) -> Cx {
        let id = self.next_local();
        Cx {
            locals: self.locals.push(Local { id, name, ty, mutable }),
            scopes: if self.scopes.len() > 0 {
                self.scopes.drop_last().push(self.scopes.last().push((name, id)))
            } else {
                self.scopes
            },
            ..self
        }
    }

    pub open spec fn local(self, local: LocalId) -> Local {
        if local.0 < self.locals.len() {
            self.locals[local.0 as int]
        } else {
            Local { id: local, name: seq![], ty: Type::I32, mutable: false }
        }
    }

    pub open spec fn expecting(self, want: Option<Type>) -> Cx {
        Cx { expected: want, ..self }
    }

    pub open spec fn alias(self, local: LocalId, place: Place) -> Cx {
        Cx { aliases: self.aliases.push((local, place)), ..self }
    }

    pub open spec fn select(self, local: LocalId, text: Seq<char>) -> Cx {
        Cx { selectors: self.selectors.push((local, text)), ..self }
    }
}

/// The binding a name stands for, innermost scope first.
pub open spec fn resolve_name(scopes: Seq<Seq<(Seq<char>, LocalId)>>, name: Seq<char>) -> Option<
    LocalId,
>
    decreases scopes.len(),
{
    if scopes.len() == 0 {
        None
    } else {
        match lookup(scopes.last(), name) {
            Some(id) => Some(id),
            None => resolve_name(scopes.drop_last(), name),
        }
    }
}

/// The entry of a binding.
pub open spec fn entry_of<T>(entries: Seq<(LocalId, T)>, local: LocalId) -> Option<T>
    decreases entries.len(),
{
    if entries.len() == 0 {
        None
    } else if entries.last().0 == local {
        Some(entries.last().1)
    } else {
        entry_of(entries.drop_last(), local)
    }
}

/// The position of the signature of that name, or the number of signatures.
pub open spec fn sig_at(sigs: Seq<Sig>, name: Seq<char>, i: int) -> int
    decreases sigs.len() - i,
{
    if i < 0 || i >= sigs.len() {
        sigs.len() as int
    } else if sigs[i].name == name {
        i
    } else {
        sig_at(sigs, name, i + 1)
    }
}

pub open spec fn has_sig(sigs: Seq<Sig>, name: Seq<char>) -> bool {
    sig_at(sigs, name, 0) < sigs.len()
}

pub open spec fn value(kind: Kind, ty: Type, span: Span) -> Option<Expr> {
    Some(Expr { kind, ty, span })
}

/// `n` with its sign turned, as far as an `i32` holds it.
pub open spec fn negated(n: i32) -> i32 {
    if n == i32::MIN {
        n
    } else {
        (-n) as i32
    }
}

} // verus!
