//! Reading a written type forgets no problem.

use vstd::prelude::*;

use crate::hir::Type;
use crate::hir::model::Generic;
use crate::hir::rules::laws::grows_facts;
use crate::hir::rules::laws::table::{
    extends, instantiated_extends, option_type_extends, vec_type_extends,
};
use crate::hir::rules::types::{
    generic_at, resolve_all, resolve_option, resolve_scale, resolve_vec, resolve_written, Table,
};
use crate::hir::types::template_of;
use crate::syntax::laws::grows;
use crate::syntax::model::{Fault, ScaleArg, TypeName};

verus! {

pub(crate) proof fn resolve_scale_grows(errs: Seq<Fault>, written: ScaleArg, generics: Seq<Generic>)
    ensures
        grows(errs, resolve_scale(errs, written, generics).0),
{
    grows_facts();
    reveal(resolve_scale);
}

pub(crate) proof fn resolve_written_grows(t: Table, written: TypeName, generics: Seq<Generic>)
    ensures
        grows(t.errs, resolve_written(t, written, generics).0.errs),
        extends(t.types, resolve_written(t, written, generics).0.types),
    decreases written, 0int, 1int,
{
    grows_facts();
    reveal(resolve_written);
    reveal(resolve_option);
    reveal(resolve_vec);
    reveal(resolve_all);
    let at = generic_at(generics, written.name, 0);
    if written.name == "fix"@ {
        match written.scale {
            Some(scale) => {
                resolve_scale_grows(t.errs, scale, generics);
            },
            _ => {},
        }
    } else if at >= generics.len() {
        if written.name == "Option"@ {
            resolve_option_grows(t, written, generics);
        } else if written.name == "Vec"@ {
            resolve_vec_grows(t, written, generics);
        } else {
            match template_of(t.types, written.name) {
                Some(template) => {
                    if written.args.len() == template.generics.len() {
                        resolve_all_grows(t, written.args, 0, generics, seq![]);
                        match resolve_all(t, written.args, 0, generics, seq![]) {
                            (t1, Some(args)) => {
                                instantiated_extends(t1.types, written.name, args);
                            },
                            _ => {},
                        }
                    }
                },
                _ => {},
            }
        }
    }
}

pub(crate) proof fn resolve_option_grows(t: Table, written: TypeName, generics: Seq<Generic>)
    ensures
        grows(t.errs, resolve_option(t, written, generics).0.errs),
        extends(t.types, resolve_option(t, written, generics).0.types),
    decreases written, 0int, 0int,
{
    grows_facts();
    reveal(resolve_option);
    reveal(resolve_written);
    if written.args.len() == 1 {
        resolve_written_grows(t, written.args[0], generics);
        match resolve_written(t, written.args[0], generics) {
            (t1, Some(inner)) => {
                if !inner.compile_time() {
                    if !(inner is Option) {
                        option_type_extends(t1.types, inner);
                    }
                }
            },
            _ => {},
        }
    }
}

pub(crate) proof fn resolve_vec_grows(t: Table, written: TypeName, generics: Seq<Generic>)
    ensures
        grows(t.errs, resolve_vec(t, written, generics).0.errs),
        extends(t.types, resolve_vec(t, written, generics).0.types),
    decreases written, 0int, 0int,
{
    grows_facts();
    reveal(resolve_vec);
    reveal(resolve_written);
    if written.args.len() == 1 {
        resolve_written_grows(t, written.args[0], generics);
        match resolve_written(t, written.args[0], generics) {
            (t1, Some(elem)) => {
                if !elem.compile_time() {
                    vec_type_extends(t1.types, elem);
                }
            },
            _ => {},
        }
    }
}

pub(crate) proof fn resolve_all_grows(
    t: Table,
    written: Seq<TypeName>,
    i: int,
    generics: Seq<Generic>,
    acc: Seq<Type>,
)
    ensures
        grows(t.errs, resolve_all(t, written, i, generics, acc).0.errs),
        extends(t.types, resolve_all(t, written, i, generics, acc).0.types),
        0 <= i <= written.len() ==> match resolve_all(t, written, i, generics, acc).1 {
            Some(types) => types.len() == acc.len() + written.len() - i,
            None => true,
        },
    decreases written, written.len() - i, 2int,
{
    grows_facts();
    reveal(resolve_all);
    reveal(resolve_written);
    if i >= 0 && i < written.len() {
        resolve_written_grows(t, written[i], generics);
        match resolve_written(t, written[i], generics) {
            (t1, Some(ty)) => {
                resolve_all_grows(t1, written, i + 1, generics, acc.push(ty));
            },
            _ => {},
        }
    }
}

} // verus!
