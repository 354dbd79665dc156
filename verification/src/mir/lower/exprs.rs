//! Lowering of expressions and of composite values.

use vstd::prelude::*;

use crate::hir::{
    copy_fields, exprs_view, fields_view, Expr, ExprKind, Field, FnId, Function as HirFunction,
    NbtTag, Place, Step, Type, Types,
};
use crate::mir::calls::calls_in;
use crate::mir::lower::{
    boxed, comparison, is_comparison, left_out, local_path, local_reg, place_path, place_reg,
    range_for, spliced, stored_tag, tag_suffix, variant_name, Frame, Lowering, Value, Written,
};
use crate::mir::rules;
use crate::mir::{Cond, Inst, Op, Reg, RegKind};
use crate::syntax::ast::{BinaryOp, UnaryOp};
use crate::syntax::lexer::Span;
use crate::text::{
    cat2, cat3, cat4, cat5, escaped, join_texts, own, quoted, same, show_i32, show_u64, texts,
};

verus! {

/// Whether evaluating this expression does nothing other than produce a value.
fn is_pure(e: &Expr) -> (r: bool)
    ensures
        r == rules::is_pure(e@),
    decreases e,
{
    proof {
        reveal(rules::is_pure);
        e.unfold();
    }
    match &e.kind {
        ExprKind::Command(_) => false,
        ExprKind::Unary(_, operand) => is_pure(operand),
        ExprKind::Binary(_, lhs, rhs) => is_pure(lhs) && is_pure(rhs),
        _ => calls_in(e).len() == 0,
    }
}

spec fn value_view(v: Option<Value>) -> Option<rules::Value> {
    match v {
        Some(value) => Some(value@),
        None => None,
    }
}

spec fn values_view(v: Seq<Option<Value>>) -> Seq<Option<rules::Value>> {
    Seq::new(v.len(), |i: int| value_view(v[i]))
}

/// The declared fields a composite literal has values for.
fn struct_fields(types: &Types, value: &Expr) -> (r: Vec<Field>)
    ensures
        fields_view(r@) == rules::struct_fields(types@, value@),
{
    proof {
        value.unfold();
    }
    match &value.kind {
        ExprKind::Struct { id, .. } => match types.find_struct(*id) {
            Some(def) => {
                return copy_fields(&def.fields);
            },
            None => {},
        },
        ExprKind::Enum { id, variant, .. } => match types.find_enum(*id) {
            Some(def) => {
                if (*variant as usize) < def.variants.len() {
                    return copy_fields(&def.variants[*variant as usize].fields);
                }
            },
            None => {},
        },
        _ => {},
    }
    let r: Vec<Field> = Vec::new();
    proof {
        assert(fields_view(r@) =~= seq![]);
    }
    r
}

/// The value as SNBT, with a placeholder wherever it is not known until runtime.
#[verifier::spinoff_prover]
fn snbt(types: &Types, value: &Expr, tag: Option<NbtTag>) -> (r: String)
    ensures
        r@ == rules::snbt(types@, value@, tag),
    decreases value, 0int, 0int,
{
    proof {
        reveal(rules::snbt);
        reveal(rules::members);
        reveal(rules::elements);
        value.unfold();
    }
    let suffix = tag_suffix(tag);
    match &value.kind {
        ExprKind::Int(n) => cat2(show_i32(*n).as_str(), suffix),
        ExprKind::Str(text) => quoted(text.as_str()),
        ExprKind::Nbt(text) => text.clone(),
        ExprKind::Bool(b) => cat2(
            if *b {
                "1"
            } else {
                "0"
            },
            suffix,
        ),
        ExprKind::Struct { id, fields } => {
            let declared = struct_fields(types, value);
            let parts = members(types, &declared, fields);
            cat3("{", join_texts(&parts, ",").as_str(), "}")
        },
        ExprKind::List { elem, values } => {
            let parts = elements(types, values, NbtTag::default_for(*elem));
            cat3("[", join_texts(&parts, ",").as_str(), "]")
        },
        ExprKind::Enum { id, variant, fields } => {
            let declared = struct_fields(types, value);
            let name = variant_name(types, Type::Enum(*id), *variant);
            let mut parts: Vec<String> = Vec::new();
            parts.push(cat3("tag:\"", name.as_str(), "\""));
            let ghost first = texts(parts@);
            let mut rest = members(types, &declared, fields);
            let ghost more = texts(rest@);
            parts.append(&mut rest);
            proof {
                assert(first =~= seq!["tag:\""@ + name@ + "\""@]);
                assert(texts(parts@) =~= first + more);
            }
            cat3("{", join_texts(&parts, ",").as_str(), "}")
        },
        _ => match value.ty {
            Type::Struct(_) => own("{}"),
            Type::Enum(_) => own("{}"),
            Type::Vec(_) => own("[]"),
            Type::Str => own("\"\""),
            _ => cat2("0", suffix),
        },
    }
}

fn elements(types: &Types, values: &Vec<Expr>, tag: Option<NbtTag>) -> (r: Vec<String>)
    ensures
        texts(r@) == rules::elements(types@, exprs_view(values@), 0, tag),
    decreases values, 0int, 1int,
{
    let ghost all = exprs_view(values@);
    let mut out: Vec<String> = Vec::new();
    let mut i: usize = 0;
    proof {
        assert(texts(out@) + rules::elements(types@, all, 0, tag) =~= rules::elements(
            types@,
            all,
            0,
            tag,
        ));
    }
    while i < values.len()
        invariant
            i <= values@.len(),
            all == exprs_view(values@),
            texts(out@) + rules::elements(types@, all, i as int, tag) == rules::elements(
                types@,
                all,
                0,
                tag,
            ),
        decreases values.len() - i,
    {
        proof {
            reveal(rules::elements);
            reveal(rules::snbt);
            assert(decreases_to!(values => values[i as int]));
            assert(all[i as int] == values@[i as int]@);
        }
        let ghost before = texts(out@);
        let one = snbt(types, &values[i], tag);
        let ghost shown = one@;
        out.push(one);
        proof {
            assert(texts(out@) =~= before.push(shown));
            assert(texts(out@) + rules::elements(types@, all, i + 1, tag) =~= before + (seq![shown]
                + rules::elements(types@, all, i + 1, tag)));
        }
        i += 1;
    }
    proof {
        reveal(rules::elements);
        assert(texts(out@) + rules::elements(types@, all, i as int, tag) =~= texts(out@));
    }
    out
}

/// The entries of a compound, one per field.
fn members(types: &Types, declared: &Vec<Field>, values: &Vec<Expr>) -> (r: Vec<String>)
    ensures
        texts(r@) == rules::members(types@, fields_view(declared@), exprs_view(values@), 0),
    decreases values, 0int, 1int,
{
    let ghost all = exprs_view(values@);
    let ghost known = fields_view(declared@);
    let mut out: Vec<String> = Vec::new();
    let mut i: usize = 0;
    proof {
        assert(texts(out@) + rules::members(types@, known, all, 0) =~= rules::members(
            types@,
            known,
            all,
            0,
        ));
    }
    while i < values.len() && i < declared.len()
        invariant
            i <= values@.len(),
            all == exprs_view(values@),
            known == fields_view(declared@),
            texts(out@) + rules::members(types@, known, all, i as int) == rules::members(
                types@,
                known,
                all,
                0,
            ),
        decreases values.len() - i,
    {
        proof {
            reveal(rules::members);
            reveal(rules::snbt);
            assert(decreases_to!(values => values[i as int]));
            assert(all[i as int] == values@[i as int]@);
            assert(known[i as int] == declared@[i as int]@);
        }
        let ghost before = texts(out@);
        let held = snbt(types, &values[i], declared[i].tag);
        let one = cat3(declared[i].nbt.as_str(), ":", held.as_str());
        let ghost shown = one@;
        out.push(one);
        proof {
            assert(texts(out@) =~= before.push(shown));
            assert(texts(out@) + rules::members(types@, known, all, i + 1) =~= before + (
            seq![shown] + rules::members(types@, known, all, i + 1)));
        }
        i += 1;
    }
    proof {
        reveal(rules::members);
        assert(texts(out@) + rules::members(types@, known, all, i as int) =~= texts(out@));
    }
    out
}

/// The read of a path, in `scale`ths of a unit.
fn read_of(path: String, scale: u32) -> (r: Inst)
    ensures
        r.shallow() == rules::read_of(path@, scale),
{
    if scale == 1 {
        Inst::GetData { path }
    } else {
        Inst::GetScaled { path, scale }
    }
}

impl Lowering {
    /// Writes a composite value to `path`.
    #[verifier::spinoff_prover]
    pub(super) fn store_struct(&mut self, env: &Frame, path: &str, value: &Expr)
        requires
            env.wf(),
        ensures
            final(self)@ == rules::store_struct(env@, old(self)@, path@, value@),
        decreases value, 0int, 9int,
    {
        proof {
            reveal(rules::store_struct);
            reveal(rules::write_runtime_fields);
            reveal(rules::concat_into);
            reveal(rules::write_index_arg);
            reveal(rules::scalar_source);
            value.unfold();
        }
        match &value.kind {
            ExprKind::Struct { .. } => {
                let text = snbt(env.types, value, None);
                self.emit(Inst::SetValue { path: own(path), value: text });
                self.write_runtime_fields(env, path, value);
            },
            ExprKind::Enum { .. } => {
                let text = snbt(env.types, value, None);
                self.emit(Inst::SetValue { path: own(path), value: text });
                self.write_runtime_fields(env, path, value);
            },
            ExprKind::List { .. } => {
                let text = snbt(env.types, value, None);
                self.emit(Inst::SetValue { path: own(path), value: text });
                self.write_runtime_fields(env, path, value);
            },
            ExprKind::Nbt(text) => {
                self.emit(Inst::SetValue { path: own(path), value: text.clone() });
            },
            ExprKind::Binary(op, _, _) => {
                if *op == BinaryOp::Add {
                    self.concat_into(env, path, value);
                } else {
                    self.unsupported("storing this value");
                }
            },
            ExprKind::Slice { place, start, end } => {
                self.check_root(place);
                self.emit(
                    Inst::SetString {
                        dst: own(path),
                        src: place_path(env.function, place),
                        start: *start,
                        end: *end,
                    },
                );
            },
            ExprKind::Str(text) => {
                self.emit(Inst::SetValue { path: own(path), value: quoted(text.as_str()) });
            },
            ExprKind::Local(local) => {
                self.emit(Inst::CopyData { dst: own(path), src: local_path(env.function, *local) });
            },
            ExprKind::Field(place) => {
                self.check_root(place);
                let src = place_path(env.function, place);
                proof {
                    place.unfold();
                }
                match runtime_index(place) {
                    None => {
                        self.emit(Inst::CopyData { dst: own(path), src });
                    },
                    Some(index) => {
                        let helper = self.macro_helper(
                            env,
                            "index",
                            Inst::CopyData { dst: own(path), src: spliced(src.as_str()) },
                        );
                        self.write_index_arg(env, index);
                        self.emit(Inst::CallWithArgs { path: helper });
                    },
                }
            },
            ExprKind::AsNbt { value: inner, scale } => {
                let src = self.scalar_source(env, inner);
                self.emit(
                    Inst::StoreScaled {
                        path: own(path),
                        tag: stored_tag(NbtTag::default_for(value.ty)).keyword(),
                        scale: *scale,
                        inst: boxed(Inst::Get { src }),
                    },
                );
            },
            _ => {
                self.unsupported("storing this value");
            },
        }
    }

    /// The register a converted value is in.
    #[verifier::spinoff_prover]
    fn scalar_source(&mut self, env: &Frame, inner: &Expr) -> (r: Reg)
        requires
            env.wf(),
        ensures
            (final(self)@, r@) == rules::scalar_source(env@, old(self)@, inner@),
        decreases inner, 0int, 11int,
    {
        proof {
            reveal(rules::scalar_source);
            reveal(rules::expr);
            inner.unfold();
        }
        match &inner.kind {
            ExprKind::Field(place) => {
                proof {
                    place.unfold();
                }
                if place.steps.len() == 0 && !place.ty.is_storage() {
                    self.check_root(place);
                    return place_reg(env.function, place);
                }
            },
            _ => {},
        }
        let value = self.expr(env, inner);
        self.materialise(value)
    }

    /// Writes the fields that were only left room for.
    #[verifier::spinoff_prover]
    fn write_runtime_fields(&mut self, env: &Frame, path: &str, value: &Expr)
        requires
            env.wf(),
        ensures
            final(self)@ == rules::write_runtime_fields(env@, old(self)@, path@, value@),
        decreases value, 0int, 7int,
    {
        proof {
            reveal(rules::write_runtime_fields);
            reveal(rules::write_elements);
            reveal(rules::write_fields);
            value.unfold();
        }
        match &value.kind {
            ExprKind::List { elem, values } => self.write_elements(env, path, *elem, values),
            ExprKind::Struct { fields, .. } => {
                let declared = struct_fields(env.types, value);
                self.write_fields(env, path, &declared, fields);
            },
            ExprKind::Enum { fields, .. } => {
                let declared = struct_fields(env.types, value);
                self.write_fields(env, path, &declared, fields);
            },
            _ => {},
        }
    }

    #[verifier::spinoff_prover]
    fn write_elements(&mut self, env: &Frame, path: &str, elem: Type, values: &Vec<Expr>)
        requires
            env.wf(),
        ensures
            final(self)@ == rules::write_elements(
                env@,
                old(self)@,
                path@,
                elem,
                exprs_view(values@),
                0,
            ),
        decreases values, 0int, 8int,
    {
        let ghost start = self@;
        let ghost all = exprs_view(values@);
        let mut i: usize = 0;
        while i < values.len()
            invariant
                i <= values@.len(),
                env.wf(),
                all == exprs_view(values@),
                rules::write_elements(env@, start, path@, elem, all, 0) == rules::write_elements(
                    env@,
                    self@,
                    path@,
                    elem,
                    all,
                    i as int,
                ),
            decreases values.len() - i,
        {
            proof {
                reveal(rules::write_elements);
                reveal(rules::write_rest);
                assert(decreases_to!(values => values[i as int]));
                assert(all[i as int] == values@[i as int]@);
                values@[i as int].unfold();
            }
            let here = cat4(path, "[", show_u64(i as u64).as_str(), "]");
            self.write_rest(env, here, elem, NbtTag::default_for(elem), &values[i]);
            i += 1;
        }
        proof {
            reveal(rules::write_elements);
        }
    }

    #[verifier::spinoff_prover]
    fn write_fields(&mut self, env: &Frame, path: &str, declared: &Vec<Field>, values: &Vec<Expr>)
        requires
            env.wf(),
        ensures
            final(self)@ == rules::write_fields(
                env@,
                old(self)@,
                path@,
                fields_view(declared@),
                exprs_view(values@),
                0,
            ),
        decreases values, 0int, 8int,
    {
        let ghost start = self@;
        let ghost all = exprs_view(values@);
        let ghost known = fields_view(declared@);
        let mut i: usize = 0;
        while i < values.len() && i < declared.len()
            invariant
                i <= values@.len(),
                env.wf(),
                all == exprs_view(values@),
                known == fields_view(declared@),
                rules::write_fields(env@, start, path@, known, all, 0) == rules::write_fields(
                    env@,
                    self@,
                    path@,
                    known,
                    all,
                    i as int,
                ),
            decreases values.len() - i,
        {
            proof {
                reveal(rules::write_fields);
                reveal(rules::write_rest);
                assert(decreases_to!(values => values[i as int]));
                assert(all[i as int] == values@[i as int]@);
                assert(known[i as int] == declared@[i as int]@);
                values@[i as int].unfold();
            }
            let field = &declared[i];
            let here = cat3(path, ".", field.nbt.as_str());
            self.write_rest(env, here, field.ty, field.tag, &values[i]);
            i += 1;
        }
        proof {
            reveal(rules::write_fields);
        }
    }

    /// Writes what of a value inside a literal was not known when the literal was written.
    #[verifier::spinoff_prover]
    fn write_rest(
        &mut self,
        env: &Frame,
        path: String,
        ty: Type,
        tag: Option<NbtTag>,
        value: &Expr,
    )
        requires
            env.wf(),
        ensures
            final(self)@ == rules::write_rest(env@, old(self)@, path@, ty, tag, value@),
        decreases value, 0int, 13int,
    {
        proof {
            reveal(rules::write_rest);
            reveal(rules::write_runtime_fields);
            reveal(rules::store_struct);
            reveal(rules::write_scalar);
            value.unfold();
        }
        match &value.kind {
            ExprKind::Int(_) => {},
            ExprKind::Bool(_) => {},
            ExprKind::Str(_) => {},
            ExprKind::Nbt(_) => {},
            ExprKind::Struct { .. } => self.write_runtime_fields(env, path.as_str(), value),
            ExprKind::Enum { .. } => self.write_runtime_fields(env, path.as_str(), value),
            ExprKind::List { .. } => self.write_runtime_fields(env, path.as_str(), value),
            _ => {
                if ty.is_storage() {
                    self.store_struct(env, path.as_str(), value);
                } else {
                    self.write_scalar(env, path, tag, value);
                }
            },
        }
    }

    /// Writes a number into storage.
    #[verifier::spinoff_prover]
    fn write_scalar(&mut self, env: &Frame, path: String, tag: Option<NbtTag>, value: &Expr)
        requires
            env.wf(),
        ensures
            final(self)@ == rules::write_scalar(env@, old(self)@, path@, tag, value@),
        decreases value, 0int, 12int,
    {
        proof {
            reveal(rules::write_scalar);
            reveal(rules::expr);
        }
        let held = self.expr(env, value);
        let src = self.materialise(held);
        self.emit(
            Inst::StoreData {
                path,
                tag: stored_tag(tag).keyword(),
                inst: boxed(Inst::Get { src }),
            },
        );
    }

    /// One side of a `+` on strings: the text it adds to the macro line, and whether that
    /// is a substitution.
    #[verifier::spinoff_prover]
    fn concat_side(&mut self, env: &Frame, side: &Expr, name: &str) -> (r: (String, bool))
        requires
            env.wf(),
        ensures
            (final(self)@, r.0@, r.1) == rules::concat_side(env@, old(self)@, side@, name@),
        decreases side, 0int, 13int,
    {
        proof {
            reveal(rules::concat_side);
            reveal(rules::expr_or_copy);
            side.unfold();
        }
        match &side.kind {
            ExprKind::Str(text) => (escaped(text.as_str()), false),
            _ => match self.expr_or_copy(env, Type::Str, side) {
                Written::Data(src) => {
                    self.emit(Inst::CopyData { dst: cat2("mw.args.", name), src });
                    (cat3("$(", name, ")"), true)
                },
                _ => {
                    let r = String::new();
                    proof {
                        assert(r@ =~= seq![]);
                    }
                    (r, true)
                },
            },
        }
    }

    /// `a + b` on strings: one macro line, with every literal part already in it.
    #[verifier::spinoff_prover]
    fn concat_into(&mut self, env: &Frame, path: &str, value: &Expr)
        requires
            env.wf(),
        ensures
            final(self)@ == rules::concat_into(env@, old(self)@, path@, value@),
        decreases value, 0int, 8int,
    {
        proof {
            reveal(rules::concat_into);
            reveal(rules::concat_side);
            value.unfold();
        }
        match &value.kind {
            ExprKind::Binary(_, lhs, rhs) => {
                let (a, a_spliced) = self.concat_side(env, lhs, "a");
                let (b, b_spliced) = self.concat_side(env, rhs, "b");
                let write = Inst::SetValue {
                    path: own(path),
                    value: cat4("\"", a.as_str(), b.as_str(), "\""),
                };
                if !a_spliced && !b_spliced {
                    self.emit(write);
                } else {
                    let helper = self.macro_helper(env, "concat", write);
                    self.emit(Inst::CallWithArgs { path: helper });
                }
            },
            _ => {},
        }
    }

    /// Evaluates a value into whatever a storage write can take.
    #[verifier::spinoff_prover]
    pub(super) fn expr_or_copy(&mut self, env: &Frame, ty: Type, value: &Expr) -> (r: Written)
        requires
            env.wf(),
        ensures
            (final(self)@, r@) == rules::expr_or_copy(env@, old(self)@, ty, value@),
        decreases value, 0int, 12int,
    {
        proof {
            reveal(rules::expr_or_copy);
            reveal(rules::expr);
            reveal(rules::store_struct);
            value.unfold();
        }
        if !ty.is_storage() {
            return match self.expr(env, value) {
                Value::Const(n) => Written::Const(
                    cat2(show_i32(n).as_str(), tag_suffix(NbtTag::default_for(ty))),
                ),
                Value::Reg(src) => Written::Reg(src),
            };
        }
        match &value.kind {
            ExprKind::Str(text) => {
                return Written::Const(quoted(text.as_str()));
            },
            ExprKind::Local(local) => {
                return Written::Data(local_path(env.function, *local));
            },
            ExprKind::Field(place) => {
                if place.is_static() {
                    self.check_root(place);
                    return Written::Data(place_path(env.function, place));
                }
            },
            _ => {},
        }
        // A composite that is not already somewhere: build it aside, then copy.
        let temp = self.data_temp();
        self.store_struct(env, temp.as_str(), value);
        Written::Data(temp)
    }

    /// `s == "lit"` and `s == other`.
    #[verifier::spinoff_prover]
    fn string_compare(&mut self, env: &Frame, e: &Expr, into: Option<Reg>) -> (r: Value)
        requires
            env.wf(),
        ensures
            (final(self)@, r@) == rules::string_compare(
                env@,
                old(self)@,
                e@,
                match into {
                    Some(dst) => Some(dst@),
                    None => None,
                },
            ),
        decreases e, 0int, 8int,
    {
        proof {
            reveal(rules::string_compare);
            reveal(rules::expr_or_copy);
            e.unfold();
        }
        match &e.kind {
            ExprKind::Binary(op, lhs, rhs) => {
                let negated = *op == BinaryOp::Ne;
                let l = self.expr_or_copy(env, Type::Str, lhs);
                let r = self.expr_or_copy(env, Type::Str, rhs);
                match (&l, &r) {
                    (Written::Const(a), Written::Const(b)) => {
                        let equal = same(a.as_str(), b.as_str());
                        return Value::Const(
                            if equal != negated {
                                1
                            } else {
                                0
                            },
                        );
                    },
                    _ => {},
                }
                let dst = match into {
                    Some(dst) => dst,
                    None => self.temp(),
                };
                let (path, other) = match (l, r) {
                    (Written::Data(path), other) => (path, other),
                    (other, Written::Data(path)) => (path, other),
                    (other, _) => {
                        let none = String::new();
                        proof {
                            assert(none@ =~= seq![]);
                        }
                        (none, other)
                    },
                };
                let (parent, key) = self.filterable(path);
                self.string_match(env, dst.copy(), parent, key, other, negated);
                Value::Reg(dst)
            },
            _ => Value::Const(0),
        }
    }

    /// Stores whether the key holds the other string.
    fn string_match(
        &mut self,
        env: &Frame,
        dst: Reg,
        parent: String,
        key: String,
        other: Written,
        negated: bool,
    )
        ensures
            final(self)@ == rules::string_match(
                env@,
                old(self)@,
                dst@,
                parent@,
                key@,
                other@,
                negated,
            ),
    {
        proof {
            reveal(rules::string_match);
        }
        match other {
            Written::Const(text) => {
                let filter = cat5("{", key.as_str(), ":", text.as_str(), "}");
                self.emit(
                    Inst::StoreCond { dst, cond: Cond::Data { path: parent, filter, negated } },
                );
            },
            Written::Data(src) => {
                let filter = cat3("{", key.as_str(), ":\"$(s)\"}");
                let helper = self.macro_helper(
                    env,
                    "streq",
                    Inst::StoreCond { dst, cond: Cond::Data { path: parent, filter, negated } },
                );
                self.emit(Inst::CopyData { dst: own("mw.args.s"), src });
                self.emit(Inst::CallWithArgs { path: helper });
            },
            Written::Reg(_) => {},
        }
    }

    /// Reads a scalar out of storage into `dst`, through a macro if the path needs one.
    #[verifier::spinoff_prover]
    fn read_place_scaled(&mut self, env: &Frame, dst: Reg, place: &Place, scale: u32)
        requires
            env.wf(),
        ensures
            final(self)@ == rules::read_place_scaled(env@, old(self)@, dst@, place@, scale),
        decreases place, 0int, 5int,
    {
        proof {
            reveal(rules::read_place_scaled);
            reveal(rules::write_index_arg);
            place.unfold();
        }
        self.check_root(place);
        if place.steps.len() == 0 && !place.ty.is_storage() {
            self.emit(Inst::Op { dst, op: Op::Assign, src: place_reg(env.function, place) });
            return;
        }
        let path = place_path(env.function, place);
        match runtime_index(place) {
            None => {
                self.emit(Inst::StoreResult { dst, inst: boxed(read_of(path, scale)) });
            },
            Some(index) => {
                let helper = self.macro_helper(
                    env,
                    "index",
                    Inst::ReturnRun { inst: boxed(read_of(spliced(path.as_str()), scale)) },
                );
                self.write_index_arg(env, index);
                self.emit(
                    Inst::StoreResult { dst, inst: boxed(Inst::CallWithArgs { path: helper }) },
                );
            },
        }
    }

    /// Writes the index a macro helper will splice into its path.
    #[verifier::spinoff_prover]
    pub(super) fn write_index_arg(&mut self, env: &Frame, index: &Expr)
        requires
            env.wf(),
        ensures
            final(self)@ == rules::write_index_arg(env@, old(self)@, index@),
        decreases index, 0int, 16int,
    {
        proof {
            reveal(rules::write_index_arg);
            reveal(rules::expr);
        }
        let value = self.expr(env, index);
        let src = self.materialise(value);
        self.emit(
            Inst::StoreData { path: own("mw.args.i"), tag: "int", inst: boxed(Inst::Get { src }) },
        );
    }

    // Expressions.

    #[verifier::spinoff_prover]
    pub(super) fn expr(&mut self, env: &Frame, e: &Expr) -> (r: Value)
        requires
            env.wf(),
        ensures
            (final(self)@, r@) == rules::expr(env@, old(self)@, e@),
        decreases e, 0int, 10int,
    {
        proof {
            reveal(rules::expr);
            reveal(rules::binary);
            reveal(rules::call);
            reveal(rules::read_place_scaled);
            e.unfold();
        }
        match &e.kind {
            ExprKind::Int(n) => Value::Const(*n),
            ExprKind::Bool(b) => Value::Const(
                if *b {
                    1
                } else {
                    0
                },
            ),
            ExprKind::Local(local) => Value::Reg(local_reg(env.function, *local)),
            ExprKind::Unary(op, operand) => {
                let value = self.expr(env, operand);
                self.unary(*op, value)
            },
            ExprKind::Binary(_, _, _) => self.binary(env, e),
            ExprKind::Call { callee, args } => {
                self.check_callee(env, *callee, e.span);
                Value::Reg(self.call(env, *callee, args, true))
            },
            ExprKind::Command(text) => {
                self.emit(Inst::Raw { text: text.clone(), span: e.span });
                Value::Const(1)
            },
            ExprKind::Field(place) => {
                let dst = self.temp();
                self.read_place_scaled(env, dst.copy(), place, 1);
                Value::Reg(dst)
            },
            ExprKind::Len(place) => {
                let dst = self.temp();
                self.read_place_scaled(env, dst.copy(), place, 1);
                Value::Reg(dst)
            },
            ExprKind::ReadScaled { place, scale } => {
                let dst = self.temp();
                self.read_place_scaled(env, dst.copy(), place, *scale);
                Value::Reg(dst)
            },
            _ => {
                self.unsupported("using this value as a number");
                Value::Const(0)
            },
        }
    }

    fn unary(&mut self, op: UnaryOp, value: Value) -> (r: Value)
        ensures
            (final(self)@, r@) == rules::unary(old(self)@, op, value@),
    {
        proof {
            reveal(rules::unary);
        }
        match op {
            UnaryOp::Neg => {
                let dst = self.temp();
                self.emit(Inst::Const { dst: dst.copy(), value: 0 });
                let src = self.materialise(value);
                self.emit(Inst::Op { dst: dst.copy(), op: Op::Sub, src });
                Value::Reg(dst)
            },
            UnaryOp::Not => {
                let src = self.materialise(value);
                let dst = self.temp();
                self.emit(
                    Inst::Matches {
                        dst: dst.copy(),
                        src,
                        min: Some(0),
                        max: Some(0),
                        negated: false,
                    },
                );
                Value::Reg(dst)
            },
        }
    }

    /// An operator between two values.
    #[verifier::spinoff_prover]
    fn binary(&mut self, env: &Frame, e: &Expr) -> (r: Value)
        requires
            env.wf(),
        ensures
            (final(self)@, r@) == rules::binary(env@, old(self)@, e@),
        decreases e, 0int, 9int,
    {
        proof {
            reveal(rules::binary);
            reveal(rules::string_compare);
            reveal(rules::expr);
            reveal(rules::split_expr);
            e.unfold();
        }
        match &e.kind {
            ExprKind::Binary(op, lhs, rhs) => {
                let op = *op;
                if lhs.ty == Type::Str {
                    return self.string_compare(env, e, None);
                }
                if (op == BinaryOp::And || op == BinaryOp::Or) && !is_pure(rhs) {
                    let l = self.expr(env, lhs);
                    let dst = self.temp();
                    self.copy_into(dst.copy(), l);
                    let (wanted, name): (i32, &str) = if op == BinaryOp::And {
                        (1, "and")
                    } else {
                        (0, "or")
                    };
                    let path = self.split_expr(env, name, dst.copy(), rhs);
                    self.emit(
                        Inst::Guarded {
                            cond: Cond::Matches {
                                src: dst.copy(),
                                min: Some(wanted),
                                max: Some(wanted),
                                negated: false,
                            },
                            inst: boxed(Inst::Call { path }),
                        },
                    );
                    return Value::Reg(dst);
                }
                let l = self.expr(env, lhs);
                let r = self.expr(env, rhs);
                let dst = self.temp();
                if is_comparison(op) {
                    self.compare_into(dst.copy(), op, l, r);
                } else {
                    self.copy_into(dst.copy(), l);
                    self.apply(dst.copy(), op, r);
                }
                Value::Reg(dst)
            },
            _ => Value::Const(0),
        }
    }

    /// Splits an expression into its own function, evaluated into `dst`.
    #[verifier::spinoff_prover]
    fn split_expr(&mut self, env: &Frame, kind: &str, dst: Reg, e: &Expr) -> (r: String)
        requires
            env.wf(),
        ensures
            (final(self)@, r@) == rules::split_expr(env@, old(self)@, kind@, dst@, e@),
        decreases e, 0int, 15int,
    {
        proof {
            reveal(rules::split_expr);
            reveal(rules::expr);
        }
        let path = self.next_path(kind);
        let outer = self.open(path.as_str());
        let value = self.expr(env, e);
        self.copy_into(dst, value);
        self.close(env.function.id, path.clone(), outer);
        path
    }

    /// Evaluates an expression directly into `dst` where the command already writes
    /// somewhere.
    #[verifier::spinoff_prover]
    fn expr_into(&mut self, env: &Frame, dst: Reg, e: &Expr)
        requires
            env.wf(),
        ensures
            final(self)@ == rules::expr_into(env@, old(self)@, dst@, e@),
        decreases e, 0int, 12int,
    {
        proof {
            reveal(rules::expr_into);
            reveal(rules::string_compare);
            reveal(rules::expr);
            reveal(rules::read_place_scaled);
            e.unfold();
        }
        match &e.kind {
            ExprKind::Binary(op, lhs, rhs) => {
                if lhs.ty == Type::Str {
                    match self.string_compare(env, e, Some(dst.copy())) {
                        // Both sides were literals, so nothing was stored yet.
                        Value::Const(n) => self.copy_into(dst, Value::Const(n)),
                        Value::Reg(_) => {},
                    }
                    return;
                }
                if is_comparison(*op) {
                    let l = self.expr(env, lhs);
                    let r = self.expr(env, rhs);
                    self.compare_into(dst, *op, l, r);
                    return;
                }
            },
            ExprKind::Unary(op, operand) => {
                if *op == UnaryOp::Not {
                    let value = self.expr(env, operand);
                    let src = self.materialise(value);
                    self.emit(
                        Inst::Matches { dst, src, min: Some(0), max: Some(0), negated: false },
                    );
                    return;
                }
            },
            ExprKind::Field(place) => {
                if !e.ty.is_storage() {
                    self.read_place_scaled(env, dst, place, 1);
                    return;
                }
            },
            ExprKind::Len(place) => {
                self.read_place_scaled(env, dst, place, 1);
                return;
            },
            ExprKind::ReadScaled { place, scale } => {
                self.read_place_scaled(env, dst, place, *scale);
                return;
            },
            _ => {},
        }
        let value = self.expr(env, e);
        self.copy_into(dst, value);
    }

    /// Writes a value into `dst`, applying the operator first for a compound assignment.
    #[verifier::spinoff_prover]
    pub(super) fn store(&mut self, env: &Frame, dst: Reg, op: Option<BinaryOp>, value: &Expr)
        requires
            env.wf(),
        ensures
            final(self)@ == rules::store(env@, old(self)@, dst@, op, value@),
        decreases value, 0int, 13int,
    {
        proof {
            reveal(rules::store);
            reveal(rules::expr_into);
            reveal(rules::expr);
        }
        match op {
            None => self.expr_into(env, dst, value),
            Some(op) => {
                let held = self.expr(env, value);
                self.apply(dst, op, held);
            },
        }
    }

    /// A condition, written straight into the `execute` where possible.
    #[verifier::spinoff_prover]
    pub(super) fn cond(&mut self, env: &Frame, e: &Expr) -> (r: Cond)
        requires
            env.wf(),
        ensures
            (final(self)@, r@) == rules::cond(env@, old(self)@, e@),
        decreases e, 0int, 14int,
    {
        proof {
            reveal(rules::cond);
            reveal(rules::truth);
            reveal(rules::expr);
            e.unfold();
        }
        match &e.kind {
            ExprKind::Unary(op, inner) => {
                if *op == UnaryOp::Not {
                    return self.cond(env, inner).negate();
                }
            },
            ExprKind::Binary(op, lhs, rhs) => {
                if is_comparison(*op) && lhs.ty != Type::Str {
                    let l = self.expr(env, lhs);
                    let r = self.expr(env, rhs);
                    return self.condition_of(*op, l, r);
                }
            },
            _ => {},
        }
        self.truth(env, e)
    }

    /// The test that a value is `true`.
    #[verifier::spinoff_prover]
    fn truth(&mut self, env: &Frame, e: &Expr) -> (r: Cond)
        requires
            env.wf(),
        ensures
            (final(self)@, r@) == rules::truth(env@, old(self)@, e@),
        decreases e, 0int, 11int,
    {
        proof {
            reveal(rules::truth);
            reveal(rules::expr);
        }
        let value = self.expr(env, e);
        let src = self.materialise(value);
        Cond::Matches { src, min: Some(1), max: Some(1), negated: false }
    }

    /// The test of a comparison.
    fn condition_of(&mut self, op: BinaryOp, lhs: Value, rhs: Value) -> (r: Cond)
        ensures
            (final(self)@, r@) == rules::condition_of(old(self)@, op, lhs@, rhs@),
    {
        proof {
            reveal(rules::condition_of);
        }
        match (&lhs, &rhs) {
            (Value::Reg(src), Value::Const(n)) => match range_for(op, *n) {
                Some((min, max, negated)) => {
                    return Cond::Matches { src: src.copy(), min, max, negated };
                },
                None => {},
            },
            _ => {},
        }
        let l = self.materialise(lhs);
        let r = self.materialise(rhs);
        let (by, negated) = comparison(op);
        Cond::Score { lhs: l, cmp: by, rhs: r, negated }
    }

    /// The arguments evaluated, but for the composite ones.
    #[verifier::spinoff_prover]
    fn call_values(&mut self, env: &Frame, args: &Vec<Expr>) -> (r: Vec<Option<Value>>)
        requires
            env.wf(),
        ensures
            (final(self)@, values_view(r@)) == rules::call_values(
                env@,
                old(self)@,
                exprs_view(args@),
                0,
                seq![],
            ),
        decreases args, 0int, 18int,
    {
        let ghost start = self@;
        let ghost all = exprs_view(args@);
        let mut out: Vec<Option<Value>> = Vec::new();
        proof {
            assert(values_view(out@) =~= seq![]);
        }
        let mut i: usize = 0;
        while i < args.len()
            invariant
                i <= args@.len(),
                env.wf(),
                all == exprs_view(args@),
                rules::call_values(env@, start, all, 0, seq![]) == rules::call_values(
                    env@,
                    self@,
                    all,
                    i as int,
                    values_view(out@),
                ),
            decreases args.len() - i,
        {
            proof {
                reveal(rules::call_values);
                reveal(rules::expr);
                assert(decreases_to!(args => args[i as int]));
                assert(all[i as int] == args@[i as int]@);
            }
            let ghost before = values_view(out@);
            let one = if args[i].ty.is_storage() {
                None
            } else {
                Some(self.expr(env, &args[i]))
            };
            let ghost shown = value_view(one);
            out.push(one);
            proof {
                assert(values_view(out@) =~= before.push(shown));
            }
            i += 1;
        }
        proof {
            reveal(rules::call_values);
        }
        out
    }

    /// The arguments written into the callee's parameters.
    #[verifier::spinoff_prover]
    fn pass_values(
        &mut self,
        env: &Frame,
        callee: &HirFunction,
        args: &Vec<Expr>,
        values: &Vec<Option<Value>>,
    )
        requires
            env.wf(),
        ensures
            final(self)@ == rules::pass_values(
                env@,
                old(self)@,
                callee@,
                exprs_view(args@),
                values_view(values@),
                0,
            ),
        decreases args, 0int, 18int,
    {
        let ghost start = self@;
        let ghost all = exprs_view(args@);
        let ghost held = values_view(values@);
        let mut i: usize = 0;
        while i < args.len() && i < values.len() && i < callee.params.len()
            invariant
                i <= args@.len(),
                env.wf(),
                all == exprs_view(args@),
                held == values_view(values@),
                rules::pass_values(env@, start, callee@, all, held, 0) == rules::pass_values(
                    env@,
                    self@,
                    callee@,
                    all,
                    held,
                    i as int,
                ),
            decreases args.len() - i,
        {
            proof {
                reveal(rules::pass_values);
                reveal(rules::store_struct);
                assert(decreases_to!(args => args[i as int]));
                assert(all[i as int] == args@[i as int]@);
            }
            match &values[i] {
                Some(value) => {
                    self.copy_into(local_reg(callee, callee.params[i]), value.copy());
                },
                None => {
                    let path = local_path(callee, callee.params[i]);
                    self.store_struct(env, path.as_str(), &args[i]);
                },
            }
            i += 1;
        }
        proof {
            reveal(rules::pass_values);
        }
    }

    /// A function that is left out cannot be called.
    pub(super) fn check_callee(&mut self, env: &Frame, callee: FnId, span: Span)
        ensures
            final(self)@ == rules::check_callee(env@, old(self)@, callee, span),
    {
        if (callee.0 as usize) < env.functions.len() {
            let f = &env.functions[callee.0 as usize];
            proof {
                assert(env@.functions[callee.0 as int] == f@);
            }
            if left_out(f, env.debug) {
                self.fault(
                    span,
                    cat3("'", f.name.as_str(), "' is a test, and a release build leaves tests out"),
                );
            }
        }
    }

    /// A call, and where its result landed.
    #[verifier::spinoff_prover]
    pub(super) fn call(
        &mut self,
        env: &Frame,
        callee: FnId,
        args: &Vec<Expr>,
        want_result: bool,
    ) -> (r: Reg)
        requires
            env.wf(),
        ensures
            (final(self)@, r@) == rules::call(
                env@,
                old(self)@,
                callee,
                exprs_view(args@),
                want_result,
            ),
        decreases args, 1int, 20int,
    {
        proof {
            reveal(rules::call);
            reveal(rules::call_values);
            reveal(rules::pass_values);
        }
        if (callee.0 as usize) >= env.functions.len() {
            return self.temp();
        }
        let f = &env.functions[callee.0 as usize];
        let again = env.graph.recursive(env.function.id, callee, Ghost(env@.functions));
        let values = self.call_values(env, args);
        let slots = self.live_slots(env);
        if again {
            self.emit(Inst::PushFrame);
            self.save_all(&slots);
        }
        self.pass_values(env, f, args, &values);
        let made = Inst::Call { path: f.path.clone() };
        let result = if want_result {
            // Allocated after the saves, so restoring cannot clobber it, and saved by the
            // next call that has to.
            let dst = self.temp();
            self.emit(Inst::StoreResult { dst: dst.copy(), inst: boxed(made) });
            dst
        } else {
            self.emit(made);
            let none = Reg { holder: String::new(), kind: RegKind::Temp };
            proof {
                assert(none@.holder =~= seq![]);
            }
            none
        };
        if again {
            self.restore_all(&slots);
            self.emit(Inst::PopFrame);
        }
        result
    }
}

/// The index expression of a place whose last step is only known at runtime.
pub(super) fn runtime_index(place: &Place) -> (r: Option<&Expr>)
    ensures
        match r {
            Some(index) => rules::runtime_index(place@) == Some(index@) && decreases_to!(
                place => index
            ),
            None => rules::runtime_index(place@) is None,
        },
{
    proof {
        place.unfold();
    }
    let n: usize = place.steps.len();
    if n > 0 {
        proof {
            place.steps@[n - 1].unfold();
            assert(place@.steps[n - 1] == place.steps@[n - 1]@);
            assert(decreases_to!(place => place.steps));
            assert(decreases_to!(place.steps => place.steps[n - 1]));
        }
        match &place.steps[n - 1] {
            Step::At(index) => {
                proof {
                    assert(decreases_to!(place.steps[n - 1] => index));
                }
                Some(index)
            },
            _ => None,
        }
    } else {
        None
    }
}

} // verus!
