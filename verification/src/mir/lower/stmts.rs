//! Lowering of statements.

use vstd::prelude::*;

use crate::hir::{
    arms_view, bindings_view, expr_opt_view, parts_view, stmts_view, Arm, ArmTest, Binding,
    ContextKind, Expr, Inline, LocalId, NbtTag, Place, RawPart, Scrutinee, Stmt, Type,
};
use crate::mir::lower::exprs::runtime_index;
use crate::mir::lower::{
    boxed, local_path, local_reg, local_type, place_path, place_reg, ret_reg, spliced, stored_tag,
    tag_suffix, variant_name, Frame, Lowering, Value, Written,
};
use crate::mir::rules;
use crate::mir::{Cond, ExecuteAs, Inst, Reg};
use crate::syntax::ast::BinaryOp;
use crate::syntax::Span;
use crate::text::{cat2, cat3, cat5, own, quoted, show_i32, show_u64, texts};

verus! {

/// What can leave a block other than reaching its end.
struct Escapes {
    breaks: bool,
    continues: bool,
    returns: bool,
}

impl Escapes {
    spec fn view(&self) -> rules::Escapes {
        rules::Escapes { breaks: self.breaks, continues: self.continues, returns: self.returns }
    }

    fn none() -> (r: Escapes)
        ensures
            r@ == rules::no_escape(),
    {
        Escapes { breaks: false, continues: false, returns: false }
    }

    fn any(&self) -> (r: bool)
        ensures
            r == self@.any(),
    {
        self.breaks || self.continues || self.returns
    }

    fn union(self, other: Escapes) -> (r: Escapes)
        ensures
            r@ == self@.union(other@),
    {
        Escapes {
            breaks: self.breaks || other.breaks,
            continues: self.continues || other.continues,
            returns: self.returns || other.returns,
        }
    }
}

/// What can escape this statement list.
fn escapes(stmts: &Vec<Stmt>) -> (r: Escapes)
    ensures
        r@ == rules::escapes(stmts_view(stmts@), 0),
    decreases stmts, 0int, 1int,
{
    let ghost all = stmts_view(stmts@);
    let mut out = Escapes::none();
    let mut i: usize = 0;
    while i < stmts.len()
        invariant
            i <= stmts@.len(),
            all == stmts_view(stmts@),
            out@.union(rules::escapes(all, i as int)) == rules::escapes(all, 0),
        decreases stmts.len() - i,
    {
        proof {
            reveal(rules::escapes);
            reveal(rules::stmt_escapes);
            assert(decreases_to!(stmts => stmts[i as int]));
            assert(all[i as int] == stmts@[i as int]@);
        }
        out = out.union(stmt_escapes(&stmts[i]));
        i += 1;
    }
    proof {
        reveal(rules::escapes);
    }
    out
}

fn stmt_escapes(s: &Stmt) -> (r: Escapes)
    ensures
        r@ == rules::stmt_escapes(s@),
    decreases s, 0int, 0int,
{
    proof {
        reveal(rules::stmt_escapes);
        reveal(rules::escapes);
        reveal(rules::arms_escape);
        s.unfold();
    }
    match s {
        Stmt::Break(_) => Escapes { breaks: true, continues: false, returns: false },
        Stmt::Continue(_) => Escapes { breaks: false, continues: true, returns: false },
        Stmt::Return { .. } => Escapes { breaks: false, continues: false, returns: true },
        Stmt::If { taken, otherwise, .. } => match otherwise {
            Some(otherwise) => escapes(taken).union(escapes(otherwise)),
            None => escapes(taken),
        },
        Stmt::Loop { body, .. } => Escapes {
            breaks: false,
            continues: false,
            returns: escapes(body).returns,
        },
        Stmt::Match { arms, .. } => arms_escape(arms),
        Stmt::ForVec { body, .. } => Escapes {
            breaks: false,
            continues: false,
            returns: escapes(body).returns,
        },
        Stmt::Context { body, .. } => {
            let inner = escapes(body);
            Escapes { breaks: inner.breaks, continues: false, returns: inner.returns }
        },
        _ => Escapes::none(),
    }
}

fn arms_escape(arms: &Vec<Arm>) -> (r: Escapes)
    ensures
        r@ == rules::arms_escape(arms_view(arms@), 0),
    decreases arms, 0int, 1int,
{
    let ghost all = arms_view(arms@);
    let mut out = Escapes::none();
    let mut i: usize = 0;
    while i < arms.len()
        invariant
            i <= arms@.len(),
            all == arms_view(arms@),
            out@.union(rules::arms_escape(all, i as int)) == rules::arms_escape(all, 0),
        decreases arms.len() - i,
    {
        proof {
            reveal(rules::arms_escape);
            reveal(rules::escapes);
            assert(decreases_to!(arms => arms[i as int]));
            assert(decreases_to!(arms[i as int] => arms[i as int].body));
            assert(all[i as int] == arms@[i as int]@);
            arms@[i as int].unfold();
        }
        out = out.union(escapes(&arms[i].body));
        i += 1;
    }
    proof {
        reveal(rules::arms_escape);
    }
    out
}

fn stmt_span(s: &Stmt) -> (r: Span)
    ensures
        r == rules::stmt_span(s@),
{
    proof {
        s.unfold();
    }
    match s {
        Stmt::Raw(raw) => raw.span,
        Stmt::If { span, .. } => *span,
        Stmt::Loop { span, .. } => *span,
        Stmt::CallFor { span, .. } => *span,
        Stmt::Match { span, .. } => *span,
        Stmt::ForVec { span, .. } => *span,
        Stmt::Context { span, .. } => *span,
        Stmt::Break(span) => *span,
        Stmt::Continue(span) => *span,
        Stmt::Return { span, .. } => *span,
        Stmt::Let { span, .. } => *span,
        Stmt::Assert { span, .. } => *span,
        Stmt::Push { span, .. } => *span,
        Stmt::Assign { span, .. } => *span,
    }
}

/// The whole command, when nothing in it has to wait for runtime.
fn raw_text(parts: &Vec<RawPart>) -> (r: Option<String>)
    ensures
        crate::syntax::ast::text_opt_view(r) == rules::raw_text(parts_view(parts@)),
{
    if parts.len() == 1 {
        match &parts[0] {
            RawPart::Lit(text) => Some(text.clone()),
            RawPart::Value(_) => None,
        }
    } else {
        None
    }
}

/// What a check that fails says, to everyone.
fn complaint(message: &Option<String>) -> (r: String)
    ensures
        r@ == rules::complaint(crate::syntax::ast::text_opt_view(*message)),
{
    let said = match message {
        Some(message) => cat2("minewell: ", message.as_str()),
        None => cat2("minewell: ", "a check failed"),
    };
    cat3("tellraw @a {\"text\":", quoted(said.as_str()).as_str(), "}")
}

fn context_name(kind: ContextKind) -> (r: &'static str)
    ensures
        r@ == rules::context_name(kind),
{
    match kind {
        ContextKind::As => "as",
        ContextKind::At => "at",
        ContextKind::For => "for",
        ContextKind::Positioned => "positioned",
    }
}

fn copy_texts(v: &Vec<String>) -> (r: Vec<String>)
    ensures
        texts(r@) == texts(v@),
{
    let mut out: Vec<String> = Vec::new();
    let mut i: usize = 0;
    while i < v.len()
        invariant
            i <= v@.len(),
            out@.len() == i,
            forall|k: int| 0 <= k < i ==> (#[trigger] out@[k])@ == v@[k]@,
        decreases v.len() - i,
    {
        out.push(v[i].clone());
        i += 1;
    }
    proof {
        assert(texts(out@) =~= texts(v@));
    }
    out
}

impl Lowering {
    #[verifier::spinoff_prover]
    pub(super) fn stmts(&mut self, env: &Frame, body: &Vec<Stmt>)
        requires
            env.wf(),
        ensures
            final(self)@ == rules::stmts(env@, old(self)@, stmts_view(body@), 0),
        decreases body, 0int, 6int,
    {
        let ghost start = self@;
        let ghost all = stmts_view(body@);
        let mut i: usize = 0;
        while i < body.len()
            invariant
                i <= body@.len(),
                env.wf(),
                all == stmts_view(body@),
                rules::stmts(env@, start, all, 0) == rules::stmts(env@, self@, all, i as int),
            decreases body.len() - i,
        {
            proof {
                reveal(rules::stmts);
                reveal(rules::stmt);
                assert(decreases_to!(body => body[i as int]));
                assert(all[i as int] == body@[i as int]@);
            }
            self.stmt(env, &body[i]);
            i += 1;
        }
        proof {
            reveal(rules::stmts);
        }
    }

    #[verifier::spinoff_prover]
    fn stmt(&mut self, env: &Frame, s: &Stmt)
        requires
            env.wf(),
        ensures
            final(self)@ == rules::stmt(env@, old(self)@, s@),
        decreases s, 0int, 5int,
    {
        proof {
            reveal(rules::stmt);
            reveal(rules::if_stmt);
            reveal(rules::loop_stmt);
            reveal(rules::for_vec);
            reveal(rules::context_stmt);
            reveal(rules::match_stmt);
            s.unfold();
        }
        self.set_at(stmt_span(s));
        match s {
            Stmt::Break(_) => self.jump(env, rules::CTL_BREAK),
            Stmt::Continue(_) => self.jump(env, rules::CTL_CONTINUE),
            Stmt::Return { value, .. } => self.return_stmt(env, value),
            Stmt::CallFor { callee, args, span } => {
                self.check_callee(env, *callee, *span);
                let _ = self.call(env, *callee, args, false);
            },
            Stmt::Context { .. } => self.context_stmt(env, s),
            Stmt::If { .. } => self.if_stmt(env, s),
            Stmt::Loop { .. } => self.loop_stmt(env, s),
            Stmt::ForVec { .. } => self.for_vec(env, s),
            Stmt::Match { .. } => self.match_stmt(env, s),
            Stmt::Raw(raw) => match raw_text(&raw.parts) {
                Some(text) => self.emit(Inst::Raw { text, span: raw.span }),
                None => self.unsupported("a runtime value inside raw!"),
            },
            Stmt::Let { local, value, .. } => {
                if local_type(env.function, *local).is_storage() {
                    let path = local_path(env.function, *local);
                    self.store_struct(env, path.as_str(), value);
                } else {
                    self.store(env, local_reg(env.function, *local), None, value);
                }
                // Only now: a call inside the value must not try to save this local,
                // which has nothing in it yet.
                self.initialise(*local);
            },
            Stmt::Push { place, value, .. } => self.push_into(env, place, value),
            Stmt::Assign { place, op, value, .. } => {
                proof {
                    place.unfold();
                }
                if place.ty.is_storage() || place.steps.len() > 0 {
                    self.assign_to_place(env, s);
                } else {
                    self.check_root(place);
                    self.store(env, place_reg(env.function, place), *op, value);
                }
            },
            Stmt::Assert { cond, message, span } => {
                if env.debug {
                    let test = self.cond(env, cond);
                    let text = complaint(message);
                    self.emit(
                        Inst::Guarded {
                            cond: test.negate(),
                            inst: boxed(Inst::Raw { text, span: *span }),
                        },
                    );
                }
            },
        }
    }

    /// A `return`.
    fn return_stmt(&mut self, env: &Frame, value: &Option<Expr>)
        requires
            env.wf(),
        ensures
            final(self)@ == rules::return_stmt(env@, old(self)@, expr_opt_view(*value)),
    {
        proof {
            reveal(rules::return_stmt);
        }
        match value {
            None => {
                if self.top_level() {
                    self.emit(Inst::Return { value: 0 });
                } else {
                    self.jump(env, rules::CTL_RETURN);
                }
            },
            Some(e) => {
                let held = self.expr(env, e);
                if self.top_level() {
                    match held {
                        Value::Const(n) => self.emit(Inst::Return { value: n }),
                        Value::Reg(src) => self.emit(
                            Inst::ReturnRun { inst: boxed(Inst::Get { src }) },
                        ),
                    }
                } else {
                    self.copy_into(ret_reg(env.function), held);
                    self.jump(env, rules::CTL_RETURN);
                }
            },
        }
    }

    /// `v.push(x)`.
    fn push_into(&mut self, env: &Frame, place: &Place, value: &Expr)
        requires
            env.wf(),
        ensures
            final(self)@ == rules::push_into(env@, old(self)@, place@, value@),
    {
        proof {
            reveal(rules::push_into);
            place.unfold();
        }
        self.check_root(place);
        let path = place_path(env.function, place);
        if runtime_index(place).is_some() {
            self.emit(
                Inst::Raw {
                    text: own(
                        "# pushing into a list reached by a runtime index is not implemented",
                    ),
                    span: value.span,
                },
            );
            return;
        }
        let elem = match place.ty {
            Type::Vec(id) => env.types.element_at(id),
            _ => Type::I32,
        };
        let tag = NbtTag::default_for(elem);
        match self.expr_or_copy(env, elem, value) {
            Written::Const(text) => self.emit(Inst::AppendValue { path, value: text }),
            Written::Data(src) => self.emit(Inst::AppendFrom { dst: path, src }),
            // The list has to grow before the value can be stored into its last slot.
            Written::Reg(src) => {
                self.emit(
                    Inst::AppendValue { path: path.clone(), value: cat2("0", tag_suffix(tag)) },
                );
                self.emit(
                    Inst::StoreData {
                        path: cat2(path.as_str(), "[-1]"),
                        tag: stored_tag(tag).keyword(),
                        inst: boxed(Inst::Get { src }),
                    },
                );
            },
        }
    }

    /// Writes to something that lives in storage: a whole compound, or one field.
    fn assign_in_storage(
        &mut self,
        env: &Frame,
        path: String,
        ty: Type,
        tag: Option<NbtTag>,
        op: Option<BinaryOp>,
        value: &Expr,
    )
        requires
            env.wf(),
        ensures
            final(self)@ == rules::assign_in_storage(
                env@,
                old(self)@,
                path@,
                ty,
                tag,
                op,
                value@,
            ),
    {
        proof {
            reveal(rules::assign_in_storage);
        }
        if ty.is_storage() {
            self.store_struct(env, path.as_str(), value);
            return;
        }
        let held = match op {
            None => self.expr(env, value),
            Some(_) => {
                let acc = self.temp();
                self.emit(
                    Inst::StoreResult {
                        dst: acc.copy(),
                        inst: boxed(Inst::GetData { path: path.clone() }),
                    },
                );
                self.store(env, acc.copy(), op, value);
                Value::Reg(acc)
            },
        };
        match held {
            // A constant needs no register to pass through: `set value` takes it.
            Value::Const(n) => {
                let text = cat2(show_i32(n).as_str(), stored_tag(tag).suffix());
                self.emit(Inst::SetValue { path, value: text });
            },
            Value::Reg(src) => self.emit(
                Inst::StoreData {
                    path,
                    tag: stored_tag(tag).keyword(),
                    inst: boxed(Inst::Get { src }),
                },
            ),
        }
    }

    /// Writes through a place, which may need a macro to finish its path.
    fn assign_to_place(&mut self, env: &Frame, s: &Stmt)
        requires
            env.wf(),
        ensures
            final(self)@ == rules::assign_to_place(env@, old(self)@, s@),
    {
        proof {
            reveal(rules::assign_to_place);
            s.unfold();
        }
        match s {
            Stmt::Assign { place, op, value, .. } => {
                proof {
                    place.unfold();
                }
                self.check_root(place);
                let path = place_path(env.function, place);
                match runtime_index(place) {
                    None => self.assign_in_storage(env, path, place.ty, place.tag, *op, value),
                    Some(index) => {
                        let written = self.indexed_value(
                            env,
                            path.as_str(),
                            index,
                            place.ty,
                            *op,
                            value,
                        );
                        let target = spliced(path.as_str());
                        let write = match written {
                            Written::Const(text) => Inst::SetValue { path: target, value: text },
                            Written::Reg(src) => Inst::StoreData {
                                path: target,
                                tag: stored_tag(place.tag).keyword(),
                                inst: boxed(Inst::Get { src }),
                            },
                            Written::Data(src) => Inst::CopyData { dst: target, src },
                        };
                        let helper = self.macro_helper(env, "index", write);
                        self.write_index_arg(env, index);
                        self.emit(Inst::CallWithArgs { path: helper });
                    },
                }
            },
            _ => {},
        }
    }

    /// What is written to an element reached by a runtime index.
    fn indexed_value(
        &mut self,
        env: &Frame,
        path: &str,
        index: &Expr,
        ty: Type,
        op: Option<BinaryOp>,
        value: &Expr,
    ) -> (r: Written)
        requires
            env.wf(),
        ensures
            (final(self)@, r@) == rules::indexed_value(
                env@,
                old(self)@,
                path@,
                index@,
                ty,
                op,
                value@,
            ),
    {
        proof {
            reveal(rules::indexed_value);
        }
        match op {
            None => self.expr_or_copy(env, ty, value),
            Some(_) => {
                let acc = self.temp();
                let read = self.macro_helper(
                    env,
                    "index",
                    Inst::ReturnRun { inst: boxed(Inst::GetData { path: spliced(path) }) },
                );
                self.write_index_arg(env, index);
                self.emit(
                    Inst::StoreResult {
                        dst: acc.copy(),
                        inst: boxed(Inst::CallWithArgs { path: read }),
                    },
                );
                self.store(env, acc.copy(), op, value);
                Written::Reg(acc)
            },
        }
    }

    /// Splits a statement list into its own function and returns its path.
    #[verifier::spinoff_prover]
    fn split(&mut self, env: &Frame, kind: &str, body: &Vec<Stmt>) -> (r: String)
        requires
            env.wf(),
        ensures
            (final(self)@, r@) == rules::split(env@, old(self)@, kind@, stmts_view(body@)),
        decreases body, 1int, 7int,
    {
        proof {
            reveal(rules::split);
            reveal(rules::stmts);
        }
        let path = self.next_path(kind);
        let outer = self.open(path.as_str());
        self.stmts(env, body);
        self.close(env.function.id, path.clone(), outer);
        path
    }

    /// The one command a statement takes, if it takes exactly one. Anything longer is
    /// taken back.
    #[verifier::spinoff_prover]
    fn inlined(&mut self, env: &Frame, s: &Stmt) -> (r: Option<Inst>)
        requires
            env.wf(),
        ensures
            (
                final(self)@,
                match r {
                    Some(inst) => Some(inst@),
                    None => None,
                },
            ) == rules::inlined(env@, old(self)@, s@),
        decreases s, 0int, 6int,
    {
        proof {
            reveal(rules::inlined);
            reveal(rules::stmt);
        }
        let before: usize = self.inst_count();
        self.stmt(env, s);
        self.take_back(before)
    }

    #[verifier::spinoff_prover]
    fn if_stmt(&mut self, env: &Frame, s: &Stmt)
        requires
            env.wf(),
        ensures
            final(self)@ == rules::if_stmt(env@, old(self)@, s@),
        decreases s, 0int, 4int,
    {
        proof {
            reveal(rules::if_stmt);
            reveal(rules::inlined);
            reveal(rules::split);
            s.unfold();
        }
        match s {
            Stmt::If { cond, taken, otherwise, inline, .. } => {
                let escaping = match otherwise {
                    Some(otherwise) => escapes(taken).union(escapes(otherwise)),
                    None => escapes(taken),
                };
                let test = self.cond(env, cond);
                // A single command under a guard needs no function of its own.
                if otherwise.is_none() && taken.len() == 1 && !escaping.any() && *inline
                    != Inline::Never {
                    proof {
                        assert(decreases_to!(taken => taken[0]));
                    }
                    match self.inlined(env, &taken[0]) {
                        Some(inst) => {
                            proof {
                                inst.unfold();
                            }
                            self.emit(Inst::Guarded { cond: test, inst: boxed(inst) });
                            return;
                        },
                        None => {},
                    }
                }
                let path = self.split(env, "if", taken);
                self.emit(
                    Inst::Guarded { cond: test.copy(), inst: boxed(Inst::Call { path }) },
                );
                match otherwise {
                    Some(otherwise) => {
                        let other = self.split(env, "else", otherwise);
                        self.emit(
                            Inst::Guarded {
                                cond: test.negate(),
                                inst: boxed(Inst::Call { path: other }),
                            },
                        );
                    },
                    None => {},
                }
                if escaping.any() {
                    self.propagate(env);
                }
            },
            _ => {},
        }
    }

    /// The body of a loop.
    #[verifier::spinoff_prover]
    fn loop_body(&mut self, env: &Frame, body: &Vec<Stmt>)
        requires
            env.wf(),
        ensures
            final(self)@ == rules::loop_body(env@, old(self)@, stmts_view(body@)),
        decreases body, 1int, 8int,
    {
        proof {
            reveal(rules::loop_body);
            reveal(rules::split);
            reveal(rules::stmts);
        }
        if escapes(body).continues {
            let path = self.split(env, "body", body);
            self.emit(Inst::Call { path });
            self.consume(env, rules::CTL_CONTINUE);
            self.propagate(env);
        } else {
            self.stmts(env, body);
        }
    }

    /// What follows the call of a loop.
    fn after_loop(&mut self, env: &Frame, escaping: &Escapes)
        ensures
            final(self)@ == rules::after_loop(env@, old(self)@, escaping@),
    {
        if escaping.breaks {
            self.consume(env, rules::CTL_BREAK);
        }
        if escaping.returns {
            self.propagate(env);
        }
    }

    #[verifier::spinoff_prover]
    fn loop_stmt(&mut self, env: &Frame, s: &Stmt)
        requires
            env.wf(),
        ensures
            final(self)@ == rules::loop_stmt(env@, old(self)@, s@),
        decreases s, 0int, 4int,
    {
        proof {
            reveal(rules::loop_stmt);
            reveal(rules::loop_body);
            s.unfold();
        }
        match s {
            Stmt::Loop { cond, body, .. } => {
                let path = self.next_path(
                    if cond.is_some() {
                        "while"
                    } else {
                        "loop"
                    },
                );
                let outer = self.open(path.as_str());
                match cond {
                    Some(cond) => {
                        let test = self.cond(env, cond);
                        self.emit(
                            Inst::Guarded {
                                cond: test.negate(),
                                inst: boxed(Inst::Return { value: 0 }),
                            },
                        );
                    },
                    None => {},
                }
                self.loop_body(env, body);
                self.emit(Inst::Call { path: path.clone() });
                self.close(env.function.id, path.clone(), outer);
                self.emit(Inst::Call { path });
                let escaping = escapes(body);
                self.after_loop(env, &escaping);
            },
            _ => {},
        }
    }

    /// Reads a value out of storage into the binding it belongs to.
    fn bind_local(&mut self, env: &Frame, local: LocalId, ty: Type, path: String)
        ensures
            final(self)@ == rules::bind_local(env@, old(self)@, local, ty, path@),
    {
        proof {
            reveal(rules::bind_local);
        }
        if ty.is_storage() {
            self.emit(Inst::CopyData { dst: local_path(env.function, local), src: path });
        } else {
            self.emit(
                Inst::StoreResult {
                    dst: local_reg(env.function, local),
                    inst: boxed(Inst::GetData { path }),
                },
            );
        }
    }

    /// `for x in v`: walk a copy, taking `[0]` each time.
    #[verifier::spinoff_prover]
    fn for_vec(&mut self, env: &Frame, s: &Stmt)
        requires
            env.wf(),
        ensures
            final(self)@ == rules::for_vec(env@, old(self)@, s@),
        decreases s, 0int, 4int,
    {
        proof {
            reveal(rules::for_vec);
            reveal(rules::loop_body);
            s.unfold();
        }
        match s {
            Stmt::ForVec { source, binding, body, .. } => {
                self.check_root(source);
                let iter = self.iter_temp();
                self.emit(
                    Inst::CopyData { dst: iter.clone(), src: place_path(env.function, source) },
                );
                let path = self.next_path("for");
                let outer = self.open(path.as_str());
                let head = cat2(iter.as_str(), "[0]");
                // Nothing left to take: the loop is over.
                let filter = String::new();
                proof {
                    assert(filter@ =~= seq![]);
                }
                self.emit(
                    Inst::Guarded {
                        cond: Cond::Data { path: head.clone(), filter, negated: true },
                        inst: boxed(Inst::Return { value: 0 }),
                    },
                );
                let ty = local_type(env.function, *binding);
                self.bind_local(env, *binding, ty, head.clone());
                self.emit(Inst::RemoveData { path: head });
                // The binding holds a value from here on, so a recursive call has to
                // save it.
                self.initialise(*binding);
                self.loop_body(env, body);
                self.emit(Inst::Call { path: path.clone() });
                self.close(env.function.id, path.clone(), outer);
                self.emit(Inst::Call { path });
                let escaping = escapes(body);
                self.after_loop(env, &escaping);
            },
            _ => {},
        }
    }

    /// `as` / `at` / `for`: the body becomes a function, run once per entity.
    #[verifier::spinoff_prover]
    fn context_stmt(&mut self, env: &Frame, s: &Stmt)
        requires
            env.wf(),
        ensures
            final(self)@ == rules::context_stmt(env@, old(self)@, s@),
        decreases s, 0int, 4int,
    {
        proof {
            reveal(rules::context_stmt);
            reveal(rules::inlined);
            reveal(rules::stmts);
            s.unfold();
        }
        match s {
            Stmt::Context { kind, selector, body, inline, .. } => {
                if *kind == ContextKind::Positioned {
                    self.unsupported("'positioned'");
                    return;
                }
                let escaping = escapes(body);
                let clause = if *kind == ContextKind::At {
                    ExecuteAs::At(selector.text.clone())
                } else {
                    ExecuteAs::As(selector.text.clone())
                };
                // A single command that cannot transfer control needs no function.
                if body.len() == 1 && !escaping.any() && *inline != Inline::Never {
                    proof {
                        assert(decreases_to!(body => body[0]));
                    }
                    match self.inlined(env, &body[0]) {
                        Some(inst) => {
                            proof {
                                inst.unfold();
                            }
                            self.emit(Inst::Context { clause, inst: boxed(inst) });
                            return;
                        },
                        None => {},
                    }
                }
                let path = self.next_path(context_name(*kind));
                let outer = self.open(path.as_str());
                self.set_body_root();
                // A `continue` raised from a nested block has done its job by the time
                // it reaches here.
                if escaping.continues {
                    self.consume(env, rules::CTL_CONTINUE);
                }
                if escaping.breaks || escaping.returns {
                    self.leave_if_jumping(env);
                }
                self.stmts(env, body);
                self.close(env.function.id, path.clone(), outer);
                self.emit(Inst::Context { clause, inst: boxed(Inst::Call { path }) });
                self.after_loop(env, &escaping);
            },
            _ => {},
        }
    }

    /// The payload copied into the bindings of an arm on the way in.
    fn bind_payload(&mut self, env: &Frame, path: &str, bindings: &Vec<Binding>)
        ensures
            final(self)@ == rules::bind_payload(
                env@,
                old(self)@,
                path@,
                bindings_view(bindings@),
                0,
            ),
    {
        let ghost start = self@;
        let ghost all = bindings_view(bindings@);
        let mut i: usize = 0;
        while i < bindings.len()
            invariant
                i <= bindings@.len(),
                all == bindings_view(bindings@),
                rules::bind_payload(env@, start, path@, all, 0) == rules::bind_payload(
                    env@,
                    self@,
                    path@,
                    all,
                    i as int,
                ),
            decreases bindings.len() - i,
        {
            proof {
                reveal(rules::bind_payload);
                assert(all[i as int] == bindings@[i as int]@);
            }
            let b = &bindings[i];
            self.bind_local(env, b.local, b.ty, cat3(path, ".", b.nbt.as_str()));
            self.initialise(b.local);
            i += 1;
        }
        proof {
            reveal(rules::bind_payload);
        }
    }

    /// The arms of a `match`: one guarded call per arm.
    #[verifier::spinoff_prover]
    fn match_arms(
        &mut self,
        env: &Frame,
        arms: &Vec<Arm>,
        ty: Type,
        path: &str,
        tested: &str,
        base: &str,
    )
        requires
            env.wf(),
        ensures
            final(self)@ == rules::match_arms(
                env@,
                old(self)@,
                arms_view(arms@),
                0,
                ty,
                path@,
                tested@,
                base@,
                seq![],
            ),
        decreases arms, 0int, 8int,
    {
        let ghost start = self@;
        let ghost all = arms_view(arms@);
        let mut covered: Vec<String> = Vec::new();
        proof {
            assert(texts(covered@) =~= seq![]);
        }
        let mut i: usize = 0;
        while i < arms.len()
            invariant
                i <= arms@.len(),
                env.wf(),
                all == arms_view(arms@),
                rules::match_arms(env@, start, all, 0, ty, path@, tested@, base@, seq![])
                    == rules::match_arms(
                    env@,
                    self@,
                    all,
                    i as int,
                    ty,
                    path@,
                    tested@,
                    base@,
                    texts(covered@),
                ),
            decreases arms.len() - i,
        {
            proof {
                reveal(rules::match_arms);
                reveal(rules::stmts);
                assert(decreases_to!(arms => arms[i as int]));
                assert(decreases_to!(arms[i as int] => arms[i as int].body));
                assert(all[i as int] == arms@[i as int]@);
                arms@[i as int].unfold();
            }
            let arm = &arms[i];
            let prefix = self.prefix();
            let arm_path = cat5(prefix.as_str(), "/", base, "/", arm.path.as_str());
            let outer = self.open(arm_path.as_str());
            self.bind_payload(env, path, &arm.bindings);
            self.stmts(env, &arm.body);
            self.close(env.function.id, arm_path.clone(), outer);
            let called = Inst::Call { path: arm_path };
            match arm.test {
                ArmTest::Variant(variant) => {
                    let tag = variant_name(env.types, ty, variant);
                    let filter = cat3("{tag:\"", tag.as_str(), "\"}");
                    self.emit(
                        Inst::Guarded {
                            cond: Cond::Data { path: own(tested), filter, negated: false },
                            inst: boxed(called),
                        },
                    );
                    let ghost before = texts(covered@);
                    let ghost shown = tag@;
                    covered.push(tag);
                    proof {
                        assert(texts(covered@) =~= before.push(shown));
                    }
                },
                _ => {
                    self.emit(
                        Inst::Otherwise {
                            path: own(tested),
                            tags: copy_texts(&covered),
                            inst: boxed(called),
                        },
                    );
                },
            }
            i += 1;
        }
        proof {
            reveal(rules::match_arms);
        }
    }

    /// `match` on an enum.
    #[verifier::spinoff_prover]
    fn match_stmt(&mut self, env: &Frame, s: &Stmt)
        requires
            env.wf(),
        ensures
            final(self)@ == rules::match_stmt(env@, old(self)@, s@),
        decreases s, 0int, 4int,
    {
        proof {
            reveal(rules::match_stmt);
            reveal(rules::match_arms);
            s.unfold();
        }
        match s {
            Stmt::Match { scrutinee, arms, .. } => {
                match scrutinee {
                    Scrutinee::Place(place) => {
                        proof {
                            place.unfold();
                        }
                        if matches!(place.ty, Type::Enum(_)) {
                            self.check_root(place);
                            let path = place_path(env.function, place);
                            let tested = self.data_temp();
                            self.emit(Inst::CopyData { dst: tested.clone(), src: path.clone() });
                            let base = cat2("match_", show_u64(self.counter() as u64).as_str());
                            self.count();
                            self.match_arms(
                                env,
                                arms,
                                place.ty,
                                path.as_str(),
                                tested.as_str(),
                                base.as_str(),
                            );
                            // Every arm is a function of its own, so a `break` or `return`
                            // inside one gets out the same way it does from an `if`.
                            if arms_escape(arms).any() {
                                self.propagate(env);
                            }
                            return;
                        }
                    },
                    Scrutinee::Outcome(_) => {},
                }
                self.unsupported("matching on an option");
            },
            _ => {
                self.unsupported("matching on an option");
            },
        }
    }
}

} // verus!
