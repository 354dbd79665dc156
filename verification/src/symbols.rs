//! The names an editor offers and explains: what a program declares, and the commands of its
//! Minecraft version.

use vstd::prelude::*;

use crate::schema::{command_named, described, spelled, Command, Schema};
use crate::syntax::lexer::Span;
use crate::text::{begins, cat3, chars, own, same, slice};

verus! {

/// What a name stands for.
#[derive(Debug, Clone, Copy, PartialEq, Eq, Structural)]
pub enum SymbolKind {
    Function,
    Binding,
}

/// A name a program declares.
#[derive(Debug, Clone, PartialEq, Eq)]
pub struct Symbol {
    pub name: String,
    pub kind: SymbolKind,
    /// The type of a binding, or the signature of a function.
    pub ty: String,
    /// Where it is declared.
    pub span: Span,
    /// Where it can be used: the block it was declared in.
    pub scope: Span,
}

/// What a symbol says.
pub struct SymbolModel {
    pub name: Seq<char>,
    pub kind: SymbolKind,
    pub ty: Seq<char>,
    pub span: Span,
    pub scope: Span,
}

impl Symbol {
    pub open spec fn view(&self) -> SymbolModel {
        SymbolModel {
            name: self.name@,
            kind: self.kind,
            ty: self.ty@,
            span: self.span,
            scope: self.scope,
        }
    }
}

/// One thing an editor offers.
#[derive(Debug, Clone, PartialEq, Eq)]
pub struct Completion {
    pub label: String,
    /// A function or a variable, as an editor counts them.
    pub kind: u32,
    pub detail: String,
}

impl Completion {
    pub open spec fn view(&self) -> (Seq<char>, u32, Seq<char>) {
        (self.label@, self.kind, self.detail@)
    }
}

pub open spec fn symbols_view(v: Seq<Symbol>) -> Seq<SymbolModel> {
    Seq::new(v.len(), |i: int| v[i]@)
}

pub open spec fn completions_view(v: Seq<Completion>) -> Seq<(Seq<char>, u32, Seq<char>)> {
    Seq::new(v.len(), |i: int| v[i]@)
}

/// Whether a name can be used at an offset: it is declared before it and still in scope.
pub open spec fn usable(symbol: SymbolModel, at: usize) -> bool {
    symbol.scope.start <= at <= symbol.scope.end && symbol.span.start <= at
}

/// Where a symbol belongs among symbols of which the innermost come first: behind those
/// whose scope begins later. A later `let` of the same block comes in front of an earlier one.
pub open spec fn place_of(sorted: Seq<SymbolModel>, symbol: SymbolModel, i: int) -> int
    decreases sorted.len() - i,
{
    if 0 <= i < sorted.len() && sorted[i].scope.start > symbol.scope.start {
        place_of(sorted, symbol, i + 1)
    } else {
        i
    }
}

/// The symbols up to the `n`th that can be used at an offset, innermost first.
pub open spec fn visible_among(symbols: Seq<SymbolModel>, n: int, at: usize) -> Seq<SymbolModel>
    decreases n,
{
    if n <= 0 || n > symbols.len() {
        seq![]
    } else {
        let rest = visible_among(symbols, n - 1, at);
        let one = symbols[n - 1];
        if usable(one, at) {
            rest.insert(place_of(rest, one, 0), one)
        } else {
            rest
        }
    }
}

/// The names that can be used at an offset, innermost first.
pub open spec fn visible_at(symbols: Seq<SymbolModel>, at: usize) -> Seq<SymbolModel> {
    visible_among(symbols, symbols.len() as int, at)
}

/// What is offered for the names from the `i`th on that begin with what was typed.
pub open spec fn offered(symbols: Seq<SymbolModel>, i: int, prefix: Seq<char>) -> Seq<
    (Seq<char>, u32, Seq<char>),
>
    decreases symbols.len() - i,
{
    if i < 0 || i >= symbols.len() {
        seq![]
    } else if begins(symbols[i].name, prefix) {
        seq![
            (
                symbols[i].name,
                if symbols[i].kind == SymbolKind::Function {
                    3u32
                } else {
                    6u32
                },
                symbols[i].ty,
            ),
        ] + offered(symbols, i + 1, prefix)
    } else {
        offered(symbols, i + 1, prefix)
    }
}

/// The same for the commands.
pub open spec fn offered_commands(commands: Seq<Command>, i: int, prefix: Seq<char>) -> Seq<
    (Seq<char>, u32, Seq<char>),
>
    decreases commands.len() - i,
{
    if i < 0 || i >= commands.len() {
        seq![]
    } else if begins(commands[i].name, prefix) {
        seq![(commands[i].name, 3u32, spelled(commands[i]))] + offered_commands(
            commands,
            i + 1,
            prefix,
        )
    } else {
        offered_commands(commands, i + 1, prefix)
    }
}

/// The position of the first symbol of that name, or the number of symbols.
pub open spec fn symbol_named(symbols: Seq<SymbolModel>, name: Seq<char>, i: int) -> int
    decreases symbols.len() - i,
{
    if i < 0 || i >= symbols.len() {
        symbols.len() as int
    } else if symbols[i].name == name {
        i
    } else {
        symbol_named(symbols, name, i + 1)
    }
}

/// How a name is explained.
pub open spec fn explained(symbol: SymbolModel) -> Seq<char> {
    "```mwl\n"@ + (if symbol.kind == SymbolKind::Function {
        symbol.ty
    } else {
        symbol.name + ": "@ + symbol.ty
    }) + "\n```"@
}

/// What is said about a word: a name of the program comes before a command.
pub open spec fn hovered(
    symbols: Seq<SymbolModel>,
    commands: Seq<Command>,
    word: Seq<char>,
) -> Option<Seq<char>> {
    let named = symbol_named(symbols, word, 0);
    let command = command_named(commands, word, 0);
    if named < symbols.len() {
        Some(explained(symbols[named]))
    } else if command < commands.len() {
        Some(described(commands[command]))
    } else {
        None
    }
}

// ---------------------------------------------------------------------------
// Finding it.
// ---------------------------------------------------------------------------

impl Symbol {
    fn copy(&self) -> (r: Symbol)
        ensures
            r@ == self@,
    {
        Symbol {
            name: own(self.name.as_str()),
            kind: self.kind,
            ty: own(self.ty.as_str()),
            span: self.span,
            scope: self.scope,
        }
    }
}

/// The names that can be used at an offset, innermost first: a shadowing `let` is the one
/// that answers for the name.
pub fn visible(symbols: &Vec<Symbol>, at: usize) -> (r: Vec<Symbol>)
    ensures
        symbols_view(r@) == visible_at(symbols_view(symbols@), at),
{
    let ghost all = symbols_view(symbols@);
    let mut out: Vec<Symbol> = Vec::new();
    let mut n: usize = 0;
    proof {
        assert(symbols_view(out@) =~= visible_among(all, 0, at));
    }
    while n < symbols.len()
        invariant
            n <= symbols@.len(),
            all == symbols_view(symbols@),
            symbols_view(out@) == visible_among(all, n as int, at),
        decreases symbols.len() - n,
    {
        let ghost rest = symbols_view(out@);
        let ghost one = symbols@[n as int]@;
        proof {
            assert(all[n as int] == one);
        }
        let scope = symbols[n].scope;
        if scope.start <= at && at <= scope.end && symbols[n].span.start <= at {
            let mut i: usize = 0;
            while i < out.len() && out[i].scope.start > scope.start
                invariant
                    i <= out@.len(),
                    rest == symbols_view(out@),
                    scope == one.scope,
                    place_of(rest, one, 0) == place_of(rest, one, i as int),
                decreases out.len() - i,
            {
                proof {
                    assert(rest[i as int] == out@[i as int]@);
                }
                i += 1;
            }
            proof {
                if i < out@.len() {
                    assert(rest[i as int] == out@[i as int]@);
                }
            }
            out.insert(i, symbols[n].copy());
            proof {
                assert(symbols_view(out@) =~= rest.insert(i as int, one));
            }
        }
        n += 1;
    }
    out
}

fn starts(name: &str, prefix: &str) -> (r: bool)
    ensures
        r == begins(name@, prefix@),
{
    let v = chars(name);
    let n: usize = chars(prefix).len();
    if v.len() < n {
        return false;
    }
    let head = slice(&v, 0, n);
    proof {
        assert(head@ =~= name@.take(n as int));
    }
    same(head.as_str(), prefix)
}

/// What is offered where `prefix` was typed: the names that can be used there, and the
/// commands.
pub fn complete(symbols: &Vec<Symbol>, schema: Option<&Schema>, prefix: &str, at: usize) -> (r: Vec<
    Completion,
>)
    ensures
        completions_view(r@) == offered(visible_at(symbols_view(symbols@), at), 0, prefix@)
            + match schema {
            Some(schema) => offered_commands(schema@, 0, prefix@),
            None => seq![],
        },
{
    let found = visible(symbols, at);
    let ghost names = symbols_view(found@);
    let mut out: Vec<Completion> = Vec::new();
    let mut i: usize = 0;
    proof {
        assert(completions_view(out@) + offered(names, 0, prefix@) =~= offered(names, 0, prefix@));
    }
    while i < found.len()
        invariant
            i <= found@.len(),
            names == symbols_view(found@),
            completions_view(out@) + offered(names, i as int, prefix@) == offered(
                names,
                0,
                prefix@,
            ),
        decreases found.len() - i,
    {
        let ghost before = completions_view(out@);
        proof {
            assert(names[i as int] == found@[i as int]@);
        }
        if starts(found[i].name.as_str(), prefix) {
            let kind: u32 = match found[i].kind {
                SymbolKind::Function => 3,
                SymbolKind::Binding => 6,
            };
            let one = Completion {
                label: own(found[i].name.as_str()),
                kind,
                detail: own(found[i].ty.as_str()),
            };
            let ghost shown = one@;
            out.push(one);
            proof {
                assert(completions_view(out@) =~= before.push(shown));
                assert(before.push(shown) + offered(names, i + 1, prefix@) =~= before + (seq![
                    shown,
                ] + offered(names, i + 1, prefix@)));
            }
        }
        i += 1;
    }
    proof {
        assert(completions_view(out@) =~= offered(names, 0, prefix@));
    }
    let ghost first = completions_view(out@);
    if let Some(schema) = schema {
        let ghost commands = schema@;
        let mut k: usize = 0;
        while k < schema.commands.len()
            invariant
                k <= commands.len(),
                commands == schema@,
                completions_view(out@) + offered_commands(commands, k as int, prefix@) == first
                    + offered_commands(commands, 0, prefix@),
            decreases commands.len() - k,
        {
            let ghost before = completions_view(out@);
            let signature = &schema.commands[k];
            proof {
                assert(commands[k as int] == signature@);
            }
            if starts(signature.name.as_str(), prefix) {
                let one = Completion {
                    label: own(signature.name.as_str()),
                    kind: 3,
                    detail: signature.spelling(),
                };
                let ghost shown = one@;
                out.push(one);
                proof {
                    assert(completions_view(out@) =~= before.push(shown));
                    assert(before.push(shown) + offered_commands(commands, k + 1, prefix@)
                        =~= before + (seq![shown] + offered_commands(commands, k + 1, prefix@)));
                }
            }
            k += 1;
        }
        proof {
            assert(completions_view(out@) + offered_commands(commands, k as int, prefix@)
                =~= completions_view(out@));
        }
    } else {
        proof {
            assert(first + Seq::<(Seq<char>, u32, Seq<char>)>::empty() =~= first);
        }
    }
    out
}

/// What is said about a word at an offset, if it means anything there.
pub fn hover(symbols: &Vec<Symbol>, schema: Option<&Schema>, word: &str, at: usize) -> (r: Option<
    String,
>)
    ensures
        match (
            r,
            hovered(
                visible_at(symbols_view(symbols@), at),
                match schema {
                    Some(schema) => schema@,
                    None => seq![],
                },
                word@,
            ),
        ) {
            (Some(a), Some(b)) => a@ == b,
            (None, None) => true,
            _ => false,
        },
{
    let found = visible(symbols, at);
    let ghost names = symbols_view(found@);
    let mut i: usize = 0;
    while i < found.len()
        invariant
            i <= found@.len(),
            names == symbols_view(found@),
            names == visible_at(symbols_view(symbols@), at),
            symbol_named(names, word@, 0) == symbol_named(names, word@, i as int),
        decreases found.len() - i,
    {
        proof {
            assert(names[i as int] == found@[i as int]@);
        }
        if same(found[i].name.as_str(), word) {
            let shown = match found[i].kind {
                SymbolKind::Function => own(found[i].ty.as_str()),
                SymbolKind::Binding => cat3(found[i].name.as_str(), ": ", found[i].ty.as_str()),
            };
            return Some(cat3("```mwl\n", shown.as_str(), "\n```"));
        }
        i += 1;
    }
    match schema {
        Some(schema) => match schema.get(word) {
            Some(signature) => Some(signature.describe()),
            None => None,
        },
        None => None,
    }
}

// ---------------------------------------------------------------------------
// What holds of every program.
// ---------------------------------------------------------------------------

/// Whether inner scopes come before outer ones.
pub open spec fn inner_first(symbols: Seq<SymbolModel>) -> bool {
    forall|i: int, j: int|
        0 <= i < j < symbols.len() ==> symbols[i].scope.start >= symbols[j].scope.start
}

proof fn lemma_place(sorted: Seq<SymbolModel>, symbol: SymbolModel, i: int)
    requires
        0 <= i <= sorted.len(),
    ensures
        i <= place_of(sorted, symbol, i) <= sorted.len(),
        forall|k: int|
            i <= k < place_of(sorted, symbol, i) ==> (#[trigger] sorted[k]).scope.start
                > symbol.scope.start,
        place_of(sorted, symbol, i) < sorted.len() ==> sorted[place_of(
            sorted,
            symbol,
            i,
        )].scope.start <= symbol.scope.start,
    decreases sorted.len() - i,
{
    if i < sorted.len() && sorted[i].scope.start > symbol.scope.start {
        lemma_place(sorted, symbol, i + 1);
    }
}

/// Only names that can be used are visible, all of them are, and inner ones come first.
pub proof fn lemma_visible_names_can_be_used(symbols: Seq<SymbolModel>, n: int, at: usize)
    requires
        0 <= n <= symbols.len(),
    ensures
        inner_first(visible_among(symbols, n, at)),
        forall|s: SymbolModel|
            #[trigger] visible_among(symbols, n, at).contains(s) <==> usable(s, at)
                && symbols.take(n).contains(s),
    decreases n,
{
    let all = visible_among(symbols, n, at);
    if n > 0 {
        lemma_visible_names_can_be_used(symbols, n - 1, at);
        let rest = visible_among(symbols, n - 1, at);
        let one = symbols[n - 1];
        let place = place_of(rest, one, 0);
        lemma_place(rest, one, 0);
        let more = symbols.take(n);
        let fewer = symbols.take(n - 1);
        assert(more =~= fewer.push(one));
        if usable(one, at) {
            assert forall|i: int, j: int| 0 <= i < j < all.len() implies all[i].scope.start
                >= all[j].scope.start by {
                let p = if i < place {
                    i
                } else {
                    i - 1
                };
                let q = if j < place {
                    j
                } else {
                    j - 1
                };
                if i != place && j != place {
                    assert(rest[p].scope.start >= rest[q].scope.start);
                } else if i == place && q > place {
                    assert(rest[place].scope.start >= rest[q].scope.start);
                }
            }
        }
        assert forall|s: SymbolModel| #[trigger] all.contains(s) <==> usable(s, at)
            && more.contains(s) by {
            assert(rest.contains(s) <==> usable(s, at) && fewer.contains(s));
            if usable(one, at) {
                assert(all[place] == one);
                if all.contains(s) {
                    let k = choose|k: int| 0 <= k < all.len() && all[k] == s;
                    if k < place {
                        assert(rest[k] == s);
                    } else if k > place {
                        assert(rest[k - 1] == s);
                    }
                }
                if rest.contains(s) {
                    let k = choose|k: int| 0 <= k < rest.len() && rest[k] == s;
                    if k < place {
                        assert(all[k] == s);
                    } else {
                        assert(all[k + 1] == s);
                    }
                }
            }
            assert(more[n - 1] == one);
            if fewer.contains(s) {
                let k = choose|k: int| 0 <= k < fewer.len() && fewer[k] == s;
                assert(more[k] == s);
            }
            if more.contains(s) {
                let k = choose|k: int| 0 <= k < more.len() && more[k] == s;
                if k < n - 1 {
                    assert(fewer[k] == s);
                }
            }
        }
    } else {
        assert(symbols.take(n) =~= seq![]);
    }
}

proof fn lemma_symbol_named(symbols: Seq<SymbolModel>, name: Seq<char>, i: int)
    requires
        0 <= i <= symbols.len(),
    ensures
        i <= symbol_named(symbols, name, i) <= symbols.len(),
        symbol_named(symbols, name, i) < symbols.len() ==> symbols[symbol_named(
            symbols,
            name,
            i,
        )].name == name,
        forall|k: int|
            i <= k < symbol_named(symbols, name, i) ==> (#[trigger] symbols[k]).name != name,
    decreases symbols.len() - i,
{
    if i < symbols.len() && symbols[i].name != name {
        lemma_symbol_named(symbols, name, i + 1);
    }
}

/// Of the names of one block, the one declared last comes first.
pub proof fn lemma_a_later_name_comes_first(symbols: Seq<SymbolModel>, n: int, at: usize)
    requires
        0 < n <= symbols.len(),
        usable(symbols[n - 1], at),
    ensures
        ({
            let names = visible_among(symbols, n, at);
            let one = symbols[n - 1];
            let place = place_of(visible_among(symbols, n - 1, at), one, 0);
            &&& 0 <= place < names.len()
            &&& names[place] == one
            &&& forall|k: int|
                0 <= k < place ==> (#[trigger] names[k]).scope.start > one.scope.start
        }),
{
    let rest = visible_among(symbols, n - 1, at);
    lemma_place(rest, symbols[n - 1], 0);
}

/// The innermost declaration of a name is the one that answers for it.
pub proof fn lemma_a_shadowing_name_answers(
    symbols: Seq<SymbolModel>,
    at: usize,
    s: SymbolModel,
)
    requires
        symbols.contains(s),
        usable(s, at),
    ensures
        ({
            let names = visible_at(symbols, at);
            let k = symbol_named(names, s.name, 0);
            &&& k < names.len()
            &&& names[k].name == s.name
            &&& names[k].scope.start >= s.scope.start
        }),
{
    let n = symbols.len() as int;
    let names = visible_at(symbols, at);
    lemma_visible_names_can_be_used(symbols, n, at);
    assert(symbols.take(n) =~= symbols);
    assert(names.contains(s));
    let j = choose|j: int| 0 <= j < names.len() && names[j] == s;
    lemma_symbol_named(names, s.name, 0);
}

} // verus!
