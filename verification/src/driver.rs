//! Source text to datapack, touching nothing outside memory: the whole compiler between
//! reading a project and writing its pack.

use vstd::prelude::*;

use crate::diagnostics::{problems_of, Report};
use crate::emit::{emit, files_of, Datapack, Options, Profile, Source, PLACEHOLDER_PACK_FORMAT};
use crate::hir;
use crate::hir::model::Reference as ReferenceModel;
use crate::hir::{references_view, Reference};
use crate::map::{
    key_at, lemma_before_irreflexive, lemma_key_at, lemma_put_is_found, lemma_put_keeps_order, put,
    sorted, value_of, TextMap,
};
use crate::mir;
use crate::schema::{Command, Schema};
use crate::syntax::grammar::parsed;
use crate::syntax::model::Fault;
use crate::syntax::parser::parse;
use crate::syntax::{faults, SyntaxError};
use crate::text::{before, cat3, cat7, cut_once, own, same, split_once, texts};

verus! {

/// Where a project's crate root lives.
pub const ROOT_SOURCE: &'static str = "src/lib.mwl";

/// Hand-written datapack resources, copied through untouched.
pub const DATA_DIR: &'static str = "data";

pub const MANIFEST: &'static str = "minewell.toml";

pub const OUTPUT_DIR: &'static str = "target/datapack";

/// `minewell.toml`.
#[derive(Debug, Clone)]
pub struct Manifest {
    pub package: Package,
}

#[derive(Debug, Clone)]
pub struct Package {
    pub name: String,
    /// The datapack namespace generated functions live under. Defaults to the name.
    pub namespace: Option<String>,
    pub description: Option<String>,
    /// The Minecraft version whose toolchain to build against.
    pub toolchain: Option<String>,
}

impl Package {
    pub open spec fn namespace_text(&self) -> Seq<char> {
        match self.namespace {
            Some(namespace) => namespace@,
            None => self.name@,
        }
    }

    pub fn namespace(&self) -> (r: &str)
        ensures
            r@ == self.namespace_text(),
    {
        match &self.namespace {
            Some(namespace) => namespace.as_str(),
            None => self.name.as_str(),
        }
    }

    pub open spec fn description_text(&self) -> Seq<char> {
        match self.description {
            Some(description) => description@,
            None => self.name@,
        }
    }

    /// What a build of this package is given. Without a toolchain to say which, the pack
    /// format is a placeholder; without a description, the name is one.
    pub fn options(
        &self,
        pack_format: Option<u32>,
        profile: Profile,
        path: &str,
        text: &str,
    ) -> (r: Options)
        ensures
            r.pack_format == match pack_format {
                Some(format) => format,
                None => PLACEHOLDER_PACK_FORMAT,
            },
            r.description@ == self.description_text(),
            r.profile == profile,
            r.source is Some,
            r.source->0.path@ == path@,
            r.source->0.text@ == text@,
    {
        let description = match &self.description {
            Some(description) => description.clone(),
            None => self.name.clone(),
        };
        Options {
            pack_format: match pack_format {
                Some(format) => format,
                None => PLACEHOLDER_PACK_FORMAT,
            },
            description,
            profile,
            source: Some(Source { path: own(path), text: own(text) }),
        }
    }
}

// ---------------------------------------------------------------------------
// References.
// ---------------------------------------------------------------------------

/// The file a reference is to, unless it names no namespace.
pub open spec fn referenced_file(id: Seq<char>) -> Option<Seq<char>> {
    match split_once(id, ':') {
        Some((namespace, path)) => Some(
            "data/"@ + namespace + "/"@ + "function"@ + "/"@ + path + "."@ + "mcfunction"@,
        ),
        None => None,
    }
}

/// Whether a reference is to something in the pack, or to something written by hand.
pub open spec fn resolves(
    id: Seq<char>,
    files: Seq<(Seq<char>, Seq<char>)>,
    existing: Seq<Seq<char>>,
) -> bool {
    match referenced_file(id) {
        Some(file) => value_of(files, file) is Some || existing.contains(file),
        None => false,
    }
}

/// One fault for each reference among the first `i` that is to nothing.
///
/// Naming a function that does not exist is the archetypal mcfunction bug: the command
/// runs, nothing happens, and no error is printed anywhere.
pub open spec fn unresolved(
    references: Seq<ReferenceModel>,
    files: Seq<(Seq<char>, Seq<char>)>,
    existing: Seq<Seq<char>>,
    i: int,
) -> Seq<Fault>
    decreases i,
{
    if i <= 0 || i > references.len() {
        seq![]
    } else {
        let before = unresolved(references, files, existing, i - 1);
        let one = references[i - 1];
        if resolves(one.id, files, existing) {
            before
        } else {
            before.push(
                Fault {
                    span: one.span,
                    message: "nothing in this pack defines '"@ + one.id + "'"@,
                },
            )
        }
    }
}

/// Nothing is reported exactly when every reference is to something.
pub proof fn lemma_nothing_reported_means_all_resolve(
    references: Seq<ReferenceModel>,
    files: Seq<(Seq<char>, Seq<char>)>,
    existing: Seq<Seq<char>>,
    i: int,
)
    requires
        0 <= i <= references.len(),
    ensures
        unresolved(references, files, existing, i).len() == 0 <==> forall|k: int|
            0 <= k < i ==> resolves((#[trigger] references[k]).id, files, existing),
    decreases i,
{
    if i > 0 {
        lemma_nothing_reported_means_all_resolve(references, files, existing, i - 1);
        if unresolved(references, files, existing, i).len() == 0 {
            assert(unresolved(references, files, existing, i - 1).len() == 0);
        }
        if forall|k: int| 0 <= k < i ==> resolves((#[trigger] references[k]).id, files, existing) {
            assert(resolves(references[i - 1].id, files, existing));
        }
    }
}

// ---------------------------------------------------------------------------
// The whole compiler.
// ---------------------------------------------------------------------------

/// What a file compiles to: its pack, or what is wrong with it. Every problem of one stage
/// is reported together; a later stage only runs when there is none.
pub open spec fn compiled(
    text: Seq<char>,
    namespace: Seq<char>,
    options: Options,
    toolchain: Option<Seq<Command>>,
    existing: Seq<Seq<char>>,
) -> Result<Seq<mir::model::Function>, Seq<Fault>> {
    let (items, syntax) = parsed(text);
    let (program, meaning) = hir::rules::program::lowered(items, namespace, toolchain);
    if syntax.len() + meaning.len() > 0 {
        Err(syntax + meaning)
    } else {
        let (functions, missing) = mir::rules::lowered(program, options.profile == Profile::Debug);
        if missing.len() > 0 {
            Err(missing)
        } else {
            let files = files_of(options, functions, functions.len() as int);
            let loose = unresolved(
                program.references,
                files,
                existing,
                program.references.len() as int,
            );
            if loose.len() > 0 {
                Err(loose)
            } else {
                Ok(functions)
            }
        }
    }
}

/// What a report about the input is headed with.
pub open spec fn shown_path(options: Options) -> Seq<char> {
    match options.source {
        Some(source) => source.path@,
        None => "<input>"@,
    }
}

/// Whether `r` is what compiling to `made` comes to.
pub open spec fn outcome(
    r: Result<Datapack, Report>,
    made: Result<Seq<mir::model::Function>, Seq<Fault>>,
    text: Seq<char>,
    options: Options,
) -> bool {
    match (r, made) {
        (Ok(pack), Ok(functions)) => {
            &&& pack.files@ == files_of(options, functions, functions.len() as int)
            &&& texts(pack.tests@) == crate::emit::tests_of(functions, functions.len() as int)
            &&& pack.costs@.len() == functions.len()
            &&& forall|i: int|
                0 <= i < functions.len() ==> crate::cost::is_cost_of(
                    #[trigger] pack.costs@[i],
                    functions,
                    i,
                )
        },
        (Err(report), Err(found)) => {
            &&& report@ == problems_of(text, found)
            &&& report.path@ == shown_path(options)
            &&& report.source@ == text
        },
        _ => false,
    }
}

/// A file that compiles names nothing that is nowhere.
pub proof fn lemma_compiled_files_name_nothing_missing(
    text: Seq<char>,
    namespace: Seq<char>,
    options: Options,
    toolchain: Option<Seq<Command>>,
    existing: Seq<Seq<char>>,
    k: int,
)
    requires
        compiled(text, namespace, options, toolchain, existing) is Ok,
        ({
            let program = hir::rules::program::lowered(parsed(text).0, namespace, toolchain).0;
            0 <= k < program.references.len()
        }),
    ensures
        ({
            let program = hir::rules::program::lowered(parsed(text).0, namespace, toolchain).0;
            let functions = compiled(text, namespace, options, toolchain, existing)->Ok_0;
            resolves(
                program.references[k].id,
                files_of(options, functions, functions.len() as int),
                existing,
            )
        }),
{
    let program = hir::rules::program::lowered(parsed(text).0, namespace, toolchain).0;
    let functions = compiled(text, namespace, options, toolchain, existing)->Ok_0;
    lemma_nothing_reported_means_all_resolve(
        program.references,
        files_of(options, functions, functions.len() as int),
        existing,
        program.references.len() as int,
    );
}

/// A file with anything wrong with its syntax or its meaning does not compile, and every
/// problem of both is reported.
pub proof fn lemma_every_problem_is_reported(
    text: Seq<char>,
    namespace: Seq<char>,
    options: Options,
    toolchain: Option<Seq<Command>>,
    existing: Seq<Seq<char>>,
)
    ensures
        ({
            let (items, syntax) = parsed(text);
            let meaning = hir::rules::program::lowered(items, namespace, toolchain).1;
            syntax.len() + meaning.len() > 0 ==> compiled(
                text,
                namespace,
                options,
                toolchain,
                existing,
            ) == Err::<Seq<mir::model::Function>, Seq<Fault>>(syntax + meaning)
        }),
{
}

fn has_text(v: &Vec<String>, s: &str) -> (r: bool)
    ensures
        r == texts(v@).contains(s@),
{
    let mut i: usize = 0;
    while i < v.len()
        invariant
            i <= v@.len(),
            forall|k: int| 0 <= k < i ==> v@[k]@ != s@,
        decreases v.len() - i,
    {
        if same(v[i].as_str(), s) {
            proof {
                assert(texts(v@)[i as int] == s@);
            }
            return true;
        }
        i += 1;
    }
    proof {
        assert(forall|k: int| 0 <= k < v@.len() ==> texts(v@)[k] == v@[k]@);
    }
    false
}

fn reference_resolves(reference: &Reference, files: &TextMap, existing: &Vec<String>) -> (r: bool)
    ensures
        r == resolves(reference@.id, files@, texts(existing@)),
{
    match cut_once(reference.id.as_str(), ':') {
        None => false,
        Some((namespace, path)) => {
            let mut file = cat7(
                "data/",
                namespace.as_str(),
                "/",
                reference.kind.directory(),
                "/",
                path.as_str(),
                ".",
            );
            file.append(reference.kind.extension());
            files.contains_key(file.as_str()) || has_text(existing, file.as_str())
        },
    }
}

/// References to things that are nowhere in the finished pack.
fn unresolved_references(references: &Vec<Reference>, files: &TextMap, existing: &Vec<String>) -> (r:
    Vec<SyntaxError>)
    ensures
        faults(r@) == unresolved(
            references_view(references@),
            files@,
            texts(existing@),
            references@.len() as int,
        ),
{
    let ghost all = references_view(references@);
    let mut out: Vec<SyntaxError> = Vec::new();
    proof {
        assert(faults(out@) =~= seq![]);
    }
    let mut i: usize = 0;
    while i < references.len()
        invariant
            i <= references@.len(),
            all == references_view(references@),
            faults(out@) == unresolved(all, files@, texts(existing@), i as int),
        decreases references.len() - i,
    {
        let one = &references[i];
        proof {
            assert(all[i as int] == one@);
        }
        if !reference_resolves(one, files, existing) {
            let ghost before = faults(out@);
            let error = SyntaxError {
                span: one.span,
                message: cat3("nothing in this pack defines '", one.id.as_str(), "'"),
            };
            let ghost shown = error@;
            out.push(error);
            proof {
                assert(faults(out@) =~= before.push(shown));
            }
        }
        i += 1;
    }
    out
}

/// Source text to datapack.
///
/// Tests drive this directly, which is what lets a program be compiled without a project
/// on disk.
pub fn compile(text: &str, namespace: &str, options: &Options) -> (r: Result<Datapack, Report>)
    ensures
        outcome(
            r,
            compiled(text@, namespace@, *options, None, seq![]),
            text@,
            *options,
        ),
{
    compile_with(text, namespace, options, None)
}

/// As [`compile`], against a particular version's command set.
pub fn compile_with(
    text: &str,
    namespace: &str,
    options: &Options,
    toolchain: Option<&Schema>,
) -> (r: Result<Datapack, Report>)
    ensures
        outcome(
            r,
            compiled(text@, namespace@, *options, hir::toolchain_view(toolchain), seq![]),
            text@,
            *options,
        ),
{
    let none: Vec<String> = Vec::new();
    proof {
        assert(texts(none@) =~= seq![]);
    }
    compile_into(text, namespace, options, toolchain, &none)
}

/// As [`compile_with`], with the hand-written resources that references may resolve to.
pub fn compile_into(
    text: &str,
    namespace: &str,
    options: &Options,
    toolchain: Option<&Schema>,
    existing: &Vec<String>,
) -> (r: Result<Datapack, Report>)
    ensures
        outcome(
            r,
            compiled(
                text@,
                namespace@,
                *options,
                hir::toolchain_view(toolchain),
                texts(existing@),
            ),
            text@,
            *options,
        ),
{
    let shown = match &options.source {
        Some(source) => source.path.as_str(),
        None => "<input>",
    };
    let (file, syntax) = parse(text);
    let (program, meaning) = hir::lower(&file, namespace, toolchain);
    let ghost first = faults(syntax@);
    let ghost second = faults(meaning@);
    let mut errors = syntax;
    let mut more = meaning;
    errors.append(&mut more);
    proof {
        assert(faults(errors@) =~= first + second);
    }
    match Report::of(shown, text, errors) {
        Some(report) => {
            return Err(report);
        },
        None => {},
    }
    let (made, missing) = mir::lower(&program, options.profile == Profile::Debug);
    match Report::of(shown, text, missing) {
        Some(report) => {
            return Err(report);
        },
        None => {},
    }
    let pack = emit(&made, options);
    let loose = unresolved_references(&program.references, &pack.files, existing);
    match Report::of(shown, text, loose) {
        Some(report) => {
            return Err(report);
        },
        None => {},
    }
    Ok(pack)
}

// ---------------------------------------------------------------------------
// Hand-written resources.
// ---------------------------------------------------------------------------

/// The files of a pack with the hand-written ones from the `i`th on, or the first of those
/// that is generated too.
pub open spec fn merged(
    files: Seq<(Seq<char>, Seq<char>)>,
    written: Seq<(Seq<char>, Seq<char>)>,
    i: int,
) -> Result<Seq<(Seq<char>, Seq<char>)>, Seq<char>>
    decreases written.len() - i,
{
    if i < 0 || i >= written.len() {
        Ok(files)
    } else if value_of(files, written[i].0) is Some {
        Err(written[i].0)
    } else {
        merged(put(files, written[i].0, written[i].1), written, i + 1)
    }
}

/// Adding the hand-written files loses none: each of them is there as it was written, and
/// every other file is as it was generated.
pub proof fn lemma_adding_resources_loses_nothing(
    files: Seq<(Seq<char>, Seq<char>)>,
    written: Seq<(Seq<char>, Seq<char>)>,
    i: int,
    path: Seq<char>,
)
    requires
        sorted(files),
        sorted(written),
        0 <= i <= written.len(),
        merged(files, written, i) is Ok,
    ensures
        value_of(merged(files, written, i)->Ok_0, path) == if key_at(written, path, i)
            < written.len() {
            Some(written[key_at(written, path, i)].1)
        } else {
            value_of(files, path)
        },
    decreases written.len() - i,
{
    if i < written.len() {
        let (key, text) = written[i];
        lemma_put_keeps_order(files, key, text);
        lemma_put_is_found(files, key, text, path);
        lemma_adding_resources_loses_nothing(put(files, key, text), written, i + 1, path);
        lemma_key_at(written, path, i + 1);
        let k = key_at(written, path, i + 1);
        if path == key && k < written.len() {
            assert(before(written[i].0, written[k].0));
            lemma_before_irreflexive(key);
        }
    }
}

/// Adds the hand-written resources to a pack. One that lands on a generated file is an
/// error, and its path comes back: silently preferring either would be a surprise, and the
/// author can rename.
pub fn add_resources(pack: &mut Datapack, written: &TextMap) -> (r: Result<(), String>)
    ensures
        final(pack).costs == old(pack).costs,
        final(pack).tests == old(pack).tests,
        match r {
            Ok(_) => merged(old(pack).files@, written@, 0) == Ok::<
                Seq<(Seq<char>, Seq<char>)>,
                Seq<char>,
            >(final(pack).files@),
            Err(path) => merged(old(pack).files@, written@, 0) == Err::<
                Seq<(Seq<char>, Seq<char>)>,
                Seq<char>,
            >(path@),
        },
        sorted(final(pack).files@),
{
    let _count: usize = pack.files.len();
    let ghost start = pack.files@;
    let ghost costs = pack.costs;
    let ghost tests = pack.tests;
    let n: usize = written.len();
    let mut i: usize = 0;
    while i < n
        invariant
            i <= n,
            n == written@.len(),
            start == old(pack).files@,
            costs == old(pack).costs,
            tests == old(pack).tests,
            pack.costs == costs,
            pack.tests == tests,
            merged(start, written@, 0) == merged(pack.files@, written@, i as int),
            sorted(pack.files@),
        decreases n - i,
    {
        let (path, contents) = written.entry(i);
        if pack.files.contains_key(path) {
            return Err(own(path));
        }
        pack.files.insert(path, own(contents));
        i += 1;
    }
    Ok(())
}

} // verus!
