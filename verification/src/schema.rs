//! The command surface of one Minecraft version.
//!
//! The compiler knows the *language*; a toolchain knows the *commands*. Nothing about
//! Minecraft's command set is written into this crate: it is all derived from the
//! brigadier tree Mojang's data generator emits, so a new version is a data refresh
//! rather than a code change.

use vstd::prelude::*;

use crate::map::{
    lemma_before_irreflexive, lemma_before_total, lemma_before_transitive, TextMap,
};
use crate::text::{before, cat3, cat7, join, join_texts, own, precedes, same, texts};

verus! {

/// What the tree and the commands in it say, as mathematical values.
pub struct NodeModel {
    pub kind: NodeKind,
    pub children: Seq<(Seq<char>, NodeModel)>,
    pub executable: bool,
    pub parser: Option<Seq<char>>,
    pub redirects: bool,
}

pub struct ParamModel {
    pub name: Seq<char>,
    pub ty: ArgType,
    pub parser: Seq<char>,
}

pub enum PartModel {
    Literal(Seq<char>),
    Arg(usize),
}

pub struct Command {
    pub name: Seq<char>,
    pub literals: Seq<Seq<char>>,
    pub params: Seq<ParamModel>,
    pub parts: Seq<PartModel>,
}

/// A node of the brigadier command tree, as `commands.json` spells it.
#[derive(Debug, PartialEq, Eq)]
pub struct Node {
    pub kind: NodeKind,
    /// In the order of their names.
    pub children: Vec<(String, Node)>,
    pub executable: bool,
    /// Present on `argument` nodes: the brigadier parser that reads it.
    pub parser: Option<String>,
    /// A node can forward to another, which is how `/execute run` loops back to root.
    pub redirect: Option<Vec<String>>,
}

impl Node {
    pub open spec fn view(&self) -> NodeModel
        decreases self,
    {
        NodeModel {
            kind: self.kind,
            children: Seq::new(
                self.children@.len(),
                |i: int|
                    if 0 <= i < self.children@.len() {
                        (self.children@[i].0@, self.children@[i].1.view())
                    } else {
                        arbitrary()
                    },
            ),
            executable: self.executable,
            parser: match self.parser {
                Some(name) => Some(name@),
                None => None,
            },
            redirects: self.redirect is Some,
        }
    }
}

#[derive(Debug, Clone, Copy, PartialEq, Eq, Structural)]
pub enum NodeKind {
    Root,
    Literal,
    Argument,
}

/// One callable command signature.
#[derive(Debug, Clone, PartialEq, Eq)]
pub struct Signature {
    /// The generated name: the literal path joined with underscores.
    pub name: String,
    /// The literal words of the command, in order.
    pub literals: Vec<String>,
    pub params: Vec<Param>,
    /// How vanilla wants the command written: words and arguments interleave, as in
    /// `playsound <sound> master <targets>`.
    pub parts: Vec<Part>,
}

impl Signature {
    pub open spec fn view(&self) -> Command {
        Command {
            name: self.name@,
            literals: texts(self.literals@),
            params: params_view(self.params@),
            parts: parts_view(self.parts@),
        }
    }
}

/// One piece of a command: a word of it, or the place of an argument.
#[derive(Debug, Clone, PartialEq, Eq)]
pub enum Part {
    Literal(String),
    Arg(usize),
}

impl Part {
    pub open spec fn view(&self) -> PartModel {
        match self {
            Part::Literal(word) => PartModel::Literal(word@),
            Part::Arg(index) => PartModel::Arg(*index),
        }
    }

    fn copy(&self) -> (r: Part)
        ensures
            r@ == self@,
    {
        match self {
            Part::Literal(word) => Part::Literal(word.clone()),
            Part::Arg(index) => Part::Arg(*index),
        }
    }
}

#[derive(Debug, Clone, PartialEq, Eq)]
pub struct Param {
    pub name: String,
    pub ty: ArgType,
    /// The brigadier parser this came from. Kept because the type alone cannot say
    /// whether a resource location names a function, a predicate or a block.
    pub parser: String,
}

impl Param {
    pub open spec fn view(&self) -> ParamModel {
        ParamModel { name: self.name@, ty: self.ty, parser: self.parser@ }
    }

    fn copy(&self) -> (r: Param)
        ensures
            r@ == self@,
    {
        Param { name: self.name.clone(), ty: self.ty, parser: self.parser.clone() }
    }
}

/// What a command argument accepts, in minewell's terms.
#[derive(Debug, Clone, Copy, PartialEq, Eq, Structural)]
pub enum ArgType {
    I32,
    Bool,
    Str,
    Selector,
    Pos,
    Resource,
    Nbt,
    Component,
    /// A brigadier parser with no counterpart here. Accepts a string literal and does
    /// not look inside it.
    Raw,
}

impl ArgType {
    pub open spec fn name_text(self) -> Seq<char> {
        match self {
            ArgType::I32 => "i32"@,
            ArgType::Bool => "bool"@,
            ArgType::Str => "String"@,
            ArgType::Selector => "selector"@,
            ArgType::Pos => "Pos"@,
            ArgType::Resource => "ResourceLocation"@,
            ArgType::Nbt => "Nbt"@,
            ArgType::Component => "TextComponent"@,
            ArgType::Raw => "RawArg"@,
        }
    }

    pub fn name(&self) -> (r: &'static str)
        ensures
            r@ == self.name_text(),
    {
        match self {
            ArgType::I32 => "i32",
            ArgType::Bool => "bool",
            ArgType::Str => "String",
            ArgType::Selector => "selector",
            ArgType::Pos => "Pos",
            ArgType::Resource => "ResourceLocation",
            ArgType::Nbt => "Nbt",
            ArgType::Component => "TextComponent",
            ArgType::Raw => "RawArg",
        }
    }
}

/// The argument type a brigadier parser stands for, if it has a counterpart.
#[verifier::opaque]
pub open spec fn arg_type_of(parser: Seq<char>) -> Option<ArgType> {
    if parser == "brigadier:integer"@ || parser == "brigadier:long"@ {
        Some(ArgType::I32)
    } else if parser == "brigadier:bool"@ {
        Some(ArgType::Bool)
    } else if parser == "brigadier:string"@ || parser == "minecraft:message"@ {
        Some(ArgType::Str)
    } else if parser == "brigadier:double"@ || parser == "brigadier:float"@ {
        Some(ArgType::Raw)
    } else if parser == "minecraft:entity"@ || parser == "minecraft:game_profile"@ || parser
        == "minecraft:score_holder"@ {
        Some(ArgType::Selector)
    } else if parser == "minecraft:block_pos"@ || parser == "minecraft:vec3"@ || parser
        == "minecraft:vec2"@ || parser == "minecraft:column_pos"@ {
        Some(ArgType::Pos)
    } else if parser == "minecraft:resource_location"@ || parser == "minecraft:function"@ || parser
        == "minecraft:block_state"@ || parser == "minecraft:item_stack"@ || parser
        == "minecraft:entity_summon"@ {
        Some(ArgType::Resource)
    } else if parser == "minecraft:nbt_compound_tag"@ || parser == "minecraft:nbt_tag"@ || parser
        == "minecraft:nbt_path"@ {
        Some(ArgType::Nbt)
    } else if parser == "minecraft:component"@ || parser == "minecraft:style"@ {
        Some(ArgType::Component)
    } else {
        None
    }
}

fn arg_type(parser: &str) -> (r: Option<ArgType>)
    ensures
        r == arg_type_of(parser@),
{
    proof {
        reveal(arg_type_of);
    }
    if same(parser, "brigadier:integer") || same(parser, "brigadier:long") {
        Some(ArgType::I32)
    } else if same(parser, "brigadier:bool") {
        Some(ArgType::Bool)
    } else if same(parser, "brigadier:string") || same(parser, "minecraft:message") {
        Some(ArgType::Str)
    } else if same(parser, "brigadier:double") || same(parser, "brigadier:float") {
        Some(ArgType::Raw)
    } else if same(parser, "minecraft:entity") || same(parser, "minecraft:game_profile") || same(
        parser,
        "minecraft:score_holder",
    ) {
        Some(ArgType::Selector)
    } else if same(parser, "minecraft:block_pos") || same(parser, "minecraft:vec3") || same(
        parser,
        "minecraft:vec2",
    ) || same(parser, "minecraft:column_pos") {
        Some(ArgType::Pos)
    } else if same(parser, "minecraft:resource_location") || same(parser, "minecraft:function")
        || same(parser, "minecraft:block_state") || same(parser, "minecraft:item_stack") || same(
        parser,
        "minecraft:entity_summon",
    ) {
        Some(ArgType::Resource)
    } else if same(parser, "minecraft:nbt_compound_tag") || same(parser, "minecraft:nbt_tag")
        || same(parser, "minecraft:nbt_path") {
        Some(ArgType::Nbt)
    } else if same(parser, "minecraft:component") || same(parser, "minecraft:style") {
        Some(ArgType::Component)
    } else {
        None
    }
}

// ---------------------------------------------------------------------------
// What a tree's commands are.
// ---------------------------------------------------------------------------

/// What the walk through a tree has found: the commands in the order of their names, and
/// the parsers without a counterpart, in order and once each.
pub struct Found {
    pub commands: Seq<Command>,
    pub unknown: Seq<Seq<char>>,
}

/// The path to a node: its words, its arguments, and both in the order they stand in.
pub struct Path {
    pub literals: Seq<Seq<char>>,
    pub params: Seq<ParamModel>,
    pub parts: Seq<PartModel>,
}

/// The first position from `i` on whose command does not come before `name`.
pub open spec fn command_slot(commands: Seq<Command>, name: Seq<char>, i: int) -> int
    decreases commands.len() - i,
{
    if 0 <= i < commands.len() && before(commands[i].name, name) {
        command_slot(commands, name, i + 1)
    } else {
        i
    }
}

/// The commands with one more. The first path to a name wins: later ones are longer
/// overloads of the same literals.
pub open spec fn with_command(commands: Seq<Command>, command: Command) -> Seq<Command> {
    let slot = command_slot(commands, command.name, 0);
    if slot < commands.len() && commands[slot].name == command.name {
        commands
    } else {
        commands.insert(slot, command)
    }
}

pub open spec fn word_slot(words: Seq<Seq<char>>, word: Seq<char>, i: int) -> int
    decreases words.len() - i,
{
    if 0 <= i < words.len() && before(words[i], word) {
        word_slot(words, word, i + 1)
    } else {
        i
    }
}

/// The words with one more, in order and once each.
pub open spec fn with_word(words: Seq<Seq<char>>, word: Seq<char>) -> Seq<Seq<char>> {
    let slot = word_slot(words, word, 0);
    if slot < words.len() && words[slot] == word {
        words
    } else {
        words.insert(slot, word)
    }
}

pub open spec fn parser_of(node: NodeModel) -> Seq<char> {
    match node.parser {
        Some(name) => name,
        None => ""@,
    }
}

/// The commands at a node and below it. A redirect points back into the tree and is not
/// followed.
#[verifier::opaque]
pub open spec fn walked(node: NodeModel, path: Path, found: Found) -> Found
    decreases node, 0int, 0int,
{
    let here = if node.executable && path.literals.len() > 0 {
        Found {
            commands: with_command(
                found.commands,
                Command {
                    name: join(path.literals, "_"@),
                    literals: path.literals,
                    params: path.params,
                    parts: path.parts,
                },
            ),
            ..found
        }
    } else {
        found
    };
    if node.redirects {
        here
    } else {
        walked_children(node.children, 0, path, here)
    }
}

#[verifier::opaque]
pub open spec fn walked_children(
    children: Seq<(Seq<char>, NodeModel)>,
    i: int,
    path: Path,
    found: Found,
) -> Found
    decreases children, children.len() - i, 1int,
{
    if i < 0 || i >= children.len() {
        found
    } else {
        let (name, child) = children[i];
        let after = match child.kind {
            NodeKind::Root => found,
            NodeKind::Literal => walked(
                child,
                Path {
                    literals: path.literals.push(name),
                    parts: path.parts.push(PartModel::Literal(name)),
                    ..path
                },
                found,
            ),
            NodeKind::Argument => {
                let parser = parser_of(child);
                walked(
                    child,
                    Path {
                        params: path.params.push(
                            ParamModel {
                                name,
                                ty: match arg_type_of(parser) {
                                    Some(ty) => ty,
                                    None => ArgType::Raw,
                                },
                                parser,
                            },
                        ),
                        parts: path.parts.push(PartModel::Arg(path.params.len() as usize)),
                        ..path
                    },
                    if arg_type_of(parser) is Some {
                        found
                    } else {
                        Found { unknown: with_word(found.unknown, parser), ..found }
                    },
                )
            },
        };
        walked_children(children, i + 1, path, after)
    }
}

/// The commands of a whole tree.
pub open spec fn commands_of(root: NodeModel) -> Found {
    walked(
        root,
        Path { literals: seq![], params: seq![], parts: seq![] },
        Found { commands: seq![], unknown: seq![] },
    )
}

/// The position of the command of that name, or the number of commands.
pub open spec fn command_named(commands: Seq<Command>, name: Seq<char>, i: int) -> int
    decreases commands.len() - i,
{
    if i < 0 || i >= commands.len() {
        commands.len() as int
    } else if commands[i].name == name {
        i
    } else {
        command_named(commands, name, i + 1)
    }
}

pub open spec fn params_view(v: Seq<Param>) -> Seq<ParamModel> {
    Seq::new(v.len(), |i: int| v[i]@)
}

pub open spec fn parts_view(v: Seq<Part>) -> Seq<PartModel> {
    Seq::new(v.len(), |i: int| v[i]@)
}

pub open spec fn commands_view(v: Seq<Signature>) -> Seq<Command> {
    Seq::new(v.len(), |i: int| v[i]@)
}

// ---------------------------------------------------------------------------
// Finding them.
// ---------------------------------------------------------------------------

#[derive(Debug, Clone)]
pub struct Schema {
    /// In the order of their names.
    pub commands: Vec<Signature>,
    /// Parser names that had no counterpart, so a toolchain build can say what it
    /// approximated rather than leaving it to be discovered later.
    pub unknown_parsers: Vec<String>,
}

impl Default for Schema {
    /// No commands at all.
    fn default() -> (r: Schema)
        ensures
            r@ == Seq::<Command>::empty(),
            r.unknown_parsers@ == Seq::<String>::empty(),
    {
        let r = Schema { commands: Vec::new(), unknown_parsers: Vec::new() };
        assert(r@ =~= seq![]);
        r
    }
}

fn copy_strings(v: &Vec<String>) -> (r: Vec<String>)
    ensures
        texts(r@) == texts(v@),
{
    let mut out: Vec<String> = Vec::new();
    let mut i: usize = 0;
    while i < v.len()
        invariant
            i <= v@.len(),
            out@.len() == i,
            forall|k: int| 0 <= k < i ==> (#[trigger] out@[k])@ == v@[k]@,
        decreases v.len() - i,
    {
        out.push(v[i].clone());
        i += 1;
    }
    assert(texts(out@) =~= texts(v@));
    out
}

fn copy_params(v: &Vec<Param>) -> (r: Vec<Param>)
    ensures
        params_view(r@) == params_view(v@),
{
    let mut out: Vec<Param> = Vec::new();
    let mut i: usize = 0;
    while i < v.len()
        invariant
            i <= v@.len(),
            out@.len() == i,
            forall|k: int| 0 <= k < i ==> (#[trigger] out@[k])@ == v@[k]@,
        decreases v.len() - i,
    {
        out.push(v[i].copy());
        i += 1;
    }
    assert(params_view(out@) =~= params_view(v@));
    out
}

fn copy_parts(v: &Vec<Part>) -> (r: Vec<Part>)
    ensures
        parts_view(r@) == parts_view(v@),
{
    let mut out: Vec<Part> = Vec::new();
    let mut i: usize = 0;
    while i < v.len()
        invariant
            i <= v@.len(),
            out@.len() == i,
            forall|k: int| 0 <= k < i ==> (#[trigger] out@[k])@ == v@[k]@,
        decreases v.len() - i,
    {
        out.push(v[i].copy());
        i += 1;
    }
    assert(parts_view(out@) =~= parts_view(v@));
    out
}

/// The words of a command with its parameters in their places.
pub open spec fn spelled_words(command: Command) -> Seq<Seq<char>> {
    Seq::new(
        command.parts.len(),
        |i: int|
            match command.parts[i] {
                PartModel::Literal(word) => word,
                PartModel::Arg(index) => if index < command.params.len() {
                    "<"@ + command.params[index as int].name + ">"@
                } else {
                    "<>"@
                },
            },
    )
}

/// `playsound <sound> master <targets>`.
pub open spec fn spelled(command: Command) -> Seq<char> {
    join(spelled_words(command), " "@)
}

pub open spec fn param_texts(params: Seq<ParamModel>) -> Seq<Seq<char>> {
    Seq::new(params.len(), |i: int| params[i].name + ": "@ + params[i].ty.name_text())
}

/// How the command is called from minewell, and how vanilla wants it written. Both, because
/// they do not agree: the name is the literal path joined up, the arguments come in the
/// order the tree puts them, and a literal can sit between two of them.
pub open spec fn described(command: Command) -> Seq<char> {
    "```mwl\n"@ + command.name + "("@ + join(param_texts(command.params), ", "@)
        + ")\n```\n---\n```mcfunction\n"@ + spelled(command) + "\n```"@
}

impl Signature {
    /// `playsound <sound> master <targets>`.
    pub fn spelling(&self) -> (r: String)
        ensures
            r@ == spelled(self@),
    {
        let ghost shown = spelled_words(self@);
        let mut words: Vec<String> = Vec::new();
        let mut i: usize = 0;
        while i < self.parts.len()
            invariant
                i <= self.parts@.len(),
                shown == spelled_words(self@),
                words@.len() == i,
                forall|k: int| 0 <= k < i ==> (#[trigger] words@[k])@ == shown[k],
            decreases self.parts.len() - i,
        {
            let word = match &self.parts[i] {
                Part::Literal(word) => word.clone(),
                Part::Arg(index) => {
                    if *index < self.params.len() {
                        cat3("<", self.params[*index].name.as_str(), ">")
                    } else {
                        own("<>")
                    }
                },
            };
            words.push(word);
            i += 1;
        }
        proof {
            assert(texts(words@) =~= shown);
        }
        join_texts(&words, " ")
    }

    /// What an editor shows for the command.
    pub fn describe(&self) -> (r: String)
        ensures
            r@ == described(self@),
    {
        let ghost shown = param_texts(self@.params);
        let mut params: Vec<String> = Vec::new();
        let mut i: usize = 0;
        while i < self.params.len()
            invariant
                i <= self.params@.len(),
                shown == param_texts(self@.params),
                params@.len() == i,
                forall|k: int| 0 <= k < i ==> (#[trigger] params@[k])@ == shown[k],
            decreases self.params.len() - i,
        {
            params.push(cat3(self.params[i].name.as_str(), ": ", self.params[i].ty.name()));
            i += 1;
        }
        proof {
            assert(texts(params@) =~= shown);
        }
        cat7(
            "```mwl\n",
            self.name.as_str(),
            "(",
            join_texts(&params, ", ").as_str(),
            ")\n```\n---\n```mcfunction\n",
            self.spelling().as_str(),
            "\n```",
        )
    }
}

/// The commands with one put where its name belongs, in place of any of that name.
pub open spec fn replaced(commands: Seq<Command>, command: Command) -> Seq<Command> {
    let at = command_slot(commands, command.name, 0);
    if at < commands.len() && commands[at].name == command.name {
        commands.update(at, command)
    } else {
        commands.insert(at, command)
    }
}

/// The commands after renaming them, from the `i`th rename on, and the names that no
/// command had.
pub open spec fn renamed(
    commands: Seq<Command>,
    renames: Seq<(Seq<char>, Seq<char>)>,
    i: int,
    stale: Seq<Seq<char>>,
) -> (Seq<Command>, Seq<Seq<char>>)
    decreases renames.len() - i,
{
    if i < 0 || i >= renames.len() {
        (commands, stale)
    } else {
        let at = command_named(commands, renames[i].0, 0);
        if at >= commands.len() {
            renamed(commands, renames, i + 1, stale.push(renames[i].0))
        } else {
            renamed(
                replaced(commands.remove(at), Command { name: renames[i].1, ..commands[at] }),
                renames,
                i + 1,
                stale,
            )
        }
    }
}

impl Schema {
    pub open spec fn view(&self) -> Seq<Command> {
        commands_view(self.commands@)
    }

    spec fn found(&self) -> Found {
        Found { commands: commands_view(self.commands@), unknown: texts(self.unknown_parsers@) }
    }

    /// The commands of a tree.
    ///
    /// An unknown parser is a warning, not an error: a snapshot that adds one argument
    /// type must not make the whole toolchain unbuildable.
    pub fn from_tree(root: &Node) -> (r: Schema)
        ensures
            r@ == commands_of(root@).commands,
            texts(r.unknown_parsers@) == commands_of(root@).unknown,
    {
        let mut schema = Schema { commands: Vec::new(), unknown_parsers: Vec::new() };
        let mut trail = Trail { literals: Vec::new(), params: Vec::new(), parts: Vec::new() };
        proof {
            assert(schema.found().commands =~= seq![]);
            assert(schema.found().unknown =~= seq![]);
            assert(trail@.literals =~= seq![]);
            assert(trail@.params =~= seq![]);
            assert(trail@.parts =~= seq![]);
        }
        schema.walk(root, &mut trail);
        schema
    }

    pub fn get(&self, name: &str) -> (r: Option<&Signature>)
        ensures
            ({
                let i = command_named(self@, name@, 0);
                match r {
                    Some(signature) => i < self@.len() && signature@ == self@[i],
                    None => i == self@.len(),
                }
            }),
    {
        let mut i: usize = 0;
        while i < self.commands.len()
            invariant
                i <= self.commands@.len(),
                command_named(self@, name@, 0) == command_named(self@, name@, i as int),
            decreases self.commands.len() - i,
        {
            if same(self.commands[i].name.as_str(), name) {
                return Some(&self.commands[i]);
            }
            i += 1;
        }
        None
    }

    fn add(&mut self, signature: Signature)
        ensures
            final(self).found() == (Found {
                commands: with_command(old(self).found().commands, signature@),
                ..old(self).found()
            }),
    {
        let mut slot: usize = 0;
        while slot < self.commands.len() && precedes(
            self.commands[slot].name.as_str(),
            signature.name.as_str(),
        )
            invariant
                slot <= self.commands@.len(),
                command_slot(self@, signature@.name, 0) == command_slot(
                    self@,
                    signature@.name,
                    slot as int,
                ),
            decreases self.commands.len() - slot,
        {
            slot += 1;
        }
        if slot < self.commands.len() && same(
            self.commands[slot].name.as_str(),
            signature.name.as_str(),
        ) {
            return;
        }
        let ghost shown = signature@;
        let ghost before = self@;
        self.commands.insert(slot, signature);
        proof {
            assert(self@ =~= before.insert(slot as int, shown));
        }
    }

    /// Renames commands, in the order of the names they had, and gives back the names that
    /// no command had.
    pub fn rename(&mut self, renames: &TextMap) -> (r: Vec<String>)
        ensures
            (final(self)@, texts(r@)) == renamed(old(self)@, renames@, 0, seq![]),
            final(self).unknown_parsers == old(self).unknown_parsers,
    {
        let ghost start = self@;
        let mut stale: Vec<String> = Vec::new();
        proof {
            assert(texts(stale@) =~= seq![]);
        }
        let n: usize = renames.len();
        let mut i: usize = 0;
        while i < n
            invariant
                i <= n,
                n == renames@.len(),
                self.unknown_parsers == old(self).unknown_parsers,
                renamed(start, renames@, 0, seq![]) == renamed(
                    self@,
                    renames@,
                    i as int,
                    texts(stale@),
                ),
            decreases n - i,
        {
            let (from, to) = renames.entry(i);
            let at: usize = self.find(from);
            if at >= self.commands.len() {
                let ghost before = texts(stale@);
                stale.push(own(from));
                proof {
                    assert(texts(stale@) =~= before.push(from@));
                }
            } else {
                let ghost before = self@;
                let mut command = self.commands.remove(at);
                proof {
                    assert(self@ =~= before.remove(at as int));
                }
                command.name = own(to);
                self.replace(command);
            }
            i += 1;
        }
        stale
    }

    fn find(&self, name: &str) -> (r: usize)
        ensures
            r == command_named(self@, name@, 0),
            r <= self.commands@.len(),
    {
        let mut i: usize = 0;
        while i < self.commands.len() && !same(self.commands[i].name.as_str(), name)
            invariant
                i <= self.commands@.len(),
                command_named(self@, name@, 0) == command_named(self@, name@, i as int),
            decreases self.commands.len() - i,
        {
            i += 1;
        }
        i
    }

    fn replace(&mut self, command: Signature)
        ensures
            final(self).unknown_parsers == old(self).unknown_parsers,
            final(self)@ == replaced(old(self)@, command@),
    {
        let ghost before = self@;
        let ghost shown = command@;
        let mut slot: usize = 0;
        while slot < self.commands.len() && precedes(
            self.commands[slot].name.as_str(),
            command.name.as_str(),
        )
            invariant
                slot <= self.commands@.len(),
                before == self@,
                command_slot(before, command@.name, 0) == command_slot(
                    before,
                    command@.name,
                    slot as int,
                ),
            decreases self.commands.len() - slot,
        {
            slot += 1;
        }
        if slot < self.commands.len() && same(
            self.commands[slot].name.as_str(),
            command.name.as_str(),
        ) {
            self.commands.set(slot, command);
            proof {
                assert(self@ =~= before.update(slot as int, shown));
            }
        } else {
            self.commands.insert(slot, command);
            proof {
                assert(self@ =~= before.insert(slot as int, shown));
            }
        }
    }

    fn add_unknown(&mut self, parser: &str)
        ensures
            final(self).found() == (Found {
                unknown: with_word(old(self).found().unknown, parser@),
                ..old(self).found()
            }),
    {
        let mut slot: usize = 0;
        while slot < self.unknown_parsers.len() && precedes(
            self.unknown_parsers[slot].as_str(),
            parser,
        )
            invariant
                slot <= self.unknown_parsers@.len(),
                word_slot(self.found().unknown, parser@, 0) == word_slot(
                    self.found().unknown,
                    parser@,
                    slot as int,
                ),
            decreases self.unknown_parsers.len() - slot,
        {
            slot += 1;
        }
        if slot < self.unknown_parsers.len() && same(
            self.unknown_parsers[slot].as_str(),
            parser,
        ) {
            return;
        }
        let ghost before = self.found().unknown;
        self.unknown_parsers.insert(slot, own(parser));
        proof {
            assert(self.found().unknown =~= before.insert(slot as int, parser@));
        }
    }

    #[verifier::spinoff_prover]
    fn walk(&mut self, node: &Node, trail: &mut Trail)
        ensures
            final(self).found() == walked(node@, old(trail)@, old(self).found()),
            final(trail)@ == old(trail)@,
        decreases node, 0int, 0int,
    {
        proof {
            reveal(walked);
            reveal(walked_children);
        }
        if node.executable && trail.literals.len() > 0 {
            let signature = Signature {
                name: join_texts(&trail.literals, "_"),
                literals: copy_strings(&trail.literals),
                params: copy_params(&trail.params),
                parts: copy_parts(&trail.parts),
            };
            self.add(signature);
        }
        if node.redirect.is_some() {
            return;
        }
        let ghost shown = Seq::new(
            node.children@.len(),
            |i: int| (node.children@[i].0@, node.children@[i].1@),
        );
        proof {
            assert(node@.children =~= shown);
        }
        self.walk_children(&node.children, trail, Ghost(shown));
    }

    #[verifier::spinoff_prover]
    fn walk_children(
        &mut self,
        children: &Vec<(String, Node)>,
        trail: &mut Trail,
        Ghost(shown): Ghost<Seq<(Seq<char>, NodeModel)>>,
    )
        requires
            shown == Seq::new(children@.len(), |i: int| (children@[i].0@, children@[i].1@)),
        ensures
            final(self).found() == walked_children(shown, 0, old(trail)@, old(self).found()),
            final(trail)@ == old(trail)@,
        decreases children, 0int, 1int,
    {
        let mut i: usize = 0;
        while i < children.len()
            invariant
                i <= children@.len(),
                shown == Seq::new(children@.len(), |i: int| (children@[i].0@, children@[i].1@)),
                trail@ == old(trail)@,
                walked_children(shown, 0, old(trail)@, old(self).found()) == walked_children(
                    shown,
                    i as int,
                    trail@,
                    self.found(),
                ),
            decreases children.len() - i,
        {
            proof {
                reveal(walked_children);
                reveal(walked);
                assert(decreases_to!(children => children[i as int]));
                assert(decreases_to!(children[i as int] => children[i as int].1));
                assert(shown[i as int] == (children@[i as int].0@, children@[i as int].1@));
            }
            let name = &children[i].0;
            let child = &children[i].1;
            let ghost before = trail@;
            match child.kind {
                NodeKind::Root => {},
                NodeKind::Literal => {
                    trail.literals.push(name.clone());
                    trail.parts.push(Part::Literal(name.clone()));
                    proof {
                        assert(trail@.literals =~= before.literals.push(name@));
                        assert(trail@.parts =~= before.parts.push(PartModel::Literal(name@)));
                    }
                    self.walk(child, trail);
                    let ghost inside = trail@;
                    let _word = trail.literals.pop();
                    let _part = trail.parts.pop();
                    proof {
                        assert(trail@.literals =~= inside.literals.drop_last());
                        assert(trail@.parts =~= inside.parts.drop_last());
                        assert(inside.literals.drop_last() =~= before.literals);
                        assert(inside.parts.drop_last() =~= before.parts);
                    }
                },
                NodeKind::Argument => {
                    let parser = match &child.parser {
                        Some(parser) => parser.clone(),
                        None => own(""),
                    };
                    let ty = match arg_type(parser.as_str()) {
                        Some(ty) => ty,
                        None => {
                            self.add_unknown(parser.as_str());
                            ArgType::Raw
                        },
                    };
                    trail.parts.push(Part::Arg(trail.params.len()));
                    let param = Param { name: name.clone(), ty, parser };
                    let ghost added = param@;
                    trail.params.push(param);
                    proof {
                        assert(trail@.params =~= before.params.push(added));
                        assert(trail@.parts =~= before.parts.push(
                            PartModel::Arg(before.params.len() as usize),
                        ));
                    }
                    self.walk(child, trail);
                    let ghost inside = trail@;
                    let _param = trail.params.pop();
                    let _part = trail.parts.pop();
                    proof {
                        assert(trail@.params =~= inside.params.drop_last());
                        assert(trail@.parts =~= inside.parts.drop_last());
                        assert(inside.params.drop_last() =~= before.params);
                        assert(inside.parts.drop_last() =~= before.parts);
                    }
                },
            }
            i += 1;
        }
        proof {
            reveal(walked_children);
        }
    }
}

/// The path to the node being looked at.
struct Trail {
    literals: Vec<String>,
    params: Vec<Param>,
    parts: Vec<Part>,
}

impl Trail {
    spec fn view(&self) -> Path {
        Path {
            literals: texts(self.literals@),
            params: params_view(self.params@),
            parts: parts_view(self.parts@),
        }
    }
}

// ---------------------------------------------------------------------------
// What holds of every tree.
// ---------------------------------------------------------------------------

/// Whether the commands are in the order of their names, each name once.
pub open spec fn ordered(commands: Seq<Command>) -> bool {
    forall|i: int, j: int|
        0 <= i < j < commands.len() ==> before(commands[i].name, commands[j].name)
}

/// Whether the words are in order, each once.
pub open spec fn ordered_words(words: Seq<Seq<char>>) -> bool {
    forall|i: int, j: int| 0 <= i < j < words.len() ==> before(words[i], words[j])
}

proof fn lemma_command_slot(commands: Seq<Command>, name: Seq<char>, i: int)
    requires
        0 <= i <= commands.len(),
    ensures
        i <= command_slot(commands, name, i) <= commands.len(),
        forall|k: int|
            i <= k < command_slot(commands, name, i) ==> before((#[trigger] commands[k]).name, name),
        command_slot(commands, name, i) < commands.len() ==> !before(
            commands[command_slot(commands, name, i)].name,
            name,
        ),
    decreases commands.len() - i,
{
    if i < commands.len() && before(commands[i].name, name) {
        lemma_command_slot(commands, name, i + 1);
    }
}

proof fn lemma_inserting_keeps_order(commands: Seq<Command>, command: Command)
    requires
        ordered(commands),
        ({
            let at = command_slot(commands, command.name, 0);
            !(at < commands.len() && commands[at].name == command.name)
        }),
    ensures
        ordered(commands.insert(command_slot(commands, command.name, 0), command)),
{
    lemma_command_slot(commands, command.name, 0);
    let at = command_slot(commands, command.name, 0);
    let made = commands.insert(at, command);
    assert forall|i: int, j: int| 0 <= i < j < made.len() implies before(
        made[i].name,
        made[j].name,
    ) by {
        if i == at {
            lemma_before_total(commands[at].name, command.name);
            if j - 1 > at {
                lemma_before_transitive(command.name, commands[at].name, commands[j - 1].name);
            }
        }
    }
}

proof fn lemma_word_slot(words: Seq<Seq<char>>, word: Seq<char>, i: int)
    requires
        0 <= i <= words.len(),
    ensures
        i <= word_slot(words, word, i) <= words.len(),
        forall|k: int| i <= k < word_slot(words, word, i) ==> before(#[trigger] words[k], word),
        word_slot(words, word, i) < words.len() ==> !before(
            words[word_slot(words, word, i)],
            word,
        ),
    decreases words.len() - i,
{
    if i < words.len() && before(words[i], word) {
        lemma_word_slot(words, word, i + 1);
    }
}

proof fn lemma_with_word_keeps_order(words: Seq<Seq<char>>, word: Seq<char>)
    requires
        ordered_words(words),
    ensures
        ordered_words(with_word(words, word)),
{
    lemma_word_slot(words, word, 0);
    let at = word_slot(words, word, 0);
    let made = with_word(words, word);
    if !(at < words.len() && words[at] == word) {
        assert forall|i: int, j: int| 0 <= i < j < made.len() implies before(
            made[i],
            made[j],
        ) by {
            if i == at {
                lemma_before_total(words[at], word);
                if j - 1 > at {
                    lemma_before_transitive(word, words[at], words[j - 1]);
                }
            }
        }
    }
}

/// The words among the parts of a command.
pub open spec fn literal_parts(parts: Seq<PartModel>) -> Seq<Seq<char>>
    decreases parts.len(),
{
    if parts.len() == 0 {
        seq![]
    } else {
        match parts.last() {
            PartModel::Literal(word) => literal_parts(parts.drop_last()).push(word),
            PartModel::Arg(_) => literal_parts(parts.drop_last()),
        }
    }
}

/// How many of the parts of a command are arguments.
pub open spec fn arg_parts(parts: Seq<PartModel>) -> nat
    decreases parts.len(),
{
    if parts.len() == 0 {
        0
    } else {
        match parts.last() {
            PartModel::Literal(_) => arg_parts(parts.drop_last()),
            PartModel::Arg(_) => arg_parts(parts.drop_last()) + 1,
        }
    }
}

/// Whether the parts of a command are its words and its arguments, and its name is its
/// words.
pub open spec fn whole(command: Command) -> bool {
    &&& command.name == join(command.literals, "_"@)
    &&& command.literals.len() > 0
    &&& literal_parts(command.parts) == command.literals
    &&& arg_parts(command.parts) == command.params.len()
}

/// Whether what was found so far is in order and whole.
pub open spec fn sound(found: Found) -> bool {
    &&& ordered(found.commands)
    &&& ordered_words(found.unknown)
    &&& forall|i: int| 0 <= i < found.commands.len() ==> whole(#[trigger] found.commands[i])
}

proof fn lemma_walk_stays_sound(node: NodeModel, path: Path, found: Found)
    requires
        sound(found),
        literal_parts(path.parts) == path.literals,
        arg_parts(path.parts) == path.params.len(),
    ensures
        sound(walked(node, path, found)),
    decreases node, 0int, 0int,
{
    reveal(walked);
    reveal(walked_children);
    let command = Command {
        name: join(path.literals, "_"@),
        literals: path.literals,
        params: path.params,
        parts: path.parts,
    };
    let here = if node.executable && path.literals.len() > 0 {
        Found { commands: with_command(found.commands, command), ..found }
    } else {
        found
    };
    if node.executable && path.literals.len() > 0 {
        let at = command_slot(found.commands, command.name, 0);
        lemma_command_slot(found.commands, command.name, 0);
        if !(at < found.commands.len() && found.commands[at].name == command.name) {
            lemma_inserting_keeps_order(found.commands, command);
            assert forall|i: int| 0 <= i < here.commands.len() implies whole(
                #[trigger] here.commands[i],
            ) by {
                if i > at {
                    assert(here.commands[i] == found.commands[i - 1]);
                }
            }
        }
    }
    if !node.redirects {
        lemma_walking_children_stays_sound(node.children, 0, path, here);
    }
}

proof fn lemma_walking_children_stays_sound(
    children: Seq<(Seq<char>, NodeModel)>,
    i: int,
    path: Path,
    found: Found,
)
    requires
        sound(found),
        literal_parts(path.parts) == path.literals,
        arg_parts(path.parts) == path.params.len(),
    ensures
        sound(walked_children(children, i, path, found)),
    decreases children, children.len() - i, 1int,
{
    reveal(walked);
    reveal(walked_children);
    if 0 <= i < children.len() {
        let (name, child) = children[i];
        match child.kind {
            NodeKind::Root => {
                lemma_walking_children_stays_sound(children, i + 1, path, found);
            },
            NodeKind::Literal => {
                let below = Path {
                    literals: path.literals.push(name),
                    parts: path.parts.push(PartModel::Literal(name)),
                    ..path
                };
                assert(below.parts.drop_last() =~= path.parts);
                lemma_walk_stays_sound(child, below, found);
                lemma_walking_children_stays_sound(
                    children,
                    i + 1,
                    path,
                    walked(child, below, found),
                );
            },
            NodeKind::Argument => {
                let parser = parser_of(child);
                let ty = match arg_type_of(parser) {
                    Some(ty) => ty,
                    None => ArgType::Raw,
                };
                let below = Path {
                    params: path.params.push(ParamModel { name, ty, parser }),
                    parts: path.parts.push(PartModel::Arg(path.params.len() as usize)),
                    ..path
                };
                let seen = if arg_type_of(parser) is Some {
                    found
                } else {
                    Found { unknown: with_word(found.unknown, parser), ..found }
                };
                assert(below.parts.drop_last() =~= path.parts);
                lemma_with_word_keeps_order(found.unknown, parser);
                lemma_walk_stays_sound(child, below, seen);
                lemma_walking_children_stays_sound(
                    children,
                    i + 1,
                    path,
                    walked(child, below, seen),
                );
            },
        }
    }
}

/// The commands of every tree come in the order of their names, each name once. Each is
/// named by its words, and its parts are its words and as many arguments as it takes.
pub proof fn lemma_commands_are_in_order(root: NodeModel)
    ensures
        sound(commands_of(root)),
{
    lemma_walk_stays_sound(
        root,
        Path { literals: seq![], params: seq![], parts: seq![] },
        Found { commands: seq![], unknown: seq![] },
    );
}

/// Renaming keeps the commands in order.
pub proof fn lemma_renaming_keeps_order(
    commands: Seq<Command>,
    renames: Seq<(Seq<char>, Seq<char>)>,
    i: int,
    stale: Seq<Seq<char>>,
)
    requires
        ordered(commands),
    ensures
        ordered(renamed(commands, renames, i, stale).0),
    decreases renames.len() - i,
{
    if 0 <= i < renames.len() {
        let at = command_named(commands, renames[i].0, 0);
        if at >= commands.len() {
            lemma_renaming_keeps_order(commands, renames, i + 1, stale.push(renames[i].0));
        } else {
            lemma_command_named(commands, renames[i].0, 0);
            let rest = commands.remove(at);
            let command = Command { name: renames[i].1, ..commands[at] };
            assert(ordered(rest)) by {
                assert forall|a: int, b: int| 0 <= a < b < rest.len() implies before(
                    rest[a].name,
                    rest[b].name,
                ) by {
                    let x = if a < at { a } else { a + 1 };
                    let y = if b < at { b } else { b + 1 };
                    assert(rest[a] == commands[x]);
                    assert(rest[b] == commands[y]);
                }
            }
            let slot = command_slot(rest, command.name, 0);
            lemma_command_slot(rest, command.name, 0);
            if !(slot < rest.len() && rest[slot].name == command.name) {
                lemma_inserting_keeps_order(rest, command);
            }
            lemma_renaming_keeps_order(replaced(rest, command), renames, i + 1, stale);
        }
    }
}

proof fn lemma_command_named(commands: Seq<Command>, name: Seq<char>, i: int)
    requires
        0 <= i <= commands.len(),
    ensures
        i <= command_named(commands, name, i) <= commands.len(),
        command_named(commands, name, i) < commands.len() ==> commands[command_named(
            commands,
            name,
            i,
        )].name == name,
        forall|k: int| i <= k < command_named(commands, name, i) ==> commands[k].name != name,
    decreases commands.len() - i,
{
    if i < commands.len() && commands[i].name != name {
        lemma_command_named(commands, name, i + 1);
    }
}

/// A command of a tree is found by its name, and nothing else is.
pub proof fn lemma_commands_are_found(commands: Seq<Command>, name: Seq<char>, k: int)
    requires
        ordered(commands),
        0 <= k < commands.len(),
    ensures
        commands[k].name == name <==> command_named(commands, name, 0) == k,
{
    lemma_command_named(commands, name, 0);
    let at = command_named(commands, name, 0);
    if commands[k].name == name && at < k {
        lemma_before_irreflexive(name);
        assert(before(commands[at].name, commands[k].name));
    }
}

} // verus!
