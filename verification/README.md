# mwlc

A compiler for a Rust-like language that becomes a Minecraft Java Edition datapack:
`.mwl` source in, `.mcfunction` files out. The compiler is verified with Verus; what it
says about every construct, down to the text of the commands, is stated and proved.

| Path | What |
|---|---|
| `src/syntax` | tokens and the syntax tree. `lexer` and `grammar` state what a text is read as |
| `src/hir` | names resolved, types checked. `rules` states what each construct means and what is wrong with it where it means nothing; `lower` does it |
| `src/mir` | scoreboard registers and storage paths. `rules` states what each construct becomes |
| `src/emit.rs` | the commands, and the files of the pack |
| `src/cost.rs` | how many commands a call runs |
| `src/schema.rs` | the commands of one Minecraft version |
| `src/driver.rs` | text to pack |
| `src/testing.rs` | what a run of a project's tests comes to |
| `src/server.rs` | what a language server does with each message |
| `src/editor.rs`, `src/symbols.rs` | positions, words and names, as an editor counts and asks for them |
| `app` | the `mwl` command line: files, toolchains on disk, the language server's wire |

Contracts speak of models: `syntax::model`, `hir::model` and `mir::model` hold the
mathematical counterpart of every tree, and each executable type's `view` is one of them.

What holds of every program stands beside what it is about, as public proof functions:

| Path | What |
|---|---|
| `src/syntax/laws.rs`, `src/syntax/reading.rs` | tokens come in order, quoted text is read back, one mistake hides nothing |
| `src/hir/rules/laws` | bindings and contexts end with their block, problems are kept, every type answers to its name, each generic instance is made once, what matching binds turns a declared type into the actual one |
| `src/hir/types.rs` | names of types fit a path of the pack |
| `src/mir/meaning.rs` | lowered expressions, assignments and conditions compute what was written; what a frame was filled with comes back |
| `src/mir/growing.rs` | lowering loses neither commands nor functions nor problems; what is in use before a recursive call is in its frame |
| `src/driver.rs`, `src/symbols.rs`, `src/server.rs` | the files of a pack stay, a later name comes first, a document has its last text |
