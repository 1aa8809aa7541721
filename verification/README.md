# click

A library for command-line interfaces: commands with options and arguments,
groups of subcommands (also chained), contexts that carry parsed values and
where they came from, help and usage text, shell completion, and a test runner.
The library under `src/` is written in Verus, and its functions are proved
against their contracts; `app/` holds what cannot be verified: the process
environment, terminal and file input and output, the context stack of a thread,
and floating-point progress display.

## Layout

- `src/parser.rs`: the command-line parser (option tables, prefixes, unpacking
  of positional values) and the edit distance used for suggestions.
- `src/command.rs`, `src/group.rs`: commands, groups and collections; how a
  command line is parsed into a context (command line, environment, default
  map, default, in that order) and how groups dispatch to their subcommands.
- `src/context.rs`: contexts and their builder; inheritance from the parent.
- `src/option.rs`, `src/argument.rs`, `src/parameter.rs`, `src/types.rs`:
  parameters and the conversion of their values.
- `src/formatting.rs`, `src/termui.rs`: help layout, styling, prompts.
- `src/completion.rs`, `src/complete.rs`: shell completion.
- `src/laws.rs`: properties of the library as a whole.

## Maps keyed by strings

Parameter values, sources, environment variables and subcommand tables are held
in `StrMap` (`src/strmap.rs`), an association list whose contract is a
`Map<Seq<char>, V>`: an insertion replaces the entry of its key, as in a hash
map. Verus does not refuse a standard `HashMap<String, V>`: its calls verify,
but with `String` keys nothing is proved of what the map holds after them (not
even its length after one insertion), since vstd gives `HashMap` its contracts
only for keys whose hashing it knows. So the maps are kept in a form whose
every operation is proved. Where order matters (help output, completion), names are sorted.
