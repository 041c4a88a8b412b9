# rew

`rew` rewrites values (usually file paths) according to a pattern such as
`{b}.{e|^}`: constants are copied to the output, expressions are replaced by
the input value passed through their filters.

The library in `src/` is written in Verus. Its functions carry contracts over
mathematical models (`Seq`, `Map`, views of the types) and are verified, except
the small wrappers around outside crates described below:

- `reader`, `lexer`, `parser`, `pattern`: reading a pattern source into items
  and filters, and evaluating it. Parsing is specified by spec functions over
  the source characters; errors carry byte ranges that lie within the source.
- `filter`: the filters of the pattern language (path, substring, column,
  replace, regex match, replace and switch, capture groups, format,
  generators); a column that names no separator uses the configured one.
- `range`, `substr`, `number`, `matcher`, `field`, `column`, `split`, `switch`,
  `variable`, `repetition`, `padding`, `substitution`: the parts that filters
  are made of.
- `counter`, `io`, `output`, `explain`, `args`, `run`: counters, line reading,
  the pieces of output and of pattern explanations, command options, and
  the decisions of a run (output mode, terminator, quoting, exit codes, and
  the counters and captures with which each value is evaluated).

Calls into `regex`, `normpath`, `pathdiff`, `memchr`, `unidecode`, `rand`,
`uuid` and a few std functions go through small wrappers. Their bodies are not
verified: their contracts are trusted, and say only what those crates document;
results that take pages to describe are named by uninterpreted spec functions.
Regular expressions are only ever compiled from their pattern text by
`Regex::new`, so that what a regex does is a function of that text.

`app/main.rs` is the command line program: argument parsing, reading input,
writing output and setting the exit code; it leaves the decisions to the
library.
