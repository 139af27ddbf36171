# rxscan

The verified core of a small network scanner:

- `parser` — a boolean expression language (`true`, `false`, `!`, `&&`, `||`,
  parentheses) with its grammar, evaluator, and proved laws (literals,
  negation, conjunction, disjunction of parenthesised sentences).
- `bullet` — application fingerprints: rules such as
  `(Body="Swagger UI" || Header="x") && Title!="404"` over the fields of a
  `models::Banner`, their parsing into parameters and a logical skeleton,
  matching, and the fingerprint database (loading, searching).
- `fingerprint` — a database loaded from the text of a fingerprint file, set
  at most once.
- `command` — the sub-commands' arguments, the port list syntax
  (`80,443,1000-2000`) and help topics.
- `pattern` — the calls into the `regex` crate, whose results the contracts
  name.
- `text` — character-sequence operations (trim, split, replace, lines,
  decimal) with their definitions.

`app/` is the command-line program around the library: argument parsing,
logging, the task pool, file reading, and the process-wide databases.
