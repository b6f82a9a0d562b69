# anix

A tree-walking interpreter for a small subset of the Lox language of
*Crafting Interpreters*: variable declarations, assignment, print and
expression statements, arithmetic, comparison, equality and logical not.

`src/` is the library, verified with Verus: the scanner (`scanner`), the
grammar and its recursive-descent parser (`grammar`, `parser`), the printers
(`expr`, `stmt`), the bindings (`environment`), the evaluator (`interpreter`),
the texts of diagnostics and a whole run of a source, from scanning to the
lines it writes (`runner`), and properties that span them (`laws`).

Floating-point parsing, formatting and arithmetic are left to the host
program. A number is carried as its IEEE-754 binary64 encoding with its
decimal rendering; the scanner and the interpreter stop and name the number
work they need, the host supplies the result, and the scan or the run is
repeated with it. `app/` is that host: the command line, files, the prompt,
the floating-point work, and writing the lines a run hands back.
