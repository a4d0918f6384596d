# xact

Xact is a deterministic, semantic shell. It accepts a small typed language —
`£` imperative commands, `!` policy statements and `@` agent blocks — and
turns each accepted line into a real action carried out by external tools
(`bank`, `gls`/`bat`, `bound`, `ollama`, or a spawned program).

## Layout

- `src/` is the library, verified with Verus. It holds the language pipeline
  (lexer, parser, semantic validation of ownership and references, policy
  evaluation, completion), the session that ties it together, the planner,
  and every decision around execution: what a tool's raw result means, where
  a program is looked for, what a resource budget asks of cgroup v2, what
  dynamic completion lists, which concurrent branch a `WHEN` clause waits
  on, and which children a cancellation signals. The grammar is stated once
  as spec functions, and each parsing function is proved to compute exactly
  what they say; the laws the language promises (a rejected line changes
  nothing, completion only offers what the parser accepts, policy stays
  consistent, and so on) are stated and proved as proof functions.
- `app/` is the interactive REPL and the I/O around the library: reading
  lines, running the tools, writing cgroup files, listing directories,
  sending signals.
- `tests/` exercises the library on concrete inputs.
