# kerf

The verified core of the kerf language toolchain: the reader, the expander's
rules, the module system, the capability checks, the runtime heap and the
compilation cache, written in Verus with their behaviour stated as contracts.

## Layout

- `src/` — the library, verified by Verus.
  - `lexer`, `token`, `parser`: source text to tokens (reserved words as
    keyword tokens) to syntax objects, with exact byte spans.
  - `sugar`, `syntax_rules`, `forms`, `expander`, `recover`, `qualified`,
    `bindings`, `reserved`: the expansion rules, hygiene and the reserved-name
    checks.
  - `phase`, `modules`, `imports`, `module_rules`, `front`: modules, imports,
    phase separation and cycle detection.
  - `capability`, `io`, `ffi`: the I/O capabilities a program declares and
    what it may call.
  - `heap`, `gc`: the runtime heap, pinning and mark-sweep collection.
  - `strings`: the string and character builtins on plain text.
  - `arith`, `bytecode`, `wire`: the integer arithmetic of the builtins, the
    instruction set, and the wire form of expanded programs exchanged with the
    self-hosted stages.
  - `cache`: the content-addressed compilation cache (SHA-256 through `sha2`).
  - `diagnostic`, `source_map`, `span`, `report`, `driver`: diagnostics and
    their rendering, the driver's errors and test reports.
- `tests/` — tests of the library's public functions.
- `app/` — the parts that run outside the verifier: the command-line driver,
  the virtual machine's builtins, terminal I/O and the bridges to the
  self-hosted expander and compiler.
