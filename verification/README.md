# rlox

A small scripting language: a scanner, a one-pass compiler to bytecode, a
virtual machine, a debugger that pauses, steps and takes snapshots, and the
logic of a language server. Everything under `src/` is verified with Verus, on
the strength of two specifications that are taken on trust: that of
`String::push` (in `text`), and that of `serde_json::to_string` on a text (in
`wire_diagnostic`).

- `text`, `source`, `scanner`: texts, positions and tokens.
- `parser`, `scopes`, `rules`, `expressions`, `statements`, `compiler`: the
  compiler. For each construct there is a specification of what it makes of the
  compiler's state. `expression_laws` and `compiling_laws` hold what is true of
  every compilation.
- `chunk`, `value`, `number`, `table`, `object`, `debug_info`, `disassembly`:
  code, values and the heap.
- `machine` specifies one instruction, `vm` carries it out, and `machine_laws`
  says what every execution keeps. `loader`, `faults`, `format` and `garbage`
  belong to the machine too.
- `runtime_host`, `interpreter`, `session`, `interpreter_session`: running
  programs, with or without a debugger.
- `snapshot` and the modules beside it, `picture`: what a paused program shows,
  within limits.
- `analysis`, `symbols`, `documents`, `document_store`, `server`, `text_index`:
  what an editor asks for.
- `console`, `command_line`, `wire`, `wire_diagnostic`: what goes to people and
  to other programs.

Numbers are floating point. The library holds them as bit patterns, compares
and converts them itself, and leaves arithmetic, parsing and printing to an
implementation of `Arithmetic`; `app/floats.rs` is one.

`app/` is the program around the library: a prompt, a runner for files, and a
language server on standard input and output.
