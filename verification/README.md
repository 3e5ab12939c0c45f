# regatelisp

A small Lisp with a compiler-style pipeline, written in Verus. Source text is
read into S-expressions, user macros are expanded, `meta` annotations are
checked, `for` forms are unrolled at expansion time, names are resolved into a
structured IR, the IR is checked and then evaluated. `module` forms can also be
lowered to a hardware IR, checked, and printed as SystemVerilog.

## Layout

- `src/` — the verified library. The reader, `for` expansion, the IR checker,
  the evaluator and the hardware backend state what they compute as spec
  functions; lowering states the structure of the IR a form lowers to (a
  relation: slot numbers and capture lists are left open) and when it
  succeeds (`lowerable`); the pipeline states each form's outcome through
  that relation, form after form (`eval_step` and `evaluated_in_order`,
  `compile_step` and `compiled_in_order`, `form_error`). Macro expansion
  states its limits and that forms calling no macro come through unchanged
  (`no_macro_calls`); what a macro call expands to is not stated as a
  function:
  - `lexer.rs`, `parser.rs`: tokens and reader syntax (`read_program`).
  - `macro_expand.rs`: `defmacro` and macro calls (limits, arity, and forms
    without macro calls are stated; a macro body's result is not).
  - `expand.rs`: `meta` checking and `for` unrolling (`expand_spec`).
  - `lower.rs`, `lower_shape.rs`: lowering to IR; `lowered_from` states the
    structure of the IR a core form lowers to, `lowerable` when lowering
    succeeds (short of an exhausted counter).
  - `verify.rs`: the IR checker.
  - `semantics.rs`, `ir_eval.rs`: the evaluator (`eval_spec`).
  - `interpreter.rs`, `compiler.rs`: the pipeline, form by form.
  - `hardware.rs`: hardware lowering (`module_spec`, `hw_lower`), checking
    (`design_ok`, `design_verdict`) and SystemVerilog text (`design_text`).
  - `format.rs`, `builtin.rs`, `value.rs`, `datum.rs`, `symbol.rs`, ...: the
    runtime values and builtins.
- `tests/` — tests run against the compiled library.
- `app/` — the command-line program: reads the source from its argument or
  standard input and runs it, or dumps the reader output, the core forms or
  the IR, or only checks it. The SystemVerilog backend is a library function
  (`hardware::emit_systemverilog`); the program has no mode for it.
