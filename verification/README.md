# blvm_spec_lock

Ties Rust functions to the sections of a specification in Markdown, and checks them against it.

A function names a section in its attribute `#[spec_locked("6.1")]`. The library reads the
specification, turns the conditions that it states in LaTeX into Rust expressions, adds them to the
contracts that the function already has, and puts the question whether the body meets them to a
solver. Around that it reports: which functions hold, how much of the specification is covered, and
where the code and the specification have moved apart.

## Layout

- `src/` is the library. Its functions are verified with Verus; those that only call an outside crate
  or the standard library are believed (see below).
  - Texts: `chars`, `text`, `text_order`, `numbers`, `patterns`, `sorting`, `section_order`.
  - The specification: `spec_types`, `spec_text`, `spec_extract`, `orange_paper`, `lexer`,
    `condition`.
  - The code: `rust_syntax`, `tree`, `source`, `ast`, `alike`, `contracts`,
    `attributes`, `lock_args`, `spec_lock`, `contract_math`.
  - Verification: `spec_enrich`, `static_checker`, `term`, `vars`, `z3_tables`, `z3_rules`,
    `z3_translator`, `z3_verifier`, `z3_sorts`, `meaning`, `verify`.
  - Formulas: `formula_checks`, `formula_dep_graph`.
  - Reports: `json`, `report`, `output`, `drift`, `coverage`, `spec_coverage`, `filters`, `command`.
  - Generated code and files: `codegen`, `bindings`, `cache`, `paths`.
- `app/` is the command `cargo spec-lock`: arguments, files, the solver itself.
- `tests/` holds the tests.

## What is trusted

The outside crates are called behind functions whose contracts are believed. `patterns` calls `regex`,
`json` calls `serde_json`, `bindings` calls `toml`, `cache` calls `sha2` and `rust_syntax` calls `syn`.
`chars` and `text` say what a few functions of the standard library do. Where such a function returns
something that takes pages to state, its result has a name, and the contracts of the library speak of
that name.

`rust_syntax` opens the syntax trees of `syn` one level at a time. `tree` says what such a tree is as a
mathematical value, and `source` turns it into a tree of the library, which is proved to have that
value.

The question that is put to the solver is computed by `z3_verifier`, and so is what an answer means.
The solver's answer is an argument. `meaning` says what terms mean in a model, and that a question
without a model is one on a condition that holds.
