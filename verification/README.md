# bindgen_helpers

Rules that rename items and enum variants of bindings generated by bindgen from C headers,
and that collect integer `#define` constants into Rust enums, verified with Verus.

- `src/` is the verified library: regexes (`pattern`), letter cases (`case`), the identifier
  rename pipeline (`ident`), define-backed enums and their rendering (`define_enum`), the rule
  set consulted during generation (`renamer`), the bindgen-owning helper (`helpers`), the
  helper configuration and its application (`config`), and the separation of the
  `--helper-config` option from bindgen's arguments (`cli`).
- `app/` is the `bindgen-helper` program: it reads the TOML config, runs bindgen with parse
  callbacks that ask the library's rules, and writes the output.
