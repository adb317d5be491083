# generation

Verified core of a documentation and test generator for Rust projects.

The library (`src/`) is written in Verus; every function carries a contract
that the verifier proves. It covers:

- `json`: JSON values of test cases and parameter shadowing (an object patch
  merges key by key, `null` removes a key, anything else replaces);
- `names`: test names made of the function and its tags, numbered per base so
  that no name is given twice; qualified and dotted function names;
- `validation`: checking a case against the parameters of its function, and
  pointing at the offending key in the case file by byte offset;
- `cases`: every case of a case file in turn, after its function's defaults,
  checked against the template's functions;
- `context`: the functions of a template, named by their modules;
- `imports`: a trie of import paths that lists each path once, `std` first,
  written back as `use` trees;
- `literals`: primitive type names, simple literals and types written back;
- `runtime`: byte offsets of parser positions in a JSON document;
- `plan`: how each parameter of a tested function is bound and passed, and
  which values a case records and compares;
- `escape`, `assembler`, `element`, `rust`, `starlark`, `highlight`: HTML
  highlighting of Rust sources and Starlark syntax trees;
- `json_highlight`: JSON values as classed elements, each array or object on
  one line where its compact text fits the width;
- `search`, `interaction`, `visualize`, `index`: the decisions behind the
  generated documentation pages (card search queries, paging, view rotation,
  theme toggling, the outline's current heading, link routing, page titles,
  the order of result groups, locating a tested function in its template).

`app/` holds the command-line program: it reads a template and a case file,
checks every case with the library's `cases` and writes the template back with a `main` that registers
one test per case, binding, passing, recording and comparing values as the
library's `plan` decides. It also holds the conversions from `syn`,
`serde_json` and `tree_sitter` values into the library's models, and the
error types with their diagnostics.

Verify with `verus src/lib.rs`; the tests under `tests/` exercise the library
with concrete values.
