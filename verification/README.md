# logholizon_core

The rules of a small records platform, written in Verus and proved against
their contracts: module definitions and packages, field rules and payload
checks, access by role, workflow transitions, formulas (lexing, syntax and
dependencies), report definitions and outputs, CSV and workbook import and
export, webhook signatures, outbound URL checks, the authentication rate
limiter, and the SQL a listing or summary runs.

Layout:

- `src/` — the verified library. Each module states its results over spec
  functions and views; laws that relate several functions are public proof
  functions next to them. Calls into outside crates (argon2, hmac, sha2,
  subtle, rand, reqwest's URL parser) and into std where vstd gives no
  specification stand behind small trusted wrappers whose contracts are
  documented where they are declared.
- `tests/` — tests on concrete values, run against the compiled library.
- `app/` — a command-line program around the library: reading files and the
  environment, JSON through serde, workbooks through calamine and
  rust_xlsxwriter, and the formula and report evaluation that works on
  floating-point numbers.

The database, the HTTP server and the background loops are not part of this
crate; their decisions (what to store, which query to run, which error to
answer) are the library's functions, which take what the store returned as
plain values.
