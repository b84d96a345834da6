# epub_reader

A small multi-user server for reading EPUB books in the browser, whose
decision-making logic is verified with Verus.

- `src/` is the verified library: path handling (a model of `std::path` on
  Unix), accounts, sessions and book ownership, the session cookie, reading
  positions, moving books between a category and a private folder, uploads,
  and what each HTML page shows to whom. Every public function carries a
  `requires`/`ensures` contract; the properties that relate several
  operations are stated as `law_*` proof functions.
- `app/` is the program around it: the axum router and handlers, the JSON
  files on disk, template rendering with tera, and the directory walks.
- `tests/` runs the library on concrete values.

Calls into `sha2`, `hex`, `rand` and `percent-encoding` are made from the
library through small trusted wrappers whose contracts say what those crates
compute.
