# nichy

Rust type memory layout and niche optimization visualizer, with its logic proved in Verus.

- `src/` is the library. Functions state in their contracts what they return; the laws that
  relate several functions are public proof functions whose names start with `law_`.
- `app/` is the program around it: the command line, the worker, the site, the database, and
  the part that runs `rustc`.
- `tests/` runs the library on concrete values, with the real outside crates and an in-memory
  database.

What is trusted rather than proved is marked `external_body` or `assume_specification`, each
with a comment that says what is claimed: SHA-256 (`hash`), the tokenizer (`guard`), the clock
(`db`), `char::is_alphanumeric` (`render`) and `String::push` (`text`).
