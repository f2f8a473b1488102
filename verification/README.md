# noogle

Search and browse Nix function documentation from a JSON dump of documented
values.

- `src/` is the library, verified with Verus:
  - `model` — the document types;
  - `text` — character-level text operations (white space, trimming, lines,
    replacement, joining, decimal notation) with their specifications;
  - `sections` — the header grammar that splits a document's text into
    sections, with the law that section texts come out trimmed;
  - `details` — parsing a document into description, inputs, type and
    examples, and rendering it as styled lines;
  - `search` — fuzzy ranking of documents by title (scores from the
    `fuzzy-matcher` crate), with laws on the order and content of the result;
  - `tui` — the interactive browser's state and its key handling, with laws
    on selection and editing.
- `app/` is the command-line program: argument parsing, loading the JSON
  file, printing results and drawing the terminal interface.
- `tests/` exercises the library on concrete documents and compares the text
  operations and the header grammar with `std` and the `regex` crate.
