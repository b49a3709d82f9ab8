# kursach

Generates the LaTeX source of a course-work report from its YAML description.

- `src/` — the verified library (Verus):
  - `text.rs` — whitespace trimming, joining, decimal numbers and line
    splitting, each with its mathematical meaning;
  - `ir/types.rs` — the document model;
  - `ir/loader.rs` — validation of a loaded document (unique ids, present
    files), the `!import` tags and their splicing, and the import stack that
    detects cycles;
  - `codegen/` — rendering of the inline markup, the blocks, the sections and
    bibliography, the title page, the preamble and the whole document.
- `app/` — the command-line program: reading files, YAML parsing, checking
  which files exist, running `xelatex`.
- `tests/` — tests of the library on concrete documents.
