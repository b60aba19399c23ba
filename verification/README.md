# formula_refs

Finds the cell, range, table and defined-name references in a spreadsheet
formula (Excel-style A1 notation) without evaluating it, and reports them as
a human summary or as JSON. The library is written in Verus and proved
against its contracts; `app/` is the command-line tool around it.

Layout of `src/`:

- `text.rs` – character classes, decimal and UTF-8 arithmetic, string building.
- `reference.rs` – the reference types, their mathematical models, A1
  notation (`to_a1`, `col_to_letters`) and cell counts.
- `scan.rs` – the grammar of reference tokens as specifications and the
  scanner `extract`, proved to return exactly `references_of(formula)`.
- `report.rs` – JSON escaping, the flat and by-sheet summaries, the JSON
  report, each proved equal to its specification.
- `cli.rs` – reading the command-line options.
- `laws.rs` – properties across functions: column letters, decimal
  numbers, cells and sheet qualifiers read back as written; written ranges
  and names scan back to themselves; every reference found is well formed
  (cells in `A1`..`ZZZ`, identifiers for names, balanced table
  specifiers); a bare word is a name unless `(` follows it; string literals,
  also appended after a comma, yield nothing; escaped JSON reads back as the
  text; grouping by sheet keeps every reference once and in order.
