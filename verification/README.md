# word_export

Exports a personal word list (word and interpretation pairs, fetched page by
page from a vocabulary web service) to CSV or PDF files.

`src/` is the verified library:

- `entries` — the model of an insertion-ordered association list and its laws
  (lookup after insert, distinct keys, key order, rearrangements);
- `map_key` — the key trait (equality and a strict total order) and its
  implementation for `String` (code-point lexicographic order);
- `insertion_order_map` — `InsertionOrderMap`, proved against that model,
  with shuffling (through `rand`) and sorting by key;
- `csv_formatter` — the CSV text of an export (through the `csv` crate) and
  its file name;
- `pdf_formatter` — the file name of a PDF export;
- `session` — which pages are fetched and how their words are stored, the
  progress figures, and applying the chosen order;
- `constants`, `text` — option labels, answer parsing, small text helpers.

`app/` is the program around it: network access, terminal dialogue, files,
and the PDF drawing (floating-point layout with `printpdf`).
