# detypstify

Tools around a handwritten-formula recogniser that outputs Typst.

- `src/` — the verified library:
  - `text` — character-level string operations (`replace`, `contains`, removal of a character, decimal notation) with their specifications;
  - `pattern` — compiled regular expressions (matching is done by the `regex` crate) and what a search yields;
  - `scraper` — the clean-up rules that prepare a scraped LaTeX formula for pandoc, the line identifiers, and the dataset record format;
  - `render` — the Typst source of a formula and the recolouring of its SVG;
  - `recognize` — squared distances and the directed Hausdorff distance between drawings;
  - `training` — the parameter-free activation layer of the model.
- `app/` — the corpus scraper program (files, pandoc and typst processes), the Typst world used to render formulas, and the ranking of classifier output.
- `tests/` — tests of the library.
