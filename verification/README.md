# tsmetrics

A TypeScript/TSX static analyzer whose measurements are proved with Verus.

- `src/` is the verified library. `parse` turns source text into a
  `SyntaxTree`: tree-sitter parses behind a few trusted wrappers, and the tree
  is copied node by node in tree-sitter's own pre-order numbering, each node
  tied by its contract to what tree-sitter reports at that position; every metric is an executable function whose contract states its
  result over spec functions of that tree:
  - `metrics::function`: cyclomatic complexity, lines, nesting, parameters,
    closure depth, Halstead counts, maintainability inputs;
  - `metrics::class`: WMC, NOI, DIT, NOM, RFC, CBO, TCC and WOC counts;
  - `metrics::react`: hook complexity and cohesion, effect density, JSX
    nesting, render complexity, prop drilling, component responsibility, used
    components;
  - `metrics::module`: purity, cohesion and coupling;
  - `strategies`: Brain Method, God Class, Data Class, Feature Envy, Refused
    Bequest;
  - `thresholds`, `suppression`, `analysis`, `output`, `utils`: violations,
    suppression comments, running totals, CSV and summary text, file selection
    (excluded names and exclusion globs such as `**/*.test.ts`);
  - `laws` (and the end of `metrics::class::dit`): properties across functions.
- `app/` is the command-line program: arguments, configuration files, the file
  system walk, parallel parsing, the floating-point indices (Halstead volume,
  maintainability index, technical debt, ratios) and printing.
- `tests/` exercises the library on concrete sources.
