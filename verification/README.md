# omnideps

A language-agnostic dependency analyser: source files (Rust, Java, Python, C, C++) are parsed
with tree-sitter, read into a common model of modules, types, functions and references,
resolved against a tree of lexical scopes, and turned into a dependency graph.

Layout:

- `src/` is the library, verified with Verus:
  - `syntax` reads a tree-sitter parse into a plain arena of nodes;
  - `heuristics` classify nodes and read components and type references from them;
  - `extraction` walks a file's tree and places its modules by the language's strategy;
  - `resolver` builds queries (`builder`, `built`), the scope tree (`scope`), the global
    registry (`registry`) and evaluates queries (`executor`);
  - `export` builds the dependency graph, its summary and its Cytoscape elements;
  - `benchmark` checks a graph against a test manifest;
  - `laws` holds properties that relate several operations.
- `app/` is the command-line program around it: file and network I/O, serialisation, the web
  visualizer.
- `tests/` runs the library on concrete inputs.
