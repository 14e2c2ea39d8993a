# rootmap

Maps the dependencies of a Linux host: it reads what `ss`, `/proc/net/tcp`,
`systemctl` and `docker ps` print, finds dependencies between ports, services
and processes, stores everything in SQLite, mirrors it into Neo4j, and answers
three questions over the graph: what is downstream of a node (impact tree),
how two nodes are connected (shortest path), and which upstream nodes most
probably caused an incident (heuristic scoring).

Layout:

- `src/` is the library, verified with Verus: the text primitives (`text`),
  the parsers and the dependency heuristics (`collectors`), impact trees and
  incident scoring (`analysis`), the drawings and table contents (`output`),
  the statements that mirror the store into the graph database (`graph`),
  values for the relational store (`storage`), settings (`config`) and
  commands (`cli`).
- `app/` is the command line around it: running the system tools, talking to
  SQLite and Neo4j, and printing.
- `tests/` runs the library on concrete inputs.
