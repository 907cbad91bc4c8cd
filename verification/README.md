# kew

Queues and their metrics, and the book that explains them: a double-ended
queue with a capacity policy that records a metric line for every push and
pop, the readers of those lines, the table they are gathered into, and the
pages, charts, chapters and bindings of the book and its web site.

`src/` is the library, verified with Verus:

- `text`: character classes, lines, decimal numbers and the other pieces the
  readers are built from.
- `parser`: metric lines `kew[<ns>]<kind>#<name>=<value><unit> <key>=<value>...`,
  read and written (writing then reading gives the event back).
- `stream`: the earlier line reader, which hands events out one at a time.
- `ring_deque`: the queue, its policies and the metric lines it records, and
  queues shared through handles.
- `writer`, `output`: metrics gathered into columns, one row per event.
- `duration`: durations written as literals, and a weighted average.
- `book`: pages of the book, with their charts, queries and captured source;
  the sections of the FIFO and priority chapters and what the clients and
  servers of their runs decide at each step.
- `chapter`, `toc`: chapters of the interactive book, their figures and
  directives, and the site and document configuration of the contents.
- `markdown`: the tokens of a markdown document, code blocks gathered.
- `interface`: TypeScript bindings of the simulations built for the web.
- `scenario`, `model`: the scenarios the web page runs, and the numbering of
  its picture of a running simulation.

`app/` holds what runs around it: reading standard input and writing Parquet,
files and processes of the book and of the web build, and the simulation
runtime.
