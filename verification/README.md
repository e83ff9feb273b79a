# agy-gyro

A local retry proxy between the Antigravity CLI (`agy`) and the Gemini API. It catches transient
failures, tries again with exponential backoff and jitter, and passes on only the final result.
Where requests leave through Clash, it also moves them from a failing proxy node to a better one.

- `src/` is the library: the rules by which the proxy decides, proved with Verus. Left out are
  those that reckon with floating-point numbers.
  - `attempt` judges one try of a request and says whether there is another.
  - `retry` and `stream` tell which statuses, and which errors inside a response, are worth it.
  - `delay` and `retry` reckon how long to wait.
  - `stats`, `table` and `regions` remember how nodes and regions have been faring.
  - `selection` and `switch` choose the node to go on with.
  - `clash` reads what Clash tells of its proxy groups, and `json` reads the documents.
  - `proxy` rewrites paths and picks the upstream; `config`, `status`, `runner` and `text` serve
    the rest.
- `app/` is the program around it: the command line, the HTTP server and client, the SQLite
  database, and what is floating-point: the reliability scores, and by them whether a node is
  reliable enough to become the consensus anchor.
- `tests/` runs the library.

What the library takes on trust from other crates and from std stands in functions whose doc
comments say so (`Trusted: ...`), each with what is claimed of the call.
