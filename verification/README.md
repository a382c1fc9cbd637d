# wfmq

A warframe.market query library and command-line tool.

* `src/` — the verified library: the cache layout and freshness rule, the
  request rate limit, the ducat analysis (which prime-part shares make up a
  relic's value, which relic drops make up a mission rotation's expected
  ducats), and the selection and message logic of the `update`, `search`,
  `ducats`, `locations` and `listen` commands.
* `app/` — the `wfmq` program: command-line parsing, HTTP and WebSocket I/O,
  the JSON cache on disk, and the floating-point sums and sorts.
* `tests/` — tests of the library on concrete values.
