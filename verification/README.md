# daemon_framework

Verified building blocks for session daemons and their frontends, written in Verus.

- `src/` is the library. It decides: what a request becomes, which events wait for a
  reply, who may start another task, how a file is replaced, how search results are
  ordered. Every function states what it returns, and Verus proves it. What rests on a
  clock is stated by the readings that it was taken from.
- `app/` runs the library on Tokio, D-Bus and the file system. It performs the actions
  that the library names and hands their outcomes back.
- `tests/` runs the compiled library.

## Modules

| module | what it decides |
| --- | --- |
| `envelope`, `event` | the envelopes of replies and events |
| `jsonl_wire` | the messages of the JSON-lines bridge, and valid routes |
| `output_actor` | the order of output lines and who owns a subscription |
| `jsonl` | intake, execution and release of requests; reconnection; the end of a session |
| `operation`, `subscription`, `task` | admission within limits, cancellation, cleanup |
| `blocking` | lanes for blocking work and their shutdown |
| `owner`, `forward` | loss of bus owners, forwarding |
| `clock`, `resume` | readings of the clocks, resumes from suspend |
| `file` | atomic replacement and bounded reads of files |
| `search`, `unicode` | scores and order of search results |
| `protocol_js` | constants generated from a protocol registry |
| `id`, `json`, `sorted_map`, `text` | identifiers, JSON values, ordered maps, texts |

What is taken on trust is marked in place: the functions of other crates and of the
standard library that the library calls, each with what is claimed of it.
