# hydrozoa_tools

Operator tools for a Hydrozoa head, verified with Verus. None of them writes to a node.

| module | what it is |
|---|---|
| `store` | reads a head's store: its column families, the framing of its journals, its identity stamp, and the request records of the Request lane |
| `archiver` | copies that store into an archive in the same layout, so the node can trim it, and reports how far the archive durably reaches |
| `top` | a dashboard for a running head: the alert rules, the panels, the search for the newest block, and one machine-readable snapshot |
| `text`, `bytes` | numbers and durations as an operator reads them; big-endian keys and their order |

`src/` is the verified library. `app/` is the program around it: `hydrozoa-archiver` and `hztop`,
one binary under two names. It opens RocksDB, talks HTTP, reads the clock's ticks and paints the
terminal; what it does with what it finds is decided in `src/`.

## What is proved

Every executable function in `src/` carries a contract that says exactly what it returns or
changes, and for each refusal, on which inputs it comes. The public proof functions named `law_..`
state what holds across functions, among them:

- a family is recovered from its name, and no two families share one (`store::cf`);
- byte order of keys and of arrival stamps is numeric order, and an entry is stored as it was read
  (`bytes`, `store::journal`);
- a request record is read back as it was written, and a field of a newer build is skipped
  (`store::request_record`);
- a pass copies every journal byte for byte, its watermark is the archive's own tip, and a range
  that the node deleted before it was copied is reported; a refused copy reports no progress
  (`archiver::laws`);
- a pass led step by step through a store and an archive ends where a whole pass does
  (`archiver::course`);
- a crashed pass costs a little re-copying and nothing else, and a full pass is idempotent
  (`archiver::recovery`);
- an archive belongs to one store and refuses every other (`archiver::archive`);
- alert keys are unique, live counters in a text do not flap an alert, and critical alerts lead
  (`top::alerts`, `top::control`);
- the search for the newest block ends exactly at it, and asks for no more blocks than twice the
  logarithm of the distance from where it starts, and three (`top::search`).

The laws of a pass are of `archiver::pass::run`, which leads the steps of `archiver::steps` through
tables in memory. The program leads the same steps through RocksDB: what to look up, walk and
commit, and in which order, is decided in `src/`; that RocksDB is told of truthfully is not proved.
The stamping of an archive and the lines of a dry run are decided in `src/` too; `app/` repeats the
walk from family to family.

## What is trusted

Calls into `prost` (variable-length integers, skipping a field), `chrono` (reading, subtracting and
showing points in time), `serde_json` (a value at a pointer of a document) and the standard
library's lossy UTF-8 decoding stand behind small wrappers. A doc comment on each says what its
contract claims.

Floating-point readings pass through the library as bits. The program formats them and rounds the
rates. The thresholds on headroom and on the mempool gauge are those of a division of doubles,
decided in whole numbers (`top::ratio`).
