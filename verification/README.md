# beyond-pg

Boots a Postgres machine and keeps it running: it lays down the configuration, starts Postgres and
PgBouncer, restarts what fails, adds pooler workers under load, forwards logs and the write-ahead
log, and hands over to a newer version of itself without stopping the database.

- `src/` is the library. It holds the decisions, the file formats, the protocols and the state
  machines, written in Verus: its functions carry contracts, and the contracts are proved.
- `app/` is the program. It reads and writes files, starts processes, talks over sockets, and does
  what the library says.
- `tests/` runs the library on concrete values.

## Reading the contracts

Executable functions say in `ensures` what they return, over spec functions on mathematical
sequences and integers. Proof functions whose names begin with `law_` state what holds across
several functions, such as that a framed message reads back as it was written, or that no child
outlives the drain.

Calls into other crates stand in small functions marked `external_body`, each with a doc comment
that says what is believed of the call. Where the result takes pages to state (a digest, a
certificate, a JSON document) it has a name instead: a spec function without a body.

## Limits

Times are nanoseconds on a clock that never runs backwards, processor load is compared as a ratio of
integers, and the token bucket that limits log lines is filled in nanoseconds, so that no decision
depends on rounding. What is published of the load is rounded to hundredths of a core.

Some contents belong to others and are stand-ins here. An image is packaged with a primary
configuration file, a file for host-based authentication and a base for the pooler's configuration;
`config.rs` holds texts of its own in their place. The host's side of the protocol decides the port
for control requests and how long a line of output may be; `vsock.rs` holds values for them. The
platform's document of settings is read by the keys that are listed in `mmds.rs`, and the words with
which unusable settings are refused are this library's. A deployment where any of these differs
changes the constants. Laws that name one of these texts are proved of the text that stands here.
