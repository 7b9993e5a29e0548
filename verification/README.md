# rustmon and rustlogger

`rustmon` is a read-only Linux hardware monitor: it takes a snapshot of
processors, memory, temperatures, disks, network interfaces, graphics cards and
open connections, and writes it as text or JSON. `rustlogger` runs a shell or a
command in a terminal of its own and keeps a stamped log of everything it
prints.

The library holds the logic of both and is verified with Verus. It does no input
or output: what was found on disk, on the network or at the terminal is handed
to it as plain values, and it answers with values, documents or the next step to
take. `app/` performs those steps.

## Layout

- `src/sysfs.rs`: what was found below the root, path confinement, size limits
  and sanitising.
- `src/collectors/`: one module per hardware area; `src/collector.rs` runs them
  so that one failure stops no other.
- `src/sample.rs`, `src/units.rs`: snapshots and their units.
- `src/delta.rs`: rates out of two snapshots.
- `src/render/`: text and JSON. A document keeps its quantities exact; `app/`
  prints them.
- `src/summary.rs`: the one-line summary for a shell prompt.
- `src/net_probe/`: reverse name lookups and route tracing.
- `src/logger/`: stamps, log files, the stop phrase, sessions.
- `src/text.rs`, `src/number.rs`, `src/numeral.rs`, `src/order.rs`,
  `src/calendar.rs`, `src/addr.rs`: characters, numbers, sorting, dates and
  addresses.

Contracts speak of views and spec functions. What holds of several functions
together is a public proof function near them, such as
`sysfs::reads_stay_inside_the_root`, `collector::a_failure_stops_no_other`,
`collectors::clean::output_is_calm` or `logger::logfile::nothing_logged_is_lost`.

Code of other crates and of the standard library that is not proved stands
behind the few functions marked `external_body` or `assume_specification`; each
says what it claims.
