# emit

Structured diagnostics: levels and level filters, trace and span identifiers, message
templates, events and their formatting, ambient context frames, and the text of metric
bucket sets. The library under `src/` is written in Verus: each public function carries a
contract over a mathematical model of its inputs and result, and the laws that relate
functions are proved as public proof functions named `law_*`.

Layout:

- `src/level.rs`, `src/level/path_map.rs`, `src/level/parse_laws.rs`: levels, their
  permissive parser and what it ignores (ASCII case, surrounding white space), minimum level
  filters, and filters chosen by the segments of an event's module path.
- `src/span.rs`, `src/hex.rs`, `src/text.rs`: trace and span ids, their hex and byte forms,
  and the span context; `src/span/guard.rs`: whether and with what an active span completes.
- `src/platform/thread_local_ctxt.rs`: frames of ambient properties, pushed generation by
  generation; `src/platform/rand_rng.rs` and `src/platform/system_clock.rs`: randomness and
  the system clock; `src/platform/libm.rs`: the integer kernels of the portable math
  routines.
- `src/events.rs`, `src/formatters/`, `src/collectors/`, `src/enrichers/`,
  `src/message_templates.rs`: events with sorted properties, their JSON, text and raw
  formats, the Seq payload, and building message templates.
- `src/metric.rs`, `src/metric/bucket_set.rs`, `src/metric/bucket_counts.rs`,
  `src/metric/delta.rs`: normalizing the time extents of sampled metrics, the textual
  grammar of bucket sets, the counts of their buckets, and delta periods.
- `src/utc.rs`: moments in UTC and their calendar text.
- `src/buf.rs`: byte-slice helpers and a fixed-capacity text buffer.

`app/` holds what Verus cannot take: the thread-local storage of frames and the process-wide
counter of context ids, writing to the standard streams, property values and bucket set keys
that are floating-point numbers with their distributions, spans that complete on drop,
sending events to a Seq server, and the error conversion helper.

Not here: the procedural macros (`emit!`, `span!` and their kin), which build token streams
from syntax trees and so live in a proc-macro crate of their own; and the runtime pieces that
go through the core crate's `Source`, `Sampler`, `Clock` and `Emitter` traits, such as the
metric reporter.
