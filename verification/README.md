# resourced

A CPU energy-performance-preference (EPP) governor whose decision logic is
verified with Verus.

- `src/text.rs`: whitespace splitting, unsigned decimal parsing and formatting.
- `src/stat.rs`: reading per-core counters from `/proc/stat` lines and turning
  two readings into per-core idle/total deltas.
- `src/policy.rs`: load classification against the 70% and 52% thresholds, the
  actions of one cycle, and the laws of the quiet-cycle count.
- `src/epp.rs`: the sysfs writes that set a core's EPP.
- `src/monitor.rs`: the state kept between cycles and one cycle of the governor.
- `app/main.rs`: the daemon loop: file I/O, sleeping and logging.
