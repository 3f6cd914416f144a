# xetop

A terminal monitor for the Intel Xe GPU and NPU (Lunar Lake): per-engine
and per-process GPU utilization, GT frequencies and C6 residency, NPU
utilization and memory, and RAPL power.

The library under `src/` holds the monitor's logic, verified with Verus:

- `text`: byte-level trimming (Unicode whitespace), tokens and unsigned
  integer parsing with the rules and error kinds of `str::parse`.
- `collectors::fdinfo`: the xe DRM fdinfo parser, per-client
  de-duplication over a `/proc` scan, a scan every Nth tick, and per-engine
  cycle deltas between scans, keyed by DRM client id.
- `collectors::pmu`: the xe PMU config layout, the engine table and
  active/total tick deltas.
- `collectors::rapl`: energy counter increments across the wrap-around of
  each counter's range (`max_energy_range_uj`).
- `collectors::sysfs`: GT discovery, driver matching, C6 residency and NPU
  busy-time deltas, kHz to MHz.
- `history`: the sparkline ring buffer and its 60-second window.
- `model`: the GPU runtime power-management state.
- `ui`: cell text of the process table and placement of the help overlay.
- `app`: main-loop decisions: the keys of the help (quit, help, sort
  column and order, selection), the input timeout and the tick count.

`app/` is the program around it: command line, file and device reads,
perf events, floating-point percentages and the ratatui interface.
