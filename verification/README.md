# one_collect

Building blocks for collecting events and profiles and exporting them,
written in Verus: functions state what they do in `requires` / `ensures`
clauses, and Verus proves the code meets them. Where a value is shared
through a cell (the field references of an event format) or produced by an
outside crate or std, the contracts say what can be said of it and no more.

Layout of `src/`:

- `event`, `intern`, `guid`, `text`, `util`, `pathbuf_ext`: event formats and
  where their fields live in a payload, interning of strings, slices and
  callstacks, GUIDs (including name-based and provider-name GUIDs).
- `callstack`: completing callstacks that arrive in parts, and reading perf
  callchains.
- `etw`: ETW helpers: extended data of records, kernel callstack requests, the order of a session run, provider enumeration
  buffers, TDH schemas (type mapping, schema walks, the schema cache and the
  decoder built on it).
- `dotnet`: .NET runtime events, scenarios, and the Linux side (proxy
  events, tracepoint names, the diagnostics IPC request, perf map settings).
- `exporting`: processes, mappings, symbols, samples and the export machine
  that ties them together; address lookups; replay of samples in time order;
  context-switch decisions; pairing CPU samples with their callstacks;
  where symbol files are looked for; parsing kernel (`kallsyms`) and
  perf-map symbol listings; scripted timelines and their spans;
  the NetTrace writer.

`app/` holds what the library leaves to its callers: reading procfs and
symbol listings,
writing files and talking to a .NET process over its socket.
