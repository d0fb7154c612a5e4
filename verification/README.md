# passiveradar

The exact core of a passive bistatic radar that tracks aircraft by the
Doppler echoes of FM broadcast towers, written in Verus and proved against
its contracts.

`src/` is the verified library. Its modules:

- `cic` — cascaded integrator-comb decimation in wrapping 64-bit fixed point,
  with the streaming and output-count laws.
- `decimate`, `spectrum`, `ring`, `declip` — sample, window and bin
  bookkeeping of the signal chain: FIR window scheduling, FFT frame buffering
  and DC-centring, the tropical wavelet level structure, the canceller's delay
  line and tap history, and the choice of clipped runs to repair.
- `unionfind`, `morse` — zero-dimensional persistence of a range-Doppler
  surface with a path-compressing disjoint-set forest; the pairs returned are
  those of an elder-rule sweep stated as a spec function.
- `tbd` — transition windows and back-tracking of the Viterbi
  track-before-detect search.
- `assoc` — greedy global-nearest-neighbour association.
- `track`, `dedup`, `labels`, `callsign` — the tracking bank's bookkeeping:
  lifecycle state machine, M-of-N candidates, id allocation, display order and
  selection, retention, duplicate resolution, label rules, callsigns and
  fingerprint file names.
- `jem` — configuration rules of the micro-Doppler analyser.
- `playback`, `script` — the reader thread's hop and pause decisions, the
  display loop's per-iteration block budget, and the test scripts (their
  text format, key names and per-frame stepping).
- `wscmd` — the dashboard socket's commands: reading the JSON text (through
  `serde_json`), the answer to every action, the settings each one changes,
  and which ones the floating-point signal chain carries out.
- `controls`, `remote`, `console`, `http`, `wsjson` — the operator
  interfaces: keyboard controls, settings commands and their decoding, the
  console command
  language, request routing and responses of the web server, and the spacing
  of the JSON sent to the web dashboard.
- `padic`, `text` — p-adic valuations and digits; character-level text
  handling (UTF-8 lengths, words, trimming, decimal digits).

`app/` holds what the verified code cannot: the floating-point edges around
the library (sample scaling, filter arithmetic, kinematic thresholds, speed
arguments, the statistical gates and state fusion of the tracking bank), the
float-valued socket commands and the JSON of the answers, the playback
loops, and the network I/O of the web server.
`tests/` exercises the library on concrete values.
