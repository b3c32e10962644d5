# lox-linein-bridge

The decision core of a line-in bridge: a small device that captures audio from a
sound card and streams it to an audio server over TCP or WebSocket.

* `src/` is the library. It is verified with Verus: what each function returns or
  changes is stated in its contract, and what holds of the library as a whole is
  stated in the proof functions whose names begin with `law_`.
* `app/` connects the library to the outside: sound card, sockets, processes, files
  and floating-point signal processing. An embedding program supplies `main`, the
  exchange with the server, and the clock.
* `tests/` runs the library on concrete values.

| module | what it decides |
|---|---|
| `session` | one streaming session: queueing, pacing, gating, reconnecting |
| `stream` | sizes and delays, the sound gate, frames of the ingest connection |
| `resampler` | which samples enter each resampling step, and the device's rate |
| `pcm` | channels, frames and the bytes of the stream |
| `audio` | resampler names, device lists, the capture configuration |
| `status` | the state shown to the server and on the health page |
| `hooks` | which script runs when the source is selected or deselected |
| `discovery` | the servers that answer on the network, and which one to use |
| `config` | where the configuration lies, and the order in which places are tried |
| `models` | the values exchanged with the server |
| `text` | trimming, lower case, decimal numbers |
