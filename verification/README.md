# Hardwave WettBoi

A sidechain reverb and delay plug-in for VST3 and CLAP hosts.

- `src/` is the verified library: saved states, parameters, the messages between
  the plug-in and the page of its editor, the routing of the effects, the lines of
  samples of delay and reverb, the stages of sidechain, envelope and LFO, what may
  leave the plug-in, the probe before the window opens, the log and the crash
  reports.
- `app/` is the plug-in around it: floating point arithmetic on samples, the host,
  the window, files and the network.
- `tests/` run the library.

A floating point number is held by its bits in the library (`src/bits.rs`): it is
stored, compared, clamped and cut to its whole part exactly. What only arithmetic
can give, the caller works out and hands in.

Where a law speaks of levels that the caller works out, every operation is taken to
give the number nearest to its exact result (`src/rounding.rs`).

`serde_json` reads the messages of the page (`src/ipc.rs`) and writes the body of a
crash report (`src/crash_reporter.rs`). The library says of these two calls that
their results follow from their arguments, and of a message that is not JSON that
the error holds a fixed complaint and a place, and nothing of the message.
