# dialf

Drives phones from a computer: a daemon that phones connect to, jobs that dial, answer, play
prompts and wait for speech, call recordings on one clock, and shares of attached Android devices.

The rules of all that are in `src/`, a library verified with Verus. Its functions state in their
contracts what they return and change, and the laws that hold across functions are public proof
functions named `law_…`, beside what they speak of.

| Module | What it holds |
| --- | --- |
| `daemon`, `registry`, `hub` | what the daemon knows, how requests are answered, connections and commands |
| `transport` | the phone and control connections, advertising on the LAN |
| `jobs`, `phone`, `loopback` | job steps, the runner, calls as a job sees them |
| `audio` | capture, recording on one clock, speaking turns, external audio tools, microphone consent |
| `share`, `adb_link` | sharing attached devices: policy, handshake, settings, wireless debugging |
| `bundle`, `hostcheck` | exporting and importing a setup, checking a machine against it |
| `reachability` | why phones may not find the daemon |
| `cli`, `config`, `service`, `protocol` | the command line, settings, background service, frames |
| `search` | searching the machine for programs |
| `text`, `paths`, `hex`, `table` | characters, paths, bytes in hex, maps with text keys |

What the library takes on trust is marked `external_body` or `assume_specification`, with a comment
on what is claimed of which outside function. What happens outside (sockets, files, processes, the
sound card, voice detection) is in `app/`, a program around the library. It hands plain values in
and carries out what it gets back. Where the library drives a device itself, through `RawSource`,
`RawSink`, `RawPipe`, `RawTap`, `RawEar`, `RawDisk`, `Machine` or `Driver`, nothing is assumed of
the device. What it is asked and answers is noted in a log that exists in proofs only, and the
contracts speak of that log; so do those of `Search`, `Dice` and `FrameChannel`, which stand for the
machine's programs, for chance and for a capture thread.

`tests/` runs the library from outside.
