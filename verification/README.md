# remin

Remote desktop over the network: one side streams its screen and audio and obeys the other side's
input, the other side watches.

`src/` is a Verus library with what a session decides and computes between its inputs and outputs;
the loops that wait on sockets and threads, and what needs floating-point numbers, are outside it.
The contracts say what each function returns; the proof functions whose names start with `law_` say
what holds of several functions together, for example that a packet survives the network however its
messages are ordered and repeated.

| module | what it does |
| --- | --- |
| `wire` | the byte layout of the messages, and the calls into `wincode` |
| `udp` | packets as numbered datagrams: cutting (`fragment`), putting together (`reassembly`), the stream itself, and its `laws` |
| `tcp` | packets behind their sizes, and the steps of waiting for them |
| `common`, `key`, `timestamp` | messages, input, sets of keys, points in time |
| `net`, `session` | streams, roles, and how a session starts |
| `streamer` | cutting video and audio, and obeying input |
| `watcher` | playing audio, and turning window events into input |
| `caster`, `server`, `viewer`, `gpu`, `nal` | casting frames, converting them, and deciding what to do with received ones |
| `signal` | one-shot signals and requests |

`tests/` runs the library. `app/` is the program around it: sockets, threads, the window, the
graphics and audio devices, and everything that needs floating-point numbers.
