# kibbled

Local control of a pet feeder: an agent that runs on the device beside the vendor's firmware, speaks
its message bus, and serves HTTP, RTSP and a push socket on the LAN.

- `src/` is the library. Every rule, codec and state machine of the agent stands here with its
  contract, and Verus proves them. Modules named `laws` state what holds across functions.
- `tests/` runs the library on concrete values.
- `app/` is the program round it: sockets, files, processes, threads, message queues, and the
  arithmetic on floating-point embeddings and loudness.

The library performs no I/O. Where the agent alternates between outside work and decisions (a request
that arrives in pieces, a switch of the routes, a live talk session), the library holds a state
machine that says what to do next, and the program does it and reports what came of it.
