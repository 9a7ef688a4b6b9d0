# sismatic

The control plane of a fleet of networked recorders: it polls devices on a
schedule, keeps what they answer, queues what they are asked to do, and lets the
fleet and its settings change while it runs.

`src/` is the library. Everything in it is verified by Verus: each function states
what it returns or changes, and each module states the laws that hold of it as
public proof functions.

- `protocol` builds what is written to a device and reads its replies;
  `devices` drives one exchange over an open channel and keeps the registry.
- `store` holds the rules of admission, expectation and accounting; `memory`
  holds the outbox of writes, the recorded reads and the catalog.
- `sync` decides which poll loops run, what each poll is worth, and which fields a
  device refuses too often to be asked again.
- `retention`, `sweeper` and `units` keep the store within its bounds.
- `configuration`, `settings`, `inventory` and `status` resolve, edit and show the
  configuration and the fleet; `web` answers requests.
- `text`, `ordered`, `sorted`, `time` and `rounding` are what the rest is built on.

What is believed of other crates stands in the few functions marked
`external_body`, each with a comment that says what it claims.

`app/` is the program around the library: files, sockets, SSH and the clock. It
comes with no list of fields to query: that list is the recorder's own.
`tests/` runs the library.
