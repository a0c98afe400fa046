# mesquitte_client

An MQTT client whose bookkeeping is written in Verus and proved against its
contracts: the decisions of an MQTT 3.1.1 client, with the asynchronous
client around them, and the decisions of an MQTT 5 client.

The MQTT 5 client itself (its network tasks, options and transports) and a
WebSocket transport are not part of this crate: only the MQTT 5 decisions
and tokens (`src/v5/`) are.

## Layout

- `src/` — the verified library:
  - `topic_trie` — the handlers of the client by topic filter, a trie over
    the levels of a filter, with `+` and `#` matching; its laws (what a
    match delivers, what a removal undoes) are proof functions there.
  - `pkid` — the packet identifiers in flight and the search for a free one.
  - `token` — the tokens that a caller waits on, one per kind of request.
  - `client` — the decisions of the client: connecting, publishing,
    subscribing, unsubscribing, reconnecting.
  - `net` — what each packet from the broker leads to.
  - `options`, `message`, `protocol`, `error`, `state`, `topic_table`,
    `transport` — the data the above work on.
  - `v5` — the tokens of an MQTT 5 client and the decisions of its
    requests (connect, publish, subscribe, unsubscribe, disconnect).
- `tests/` — tests of the library on concrete values.
- `app/` — the asynchronous client around the library: sockets, tasks,
  timers and the codec of `mqtt-codec-kit`.
