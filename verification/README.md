# patrick_db

A small persistent key-value database with replication, partitioning,
total order broadcast and a raft log store.

- `src/` is the verified library: the log record format and the index it
  rebuilds (`record`, `hashmap_log`), the server's request handling
  (`server`), the client's partitioning, requests and connection pool
  (`client`), the REST API's encoding and replies (`rest`), total order
  broadcast through a sequencer (`tob`) and among peers (`tob2`), the raft
  log store and the event loop's clock and order of work (`raft_storage`,
  `raft_node`), and the
  request body of the single-threaded benchmark server
  (`single_thread_server`).
- `app/` holds the programs around it: sockets, files, the async runtime,
  the HTTP framework and the serde forms of the messages.
- `tests/` exercises the library on concrete values.
