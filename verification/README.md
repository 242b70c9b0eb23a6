# grpc-alarms-db

The logic of a service that gives structured access to persistent alarm data
(alarm groups, alarm timers, user layouts, alarm lists), verified with Verus.

- `src/` is the verified library. For each request it validates the input
  (device and user names are lowercased), builds the parameterized SQL query, and,
  given the rows that the data store returned, shapes the reply: rows become
  timers, group metadata, groups with their devices and nested groups (sorted by
  name), layouts sorted by user, and lists sorted by number. Every unreadable row or failed query
  turns into the status that the client sees.
- `app/` runs the program: configuration from the environment, logging, the
  PostgreSQL data store (sqlx) and the asynchronous service handlers that call
  the library. The gRPC transport bindings are generated from the service's
  Protobuf definitions, which are not part of this tree; until they are added the
  server answers health checks only.
- `tests/` holds the tests.
