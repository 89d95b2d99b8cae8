# openim

An OpenIM client SDK core whose logic is verified with Verus.

- `src/` is the verified library: error codes and messages, platform and
  message enums, the gateway envelope and its identifiers, the transport
  settings (connect URL, reconnect backoff, pending requests, heartbeats,
  routing and ordering of pushed messages), the storage naming rules and
  records, the sync planner, the domain services (users, friends and
  blacklist, groups and members, messages, conversations, multipart file
  upload), the session state machine with its listeners, tasks and runtime
  resources, and the contract fixture checks. Each public function states
  what it returns in its contract; the laws that span several calls are
  public proof functions named `law_*`.
- `tests/` runs the library on concrete values.
- `app/` is the platform code around it: JSON, gzip and protobuf framing,
  the SQLite store, the native websocket client, the native session
  resources and the C ABI.
