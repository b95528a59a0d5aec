# krabka_coordinator

The decisions of a Kafka-compatible group coordinator, written in Verus: every function states what
it returns and what it changes, and Verus proves it. Five small functions hand a call to `uuid`, `regex`
or the standard library; of these Verus believes the contract (`ids.rs`, `regexes.rs`, `wire.rs`).

- `src/` is the library. A group's state is a plain value. A request begins with a `begin_*` function,
  which gives the answer or the batch that has to be appended first; `finish_*` takes the word whether
  the append went through. Nothing in it waits, reads a clock or touches a disk.
- `app/` serves groups with it: one task per group, the retention sweep, the watch for deleted topics,
  and the start.
- `tests/` runs the library on concrete values.

Where to begin:

| To see | read |
| --- | --- |
| what a group does about each message | `dispatch.rs` |
| classic groups: join, sync, leave, expiry | `classic_join.rs`, `classic_sync.rs`, `join_turn.rs`, `sync_turn.rs`, `leave_turn.rs`, `tick_turn.rs` |
| consumer groups: heartbeats and targets | `heartbeat.rs`, `consumer_state.rs`, `assignor.rs`, `heartbeat_turn.rs` |
| groups that change from one protocol to the other | `migration.rs`, `downgrade.rs`, `hosting.rs` |
| committed offsets, retention, deleted topics | `group.rs`, `commit_validation.rs`, `retention.rs`, `topic_deletion.rs` |
| what is written and how it is read back | `pending_records.rs`, `persistence.rs`, `replay.rs`, `walk.rs` |
| what always holds | `classic_laws.rs`, `consumer_laws.rs`, `group_laws.rs`, `offset_laws.rs`, `replay_laws.rs` |

Times are milliseconds: `u64` on the clock that sessions are timed by, `i64` since the epoch in records.
