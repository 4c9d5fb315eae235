# yadorilink-sync-sqlite

The persistent state of a folder-sync replica, with its rules stated and proved
in Verus: which rows an operation may change, when it is refused, and what every
operation keeps.

- **The transaction journal** (`filesystem_transaction`, `epoch`, `reservation`):
  filesystem transactions with their phases, placement epochs and path
  reservations, fenced by an execution generation so that a stale worker changes
  nothing. `journal_laws` states what holds across operations.
- **The file index** (`file_upsert`, `file_metadata`, `file_queries`,
  `file_versions`, `trash`, `durability`, `pinned_directories`,
  `conflict_copies`): the versions of every path, the trash, retention, and what
  a group must keep. `file_laws` states what every write keeps. Each write raises
  its group's counter (`root_counter`); `counter_laws` states that equal readings
  of it mean that no row of the group changed in between.
- **Local captures** (`local_capture`, `local_emission`, `local_mutations`,
  `recursive_operation`, `recursive_part`, `actual_state`): how what was read off
  this disk becomes a version, when the index may claim to hold it, and which
  changes a recursive operation is committed under.
- **Links and leases** (`link`, `link_recovery`, `handoff_lease`,
  `root_recheck`): one live link per group, and leases that keep versions from
  being expired. What waits for a digest of the durable roots happens only while
  the roots are those it was taken of.

`read_back_laws` states that what was written is what is read back.

A table is held as a vector of rows, and every contract speaks of the sequence of
its rows: an `UPDATE` is `set_where`, a `DELETE` is a filter, a query is a
selection in order (`rows`). What other parts of the workspace decide (change
hashes, digests, the moves of an epoch, which scopes exclude each other, the
clock) is an argument.

`app/` reads the tables from SQLite in one immediate transaction, hands them to
the library, and writes back the rows that changed when it succeeds; `soundness`
holds the checks it makes first. `tests/` runs the library on concrete rows.
