# focus_planner

The backlog of Focus Planner, a Pomodoro day planner: projects → goals →
tasks → microtasks, with completion roll-up, drag reordering and pomodoro type
presets. The library in `src/` is written in Verus and keeps the planner's
tables in memory (`store::Planner`); every operation has a contract over the
store's mathematical view (`PlannerView`) and is proved against it.

- `src/store.rs`, `src/models.rs`: the tables, their views, the integrity
  rules (`wf`: unique ids, every row's parent exists) and the roll-up rule.
- `src/*_service.rs`: the operations. Each `*_at` function takes the time
  stamp to record; the function of the same name without `_at` reads the
  clock (`time::now_iso8601`) and calls it.
- `src/rollup.rs`, `src/reorder.rs`, `src/order.rs`, `src/tree.rs`,
  `src/cascade.rs`, `src/sort_order.rs`: completion roll-up, reorder checks,
  stable sorting, the nested project tree, cascading deletes, next positions.
- `src/laws.rs`, `src/invariants.rs`: properties that span operations, proved
  as proof functions (every mutation keeps the integrity and roll-up rules,
  completion is idempotent and undone by reopening, accepted reorders take
  the given order, the default pomodoro type is exclusive, …).
- `app/`: the Tauri shell: SQLite load/save through sqlx, logging through
  tracing, and the IPC commands, which call the library.
