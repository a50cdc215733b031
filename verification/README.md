# event_timers

The configuration core of an event-timers overlay addon, verified with Verus.

- `src/` is the verified library: the track model (`tracks`), the user's
  per-track overrides (`overrides`), the display options (`options`), event
  identifiers (`event_id`), the merge of overrides into the default tracks and
  the diff of live tracks back into overrides (`config`), and the laws that
  tie them together (`laws`). Floating-point values are carried as their
  IEEE-754 bit patterns (`FloatBits`) and never computed with.
- `app/` holds what the library leaves to the host: the serde form of
  `user_config.json` with its floating-point settings, the global state,
  file I/O, and the height-tolerance comparison.
- `tests/` exercises the library on concrete values.
