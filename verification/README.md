# field_assist

The editing and analysis rules of the FieldAssist audio tools, written in
Verus and proved against their contracts.

- `src/` is the verified library: frame-range algebra (`frame_ranges`),
  per-hop analysis storage (`hop_store`) and the streams that hold it
  (`analysis_streams`), the steps of an analysis pass
  (`analysis_steps`), the edit history (`edl`), document locations
  (`location`), identities (`ids`), project rules (`composition`), load
  reports, feature flags, registries, scripting helpers and the player's
  key handling (`play_ui`, `play_session`).
- `tests/` runs the library on concrete values.
- `app/` holds what cannot be verified: terminal input and drawing, file
  walking and hashing from disk, and the JSON forms of the library's types.

The decoding, paging and signal-processing engine is not part of this crate;
the library takes its results as plain values.
