# dl_voice

Voice-cluster logic of a Deadlock community Discord bot, written in Verus:
every decision the bot takes about voice lanes, rank anchors,
looking-for-group posts, pairing and surveys is an executable function with a
contract, proved by Verus.

## Layout

- `src/` — the verified library.
  - `text`, `sorting`, `rank_catalog`, `interactions`: shared models (strings
    as character sequences, stable sort, rank tables, modal descriptions).
  - `adaptive`, `lane_sync`, `lane_settle`: adaptive lane families (plan,
    the channel operations of a sync, and the proof that a sync settles its
    family so that the next one lists nothing).
  - `rank`, `rank_commands`: rank anchors, score windows, role overwrites and
    the `!rrang` command group.
  - `glue`, `overwrites`, `id_sets`: permission bit merges, overwrite
    payloads (with the cache lookup of a CONNECT batch) and the ordered id
    sets they collect.
  - `json`, `components`, `bot_messages`: JSON values, the message
    components built from them, and the reading of the bot's own messages
    from an API answer.
  - `lfg`, `lfg_flow`, `lfg_watch`, `lfg_components`: the looking-for-group
    panel, posts, watches and dialog components; the multi-step flows
    (applying the panel, creating a post, reconciling stored posts, the
    match run of a watch) are step functions from state and event to next
    state and action, driven from outside.
  - `pairing`, `mate_survey`, `feedback`, `nudge`: the DM-driven features.
- `tests/` — tests run against the compiled library.
- `app/` — runtime glue in ordinary Rust: drives lane syncs and the panel
  apply against their ports and converts between the library's JSON values
  and `serde_json`.
