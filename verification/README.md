# rave_engine

The decision logic of the RaveEngine studio, server and Luau scripting
runtime, written in Verus and proved against its contracts.

- `src/` is the verified library. Entities are plain 64-bit ids; transforms
  and other engine values that the logic only carries are type parameters.
  - `hierarchy`, `map_loading`, `scene_ops`, `project`: map files — the
    hierarchy check, parent links on load, node ids on save, and the proof
    that saving and loading rebuild the same hierarchy.
  - `scene`, `explorer`, `selection`, `interaction`, `undo`, `deletion`,
    `editor`, `gizmos`, `camera`, `playtest`, `snapshot`, `graphics`,
    `line_numbers`, `onboarding`, `properties`: the studio — explorer order,
    search and drops, selection rules, pointer drags, the undo/redo history
    (single bricks and whole subtrees), deleting and duplicating the
    selection, document state, tool handles, the playtest camera and
    clean-up, subtree snapshots for copy, duplicate and the playtest backup,
    graphics settings, the script editor's gutter, the welcome dialog and
    the on/off settings of the properties panel.
  - `scheduler`, `scripting`, `services`, `contacts`: the scripting runtime —
    the task scheduler, connected handlers, `require`'s module cache, service
    lookup and touch/player-join detection.
  - `players`, `physics`: server rules for players, brick collision and
    what scripts read and write of a brick's physics.
  - `text`: string comparison and search used by the above.
- `tests/` runs the library on concrete scenes.
- `app/` holds the Bevy systems and the mlua runtime that feed the library
  and carry out what it decides.
