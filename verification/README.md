# usagi

The verified core of Usagi, a Lua game engine for rapid 2D prototyping,
and the command line around it.

- `src/` is the library, verified with Verus. Each module states what its
  functions compute over mathematical models (`Seq`, `Map`, spec
  functions) and proves it:
  - `bundle`: the `.usagi` bundle format, its parser, and fused
    executables; laws for round trips and canonical bytes.
  - `project`: which files of a project directory go into its bundle
    (script, Lua modules, sprites, sounds, music, palette, `data/` tree).
  - `preprocess`: the line-anchored rewrite of `+=`, `-=`, `*=`, `/=`,
    `%=`; laws that the line count is kept, that each line keeps its
    ending and changes only when it starts in code and holds a compound
    operator, and that source without one comes out unchanged.
  - `game_id`, `save`, `settings`: game identifiers and where save data
    lives; a law that every resolved id is a valid one.
  - `vfs`, `paths`: module resolution and the layout of a project.
  - `templates`, `export`, `macos_app`: the decisions and names of
    `usagi export`, the `sha256` sidecar check, and the `Info.plist`.
  - `palette`, `icon`, `sprite`, `menu`, `input`, `launch`: palettes, icon
    pixel scaling, sprite cells on the sheet, the pause menu's rows, input
    actions and session start-up.
  - `pause`, `frame`, `report`: the pause menu as a state machine,
    with its key and gamepad capture (laws that selections and captures
    stay in range, that the toggle opens and closes it, and that a
    capture never binds one key or button twice), the per-frame
    decisions (global shortcuts, frame step, music), and the recording
    of script errors.
  - `bundle` keeps its files in name order as a type invariant, so no
    caller carries a well-formedness precondition.
- `tests/` runs the library on concrete values.
- `app/` is the `usagi` binary: argument parsing, files, downloads,
  archives and zips, calling the library for every rule and format.
