# nbtedit

A small editor for NBT files, the format of Minecraft save data such as
`level.dat`, with its logic verified by Verus.

- `src/` is the verified library: the NBT reader (plain and gzip-compressed
  files), the tag tree and its operations, the editor's state machine, the
  directory listing, paths and breadcrumbs, and the laws proved of them
  (`reader_laws`, `tree_laws`, and the laws beside the editor, paths and
  choices).
- `app/` is the iced program around it: windows, file and directory reads,
  and the text of floating-point values.
- `tests/` runs the library on concrete inputs.
