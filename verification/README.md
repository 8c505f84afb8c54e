# usados

"Marcar como usado" adds an entry to the Windows right-click menu that moves
the selected files and folders into a folder of used items, never
overwriting anything (`clip.mp4` becomes `clip (2).mp4`), optionally in
sub-folders by month, day or folder of origin, and logs each move in
`_registro_usados.csv`.

- `src/` is the library, verified with Verus: path keys, path components
  and the order in which paths are sorted, file names, free names, the
  queue's file format, the batch plan, the closing of a move, the log's
  text, the settings, installing and uninstalling, the registry writes (as
  data, with a model of the registry for the laws), and what the windows
  say.
- `app/` is the Windows program around it: registry (`winreg`), file
  system, COM dialogs and `IFileOperation` (`windows`).
- `tests/` runs the library on concrete values.
