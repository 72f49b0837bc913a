# freemkv-tools

Operator and debug toolkit for libfreemkv, with its logic verified by Verus.

- `src/` is the verified library: command lines, the sweep of read commands, JSON values and their
  comparison, the corpus check, the report on a disc image, and the traversal of an extraction.
- `tests/` runs the library on concrete values.
- `app/` is the program around it: drives, disc images, files and the terminal.
