# diff_local

The comparison engine of a desktop tool that shows the difference between
two text files side by side.

- `src/text.rs`: splitting a buffer into lines and dropping carriage returns.
- `src/inline.rs`: word- or character-level highlight spans of a replaced line.
- `src/rows.rs`: side-by-side rows, statistics and change positions built from a line diff.
- `src/laws.rs`: what the rows of an edit script guarantee (both inputs covered, in order).
- `src/diff.rs`: `compute_text_diff`, the whole comparison of two buffers.
- `src/report.rs`: size limits, messages, text decoding and the assembled result.
- `app/`: the desktop shell (file dialogs, file reading, serializable copies of the result).

The line and in-line diffs themselves come from the `similar` crate.
