# Paragraph layout

Layout of HWP paragraphs: which characters, marks and objects stand on which line, how a
line is cut into pieces, what its free width goes to, and how the cells of a table and
columns of vertical text are filled.

- `src/` is the verified library. It decides on characters, indices and HWPUNIT. Where a
  decision rests on a measured width, the function takes the outcome of the comparison, or
  is generic over the type of the width.
- `app/` measures in pixels and makes the nodes of a page. Fonts, composed lines, tables
  and equations come through the traits in `app/host.rs`.
- `tests/` runs the library.

The whole of a paragraph is planned by `frame_plan` (its lines), `line_plan` (the runs of a
line) and `width_plan` (what counts in a line's width). The laws of the library are public
proof functions beside the functions that they speak of.
