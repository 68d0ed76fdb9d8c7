# Tabulon

Loads technical drawings from DXF files and shows them.

* `src/` is the verified library. It decides what is drawn: which entities, with which
  outlines, paints and styles, and in which order. Its contracts are checked by Verus.
* `tests/` runs the library on concrete drawings.
* `app/` is what stands around it: reading files, arithmetic on coordinates, text layout,
  the renderer and the C interface.

## The library

| Module | What it holds |
| --- | --- |
| `number` | Floating-point numbers by their place in the total order |
| `drawing_types`, `drawing` | Primitives of drawings, point buffers, shared buffers |
| `dxf_file` | The contents of a DXF file, as far as drawing it needs them |
| `color` | Colors and line widths |
| `spline`, `path` | Outlines of entities |
| `text`, `text_style` | Texts and how they are set |
| `blocks`, `block_laws` | Blocks, resolved to chunks, and what holds of them |
| `graphics`, `paints`, `handles` | Items, paints and handles |
| `load`, `load_laws` | From a file's contents to items, and what holds of them |
| `scene` | From items to drawing operations |

Numbers are never computed with in the library. A path is a recipe: outlines of
entities, in cells of the arrays that inserts make. `app/curves.rs` works it out.
