# iced_accessibility

The accessibility support of the iced GUI toolkit, as a library verified
with Verus: the widget state tree that remembers which accessibility node
each widget was given and which widget has keyboard focus, the nodes that
containers, panes, overlay groups, tables and text inputs describe
themselves with, the way a user interface assembles its accessibility tree
and routes the requests of assistive technologies, and the byte, character
and line arithmetic that text inputs expose their selection with.

Layout:

- `src/` — the verified library, one module per concern:
  `tree` (state tree, reconciliation, focus tracking), `widget` (what the
  state tree and the user interface need of a widget), `user_interface`
  (tree updates, overlay attachment, request routing), `node` (the
  accessibility node model), `container`, `content` (pane grid content),
  `group` (overlay groups), `table`, `text` (grapheme clusters, lines and
  offsets) and `text_input`.
- `tests/` — tests of the library on concrete values.
- `app/` — what stays outside the verified library: the floating-point
  geometry of node bounds and the conversion of nodes, tree updates and
  action requests to and from AccessKit.

Text is segmented into extended grapheme clusters by the
`unicode-segmentation` crate; the library states what it relies on of that
segmentation in the contracts of the functions that call it.
