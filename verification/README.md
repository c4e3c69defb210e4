# uvea

An immediate-mode user interface library: windows, panels, popups, tree nodes, buttons,
check boxes, labels and text boxes that are declared anew every frame and emit a list of
drawing commands.

- `src/` is the library, verified with Verus: geometry, the row layout, the container and
  tree pools, ids and their scopes, clipping, the controls and their focus rules, text editing
  on UTF-8 bytes, splitting text into bidirectional runs and shaping them (through
  unicode-bidi and rustybuzz, in font units), the glyph atlas and cache, script detection and
  icon geometry. Each public
  function has a contract, and `law_*` proof functions state properties that span functions.
- `app/` holds what runs around it: the wgpu renderer and its shader, the scaling of shaped
  glyphs to pixels and their rasterization with fontdue, the slider (floating point), and the
  controls identified by the address of the value they edit.
- `tests/` exercises the library on concrete frames.
