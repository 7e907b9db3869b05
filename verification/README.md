# nothing_de

A dot-matrix styled Wayland desktop in the manner of Nothing OS: a nested
compositor built on Smithay that draws its own status bar, dock, widgets,
dashboard, app launcher and quick settings on a software canvas.

The library (`src/`) is written in Verus and verified:

- `pixels`, `shapes`: the model of a BGRA pixel buffer, the shapes the
  canvas paints and the drawing operations built from them.
- `canvas`: the canvas and its primitives (pixels, rectangles, rounded
  rectangles and borders, discs, rings, dot-matrix glyphs and text); each
  primitive is specified as painting exactly its shape.
- `glyphs`, `text`: the 5 x 7 dot-matrix font and the text it writes.
- `scene`: every UI scene, specified as the list of operations that draws it;
  the dashboard's system tile holds circular CPU and RAM gauges whose lit
  arc grows with the usage.
- `state`: the UI state, the dashboard's click targets and the refresh of
  the system figures.
- `stats`: reading memory, CPU and battery figures from the text of the
  kernel's status files.
- `layout`, `input`: window placement (floating windows keep their place,
  new ones join a cascade; master/stack tiling) and the decisions taken on keyboard shortcuts and pointer buttons.
- `clock`: the local time shown by the clocks.

`app/` is the compositor program around it: the Wayland and winit
plumbing, file reads, and the few computations done in floating point.

Shortcuts: `Super + D` dashboard, `Super + A` app launcher, `Super + S`
quick settings, `Super + T` floating/tiled layout, `Super + J` / `Super + K`
next/previous window, `Super + Q` close, `Super + Enter` terminal.
