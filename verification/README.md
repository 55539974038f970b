# slidecli

A terminal slide editor and presenter. Presentations are Markdown files; what Markdown
cannot say (exec blocks, their signatures, output areas) lives in HTML comments.

The library under `src/` is verified with Verus:

- `model` — presentations, slides and blocks, with their mathematical views.
- `markdown` — reading and writing the Markdown format, and staged reveal of text blocks.
- `meta_law` — the proof that the font settings survive writing and reading back.
- `roundtrip` — the lines that writing produces, and which presentations the format
  carries unchanged.
- `read_back` — the proof that reading back what was written gives the presentation
  that was written (blocks renumbered), and that writing it again gives the same text.
- `layout` — where a slide's text and panels go on a frame.
- `app` — the editor state and every operation on it (staged reveal while presenting
  included), with the laws they keep.
- `input` — what each key does in each mode.
- `config` — the display settings kept between sessions.
- `view` — what the terminal views show (presentation lines, block looks, labels).
- `render` — canvas size, line wrapping, the rectangles and lines drawn on a frame, and
  the PNG file a frame is sent as.
- `kgp` — Kitty graphics detection and the escape sequences that show a frame.
- `present` — frame fingerprints, redraw state, and the caches reused between frames.

`app/` is the program around it: the terminal loop, ratatui drawing, running commands,
font rasterization and PNG encoding, and the settings file.
