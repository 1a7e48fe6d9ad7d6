# terminal-slide

A slide presentation tool for the terminal: Markdown files are shown as an
interactive presentation in the terminal, HTML files are served on a local
HTTP server and opened in the browser, and presentations can be exported to
PDF, PowerPoint, Markdown or HTML.

The library in `src/` holds the program's logic, verified with Verus:

- `slide.rs` – the slide model (spans, elements, slides, presentations).
- `parser.rs` – splitting a document into slides at `---` lines and building
  each slide's elements from pulldown-cmark's event stream
  (`markdown_events.rs` holds that stream as plain values).
- `render.rs` – the layout of a slide as styled lines, with syntect's colours
  for code blocks.
- `app.rs`, `input.rs` – navigation state, the key bindings, the transition
  chosen for each slide change, and the frame's footer.
- `cli.rs` – format detection from the file extension.
- `export.rs` – which conversion an export runs, where its output goes, and
  the text transformations of the inputs (pandoc input, print-ready HTML,
  Markdown rendered into a standalone page).
- `server.rs` – content types, URL decoding, the file a request names, and
  the search for a free port.
- `paths.rs`, `text.rs` – Unix paths and string helpers, as `std` defines them.

`app/` is the program around it: command-line parsing, the terminal loop
(ratatui, crossterm events, tachyonfx effects), the HTTP server (tiny_http),
and the external converters (pandoc, headless Chrome).

Keys: Right/l/j/n/Space next slide, Left/h/k/p previous slide, g first,
G last, q/Esc/Ctrl+C quit.
