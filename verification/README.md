# Blink

Blink is a Markdown editor with a live preview. This crate holds what the editor decides and
computes, with contracts that Verus proves; the program around it, with its windows, dialogs and
files, is under `app/`.

- `src/` is the library.
  - `parse`, `event`, `github`, `autolink`, `emoji`, `scripts`, `html`: a document as events, read
    as GitHub reads it.
  - `blocks`, `groups`, `preview`, `render`, `table`, `cell`, `links`, `folds`: the text, tags and
    widgets of the preview, which blocks of it are rendered again, and what a click in it does.
  - `export`, `rewrite`, `page`, `safety`: the HTML page, and that it holds no script.
  - `pdf`, `setting`, `paging`: the blocks of the PDF, how they are set, and where pages end.
  - `math`, `images`, `pictures`, `languages`: what a document shows besides text.
  - `document`, `conflict`, `backup`, `recovery`, `refresh`: a document and its file as a state
    machine: saving, autosaving, changes by other programs, backups.
  - `application`, `window`, `folder`, `search`, `labels`, `settings`: windows and tabs, the
    sidebar, find, and what labels say.
  - `document_laws`, `folder_laws`, `preview_laws`, `render_laws`, `pdf_laws`, and public proof
    functions elsewhere, state what holds across functions.
  - `text`, `path`, `sorting`: what the rest is built on.
- `tests/` runs the library on examples.
- `app/` is the program: GTK 4, libadwaita and GtkSourceView, the disk, and the typesetting whose
  lengths are floating-point numbers.

What is believed without proof is said in the doc comments of the functions marked
`external_body` and of the assumed specifications: what pulldown-cmark reads and writes, the emoji
and shortcodes in the tables of emojis, and a few functions of the standard library on characters,
texts, paths and hashes.
