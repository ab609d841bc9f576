# verseapp

A multi-format document reader (PDF, EPUB, DOCX, DjVu, XPS, MOBI, CBZ, FB2)
built on the iced GUI toolkit, with its decision logic in a library whose
behaviour is stated in contracts and proved with Verus.

- `src/` is the verified library: key bindings and the shortcut handler,
  page navigation and prefetching, the texture and thumbnail caches, the
  memory purge across tabs, the tab strip, search navigation, the disk cache
  naming, retention and header format, the Word archive reading and HTML
  conversion, the night filter and the view's page windows and labels.
- `tests/` exercises the library on concrete values.
- `app/` is the program around it: the iced application, the MuPDF and DjVu
  engines, the Word engine's temporary files, file and disk-cache I/O, session files, and the
  floating-point layout (zoom, scroll offsets, text selection by pointer).
