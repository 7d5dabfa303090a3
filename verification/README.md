# oreilly_epub

The verified core of a command-line tool that downloads a book from O'Reilly
Learning (given its `bookid`) and packages it into a valid EPUB.

- `src/` is the library, checked by Verus: the models of the API, the
  reading and writing of XML documents (`events.rs`, through `quick-xml`),
  the rewriting of chapter fragments (void elements closed, links to book
  files made relative, stylesheet links) and of the OPF package document (a
  `dc:description` added where missing), the sanitizing of the other pages
  (`sanitize.rs`: scripts removed, boolean attributes in XML form), the
  layout and plan of the archive, the parsing of the cookies file, the
  decisions of the download loop and the collection of paginated answers.
  `src/xml_laws.rs` states what the rewriting keeps over whole documents.
- `app/` is the program around it: command-line arguments, HTTP requests,
  files, the XHTML wrapper of chapters (built with `ogrim`), and the zip
  archive.
- `tests/` runs the library on concrete books and documents.
