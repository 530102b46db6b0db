# a2o4

A server that downloads works and series from Archive of Our Own (AO3),
files each under one fandom, keeps a record of them in SQLite and sends the
files to e-readers (over the Crosspoint web socket protocol or SFTP).

The crate is written in Verus. The library under `src/` holds what the
server decides and computes, each function with a contract that Verus proves:

- `text`, `strset`: strings, integer parsing as `str::parse` does it,
  splitting, small string sets.
- `pattern`, `html`: regular expressions (the `regex` crate) and CSS
  selection over HTML (the `scraper` crate), behind functions whose results
  are named and which the rest of the library reads.
- `common`: download formats, AO3 addresses, page checks, title cleaning and
  the fandom map and filters that file a work under one fandom.
- `config`: devices, the fandom map and the filters.
- `domain`: works, series, tags and signing in; reading them off AO3 pages.
- `db`: the rows the database stores and reads back.
- `routes`: the download request, the steps of a download and the answers,
  the device list, and reading a work back from a downloaded EPUB.
- `clients`: paths on the server and on devices, folder creation, the
  upload protocol's messages and multi-device upload runs.
- `laws`: properties that relate several functions, proved once.

`app/` is the program around the library: the Rocket server, the HTTP
session with AO3, files, the database and the uploads.
