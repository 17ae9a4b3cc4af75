# oxideav-pdf

A reader for the PDF file format, written in Verus: every function of the
library states what it returns, and the verifier proves it.

The library reads from the bytes of a file and its cross-reference table:

- tokens and objects (`lex`, `parse`, `objects`, `number`, `text`), and their
  names in errors (`describe`),
- streams and their filters (`stream`, `filters`),
- documents: objects by number, object streams, decrypted strings and streams
  (`document`, `xref`, `crypt`); whoever unlocks a file hands in the plaintexts of
  the ciphertexts that the library lists,
- pages and all that their content names (`pages`, `page`, `content`,
  `resources`, `encoding`),
- bookmarks, links, named destinations, page labels, name and number trees
  (`outline`, `link`, `destination`, `named_dest`, `page_labels`, `nametree`),
- layers (`ocg`), signatures (`sig`), claims of archival conformance (`pdfa`),
  the check of a document's hierarchy (`hierarchy`), linearized files
  (`linearize`), information and text strings (`info`, `textstring`),
- images: JPEG files, images within content, samples (`images`,
  `inline_images`, `image_decode`),
- text in reading order (`layout`).

A hard parse-depth ceiling protects the parser, and cycle guards protect whatever
follows references.

Real numbers are kept as the digits they were written with, so that nothing in
the library computes in floating point. `app/` turns what the library reads into
an `oxideav_scene::Scene`, with an interpreter of content operators that its
caller brings.

What the verifier takes on trust is marked `external_body` or
`assume_specification`: a few functions on strings in `src/text.rs`, and zlib
decompression by the crate `compcol` in `src/filters.rs`.
