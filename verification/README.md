# bibref_rs

Looks up bibliographic records on Crossref and arXiv from a DOI, an arXiv
identifier, a citation key such as `smith2020deep`, or free text, and writes
BibTeX entries for them.

The library under `src/` is verified with Verus. Each module states its
behaviour over a model of its data (char sequences for text, `RecordView`
for a work record) and proves the code against it:

- `text`, `words`, `numbers`: character classes, trimming, splitting,
  joining and decimal numbers, the building blocks of the specifications.
- `metadata`: the work record and its authors.
- `bibtex`, `keys`: LaTeX escaping, citation keys and BibTeX entries.
- `search`: what kind of query the user typed.
- `requests`: the Crossref and arXiv request URLs, and which sources a
  query is sent to.
- `sources`: mapping Crossref items and arXiv entries to work records.
- `filter`, `merging`, `ranking`: keeping records that match a filter,
  merging the same work found twice, and ranking citation-key matches.
- `display`, `session`: the lines shown for a result, and the state of an
  interactive lookup (selection, preview, messages).
- `laws`: properties that span several modules.

`app/` is the command-line program around the library: argument handling,
the HTTP client and the JSON and Atom decoding. `tests/` holds the tests.
