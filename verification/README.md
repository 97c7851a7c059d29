# hangulang

Semantic extraction for HWP/HWPX documents, written in Verus.

- `src/ir`: the parser-independent Semantic IR (blocks, inlines, tables,
  formulas, provenance and page locations).
- `src/parser_adapter`: turns a paragraph's text and character-shape runs into
  styled inlines, recording colour and font losses once per paragraph.
- `src/markdown`: the Markdown exporter.
- `src/payload`: the stable semantic payload exporter.
- `src/resources`: how images are referenced (data URI, asset directory, URI
  prefix); base64 comes from the `base64` crate.
- `src/loss`: the loss report that both exporters append to.

Every exporter function states its result exactly against a spec function over
the IR's models; the public proof functions named `law_*` state properties
that span calls. `app/` holds the serde and thiserror copies of the payload and
error types.
