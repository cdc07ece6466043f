# orpheus

The verified core of a small personal site: the preprocessor that turns
markdown posts and pages into HTML, plain text, metadata and a search index,
and the server that lists, filters and pages the posts.

- `src/` is the library, verified with Verus. It holds the rules of the
  site: where each build step reads and writes, content hashes and the
  incremental-rebuild rule, frontmatter splitting, post metadata, plain-text
  summaries, the ETag table and cache answers, the post catalogue with its
  filters and pages, page layouts and error pages, and the highlighting of
  code blocks with syntect.
- `app/` is the program around it: file and process I/O (pandoc, the SCSS
  compiler, npm), the tantivy search index, the axum server and the maud
  templates. It hands the library plain values and acts on what it returns.
- `tests/` runs the library on concrete inputs.
