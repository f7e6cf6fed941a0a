# url_md

Any URL to clean Markdown with YAML front matter, with the decisions of
the pipeline verified in Verus.

- `src/` is the verified library: URL routing to site adapters, the WeChat
  and generic extractors, lazy-image repair before HTML-to-Markdown
  conversion, word counts and reading time, front-matter rendering, image
  localisation planning and link rewriting, command-line desugaring, exit
  codes and automatic file names. Parsing HTML (`scraper`), URLs (`url`),
  converting HTML to Markdown (`html2md`) and writing YAML (`serde_yaml`)
  are called through small trusted wrappers whose contracts name their
  results.
- `app/` is the program around it: the `url-md` command line (`md`,
  `serve --mcp`), the HTTP fetcher, image downloads, file output and the
  MCP server.
- `tests/` runs the library on concrete inputs.

`url-md <URL> -o out/` saves `out/{date}-{host}-{slug}.md` and downloads its
images to `out/assets/` (`--assets <DIR>` elsewhere, `--no-assets` not at
all).

Exit codes: 0 ok, 10 network, 11 blocked by anti-bot measures, 12 paywall,
13 login required, 20 no adapter or extraction failed, 30 invalid URL or
write failure, 99 internal.
