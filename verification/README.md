# jwc_crawler

A crawler for the news sites of Southeast University (the office of academic
affairs, the freshman college, the school of computer science and engineering).
It reads the list pages of each news category, follows the articles on the site,
renders their text as tidy Markdown, and collects the links to attached files.

The library under `src/` is written in Verus: each function carries a contract
and is proved to meet it.

- `text` — character-level operations (replace, trim, lines, number parsing).
- `markdown` — clean-up of rendered Markdown (bold markers, table separators, line joining).
- `article` — rendering an article fragment: links made absolute, complex tables set aside.
- `crawl` — sites, list pages, article pages, and the order in which pages are visited;
  `crawl/jwc.rs`, `crawl/xsxy.rs`, `crawl/cs.rs` configure the three sites.
- `html`, `pattern`, `web`, `date`, `digest` — the calls into `scraper`/`htmd`,
  `regex`, `url`, `chrono` and `sha2`, each with the contract it is trusted to meet.
- `sorted` — sorted sets of strings, for the attachment lists.

`app/` holds the command-line program: argument parsing, HTTP fetching with
`reqwest` (in parallel with `rayon`), and writing the news out as JSON.
