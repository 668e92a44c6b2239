# trending-bot

Gathers the trending entries of GitHub Trending, Hacker News and Lobsters,
compares them with the previous run, fetches the content behind the new
ones, optionally has them summarized by the DeepSeek chat API, and prints a
short list or a JSON report for AI tools. It can also build a Feishu card
of the GitHub Trending list.

Layout:

- `src/` — the library, verified with Verus: the JSON and text models, the
  readers of each source, the cache file and the comparison with the
  previous run, the content extraction, the grouping of summary requests and
  the reading of their replies, the report, the card, and the decisions of a
  run. Calls into `scraper`, `chrono`, `serde_json` and std that the logic needs stand
  behind small trusted wrappers whose contracts are documented where they
  are declared.
- `app/` — the program around it: argument handling, HTTP, files, processes
  and environment variables, and the serde copies of the library's types.
- `tests/` — tests of the library.
