# yingfeng_data

The core of 迎风数据, a desktop tool that collects public business records
from map searches, finds public contact addresses on the businesses'
websites, and exports merged, de-duplicated CSV files. The library is
written in Verus: every function states its behaviour in `requires` /
`ensures` and is proved against it.

## Layout

- `src/` — the verified library.
  - `text.rs`, `order.rs`: characters, trimming, words, string order and
    sorted lists.
  - `models.rs`: the records shared by the other modules.
  - `commands.rs`: device identifiers, search requests, task control.
  - `urls.rs`: URL parts (through the `url` crate), website normalisation,
    the public-address checks.
  - `regexes.rs`, `html.rs`, `csvfile.rs`, `db.rs`: the calls into `regex`,
    `scraper`, `csv` and `serde_json`, each with a contract.
  - `emails.rs`: finding, de-obfuscating and filtering public addresses.
  - `pages.rs`: what a web page yields: addresses, contact links, summary.
  - `robots.rs`: `robots.txt` rules.
  - `crawl.rs`: the website crawl as a state machine, and the decisions on
    HTTP answers.
  - `search.rs`: what each line of the map collector does to a task.
  - `export.rs`: merging records of the same business and the export rows.
  - `email_csv.rs`: filling in the addresses of an exported CSV file.
- `tests/`: tests against the compiled library.
- `app/`: the unverified shell: SQLite, HTTP, the collector process, files.
