# rusneb_parser

A metadata crawler for [rusneb.ru](https://rusneb.ru/), the National Electronic Library. Its logic is
a Verus library: what each function returns or changes is stated in its contract and proved.

## What it collects

For each catalogue item the crawler keeps

- what the public card page says: title, authors, description, bibliographic description, and every
  row of the table `Детальная информация`;
- the MARC21 record, read into its fields, with its XML;
- the links to PDF files, from the card and from MARC `856$u`;
- what the viewer may access, without the short-lived access tokens.

It does not download PDF files.

## How a crawl goes

A crawl is a table of search pages and a table of items. Discovery reads the pages of one search
stream after another and queues the items that they list; workers take up items and save their
records. Every row is `pending`, `in_progress`, `done`, `missing` or `failed`. A crawl that is cut
off starts again where it was: what was in progress is pending again. Errors that may pass by
themselves put a row back without spending one of its attempts; many of them in a row lead to fewer
workers and to a pause.

The site shows no more than a window of the results of one search. Where a stream of one year ends
with fewer items than the site reports, the crawl adds streams for the same year in other orders,
and then for the values of single facets. The streams of a year form a group, and a group is covered
when its streams together have listed as many items as were reported.

## Layout

`src/` is the library.

| Modules | What they hold |
| --- | --- |
| `views`, `text`, `numerals`, `order`, `maps`, `json`, `pointers` | texts, numbers, sorted lists and maps, JSON |
| `params`, `jobs`, `settings` | search parameters, search streams, what follows from the arguments |
| `items`, `pages`, `state`, `state_laws`, `finished`, `summary` | the crawl's state, what happens to it, and what always holds of it |
| `discovery`, `item_worker`, `workers`, `pauses`, `tunnel` | the decisions of discovery and of the workers |
| `shards`, `labels`, `groups`, `coverage`, `overflow` | coverage of streams and groups, and the streams that close gaps |
| `ranking`, `validation`, `report`, `commands` | what is printed |
| `html`, `links`, `search_page`, `card`, `marc`, `model`, `record`, `record_json` | pages, records and their JSON |
| `export`, `readback`, `manifest` | files of records, the flat table, and the manifest of a dataset |

Laws that relate several functions are public proof functions whose names start with `law_`. What the
library takes from other crates and from `std` without proof stands in functions marked
`external_body` and in `assume_specification` items; the comment above each says what it claims.

`app/` is the program around the library: arguments, the SQLite file, HTTP, threads, the SSH tunnel
and the files that are written. `tests/` runs the library; `tests/crawl.rs` crawls a site that is
part of the test.

## Examples

```sh
rusneb-parser crawl --no-discover --id 000199_000009_015267348 --max-items 1
rusneb-parser crawl --catalog 25 --access open \
  --publishyear-prev 1800 --publishyear-next 2026 --shard-years --workers 8
rusneb-parser validate-coverage --catalog 25 --access open --require-year
rusneb-parser retry-failed --http-status 403
rusneb-parser export-jsonl --output out/rusneb.jsonl.gz
```
