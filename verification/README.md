# delegate_classifier

Classifies the delegates of the National People's Congress into six identity
categories with a large language model, flags delegates with both political and
business roles, and writes tables and a chart of the result.

The library under `src/` is verified with Verus: every function carries a
`requires`/`ensures` contract, and the properties that span functions are
stated and proved as proof functions named `law_*`.

- `text`: Unicode whitespace, trimming, searching, character conversions.
- `category`: the six categories, their Chinese names, record statuses.
- `fence`: removing a Markdown code fence around a model answer.
- `json`, `scrape`, `charset`: the calls into serde_json, scraper, regex,
  encoding_rs and std that the logic needs, each with its contract.
- `reply`: reading the JSON object of a model answer into a record.
- `retry`: error classification of a model call and the retry policy.
- `prompt`: the instructions, the question and the service address.
- `crawl`: the delegate list pages, name cleaning, ordering and de-duplication.
- `report`: result rows, the political–business list, counts and chart axis.
- `order`: the order of texts.
- `run`: settings, the result cache and the outcome of each delegate's call.

`app/` is the program around the library: configuration and cache files,
HTTP requests, concurrency, CSV/JSON output and drawing the chart.
