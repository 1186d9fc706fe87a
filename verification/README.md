# feeds2

A library around the supplement source of a feed archive, written in Verus.

- `depth`, `clock`: how deep to scan for a given year, and the current year.
- `checkpoint`: saving and reading the offset of a scan.
- `fetch`: the request for a page, and what to do with each answer.
- `response`, `collapse`, `patterns`: from a response body to the HTML of its items.
- `items`, `cn_time`, `calendar`: from the HTML to activities with a time.
- `activity`, `value`, `page`: from activities to feed records and pages of them.
- `text`, `numbers`: searching text, and integers as text.

Every function in `src/` is verified. What is taken on trust is marked where it stands: calls into
`regex` and `scraper`, the machine's clock, and `String::push`.

`app/` sends the requests and hands the records on as JSON.
