# mouser

The verified core of Mouser, a personal RSS and YouTube reader.

- `src/` is the library, written in Verus and verified:
  - `text`, `like`: character-sequence operations (trimming, search, code-point
    order) and SQL `LIKE` matching as the article search uses it;
  - `urls`, `sources`: feed-URL checks, cleaning of user-edited feed sources,
    and the resolution of YouTube channel URLs to their channel feed;
  - `ids`: article identifiers (hex SHA-256 of the trimmed link);
  - `fetch`: what a feed response becomes (status classes, conditional
    headers, the first ten entries with a link);
  - `store`, `pages`: the article cache with its archive, tombstones and
    retention rules, and newest-first pages with search and a cursor;
  - `laws`: properties that span several operations, proved;
  - `trusted`: the calls into std, `url` and `sha2` that the
    proofs take on trust, each with the contract it is given.
- `tests/` runs the library on concrete values.
- `app/` is the unverified shell: `feeds.json`, SQLite, HTTP, the feed
  parser (guarded against its panics), the browser.
