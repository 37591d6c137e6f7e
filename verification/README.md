# punten_telling_tik_spel

Scoring for a tag game ("tikspel") whose data live in three published
spreadsheets: the players with their passwords, the tags they report for
teams, and the settings (which tags count, default team data).

- `src/` — the verified library.
  - `location_date` — time stamps in the sheets' `DD-MM-YYYY HH:MM:SS` layout.
  - `text` — character access, substring search, decimal parsing, trimming.
  - `inport_info` — CSV text into rows of (header, value) cells.
  - `config` — the settings sheet: relevance window, cutoff, default teams.
  - `tikker`, `team` — players and teams, and how the tag sheet fills them.
  - `lib.rs` — the whole game from the three sheets.
  Where the present time matters (a relevance window that reaches back from
  now), the functions that read the clock have counterparts ending in `_at`
  that take the reading instead. The clock is read through `web-time`, which
  is std's clock natively and the browser's on the web.
- `tests/` — tests on concrete values.
- `app/` — the functions the web page calls (wasm-bindgen) and the
  serialisable copies of the library's types.

The web page also asks for the address of the settings sheet
(`get_config_url`). No such address is defined in this project, so the
library offers no such function; the page has to know the address itself.
