# omavision-core

The library behind omavision, a TV media browser for a personal video library: it names
what is on disk, groups episodes into shows, decorates items with TMDB metadata, filters
them as you type, and decides what the keys do. The functions here are verified with Verus
against the contracts in their headers, except a few small trusted wrappers, each marked
`#[verifier::external_body]`, around calls into std or an outside crate (lower- and upper-casing,
`String` edits, path parts, the clock, the home directory, the regex engine, Unicode
normalisation and the TOML parser); their contracts are stated, not proved.

## Layout

| Module | What it holds |
| --- | --- |
| `parse` | file names to movies, episodes and flat videos |
| `scan` | a category's files to items: shows, seasons, sorting; the category order |
| `index` | the index a scan produces, and its counts |
| `search` | accent- and case-insensitive matching, every word of the query |
| `browse` | the keyboard model: tabs, list, open shows, the card and the view |
| `keys` | key text to browser actions, replay scripts |
| `meta`, `tmdb`, `enrich` | metadata, provider requests and replies, the lookup of one item |
| `cache` | cache file names and paths |
| `config`, `theme`, `player`, `status` | settings, colours, playback commands, status words |
| `text`, `paths` | characters, words, decimal and hex digits; path operations |

`app/` is a terminal front end around the library: it reads the settings and the disk,
talks to TMDB, runs the player and prints what the window would show.
