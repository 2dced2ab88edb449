# SnipDesk

A snippet launcher for support agents, with a team server: canned replies in folders, with
tags, pasted by hotkey, and a shared library that is managed from a dashboard.

The rules of both programs are a library in [Verus](https://github.com/verus-lang/verus),
the verifier for Rust. Its functions carry contracts, and Verus proves the code against them.

## Layout

- `src/` is the library. It decides and computes, on plain values.
  - Text: `text`, `trim`, `find`, `order`, `decimal`, `encoding`, `json`, `csv`, `entries`, `html`,
    `url`, `tags`, `paths`, `diff`, `highlight`, `preview`.
  - Desktop: `db` plans each change of the snippet store (`db/laws` states what the plans keep),
    `phraseexpress` and `rtf` read foreign files, and `paste`, `backup`, `logging`, `settings`,
    `shared_library` and `validate` are the rules of the engine.
  - Server: `auth`, `crypto`, `config`, `audit`, `error`, `cli`, `console`, `library`, and the
    pages under `dashboard`.
- `app/` is ordinary Rust around the library: SQLite, HTTP, files, the clipboard and the
  keyboard. It also holds the arithmetic in floating point (exchange rates, hours and money
  saved, percentages).
- `tests/` runs the library with the crates that it calls.

## Reading the contracts

A contract speaks of a text as a sequence of characters, and of a record by its view. Where a
function depends on the clock or on chance, its contract says what holds whatever time or
random value comes back. Many have a twin that takes that value as an argument, with an exact
contract.

Properties of several functions together are proof functions whose names begin with `law_`.

What the library takes from other crates stands behind small functions marked
`external_body`, and behind a few `assume_specification` items for the standard library. Their
doc comments say what is believed of the call. Where a result takes too long to describe, it
has a name instead (`pub uninterp spec fn`), and the contracts speak of that name.
