# daftie

A Telegram bot that watches searches on daft.ie and sends what is new.

`src/` is the library: the decisions of the bot, verified with Verus. It reads
search addresses, gateway replies and listing pages, renders captions and
summaries, keeps the state of the chats, and plans what is done on a message and
on a check. A plan is a list of steps; the library takes none of them itself.

`app/` takes the steps: it talks to Telegram, to daft.ie and to Google Maps, reads
the environment, and keeps the state on disk. The library reads the local clock
itself (`Moment::now`); `app/` calls that, and reads the seconds since 1970.
Coordinates are floating-point numbers in `app/`, which also computes the centre
and the span of a map from the extent that the library gives; the library holds their bit
patterns and texts, compares the former and shows the latter.

The functions whose contracts are taken on trust are marked `Trusted:` in their
doc comments. They call `chrono` (times and dates), `serde_json` (JSON), `url` (web
addresses) and `std` (`String::push`, `str::to_lowercase`).

The laws of the library are its public proof functions, whose names begin with
`law_`. `tests/` runs the library on concrete values.

`Cargo.toml` names `takecell` only to hold it at 0.1.1: `teloxide` depends on it,
and later versions ask for a newer compiler than the rest of the project.
