# cosmeredle

A daily guessing game over the characters of Brandon Sanderson's Cosmere,
built on Coppermind's wiki.

`src/` is the verified library: the infobox parser and markup stripper for
Coppermind's wikitext, the character and book records built from it, the
daily answer's shuffle and rotation, the scoring of a guess, the signup and
login rules, and what a client is told about each error. Every function there
carries a contract that Verus proves; the calls into `regex`, `titlecase`,
`sha3`, `bcrypt` and `chrono` sit behind small trusted wrappers whose contracts name
their results or state what holds of every outcome.

`app/` is the server around it: the axum routes, sessions, the SQLite
database, the MediaWiki client and the hourly sync job.

`tests/` exercises the library on concrete values.
