# tavern

A Discord moderation bot ("the barman"): it deletes messages that contain a
guild's banned words when their author holds the moderated role, reports
them to a log channel, gives new members a basic role, and answers a few
commands with a quote.

- `src/` is the verified library (Verus): text primitives (`text`), message
  formatting through serenity's `MessageBuilder` (`message`), guild settings
  and mention parsing (`guild`), command decisions and replies (`commands`),
  banned-word detection (`moderation`), quotes (`quotes`) and command
  descriptions (`database`).
- `app/` is the bot itself: Discord client, SQLite queries, file reading.
- `tests/` runs the library on concrete values.
