# dice_bot

A Discord bot for tabletop role-playing games: dice rolls, game-specific
reports (Warhammer, Shadowrun, Degenesis, Trudvang, Brigandine) and a small
store of per-user macros.

- `src/` is the verified library.
  - `dice.rs`: random draws, dice and exploding dice.
  - `text.rs`: decimal numerals, white space, words, ASCII lower case.
  - `commands.rs`: the `Command` type, the report of every command and what
    running a command can answer.
  - `bot.rs`: what a chat message asks for (`plan`) and the replies.
- `app/main.rs` connects to Discord, keeps the macros in SQLite, evaluates
  Lisp and performs the steps that the library plans. It turns dice command
  texts into `Command` values with a parser module generated from the command
  grammar (`lalrpop_mod!`); that grammar file is not part of this crate.
- `tests/` runs the library on concrete values.
