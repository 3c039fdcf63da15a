# image_notify_bot

A Discord bot that watches chosen channels for pictures, marks them with a
magnifier reaction, and, when a user reacts with the magnifier, has an
external evaluation process score the picture's features and replies with
the scores.

- `src/` is the verified library (Verus):
  - `text.rs`: characters of a string, Unicode whitespace trimming,
    splitting on single spaces;
  - `numbers.rs`: decimal parsing of `u32`/`i32` with the standard library's
    rules and error kinds, decimal writing of integers;
  - `evaluater.rs`: tag classes, errors, the tag table, the lines exchanged
    with the evaluation process, the start-up exchange and the reading of an
    evaluation answer;
  - `cache.rs`: the cache of evaluation results, keyed by picture address;
  - `channels.rs`: the per-guild register of watched channels and its
    commands;
  - `image.rs`: which messages show pictures and where the pictures are;
  - `handler.rs`: what the bot does about an event and once the reacting
    user is known, the use of the cache of evaluation results, and the replies
    about an evaluation.
- `app/` is the program around it: Discord (poise/serenity), the evaluation
  process, persistence, and the floating-point scores.
- `tests/` runs the library on concrete values, and compares its parsing,
  trimming and splitting with the standard library's.
