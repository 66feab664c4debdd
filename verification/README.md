# mecalin

The rules of a GTK typing tutor, written in Verus and proved against their
contracts.

- `src/` is the verified library:
  - `typing_row`: checking the learner's input against the target text,
    where a mistake sends the input back to, the cursor's byte index, the
    cursor lock at the end of the input, dead-key detection;
  - `scoring`: score, level and speed shared by the games;
  - `game_loop`: when the timers of the falling keys game start and stop,
    by generation, so that at most one update timer and one spawn timer keep
    working;
  - `falling_keys_game`: falling letters caught by typing them;
  - `scrolling_lanes_game`: words scrolling along four lanes, peeled letter
    by letter;
  - `about_view`: the about page's version line and which links it opens;
  - `text`: UTF-8 widths and byte offsets, prefixes, splitting into words;
  - `chance`: the random choices of the games, drawn with `rand`.
- `app/` is the GTK front end: widgets, drawing, timers, settings and
  translations, calling the library for every decision.
- `tests/` exercises the library.
