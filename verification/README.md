# nba

The `nba` command prints NBA scores and schedules: today's live scoreboard, the games
of a given day as score cards two to a row, or a team's next six games.

`src/` is the library, verified with Verus:

- `text`: string helpers (trimming, decimal numbers, alignment, ASCII case).
- `date`: calendar days as day numbers, and the calls into chrono.
- `model`: the games as the NBA feeds give them, and the unified `Game`.
- `schedule`: queries over the league schedule, with their laws.
- `render`: the lines the command prints, with their laws.
- `command`: the choices between the views.

`app/main.rs` is the command itself: argument parsing, HTTP requests, the cache file,
JSON decoding and printing.
