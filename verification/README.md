# indium

Human-versus-model Go on a 19x19 board. `src/` is a Verus library: the rules of
the game, the text that the model reads, the bookkeeping of a conversation in
which one fat block of state is replaced every turn, and what the terminal says.
Every function in it carries a contract. Verus proves all of them but those of a
few outside calls, listed below, which it believes. `app/` is the program around
it: arguments, files, the terminal, and the client that talks to the model.

| module | what it holds |
|---|---|
| `board` | points, neighborhood, connection, liberties |
| `rules` | the state of a game and what a move makes of it |
| `goban` | the game itself: playing, refusing, groups |
| `survey` | all groups, all legal moves, the area score |
| `laws` | what holds of every game: liberties, ko, passes, groups, areas |
| `coords`, `render` | names of points and moves, the board as text |
| `prompt` | the scratchpad, the fat block and the stub it collapses to |
| `record` | the log of turns and the SGF |
| `json`, `tools` | JSON values, and the two tools the model may call |
| `messages`, `agent` | replies, and what is done to the conversation |
| `protocol` | what holds of every conversation: answers and fat blocks |
| `stats`, `report` | telemetry, and the report at the end |
| `options`, `session`, `bot` | command line, terminal session, bot opponent |
| `text`, `order` | numerals, trimming, lines, joining, sorting |

The library trusts `String::push` and, from `serde_json`, the construction of
values and the lookup of a member. What is claimed of them stands above each
item.

Known limits: simple ko only, no positional superko; the area score removes no
dead stones, so it is provisional; the bot is a loop driver, not a Go player.

`--model` names the model. Without it `xai` is asked for `grok-4.5`, and
`anthropic` for what `ANTHROPIC_MODEL` holds, in the environment or in `./.env`.
