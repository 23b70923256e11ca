# sint_solver

A solver for the Sinterklaas FTL cooperative game, with its decision logic verified
in Verus.

- `src/` is the verified library. It works on a plain model of the game state
  (`model`) and holds what the solver decides: reading solution files
  (`verification`, `text`), bringing a game to its next decision (`driver`),
  checking a solution round by round and wording its errors (`checker`), the
  failure report (`report`), the macro-action search (tasks, combinations,
  evaluation and frontier: `macro_actions`, `combinatorics`,
  `heuristic`, `beam_search`), the single-action beam step and the loop that runs it (`beam_step`), plan
  edits of the rolling-horizon evolution (`evolution`), the bookkeeping of weight
  tuning (`tuning`), search histories, action filtering and state signatures
  (`search`), the replay log (`trajectory`, `replay`), terminal display helpers
  (`tui`) and the multiplayer relay's session (`relay`). Two outside functions are
  reached through trusted items: rand's uniform draws (`random`: the generator's
  type, and a wrapper whose contract only says that a draw below `n` is below `n`)
  and std's `Debug` quoting of a text (`checker`), whose result is only named.
  Each public function states its result in its contract; the laws that tie
  functions together are public proof functions named `lemma_*`.
- `app/` is the program around it: the command line, the game engine
  (`sint_core`), floating-point scoring, threads, the terminal interface and the
  websocket server.
- `tests/` exercises the library on concrete values.
