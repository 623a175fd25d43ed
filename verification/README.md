# nanobot-obp

A light model gateway. It takes chat requests in the OpenAI and in the Anthropic
format, chooses a model and a channel for each, tries the channels one after the
other until one answers, and keeps a ledger of what was used and what it cost.

The logic is a verified library, written in Verus: each function states what it
returns, and the laws that hold across functions stand beside them as proof
functions whose names begin with `law_`.

- `src/` — the library.
  - `text`, `numeral`, `sorting`, `ordered`, `clock`, `json`: values.
  - `channel`, `config`: what is configured.
  - `usage`, `stats`, `tables`, `billing`: tokens, costs and the ledger.
  - `protocol`, `convert`: the two wire formats.
  - `hints`, `prompt`, `routing`, `attempts`: from a request to the attempts.
  - `gateway`, `trial`, `stream`: a request on its way.
  - `admin`, `balance`: channels, their tests, and account balances.
- `tests/` — its tests.
- `app/` — the HTTP server around it: sockets, files, the clock of a wait, and
  money in floating point.

Money is counted in billionths of a yuan. Files and replies give it in yuan.

The server reads `data/config.json`, `data/router.json` and `data/stats.json`, or
the files that `OBP_CONFIG_PATH`, `OBP_ROUTER_PATH` and `OBP_STATS_PATH` name, and
listens on `OBP_HOST` and `OBP_PORT`. The page it shows is `index.html` in the
directory where it runs. `OBP_ANTHROPIC_TEST_MODEL` names the model by which an
Anthropic channel without a listed model is tested.
