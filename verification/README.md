# system-health-report

A Linux health monitor: it collects system metrics and log tails, asks an
AI provider (OpenRouter, OpenAI or Anthropic) for an assessment, and posts
the report to Discord through a webhook or a bot. A `/health-fix` slash
command lets the AI propose shell commands, which run after confirmation.

## Layout

- `src/` is the verified library. Every function there carries a contract
  that Verus proves:
  - `text`: the string model (lines, trimming, UTF-8 widths, joining);
  - `config`: the configuration sections;
  - `logs`: the log collection (a map from path to text) and log tails;
  - `metrics`: memory amounts, CPU sample counts, disk matching;
  - `report`: the analysis prompt;
  - `fix`: fix prompts, command parsing, the fix record;
  - `bot`, `confirm`: pending fix requests, button ids, progress messages,
    and the state machine behind the "Confirm Fix" button;
  - `embed`: the report embeds of the webhook and the bot;
  - `ai`: provider choice, requests, reading the JSON answers;
  - `schedule`: the scheduled times and the choice of the next run;
  - `watch`: the shell-history follower;
  - `dispatch`: command-line modes and notification routing.
- `app/` is the program around it: command-line parsing, files, processes,
  HTTP, the Discord gateway, the system probes and the event loops. It calls
  the library for every decision and every message text.
- `tests/` exercises the library on concrete values.
