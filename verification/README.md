# lean_ctx

The decisions of a context server, as verified functions.

- `src/agents/`: which agents may register on one machine, and what each registration does to the records.
- `src/commandcode.rs`, `src/json.rs`, `src/jsonc.rs`: the server entry in the configuration file of Command Code.
- `src/task_briefing.rs`, `src/intent.rs`, `src/paths.rs`: the briefing on a task.
- `src/ranges.rs`: windows on the lines of a text.
- `src/shell.rs`, `src/heredoc.rs`: the rules of the shell tool.
- `src/text.rs`, `src/time.rs`: text as sequences of characters, and instants.
- `app/`: the files, the clock and the processes around them.

The laws of each part are public proof functions beside the functions that they speak of.
