# pi_coding_agent

The verified core of `pi`, a terminal coding agent, and of `pi-mom`, its
Slack bot.

`src/` is a Verus library. Every function in it carries a contract that
Verus proves: the text tools produce (truncation, diffs, HTML and ANSI
rendering), the slash commands and keys of the interactive modes, skills,
prompt templates, settings, extensions, session files (trees, merges,
forks, schema migration) and the bot's event handling and per-channel
state. Calls into other crates (path handling in `std::path`, `chrono`,
`regex`, `glob`, `base64`) go through small trusted wrappers whose
contracts are stated next to them.

`app/` is the program around the library: the command line, terminal
drawing, files, processes, network and the agent runtime. It hands the
library plain values and acts on what the library decides.

`tests/` runs the library on concrete inputs.
