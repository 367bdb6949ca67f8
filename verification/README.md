# brainrunner

A daemon that watches a GitHub repository for issues labelled `ready-for-agent`
and runs a coding agent on each one in a loop (the "Ralph loop") inside a git
worktree, then pushes the branch, opens a pull request and labels the issue
`agent-done`, or labels it `agent-failed`.

## Layout

- `src/` is the verified library (Verus). It holds the daemon's decisions and
  the texts it hands to other programs, as functions from plain values to
  plain values with contracts:
  - `prompt`: the prompt handed to the agent;
  - `runner`: the Ralph loop as a state machine (when to run the agent again,
    when to stop, with which outcome) and the completion-sigil scan;
  - `agent`: one agent run as a state machine over label changes, worktree
    operations, the loop, the push and the pull request;
  - `startup`: the startup sweep as a state machine;
  - `github`, `worktree`: the arguments handed to `gh` and `git`, the reading
    of their results, the ordering of listed issues, error messages;
  - `config`: settings with their defaults and the default file path;
  - `text`: decimal notation, substring search, trimming.
  Laws that span several steps (the label lifecycle of a run, the cap on
  iterations, the sweep moving every running issue to failed, the order of
  listed issues) are proof functions next to the machines they speak of.
- `app/` is the program around it: command line, environment, configuration
  file, TOML and JSON parsing, and the processes it runs (`gh`, `git`, the
  agent, with their working directories and time limits), each
  driving a machine of the library and handing back what came of each
  operation.
- `tests/` exercises the library on concrete values.
