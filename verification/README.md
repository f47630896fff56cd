# wux

A personal command toolkit (`wux free`, `wux nuke`, `wux whereis`, `wux info`,
`wux update`, `wux dockersafe`, `wux dockerrun` and the user's own commands
from `wux.toml`), written in Verus.

- `src/` is the verified library: command-line reading, configuration loading,
  and for every command the decisions it takes and the texts and arguments it
  produces, each with a contract.
- `app/` is the program around it: reading files, walking directories,
  running `netstat`, `taskkill`, `docker`, `curl` and the user's commands, and
  printing.
- `tests/` runs the library on concrete inputs.
