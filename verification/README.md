# clashtui

The logic of a terminal front end for proxy cores (mihomo and sing-box),
written in Verus: every function under `src/` carries a contract that the
verifier checks.

Layout:

- `src/key.rs`, `src/profile_tab.rs`, `src/template_tab.rs`, `src/settings.rs`,
  `src/demo*.rs`, `src/selection.rs`: key events, keymaps and the state machines
  of the tabs, as functions from state and key to next state and action.
- `src/fuzzy.rs`, `src/popmsg.rs`: fuzzy matching, the searchable list and the
  stack of pop-ups.
- `src/yaml.rs`, `src/json.rs`, `src/agent.rs`: value models of YAML and JSON
  documents and the keymap sections built from them.
- `src/template.rs`, `src/singbox.rs`, `src/subscription.rs`: expansion of
  configuration templates for both cores, and reading templates and
  downloaded subscriptions from their text and bytes.
- `src/bridge.rs`: conversions between serde's YAML and JSON values and the
  library's trees, used by the parsing wrappers.
- `src/startup.rs`: the render throttle and the check of a data directory.
- `src/tree.rs`, `src/proxies.rs`: the proxy tree and the proxies tab.
- `src/text.rs`, `src/sort.rs`, `src/command.rs`, `src/term.rs`: text helpers,
  sorting, command output and terminal replies.
- `src/*laws*.rs`, `src/tree_toggle.rs`: properties that span several
  functions, stated and proved as proof functions.
- `app/`: the program around the library (files, processes, terminal drawing).
- `tests/`: tests on concrete values.
