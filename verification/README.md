# codex_logic

Verified decision logic of a command-line coding agent, written in Verus.

- `legacy_notify`: the `agent-turn-complete` notification handed to a user's
  notify command, message truncation on UTF-8 boundaries, and the bounded
  payload that stays under the argv size limit.
- `app_mcp_routing`, `mcp_server_map`: which declared apps and MCP servers a
  session keeps.
- `git_processor`: how `git diff` output becomes a reply or an error.
- `env_detect`, `percent`: recognising GitHub / Azure DevOps remotes and
  their percent-encoded `by-repo` paths.
- `code_mode_host`, `proxy_bypass`, `stdio_relay`, `history`, `turn_items`,
  `app_cmd`, `shell_execute`: smaller helpers.
- `text`, `json`: UTF-8 lengths, lexicographic order, sorting, splitting and
  JSON framing on top of `serde_json`'s string encoding.

`app/` holds the I/O around the library (spawning processes, the Unix socket
relay, clap parsing); `tests/` exercises the library on concrete values.
