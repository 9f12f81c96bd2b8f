# ram_manager

Roblox Account Manager: keeps Roblox accounts with their session cookies
encrypted (AES-256-GCM, key in the data directory), joins games with them
(also private servers and share links), tracks the launched clients, and
serves the accounts to local automation tools over HTTP and WebSocket.

## Layout

- `src/` — the library, written in Verus. Every function carries a contract
  that Verus proves:
  - `storage`, `models`, `crypto`: the encrypted account store;
  - `profiles`, `import`, `legacy`, `login`: adding, refreshing, importing
    and exporting accounts;
  - `launcher`, `sharelinks`, `page_scan`, `game`, `install`: launch URLs,
    resolving private-server and share links, finding the client;
  - `presets`, `settings`, `presence`, `watcher`: join history and presets,
    settings, presence requests, launched processes;
  - `nexus`, `webapi`: answers of the automation endpoints;
  - `api`: how replies of the Roblox web APIs are read;
  - `text`, `format`, `time`, `error`, `random`: shared helpers;
  - `laws`: properties that span several functions, stated and proved.
- `app/` — the program around the library: files, network, processes and
  the servers. It speaks JSON lines on standard input and output.
- `tests/` — tests of the library on concrete values.
