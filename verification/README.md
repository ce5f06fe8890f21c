# eidos_service

The decisions of the Eidos file-search service as a verified library, and the
service around it.

Eidos scans file trees read-only, follows their change feeds, extracts text in
the background and answers searches over HTTP. What it decides on the way is in
`src/`: which scan may start, what a change feed does next, which reader a
device takes, what an export writes, which release may be staged. Every function
there carries a contract over mathematical models of its data, proved by Verus.
What holds across functions is stated as proof functions named `law_...`.

| Part | What is in it |
|---|---|
| `src/text.rs`, `key_list.rs`, `source_map.rs`, `encoding.rs` | strings, sorted keys, tables by source, digests and encodings |
| `src/device_budget.rs`, `source_budget.rs`, `device_control.rs`, `device_topology.rs` | who may read which device, and how many at once |
| `src/resource_control.rs`, `resource_profiles.rs`, `memory.rs`, `background_probe.rs` | operator limits, their coordinated change, and OS samples |
| `src/scanner.rs`, `state.rs`, `watcher.rs`, `usn_checkpoint.rs` | scans, start-up, change-feed watches, reconciliation |
| `src/changes.rs`, `usn_apply.rs`, `usn_translate.rs`, `fsevents_apply.rs`, `fsevents_translate.rs` | from feed records to catalog changes |
| `src/content_workers.rs`, `content_control.rs`, `work_signal.rs`, `follower.rs` | content extraction and index publication |
| `src/admission.rs`, `api.rs`, `api_json.rs`, `content_preview.rs`, `export.rs`, `web.rs` | the HTTP API's rules |
| `src/updates.rs`, `staging.rs`, `update_check.rs` | release discovery and verified staging |
| `src/fleet_api.rs`, `collector_api.rs`, `retry_api.rs`, `interactions_api.rs` | smaller endpoints |
| `app/` | threads, sockets, files, and the ports that an executable fills in |

Time is passed in as integers, reservations are given back explicitly, and a
loop that waits for the outside world is a function from what came back to what
to do next; `app/` runs the loop.

The outside code that `src/` calls is the SHA-256 of `ring` and the Base64 of
`base64`, in `src/encoding.rs`, and std's `String::push`; their contracts are believed,
not proved.
