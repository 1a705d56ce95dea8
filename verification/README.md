# yojo_backend

Service-layer logic of a Misskey-compatible server, written in Verus and
verified against its contracts.

- `src/id_service/` — identifier schemes (AID, AIDX, MEIDG, ObjectId, ULID):
  generation, parsing, and the proofs that an identifier gives back the time it
  was made for (`lemma_id_roundtrip`) and that identifiers sort as their times
  do (`lemma_ids_sort_by_time`). `gen_with_now` states the exact time an
  identifier is made for (the requested time, or the clock's when none is
  requested or it lies ahead), so both laws apply to what it returns
  (`lemma_generated_id_parses`, `lemma_generated_ids_sort`); `gen` reads the
  clock and calls it. The MEID scheme (`meid`) is not implemented here: its
  source is not part of this project, so `IdService::new` requires one of the
  five schemes above and `IdService::from_method` gives `None` for `meid`.
- `src/emoji.rs` — custom emoji references, reaction normalisation, hosts in
  punycode.
- `src/drive.rs` — file-name rules (with the proof that correcting a name twice
  changes nothing more, `lemma_corrected_filename_idempotent`), public
  properties and URLs of files, the checks before a file is registered.
- `src/timeline.rs`, `src/fanout_timeline.rs`, `src/order.rs` — timeline
  options and filters, Redis list names, id windows and a verified stable
  sort.
- `src/note.rs`, `src/user.rs`, `src/notification.rs`, `src/role.rs`,
  `src/token_service.rs`, `src/event.rs` — packing rules, visibility, policies,
  permissions and event channels.
- `src/activitypub/` — ActivityPub objects, body digests and request signing.
- `app/` — serde wire types and floating-point settings around the library.
