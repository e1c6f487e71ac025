# zarf-injector

A small OCI registry for the images of a seed directory (`/zarf-seed`, or what
`ZARF_INJECTOR_SEED_ROOT` names), written in Rust and verified with Verus.

```sh
zarf-injector [<SHA256> | <address>]
```

Given the SHA-256 of a payload, it puts the parts in `./zarf-payload-*` together in the order of
their names, checks the hash of the result, writes it to `payload.tar.gz`, and unpacks it into the
seed directory. Then, or at
once, it listens on port 5000, or at the address it was given, and serves:

| request                               | answer                                             |
|---------------------------------------|----------------------------------------------------|
| `GET`, `HEAD` `<name>/manifests/<ref>` | the manifest of an image, by tag or by digest      |
| `GET`, `HEAD` `<name>/blobs/<digest>`  | a blob                                             |
| `PUT` `<name>/manifests/<ref>`         | takes a manifest, and enters it in the index       |
| `POST` `<name>/blobs/uploads/`         | opens an upload                                    |
| `PATCH` `<name>/blobs/uploads/<id>`    | takes a chunk, held against its `Content-Range`    |
| `PUT` `<name>/blobs/uploads/<id>`      | closes an upload, or takes a blob, by its digest   |

all under `/v2/`.

## Layout

- `src/` is the library. A request is a session (`session.rs`): it asks for an action, is told
  the outcome, and goes on from there until it has its reply. `pull.rs`, `push.rs` and `upload.rs`
  hold the steps of the three kinds of requests; `routes.rs`, `index.rs`, `json.rs`, `digest.rs`
  and `text.rs` what they decide by; `reply.rs` and `storage.rs` what they reply and ask for;
  `payload.rs` the start of the program.
- `kept.rs` says what is read back of an index that was written; `world.rs` and `laws.rs` say what whole requests come to: that what was pushed is what is pulled,
  that a push made twice changes nothing more, that chunks add up to the blob.
- `app/` is the program: it performs the actions and sends the replies.
- `tests/` runs requests against files in memory.

`json.rs`, `digest.rs` and `routes.rs` call `serde_json`, `sha2`, `hex` and `regex-lite`; what is
believed of these calls stands above each of them.
