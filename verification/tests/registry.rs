use sha2::{Digest, Sha256};
use std::collections::BTreeMap;
use zarf_injector::index::OCI_MIME_TYPE;
use zarf_injector::pull::{handler, head_handler};
use zarf_injector::reply::{version_reply, Body, Reply};
use zarf_injector::session::Session;
use zarf_injector::storage::{Action, Event, Location};
use zarf_injector::upload::{patch_handler, post_handler, put_handler};

const TEST_IMAGE: &str = "ghcr.io/zarf-dev/doom-game:0.0.1";
const DOCKER_MEDIA_TYPE: &str = "application/vnd.docker.distribution.manifest.v2+json";
const JSON_ERROR: &str = "{ this is no JSON";

/// The files of a registry, and what goes wrong with them.
struct Registry {
    files: BTreeMap<String, Vec<u8>>,
    dirs: Vec<String>,
    nanos: u128,
    pid: u32,
    broken: Vec<&'static str>,
}

/// A reply, with what its body comes to.
struct Answer {
    status: u16,
    headers: Vec<(String, String)>,
    body: Vec<u8>,
}

impl Answer {
    fn header(&self, name: &str) -> &str {
        let mut found = self.headers.iter().filter(|(key, _)| key == name);
        let value = found.next().expect("the header is there");
        assert!(found.next().is_none(), "the header is there once");
        &value.1
    }

    fn names(&self) -> Vec<&str> {
        self.headers.iter().map(|(name, _)| name.as_str()).collect()
    }

    fn text(&self) -> String {
        String::from_utf8(self.body.clone()).expect("the body is text")
    }
}

fn digest_of(bytes: &[u8]) -> String {
    let mut hasher = Sha256::new();
    hasher.update(bytes);
    format!("sha256:{}", hex::encode(hasher.finalize()))
}

fn hash_of(bytes: &[u8]) -> String {
    digest_of(bytes)["sha256:".len()..].to_string()
}

fn place(at: &Location<String>) -> String {
    at.path().join("/")
}

impl Registry {
    fn new() -> Registry {
        Registry {
            files: BTreeMap::new(),
            dirs: Vec::new(),
            nanos: 1700000000123456789,
            pid: 42,
            broken: Vec::new(),
        }
    }

    fn with_index(index: &str) -> Registry {
        let mut registry = Registry::new();
        registry.files.insert("index.json".to_string(), index.as_bytes().to_vec());
        registry
    }

    fn fails(&self, what: &str) -> bool {
        self.broken.iter().any(|broken| what.starts_with(broken))
    }

    fn read(&self, at: &Location<String>) -> Option<Vec<u8>> {
        if self.fails(&format!("read {}", place(at))) {
            return None;
        }
        self.files.get(&place(at)).cloned()
    }

    fn done(&mut self, action: &Action<String, &[u8]>, body: &[u8], opened: &mut Option<Vec<u8>>) -> Event<String, Vec<u8>> {
        match action {
            Action::ReadBody => Event::Body(if self.fails("body") { None } else { Some(body.to_vec()) }),
            Action::TakeStamp => Event::Stamp { nanos: self.nanos, pid: self.pid },
            Action::ReadText(at) => Event::Text(self.read(at).and_then(|bytes| String::from_utf8(bytes).ok())),
            Action::ReadBytes(at) => Event::Bytes(self.read(at)),
            Action::Look(at) => Event::Seen(self.files.contains_key(&place(at))),
            Action::Measure(at) => Event::Size(if self.fails(&format!("measure {}", place(at))) {
                None
            } else {
                self.files.get(&place(at)).map(|bytes| bytes.len() as u64)
            }),
            Action::Open(at) => {
                if self.fails(&format!("open {}", place(at))) {
                    return Event::Opened(Err("Permission denied (os error 13)".to_string()));
                }
                *opened = self.files.get(&place(at)).cloned();
                Event::Opened(match opened {
                    Some(_) => Ok(()),
                    None => Err("No such file or directory (os error 2)".to_string()),
                })
            }
            Action::MeasureOpened => Event::Size(if self.fails("measure opened") {
                None
            } else {
                opened.as_ref().map(|bytes| bytes.len() as u64)
            }),
            Action::MakeDir(at) => {
                if self.fails(&format!("make {}", place(at))) {
                    return Event::Done(false);
                }
                self.dirs.push(place(at));
                Event::Done(true)
            }
            Action::Write(at, bytes) => {
                if self.fails(&format!("write {}", place(at))) {
                    return Event::Done(false);
                }
                self.files.insert(place(at), bytes.to_vec());
                Event::Done(true)
            }
            Action::Delete(at) => {
                if self.fails(&format!("delete {}", place(at))) {
                    return Event::Done(false);
                }
                Event::Done(self.files.remove(&place(at)).is_some())
            }
        }
    }

    /// Serves a request to its end. Nothing where it is dropped without a reply.
    fn serve(&mut self, begun: Option<Session>, body: &[u8]) -> Option<Answer> {
        let mut session = begun?;
        let mut opened: Option<Vec<u8>> = None;
        for _ in 0..8 {
            let event = match session.action() {
                Some(action) => self.done(&action, body, &mut opened),
                None => break,
            };
            session = session.step(event)?;
        }
        match session {
            Session::Done(Reply { status, headers, body }) => Some(Answer {
                status,
                headers,
                body: match body {
                    Body::Empty => Vec::new(),
                    Body::Text(text) => text.into_bytes(),
                    Body::OpenedFile => opened.expect("a file was opened"),
                },
            }),
            _ => panic!("a request ends within seven outcomes"),
        }
    }

    fn get(&mut self, path: &str) -> Answer {
        self.serve(handler(path), b"").expect("the request is answered")
    }

    fn head(&mut self, path: &str) -> Answer {
        self.serve(head_handler(path), b"").expect("the request is answered")
    }

    fn put(&mut self, path: &str, query: &str, body: &[u8]) -> Answer {
        self.serve(Some(put_handler(path, query)), body).expect("the request is answered")
    }

    fn post(&mut self, path: &str) -> Answer {
        self.serve(Some(post_handler(path)), b"").expect("the request is answered")
    }

    fn patch(&mut self, path: &str, range: Option<&str>, chunk: &[u8]) -> Answer {
        self.serve(Some(patch_handler(path, range.map(|text| text.to_string()))), chunk)
            .expect("the request is answered")
    }

    fn index(&self) -> String {
        String::from_utf8(self.files["index.json"].clone()).expect("the index is text")
    }
}

/// The part of a place behind the start that all of them have.
fn behind_v2(location: &str) -> &str {
    location.strip_prefix("/v2/").expect("places begin alike")
}

// The name of an image, without the registry in front of it.
fn extract_name(name: &str) -> String {
    let mut domain: String;
    let mut remainder: String;

    match name.split_once('/') {
        None => {
            domain = "docker.io".into();
            remainder = name.into();
        }
        Some((left, right)) => {
            if !(left.contains('.') || left.contains(':')) && left != "localhost" {
                domain = "docker.io".into();
                remainder = name.into();
            } else {
                domain = left.into();
                remainder = right.into();
            }
        }
    }
    if domain == "index.docker.io" {
        domain = "docker.io".into();
    }
    if domain == "docker.io" && !remainder.contains('/') {
        remainder = format!("{}/{}", "library", remainder);
    }

    remainder
}

/// A registry with one image in it, as it comes out of an image tarball.
fn seeded(image: &str, media_type: &str) -> (Registry, String, Vec<u8>, Vec<u8>) {
    let config = br#"{"architecture":"amd64","os":"linux"}"#.to_vec();
    let layer: Vec<u8> = (0u32..4096).map(|i| (i % 251) as u8).collect();
    let manifest = format!(
        r#"{{"schemaVersion":2,"mediaType":"{}","config":{{"digest":"{}","size":{}}},"layers":[{{"digest":"{}","size":{}}}]}}"#,
        media_type,
        digest_of(&config),
        config.len(),
        digest_of(&layer),
        layer.len()
    );
    let index = format!(
        r#"{{"schemaVersion":2,"manifests":[{{"mediaType":"{}","digest":"{}","size":{},"annotations":{{"org.opencontainers.image.base.name":"{}"}}}}]}}"#,
        media_type,
        digest_of(manifest.as_bytes()),
        manifest.len(),
        extract_name(image)
    );
    let mut registry = Registry::with_index(&index);
    for name in ["oci-layout", "repositories"] {
        registry.files.insert(name.to_string(), b"{}".to_vec());
    }
    for blob in [manifest.as_bytes(), &config, &layer] {
        registry.files.insert(format!("blobs/sha256/{}", hash_of(blob)), blob.to_vec());
    }
    (registry, manifest, config, layer)
}

fn pull(image: &str, media_type: &str) {
    let (mut registry, manifest, config, layer) = seeded(image, media_type);
    for name in ["index.json", "oci-layout", "repositories"] {
        assert!(registry.files.contains_key(name));
    }
    let before = registry.files.clone();
    let name = extract_name(image);
    let (repository, tag) = name.split_once(':').expect("the image has a tag");
    let digest = digest_of(manifest.as_bytes());

    let head = registry.head(&format!("{repository}/manifests/{tag}"));
    assert_eq!(head.status, 200);
    assert_eq!(head.header("Content-Type"), media_type);
    assert_eq!(head.header("Docker-Content-Digest"), digest);
    assert_eq!(head.header("Content-Length"), manifest.len().to_string());
    assert!(head.body.is_empty());

    for reference in [tag, digest.as_str()] {
        let got = registry.get(&format!("{repository}/manifests/{reference}"));
        assert_eq!(got.status, 200);
        assert_eq!(got.header("Content-Type"), media_type);
        assert_eq!(got.header("Content-Length"), manifest.len().to_string());
        assert_eq!(got.header("Docker-Content-Digest"), digest);
        assert_eq!(got.header("Etag"), digest);
        assert_eq!(got.header("Docker-Distribution-Api-Version"), "registry/2.0");
        assert_eq!(got.body, manifest.as_bytes());
    }

    for blob in [&config, &layer] {
        let got = registry.get(&format!("{repository}/blobs/{}", digest_of(blob)));
        assert_eq!(got.status, 200);
        assert_eq!(got.header("Content-Type"), "application/octet-stream");
        assert_eq!(got.header("Docker-Content-Digest"), digest_of(blob));
        assert_eq!(got.header("Etag"), digest_of(blob));
        assert_eq!(got.header("Docker-Distribution-Api-Version"), "registry/2.0");
        assert_eq!(got.header("Cache-Control"), "max-age=31536000");
        assert_eq!(&got.body, blob);
    }
    assert_eq!(registry.files, before);
    assert!(registry.dirs.is_empty());
}

#[test]
fn test_pull_mt() {
    let media_types = [OCI_MIME_TYPE, DOCKER_MEDIA_TYPE];
    for media_type in media_types {
        pull(TEST_IMAGE, media_type);
    }
}

fn push_with_tag() {
    let (mut registry, manifest, config, layer) = seeded(TEST_IMAGE, OCI_MIME_TYPE);
    let repository = "zarf-dev/doom-game";

    // The blobs are there already, and need not be sent.
    for blob in [&config, &layer] {
        assert_eq!(registry.head(&format!("{repository}/blobs/{}", digest_of(blob))).status, 200);
    }
    // One that is not there is.
    let extra = b"one more layer".to_vec();
    assert_eq!(registry.head(&format!("{repository}/blobs/{}", digest_of(&extra))).status, 404);
    let opened = registry.post(&format!("{repository}/blobs/uploads/"));
    assert_eq!(opened.status, 202);
    let location = opened.header("Location").to_string();
    let grown = registry.patch(behind_v2(&location), None, &extra);
    assert_eq!(grown.status, 202);
    let closed = registry.put(
        behind_v2(grown.header("Location")),
        &format!("digest={}", digest_of(&extra).replace(':', "%3A")),
        b"",
    );
    assert_eq!(closed.status, 201);

    let pushed = registry.put(&format!("{repository}/manifests/pushed-test"), "", manifest.as_bytes());
    assert_eq!(pushed.status, 201);
    assert_eq!(pushed.header("Docker-Content-Digest"), digest_of(manifest.as_bytes()));

    for tag in ["pushed-test", "0.0.1"] {
        let got = registry.get(&format!("{repository}/manifests/{tag}"));
        assert_eq!(got.status, 200);
        assert_eq!(got.header("Content-Type"), OCI_MIME_TYPE);
        assert_eq!(got.body, manifest.as_bytes());
    }
    for blob in [&config, &layer, &extra] {
        assert_eq!(&registry.get(&format!("{repository}/blobs/{}", digest_of(blob))).body, blob);
    }
}

fn push_with_sha() {
    let (mut registry, manifest, _, _) = seeded(TEST_IMAGE, OCI_MIME_TYPE);
    let index: serde_json::Value = serde_json::from_str(&registry.index()).expect("should parse index.json");
    let digest = index["manifests"][0]["digest"].as_str().expect("should have digest").to_string();
    let got = registry.get(&format!("zarf-dev/doom-game/manifests/{digest}"));
    assert_eq!(got.status, 200);
    assert_eq!(got.body, manifest.as_bytes());
}

#[test]
fn test_push() {
    push_with_tag();
    push_with_sha();
}

#[test]
fn test_multi_chunk_upload() {
    let (mut registry, _, _, _) = seeded(TEST_IMAGE, OCI_MIME_TYPE);

    // Create test data (1MB)
    let chunk1 = vec![1u8; 512 * 1024];
    let chunk2 = vec![2u8; 512 * 1024];
    let all_data = [chunk1.clone(), chunk2.clone()].concat();

    // Calculate digest
    let mut hasher = Sha256::new();
    hasher.update(&all_data);
    let digest = format!("sha256:{}", hex::encode(hasher.finalize()));

    // POST to start upload
    let resp = registry.post("test/blobs/uploads/");
    assert_eq!(resp.status, 202);
    let location = resp.header("Location").to_string();

    // PATCH chunk 1
    let resp = registry.patch(behind_v2(&location), Some("0-524287"), &chunk1);
    assert_eq!(resp.status, 202);
    assert_eq!(resp.header("Range"), "0-524287");
    let location = resp.header("Location").to_string();

    // PATCH chunk 2
    let resp = registry.patch(behind_v2(&location), Some("524288-1048575"), &chunk2);
    assert_eq!(resp.status, 202);
    assert_eq!(resp.header("Range"), "0-1048575");
    let location = resp.header("Location").to_string();

    // PUT to close
    let resp = registry.put(behind_v2(&location), &format!("digest={}", digest), b"");
    assert_eq!(resp.status, 201);

    // What was sent is what is got back, and nothing is left of the upload.
    assert_eq!(registry.get(&format!("test/blobs/{digest}")).body, all_data);
    assert_eq!(registry.files.keys().filter(|name| name.starts_with(".uploads")).count(), 0);
}

#[test]
fn version_is_told() {
    let reply = version_reply();
    assert_eq!(reply.status, 200);
    assert!(matches!(reply.body, Body::Empty));
    let headers: Vec<(&str, &str)> = reply.headers.iter().map(|(name, value)| (name.as_str(), value.as_str())).collect();
    assert_eq!(
        headers,
        vec![
            ("Content-Type", "application/json; charset=utf-8"),
            ("Docker-Distribution-Api-Version", "registry/2.0"),
            ("X-Content-Type-Options", "nosniff"),
        ]
    );
}

#[test]
fn unknown_paths_are_not_found() {
    let mut registry = Registry::new();
    for answer in [
        registry.get("nothing"),
        registry.put("a/b", "", b""),
        registry.post("a/blobs/uploads/id"),
        registry.patch("a/b", None, b""),
    ] {
        assert_eq!(answer.status, 404);
        assert_eq!(answer.text(), "Not Found");
        assert!(answer.headers.is_empty());
    }
    let answer = registry.head("a/b");
    assert_eq!(answer.status, 404);
    assert!(answer.body.is_empty() && answer.headers.is_empty());
    assert!(registry.files.is_empty() && registry.dirs.is_empty());
}

#[test]
fn requests_for_no_digest_are_dropped() {
    assert!(handler("a/blobs/latest").is_none());
    assert!(handler("a/b").is_none());
    assert!(head_handler("a/blobs/latest").is_none());
    assert!(handler("a/blobs/sha256:ab").is_some());
    assert!(head_handler("a/blobs/sha256:ab").is_some());
}

#[test]
fn pulls_with_a_bad_index_are_dropped() {
    let entry = |base: &str, digest: &str| {
        format!(r#"{{"annotations":{{"org.opencontainers.image.base.name":"{base}"}},"digest":"{digest}"}}"#)
    };
    let bad = [
        JSON_ERROR.to_string(),
        "{}".to_string(),
        r#"{"manifests":{}}"#.to_string(),
        r#"{"manifests":[{"digest":"sha256:aa"}]}"#.to_string(),
        r#"{"manifests":[{"annotations":{"org.opencontainers.image.base.name":"a:b"}}]}"#.to_string(),
        format!(r#"{{"manifests":[{}]}}"#, entry("a:b", "md5:aa")),
    ];
    for index in bad {
        let mut registry = Registry::with_index(&index);
        assert!(registry.serve(handler("a/manifests/b"), b"").is_none(), "{index}");
    }
    assert!(Registry::new().serve(handler("a/manifests/b"), b"").is_none());
    // Another image's entry may have any digest.
    let mut registry = Registry::with_index(&format!(r#"{{"manifests":[{}]}}"#, entry("x:y", "md5:aa")));
    let answer = registry.get("a/manifests/b");
    assert_eq!((answer.status, answer.text().as_str()), (404, "Not Found"));
    // A digest needs no entries, but an index that can be read.
    assert!(Registry::with_index(JSON_ERROR).serve(handler("a/manifests/sha256:aa"), b"").is_none());
    assert_eq!(Registry::with_index("{}").get("a/manifests/sha256:aa").status, 404);
    assert_eq!(Registry::with_index("{}").get("a/manifests/sha256:").status, 404);
}

#[test]
fn last_entry_is_pulled_and_first_is_probed() {
    let one = br#"{"mediaType":"one"}"#;
    let two = br#"{"mediaType":"two"}"#;
    let index = format!(
        r#"{{"manifests":[
            {{"annotations":{{"org.opencontainers.image.base.name":"a:b"}},"digest":"{}","mediaType":"listed"}},
            {{"annotations":{{"org.opencontainers.image.base.name":"a:b"}},"digest":"{}"}}]}}"#,
        digest_of(one),
        digest_of(two)
    );
    let mut registry = Registry::with_index(&index);
    for blob in [&one[..], &two[..]] {
        registry.files.insert(format!("blobs/sha256/{}", hash_of(blob)), blob.to_vec());
    }
    let got = registry.get("a/manifests/b");
    assert_eq!((got.header("Content-Type"), got.body.as_slice()), ("two", &two[..]));
    let head = registry.head("a/manifests/b");
    assert_eq!(head.header("Docker-Content-Digest"), digest_of(one));
    assert_eq!(head.header("Content-Type"), "listed");
    // By digest, the media type is the one in the index, or the usual one.
    let head = registry.head(&format!("any/manifests/{}", digest_of(one)));
    assert_eq!(head.header("Content-Type"), "listed");
    let head = registry.head(&format!("any/manifests/{}", digest_of(two)));
    assert_eq!(head.header("Content-Type"), OCI_MIME_TYPE);
}

#[test]
fn manifests_that_cannot_be_sent() {
    let manifest = br#"{"mediaType":"some"}"#;
    let hash = hash_of(manifest);
    let path = format!("a/manifests/sha256:{hash}");
    let fresh = || {
        let mut registry = Registry::with_index("{}");
        registry.files.insert(format!("blobs/sha256/{hash}"), manifest.to_vec());
        registry
    };
    let mut registry = fresh();
    assert_eq!(registry.get(&path).header("Content-Type"), "some");

    let mut registry = fresh();
    registry.broken = vec!["read blobs"];
    let answer = registry.get(&path);
    assert_eq!((answer.status, answer.text().as_str()), (404, "Not Found"));

    let mut registry = fresh();
    registry.files.insert(format!("blobs/sha256/{hash}"), vec![0xff, 0xfe]);
    assert_eq!(registry.get(&path).status, 404);

    let mut registry = fresh();
    registry.files.insert(format!("blobs/sha256/{hash}"), JSON_ERROR.as_bytes().to_vec());
    let answer = registry.get(&path);
    assert_eq!((answer.status, answer.text().as_str()), (500, "Invalid manifest format"));

    let mut registry = fresh();
    registry.broken = vec!["open blobs"];
    let answer = registry.get(&path);
    assert_eq!((answer.status, answer.text().as_str()), (404, "File not found: Permission denied (os error 13)"));

    let mut registry = fresh();
    registry.broken = vec!["measure opened"];
    let answer = registry.get(&path);
    assert_eq!((answer.status, answer.text().as_str()), (500, "Failed to get file metadata"));

    let mut registry = fresh();
    registry.files.insert(format!("blobs/sha256/{hash}"), b"[]".to_vec());
    assert_eq!(registry.get(&path).header("Content-Type"), OCI_MIME_TYPE);
}

#[test]
fn blobs_that_are_not_there() {
    let mut registry = Registry::new();
    let answer = registry.get("a/blobs/sha256:aa");
    assert_eq!((answer.status, answer.text().as_str()), (404, "File not found: No such file or directory (os error 2)"));
    let answer = registry.head("a/blobs/sha256:aa");
    assert_eq!(answer.status, 404);
    assert!(answer.body.is_empty() && answer.headers.is_empty());
    registry.files.insert("blobs/sha256/aa".to_string(), b"twelve bytes".to_vec());
    let answer = registry.head("a/blobs/sha256:aa");
    assert_eq!(answer.status, 200);
    assert_eq!(answer.header("Content-Type"), "application/octet-stream");
    assert_eq!(answer.header("Content-Length"), "12");
    assert_eq!(answer.header("Docker-Content-Digest"), "sha256:aa");
    assert_eq!(
        answer.names(),
        vec!["Content-Type", "Content-Length", "Docker-Content-Digest", "Docker-Distribution-Api-Version"]
    );
}

#[test]
fn probes_with_a_bad_index_are_answered() {
    assert_eq!(Registry::new().head("a/manifests/b").status, 404);
    assert_eq!(Registry::with_index(JSON_ERROR).head("a/manifests/b").status, 500);
    assert_eq!(Registry::with_index("{}").head("a/manifests/b").status, 404);
    // An entry without a digest, or with one of another kind.
    let index = r#"{"manifests":[{"annotations":{"org.opencontainers.image.base.name":"a:b"}}]}"#;
    assert_eq!(Registry::with_index(index).head("a/manifests/b").status, 404);
    let index = r#"{"manifests":[{"annotations":{"org.opencontainers.image.base.name":"a:b"},"digest":"plain"}]}"#;
    let mut registry = Registry::with_index(index);
    registry.files.insert("blobs/sha256/plain".to_string(), b"x".to_vec());
    assert_eq!(registry.head("a/manifests/b").header("Docker-Content-Digest"), "sha256:plain");
    registry.broken = vec!["measure blobs"];
    assert_eq!(registry.head("a/manifests/b").status, 404);
}

#[test]
fn pushed_manifest_is_what_is_pulled() {
    let manifest = r#"{"mediaType":"some/type","note":"päck"}"#.as_bytes();
    let digest = digest_of(manifest);
    let mut registry = Registry::new();
    let answer = registry.put("lib/app/manifests/1.0", "", manifest);
    assert_eq!(answer.status, 201);
    assert_eq!(answer.header("Docker-Content-Digest"), digest);
    assert_eq!(answer.header("Location"), format!("/v2/lib/app/manifests/{digest}"));
    assert_eq!(answer.header("Docker-Distribution-Api-Version"), "registry/2.0");
    assert!(answer.body.is_empty());
    assert_eq!(registry.dirs, vec!["blobs/sha256"]);
    assert_eq!(
        registry.index(),
        format!(
            r#"{{
  "manifests": [
    {{
      "annotations": {{
        "org.opencontainers.image.base.name": "lib/app:1.0"
      }},
      "digest": "{digest}",
      "mediaType": "some/type",
      "size": {}
    }}
  ],
  "schemaVersion": 2
}}"#,
            manifest.len()
        )
    );
    for path in ["lib/app/manifests/1.0".to_string(), behind_v2(answer.header("Location")).to_string()] {
        let got = registry.get(&path);
        assert_eq!(got.status, 200);
        assert_eq!(got.header("Content-Type"), "some/type");
        assert_eq!(got.header("Content-Length"), manifest.len().to_string());
        assert_eq!(got.body, manifest);
        let head = registry.head(&path);
        assert_eq!(head.header("Content-Type"), "some/type");
        assert_eq!(head.header("Docker-Content-Digest"), digest);
    }
}

#[test]
fn push_replaces_the_entry_of_its_image_only() {
    let mut registry = Registry::with_index(
        r#"{"schemaVersion":2,"extra":[1.5,-3,null,true],"manifests":[
            {"annotations":{"org.opencontainers.image.base.name":"a:b"},"digest":"sha256:old"},
            {"annotations":{"org.opencontainers.image.base.name":"c:d"},"digest":"sha256:kept"},
            {"annotations":{"org.opencontainers.image.base.name":"a:b"},"digest":"sha256:older"},
            {"digest":"sha256:nameless"}]}"#,
    );
    assert_eq!(registry.put("a/manifests/b", "", b"no JSON at all").status, 201);
    let index: serde_json::Value = serde_json::from_str(&registry.index()).expect("the index is JSON");
    let digests: Vec<&str> = index["manifests"]
        .as_array()
        .expect("there is a list")
        .iter()
        .map(|entry| entry["digest"].as_str().expect("there is a digest"))
        .collect();
    assert_eq!(digests, vec!["sha256:kept", "sha256:nameless", digest_of(b"no JSON at all").as_str()]);
    assert_eq!(index["manifests"][2]["mediaType"], OCI_MIME_TYPE);
    assert_eq!(index["manifests"][2]["size"], 14);
    assert_eq!(index["extra"][0], 1.5);
    assert_eq!(index["extra"][1], -3);
    assert!(index["extra"][2].is_null());
    assert_eq!(index["extra"][3], true);
}

#[test]
fn push_into_unusual_indexes() {
    // No JSON: the index starts anew.
    let mut registry = Registry::with_index(JSON_ERROR);
    assert_eq!(registry.put("a/manifests/b", "", b"{}").status, 201);
    assert_eq!(registry.get("a/manifests/b").status, 200);
    // No list: no entry.
    for (index, left) in [
        ("null", "{\n  \"manifests\": null\n}"),
        ("{}", "{\n  \"manifests\": null\n}"),
        (r#"{"manifests":"text"}"#, "{\n  \"manifests\": \"text\"\n}"),
    ] {
        let mut registry = Registry::with_index(index);
        assert_eq!(registry.put("a/manifests/b", "", b"{}").status, 201);
        assert_eq!(registry.index(), left);
    }
    // Neither an object nor null: the request is dropped, with the manifest in its file.
    for index in ["[]", "5", "\"text\"", "true"] {
        let mut registry = Registry::with_index(index);
        assert!(registry.serve(Some(put_handler("a/manifests/b", "")), b"{}").is_none());
        assert_eq!(registry.index(), index);
        assert_eq!(registry.files[&format!("blobs/sha256/{}", hash_of(b"{}"))], b"{}");
    }
}

#[test]
fn pushes_that_fail() {
    for (broken, status, text) in [
        ("body", 400, "Failed to read body"),
        ("make blobs/sha256", 500, "Failed to create directory"),
        ("write blobs/sha256", 500, "Failed to write manifest"),
        ("write index.json", 500, "Failed to update index"),
    ] {
        let mut registry = Registry::new();
        registry.broken = vec![broken];
        let answer = registry.put("a/manifests/b", "", b"{}");
        assert_eq!((answer.status, answer.text().as_str()), (status, text));
        assert!(answer.headers.is_empty());
    }
    // An index that cannot be read counts as none.
    let mut registry = Registry::with_index(r#"{"old":1,"manifests":[]}"#);
    registry.broken = vec!["read index.json"];
    assert_eq!(registry.put("a/manifests/b", "", b"{}").status, 201);
    assert!(!registry.index().contains("old"));
}

#[test]
fn uploads_are_opened() {
    let mut registry = Registry::new();
    for path in ["test/blobs/uploads/", "test/blobs/uploads"] {
        let answer = registry.post(path);
        assert_eq!(answer.status, 202);
        assert_eq!(answer.header("Location"), "/v2/test/blobs/uploads/1700000000123456789-42");
        assert_eq!(answer.names(), vec!["Location", "Docker-Distribution-Api-Version"]);
        assert!(answer.body.is_empty());
    }
    registry.nanos = 0;
    registry.pid = u32::MAX;
    assert_eq!(registry.post("a/b/blobs/uploads/").header("Location"), "/v2/a/b/blobs/uploads/0-4294967295");
    registry.nanos = u128::MAX;
    assert_eq!(
        registry.post("a/blobs/uploads").header("Location"),
        "/v2/a/blobs/uploads/340282366920938463463374607431768211455-4294967295"
    );
    assert_eq!(registry.post("a/blobs/uploads//").status, 404);
    assert!(registry.files.is_empty());
}

#[test]
fn blob_is_taken_at_once() {
    for query in ["", "other=1", "digest"] {
        let mut registry = Registry::new();
        let answer = registry.put("a/blobs/uploads/id", query, b"content");
        let digest = digest_of(b"content");
        assert_eq!(answer.status, 201);
        assert_eq!(answer.header("Docker-Content-Digest"), digest);
        assert_eq!(answer.header("Location"), format!("/v2/blobs/{digest}"));
        assert_eq!(answer.header("Docker-Distribution-Api-Version"), "registry/2.0");
        let got = registry.get(behind_v2(answer.header("Location")));
        assert_eq!(got.body, b"content");
        assert_eq!(registry.files.len(), 1);
    }
}

#[test]
fn closing_holds_the_digest_against_the_content() {
    let digest = digest_of(b"content");
    for query in [
        format!("digest={digest}"),
        format!("digest={}", digest.replace(':', "%3A")),
        format!("digest={}", digest.replace(':', "%3a")),
        format!("a=b&digest={digest}&digest=other"),
    ] {
        let mut registry = Registry::new();
        assert_eq!(registry.put("a/blobs/uploads/id", &query, b"content").status, 201, "{query}");
    }
    for (query, named) in [
        ("digest=sha256:aa".to_string(), "sha256:aa".to_string()),
        (format!("digest=md5:1&digest={digest}"), "md5:1".to_string()),
        (format!("digest={}", digest.to_uppercase()), digest.to_uppercase()),
    ] {
        let mut registry = Registry::new();
        let answer = registry.put("a/blobs/uploads/id", &query, b"content");
        assert_eq!(answer.status, 400);
        assert_eq!(answer.text(), format!("Digest mismatch: expected {named} got {digest}"));
        assert!(registry.files.is_empty());
    }
    for query in ["digest=", "mydigest=sha256:aa", "digest=&a=b"] {
        let mut registry = Registry::new();
        let answer = registry.put("a/blobs/uploads/id", query, b"content");
        assert_eq!((answer.status, answer.text().as_str()), (400, "Missing digest"));
    }
}

#[test]
fn chunks_count_for_more_than_the_last_body() {
    let mut registry = Registry::new();
    registry.patch("a/blobs/uploads/id", None, b"chunked");
    let answer = registry.put("a/blobs/uploads/id", "", b"whole");
    assert_eq!(answer.header("Docker-Content-Digest"), digest_of(b"chunked"));
    assert!(!registry.files.contains_key(".uploads/id"));
    // Unless they cannot be read.
    registry.patch("a/blobs/uploads/id", None, b"chunked");
    registry.broken = vec!["read .uploads"];
    let answer = registry.put("a/blobs/uploads/id", "", b"whole");
    assert_eq!(answer.header("Docker-Content-Digest"), digest_of(b"whole"));
    // A refused upload keeps its chunks.
    let mut registry = Registry::new();
    registry.patch("a/blobs/uploads/id", None, b"chunked");
    assert_eq!(registry.put("a/blobs/uploads/id", "digest=sha256:aa", b"").status, 400);
    assert_eq!(registry.files[".uploads/id"], b"chunked");
}

#[test]
fn closings_that_fail() {
    for (broken, status, text) in [
        ("body", 400, "Failed to read body"),
        ("make blobs/sha256", 500, "Failed to create directory"),
        ("write blobs/sha256", 500, "Failed to write blob"),
    ] {
        let mut registry = Registry::new();
        registry.broken = vec![broken];
        let answer = registry.put("a/blobs/uploads/id", "", b"content");
        assert_eq!((answer.status, answer.text().as_str()), (status, text));
    }
    // Chunks that cannot be cleared away do no harm.
    let mut registry = Registry::new();
    registry.patch("a/blobs/uploads/id", None, b"content");
    registry.broken = vec!["delete .uploads"];
    assert_eq!(registry.put("a/blobs/uploads/id", "", b"").status, 201);
    assert!(registry.files.contains_key(".uploads/id"));
}

#[test]
fn chunks_are_put_one_behind_the_other() {
    let mut registry = Registry::new();
    let answer = registry.patch("a/b/blobs/uploads/id", Some("0-4"), b"first");
    assert_eq!(answer.status, 202);
    assert_eq!(answer.header("Location"), "/v2/a/b/blobs/uploads/id");
    assert_eq!(answer.header("Range"), "0-4");
    assert_eq!(answer.names(), vec!["Location", "Range", "Docker-Distribution-Api-Version"]);
    assert_eq!(registry.dirs, vec![".uploads"]);
    assert_eq!(registry.patch("a/b/blobs/uploads/id", None, b", second").header("Range"), "0-12");
    assert_eq!(registry.patch("a/b/blobs/uploads/id", Some("013-13"), b"!").header("Range"), "0-13");
    assert_eq!(registry.files[".uploads/id"], b"first, second!");
    // Something that is no range counts as none.
    for range in ["bytes 0-1/2", "0-", "-1", "1", "0-1-2", " 0-1", "0-1\n", "\u{0661}-\u{0662}"] {
        let mut registry = Registry::new();
        assert_eq!(registry.patch("a/blobs/uploads/id", Some(range), b"any").status, 202, "{range}");
    }
    // No bytes are there: the range of none is that of the first.
    let mut registry = Registry::new();
    assert_eq!(registry.patch("a/blobs/uploads/id", None, b"").header("Range"), "0-0");
    assert_eq!(registry.files[".uploads/id"], b"");
}

#[test]
fn chunks_out_of_order_are_refused() {
    let mut registry = Registry::new();
    let answer = registry.patch("a/blobs/uploads/id", Some("5-9"), b"later");
    assert_eq!((answer.status, answer.text().as_str()), (416, "Chunk out of order"));
    assert_eq!(answer.header("Range"), "0-0");
    assert_eq!(answer.names(), vec!["Range"]);
    assert!(registry.files.is_empty());
    registry.patch("a/blobs/uploads/id", None, b"first");
    for range in ["0-4", "4-8", "6-10", "6-2"] {
        let answer = registry.patch("a/blobs/uploads/id", Some(range), b"later");
        assert_eq!((answer.status, answer.header("Range")), (416, "0-4"));
    }
    assert_eq!(registry.files[".uploads/id"], b"first");
}

#[test]
fn chunks_of_another_length_than_their_range_are_refused() {
    for range in ["0-3", "0-5", "0-0", "0-99999999999999999999999999"] {
        let mut registry = Registry::new();
        let answer = registry.patch("a/blobs/uploads/id", Some(range), b"chunk");
        assert_eq!((answer.status, answer.text().as_str()), (400, "Content-Length does not match Content-Range"));
        assert!(registry.files.is_empty());
    }
    // A first byte beyond every size counts as none.
    let mut registry = Registry::new();
    assert_eq!(registry.patch("a/blobs/uploads/id", Some("99999999999999999999999999-4"), b"chunk").status, 202);
}

#[test]
fn ranges_that_end_before_they_begin_are_refused() {
    let mut registry = Registry::new();
    registry.patch("test/blobs/uploads/u1", None, b"abcde");
    for (range, chunk) in [("5-3", &b""[..]), ("5-0", b""), ("5-3", b"x"), ("5-4", b"x")] {
        let answer = registry.patch("test/blobs/uploads/u1", Some(range), chunk);
        assert_eq!((answer.status, answer.text().as_str()), (400, "Content-Length does not match Content-Range"));
        assert_eq!(registry.files[".uploads/u1"], b"abcde");
    }
    // An empty chunk has a range that ends right before it begins.
    let answer = registry.patch("test/blobs/uploads/u1", Some("5-4"), b"");
    assert_eq!((answer.status, answer.header("Range")), (202, "0-4"));
    // No chunk is as long as the longest range.
    let whole = format!("0-{}", usize::MAX);
    let answer = Registry::new().patch("a/blobs/uploads/id", Some(&whole), b"");
    assert_eq!((answer.status, answer.text().as_str()), (400, "Content-Length does not match Content-Range"));
}

#[test]
fn sizes_beyond_a_machine_word_are_told() {
    // The file is said to be as large as can be, and a byte is put behind it.
    let session = patch_handler("a/blobs/uploads/id", None);
    let session = session.step(Event::Body(Some(b"x".to_vec()))).expect("the request goes on");
    let session = session.step(Event::Done(true)).expect("the request goes on");
    let session = session.step(Event::Seen(true)).expect("the request goes on");
    let session = session.step(Event::Size(Some(usize::MAX as u64))).expect("the request goes on");
    let session = session.step(Event::Bytes(Some(Vec::new()))).expect("the request goes on");
    let session = session.step(Event::Done(true)).expect("the request goes on");
    match session {
        Session::Done(reply) => {
            assert_eq!(reply.status, 202);
            assert_eq!(reply.headers[1], ("Range".to_string(), format!("0-{}", usize::MAX)));
        }
        _ => panic!("the request has its reply"),
    }
}

#[test]
fn repeated_push_leaves_everything_as_it_was() {
    for index in [None, Some(r#"{"manifests":[],"n":[1,-2,"x",null]}"#), Some("null"), Some("{}")] {
        let mut registry = match index {
            Some(index) => Registry::with_index(index),
            None => Registry::new(),
        };
        let first = registry.put("a/manifests/b", "", b"{}");
        let once = registry.files.clone();
        let second = registry.put("a/manifests/b", "", b"{}");
        assert_eq!(registry.files, once);
        assert_eq!((first.status, &first.headers, &first.body), (201, &second.headers, &second.body));
        assert_eq!(second.status, 201);
    }
}

#[test]
fn second_push_takes_the_place_of_the_first() {
    let mut registry = Registry::new();
    registry.put("a/manifests/b", "", br#"{"mediaType":"one"}"#);
    registry.put("a/manifests/b", "", br#"{"mediaType":"two"}"#);
    let index: serde_json::Value = serde_json::from_str(&registry.index()).expect("the index is JSON");
    let entries = index["manifests"].as_array().expect("there is a list");
    assert_eq!(entries.len(), 1);
    assert_eq!(entries[0]["digest"], digest_of(br#"{"mediaType":"two"}"#));
    assert_eq!(registry.get("a/manifests/b").header("Content-Type"), "two");
    let earlier = digest_of(br#"{"mediaType":"one"}"#);
    assert_eq!(registry.get(&format!("a/manifests/{earlier}")).header("Content-Type"), "one");
    assert_eq!(registry.get(&format!("a/blobs/{earlier}")).body, br#"{"mediaType":"one"}"#);
}

#[test]
fn images_are_pulled_from_an_index_with_other_numbers() {
    let mut registry = Registry::with_index(r#"{"manifests":[],"x":[0.1,1e300,-0.0,1.7976931348623157e308]}"#);
    assert_eq!(registry.put("a/manifests/b", "", b"{}").status, 201);
    assert_eq!(registry.get("a/manifests/b").body, b"{}");
    assert_eq!(registry.head("a/manifests/b").header("Docker-Content-Digest"), digest_of(b"{}"));
    let index: serde_json::Value = serde_json::from_str(&registry.index()).expect("the index is JSON");
    assert!(index["x"].as_array().expect("there is a list").iter().all(|number| number.is_f64()));
}

#[test]
fn chunks_that_fail() {
    for (broken, status, text) in [
        ("body", 400, "Failed to read body"),
        ("make .uploads", 500, "Failed to create temp directory"),
        ("write .uploads", 500, "Failed to write temp file"),
        ("read .uploads", 500, "Failed to read existing temp file"),
    ] {
        let mut registry = Registry::new();
        registry.patch("a/blobs/uploads/id", None, b"first");
        registry.broken = vec![broken];
        let answer = registry.patch("a/blobs/uploads/id", None, b"second");
        assert_eq!((answer.status, answer.text().as_str()), (status, text));
        assert_eq!(registry.files[".uploads/id"], b"first");
    }
    // A size that cannot be taken counts as none.
    let mut registry = Registry::new();
    registry.patch("a/blobs/uploads/id", None, b"first");
    registry.broken = vec!["measure .uploads"];
    assert_eq!(registry.patch("a/blobs/uploads/id", None, b"second").header("Range"), "0-5");
    assert_eq!(registry.files[".uploads/id"], b"second");
}

#[test]
fn manifests_come_before_blobs() {
    // A path can name both: the manifest counts.
    let mut registry = Registry::new();
    assert_eq!(registry.put("a/blobs/uploads/x/manifests/b", "", b"{}").status, 201);
    assert!(registry.index().contains("a/blobs/uploads/x:b"));
    let got = registry.get("a/blobs/uploads/x/manifests/b");
    assert_eq!(got.body, b"{}");
}
