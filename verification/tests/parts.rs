use zarf_injector::digest::content_hash;
use zarf_injector::index::{
    enter, fresh_index, image, make_entry, media_type_of, probe, pull_hash, pull_is_possible, takes_entries,
};
use zarf_injector::json::Json;
use zarf_injector::payload::{assemble, is_part, startup, Part, Startup};
use zarf_injector::push::push_entry;
use zarf_injector::routes::{blob_path, byte_range, last_segment, manifest_path, opens_upload, upload_path};
use zarf_injector::storage::{seed_dir, Location};
use zarf_injector::text::{
    contains, joined, parse_decimal, replace, same_text, strip_prefix, to_decimal, trim_slashes,
};
use zarf_injector::upload::digest_in_query;

const EMPTY_SHA256: &str = "e3b0c44298fc1c149afbf4c8996fb92427ae41e4649b934ca495991b7852b855";
const ABC_SHA256: &str = "ba7816bf8f01cfea414140de5dae2223b00361a396177a9cb410ff61f20015ad";

fn pair(first: &str, second: &str) -> Option<(String, String)> {
    Some((first.to_string(), second.to_string()))
}

fn one(text: &str) -> Option<String> {
    Some(text.to_string())
}

#[test]
fn hashes_are_known() {
    assert_eq!(content_hash(b""), EMPTY_SHA256);
    assert_eq!(content_hash(b"abc"), ABC_SHA256);
    let hash = content_hash(&[0u8, 255, 16, 15]);
    assert_eq!(hash.len(), 64);
    assert!(hash.chars().all(|c| c.is_ascii_digit() || ('a'..='f').contains(&c)));
}

#[test]
fn manifest_paths() {
    assert_eq!(manifest_path("lib/app/manifests/1.0"), pair("lib/app", "1.0"));
    assert_eq!(manifest_path("a/manifests/b/c"), pair("a", "b/c"));
    // The last mark that something follows counts.
    assert_eq!(manifest_path("a/manifests/b/manifests/c"), pair("a/manifests/b", "c"));
    assert_eq!(manifest_path("a/manifests/b/manifests/"), pair("a", "b/manifests/"));
    assert_eq!(manifest_path("x/manifests/manifests/y"), pair("x/manifests", "y"));
    // Something has to stand before it and behind it.
    assert_eq!(manifest_path("/manifests/b"), None);
    assert_eq!(manifest_path("a/manifests/"), None);
    assert_eq!(manifest_path("a/manifest/b"), None);
    assert_eq!(manifest_path(""), None);
    // Neither side goes beyond its line.
    assert_eq!(manifest_path("x\na/manifests/b\ny"), pair("a", "b"));
    assert_eq!(manifest_path("\n/manifests/b"), None);
    assert_eq!(manifest_path("a/manifests/\nb"), None);
    assert_eq!(manifest_path("a/manifests/b\nc/manifests/d"), pair("a", "b"));
    assert_eq!(manifest_path("\u{e9}\u{1F980}/manifests/\u{fc}"), pair("\u{e9}\u{1F980}", "\u{fc}"));
}

#[test]
fn upload_paths() {
    assert_eq!(upload_path("a/b/blobs/uploads/id"), pair("a/b", "id"));
    assert_eq!(upload_path("a/blobs/uploads/b/blobs/uploads/c"), pair("a/blobs/uploads/b", "c"));
    assert_eq!(upload_path("a/blobs/uploads/"), None);
    assert_eq!(upload_path("blobs/uploads/id"), None);
    assert!(opens_upload("a/blobs/uploads"));
    assert!(opens_upload("a/blobs/uploads/"));
    assert!(opens_upload("x\na/blobs/uploads/"));
    assert!(opens_upload("a/blobs/uploads/blobs/uploads/"));
    assert!(!opens_upload("/blobs/uploads/"));
    assert!(!opens_upload("\n/blobs/uploads/"));
    assert!(!opens_upload("a/blobs/uploads/id"));
    assert!(!opens_upload("a/blobs/uploads/\n"));
    assert!(!opens_upload("a/blobs/uploadsx"));
}

#[test]
fn blob_paths() {
    assert_eq!(blob_path("a/blobs/sha256:aa"), one("sha256:aa"));
    assert_eq!(blob_path("a/blobs/b/blobs/c"), one("c"));
    assert_eq!(blob_path("a/blobs/b/c"), one("b/c"));
    assert_eq!(blob_path("/blobs/c"), None);
    assert_eq!(blob_path("a/blobs/"), None);
    assert_eq!(last_segment("a/b"), one("b"));
    assert_eq!(last_segment("a/b/c"), one("c"));
    assert_eq!(last_segment("a/b/"), one("b"));
    assert_eq!(last_segment("a/b//"), one("b"));
    assert_eq!(last_segment("/b"), None);
    assert_eq!(last_segment("//b"), one("b"));
    assert_eq!(last_segment("a"), None);
    assert_eq!(last_segment("a/"), None);
    assert_eq!(last_segment("a/b\nc/d"), one("b\nc"));
    assert_eq!(last_segment("\n/b"), None);
}

#[test]
fn byte_ranges() {
    assert_eq!(byte_range("0-524287"), Some((0, 524287)));
    assert_eq!(byte_range("524288-1048575"), Some((524288, 1048575)));
    assert_eq!(byte_range("007-8"), Some((7, 8)));
    assert_eq!(byte_range("9-1"), Some((9, 1)));
    assert_eq!(byte_range(&format!("0-{}", usize::MAX)), Some((0, usize::MAX)));
    assert_eq!(byte_range(&format!("{}0-1", usize::MAX)), Some((0, 1)));
    for text in ["", "-", "1-", "-1", "1", "1-2-3", "1-2 ", "bytes 1-2", "1-2\n", "a-b", "\u{0661}-\u{0662}"] {
        assert_eq!(byte_range(text), None, "{text:?}");
    }
}

#[test]
fn texts() {
    assert_eq!(joined("ab", "cd"), "abcd");
    assert!(same_text("caf\u{e9}", "caf\u{e9}"));
    assert!(!same_text("a", "A") && !same_text("a", "aa") && !same_text("", "a"));
    assert_eq!(strip_prefix("sha256:aa", "sha256:"), one("aa"));
    assert_eq!(strip_prefix("sha256:", "sha256:"), one(""));
    assert_eq!(strip_prefix("sha256", "sha256:"), None);
    assert_eq!(trim_slashes("a/b//"), "a/b");
    assert_eq!(trim_slashes("///"), "");
    assert_eq!(trim_slashes("/a"), "/a");
    assert_eq!(replace("a%3Ab%3ac%3A", "%3A", ':'), "a:b%3ac:");
    assert_eq!(replace("%%3A%3", "%3A", ':'), "%:%3");
    assert_eq!(replace("aaa", "aa", 'b'), "ba");
    assert!(contains("mydigest=1", "digest=") && !contains("digest", "digest=") && contains("a", ""));
}

#[test]
fn numbers() {
    for (number, text) in [(0u128, "0"), (7, "7"), (10, "10"), (1048575, "1048575")] {
        assert_eq!(to_decimal(number), text);
        assert_eq!(parse_decimal(text), Some(number as usize));
    }
    assert_eq!(to_decimal(u128::MAX), u128::MAX.to_string());
    assert_eq!(parse_decimal(&usize::MAX.to_string()), Some(usize::MAX));
    assert_eq!(parse_decimal(&(usize::MAX as u128 + 1).to_string()), None);
    assert_eq!(parse_decimal(&format!("{}0", usize::MAX)), None);
    assert_eq!(parse_decimal("0042"), Some(42));
    assert_eq!(parse_decimal(""), Some(0));
}

#[test]
fn digests_in_queries() {
    assert_eq!(digest_in_query(""), None);
    assert_eq!(digest_in_query("digest"), None);
    assert_eq!(digest_in_query("a=b"), None);
    assert_eq!(digest_in_query("digest=sha256:aa"), one("sha256:aa"));
    assert_eq!(digest_in_query("digest=sha256%3Aaa"), one("sha256:aa"));
    assert_eq!(digest_in_query("digest=sha256%3aaa"), one("sha256:aa"));
    assert_eq!(digest_in_query("a=b&digest=x&c=d"), one("x"));
    assert_eq!(digest_in_query("digest=x&digest=y"), one("x"));
    assert_eq!(digest_in_query("mydigest=x"), one(""));
    assert_eq!(digest_in_query("mydigest=x&digest=y"), one("y"));
    assert_eq!(digest_in_query("digest="), one(""));
    assert_eq!(digest_in_query("digest=&a=b"), one(""));
    // What the first pass leaves, the second reads.
    assert_eq!(digest_in_query("digest=%%3A3a"), one("%:3a"));
    assert_eq!(digest_in_query("digest=%2F"), one("%2F"));
}

#[test]
fn documents_are_read_and_written() {
    let text = "{\n  \"a\": [\n    1,\n    -2,\n    true,\n    null,\n    \"x\\ny\"\n  ],\n  \"b\": {}\n}";
    let json = Json::parse(br#" {"b":{}, "a":[1,-2,true,null,"x\ny"]} "#).expect("this is JSON");
    assert_eq!(json.render(), text);
    let again = Json::parse(text.as_bytes()).expect("this is JSON").render();
    assert_eq!(again, text);
    // Of two members under one key the later counts.
    let json = Json::parse(br#"{"k":"one","k":"two"}"#).expect("this is JSON");
    assert_eq!(json.member_text("k"), Some("two"));
    assert!(json.get("none").is_none() && json.member_text("none").is_none());
    assert!(Json::parse(b"[1]").expect("this is JSON").get("k").is_none());
    for bytes in [&b""[..], b"{", b"{} x", b"[1,]", b"'a'", b"\"\xff\"", b"nul"] {
        assert!(Json::parse(bytes).is_none());
    }
    // Numbers of every kind are carried.
    for number in ["0", "-1", "18446744073709551615", "-9223372036854775808", "1.5", "1e300"] {
        let json = Json::parse(number.as_bytes()).expect("this is JSON");
        let read: serde_json::Value = serde_json::from_str(number).expect("this is JSON");
        assert_eq!(json.render(), read.to_string());
    }
    assert!(matches!(Json::parse(b"7"), Some(Json::Unsigned(7))));
    assert!(matches!(Json::parse(b"-7"), Some(Json::Signed(-7))));
    assert!(matches!(Json::parse(b"7.5"), Some(Json::Float(_))));
    assert_eq!(Json::Float(serde_json::Number::from(5)).render(), "5");
    // A number with a point or an exponent is read back as one.
    let largest = (0u64..2000).map(|i| f64::from_bits(f64::MAX.to_bits() - i));
    let smallest = (1u64..2000).map(f64::from_bits);
    let usual = [1.0, -1.0, 0.0, -0.0, 1e15, 1e16, 123456789012345680.0, 0.1, 1e-5, 1e-6, f64::MIN_POSITIVE];
    for number in largest.chain(smallest).chain(usual) {
        for signed in [number, -number] {
            let text = Json::Float(serde_json::Number::from_f64(signed).expect("it is finite")).render();
            assert!(matches!(Json::parse(text.as_bytes()), Some(Json::Float(_))), "{text}");
        }
    }
    // Of two pairs with one key the later is written.
    let pairs = |values: [u64; 3]| {
        Json::Object(vec![
            ("k".to_string(), Json::Unsigned(values[0])),
            ("other".to_string(), Json::Unsigned(values[1])),
            ("k".to_string(), Json::Unsigned(values[2])),
        ])
    };
    assert_eq!(pairs([1, 2, 3]).render(), "{\n  \"k\": 3,\n  \"other\": 2\n}");
    // The parser goes so deep and no deeper.
    let nested = |depth: usize| format!("{}{}", "[".repeat(depth), "]".repeat(depth));
    assert!(Json::parse(nested(127).as_bytes()).is_some());
    assert!(Json::parse(nested(128).as_bytes()).is_none());
}

#[test]
fn images_are_looked_up() {
    assert_eq!(image("lib/app", "1.0"), "lib/app:1.0");
    let index = push_entry(fresh_index(), "lib/app", "1.0", br#"{"mediaType":"m"}"#, "aa");
    assert!(pull_is_possible(&index, "lib/app", "1.0"));
    assert_eq!(pull_hash(&index, "lib/app", "1.0"), "aa");
    assert_eq!(probe(&index, "lib/app", "1.0"), ("aa".to_string(), "m".to_string()));
    assert_eq!(pull_hash(&index, "lib/app", "2.0"), "");
    assert_eq!(pull_hash(&index, "any", "sha256:bb"), "bb");
    // A name with the colon elsewhere is the same name.
    assert_eq!(pull_hash(&index, "lib", "app:1.0"), "");
    assert_eq!(pull_hash(&push_entry(fresh_index(), "a:b", "c", b"{}", "aa"), "a", "b:c"), "aa");
    // One image does not touch another.
    let index = push_entry(index, "lib/app", "2.0", b"{}", "bb");
    let index = push_entry(index, "lib/app", "2.0", b"{}", "cc");
    assert_eq!(pull_hash(&index, "lib/app", "1.0"), "aa");
    assert_eq!(pull_hash(&index, "lib/app", "2.0"), "cc");
    assert!(takes_entries(&fresh_index()) && takes_entries(&Json::Null));
    assert!(!takes_entries(&Json::Bool(true)) && !takes_entries(&Json::Array(Vec::new())));
}

#[test]
fn entries_are_written() {
    let entry = make_entry("m", "sha256:aa", 12, "a:b");
    assert_eq!(media_type_of(&entry), "m");
    assert_eq!(media_type_of(&Json::Null), "application/vnd.oci.image.manifest.v1+json");
    assert_eq!(
        enter(fresh_index(), "a:b", entry).render(),
        "{\n  \"manifests\": [\n    {\n      \"annotations\": {\n        \"org.opencontainers.image.base.name\": \"a:b\"\n      },\n      \"digest\": \"sha256:aa\",\n      \"mediaType\": \"m\",\n      \"size\": 12\n    }\n  ],\n  \"schemaVersion\": 2\n}"
    );
}

#[test]
fn places() {
    assert_eq!(Location::<String>::Index.path(), vec!["index.json"]);
    assert_eq!(Location::<String>::Blobs.path(), vec!["blobs", "sha256"]);
    assert_eq!(Location::Blob("aa".to_string()).path(), vec!["blobs", "sha256", "aa"]);
    assert_eq!(Location::<String>::Uploads.path(), vec![".uploads"]);
    assert_eq!(Location::Upload("id".to_string()).path(), vec![".uploads", "id"]);
    // A name is handed on as it is, plain or not.
    assert_eq!(upload_path("a/blobs/uploads/../index.json"), pair("a", "../index.json"));
    assert_eq!(Location::Upload("../index.json".to_string()).path(), vec![".uploads", "../index.json"]);
}

#[test]
fn seed_directories() {
    assert_eq!(seed_dir(None), "/zarf-seed");
    assert_eq!(seed_dir(one("/tmp/seed")), "/tmp/seed");
}

fn part(name: &str, content: &[u8]) -> Part {
    Part { name: name.to_string(), content: content.to_vec() }
}

#[test]
fn payload_is_assembled() {
    let orders = [["000", "001", "002"], ["002", "000", "001"], ["001", "002", "000"]];
    for order in orders {
        let parts = order
            .iter()
            .map(|number| {
                let content: &[u8] = match *number {
                    "000" => b"a",
                    "001" => b"b",
                    _ => b"c",
                };
                part(&format!("zarf-payload-{number}"), content)
            })
            .collect();
        assert_eq!(assemble(parts, ABC_SHA256), Ok(b"abc".to_vec()));
    }
    assert_eq!(assemble(Vec::new(), EMPTY_SHA256), Ok(Vec::new()));
    // Another hash is told.
    assert_eq!(assemble(vec![part("x", b"abc")], EMPTY_SHA256), Err(ABC_SHA256.to_string()));
    assert_eq!(assemble(vec![part("x", b"abc")], ""), Err(ABC_SHA256.to_string()));
    // A name comes before those that it begins.
    let parts = vec![part("p1a", b"c"), part("p1", b"b"), part("", b"a")];
    assert_eq!(assemble(parts, ABC_SHA256), Ok(b"abc".to_vec()));
    // Parts of the same name stay as they come.
    let parts = vec![part("p", b"a"), part("p", b"b"), part("p", b"c")];
    assert_eq!(assemble(parts, ABC_SHA256), Ok(b"abc".to_vec()));
    assert!(is_part("zarf-payload-000") && is_part("zarf-payload-"));
    assert!(!is_part("zarf-payload") && !is_part("a-zarf-payload-0"));
}

#[test]
fn arguments() {
    assert!(matches!(startup(None), Startup::Serve { address } if address == "0.0.0.0:5000"));
    assert!(matches!(startup(Some("127.0.0.1:80")), Startup::Serve { address } if address == "127.0.0.1:80"));
    assert!(matches!(
        startup(Some(ABC_SHA256)),
        Startup::Unpack { sha256, address } if sha256 == ABC_SHA256 && address == "0.0.0.0:5000"
    ));
    for argument in [&ABC_SHA256[1..], &ABC_SHA256.to_uppercase(), &format!("{ABC_SHA256}0"), ""] {
        assert!(matches!(startup(Some(argument)), Startup::Serve { address } if address == argument));
    }
}
