use nostr_sdk::{Keys, PublicKey, ToBech32};
use rs_p2_gateway::error::AppError;
use rs_p2_gateway::keys::{KeyPair, KeyStore, KeysFile, StoredKeys};

fn empty_store() -> KeyStore {
    KeyStore::new("keys.json".to_string(), StoredKeys::Missing).unwrap()
}

fn pair(npub: &str, nsec: &str, cwd: &str) -> KeyPair {
    KeyPair {
        npub: npub.to_string(),
        nsec: nsec.to_string(),
        cwd: cwd.to_string(),
        created_at: "2025-01-02T03:04:05+00:00".to_string(),
    }
}

fn store_of(keys: Vec<KeyPair>) -> KeyStore {
    let parsed = Some(KeysFile { version: 1, keys });
    KeyStore::new("keys.json".to_string(), StoredKeys::Found { text: String::new(), parsed }).unwrap()
}

#[test]
fn test_get_or_create_new_key() {
    let mut store = empty_store();

    let key = store.get_or_create_key("/tmp/test").unwrap().pair;
    assert!(key.npub.starts_with("npub1"), "npub should start with npub1, got: {}", key.npub);
    assert!(key.nsec.starts_with("nsec1"), "nsec should start with nsec1, got: {}", key.nsec);
    assert_eq!(store.len(), 1);
}

#[test]
fn test_get_or_create_existing_key() {
    let mut store = empty_store();

    let key1 = store.get_or_create_key("/tmp/test").unwrap().pair;
    let key2 = store.get_or_create_key("/tmp/test").unwrap().pair;

    assert_eq!(key1.npub, key2.npub);
    assert_eq!(store.len(), 1);
}

#[test]
fn test_get_nsec_by_npub() {
    let mut store = empty_store();

    let key = store.get_or_create_key("/tmp/test").unwrap().pair;
    let found_nsec = store.get_nsec_by_npub(&key.npub);
    assert_eq!(found_nsec, Some(key.nsec));
}

#[test]
fn test_get_nsec_by_npub_not_found() {
    let store = empty_store();

    let result = store.get_nsec_by_npub("npub1xxxx");
    assert!(result.is_none());
}

#[test]
fn test_all_npubs() {
    let mut store = empty_store();

    store.get_or_create_key("/tmp/a").unwrap();
    store.get_or_create_key("/tmp/b").unwrap();

    let npubs = store.all_npubs();
    assert_eq!(npubs.len(), 2);
}

#[test]
fn test_keys_file_format() {
    let mut store = empty_store();

    let raw = store.get_or_create_key("/tmp/test").unwrap().file.unwrap();

    let parsed: serde_json::Value = serde_json::from_str(&raw).unwrap();
    assert_eq!(parsed["version"], 1);
    assert_eq!(parsed["keys"].as_array().unwrap().len(), 1);
    let key = &parsed["keys"][0];
    assert!(key["npub"].as_str().unwrap().starts_with("npub1"));
    assert!(key["nsec"].as_str().unwrap().starts_with("nsec1"));
    assert_eq!(key["cwd"].as_str().unwrap(), "/tmp/test");
    assert!(key["created_at"].as_str().unwrap().contains("T"));
}

#[test]
fn a_new_key_is_a_matching_pair() {
    let mut store = empty_store();
    let key = store.get_or_create_key("/work").unwrap().pair;
    let keys = Keys::parse(&key.nsec).unwrap();
    assert_eq!(keys.public_key().to_bech32().unwrap(), key.npub);
    assert_eq!(PublicKey::parse(&key.npub).unwrap(), keys.public_key());
    assert_eq!(key.npub.len(), 63);
    assert_eq!(key.nsec.len(), 63);
    assert_eq!(key.cwd, "/work");
    assert!(key.created_at.ends_with("+00:00"));
    assert!(chrono::DateTime::parse_from_rfc3339(&key.created_at).is_ok());
}

#[test]
fn two_directories_have_two_keys() {
    let mut store = empty_store();
    let a = store.get_or_create_key("/tmp/a").unwrap().pair;
    let b = store.get_or_create_key("/tmp/b").unwrap().pair;
    assert_ne!(a.npub, b.npub);
    assert_ne!(a.nsec, b.nsec);
    let again = store.get_or_create_key("/tmp/a").unwrap().pair;
    assert_eq!(again.nsec, a.nsec);
    assert_eq!(again.created_at, a.created_at);
    assert_eq!(store.all_npubs(), vec![a.npub, b.npub]);
}

#[test]
fn only_a_new_key_gives_a_file_to_write() {
    let mut store = empty_store();
    assert!(store.get_or_create_key("/tmp/a").unwrap().file.is_some());
    assert!(store.get_or_create_key("/tmp/a").unwrap().file.is_none());
    assert!(store.get_or_create_key("/tmp/b").unwrap().file.is_some());
}

#[test]
fn an_existing_key_is_found_without_making_one() {
    let store = store_of(vec![pair("npub1a", "nsec1a", "/a"), pair("npub1b", "nsec1b", "/b")]);
    assert_eq!(store.find_key("/b").unwrap().nsec, "nsec1b");
    assert!(store.find_key("/c").is_none());
    assert_eq!(store.get_nsec_by_npub("npub1a"), Some("nsec1a".to_string()));
    assert_eq!(store.all_npubs(), vec!["npub1a".to_string(), "npub1b".to_string()]);
    let keys = store.all_keys();
    assert_eq!(keys.len(), 2);
    assert_eq!(keys[1].cwd, "/b");
    assert_eq!(keys[1].created_at, "2025-01-02T03:04:05+00:00");
}

#[test]
fn the_first_of_several_keys_counts() {
    let store = store_of(vec![
        pair("npub1x", "nsec1first", "/a"),
        pair("npub1x", "nsec1second", "/a"),
    ]);
    assert_eq!(store.find_key("/a").unwrap().nsec, "nsec1first");
    assert_eq!(store.get_nsec_by_npub("npub1x"), Some("nsec1first".to_string()));
    assert_eq!(store.len(), 2);
}

#[test]
fn a_store_is_opened_on_what_was_found() {
    let missing = KeyStore::new("p".to_string(), StoredKeys::Missing).unwrap();
    assert_eq!(missing.len(), 0);
    assert_eq!(missing.path(), "p");
    let broken = StoredKeys::Found { text: "{".to_string(), parsed: None };
    assert_eq!(KeyStore::new("p".to_string(), broken).unwrap().len(), 0);
    let unreadable =
        KeyStore::new("p".to_string(), StoredKeys::Unreadable("permission denied".to_string()));
    match unreadable {
        Err(AppError::Io(reason)) => assert_eq!(reason, "permission denied"),
        _ => panic!("expected an i/o error"),
    }
    assert_eq!(store_of(vec![pair("n", "s", "/a")]).len(), 1);
}

#[test]
fn an_added_key_stands_last_in_the_file() {
    let mut store = store_of(vec![pair("npub1a", "nsec1a", "/a")]);
    let request = store.add_key(pair("npub1b", "nsec1b", "/b \"quoted\"\n")).unwrap();
    assert_eq!(request.pair.npub, "npub1b");
    let expected = concat_lines(&[
        "{",
        "  \"version\": 1,",
        "  \"keys\": [",
        "    {",
        "      \"npub\": \"npub1a\",",
        "      \"nsec\": \"nsec1a\",",
        "      \"cwd\": \"/a\",",
        "      \"created_at\": \"2025-01-02T03:04:05+00:00\"",
        "    },",
        "    {",
        "      \"npub\": \"npub1b\",",
        "      \"nsec\": \"nsec1b\",",
        "      \"cwd\": \"/b \\\"quoted\\\"\\n\",",
        "      \"created_at\": \"2025-01-02T03:04:05+00:00\"",
        "    }",
        "  ]",
        "}",
    ]);
    assert_eq!(request.file.unwrap(), expected);
}

fn concat_lines(lines: &[&str]) -> String {
    lines.join("\n")
}

#[test]
fn a_file_without_keys_has_an_empty_list() {
    let file = KeysFile::default();
    assert_eq!(file.version, 1);
    assert_eq!(file.to_text().unwrap(), "{\n  \"version\": 1,\n  \"keys\": []\n}");
    let later = KeysFile { version: 4294967295, keys: Vec::new() };
    assert_eq!(later.to_text().unwrap(), "{\n  \"version\": 4294967295,\n  \"keys\": []\n}");
}

#[test]
fn the_file_is_laid_out_as_serde_json_does() {
    let mut store = store_of(vec![pair("npub1a", "nsec1a", "/a"), pair("n", "s", "\u{1}\t/é")]);
    let text = store.add_key(pair("x", "y", "z")).unwrap().file.unwrap();
    let parsed: serde_json::Value = serde_json::from_str(&text).unwrap();
    let keys = serde_json::to_string_pretty(&parsed["keys"]).unwrap();
    assert_eq!(keys.lines().count() + 3, text.lines().count());
    assert_eq!(parsed["keys"][1]["cwd"], "\u{1}\t/é");
}

fn reopen(text: String) -> KeyStore {
    KeyStore::new("keys.json".to_string(), StoredKeys::Found { text, parsed: None }).unwrap()
}

#[test]
fn a_reopened_store_gives_the_same_key() {
    let mut store = empty_store();
    let request = store.get_or_create_key("/tmp/a").unwrap();
    let mut reopened = reopen(request.file.unwrap());
    let again = reopened.get_or_create_key("/tmp/a").unwrap();
    assert_eq!(again.pair.nsec, request.pair.nsec);
    assert!(again.file.is_none());
    assert_eq!(reopened.len(), 1);
}

#[test]
fn a_reopened_store_has_all_keys_in_their_order() {
    let mut store = store_of(vec![pair("npub1a", "nsec1a", "/a\"\\\n\u{8}\u{c}\u{1}\u{1f}\u{7f}é😀")]);
    store.get_or_create_key("").unwrap();
    let text = store.get_or_create_key("/b").unwrap().file.unwrap();
    assert!(store.get_or_create_key("/b").unwrap().file.is_none());
    let reopened = reopen(text);
    let (old, new) = (store.all_keys(), reopened.all_keys());
    assert_eq!(old.len(), 3);
    assert_eq!(new.len(), 3);
    for (a, b) in old.iter().zip(new.iter()) {
        assert_eq!(a.npub, b.npub);
        assert_eq!(a.nsec, b.nsec);
        assert_eq!(a.cwd, b.cwd);
        assert_eq!(a.created_at, b.created_at);
    }
}

#[test]
fn a_written_file_counts_for_more_than_what_a_parser_made_of_it() {
    let text = KeysFile { version: 3, keys: vec![pair("n", "s", "/a")] }.to_text().unwrap();
    let parsed = Some(KeysFile { version: 1, keys: Vec::new() });
    let stored = StoredKeys::Found { text, parsed };
    let store = KeyStore::new("p".to_string(), stored).unwrap();
    assert_eq!(store.find_key("/a").unwrap().npub, "n");
}

#[test]
fn a_keys_file_is_read_as_it_is_written() {
    for version in [0, 1, 9, 10, 4294967295] {
        for keys in [vec![], vec![pair("a", "b", "c")], vec![pair("", "\"", ","), pair("]", "}", "\n")]] {
            let text = KeysFile { version, keys }.to_text().unwrap();
            let read = KeysFile::from_text(&text).unwrap();
            assert_eq!(read.version, version);
            assert_eq!(read.to_text().unwrap(), text);
        }
    }
}

#[test]
fn other_layouts_are_not_read_here() {
    let text = KeysFile { version: 1, keys: vec![pair("a", "b", "c")] }.to_text().unwrap();
    assert!(KeysFile::from_text(&format!("{}\n", text)).is_none());
    assert!(KeysFile::from_text(&format!(" {}", text)).is_none());
    assert!(KeysFile::from_text(&text[..text.len() - 1]).is_none());
    assert!(KeysFile::from_text(&text.replace("\"a\"", "\"\\u0061\"")).is_none());
    assert!(KeysFile::from_text(&text.replace("\"a\"", "\"\\")).is_none());
    assert!(KeysFile::from_text(&text.replace(": 1,", ": 01,")).is_none());
    assert!(KeysFile::from_text(&text.replace(": 1,", ": 4294967296,")).is_none());
    for other in ["", "{", "{}", "{\n  \"version\": ", "{\"version\":1,\"keys\":[]}", "é"] {
        assert!(KeysFile::from_text(other).is_none());
    }
}

#[test]
fn the_parser_reads_the_same_keys_from_a_written_file() {
    let text = store_of(vec![pair("a", "b", "/x\ty")]).add_key(pair("c", "d", "é")).unwrap().file.unwrap();
    let parsed: serde_json::Value = serde_json::from_str(&text).unwrap();
    let read = KeysFile::from_text(&text).unwrap();
    assert_eq!(parsed["version"], read.version);
    for (i, key) in read.keys.iter().enumerate() {
        assert_eq!(parsed["keys"][i]["npub"], key.npub.as_str());
        assert_eq!(parsed["keys"][i]["nsec"], key.nsec.as_str());
        assert_eq!(parsed["keys"][i]["cwd"], key.cwd.as_str());
        assert_eq!(parsed["keys"][i]["created_at"], key.created_at.as_str());
    }
    assert_eq!(parsed["keys"].as_array().unwrap().len(), read.keys.len());
}

#[test]
fn a_pair_of_a_known_secret_key() {
    let nsec = "nsec1vl029mgpspedva04g90vltkh6fvh240zqtv9k0t9af8935ke9laqsnlfe5";
    let keys = Keys::parse(nsec).unwrap();
    let secret = keys.secret_key().to_secret_bytes();
    let pair = KeyPair::of_secret(&secret, "/work", "then".to_string());
    assert_eq!(pair.nsec, nsec);
    assert_eq!(pair.npub, keys.public_key().to_bech32().unwrap());
    assert_eq!(pair.cwd, "/work");
    assert_eq!(pair.created_at, "then");
}

#[test]
fn the_time_of_a_new_key_is_written_field_by_field() {
    let made = empty_store().get_or_create_key("/a").unwrap().pair.created_at;
    let (date, rest) = made.split_once('T').unwrap();
    let date: Vec<&str> = date.split('-').collect();
    assert_eq!(date.iter().map(|field| field.len()).collect::<Vec<_>>(), vec![4, 2, 2]);
    let time = rest.strip_suffix("+00:00").unwrap();
    let (clock, fraction) = time.split_at(8);
    let clock: Vec<&str> = clock.split(':').collect();
    assert_eq!(clock.iter().map(|field| field.len()).collect::<Vec<_>>(), vec![2, 2, 2]);
    assert!([0, 4, 7, 10].contains(&fraction.len()));
    for field in date.iter().chain(clock.iter()) {
        assert!(field.chars().all(|c| c.is_ascii_digit()));
    }
}
