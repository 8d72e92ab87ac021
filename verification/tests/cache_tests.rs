use forge::cache::{cache_restored, is_success, without_trailing_slashes, BuildCache, LoadedFile, SourceFile};
use forge::error::ForgeError;
use forge::config::RemoteCacheConfig;
use forge::digest::{hash_bytes, to_hex};
use forge::hashes::FileHashes;
use sha2::{Digest, Sha256};

fn file(path: &str, content: &str) -> SourceFile {
    let extension = match path.rfind('.') {
        Some(i) => path[i + 1..].to_string(),
        None => String::new(),
    };
    SourceFile { path: path.to_string(), extension, content: content.as_bytes().to_vec() }
}

fn remote(url: &str, token: Option<&str>, push: bool) -> RemoteCacheConfig {
    RemoteCacheConfig { remote: url.to_string(), token: token.map(|t| t.to_string()), push }
}

#[test]
fn test_cache_empty() {
    let cache = BuildCache::default();
    assert!(cache.file_hashes.is_empty());
    assert_eq!(cache.version, 0);
}

#[test]
fn test_compute_hashes() {
    let files = vec![file("test.java", "public class Test {}"), file("other.txt", "ignorar")];

    let hashes = BuildCache::compute_hashes(&files, &["java"]);

    assert_eq!(hashes.len(), 1);
    assert!(hashes.contains_key("test.java"));
}

#[test]
fn test_detect_changes() {
    let mut files = vec![file("Main.java", "class Main {}")];

    let mut cache = BuildCache { version: 1, ..Default::default() };

    assert!(cache.has_changes(&files, &["java"]));

    cache.update_hashes(&files, &["java"], 1_700_000_000);

    assert!(!cache.has_changes(&files, &["java"]));

    files[0] = file("Main.java", "class Main { int x; }");

    assert!(cache.has_changes(&files, &["java"]));
}

#[test]
fn fresh_cache_has_version_one() {
    let cache = BuildCache::fresh();
    assert_eq!(cache.version, 1);
    assert!(cache.file_hashes.is_empty());
    assert_eq!(cache.last_build_timestamp, None);
}

#[test]
fn content_hash_is_sha256_in_hex() {
    assert_eq!(
        hash_bytes(b"hello world"),
        "b94d27b9934d3e08a52e52d7da7dabfac484efe37a5380ee9088f7ace2efcde9"
    );
    assert_eq!(hash_bytes(b""), "e3b0c44298fc1c149afbf4c8996fb92427ae41e4649b934ca495991b7852b855");
}

#[test]
fn hex_has_two_lower_case_digits_per_byte() {
    assert_eq!(to_hex(&vec![0x00, 0x0a, 0x14, 0x1e, 0xff, 0x9c]), "000a141eff9c");
    assert_eq!(to_hex(&vec![]), "");
}

#[test]
fn stored_hash_is_the_hash_of_the_content() {
    let hashes = BuildCache::compute_hashes(&[file("a.py", "print(1)")], &["py"]);
    assert_eq!(hashes.get("a.py"), Some(&format!("{:x}", Sha256::digest(b"print(1)"))));
    assert_eq!(hashes.get("b.py"), None);
}

#[test]
fn empty_extension_list_watches_all_files() {
    let files = vec![file("a.java", "a"), file("Makefile", "b"), file("c.txt", "c")];
    let hashes = BuildCache::compute_hashes(&files, &[]);
    assert_eq!(hashes.len(), 3);
    assert!(hashes.contains_key("Makefile"));
}

#[test]
fn later_file_of_same_path_counts() {
    let files = vec![file("a.java", "one"), file("a.java", "two")];
    let hashes = BuildCache::compute_hashes(&files, &["java"]);
    assert_eq!(hashes.len(), 1);
    assert_eq!(hashes.get("a.java"), Some(&hash_bytes(b"two")));
}

#[test]
fn update_stamps_time_and_keeps_version() {
    let mut cache = BuildCache::fresh();
    cache.update_hashes(&[file("a.kt", "x")], &["kt", "kts"], 42);
    assert_eq!(cache.last_build_timestamp, Some(42));
    assert_eq!(cache.version, 1);
    assert_eq!(cache.file_hashes.len(), 1);
}

#[test]
fn deleted_file_is_a_change() {
    let mut cache = BuildCache::fresh();
    let both = vec![file("A.java", "a"), file("B.java", "b")];
    cache.update_hashes(&both, &["java"], 1);
    assert!(!cache.has_changes(&both, &["java"]));
    assert!(cache.has_changes(&both[..1], &["java"]));
}

#[test]
fn added_file_is_a_change_and_is_listed() {
    let mut cache = BuildCache::fresh();
    cache.update_hashes(&[file("Main.java", "class Main {}")], &["java"], 1);
    let now = vec![file("Main.java", "class Main {}"), file("Util.java", "class Util {}")];
    assert!(cache.has_changes(&now, &["java"]));
    assert_eq!(cache.changed_files(&now, &["java"]), vec!["Util.java".to_string()]);
}

#[test]
fn added_file_of_other_extension_is_no_change() {
    let mut cache = BuildCache::fresh();
    cache.update_hashes(&[file("Main.java", "class Main {}")], &["java"], 1);
    let now = vec![file("Main.java", "class Main {}"), file("notes.txt", "hello")];
    assert!(!cache.has_changes(&now, &["java"]));
    assert!(cache.changed_files(&now, &["java"]).is_empty());
}

#[test]
fn changed_files_come_by_rising_path() {
    let mut cache = BuildCache::fresh();
    cache.update_hashes(&[file("m.py", "same")], &["py"], 1);
    let now = vec![file("z.py", "new"), file("m.py", "same"), file("a.py", "new"), file("b/c.py", "new")];
    assert_eq!(
        cache.changed_files(&now, &["py"]),
        vec!["a.py".to_string(), "b/c.py".to_string(), "z.py".to_string()]
    );
}

#[test]
fn changed_files_lists_modified_but_not_deleted() {
    let mut cache = BuildCache::fresh();
    cache.update_hashes(&[file("a.py", "1"), file("b.py", "2")], &["py"], 1);
    let now = vec![file("a.py", "changed")];
    assert_eq!(cache.changed_files(&now, &["py"]), vec!["a.py".to_string()]);
    assert!(cache.has_changes(&now, &["py"]));
}

fn expected_master(pairs: &[(&str, &str)]) -> String {
    let mut sorted: Vec<(&str, &str)> = pairs.to_vec();
    sorted.sort();
    let mut hasher = Sha256::new();
    for (path, hash) in sorted {
        hasher.update(path.as_bytes());
        hasher.update(hash.as_bytes());
    }
    format!("{:x}", hasher.finalize())
}

fn cache_of(pairs: &[(&str, &str)]) -> BuildCache {
    let mut hashes = FileHashes::new();
    for (path, hash) in pairs {
        hashes.insert(path.to_string(), hash.to_string());
    }
    BuildCache { version: 1, file_hashes: hashes, last_build_timestamp: None }
}

#[test]
fn master_hash_of_empty_cache() {
    let cache = BuildCache::fresh();
    assert_eq!(
        cache.compute_master_hash().unwrap(),
        "e3b0c44298fc1c149afbf4c8996fb92427ae41e4649b934ca495991b7852b855"
    );
}

#[test]
fn master_hash_folds_paths_and_hashes_by_rising_path() {
    let pairs = [("src/b.java", "h2"), ("src/a.java", "h1"), ("Zeta.java", "h3"), ("añb.java", "h4")];
    assert_eq!(cache_of(&pairs).compute_master_hash().unwrap(), expected_master(&pairs));
}

#[test]
fn master_hash_does_not_depend_on_insertion_order() {
    let one = cache_of(&[("a", "1"), ("b", "2"), ("c", "3")]);
    let two = cache_of(&[("c", "3"), ("a", "1"), ("b", "2")]);
    assert_eq!(one.compute_master_hash().unwrap(), two.compute_master_hash().unwrap());
    let again = cache_of(&[("a", "0"), ("b", "2"), ("a", "1"), ("c", "3")]);
    assert_eq!(one.compute_master_hash().unwrap(), again.compute_master_hash().unwrap());
}

#[test]
fn master_hash_changes_with_an_entry() {
    let one = cache_of(&[("a", "1"), ("b", "2")]);
    let two = cache_of(&[("a", "1"), ("b", "3")]);
    assert_ne!(one.compute_master_hash().unwrap(), two.compute_master_hash().unwrap());
}

#[test]
fn file_hashes_insert_get_and_replace() {
    let mut hashes = FileHashes::new();
    assert!(hashes.is_empty());
    hashes.insert("b".to_string(), "2".to_string());
    hashes.insert("a".to_string(), "1".to_string());
    hashes.insert("c".to_string(), "3".to_string());
    hashes.insert("b".to_string(), "22".to_string());
    assert_eq!(hashes.len(), 3);
    assert_eq!(hashes.get("b"), Some(&"22".to_string()));
    assert_eq!(hashes.get("d"), None);
    assert!(hashes.contains_key("a"));
    assert!(!hashes.contains_key(""));
    assert_eq!(hashes.path_at(0), "a");
    assert_eq!(hashes.path_at(1), "b");
    assert_eq!(hashes.path_at(2), "c");
    assert_eq!(hashes.hash_at(1), "22");
    let copy = hashes.clone();
    assert_eq!(copy.len(), 3);
    assert_eq!(copy.get("c"), Some(&"3".to_string()));
}

#[test]
fn paths_are_ordered_by_their_bytes() {
    let mut hashes = FileHashes::new();
    for p in ["b", "B", "ab", "a", "é", "a/b", "a.b", ""] {
        hashes.insert(p.to_string(), "h".to_string());
    }
    let mut expected = vec!["b", "B", "ab", "a", "é", "a/b", "a.b", ""];
    expected.sort();
    let got: Vec<String> = (0..hashes.len()).map(|i| hashes.path_at(i).clone()).collect();
    assert_eq!(got, expected);
}

#[test]
fn remote_request_addresses_the_archive_by_master_hash() {
    let cache = cache_of(&[("Main.java", "abc")]);
    let master = cache.compute_master_hash().unwrap();
    let req = cache.download_from_remote(&remote("http://forge-cache.local/", Some("SECRET-REDACTED"), false));
    assert_eq!(req.master_hash, master);
    assert_eq!(req.archive_name, format!("{}.tar.gz", master));
    assert_eq!(req.url, format!("http://forge-cache.local/cache/{}.tar.gz", master));
    assert_eq!(req.token, Some("SECRET-REDACTED".to_string()));
}

#[test]
fn upload_only_when_push_is_set_and_output_exists() {
    let cache = cache_of(&[("Main.java", "abc")]);
    assert!(cache.upload_to_remote(true, &remote("http://c", None, false)).is_none());
    assert!(cache.upload_to_remote(false, &remote("http://c", None, true)).is_none());
    let req = cache.upload_to_remote(true, &remote("http://c", None, true)).unwrap();
    assert_eq!(req.url, format!("http://c/cache/{}.tar.gz", cache.compute_master_hash().unwrap()));
    assert_eq!(req.token, None);
}

#[test]
fn upload_and_download_meet_at_one_address() {
    let cache = cache_of(&[("Main.java", "abc123")]);
    let cfg = remote("https://store.example//", None, true);
    let up = cache.upload_to_remote(true, &cfg).unwrap();
    let down = cache.download_from_remote(&cfg);
    assert_eq!(up.url, down.url);
    assert_eq!(up.archive_name, down.archive_name);
}

#[test]
fn trailing_slashes_are_trimmed() {
    assert_eq!(without_trailing_slashes("http://x/"), "http://x");
    assert_eq!(without_trailing_slashes("http://x///"), "http://x");
    assert_eq!(without_trailing_slashes("http://x/y"), "http://x/y");
    assert_eq!(without_trailing_slashes("///"), "");
    assert_eq!(without_trailing_slashes(""), "");
}

#[test]
fn only_2xx_answers_are_hits() {
    assert!(is_success(Some(200)));
    assert!(is_success(Some(204)));
    assert!(is_success(Some(299)));
    assert!(!is_success(Some(199)));
    assert!(!is_success(Some(300)));
    assert!(!is_success(Some(404)));
    assert!(!is_success(Some(500)));
    assert!(!is_success(None));
    assert!(cache_restored(Some(200), true));
    assert!(!cache_restored(Some(200), false));
    assert!(!cache_restored(Some(404), true));
    assert!(!cache_restored(None, true));
}

#[test]
fn load_tells_absent_from_corrupted() {
    let fresh = BuildCache::load("/p/.forge/cache.json", LoadedFile::Absent).unwrap();
    assert_eq!(fresh.version, 1);
    assert!(fresh.file_hashes.is_empty());
    assert_eq!(fresh.last_build_timestamp, None);
    match BuildCache::load("/p/.forge/cache.json", LoadedFile::Corrupted) {
        Err(ForgeError::CacheCorrupted { path }) => assert_eq!(path, "/p/.forge/cache.json"),
        other => panic!("unexpected: {:?}", other),
    }
    match BuildCache::load("/p/.forge/cache.json", LoadedFile::Unreadable("denied".to_string())) {
        Err(ForgeError::IoError { path, message }) => {
            assert_eq!(path, "/p/.forge/cache.json");
            assert_eq!(message, "denied");
        },
        other => panic!("unexpected: {:?}", other),
    }
    let stored = cache_of(&[("a", "1")]);
    let loaded = BuildCache::load("/p/.forge/cache.json", LoadedFile::Parsed(stored)).unwrap();
    assert_eq!(loaded.file_hashes.get("a"), Some(&"1".to_string()));
}
