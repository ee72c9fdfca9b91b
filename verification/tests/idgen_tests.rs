use braid::config::Config;
use braid::idgen::{first_free, generate_issue_id};

fn config(prefix: &str, len: u32) -> Config {
    Config { id_prefix: prefix.to_string(), id_len: len, ..Default::default() }
}

#[test]
fn test_generate_issue_id_format() {
    let id = generate_issue_id(&config("test", 4), &vec![]).unwrap();
    assert!(id.starts_with("test-"));
    let parts: Vec<&str> = id.splitn(2, '-').collect();
    assert_eq!(parts.len(), 2);
    assert_eq!(parts[0], "test");
}

#[test]
fn test_generate_issue_id_suffix_length() {
    let id = generate_issue_id(&config("brd", 6), &vec![]).unwrap();
    assert_eq!(id.strip_prefix("brd-").unwrap().len(), 6);
}

#[test]
fn test_generate_issue_id_charset() {
    for _ in 0..10 {
        let id = generate_issue_id(&config("x", 10), &vec![]).unwrap();
        for c in id.strip_prefix("x-").unwrap().chars() {
            assert!(c.is_ascii_lowercase() || c.is_ascii_digit(), "unexpected char in suffix: {}", c);
        }
    }
}

#[test]
fn generated_ids_avoid_taken_ones() {
    let mut taken = Vec::new();
    for _ in 0..50 {
        let id = generate_issue_id(&config("col", 1), &taken).unwrap_or_default();
        if id.is_empty() {
            break;
        }
        assert!(!taken.contains(&id));
        taken.push(id);
    }
}

#[test]
fn all_ids_taken_is_an_error() {
    let taken: Vec<String> = vec![];
    let full: Vec<String> = "0123456789abcdefghijklmnopqrstuvwxyz".chars().map(|c| format!("z-{}", c)).collect();
    let err = generate_issue_id(&config("z", 1), &full).unwrap_err();
    assert_eq!(err.to_text(), "failed to generate unique ID after 20 attempts");
    assert!(generate_issue_id(&config("z", 1), &taken).is_ok());
}

fn strings(v: &[&str]) -> Vec<String> {
    v.iter().map(|s| s.to_string()).collect()
}

#[test]
fn first_free_takes_the_first_untaken_candidate() {
    let c = strings(&["brd-aaaa", "brd-bbbb", "brd-cccc"]);
    let t = strings(&["brd-aaaa"]);
    assert_eq!(first_free(&c, &t).unwrap(), "brd-bbbb");
    assert_eq!(first_free(&c, &vec![]).unwrap(), "brd-aaaa");
}

#[test]
fn first_free_fails_when_all_taken() {
    let c = strings(&["brd-aaaa", "brd-aaaa"]);
    let t = strings(&["brd-aaaa"]);
    assert_eq!(first_free(&c, &t).unwrap_err().to_text(), "failed to generate unique ID after 20 attempts");
}

#[test]
fn generate_succeeds_when_no_taken_id_has_the_shape() {
    let taken = strings(&["other-aaaa", "brd-aa", "brd-AAAA"]);
    let id = generate_issue_id(&config("brd", 4), &taken).unwrap();
    assert!(id.starts_with("brd-") && id.len() == 8);
}
