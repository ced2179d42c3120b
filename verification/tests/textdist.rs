use colophon::textdist::{levenshtein, nearest, nearest_owned};

#[test]
fn nearest_finds_a_close_typo_and_ignores_distant_words() {
    assert_eq!(nearest("recyle_bin", &["recycle_bin", "fixity"]), Some("recycle_bin".to_string()));
    assert_eq!(nearest("author", &["recycle_bin", "fixity"]), None);
    assert_eq!(nearest("fixity", &["fixity"]), None);
}

#[test]
fn nearest_owned_matches_the_slice_form() {
    let cands = vec!["public".to_string(), "friends".to_string()];
    assert_eq!(nearest_owned("freinds", &cands), Some("friends".to_string()));
    assert_eq!(nearest_owned("colleagues", &cands), None);
}

#[test]
fn levenshtein_counts_edits() {
    assert_eq!(levenshtein("", ""), 0);
    assert_eq!(levenshtein("abc", ""), 3);
    assert_eq!(levenshtein("", "ab"), 2);
    assert_eq!(levenshtein("kitten", "sitting"), 3);
    assert_eq!(levenshtein("flaw", "lawn"), 2);
    assert_eq!(levenshtein("héllo", "hello"), 1);
}

#[test]
fn nearest_prefers_the_first_of_equally_close_candidates() {
    assert_eq!(nearest("cat", &["bat", "cap"]), Some("bat".to_string()));
    assert_eq!(nearest("cat", &["cut", "c"]), Some("cut".to_string()));
    assert_eq!(nearest("cat", &["ca", "bat"]), Some("ca".to_string()));
    assert_eq!(nearest("x", &[]), None);
}

#[test]
fn distance_is_case_sensitive() {
    assert_eq!(nearest("Fixity", &["fixity"]), Some("fixity".to_string()));
}
