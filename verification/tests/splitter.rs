use doc_loader::text_splitter::TextSplitter;
use doc_loader::trim::trim_str;
use doc_loader::ChunkSplitter;

#[test]
fn chunks_without_trim() {
    let sp = ChunkSplitter::new(2, false);
    let out = sp.split("abcde");
    assert_eq!(out, vec!["ab".to_string(), "cd".to_string(), "e".to_string()]);
}

#[test]
fn chunks_of_five_trimmed() {
    let sp = ChunkSplitter::new(5, true);
    let out = sp.split("hello world\n");
    assert_eq!(out, vec!["hello".to_string(), "worl".to_string(), "d".to_string()]);
}

#[test]
fn chunk_count_is_ceiling_and_untrimmed_chunks_reconstruct_the_text() {
    let sp = ChunkSplitter::new(5, false);
    let text = "hello world!";
    let out = sp.split(text);
    assert_eq!(out.len(), 3);
    assert_eq!(out.concat(), text);

    let sp = ChunkSplitter::new(4, false);
    let text = "abcdefgh";
    let out = sp.split(text);
    assert_eq!(out.len(), 2);
    assert_eq!(out.concat(), text);
}

#[test]
fn retrimming_a_trimmed_chunk_changes_nothing() {
    let sp = ChunkSplitter::new(4, true);
    for chunk in sp.split("  a b  c   d  ") {
        assert_eq!(trim_str(&chunk), chunk);
    }
}

#[test]
fn empty_input_yields_no_chunks() {
    assert!(ChunkSplitter::new(10, true).split("").is_empty());
    assert!(ChunkSplitter::new(10, false).split("").is_empty());
}

#[test]
fn chunk_trimmed_to_empty_is_still_emitted() {
    let sp = ChunkSplitter::new(2, true);
    let out = sp.split("a    b");
    assert_eq!(out, vec!["a".to_string(), String::new(), "b".to_string()]);
}

#[test]
fn chunks_count_characters_not_bytes() {
    let sp = ChunkSplitter::new(2, false);
    let out = sp.split("héllo");
    assert_eq!(out, vec!["hé".to_string(), "ll".to_string(), "o".to_string()]);
}

#[test]
fn default_splitter_uses_ten_char_trimmed_windows() {
    let sp = ChunkSplitter::default();
    let out = sp.split("0123456789 abcdef");
    assert_eq!(out, vec!["0123456789".to_string(), "abcdef".to_string()]);
}

#[test]
fn split_text_always_succeeds() {
    let sp = ChunkSplitter::new(3, false);
    let out = sp.split_text("abcdef").unwrap();
    assert_eq!(out, vec!["abc".to_string(), "def".to_string()]);
}

#[test]
fn trim_strips_leading_and_trailing_whitespace_only() {
    assert_eq!(trim_str("  hi there\t\n"), "hi there");
    assert_eq!(trim_str("none"), "none");
    assert_eq!(trim_str("   "), "");
    assert_eq!(trim_str(""), "");
}
