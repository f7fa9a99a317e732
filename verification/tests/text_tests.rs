use grimoire::chunking::{
    all_blank, chunk_sentences, index_chunks, index_text, properties_suffix, split_at_punctuation,
    split_sentences,
};
use grimoire::relations::{link_targets, parse_tags, parse_wiki_links, tag_key};
use grimoire::search::build_fts_query;

fn strings(v: &[&str]) -> Vec<String> {
    v.iter().map(|s| s.to_string()).collect()
}

#[test]
fn tags_are_lowercased_and_deduplicated() {
    assert_eq!(parse_tags("#Rust and #rust and #web-dev_2"), strings(&["rust", "web-dev_2"]));
}

#[test]
fn tags_need_whitespace_or_start_before_them() {
    assert_eq!(parse_tags("see https://example.com/#section and a#b"), Vec::<String>::new());
    assert_eq!(parse_tags("line\n#todo"), strings(&["todo"]));
    assert_eq!(parse_tags("# heading"), Vec::<String>::new());
}

#[test]
fn tag_stops_at_punctuation() {
    assert_eq!(parse_tags("#idea, #next."), strings(&["idea", "next"]));
}

#[test]
fn tag_search_key_is_lowercase() {
    assert_eq!(tag_key("RuSt"), "rust".to_string());
}

#[test]
fn wiki_links_are_trimmed_and_deduplicated() {
    assert_eq!(
        parse_wiki_links("See [[ Alpha ]] and [[Beta]] and [[Alpha]] and [[  ]]"),
        strings(&["Alpha", "Beta"])
    );
}

#[test]
fn unclosed_wiki_link_stops_the_scan() {
    assert_eq!(parse_wiki_links("[[One]] [[two"), strings(&["One"]));
}

#[test]
fn link_targets_skip_missing_and_self() {
    assert_eq!(link_targets(7, &[Some(1), None, Some(7), Some(2)]), vec![1, 2]);
}

#[test]
fn fts_query_quotes_prefix_terms() {
    // The documented example.
    assert_eq!(build_fts_query("rust error"), "\"rust\"* \"error\"*".to_string());
}

#[test]
fn fts_query_drops_quotes_and_empty_terms() {
    assert_eq!(build_fts_query("  say \"hi\"  \"\"  OR "), "\"say\"* \"hi\"* \"OR\"*".to_string());
    assert_eq!(build_fts_query("   "), String::new());
}

#[test]
fn punctuation_split_needs_space_and_capital() {
    assert_eq!(
        split_at_punctuation("First one. Second one! third stays. e.g. Fourth"),
        strings(&["First one.", "Second one! third stays. e.g.", "Fourth"])
    );
}

#[test]
fn punctuation_split_of_blank_text_keeps_one_piece() {
    assert_eq!(split_at_punctuation("   "), strings(&[""]));
}

#[test]
fn sentences_are_lines_unless_long() {
    assert_eq!(split_sentences("a b\n\n  c d  \n"), strings(&["a b", "c d"]));
    let long = "w ".repeat(30) + "End. Next sentence here";
    let s = split_sentences(&long);
    assert_eq!(s.len(), 2);
    assert!(s[0].ends_with("End."));
    assert_eq!(s[1], "Next sentence here".to_string());
    assert_eq!(split_sentences(" \n "), Vec::<String>::new());
}

#[test]
fn chunks_group_sentences_with_overlap() {
    let s = strings(&["a", "b", "c", "d", "e"]);
    assert_eq!(chunk_sentences(s.clone(), 2, 1), strings(&["a b", "b c", "c d", "d e"]));
    assert_eq!(chunk_sentences(s.clone(), 3, 0), strings(&["a b c", "d e"]));
    assert_eq!(chunk_sentences(s.clone(), 1, 0), strings(&["a", "b", "c", "d", "e"]));
    assert_eq!(chunk_sentences(s, 5, 0), strings(&["a b c d e"]));
    assert_eq!(chunk_sentences(Vec::new(), 2, 1), strings(&[""]));
}

#[test]
fn chunks_advance_at_least_one_sentence() {
    let s = strings(&["a", "b", "c"]);
    assert_eq!(chunk_sentences(s, 2, 5), strings(&["a b", "b c"]));
}

#[test]
fn blank_chunks_are_detected() {
    assert!(all_blank(&strings(&["", "  \n"])));
    assert!(!all_blank(&strings(&["", "x"])));
}

#[test]
fn properties_suffix_lists_filled_values() {
    let pairs = vec![
        ("Status".to_string(), "Draft".to_string()),
        ("Owner".to_string(), String::new()),
        ("Due".to_string(), "2024-05-01".to_string()),
    ];
    assert_eq!(properties_suffix(&pairs), "\nProperties: Status=Draft, Due=2024-05-01".to_string());
    assert_eq!(properties_suffix(&vec![("A".to_string(), String::new())]), String::new());
}

#[test]
fn index_text_appends_suffix() {
    assert_eq!(index_text("body".to_string(), String::new()), "body".to_string());
    assert_eq!(index_text("body".to_string(), "\nProperties: A=1".to_string()), "body\nProperties: A=1".to_string());
    assert_eq!(index_chunks("one\ntwo"), strings(&["one", "two"]));
}
