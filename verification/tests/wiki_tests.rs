use grimoire::wiki::{
    check_indexing_state, choose_article, days_to_ymd, html_to_text, next_checkpoint,
    parse_catalogue, record_batch, start_entry, text_of_nodes, timestamp_text, window_end,
    zim_file_name, DownloadProgress,
};

/// Days from 1970-01-01 to a civil date, counted independently of the library.
fn days_from_civil(y: i64, m: i64, d: i64) -> i64 {
    let y = if m <= 2 { y - 1 } else { y };
    let era = y.div_euclid(400);
    let yoe = y - era * 400;
    let mp = if m > 2 { m - 3 } else { m + 9 };
    let doy = (153 * mp + 2) / 5 + d - 1;
    let doe = yoe * 365 + yoe / 4 - yoe / 100 + doy;
    era * 146097 + doe - 719468
}

#[test]
fn epoch_day_is_new_year_1970() {
    assert_eq!(days_to_ymd(0), (1970, 1, 1));
    assert_eq!(days_to_ymd(59), (1970, 3, 1));
    assert_eq!(days_to_ymd(11016), (2000, 2, 29));
    assert_eq!(days_to_ymd(19723), (2024, 1, 1));
}

#[test]
fn calendar_dates_round_trip() {
    for days in [0u64, 1, 58, 59, 365, 10956, 11016, 11017, 19723, 47482, 2932896] {
        let (y, m, d) = days_to_ymd(days);
        assert!((1..=12).contains(&m) && (1..=31).contains(&d));
        assert_eq!(days_from_civil(y as i64, m as i64, d as i64), days as i64);
    }
}

#[test]
fn timestamps_are_iso_utc() {
    assert_eq!(timestamp_text(0), "1970-01-01T00:00:00Z".to_string());
    assert_eq!(timestamp_text(1_700_000_000), "2023-11-14T22:13:20Z".to_string());
    assert_eq!(timestamp_text(951_782_399), "2000-02-28T23:59:59Z".to_string());
}

#[test]
fn only_safe_states_can_be_set() {
    for s in ["none", "queued", "done", "error"] {
        assert_eq!(check_indexing_state(s), Ok(()));
    }
    assert_eq!(check_indexing_state("indexing"), Err("Invalid state: indexing".to_string()));
}

#[test]
fn download_name_is_last_url_part() {
    assert_eq!(zim_file_name("https://x.org/a/wiki_en_nopic.zim"), Ok("wiki_en_nopic.zim".to_string()));
    assert_eq!(
        zim_file_name("https://x.org/a/file.zim.meta4"),
        Err("Download URL does not end with a .zim filename".to_string())
    );
    assert_eq!(zim_file_name("plain.zim"), Ok("plain.zim".to_string()));
}

#[test]
fn progress_events_every_half_megabyte() {
    let mut p = DownloadProgress::new();
    assert!(!p.record_chunk(300_000));
    assert!(p.record_chunk(300_000));
    assert_eq!((p.downloaded, p.last_emit), (600_000, 600_000));
    assert!(!p.record_chunk(1000));
    assert_eq!(p.last_emit, 600_000);
}

#[test]
fn indexing_windows_and_checkpoints() {
    assert_eq!(start_entry(None), 0);
    assert_eq!(start_entry(Some(42)), 42);
    assert_eq!(start_entry(Some(0x1_0000_0005)), 5);
    assert_eq!(window_end(0, 5000), 1024);
    assert_eq!(window_end(4096, 5000), 5000);
    assert_eq!(record_batch(9, &[10, 11, 12], &[true, false, false]), (10, 1));
    assert_eq!(record_batch(9, &[10, 11], &[false, false]), (9, 0));
    assert_eq!(next_checkpoint(10), 11);
}

#[test]
fn articles_are_chosen_by_path_and_text() {
    let long = "Lorem ipsum dolor sit amet. ".repeat(30);
    let a = choose_article("b1", 7, "A/Rust", "Rust", &long).unwrap();
    assert_eq!(a.entry, 7);
    assert_eq!(a.article_id, "b1/A/Rust".to_string());
    assert_eq!(a.content.chars().count(), long.chars().count().min(1500));
    assert_eq!(a.doc_text, format!("search_document: Rust\n{}", a.content));
    assert!(choose_article("b1", 1, "-/style.css", "s", &long).is_none());
    assert!(choose_article("b1", 1, "A/Template:Box", "t", &long).is_none());
    assert!(choose_article("b1", 1, ".hidden", "h", &long).is_none());
    assert!(choose_article("b1", 1, "A/Short", "s", "too short").is_none());
    let disamb = format!("{long} Mercury may refer to: a planet");
    assert!(choose_article("b1", 1, "A/Mercury", "Mercury", &disamb).is_none());
}

#[test]
fn long_articles_are_cut_at_1500_characters() {
    let long = "x".repeat(2000);
    let a = choose_article("b", 0, "A/X", "X", &long).unwrap();
    assert_eq!(a.content.len(), 1500);
}

#[test]
fn html_text_keeps_paragraphs_and_collapses_space() {
    let html = "<html><body><p>Hello   world</p><script>x</script><p>Second</p></body></html>";
    assert_eq!(html_to_text(html), "Hello world\nSecond".to_string());
}

#[test]
fn html_skipped_elements_drop_their_content() {
    let html = "<html><body><p>Hi</p><script>x()</script></body></html>";
    assert_eq!(html_to_text(html), "Hi".to_string());
    let html = "<html><body>X<li class=\"toc\">A</li><li>B</li></body></html>";
    assert_eq!(html_to_text(html), "X\nB".to_string());
    let html = "<html><body><nav><p>menu <b>bold</b></p></nav><div id=\"toc\"><li>c</li></div><p>kept</p></body></html>";
    assert_eq!(html_to_text(html), "kept".to_string());
    let html = "<html><body><style>p { }</style><p>a <i>b</i> c</p></body></html>";
    assert_eq!(html_to_text(html), "a b c".to_string());
}

#[test]
fn html_text_from_nodes() {
    let close = || (3u8, String::new(), false);
    let nodes = vec![
        (0u8, "body".to_string(), true),
        (1u8, "  one  two ".to_string(), false),
        close(),
        (0u8, "br".to_string(), false),
        close(),
        (0u8, "nav".to_string(), true),
        (0u8, "p".to_string(), false),
        (1u8, "hidden".to_string(), false),
        close(),
        close(),
        close(),
        (2u8, String::new(), false),
        close(),
        (1u8, "three".to_string(), false),
        close(),
        close(),
    ];
    assert_eq!(text_of_nodes(&nodes), "one two\nthree".to_string());
}

#[test]
fn catalogue_keeps_nopic_entries_with_ids() {
    let xml = r#"<feed xmlns="http://www.w3.org/2005/Atom">
  <entry>
    <id>urn:uuid:abc-123</id>
    <title>Wikipedia</title>
    <name>wikipedia_en_all_nopic</name>
    <flavour>nopic</flavour>
    <articleCount>6000000</articleCount>
    <link rel="alternate" href="https://x/other"/>
    <link rel="http://opds-spec.org/acquisition/open-access" href="https://d/x.zim.meta4" length="123"/>
  </entry>
  <entry><id>urn:uuid:def</id><flavour>maxi</flavour></entry>
  <entry><id>urn:uuid:</id><flavour>nopic</flavour></entry>
</feed>"#;
    let entries = parse_catalogue(xml).unwrap();
    assert_eq!(entries.len(), 1);
    let e = &entries[0];
    assert_eq!(e.id, "abc-123".to_string());
    assert_eq!(e.name, "wikipedia_en_all_nopic".to_string());
    assert_eq!(e.title, "Wikipedia".to_string());
    assert_eq!(e.flavour, "nopic".to_string());
    assert_eq!(e.article_count, Some(6000000));
    assert_eq!(e.size_bytes, Some(123));
    assert_eq!(e.download_url, Some("https://d/x.zim".to_string()));
    assert_eq!(e.sha256_url, None);
}

#[test]
fn catalogue_parse_errors_are_reported() {
    let e = parse_catalogue("<feed>").err().unwrap();
    assert!(e.starts_with("Failed to parse catalogue XML: "));
}
