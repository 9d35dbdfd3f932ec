use forumdoc::client::{
    absolute_url, base_search_link, base_url, build_search_body, days_since_2020,
    decode_markup_bytes, is_search_results_url, number_days_since_2020, search_page_url,
};
use forumdoc::post::{Post, PostMessage};

#[test]
fn utf8_bytes_decode_as_utf8() {
    let bytes: Vec<u8> = "héllo".as_bytes().to_vec();
    assert_eq!(decode_markup_bytes(&bytes), "héllo");
}

#[test]
fn invalid_utf8_falls_back_to_windows1252() {
    // 0xE9 alone is not valid UTF-8; windows-1252 reads it as é.
    let bytes: Vec<u8> = vec![0x61, 0xE9, 0x62];
    assert_eq!(decode_markup_bytes(&bytes), "aéb");
    // 0x80 shows the windows-1252 table proper, not a raw codepoint copy.
    let euro: Vec<u8> = vec![0x61, 0x80, 0x62];
    assert_eq!(decode_markup_bytes(&euro), "a€b");
}

#[test]
fn empty_bytes_decode_empty() {
    let bytes: Vec<u8> = Vec::new();
    assert_eq!(decode_markup_bytes(&bytes), "");
}

#[test]
fn days_are_counted_from_2020() {
    // 1577836800 is 2020-01-01 00:00:00 UTC.
    assert_eq!(days_since_2020(1577836800), 0);
    assert_eq!(days_since_2020(1577836800 + 3 * 86400 + 5), 3);
    assert_eq!(days_since_2020(0), 0);
}

#[test]
fn current_day_count_is_nonnegative() {
    assert!(number_days_since_2020() >= 0);
}

#[test]
fn search_body_embeds_the_day_count() {
    let body = build_search_body(1234);
    assert!(body.contains("&search_time=1234&"));
    assert!(body.starts_with("search_keywords="));
    assert!(body.ends_with("&return_chars=200"));
}

#[test]
fn search_results_urls_are_recognized() {
    assert!(is_search_results_url("https://www.techouvot.com/search.php?search_id=77"));
    assert!(!is_search_results_url("https://www.techouvot.com/viewtopic.php?t=9"));
}

#[test]
fn next_page_link_is_cut_at_its_parameters() {
    assert_eq!(
        base_search_link("search.php?search_id=123&start=50"),
        "search.php?search_id=123"
    );
    assert_eq!(base_search_link("plain"), "plain");
}

#[test]
fn urls_are_joined_onto_the_base() {
    assert_eq!(base_url(), "https://www.techouvot.com/");
    assert_eq!(
        absolute_url("viewtopic.php?t=9"),
        "https://www.techouvot.com/viewtopic.php?t=9"
    );
}

#[test]
fn result_pages_step_by_page_size() {
    assert_eq!(
        search_page_url("search.php?search_id=9", 2, 50),
        "https://www.techouvot.com/search.php?search_id=9&start=100"
    );
    assert_eq!(
        search_page_url("search.php?search_id=9", 0, 50),
        "https://www.techouvot.com/search.php?search_id=9&start=0"
    );
}

#[test]
fn posts_hold_their_extracted_messages() {
    let msg = PostMessage {
        author: "John Doe".to_string(),
        date: "d".to_string(),
        message: "<div></div>".to_string(),
    };
    let post = Post {
        title: "A question".to_string(),
        category: "Halacha".to_string(),
        messages: Some(vec![msg.clone()]),
    };
    assert_eq!(post.messages.as_ref().unwrap()[0].author, msg.author);
    assert_eq!(post.clone().title, "A question");
}
