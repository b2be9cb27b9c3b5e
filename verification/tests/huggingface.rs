use ezllama::huggingface::{
    GgufListing, ListingAction, ListingEvent, build_query_url, extract_json_string_values,
    get_text_generation_gguf, parse_json_string, parse_model_ids, parse_next_link,
};

#[test]
fn parses_model_ids_from_json() {
    let body = r#"[{"modelId":"Jiunsong/supergemma4-26b-uncensored-gguf-v2"},{"modelId":"Jackrong/Qwen3.5-9B-GLM5.1-Distill-v1-GGUF"},{"id":"unsloth/Qwen3-Coder-Next-GGUF"}]"#;

    let ids = parse_model_ids(body);

    assert_eq!(
        ids,
        vec![
            "Jiunsong/supergemma4-26b-uncensored-gguf-v2".to_string(),
            "Jackrong/Qwen3.5-9B-GLM5.1-Distill-v1-GGUF".to_string(),
            "unsloth/Qwen3-Coder-Next-GGUF".to_string(),
        ]
    );
}

#[test]
fn parses_next_link_header() {
    let headers = "HTTP/2 200\nLink: <https://huggingface.co/api/models?cursor=abc>; rel=\"next\"\n";

    assert_eq!(
        parse_next_link(headers).as_deref(),
        Some("https://huggingface.co/api/models?cursor=abc")
    );
}

#[test]
fn model_ids_are_listed_once_in_order_of_appearance() {
    let body = r#"[{"id":"b/x","modelId":"a/y"},{"id":"a/y","modelId":"c/z"}]"#;
    assert_eq!(
        parse_model_ids(body),
        vec!["a/y".to_string(), "c/z".to_string(), "b/x".to_string()]
    );
}

#[test]
fn json_escapes_are_decoded() {
    assert_eq!(
        parse_json_string(r#""a\"b\\c\/d\ne\u" rest"#),
        Some(("a\"b\\c/d\neu".to_string(), 17))
    );
    assert_eq!(parse_json_string("\"unterminated"), None);
    assert_eq!(parse_json_string("no quote"), None);
    assert_eq!(parse_json_string(""), None);
}

#[test]
fn values_after_white_space_and_missing_colon() {
    assert_eq!(
        extract_json_string_values(r#"{"id" :  "one", "id": 2, "id":"two"}"#, "\"id\""),
        vec!["one".to_string(), "two".to_string()]
    );
    assert_eq!(
        extract_json_string_values(r#"{"id" "no colon"}"#, "\"id\""),
        Vec::<String>::new()
    );
}

#[test]
fn next_link_only_from_last_response() {
    let headers = "HTTP/1.1 302 Found\r\nLink: <https://a/first>; rel=\"next\"\r\n\r\nHTTP/2 200\r\nlink: <  https://b/second  >; rel=\"next\"\r\n";
    assert_eq!(parse_next_link(headers).as_deref(), Some("https://b/second"));
}

#[test]
fn next_link_needs_rel_next_and_closing_bracket() {
    assert_eq!(parse_next_link("LINK: <https://a/prev>; rel=\"prev\"\n"), None);
    assert_eq!(parse_next_link("Link: <https://a/broken; rel=\"next\"\nLink: <https://a/ok>; rel=\"next\"\n"), None);
    assert_eq!(
        parse_next_link("Link: <https://a/prev>; rel=\"prev\"\nLink: <https://a/ok>; rel=\"next\"\n").as_deref(),
        Some("https://a/ok")
    );
    assert_eq!(parse_next_link(""), None);
}

#[test]
fn query_url_asks_for_text_generation_gguf() {
    assert_eq!(
        build_query_url(),
        "https://huggingface.co/api/models?filter=text-generation&search=gguf&limit=100&full=false&sort=downloads&direction=-1"
    );
}

#[test]
fn listing_walks_pages_and_sorts_distinct_ids() {
    let mut listing = GgufListing::new();
    let first = match get_text_generation_gguf(&mut listing, ListingEvent::Start) {
        ListingAction::Fetch(url) => url,
        ListingAction::Done(_) => panic!("the walk must start with a fetch"),
    };
    assert_eq!(first, build_query_url());
    let page1 = ListingEvent::Page(
        "HTTP/2 200\nLink: <https://huggingface.co/api/models?cursor=2>; rel=\"next\"\n".to_string(),
        r#"[{"modelId":"z/m"},{"modelId":"a/m"}]"#.to_string(),
    );
    match get_text_generation_gguf(&mut listing, page1) {
        ListingAction::Fetch(url) => {
            assert_eq!(url, "https://huggingface.co/api/models?cursor=2")
        }
        ListingAction::Done(_) => panic!("a next link must be followed"),
    }
    let page2 = ListingEvent::Page(
        "HTTP/2 200\n".to_string(),
        r#"[{"modelId":"a/m"},{"modelId":"b/m"}]"#.to_string(),
    );
    match get_text_generation_gguf(&mut listing, page2) {
        ListingAction::Done(list) => assert_eq!(
            list,
            vec!["a/m".to_string(), "b/m".to_string(), "z/m".to_string()]
        ),
        ListingAction::Fetch(_) => panic!("no next link: the walk ends"),
    }
}

#[test]
fn listing_ends_on_failed_fetch() {
    let mut listing = GgufListing::new();
    let page = ListingEvent::Page(
        "Link: <https://next>; rel=\"next\"".to_string(),
        r#"[{"id":"B"},{"id":"A"},{"id":"B"}]"#.to_string(),
    );
    assert!(matches!(
        get_text_generation_gguf(&mut listing, page),
        ListingAction::Fetch(_)
    ));
    match get_text_generation_gguf(&mut listing, ListingEvent::FetchFailed) {
        ListingAction::Done(list) => assert_eq!(list, vec!["A".to_string(), "B".to_string()]),
        ListingAction::Fetch(_) => panic!("a failed fetch ends the walk"),
    }
}

#[test]
fn json_literal_length_counts_bytes() {
    assert_eq!(parse_json_string("\"é\"x"), Some(("é".to_string(), 4)));
    for text in ["", "plain", "é", "日本語", "a\"b\\c", "emoji 🦀 end"] {
        let literal = format!("\"{}\"", text.replace('\\', "\\\\").replace('"', "\\\""));
        let input = literal.clone() + ", tail";
        assert_eq!(
            parse_json_string(&input),
            Some((text.to_string(), literal.len())),
            "{input:?}"
        );
    }
}
