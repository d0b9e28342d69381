use context_engine_rs::config::EmbeddingConfig;
use context_engine_rs::config::RerankConfig;
use context_engine_rs::embedding::batches::split_batches;
use context_engine_rs::embedding::batches::BatchRun;
use context_engine_rs::embedding::voyage::classify_status;
use context_engine_rs::embedding::voyage::embeddings_url;
use context_engine_rs::embedding::voyage::failure_message;
use context_engine_rs::embedding::voyage::ClientError;
use context_engine_rs::embedding::voyage::EmbedReply;
use context_engine_rs::embedding::voyage::QueryAction;
use context_engine_rs::embedding::voyage::QueryError;
use context_engine_rs::embedding::voyage::ReplyKind;
use context_engine_rs::embedding::voyage::RequestAction;
use context_engine_rs::embedding::voyage::VoyageClient;
use context_engine_rs::embedding::InputType;
use context_engine_rs::rotation::key_index;
use context_engine_rs::rotation::start_key;
use context_engine_rs::rotation::PassStep;
use context_engine_rs::rotation::TwoPasses;

fn config(provider: &str, base_url: Option<&str>, keys: &[&str], size: usize) -> EmbeddingConfig {
    EmbeddingConfig {
        provider: provider.to_string(),
        model: "m".to_string(),
        base_url: base_url.map(|s| s.to_string()),
        api_keys: keys.iter().map(|s| s.to_string()).collect(),
        embed_batch_size: size,
    }
}

fn strings(texts: &[&str]) -> Vec<String> {
    texts.iter().map(|s| s.to_string()).collect()
}

fn voyage(keys: &[&str]) -> VoyageClient {
    VoyageClient::new("m".to_string(), keys.iter().map(|s| s.to_string()).collect()).unwrap()
}

#[test]
fn base_urls_become_endpoints() {
    assert_eq!(embeddings_url("http://host:1234/v1"), "http://host:1234/v1/embeddings");
    assert_eq!(embeddings_url("http://host:1234/v1/"), "http://host:1234/v1/embeddings");
    assert_eq!(embeddings_url("  http://h/v1//  "), "http://h/v1/embeddings");
    assert_eq!(embeddings_url("http://h/v1/embeddings"), "http://h/v1/embeddings");
    assert_eq!(embeddings_url("http://h/v1/embeddings/"), "http://h/v1/embeddings");
    assert_eq!(embeddings_url(&embeddings_url("http://h")), "http://h/embeddings");
}

#[test]
fn voyage_takes_keys_and_sends_the_input_type() {
    let client = VoyageClient::from_config(&config("voyage", None, &["k1", "k2"], 500)).unwrap();
    assert_eq!(client.model(), "m");
    let texts = strings(&["a", "b", "c", "d"]);
    let request = client.request(1, &texts, 1, 3, InputType::Query);
    assert_eq!(request.endpoint, "https://api.voyageai.com/v1/embeddings");
    assert_eq!(request.model, "m");
    assert_eq!(request.input, vec!["b", "c"]);
    assert_eq!(request.input_type, Some("query".to_string()));
    assert_eq!(request.bearer, Some("k2".to_string()));
    assert_eq!(client.embed(300), vec![(0, 128), (128, 256), (256, 300)]);
}

#[test]
fn openai_targets_its_base_url() {
    let settings = config("openai", Some(" http://h/v1 "), &["k"], 0);
    let client = VoyageClient::from_config(&settings).unwrap();
    let request = client.request(0, &strings(&["a"]), 0, 1, InputType::Document);
    assert_eq!(request.endpoint, "http://h/v1/embeddings");
    assert_eq!(request.input, vec!["a"]);
    assert_eq!(request.input_type, None);
    assert_eq!(request.bearer, Some("k".to_string()));
    assert_eq!(client.query_request(0, "q").input_type, None);
    assert_eq!(client.embed(2), vec![(0, 1), (1, 2)]);
}

#[test]
fn a_query_is_sent_alone_as_a_query() {
    let request = voyage(&["k1", "k2"]).query_request(1, "where is main?");
    assert_eq!(request.input, vec!["where is main?"]);
    assert_eq!(request.input_type, Some("query".to_string()));
    assert_eq!(request.bearer, Some("k2".to_string()));
}

#[test]
fn documents_are_sent_as_documents() {
    let texts = strings(&["a", "b", "c"]);
    let request = voyage(&["k1", "k2"]).document_request(0, &texts, 1, 3);
    assert_eq!(request.input, vec!["b", "c"]);
    assert_eq!(request.input_type, Some("document".to_string()));
    assert_eq!(request.bearer, Some("k1".to_string()));
    assert!(voyage(&["k"]).document_request(0, &texts, 2, 2).input.is_empty());
}

#[test]
fn an_empty_key_sends_no_bearer_token() {
    let voyage_request = voyage(&["", "k"]).query_request(0, "q");
    assert_eq!(voyage_request.bearer, None);
    assert_eq!(voyage(&["", "k"]).query_request(1, "q").bearer, Some("k".to_string()));
    let local = config("openai", Some("http://h/v1"), &[""], 10);
    let client = VoyageClient::from_config(&local).unwrap();
    assert_eq!(client.query_request(0, "q").bearer, None);
    let rerank = RerankConfig {
        model: "m".to_string(),
        base_url: Some("http://h/v1".to_string()),
        api_keys: strings(&["", "k"]),
    };
    let reranker = VoyageClient::from_rerank_config(&rerank).unwrap();
    assert_eq!(reranker.query_request(0, "q").bearer, None);
    assert_eq!(reranker.query_request(1, "q").bearer, Some("k".to_string()));
    assert_eq!(reranker.clone().query_request(0, "q").bearer, None);
}

#[test]
fn clients_that_cannot_be_made() {
    let no_key = VoyageClient::from_config(&config("voyage", None, &[], 10)).unwrap_err();
    assert_eq!(no_key, ClientError::NoApiKey);
    assert_eq!(no_key.message(), "embedding client requires at least one API key");
    let openai_no_key =
        VoyageClient::from_config(&config("openai", Some("http://h/v1"), &[], 10)).unwrap_err();
    assert_eq!(openai_no_key, ClientError::NoApiKey);
    let no_url = VoyageClient::from_config(&config("openai", Some("  "), &["k"], 10)).unwrap_err();
    assert_eq!(no_url, ClientError::NoBaseUrl);
    assert_eq!(
        no_url.message(),
        "embedding provider 'openai' requires base_url (e.g. http://host:1234/v1)"
    );
    let rerank = RerankConfig { model: "m".to_string(), base_url: None, api_keys: vec![] };
    let no_rerank_url = VoyageClient::from_rerank_config(&rerank).unwrap_err();
    assert_eq!(no_rerank_url, ClientError::NoRerankBaseUrl);
    assert_eq!(no_rerank_url.message(), "rerank requires base_url (e.g. http://host:1234/v1)");
    assert_eq!(VoyageClient::new("m".to_string(), vec![]).unwrap_err(), ClientError::NoApiKey);
}

#[test]
fn the_reranker_embeds_ten_texts_at_a_time() {
    let rerank = RerankConfig {
        model: "m".to_string(),
        base_url: Some("http://host:1234/v1".to_string()),
        api_keys: vec![],
    };
    let client = VoyageClient::from_rerank_config(&rerank).unwrap();
    assert_eq!(client.embed_batch(25), vec![(0, 10), (10, 20), (20, 25)]);
    assert_eq!(client.embed_batch(10), vec![(0, 10)]);
    assert_eq!(client.embed_batch(0), vec![(0, 0)]);
    assert!(client.embed(0).is_empty());
    // Without keys the bearer token is empty.
    let request = client.request(0, &strings(&["a"]), 0, 1, InputType::Document);
    assert_eq!(request.endpoint, "http://host:1234/v1/embeddings");
    assert_eq!(request.bearer, Some(String::new()));
    assert_eq!(client.clone().query_request(0, "q").bearer, Some(String::new()));
}

#[test]
fn statuses_are_told_apart() {
    assert_eq!(classify_status(429), ReplyKind::RateLimited);
    assert_eq!(classify_status(200), ReplyKind::Success);
    assert_eq!(classify_status(299), ReplyKind::Success);
    assert_eq!(classify_status(199), ReplyKind::Failed);
    assert_eq!(classify_status(300), ReplyKind::Failed);
    assert_eq!(
        failure_message("500 Internal Server Error", "oops"),
        "embedding API error 500 Internal Server Error: oops"
    );
}

#[test]
fn input_types_have_names() {
    assert_eq!(InputType::Document.as_str(), "document");
    assert_eq!(InputType::Query.as_str(), "query");
}

#[test]
fn keys_are_tried_in_turn() {
    assert_eq!(start_key(7, 3), 1);
    let order: Vec<usize> = (0..3).map(|i| key_index(1, i, 3)).collect();
    assert_eq!(order, vec![1, 2, 0]);
}

#[test]
fn a_rate_limited_query_makes_two_passes() {
    let client = voyage(&["a", "b"]);
    let mut run = client.embed_query(3);
    let mut log: Vec<String> = vec![format!("key {}", run.first_key())];
    let error = loop {
        let reply: EmbedReply<u8, String> = EmbedReply::RateLimited;
        match run.on_reply(reply) {
            QueryAction::TryKey(k) => log.push(format!("key {k}")),
            QueryAction::Sleep(s) => {
                log.push(format!("sleep {s}"));
                log.push(format!("key {}", run.on_rested()));
            }
            QueryAction::Return(r) => break r.unwrap_err(),
        }
    };
    assert_eq!(log, vec!["key 1", "key 0", "sleep 2", "key 1", "key 0"]);
    assert_eq!(
        error.message(),
        Some("embedding API query embed still rate-limited after backoff".to_string())
    );
}

#[test]
fn a_query_takes_the_last_embedding() {
    let client = voyage(&["a"]);
    let reply: EmbedReply<u8, String> = EmbedReply::Embeddings(vec![1, 2]);
    match client.embed_query(0).on_reply(reply) {
        QueryAction::Return(Ok(v)) => assert_eq!(v, 2),
        _ => panic!("expected an embedding"),
    }
    let none: EmbedReply<u8, String> = EmbedReply::Embeddings(vec![]);
    match client.embed_query(0).on_reply(none) {
        QueryAction::Return(Err(e)) => {
            assert_eq!(e.message(), Some("embedding API returned empty embeddings".to_string()))
        }
        _ => panic!("expected an error"),
    }
    let failed: EmbedReply<u8, String> = EmbedReply::Failed("down".to_string());
    match client.embed_query(0).on_reply(failed) {
        QueryAction::Return(Err(QueryError::Failed(e))) => assert_eq!(e, "down"),
        _ => panic!("expected the error itself"),
    }
}

#[test]
fn keys_are_tried_in_two_passes() {
    let mut passes = TwoPasses::new(4, 3);
    let mut keys: Vec<usize> = vec![passes.key()];
    let mut pauses: Vec<u64> = vec![];
    loop {
        match passes.on_failure() {
            PassStep::TryKey(k) => keys.push(k),
            PassStep::Sleep(secs) => {
                pauses.push(secs);
                keys.push(passes.on_rested());
            }
            PassStep::Exhausted => break,
        }
    }
    assert_eq!(keys, vec![1, 2, 0, 1, 2, 0]);
    assert_eq!(pauses, vec![2]);
}

#[test]
fn pauses_double_up_to_a_minute() {
    let client = voyage(&["a", "b", "c"]);
    let mut run = client.embed_one_request(5);
    let mut keys: Vec<usize> = vec![run.first_key()];
    let mut pauses: Vec<u64> = vec![];
    while pauses.len() < 7 {
        let reply: EmbedReply<u8, String> = EmbedReply::RateLimited;
        match run.on_reply(reply) {
            RequestAction::TryKey(k) => keys.push(k),
            RequestAction::Sleep(s) => {
                pauses.push(s);
                keys.push(run.on_rested());
            }
            RequestAction::Return(_) => panic!("a rate limit must not end the run"),
        }
    }
    assert_eq!(pauses, vec![2, 4, 8, 16, 32, 60, 60]);
    assert_eq!(&keys[..6], &[2, 0, 1, 2, 0, 1]);
}

#[test]
fn a_batch_ends_with_embeddings_or_an_error() {
    let client = voyage(&["a"]);
    let reply: EmbedReply<u8, String> = EmbedReply::Embeddings(vec![1, 2]);
    match client.embed_one_request(0).on_reply(reply) {
        RequestAction::Return(Ok(v)) => assert_eq!(v, vec![1, 2]),
        _ => panic!("expected embeddings"),
    }
    let failed: EmbedReply<u8, String> = EmbedReply::Failed("down".to_string());
    match client.embed_one_request(0).on_reply(failed) {
        RequestAction::Return(Err(e)) => assert_eq!(e, "down"),
        _ => panic!("expected the error"),
    }
}

#[test]
fn batches_cover_all_items_in_order() {
    assert_eq!(split_batches(5, 2), vec![(0, 2), (2, 4), (4, 5)]);
    assert!(split_batches(0, 2).is_empty());
    let sizes: usize = split_batches(1000, 128).iter().map(|(a, b)| b - a).sum();
    assert_eq!(sizes, 1000);
}

#[test]
fn what_comes_back_for_batches_is_kept_in_order() {
    let mut run: BatchRun<u8> = BatchRun::new(split_batches(3, 2));
    assert_eq!(run.pending(), Some((0, 2)));
    run.absorb(vec![10, 11]);
    assert_eq!(run.pending(), Some((2, 3)));
    run.absorb(vec![12]);
    assert_eq!(run.pending(), None);
    assert_eq!(run.count(), 3);
    assert_eq!(run.finish(), vec![10, 11, 12]);
}
