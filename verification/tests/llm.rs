use context_engine_rs::config::LlmConfig;
use context_engine_rs::llm::google;
use context_engine_rs::llm::openai;
use context_engine_rs::llm::openai::add_directive;
use context_engine_rs::llm::openai::ensure_json_token;
use context_engine_rs::llm::provider_supports_structured_output;
use context_engine_rs::llm::CompletionAction;
use context_engine_rs::llm::LlmClient;
use context_engine_rs::llm::Provider;

fn config(provider: &str, keys: &[&str], structured: bool) -> LlmConfig {
    LlmConfig {
        provider: provider.to_string(),
        rerank_model: "m".to_string(),
        api_keys: keys.iter().map(|s| s.to_string()).collect(),
        use_structured_output: structured,
    }
}

#[test]
fn token_present_in_system_is_unchanged() {
    let s = ensure_json_token(true, "Respond with a JSON object.", "rank these");
    assert_eq!(s, "Respond with a JSON object.");
}

#[test]
fn token_present_in_user_leaves_system_unchanged() {
    let s = ensure_json_token(true, "You are a ranker.", "reply as json please");
    assert_eq!(s, "You are a ranker.");
}

#[test]
fn token_absent_appends_directive() {
    let s = ensure_json_token(true, "You are a ranker.", "rank these chunks");
    assert!(s.to_lowercase().contains("json"), "must inject the json token");
    assert_eq!(s, "You are a ranker.\nRespond in JSON.");
}

#[test]
fn not_structured_never_modifies() {
    // XML mode: no json_object request, so no token requirement.
    let s = ensure_json_token(false, "You are a ranker.", "rank these chunks");
    assert_eq!(s, "You are a ranker.");
}

#[test]
fn any_capitalization_counts() {
    assert_eq!(ensure_json_token(true, "as Json", "x"), "as Json");
    assert_eq!(ensure_json_token(true, "größe", "ΑΣ jSoN"), "größe");
    assert_eq!(ensure_json_token(true, "js on", "größe"), "js on\nRespond in JSON.");
}

#[test]
fn the_directive_depends_on_the_lowercased_messages() {
    assert_eq!(add_directive(true, "S", "s", "u"), "S\nRespond in JSON.");
    assert_eq!(add_directive(true, "S", "a json b", "u"), "S");
    assert_eq!(add_directive(true, "S", "s", "json"), "S");
    assert_eq!(add_directive(true, "S", "JSON", "u"), "S\nRespond in JSON.");
    assert_eq!(add_directive(false, "S", "s", "u"), "S");
}

#[test]
fn a_client_needs_a_key() {
    assert!(LlmClient::new(&config("google", &[], true)).is_none());
    let client = LlmClient::new(&config("google", &["a", "b"], true)).unwrap();
    assert_eq!(client.model(), "m");
    assert_eq!(client.provider(), "google");
    assert_eq!(client.key(1), "b");
}

#[test]
fn structured_output_needs_setting_and_provider() {
    assert!(provider_supports_structured_output("google"));
    assert!(provider_supports_structured_output("openai"));
    assert!(!provider_supports_structured_output("Google"));
    assert!(LlmClient::new(&config("openai", &["k"], true)).unwrap().structured_output_active());
    assert!(!LlmClient::new(&config("openai", &["k"], false)).unwrap().structured_output_active());
    assert!(!LlmClient::new(&config("local", &["k"], true)).unwrap().structured_output_active());
}

#[test]
fn providers_are_called_by_name() {
    let provider = |name: &str| LlmClient::new(&config(name, &["k"], true)).unwrap().call_provider();
    assert_eq!(provider("google"), Ok(Provider::Google));
    assert_eq!(provider("openai"), Ok(Provider::OpenAi));
    assert_eq!(provider("local"), Err("unsupported LLM provider: local".to_string()));
}

#[test]
fn a_failing_completion_makes_two_passes() {
    let client = LlmClient::new(&config("google", &["a", "b", "c"], false)).unwrap();
    let mut run = client.complete(2);
    let mut log: Vec<String> = vec![format!("key {}", run.first_key())];
    let mut attempt = 0;
    let last = loop {
        attempt += 1;
        let reply: Result<String, String> = Err(format!("error {attempt}"));
        match run.on_reply(reply) {
            CompletionAction::TryKey(k) => log.push(format!("key {k}")),
            CompletionAction::Sleep(s) => {
                log.push(format!("sleep {s}"));
                log.push(format!("key {}", run.on_rested()));
            }
            CompletionAction::Return(r) => break r,
        }
    };
    assert_eq!(
        log,
        vec!["key 2", "key 0", "key 1", "sleep 2", "key 2", "key 0", "key 1"]
    );
    assert_eq!(last, Err("error 6".to_string()));
}

#[test]
fn an_answer_ends_a_completion() {
    let client = LlmClient::new(&config("google", &["a", "b"], false)).unwrap();
    let mut run = client.complete(0);
    let failed: Result<String, String> = Err("x".to_string());
    assert!(matches!(run.on_reply(failed), CompletionAction::TryKey(1)));
    let reply: Result<String, String> = Ok("yes".to_string());
    match run.on_reply(reply) {
        CompletionAction::Return(r) => assert_eq!(r, Ok("yes".to_string())),
        _ => panic!("expected the answer"),
    }
}

#[test]
fn gemini_requests() {
    let r = google::complete("gemini-x", "SECRET", "sys", "usr", true);
    assert_eq!(
        r.url,
        "https://generativelanguage.googleapis.com/v1beta/models/gemini-x:generateContent?key=SECRET"
    );
    assert_eq!((r.system.as_str(), r.role.as_str(), r.user.as_str()), ("sys", "user", "usr"));
    assert_eq!(r.response_mime_type, Some("application/json".to_string()));
    assert_eq!(google::complete("m", "k", "s", "u", false).response_mime_type, None);
}

#[test]
fn gemini_replies() {
    assert_eq!(google::check_status(204, "204 No Content", ""), Ok(()));
    assert_eq!(
        google::check_status(403, "403 Forbidden", "no"),
        Err("Gemini API returned HTTP 403 Forbidden: no".to_string())
    );
    let part = |t: Option<&str>| google::ResponsePart { text: t.map(|s| s.to_string()) };
    let full = google::GeminiResponse {
        candidates: Some(vec![google::Candidate { parts: vec![part(Some("hi")), part(Some("no"))] }]),
        error: None,
    };
    assert_eq!(google::answer(&full), Ok("hi".to_string()));
    let bare = google::GeminiResponse {
        candidates: Some(vec![google::Candidate { parts: vec![part(None)] }]),
        error: None,
    };
    assert_eq!(google::answer(&bare), Ok(String::new()));
    let empty = google::GeminiResponse { candidates: None, error: None };
    assert_eq!(google::answer(&empty), Ok(String::new()));
    let failed = google::GeminiResponse { candidates: None, error: Some("quota".to_string()) };
    assert_eq!(google::answer(&failed), Err("Gemini API error: quota".to_string()));
}

#[test]
fn openai_requests() {
    let r = openai::complete("gpt-x", "SECRET", "You are a ranker.", "rank", true);
    assert_eq!(r.url, "https://api.openai.com/v1/chat/completions");
    assert_eq!(r.authorization, "Bearer SECRET");
    assert_eq!(r.model, "gpt-x");
    assert_eq!(r.messages.len(), 2);
    assert_eq!(r.messages[0].role, "system");
    assert_eq!(r.messages[0].content, "You are a ranker.\nRespond in JSON.");
    assert_eq!(r.messages[1].role, "user");
    assert_eq!(r.messages[1].content, "rank");
    assert_eq!(r.response_format, Some("json_object".to_string()));
    assert_eq!(openai::complete("m", "k", "s", "u", false).response_format, None);
}

#[test]
fn openai_replies() {
    assert_eq!(openai::check_status(200, "200 OK", ""), Ok(()));
    assert_eq!(
        openai::check_status(500, "500 Internal Server Error", "x"),
        Err("OpenAI API returned HTTP 500 Internal Server Error: x".to_string())
    );
    let choice = |t: Option<&str>| openai::Choice { content: t.map(|s| s.to_string()) };
    let full = openai::ChatResponse { choices: Some(vec![choice(Some("a")), choice(Some("b"))]), error: None };
    assert_eq!(openai::answer(&full), Ok("a".to_string()));
    let bare = openai::ChatResponse { choices: Some(vec![choice(None)]), error: None };
    assert_eq!(openai::answer(&bare), Ok(String::new()));
    let none = openai::ChatResponse { choices: Some(vec![]), error: None };
    assert_eq!(openai::answer(&none), Ok(String::new()));
    let failed = openai::ChatResponse { choices: None, error: Some("bad".to_string()) };
    assert_eq!(openai::answer(&failed), Err("OpenAI API error: bad".to_string()));
}
