//! OpenAI's chat API: what is sent, and what is read out of a reply.

use vstd::prelude::*;
use vstd::string::*;

use crate::llm::check_http;
use crate::text;
use crate::text::contains;
use crate::text::to_lowercase;

verus! {

/// A request for a completion. The temperature goes with it.
#[derive(Debug)]
pub struct ChatRequest {
    pub url: String,
    /// The Authorization header.
    pub authorization: String,
    pub model: String,
    /// The messages, in order.
    pub messages: Vec<Message>,
    /// The type of the response format, set for native JSON output.
    pub response_format: Option<String>,
}

/// A message of a chat.
#[derive(Debug)]
pub struct Message {
    pub role: String,
    pub content: String,
}

/// The parsed body of a successful reply.
#[derive(Debug)]
pub struct ChatResponse {
    pub choices: Option<Vec<Choice>>,
    /// The message of the error, if the body holds one.
    pub error: Option<String>,
}

/// One answer.
#[derive(Debug)]
pub struct Choice {
    pub content: Option<String>,
}

// ─── The word that JSON mode asks for ────────────────────────────────────

/// Whether the message holds the word "json", in capitals or not.
pub open spec fn mentions(message: Seq<char>) -> bool {
    text::occurs(text::lower(message), "json"@)
}

/// The system message to send, given both messages in lowercase.
pub open spec fn directed(
    structured: bool,
    system: Seq<char>,
    lower_system: Seq<char>,
    lower_user: Seq<char>,
) -> Seq<char> {
    if structured && !text::occurs(lower_system, "json"@) && !text::occurs(lower_user, "json"@) {
        system + "\nRespond in JSON."@
    } else {
        system
    }
}

/// The system message to send.
pub open spec fn with_json_token(structured: bool, system: Seq<char>, user: Seq<char>) -> Seq<
    char,
> {
    directed(structured, system, text::lower(system), text::lower(user))
}

/// The system message to send, given both messages in lowercase: with a directive
/// behind it if `structured` is on and neither message holds "json".
pub fn add_directive(structured: bool, system: &str, lower_system: &str, lower_user: &str) -> (r:
    String)
    ensures
        r@ == directed(structured, system@, lower_system@, lower_user@),
{
    let mut out = system.to_owned();
    if structured && !contains(lower_system, "json") && !contains(lower_user, "json") {
        out.append("\nRespond in JSON.");
    }
    out
}

/// The message in lowercase. In it stands "json" wherever that word stands in the
/// message, however it is capitalized.
fn lowered(message: &str) -> (r: String)
    ensures
        r@ == text::lower(message@),
        forall|word: Seq<char>|
            is_json_word(word) && #[trigger] text::occurs(message@, word) ==> mentions(message@),
{
    to_lowercase(message)
}

/// Whether the word is "json", in capitals or not.
pub open spec fn is_json_word(word: Seq<char>) -> bool {
    text::all_ascii(word) && text::ascii_lowercase(word) == "json"@
}

/// "json" and "JSON" are the word.
pub proof fn lemma_json_words()
    ensures
        is_json_word("json"@),
        is_json_word("JSON"@),
{
    reveal_strlit("JSON");
    reveal_strlit("json");
    assert(text::ascii_lowercase("JSON"@) =~= "json"@);
    assert(text::ascii_lowercase("json"@) =~= "json"@);
}

/// Guarantee the literal token "json" is present in the messages when
/// `structured` json_object mode is on (OpenAI rejects the request otherwise).
/// Returns the system message to send: the given one when the token is already
/// present in either message (the common case: the structured prompt says
/// "JSON"), or the given one plus a minimal directive when it is absent.
pub fn ensure_json_token(structured: bool, system: &str, user: &str) -> (r: String)
    ensures
        r@ == with_json_token(structured, system@, user@),
        structured ==> mentions(r@) || mentions(user@),
        text::occurs(system@, "JSON"@) || text::occurs(user@, "JSON"@) ==> r@ == system@,
        text::occurs(system@, "json"@) || text::occurs(user@, "json"@) ==> r@ == system@,
        forall|word: Seq<char>|
            is_json_word(word) && #[trigger] text::occurs(system@, word) ==> r@ == system@,
        forall|word: Seq<char>|
            is_json_word(word) && #[trigger] text::occurs(user@, word) ==> r@ == system@,
{
    let lower_system = lowered(system);
    let lower_user = lowered(user);
    let out = add_directive(structured, system, lower_system.as_str(), lower_user.as_str());
    // What was put in counts as the word.
    let _ = lowered(out.as_str());
    proof {
        lemma_json_words();
        if structured && !mentions(system@) && !mentions(user@) {
            reveal_strlit("\nRespond in JSON.");
            reveal_strlit("JSON");
            let directive = "\nRespond in JSON."@;
            let front = system@ + directive.subrange(0, 12);
            let back = directive.subrange(16, 17);
            text::lemma_occurs_in_middle(front, "JSON"@, back);
            assert(out@ =~= front + "JSON"@ + back);
        }
    }
    out
}

/// Where both messages are ASCII and neither holds the word, however capitalized,
/// the directive is added.
pub proof fn law_absent_word_adds_the_directive(system: Seq<char>, user: Seq<char>)
    requires
        text::all_ascii(system),
        text::all_ascii(user),
        forall|word: Seq<char>| is_json_word(word) ==> !#[trigger] text::occurs(system, word),
        forall|word: Seq<char>| is_json_word(word) ==> !#[trigger] text::occurs(user, word),
    ensures
        with_json_token(true, system, user) == system + "\nRespond in JSON."@,
{
    if mentions(system) {
        lemma_ascii_mention(system);
    }
    if mentions(user) {
        lemma_ascii_mention(user);
    }
}

/// An ASCII message mentions the word only where it holds it.
proof fn lemma_ascii_mention(message: Seq<char>)
    requires
        text::all_ascii(message),
        mentions(message),
    ensures
        exists|word: Seq<char>| is_json_word(word) && #[trigger] text::occurs(message, word),
{
    let low = text::ascii_lowercase(message);
    let i = choose|i: int| text::stands_at(low, "json"@, i);
    let word = message.subrange(i, i + "json"@.len());
    assert(text::ascii_lowercase(word) =~= low.subrange(i, i + "json"@.len()));
    assert(text::all_ascii(word)) by {
        assert forall|j: int| 0 <= j < word.len() implies (#[trigger] word[j] as u32) < 128 by {
            assert(word[j] == message[i + j]);
        }
    }
    assert(low.subrange(i, i + "json"@.len()) == "json"@);
    assert(is_json_word(word));
    assert(text::stands_at(message, word, i));
    assert(text::occurs(message, word));
}

// ─── Requests and replies ────────────────────────────────────────────────

/// The request that asks for a completion. In JSON mode its messages hold the word "json".
pub fn complete(model: &str, api_key: &str, system: &str, user: &str, structured: bool) -> (r:
    ChatRequest)
    ensures
        r.url@ == "https://api.openai.com/v1/chat/completions"@,
        r.authorization@ == "Bearer "@ + api_key@,
        r.model@ == model@,
        r.messages@.len() == 2,
        r.messages@[0].role@ == "system"@,
        r.messages@[0].content@ == with_json_token(structured, system@, user@),
        r.messages@[1].role@ == "user"@,
        r.messages@[1].content@ == user@,
        structured ==> mentions(r.messages@[0].content@) || mentions(r.messages@[1].content@),
        text::text_opt(r.response_format) == if structured {
            Some("json_object"@)
        } else {
            None
        },
{
    let mut authorization = "Bearer ".to_owned();
    authorization.append(api_key);
    let mut messages: Vec<Message> = Vec::new();
    messages.push(
        Message {
            role: "system".to_owned(),
            content: ensure_json_token(structured, system, user),
        },
    );
    messages.push(Message { role: "user".to_owned(), content: user.to_owned() });
    ChatRequest {
        url: "https://api.openai.com/v1/chat/completions".to_owned(),
        authorization,
        model: model.to_owned(),
        messages,
        response_format: if structured {
            Some("json_object".to_owned())
        } else {
            None
        },
    }
}

/// Whether the HTTP status code of a reply lets its body be read; if not, what to
/// report.
pub fn check_status(code: u16, status: &str, body: &str) -> (r: Result<(), String>)
    ensures
        match r {
            Ok(_) => 200 <= code < 300,
            Err(m) => !(200 <= code < 300) && m@ == "OpenAI API returned HTTP "@ + status@ + ": "@
                + body@,
        },
{
    check_http("OpenAI API returned HTTP ", code, status, body)
}

/// The content of the first choice; empty if there is none.
pub open spec fn first_content(choices: Option<Vec<Choice>>) -> Seq<char> {
    match choices {
        Some(list) => if list@.len() > 0 {
            match list@[0].content {
                Some(t) => t@,
                None => seq![],
            }
        } else {
            seq![]
        },
        None => seq![],
    }
}

/// What the parsed body of a successful reply says: the content of the first
/// choice, or the error that it reports.
pub fn answer(parsed: &ChatResponse) -> (r: Result<String, String>)
    ensures
        match r {
            Ok(t) => parsed.error is None && t@ == first_content(parsed.choices),
            Err(m) => parsed.error matches Some(e) && m@ == "OpenAI API error: "@ + e@,
        },
{
    if let Some(e) = &parsed.error {
        let mut out = "OpenAI API error: ".to_owned();
        out.append(e.as_str());
        return Err(out);
    }
    if let Some(list) = &parsed.choices {
        if list.len() > 0 {
            if let Some(t) = &list[0].content {
                return Ok(t.clone());
            }
        }
    }
    let empty = String::new();
    assert(empty@ =~= seq![]);
    Ok(empty)
}


/// The answer is the content of the first choice; where that is missing, it is empty.
pub proof fn law_answer_is_the_first_content(list: Vec<Choice>)
    ensures
        first_content(None).len() == 0,
        list@.len() == 0 ==> first_content(Some(list)).len() == 0,
        list@.len() > 0 && list@[0].content is None ==> first_content(Some(list)).len() == 0,
        list@.len() > 0 ==> (list@[0].content matches Some(t) ==> first_content(Some(list)) == t@),
{
}

/// The system message is sent as it is, or with the directive behind it: the latter
/// exactly where JSON is asked for and neither message, in lowercase, holds the word.
pub proof fn law_directive_is_added_where_it_is_missing(
    structured: bool,
    system: Seq<char>,
    user: Seq<char>,
)
    ensures
        !structured ==> with_json_token(structured, system, user) == system,
        text::occurs(text::lower(system), "json"@) ==> with_json_token(structured, system, user)
            == system,
        text::occurs(text::lower(user), "json"@) ==> with_json_token(structured, system, user)
            == system,
        structured && !text::occurs(text::lower(system), "json"@) && !text::occurs(
            text::lower(user),
            "json"@,
        ) ==> with_json_token(structured, system, user) == system + "\nRespond in JSON."@,
{
}


/// The word is four letters long: j, s, o and n, each small or capital, given here by
/// their codes.
pub proof fn law_json_words(word: Seq<char>)
    ensures
        is_json_word(word) <==> word.len() == 4 && (word[0] as u32 == 106 || word[0] as u32 == 74)
            && (word[1] as u32 == 115 || word[1] as u32 == 83) && (word[2] as u32 == 111
            || word[2] as u32 == 79) && (word[3] as u32 == 110 || word[3] as u32 == 78),
{
    reveal_strlit("json");
    let low = text::ascii_lowercase(word);
    assert(low.len() == word.len());
    if word.len() == 4 {
        assert(low[0] == text::ascii_lower(word[0]));
        assert(low[1] == text::ascii_lower(word[1]));
        assert(low[2] == text::ascii_lower(word[2]));
        assert(low[3] == text::ascii_lower(word[3]));
        if is_json_word(word) {
            assert(low[0] == 'j' && low[1] == 's' && low[2] == 'o' && low[3] == 'n');
        }
        if (word[0] as u32 == 106 || word[0] as u32 == 74) && (word[1] as u32 == 115
            || word[1] as u32 == 83) && (word[2] as u32 == 111 || word[2] as u32 == 79) && (
        word[3] as u32 == 110 || word[3] as u32 == 78) {
            vstd::utf8::char_u32_cast(word[0], word[0] as u32);
            vstd::utf8::char_u32_cast(word[1], word[1] as u32);
            vstd::utf8::char_u32_cast(word[2], word[2] as u32);
            vstd::utf8::char_u32_cast(word[3], word[3] as u32);
            assert(low =~= "json"@);
        }
    }
}

} // verus!
