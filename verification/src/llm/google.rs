//! Google's Gemini API: what is sent, and what is read out of a reply.

use vstd::prelude::*;
use vstd::string::*;

use crate::llm::check_http;
use crate::text;

verus! {

/// A request for a completion. The temperature goes with it.
#[derive(Debug)]
pub struct GeminiRequest {
    pub url: String,
    /// The system instruction.
    pub system: String,
    /// The role that the contents speak in.
    pub role: String,
    /// The one part of the contents.
    pub user: String,
    /// Set for native JSON output.
    pub response_mime_type: Option<String>,
}

/// The parsed body of a successful reply.
#[derive(Debug)]
pub struct GeminiResponse {
    pub candidates: Option<Vec<Candidate>>,
    /// The message of the error, if the body holds one.
    pub error: Option<String>,
}

/// One answer, as its parts.
#[derive(Debug)]
pub struct Candidate {
    pub parts: Vec<ResponsePart>,
}

/// One part of an answer.
#[derive(Debug)]
pub struct ResponsePart {
    pub text: Option<String>,
}

/// The request that asks for a completion.
pub fn complete(model: &str, api_key: &str, system: &str, user: &str, structured: bool) -> (r:
    GeminiRequest)
    ensures
        r.url@ == "https://generativelanguage.googleapis.com/v1beta/models/"@ + model@
            + ":generateContent?key="@ + api_key@,
        r.system@ == system@,
        r.role@ == "user"@,
        r.user@ == user@,
        text::text_opt(r.response_mime_type) == if structured {
            Some("application/json"@)
        } else {
            None
        },
{
    let mut url = "https://generativelanguage.googleapis.com/v1beta/models/".to_owned();
    url.append(model);
    url.append(":generateContent?key=");
    url.append(api_key);
    GeminiRequest {
        url,
        system: system.to_owned(),
        role: "user".to_owned(),
        user: user.to_owned(),
        response_mime_type: if structured {
            Some("application/json".to_owned())
        } else {
            None
        },
    }
}

/// Whether the HTTP status code of a reply lets its body be read; if not, what to
/// report.
pub fn check_status(code: u16, status: &str, body: &str) -> (r: Result<(), String>)
    ensures
        match r {
            Ok(_) => 200 <= code < 300,
            Err(m) => !(200 <= code < 300) && m@ == "Gemini API returned HTTP "@ + status@ + ": "@
                + body@,
        },
{
    check_http("Gemini API returned HTTP ", code, status, body)
}

/// The text of the first part of the first candidate; empty if there is none.
pub open spec fn first_text(candidates: Option<Vec<Candidate>>) -> Seq<char> {
    match candidates {
        Some(list) => if list@.len() > 0 && list@[0].parts@.len() > 0 {
            match list@[0].parts@[0].text {
                Some(t) => t@,
                None => seq![],
            }
        } else {
            seq![]
        },
        None => seq![],
    }
}

/// What the parsed body of a successful reply says: the text of the first part of
/// the first candidate, or the error that it reports.
pub fn answer(parsed: &GeminiResponse) -> (r: Result<String, String>)
    ensures
        match r {
            Ok(t) => parsed.error is None && t@ == first_text(parsed.candidates),
            Err(m) => parsed.error matches Some(e) && m@ == "Gemini API error: "@ + e@,
        },
{
    if let Some(e) = &parsed.error {
        let mut out = "Gemini API error: ".to_owned();
        out.append(e.as_str());
        return Err(out);
    }
    if let Some(list) = &parsed.candidates {
        if list.len() > 0 && list[0].parts.len() > 0 {
            if let Some(t) = &list[0].parts[0].text {
                return Ok(t.clone());
            }
        }
    }
    let empty = String::new();
    assert(empty@ =~= seq![]);
    Ok(empty)
}


/// The answer is the text of the first part of the first candidate; where any of that
/// is missing, it is empty.
pub proof fn law_answer_is_the_first_text(list: Vec<Candidate>)
    ensures
        first_text(None).len() == 0,
        list@.len() == 0 ==> first_text(Some(list)).len() == 0,
        list@.len() > 0 && list@[0].parts@.len() == 0 ==> first_text(Some(list)).len() == 0,
        list@.len() > 0 && list@[0].parts@.len() > 0 && list@[0].parts@[0].text is None
            ==> first_text(Some(list)).len() == 0,
        list@.len() > 0 && list@[0].parts@.len() > 0 ==> (list@[0].parts@[0].text matches Some(t)
            ==> first_text(Some(list)) == t@),
{
}

} // verus!
