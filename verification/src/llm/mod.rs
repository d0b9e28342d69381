//! The language model client: its settings, its choice of provider, and how it
//! goes through its keys.

use vstd::prelude::*;
use vstd::string::*;

use crate::config::LlmConfig;
use crate::rotation;
use crate::rotation::PassStep;
use crate::rotation::PassesView;
use crate::rotation::TwoPasses;
use crate::text;
use crate::text::clone_strings;
use crate::text::same_text;

pub mod google;
pub mod openai;

verus! {

/// The settings of a language model client. Requests go through the keys in turn.
#[derive(Debug)]
pub struct LlmClient {
    provider: String,
    model: String,
    api_keys: Vec<String>,
    use_structured_output: bool,
}

/// The model of an [`LlmClient`].
#[verifier::ext_equal]
pub struct LlmView {
    pub provider: Seq<char>,
    pub model: Seq<char>,
    pub api_keys: Seq<Seq<char>>,
    pub use_structured_output: bool,
}

impl View for LlmClient {
    type V = LlmView;

    closed spec fn view(&self) -> LlmView {
        LlmView {
            provider: self.provider@,
            model: self.model@,
            api_keys: text::texts(self.api_keys@),
            use_structured_output: self.use_structured_output,
        }
    }
}

impl Clone for LlmClient {
    fn clone(&self) -> (r: Self)
        ensures
            r@ == self@,
    {
        LlmClient {
            provider: self.provider.clone(),
            model: self.model.clone(),
            api_keys: clone_strings(&self.api_keys),
            use_structured_output: self.use_structured_output,
        }
    }
}

/// Whether the provider has a native JSON output mode.
pub open spec fn has_json_mode(provider: Seq<char>) -> bool {
    provider == "google"@ || provider == "openai"@
}

/// Whether `provider` has a native JSON output mode the reranker can request.
/// Anything not listed here uses the XML tag-wrapping path regardless of the
/// `use_structured_output` setting.
pub fn provider_supports_structured_output(provider: &str) -> (r: bool)
    ensures
        r == has_json_mode(provider@),
{
    same_text(provider, "google") || same_text(provider, "openai")
}

/// The providers that can be called.
#[derive(Debug, Clone, Copy, PartialEq, Eq, Structural)]
pub enum Provider {
    Google,
    OpenAi,
}

impl LlmClient {
    /// There is a key.
    pub open spec fn wf(&self) -> bool {
        self@.api_keys.len() > 0
    }

    /// Create a new client. Returns `None` if `api_keys` is empty.
    pub fn new(config: &LlmConfig) -> (r: Option<Self>)
        ensures
            match r {
                Some(c) => config.api_keys@.len() > 0 && c.wf() && c@ == (LlmView {
                    provider: config.provider@,
                    model: config.rerank_model@,
                    api_keys: text::texts(config.api_keys@),
                    use_structured_output: config.use_structured_output,
                }),
                None => config.api_keys@.len() == 0,
            },
    {
        if config.api_keys.len() == 0 {
            return None;
        }
        let api_keys = clone_strings(&config.api_keys);
        assert(text::texts(api_keys@).len() == text::texts(config.api_keys@).len());
        Some(
            LlmClient {
                provider: config.provider.clone(),
                model: config.rerank_model.clone(),
                api_keys,
                use_structured_output: config.use_structured_output,
            },
        )
    }

    /// The model that is asked.
    pub fn model(&self) -> (r: &str)
        ensures
            r@ == self@.model,
    {
        self.model.as_str()
    }

    /// The key of the given number.
    pub fn key(&self, index: usize) -> (r: &str)
        requires
            index < self@.api_keys.len(),
        ensures
            r@ == self@.api_keys[index as int],
    {
        self.api_keys[index].as_str()
    }

    /// Whether this client will request native JSON output for reranking.
    /// True only when the setting is enabled AND the provider supports it.
    pub fn structured_output_active(&self) -> (r: bool)
        ensures
            r == (self@.use_structured_output && has_json_mode(self@.provider)),
    {
        self.use_structured_output && provider_supports_structured_output(self.provider.as_str())
    }

    /// The provider to call, or what to report if there is none of that name.
    pub fn call_provider(&self) -> (r: Result<Provider, String>)
        ensures
            match r {
                Ok(Provider::Google) => self@.provider == "google"@,
                Ok(Provider::OpenAi) => self@.provider == "openai"@,
                Err(m) => !has_json_mode(self@.provider) && m@ == "unsupported LLM provider: "@
                    + self@.provider,
            },
    {
        proof {
            reveal_strlit("google");
            reveal_strlit("openai");
            assert("google"@[0] != "openai"@[0]);
        }
        if same_text(self.provider.as_str(), "google") {
            Ok(Provider::Google)
        } else if same_text(self.provider.as_str(), "openai") {
            Ok(Provider::OpenAi)
        } else {
            let mut out = "unsupported LLM provider: ".to_owned();
            out.append(self.provider.as_str());
            Err(out)
        }
    }

    /// The provider's name.
    pub fn provider(&self) -> (r: &str)
        ensures
            r@ == self@.provider,
    {
        self.provider.as_str()
    }

    /// Starts a completion; the shared cursor stood at `cursor`. The run rotates
    /// through all keys on failure; backs off 2 s and retries once more before
    /// returning the last error.
    pub fn complete(&self, cursor: usize) -> (r: CompletionRun)
        requires
            self.wf(),
        ensures
            r@.wf(),
            r@.trying(),
            r@ == rotation::passes_after(
                self@.api_keys.len() as int,
                cursor as int % self@.api_keys.len() as int,
                0,
            ),
            r@.n_keys == self@.api_keys.len(),
    {
        CompletionRun { passes: TwoPasses::new(cursor, self.api_keys.len()) }
    }
}

// ─── One completion ──────────────────────────────────────────────────────

/// A completion: each key is tried once; if all fail, once more after a pause.
#[derive(Debug)]
pub struct CompletionRun {
    passes: TwoPasses,
}

impl View for CompletionRun {
    type V = PassesView;

    closed spec fn view(&self) -> PassesView {
        self.passes@
    }
}

/// What to do next for a completion: `T` is an answer, `E` an error.
pub enum CompletionAction<T, E> {
    /// Call the provider with this key.
    TryKey(usize),
    /// Wait this many seconds.
    Sleep(u64),
    Return(Result<T, E>),
}

impl CompletionRun {
    /// The key to try first.
    pub fn first_key(&self) -> (r: usize)
        requires
            self@.wf(),
            self@.trying(),
        ensures
            r == self@.key(),
            r < self@.n_keys,
    {
        self.passes.key()
    }

    /// What to do after the provider was called with the current key. An answer
    /// ends the run; any error makes it go on, up to the last key of the second
    /// pass, whose error is returned.
    pub fn on_reply<T, E>(&mut self, reply: Result<T, E>) -> (r: CompletionAction<T, E>)
        requires
            old(self)@.wf(),
            old(self)@.trying(),
        ensures
            final(self)@.wf(),
            r matches CompletionAction::TryKey(k) ==> k < old(self)@.n_keys,
            match reply {
                Ok(_) => final(self)@ == old(self)@ && r == CompletionAction::Return(reply),
                Err(_) => final(self)@ == old(self)@.failed() && r == match old(self)@.step() {
                    PassStep::TryKey(k) => CompletionAction::TryKey(k),
                    PassStep::Sleep(secs) => CompletionAction::Sleep(secs),
                    PassStep::Exhausted => CompletionAction::Return(reply),
                },
            },
    {
        match reply {
            Ok(answer) => CompletionAction::Return(Ok(answer)),
            Err(e) => match self.passes.on_failure() {
                PassStep::TryKey(k) => CompletionAction::TryKey(k),
                PassStep::Sleep(secs) => CompletionAction::Sleep(secs),
                PassStep::Exhausted => CompletionAction::Return(Err(e)),
            },
        }
    }

    /// The key to try first after the pause.
    pub fn on_rested(&mut self) -> (r: usize)
        requires
            old(self)@.wf(),
        ensures
            final(self)@.wf(),
            final(self)@.trying(),
            final(self)@ == old(self)@.rested(),
            r == final(self)@.key(),
            r < final(self)@.n_keys,
    {
        self.passes.on_rested()
    }
}

// ─── Replies ─────────────────────────────────────────────────────────────

/// Whether the HTTP status code of a reply lets its body be read; if not, what to
/// report, which starts with `lead`.
pub(crate) fn check_http(lead: &str, code: u16, status: &str, body: &str) -> (r: Result<
    (),
    String,
>)
    ensures
        match r {
            Ok(_) => 200 <= code < 300,
            Err(m) => !(200 <= code < 300) && m@ == lead@ + status@ + ": "@ + body@,
        },
{
    if 200 <= code && code < 300 {
        Ok(())
    } else {
        let mut out = lead.to_owned();
        out.append(status);
        out.append(": ");
        out.append(body);
        Err(out)
    }
}


/// Only `google` and `openai` have a native JSON mode.
pub proof fn law_providers_with_a_json_mode(provider: Seq<char>)
    ensures
        has_json_mode("google"@),
        has_json_mode("openai"@),
        provider != "google"@ && provider != "openai"@ ==> !has_json_mode(provider),
{
}

} // verus!
