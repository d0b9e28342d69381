//! The embedding client: its settings, its requests, and how it goes through its
//! keys.

use vstd::prelude::*;
use vstd::string::*;

use crate::config::EmbeddingConfig;
use crate::config::RerankConfig;
use crate::embedding::batches;
use crate::embedding::batches::split_batches;
use crate::embedding::InputType;
use crate::rotation;
use crate::rotation::key_index;
use crate::rotation::start_key;
use crate::rotation::PassStep;
use crate::rotation::PassesView;
use crate::rotation::TwoPasses;
use crate::text;
use crate::text::clone_range;
use crate::text::clone_strings;
use crate::text::ends_with;
use crate::text::same_text;
use crate::text::trim;
use crate::text::trim_end_char;

verus! {

/// The most texts that any provider takes in one request.
pub const MAX_BATCH_SIZE: usize = 128;

// ─── Endpoint ────────────────────────────────────────────────────────────

/// The embeddings endpoint for a base URL.
pub open spec fn endpoint_of(base: Seq<char>) -> Seq<char> {
    let bare = text::drop_back(text::trimmed(base), '/');
    if text::has_suffix(bare, "/embeddings"@) {
        bare
    } else {
        bare + "/embeddings"@
    }
}

/// Normalize a user-supplied base URL into a full embeddings endpoint.
/// Accepts the base form (`http://host:1234/v1`, with or without trailing
/// slash) or the full `…/embeddings` URL.
pub fn embeddings_url(base: &str) -> (r: String)
    ensures
        r@ == endpoint_of(base@),
{
    let bare = trim_end_char(trim(base).as_str(), '/');
    if ends_with(bare.as_str(), "/embeddings") {
        bare
    } else {
        let mut out = bare;
        out.append("/embeddings");
        out
    }
}

// ─── Client ───────────────────────────────────────────────────────────────

/// The settings of an embedding client. Requests go through the keys in turn.
#[derive(Debug)]
pub struct VoyageClient {
    model: String,
    api_keys: Vec<String>,
    /// Embeddings endpoint URL: Voyage's official one, or any OpenAI-compatible
    /// `…/v1/embeddings`.
    endpoint: String,
    /// Voyage accepts an `input_type` hint (document vs query); OpenAI-compatible
    /// servers don't, so the field is omitted there.
    send_input_type: bool,
    /// Whether an empty key is sent as an empty bearer token; it is sent as none
    /// otherwise.
    send_empty_bearer: bool,
    /// Max texts per request.
    batch_size: usize,
}

/// The model of a [`VoyageClient`].
#[verifier::ext_equal]
pub struct ClientView {
    pub model: Seq<char>,
    pub api_keys: Seq<Seq<char>>,
    pub endpoint: Seq<char>,
    pub send_input_type: bool,
    pub send_empty_bearer: bool,
    pub batch_size: nat,
}

/// Why there is no client for some settings.
#[derive(Debug, Clone, Copy, PartialEq, Eq, Structural)]
pub enum ClientError {
    /// The list of keys is empty.
    NoApiKey,
    /// An OpenAI-compatible provider is set without a base URL.
    NoBaseUrl,
    /// The reranker is set without a base URL.
    NoRerankBaseUrl,
}

impl ClientError {
    /// What the error says.
    pub open spec fn text(self) -> Seq<char> {
        match self {
            ClientError::NoApiKey => "embedding client requires at least one API key"@,
            ClientError::NoBaseUrl =>
                "embedding provider 'openai' requires base_url (e.g. http://host:1234/v1)"@,
            ClientError::NoRerankBaseUrl =>
                "rerank requires base_url (e.g. http://host:1234/v1)"@,
        }
    }

    /// What the error says.
    pub fn message(&self) -> (r: String)
        ensures
            r@ == self.text(),
    {
        match self {
            ClientError::NoApiKey => "embedding client requires at least one API key".to_owned(),
            ClientError::NoBaseUrl =>
                "embedding provider 'openai' requires base_url (e.g. http://host:1234/v1)".to_owned(),
            ClientError::NoRerankBaseUrl =>
                "rerank requires base_url (e.g. http://host:1234/v1)".to_owned(),
        }
    }
}

/// The base URL that is set, trimmed; `None` if nothing but white space is.
pub open spec fn base_of(base_url: Option<Seq<char>>) -> Option<Seq<char>> {
    match base_url {
        Some(u) => if text::trimmed(u).len() > 0 {
            Some(text::trimmed(u))
        } else {
            None
        },
        None => None,
    }
}

fn configured_base(base_url: &Option<String>) -> (r: Option<String>)
    ensures
        text::text_opt(r) == base_of(text::text_opt(*base_url)),
{
    match base_url {
        Some(u) => {
            let t = trim(u.as_str());
            if t.as_str().is_empty() {
                None
            } else {
                Some(t)
            }
        },
        None => None,
    }
}

/// The keys that are set, or one empty key if there are none.
pub open spec fn keys_or_empty(keys: Seq<Seq<char>>) -> Seq<Seq<char>> {
    if keys.len() == 0 {
        seq![seq![]]
    } else {
        keys
    }
}

fn keys_or_one_empty(keys: &Vec<String>) -> (r: Vec<String>)
    ensures
        text::texts(r@) == keys_or_empty(text::texts(keys@)),
{
    if keys.len() == 0 {
        let mut out: Vec<String> = Vec::new();
        out.push(String::new());
        assert(text::texts(out@) =~= seq![seq![]]);
        out
    } else {
        clone_strings(keys)
    }
}

impl View for VoyageClient {
    type V = ClientView;

    closed spec fn view(&self) -> ClientView {
        ClientView {
            model: self.model@,
            api_keys: text::texts(self.api_keys@),
            endpoint: self.endpoint@,
            send_input_type: self.send_input_type,
            send_empty_bearer: self.send_empty_bearer,
            batch_size: self.batch_size as nat,
        }
    }
}

impl Clone for VoyageClient {
    fn clone(&self) -> (r: Self)
        ensures
            r@ == self@,
    {
        VoyageClient {
            model: self.model.clone(),
            api_keys: clone_strings(&self.api_keys),
            endpoint: self.endpoint.clone(),
            send_input_type: self.send_input_type,
            send_empty_bearer: self.send_empty_bearer,
            batch_size: self.batch_size,
        }
    }
}

/// The client for an embedding configuration, or why there is none.
pub open spec fn client_of_config(
    provider: Seq<char>,
    model: Seq<char>,
    base_url: Option<Seq<char>>,
    api_keys: Seq<Seq<char>>,
    embed_batch_size: nat,
) -> Result<ClientView, ClientError> {
    let batch_size = if embed_batch_size < 1 {
        1
    } else if embed_batch_size > MAX_BATCH_SIZE {
        MAX_BATCH_SIZE as nat
    } else {
        embed_batch_size
    };
    if provider == "openai"@ && base_of(base_url) is None {
        Err(ClientError::NoBaseUrl)
    } else if api_keys.len() == 0 {
        Err(ClientError::NoApiKey)
    } else if provider == "openai"@ {
        Ok(
            ClientView {
                model,
                api_keys,
                endpoint: endpoint_of(base_of(base_url)->0),
                send_input_type: false,
                send_empty_bearer: false,
                batch_size,
            },
        )
    } else {
        Ok(
            ClientView {
                model,
                api_keys,
                endpoint: "https://api.voyageai.com/v1/embeddings"@,
                send_input_type: true,
                send_empty_bearer: false,
                batch_size,
            },
        )
    }
}

/// The model of what a constructor returns.
pub open spec fn client_result(r: Result<VoyageClient, ClientError>) -> Result<
    ClientView,
    ClientError,
> {
    match r {
        Ok(c) => Ok(c@),
        Err(e) => Err(e),
    }
}

impl VoyageClient {
    /// There is a key, and a batch holds at least one text.
    pub open spec fn wf(&self) -> bool {
        self@.api_keys.len() > 0 && self@.batch_size > 0
    }

    /// Create a client from the embedding settings. Returns `Err` if `api_keys`
    /// is empty. `provider == "openai"` (with `base_url`) targets any
    /// OpenAI-compatible /v1/embeddings endpoint; anything else is Voyage.
    pub fn from_config(config: &EmbeddingConfig) -> (r: Result<Self, ClientError>)
        ensures
            r matches Ok(c) ==> c.wf(),
            client_result(r) == client_of_config(
                config.provider@,
                config.model@,
                text::text_opt(config.base_url),
                text::texts(config.api_keys@),
                config.embed_batch_size as nat,
            ),
    {
        let openai = same_text(config.provider.as_str(), "openai");
        let batch_size: usize = if config.embed_batch_size < 1 {
            1
        } else if config.embed_batch_size > MAX_BATCH_SIZE {
            MAX_BATCH_SIZE
        } else {
            config.embed_batch_size
        };
        if openai {
            match configured_base(&config.base_url) {
                Some(base) => Self::with_endpoint(
                    config.model.clone(),
                    clone_strings(&config.api_keys),
                    embeddings_url(base.as_str()),
                    false,
                    false,
                    batch_size,
                ),
                None => Err(ClientError::NoBaseUrl),
            }
        } else {
            Self::with_endpoint(
                config.model.clone(),
                clone_strings(&config.api_keys),
                "https://api.voyageai.com/v1/embeddings".to_owned(),
                true,
                false,
                batch_size,
            )
        }
    }

    /// A client for the official Voyage endpoint.
    pub fn new(model: String, api_keys: Vec<String>) -> (r: Result<Self, ClientError>)
        ensures
            r matches Ok(c) ==> c.wf(),
            client_result(r) == if api_keys@.len() == 0 {
                Err(ClientError::NoApiKey)
            } else {
                Ok(
                    ClientView {
                        model: model@,
                        api_keys: text::texts(api_keys@),
                        endpoint: "https://api.voyageai.com/v1/embeddings"@,
                        send_input_type: true,
                        send_empty_bearer: false,
                        batch_size: MAX_BATCH_SIZE as nat,
                    },
                )
            },
    {
        Self::with_endpoint(
            model,
            api_keys,
            "https://api.voyageai.com/v1/embeddings".to_owned(),
            true,
            false,
            MAX_BATCH_SIZE,
        )
    }

    /// Client for the embedding-similarity reranker (any OpenAI-compatible
    /// /v1/embeddings server). Unlike the main embedding client, API keys may be
    /// empty (local servers often run without auth), in which case requests carry
    /// an empty bearer token. Some gateways cap embeddings input at 10, so that is
    /// the batch size.
    pub fn from_rerank_config(config: &RerankConfig) -> (r: Result<Self, ClientError>)
        ensures
            r matches Ok(c) ==> c.wf(),
            client_result(r) == match base_of(text::text_opt(config.base_url)) {
                Some(base) => Ok(
                    ClientView {
                        model: config.model@,
                        api_keys: keys_or_empty(text::texts(config.api_keys@)),
                        endpoint: endpoint_of(base),
                        send_input_type: false,
                        send_empty_bearer: config.api_keys@.len() == 0,
                        batch_size: 10,
                    },
                ),
                None => Err(ClientError::NoRerankBaseUrl),
            },
    {
        match configured_base(&config.base_url) {
            Some(base) => Self::with_endpoint(
                config.model.clone(),
                keys_or_one_empty(&config.api_keys),
                embeddings_url(base.as_str()),
                false,
                config.api_keys.len() == 0,
                10,
            ),
            None => Err(ClientError::NoRerankBaseUrl),
        }
    }

    fn with_endpoint(
        model: String,
        api_keys: Vec<String>,
        endpoint: String,
        send_input_type: bool,
        send_empty_bearer: bool,
        batch_size: usize,
    ) -> (r: Result<Self, ClientError>)
        ensures
            r matches Ok(c) ==> c.wf(),
            client_result(r) == if text::texts(api_keys@).len() == 0 {
                Err(ClientError::NoApiKey)
            } else {
                Ok(
                    ClientView {
                        model: model@,
                        api_keys: text::texts(api_keys@),
                        endpoint: endpoint@,
                        send_input_type,
                        send_empty_bearer,
                        batch_size: if batch_size == 0 {
                            1
                        } else {
                            batch_size as nat
                        },
                    },
                )
            },
    {
        if api_keys.len() == 0 {
            return Err(ClientError::NoApiKey);
        }
        let size: usize = if batch_size < 1 {
            1
        } else {
            batch_size
        };
        Ok(
            VoyageClient {
                model,
                api_keys,
                endpoint,
                send_input_type,
                send_empty_bearer,
                batch_size: size,
            },
        )
    }

    /// Return the configured embedding model name.
    pub fn model(&self) -> (r: &str)
        ensures
            r@ == self@.model,
    {
        self.model.as_str()
    }
}

// ─── Requests and replies ────────────────────────────────────────────────

/// A request for embeddings.
#[derive(Debug)]
pub struct EmbedRequest {
    pub endpoint: String,
    pub model: String,
    /// The texts to embed.
    pub input: Vec<String>,
    /// Voyage-specific; omitted for OpenAI-compatible endpoints.
    pub input_type: Option<String>,
    /// The bearer token; without one there is no Authorization header.
    /// Unauthenticated local servers reject malformed tokens rather than ignoring
    /// them, so an empty key gives none.
    pub bearer: Option<String>,
}

/// The model of an [`EmbedRequest`].
#[verifier::ext_equal]
pub struct EmbedRequestView {
    pub endpoint: Seq<char>,
    pub model: Seq<char>,
    pub input: Seq<Seq<char>>,
    pub input_type: Option<Seq<char>>,
    pub bearer: Option<Seq<char>>,
}

impl View for EmbedRequest {
    type V = EmbedRequestView;

    open spec fn view(&self) -> EmbedRequestView {
        EmbedRequestView {
            endpoint: self.endpoint@,
            model: self.model@,
            input: text::texts(self.input@),
            input_type: text::text_opt(self.input_type),
            bearer: text::text_opt(self.bearer),
        }
    }
}

impl ClientView {
    /// The request that embeds `input` with the key of the given number. The input
    /// type goes with it where the provider knows it, and the key as bearer token,
    /// unless it is empty and is not to be sent then.
    pub open spec fn request_for(
        self,
        key: int,
        input: Seq<Seq<char>>,
        input_type: InputType,
    ) -> EmbedRequestView {
        EmbedRequestView {
            endpoint: self.endpoint,
            model: self.model,
            input,
            input_type: if self.send_input_type {
                Some(input_type.name())
            } else {
                None
            },
            bearer: if self.api_keys[key].len() > 0 || self.send_empty_bearer {
                Some(self.api_keys[key])
            } else {
                None
            },
        }
    }
}

/// What the status of a reply means.
#[derive(Debug, Clone, Copy, PartialEq, Eq, Structural)]
pub enum ReplyKind {
    Success,
    RateLimited,
    Failed,
}

/// What the HTTP status code of a reply means.
pub open spec fn kind_of_status(code: u16) -> ReplyKind {
    if code == 429 {
        ReplyKind::RateLimited
    } else if 200 <= code < 300 {
        ReplyKind::Success
    } else {
        ReplyKind::Failed
    }
}

/// What the HTTP status code of a reply means.
pub fn classify_status(code: u16) -> (r: ReplyKind)
    ensures
        r == kind_of_status(code),
{
    if code == 429 {
        ReplyKind::RateLimited
    } else if 200 <= code && code < 300 {
        ReplyKind::Success
    } else {
        ReplyKind::Failed
    }
}

/// What to report of a reply that failed, by its status and its body.
pub fn failure_message(status: &str, body: &str) -> (r: String)
    ensures
        r@ == "embedding API error "@ + status@ + ": "@ + body@,
{
    let mut out = "embedding API error ".to_owned();
    out.append(status);
    out.append(": ");
    out.append(body);
    out
}

/// What came back for one request: embeddings of type `V`, or an error of type `E`.
pub enum EmbedReply<V, E> {
    Embeddings(Vec<V>),
    RateLimited,
    Failed(E),
}

// ─── One query ───────────────────────────────────────────────────────────

/// Embedding a query: each key is tried once; if all are rate-limited, once more
/// after a pause.
#[derive(Debug)]
pub struct QueryRun {
    passes: TwoPasses,
}

impl View for QueryRun {
    type V = PassesView;

    closed spec fn view(&self) -> PassesView {
        self.passes@
    }
}

/// Why a query was not embedded.
pub enum QueryError<E> {
    /// The reply held no embedding.
    Empty,
    /// All keys were rate-limited, also after the pause.
    StillRateLimited,
    Failed(E),
}

impl<E> QueryError<E> {
    /// What the library has to say of the error; `None` where the request itself
    /// failed.
    pub fn message(&self) -> (r: Option<String>)
        ensures
            text::text_opt(r) == match self {
                QueryError::Empty => Some("embedding API returned empty embeddings"@),
                QueryError::StillRateLimited => Some(
                    "embedding API query embed still rate-limited after backoff"@,
                ),
                QueryError::Failed(_) => None,
            },
    {
        match self {
            QueryError::Empty => Some("embedding API returned empty embeddings".to_owned()),
            QueryError::StillRateLimited => Some(
                "embedding API query embed still rate-limited after backoff".to_owned(),
            ),
            QueryError::Failed(_) => None,
        }
    }
}

/// What to do next for a query.
pub enum QueryAction<V, E> {
    /// Send the request with this key.
    TryKey(usize),
    /// Wait this many seconds.
    Sleep(u64),
    Return(Result<V, QueryError<E>>),
}

impl QueryRun {
    /// The key to try first.
    pub fn first_key(&self) -> (r: usize)
        requires
            self@.wf(),
            self@.trying(),
        ensures
            r == self@.key(),
            r < self@.n_keys,
    {
        self.passes.key()
    }

    /// What to do after the reply to the request with the current key. The last
    /// embedding of a reply is the query's. Only a rate limit makes the run go on.
    pub fn on_reply<V, E>(&mut self, reply: EmbedReply<V, E>) -> (r: QueryAction<V, E>)
        requires
            old(self)@.wf(),
            old(self)@.trying(),
        ensures
            final(self)@.wf(),
            r matches QueryAction::TryKey(k) ==> k < old(self)@.n_keys,
            match reply {
                EmbedReply::Embeddings(v) => final(self)@ == old(self)@ && r == QueryAction::<
                    V,
                    E,
                >::Return(
                    if v@.len() > 0 {
                        Ok(v@.last())
                    } else {
                        Err(QueryError::Empty)
                    },
                ),
                EmbedReply::Failed(e) => final(self)@ == old(self)@ && r == QueryAction::<
                    V,
                    E,
                >::Return(Err(QueryError::Failed(e))),
                EmbedReply::RateLimited => final(self)@ == old(self)@.failed() && r == match old(self)@.step() {
                    PassStep::TryKey(k) => QueryAction::<V, E>::TryKey(k),
                    PassStep::Sleep(secs) => QueryAction::<V, E>::Sleep(secs),
                    PassStep::Exhausted => QueryAction::<V, E>::Return(
                        Err(QueryError::StillRateLimited),
                    ),
                },
            },
    {
        match reply {
            EmbedReply::Embeddings(v) => {
                let mut v = v;
                match v.pop() {
                    Some(e) => QueryAction::Return(Ok(e)),
                    None => QueryAction::Return(Err(QueryError::Empty)),
                }
            },
            EmbedReply::Failed(e) => QueryAction::Return(Err(QueryError::Failed(e))),
            EmbedReply::RateLimited => match self.passes.on_failure() {
                PassStep::TryKey(k) => QueryAction::TryKey(k),
                PassStep::Sleep(secs) => QueryAction::Sleep(secs),
                PassStep::Exhausted => QueryAction::Return(Err(QueryError::StillRateLimited)),
            },
        }
    }

    /// The key to try first after the pause.
    pub fn on_rested(&mut self) -> (r: usize)
        requires
            old(self)@.wf(),
        ensures
            final(self)@.wf(),
            final(self)@.trying(),
            final(self)@ == old(self)@.rested(),
            r == final(self)@.key(),
            r < final(self)@.n_keys,
    {
        self.passes.on_rested()
    }
}

// ─── One batch ───────────────────────────────────────────────────────────

/// Embedding one batch: the keys are tried in turn, and as long as all of them
/// are rate-limited, again after ever longer pauses.
#[derive(Debug)]
pub struct RequestRun {
    n_keys: usize,
    /// The key that is tried first.
    start: usize,
    /// How many keys have been tried in this pass.
    offset: usize,
    /// Seconds of the next pause.
    delay: u64,
}

/// The model of a [`RequestRun`].
#[verifier::ext_equal]
pub struct RequestRunView {
    pub n_keys: int,
    pub start: int,
    pub offset: int,
    pub delay: u64,
}

impl View for RequestRun {
    type V = RequestRunView;

    closed spec fn view(&self) -> RequestRunView {
        RequestRunView {
            n_keys: self.n_keys as int,
            start: self.start as int,
            offset: self.offset as int,
            delay: self.delay,
        }
    }
}

/// What to do next for a batch.
pub enum RequestAction<V, E> {
    /// Send the request with this key.
    TryKey(usize),
    /// Wait this many seconds.
    Sleep(u64),
    Return(Result<Vec<V>, E>),
}

/// The pause after a pause of `delay` seconds: twice as long, a minute at most.
pub open spec fn next_delay(delay: u64) -> u64 {
    if delay * 2 < 60 {
        (delay * 2) as u64
    } else {
        60
    }
}

impl RequestRunView {
    /// There are keys, the counters are within them, and no pause is longer than
    /// a minute.
    pub open spec fn wf(self) -> bool {
        0 <= self.start < self.n_keys && 0 <= self.offset <= self.n_keys && self.delay <= 60
    }

    /// Whether a key is being tried.
    pub open spec fn trying(self) -> bool {
        self.offset < self.n_keys
    }

    /// The key that is being tried.
    pub open spec fn key(self) -> int {
        rotation::key_at(self.start, self.offset, self.n_keys)
    }

    /// The run when one more key was found to be rate-limited. After the last one
    /// the next pause is set.
    pub open spec fn limited(self) -> RequestRunView {
        RequestRunView {
            offset: self.offset + 1,
            delay: if self.offset + 1 == self.n_keys {
                next_delay(self.delay)
            } else {
                self.delay
            },
            ..self
        }
    }

    /// The run after a pause.
    pub open spec fn rested(self) -> RequestRunView {
        RequestRunView { offset: 0, ..self }
    }
}

impl RequestRun {
    /// The key to try first.
    pub fn first_key(&self) -> (r: usize)
        requires
            self@.wf(),
            self@.trying(),
        ensures
            r == self@.key(),
            r < self@.n_keys,
    {
        key_index(self.start, self.offset, self.n_keys)
    }

    /// What to do after the reply to the request with the current key. An error
    /// other than a rate limit ends the run.
    pub fn on_reply<V, E>(&mut self, reply: EmbedReply<V, E>) -> (r: RequestAction<V, E>)
        requires
            old(self)@.wf(),
            old(self)@.trying(),
        ensures
            final(self)@.wf(),
            r matches RequestAction::TryKey(k) ==> k < old(self)@.n_keys,
            match reply {
                EmbedReply::Embeddings(v) => final(self)@ == old(self)@ && r == RequestAction::<
                    V,
                    E,
                >::Return(Ok(v)),
                EmbedReply::Failed(e) => final(self)@ == old(self)@ && r == RequestAction::<
                    V,
                    E,
                >::Return(Err(e)),
                EmbedReply::RateLimited => final(self)@ == old(self)@.limited() && r == if final(self)@.trying() {
                    RequestAction::<V, E>::TryKey(final(self)@.key() as usize)
                } else {
                    RequestAction::<V, E>::Sleep(old(self)@.delay)
                },
            },
    {
        match reply {
            EmbedReply::Embeddings(v) => RequestAction::Return(Ok(v)),
            EmbedReply::Failed(e) => RequestAction::Return(Err(e)),
            EmbedReply::RateLimited => {
                self.offset = self.offset + 1;
                if self.offset < self.n_keys {
                    RequestAction::TryKey(key_index(self.start, self.offset, self.n_keys))
                } else {
                    let pause: u64 = self.delay;
                    self.delay = if pause * 2 < 60 {
                        pause * 2
                    } else {
                        60
                    };
                    RequestAction::Sleep(pause)
                }
            },
        }
    }

    /// The key to try first after a pause.
    pub fn on_rested(&mut self) -> (r: usize)
        requires
            old(self)@.wf(),
        ensures
            final(self)@.wf(),
            final(self)@.trying(),
            final(self)@ == old(self)@.rested(),
            r == final(self)@.key(),
            r < final(self)@.n_keys,
    {
        self.offset = 0;
        key_index(self.start, self.offset, self.n_keys)
    }
}

/// The seconds of the pause with the number `k`, counted from zero.
pub open spec fn pause(k: nat) -> u64
    decreases k,
{
    if k == 0 {
        2
    } else {
        next_delay(pause((k - 1) as nat))
    }
}

/// The pauses double from two seconds on, up to a minute.
pub proof fn law_pauses_double_up_to_a_minute(k: nat)
    ensures
        pause(k) == if vstd::arithmetic::power2::pow2(k + 1) < 60 {
            vstd::arithmetic::power2::pow2(k + 1)
        } else {
            60
        },
    decreases k,
{
    vstd::arithmetic::power2::lemma2_to64();
    if k > 0 {
        law_pauses_double_up_to_a_minute((k - 1) as nat);
        vstd::arithmetic::power2::lemma_pow2_unfold(k + 1);
    }
}

/// The run when `i` requests were answered with a rate limit and no other way,
/// and the pauses are over.
pub open spec fn request_after_limits(n_keys: int, start: int, i: nat) -> RequestRunView
    decreases i,
{
    if i == 0 {
        RequestRunView { n_keys, start, offset: 0, delay: 2 }
    } else {
        let run = request_after_limits(n_keys, start, (i - 1) as nat).limited();
        if run.offset == n_keys {
            run.rested()
        } else {
            run
        }
    }
}

/// As long as every reply is a rate limit, a batch goes through all keys in turn,
/// pass after pass, each time in the same order, with a pause after each pass;
/// the pause after pass number `p` has the length of that number.
pub proof fn law_batch_retries_forever(n_keys: int, start: int, p: nat, offset: nat)
    requires
        0 <= start < n_keys,
        offset < n_keys,
    ensures
        request_after_limits(n_keys, start, (p * n_keys + offset) as nat) == (RequestRunView {
            n_keys,
            start,
            offset: offset as int,
            delay: pause(p),
        }),
        request_after_limits(n_keys, start, (p * n_keys + offset) as nat).wf(),
    decreases p, offset,
{
    let i = p * n_keys + offset;
    if offset > 0 {
        law_batch_retries_forever(n_keys, start, p, (offset - 1) as nat);
        assert(p * n_keys + (offset - 1) == i - 1);
    } else if p > 0 {
        law_batch_retries_forever(n_keys, start, (p - 1) as nat, (n_keys - 1) as nat);
        assert((p - 1) * n_keys + (n_keys - 1) == i - 1) by (nonlinear_arith)
            requires
                i == p * n_keys,
        ;
        assert(i > 0) by (nonlinear_arith)
            requires
                i == p * n_keys,
                p > 0,
                n_keys > 0,
        ;
    } else {
        assert(i == 0) by (nonlinear_arith)
            requires
                i == p * n_keys,
                p == 0,
        ;
    }
}

// ─── Starting ────────────────────────────────────────────────────────────

impl VoyageClient {
    /// The request that embeds the texts `from..to` with the key of the given
    /// number.
    pub fn request(
        &self,
        key: usize,
        texts: &[String],
        from: usize,
        to: usize,
        input_type: InputType,
    ) -> (r: EmbedRequest)
        requires
            key < self@.api_keys.len(),
            from <= to <= texts@.len(),
        ensures
            r@ == self@.request_for(
                key as int,
                text::texts(texts@).subrange(from as int, to as int),
                input_type,
            ),
    {
        EmbedRequest {
            endpoint: self.endpoint.clone(),
            model: self.model.clone(),
            input: clone_range(texts, from, to),
            input_type: if self.send_input_type {
                Some(input_type.as_str().to_owned())
            } else {
                None
            },
            bearer: if !self.api_keys[key].as_str().is_empty() || self.send_empty_bearer {
                Some(self.api_keys[key].clone())
            } else {
                None
            },
        }
    }

    /// The request that embeds a query with the key of the given number: the one
    /// text, with `input_type: "query"`.
    pub fn query_request(&self, key: usize, query: &str) -> (r: EmbedRequest)
        requires
            key < self@.api_keys.len(),
        ensures
            r@ == self@.request_for(key as int, seq![query@], InputType::Query),
    {
        let mut texts: Vec<String> = Vec::new();
        texts.push(query.to_owned());
        assert(text::texts(texts@).subrange(0, 1) =~= seq![query@]);
        self.request(key, texts.as_slice(), 0, 1, InputType::Query)
    }

    /// The request that embeds the documents `from..to` with the key of the given
    /// number, with `input_type: "document"`.
    pub fn document_request(&self, key: usize, texts: &[String], from: usize, to: usize) -> (r:
        EmbedRequest)
        requires
            key < self@.api_keys.len(),
            from <= to <= texts@.len(),
        ensures
            r@ == self@.request_for(
                key as int,
                text::texts(texts@).subrange(from as int, to as int),
                InputType::Document,
            ),
    {
        self.request(key, texts, from, to, InputType::Document)
    }

    /// Starts to embed a query; the shared cursor stood at `cursor`. Each key is
    /// tried with its [`query_request`](VoyageClient::query_request).
    ///
    /// On 429 from all keys, the run waits 2 s and tries once more. A second 429
    /// wave is an error; any other error is one at once.
    pub fn embed_query(&self, cursor: usize) -> (r: QueryRun)
        requires
            self.wf(),
        ensures
            r@.wf(),
            r@.trying(),
            r@ == rotation::passes_after(
                self@.api_keys.len() as int,
                cursor as int % self@.api_keys.len() as int,
                0,
            ),
            r@.n_keys == self@.api_keys.len(),
    {
        QueryRun { passes: TwoPasses::new(cursor, self.api_keys.len()) }
    }

    /// Starts to embed one batch; the shared cursor stood at `cursor`.
    pub fn embed_one_request(&self, cursor: usize) -> (r: RequestRun)
        requires
            self.wf(),
        ensures
            r@.wf(),
            r@.trying(),
            r@ == request_after_limits(
                self@.api_keys.len() as int,
                cursor as int % self@.api_keys.len() as int,
                0,
            ),
            r@.n_keys == self@.api_keys.len(),
    {
        let n_keys: usize = self.api_keys.len();
        RequestRun { n_keys, start: start_key(cursor, n_keys), offset: 0, delay: 2 }
    }

    /// The batches in which `len` texts are embedded: of up to the configured
    /// batch size, in order.
    pub fn embed(&self, len: usize) -> (r: Vec<(usize, usize)>)
        requires
            self.wf(),
        ensures
            batches::range_views(r@) == batches::batch_ranges(0, len as nat, self@.batch_size),
            batches::items_in(batches::range_views(r@)) == len,
    {
        proof {
            batches::law_batches_hold_every_item(0, len as nat, self@.batch_size);
        }
        split_batches(len, self.batch_size)
    }

    /// The requests in which a batch of `len` texts is embedded: one, unless the
    /// batch exceeds the configured batch size and is split to it.
    pub fn embed_batch(&self, len: usize) -> (r: Vec<(usize, usize)>)
        requires
            self.wf(),
        ensures
            batches::range_views(r@) == if len > self@.batch_size {
                batches::batch_ranges(0, len as nat, self@.batch_size)
            } else {
                seq![(0nat, len as nat)]
            },
            batches::items_in(batches::range_views(r@)) == len,
    {
        proof {
            batches::law_batches_hold_every_item(0, len as nat, self@.batch_size);
            batches::lemma_items_in_next(seq![(0nat, len as nat)], 0);
            assert(seq![(0nat, len as nat)].take(1) =~= seq![(0nat, len as nat)]);
            assert(seq![(0nat, len as nat)].take(0) =~= seq![]);
        }
        if len > self.batch_size {
            split_batches(len, self.batch_size)
        } else {
            let mut out: Vec<(usize, usize)> = Vec::new();
            out.push((0, len));
            assert(batches::range_views(out@) =~= seq![(0nat, len as nat)]);
            out
        }
    }
}

// ─── Laws of the endpoint ────────────────────────────────────────────────

proof fn lemma_trimmed_start(s: Seq<char>)
    ensures
        text::trimmed(s).len() > 0 ==> !text::is_space(text::trimmed(s)[0]),
    decreases s.len(),
{
    if s.len() > 0 {
        if text::is_space(s[0]) {
            lemma_trimmed_start(s.drop_first());
        } else {
            text::lemma_trim_end_keeps_front(s);
        }
    }
}

/// An endpoint is an endpoint: it ends in `/embeddings`, and giving it as the
/// base URL changes nothing.
pub proof fn law_endpoint_is_stable(base: Seq<char>)
    ensures
        text::has_suffix(endpoint_of(base), "/embeddings"@),
        endpoint_of(endpoint_of(base)) == endpoint_of(base),
{
    reveal_strlit("/embeddings");
    let tail = "/embeddings"@;
    let t = text::trimmed(base);
    let bare = text::drop_back(t, '/');
    let url = endpoint_of(base);
    text::lemma_drop_back(t, '/');
    lemma_trimmed_start(base);
    if !text::has_suffix(bare, tail) {
        assert(url.subrange(url.len() - tail.len(), url.len() as int) =~= tail);
    }
    assert(text::has_suffix(url, tail));
    assert(url.last() == url.subrange(url.len() - tail.len(), url.len() as int).last());
    assert(url.last() == 's');
    assert(!text::is_space(url[0])) by {
        if bare.len() > 0 {
            assert(url[0] == bare[0]);
            assert(bare[0] == t[0]);
        } else {
            assert(url[0] == tail[0]);
        }
    }
    assert(text::trim_start(url) == url);
    assert(text::trimmed(url) == url);
    assert(text::drop_back(url, '/') == url);
}

proof fn lemma_trim_start_push(s: Seq<char>, c: char)
    requires
        s.len() > 0 ==> !text::is_space(s.last()),
        !text::is_space(c),
    ensures
        text::trim_start(s.push(c)) == text::trim_start(s).push(c),
        text::trim_start(s).len() > 0 ==> text::trim_start(s).last() == s.last(),
        s.len() > 0 ==> text::trim_start(s).len() > 0,
    decreases s.len(),
{
    if s.len() > 0 && text::is_space(s[0]) {
        assert(s.push(c).drop_first() =~= s.drop_first().push(c));
        lemma_trim_start_push(s.drop_first(), c);
    }
}

/// A base URL and the same with a slash behind it have the same endpoint.
pub proof fn law_trailing_slash_makes_no_difference(base: Seq<char>)
    requires
        base.len() > 0 ==> !text::is_space(base.last()),
    ensures
        endpoint_of(base.push('/')) == endpoint_of(base),
{
    lemma_trim_start_push(base, '/');
    let t = text::trim_start(base);
    assert(t.push('/').drop_last() =~= t);
}


proof fn lemma_trimmed_is(a: Seq<char>, m: Seq<char>, b: Seq<char>)
    requires
        text::blank(a),
        text::blank(b),
        m.len() > 0 ==> !text::is_space(m[0]) && !text::is_space(m.last()),
    ensures
        text::trimmed(a + m + b) == m,
{
    let s = a + m + b;
    let from = text::law_trimming_is_exact(s);
    let t = text::trimmed(s);
    if m.len() == 0 {
        assert(text::blank(s)) by {
            assert forall|i: int| 0 <= i < s.len() implies text::is_space(#[trigger] s[i]) by {
                if i < a.len() {
                    assert(s[i] == a[i]);
                } else {
                    assert(s[i] == b[i - a.len()]);
                }
            }
        }
        text::lemma_blank_is_trimmed_empty(s);
        assert(t =~= m);
    } else {
        let first = a.len() as int;
        let last = first + m.len() - 1;
        assert(s[first] == m[0]);
        assert(s[last] == m.last());
        assert(from <= first);
        assert(last < from + t.len());
        if from < first {
            assert(t[0] == s[from]);
            assert(s[from] == a[from]);
        }
        if from + t.len() > last + 1 {
            assert(t.last() == s[from + t.len() - 1]);
            assert(s[from + t.len() - 1] == b[from + t.len() - 1 - (last + 1)]);
        }
        assert(t =~= m);
    }
}

/// White space around a base URL and slashes behind it make no difference; `/embeddings`
/// is put behind what is left, unless it ends so already.
pub proof fn law_endpoint_of_a_base_url(
    before: Seq<char>,
    base: Seq<char>,
    slashes: Seq<char>,
    after: Seq<char>,
)
    requires
        text::blank(before),
        text::blank(after),
        forall|i: int| 0 <= i < slashes.len() ==> #[trigger] slashes[i] == '/',
        base.len() > 0 ==> !text::is_space(base[0]) && !text::is_space(base.last())
            && base.last() != '/',
    ensures
        text::has_suffix(base, "/embeddings"@) ==> endpoint_of(before + (base + slashes) + after)
            == base,
        !text::has_suffix(base, "/embeddings"@) ==> endpoint_of(before + (base + slashes) + after)
            == base + "/embeddings"@,
{
    let m = base + slashes;
    assert(!text::is_space('/'));
    if m.len() > 0 {
        if base.len() > 0 {
            assert(m[0] == base[0]);
        } else {
            assert(m[0] == slashes[0]);
        }
        if slashes.len() > 0 {
            assert(m.last() == slashes[slashes.len() - 1]);
        } else {
            assert(m.last() == base.last());
        }
    }
    lemma_trimmed_is(before, m, after);
    text::lemma_drop_back(m, '/');
    let bare = text::drop_back(m, '/');
    if bare.len() < base.len() {
        assert(m[base.len() - 1] == base.last());
    }
    if bare.len() > base.len() {
        assert(bare.last() == m[bare.len() - 1]);
        assert(m[bare.len() - 1] == slashes[bare.len() - 1 - base.len()]);
    }
    assert(bare =~= base);
}

/// What settings give a client, and which: an OpenAI-compatible provider needs a base
/// URL, and any provider a key. Only `openai` goes to its base URL and without an
/// input type; anything else is Voyage. A request holds as many texts as set, but
/// from 1 to 128.
pub proof fn law_client_of_settings(
    provider: Seq<char>,
    model: Seq<char>,
    base_url: Option<Seq<char>>,
    api_keys: Seq<Seq<char>>,
    size: nat,
)
    ensures
        ({
            let r = client_of_config(provider, model, base_url, api_keys, size);
            let openai = provider == "openai"@;
            let no_url = base_url is None || text::blank(base_url->0);
            &&& openai && no_url ==> r == Err::<ClientView, ClientError>(ClientError::NoBaseUrl)
            &&& !(openai && no_url) && api_keys.len() == 0 ==> r == Err::<ClientView, ClientError>(
                ClientError::NoApiKey,
            )
            &&& !(openai && no_url) && api_keys.len() > 0 ==> r is Ok
            &&& r matches Ok(c) ==> {
                &&& c.model == model
                &&& c.api_keys == api_keys
                &&& c.send_input_type == !openai
                &&& !c.send_empty_bearer
                &&& openai ==> c.endpoint == endpoint_of(text::trimmed(base_url->0))
                &&& !openai ==> c.endpoint == "https://api.voyageai.com/v1/embeddings"@
                &&& 1 <= size <= 128 ==> c.batch_size == size
                &&& size == 0 ==> c.batch_size == 1
                &&& size > 128 ==> c.batch_size == 128
            }
        }),
{
    if base_url is Some {
        text::lemma_blank_is_trimmed_empty(base_url->0);
    }
}

/// The keys of the reranker are those that are set, and one empty key where none is;
/// a base URL counts unless it is blank, without the white space around it.
pub proof fn law_reranker_settings(keys: Seq<Seq<char>>, url: Seq<char>)
    ensures
        keys.len() > 0 ==> keys_or_empty(keys) == keys,
        keys.len() == 0 ==> keys_or_empty(keys).len() == 1 && keys_or_empty(keys)[0].len() == 0,
        base_of(None) is None,
        text::blank(url) ==> base_of(Some(url)) is None,
        !text::blank(url) ==> base_of(Some(url)) == Some(text::trimmed(url)),
{
    text::lemma_blank_is_trimmed_empty(url);
}

/// A request goes to the client's endpoint for the client's model, with exactly the
/// texts that it was given and the key of the given number; an empty key is sent only
/// where the client is set so. What the texts are for is said where the provider
/// knows of it.
pub proof fn law_request_holds_what_was_given(
    c: ClientView,
    key: int,
    input: Seq<Seq<char>>,
    input_type: InputType,
)
    requires
        0 <= key < c.api_keys.len(),
    ensures
        c.request_for(key, input, input_type).endpoint == c.endpoint,
        c.request_for(key, input, input_type).model == c.model,
        c.request_for(key, input, input_type).input == input,
        !c.send_input_type ==> c.request_for(key, input, input_type).input_type is None,
        c.send_input_type ==> c.request_for(key, input, InputType::Query).input_type == Some(
            "query"@,
        ) && c.request_for(key, input, InputType::Document).input_type == Some("document"@),
        c.api_keys[key].len() > 0 ==> c.request_for(key, input, input_type).bearer == Some(
            c.api_keys[key],
        ),
        c.api_keys[key].len() == 0 && !c.send_empty_bearer ==> c.request_for(
            key,
            input,
            input_type,
        ).bearer is None,
        c.api_keys[key].len() == 0 && c.send_empty_bearer ==> c.request_for(
            key,
            input,
            input_type,
        ).bearer == Some(Seq::<char>::empty()),
{
    if c.api_keys[key].len() == 0 {
        assert(c.api_keys[key] =~= seq![]);
    }
}

/// Too many requests are told from other failures, and success is any code from 200
/// up to 299.
pub proof fn law_statuses(code: u16)
    ensures
        kind_of_status(code) == ReplyKind::RateLimited <==> code == 429,
        kind_of_status(code) == ReplyKind::Success <==> code as int / 100 == 2,
        kind_of_status(code) == ReplyKind::Failed <==> code != 429 && code as int / 100 != 2,
{
}

/// The next pause is twice as long, and a minute at most; the keys go on in turn from
/// the one that was tried first.
pub proof fn law_next_pause(run: RequestRunView)
    requires
        run.wf(),
        run.trying(),
    ensures
        next_delay(run.delay) <= 60,
        run.delay <= 30 ==> next_delay(run.delay) == 2 * run.delay,
        run.delay >= 30 ==> next_delay(run.delay) == 60,
        run.limited().offset == run.offset + 1,
        run.limited().start == run.start && run.limited().n_keys == run.n_keys,
        run.limited().trying() ==> run.limited().delay == run.delay && run.limited().key() == (
        run.start + run.offset + 1) % run.n_keys,
        !run.limited().trying() ==> run.limited().delay == next_delay(run.delay),
        run.rested().trying(),
        run.rested().delay == run.delay && run.rested().start == run.start
            && run.rested().n_keys == run.n_keys,
        run.key() == (run.start + run.offset) % run.n_keys,
{
}


/// What a constructor returns is told by its model: the client's own, or the error.
pub proof fn law_constructor_results(r: Result<VoyageClient, ClientError>)
    ensures
        r matches Ok(c) ==> client_result(r) == Ok::<ClientView, ClientError>(c@),
        r matches Err(e) ==> client_result(r) == Err::<ClientView, ClientError>(e),
{
}

} // verus!
