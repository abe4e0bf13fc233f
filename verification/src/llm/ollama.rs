//! What the engine exchanges with the Ollama client.

use crate::text::{
    from_chars, has_prefix, lines_of, starts_with, text_lines, to_chars, trim, trimmed, views,
};
use vstd::prelude::*;

verus! {

/// The model used for chat completions.
pub const CHAT_MODEL: &'static str = "gemma3:4b";

/// Default Ollama API endpoint.
pub const OLLAMA_BASE_URL: &'static str = "http://localhost:11434";

/// Where the Ollama HTTP API is reached.
#[derive(Debug, Clone)]
pub struct OllamaClient {
    base_url: String,
}

impl OllamaClient {
    /// The address of the API, without a trailing path.
    pub closed spec fn base(&self) -> Seq<char> {
        self.base_url@
    }

    /// A client for the default endpoint on this machine.
    pub fn new() -> (client: Self)
        ensures
            client.base() == OLLAMA_BASE_URL@,
    {
        OllamaClient::with_base_url(String::from_str(OLLAMA_BASE_URL))
    }

    /// A client for the endpoint at `base_url`.
    pub fn with_base_url(base_url: String) -> (client: Self)
        ensures
            client.base() == base_url@,
    {
        OllamaClient { base_url }
    }

    /// The address of the API.
    pub fn base_url(&self) -> (url: &str)
        ensures
            url@ == self.base(),
    {
        self.base_url.as_str()
    }

    /// The address of the chat endpoint.
    pub fn chat_url(&self) -> (url: String)
        ensures
            url@ == self.base() + "/api/chat"@,
    {
        let mut url = self.base_url.clone();
        url.append("/api/chat");
        url
    }

    /// The address of the endpoint that lists the installed models.
    pub fn tags_url(&self) -> (url: String)
        ensures
            url@ == self.base() + "/api/tags"@,
    {
        let mut url = self.base_url.clone();
        url.append("/api/tags");
        url
    }
}

impl Default for OllamaClient {
    fn default() -> (client: Self)
        ensures
            client.base() == OLLAMA_BASE_URL@,
    {
        OllamaClient::new()
    }
}

/// Status of Ollama availability.
#[derive(Debug, Clone)]
pub struct OllamaStatus {
    pub is_running: bool,
    pub model_available: bool,
    pub model_name: String,
    pub error: Option<String>,
}

/// Message in Ollama chat format.
#[derive(Debug, Clone)]
pub struct ChatMessage {
    pub role: String,
    pub content: String,
}

/// Processed stream chunk.
#[derive(Debug, Clone)]
pub struct ChatStreamChunk {
    pub message: Option<String>,
    pub done: bool,
}

/// Shown where Ollama does not answer.
pub const NOT_RUNNING: &'static str = "Ollama is not running. Start it with 'ollama serve'.";

/// What the model is told when it is asked for a title.
pub const TITLE_SYSTEM_PROMPT: &'static str =
    "You are a helpful assistant that generates concise titles for journal entries. Generate a 2-5 word title that captures the essence of the entry. Respond with ONLY the title, no quotes or extra text.";

/// What precedes the entry in a request for a title.
pub const TITLE_REQUEST: &'static str = "Generate a title for this journal entry:\n\n";

/// Tokens that a chat reply or a summary may take.
pub const CHAT_MAX_TOKENS: i32 = 512;

/// Tokens that a title may take.
pub const TITLE_MAX_TOKENS: i32 = 20;

/// The name of a model without its tag: what stands before the first colon.
pub open spec fn family(model: Seq<char>) -> Seq<char>
    decreases model.len(),
{
    if model.len() == 0 || model[0] == ':' {
        Seq::empty()
    } else {
        seq![model[0]] + family(model.drop_first())
    }
}

/// Some model of `names` belongs to the family of the chat model.
pub open spec fn has_chat_model(names: Seq<Seq<char>>) -> bool {
    exists|i: int| 0 <= i < names.len() && starts_with(#[trigger] names[i], family(CHAT_MODEL@))
}

/// The message for a chat model that is not installed.
pub open spec fn missing_model_message() -> Seq<char> {
    "Model '"@ + CHAT_MODEL@ + "' not found. Run 'ollama pull "@ + CHAT_MODEL@ + "'."@
}

/// The last chunk that was read, or an empty one that is not done where
/// none was.
pub open spec fn latest(parsed: Seq<Option<ChatStreamChunk>>) -> ChatStreamChunk
    decreases parsed.len(),
{
    if parsed.len() == 0 {
        ChatStreamChunk { message: None, done: false }
    } else {
        match parsed.last() {
            Some(chunk) => chunk,
            None => latest(parsed.drop_last()),
        }
    }
}

/// The lines of `lines` that are not empty, in order.
pub open spec fn filled(lines: Seq<Seq<char>>) -> Seq<Seq<char>>
    decreases lines.len(),
{
    if lines.len() == 0 {
        Seq::empty()
    } else if lines.last().len() == 0 {
        filled(lines.drop_last())
    } else {
        filled(lines.drop_last()).push(lines.last())
    }
}

/// Role and content of each message of `messages`.
pub open spec fn texts_of(messages: Seq<ChatMessage>) -> Seq<(Seq<char>, Seq<char>)> {
    Seq::new(messages.len(), |i: int| (messages[i].role@, messages[i].content@))
}

/// The name of `model` without its tag.
pub fn model_family(model: &str) -> (name: String)
    ensures
        name@ == family(model@),
{
    let chars = to_chars(model);
    let mut end: usize = 0;
    assert(chars@.skip(0) =~= chars@);
    assert(chars@.take(0) + family(chars@) =~= family(chars@));
    while end < chars.len() && chars[end] != ':'
        invariant
            end <= chars.len(),
            family(chars@) == chars@.take(end as int) + family(chars@.skip(end as int)),
        decreases chars.len() - end,
    {
        let ghost rest = chars@.skip(end as int);
        assert(rest[0] == chars@[end as int]);
        assert(rest.drop_first() =~= chars@.skip(end + 1));
        assert(chars@.take(end as int) + seq![rest[0]] =~= chars@.take(end + 1));
        end += 1;
    }
    proof {
        let rest = chars@.skip(end as int);
        if end < chars.len() {
            assert(rest[0] == chars@[end as int]);
        }
        assert(family(rest) =~= Seq::empty());
        assert(chars@.take(end as int) + Seq::<char>::empty() =~= chars@.subrange(0, end as int));
    }
    from_chars(&chars, 0, end)
}

/// Whether the chat model, under any tag, is among the installed `names`.
pub fn chat_model_installed(names: &Vec<String>) -> (yes: bool)
    ensures
        yes == has_chat_model(views(names@)),
{
    let wanted = model_family(CHAT_MODEL);
    let mut i: usize = 0;
    while i < names.len()
        invariant
            i <= names.len(),
            wanted@ == family(CHAT_MODEL@),
            forall|k: int| 0 <= k < i ==> !starts_with(#[trigger] views(names@)[k], wanted@),
        decreases names.len() - i,
    {
        if has_prefix(names[i].as_str(), wanted.as_str()) {
            assert(starts_with(views(names@)[i as int], family(CHAT_MODEL@)));
            return true;
        }
        i += 1;
    }
    false
}

/// The status to report, given whether Ollama answered and which models it
/// lists; `models` is `None` where the list could not be had.
pub fn ollama_status(is_running: bool, models: Option<&Vec<String>>) -> (status: OllamaStatus)
    ensures
        status.is_running == is_running,
        status.model_name@ == CHAT_MODEL@,
        status.model_available == (is_running && models is Some && has_chat_model(
            views(models->0@),
        )),
        !is_running ==> (status.error matches Some(text) && text@ == NOT_RUNNING@),
        is_running && !status.model_available ==> (status.error matches Some(text) && text@
            == missing_model_message()),
        status.model_available ==> status.error is None,
{
    if !is_running {
        return OllamaStatus {
            is_running: false,
            model_available: false,
            model_name: String::from_str(CHAT_MODEL),
            error: Some(String::from_str(NOT_RUNNING)),
        };
    }
    let model_available = match models {
        Some(names) => chat_model_installed(names),
        None => false,
    };
    let error = if !model_available {
        let mut message = String::from_str("Model '");
        message.append(CHAT_MODEL);
        message.append("' not found. Run 'ollama pull ");
        message.append(CHAT_MODEL);
        message.append("'.");
        Some(message)
    } else {
        None
    };
    OllamaStatus { is_running, model_available, model_name: String::from_str(CHAT_MODEL), error }
}

/// The lines of a piece of the model's stream that may each hold a JSON
/// document: its lines that are not empty.
pub fn stream_lines(text: &str) -> (lines: Vec<String>)
    ensures
        views(lines@) == filled(text_lines(text@)),
{
    let all = lines_of(text);
    let mut lines: Vec<String> = Vec::new();
    let mut i: usize = 0;
    assert(views(all@).take(0) =~= Seq::empty());
    while i < all.len()
        invariant
            i <= all.len(),
            views(lines@) == filled(views(all@).take(i as int)),
        decreases all.len() - i,
    {
        let ghost upto = views(all@).take(i + 1);
        assert(upto.drop_last() =~= views(all@).take(i as int));
        assert(upto.last() == all@[i as int]@);
        if !all[i].as_str().is_empty() {
            let ghost before = lines@;
            lines.push(all[i].clone());
            assert(views(lines@) =~= views(before).push(upto.last()));
        }
        i += 1;
    }
    assert(views(all@).take(all.len() as int) =~= views(all@));
    lines
}

/// The chunk that a piece of the model's stream amounts to: the last of its
/// lines that could be read, where `parsed` holds what was read of each
/// line. A piece without a readable line is an empty chunk that is not done.
pub fn latest_chunk(parsed: Vec<Option<ChatStreamChunk>>) -> (chunk: ChatStreamChunk)
    ensures
        chunk == latest(parsed@),
{
    let mut rest = parsed;
    while rest.len() > 0
        invariant
            latest(rest@) == latest(parsed@),
        decreases rest.len(),
    {
        let ghost before = rest@;
        let last = rest.pop();
        assert(rest@ =~= before.drop_last());
        match last {
            Some(Some(chunk)) => {
                assert(before.last() == Some(chunk));
                assert(latest(before) == chunk);
                return chunk;
            },
            _ => {},
        }
    }
    ChatStreamChunk { message: None, done: false }
}

/// The text of a reply that is not streamed: the content of its message,
/// trimmed, or nothing where it has no message.
pub fn reply_text(content: Option<&str>) -> (text: String)
    ensures
        text@ == match content {
            Some(given) => trimmed(given@),
            None => Seq::empty(),
        },
{
    match content {
        Some(given) => trim(given),
        None => String::new(),
    }
}

/// The messages that ask the model for a title of an entry.
pub fn title_messages(content: &str) -> (messages: Vec<ChatMessage>)
    ensures
        texts_of(messages@) == seq![
            ("system"@, TITLE_SYSTEM_PROMPT@),
            ("user"@, TITLE_REQUEST@ + content@),
        ],
{
    let mut request = String::from_str(TITLE_REQUEST);
    request.append(content);
    let mut messages: Vec<ChatMessage> = Vec::new();
    messages.push(
        ChatMessage {
            role: String::from_str("system"),
            content: String::from_str(TITLE_SYSTEM_PROMPT),
        },
    );
    messages.push(ChatMessage { role: String::from_str("user"), content: request });
    assert(texts_of(messages@) =~= seq![
        ("system"@, TITLE_SYSTEM_PROMPT@),
        ("user"@, TITLE_REQUEST@ + content@),
    ]);
    messages
}

/// The messages that ask the model for a summary: the prompt as the user's
/// only message.
pub fn summary_messages(prompt: &str) -> (messages: Vec<ChatMessage>)
    ensures
        texts_of(messages@) == seq![("user"@, prompt@)],
{
    let mut messages: Vec<ChatMessage> = Vec::new();
    messages.push(ChatMessage { role: String::from_str("user"), content: String::from_str(prompt) });
    assert(texts_of(messages@) =~= seq![("user"@, prompt@)]);
    messages
}

} // verus!
