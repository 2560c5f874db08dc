//! Results and errors of the vision (OCR and translation) provider.

use vstd::prelude::*;
use crate::text::{chars_eq_str, chars_of, push_str, lowercase_of, to_lowercase, trim, trim_chars};

verus! {

/// Why a request to the vision provider failed.
#[derive(Debug, Clone)]
pub enum AiError {
    MissingApiKey,
    AuthenticationFailed,
    RateLimited,
    Timeout,
    Cancelled,
    Network(String),
    ServerError { status: u16, message: String },
    InvalidResponse(String),
    ImageError(String),
}

/// Text recognised in an image.
#[derive(Debug, Clone)]
pub struct OcrResult {
    pub text: String,
    pub model: String,
}

/// Text of an image translated into a target language.
#[derive(Debug, Clone)]
pub struct TranslationResult {
    pub translated_text: String,
    pub source_language: Option<String>,
    pub target_language: String,
    pub model: String,
}

#[verifier::external_type_specification]
#[verifier::external_body]
pub struct ExHttpClient(reqwest::Client);

/// What the `base64` crate's standard engine (with padding) encodes bytes
/// as.
pub uninterp spec fn base64_standard(bytes: Seq<u8>) -> Seq<char>;

/// Encodes bytes in standard base64 with padding.
/// Calls `base64::Engine::encode` on `base64::engine::general_purpose::STANDARD`;
/// the text depends on the bytes alone.
#[verifier::external_body]
fn base64_encode(bytes: &[u8]) -> (s: String)
    ensures
        s@ == base64_standard(bytes@),
{
    base64::Engine::encode(&base64::engine::general_purpose::STANDARD, bytes)
}

/// An HTTP client whose requests time out after `timeout_secs` seconds.
/// Calls `reqwest::Client::builder`, `ClientBuilder::timeout` (with
/// `Duration::from_secs`) and `ClientBuilder::build`, falling back to
/// `Client::default()` where building fails. Nothing is stated of the
/// client; `Client::default` panics where no TLS backend can be set up.
#[verifier::external_body]
fn build_http_client(timeout_secs: u64) -> reqwest::Client {
    let builder = reqwest::Client::builder().timeout(std::time::Duration::from_secs(timeout_secs));
    builder.build().unwrap_or_default()
}

/// The duration that `std::time::Duration::from_secs` gives for a number of
/// seconds.
pub uninterp spec fn duration_from_secs(secs: u64) -> std::time::Duration;

/// A duration of whole seconds.
/// Calls `std::time::Duration::from_secs`, whose value depends on the
/// number of seconds alone; it never panics.
#[verifier::external_body]
fn seconds(secs: u64) -> (d: std::time::Duration)
    ensures
        d == duration_from_secs(secs),
{
    std::time::Duration::from_secs(secs)
}

/// `s` without its trailing characters `c` (`str::trim_end_matches`).
pub open spec fn trim_trailing(s: Seq<char>, c: char) -> Seq<char>
    decreases s.len(),
{
    if s.len() > 0 && s.last() == c {
        trim_trailing(s.drop_last(), c)
    } else {
        s
    }
}

fn trim_trailing_str(s: &str, c: char) -> (r: String)
    ensures
        r@ == trim_trailing(s@, c),
{
    let v = chars_of(s);
    let mut n: usize = v.len();
    assert(v@.subrange(0, n as int) =~= v@);
    while n > 0 && v[n - 1] == c
        invariant
            v@ == s@,
            n <= v@.len(),
            trim_trailing(v@.subrange(0, n as int), c) == trim_trailing(v@, c),
        decreases n,
    {
        assert(v@.subrange(0, n as int).drop_last() =~= v@.subrange(0, n - 1));
        n = n - 1;
    }
    let mut out = String::new();
    let mut i: usize = 0;
    while i < n
        invariant
            n <= v@.len(),
            i <= n,
            out@ == v@.subrange(0, i as int),
        decreases n - i,
    {
        crate::text::push_char(&mut out, v[i]);
        i = i + 1;
        assert(v@.subrange(0, i as int) =~= v@.subrange(0, i - 1).push(v@[i - 1]));
    }
    out
}

/// A client of an OpenAI-compatible chat-completions service that reads
/// images.
pub struct OpenAiVisionClient {
    pub base_url: String,
    pub api_key: String,
    pub model: String,
    pub timeout: std::time::Duration,
    client: reqwest::Client,
}

/// What is sent for one chat completion, apart from the prompts.
pub struct ChatRequest {
    /// `<base url>/chat/completions`.
    pub endpoint: String,
    /// `Bearer <key>`.
    pub authorization: String,
    /// The image as a `data:` URI.
    pub image_url: String,
}

/// The media type announced for an image format named in lower case:
/// JPEG and WebP by name, PNG otherwise.
pub open spec fn mime_type(format: Seq<char>) -> Seq<char> {
    if format == "jpg"@ || format == "jpeg"@ {
        "image/jpeg"@
    } else if format == "webp"@ {
        "image/webp"@
    } else {
        "image/png"@
    }
}

/// The media type for an image format named in lower case.
pub fn mime_type_for(format: &str) -> (m: &'static str)
    ensures
        m@ == mime_type(format@),
{
    let f = chars_of(format);
    if chars_eq_str(&f, "jpg") || chars_eq_str(&f, "jpeg") {
        "image/jpeg"
    } else if chars_eq_str(&f, "webp") {
        "image/webp"
    } else {
        "image/png"
    }
}

/// A `data:` URI carrying base64 text of the given media type.
pub fn data_uri(mime: &str, base64_text: &str) -> (u: String)
    ensures
        u@ == "data:"@ + mime@ + ";base64,"@ + base64_text@,
{
    let mut u = String::new();
    push_str(&mut u, "data:");
    push_str(&mut u, mime);
    push_str(&mut u, ";base64,");
    push_str(&mut u, base64_text);
    u
}

/// How the reply to a chat completion is judged by its HTTP status.
#[derive(Debug, Clone, Copy, PartialEq, Eq, Structural)]
pub enum ReplyStatus {
    /// 200 to 299: the body holds the answer.
    Success,
    /// 401 or 403.
    AuthenticationFailed,
    /// 429.
    RateLimited,
    /// Any other status: the body describes the error.
    ServerError,
}

/// Judges a reply by its HTTP status.
pub fn classify_status(status: u16) -> (r: ReplyStatus)
    ensures
        (status == 401 || status == 403) ==> r == ReplyStatus::AuthenticationFailed,
        status == 429 ==> r == ReplyStatus::RateLimited,
        (200 <= status < 300) ==> r == ReplyStatus::Success,
        !(status == 401 || status == 403 || status == 429 || 200 <= status < 300) ==> r
            == ReplyStatus::ServerError,
{
    if status == 401 || status == 403 {
        ReplyStatus::AuthenticationFailed
    } else if status == 429 {
        ReplyStatus::RateLimited
    } else if !(200 <= status && status < 300) {
        ReplyStatus::ServerError
    } else {
        ReplyStatus::Success
    }
}

/// The error for a reply that is not a success, with the reply body.
pub fn reply_error(status: u16, body: String) -> (e: Option<AiError>)
    ensures
        (status == 401 || status == 403) ==> e matches Some(AiError::AuthenticationFailed),
        status == 429 ==> e matches Some(AiError::RateLimited),
        (200 <= status < 300) ==> e is None,
        !(status == 401 || status == 403 || status == 429 || 200 <= status < 300) ==> (e matches Some(
            AiError::ServerError { status: s, message: m },
        ) && s == status && m@ == body@),
{
    match classify_status(status) {
        ReplyStatus::AuthenticationFailed => Some(AiError::AuthenticationFailed),
        ReplyStatus::RateLimited => Some(AiError::RateLimited),
        ReplyStatus::ServerError => Some(AiError::ServerError { status, message: body }),
        ReplyStatus::Success => None,
    }
}

/// Most tokens a chat completion may answer with.
pub const MAX_REPLY_TOKENS: u32 = 4096;

/// The system prompt for reading text.
pub const OCR_SYSTEM_PROMPT: &'static str = "You are an accurate OCR engine. Extract all readable text from the provided image verbatim. Output ONLY the extracted text with no conversational filler, markdown formatting blocks, or explanations. If no text is found, output nothing.";

/// The user prompt for reading text.
pub const OCR_USER_PROMPT: &'static str = "Please perform OCR text extraction on this image.";

/// The system prompt for translating into `target_lang`.
pub fn translate_system_prompt(target_lang: &str) -> (p: String)
    ensures
        p@ == "You are a professional image translator. Read all text in the image and translate it accurately into "@
            + target_lang@
            + ". Retain original paragraph structures, formatting, numbers, and proper nouns. Output ONLY the translated text without explanations."@,
{
    let mut p = String::new();
    push_str(&mut p, "You are a professional image translator. Read all text in the image and translate it accurately into ");
    push_str(&mut p, target_lang);
    push_str(&mut p, ". Retain original paragraph structures, formatting, numbers, and proper nouns. Output ONLY the translated text without explanations.");
    p
}

/// The user prompt for translating into `target_lang`.
pub fn translate_user_prompt(target_lang: &str) -> (p: String)
    ensures
        p@ == "Please translate all text in this image into "@ + target_lang@ + "."@,
{
    let mut p = String::new();
    push_str(&mut p, "Please translate all text in this image into ");
    push_str(&mut p, target_lang);
    push_str(&mut p, ".");
    p
}

fn trimmed_string(s: &str) -> (r: String)
    ensures
        r@ == trim(s@),
{
    let v = chars_of(s);
    let t = trim_chars(&v);
    crate::text::string_from_chars(&t)
}

impl OpenAiVisionClient {
    /// The service address.
    pub closed spec fn spec_base_url(&self) -> Seq<char> {
        self.base_url@
    }

    /// The API key.
    pub closed spec fn spec_api_key(&self) -> Seq<char> {
        self.api_key@
    }

    /// The model asked.
    pub closed spec fn spec_model(&self) -> Seq<char> {
        self.model@
    }

    /// The timeout the client reports (its public `timeout` field).
    pub closed spec fn spec_timeout(&self) -> std::time::Duration {
        self.timeout
    }

    /// The HTTP client the client holds.
    pub closed spec fn spec_client(&self) -> reqwest::Client {
        self.client
    }

    /// A client for the service at `base_url` (trailing slashes dropped)
    /// reporting a timeout of `timeout_secs` seconds; its HTTP requests time
    /// out after that many seconds, but no fewer than five.
    pub fn new(base_url: String, api_key: String, model: String, timeout_secs: u64) -> (c: Self)
        ensures
            c.spec_base_url() == trim_trailing(base_url@, '/'),
            c.spec_api_key() == api_key@,
            c.spec_model() == model@,
            c.spec_timeout() == duration_from_secs(timeout_secs),
    {
        let client = build_http_client(if timeout_secs >= 5 { timeout_secs } else { 5 });
        OpenAiVisionClient {
            base_url: trim_trailing_str(base_url.as_str(), '/'),
            api_key,
            model,
            timeout: seconds(timeout_secs),
            client,
        }
    }

    /// The HTTP client the requests are sent with.
    pub fn http(&self) -> (h: &reqwest::Client)
        ensures
            *h == self.spec_client(),
    {
        &self.client
    }

    /// Everything but the prompts that a chat completion about an image of
    /// the named format sends, given the image's base64 text: refused
    /// without an API key (white space alone counts as none).
    pub fn chat_request_with(&self, base64_text: &str, format_lower: &str) -> (r: Result<ChatRequest, AiError>)
        ensures
            trim(self.spec_api_key()).len() == 0 ==> r matches Err(AiError::MissingApiKey),
            trim(self.spec_api_key()).len() != 0 ==> (r matches Ok(q) && {
                &&& q.endpoint@ == self.spec_base_url() + "/chat/completions"@
                &&& q.authorization@ == "Bearer "@ + trim(self.spec_api_key())
                &&& q.image_url@ == "data:"@ + mime_type(format_lower@) + ";base64,"@ + base64_text@
            }),
    {
        let key = trimmed_string(self.api_key.as_str());
        if key.as_str().unicode_len() == 0 {
            return Err(AiError::MissingApiKey);
        }
        let mime = mime_type_for(format_lower);
        let image_url = data_uri(mime, base64_text);
        let mut endpoint = String::new();
        push_str(&mut endpoint, self.base_url.as_str());
        push_str(&mut endpoint, "/chat/completions");
        let mut authorization = String::new();
        push_str(&mut authorization, "Bearer ");
        push_str(&mut authorization, key.as_str());
        Ok(ChatRequest { endpoint, authorization, image_url })
    }

    /// Everything but the prompts that a chat completion about an image
    /// sends (see `chat_request_with`): the image is encoded in base64 and
    /// the format name lower-cased.
    pub fn chat_request(&self, image_bytes: &[u8], format: &str) -> (r: Result<ChatRequest, AiError>)
        ensures
            trim(self.spec_api_key()).len() == 0 ==> r matches Err(AiError::MissingApiKey),
            trim(self.spec_api_key()).len() != 0 ==> (r matches Ok(q) && {
                &&& q.endpoint@ == self.spec_base_url() + "/chat/completions"@
                &&& q.authorization@ == "Bearer "@ + trim(self.spec_api_key())
                &&& q.image_url@ == "data:"@ + mime_type(lowercase_of(format@)) + ";base64,"@
                    + base64_standard(image_bytes@)
            }),
    {
        let key = trimmed_string(self.api_key.as_str());
        if key.as_str().unicode_len() == 0 {
            return Err(AiError::MissingApiKey);
        }
        let lower = to_lowercase(format);
        let b64 = base64_encode(image_bytes);
        self.chat_request_with(b64.as_str(), lower.as_str())
    }

    /// The recognised text of a reply (surrounding white space dropped),
    /// credited to this client's model.
    pub fn ocr_result(&self, content: &str) -> (r: OcrResult)
        ensures
            r.text@ == trim(content@),
            r.model@ == self.spec_model(),
    {
        OcrResult { text: trimmed_string(content), model: self.model.clone() }
    }

    /// The translated text of a reply (surrounding white space dropped),
    /// into `target_lang`, credited to this client's model.
    pub fn translation_result(&self, content: &str, target_lang: &str) -> (r: TranslationResult)
        ensures
            r.translated_text@ == trim(content@),
            r.source_language is None,
            r.target_language@ == target_lang@,
            r.model@ == self.spec_model(),
    {
        let mut target_language = String::new();
        push_str(&mut target_language, target_lang);
        TranslationResult {
            translated_text: trimmed_string(content),
            source_language: None,
            target_language,
            model: self.model.clone(),
        }
    }
}

} // verus!
