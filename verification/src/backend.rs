//! The transport backend: building transport-native requests against a base
//! URL, and the decode session that a streaming response is driven through —
//! success statuses feed the line decoder, every other status has its body
//! drained whole and classified, and the underlying connection is released
//! exactly once however the session ends.

use vstd::prelude::*;

use crate::error::{classified, is_success, Error, ErrorDrain};
use crate::read::{first_nl, json_parse, JsonLineDecoder};

verus! {

#[verifier::external_type_specification]
#[verifier::external_body]
pub struct ExClient(reqwest::Client);

#[verifier::external_type_specification]
#[verifier::external_body]
pub struct ExRequest(reqwest::Request);

#[verifier::external_type_specification]
#[verifier::external_body]
pub struct ExForm(reqwest::multipart::Form);

/// Relies on `reqwest::Client::new`: a client over a fresh connection pool,
/// with default configuration. It aborts only when the TLS backend cannot be
/// initialised; none is configured here.
#[verifier::external_body]
fn new_client() -> (r: reqwest::Client) {
    reqwest::Client::new()
}

/// What finalising a POST request builder returns, as a function of the URL
/// string alone: `None` when the URL parses and the request builds, `Some`
/// of the rendered failure text when it does not. reqwest decides this at
/// `Client::post`, which parses the URL eagerly and stores any failure;
/// attaching string query pairs and a multipart form cannot fail.
pub uninterp spec fn post_build(url: Seq<char>) -> Option<Seq<char>>;

/// Relies on `reqwest::Client::post`, `RequestBuilder::query`,
/// `RequestBuilder::multipart` and `RequestBuilder::build`: `post` parses
/// the URL eagerly and stores any failure in the builder; `query` appends
/// the pairs URL-encoded (string pairs cannot fail to serialise);
/// `multipart` attaches the form and its content headers without failing;
/// `build` returns the stored outcome, which therefore depends on the URL
/// alone. A failure is rendered through its `Display` impl.
#[verifier::external_body]
fn post_and_build(
    client: &reqwest::Client,
    url: &str,
    query: &Vec<(String, String)>,
    form: Option<reqwest::multipart::Form>,
) -> (r: Result<reqwest::Request, String>)
    ensures
        match r {
            Ok(req) => post_build(url@) is None,
            Err(text) => post_build(url@) == Some(text@),
        },
{
    let mut builder = client.post(url).query(query.as_slice());
    if let Some(f) = form {
        builder = builder.multipart(f);
    }
    builder.build().map_err(|e| format!("{e}"))
}

/// Relies on `String::push_str` (vstd gives it no specification): appends
/// the string slice to the string, in place.
#[verifier::external_body]
fn push_str(s: &mut String, t: &str)
    ensures
        final(s)@ == old(s)@ + t@,
{
    s.push_str(t)
}

/// A backend over the `reqwest` HTTP client: owns the base URL of the
/// daemon's control API and the underlying connection pool. Shared across
/// requests; never retries on its own.
pub struct ReqwestBackend {
    base: String,
    client: reqwest::Client,
}

impl ReqwestBackend {
    /// The base URL every endpoint path is appended to.
    pub closed spec fn base_spec(&self) -> Seq<char> {
        self.base@
    }

    /// Explicit construction against a given base URL.
    pub fn build_with_base_uri(base: String) -> (r: ReqwestBackend)
        ensures
            r.base_spec() == base@,
    {
        ReqwestBackend { base, client: new_client() }
    }

    /// The full URL of an endpoint: the backend's base followed by the
    /// endpoint's path, both unchanged.
    pub fn request_url(&self, path: &str) -> (r: String)
        ensures
            r@ == self.base_spec() + path@,
    {
        let mut url = self.base.clone();
        push_str(&mut url, path);
        url
    }

    /// The underlying transport client, for the caller that executes the
    /// built requests.
    pub fn client(&self) -> &reqwest::Client {
        &self.client
    }

    /// Build the transport-native request for one endpoint call: POST to the
    /// base URL extended by the endpoint path, the query parameters attached
    /// URL-encoded, and the multipart payload attached when there is one.
    /// Pure construction, no I/O. It succeeds exactly when the full URL is
    /// well formed; the one failure is a request-build error carrying the
    /// transport's rendering of what was malformed.
    pub fn build_base_request(
        &self,
        path: &str,
        query: &Vec<(String, String)>,
        form: Option<reqwest::multipart::Form>,
    ) -> (r: Result<reqwest::Request, Error>)
        ensures
            ({
                let url = self.base_spec() + path@;
                match r {
                    Ok(req) => post_build(url) is None,
                    Err(e) => (e matches Error::RequestBuild { reason } && post_build(url)
                        == Some(reason@)),
                }
            }),
    {
        let url = self.request_url(path);
        match post_and_build(&self.client, url.as_str(), query, form) {
            Ok(req) => Ok(req),
            Err(reason) => Err(Error::RequestBuild { reason }),
        }
    }
}

impl Default for ReqwestBackend {
    /// Without explicit construction, the backend addresses a local daemon.
    fn default() -> (r: Self)
        ensures
            r.base_spec() == "http://localhost:5001"@,
    {
        ReqwestBackend::build_with_base_uri("http://localhost:5001".to_owned())
    }
}

/// One streaming response being driven to its end: the decision half of
/// executing a streaming request. A success status selects record decoding;
/// any other status has the entire body drained first — an error is only
/// built from a fully read body, so the connection is left with no unread
/// bytes — and classified then. However the session ends, exhausted or
/// abandoned mid-stream, the underlying connection is released exactly once.
pub struct DecodeSession {
    decoder: JsonLineDecoder,
    drain: Option<ErrorDrain>,
    done: bool,
    released: bool,
}

impl DecodeSession {
    /// Whether this session decodes records (success status) rather than
    /// draining an error body.
    pub closed spec fn decoding(&self) -> bool {
        self.drain is None
    }

    /// The decoder's unconsumed bytes (success path).
    pub closed spec fn buffered(&self) -> Seq<u8> {
        self.decoder@
    }

    /// The non-success status being drained (error path).
    pub closed spec fn error_status(&self) -> u16 {
        match self.drain {
            Some(d) => d.status_spec(),
            None => 0,
        }
    }

    /// The error body bytes drained so far (error path).
    pub closed spec fn error_body(&self) -> Seq<u8> {
        match self.drain {
            Some(d) => d.body_spec(),
            None => Seq::empty(),
        }
    }

    /// Whether the end of the body has been reached and handled.
    pub closed spec fn is_done(&self) -> bool {
        self.done
    }

    /// Whether the release of the underlying connection has been decided.
    pub closed spec fn is_released(&self) -> bool {
        self.released
    }

    pub closed spec fn wf(&self) -> bool {
        match self.drain {
            Some(d) => d.wf(),
            None => true,
        }
    }

    /// Begin a session from the response status: a success status selects
    /// record decoding, any other status selects draining the body whole for
    /// error classification — never an attempt to stream-decode it.
    pub fn begin(status: u16) -> (r: DecodeSession)
        ensures
            r.wf(),
            !r.is_done(),
            !r.is_released(),
            r.decoding() <==> is_success(status),
            r.buffered() == Seq::<u8>::empty(),
            !is_success(status) ==> r.error_status() == status && r.error_body() == Seq::<
                u8,
            >::empty(),
    {
        if 200 <= status && status <= 299 {
            DecodeSession {
                decoder: JsonLineDecoder::new(),
                drain: None,
                done: false,
                released: false,
            }
        } else {
            DecodeSession {
                decoder: JsonLineDecoder::new(),
                drain: Some(ErrorDrain::new(status)),
                done: false,
                released: false,
            }
        }
    }

    /// Whether this session decodes records rather than draining an error
    /// body.
    pub fn is_decoding(&self) -> (r: bool)
        ensures
            r == self.decoding(),
    {
        self.drain.is_none()
    }

    /// Whether the end of the body has already been handled.
    pub fn done(&self) -> (r: bool)
        ensures
            r == self.is_done(),
    {
        self.done
    }

    /// One body chunk arrived: hand it to the decoder on the success path,
    /// drain it for later classification on the error path.
    pub fn on_chunk(&mut self, chunk: &Vec<u8>)
        requires
            old(self).wf(),
            !old(self).is_done(),
        ensures
            final(self).wf(),
            final(self).decoding() == old(self).decoding(),
            final(self).is_done() == old(self).is_done(),
            final(self).is_released() == old(self).is_released(),
            final(self).error_status() == old(self).error_status(),
            old(self).decoding() ==> final(self).buffered() == old(self).buffered() + chunk@,
            !old(self).decoding() ==> final(self).buffered() == old(self).buffered()
                && final(self).error_body() == old(self).error_body() + chunk@,
    {
        let drain = self.drain.take();
        match drain {
            Some(mut d) => {
                d.feed(chunk);
                self.drain = Some(d);
            }
            None => {
                self.decoder.feed(chunk);
            }
        }
    }

    /// Next decoded record on the success path: split the first complete
    /// line off the buffer and parse it; without a complete line nothing is
    /// consumed, and a line that fails to parse is a decode error, terminal
    /// for this session.
    pub fn next_record(&mut self) -> (r: Result<Option<serde_json::Value>, Error>)
        requires
            old(self).wf(),
            old(self).decoding(),
            !old(self).is_done(),
        ensures
            final(self).wf(),
            final(self).decoding(),
            final(self).is_done() == old(self).is_done(),
            final(self).is_released() == old(self).is_released(),
            ({
                let b = old(self).buffered();
                let i = first_nl(b);
                if i == b.len() {
                    final(self).buffered() == b && r == Ok::<Option<serde_json::Value>, Error>(
                        None,
                    )
                } else {
                    final(self).buffered() == b.skip(i + 1) && match json_parse(b.take(i)) {
                        Some(v) => r == Ok::<Option<serde_json::Value>, Error>(Some(v)),
                        None => r matches Err(Error::Decode { line }) && line@ == b.take(i),
                    }
                }
            }),
    {
        self.decoder.next_record()
    }

    /// The body ended. On the success path there is nothing to report: a
    /// dangling newline-unterminated partial line is discarded, no record
    /// and no error. On the error path the body, now drained whole, is
    /// classified into the typed error.
    pub fn on_end(&mut self) -> (r: Option<Error>)
        requires
            old(self).wf(),
            !old(self).is_done(),
        ensures
            final(self).wf(),
            final(self).is_done(),
            final(self).is_released() == old(self).is_released(),
            old(self).decoding() ==> r is None,
            !old(self).decoding() ==> (r matches Some(e) && classified(
                old(self).error_status(),
                old(self).error_body(),
                e,
            )),
    {
        self.done = true;
        match self.drain.take() {
            Some(d) => Some(d.finish()),
            None => None,
        }
    }

    /// The session ends here, exhausted or abandoned mid-stream: decide the
    /// release of the underlying connection. The first decision — and only
    /// the first — tells the caller to release it; abandoning the session
    /// again never releases twice.
    pub fn release(&mut self) -> (do_release: bool)
        ensures
            final(self).wf() == old(self).wf(),
            final(self).decoding() == old(self).decoding(),
            final(self).buffered() == old(self).buffered(),
            final(self).error_status() == old(self).error_status(),
            final(self).error_body() == old(self).error_body(),
            final(self).is_done() == old(self).is_done(),
            final(self).is_released(),
            do_release == !old(self).is_released(),
    {
        let was = self.released;
        self.released = true;
        !was
    }
}

/// However often a decode session is abandoned, the underlying connection is
/// released exactly once: along any run of release decisions that starts
/// with the connection held, the first decision releases and every later one
/// declines. `held[i]` is whether the release was already decided before the
/// `i`-th decision, as `DecodeSession::release` tracks it.
pub proof fn lemma_release_exactly_once(held: Seq<bool>, decisions: Seq<bool>)
    requires
        held.len() == decisions.len() + 1,
        decisions.len() > 0,
        !held[0],
        forall|i: int|
            0 <= i < decisions.len() ==> decisions[i] == !held[i] && held[i + 1],
    ensures
        forall|i: int| 0 <= i < decisions.len() ==> (decisions[i] <==> i == 0),
{
    assert forall|i: int| 0 <= i < decisions.len() implies (decisions[i] <==> i == 0) by {
        if i > 0 {
            let j = i - 1;
            assert(decisions[j] == !held[j] && held[j + 1]);
        }
    }
}

} // verus!

