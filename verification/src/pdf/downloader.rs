//! Planning a download: which address to ask, when to ask again, and what
//! to make of each answer. The requests themselves are made elsewhere.

use crate::percent::{lemma_percent_roundtrip, percent_decode, percent_decoded, percent_encoded};
use crate::text::{
    chars_of, contains, find, first_at, first_index, lemma_first_exists, lemma_first_index,
    occurs_at, slice, string_of,
};
use vstd::prelude::*;

verus! {

/// Most bytes a document may have: 200 MiB.
pub const MAX_PDF_SIZE: usize = 209_715_200;

/// Seconds after which one request is given up.
pub const DOWNLOAD_TIMEOUT_SECS: u64 = 30;

/// Most requests made for one document.
pub const MAX_RETRIES: usize = 3;

/// Most characters an address may have.
pub const MAX_URL_LENGTH: usize = 2000;

/// Why a download gave no document.
#[derive(Debug)]
pub enum DownloadError {
    /// The request failed in transport, or the server refused it.
    Network(String),
    /// The document has, or says it has, more bytes than allowed.
    TooLarge(usize),
    /// The address is empty or too long.
    InvalidUrl(String),
    /// No request was allowed at all.
    RetriesExhausted,
}

/// A download error with its texts as character sequences.
pub enum DownloadErrorView {
    Network(Seq<char>),
    TooLarge(usize),
    InvalidUrl(Seq<char>),
    RetriesExhausted,
}

impl View for DownloadError {
    type V = DownloadErrorView;

    open spec fn view(&self) -> DownloadErrorView {
        match self {
            DownloadError::Network(m) => DownloadErrorView::Network(m@),
            DownloadError::TooLarge(n) => DownloadErrorView::TooLarge(*n),
            DownloadError::InvalidUrl(u) => DownloadErrorView::InvalidUrl(u@),
            DownloadError::RetriesExhausted => DownloadErrorView::RetriesExhausted,
        }
    }
}

/// What marks an address as one of the document viewer.
pub open spec fn viewer_marker() -> Seq<char> {
    "docs.google.com/gview"@
}

/// What stands before the target in a viewer address.
pub open spec fn target_key() -> Seq<char> {
    "url="@
}

/// What ends the target in a viewer address.
pub open spec fn target_end() -> Seq<char> {
    seq!['&']
}

/// Whether `url` is a viewer address that names a target.
pub open spec fn is_viewer_redirect(url: Seq<char>) -> bool {
    contains(url, viewer_marker()) && contains(url, target_key())
}

/// The target of a viewer address as it is written there: what follows the
/// first `url=`, up to the next `&` or else the end.
pub open spec fn redirect_target(url: Seq<char>) -> Seq<char> {
    let rest = url.skip(first_index(url, target_key()) + target_key().len());
    if contains(rest, target_end()) {
        rest.take(first_index(rest, target_end()))
    } else {
        rest
    }
}

/// The address to ask for `url`: the decoded target of a viewer address
/// (empty where it does not decode), every other address itself.
pub open spec fn resolved_url(url: Seq<char>) -> Seq<char> {
    if is_viewer_redirect(url) {
        match percent_decoded(redirect_target(url)) {
            Some(t) => t,
            None => Seq::empty(),
        }
    } else {
        url
    }
}

/// Whether `url` is refused outright.
pub open spec fn invalid_url(url: Seq<char>) -> bool {
    url.len() == 0 || url.len() > MAX_URL_LENGTH
}

/// Seconds to wait after the failed attempt number `attempt` (from 1):
/// 1, 2, 4 and so on.
pub open spec fn backoff_secs(attempt: nat) -> nat
    decreases attempt,
{
    if attempt <= 1 {
        1
    } else {
        2 * backoff_secs((attempt - 1) as nat)
    }
}

/// `backoff_secs`, or the greatest `u64` where that is less.
pub open spec fn backoff_delay(attempt: nat) -> u64 {
    if backoff_secs(attempt) <= u64::MAX {
        backoff_secs(attempt) as u64
    } else {
        u64::MAX
    }
}

/// The waits never get shorter.
pub proof fn lemma_backoff_grows(a: nat, b: nat)
    requires
        a <= b,
    ensures
        backoff_secs(a) <= backoff_secs(b),
    decreases b,
{
    if a < b && b > 1 {
        lemma_backoff_grows(a, (b - 1) as nat);
    }
}

/// A byte count as a `usize`, or the greatest `usize` where it does not fit.
pub open spec fn clamped(n: u64) -> usize {
    if n <= usize::MAX {
        n as usize
    } else {
        usize::MAX
    }
}

/// A download under way: the address that is asked, and the number of the
/// attempt that is being made, from 1.
#[derive(Debug)]
pub struct DownloadState {
    pub url: String,
    pub attempt: usize,
}

/// What came of the last thing done for a download.
#[derive(Debug)]
pub enum Event {
    /// The request or the transfer failed, or the status was no success.
    Failed(String),
    /// The answer's head arrived, with the length it declares, if any.
    Headers(Option<u64>),
    /// The whole body arrived.
    Body(Vec<u8>),
}

/// What to do next for a download.
#[derive(Debug)]
pub enum Next {
    /// Wait for `delay_secs` seconds, then request `state.url`.
    Request { state: DownloadState, delay_secs: u64 },
    /// Read the body of the answer.
    ReadBody { state: DownloadState },
    /// The download is over.
    Done(Result<Vec<u8>, DownloadError>),
}

/// The limits of a download.
pub struct PdfDownloader {
    max_size: usize,
    timeout_secs: u64,
    max_retries: usize,
}

impl PdfDownloader {
    /// Most bytes accepted.
    pub closed spec fn max_size_spec(&self) -> usize {
        self.max_size
    }

    /// Seconds allowed for one request.
    pub closed spec fn timeout_secs_spec(&self) -> u64 {
        self.timeout_secs
    }

    /// Most attempts made.
    pub closed spec fn max_retries_spec(&self) -> usize {
        self.max_retries
    }

    /// A downloader with the standard limits.
    pub fn new() -> (r: Self)
        ensures
            r.max_size_spec() == MAX_PDF_SIZE,
            r.timeout_secs_spec() == DOWNLOAD_TIMEOUT_SECS,
            r.max_retries_spec() == MAX_RETRIES,
    {
        PdfDownloader {
            max_size: MAX_PDF_SIZE,
            timeout_secs: DOWNLOAD_TIMEOUT_SECS,
            max_retries: MAX_RETRIES,
        }
    }

    /// A downloader with limits of the caller's choice.
    pub fn with_limits(max_size: usize, timeout_secs: u64, max_retries: usize) -> (r: Self)
        ensures
            r.max_size_spec() == max_size,
            r.timeout_secs_spec() == timeout_secs,
            r.max_retries_spec() == max_retries,
    {
        PdfDownloader { max_size, timeout_secs, max_retries }
    }

    /// Most bytes accepted.
    #[verifier::when_used_as_spec(max_size_spec)]
    pub fn max_size(&self) -> (r: usize)
        ensures
            r == self.max_size_spec(),
    {
        self.max_size
    }

    /// Seconds allowed for one request.
    #[verifier::when_used_as_spec(timeout_secs_spec)]
    pub fn timeout_secs(&self) -> (r: u64)
        ensures
            r == self.timeout_secs_spec(),
    {
        self.timeout_secs
    }

    /// Most attempts made.
    #[verifier::when_used_as_spec(max_retries_spec)]
    pub fn max_retries(&self) -> (r: usize)
        ensures
            r == self.max_retries_spec(),
    {
        self.max_retries
    }

    /// Starts a download of `url`. An address that is empty or too long is
    /// refused; with no attempt allowed the download is over at once.
    /// Otherwise the first attempt asks the resolved address, with no wait.
    pub fn begin(&self, url: &str) -> (r: Result<DownloadState, DownloadError>)
        ensures
            match r {
                Ok(state) => {
                    &&& !invalid_url(url@)
                    &&& self.max_retries() > 0
                    &&& state.url@ == resolved_url(url@)
                    &&& state.attempt == 1
                },
                Err(e) => if invalid_url(url@) {
                    e@ == DownloadErrorView::InvalidUrl(url@)
                } else {
                    self.max_retries() == 0 && e@ == DownloadErrorView::RetriesExhausted
                },
            },
    {
        let length = url.unicode_len();
        if length == 0 || length > MAX_URL_LENGTH {
            return Err(DownloadError::InvalidUrl(url.to_owned()));
        }
        let actual = self.extract_google_docs_url(url);
        if self.max_retries == 0 {
            return Err(DownloadError::RetriesExhausted);
        }
        Ok(DownloadState { url: actual, attempt: 1 })
    }

    /// Decides what follows `event` in the download `state`.
    ///
    /// A failure leads to the next attempt, after a wait that doubles each
    /// time, while attempts are left, and ends the download with that
    /// failure otherwise. A declared length or a body over the limit ends
    /// it with the size; a body within the limit ends it with the bytes.
    pub fn step(&self, state: DownloadState, event: Event) -> (r: Next)
        ensures
            match event {
                Event::Failed(message) => if state.attempt < self.max_retries() {
                    &&& r matches Next::Request { state: again, delay_secs }
                    &&& again.url@ == state.url@
                    &&& again.attempt == state.attempt + 1
                    &&& delay_secs == backoff_delay(state.attempt as nat)
                } else {
                    &&& r matches Next::Done(Err(e))
                    &&& e@ == DownloadErrorView::Network(message@)
                },
                Event::Headers(declared) => if declared is Some && declared->0
                    > self.max_size() {
                    &&& r matches Next::Done(Err(e))
                    &&& e@ == DownloadErrorView::TooLarge(clamped(declared->0))
                } else {
                    &&& r matches Next::ReadBody { state: same }
                    &&& same == state
                },
                Event::Body(bytes) => if bytes@.len() > self.max_size() {
                    &&& r matches Next::Done(Err(e))
                    &&& e@ == DownloadErrorView::TooLarge(bytes@.len() as usize)
                } else {
                    &&& r matches Next::Done(Ok(body))
                    &&& body@ == bytes@
                },
            },
    {
        match event {
            Event::Failed(message) => {
                if state.attempt < self.max_retries {
                    let delay_secs = backoff(state.attempt);
                    Next::Request {
                        state: DownloadState { url: state.url, attempt: state.attempt + 1 },
                        delay_secs,
                    }
                } else {
                    Next::Done(Err(DownloadError::Network(message)))
                }
            },
            Event::Headers(declared) => {
                match declared {
                    Some(n) => {
                        if n > self.max_size as u64 {
                            let size = if n > usize::MAX as u64 {
                                usize::MAX
                            } else {
                                n as usize
                            };
                            Next::Done(Err(DownloadError::TooLarge(size)))
                        } else {
                            Next::ReadBody { state }
                        }
                    },
                    None => Next::ReadBody { state },
                }
            },
            Event::Body(bytes) => {
                if bytes.len() > self.max_size {
                    Next::Done(Err(DownloadError::TooLarge(bytes.len())))
                } else {
                    Next::Done(Ok(bytes))
                }
            },
        }
    }

    /// The address to ask for `url`: a viewer address gives its decoded
    /// target, any other address itself.
    pub fn extract_google_docs_url(&self, url: &str) -> (r: String)
        ensures
            r@ == resolved_url(url@),
            !is_viewer_redirect(url@) ==> r@ == url@,
            is_viewer_redirect(url@) ==> !contains(redirect_target(url@), target_end()),
            is_viewer_redirect(url@) ==> percent_decoded(redirect_target(url@)) is Some ==> Some(
                r@,
            ) == percent_decoded(redirect_target(url@)),
    {
        let chars = chars_of(url);
        let marker = chars_of("docs.google.com/gview");
        let key = chars_of("url=");
        let end = vec!['&'];
        assert(end@ =~= target_end());
        proof {
            lemma_target_has_no_end(url@);
        }
        if find(&chars, &marker).is_some() {
            if let Some(start) = find(&chars, &key) {
                proof {
                    lemma_first_index(chars@, key@, start as int);
                }
                let width = key.len();
                let total = chars.len();
                assert(start + width <= total);
                let rest = slice(&chars, start + width, total);
                let target = match find(&rest, &end) {
                    Some(stop) => {
                        proof {
                            lemma_first_index(rest@, end@, stop as int);
                        }
                        slice(&rest, 0, stop)
                    },
                    None => rest,
                };
                let written = string_of(&target);
                return match percent_decode(written.as_str()) {
                    Some(t) => t,
                    None => String::new(),
                };
            }
        }
        url.to_owned()
    }
}

impl Default for PdfDownloader {
    fn default() -> (r: Self)
        ensures
            r.max_size_spec() == MAX_PDF_SIZE,
            r.timeout_secs_spec() == DOWNLOAD_TIMEOUT_SECS,
            r.max_retries_spec() == MAX_RETRIES,
    {
        PdfDownloader::new()
    }
}

/// Computes the wait after the failed attempt number `attempt`.
pub fn backoff(attempt: usize) -> (d: u64)
    ensures
        d == backoff_delay(attempt as nat),
{
    if attempt <= 1 {
        return 1;
    }
    let mut d: u64 = 1;
    let mut k: usize = 1;
    while k < attempt && d <= u64::MAX / 2
        invariant
            1 <= k <= attempt,
            d == backoff_secs(k as nat),
        decreases attempt - k,
    {
        d = d * 2;
        k = k + 1;
    }
    if k < attempt {
        proof {
            lemma_backoff_grows((k + 1) as nat, attempt as nat);
        }
        u64::MAX
    } else {
        d
    }
}

/// The target of a viewer address, as written, holds no `&`.
pub proof fn lemma_target_has_no_end(url: Seq<char>)
    ensures
        !contains(redirect_target(url), target_end()),
{
    let rest = url.skip(first_index(url, target_key()) + target_key().len());
    let end = target_end();
    if contains(rest, end) {
        let stop = first_index(rest, end);
        lemma_first_exists(rest, end);
        let target = rest.take(stop);
        assert forall|i: int| !occurs_at(target, end, i) by {
            if occurs_at(target, end, i) {
                assert(target.subrange(i, i + 1) =~= rest.subrange(i, i + 1));
                assert(occurs_at(rest, end, i));
            }
        }
    }
}

/// In an address made of `head`, the key `url=`, a target as `written` and a
/// `tail`, where that key is the first of its kind, `written` holds no `&`,
/// and `tail` is empty or starts with `&`, the target as written is
/// `written`.
pub proof fn lemma_target_found(head: Seq<char>, written: Seq<char>, tail: Seq<char>)
    requires
        first_at(head + target_key(), target_key(), head.len() as int),
        !contains(written, target_end()),
        tail.len() == 0 || tail[0] == '&',
    ensures
        contains(head + target_key() + written + tail, target_key()),
        redirect_target(head + target_key() + written + tail) == written,
{
    let key = target_key();
    let end = target_end();
    let url = head + key + written + tail;
    let at = head.len() as int;
    assert(url.subrange(at, at + key.len()) =~= key);
    assert forall|j: int| 0 <= j < at implies !occurs_at(url, key, j) by {
        if occurs_at(url, key, j) {
            assert((head + key).subrange(j, j + key.len()) =~= url.subrange(j, j + key.len()));
            assert(occurs_at(head + key, key, j));
        }
    }
    lemma_first_index(url, key, at);
    let rest = url.skip(at + key.len());
    assert(rest =~= written + tail);
    assert forall|j: int| 0 <= j < written.len() implies !occurs_at(rest, end, j) by {
        if occurs_at(rest, end, j) {
            assert(written.subrange(j, j + 1) =~= rest.subrange(j, j + 1));
            assert(occurs_at(written, end, j));
        }
    }
    if tail.len() == 0 {
        assert(rest =~= written);
    } else {
        let stop = written.len() as int;
        assert(rest.subrange(stop, stop + 1) =~= end);
        lemma_first_index(rest, end, stop);
        assert(rest.take(stop) =~= written);
    }
}

/// A viewer address resolves to the target that it names percent-encoded:
/// where the first `url=` of an address that holds the viewer's marker is
/// followed by `target` written percent-encoded, and then by nothing or by
/// `&` and more, the resolved address is `target`, with nothing of what
/// follows.
pub proof fn law_viewer_target_resolved(head: Seq<char>, target: Seq<char>, tail: Seq<char>)
    requires
        first_at(head + target_key(), target_key(), head.len() as int),
        tail.len() == 0 || tail[0] == '&',
        contains(head + target_key() + percent_encoded(target) + tail, viewer_marker()),
    ensures
        resolved_url(head + target_key() + percent_encoded(target) + tail) == target,
{
    let written = percent_encoded(target);
    lemma_percent_roundtrip(target);
    assert forall|j: int| !occurs_at(written, target_end(), j) by {
        if occurs_at(written, target_end(), j) {
            assert(written.subrange(j, j + 1)[0] == written[j]);
        }
    }
    lemma_target_found(head, written, tail);
}

/// An address that is no viewer address resolves to itself.
pub proof fn law_other_address_resolved(url: Seq<char>)
    requires
        !is_viewer_redirect(url),
    ensures
        resolved_url(url) == url,
{
}

} // verus!
