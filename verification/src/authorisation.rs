//! How an invoker proves who it is.
//!
//! The broker sends a challenge, the invoker signs it, and the signature is
//! checked against the invoker's certificate. Fetching the certificate and
//! checking the signature are the caller's part; the rules are here.

use vstd::prelude::*;
use vstd::string::StringExecFns;
use crate::identifier::random_bytes;
use crate::invoker::gateway::{InputMessage, InputMessageView, OutputMessage, OutputMessageView};
use vstd::string::StrSliceExecFns;
use crate::text::{chars_of, is_whitespace, str_eq, utf8_decoded, utf8_text, whitespace};

verus! {

/// How many bytes a challenge has.
pub const CHALLENGE_LENGTH: usize = 128;

/// Where the certificate of an invoker comes from.
#[derive(Debug, Clone, Copy, PartialEq, Eq, Structural)]
pub enum Authorisation {
    /// From the testing system, by the invoker's key.
    API,
    /// From one file, whatever the key.
    FromFile,
    /// From a file named after the invoker's key.
    FromFileByName,
}

/// Where to fetch one certificate.
#[derive(Debug, PartialEq, Eq)]
pub enum CertificateSource {
    /// Ask the testing system for the certificate of `key`.
    Api { key: String },
    /// Read the file at `path`.
    File { path: String },
}

/// A `CertificateSource` as a mathematical value.
pub enum CertificateSourceView {
    Api { key: Seq<char> },
    File { path: Seq<char> },
}

impl View for CertificateSource {
    type V = CertificateSourceView;

    open spec fn view(&self) -> CertificateSourceView {
        match *self {
            CertificateSource::Api { key } => CertificateSourceView::Api { key: key@ },
            CertificateSource::File { path } => CertificateSourceView::File { path: path@ },
        }
    }
}

/// What the strategy `API` is refused with while the testing system is out
/// of reach.
pub open spec fn unavailable() -> Seq<char> {
    "Trying to get key from API, but testing system hasn't connected yet"@
}

/// What a connection is refused with whose first frame is no `TOKEN`.
pub open spec fn no_token() -> Seq<char> {
    "Invoker connected, but didn't send TOKEN message first."@
}

impl Authorisation {
    /// The strategy that a word of the configuration names: `API` unless
    /// the word names one of the two file strategies.
    pub open spec fn of_text(text: Seq<char>) -> Authorisation {
        if text == "File"@ || text == "FromFile"@ || text == "file"@ || text == "fromfile"@ || text
            == "FILE"@ || text == "FROMFILE"@ {
            Authorisation::FromFile
        } else if text == "FromFileByName"@ || text == "ByName"@ || text == "fromfilebyname"@
            || text == "byname"@ || text == "FROMFILEBYNAME"@ || text == "BYNAME"@ {
            Authorisation::FromFileByName
        } else {
            Authorisation::API
        }
    }

    /// Reads a strategy. Total.
    pub fn parse(text: &str) -> (r: Authorisation)
        ensures
            r == Authorisation::of_text(text@),
    {
        if str_eq(text, "File") || str_eq(text, "FromFile") || str_eq(text, "file") || str_eq(
            text,
            "fromfile",
        ) || str_eq(text, "FILE") || str_eq(text, "FROMFILE") {
            Authorisation::FromFile
        } else if str_eq(text, "FromFileByName") || str_eq(text, "ByName") || str_eq(
            text,
            "fromfilebyname",
        ) || str_eq(text, "byname") || str_eq(text, "FROMFILEBYNAME") || str_eq(text, "BYNAME") {
            Authorisation::FromFileByName
        } else {
            Authorisation::API
        }
    }

    /// Where the certificate for `key` comes from under the strategy. The
    /// strategy `API` needs the testing system in reach.
    pub open spec fn source_of(self, key: Seq<char>, connected: bool) -> Result<
        CertificateSourceView,
        Seq<char>,
    > {
        match self {
            Authorisation::API => if connected {
                Ok(CertificateSourceView::Api { key })
            } else {
                Err(unavailable())
            },
            Authorisation::FromFile => Ok(
                CertificateSourceView::File { path: "invokers_key.pub"@ },
            ),
            Authorisation::FromFileByName => Ok(
                CertificateSourceView::File { path: "invokers_key/"@ + key + ".pub"@ },
            ),
        }
    }

    /// Where to fetch the certificate for `key`.
    pub fn get_certificate_by_key(&self, key: &String, connected: bool) -> (r: Result<
        CertificateSource,
        String,
    >)
        ensures
            match r {
                Ok(source) => self.source_of(key@, connected) == Ok::<
                    CertificateSourceView,
                    Seq<char>,
                >(source@),
                Err(reason) => self.source_of(key@, connected) == Err::<
                    CertificateSourceView,
                    Seq<char>,
                >(reason@),
            },
    {
        match self {
            Authorisation::API => {
                if connected {
                    Ok(CertificateSource::Api { key: key.clone() })
                } else {
                    Err(
                        String::from_str(
                            "Trying to get key from API, but testing system hasn't connected yet",
                        ),
                    )
                }
            },
            Authorisation::FromFile => Ok(
                CertificateSource::File { path: String::from_str("invokers_key.pub") },
            ),
            Authorisation::FromFileByName => {
                let mut path = String::from_str("invokers_key/");
                path.append(key.as_str());
                path.append(".pub");
                Ok(CertificateSource::File { path })
            },
        }
    }
}

impl std::str::FromStr for Authorisation {
    type Err = String;

    fn from_str(s: &str) -> (r: Result<Authorisation, String>)
        ensures
            r == Ok::<Authorisation, String>(Authorisation::of_text(s@)),
    {
        Ok(Authorisation::parse(s))
    }
}

/// An invoker that has presented its token and owes the signature of the
/// challenge.
#[derive(Debug, PartialEq, Eq)]
pub struct Handshake {
    pub uuid: u128,
    pub key: String,
    pub nonce: Vec<u8>,
}

impl Handshake {
    /// Opens the handshake on the first frame of a connection, which must be
    /// a `TOKEN`, with `nonce` as the challenge, and gives the frame that
    /// carries the challenge.
    pub fn with_nonce(first: InputMessage, nonce: Vec<u8>) -> (r: Result<
        (Handshake, OutputMessage),
        String,
    >)
        ensures
            match r {
                Ok((handshake, frame)) => first@ == (InputMessageView::Token {
                    uuid: handshake.uuid,
                    key: handshake.key@,
                }) && handshake.nonce@ == nonce@ && frame@ == (OutputMessageView::Challenge {
                    nonce: nonce@,
                }),
                Err(reason) => !(first@ is Token) && reason@ == no_token(),
            },
    {
        match first {
            InputMessage::Token { uuid, key } => {
                let frame = OutputMessage::Challenge { nonce: nonce.clone() };
                Ok((Handshake { uuid, key, nonce }, frame))
            },
            _ => Err(String::from_str("Invoker connected, but didn't send TOKEN message first.")),
        }
    }

    /// Opens the handshake on the first frame of a connection with a
    /// challenge of `CHALLENGE_LENGTH` bytes drawn at random.
    pub fn begin(first: InputMessage) -> (r: Result<(Handshake, OutputMessage), String>)
        ensures
            match r {
                Ok((handshake, frame)) => first@ == (InputMessageView::Token {
                    uuid: handshake.uuid,
                    key: handshake.key@,
                }) && handshake.nonce@.len() == CHALLENGE_LENGTH && frame@ == (
                OutputMessageView::Challenge { nonce: handshake.nonce@ }),
                Err(reason) => !(first@ is Token) && reason@ == no_token(),
            },
    {
        Handshake::with_nonce(first, random_bytes(CHALLENGE_LENGTH))
    }

    /// The signature that the invoker's reply carries: the reply must be a
    /// `SIGNED` frame.
    pub fn signature_of(reply: InputMessage) -> (r: Option<Vec<u8>>)
        ensures
            match r {
                Some(signature) => reply@ == (InputMessageView::Signed { signature: signature@ }),
                None => !(reply@ is Signed),
            },
    {
        match reply {
            InputMessage::Signed { signature } => Some(signature),
            _ => None,
        }
    }

    /// Closes the handshake. `valid` says whether the invoker's reply was a
    /// signature of the challenge that its certificate confirms. The frame
    /// tells the invoker the outcome; only on success are the uuid and the
    /// key handed on, for the session to be registered.
    pub fn conclude(self, valid: bool) -> (r: (OutputMessage, Option<(u128, String)>))
        ensures
            r.0@ == (OutputMessageView::Auth { ok: valid }),
            match r.1 {
                Some((uuid, key)) => valid && uuid == self.uuid && key@ == self.key@,
                None => !valid,
            },
    {
        if valid {
            (OutputMessage::Auth { ok: true }, Some((self.uuid, self.key)))
        } else {
            (OutputMessage::Auth { ok: false }, None)
        }
    }
}

/// The request that asks the testing system at `address` for the
/// certificate of `key`.
pub open spec fn request_text(address: Seq<char>, key: Seq<char>) -> Seq<char> {
    "GET /get_invoker_key HTTP/1.1\r\nHost: "@ + address + "\r\nAuthorization: "@ + key
        + "\r\nConnection: close\r\n\r\n"@
}

/// Writes the request for the certificate of `key`.
pub fn certificate_request(address: &str, key: &str) -> (r: String)
    ensures
        r@ == request_text(address@, key@),
{
    let mut request = String::from_str("GET /get_invoker_key HTTP/1.1\r\nHost: ");
    request.append(address);
    request.append("\r\nAuthorization: ");
    request.append(key);
    request.append("\r\nConnection: close\r\n\r\n");
    request
}

/// Whether the empty line that ends the head of a reply stands at `at`.
pub open spec fn is_break(text: Seq<char>, at: int) -> bool {
    &&& 0 <= at
    &&& at + 4 <= text.len()
    &&& text[at] == '\r'
    &&& text[at + 1] == '\n'
    &&& text[at + 2] == '\r'
    &&& text[at + 3] == '\n'
}

/// The place of the first empty line at or after `from`, or a place too
/// near the end to hold one where there is none.
pub open spec fn head_end(text: Seq<char>, from: int) -> int
    decreases text.len() - from,
{
    if 0 <= from && from + 4 <= text.len() && !is_break(text, from) {
        head_end(text, from + 1)
    } else {
        from
    }
}

/// The end of the run of white space, or of what is none, that starts at
/// `from`.
pub open spec fn run_end(text: Seq<char>, white: bool, from: int) -> int
    decreases text.len() - from,
{
    if 0 <= from < text.len() && is_whitespace(text[from]) == white {
        run_end(text, white, from + 1)
    } else {
        from
    }
}

/// The second word of the head of a reply, which is its status; empty
/// where the head has no second word.
pub open spec fn status_of(head: Seq<char>) -> Seq<char> {
    let start = run_end(head, true, run_end(head, false, run_end(head, true, 0)));
    head.subrange(start, run_end(head, false, start))
}

/// What a reply is refused with that is no text.
pub open spec fn no_text() -> Seq<char> {
    "Certificate is no text"@
}

/// What a reply is refused with that has no empty line after its head.
pub open spec fn no_body() -> Seq<char> {
    "Reply has no body"@
}

/// What a reply is refused with whose status does not start with `2`.
pub open spec fn refused(status: Seq<char>) -> Seq<char> {
    "Testing system answered "@ + status
}

/// The certificate that a reply of the testing system carries: the reply
/// must be text with a head, an empty line and a body, and the status in
/// its head must start with `2`; the body is then the certificate.
pub open spec fn certificate_of(reply: Seq<u8>) -> Result<Seq<char>, Seq<char>> {
    match utf8_decoded(reply) {
        None => Err(no_text()),
        Some(text) => {
            let cut = head_end(text, 0);
            if !is_break(text, cut) {
                Err(no_body())
            } else {
                let status = status_of(text.take(cut));
                if status.len() > 0 && status[0] == '2' {
                    Ok(text.skip(cut + 4))
                } else {
                    Err(refused(status))
                }
            }
        },
    }
}

/// The view of a certificate read, or of the reason why none was.
pub open spec fn certificate_view(r: Result<String, String>) -> Result<Seq<char>, Seq<char>> {
    match r {
        Ok(text) => Ok(text@),
        Err(reason) => Err(reason@),
    }
}

fn scan_run(chars: &Vec<char>, white: bool, from: usize) -> (r: usize)
    requires
        from <= chars.len(),
    ensures
        from <= r <= chars.len(),
        r == run_end(chars@, white, from as int),
{
    let mut at: usize = from;
    while at < chars.len() && whitespace(chars[at]) == white
        invariant
            from <= at <= chars.len(),
            run_end(chars@, white, from as int) == run_end(chars@, white, at as int),
        decreases chars.len() - at,
    {
        at += 1;
    }
    at
}

/// Reads the certificate out of a reply of the testing system, as
/// `certificate_of` says.
pub fn certificate_from_reply(reply: Vec<u8>) -> (r: Result<String, String>)
    ensures
        certificate_view(r) == certificate_of(reply@),
{
    let text: &str = match utf8_text(reply.as_slice()) {
        Some(text) => text,
        None => {
            return Err(String::from_str("Certificate is no text"));
        },
    };
    let chars = chars_of(text);
    if chars.len() < 4 {
        return Err(String::from_str("Reply has no body"));
    }
    let last: usize = chars.len() - 4;
    let mut cut: usize = 0;
    while cut <= last && !(chars[cut] == '\r' && chars[cut + 1] == '\n' && chars[cut + 2]
        == '\r' && chars[cut + 3] == '\n')
        invariant
            cut <= last + 1,
            last + 4 == chars.len(),
            head_end(chars@, 0) == head_end(chars@, cut as int),
        decreases last + 1 - cut,
    {
        cut += 1;
    }
    if cut > last {
        return Err(String::from_str("Reply has no body"));
    }
    let head_text = text.substring_char(0, cut);
    let head = chars_of(head_text);
    assert(head@ =~= chars@.take(cut as int));
    let first = scan_run(&head, true, 0);
    let second = scan_run(&head, false, first);
    let start = scan_run(&head, true, second);
    let end = scan_run(&head, false, start);
    let status = head_text.substring_char(start, end);
    if start < end && head[start] == '2' {
        assert(chars@.skip(cut + 4) =~= chars@.subrange(cut + 4, chars.len() as int));
        Ok(text.substring_char(cut + 4, chars.len()).to_owned())
    } else {
        let mut reason = String::from_str("Testing system answered ");
        reason.append(status);
        Err(reason)
    }
}

} // verus!
