//! The opening handshake: the request of the client, and the check of the server's response.

use vstd::prelude::*;
use vstd::string::*;
use vstd::utf8::*;

use crate::boundary;
use crate::error::WebSocketError;
use crate::websocket::frame;
use crate::websocket::ops;
use crate::websocket::parsed_addr::{AddrView, ParsedAddr};
use crate::websocket::text;

verus! {

/// An opening handshake with a server.
#[derive(Debug)]
pub struct Handshake {
    addr: ParsedAddr,
    key: String,
    version: usize,
    additional_headers: Vec<(String, String)>,
    subprotocols: Vec<String>,
}

/// An opening handshake as a mathematical value.
#[verifier::ext_equal]
pub struct HandshakeView {
    pub addr: AddrView,
    pub key: Seq<char>,
    pub version: nat,
    pub additional_headers: Seq<(Seq<char>, Seq<char>)>,
    pub subprotocols: Seq<Seq<char>>,
}

/// The views of a run of headers.
pub open spec fn header_views(headers: Seq<(String, String)>) -> Seq<(Seq<char>, Seq<char>)> {
    Seq::new(headers.len(), |i: int| (headers[i].0@, headers[i].1@))
}

impl View for Handshake {
    type V = HandshakeView;

    closed spec fn view(&self) -> HandshakeView {
        HandshakeView {
            addr: self.addr@,
            key: self.key@,
            version: self.version as nat,
            additional_headers: header_views(self.additional_headers@),
            subprotocols: text::texts(self.subprotocols@),
        }
    }
}

/// The request that opens a handshake.
#[derive(Debug, PartialEq, Eq)]
pub struct HandshakeRequest {
    /// The address that is requested.
    pub uri: String,
    /// The headers, in order.
    pub headers: Vec<(String, String)>,
}

impl HandshakeView {
    /// The headers of the request: those that make it a WebSocket handshake, the subprotocols if
    /// there are any, and then the additional ones.
    pub open spec fn request_headers(self) -> Seq<(Seq<char>, Seq<char>)> {
        let fixed = seq![
            ("host"@, self.addr.authority()),
            ("upgrade"@, "websocket"@),
            ("connection"@, "Upgrade"@),
            ("sec-websocket-key"@, self.key),
            ("sec-websocket-version"@, text::decimal(self.version)),
        ];
        let protocols = if self.subprotocols.len() == 0 {
            Seq::empty()
        } else {
            seq![("sec-websocket-protocol"@, text::join(self.subprotocols, ", "@))]
        };
        fixed + protocols + self.additional_headers
    }

    /// The bytes whose digest proves that the server has read the request: the key, followed by
    /// the protocol's own identifier.
    pub open spec fn challenge(self) -> Seq<u8> {
        encode_utf8(self.key) + encode_utf8("258EAFA5-E914-47DA-95CA-C5AB0DC85B11"@)
    }

    /// Whether a response completes the handshake.
    pub open spec fn accepts(self, response: ResponseView) -> bool {
        response.upgrades() && match response.header("sec-websocket-accept"@) {
            Some(value) => boundary::base64_decoded(value) == Some(
                boundary::sha1_digest(self.challenge()),
            ),
            None => false,
        }
    }
}

/// The head of the server's response.
#[derive(Debug, PartialEq, Eq)]
pub struct HandshakeResponse {
    /// The status code.
    pub status: u16,
    /// The headers, in order.
    pub headers: Vec<(String, Vec<u8>)>,
}

/// The head of a response as a mathematical value.
#[verifier::ext_equal]
pub struct ResponseView {
    pub status: u16,
    pub headers: Seq<(Seq<char>, Seq<u8>)>,
}

/// The views of the headers of a response.
pub open spec fn response_header_views(headers: Seq<(String, Vec<u8>)>) -> Seq<
    (Seq<char>, Seq<u8>),
> {
    Seq::new(headers.len(), |i: int| (headers[i].0@, headers[i].1@))
}

impl View for HandshakeResponse {
    type V = ResponseView;

    open spec fn view(&self) -> ResponseView {
        ResponseView { status: self.status, headers: response_header_views(self.headers@) }
    }
}

/// The value of the first header with the given name. Case does not matter in names.
pub open spec fn find_header(headers: Seq<(Seq<char>, Seq<u8>)>, name: Seq<char>) -> Option<Seq<u8>>
    decreases headers.len(),
{
    if headers.len() == 0 {
        None
    } else if text::same_ignoring_case(encode_utf8(headers[0].0), encode_utf8(name)) {
        Some(headers[0].1)
    } else {
        find_header(headers.skip(1), name)
    }
}

impl ResponseView {
    /// The value of the first header with the given name.
    pub open spec fn header(self, name: Seq<char>) -> Option<Seq<u8>> {
        find_header(self.headers, name)
    }

    /// Whether a header has the given value, ignoring case.
    pub open spec fn says(self, name: Seq<char>, value: Seq<char>) -> bool {
        match self.header(name) {
            Some(found) => text::same_ignoring_case(found, encode_utf8(value)),
            None => false,
        }
    }

    /// The subprotocol that the server has chosen, if it is text.
    pub open spec fn subprotocol(self) -> Option<Seq<char>> {
        match self.header("sec-websocket-protocol"@) {
            Some(value) if valid_utf8(value) => Some(decode_utf8(value)),
            _ => None,
        }
    }

    /// Whether the server switches to the WebSocket protocol.
    pub open spec fn upgrades(self) -> bool {
        self.status == 101 && self.says("upgrade"@, "websocket"@) && self.says(
            "connection"@,
            "upgrade"@,
        )
    }
}

/// An optional slice as a mathematical value.
pub open spec fn optional_slice(bytes: Option<&[u8]>) -> Option<Seq<u8>> {
    match bytes {
        Some(bytes) => Some(bytes@),
        None => None,
    }
}

impl HandshakeResponse {
    /// The value of the first header with the given name. Case does not matter in names.
    pub fn header(&self, name: &str) -> (r: Option<&[u8]>)
        ensures
            optional_slice(r) == self@.header(name@),
            r matches Some(value) ==> exists|i: int|
                is_first_named(self@.headers, name@, i) && value@ == #[trigger] self@.headers[i].1,
            r is None ==> forall|i: int|
                0 <= i < self@.headers.len() ==> !text::same_ignoring_case(
                    encode_utf8(#[trigger] self@.headers[i].0),
                    encode_utf8(name@),
                ),
    {
        let ghost all = self@.headers;
        let mut i: usize = 0;
        assert(all.skip(0) =~= all);
        while i < self.headers.len()
            invariant
                i <= self.headers@.len(),
                all == response_header_views(self.headers@),
                find_header(all, name@) == find_header(all.skip(i as int), name@),
            decreases self.headers@.len() - i,
        {
            if text::eq_ignore_ascii_case(
                self.headers[i].0.as_str().as_bytes(),
                name.as_bytes(),
            ) {
                proof {
                    law_first_header_counts(self@, name@);
                    assert(self@.header(name@) == Some(all[i as int].1));
                }
                return Some(self.headers[i].1.as_slice());
            }
            assert(all.skip(i as int).skip(1) =~= all.skip(i + 1));
            i = i + 1;
        }
        proof {
            law_first_header_counts(self@, name@);
        }
        None
    }

    /// Whether a header has the given value, ignoring case.
    fn says(&self, name: &str, value: &str) -> (r: bool)
        ensures
            r == self@.says(name@, value@),
    {
        match self.header(name) {
            Some(found) => text::eq_ignore_ascii_case(found, value.as_bytes()),
            None => false,
        }
    }

    /// Whether the server switches to the WebSocket protocol.
    pub fn upgrades(&self) -> (r: bool)
        ensures
            r == self@.upgrades(),
    {
        self.status == 101 && self.says("upgrade", "websocket")
            && self.says("connection", "upgrade")
    }

    /// The error for a response that does not complete the handshake, given the text of its status
    /// and its body.
    pub fn into_error(self, status_code: String, body: Vec<u8>) -> (r: WebSocketError)
        ensures
            r == (WebSocketError::HandshakeFailedError {
                status_code,
                headers: self.headers,
                body,
            }),
    {
        WebSocketError::HandshakeFailedError { status_code, headers: self.headers, body }
    }

    /// The subprotocol that the server has chosen, if it is text.
    pub fn subprotocol(&self) -> (r: Option<String>)
        ensures
            ops::optional_text(r) == self@.subprotocol(),
    {
        match self.header("sec-websocket-protocol") {
            Some(value) => boundary::string_from_utf8(vstd::slice::slice_to_vec(value)),
            None => None,
        }
    }

    /// The headers whose values are text, in order.
    pub fn text_headers(&self) -> (r: Vec<(String, String)>)
        ensures
            header_views(r@) == text_header_views(self@.headers),
    {
        let ghost all = self@.headers;
        let mut out: Vec<(String, String)> = Vec::new();
        let mut i: usize = 0;
        assert(all.take(0) =~= Seq::empty());
        assert(header_views(out@) =~= Seq::empty());
        while i < self.headers.len()
            invariant
                i <= self.headers@.len(),
                all == response_header_views(self.headers@),
                header_views(out@) == text_header_views(all.take(i as int)),
            decreases self.headers@.len() - i,
        {
            let ghost next = all.take(i + 1);
            assert(next.drop_last() =~= all.take(i as int));
            assert(next.last() == (self.headers@[i as int].0@, self.headers@[i as int].1@));
            let value: Vec<u8> = vstd::slice::slice_to_vec(self.headers[i].1.as_slice());
            match boundary::string_from_utf8(value) {
                Some(value) => {
                    let ghost before = out@;
                    let name: String = self.headers[i].0.clone();
                    out.push((name, value));
                    assert(header_views(out@) =~= header_views(before).push((name@, value@)));
                },
                None => {},
            }
            i = i + 1;
        }
        assert(all.take(all.len() as int) =~= all);
        out
    }
}

/// The headers whose values are text, in order.
pub open spec fn text_header_views(headers: Seq<(Seq<char>, Seq<u8>)>) -> Seq<
    (Seq<char>, Seq<char>),
>
    decreases headers.len(),
{
    if headers.len() == 0 {
        Seq::empty()
    } else {
        let before = text_header_views(headers.drop_last());
        let (name, value) = headers.last();
        if valid_utf8(value) {
            before.push((name, decode_utf8(value)))
        } else {
            before
        }
    }
}

/// Copies a list of headers.
pub(crate) fn copy_headers(headers: &Vec<(String, String)>) -> (r: Vec<(String, String)>)
    ensures
        header_views(r@) == header_views(headers@),
{
    let mut out: Vec<(String, String)> = Vec::new();
    append_headers(&mut out, headers);
    assert(header_views(out@) =~= header_views(headers@));
    out
}

/// Appends a copy of a list of headers.
fn append_headers(out: &mut Vec<(String, String)>, headers: &Vec<(String, String)>)
    ensures
        header_views(final(out)@) == header_views(old(out)@) + header_views(headers@),
{
    let mut i: usize = 0;
    assert(header_views(headers@).take(0) =~= Seq::empty());
    assert(header_views(out@) + Seq::empty() =~= header_views(out@));
    while i < headers.len()
        invariant
            i <= headers@.len(),
            header_views(out@) == header_views(old(out)@) + header_views(headers@).take(i as int),
        decreases headers@.len() - i,
    {
        let ghost before = out@;
        push_header(out, headers[i].0.as_str(), headers[i].1.as_str());
        assert(header_views(headers@).take(i + 1) =~= header_views(headers@).take(i as int).push(
            (headers@[i as int].0@, headers@[i as int].1@),
        ));
        assert(header_views(out@) =~= header_views(old(out)@) + header_views(headers@).take(i + 1));
        i = i + 1;
    }
    assert(header_views(headers@).take(headers@.len() as int) =~= header_views(headers@));
}

/// Appends a header.
pub(crate) fn push_header(out: &mut Vec<(String, String)>, name: &str, value: &str)
    ensures
        header_views(final(out)@) == header_views(old(out)@).push((name@, value@)),
{
    let ghost before = out@;
    out.push((name.to_owned(), value.to_owned()));
    assert(header_views(out@) =~= header_views(before).push((name@, value@)));
}

/// Copies a list of strings.
pub(crate) fn copy_texts(strings: &Vec<String>) -> (r: Vec<String>)
    ensures
        text::texts(r@) == text::texts(strings@),
{
    let mut out: Vec<String> = Vec::new();
    let mut i: usize = 0;
    while i < strings.len()
        invariant
            i <= strings@.len(),
            out@.len() == i,
            forall|j: int| 0 <= j < i ==> (#[trigger] out@[j])@ == strings@[j]@,
        decreases strings@.len() - i,
    {
        out.push(strings[i].clone());
        i = i + 1;
    }
    assert(text::texts(out@) =~= text::texts(strings@));
    out
}

impl Handshake {
    /// Prepares a handshake with a random key.
    pub fn new(
        parsed_addr: &ParsedAddr,
        additional_handshake_headers: &Vec<(String, String)>,
        subprotocols: &Vec<String>,
    ) -> (r: Self)
        ensures
            r@.addr == parsed_addr@,
            r@.version == 13,
            r@.additional_headers == header_views(additional_handshake_headers@),
            r@.subprotocols == text::texts(subprotocols@),
            exists|nonce: Seq<u8>|
                nonce.len() == 16 && r@.key == #[trigger] boundary::base64_encoded(nonce),
    {
        let mut rand_bytes: Vec<u8> = vec![0, 0, 0, 0, 0, 0, 0, 0, 0, 0, 0, 0, 0, 0, 0, 0];
        let mut rng: rand_chacha::ChaCha20Rng = boundary::rng_from_entropy();
        boundary::rng_fill_bytes(&mut rng, &mut rand_bytes);
        let key: String = boundary::base64_encode(rand_bytes.as_slice());
        Handshake::with_key(parsed_addr, additional_handshake_headers, subprotocols, key)
    }

    /// Prepares a handshake with the given key.
    pub fn with_key(
        parsed_addr: &ParsedAddr,
        additional_handshake_headers: &Vec<(String, String)>,
        subprotocols: &Vec<String>,
        key: String,
    ) -> (r: Self)
        ensures
            r@ == (HandshakeView {
                addr: parsed_addr@,
                key: key@,
                version: 13,
                additional_headers: header_views(additional_handshake_headers@),
                subprotocols: text::texts(subprotocols@),
            }),
    {
        Handshake {
            addr: parsed_addr.clone(),
            key,
            version: 13,
            additional_headers: copy_headers(additional_handshake_headers),
            subprotocols: copy_texts(subprotocols),
        }
    }

    /// The request that opens the handshake.
    pub fn request(&self) -> (r: HandshakeRequest)
        requires
            self@.addr.security() is Some,
        ensures
            r.uri@ == self@.addr.http_uri(),
            header_views(r.headers@) == self@.request_headers(),
    {
        let mut headers: Vec<(String, String)> = Vec::new();
        let mut version: String = String::new();
        text::push_decimal(&mut version, self.version);
        assert(version@ =~= text::decimal(self.version as nat));
        push_header(&mut headers, "host", self.addr.authority().as_str());
        push_header(&mut headers, "upgrade", "websocket");
        push_header(&mut headers, "connection", "Upgrade");
        push_header(&mut headers, "sec-websocket-key", self.key.as_str());
        push_header(&mut headers, "sec-websocket-version", version.as_str());
        if self.subprotocols.len() > 0 {
            push_header(
                &mut headers,
                "sec-websocket-protocol",
                text::join_texts(&self.subprotocols, ", ").as_str(),
            );
        }
        append_headers(&mut headers, &self.additional_headers);
        assert(header_views(headers@) =~= self@.request_headers());
        HandshakeRequest { uri: self.addr.http_uri(), headers }
    }

    /// The digest that the server has to answer with.
    fn expected_hash(&self) -> (r: Vec<u8>)
        ensures
            r@ == boundary::sha1_digest(self@.challenge()),
            r@.len() == 20,
    {
        let mut data: Vec<u8> = vstd::slice::slice_to_vec(self.key.as_str().as_bytes());
        let mut id: Vec<u8> = vstd::slice::slice_to_vec(
            "258EAFA5-E914-47DA-95CA-C5AB0DC85B11".as_bytes(),
        );
        data.append(&mut id);
        assert(data@ =~= self@.challenge());
        boundary::sha1(data.as_slice())
    }

    /// Whether a response completes the handshake: the server switches protocols, and answers with
    /// the digest of the request's key in base64. A server that encodes that digest is accepted.
    pub fn accepts(&self, response: &HandshakeResponse) -> (r: bool)
        ensures
            r == self@.accepts(response@),
            response@.upgrades() && response@.header("sec-websocket-accept"@) == Some(
                encode_utf8(
                    boundary::base64_encoded(boundary::sha1_digest(self@.challenge())),
                ),
            ) ==> r,
    {
        if !response.upgrades() {
            return false;
        }
        match response.header("sec-websocket-accept") {
            Some(value) => answer_matches(&boundary::base64_decode(value), &self.expected_hash()),
            None => false,
        }
    }
}

/// Whether the server's answer, if it could be decoded, is the expected one.
pub fn answer_matches(decoded: &Option<Vec<u8>>, expected: &Vec<u8>) -> (r: bool)
    ensures
        r == (frame::optional_bytes(*decoded) == Some(expected@)),
{
    match decoded {
        Some(decoded) => text::bytes_equal(decoded.as_slice(), expected.as_slice()),
        None => false,
    }
}

/// Whether the header at the given place has the given name, but for case, and none before it has.
pub open spec fn is_first_named(
    headers: Seq<(Seq<char>, Seq<u8>)>,
    name: Seq<char>,
    i: int,
) -> bool {
    &&& 0 <= i < headers.len()
    &&& text::same_ignoring_case(encode_utf8(headers[i].0), encode_utf8(name))
    &&& forall|j: int|
        0 <= j < i ==> !text::same_ignoring_case(
            encode_utf8(#[trigger] headers[j].0),
            encode_utf8(name),
        )
}

/// However many headers there are, the first with a name gives its value, wherever it stands; and
/// nothing is found only where no header has the name.
pub proof fn law_first_header_counts(response: ResponseView, name: Seq<char>)
    ensures
        forall|i: int|
            0 <= i < response.headers.len() && text::same_ignoring_case(
                encode_utf8(#[trigger] response.headers[i].0),
                encode_utf8(name),
            ) && (forall|j: int|
                0 <= j < i ==> !text::same_ignoring_case(
                    encode_utf8(#[trigger] response.headers[j].0),
                    encode_utf8(name),
                )) ==> response.header(name) == Some(response.headers[i].1),
        response.header(name) is None <==> forall|i: int|
            0 <= i < response.headers.len() ==> !text::same_ignoring_case(
                encode_utf8(#[trigger] response.headers[i].0),
                encode_utf8(name),
            ),
        response.header(name) matches Some(value) ==> exists|i: int|
            is_first_named(response.headers, name, i) && value == #[trigger] response.headers[i].1,
{
    let headers = response.headers;
    let found = lemma_found_header(headers, name);
    if found < headers.len() {
        assert(is_first_named(headers, name, found));
    }
    assert forall|i: int|
        0 <= i < headers.len() && text::same_ignoring_case(
            encode_utf8(#[trigger] headers[i].0),
            encode_utf8(name),
        ) && (forall|j: int|
            0 <= j < i ==> !text::same_ignoring_case(
                encode_utf8(#[trigger] headers[j].0),
                encode_utf8(name),
            )) implies response.header(name) == Some(headers[i].1) by {
        assert(found <= i);
        if found < i {
            assert(!text::same_ignoring_case(encode_utf8(headers[found].0), encode_utf8(name)));
        }
    }
}

/// Where the header with a name is found: behind all headers if there is none.
proof fn lemma_found_header(headers: Seq<(Seq<char>, Seq<u8>)>, name: Seq<char>) -> (found: int)
    ensures
        0 <= found <= headers.len(),
        forall|j: int|
            0 <= j < found ==> !text::same_ignoring_case(
                encode_utf8(#[trigger] headers[j].0),
                encode_utf8(name),
            ),
        found < headers.len() ==> text::same_ignoring_case(
            encode_utf8(headers[found].0),
            encode_utf8(name),
        ) && find_header(headers, name) == Some(headers[found].1),
        found == headers.len() ==> find_header(headers, name) is None,
    decreases headers.len(),
{
    if headers.len() == 0 || text::same_ignoring_case(
        encode_utf8(headers[0].0),
        encode_utf8(name),
    ) {
        0
    } else {
        let rest = headers.skip(1);
        let later = lemma_found_header(rest, name);
        assert forall|j: int| 0 <= j < later + 1 implies !text::same_ignoring_case(
            encode_utf8(#[trigger] headers[j].0),
            encode_utf8(name),
        ) by {
            if j > 0 {
                assert(headers[j] == rest[j - 1]);
            }
        }
        later + 1
    }
}

/// A handshake is completed by a response with the status 101 whose first `Upgrade`, `Connection`
/// and `Sec-WebSocket-Accept` headers say, but for case, `websocket` and `upgrade`, and in base64
/// the digest of the key followed by the protocol's identifier; and by no other.
pub proof fn law_what_completes_a_handshake(
    handshake: HandshakeView,
    response: ResponseView,
    upgrade: int,
    connection: int,
    answer: int,
)
    requires
        is_first_named(response.headers, "upgrade"@, upgrade),
        is_first_named(response.headers, "connection"@, connection),
        is_first_named(response.headers, "sec-websocket-accept"@, answer),
    ensures
        handshake.accepts(response) <==> {
            &&& response.status == 101
            &&& text::same_ignoring_case(
                response.headers[upgrade].1,
                encode_utf8("websocket"@),
            )
            &&& text::same_ignoring_case(
                response.headers[connection].1,
                encode_utf8("upgrade"@),
            )
            &&& boundary::base64_decoded(response.headers[answer].1) == Some(
                boundary::sha1_digest(
                    encode_utf8(handshake.key) + encode_utf8(
                        "258EAFA5-E914-47DA-95CA-C5AB0DC85B11"@,
                    ),
                ),
            )
        },
{
    law_first_header_counts(response, "upgrade"@);
    law_first_header_counts(response, "connection"@);
    law_first_header_counts(response, "sec-websocket-accept"@);
}

/// A response in which one of the three headers is missing completes no handshake.
pub proof fn law_no_header_may_be_missing(
    handshake: HandshakeView,
    response: ResponseView,
    name: Seq<char>,
)
    requires
        name == "upgrade"@ || name == "connection"@ || name == "sec-websocket-accept"@,
        forall|i: int|
            0 <= i < response.headers.len() ==> !text::same_ignoring_case(
                encode_utf8(#[trigger] response.headers[i].0),
                encode_utf8(name),
            ),
    ensures
        !handshake.accepts(response),
{
    law_first_header_counts(response, name);
}

/// A request names the host with its port, asks for an upgrade to the WebSocket protocol, and tells
/// the key and the version; it lists the subprotocols if there are any; and all additional headers
/// follow as they are, in order.
pub proof fn law_request_holds_every_header(handshake: HandshakeView)
    ensures
        ({
            let sent = handshake.request_headers();
            let more = handshake.additional_headers;
            let fixed: int = if handshake.subprotocols.len() == 0 {
                5
            } else {
                6
            };
            &&& sent.len() == fixed + more.len()
            &&& sent[0] == ("host"@, handshake.addr.host + ":"@ + text::decimal(
                handshake.addr.port as nat,
            ))
            &&& sent[1] == ("upgrade"@, "websocket"@)
            &&& sent[2] == ("connection"@, "Upgrade"@)
            &&& sent[3] == ("sec-websocket-key"@, handshake.key)
            &&& sent[4] == ("sec-websocket-version"@, text::decimal(handshake.version))
            &&& handshake.subprotocols.len() > 0 ==> sent[5] == (
                "sec-websocket-protocol"@,
                text::join(handshake.subprotocols, ", "@),
            )
            &&& forall|i: int| 0 <= i < more.len() ==> sent[fixed + i] == #[trigger] more[i]
        }),
{
}

/// The headers whose values are text are kept, name and value, in order, and no others: what is
/// kept of two runs is what is kept of the first followed by what is kept of the second, and of a
/// single header it is the header itself if its value is text.
pub proof fn law_text_headers_are_kept(
    first: Seq<(Seq<char>, Seq<u8>)>,
    second: Seq<(Seq<char>, Seq<u8>)>,
)
    ensures
        text_header_views(first + second) == text_header_views(first) + text_header_views(second),
        first.len() == 1 ==> text_header_views(first) == if valid_utf8(first[0].1) {
            seq![(first[0].0, decode_utf8(first[0].1))]
        } else {
            Seq::empty()
        },
    decreases second.len(),
{
    let all = first + second;
    if second.len() == 0 {
        assert(all =~= first);
        assert(text_header_views(first) + text_header_views(second) =~= text_header_views(first));
    } else {
        law_text_headers_are_kept(first, second.drop_last());
        assert(all.drop_last() =~= first + second.drop_last());
        assert(all.last() == second.last());
        assert(text_header_views(all) =~= text_header_views(first) + text_header_views(second));
    }
    if first.len() == 1 {
        assert(first.drop_last() =~= Seq::empty());
        reveal_with_fuel(text_header_views, 2);
        assert(Seq::<(Seq<char>, Seq<char>)>::empty().push(
            (first[0].0, decode_utf8(first[0].1)),
        ) =~= seq![(first[0].0, decode_utf8(first[0].1))]);
    }
}

/// The subprotocol that counts is the first that the response names, if it is text.
pub proof fn law_first_subprotocol_counts(response: ResponseView, i: int)
    requires
        is_first_named(response.headers, "sec-websocket-protocol"@, i),
    ensures
        response.subprotocol() == if valid_utf8(response.headers[i].1) {
            Some(decode_utf8(response.headers[i].1))
        } else {
            None
        },
{
    law_first_header_counts(response, "sec-websocket-protocol"@);
}

/// The views of headers are those of the headers, one by one.
pub proof fn law_every_header_is_seen(sent: Seq<(String, String)>, received: HandshakeResponse)
    ensures
        header_views(sent).len() == sent.len(),
        forall|i: int|
            0 <= i < sent.len() ==> #[trigger] header_views(sent)[i] == (sent[i].0@, sent[i].1@),
        received@.status == received.status,
        received@.headers.len() == received.headers@.len(),
        forall|i: int|
            0 <= i < received.headers@.len() ==> #[trigger] received@.headers[i] == (
                received.headers@[i].0@,
                received.headers@[i].1@,
            ),
{
}

} // verus!
