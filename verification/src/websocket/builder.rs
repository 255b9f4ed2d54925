//! How a connection is to be made.

use vstd::prelude::*;

use crate::batched::Batched;
use crate::boundary;
use crate::secure::{TlsCertificate, TlsIdentity, TlsOptions, TlsProtocol};
use crate::websocket::frame;
use crate::websocket::frame::Frame;
use crate::websocket::handshake;
use crate::websocket::handshake::Handshake;
use crate::websocket::message::Fragmentation;
use crate::websocket::parsed_addr::ParsedAddr;
use crate::websocket::reassembly::ReassemblyView;
use crate::websocket::split::read::WebSocketReadHalf;
use crate::websocket::split::write::{WebSocketWriteHalf, WriteView};
use crate::websocket::text;
use crate::websocket::WebSocket;

verus! {

/// A builder used to customize the WebSocket handshake.
///
/// Handshake headers as well as subprotocols can be added and removed.
/// Methods prefixed with `tls_` allow for the customization of a secure
/// WebSocket connection.
#[derive(Debug)]
pub struct WebSocketBuilder {
    fragmentation: Fragmentation,
    additional_handshake_headers: Vec<(String, String)>,
    subprotocols: Vec<String>,
    tls: TlsOptions,
}

/// A builder as a mathematical value, but for what concerns a secure connection.
#[verifier::ext_equal]
pub struct BuilderView {
    pub fragmentation: Fragmentation,
    pub headers: Seq<(Seq<char>, Seq<char>)>,
    pub subprotocols: Seq<Seq<char>>,
}

/// Whether a header has another name than the given one.
pub open spec fn other_header(name: Seq<char>) -> spec_fn((Seq<char>, Seq<char>)) -> bool {
    |header: (Seq<char>, Seq<char>)| header.0 != name
}

/// Whether a subprotocol is another one than the given one.
pub open spec fn other_subprotocol(name: Seq<char>) -> spec_fn(Seq<char>) -> bool {
    |s: Seq<char>| s != name
}

impl BuilderView {
    /// With one header more, behind the others.
    pub open spec fn with_header(self, name: Seq<char>, value: Seq<char>) -> BuilderView {
        BuilderView { headers: self.headers.push((name, value)), ..self }
    }

    /// Without the headers of the given name.
    pub open spec fn without_header(self, name: Seq<char>) -> BuilderView {
        BuilderView { headers: self.headers.filter(other_header(name)), ..self }
    }

    /// With one subprotocol more, behind the others.
    pub open spec fn with_subprotocol(self, subprotocol: Seq<char>) -> BuilderView {
        BuilderView { subprotocols: self.subprotocols.push(subprotocol), ..self }
    }

    /// Without the given subprotocol.
    pub open spec fn without_subprotocol(self, subprotocol: Seq<char>) -> BuilderView {
        BuilderView {
            subprotocols: self.subprotocols.filter(other_subprotocol(subprotocol)),
            ..self
        }
    }
}

impl View for WebSocketBuilder {
    type V = BuilderView;

    closed spec fn view(&self) -> BuilderView {
        BuilderView {
            fragmentation: self.fragmentation,
            headers: handshake::header_views(self.additional_handshake_headers@),
            subprotocols: text::texts(self.subprotocols@),
        }
    }
}

impl WebSocketBuilder {
    /// The choices that a secure connection is made with.
    pub closed spec fn tls(&self) -> TlsOptions {
        self.tls
    }

    /// A builder with the defaults.
    pub fn new() -> (r: Self)
        ensures
            r@ == (BuilderView {
                fragmentation: Fragmentation::Disabled,
                headers: Seq::empty(),
                subprotocols: Seq::empty(),
            }),
            !r.tls().accept_invalid_certs,
            !r.tls().accept_invalid_hostnames,
            r.tls().root_certificates@.len() == 0,
            !r.tls().disable_built_in_roots,
            r.tls().identity is None,
            r.tls().max_protocol_version is None,
            r.tls().min_protocol_version == Some(TlsProtocol::Tlsv10),
            r.tls().use_sni,
    {
        let r: WebSocketBuilder = WebSocketBuilder {
            fragmentation: Fragmentation::Disabled,
            additional_handshake_headers: Vec::new(),
            subprotocols: Vec::new(),
            tls: TlsOptions::new(),
        };
        assert(r@.headers =~= Seq::empty());
        assert(r@.subprotocols =~= Seq::empty());
        r
    }

    /// The choices that a secure connection is made with.
    pub fn tls_options(&self) -> (r: &TlsOptions)
        ensures
            *r == self.tls(),
    {
        &self.tls
    }

    /// Define the fragmentation strategy employed by this websocket.
    /// Defaults to doing no fragmentation.
    pub fn fragmentation(self, strategy: Fragmentation) -> (r: Self)
        ensures
            r@ == (BuilderView { fragmentation: strategy, ..self@ }),
            r.tls() == self.tls(),
    {
        WebSocketBuilder { fragmentation: strategy, ..self }
    }

    /// Adds a header to be sent in the WebSocket handshake.
    pub fn add_header(self, header_name: &str, header_value: &str) -> (r: Self)
        ensures
            r@ == (BuilderView {
                headers: self@.headers.push((header_name@, header_value@)),
                ..self@
            }),
            r@ == self@.with_header(header_name@, header_value@),
            r.tls() == self.tls(),
    {
        let mut headers: Vec<(String, String)> = self.additional_handshake_headers;
        handshake::push_header(&mut headers, header_name, header_value);
        WebSocketBuilder { additional_handshake_headers: headers, ..self }
    }

    /// Removes a header which would be sent in the WebSocket handshake.
    pub fn remove_header(self, header_name: &str) -> (r: Self)
        ensures
            r@ == (BuilderView {
                headers: self@.headers.filter(
                    |header: (Seq<char>, Seq<char>)| header.0 != header_name@,
                ),
                ..self@
            }),
            r@ == self@.without_header(header_name@),
            r.tls() == self.tls(),
    {
        let ghost all = self.additional_handshake_headers@;
        let ghost views = handshake::header_views(all);
        let ghost keep = |header: (Seq<char>, Seq<char>)| header.0 != header_name@;
        assert(keep =~= other_header(header_name@));
        let name: String = header_name.to_owned();
        let mut headers: Vec<(String, String)> = Vec::new();
        proof {
            reveal(Seq::filter);
            assert(views.take(0) =~= Seq::empty());
            assert(handshake::header_views(headers@) =~= Seq::empty());
        }
        for header in iter: self.additional_handshake_headers
            invariant
                iter.seq() == all,
                views == handshake::header_views(all),
                name@ == header_name@,
                keep == (|header: (Seq<char>, Seq<char>)| header.0 != header_name@),
                handshake::header_views(headers@) == views.take(iter.index()).filter(keep),
        {
            let ghost next = views.take(iter.index() + 1);
            let ghost before = headers@;
            proof {
                reveal(Seq::filter);
                assert(next.drop_last() =~= views.take(iter.index()));
                assert(next.last() == (header.0@, header.1@));
            }
            if header.0 != name {
                headers.push(header);
                assert(handshake::header_views(headers@) =~= handshake::header_views(before).push(
                    (header.0@, header.1@),
                ));
            }
        }
        assert(views.take(views.len() as int) =~= views);
        WebSocketBuilder { additional_handshake_headers: headers, ..self }
    }

    /// Adds a subprotocol to the list of subprotocols to be sent in the
    /// WebSocket handshake. The server may select a subprotocol from this list.
    /// If it does, the selected subprotocol can be found using the
    /// [`WebSocket::accepted_subprotocol()`] method.
    pub fn add_subprotocol(self, subprotocol: &str) -> (r: Self)
        ensures
            r@ == (BuilderView { subprotocols: self@.subprotocols.push(subprotocol@), ..self@ }),
            r@ == self@.with_subprotocol(subprotocol@),
            r.tls() == self.tls(),
    {
        let mut subprotocols: Vec<String> = self.subprotocols;
        subprotocols.push(subprotocol.to_owned());
        assert(text::texts(subprotocols@) =~= self@.subprotocols.push(subprotocol@));
        WebSocketBuilder { subprotocols, ..self }
    }

    /// Removes a subprotocol from the list of subprotocols that would be sent
    /// in the WebSocket handshake.
    pub fn remove_subprotocol(self, subprotocol: &str) -> (r: Self)
        ensures
            r@ == (BuilderView {
                subprotocols: self@.subprotocols.filter(|s: Seq<char>| s != subprotocol@),
                ..self@
            }),
            r@ == self@.without_subprotocol(subprotocol@),
            r.tls() == self.tls(),
    {
        let ghost all = self.subprotocols@;
        let ghost views = text::texts(all);
        let ghost keep = |s: Seq<char>| s != subprotocol@;
        assert(keep =~= other_subprotocol(subprotocol@));
        let name: String = subprotocol.to_owned();
        let mut subprotocols: Vec<String> = Vec::new();
        proof {
            reveal(Seq::filter);
            assert(views.take(0) =~= Seq::empty());
            assert(text::texts(subprotocols@) =~= Seq::empty());
        }
        for item in iter: self.subprotocols
            invariant
                iter.seq() == all,
                views == text::texts(all),
                name@ == subprotocol@,
                keep == (|s: Seq<char>| s != subprotocol@),
                text::texts(subprotocols@) == views.take(iter.index()).filter(keep),
        {
            let ghost next = views.take(iter.index() + 1);
            let ghost before = subprotocols@;
            proof {
                reveal(Seq::filter);
                assert(next.drop_last() =~= views.take(iter.index()));
                assert(next.last() == item@);
            }
            if item != name {
                subprotocols.push(item);
                assert(text::texts(subprotocols@) =~= text::texts(before).push(item@));
            }
        }
        assert(views.take(views.len() as int) =~= views);
        WebSocketBuilder { subprotocols, ..self }
    }

    /// Controls the use of certificate validation. Defaults to false.
    pub fn tls_danger_accept_invalid_certs(self, accept_invalid_certs: bool) -> (r: Self)
        ensures
            r.tls() == (TlsOptions { accept_invalid_certs, ..self.tls() }),
            r@ == self@,
    {
        WebSocketBuilder { tls: TlsOptions { accept_invalid_certs, ..self.tls }, ..self }
    }

    /// Controls the use of hostname verification. Defaults to false.
    pub fn tls_danger_accept_invalid_hostnames(self, accept_invalid_hostnames: bool) -> (r: Self)
        ensures
            r.tls() == (TlsOptions { accept_invalid_hostnames, ..self.tls() }),
            r@ == self@,
    {
        WebSocketBuilder { tls: TlsOptions { accept_invalid_hostnames, ..self.tls }, ..self }
    }

    /// Adds a certificate to the set of roots that the connector will trust.
    /// The connector will use the system's trust root by default. This method can be used to add
    /// to that set when communicating with servers not trusted by the system.
    /// Defaults to an empty set.
    pub fn tls_add_root_certificate(self, cert: TlsCertificate) -> (r: Self)
        ensures
            r.tls().root_certificates@ == self.tls().root_certificates@.push(cert),
            r.tls() == (TlsOptions {
                root_certificates: r.tls().root_certificates,
                ..self.tls()
            }),
            r@ == self@,
    {
        let mut tls: TlsOptions = self.tls;
        tls.root_certificates.push(cert);
        WebSocketBuilder { tls, ..self }
    }

    /// Controls the use of built-in system certificates during certificate validation.
    /// Defaults to false -- built-in system certs will be used.
    pub fn tls_disable_built_in_roots(self, disable: bool) -> (r: Self)
        ensures
            r.tls() == (TlsOptions { disable_built_in_roots: disable, ..self.tls() }),
            r@ == self@,
    {
        WebSocketBuilder { tls: TlsOptions { disable_built_in_roots: disable, ..self.tls }, ..self }
    }

    /// Sets the identity to be used for client certificate authentication.
    pub fn tls_identity(self, identity: TlsIdentity) -> (r: Self)
        ensures
            r.tls() == (TlsOptions { identity: Some(identity), ..self.tls() }),
            r@ == self@,
    {
        WebSocketBuilder { tls: TlsOptions { identity: Some(identity), ..self.tls }, ..self }
    }

    /// Sets the maximum supported TLS protocol version.
    /// A value of None enables support for the newest protocols supported by the implementation.
    /// Defaults to None.
    pub fn tls_max_protocol_version(self, protocol: Option<TlsProtocol>) -> (r: Self)
        ensures
            r.tls() == (TlsOptions { max_protocol_version: protocol, ..self.tls() }),
            r@ == self@,
    {
        WebSocketBuilder { tls: TlsOptions { max_protocol_version: protocol, ..self.tls }, ..self }
    }

    /// Sets the minimum supported TLS protocol version.
    /// A value of None enables support for the oldest protocols supported by the implementation.
    /// Defaults to `Some(TlsProtocol::Tlsv10)`.
    pub fn tls_min_protocol_version(self, protocol: Option<TlsProtocol>) -> (r: Self)
        ensures
            r.tls() == (TlsOptions { min_protocol_version: protocol, ..self.tls() }),
            r@ == self@,
    {
        WebSocketBuilder { tls: TlsOptions { min_protocol_version: protocol, ..self.tls }, ..self }
    }

    /// Controls the use of Server Name Indication (SNI).
    /// Defaults to true.
    pub fn tls_use_sni(self, use_sni: bool) -> (r: Self)
        ensures
            r.tls() == (TlsOptions { use_sni, ..self.tls() }),
            r@ == self@,
    {
        WebSocketBuilder { tls: TlsOptions { use_sni, ..self.tls }, ..self }
    }

    /// The handshake with the given address, with a random key.
    pub fn handshake(&self, addr: &ParsedAddr) -> (r: Handshake)
        ensures
            r@.addr == addr@,
            r@.version == 13,
            r@.additional_headers == self@.headers,
            r@.subprotocols == self@.subprotocols,
            exists|nonce: Seq<u8>|
                nonce.len() == 16 && r@.key == #[trigger] boundary::base64_encoded(nonce),
    {
        Handshake::new(addr, &self.additional_handshake_headers, &self.subprotocols)
    }

    /// A connection at its start, once frames can be handed to the given sink. What the read half
    /// puts into its channel reaches the write half, and the other way round.
    pub fn connection<Si>(self, sink: Si) -> (r: WebSocket<Si>)
        ensures
            r.reading() == ReassemblyView::fresh(),
            r.writing() == (WriteView {
                queue: Seq::empty(),
                fragmentation: self@.fragmentation,
                shutdown: false,
                sent_closed: false,
            }),
            r.sink() == sink,
            r.held() is None,
            r.subprotocol() is None,
            r.response_headers() is None,
            r.halves().read.sent().len() == 0,
            r.halves().read.collected().len() == 0,
            r.halves().write.taken().len() == 0,
            r.halves().write.passed_on().len() == 0,
            boundary::event_channel_in(r.halves().read.channels().0) == boundary::event_channel_out(
                r.halves().write.channels().0,
            ),
            boundary::pong_channel_in(r.halves().write.channels().1) == boundary::pong_channel_out(
                r.halves().read.channels().1,
            ),
    {
        let (event_sender, event_receiver) = boundary::event_channel();
        let (pong_sender, pong_receiver) = boundary::pong_channel();
        let stream: Batched<Si, Frame> = Batched::new(sink, 16);
        assert(frame::frame_views(stream.queue()) =~= Seq::empty());
        WebSocket::join(
            WebSocketReadHalf::new(event_sender, pong_receiver),
            WebSocketWriteHalf::new(stream, self.fragmentation, event_receiver, pong_sender),
        )
    }
}

/// A removed header is not sent, and every other header is sent as it was.
pub proof fn law_removed_header_is_gone(headers: Seq<(Seq<char>, Seq<char>)>, name: Seq<char>)
    ensures
        ({
            let left = headers.filter(|header: (Seq<char>, Seq<char>)| header.0 != name);
            &&& forall|i: int| 0 <= i < left.len() ==> (#[trigger] left[i]).0 != name
            &&& forall|i: int|
                0 <= i < headers.len() && headers[i].0 != name ==> left.contains(
                    #[trigger] headers[i],
                )
        }),
{
    let keep = |header: (Seq<char>, Seq<char>)| header.0 != name;
    let left = headers.filter(keep);
    assert forall|i: int| 0 <= i < left.len() implies (#[trigger] left[i]).0 != name by {
        headers.lemma_filter_pred(keep, i);
    }
    assert forall|i: int| 0 <= i < headers.len() && headers[i].0 != name implies left.contains(
        #[trigger] headers[i],
    ) by {
        headers.lemma_filter_contains(keep, i);
    }
}

/// A removed subprotocol is not offered, and every other one is offered as it was.
pub proof fn law_removed_subprotocol_is_gone(subprotocols: Seq<Seq<char>>, name: Seq<char>)
    ensures
        ({
            let left = subprotocols.filter(|s: Seq<char>| s != name);
            &&& forall|i: int| 0 <= i < left.len() ==> (#[trigger] left[i]) != name
            &&& forall|i: int|
                0 <= i < subprotocols.len() && subprotocols[i] != name ==> left.contains(
                    #[trigger] subprotocols[i],
                )
        }),
{
    let keep = |s: Seq<char>| s != name;
    let left = subprotocols.filter(keep);
    assert forall|i: int| 0 <= i < left.len() implies (#[trigger] left[i]) != name by {
        subprotocols.lemma_filter_pred(keep, i);
    }
    assert forall|i: int|
        0 <= i < subprotocols.len() && subprotocols[i] != name implies left.contains(
        #[trigger] subprotocols[i],
    ) by {
        subprotocols.lemma_filter_contains(keep, i);
    }
}

/// What is added comes last, and what is removed leaves no trace: to remove a header or a subprotocol
/// right after it was added comes to the same as to remove it at once. Another one stays, in its
/// place, whichever comes first. None of this touches anything else.
pub proof fn law_what_is_removed_leaves_no_trace(
    builder: BuilderView,
    name: Seq<char>,
    other: Seq<char>,
    value: Seq<char>,
)
    requires
        name != other,
    ensures
        builder.with_header(name, value).without_header(name) == builder.without_header(name),
        builder.with_header(other, value).without_header(name) == builder.without_header(
            name,
        ).with_header(other, value),
        builder.with_header(name, value).headers.last() == (name, value),
        builder.with_header(name, value).headers.drop_last() == builder.headers,
        builder.with_subprotocol(name).without_subprotocol(name) == builder.without_subprotocol(
            name,
        ),
        builder.with_subprotocol(other).without_subprotocol(name) == builder.without_subprotocol(
            name,
        ).with_subprotocol(other),
        builder.with_subprotocol(name).subprotocols.last() == name,
        builder.with_subprotocol(name).subprotocols.drop_last() == builder.subprotocols,
        builder.with_header(name, value).subprotocols == builder.subprotocols,
        builder.without_header(name).subprotocols == builder.subprotocols,
        builder.with_subprotocol(name).headers == builder.headers,
        builder.without_subprotocol(name).headers == builder.headers,
        builder.without_header(name).fragmentation == builder.fragmentation,
        builder.with_header(name, value).fragmentation == builder.fragmentation,
        builder.without_subprotocol(name).fragmentation == builder.fragmentation,
        builder.with_subprotocol(name).fragmentation == builder.fragmentation,
{
    reveal(Seq::filter);
    let headers = builder.headers;
    let subprotocols = builder.subprotocols;
    assert(headers.push((name, value)).drop_last() =~= headers);
    assert(headers.push((other, value)).drop_last() =~= headers);
    assert(subprotocols.push(name).drop_last() =~= subprotocols);
    assert(subprotocols.push(other).drop_last() =~= subprotocols);
}

/// A builder without a header has none of its name left, and all others in their order: nothing is
/// removed where no header has the name.
pub proof fn law_nothing_else_is_removed(builder: BuilderView, name: Seq<char>)
    ensures
        forall|i: int|
            0 <= i < builder.without_header(name).headers.len() ==> (
            #[trigger] builder.without_header(name).headers[i]).0 != name,
        (forall|i: int| 0 <= i < builder.headers.len() ==> (#[trigger] builder.headers[i]).0 != name)
            ==> builder.without_header(name) == builder,
        (forall|i: int|
            0 <= i < builder.subprotocols.len() ==> #[trigger] builder.subprotocols[i] != name)
            ==> builder.without_subprotocol(name) == builder,
        !builder.without_subprotocol(name).subprotocols.contains(name),
{
    assert forall|i: int| 0 <= i < builder.without_header(name).headers.len() implies (
    #[trigger] builder.without_header(name).headers[i]).0 != name by {
        builder.headers.lemma_filter_pred(other_header(name), i);
    }
    assert forall|i: int| 0 <= i < builder.without_subprotocol(name).subprotocols.len() implies
        #[trigger] builder.without_subprotocol(name).subprotocols[i] != name by {
        builder.subprotocols.lemma_filter_pred(other_subprotocol(name), i);
    }
    if forall|i: int| 0 <= i < builder.headers.len() ==> (#[trigger] builder.headers[i]).0 != name {
        lemma_all_stay(builder.headers, other_header(name));
    }
    if forall|i: int|
        0 <= i < builder.subprotocols.len() ==> #[trigger] builder.subprotocols[i] != name {
        lemma_all_stay(builder.subprotocols, other_subprotocol(name));
    }
}

/// A filter that keeps every item of a run keeps the run.
proof fn lemma_all_stay<T>(items: Seq<T>, keep: spec_fn(T) -> bool)
    requires
        forall|i: int| 0 <= i < items.len() ==> keep(#[trigger] items[i]),
    ensures
        items.filter(keep) == items,
    decreases items.len(),
{
    reveal(Seq::filter);
    if items.len() > 0 {
        let shorter = items.drop_last();
        assert forall|i: int| 0 <= i < shorter.len() implies keep(#[trigger] shorter[i]) by {
            assert(shorter[i] == items[i]);
        }
        lemma_all_stay(shorter, keep);
        assert(keep(items[items.len() - 1]));
        assert(shorter.push(items.last()) =~= items);
    } else {
        assert(items =~= Seq::empty());
    }
}

} // verus!
