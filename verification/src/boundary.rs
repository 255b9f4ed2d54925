//! What the library calls in other crates, and in the parts of the standard library that carry no
//! specification. The contracts in this file are taken on trust: each doc comment names the
//! function behind it and says what is believed of it.

use std::collections::VecDeque;

use rand::RngCore;
use rand::SeedableRng;
use rand_chacha::ChaCha20Rng;
use sha1::{Digest, Sha1};
use tokio::sync::oneshot;
use tokio_util::bytes::BytesMut;
use vstd::prelude::*;
use vstd::utf8::*;

use crate::websocket::ops::PingPayload;
use crate::websocket::split::read::Event;

verus! {

/// The growable byte buffer that a framed transport reads into and writes from.
#[verifier::external_type_specification]
#[verifier::external_body]
pub struct ExBytesMut(tokio_util::bytes::BytesMut);

/// The bytes that a buffer holds, in order.
pub uninterp spec fn buffered(buf: BytesMut) -> Seq<u8>;

/// `<BytesMut as AsRef<[u8]>>::as_ref`: the slice holds exactly the bytes of the buffer.
#[verifier::external_body]
pub(crate) fn buffer_bytes(buf: &BytesMut) -> (bytes: &[u8])
    ensures
        bytes@ == buffered(*buf),
{
    buf.as_ref()
}

/// `BytesMut::split_to`: takes the first `at` bytes out of the buffer and hands them over; what
/// follows them stays. It panics where the buffer is shorter than `at`.
#[verifier::external_body]
pub(crate) fn buffer_split_to(buf: &mut BytesMut, at: usize) -> (head: BytesMut)
    requires
        at <= buffered(*old(buf)).len(),
    ensures
        buffered(head) == buffered(*old(buf)).take(at as int),
        buffered(*final(buf)) == buffered(*old(buf)).skip(at as int),
{
    buf.split_to(at)
}

/// `BytesMut::extend_from_slice`: appends the bytes of the slice at the end of the buffer. It
/// panics where the length would overflow.
#[verifier::external_body]
pub(crate) fn buffer_extend(buf: &mut BytesMut, bytes: &[u8])
    requires
        buffered(*old(buf)).len() + bytes@.len() <= usize::MAX,
    ensures
        buffered(*final(buf)) == buffered(*old(buf)) + bytes@,
{
    buf.extend_from_slice(bytes)
}

/// The random number generator that masking keys and handshake nonces are drawn from.
#[verifier::external_type_specification]
#[verifier::external_body]
pub struct ExChaCha20Rng(rand_chacha::ChaCha20Rng);

/// `<ChaCha20Rng as SeedableRng>::from_entropy`: a generator seeded by the operating system.
/// Nothing is claimed of the generator that comes back. It panics on a system that has no entropy
/// to give, which no argument of a call can rule out.
#[verifier::external_body]
pub(crate) fn rng_from_entropy() -> ChaCha20Rng {
    ChaCha20Rng::from_entropy()
}

/// `<ChaCha20Rng as RngCore>::fill_bytes`: overwrites every byte of `dest` with random data and
/// changes the generator. The length stays; which bytes are written is left to chance.
#[verifier::external_body]
pub(crate) fn rng_fill_bytes(rng: &mut ChaCha20Rng, dest: &mut Vec<u8>)
    ensures
        final(dest)@.len() == old(dest)@.len(),
{
    rng.fill_bytes(dest)
}

/// `String::from_utf8`: succeeds exactly on well-formed UTF-8, and the string that comes back is
/// what those bytes encode.
#[verifier::external_body]
pub(crate) fn string_from_utf8(bytes: Vec<u8>) -> (text: Option<String>)
    ensures
        text is Some <==> valid_utf8(bytes@),
        text matches Some(s) ==> s@ == decode_utf8(bytes@),
{
    String::from_utf8(bytes).ok()
}

/// The text that bytes are encoded to in base64.
pub uninterp spec fn base64_encoded(bytes: Seq<u8>) -> Seq<char>;

/// The bytes that a text stands for in base64, if it is well-formed.
pub uninterp spec fn base64_decoded(text: Seq<u8>) -> Option<Seq<u8>>;

/// `base64::encode`: the bytes in the standard alphabet with padding. It panics where the length of
/// the text would overflow, which no slice is long enough for.
#[verifier::external_body]
pub(crate) fn base64_encode(bytes: &[u8]) -> (text: String)
    ensures
        text@ == base64_encoded(bytes@),
{
    base64::encode(bytes)
}

/// `base64::decode`: the bytes that the text stands for, in the standard alphabet; none if the text
/// is malformed. What `base64::encode` makes of bytes is decoded to those bytes.
#[verifier::external_body]
pub(crate) fn base64_decode(text: &[u8]) -> (bytes: Option<Vec<u8>>)
    ensures
        match bytes {
            Some(bytes) => base64_decoded(text@) == Some(bytes@),
            None => base64_decoded(text@) is None,
        },
        forall|source: Seq<u8>|
            source.len() <= isize::MAX && text@ == encode_utf8(
                #[trigger] base64_encoded(source),
            ) ==> (bytes matches Some(bytes) && bytes@ == source),
{
    base64::decode(text).ok()
}

/// The SHA-1 digest of data.
pub uninterp spec fn sha1_digest(data: Seq<u8>) -> Seq<u8>;

/// `sha1::Sha1`, with `new`, `update` and `finalize` of its trait `Digest`: the digest of the data,
/// which is 20 bytes long.
#[verifier::external_body]
pub(crate) fn sha1(data: &[u8]) -> (digest: Vec<u8>)
    ensures
        digest@ == sha1_digest(data@),
        digest@.len() == 20,
{
    let mut hasher = Sha1::new();
    hasher.update(data);
    hasher.finalize().to_vec()
}

/// The parts of a URL.
#[derive(Debug, PartialEq, Eq)]
pub struct UrlParts {
    pub scheme: String,
    pub host: Option<String>,
    pub port: Option<u16>,
    pub path: String,
    pub query: Option<String>,
}

/// The parts of a URL as a mathematical value.
#[verifier::ext_equal]
pub struct UrlPartsView {
    pub scheme: Seq<char>,
    pub host: Option<Seq<char>>,
    pub port: Option<u16>,
    pub path: Seq<char>,
    pub query: Option<Seq<char>>,
}

impl View for UrlParts {
    type V = UrlPartsView;

    open spec fn view(&self) -> UrlPartsView {
        UrlPartsView {
            scheme: self.scheme@,
            host: match self.host {
                Some(host) => Some(host@),
                None => None,
            },
            port: self.port,
            path: self.path@,
            query: match self.query {
                Some(query) => Some(query@),
                None => None,
            },
        }
    }
}

/// The parts of the URL that a text writes, if it is well-formed.
pub uninterp spec fn url_parts(text: Seq<char>) -> Option<UrlPartsView>;

/// `url::Url::parse`, and of the URL its `scheme`, `host_str`, `port_or_known_default`, `path` and
/// `query`: the parts are a function of the text alone. Which error a malformed text gives is not
/// stated.
#[verifier::external_body]
pub(crate) fn url_parse(text: &str) -> (parts: Result<UrlParts, url::ParseError>)
    ensures
        match parts {
            Ok(parts) => url_parts(text@) == Some(parts@),
            Err(_) => url_parts(text@) is None,
        },
{
    match url::Url::parse(text) {
        Ok(url) => Ok(
            UrlParts {
                scheme: url.scheme().to_owned(),
                host: url.host_str().map(str::to_owned),
                port: url.port_or_known_default(),
                path: url.path().to_owned(),
                query: url.query().map(str::to_owned),
            },
        ),
        Err(error) => Err(error),
    }
}

/// `VecDeque::shrink_to`: gives back memory that is not needed. The contents stay.
#[verifier::external_body]
pub(crate) fn deque_shrink_to<T>(deque: &mut VecDeque<T>, capacity: usize)
    ensures
        final(deque)@ == old(deque)@,
{
    deque.shrink_to(capacity)
}

/// `VecDeque::capacity`: how many elements fit without another allocation. Those that are there
/// fit; how many more do is up to the allocator.
#[verifier::external_body]
pub(crate) fn deque_capacity<T>(deque: &VecDeque<T>) -> (capacity: usize)
    ensures
        capacity >= deque@.len(),
{
    deque.capacity()
}

/// The sending end of a channel between tasks.
#[verifier::external_type_specification]
#[verifier::external_body]
#[verifier::reject_recursive_types(T)]
pub struct ExChannelSender<T>(flume::Sender<T>);

/// The receiving end of a channel between tasks.
#[verifier::external_type_specification]
#[verifier::external_body]
#[verifier::reject_recursive_types(T)]
pub struct ExChannelReceiver<T>(flume::Receiver<T>);

/// The sending end of a channel that carries a single value to a waiting task.
#[verifier::external_type_specification]
#[verifier::external_body]
#[verifier::reject_recursive_types(T)]
pub struct ExOneshotSender<T>(tokio::sync::oneshot::Sender<T>);

/// The channel for events that a sender puts values into.
pub uninterp spec fn event_channel_in(sender: flume::Sender<Event>) -> int;

/// The channel for events that a receiver takes values out of.
pub uninterp spec fn event_channel_out(receiver: flume::Receiver<Event>) -> int;

/// `flume::unbounded`, for events: a new channel without a bound. What goes in at the one end comes
/// out at the other: the two belong to one channel.
#[verifier::external_body]
pub(crate) fn event_channel() -> (ends: (flume::Sender<Event>, flume::Receiver<Event>))
    ensures
        event_channel_in(ends.0) == event_channel_out(ends.1),
{
    flume::unbounded()
}

/// The channel for pong future handles that a sender puts values into.
pub uninterp spec fn pong_channel_in(sender: flume::Sender<oneshot::Sender<PingPayload>>) -> int;

/// The channel for pong future handles that a receiver takes values out of.
pub uninterp spec fn pong_channel_out(
    receiver: flume::Receiver<oneshot::Sender<PingPayload>>,
) -> int;

/// `flume::unbounded`, for pong future handles: as with [`event_channel`], the two ends belong to
/// one channel.
#[verifier::external_body]
pub(crate) fn pong_channel() -> (ends: (
    flume::Sender<oneshot::Sender<PingPayload>>,
    flume::Receiver<oneshot::Sender<PingPayload>>,
))
    ensures
        pong_channel_in(ends.0) == pong_channel_out(ends.1),
{
    flume::unbounded()
}

/// The sending end of a channel, with a record of what was put into the channel by it, and of what
/// was to be put into it.
#[verifier::reject_recursive_types(T)]
pub struct ChannelSender<T> {
    sender: flume::Sender<T>,
    sent: Ghost<Seq<T>>,
    offered: Ghost<Seq<T>>,
}

impl<T> ChannelSender<T> {
    /// The end of the channel itself.
    pub closed spec fn end(&self) -> flume::Sender<T> {
        self.sender
    }

    /// All values that were put into the channel by this end, in order.
    pub closed spec fn sent(&self) -> Seq<T> {
        self.sent@
    }

    /// All values that were to be put into the channel by this end, in order, whether or not they
    /// were.
    pub closed spec fn offered(&self) -> Seq<T> {
        self.offered@
    }

    /// An end by which nothing was sent yet.
    pub fn new(sender: flume::Sender<T>) -> (r: Self)
        ensures
            r.end() == sender,
            r.sent() == Seq::<T>::empty(),
            r.offered() == Seq::<T>::empty(),
    {
        ChannelSender { sender, sent: Ghost(Seq::empty()), offered: Ghost(Seq::empty()) }
    }

    /// Puts a value into the channel if that is possible, and keeps a record that it was to be put
    /// in.
    pub(crate) fn offer(&mut self, value: T) -> (r: Result<(), T>)
        ensures
            final(self).end() == old(self).end(),
            match r {
                Ok(()) => final(self).sent() == old(self).sent().push(value),
                Err(returned) => returned == value && final(self).sent() == old(self).sent(),
            },
            final(self).offered() == old(self).offered().push(value),
    {
        let ghost offered = self.offered@.push(value);
        let r: Result<(), T> = self.send(value);
        self.offered = Ghost(offered);
        r
    }

    /// `flume::Sender::try_send`: puts a value into the channel, or gives it back if there is no
    /// receiver any more, or no room in a channel that has a bound. It never waits. Whether there is
    /// a receiver depends on other tasks, so nothing is claimed of that. The record is of the values
    /// that were put in.
    #[verifier::external_body]
    pub(crate) fn send(&mut self, value: T) -> (r: Result<(), T>)
        ensures
            final(self).end() == old(self).end(),
            match r {
                Ok(()) => final(self).sent() == old(self).sent().push(value),
                Err(returned) => returned == value && final(self).sent() == old(self).sent(),
            },
    {
        self.sender.try_send(value).map_err(flume::TrySendError::into_inner)
    }
}

/// The receiving end of a channel, with a record of what was taken out of the channel by it, and of
/// whether there was nothing left the last time.
#[verifier::reject_recursive_types(T)]
pub struct ChannelReceiver<T> {
    receiver: flume::Receiver<T>,
    taken: Ghost<Seq<T>>,
    exhausted: Ghost<bool>,
}

impl<T> ChannelReceiver<T> {
    /// The end of the channel itself.
    pub closed spec fn end(&self) -> flume::Receiver<T> {
        self.receiver
    }

    /// All values that were taken out of the channel by this end, in order.
    pub closed spec fn taken(&self) -> Seq<T> {
        self.taken@
    }

    /// Whether nothing came out of the channel the last time that it was asked for a value.
    pub closed spec fn exhausted(&self) -> bool {
        self.exhausted@
    }

    /// An end by which nothing was taken yet.
    pub fn new(receiver: flume::Receiver<T>) -> (r: Self)
        ensures
            r.end() == receiver,
            r.taken() == Seq::<T>::empty(),
            !r.exhausted(),
    {
        ChannelReceiver { receiver, taken: Ghost(Seq::empty()), exhausted: Ghost(false) }
    }

    /// Takes the next value out of the channel, if there is one at the moment, and keeps a record of
    /// whether there was.
    pub(crate) fn next(&mut self) -> (value: Option<T>)
        ensures
            final(self).end() == old(self).end(),
            match value {
                Some(value) => final(self).taken() == old(self).taken().push(value),
                None => final(self).taken() == old(self).taken(),
            },
            final(self).exhausted() == (value is None),
    {
        let value: Option<T> = self.try_recv();
        self.exhausted = Ghost(value is None);
        value
    }

    /// The end of the channel itself.
    pub fn get_ref(&self) -> (r: &flume::Receiver<T>)
        ensures
            *r == self.end(),
    {
        &self.receiver
    }

    /// `flume::Receiver::try_recv`: takes the next value out of the channel, if there is one at the
    /// moment. What other tasks have sent is not known, so nothing is claimed of the value but that
    /// the record tells of it.
    #[verifier::external_body]
    pub(crate) fn try_recv(&mut self) -> (value: Option<T>)
        ensures
            final(self).end() == old(self).end(),
            match value {
                Some(value) => final(self).taken() == old(self).taken().push(value),
                None => final(self).taken() == old(self).taken(),
            },
    {
        self.receiver.try_recv().ok()
    }
}

/// A record of the values that were handed to waiting tasks, each with the handle of its task.
#[verifier::reject_recursive_types(T)]
pub struct Deliveries<T> {
    handed: Ghost<Seq<(oneshot::Sender<T>, T)>>,
}

impl<T> Deliveries<T> {
    /// All values that were handed to waiting tasks, in order.
    pub closed spec fn handed(&self) -> Seq<(oneshot::Sender<T>, T)> {
        self.handed@
    }

    /// Nothing was handed to anyone yet.
    pub fn new() -> (r: Self)
        ensures
            r.handed() == Seq::<(oneshot::Sender<T>, T)>::empty(),
    {
        Deliveries { handed: Ghost(Seq::empty()) }
    }

    /// `tokio::sync::oneshot::Sender::send`: hands a value to the task that waits for it, or gives
    /// it back if none does any more. Whether one does depends on the task, so nothing is claimed of
    /// that. The record is of the values that were handed over, whether or not someone still waited.
    #[verifier::external_body]
    pub(crate) fn send(&mut self, sender: oneshot::Sender<T>, value: T) -> (r: Result<(), T>)
        ensures
            final(self).handed() == old(self).handed().push((sender, value)),
            r matches Err(returned) ==> returned == value,
    {
        sender.send(value)
    }
}

} // verus!
