//! What is sent to the clients of the sidebar.
use vstd::prelude::*;

use super::comparison::snapshots_equal;
use super::state::{SidebarSnapshot, SidebarSnapshotView};
use crate::values::Value;

verus! {

/// The largest snapshot that clients take, in bytes.
pub const MAX_SNAPSHOT_SIZE: usize = 1_048_576;

/// The four bytes of a number, the greatest first.
pub open spec fn size_bytes(size: nat) -> Seq<u8> {
    seq![
        (size / 16777216 % 256) as u8,
        (size / 65536 % 256) as u8,
        (size / 256 % 256) as u8,
        (size % 256) as u8,
    ]
}

/// Data behind its size.
pub open spec fn framed(data: Seq<u8>) -> Seq<u8> {
    size_bytes(data.len()) + data
}

/// The number that four bytes spell.
pub open spec fn size_of_bytes(bytes: Seq<u8>) -> nat {
    (bytes[0] * 16777216 + bytes[1] * 65536 + bytes[2] * 256 + bytes[3]) as nat
}

/// The first data in a stream, and what follows it.
pub open spec fn unframed(stream: Seq<u8>) -> Option<(Seq<u8>, Seq<u8>)> {
    if stream.len() < 4 || stream.len() < 4 + size_of_bytes(stream) {
        None
    } else {
        let size = size_of_bytes(stream) as int;
        Some((stream.subrange(4, 4 + size), stream.skip(4 + size)))
    }
}

/// A client reads out of the stream what was put in.
pub proof fn frames_are_read_back(data: Seq<u8>, rest: Seq<u8>)
    requires
        data.len() <= MAX_SNAPSHOT_SIZE,
    ensures
        unframed(framed(data) + rest) == Some((data, rest)),
{
    let stream = framed(data) + rest;
    let size = data.len() as int;
    assert(stream[0] == size_bytes(data.len())[0]);
    assert(stream[1] == size_bytes(data.len())[1]);
    assert(stream[2] == size_bytes(data.len())[2]);
    assert(stream[3] == size_bytes(data.len())[3]);
    assert(size / 16777216 % 256 * 16777216 + size / 65536 % 256 * 65536 + size / 256 % 256 * 256
        + size % 256 == size) by {
        assert(size / 16777216 % 256 == 0);
    }
    assert(size_of_bytes(stream) == size);
    assert(stream.subrange(4, 4 + size) =~= data);
    assert(stream.skip(4 + size) =~= rest);
}

/// Puts the size before data.
pub fn frame(data: &Vec<u8>) -> (payload: Vec<u8>)
    requires
        data@.len() <= MAX_SNAPSHOT_SIZE,
    ensures
        payload@ == framed(data@),
{
    let size: usize = data.len();
    let mut payload: Vec<u8> = Vec::new();
    payload.push((size / 16777216 % 256) as u8);
    payload.push((size / 65536 % 256) as u8);
    payload.push((size / 256 % 256) as u8);
    payload.push((size % 256) as u8);
    for i in 0..size
        invariant
            size == data@.len(),
            payload@ == size_bytes(data@.len()) + data@.take(i as int),
    {
        payload.push(data[i]);
        assert(data@.take(i + 1) =~= data@.take(i as int).push(data@[i as int]));
    }
    assert(data@.take(data@.len() as int) =~= data@);
    payload
}

/// The last snapshot that was published.
pub struct BroadcastCache {
    pub snapshot: Option<SidebarSnapshot>,
    /// The snapshot as it is sent; empty before the first.
    pub payload: Vec<u8>,
    /// How many snapshots were published, and zero again behind the greatest number.
    pub generation: u64,
}

/// The last snapshot that was published.
#[verifier::ext_equal]
pub struct BroadcastView {
    pub snapshot: Option<SidebarSnapshotView>,
    pub payload: Seq<u8>,
    pub generation: u64,
}

impl DeepView for BroadcastCache {
    type V = BroadcastView;

    open spec fn deep_view(&self) -> BroadcastView {
        BroadcastView {
            snapshot: self.snapshot.deep_view(),
            payload: self.payload@,
            generation: self.generation,
        }
    }
}

/// Whether a snapshot looks other than the last one.
pub open spec fn is_news(cache: BroadcastView, snapshot: SidebarSnapshotView) -> bool {
    match cache.snapshot {
        Some(last) => super::comparison::visible(last) != super::comparison::visible(snapshot),
        None => true,
    }
}

/// The number behind a number, and zero behind the greatest.
pub open spec fn next_generation(generation: u64) -> u64 {
    if generation == u64::MAX {
        0
    } else {
        (generation + 1) as u64
    }
}

/// What is published last once a snapshot was offered; `data` is its stored form, if it has one.
pub open spec fn published(
    cache: BroadcastView,
    snapshot: SidebarSnapshotView,
    data: Option<Seq<u8>>,
) -> BroadcastView {
    if is_news(cache, snapshot) && data is Some && data->0.len() <= MAX_SNAPSHOT_SIZE {
        BroadcastView {
            snapshot: Some(snapshot),
            payload: framed(data->0),
            generation: next_generation(cache.generation),
        }
    } else {
        cache
    }
}

impl BroadcastCache {
    /// Before the first snapshot.
    pub fn new() -> (cache: Self)
        ensures
            cache.deep_view() == (BroadcastView {
                snapshot: None,
                payload: Seq::empty(),
                generation: 0,
            }),
    {
        let cache = BroadcastCache { snapshot: None, payload: Vec::new(), generation: 0 };
        assert(cache.payload@ =~= Seq::<u8>::empty());
        cache
    }

    /// Whether a snapshot looks other than the last one, so that it is worth storing.
    pub fn needs_publish(&self, snapshot: &SidebarSnapshot) -> (news: bool)
        ensures
            news == is_news(self.deep_view(), snapshot.deep_view()),
    {
        match &self.snapshot {
            Some(last) => !snapshots_equal(last, snapshot),
            None => true,
        }
    }

    /// Publishes a snapshot when it looks other than the last one, could be stored and is not too
    /// large, and says whether it did.
    pub fn broadcast(&mut self, snapshot: &SidebarSnapshot, data: Option<Vec<u8>>) -> (sent: bool)
        ensures
            final(self).deep_view() == published(
                old(self).deep_view(),
                snapshot.deep_view(),
                match data {
                    Some(data) => Some(data@),
                    None => None,
                },
            ),
            sent == (is_news(old(self).deep_view(), snapshot.deep_view()) && data is Some
                && data->0@.len() <= MAX_SNAPSHOT_SIZE),
    {
        if !self.needs_publish(snapshot) {
            return false;
        }
        match data {
            None => false,
            Some(data) => {
                if data.len() > MAX_SNAPSHOT_SIZE {
                    return false;
                }
                self.snapshot = Some(snapshot.dup());
                self.payload = frame(&data);
                self.generation = if self.generation == u64::MAX {
                    0
                } else {
                    self.generation + 1
                };
                true
            },
        }
    }

    /// Whether a client that was sent the payload of a generation may join: not if another one was
    /// published meanwhile, for then it is sent that one first.
    pub fn may_join(&self, sent: u64) -> (yes: bool)
        ensures
            yes == (self.deep_view().generation == sent),
    {
        self.generation == sent
    }
}

/// A client that is sent what is published last and joins while nothing else is published has seen
/// the last snapshot: whatever is published in between keeps it from joining.
pub proof fn joining_clients_are_up_to_date(
    cache: BroadcastView,
    snapshot: SidebarSnapshotView,
    data: Option<Seq<u8>>,
)
    ensures
        published(cache, snapshot, data).generation == cache.generation <==> published(
            cache,
            snapshot,
            data,
        ) == cache,
{
}

/// A snapshot that was published is not published again.
pub proof fn same_snapshot_is_sent_once(
    cache: BroadcastView,
    snapshot: SidebarSnapshotView,
    data: Option<Seq<u8>>,
    again: SidebarSnapshotView,
    stored: Option<Seq<u8>>,
)
    requires
        data is Some,
        data->0.len() <= MAX_SNAPSHOT_SIZE,
        super::comparison::visible(again) == super::comparison::visible(snapshot),
    ensures
        published(published(cache, snapshot, data), again, stored) == published(
            cache,
            snapshot,
            data,
        ),
{
}

/// What looking into the stream of a client without waiting gave.
#[derive(Debug, Clone, Copy, PartialEq, Eq, Structural)]
pub enum Peek {
    /// The client has ended its side.
    Ended,
    /// The client sent something.
    Data,
    /// Nothing is there.
    WouldBlock,
    Interrupted,
    /// It could not be looked into.
    Failed,
}

/// Whether a client is still there. Clients never send anything, so one that does is not kept.
pub fn stream_is_connected(peek: Peek) -> (yes: bool)
    ensures
        yes == (peek == Peek::WouldBlock || peek == Peek::Interrupted),
{
    match peek {
        Peek::WouldBlock => true,
        Peek::Interrupted => true,
        _ => false,
    }
}

/// What is sent begins with the size of the data in four bytes, the greatest first, and ends with the data.
pub proof fn frames_begin_with_their_size(data: Seq<u8>)
    requires
        data.len() <= 1_048_576,
    ensures
        ({
            let payload = framed(data);
            &&& payload.len() == 4 + data.len()
            &&& payload[0] * 0x1000000 + payload[1] * 0x10000 + payload[2] * 0x100 + payload[3]
                == data.len()
            &&& payload.skip(4) == data
        }),
{
    let payload = framed(data);
    let size = data.len() as int;
    assert(size / 16777216 % 256 == 0);
    assert(payload.skip(4) =~= data);
}

/// A snapshot is published if it is the first or looks other than the last one, could be stored, and has no more
/// than a mebibyte; then it is the last one, and it has a generation of its own. Else all stays as it was.
pub proof fn news_are_published(
    cache: BroadcastView,
    snapshot: SidebarSnapshotView,
    data: Option<Seq<u8>>,
)
    ensures
        ({
            let after = published(cache, snapshot, data);
            let news = cache.snapshot is None || super::comparison::visible(cache.snapshot->0)
                != super::comparison::visible(snapshot);
            let fits = data is Some && data->0.len() <= 1_048_576;
            &&& is_news(cache, snapshot) <==> news
            &&& !(news && fits) ==> after == cache
            &&& news && fits ==> after.snapshot == Some(snapshot) && after.payload == framed(data->0)
                && after.generation != cache.generation
            &&& news && fits && cache.generation < u64::MAX ==> after.generation
                == cache.generation + 1
        }),
{
}

} // verus!
