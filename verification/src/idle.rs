//! Idle skip: a captured frame that equals the one before it is not encoded again.

use vstd::prelude::*;

verus! {

/// The 64-bit XXH3 hash of some bytes.
pub uninterp spec fn xxh3(data: Seq<u8>) -> u64;

/// `xxhash_rust::xxh3::xxh3_64`: the XXH3 hash with the default secret and no seed. The same bytes
/// have the same hash; nothing is said about which hash that is.
#[verifier::external_body]
fn xxh3_64(data: &[u8]) -> (hash: u64)
    ensures
        hash == xxh3(data@),
{
    xxhash_rust::xxh3::xxh3_64(data)
}

/// A frame with this hash is sent after a frame with the hash `last`.
pub open spec fn sends(last: Option<u64>, hash: u64) -> bool {
    last != Some(hash)
}

/// Remembers the hash of the last frame that was sent.
#[derive(Debug)]
pub struct IdleFilter {
    pub last_hash: Option<u64>,
}

impl IdleFilter {
    /// A filter that has seen no frame.
    pub fn new() -> (filter: IdleFilter)
        ensures
            filter.last_hash is None,
    {
        IdleFilter { last_hash: None }
    }

    /// Takes the hash of a frame: whether the frame is to be sent.
    pub fn pass(&mut self, hash: u64) -> (send: bool)
        ensures
            send == sends(old(self).last_hash, hash),
            final(self).last_hash == Some(hash),
    {
        if self.last_hash != Some(hash) {
            self.last_hash = Some(hash);
            true
        } else {
            false
        }
    }

    /// Takes a frame: whether it is to be sent to the encoder.
    pub fn pump_rgb(&mut self, rgb: &[u8]) -> (send: bool)
        ensures
            send == sends(old(self).last_hash, xxh3(rgb@)),
            final(self).last_hash == Some(xxh3(rgb@)),
    {
        let hash: u64 = xxh3_64(rgb);
        self.pass(hash)
    }
}

/// The hash that the filter remembers after some frames.
pub open spec fn last_after(last: Option<u64>, frames: Seq<Seq<u8>>) -> Option<u64> {
    if frames.len() == 0 {
        last
    } else {
        Some(xxh3(frames.last()))
    }
}

/// The frames that pass the filter.
pub open spec fn sent(last: Option<u64>, frames: Seq<Seq<u8>>) -> Seq<Seq<u8>>
    decreases frames.len(),
{
    if frames.len() == 0 {
        seq![]
    } else {
        let before = sent(last, frames.drop_last());
        if sends(last_after(last, frames.drop_last()), xxh3(frames.last())) {
            before.push(frames.last())
        } else {
            before
        }
    }
}

/// While the screen does not change, only its first frame is sent: repeating the last frame any
/// number of times sends nothing more.
pub proof fn idle_screen_sends_nothing(last: Option<u64>, frames: Seq<Seq<u8>>, repeats: nat)
    requires
        frames.len() > 0,
    ensures
        sent(last, frames + Seq::new(repeats, |i: int| frames.last())) == sent(last, frames),
    decreases repeats,
{
    let tail = Seq::new(repeats, |i: int| frames.last());
    if repeats == 0 {
        assert(frames + tail =~= frames);
    } else {
        let fewer = Seq::new((repeats - 1) as nat, |i: int| frames.last());
        idle_screen_sends_nothing(last, frames, (repeats - 1) as nat);
        assert((frames + tail).drop_last() =~= frames + fewer);
        assert((frames + tail).last() == frames.last());
        assert((frames + fewer).last() == frames.last());
    }
}

/// A frame whose hash differs from that of the frame before it is sent, and so is the first one.
pub proof fn changed_screen_is_sent(frames: Seq<Seq<u8>>, next: Seq<u8>)
    requires
        frames.len() > 0 ==> xxh3(frames.last()) != xxh3(next),
    ensures
        sent(None, frames.push(next)) == sent(None, frames).push(next),
{
    assert(frames.push(next).drop_last() =~= frames);
}

} // verus!
