//! The echo test of the accessory transport: a pattern goes out, comes back mixed with heartbeats,
//! and is compared.
//!
//! A heartbeat is two bytes of 0xFF. The pattern holds no 0xFF, so the two can be told apart.

use vstd::prelude::*;

use crate::aoa::Transfer;

verus! {

/// Each of the two bytes of a heartbeat.
pub const HEARTBEAT: u8 = 0xFF;

/// The pattern of a length.
pub open spec fn pattern_of(size: nat) -> Seq<u8> {
    Seq::new(size, |i: int| (i % 0xff) as u8)
}

/// The bytes that the test sends.
pub fn pattern(size: usize) -> (bytes: Vec<u8>)
    ensures
        bytes@ == pattern_of(size as nat),
{
    let mut bytes: Vec<u8> = Vec::with_capacity(size);
    let mut i: usize = 0;
    while i < size
        invariant
            i <= size,
            bytes@ == pattern_of(i as nat),
        decreases size - i,
    {
        bytes.push((i % 0xff) as u8);
        i += 1;
        assert(bytes@ =~= pattern_of(i as nat));
    }
    bytes
}

// --- telling heartbeats and echo apart ----------------------------------------------------------

/// What has been received: the echoed bytes, the number of heartbeats, and whether the last byte
/// may be the first half of a heartbeat.
pub struct Received {
    pub echoed: Seq<u8>,
    pub heartbeats: nat,
    pub half: bool,
}

/// One more byte.
pub open spec fn receive(r: Received, b: u8) -> Received {
    if r.half {
        if b == HEARTBEAT {
            Received { heartbeats: r.heartbeats + 1, half: false, ..r }
        } else {
            Received { echoed: r.echoed.push(HEARTBEAT).push(b), half: false, ..r }
        }
    } else if b == HEARTBEAT {
        Received { half: true, ..r }
    } else {
        Received { echoed: r.echoed.push(b), ..r }
    }
}

/// Some more bytes.
pub open spec fn receive_all(r: Received, bytes: Seq<u8>) -> Received
    decreases bytes.len(),
{
    if bytes.len() == 0 {
        r
    } else {
        receive(receive_all(r, bytes.drop_last()), bytes.last())
    }
}

/// More bytes hold no fewer heartbeats.
proof fn heartbeats_grow(r: Received, bytes: Seq<u8>, n: int)
    requires
        0 <= n <= bytes.len(),
    ensures
        receive_all(r, bytes.take(n)).heartbeats <= receive_all(r, bytes).heartbeats,
    decreases bytes.len(),
{
    if n == bytes.len() {
        assert(bytes.take(n) =~= bytes);
    } else {
        heartbeats_grow(r, bytes.drop_last(), n);
        assert(bytes.drop_last().take(n) =~= bytes.take(n));
    }
}

/// The receiving end.
#[derive(Debug)]
pub struct EchoReader {
    pub echoed: Vec<u8>,
    pub heartbeats: u32,
    pub pending_ff: bool,
}

impl View for EchoReader {
    type V = Received;

    open spec fn view(&self) -> Received {
        Received {
            echoed: self.echoed@,
            heartbeats: self.heartbeats as nat,
            half: self.pending_ff,
        }
    }
}

impl EchoReader {
    /// Nothing has been received.
    pub fn new() -> (reader: EchoReader)
        ensures
            reader@ == (Received { echoed: seq![], heartbeats: 0, half: false }),
    {
        EchoReader { echoed: Vec::new(), heartbeats: 0, pending_ff: false }
    }

    /// Takes the bytes of one read.
    pub fn feed(&mut self, bytes: &[u8])
        requires
            receive_all(old(self)@, bytes@).heartbeats <= u32::MAX,
        ensures
            final(self)@ == receive_all(old(self)@, bytes@),
    {
        let len: usize = bytes.len();
        let mut i: usize = 0;
        assert(bytes@.take(0) =~= seq![]);
        while i < len
            invariant
                i <= len,
                len == bytes@.len(),
                self@ == receive_all(old(self)@, bytes@.take(i as int)),
                receive_all(old(self)@, bytes@).heartbeats <= u32::MAX,
            decreases len - i,
        {
            let b = bytes[i];
            assert(bytes@.take(i + 1).drop_last() =~= bytes@.take(i as int));
            proof {
                heartbeats_grow(old(self)@, bytes@, i + 1);
            }
            if self.pending_ff {
                if b == HEARTBEAT {
                    self.heartbeats += 1;
                } else {
                    self.echoed.push(HEARTBEAT);
                    self.echoed.push(b);
                }
                self.pending_ff = false;
            } else if b == HEARTBEAT {
                self.pending_ff = true;
            } else {
                self.echoed.push(b);
            }
            i += 1;
        }
        assert(bytes@.take(i as int) =~= bytes@);
    }

    /// Whether `size` echoed bytes are there.
    pub fn complete(&self, size: usize) -> (done: bool)
        ensures
            done == (self@.echoed.len() >= size),
    {
        self.echoed.len() >= size
    }
}

/// It does not matter how the bytes are cut into reads.
pub proof fn receive_in_two_reads(r: Received, first: Seq<u8>, second: Seq<u8>)
    ensures
        receive_all(r, first + second) == receive_all(receive_all(r, first), second),
    decreases second.len(),
{
    if second.len() == 0 {
        assert(first + second =~= first);
    } else {
        receive_in_two_reads(r, first, second.drop_last());
        assert((first + second).drop_last() =~= first + second.drop_last());
    }
}

/// What the other end sends: a piece of the echo, or a heartbeat.
pub enum Piece {
    Echo(Seq<u8>),
    Beat,
}

/// The bytes of some pieces.
pub open spec fn piece_bytes(pieces: Seq<Piece>) -> Seq<u8>
    decreases pieces.len(),
{
    if pieces.len() == 0 {
        seq![]
    } else {
        piece_bytes(pieces.drop_last()) + (match pieces.last() {
            Piece::Echo(bytes) => bytes,
            Piece::Beat => seq![HEARTBEAT, HEARTBEAT],
        })
    }
}

/// The echo in some pieces.
pub open spec fn piece_echo(pieces: Seq<Piece>) -> Seq<u8>
    decreases pieces.len(),
{
    if pieces.len() == 0 {
        seq![]
    } else {
        piece_echo(pieces.drop_last()) + (match pieces.last() {
            Piece::Echo(bytes) => bytes,
            Piece::Beat => seq![],
        })
    }
}

/// The number of heartbeats among some pieces.
pub open spec fn piece_beats(pieces: Seq<Piece>) -> nat
    decreases pieces.len(),
{
    if pieces.len() == 0 {
        0
    } else {
        piece_beats(pieces.drop_last()) + (if pieces.last() is Beat {
            1nat
        } else {
            0
        })
    }
}

/// Bytes without 0xFF are echo.
proof fn receive_plain(r: Received, bytes: Seq<u8>)
    requires
        !r.half,
        forall|i: int| 0 <= i < bytes.len() ==> #[trigger] bytes[i] != HEARTBEAT,
    ensures
        receive_all(r, bytes) == (Received { echoed: r.echoed + bytes, ..r }),
    decreases bytes.len(),
{
    if bytes.len() == 0 {
        assert(r.echoed + bytes =~= r.echoed);
    } else {
        let most = bytes.drop_last();
        assert forall|i: int| 0 <= i < most.len() implies #[trigger] most[i] != HEARTBEAT by {
            assert(most[i] == bytes[i]);
        }
        receive_plain(r, most);
        assert(bytes.last() == bytes[bytes.len() - 1]);
        assert((r.echoed + most).push(bytes.last()) =~= r.echoed + bytes);
    }
}

/// Heartbeats and echo can be told apart wherever the heartbeats fall, as long as the echo holds no
/// 0xFF.
pub proof fn heartbeats_are_separable(pieces: Seq<Piece>)
    requires
        forall|i: int, j: int|
            0 <= i < pieces.len() && pieces[i] is Echo && 0 <= j < pieces[i]->Echo_0.len()
                ==> #[trigger] pieces[i]->Echo_0[j] != HEARTBEAT,
    ensures
        receive_all(
            Received { echoed: seq![], heartbeats: 0, half: false },
            piece_bytes(pieces),
        ) == (Received {
            echoed: piece_echo(pieces),
            heartbeats: piece_beats(pieces),
            half: false,
        }),
    decreases pieces.len(),
{
    let start = Received { echoed: seq![], heartbeats: 0, half: false };
    if pieces.len() > 0 {
        let most = pieces.drop_last();
        assert forall|i: int, j: int|
            0 <= i < most.len() && most[i] is Echo && 0 <= j
                < most[i]->Echo_0.len() implies #[trigger] most[i]->Echo_0[j] != HEARTBEAT by {
            assert(most[i] == pieces[i]);
            assert(pieces[i]->Echo_0[j] != HEARTBEAT);
        }
        heartbeats_are_separable(most);
        let r = receive_all(start, piece_bytes(most));
        match pieces.last() {
            Piece::Echo(bytes) => {
                assert forall|j: int| 0 <= j < bytes.len() implies #[trigger] bytes[j]
                    != HEARTBEAT by {
                    assert(pieces[pieces.len() - 1]->Echo_0[j] != HEARTBEAT);
                }
                receive_in_two_reads(start, piece_bytes(most), bytes);
                receive_plain(r, bytes);
            },
            Piece::Beat => {
                let beat = seq![HEARTBEAT, HEARTBEAT];
                receive_in_two_reads(start, piece_bytes(most), beat);
                assert(beat.drop_last() =~= seq![HEARTBEAT]);
                assert(beat.drop_last().drop_last() =~= seq![]);
                reveal_with_fuel(receive_all, 3);
                assert(piece_echo(most) + seq![] =~= piece_echo(most));
            },
        }
    }
}

/// The pattern holds no 0xFF.
pub proof fn pattern_has_no_heartbeat(size: nat, i: int)
    requires
        0 <= i < size,
    ensures
        pattern_of(size)[i] != HEARTBEAT,
{
}

// --- comparing --------------------------------------------------------------------------------

/// A byte that came back different.
#[derive(Debug, Clone, Copy, PartialEq, Eq, Structural)]
pub struct Difference {
    pub index: usize,
    pub sent: u8,
    pub got: u8,
}

/// Differences are listed up to the first one behind this index.
pub const LISTED_INDEX: usize = 10;

/// The result of the comparison.
#[derive(Debug)]
pub struct Comparison {
    pub same: bool,
    pub differences: Vec<Difference>,
    pub truncated: bool,
}

/// Something behind the listed part has been listed already.
pub open spec fn list_full(list: Seq<Difference>) -> bool {
    list.len() > 0 && list.last().index > LISTED_INDEX
}

/// The differences among the first `n` bytes, up to and with the first one behind the listed part.
pub open spec fn differences(sent: Seq<u8>, got: Seq<u8>, n: int) -> Seq<Difference>
    decreases n,
{
    if n <= 0 {
        seq![]
    } else {
        let list = differences(sent, got, n - 1);
        if !list_full(list) && sent[n - 1] != got[n - 1] {
            list.push(
                Difference { index: (n - 1) as usize, sent: sent[n - 1], got: got[n - 1] },
            )
        } else {
            list
        }
    }
}

/// The number of bytes that can be compared.
pub open spec fn common_len(a: Seq<u8>, b: Seq<u8>) -> int {
    if a.len() < b.len() {
        a.len() as int
    } else {
        b.len() as int
    }
}

/// Whether the two are the same bytes.
fn same_bytes(a: &[u8], b: &[u8]) -> (same: bool)
    ensures
        same == (a@ == b@),
{
    if a.len() != b.len() {
        return false;
    }
    let mut i: usize = 0;
    while i < a.len()
        invariant
            i <= a@.len(),
            a@.len() == b@.len(),
            forall|j: int| 0 <= j < i ==> a@[j] == b@[j],
        decreases a@.len() - i,
    {
        if a[i] != b[i] {
            assert(a@[i as int] != b@[i as int]);
            return false;
        }
        i += 1;
    }
    assert(a@ =~= b@);
    true
}

/// A full list stays as it is.
proof fn full_list_stays(sent: Seq<u8>, got: Seq<u8>, n: int, m: int)
    requires
        0 <= n <= m,
        list_full(differences(sent, got, n)),
    ensures
        differences(sent, got, m) == differences(sent, got, n),
    decreases m,
{
    if n < m {
        full_list_stays(sent, got, n, m - 1);
    }
}

/// Compares what was sent with what came back.
pub fn check_echo(sent: &[u8], got: &[u8]) -> (result: Comparison)
    ensures
        result.same == (sent@ == got@),
        result.differences@ == (if sent@ == got@ {
            seq![]
        } else {
            differences(sent@, got@, common_len(sent@, got@))
        }),
        result.truncated == list_full(result.differences@),
{
    let mut list: Vec<Difference> = Vec::new();
    if same_bytes(sent, got) {
        return Comparison { same: true, differences: list, truncated: false };
    }
    let n: usize = if sent.len() < got.len() {
        sent.len()
    } else {
        got.len()
    };
    let mut i: usize = 0;
    while i < n
        invariant
            i <= n,
            n == common_len(sent@, got@),
            n <= sent@.len(),
            n <= got@.len(),
            sent@ != got@,
            list@ == differences(sent@, got@, i as int),
            !list_full(list@),
        decreases n - i,
    {
        if sent[i] != got[i] {
            list.push(Difference { index: i, sent: sent[i], got: got[i] });
            if i > LISTED_INDEX {
                assert(list@ == differences(sent@, got@, i + 1));
                proof {
                    full_list_stays(sent@, got@, i + 1, n as int);
                }
                return Comparison { same: false, differences: list, truncated: true };
            }
        }
        i += 1;
    }
    Comparison { same: false, differences: list, truncated: false }
}

// --- waiting for the tablet and its user --------------------------------------------------------

/// How often a device that has been asked to become an accessory is looked for.
pub const APPEARANCE_LOOKS: u32 = 50;

/// What to do after a look for the accessory.
#[derive(Debug, Clone, Copy, PartialEq, Eq, Structural)]
pub enum LookStep {
    /// It is there, after so many milliseconds.
    Appeared(u64),
    /// Look again after so many milliseconds.
    Again(u64),
    /// Go on without it after so many milliseconds.
    Missing(u64),
}

/// The step after look number `look`, counted from 0.
pub open spec fn look_step(look: u32, found: bool) -> LookStep {
    if found {
        LookStep::Appeared((look * 100) as u64)
    } else if look + 1 < APPEARANCE_LOOKS {
        LookStep::Again(100)
    } else {
        LookStep::Missing(100)
    }
}

/// An accessory is waited for as long as it is not there, ten looks a second and fifty in all, and
/// the time that it took is told.
pub proof fn accessory_is_waited_for(look: u32)
    ensures
        look_step(look, true) matches LookStep::Appeared(ms) && ms == 100 * look,
        look < 49 ==> look_step(look, false) == LookStep::Again(100),
        look >= 49 ==> look_step(look, false) == LookStep::Missing(100),
{
}

/// Decides on look number `look`, counted from 0.
pub fn after_look(look: u32, found: bool) -> (step: LookStep)
    ensures
        step == (if found {
            LookStep::Appeared((look * 100) as u64)
        } else if look + 1 < APPEARANCE_LOOKS {
            LookStep::Again(100)
        } else {
            LookStep::Missing(100)
        }),
        step == look_step(look, found),
{
    if found {
        LookStep::Appeared(look as u64 * 100)
    } else if look < APPEARANCE_LOOKS - 1 {
        LookStep::Again(100)
    } else {
        LookStep::Missing(100)
    }
}

/// How often the first write is tried, and how long each try takes at most. The first session has
/// to wait until the user of the tablet has agreed.
#[derive(Debug, Clone, Copy, PartialEq, Eq, Structural)]
pub struct PromptWait {
    pub attempts: u32,
    pub timeout_secs: u64,
}

/// The waits of the first session and of later ones.
pub fn prompt_wait(first: bool) -> (wait: PromptWait)
    ensures
        wait == (if first {
            PromptWait { attempts: 10, timeout_secs: 3 }
        } else {
            PromptWait { attempts: 3, timeout_secs: 1 }
        }),
{
    if first {
        PromptWait { attempts: 10, timeout_secs: 3 }
    } else {
        PromptWait { attempts: 3, timeout_secs: 1 }
    }
}

/// What to do after a try of the first write.
#[derive(Debug, Clone, Copy, PartialEq, Eq, Structural)]
pub enum PromptStep {
    /// Try again.
    Retry,
    /// So many bytes have been written.
    Sent(usize),
    /// Give up.
    Fail,
}

/// The step after try number `attempt`, counted from 1.
pub open spec fn prompt_step(wait: PromptWait, attempt: u32, transfer: Transfer) -> PromptStep {
    match transfer {
        Transfer::Done(n) => PromptStep::Sent(n),
        Transfer::Timeout => if attempt < wait.attempts {
            PromptStep::Retry
        } else {
            PromptStep::Fail
        },
        Transfer::Failed => PromptStep::Fail,
    }
}

/// Only a timeout is tried again, and no more often than the wait allows; what was sent is told.
pub proof fn only_timeouts_are_tried_again(wait: PromptWait, attempt: u32, n: usize)
    ensures
        prompt_step(wait, attempt, Transfer::Done(n)) == PromptStep::Sent(n),
        prompt_step(wait, attempt, Transfer::Failed) == PromptStep::Fail,
        prompt_step(wait, attempt, Transfer::Timeout) == PromptStep::Retry <==> attempt
            < wait.attempts,
        attempt >= wait.attempts ==> prompt_step(wait, attempt, Transfer::Timeout)
            == PromptStep::Fail,
{
}

/// Decides on try number `attempt`, counted from 1. A timeout is tried again as often as the wait
/// allows.
pub fn after_prompt(wait: PromptWait, attempt: u32, transfer: Transfer) -> (step: PromptStep)
    ensures
        step == (match transfer {
            Transfer::Done(n) => PromptStep::Sent(n),
            Transfer::Timeout => if attempt < wait.attempts {
                PromptStep::Retry
            } else {
                PromptStep::Fail
            },
            Transfer::Failed => PromptStep::Fail,
        }),
        step == prompt_step(wait, attempt, transfer),
{
    match transfer {
        Transfer::Done(n) => PromptStep::Sent(n),
        Transfer::Timeout => if attempt < wait.attempts {
            PromptStep::Retry
        } else {
            PromptStep::Fail
        },
        Transfer::Failed => PromptStep::Fail,
    }
}

/// Every byte of the pattern is its index, counted from zero again after 255 bytes, so that a byte
/// that is lost, repeated or moved shows.
pub proof fn pattern_counts(size: nat, i: int)
    requires
        0 <= i < size,
    ensures
        pattern_of(size).len() == size,
        i < 255 ==> pattern_of(size)[i] == i,
        i >= 255 ==> pattern_of(size)[i] == pattern_of(size)[i - 255],
{
}

/// A byte of 0xFF that is followed by another is a heartbeat, one that is followed by something else
/// was echoed, and any other byte was echoed.
pub proof fn single_marker_is_echo(r: Received, b: u8)
    requires
        !r.half,
        b != 0xFF,
    ensures
        receive_all(r, seq![b]) == (Received { echoed: r.echoed.push(b), ..r }),
        receive_all(r, seq![0xFFu8, b]) == (Received {
            echoed: r.echoed.push(0xFF).push(b),
            ..r
        }),
        receive_all(r, seq![0xFFu8, 0xFFu8]) == (Received { heartbeats: r.heartbeats + 1, ..r }),
{
    reveal_with_fuel(receive_all, 3);
    assert(seq![b].drop_last() =~= seq![]);
    assert(seq![0xFFu8, b].drop_last() =~= seq![0xFFu8]);
    assert(seq![0xFFu8, 0xFFu8].drop_last() =~= seq![0xFFu8]);
    assert(seq![0xFFu8].drop_last() =~= seq![]);
}

/// What is listed did come back different, in order, and every difference among the first bytes is
/// listed.
pub proof fn differences_are_listed(sent: Seq<u8>, got: Seq<u8>, n: int)
    requires
        0 <= n <= sent.len(),
        n <= got.len(),
        n <= usize::MAX,
    ensures
        forall|k: int|
            0 <= k < differences(sent, got, n).len() ==> {
                let d = #[trigger] differences(sent, got, n)[k];
                &&& d.index < n
                &&& d.sent == sent[d.index as int]
                &&& d.got == got[d.index as int]
                &&& d.sent != d.got
            },
        forall|k: int, m: int|
            0 <= k < m < differences(sent, got, n).len() ==> (#[trigger] differences(
                sent,
                got,
                n,
            )[k]).index < (#[trigger] differences(sent, got, n)[m]).index,
        forall|i: int|
            0 <= i < n && i <= 11 && #[trigger] sent[i] != got[i] ==> exists|k: int|
                0 <= k < differences(sent, got, n).len() && (#[trigger] differences(
                    sent,
                    got,
                    n,
                )[k]).index == i,
        !list_full(differences(sent, got, n)) ==> forall|i: int|
            0 <= i < n && #[trigger] sent[i] != got[i] ==> exists|k: int|
                0 <= k < differences(sent, got, n).len() && (#[trigger] differences(
                    sent,
                    got,
                    n,
                )[k]).index == i,
    decreases n,
{
    if n > 0 {
        differences_are_listed(sent, got, n - 1);
        let before = differences(sent, got, n - 1);
        let after = differences(sent, got, n);
        assert forall|i: int|
            0 <= i < n && (i <= 11 || !list_full(after)) && #[trigger] sent[i]
                != got[i] implies exists|k: int|
            0 <= k < after.len() && (#[trigger] after[k]).index == i by {
            if i < n - 1 {
                if !list_full(after) {
                    assert(!list_full(before)) by {
                        if list_full(before) {
                            assert(after == before);
                        }
                    }
                }
                let k = choose|k: int| 0 <= k < before.len() && (#[trigger] before[k]).index == i;
                assert(after[k] == before[k]);
            } else {
                if list_full(before) {
                    assert(before[before.len() - 1].index < n - 1);
                    assert(before.last().index > 10);
                    assert(i > 11);
                } else {
                    assert(after[after.len() - 1].index == i);
                }
            }
        }
    }
}

} // verus!
