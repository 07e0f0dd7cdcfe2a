//! Audio volume: choosing the relevant output sink, and handing the latest
//! reading from the poller to the consumer through a one-slot mailbox.
use vstd::prelude::*;

verus! {

/// What the sound server reports of one output sink.
#[derive(Clone, Copy, Debug, PartialEq, Eq, Structural)]
pub struct Sink {
    /// Volume in percent of the nominal level.
    pub volume: u8,
    pub running: bool,
    pub open: bool,
    pub mute: bool,
}

/// How relevant a sink is: open sinks first, running ones first among them.
pub open spec fn rank(s: Sink) -> int {
    if s.open && s.running {
        2
    } else if s.open {
        1
    } else {
        0
    }
}

/// The position of the first sink of highest rank.
pub open spec fn best(s: Seq<Sink>) -> int
    decreases s.len(),
{
    if s.len() <= 1 {
        0
    } else {
        let b = best(s.drop_last());
        if rank(s.last()) > rank(s[b]) {
            s.len() - 1
        } else {
            b
        }
    }
}

/// The volume a sink plays at: zero when muted.
pub open spec fn audible(s: Sink) -> u8 {
    if s.mute {
        0
    } else {
        s.volume
    }
}

/// A raw volume as a percentage of the nominal volume, rounded to nearest
/// and capped at 100.
pub open spec fn percent(avg: int, norm: int) -> int {
    let p = (avg * 100 + norm / 2) / norm;
    if p > 100 {
        100
    } else {
        p
    }
}

/// The chosen sink is one of highest rank, and no sink before it has that
/// rank: an open sink wins over a closed one, a running open sink over any
/// other, and ties go to the first.
pub proof fn lemma_best_is_first_highest(s: Seq<Sink>)
    requires
        s.len() > 0,
    ensures
        0 <= best(s) < s.len(),
        forall|j: int| 0 <= j < s.len() ==> rank(#[trigger] s[j]) <= rank(s[best(s)]),
        forall|j: int| 0 <= j < best(s) ==> rank(#[trigger] s[j]) < rank(s[best(s)]),
    decreases s.len(),
{
    if s.len() > 1 {
        lemma_best_is_first_highest(s.drop_last());
        let b = best(s.drop_last());
        assert(s.drop_last()[b] == s[b]);
        assert(forall|j: int| 0 <= j < s.len() - 1 ==> s.drop_last()[j] == s[j]);
    }
}

/// The volume of the most relevant sink; `None` when there is no sink.
pub fn select_volume(sinks: &Vec<Sink>) -> (r: Option<u8>)
    ensures
        sinks@.len() == 0 ==> r is None,
        sinks@.len() > 0 ==> r == Some(audible(sinks@[best(sinks@)])),
{
    if sinks.len() == 0 {
        return None;
    }
    let mut b: usize = 0;
    let mut i: usize = 1;
    while i < sinks.len()
        invariant
            1 <= i <= sinks@.len(),
            b < i,
            b == best(sinks@.take(i as int)),
        decreases sinks.len() - i,
    {
        proof {
            let p = sinks@.take(i as int + 1);
            assert(p.drop_last() =~= sinks@.take(i as int));
        }
        if sink_rank(&sinks[i]) > sink_rank(&sinks[b]) {
            b = i;
        }
        i = i + 1;
    }
    proof {
        assert(sinks@.take(sinks@.len() as int) =~= sinks@);
    }
    let s = sinks[b];
    Some(if s.mute {
        0
    } else {
        s.volume
    })
}

fn sink_rank(s: &Sink) -> (r: u8)
    ensures
        r == rank(*s),
{
    if s.open && s.running {
        2
    } else if s.open {
        1
    } else {
        0
    }
}

/// Converts the server's average channel volume to a percentage of its
/// nominal volume; see [`percent`].
pub fn volume_percent(avg: u32, norm: u32) -> (r: u8)
    requires
        norm > 0,
    ensures
        r == percent(avg as int, norm as int),
        r <= 100,
{
    let p: u64 = (avg as u64 * 100 + norm as u64 / 2) / norm as u64;
    if p > 100 {
        100
    } else {
        p as u8
    }
}

/// A one-slot mailbox: sending overwrites, taking empties.
pub struct Mailbox {
    slot: Option<u8>,
}

impl View for Mailbox {
    type V = Option<u8>;

    closed spec fn view(&self) -> Option<u8> {
        self.slot
    }
}

/// The mailbox after `v` was published into it.
pub open spec fn published(m: Option<u8>, v: u8) -> Option<u8> {
    Some(v)
}

/// The mailbox after the values `vs` were published in turn.
pub open spec fn publish_all(m: Option<u8>, vs: Seq<u8>) -> Option<u8>
    decreases vs.len(),
{
    if vs.len() == 0 {
        m
    } else {
        published(publish_all(m, vs.drop_last()), vs.last())
    }
}

/// After any non-empty run of publications, the mailbox holds the last
/// value only: earlier ones are gone, never observed.
pub proof fn lemma_latest_wins(m: Option<u8>, vs: Seq<u8>)
    requires
        vs.len() > 0,
    ensures
        publish_all(m, vs) == Some(vs.last()),
{
}

impl Mailbox {
    pub fn new() -> (r: Mailbox)
        ensures
            r@ is None,
    {
        Mailbox { slot: None }
    }

    /// Puts `v` in the slot, dropping any value not yet taken.
    pub fn publish(&mut self, v: u8)
        ensures
            final(self)@ == published(old(self)@, v),
    {
        self.slot = Some(v);
    }

    /// Takes the pending value, if any, and leaves the slot empty.
    pub fn take(&mut self) -> (r: Option<u8>)
        ensures
            r == old(self)@,
            final(self)@ is None,
    {
        let r = self.slot;
        self.slot = None;
        r
    }
}

/// The consumer's side of the volume feed: the last value it received.
pub struct Audio {
    volume: u8,
}

impl Audio {
    /// The last value received; zero before any.
    pub closed spec fn last(&self) -> u8 {
        self.volume
    }

    pub fn new() -> (r: Audio)
        ensures
            r.last() == 0,
    {
        Audio { volume: 0 }
    }

    /// The latest volume: the pending one if the mailbox holds one, which is
    /// taken; the last known one otherwise. Never waits.
    pub fn get_volume(&mut self, mailbox: &mut Mailbox) -> (r: u8)
        ensures
            r == match old(mailbox)@ {
                Some(v) => v,
                None => old(self).last(),
            },
            final(self).last() == r,
            final(mailbox)@ is None,
    {
        match mailbox.take() {
            Some(v) => {
                self.volume = v;
            },
            None => {},
        }
        self.volume
    }
}

} // verus!
