//! Network link state and throughput from cumulative byte counters.
use vstd::prelude::*;
use crate::parse::{parse_dec, parse_dec_exec, skip_space_exec, back_space_exec, trim};
use vstd::utf8::encode_utf8;
use crate::text::{dec, dec_signed, push_decimal, push_signed};

verus! {

/// The interface directory that is never tracked: the loopback device.
pub const LOOPBACK: &'static str = "/sys/class/net/lo";

/// Throughput in bytes per second, per direction.
#[derive(Clone, Copy, Debug, PartialEq, Eq, Structural)]
pub struct LinkStats {
    pub upload: i64,
    pub download: i64,
}

/// The rate between two readings of a cumulative counter `elapsed_ms`
/// milliseconds apart, in units per second, truncated; zero when the counter
/// did not grow or no time passed, and capped at `i64::MAX`.
pub open spec fn rate(current: int, before: int, elapsed_ms: int) -> int {
    if current - before <= 0 || elapsed_ms <= 0 {
        0
    } else if (current - before) * 1000 / elapsed_ms > i64::MAX {
        i64::MAX as int
    } else {
        (current - before) * 1000 / elapsed_ms
    }
}

/// Tenths of `b / unit`, rounded half up.
pub open spec fn tenths(b: int, unit: int) -> int {
    b / unit + if b % unit >= unit / 2 {
        1int
    } else {
        0int
    }
}

/// A count of tenths written with one decimal place.
pub open spec fn one_decimal(t: nat) -> Seq<char> {
    dec(t / 10) + "."@ + dec(t % 10)
}

/// A byte rate in decimal units: bytes below a thousand, kilobytes below
/// a million, megabytes above, with one decimal place for the latter two.
pub open spec fn pretty(b: int) -> Seq<char> {
    if b < 1000 {
        dec_signed(b) + " B"@
    } else if b < 1_000_000 {
        one_decimal(tenths(b, 100) as nat) + " KB"@
    } else {
        one_decimal(tenths(b, 100_000) as nat) + " MB"@
    }
}

/// The sum of two counters, held within the range of `i64`.
pub open spec fn clamp_add(a: int, b: int) -> int {
    if a + b > i64::MAX {
        i64::MAX as int
    } else if a + b < i64::MIN {
        i64::MIN as int
    } else {
        a + b
    }
}

/// The totals over all interfaces whose two counters were both read.
pub open spec fn totals(readings: Seq<Option<(i64, i64)>>) -> LinkStats
    decreases readings.len(),
{
    if readings.len() == 0 {
        LinkStats { upload: 0, download: 0 }
    } else {
        let t = totals(readings.drop_last());
        match readings.last() {
            Some((tx, rx)) => LinkStats {
                upload: clamp_add(t.upload as int, tx as int) as i64,
                download: clamp_add(t.download as int, rx as int) as i64,
            },
            None => t,
        }
    }
}

/// The rate of a counter between two readings; see [`rate`].
pub fn get_rate(current: i64, before: i64, passed_ms: u64) -> (r: i64)
    ensures
        r == rate(current as int, before as int, passed_ms as int),
{
    let diff: i128 = current as i128 - before as i128;
    if diff <= 0 || passed_ms == 0 {
        return 0;
    }
    let q: i128 = diff * 1000 / (passed_ms as i128);
    if q > i64::MAX as i128 {
        i64::MAX
    } else {
        q as i64
    }
}

fn push_one_decimal(s: &mut String, t: u64)
    ensures
        final(s)@ == old(s)@ + one_decimal(t as nat),
{
    push_decimal(s, t / 10);
    s.append(".");
    push_decimal(s, t % 10);
    proof {
        assert(final(s)@ =~= old(s)@ + one_decimal(t as nat));
    }
}

/// A byte rate in human units; see [`pretty`].
pub fn pretty_bytes(bytes: i64) -> (r: String)
    ensures
        r@ == pretty(bytes as int),
{
    let mut s = String::new();
    if bytes < 1000 {
        push_signed(&mut s, bytes);
        s.append(" B");
    } else if bytes < 1_000_000 {
        let t: i64 = bytes / 100 + if bytes % 100 >= 50 {
            1i64
        } else {
            0i64
        };
        push_one_decimal(&mut s, t as u64);
        s.append(" KB");
    } else {
        let t: i64 = bytes / 100_000 + if bytes % 100_000 >= 50_000 {
            1i64
        } else {
            0i64
        };
        push_one_decimal(&mut s, t as u64);
        s.append(" MB");
    }
    proof {
        assert(s@ =~= pretty(bytes as int));
    }
    s
}

impl LinkStats {
    pub fn pretty_upload(&self) -> (r: String)
        ensures
            r@ == pretty(self.upload as int),
    {
        pretty_bytes(self.upload)
    }

    pub fn pretty_download(&self) -> (r: String)
        ensures
            r@ == pretty(self.download as int),
    {
        pretty_bytes(self.download)
    }
}

/// The file that holds an interface's cumulative count of sent bytes.
pub fn get_tx_path(iface: &str) -> (r: String)
    ensures
        r@ == iface@ + "/statistics/tx_bytes"@,
{
    let mut r = String::from_str(iface);
    r.append("/statistics/tx_bytes");
    r
}

/// The file that holds an interface's cumulative count of received bytes.
pub fn get_rx_path(iface: &str) -> (r: String)
    ensures
        r@ == iface@ + "/statistics/rx_bytes"@,
{
    let mut r = String::from_str(iface);
    r.append("/statistics/rx_bytes");
    r
}

/// The file that tells whether an interface has a carrier.
pub fn get_carrier_path(iface: &str) -> (r: String)
    ensures
        r@ == iface@ + "/carrier"@,
{
    let mut r = String::from_str(iface);
    r.append("/carrier");
    r
}

/// A counter file's text read as a byte count: a decimal number between
/// optional whitespace that fits in `i64`.
pub open spec fn counter_value(text: Seq<u8>) -> Option<i64> {
    match parse_dec(trim(text)) {
        Some(v) => if v <= i64::MAX {
            Some(v as i64)
        } else {
            None
        },
        None => None,
    }
}

/// Whether a carrier file's text, trimmed, is the single digit one.
pub open spec fn carrier_on(text: Seq<u8>) -> bool {
    trim(text) == seq![49u8]
}

fn trim_bounds(b: &[u8]) -> (r: (usize, usize))
    ensures
        r.0 <= r.1 <= b@.len(),
        b@.subrange(r.0 as int, r.1 as int) == trim(b@),
{
    let lo = skip_space_exec(b, 0, b.len());
    let hi = back_space_exec(b, lo, b.len());
    (lo, hi)
}

/// Reads a counter file's text; see [`counter_value`].
pub fn read_counter(text: &str) -> (r: Option<i64>)
    ensures
        r == counter_value(encode_utf8(text@)),
{
    let b = text.as_bytes();
    let (lo, hi) = trim_bounds(b);
    match parse_dec_exec(b, lo, hi) {
        Some(v) => if v <= i64::MAX as u64 {
            Some(v as i64)
        } else {
            None
        },
        None => None,
    }
}

/// Whether a carrier file's text reports the link up.
pub fn carrier_is_on(text: &str) -> (r: bool)
    ensures
        r == carrier_on(encode_utf8(text@)),
{
    let b = text.as_bytes();
    let (lo, hi) = trim_bounds(b);
    let r = hi - lo == 1 && b[lo] == 49u8;
    proof {
        let t = b@.subrange(lo as int, hi as int);
        if r {
            assert(t =~= seq![49u8]);
        } else if t == seq![49u8] {
            assert(t[0] == b@[lo as int]);
        }
    }
    r
}

/// The tracked interfaces, and the last totals with the time they were taken.
pub struct Link {
    ifaces: Vec<String>,
    last: Option<(u64, LinkStats)>,
}

/// The views of a sequence of strings.
pub open spec fn string_views(v: Seq<String>) -> Seq<Seq<char>> {
    v.map_values(|s: String| s@)
}

/// The entries of `s` other than `x`, in order.
pub open spec fn without(s: Seq<Seq<char>>, x: Seq<char>) -> Seq<Seq<char>>
    decreases s.len(),
{
    if s.len() == 0 {
        Seq::empty()
    } else if s.last() == x {
        without(s.drop_last(), x)
    } else {
        without(s.drop_last(), x).push(s.last())
    }
}

impl Link {
    /// The directories of the tracked interfaces.
    pub closed spec fn ifaces(&self) -> Seq<Seq<char>> {
        string_views(self.ifaces@)
    }

    /// When the last totals were taken, in milliseconds, and the totals.
    pub closed spec fn previous(&self) -> Option<(u64, LinkStats)> {
        self.last
    }

    /// Tracks the interface directories given, all but the loopback one,
    /// with no totals taken yet.
    pub fn new(entries: Vec<String>) -> (r: Link)
        ensures
            r.ifaces() == without(string_views(entries@), LOOPBACK@),
            r.previous() is None,
    {
        let lo = String::from_str(LOOPBACK);
        let mut ifaces: Vec<String> = Vec::new();
        let mut i: usize = 0;
        while i < entries.len()
            invariant
                i <= entries.len(),
                lo@ == LOOPBACK@,
                string_views(ifaces@) == without(string_views(entries@.take(i as int)), LOOPBACK@),
            decreases entries.len() - i,
        {
            let ghost t = string_views(entries@.take(i as int + 1));
            assert(t.drop_last() =~= string_views(entries@.take(i as int)));
            assert(t.last() == entries@[i as int]@);
            if entries[i] != lo {
                let e = entries[i].clone();
                ifaces.push(e);
                assert(string_views(ifaces@) =~= without(t, LOOPBACK@));
            }
            i = i + 1;
        }
        assert(entries@.take(entries@.len() as int) =~= entries@);
        Link { ifaces, last: None }
    }

    /// The number of tracked interfaces.
    pub fn iface_count(&self) -> (r: usize)
        ensures
            r == self.ifaces().len(),
    {
        self.ifaces.len()
    }

    /// The directory of the tracked interface at `i`.
    pub fn iface(&self, i: usize) -> (r: &str)
        requires
            i < self.ifaces().len(),
        ensures
            r@ == self.ifaces()[i as int],
    {
        self.ifaces[i].as_str()
    }

    /// Whether any interface reports a carrier, given what each carrier file
    /// held (`None` where it could not be read).
    pub fn is_up(&self, carriers: &Vec<Option<String>>) -> (r: bool)
        ensures
            r == exists|i: int| 0 <= i < carriers@.len() && carrier_read_on(carriers@[i]),
    {
        let mut i: usize = 0;
        while i < carriers.len()
            invariant
                i <= carriers@.len(),
                forall|j: int| 0 <= j < i ==> !carrier_read_on(#[trigger] carriers@[j]),
            decreases carriers.len() - i,
        {
            match &carriers[i] {
                Some(t) => {
                    if carrier_is_on(t.as_str()) {
                        assert(carrier_read_on(carriers@[i as int]));
                        return true;
                    }
                },
                None => {},
            }
            i = i + 1;
        }
        false
    }

    /// Takes new totals from the counters read at `now_ms` (one entry per
    /// interface; `None` where either counter could not be read) and returns
    /// the rates since the previous totals. On the first call there are no
    /// previous totals and both rates are zero.
    pub fn stats(&mut self, readings: &Vec<Option<(i64, i64)>>, now_ms: u64) -> (r: LinkStats)
        ensures
            final(self).ifaces() == old(self).ifaces(),
            final(self).previous() == Some((now_ms, totals(readings@))),
            match old(self).previous() {
                Some((t, p)) => r == rates(totals(readings@), p, elapsed(now_ms, t)),
                None => r == (LinkStats { upload: 0, download: 0 }),
            },
    {
        let total = sum_readings(readings);
        let r = match self.last {
            Some((t, p)) => {
                let passed = if now_ms >= t {
                    now_ms - t
                } else {
                    0
                };
                LinkStats {
                    upload: get_rate(total.upload, p.upload, passed),
                    download: get_rate(total.download, p.download, passed),
                }
            },
            None => LinkStats { upload: 0, download: 0 },
        };
        self.last = Some((now_ms, total));
        r
    }
}

/// The milliseconds from `then` to `now` on a monotonic clock; zero if the
/// clock appears to have gone back.
pub open spec fn elapsed(now: u64, then: u64) -> int {
    if now >= then {
        now - then
    } else {
        0
    }
}

/// The rates from totals `p` to totals `c` over `ms` milliseconds.
pub open spec fn rates(c: LinkStats, p: LinkStats, ms: int) -> LinkStats {
    LinkStats {
        upload: rate(c.upload as int, p.upload as int, ms) as i64,
        download: rate(c.download as int, p.download as int, ms) as i64,
    }
}

/// Whether a carrier file was read and reports the link up.
pub open spec fn carrier_read_on(t: Option<String>) -> bool {
    match t {
        Some(s) => carrier_on(encode_utf8(s@)),
        None => false,
    }
}

fn add_clamped(a: i64, b: i64) -> (r: i64)
    ensures
        r == clamp_add(a as int, b as int),
{
    let s: i128 = a as i128 + b as i128;
    if s > i64::MAX as i128 {
        i64::MAX
    } else if s < i64::MIN as i128 {
        i64::MIN
    } else {
        s as i64
    }
}

/// Sums the counters of all interfaces whose two counters were both read.
pub fn sum_readings(readings: &Vec<Option<(i64, i64)>>) -> (r: LinkStats)
    ensures
        r == totals(readings@),
{
    let mut t = LinkStats { upload: 0, download: 0 };
    let mut i: usize = 0;
    while i < readings.len()
        invariant
            i <= readings@.len(),
            t == totals(readings@.take(i as int)),
        decreases readings.len() - i,
    {
        let ghost pre = readings@.take(i as int + 1);
        assert(pre.drop_last() =~= readings@.take(i as int));
        match readings[i] {
            Some((tx, rx)) => {
                t = LinkStats { upload: add_clamped(t.upload, tx), download: add_clamped(t.download, rx) };
            },
            None => {},
        }
        i = i + 1;
    }
    assert(readings@.take(readings@.len() as int) =~= readings@);
    t
}

} // verus!
