//! Memory usage, read by scanning the memory-info text chunk by chunk for
//! the two lines it needs.
use vstd::prelude::*;
use vstd::slice::slice_subrange;
use crate::parse::{trim, find_byte, find_space, parse_dec, skip_space, back_space, is_space, skip_space_exec, back_space_exec,
    find_byte_exec, find_space_exec, parse_dec_exec};

verus! {

/// Memory figures, in the unit of the source (kilobytes).
#[derive(Clone, Copy, Debug, PartialEq, Eq, Structural)]
pub struct MemInfo {
    pub free: u64,
    pub used: u64,
    pub total: u64,
}

/// Why a scan produced no figures.
#[derive(Clone, Copy, Debug, PartialEq, Eq, Structural)]
pub enum ScanError {
    /// A complete line is not `key: number[ unit]`.
    Malformed,
    /// The text ended before both required keys were seen.
    Exhausted,
    /// The available amount exceeds the total.
    Inconsistent,
}

/// One `key: value` line.
pub struct MemInfoLine {
    pub key: Vec<u8>,
    pub value: u64,
}

/// The key of the total amount: `MemTotal`.
pub open spec fn total_key() -> Seq<u8> {
    seq![77u8, 101, 109, 84, 111, 116, 97, 108]
}

/// The key of the available amount: `MemAvailable`.
pub open spec fn available_key() -> Seq<u8> {
    seq![77u8, 101, 109, 65, 118, 97, 105, 108, 97, 98, 108, 101]
}

/// A line read as key and number: the text before the first colon of the
/// trimmed line is the key; after it, trimmed, the first whitespace-free
/// token is the number.
pub open spec fn parse_line(l: Seq<u8>) -> Option<(Seq<u8>, u64)> {
    let t = trim(l);
    let c = find_byte(t, 58u8, 0, t.len() as int);
    if c >= t.len() {
        None
    } else {
        let v = trim(t.subrange(c + 1, t.len() as int));
        let e = find_space(v, 0, v.len() as int);
        match parse_dec(v.subrange(0, e)) {
            Some(n) => Some((t.subrange(0, c), n)),
            None => None,
        }
    }
}

/// Where a scan stands: the partial line held back, the amounts seen so
/// far, and whether a malformed line stopped it.
pub struct ScanState {
    pub line: Seq<u8>,
    pub total: Option<u64>,
    pub free: Option<u64>,
    pub failed: bool,
}

/// The scan has both amounts.
pub open spec fn found(st: ScanState) -> bool {
    st.total is Some && st.free is Some
}

/// The scan reads nothing more.
pub open spec fn stopped(st: ScanState) -> bool {
    st.failed || found(st)
}

/// A scan that has read nothing.
pub open spec fn initial() -> ScanState {
    ScanState { line: Seq::empty(), total: None, free: None, failed: false }
}

/// The effect of one byte: a line break ends the held line, which is read;
/// any other byte extends it. Once stopped, the scan ignores input.
pub open spec fn step(st: ScanState, b: u8) -> ScanState {
    if stopped(st) {
        st
    } else if b == 10 {
        match parse_line(st.line) {
            None => ScanState { failed: true, ..st },
            Some((k, v)) => ScanState {
                line: Seq::empty(),
                total: if k == total_key() {
                    Some(v)
                } else {
                    st.total
                },
                free: if k == available_key() {
                    Some(v)
                } else {
                    st.free
                },
                failed: false,
            },
        }
    } else {
        ScanState { line: st.line.push(b), ..st }
    }
}

/// The scan after reading `bytes`.
pub open spec fn run(st: ScanState, bytes: Seq<u8>) -> ScanState
    decreases bytes.len(),
{
    if bytes.len() == 0 {
        st
    } else {
        step(run(st, bytes.drop_last()), bytes.last())
    }
}

/// What a scan yields once the text has ended or the scan has stopped.
pub open spec fn outcome(st: ScanState) -> Result<MemInfo, ScanError> {
    if st.failed {
        Err(ScanError::Malformed)
    } else if !found(st) {
        Err(ScanError::Exhausted)
    } else if st.free->0 > st.total->0 {
        Err(ScanError::Inconsistent)
    } else {
        Ok(
            MemInfo {
                total: st.total->0,
                free: st.free->0,
                used: (st.total->0 - st.free->0) as u64,
            },
        )
    }
}

/// The chunks of a text joined together.
pub open spec fn joined(chunks: Seq<Seq<u8>>) -> Seq<u8>
    decreases chunks.len(),
{
    if chunks.len() == 0 {
        Seq::empty()
    } else {
        joined(chunks.drop_last()) + chunks.last()
    }
}

/// Reading two pieces one after the other is reading them joined.
pub proof fn lemma_run_append(st: ScanState, a: Seq<u8>, b: Seq<u8>)
    ensures
        run(st, a + b) == run(run(st, a), b),
    decreases b.len(),
{
    if b.len() > 0 {
        lemma_run_append(st, a, b.drop_last());
        assert((a + b).drop_last() =~= a + b.drop_last());
        assert((a + b).last() == b.last());
    } else {
        assert(a + b =~= a);
    }
}

/// A text split at any offset, even inside a line, scans to the same state
/// as the whole text read at once.
pub proof fn lemma_split_anywhere(bytes: Seq<u8>, k: int)
    requires
        0 <= k <= bytes.len(),
    ensures
        run(run(initial(), bytes.take(k)), bytes.skip(k)) == run(initial(), bytes),
{
    lemma_run_append(initial(), bytes.take(k), bytes.skip(k));
    assert(bytes.take(k) + bytes.skip(k) =~= bytes);
}

/// A text in which the scan never collects both keys yields an error,
/// however it ends.
pub proof fn lemma_missing_key_fails(bytes: Seq<u8>)
    requires
        !found(run(initial(), bytes)),
    ensures
        outcome(run(initial(), bytes)) is Err,
{
}

/// A text without a single line break holds no complete line: the scan
/// keeps it all as a partial line and, at the end, reports that the keys
/// were not found.
pub proof fn lemma_unterminated_text_exhausts(bytes: Seq<u8>)
    requires
        forall|i: int| 0 <= i < bytes.len() ==> bytes[i] != 10u8,
    ensures
        run(initial(), bytes) == (ScanState { line: bytes, total: None, free: None, failed: false }),
        outcome(run(initial(), bytes)) == Err::<MemInfo, ScanError>(ScanError::Exhausted),
    decreases bytes.len(),
{
    if bytes.len() == 0 {
        assert(bytes =~= Seq::<u8>::empty());
    } else {
        let p = bytes.drop_last();
        lemma_unterminated_text_exhausts(p);
        assert(p.push(bytes.last()) =~= bytes);
    }
}

/// `k` occurs as a contiguous run of bytes in `t`.
pub open spec fn occurs(t: Seq<u8>, k: Seq<u8>) -> bool {
    exists|i: int| 0 <= i && i + k.len() <= t.len() && #[trigger] t.subrange(i, i + k.len()) == k
}

proof fn lemma_occurs_push(t: Seq<u8>, b: u8, k: Seq<u8>)
    requires
        occurs(t, k),
    ensures
        occurs(t.push(b), k),
{
    let i = choose|i: int| 0 <= i && i + k.len() <= t.len() && #[trigger] t.subrange(i, i + k.len()) == k;
    assert(t.push(b).subrange(i, i + k.len()) =~= t.subrange(i, i + k.len()));
}

proof fn lemma_trim_bounds(s: Seq<u8>)
    ensures
        0 <= skip_space(s, 0, s.len() as int) <= back_space(
            s,
            skip_space(s, 0, s.len() as int),
            s.len() as int,
        ) <= s.len(),
{
    lemma_skip_space_bounds(s, 0, s.len() as int);
    lemma_back_space_bounds(s, skip_space(s, 0, s.len() as int), s.len() as int);
}

proof fn lemma_skip_space_bounds(s: Seq<u8>, i: int, hi: int)
    requires
        i <= hi,
    ensures
        i <= skip_space(s, i, hi) <= hi,
    decreases hi - i,
{
    if i < hi && is_space(s[i]) {
        lemma_skip_space_bounds(s, i + 1, hi);
    }
}

proof fn lemma_back_space_bounds(s: Seq<u8>, lo: int, j: int)
    requires
        lo <= j,
    ensures
        lo <= back_space(s, lo, j) <= j,
    decreases j - lo,
{
    if lo < j && is_space(s[j - 1]) {
        lemma_back_space_bounds(s, lo, j - 1);
    }
}

proof fn lemma_find_byte_bounds(s: Seq<u8>, c: u8, i: int, hi: int)
    requires
        i <= hi,
    ensures
        i <= find_byte(s, c, i, hi) <= hi,
    decreases hi - i,
{
    if i < hi && s[i] != c {
        lemma_find_byte_bounds(s, c, i + 1, hi);
    }
}

/// The key of a line, when it reads.
pub open spec fn line_key(l: Seq<u8>) -> Seq<u8> {
    match parse_line(l) {
        Some((k, _)) => k,
        None => Seq::empty(),
    }
}

/// The key of a line that reads is a run of the line's bytes.
proof fn lemma_key_in_line(l: Seq<u8>)
    requires
        parse_line(l) is Some,
    ensures
        occurs(l, line_key(l)),
{
    let t = trim(l);
    lemma_trim_bounds(l);
    let lo = skip_space(l, 0, l.len() as int);
    let c = find_byte(t, 58u8, 0, t.len() as int);
    lemma_find_byte_bounds(t, 58u8, 0, t.len() as int);
    let k = t.subrange(0, c);
    assert(l.subrange(lo, lo + c) =~= k);
}

/// What the scan has recorded is backed by the text: the held line is the
/// text's tail while the scan runs, and a recorded amount's key occurs in
/// the text.
proof fn lemma_scan_backed(bytes: Seq<u8>)
    ensures
        !stopped(run(initial(), bytes)) ==> run(initial(), bytes).line.len() <= bytes.len()
            && run(initial(), bytes).line == bytes.subrange(
            bytes.len() - run(initial(), bytes).line.len(),
            bytes.len() as int,
        ),
        run(initial(), bytes).total is Some ==> occurs(bytes, total_key()),
        run(initial(), bytes).free is Some ==> occurs(bytes, available_key()),
    decreases bytes.len(),
{
    if bytes.len() == 0 {
        assert(run(initial(), bytes).line =~= bytes.subrange(0, 0));
    } else {
        let p = bytes.drop_last();
        let b = bytes.last();
        lemma_scan_backed(p);
        let sp = run(initial(), p);
        assert(p.push(b) =~= bytes);
        if sp.total is Some {
            lemma_occurs_push(p, b, total_key());
        }
        if sp.free is Some {
            lemma_occurs_push(p, b, available_key());
        }
        if !stopped(sp) {
            if b == 10 {
                if parse_line(sp.line) is Some {
                    lemma_key_in_line(sp.line);
                    let k = line_key(sp.line);
                    let off = p.len() - sp.line.len();
                    let i = choose|i: int|
                        0 <= i && i + k.len() <= sp.line.len() && #[trigger] sp.line.subrange(
                            i,
                            i + k.len(),
                        ) == k;
                    assert(bytes.subrange(off + i, off + i + k.len()) =~= k);
                    assert(run(initial(), bytes).line =~= bytes.subrange(
                        bytes.len() as int,
                        bytes.len() as int,
                    ));
                }
            } else {
                assert(run(initial(), bytes).line =~= bytes.subrange(
                    bytes.len() - run(initial(), bytes).line.len(),
                    bytes.len() as int,
                ));
            }
        }
    }
}

/// When the text does not hold one of the two keys anywhere, the scan of
/// the whole text, however it was cut into chunks, ends in an error: the
/// read reports the keys' absence rather than waiting for more.
pub proof fn lemma_absent_key_fails(bytes: Seq<u8>)
    requires
        !occurs(bytes, total_key()) || !occurs(bytes, available_key()),
    ensures
        outcome(run(initial(), bytes)) is Err,
{
    lemma_scan_backed(bytes);
}

fn is_key(k: &[u8], total: bool) -> (r: bool)
    ensures
        r == (k@ == (if total {
            total_key()
        } else {
            available_key()
        })),
{
    let r = if total {
        k.len() == 8 && k[0] == 77 && k[1] == 101 && k[2] == 109 && k[3] == 84 && k[4] == 111
            && k[5] == 116 && k[6] == 97 && k[7] == 108
    } else {
        k.len() == 12 && k[0] == 77 && k[1] == 101 && k[2] == 109 && k[3] == 65 && k[4] == 118
            && k[5] == 97 && k[6] == 105 && k[7] == 108 && k[8] == 97 && k[9] == 98 && k[10]
            == 108 && k[11] == 101
    };
    proof {
        if r {
            if total {
                assert(k@ =~= total_key());
            } else {
                assert(k@ =~= available_key());
            }
        }
    }
    r
}

fn copy_bytes(s: &[u8]) -> (r: Vec<u8>)
    ensures
        r@ == s@,
{
    let mut r: Vec<u8> = Vec::new();
    let mut i: usize = 0;
    while i < s.len()
        invariant
            i <= s@.len(),
            r@ == s@.take(i as int),
        decreases s.len() - i,
    {
        r.push(s[i]);
        i = i + 1;
        assert(r@ =~= s@.take(i as int));
    }
    assert(s@.take(s@.len() as int) =~= s@);
    r
}

fn trim_slice(s: &[u8]) -> (r: &[u8])
    ensures
        r@ == trim(s@),
{
    let lo = skip_space_exec(s, 0, s.len());
    let hi = back_space_exec(s, lo, s.len());
    slice_subrange(s, lo, hi)
}

/// Reads one line; see [`parse_line`].
pub fn parse_meminfo_line(raw: &[u8]) -> (r: Option<MemInfoLine>)
    ensures
        match parse_line(raw@) {
            Some((k, v)) => r is Some && r->0.key@ == k && r->0.value == v,
            None => r is None,
        },
{
    let t = trim_slice(raw);
    let c = find_byte_exec(t, 58u8, 0, t.len());
    if c >= t.len() {
        return None;
    }
    let v = trim_slice(slice_subrange(t, c + 1, t.len()));
    let e = find_space_exec(v, 0, v.len());
    match parse_dec_exec(v, 0, e) {
        Some(n) => {
            let key = copy_bytes(slice_subrange(t, 0, c));
            Some(MemInfoLine { key, value: n })
        },
        None => None,
    }
}

/// The incremental scanner over the memory-info text.
pub struct MemScanner {
    line: Vec<u8>,
    total: Option<u64>,
    free: Option<u64>,
    failed: bool,
}

impl View for MemScanner {
    type V = ScanState;

    closed spec fn view(&self) -> ScanState {
        ScanState { line: self.line@, total: self.total, free: self.free, failed: self.failed }
    }
}

impl MemScanner {
    /// A scanner that has read nothing.
    pub fn new() -> (r: MemScanner)
        ensures
            r@ == initial(),
    {
        let r = MemScanner { line: Vec::new(), total: None, free: None, failed: false };
        proof {
            assert(r@.line =~= Seq::<u8>::empty());
        }
        r
    }

    /// Whether the scanner needs no more input.
    pub fn is_done(&self) -> (r: bool)
        ensures
            r == stopped(self@),
    {
        self.failed || (self.total.is_some() && self.free.is_some())
    }

    fn step_byte(&mut self, b: u8)
        ensures
            final(self)@ == step(old(self)@, b),
    {
        if self.is_done() {
            return;
        }
        if b == 10 {
            match parse_meminfo_line(self.line.as_slice()) {
                None => {
                    self.failed = true;
                },
                Some(l) => {
                    if is_key(l.key.as_slice(), true) {
                        self.total = Some(l.value);
                    }
                    if is_key(l.key.as_slice(), false) {
                        self.free = Some(l.value);
                    }
                    self.line = Vec::new();
                    proof {
                        assert(self@.line =~= Seq::<u8>::empty());
                    }
                },
            }
        } else {
            self.line.push(b);
        }
    }

    /// Reads one chunk. Complete lines are read as they close; the partial
    /// line at the end is held back for the next chunk.
    pub fn feed(&mut self, chunk: &[u8])
        ensures
            final(self)@ == run(old(self)@, chunk@),
    {
        let mut i: usize = 0;
        while i < chunk.len()
            invariant
                i <= chunk@.len(),
                self@ == run(old(self)@, chunk@.take(i as int)),
            decreases chunk.len() - i,
        {
            proof {
                let p = chunk@.take(i as int + 1);
                assert(p.drop_last() =~= chunk@.take(i as int));
            }
            self.step_byte(chunk[i]);
            i = i + 1;
        }
        proof {
            assert(chunk@.take(chunk@.len() as int) =~= chunk@);
        }
    }

    /// The figures, or why there are none, for the text read so far taken
    /// as the whole text.
    pub fn finish(&self) -> (r: Result<MemInfo, ScanError>)
        ensures
            r == outcome(self@),
    {
        if self.failed {
            return Err(ScanError::Malformed);
        }
        match (self.total, self.free) {
            (Some(total), Some(free)) => {
                if free > total {
                    Err(ScanError::Inconsistent)
                } else {
                    Ok(MemInfo { total, free, used: total - free })
                }
            },
            _ => Err(ScanError::Exhausted),
        }
    }
}

/// The memory reader.
pub struct Mem {}

impl Mem {
    pub fn new() -> (r: Mem) {
        Mem {  }
    }

    /// Scans the text delivered in `chunks`, reading no chunk after both
    /// amounts are found.
    pub fn read(&self, chunks: &Vec<Vec<u8>>) -> (r: Result<MemInfo, ScanError>)
        ensures
            r == outcome(run(initial(), joined(chunks@.map_values(|c: Vec<u8>| c@)))),
    {
        let ghost cs = chunks@.map_values(|c: Vec<u8>| c@);
        let mut sc = MemScanner::new();
        let mut i: usize = 0;
        while i < chunks.len()
            invariant
                i <= chunks@.len(),
                cs == chunks@.map_values(|c: Vec<u8>| c@),
                sc@ == run(initial(), joined(cs.take(i as int))),
            decreases chunks.len() - i,
        {
            if sc.is_done() {
                proof {
                    lemma_run_stopped(sc@, joined(cs.take(i as int)), cs.skip(i as int), cs);
                }
                return sc.finish();
            }
            sc.feed(chunks[i].as_slice());
            proof {
                let p = cs.take(i as int + 1);
                assert(p.drop_last() =~= cs.take(i as int));
                lemma_run_append(initial(), joined(cs.take(i as int)), cs[i as int]);
            }
            i = i + 1;
        }
        proof {
            assert(cs.take(cs.len() as int) =~= cs);
        }
        sc.finish()
    }
}

/// A stopped scan ignores what follows.
proof fn lemma_run_stopped_bytes(st: ScanState, b: Seq<u8>)
    requires
        stopped(st),
    ensures
        run(st, b) == st,
    decreases b.len(),
{
    if b.len() > 0 {
        lemma_run_stopped_bytes(st, b.drop_last());
    }
}

proof fn lemma_joined_append(a: Seq<Seq<u8>>, b: Seq<Seq<u8>>)
    ensures
        joined(a + b) == joined(a) + joined(b),
    decreases b.len(),
{
    if b.len() > 0 {
        lemma_joined_append(a, b.drop_last());
        assert((a + b).drop_last() =~= a + b.drop_last());
        assert(joined(a + b) =~= joined(a) + joined(b));
    } else {
        assert(a + b =~= a);
        assert(joined(a + b) =~= joined(a) + joined(b));
    }
}

proof fn lemma_run_stopped(st: ScanState, done: Seq<u8>, rest: Seq<Seq<u8>>, cs: Seq<Seq<u8>>)
    requires
        st == run(initial(), done),
        stopped(st),
        rest.len() <= cs.len(),
        done == joined(cs.take(cs.len() - rest.len())),
        rest == cs.skip(cs.len() - rest.len()),
    ensures
        run(initial(), joined(cs)) == st,
{
    let k = cs.len() - rest.len();
    assert(cs.take(k) + cs.skip(k) =~= cs);
    lemma_joined_append(cs.take(k), cs.skip(k));
    lemma_run_append(initial(), done, joined(rest));
    lemma_run_stopped_bytes(st, joined(rest));
}

} // verus!
