//! Instrumentation points of a test binary and the hits recorded on them.
use vstd::prelude::*;

verus! {

/// Statistic gathered for one instrumentation point.
#[derive(Clone, Copy, Debug, PartialEq, Eq, Structural)]
pub enum CoverageStat {
    /// Number of times the line was executed.
    Line(u64),
}

impl CoverageStat {
    pub open spec fn count(self) -> nat {
        match self {
            CoverageStat::Line(h) => h as nat,
        }
    }
}

/// The identity of a trace: source file, line and machine address.
pub type TraceKey = (Seq<char>, u64, Option<u64>);

/// One source line mapped to at most one machine address, with its hits.
#[derive(Debug)]
pub struct Trace {
    /// Line in the source file.
    pub line: u64,
    /// Address of the first instruction of the line, if one was found.
    pub address: Option<u64>,
    /// Path of the source file.
    pub file: String,
    /// What was recorded for this point.
    pub stats: CoverageStat,
    /// Demangled name of the enclosing function, if known.
    pub fn_name: Option<String>,
}

impl Trace {
    pub open spec fn key(&self) -> TraceKey {
        (self.file@, self.line, self.address)
    }

    pub open spec fn hits(&self) -> nat {
        self.stats.count()
    }

    /// A trace that was never mapped to code is never counted.
    pub open spec fn valid(&self) -> bool {
        self.address.is_none() ==> self.hits() == 0
    }

    /// A new trace for `line` of `file`, with no hits yet.
    pub fn new(file: String, line: u64, address: Option<u64>, fn_name: Option<String>) -> (r: Trace)
        ensures
            r.file@ == file@,
            r.line == line,
            r.address == address,
            r.hits() == 0,
            r.fn_name == fn_name,
    {
        Trace { line, address, file, stats: CoverageStat::Line(0), fn_name }
    }

    /// Number of hits recorded for this trace.
    pub fn hit_count(&self) -> (r: u64)
        ensures
            r == self.hits(),
    {
        match self.stats {
            CoverageStat::Line(h) => h,
        }
    }

    /// A copy of this trace with every field equal.
    pub fn duplicate(&self) -> (r: Trace)
        ensures
            r.key() == self.key(),
            r.hits() == self.hits(),
            r.stats == self.stats,
    {
        let fn_name = match &self.fn_name {
            Some(n) => Some(n.clone()),
            None => None,
        };
        Trace {
            line: self.line,
            address: self.address,
            file: self.file.clone(),
            stats: self.stats,
            fn_name,
        }
    }

    /// Whether two traces share file, line and address.
    pub fn same_key(&self, other: &Trace) -> (r: bool)
        ensures
            r == (self.key() == other.key()),
    {
        let same_addr = match (self.address, other.address) {
            (Some(a), Some(b)) => a == b,
            (None, None) => true,
            _ => false,
        };
        self.line == other.line && same_addr && self.file == other.file
    }
}

/// Sum of the hits of the entries of `s` whose key is `k`.
pub open spec fn hits_of(s: Seq<Trace>, k: TraceKey) -> nat
    decreases s.len(),
{
    if s.len() == 0 {
        0
    } else {
        hits_of(s.drop_last(), k) + if s.last().key() == k {
            s.last().hits()
        } else {
            0
        }
    }
}

/// Sum of the hits of every entry of `s`.
pub open spec fn total_of(s: Seq<Trace>) -> nat
    decreases s.len(),
{
    if s.len() == 0 {
        0
    } else {
        total_of(s.drop_last()) + s.last().hits()
    }
}

/// Whether some entry of `s` has key `k`.
pub open spec fn has_key(s: Seq<Trace>, k: TraceKey) -> bool {
    exists|i: int| 0 <= i < s.len() && #[trigger] s[i].key() == k
}

/// No two entries of `s` share a key.
pub open spec fn keys_unique(s: Seq<Trace>) -> bool {
    forall|i: int, j: int|
        0 <= i < s.len() && 0 <= j < s.len() && i != j ==> #[trigger] s[i].key() != #[trigger] s[j].key()
}

/// Every entry of `s` is valid.
pub open spec fn all_valid(s: Seq<Trace>) -> bool {
    forall|i: int| 0 <= i < s.len() ==> #[trigger] s[i].valid()
}

proof fn lemma_hits_push(s: Seq<Trace>, t: Trace, k: TraceKey)
    ensures
        hits_of(s.push(t), k) == hits_of(s, k) + if t.key() == k { t.hits() } else { 0 },
        total_of(s.push(t)) == total_of(s) + t.hits(),
{
    assert(s.push(t).drop_last() =~= s);
}

proof fn lemma_hits_update(s: Seq<Trace>, i: int, t: Trace, k: TraceKey)
    requires
        0 <= i < s.len(),
        t.key() == s[i].key(),
    ensures
        s[i].key() == k ==> hits_of(s.update(i, t), k) + s[i].hits() == hits_of(s, k) + t.hits(),
        s[i].key() != k ==> hits_of(s.update(i, t), k) == hits_of(s, k),
        total_of(s.update(i, t)) + s[i].hits() == total_of(s) + t.hits(),
    decreases s.len(),
{
    let u = s.update(i, t);
    if i == s.len() - 1 {
        assert(u.drop_last() =~= s.drop_last());
    } else {
        assert(u.drop_last() =~= s.drop_last().update(i, t));
        lemma_hits_update(s.drop_last(), i, t, k);
    }
}

proof fn lemma_entry_le_total(s: Seq<Trace>, i: int)
    requires
        0 <= i < s.len(),
    ensures
        s[i].hits() <= total_of(s),
    decreases s.len(),
{
    if i < s.len() - 1 {
        lemma_entry_le_total(s.drop_last(), i);
    }
}

proof fn lemma_has_key_push(s: Seq<Trace>, t: Trace, k: TraceKey)
    ensures
        has_key(s.push(t), k) == (has_key(s, k) || t.key() == k),
{
    if has_key(s, k) {
        let i = choose|i: int| 0 <= i < s.len() && #[trigger] s[i].key() == k;
        assert(s.push(t)[i].key() == k);
    }
    if has_key(s.push(t), k) {
        let i = choose|i: int| 0 <= i < s.len() + 1 && #[trigger] s.push(t)[i].key() == k;
        if i < s.len() {
            assert(s[i].key() == k);
        }
    }
    if t.key() == k {
        assert(s.push(t)[s.len() as int].key() == k);
    }
}

proof fn lemma_total_prefix(s: Seq<Trace>, n: int)
    requires
        0 <= n <= s.len(),
    ensures
        total_of(s.take(n)) <= total_of(s),
    decreases s.len(),
{
    if n < s.len() {
        assert(s.take(n) =~= s.drop_last().take(n));
        lemma_total_prefix(s.drop_last(), n);
    } else {
        assert(s.take(n) =~= s);
    }
}

/// How the sums of a prefix of `s` grow by one entry.
proof fn lemma_prefix_step(s: Seq<Trace>, i: int)
    requires
        0 <= i < s.len(),
    ensures
        total_of(s.take(i)) + s[i].hits() == total_of(s.take(i + 1)),
        total_of(s.take(i + 1)) <= total_of(s),
        forall|k: TraceKey|
            #[trigger] hits_of(s.take(i + 1), k) == hits_of(s.take(i), k) + if s[i].key() == k {
                s[i].hits()
            } else {
                0
            },
        forall|k: TraceKey|
            #[trigger] has_key(s.take(i + 1), k) == (has_key(s.take(i), k) || s[i].key() == k),
{
    assert(s.take(i + 1) =~= s.take(i).push(s[i]));
    lemma_hits_push(s.take(i), s[i], (Seq::empty(), 0, None));
    lemma_total_prefix(s, i + 1);
    assert forall|k: TraceKey|
        #[trigger] hits_of(s.take(i + 1), k) == hits_of(s.take(i), k) + if s[i].key() == k {
            s[i].hits()
        } else {
            0
        } by {
        lemma_hits_push(s.take(i), s[i], k);
    }
    assert forall|k: TraceKey|
        #[trigger] has_key(s.take(i + 1), k) == (has_key(s.take(i), k) || s[i].key() == k) by {
        lemma_has_key_push(s.take(i), s[i], k);
    }
}

/// Adds `t` to `v`: its hits go to the entry with the same key, or a copy
/// of it is appended when there is none.
fn absorb(v: &mut Vec<Trace>, t: &Trace)
    requires
        total_of(old(v)@) + t.hits() <= u64::MAX,
    ensures
        forall|k: TraceKey|
            #[trigger] hits_of(final(v)@, k) == hits_of(old(v)@, k) + if t.key() == k {
                t.hits()
            } else {
                0
            },
        total_of(final(v)@) == total_of(old(v)@) + t.hits(),
        forall|k: TraceKey| #[trigger] has_key(final(v)@, k) == (has_key(old(v)@, k) || t.key() == k),
        keys_unique(old(v)@) ==> keys_unique(final(v)@),
        all_valid(old(v)@) && t.valid() ==> all_valid(final(v)@),
{
    let ghost s = v@;
    let mut j: usize = 0;
    while j < v.len()
        invariant
            v@ == s,
            s == old(v)@,
            total_of(s) + t.hits() <= u64::MAX,
            0 <= j <= v.len(),
            forall|m: int| 0 <= m < j ==> #[trigger] v@[m].key() != t.key(),
        decreases v.len() - j,
    {
        if v[j].same_key(t) {
            proof {
                lemma_entry_le_total(s, j as int);
            }
            let h = v[j].hit_count() + t.hit_count();
            let mut e = v[j].duplicate();
            e.stats = CoverageStat::Line(h);
            proof {
                assert forall|k: TraceKey|
                    #[trigger] hits_of(s.update(j as int, e), k) == hits_of(s, k) + if t.key() == k {
                        t.hits()
                    } else {
                        0
                    } by {
                    lemma_hits_update(s, j as int, e, k);
                }
                lemma_hits_update(s, j as int, e, t.key());
                if all_valid(s) && t.valid() {
                    assert(s[j as int].valid());
                    assert forall|i: int| 0 <= i < s.len() implies #[trigger] s.update(
                        j as int,
                        e,
                    )[i].valid() by {
                        assert(s[i].valid());
                    }
                }
                assert forall|k: TraceKey| #[trigger]
                    has_key(s.update(j as int, e), k) == (has_key(s, k) || t.key() == k) by {
                    if has_key(s, k) {
                        let i = choose|i: int| 0 <= i < s.len() && #[trigger] s[i].key() == k;
                        assert(s.update(j as int, e)[i].key() == k);
                    }
                    if has_key(s.update(j as int, e), k) {
                        let i = choose|i: int|
                            0 <= i < s.len() && #[trigger] s.update(j as int, e)[i].key() == k;
                        assert(s[i].key() == k);
                    }
                    if t.key() == k {
                        assert(s.update(j as int, e)[j as int].key() == k);
                    }
                }
            }
            v.set(j, e);
            return;
        }
        j = j + 1;
    }
    let e = t.duplicate();
    proof {
        assert forall|k: TraceKey|
            #[trigger] hits_of(s.push(e), k) == hits_of(s, k) + if t.key() == k { t.hits() } else { 0 } by {
            lemma_hits_push(s, e, k);
        }
        lemma_hits_push(s, e, t.key());
        assert forall|k: TraceKey| #[trigger] has_key(s.push(e), k) == (has_key(s, k) || t.key() == k) by {
            lemma_has_key_push(s, e, k);
        }
    }
    v.push(e);
}

} // verus!

verus! {

/// The traces of one or more test binaries.
#[derive(Debug)]
pub struct TraceMap {
    traces: Vec<Trace>,
}

impl View for TraceMap {
    type V = Seq<Trace>;

    closed spec fn view(&self) -> Seq<Trace> {
        self.traces@
    }
}

/// `h` plus one, unless it is already the largest count a `u64` holds.
pub open spec fn bumped(h: nat) -> nat {
    if h < u64::MAX {
        h + 1
    } else {
        h
    }
}

/// `r` holds the traces of `a` and `b`, with the hits of each key summed.
pub open spec fn merge_of(a: Seq<Trace>, b: Seq<Trace>, r: Seq<Trace>) -> bool {
    &&& forall|k: TraceKey| #[trigger] hits_of(r, k) == hits_of(a, k) + hits_of(b, k)
    &&& forall|k: TraceKey| #[trigger] has_key(r, k) == (has_key(a, k) || has_key(b, k))
}

/// Merging is commutative on hits: merging `b` into `a` or `a` into `b`
/// gives every key the same hits, the sum of its hits in `a` and in `b`,
/// and the same set of keys.
pub proof fn merge_commutes(a: Seq<Trace>, b: Seq<Trace>, ab: Seq<Trace>, ba: Seq<Trace>)
    requires
        merge_of(a, b, ab),
        merge_of(b, a, ba),
    ensures
        forall|k: TraceKey| #[trigger] hits_of(ab, k) == hits_of(ba, k),
        forall|k: TraceKey| #[trigger] hits_of(ab, k) == hits_of(a, k) + hits_of(b, k),
        forall|k: TraceKey| #[trigger] has_key(ab, k) == has_key(ba, k),
{
    assert forall|k: TraceKey| #[trigger] hits_of(ab, k) == hits_of(ba, k) by {
        assert(hits_of(ab, k) == hits_of(a, k) + hits_of(b, k));
        assert(hits_of(ba, k) == hits_of(b, k) + hits_of(a, k));
    }
    assert forall|k: TraceKey| #[trigger] has_key(ab, k) == has_key(ba, k) by {
        assert(has_key(ab, k) == (has_key(a, k) || has_key(b, k)));
        assert(has_key(ba, k) == (has_key(b, k) || has_key(a, k)));
    }
}

/// Merging is associative on hits: `(a + b) + c` and `a + (b + c)` give
/// every key the same hits and hold the same keys.
pub proof fn merge_associates(
    a: Seq<Trace>,
    b: Seq<Trace>,
    c: Seq<Trace>,
    ab: Seq<Trace>,
    ab_c: Seq<Trace>,
    bc: Seq<Trace>,
    a_bc: Seq<Trace>,
)
    requires
        merge_of(a, b, ab),
        merge_of(ab, c, ab_c),
        merge_of(b, c, bc),
        merge_of(a, bc, a_bc),
    ensures
        forall|k: TraceKey| #[trigger] hits_of(ab_c, k) == hits_of(a_bc, k),
        forall|k: TraceKey|
            #[trigger] hits_of(ab_c, k) == hits_of(a, k) + hits_of(b, k) + hits_of(c, k),
        forall|k: TraceKey| #[trigger] has_key(ab_c, k) == has_key(a_bc, k),
{
    assert forall|k: TraceKey| #[trigger] hits_of(ab_c, k) == hits_of(a_bc, k) by {
        assert(hits_of(ab_c, k) == hits_of(ab, k) + hits_of(c, k));
        assert(hits_of(ab, k) == hits_of(a, k) + hits_of(b, k));
        assert(hits_of(a_bc, k) == hits_of(a, k) + hits_of(bc, k));
        assert(hits_of(bc, k) == hits_of(b, k) + hits_of(c, k));
    }
    assert forall|k: TraceKey|
        #[trigger] hits_of(ab_c, k) == hits_of(a, k) + hits_of(b, k) + hits_of(c, k) by {
        assert(hits_of(ab_c, k) == hits_of(ab, k) + hits_of(c, k));
        assert(hits_of(ab, k) == hits_of(a, k) + hits_of(b, k));
    }
    assert forall|k: TraceKey| #[trigger] has_key(ab_c, k) == has_key(a_bc, k) by {
        assert(has_key(ab_c, k) == (has_key(ab, k) || has_key(c, k)));
        assert(has_key(ab, k) == (has_key(a, k) || has_key(b, k)));
        assert(has_key(a_bc, k) == (has_key(a, k) || has_key(bc, k)));
        assert(has_key(bc, k) == (has_key(b, k) || has_key(c, k)));
    }
}

/// A well-formed map holds no hits on a trace that has no address.
pub proof fn unmapped_traces_have_no_hits(m: TraceMap, i: int)
    requires
        m.wf(),
        0 <= i < m@.len(),
        m@[i].address.is_none(),
    ensures
        m@[i].hits() == 0,
{
    assert(m@[i].valid());
}

/// The views of a list of strings.
pub open spec fn views(v: Seq<String>) -> Seq<Seq<char>> {
    v.map_values(|s: String| s@)
}

/// `new` is `old` with one more hit counted on entry `i`.
pub open spec fn bumped_at(old: Seq<Trace>, new: Seq<Trace>, i: int) -> bool {
    &&& 0 <= i < old.len()
    &&& new.len() == old.len()
    &&& new[i].key() == old[i].key()
    &&& new[i].fn_name == old[i].fn_name
    &&& new[i].hits() == bumped(old[i].hits())
    &&& forall|j: int| 0 <= j < old.len() && j != i ==> #[trigger] new[j] == old[j]
}

/// `i` is the first entry of `s` at address `a`.
pub open spec fn is_first_at(s: Seq<Trace>, a: u64, i: int) -> bool {
    &&& 0 <= i < s.len()
    &&& s[i].address == Some(a)
    &&& forall|m: int| 0 <= m < i ==> #[trigger] s[m].address != Some(a)
}

impl TraceMap {
    /// Every trace without an address has no hits.
    pub open spec fn wf(&self) -> bool {
        all_valid(self@)
    }

    /// An empty map.
    pub fn new() -> (r: TraceMap)
        ensures
            r@ == Seq::<Trace>::empty(),
            r.wf(),
    {
        TraceMap { traces: Vec::new() }
    }

    /// Number of traces held.
    pub fn total_coverable(&self) -> (r: usize)
        ensures
            r == self@.len(),
    {
        self.traces.len()
    }

    /// The trace at position `i`.
    pub fn get(&self, i: usize) -> (r: &Trace)
        requires
            i < self@.len(),
        ensures
            *r == self@[i as int],
    {
        &self.traces[i]
    }

    /// Appends a trace. One without an address is recorded with no hits.
    pub fn add_trace(&mut self, trace: Trace)
        requires
            old(self).wf(),
        ensures
            final(self).wf(),
            final(self)@.len() == old(self)@.len() + 1,
            final(self)@.drop_last() == old(self)@,
            final(self)@.last().key() == trace.key(),
            final(self)@.last().fn_name == trace.fn_name,
            final(self)@.last().hits() == if trace.address.is_some() {
                trace.hits()
            } else {
                0
            },
    {
        let mut t = trace;
        if t.address.is_none() {
            t.stats = CoverageStat::Line(0);
        }
        self.traces.push(t);
        proof {
            assert(self@.drop_last() =~= old(self)@);
            assert forall|i: int| 0 <= i < self@.len() implies #[trigger] self@[i].valid() by {
                if i < old(self)@.len() {
                    assert(old(self)@[i].valid());
                }
            }
        }
    }

    /// Counts one hit at `address` on the first trace there. Returns the
    /// index of that trace, or `None` when no trace has this address.
    pub fn increment_hits(&mut self, address: u64) -> (r: Option<usize>)
        requires
            old(self).wf(),
        ensures
            final(self).wf(),
            final(self)@.len() == old(self)@.len(),
            forall|j: int|
                0 <= j < old(self)@.len() ==> #[trigger] final(self)@[j].hits() >= old(self)@[j].hits(),
            match r {
                Some(i) => {
                    &&& is_first_at(old(self)@, address, i as int)
                    &&& bumped_at(old(self)@, final(self)@, i as int)
                },
                None => {
                    &&& final(self)@ == old(self)@
                    &&& forall|j: int|
                        0 <= j < old(self)@.len() ==> #[trigger] old(self)@[j].address != Some(
                            address,
                        )
                },
            },
    {
        let mut j: usize = 0;
        while j < self.traces.len()
            invariant
                self@ == old(self)@,
                all_valid(old(self)@),
                0 <= j <= self@.len(),
                forall|m: int| 0 <= m < j ==> #[trigger] self@[m].address != Some(address),
            decreases self@.len() - j,
        {
            let hit = match self.traces[j].address {
                Some(a) => a == address,
                None => false,
            };
            if hit {
                let h = self.traces[j].hit_count();
                let n: u64 = if h < u64::MAX {
                    h + 1
                } else {
                    h
                };
                let mut e = self.traces[j].duplicate();
                e.stats = CoverageStat::Line(n);
                e.fn_name = match &self.traces[j].fn_name {
                    Some(f) => Some(f.clone()),
                    None => None,
                };
                self.traces.set(j, e);
                proof {
                    assert forall|i: int| 0 <= i < self@.len() implies #[trigger] self@[i].valid() by {
                        assert(old(self)@[i].valid());
                    }
                }
                return Some(j);
            }
            j = j + 1;
        }
        None
    }

    /// Hits of the first trace at `address`, or `None` when no trace is there.
    pub fn first_hits(&self, address: u64) -> (r: Option<u64>)
        ensures
            match r {
                Some(h) => exists|i: int| is_first_at(self@, address, i) && self@[i].hits() == h,
                None => forall|j: int| 0 <= j < self@.len() ==> #[trigger] self@[j].address != Some(address),
            },
    {
        let mut j: usize = 0;
        while j < self.traces.len()
            invariant
                0 <= j <= self@.len(),
                forall|m: int| 0 <= m < j ==> #[trigger] self@[m].address != Some(address),
            decreases self@.len() - j,
        {
            let hit = match self.traces[j].address {
                Some(a) => a == address,
                None => false,
            };
            if hit {
                proof {
                    assert(is_first_at(self@, address, j as int));
                }
                return Some(self.traces[j].hit_count());
            }
            j = j + 1;
        }
        None
    }

    /// Collapses the traces that share file, line and address into one,
    /// summing their hits.
    pub fn dedup(&mut self)
        requires
            old(self).wf(),
            total_of(old(self)@) <= u64::MAX,
        ensures
            final(self).wf(),
            keys_unique(final(self)@),
            forall|k: TraceKey| #[trigger] hits_of(final(self)@, k) == hits_of(old(self)@, k),
            forall|k: TraceKey| #[trigger] has_key(final(self)@, k) == has_key(old(self)@, k),
            total_of(final(self)@) == total_of(old(self)@),
    {
        let ghost s = self@;
        let mut out: Vec<Trace> = Vec::new();
        let mut i: usize = 0;
        assert(s.take(0) =~= Seq::<Trace>::empty());
        while i < self.traces.len()
            invariant
                self@ == s,
                all_valid(s),
                total_of(s) <= u64::MAX,
                0 <= i <= s.len(),
                forall|k: TraceKey| #[trigger] hits_of(out@, k) == hits_of(s.take(i as int), k),
                forall|k: TraceKey| #[trigger] has_key(out@, k) == has_key(s.take(i as int), k),
                total_of(out@) == total_of(s.take(i as int)),
                keys_unique(out@),
                all_valid(out@),
            decreases s.len() - i,
        {
            proof {
                lemma_prefix_step(s, i as int);
                assert(s[i as int].valid());
            }
            absorb(&mut out, &self.traces[i]);
            i = i + 1;
        }
        proof {
            assert(s.take(s.len() as int) =~= s);
        }
        self.traces = out;
    }

    /// Folds `other` into this map: hits of traces that share file, line
    /// and address are summed, the other traces are appended.
    pub fn merge(&mut self, other: &TraceMap)
        requires
            old(self).wf(),
            other.wf(),
            total_of(old(self)@) + total_of(other@) <= u64::MAX,
        ensures
            final(self).wf(),
            merge_of(old(self)@, other@, final(self)@),
            total_of(final(self)@) == total_of(old(self)@) + total_of(other@),
            keys_unique(old(self)@) ==> keys_unique(final(self)@),
    {
        let ghost s = other@;
        let mut i: usize = 0;
        assert(s.take(0) =~= Seq::<Trace>::empty());
        while i < other.traces.len()
            invariant
                other@ == s,
                all_valid(s),
                total_of(old(self)@) + total_of(s) <= u64::MAX,
                0 <= i <= s.len(),
                forall|k: TraceKey|
                    #[trigger] hits_of(self@, k) == hits_of(old(self)@, k) + hits_of(s.take(i as int), k),
                forall|k: TraceKey|
                    #[trigger] has_key(self@, k) == (has_key(old(self)@, k) || has_key(s.take(i as int), k)),
                total_of(self@) == total_of(old(self)@) + total_of(s.take(i as int)),
                keys_unique(old(self)@) ==> keys_unique(self@),
                self.wf(),
            decreases s.len() - i,
        {
            proof {
                lemma_prefix_step(s, i as int);
                assert(s[i as int].valid());
            }
            absorb(&mut self.traces, &other.traces[i]);
            i = i + 1;
        }
        proof {
            assert(s.take(s.len() as int) =~= s);
        }
    }

    /// Sum of all hits, or `None` when it does not fit in a `u64`.
    pub fn total_hits(&self) -> (r: Option<u64>)
        ensures
            r is Some <==> total_of(self@) <= u64::MAX,
            r is Some ==> r.unwrap() == total_of(self@),
    {
        let mut sum: u64 = 0;
        let mut i: usize = 0;
        while i < self.traces.len()
            invariant
                0 <= i <= self@.len(),
                sum == total_of(self@.take(i as int)),
            decreases self@.len() - i,
        {
            proof {
                assert(self@.take(i + 1).drop_last() =~= self@.take(i as int));
                lemma_total_prefix(self@, i + 1);
            }
            let h = self.traces[i].hit_count();
            if h > u64::MAX - sum {
                proof {
                    lemma_total_prefix(self@, i + 1);
                }
                return None;
            }
            sum = sum + h;
            i = i + 1;
        }
        proof {
            assert(self@.take(i as int) =~= self@);
        }
        Some(sum)
    }

    /// Merges `other` in when the hits of both maps fit in a `u64` together,
    /// and returns whether it did; otherwise the map is left as it was.
    pub fn merge_checked(&mut self, other: &TraceMap) -> (r: bool)
        requires
            old(self).wf(),
            other.wf(),
        ensures
            final(self).wf(),
            r == (total_of(old(self)@) + total_of(other@) <= u64::MAX),
            r ==> merge_of(old(self)@, other@, final(self)@),
            r ==> total_of(final(self)@) == total_of(old(self)@) + total_of(other@),
            !r ==> final(self)@ == old(self)@,
    {
        let a = self.total_hits();
        let b = other.total_hits();
        match (a, b) {
            (Some(x), Some(y)) => {
                if x <= u64::MAX - y {
                    self.merge(other);
                    true
                } else {
                    false
                }
            },
            _ => false,
        }
    }

    /// Whether some trace's file is `file`.
    fn has_file(v: &Vec<String>, file: &String) -> (r: bool)
        ensures
            r == views(v@).contains(file@),
    {
        let mut i: usize = 0;
        while i < v.len()
            invariant
                0 <= i <= v@.len(),
                forall|j: int| 0 <= j < i ==> v@[j]@ != file@,
            decreases v@.len() - i,
        {
            if v[i] == *file {
                proof {
                    assert(views(v@)[i as int] == file@);
                }
                return true;
            }
            i = i + 1;
        }
        proof {
            if views(v@).contains(file@) {
                let j = choose|j: int| 0 <= j < views(v@).len() && views(v@)[j] == file@;
                assert(v@[j]@ == file@);
            }
        }
        false
    }

    /// The files of the traces, each once, in order of first appearance.
    pub fn files(&self) -> (r: Vec<String>)
        ensures
            views(r@).no_duplicates(),
            forall|f: Seq<char>|
                views(r@).contains(f) <==> exists|i: int| 0 <= i < self@.len() && #[trigger] self@[i].file@ == f,
    {
        let mut out: Vec<String> = Vec::new();
        let mut i: usize = 0;
        while i < self.traces.len()
            invariant
                0 <= i <= self@.len(),
                views(out@).no_duplicates(),
                forall|f: Seq<char>|
                    views(out@).contains(f) <==> exists|j: int| 0 <= j < i && #[trigger] self@[j].file@ == f,
            decreases self@.len() - i,
        {
            let ghost prev = views(out@);
            if !Self::has_file(&out, &self.traces[i].file) {
                out.push(self.traces[i].file.clone());
                proof {
                    assert(views(out@) =~= prev.push(self@[i as int].file@));
                }
            }
            proof {
                assert forall|f: Seq<char>|
                    views(out@).contains(f) <==> exists|j: int| 0 <= j < i + 1 && #[trigger] self@[j].file@ == f by {
                    if views(out@).contains(f) && f != self@[i as int].file@ {
                        let k = choose|k: int| 0 <= k < views(out@).len() && views(out@)[k] == f;
                        assert(prev[k] == f);
                        assert(prev.contains(f));
                    }
                    if exists|j: int| 0 <= j < i + 1 && #[trigger] self@[j].file@ == f {
                        let j = choose|j: int| 0 <= j < i + 1 && #[trigger] self@[j].file@ == f;
                        if j < i {
                            assert(prev.contains(f));
                            let k = choose|k: int| 0 <= k < prev.len() && prev[k] == f;
                            assert(views(out@)[k] == f);
                        } else if !prev.contains(f) {
                            assert(views(out@)[prev.len() as int] == f);
                        }
                    }
                    if f == self@[i as int].file@ {
                        assert(self@[i as int].file@ == f);
                    }
                }
            }
            i = i + 1;
        }
        out
    }

    /// Positions of the traces of `file`, in ascending order of line; traces
    /// on the same line keep their order.
    pub fn get_child_traces(&self, file: &String) -> (r: Vec<usize>)
        ensures
            r@.no_duplicates(),
            forall|i: int|
                0 <= i < self@.len() ==> (r@.contains(i as usize) <==> #[trigger] self@[i].file@ == file@),
            forall|k: int| 0 <= k < r@.len() ==> #[trigger] r@[k] < self@.len(),
            forall|k: int, m: int|
                0 <= k < m < r@.len() ==> self@[r@[k] as int].line <= self@[r@[m] as int].line,
    {
        let mut out: Vec<usize> = Vec::new();
        let mut i: usize = 0;
        while i < self.traces.len()
            invariant
                0 <= i <= self@.len(),
                out@.no_duplicates(),
                forall|k: int| 0 <= k < out@.len() ==> #[trigger] out@[k] < i,
                forall|j: int|
                    0 <= j < i ==> (out@.contains(j as usize) <==> #[trigger] self@[j].file@ == file@),
                forall|k: int, m: int|
                    0 <= k < m < out@.len() ==> self@[out@[k] as int].line <= self@[out@[m] as int].line,
            decreases self@.len() - i,
        {
            if self.traces[i].file == *file {
                let line = self.traces[i].line;
                let mut p: usize = out.len();
                while p > 0 && self.traces[out[p - 1]].line > line
                    invariant
                        0 <= p <= out@.len(),
                        forall|k: int| 0 <= k < out@.len() ==> #[trigger] out@[k] < i,
                        i < self@.len(),
                        line == self@[i as int].line,
                        forall|k: int| p <= k < out@.len() ==> self@[out@[k] as int].line > line,
                    decreases p,
                {
                    p = p - 1;
                }
                let ghost prev = out@;
                out.insert(p, i);
                proof {
                    assert(out@ =~= prev.take(p as int).push(i).add(prev.skip(p as int)));
                    assert forall|k: int| 0 <= k < out@.len() implies #[trigger] out@[k] < i + 1 by {
                        if k < p {
                            assert(out@[k] == prev[k]);
                        } else if k > p {
                            assert(out@[k] == prev[k - 1]);
                        }
                    }
                    assert forall|k: int, m: int| 0 <= k < m < out@.len() implies out@[k] != out@[m] by {
                        if k < p && m < p {
                            assert(out@[k] == prev[k] && out@[m] == prev[m]);
                        } else if k < p && m == p {
                            assert(out@[k] == prev[k]);
                        } else if k < p {
                            assert(out@[k] == prev[k] && out@[m] == prev[m - 1]);
                        } else if k == p {
                            assert(out@[m] == prev[m - 1]);
                        } else {
                            assert(out@[k] == prev[k - 1] && out@[m] == prev[m - 1]);
                        }
                    }
                    assert forall|k: int, m: int|
                        0 <= k < m < out@.len() implies self@[out@[k] as int].line <= self@[out@[m] as int].line by {
                        if k < p && m < p {
                            assert(out@[k] == prev[k] && out@[m] == prev[m]);
                        } else if k < p && m == p {
                            assert(out@[k] == prev[k]);
                            if p > 0 {
                                assert(prev[k] == prev[p - 1] || self@[prev[k] as int].line <= self@[prev[p - 1] as int].line);
                            }
                        } else if k < p {
                            assert(out@[k] == prev[k] && out@[m] == prev[m - 1]);
                        } else if k == p {
                            assert(out@[m] == prev[m - 1]);
                        } else {
                            assert(out@[k] == prev[k - 1] && out@[m] == prev[m - 1]);
                        }
                    }
                    assert forall|j: int|
                        0 <= j < i + 1 implies (out@.contains(j as usize) <==> #[trigger] self@[j].file@ == file@) by {
                        if j < i {
                            if prev.contains(j as usize) {
                                let k = choose|k: int| 0 <= k < prev.len() && prev[k] == j as usize;
                                if k < p {
                                    assert(out@[k] == j as usize);
                                } else {
                                    assert(out@[k + 1] == j as usize);
                                }
                            }
                            if out@.contains(j as usize) {
                                let k = choose|k: int| 0 <= k < out@.len() && out@[k] == j as usize;
                                if k < p {
                                    assert(prev[k] == j as usize);
                                } else if k > p {
                                    assert(prev[k - 1] == j as usize);
                                }
                            }
                        } else {
                            assert(out@[p as int] == i);
                        }
                    }
                }
            } else {
                proof {
                    assert forall|j: int|
                        0 <= j < i + 1 implies (out@.contains(j as usize) <==> #[trigger] self@[j].file@ == file@) by {
                        if j == i && out@.contains(j as usize) {
                            let k = choose|k: int| 0 <= k < out@.len() && out@[k] == j as usize;
                            assert(out@[k] < i);
                        }
                    }
                }
            }
            i = i + 1;
        }
        out
    }
}

/// Hits of key `k` summed over every map of `runs`.
pub open spec fn runs_hits(runs: Seq<TraceMap>, k: TraceKey) -> nat
    decreases runs.len(),
{
    if runs.len() == 0 {
        0
    } else {
        runs_hits(runs.drop_last(), k) + hits_of(runs.last()@, k)
    }
}

/// All hits of every map of `runs`.
pub open spec fn runs_total(runs: Seq<TraceMap>) -> nat
    decreases runs.len(),
{
    if runs.len() == 0 {
        0
    } else {
        runs_total(runs.drop_last()) + total_of(runs.last()@)
    }
}

/// Some map of `runs` holds key `k`.
pub open spec fn runs_have_key(runs: Seq<TraceMap>, k: TraceKey) -> bool {
    exists|i: int| 0 <= i < runs.len() && has_key(#[trigger] runs[i]@, k)
}

proof fn lemma_runs_total_prefix(runs: Seq<TraceMap>, n: int)
    requires
        0 <= n <= runs.len(),
    ensures
        runs_total(runs.take(n)) <= runs_total(runs),
    decreases runs.len(),
{
    if n < runs.len() {
        assert(runs.take(n) =~= runs.drop_last().take(n));
        lemma_runs_total_prefix(runs.drop_last(), n);
    } else {
        assert(runs.take(n) =~= runs);
    }
}

/// The traces of all `runs` in one map: the hits of each key summed over the
/// runs, each key once. `None` when the hits do not fit in a `u64` together.
pub fn merge_all(runs: &Vec<TraceMap>) -> (r: Option<TraceMap>)
    requires
        forall|i: int| 0 <= i < runs@.len() ==> (#[trigger] runs@[i]).wf(),
    ensures
        r is None ==> runs_total(runs@) > u64::MAX,
        r is Some ==> {
            let m = r.unwrap();
            &&& m.wf()
            &&& keys_unique(m@)
            &&& forall|k: TraceKey| #[trigger] hits_of(m@, k) == runs_hits(runs@, k)
            &&& forall|k: TraceKey| #[trigger] has_key(m@, k) == runs_have_key(runs@, k)
        },
{
    let mut acc = TraceMap::new();
    let mut i: usize = 0;
    proof {
        assert(runs@.take(0) =~= Seq::<TraceMap>::empty());
    }
    while i < runs.len()
        invariant
            0 <= i <= runs@.len(),
            forall|j: int| 0 <= j < runs@.len() ==> (#[trigger] runs@[j]).wf(),
            acc.wf(),
            total_of(acc@) <= u64::MAX,
            total_of(acc@) == runs_total(runs@.take(i as int)),
            forall|k: TraceKey| #[trigger] hits_of(acc@, k) == runs_hits(runs@.take(i as int), k),
            forall|k: TraceKey| #[trigger] has_key(acc@, k) == runs_have_key(runs@.take(i as int), k),
        decreases runs@.len() - i,
    {
        let ghost prefix = runs@.take(i as int);
        let ghost next = runs@.take(i + 1);
        proof {
            assert(next.drop_last() =~= prefix);
            assert(next.last() == runs@[i as int]);
        }
        if !acc.merge_checked(&runs[i]) {
            proof {
                lemma_runs_total_prefix(runs@, i + 1);
            }
            return None;
        }
        proof {
            assert forall|k: TraceKey| #[trigger] has_key(acc@, k) == runs_have_key(next, k) by {
                if runs_have_key(prefix, k) {
                    let j = choose|j: int| 0 <= j < prefix.len() && has_key(#[trigger] prefix[j]@, k);
                    assert(next[j] == prefix[j]);
                }
                if has_key(runs@[i as int]@, k) {
                    assert(next[i as int] == runs@[i as int]);
                }
                if runs_have_key(next, k) {
                    let j = choose|j: int| 0 <= j < next.len() && has_key(#[trigger] next[j]@, k);
                    if j < i {
                        assert(prefix[j] == next[j]);
                    }
                }
            }
        }
        i = i + 1;
    }
    proof {
        assert(runs@.take(i as int) =~= runs@);
    }
    acc.dedup();
    Some(acc)
}

} // verus!
