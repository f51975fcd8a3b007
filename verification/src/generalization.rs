use vstd::prelude::*;

use crate::corpus::{FuzzState, Testcase};
use crate::errors::Error;
use crate::executors::{all_covered, Executor, MapObserver};
use crate::inputs::{clone_vec, GeneralizedInput};
use crate::payload::{
    is_subsequence, lemma_materialize_gapped, lemma_materialize_push, lemma_materialize_snoc,
    lemma_materialize_split, lemma_subseq_drop_middle, lemma_subseq_refl, lemma_trimmed_snoc,
    materialize, no_adjacent_gaps, slot_bytes, trimmed,
};

verus! {

broadcast use crate::payload::lemma_subseq_trans;

/// The largest payload that is stored back as a generalized form.
pub const MAX_GENERALIZED_LEN: usize = 8192;

/// Advances by a fixed stride: the nominated range is `[idx, idx + 1 + off)`.
pub fn increment_by_offset(_list: &Vec<Option<u8>>, idx: usize, off: u8) -> (r: usize)
    requires
        idx + 1 + off as usize <= usize::MAX,
    ensures
        r == idx + 1 + off as usize,
{
    idx + 1 + off as usize
}

/// Scans forward from `idx` for a slot holding the byte `ch`; the result is
/// one past the first hit, or the payload length if none is found.
pub fn find_next_char(list: &Vec<Option<u8>>, idx: usize, ch: u8) -> (r: usize)
    ensures
        r == find_next_char_spec(list@, idx as int, ch),
        idx >= list@.len() ==> r == idx,
        idx < list@.len() ==> idx < r <= list@.len(),
        forall|k: int| idx <= k < r - 1 ==> list@[k] != Some(ch),
        idx < list@.len() && r < list@.len() ==> list@[r - 1] == Some(ch),
{
    let mut i: usize = idx;
    while i < list.len()
        invariant
            idx <= i,
            idx < list@.len() ==> i <= list@.len(),
            idx >= list@.len() ==> i == idx,
            forall|k: int| idx <= k < i ==> list@[k] != Some(ch),
            find_next_char_spec(list@, idx as int, ch) == find_next_char_spec(list@, i as int, ch),
        decreases list@.len() - i,
    {
        let hit = match list[i] {
            Some(b) => b == ch,
            None => false,
        };
        if hit {
            return i + 1;
        }
        i = i + 1;
    }
    i
}

/// Scans forward from `idx` for a slot holding the byte `ch`; the result
/// is the first hit itself, or the payload length if none is found.
fn find_opening(list: &Vec<Option<u8>>, idx: usize, ch: u8) -> (r: usize)
    ensures
        r == scan_for(list@, idx as int, ch),
        idx <= r,
        idx < list@.len() ==> r <= list@.len(),
        r < list@.len() ==> list@[r as int] == Some(ch),
{
    let mut i: usize = idx;
    while i < list.len()
        invariant
            idx <= i,
            idx < list@.len() ==> i <= list@.len(),
            idx >= list@.len() ==> i == idx,
            scan_for(list@, idx as int, ch) == scan_for(list@, i as int, ch),
        decreases list@.len() - i,
    {
        let hit = match list[i] {
            Some(b) => b == ch,
            None => false,
        };
        if hit {
            return i;
        }
        i = i + 1;
    }
    i
}

/// The two range-nomination strategies `find_gaps` can drive: a fixed
/// stride, or a scan to a delimiter byte.
#[derive(Clone, Copy, PartialEq, Eq, Structural, Debug)]
pub enum Nominator {
    Stride,
    Split,
}

/// The concrete candidate for deleting `[start, end)`: the payload's
/// materialization with that range left out.
fn build_candidate(payload: &Vec<Option<u8>>, start: usize, end: usize) -> (r: Vec<u8>)
    requires
        start <= end,
        end <= payload@.len(),
    ensures
        r@ == materialize(payload@.subrange(0, start as int)) + materialize(
            payload@.subrange(end as int, payload@.len() as int),
        ),
{
    let mut r: Vec<u8> = Vec::new();
    let mut i: usize = 0;
    while i < start
        invariant
            i <= start,
            r@ == materialize(payload@.subrange(0, i as int)),
        decreases start - i,
    {
        match payload[i] {
            Some(b) => {
                r.push(b);
            },
            None => {},
        }
        proof {
            lemma_materialize_snoc(payload@, 0, i as int);
            assert(r@ =~= materialize(payload@.subrange(0, i as int)) + slot_bytes(
                payload@[i as int],
            ));
        }
        i = i + 1;
    }
    proof {
        assert(payload@.subrange(end as int, end as int) =~= Seq::<Option<u8>>::empty());
        assert(r@ =~= materialize(payload@.subrange(0, start as int)) + materialize(
            payload@.subrange(end as int, end as int),
        ));
    }
    let mut j: usize = end;
    while j < payload.len()
        invariant
            end <= j <= payload@.len(),
            r@ == materialize(payload@.subrange(0, start as int)) + materialize(
                payload@.subrange(end as int, j as int),
            ),
        decreases payload@.len() - j,
    {
        match payload[j] {
            Some(b) => {
                r.push(b);
            },
            None => {},
        }
        proof {
            lemma_materialize_snoc(payload@, end as int, j as int);
            assert(r@ =~= materialize(payload@.subrange(0, start as int)) + materialize(
                payload@.subrange(end as int, j as int + 1),
            ));
        }
        j = j + 1;
    }
    r
}

/// Overwrites the slots in `[start, end)` with gaps.
fn gap_range(payload: &mut Vec<Option<u8>>, start: usize, end: usize)
    requires
        start <= end,
        end <= old(payload)@.len(),
    ensures
        final(payload)@.len() == old(payload)@.len(),
        forall|i: int| 0 <= i < start ==> final(payload)@[i] == old(payload)@[i],
        forall|i: int| start <= i < end ==> final(payload)@[i] is None,
        forall|i: int|
            end <= i < old(payload)@.len() ==> final(payload)@[i] == old(payload)@[i],
{
    let mut k: usize = start;
    while k < end
        invariant
            start <= k <= end,
            payload@.len() == old(payload)@.len(),
            forall|i: int| 0 <= i < start ==> payload@[i] == old(payload)@[i],
            forall|i: int| start <= i < k ==> payload@[i] is None,
            forall|i: int| end <= i < payload@.len() ==> payload@[i] == old(payload)@[i],
        decreases end - k,
    {
        payload.set(k, None);
        k = k + 1;
    }
}

/// Whether the corpus holds a loadable entry at `i`.
pub open spec fn entry_ok(s: FuzzState, i: usize) -> bool {
    i < s.corpus@.len() && s.corpus@[i as int].input is Some
}

/// The bytes of the entry's input at `i` (empty when there is none).
pub open spec fn entry_bytes(s: FuzzState, i: usize) -> Seq<u8> {
    if entry_ok(s, i) {
        match s.corpus@[i as int].input {
            Some(gi) => gi.bytes@,
            None => Seq::empty(),
        }
    } else {
        Seq::empty()
    }
}

/// Whether the entry's input already carries a generalized form.
pub open spec fn entry_generalized(s: FuzzState, i: usize) -> bool {
    entry_ok(s, i) && (match s.corpus@[i as int].input {
        Some(gi) => gi.generalized is Some,
        None => false,
    })
}

/// Whether the entry carries novelty metadata.
pub open spec fn entry_has_novelties(s: FuzzState, i: usize) -> bool {
    i < s.corpus@.len() && s.corpus@[i as int].novelties is Some
}

/// The novelty indices attached to the entry (empty when absent).
pub open spec fn entry_novelties(s: FuzzState, i: usize) -> Seq<usize> {
    if entry_has_novelties(s, i) {
        match s.corpus@[i as int].novelties {
            Some(n) => n@,
            None => Seq::empty(),
        }
    } else {
        Seq::empty()
    }
}

/// The slots of a byte string, every byte kept.
pub open spec fn as_slots(bytes: Seq<u8>) -> Seq<Option<u8>> {
    Seq::new(bytes.len(), |i: int| Some(bytes[i]))
}

/// `p` with the slots in `[start, end)` overwritten by gaps.
pub open spec fn gapped(p: Seq<Option<u8>>, start: int, end: int) -> Seq<Option<u8>> {
    Seq::new(p.len(), |i: int| if start <= i < end { Option::<u8>::None } else { p[i] })
}

/// The concrete candidate probed for deleting `[start, end)`: the
/// materialization with that range left out.
pub open spec fn candidate_of(p: Seq<Option<u8>>, start: int, end: int) -> Seq<u8> {
    materialize(p.subrange(0, start)) + materialize(p.subrange(end, p.len() as int))
}

/// The commit rule: a nominated range is gapped exactly when the target
/// still covers every novelty index on the candidate without it.
pub open spec fn accepts<E: Executor>(
    p: Seq<Option<u8>>,
    novelties: Seq<usize>,
    start: int,
    end: int,
) -> bool {
    all_covered::<E>(candidate_of(p, start, end), novelties)
}

/// Where the delimiter scan lands: one past the first slot at or after `i`
/// holding `ch`, or the payload length.
pub open spec fn find_next_char_spec(p: Seq<Option<u8>>, i: int, ch: u8) -> int
    decreases p.len() - i,
{
    if i >= p.len() {
        i
    } else if p[i] == Some(ch) {
        i + 1
    } else {
        find_next_char_spec(p, i + 1, ch)
    }
}

/// The end a nomination strategy yields from `start`, clamped into
/// `(start, len]`.
pub open spec fn nominated_end(
    p: Seq<Option<u8>>,
    nominator: Nominator,
    ch: u8,
    start: int,
) -> int {
    let end0 = match nominator {
        Nominator::Stride => start + 1 + ch as int,
        Nominator::Split => find_next_char_spec(p, start, ch),
    };
    if end0 < start + 1 {
        start + 1
    } else if end0 > p.len() {
        p.len() as int
    } else {
        end0
    }
}

/// One stride or delimiter-split pass, before its trim, walking from
/// `start`: each nominated range is gapped exactly when its candidate
/// keeps every novelty covered, and the walk continues at the range's end
/// whatever the verdict. The second component counts the probes spent:
/// exactly one per nominated range.
pub open spec fn linear_pass<E: Executor>(
    p: Seq<Option<u8>>,
    novelties: Seq<usize>,
    nominator: Nominator,
    ch: u8,
    start: int,
) -> (Seq<Option<u8>>, int)
    decreases p.len() - start,
{
    if start < 0 || start >= p.len() {
        (p, 0)
    } else {
        let end = nominated_end(p, nominator, ch, start);
        let p2 = if accepts::<E>(p, novelties, start, end) {
            gapped(p, start, end)
        } else {
            p
        };
        let rest = linear_pass::<E>(p2, novelties, nominator, ch, end);
        (rest.0, 1 + rest.1)
    }
}

/// The first slot at or after `i` holding `ch`, or the payload length.
pub open spec fn scan_for(p: Seq<Option<u8>>, i: int, ch: u8) -> int
    decreases p.len() - i,
{
    if i >= p.len() {
        i
    } else if p[i] == Some(ch) {
        i
    } else {
        scan_for(p, i + 1, ch)
    }
}

/// The inner bracket walk: `end` moves right to left over `(start, end]`;
/// every slot holding `closing_char` costs one probe, and the first
/// accepted one gaps `[start, end)` — keeping the closer — and ends the
/// walk.
pub open spec fn bracket_inner<E: Executor>(
    p: Seq<Option<u8>>,
    novelties: Seq<usize>,
    closing_char: u8,
    start: int,
    end: int,
) -> (Seq<Option<u8>>, int)
    decreases end - start,
{
    if start < 0 || end <= start {
        (p, 0)
    } else if p[end] == Some(closing_char) {
        if accepts::<E>(p, novelties, start, end) {
            (gapped(p, start, end), 1)
        } else {
            let rest = bracket_inner::<E>(p, novelties, closing_char, start, end - 1);
            (rest.0, 1 + rest.1)
        }
    } else {
        bracket_inner::<E>(p, novelties, closing_char, start, end - 1)
    }
}

/// The outer bracket walk over openers from `index` up, bounded by `n`,
/// the payload length (which the walk preserves): each opener found gets
/// one inner walk, and the search resumes one slot past the opener.
pub open spec fn bracket_outer<E: Executor>(
    p: Seq<Option<u8>>,
    novelties: Seq<usize>,
    opening_char: u8,
    closing_char: u8,
    index: int,
    n: int,
) -> (Seq<Option<u8>>, int)
    decreases n + 1 - index,
{
    if index < 0 || index >= n {
        (p, 0)
    } else {
        let start0 = scan_for(p, index, opening_char);
        let start = if start0 < index {
            index
        } else {
            start0
        };
        if start >= n {
            (p, 0)
        } else {
            let one = bracket_inner::<E>(p, novelties, closing_char, start, n - 1);
            let rest = bracket_outer::<E>(one.0, novelties, opening_char, closing_char, start + 1, n);
            (rest.0, one.1 + rest.1)
        }
    }
}

/// One full stride or split phase: the pass from the start, then the trim.
pub open spec fn linear_phase<E: Executor>(
    p: Seq<Option<u8>>,
    novelties: Seq<usize>,
    nominator: Nominator,
    ch: u8,
) -> (Seq<Option<u8>>, int) {
    let r = linear_pass::<E>(p, novelties, nominator, ch, 0);
    (trimmed(r.0), r.1)
}

/// One full bracket phase: the walk from the first opener, then the trim.
pub open spec fn bracket_phase<E: Executor>(
    p: Seq<Option<u8>>,
    novelties: Seq<usize>,
    opening_char: u8,
    closing_char: u8,
) -> (Seq<Option<u8>>, int) {
    let r = bracket_outer::<E>(p, novelties, opening_char, closing_char, 0, p.len() as int);
    (trimmed(r.0), r.1)
}

/// The five stride phases, coarse to fine, in their fixed order.
pub open spec fn stride_schedule<E: Executor>(
    p: Seq<Option<u8>>,
    novelties: Seq<usize>,
) -> (Seq<Option<u8>>, int) {
    let a = linear_phase::<E>(p, novelties, Nominator::Stride, 255);
    let b = linear_phase::<E>(a.0, novelties, Nominator::Stride, 127);
    let c = linear_phase::<E>(b.0, novelties, Nominator::Stride, 63);
    let d = linear_phase::<E>(c.0, novelties, Nominator::Stride, 31);
    let f = linear_phase::<E>(d.0, novelties, Nominator::Stride, 0);
    (f.0, a.1 + b.1 + c.1 + d.1 + f.1)
}

/// The seven delimiter-split phases in their fixed order.
pub open spec fn split_schedule<E: Executor>(
    p: Seq<Option<u8>>,
    novelties: Seq<usize>,
) -> (Seq<Option<u8>>, int) {
    let a = linear_phase::<E>(p, novelties, Nominator::Split, 46);
    let b = linear_phase::<E>(a.0, novelties, Nominator::Split, 59);
    let c = linear_phase::<E>(b.0, novelties, Nominator::Split, 44);
    let d = linear_phase::<E>(c.0, novelties, Nominator::Split, 10);
    let f = linear_phase::<E>(d.0, novelties, Nominator::Split, 13);
    let g = linear_phase::<E>(f.0, novelties, Nominator::Split, 35);
    let h = linear_phase::<E>(g.0, novelties, Nominator::Split, 32);
    (h.0, a.1 + b.1 + c.1 + d.1 + f.1 + g.1 + h.1)
}

/// The six bracket-pair phases in their fixed order, quotes last.
pub open spec fn bracket_schedule<E: Executor>(
    p: Seq<Option<u8>>,
    novelties: Seq<usize>,
) -> (Seq<Option<u8>>, int) {
    let a = bracket_phase::<E>(p, novelties, 40, 41);
    let b = bracket_phase::<E>(a.0, novelties, 91, 93);
    let c = bracket_phase::<E>(b.0, novelties, 123, 125);
    let d = bracket_phase::<E>(c.0, novelties, 60, 62);
    let f = bracket_phase::<E>(d.0, novelties, 39, 39);
    let g = bracket_phase::<E>(f.0, novelties, 34, 34);
    (g.0, a.1 + b.1 + c.1 + d.1 + f.1 + g.1)
}

/// The full fixed pipeline: strides, then splits, then bracket pairs; the
/// resulting payload and the probes spent.
pub open spec fn pipeline<E: Executor>(
    p: Seq<Option<u8>>,
    novelties: Seq<usize>,
) -> (Seq<Option<u8>>, int) {
    let a = stride_schedule::<E>(p, novelties);
    let b = split_schedule::<E>(a.0, novelties);
    let c = bracket_schedule::<E>(b.0, novelties);
    (c.0, a.1 + b.1 + c.1)
}

/// How many probe executions one bracket phase may spend on a payload of
/// `len` slots.
pub open spec fn bracket_budget(len: int) -> int {
    (len + 1) * len
}

/// The bracket budget is non-negative and grows with the payload.
pub proof fn lemma_bracket_budget_mono(a: int, b: int)
    requires
        0 <= a <= b,
    ensures
        0 <= bracket_budget(a) <= bracket_budget(b),
{
    assert(0 <= (a + 1) * a <= (b + 1) * b) by (nonlinear_arith)
        requires
            0 <= a <= b,
    ;
}

/// How many probe executions one `perform` call may spend on an input of
/// `len` bytes: one baseline probe, twelve phases that spend at most one
/// probe per slot, and six bracket phases.
pub open spec fn probe_budget(len: int) -> int {
    1 + 12 * len + 6 * bracket_budget(len)
}

/// `s2` is `s1` with a generalized form installed on entry `i`: every other
/// entry is untouched, the entry keeps its bytes and novelty metadata, and
/// the installed payload fits the size ceiling, is compact, materializes to
/// a subsequence of the input's bytes, and still covers every novelty
/// index.
pub open spec fn installed_generalization<E: Executor>(
    s1: FuzzState,
    s2: FuzzState,
    i: usize,
) -> bool {
    &&& s2.corpus@.len() == s1.corpus@.len()
    &&& forall|j: int|
        0 <= j < s1.corpus@.len() && j != i ==> s2.corpus@[j] == s1.corpus@[j]
    &&& i < s2.corpus@.len()
    &&& match s2.corpus@[i as int].input {
        Some(b) => {
            &&& b.bytes@ == entry_bytes(s1, i)
            &&& match b.generalized {
                Some(g) => {
                    &&& g@.len() <= MAX_GENERALIZED_LEN
                    &&& materialize(g@).len() <= entry_bytes(s1, i).len()
                    &&& is_subsequence(materialize(g@), entry_bytes(s1, i))
                    &&& all_covered::<E>(materialize(g@), entry_novelties(s1, i))
                    &&& no_adjacent_gaps(g@)
                },
                None => false,
            }
        },
        None => false,
    }
    &&& match s2.corpus@[i as int].novelties {
        Some(n) => entry_has_novelties(s1, i) && n@ == entry_novelties(s1, i),
        None => !entry_has_novelties(s1, i),
    }
}

/// The stage that generalizes a corpus entry while preserving its coverage
/// novelties.
pub struct GeneralizationStage {
    pub map_observer_name: String,
}

impl GeneralizationStage {
    /// A stage that will consult the given map observer.
    pub fn new<O: MapObserver>(map_observer: &O) -> (r: Self)
        ensures
            r.map_observer_name@ == map_observer.name_spec(),
    {
        GeneralizationStage { map_observer_name: map_observer.name().to_owned() }
    }

    /// A stage that will consult the map observer with this name.
    pub fn from_name(map_observer_name: &str) -> (r: Self)
        ensures
            r.map_observer_name@ == map_observer_name@,
    {
        GeneralizationStage { map_observer_name: map_observer_name.to_owned() }
    }

    /// The coverage witness probe: one target execution on `input`, then a
    /// check that every novelty index is still covered. Spends exactly one
    /// execution and touches nothing else in the state.
    pub fn verify_input<E: Executor>(
        &self,
        executor: &mut E,
        state: &mut FuzzState,
        novelties: &Vec<usize>,
        input: GeneralizedInput,
    ) -> (r: Result<bool, Error>)
        requires
            old(state).executions < u64::MAX,
        ensures
            final(state).corpus == old(state).corpus,
            old(state).executions <= final(state).executions,
            final(state).executions <= old(state).executions + 1,
            r matches Ok(b) ==> final(state).executions == old(state).executions + 1,
            r matches Ok(b) ==> (b <==> all_covered::<E>(input.bytes@, novelties@)),
            r is Ok ==> final(executor).has_observer(self.map_observer_name@),
            r == Err::<bool, Error>(Error::ObserverNotFound) ==> final(state).executions == old(
                state,
            ).executions + 1 && !final(executor).has_observer(self.map_observer_name@),
    {
        match executor.pre_exec(&input) {
            Ok(()) => {},
            Err(e) => {
                return Err(e);
            },
        }
        match executor.run_target(&input) {
            Ok(()) => {},
            Err(e) => {
                return Err(e);
            },
        }
        state.executions = state.executions + 1;
        match executor.post_exec(&input) {
            Ok(()) => {},
            Err(e) => {
                return Err(e);
            },
        }
        let cnt = match executor.how_many_set(&self.map_observer_name, novelties) {
            Some(c) => c,
            None => {
                return Err(Error::ObserverNotFound);
            },
        };
        Ok(cnt == novelties.len())
    }

    /// The trim pass: collapses every run of adjacent gaps to a single gap,
    /// leaving the materialization as it was.
    pub fn trim_payload(payload: &mut Vec<Option<u8>>)
        ensures
            final(payload)@ == trimmed(old(payload)@),
            materialize(final(payload)@) == materialize(old(payload)@),
            no_adjacent_gaps(final(payload)@),
            final(payload)@.len() <= old(payload)@.len(),
    {
        let mut out: Vec<Option<u8>> = Vec::new();
        let mut previous: bool = false;
        let mut i: usize = 0;
        while i < payload.len()
            invariant
                i <= payload@.len(),
                out@ == trimmed(payload@.subrange(0, i as int)),
                materialize(out@) == materialize(payload@.subrange(0, i as int)),
                no_adjacent_gaps(out@),
                out@.len() <= i,
                previous == (i > 0 && payload@[i as int - 1] is None),
                previous ==> (out@.len() > 0 && out@.last() is None),
                (out@.len() > 0 && out@.last() is None) ==> previous,
            decreases payload@.len() - i,
        {
            let x = payload[i];
            let drop_it = x.is_none() && previous;
            previous = x.is_none();
            let ghost out_before = out@;
            if !drop_it {
                out.push(x);
            }
            proof {
                lemma_materialize_snoc(payload@, 0, i as int);
                lemma_trimmed_snoc(payload@, i as int);
                if !drop_it {
                    assert(out@ =~= trimmed(payload@.subrange(0, i as int + 1)));
                    lemma_materialize_push(out_before, x);
                    assert(materialize(out@) =~= materialize(payload@.subrange(0, i as int + 1)));
                } else {
                    assert(out@ =~= trimmed(payload@.subrange(0, i as int + 1)));
                    assert(slot_bytes(payload@[i as int]) =~= Seq::<u8>::empty());
                    assert(materialize(payload@.subrange(0, i as int)) + Seq::<u8>::empty()
                        =~= materialize(payload@.subrange(0, i as int)));
                    assert(materialize(out@) == materialize(payload@.subrange(0, i as int + 1)));
                }
            }
            i = i + 1;
        }
        proof {
            assert(payload@.subrange(0, payload@.len() as int) =~= payload@);
        }
        *payload = out;
    }

    /// One deletion phase: walks the payload left to right, nominating the
    /// range `[start, end)` by stride or by delimiter scan, probing the
    /// candidate without it, and gapping the range exactly when the
    /// novelties survive; a trim pass follows. On success the payload and
    /// the execution counter land exactly where `linear_phase` says.
    pub fn find_gaps<E: Executor>(
        &self,
        executor: &mut E,
        state: &mut FuzzState,
        payload: &mut Vec<Option<u8>>,
        novelties: &Vec<usize>,
        find_next_index: Nominator,
        split_char: u8,
    ) -> (r: Result<(), Error>)
        requires
            old(payload)@.len() + 256 <= usize::MAX,
            old(state).executions + old(payload)@.len() <= u64::MAX,
            all_covered::<E>(materialize(old(payload)@), novelties@),
        ensures
            final(state).corpus == old(state).corpus,
            old(state).executions <= final(state).executions,
            final(state).executions <= old(state).executions + old(payload)@.len(),
            final(payload)@.len() <= old(payload)@.len(),
            materialize(final(payload)@).len() <= materialize(old(payload)@).len(),
            is_subsequence(materialize(final(payload)@), materialize(old(payload)@)),
            all_covered::<E>(materialize(final(payload)@), novelties@),
            r is Ok ==> no_adjacent_gaps(final(payload)@),
            r is Ok ==> ({
                let res = linear_phase::<E>(old(payload)@, novelties@, find_next_index, split_char);
                final(payload)@ == res.0 && final(state).executions as int == old(
                    state,
                ).executions as int + res.1
            }),
    {
        let ghost total = linear_pass::<E>(
            old(payload)@,
            novelties@,
            find_next_index,
            split_char,
            0,
        );
        let ghost e0 = state.executions;
        proof {
            lemma_subseq_refl(materialize(payload@));
        }
        let mut start: usize = 0;
        while start < payload.len()
            invariant
                payload@.len() == old(payload)@.len(),
                start <= payload@.len(),
                state.corpus == old(state).corpus,
                e0 <= state.executions,
                state.executions <= e0 + start,
                all_covered::<E>(materialize(payload@), novelties@),
                materialize(payload@).len() <= materialize(old(payload)@).len(),
                is_subsequence(materialize(payload@), materialize(old(payload)@)),
                linear_pass::<E>(payload@, novelties@, find_next_index, split_char, start as int).0
                    == total.0,
                total.1 == (state.executions - e0) + linear_pass::<E>(
                    payload@,
                    novelties@,
                    find_next_index,
                    split_char,
                    start as int,
                ).1,
            decreases payload@.len() - start,
        {
            let ghost p_head = payload@;
            let end0 = match find_next_index {
                Nominator::Stride => increment_by_offset(payload, start, split_char),
                Nominator::Split => find_next_char(payload, start, split_char),
            };
            let end = if end0 > payload.len() {
                payload.len()
            } else {
                end0
            };
            proof {
                assert(end as int == nominated_end(p_head, find_next_index, split_char, start as int));
            }
            let candidate_bytes = build_candidate(payload, start, end);
            let candidate = GeneralizedInput::new(candidate_bytes);
            let verdict = match self.verify_input(executor, state, novelties, candidate) {
                Ok(b) => b,
                Err(e) => {
                    return Err(e);
                },
            };
            proof {
                assert(verdict == accepts::<E>(p_head, novelties@, start as int, end as int));
            }
            if verdict {
                let ghost before = payload@;
                gap_range(payload, start, end);
                proof {
                    lemma_materialize_gapped(before, payload@, start as int, end as int);
                    lemma_materialize_split(before, start as int, end as int);
                    lemma_subseq_drop_middle(
                        materialize(before.subrange(0, start as int)),
                        materialize(before.subrange(start as int, end as int)),
                        materialize(before.subrange(end as int, before.len() as int)),
                    );
                    assert(payload@ =~= gapped(p_head, start as int, end as int));
                }
            }
            proof {
                assert(linear_pass::<E>(p_head, novelties@, find_next_index, split_char, start as int).0
                    == linear_pass::<E>(payload@, novelties@, find_next_index, split_char, end as int).0);
                assert(linear_pass::<E>(p_head, novelties@, find_next_index, split_char, start as int).1
                    == 1 + linear_pass::<E>(
                    payload@,
                    novelties@,
                    find_next_index,
                    split_char,
                    end as int,
                ).1);
            }
            start = end;
        }
        proof {
            assert(total.0 == payload@);
            assert(total.1 == state.executions - e0);
        }
        Self::trim_payload(payload);
        Ok(())
    }

    /// One bracket phase: for each slot holding `opening_char`, scan from
    /// the right for `closing_char` and probe deleting everything from the
    /// opener up to, but not including, the closer; a trim pass follows.
    /// On success the payload and the execution counter land exactly where
    /// `bracket_phase` says.
    pub fn find_gaps_in_closures<E: Executor>(
        &self,
        executor: &mut E,
        state: &mut FuzzState,
        payload: &mut Vec<Option<u8>>,
        novelties: &Vec<usize>,
        opening_char: u8,
        closing_char: u8,
    ) -> (r: Result<(), Error>)
        requires
            old(payload)@.len() + 1 <= usize::MAX,
            old(state).executions as int + bracket_budget(old(payload)@.len() as int)
                <= u64::MAX as int,
            all_covered::<E>(materialize(old(payload)@), novelties@),
        ensures
            final(state).corpus == old(state).corpus,
            old(state).executions <= final(state).executions,
            final(state).executions as int <= old(state).executions as int + bracket_budget(
                old(payload)@.len() as int,
            ),
            final(payload)@.len() <= old(payload)@.len(),
            materialize(final(payload)@).len() <= materialize(old(payload)@).len(),
            is_subsequence(materialize(final(payload)@), materialize(old(payload)@)),
            all_covered::<E>(materialize(final(payload)@), novelties@),
            r is Ok ==> no_adjacent_gaps(final(payload)@),
            r is Ok ==> ({
                let res = bracket_phase::<E>(old(payload)@, novelties@, opening_char, closing_char);
                final(payload)@ == res.0 && final(state).executions as int == old(
                    state,
                ).executions as int + res.1
            }),
    {
        let ghost l = old(payload)@.len() as int;
        let ghost total = bracket_outer::<E>(
            old(payload)@,
            novelties@,
            opening_char,
            closing_char,
            0,
            l,
        );
        let ghost e0 = state.executions as int;
        proof {
            lemma_subseq_refl(materialize(payload@));
        }
        let mut index: usize = 0;
        while index < payload.len()
            invariant
                payload@.len() == old(payload)@.len(),
                index <= payload@.len() + 1,
                state.corpus == old(state).corpus,
                e0 <= state.executions as int,
                state.executions as int <= e0 + index as int * l,
                all_covered::<E>(materialize(payload@), novelties@),
                materialize(payload@).len() <= materialize(old(payload)@).len(),
                is_subsequence(materialize(payload@), materialize(old(payload)@)),
                bracket_outer::<E>(
                    payload@,
                    novelties@,
                    opening_char,
                    closing_char,
                    index as int,
                    l,
                ).0 == total.0,
                total.1 == (state.executions as int - e0) + bracket_outer::<E>(
                    payload@,
                    novelties@,
                    opening_char,
                    closing_char,
                    index as int,
                    l,
                ).1,
            decreases payload@.len() + 1 - index,
        {
            let start0 = find_opening(payload, index, opening_char);
            let mut start: usize = start0;
            if start < payload.len() {
                let ghost p_in = payload@;
                let ghost e_in = state.executions as int;
                let ghost s0 = start0 as int;
                proof {
                    assert(e_in <= e0 + s0 * l) by (nonlinear_arith)
                        requires
                            e_in <= e0 + index as int * l,
                            index as int <= s0,
                            0 <= l,
                            0 <= index as int,
                    ;
                }
                let mut end: usize = payload.len() - 1;
                while end > start
                    invariant
                        s0 <= start as int,
                        start <= payload@.len(),
                        end < payload@.len(),
                        s0 < payload@.len(),
                        payload@.len() == old(payload)@.len(),
                        state.corpus == old(state).corpus,
                        e0 <= state.executions as int,
                        e_in <= state.executions as int,
                        state.executions as int <= e0 + s0 * l + (l - 1 - end as int),
                        e_in <= e0 + s0 * l,
                        all_covered::<E>(materialize(payload@), novelties@),
                        materialize(payload@).len() <= materialize(old(payload)@).len(),
                        is_subsequence(materialize(payload@), materialize(old(payload)@)),
                        bracket_inner::<E>(p_in, novelties@, closing_char, s0, l - 1).0
                            == bracket_inner::<E>(
                            payload@,
                            novelties@,
                            closing_char,
                            start as int,
                            end as int,
                        ).0,
                        bracket_inner::<E>(p_in, novelties@, closing_char, s0, l - 1).1 == (
                        state.executions as int - e_in) + bracket_inner::<E>(
                            payload@,
                            novelties@,
                            closing_char,
                            start as int,
                            end as int,
                        ).1,
                    decreases end,
                {
                    let ghost p_head = payload@;
                    let is_close = match payload[end] {
                        Some(b) => b == closing_char,
                        None => false,
                    };
                    if is_close {
                        proof {
                            assert(state.executions < u64::MAX) by (nonlinear_arith)
                                requires
                                    state.executions as int <= e0 + s0 * l + (l - 1 - end as int),
                                    0 <= s0,
                                    s0 + 1 <= l,
                                    0 <= end as int,
                                    1 <= l,
                                    e0 + (l + 1) * l <= u64::MAX as int,
                                    0 <= e0,
                            ;
                        }
                        let candidate_bytes = build_candidate(payload, start, end);
                        let candidate = GeneralizedInput::new(candidate_bytes);
                        let verdict = match self.verify_input(
                            executor,
                            state,
                            novelties,
                            candidate,
                        ) {
                            Ok(b) => b,
                            Err(e) => {
                                proof {
                                    assert(state.executions as int <= e0 + (l + 1) * l)
                                        by (nonlinear_arith)
                                        requires
                                            state.executions as int <= e0 + s0 * l + (l - 1
                                                - end as int) + 1,
                                            0 <= s0,
                                            s0 + 1 <= l,
                                            0 <= end as int,
                                            1 <= l,
                                            0 <= e0,
                                    ;
                                }
                                return Err(e);
                            },
                        };
                        proof {
                            assert(verdict == accepts::<E>(
                                p_head,
                                novelties@,
                                start as int,
                                end as int,
                            ));
                        }
                        if verdict {
                            let ghost before = payload@;
                            gap_range(payload, start, end);
                            proof {
                                lemma_materialize_gapped(before, payload@, start as int, end as int);
                                lemma_materialize_split(before, start as int, end as int);
                                lemma_subseq_drop_middle(
                                    materialize(before.subrange(0, start as int)),
                                    materialize(before.subrange(start as int, end as int)),
                                    materialize(before.subrange(end as int, before.len() as int)),
                                );
                                assert(payload@ =~= gapped(p_head, start as int, end as int));
                                assert(bracket_inner::<E>(
                                    p_head,
                                    novelties@,
                                    closing_char,
                                    start as int,
                                    end as int,
                                ).0 == payload@);
                                assert(bracket_inner::<E>(
                                    p_head,
                                    novelties@,
                                    closing_char,
                                    start as int,
                                    end as int,
                                ).1 == 1);
                            }
                            start = end;
                        } else {
                            proof {
                                assert(bracket_inner::<E>(
                                    p_head,
                                    novelties@,
                                    closing_char,
                                    start as int,
                                    end as int,
                                ).0 == bracket_inner::<E>(
                                    p_head,
                                    novelties@,
                                    closing_char,
                                    start as int,
                                    end as int - 1,
                                ).0);
                                assert(bracket_inner::<E>(
                                    p_head,
                                    novelties@,
                                    closing_char,
                                    start as int,
                                    end as int,
                                ).1 == 1 + bracket_inner::<E>(
                                    p_head,
                                    novelties@,
                                    closing_char,
                                    start as int,
                                    end as int - 1,
                                ).1);
                            }
                        }
                    } else {
                        proof {
                            assert(bracket_inner::<E>(
                                p_head,
                                novelties@,
                                closing_char,
                                start as int,
                                end as int,
                            ) == bracket_inner::<E>(
                                p_head,
                                novelties@,
                                closing_char,
                                start as int,
                                end as int - 1,
                            ));
                        }
                    }
                    end = end - 1;
                }
                proof {
                    assert(bracket_inner::<E>(p_in, novelties@, closing_char, s0, l - 1).0
                        == payload@);
                    assert(bracket_inner::<E>(p_in, novelties@, closing_char, s0, l - 1).1
                        == state.executions as int - e_in);
                    assert(bracket_outer::<E>(
                        p_in,
                        novelties@,
                        opening_char,
                        closing_char,
                        index as int,
                        l,
                    ).0 == bracket_outer::<E>(
                        payload@,
                        novelties@,
                        opening_char,
                        closing_char,
                        s0 + 1,
                        l,
                    ).0);
                    assert(bracket_outer::<E>(
                        p_in,
                        novelties@,
                        opening_char,
                        closing_char,
                        index as int,
                        l,
                    ).1 == (state.executions as int - e_in) + bracket_outer::<E>(
                        payload@,
                        novelties@,
                        opening_char,
                        closing_char,
                        s0 + 1,
                        l,
                    ).1);
                    assert(state.executions as int <= e0 + (s0 + 1) * l) by (nonlinear_arith)
                        requires
                            state.executions as int <= e0 + s0 * l + (l - 1 - end as int),
                            0 <= end as int,
                            0 <= s0,
                            s0 + 1 <= l,
                            1 <= l,
                    ;
                }
            } else {
                proof {
                    assert(state.executions as int <= e0 + (start0 as int + 1) * l)
                        by (nonlinear_arith)
                        requires
                            state.executions as int <= e0 + index as int * l,
                            index as int <= start0 as int + 1,
                            0 <= l,
                            0 <= index as int,
                    ;
                }
            }
            index = start0 + 1;
        }
        proof {
            assert(total.0 == payload@);
            assert(total.1 == state.executions as int - e0);
            assert(state.executions as int <= e0 + (l + 1) * l) by (nonlinear_arith)
                requires
                    state.executions as int <= e0 + index as int * l,
                    index as int <= l + 1,
                    0 <= l,
                    0 <= index as int,
            ;
        }
        Self::trim_payload(payload);
        Ok(())
    }

    /// The five stride phases, coarse to fine.
    fn run_stride_phases<E: Executor>(
        &self,
        executor: &mut E,
        state: &mut FuzzState,
        payload: &mut Vec<Option<u8>>,
        novelties: &Vec<usize>,
    ) -> (r: Result<(), Error>)
        requires
            old(payload)@.len() + 256 <= usize::MAX,
            old(state).executions as int + 5 * old(payload)@.len() as int <= u64::MAX as int,
            all_covered::<E>(materialize(old(payload)@), novelties@),
        ensures
            final(state).corpus == old(state).corpus,
            old(state).executions <= final(state).executions,
            final(state).executions as int <= old(state).executions as int + 5 * old(
                payload,
            )@.len() as int,
            final(payload)@.len() <= old(payload)@.len(),
            materialize(final(payload)@).len() <= materialize(old(payload)@).len(),
            is_subsequence(materialize(final(payload)@), materialize(old(payload)@)),
            all_covered::<E>(materialize(final(payload)@), novelties@),
            r is Ok ==> no_adjacent_gaps(final(payload)@),
            r is Ok ==> ({
                let res = stride_schedule::<E>(old(payload)@, novelties@);
                final(payload)@ == res.0 && final(state).executions as int == old(
                    state,
                ).executions as int + res.1
            }),
    {
        self.find_gaps(executor, state, &mut *payload, novelties, Nominator::Stride, 255)?;
        self.find_gaps(executor, state, &mut *payload, novelties, Nominator::Stride, 127)?;
        self.find_gaps(executor, state, &mut *payload, novelties, Nominator::Stride, 63)?;
        self.find_gaps(executor, state, &mut *payload, novelties, Nominator::Stride, 31)?;
        self.find_gaps(executor, state, &mut *payload, novelties, Nominator::Stride, 0)?;
        Ok(())
    }

    /// The seven delimiter-split phases.
    fn run_split_phases<E: Executor>(
        &self,
        executor: &mut E,
        state: &mut FuzzState,
        payload: &mut Vec<Option<u8>>,
        novelties: &Vec<usize>,
    ) -> (r: Result<(), Error>)
        requires
            old(payload)@.len() + 256 <= usize::MAX,
            old(state).executions as int + 7 * old(payload)@.len() as int <= u64::MAX as int,
            all_covered::<E>(materialize(old(payload)@), novelties@),
        ensures
            final(state).corpus == old(state).corpus,
            old(state).executions <= final(state).executions,
            final(state).executions as int <= old(state).executions as int + 7 * old(
                payload,
            )@.len() as int,
            final(payload)@.len() <= old(payload)@.len(),
            materialize(final(payload)@).len() <= materialize(old(payload)@).len(),
            is_subsequence(materialize(final(payload)@), materialize(old(payload)@)),
            all_covered::<E>(materialize(final(payload)@), novelties@),
            r is Ok ==> no_adjacent_gaps(final(payload)@),
            r is Ok ==> ({
                let res = split_schedule::<E>(old(payload)@, novelties@);
                final(payload)@ == res.0 && final(state).executions as int == old(
                    state,
                ).executions as int + res.1
            }),
    {
        self.find_gaps(executor, state, &mut *payload, novelties, Nominator::Split, 46)?;
        self.find_gaps(executor, state, &mut *payload, novelties, Nominator::Split, 59)?;
        self.find_gaps(executor, state, &mut *payload, novelties, Nominator::Split, 44)?;
        self.find_gaps(executor, state, &mut *payload, novelties, Nominator::Split, 10)?;
        self.find_gaps(executor, state, &mut *payload, novelties, Nominator::Split, 13)?;
        self.find_gaps(executor, state, &mut *payload, novelties, Nominator::Split, 35)?;
        self.find_gaps(executor, state, &mut *payload, novelties, Nominator::Split, 32)?;
        Ok(())
    }

    /// The six bracket-pair phases, quotes last.
    #[verifier::rlimit(100)]
    fn run_bracket_phases<E: Executor>(
        &self,
        executor: &mut E,
        state: &mut FuzzState,
        payload: &mut Vec<Option<u8>>,
        novelties: &Vec<usize>,
    ) -> (r: Result<(), Error>)
        requires
            old(payload)@.len() + 1 <= usize::MAX,
            old(state).executions as int + 6 * bracket_budget(old(payload)@.len() as int)
                <= u64::MAX as int,
            all_covered::<E>(materialize(old(payload)@), novelties@),
        ensures
            final(state).corpus == old(state).corpus,
            old(state).executions <= final(state).executions,
            final(state).executions as int <= old(state).executions as int + 6 * bracket_budget(
                old(payload)@.len() as int,
            ),
            final(payload)@.len() <= old(payload)@.len(),
            materialize(final(payload)@).len() <= materialize(old(payload)@).len(),
            is_subsequence(materialize(final(payload)@), materialize(old(payload)@)),
            all_covered::<E>(materialize(final(payload)@), novelties@),
            r is Ok ==> no_adjacent_gaps(final(payload)@),
            r is Ok ==> ({
                let res = bracket_schedule::<E>(old(payload)@, novelties@);
                final(payload)@ == res.0 && final(state).executions as int == old(
                    state,
                ).executions as int + res.1
            }),
    {
        let ghost l = old(payload)@.len() as int;
        proof {
            lemma_bracket_budget_mono(payload@.len() as int, l);
        }
        self.find_gaps_in_closures(executor, state, &mut *payload, novelties, 40, 41)?;
        proof {
            lemma_bracket_budget_mono(payload@.len() as int, l);
        }
        self.find_gaps_in_closures(executor, state, &mut *payload, novelties, 91, 93)?;
        proof {
            lemma_bracket_budget_mono(payload@.len() as int, l);
        }
        self.find_gaps_in_closures(executor, state, &mut *payload, novelties, 123, 125)?;
        proof {
            lemma_bracket_budget_mono(payload@.len() as int, l);
        }
        self.find_gaps_in_closures(executor, state, &mut *payload, novelties, 60, 62)?;
        proof {
            lemma_bracket_budget_mono(payload@.len() as int, l);
        }
        self.find_gaps_in_closures(executor, state, &mut *payload, novelties, 39, 39)?;
        proof {
            lemma_bracket_budget_mono(payload@.len() as int, l);
        }
        self.find_gaps_in_closures(executor, state, &mut *payload, novelties, 34, 34)?;
        Ok(())
    }

    /// The phase scheduler: the fixed pipeline of five stride phases, seven
    /// delimiter-split phases and six bracket-pair phases, in this exact
    /// order, each followed by its trim pass.
    #[verifier::rlimit(100)]
    fn run_phases<E: Executor>(
        &self,
        executor: &mut E,
        state: &mut FuzzState,
        payload: &mut Vec<Option<u8>>,
        novelties: &Vec<usize>,
    ) -> (r: Result<(), Error>)
        requires
            old(payload)@.len() + 256 <= usize::MAX,
            old(state).executions as int + 12 * old(payload)@.len() as int + 6 * bracket_budget(
                old(payload)@.len() as int,
            ) <= u64::MAX as int,
            all_covered::<E>(materialize(old(payload)@), novelties@),
        ensures
            final(state).corpus == old(state).corpus,
            old(state).executions <= final(state).executions,
            final(state).executions as int <= old(state).executions as int + 12 * old(
                payload,
            )@.len() as int + 6 * bracket_budget(old(payload)@.len() as int),
            final(payload)@.len() <= old(payload)@.len(),
            materialize(final(payload)@).len() <= materialize(old(payload)@).len(),
            is_subsequence(materialize(final(payload)@), materialize(old(payload)@)),
            all_covered::<E>(materialize(final(payload)@), novelties@),
            r is Ok ==> no_adjacent_gaps(final(payload)@),
            r is Ok ==> ({
                let res = pipeline::<E>(old(payload)@, novelties@);
                final(payload)@ == res.0 && final(state).executions as int == old(
                    state,
                ).executions as int + res.1
            }),
    {
        let ghost l = old(payload)@.len() as int;
        proof {
            lemma_bracket_budget_mono(l, l);
        }
        self.run_stride_phases(executor, state, &mut *payload, novelties)?;
        self.run_split_phases(executor, state, &mut *payload, novelties)?;
        proof {
            lemma_bracket_budget_mono(payload@.len() as int, l);
        }
        self.run_bracket_phases(executor, state, &mut *payload, novelties)?;
        Ok(())
    }

    /// Generalizes the corpus entry at `corpus_idx`: after the guardrail
    /// checks and a baseline probe, drives the fixed phase pipeline (five
    /// strides, seven delimiter splits, six bracket pairs, in this exact
    /// order) and, if the final payload fits the size ceiling, installs it
    /// as the entry's generalized form. An entry that already carries a
    /// generalized form, or whose baseline probe misses a novelty, is left
    /// untouched and the call still succeeds.
    #[verifier::rlimit(100)]
    pub fn perform<E: Executor>(
        &self,
        executor: &mut E,
        state: &mut FuzzState,
        corpus_idx: usize,
    ) -> (r: Result<(), Error>)
        requires
            old(state).executions as int + probe_budget(
                entry_bytes(*old(state), corpus_idx).len() as int,
            ) <= u64::MAX as int,
            entry_bytes(*old(state), corpus_idx).len() + 256 <= usize::MAX,
        ensures
            old(state).executions <= final(state).executions,
            final(state).executions as int <= old(state).executions as int + probe_budget(
                entry_bytes(*old(state), corpus_idx).len() as int,
            ),
            !entry_ok(*old(state), corpus_idx) ==> r == Err::<(), Error>(
                Error::KeyNotFound(corpus_idx),
            ) && *final(state) == *old(state) && *final(executor) == *old(executor),
            entry_generalized(*old(state), corpus_idx) ==> r == Ok::<(), Error>(())
                && *final(state) == *old(state) && *final(executor) == *old(executor),
            entry_ok(*old(state), corpus_idx) && !entry_generalized(*old(state), corpus_idx)
                && !entry_has_novelties(*old(state), corpus_idx) ==> r == Err::<(), Error>(
                Error::MetadataNotFound(corpus_idx),
            ) && *final(state) == *old(state) && *final(executor) == *old(executor),
            r is Err ==> final(state).corpus == old(state).corpus,
            entry_ok(*old(state), corpus_idx) && !entry_generalized(*old(state), corpus_idx)
                && entry_has_novelties(*old(state), corpus_idx) && !all_covered::<E>(
                entry_bytes(*old(state), corpus_idx),
                entry_novelties(*old(state), corpus_idx),
            ) ==> final(state).corpus == old(state).corpus,
            r is Ok && entry_ok(*old(state), corpus_idx) && !entry_generalized(
                *old(state),
                corpus_idx,
            ) ==> (final(state).corpus == old(state).corpus || installed_generalization::<E>(
                *old(state),
                *final(state),
                corpus_idx,
            )),
            r is Ok && entry_ok(*old(state), corpus_idx) && !entry_generalized(
                *old(state),
                corpus_idx,
            ) && entry_has_novelties(*old(state), corpus_idx) && all_covered::<E>(
                entry_bytes(*old(state), corpus_idx),
                entry_novelties(*old(state), corpus_idx),
            ) && entry_bytes(*old(state), corpus_idx).len() <= MAX_GENERALIZED_LEN
                ==> installed_generalization::<E>(*old(state), *final(state), corpus_idx),
            r is Ok && entry_ok(*old(state), corpus_idx) && !entry_generalized(
                *old(state),
                corpus_idx,
            ) && entry_has_novelties(*old(state), corpus_idx) && !all_covered::<E>(
                entry_bytes(*old(state), corpus_idx),
                entry_novelties(*old(state), corpus_idx),
            ) ==> final(state).executions == old(state).executions + 1,
            r is Ok && entry_ok(*old(state), corpus_idx) && !entry_generalized(
                *old(state),
                corpus_idx,
            ) && entry_has_novelties(*old(state), corpus_idx) && all_covered::<E>(
                entry_bytes(*old(state), corpus_idx),
                entry_novelties(*old(state), corpus_idx),
            ) ==> ({
                let res = pipeline::<E>(
                    as_slots(entry_bytes(*old(state), corpus_idx)),
                    entry_novelties(*old(state), corpus_idx),
                );
                final(state).executions as int == old(state).executions as int + 1 + res.1 && (
                res.0.len() > MAX_GENERALIZED_LEN ==> final(state).corpus == old(state).corpus) && (
                res.0.len() <= MAX_GENERALIZED_LEN ==> (final(state).corpus@[corpus_idx as int].input
                    matches Some(b) && b.generalized matches Some(g) && g@ == res.0))
            }),
    {
        if corpus_idx >= state.corpus.len() {
            return Err(Error::KeyNotFound(corpus_idx));
        }
        let (original_bytes, novelties) = {
            let entry = &state.corpus[corpus_idx];
            match &entry.input {
                None => {
                    return Err(Error::KeyNotFound(corpus_idx));
                },
                Some(gi) => {
                    if gi.generalized.is_some() {
                        return Ok(());
                    }
                    match &entry.novelties {
                        None => {
                            return Err(Error::MetadataNotFound(corpus_idx));
                        },
                        Some(nv) => (clone_vec(&gi.bytes), clone_vec(nv)),
                    }
                },
            }
        };
        let ghost l = original_bytes@.len() as int;
        let ghost e0 = state.executions as int;
        proof {
            assert(original_bytes@ == entry_bytes(*old(state), corpus_idx));
            assert(novelties@ == entry_novelties(*old(state), corpus_idx));
            lemma_bracket_budget_mono(l, l);
        }
        let mut payload: Vec<Option<u8>> = Vec::new();
        let mut i: usize = 0;
        while i < original_bytes.len()
            invariant
                i <= original_bytes@.len(),
                payload@.len() == i,
                materialize(payload@) == original_bytes@.subrange(0, i as int),
                forall|j: int| 0 <= j < i ==> payload@[j] == Some(original_bytes@[j]),
            decreases original_bytes@.len() - i,
        {
            let ghost payload_before = payload@;
            payload.push(Some(original_bytes[i]));
            proof {
                lemma_materialize_push(payload_before, Some(original_bytes@[i as int]));
                assert(materialize(payload@) =~= original_bytes@.subrange(0, i as int + 1));
            }
            i = i + 1;
        }
        proof {
            assert(original_bytes@.subrange(0, original_bytes@.len() as int) =~= original_bytes@);
            assert(payload@ =~= as_slots(original_bytes@));
        }
        let baseline = GeneralizedInput::new(clone_vec(&original_bytes));
        let stable = match self.verify_input(executor, state, &novelties, baseline) {
            Ok(b) => b,
            Err(e) => {
                return Err(e);
            },
        };
        if !stable {
            return Ok(());
        }
        self.run_phases(executor, state, &mut payload, &novelties)?;
        if payload.len() <= MAX_GENERALIZED_LEN {
            let mut gi = GeneralizedInput::new(original_bytes);
            gi.generalized_from_options(&payload);
            let tc = Testcase { input: Some(gi), novelties: Some(novelties) };
            state.corpus.set(corpus_idx, tc);
            proof {
                assert(installed_generalization::<E>(*old(state), *state, corpus_idx));
            }
        }
        Ok(())
    }
}

} // verus!
