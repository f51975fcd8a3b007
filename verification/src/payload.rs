use vstd::prelude::*;

verus! {

/// The bytes a single slot contributes to the materialization.
pub open spec fn slot_bytes(s: Option<u8>) -> Seq<u8> {
    match s {
        Some(b) => seq![b],
        None => Seq::empty(),
    }
}

/// The concrete byte string obtained from a payload: the kept bytes in
/// order, with the gaps skipped.
pub open spec fn materialize(p: Seq<Option<u8>>) -> Seq<u8>
    decreases p.len(),
{
    if p.len() == 0 {
        Seq::empty()
    } else {
        materialize(p.drop_last()) + slot_bytes(p.last())
    }
}

/// No two adjacent slots are both gaps.
pub open spec fn no_adjacent_gaps(p: Seq<Option<u8>>) -> bool {
    forall|i: int| 0 < i < p.len() ==> !((#[trigger] p[i]) is None && p[i - 1] is None)
}

/// The trim of a payload: each slot is kept unless it is a gap whose
/// immediately preceding slot was also a gap, so every run of gaps
/// collapses to its first one.
pub open spec fn trimmed(p: Seq<Option<u8>>) -> Seq<Option<u8>>
    decreases p.len(),
{
    if p.len() == 0 {
        Seq::empty()
    } else {
        trimmed(p.drop_last()) + (if p.last() is None && p.len() >= 2 && p[p.len() - 2] is None {
            Seq::empty()
        } else {
            seq![p.last()]
        })
    }
}

/// Extending a prefix by one slot extends its trim by that slot, unless the
/// slot continues a run of gaps.
pub proof fn lemma_trimmed_snoc(p: Seq<Option<u8>>, i: int)
    requires
        0 <= i < p.len(),
    ensures
        trimmed(p.subrange(0, i + 1)) == trimmed(p.subrange(0, i)) + (if p[i] is None && i >= 1
            && p[i - 1] is None {
            Seq::<Option<u8>>::empty()
        } else {
            seq![p[i]]
        }),
{
    assert(p.subrange(0, i + 1).drop_last() =~= p.subrange(0, i));
    assert(p.subrange(0, i + 1).last() == p[i]);
    if i >= 1 {
        assert(p.subrange(0, i + 1)[i - 1] == p[i - 1]);
    }
}

/// Materialization distributes over concatenation.
pub proof fn lemma_materialize_concat(a: Seq<Option<u8>>, b: Seq<Option<u8>>)
    ensures
        materialize(a + b) == materialize(a) + materialize(b),
    decreases b.len(),
{
    if b.len() == 0 {
        assert(a + b =~= a);
        assert(materialize(a) + materialize(b) =~= materialize(a));
    } else {
        lemma_materialize_concat(a, b.drop_last());
        assert((a + b).drop_last() =~= a + b.drop_last());
        assert((a + b).last() == b.last());
        assert(materialize(a) + materialize(b.drop_last()) + slot_bytes(b.last()) =~= materialize(
            a,
        ) + (materialize(b.drop_last()) + slot_bytes(b.last())));
    }
}

/// Extending a prefix by one slot appends that slot's bytes.
pub proof fn lemma_materialize_snoc(p: Seq<Option<u8>>, a: int, i: int)
    requires
        0 <= a <= i < p.len(),
    ensures
        materialize(p.subrange(a, i + 1)) == materialize(p.subrange(a, i)) + slot_bytes(p[i]),
{
    assert(p.subrange(a, i + 1).drop_last() =~= p.subrange(a, i));
    assert(p.subrange(a, i + 1).last() == p[i]);
}

/// Appending one slot appends that slot's bytes.
pub proof fn lemma_materialize_push(p: Seq<Option<u8>>, x: Option<u8>)
    ensures
        materialize(p.push(x)) == materialize(p) + slot_bytes(x),
{
    assert(p.push(x).drop_last() =~= p);
    assert(p.push(x).last() == x);
}

/// A payload materializes as its three pieces in order.
pub proof fn lemma_materialize_split(p: Seq<Option<u8>>, start: int, end: int)
    requires
        0 <= start <= end <= p.len(),
    ensures
        materialize(p) == materialize(p.subrange(0, start)) + materialize(
            p.subrange(start, end),
        ) + materialize(p.subrange(end, p.len() as int)),
{
    let x = p.subrange(0, start);
    let y = p.subrange(start, end);
    let z = p.subrange(end, p.len() as int);
    assert(p =~= (x + y) + z);
    lemma_materialize_concat(x + y, z);
    lemma_materialize_concat(x, y);
}

/// A payload of gaps alone materializes to nothing.
pub proof fn lemma_materialize_all_gaps(p: Seq<Option<u8>>)
    requires
        forall|i: int| 0 <= i < p.len() ==> p[i] is None,
    ensures
        materialize(p) == Seq::<u8>::empty(),
    decreases p.len(),
{
    if p.len() > 0 {
        lemma_materialize_all_gaps(p.drop_last());
        assert(materialize(p) =~= Seq::<u8>::empty());
    }
}

/// Gapping the range `[start, end)` leaves the materialization of the two
/// surrounding pieces.
pub proof fn lemma_materialize_gapped(
    p1: Seq<Option<u8>>,
    p2: Seq<Option<u8>>,
    start: int,
    end: int,
)
    requires
        0 <= start <= end <= p1.len(),
        p2.len() == p1.len(),
        forall|i: int| 0 <= i < start ==> p2[i] == p1[i],
        forall|i: int| start <= i < end ==> p2[i] is None,
        forall|i: int| end <= i < p1.len() ==> p2[i] == p1[i],
    ensures
        materialize(p2) == materialize(p1.subrange(0, start)) + materialize(
            p1.subrange(end, p1.len() as int),
        ),
{
    lemma_materialize_split(p2, start, end);
    assert(p2.subrange(0, start) =~= p1.subrange(0, start));
    assert(p2.subrange(end, p2.len() as int) =~= p1.subrange(end, p1.len() as int));
    lemma_materialize_all_gaps(p2.subrange(start, end));
    assert(materialize(p1.subrange(0, start)) + Seq::<u8>::empty() + materialize(
        p1.subrange(end, p1.len() as int),
    ) =~= materialize(p1.subrange(0, start)) + materialize(p1.subrange(end, p1.len() as int)));
}

/// The concrete byte string a payload stands for, computed by skipping gaps.
pub fn materialize_payload(p: &Vec<Option<u8>>) -> (r: Vec<u8>)
    ensures
        r@ == materialize(p@),
{
    let mut r: Vec<u8> = Vec::new();
    let mut i: usize = 0;
    while i < p.len()
        invariant
            i <= p@.len(),
            r@ == materialize(p@.subrange(0, i as int)),
        decreases p@.len() - i,
    {
        match p[i] {
            Some(b) => {
                r.push(b);
            },
            None => {},
        }
        proof {
            lemma_materialize_snoc(p@, 0, i as int);
            assert(r@ =~= materialize(p@.subrange(0, i as int)) + slot_bytes(p@[i as int]));
        }
        i = i + 1;
    }
    proof {
        assert(p@.subrange(0, p@.len() as int) =~= p@);
    }
    r
}

/// Whether `a` is a subsequence of `b`: `a` can be had from `b` by deleting
/// elements, keeping the order of the rest.
pub open spec fn is_subsequence(a: Seq<u8>, b: Seq<u8>) -> bool
    decreases a.len() + b.len(),
{
    if a.len() == 0 {
        true
    } else if b.len() == 0 {
        false
    } else if a.last() == b.last() && is_subsequence(a.drop_last(), b.drop_last()) {
        true
    } else {
        is_subsequence(a, b.drop_last())
    }
}

/// Every sequence is a subsequence of itself.
pub proof fn lemma_subseq_refl(a: Seq<u8>)
    ensures
        is_subsequence(a, a),
    decreases a.len(),
{
    if a.len() > 0 {
        lemma_subseq_refl(a.drop_last());
    }
}

/// Appending the same element to both sides keeps the subsequence.
pub proof fn lemma_subseq_push_both(a: Seq<u8>, b: Seq<u8>, x: u8)
    requires
        is_subsequence(a, b),
    ensures
        is_subsequence(a.push(x), b.push(x)),
{
    assert(a.push(x).drop_last() =~= a);
    assert(b.push(x).drop_last() =~= b);
    assert(a.push(x).last() == x);
    assert(b.push(x).last() == x);
}

/// Appending the same suffix to both sides keeps the subsequence.
pub proof fn lemma_subseq_append_suffix(a: Seq<u8>, b: Seq<u8>, c: Seq<u8>)
    requires
        is_subsequence(a, b),
    ensures
        is_subsequence(a + c, b + c),
    decreases c.len(),
{
    if c.len() == 0 {
        assert(a + c =~= a);
        assert(b + c =~= b);
    } else {
        lemma_subseq_append_suffix(a, b, c.drop_last());
        lemma_subseq_push_both(a + c.drop_last(), b + c.drop_last(), c.last());
        assert(a + c =~= (a + c.drop_last()).push(c.last()));
        assert(b + c =~= (b + c.drop_last()).push(c.last()));
    }
}

/// A sequence is a subsequence of itself with more appended.
pub proof fn lemma_subseq_append_right(a: Seq<u8>, c: Seq<u8>)
    ensures
        is_subsequence(a, a + c),
    decreases c.len(),
{
    if c.len() == 0 {
        lemma_subseq_refl(a);
        assert(a + c =~= a);
    } else {
        lemma_subseq_append_right(a, c.drop_last());
        assert(a + c =~= (a + c.drop_last()).push(c.last()));
        assert((a + c).drop_last() =~= a + c.drop_last());
    }
}

/// Deleting a middle piece leaves a subsequence.
pub proof fn lemma_subseq_drop_middle(a: Seq<u8>, b: Seq<u8>, c: Seq<u8>)
    ensures
        is_subsequence(a + c, a + b + c),
{
    lemma_subseq_append_right(a, b);
    lemma_subseq_append_suffix(a, a + b, c);
    assert((a + b) + c =~= a + b + c);
}

/// Subsequences compose.
pub broadcast proof fn lemma_subseq_trans(a: Seq<u8>, b: Seq<u8>, c: Seq<u8>)
    requires
        #[trigger] is_subsequence(a, b),
        #[trigger] is_subsequence(b, c),
    ensures
        is_subsequence(a, c),
    decreases a.len() + b.len() + c.len(),
{
    if a.len() == 0 {
    } else if b.len() == 0 {
    } else if c.len() == 0 {
    } else {
        if b.last() == c.last() && is_subsequence(b.drop_last(), c.drop_last()) {
            if a.last() == b.last() && is_subsequence(a.drop_last(), b.drop_last()) {
                lemma_subseq_trans(a.drop_last(), b.drop_last(), c.drop_last());
            } else {
                assert(is_subsequence(a, b.drop_last()));
                lemma_subseq_trans(a, b.drop_last(), c.drop_last());
            }
        } else {
            assert(is_subsequence(b, c.drop_last()));
            lemma_subseq_trans(a, b, c.drop_last());
        }
    }
}

} // verus!
