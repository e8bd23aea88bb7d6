//! The positions at which the verifier opens the committed evaluations.

use vstd::prelude::*;
use vstd::arithmetic::div_mod::lemma_div_is_ordered;
use vstd::arithmetic::power2::{lemma2_to64, lemma_pow2_adds, lemma_pow2_pos, pow2};
use crate::bytes::{spec_u32_from_le, u32_from_le};
use crate::channel::Channel;
use crate::utils::{copy_vec, lemma_pow2_monotone, pow2_usize};

verus! {

/// Number of bytes from which one query is made.
pub const UPPER_BOUND_QUERY_BYTES: usize = 4;

/// Whether the positions are in increasing order.
pub open spec fn spec_sorted(positions: Seq<usize>) -> bool {
    forall|i: int, j: int| 0 <= i <= j < positions.len() ==> positions[i] <= positions[j]
}

/// Whether the positions are in strictly increasing order.
pub open spec fn spec_strictly_sorted(positions: Seq<usize>) -> bool {
    forall|i: int, j: int| 0 <= i < j < positions.len() ==> positions[i] < positions[j]
}

/// The sorted positions with `v` put in its place, unless it is there already.
pub open spec fn spec_insert(positions: Seq<usize>, v: usize) -> Seq<usize>
    decreases positions.len(),
{
    if positions.len() == 0 {
        seq![v]
    } else if positions.last() < v {
        positions.push(v)
    } else if positions.last() == v {
        positions
    } else {
        spec_insert(positions.drop_last(), v).push(positions.last())
    }
}

/// The positions divided by `2^n_folds`, each quotient once where it
/// repeats the one before it.
pub open spec fn spec_fold_positions(positions: Seq<usize>, n_folds: nat) -> Seq<usize>
    decreases positions.len(),
{
    if positions.len() == 0 {
        Seq::empty()
    } else {
        let head = spec_fold_positions(positions.drop_last(), n_folds);
        let q = ((positions.last() as nat) / pow2(n_folds)) as usize;
        if head.len() > 0 && head.last() == q {
            head
        } else {
            head.push(q)
        }
    }
}

/// The queries that the bytes of one draw give, four bytes each, until
/// `remaining` have been made: the positions so far, and how many are left
/// to make.
pub open spec fn spec_collect(
    bytes: Seq<u8>,
    at: nat,
    log_domain_size: nat,
    positions: Seq<usize>,
    remaining: nat,
) -> (Seq<usize>, nat)
    decreases bytes.len() - at,
{
    if remaining == 0 || at + 4 > bytes.len() {
        (positions, remaining)
    } else {
        let query = (spec_u32_from_le(bytes, at as int) as nat % pow2(log_domain_size)) as usize;
        spec_collect(
            bytes,
            at + 4,
            log_domain_size,
            spec_insert(positions, query),
            (remaining - 1) as nat,
        )
    }
}

/// The positions of `remaining` more queries, and the transcript after
/// they were drawn.
pub open spec fn spec_generate<C: Channel>(
    channel: C,
    log_domain_size: nat,
    positions: Seq<usize>,
    remaining: nat,
) -> (C, Seq<usize>)
    decreases remaining,
{
    if remaining == 0 {
        (channel, positions)
    } else {
        let (after, bytes) = channel.spec_draw_random_bytes();
        let (found, left) = spec_collect(bytes, 0, log_domain_size, positions, remaining);
        if left < remaining {
            spec_generate(after, log_domain_size, found, left)
        } else {
            (after, found)
        }
    }
}

/// Positions in a domain of `2^log_domain_size` points, in increasing order.
#[derive(Debug)]
pub struct Queries {
    positions: Vec<usize>,
    log_domain_size: u32,
}

impl View for Queries {
    type V = Seq<usize>;

    closed spec fn view(&self) -> Seq<usize> {
        self.positions@
    }
}

impl Clone for Queries {
    fn clone(&self) -> (r: Queries)
        ensures
            r@ == self@,
            r.spec_log_domain_size() == self.spec_log_domain_size(),
    {
        proof {
            use_type_invariant(self);
        }
        Queries { positions: copy_vec(&self.positions), log_domain_size: self.log_domain_size }
    }
}

pub proof fn lemma_insert_in_range(positions: Seq<usize>, v: usize, bound: nat)
    requires
        v < bound,
        forall|i: int| 0 <= i < positions.len() ==> positions[i] < bound,
    ensures
        forall|i: int|
            0 <= i < spec_insert(positions, v).len() ==> spec_insert(positions, v)[i] < bound,
    decreases positions.len(),
{
    let out = spec_insert(positions, v);
    if positions.len() > 0 && positions.last() > v {
        lemma_insert_in_range(positions.drop_last(), v, bound);
        let ins = spec_insert(positions.drop_last(), v);
        assert forall|i: int| 0 <= i < out.len() implies out[i] < bound by {
            if i < ins.len() {
                assert(out[i] == ins[i]);
            } else {
                assert(out[i] == positions.last());
            }
        }
    } else {
        assert forall|i: int| 0 <= i < out.len() implies out[i] < bound by {
            if i < positions.len() {
                assert(out[i] == positions[i]);
            }
        }
    }
}

/// Putting a position in its place adds one position at most.
pub proof fn lemma_insert_len(positions: Seq<usize>, v: usize)
    ensures
        spec_insert(positions, v).len() <= positions.len() + 1,
    decreases positions.len(),
{
    if positions.len() > 0 && positions.last() > v {
        lemma_insert_len(positions.drop_last(), v);
    }
}

/// Positions in strictly increasing order that are not folded stay as they
/// are.
pub proof fn lemma_fold_none(positions: Seq<usize>)
    requires
        spec_strictly_sorted(positions),
    ensures
        spec_fold_positions(positions, 0) == positions,
    decreases positions.len(),
{
    if positions.len() > 0 {
        let head = positions.drop_last();
        lemma_fold_none(head);
        lemma2_to64();
        assert(((positions.last() as nat) / pow2(0)) as usize == positions.last());
        if head.len() > 0 {
            assert(head.last() == positions[positions.len() - 2]);
        }
        assert(head.push(positions.last()) =~= positions);
    }
}

/// Putting a position in its place keeps the order strict.
pub proof fn lemma_insert_sorted(positions: Seq<usize>, v: usize)
    requires
        spec_strictly_sorted(positions),
    ensures
        spec_strictly_sorted(spec_insert(positions, v)),
        spec_insert(positions, v).len() > 0,
        spec_insert(positions, v).last() == (if positions.len() > 0 && positions.last() > v {
            positions.last()
        } else {
            v
        }),
    decreases positions.len(),
{
    if positions.len() > 0 && positions.last() > v {
        let head = positions.drop_last();
        assert(spec_strictly_sorted(head));
        lemma_insert_sorted(head, v);
        let ins = spec_insert(head, v);
        assert(ins.last() < positions.last()) by {
            if head.len() > 0 && head.last() > v {
                assert(head.last() == positions[positions.len() - 2]);
            }
        }
        let out = ins.push(positions.last());
        assert forall|i: int, j: int| 0 <= i < j < out.len() implies out[i] < out[j] by {
            if j == out.len() - 1 {
                if i < ins.len() - 1 {
                    assert(ins[i] < ins[ins.len() - 1]);
                }
            }
        }
    }
}

pub proof fn lemma_fold_positions(positions: Seq<usize>, n_folds: nat, log_domain_size: nat)
    requires
        n_folds <= log_domain_size,
        spec_sorted(positions),
        forall|i: int| 0 <= i < positions.len() ==> positions[i] < pow2(log_domain_size),
    ensures
        spec_strictly_sorted(spec_fold_positions(positions, n_folds)),
        forall|i: int|
            0 <= i < spec_fold_positions(positions, n_folds).len() ==> spec_fold_positions(
                positions,
                n_folds,
            )[i] < pow2((log_domain_size - n_folds) as nat),
        positions.len() > 0 ==> spec_fold_positions(positions, n_folds).len() > 0
            && spec_fold_positions(positions, n_folds).last() == (positions.last() as nat) / pow2(n_folds),
    decreases positions.len(),
{
    lemma_pow2_pos(n_folds);
    if positions.len() > 0 {
        let head_positions = positions.drop_last();
        assert(spec_sorted(head_positions));
        lemma_fold_positions(head_positions, n_folds, log_domain_size);
        let head = spec_fold_positions(head_positions, n_folds);
        let q = ((positions.last() as nat) / pow2(n_folds)) as usize;
        lemma_pow2_adds(n_folds, (log_domain_size - n_folds) as nat);
        assert(q < pow2((log_domain_size - n_folds) as nat)) by {
            let x = positions.last() as int;
            let b = pow2(n_folds) as int;
            let a = pow2((log_domain_size - n_folds) as nat) as int;
            vstd::arithmetic::div_mod::lemma_fundamental_div_mod(x, b);
            assert(x / b < a) by (nonlinear_arith)
                requires
                    x == b * (x / b) + x % b,
                    0 <= x % b < b,
                    x < b * a,
                    b > 0,
            ;
        }
        if head.len() > 0 {
            assert(head.last() <= q) by {
                assert(head_positions.last() == positions[positions.len() - 2]);
                lemma_div_is_ordered(
                    head_positions.last() as int,
                    positions.last() as int,
                    pow2(n_folds) as int,
                );
            }
            if head.last() != q {
                let out = head.push(q);
                assert forall|i: int, j: int| 0 <= i < j < out.len() implies out[i] < out[j] by {
                    if j == out.len() - 1 && i < head.len() - 1 {
                        assert(head[i] < head[head.len() - 1]);
                    }
                }
            }
        }
    }
}

/// The last folded position is the quotient of the last position.
pub proof fn lemma_fold_last(positions: Seq<usize>, n_folds: nat)
    requires
        positions.len() > 0,
    ensures
        spec_fold_positions(positions, n_folds).len() > 0,
        spec_fold_positions(positions, n_folds).last() == ((positions.last() as nat) / pow2(
            n_folds,
        )) as usize,
{
}

/// Positions that lie in one block of `2^n_folds`, after positions of
/// another block, fold into one more position.
pub proof fn lemma_fold_run(positions: Seq<usize>, n_folds: nat, a: int, b: int, key: usize)
    requires
        0 <= a < b <= positions.len(),
        forall|j: int| a <= j < b ==> ((positions[j] as nat) / pow2(n_folds)) as usize == key,
        a == 0 || ((positions[a - 1] as nat) / pow2(n_folds)) as usize != key,
    ensures
        spec_fold_positions(positions.subrange(0, b), n_folds) == spec_fold_positions(
            positions.subrange(0, a),
            n_folds,
        ).push(key),
    decreases b - a,
{
    let s = positions.subrange(0, b);
    assert(s.drop_last() =~= positions.subrange(0, b - 1));
    assert(s.last() == positions[b - 1]);
    if b == a + 1 {
        if a > 0 {
            let head = positions.subrange(0, a);
            assert(head.last() == positions[a - 1]);
            lemma_fold_last(head, n_folds);
        }
    } else {
        lemma_fold_run(positions, n_folds, a, b - 1, key);
    }
}

/// Folding twice is folding once by the sum.
pub proof fn lemma_fold_twice(positions: Seq<usize>, a: nat, b: nat)
    ensures
        spec_fold_positions(spec_fold_positions(positions, a), b) == spec_fold_positions(
            positions,
            a + b,
        ),
    decreases positions.len(),
{
    if positions.len() > 0 {
        let head = positions.drop_last();
        let x = positions.last();
        lemma_fold_twice(head, a, b);
        lemma_pow2_pos(a);
        lemma_pow2_pos(b);
        lemma_pow2_adds(a, b);
        vstd::arithmetic::div_mod::lemma_div_denominator(x as int, pow2(a) as int, pow2(b) as int);
        let qa = ((x as nat) / pow2(a)) as usize;
        assert((qa as nat) / pow2(b) == (x as nat) / pow2(a + b));
        let folded_head = spec_fold_positions(head, a);
        if folded_head.len() > 0 && folded_head.last() == qa {
            // the position folds into the last one of the head
            lemma_fold_last(head, a);
            lemma_fold_last(head, a + b);
            let y = head.last();
            vstd::arithmetic::div_mod::lemma_div_denominator(
                y as int,
                pow2(a) as int,
                pow2(b) as int,
            );
        } else {
            let s = folded_head.push(qa);
            assert(s.drop_last() =~= folded_head);
            assert(s.last() == qa);
            if head.len() > 0 {
                lemma_fold_last(head, a);
            }
        }
    }
}

impl Queries {
    pub closed spec fn spec_log_domain_size(self) -> nat {
        self.log_domain_size as nat
    }

    /// The positions are in increasing order and inside the domain.
    #[verifier::type_invariant]
    pub open spec fn wf(self) -> bool {
        &&& self.spec_log_domain_size() <= 31
        &&& spec_sorted(self@)
        &&& forall|i: int| 0 <= i < self@.len() ==> self@[i] < pow2(self.spec_log_domain_size())
    }

    /// Makes the invariant of an executable value known to the caller.
    pub fn valid(&self)
        ensures
            self.wf(),
    {
        proof {
            use_type_invariant(self);
        }
    }

    /// Draws `n_queries` positions from the transcript; positions drawn twice count once.
    pub fn generate<C: Channel>(channel: &mut C, log_domain_size: u32, n_queries: usize) -> (r:
        Queries)
        requires
            log_domain_size <= 31,
            n_queries >= 1,
        ensures
            (*final(channel), r@) == spec_generate(
                *old(channel),
                log_domain_size as nat,
                Seq::empty(),
                n_queries as nat,
            ),
            r.spec_log_domain_size() == log_domain_size,
            spec_strictly_sorted(r@),
            r@.len() <= n_queries,
            r.wf(),
    {
        let mut positions: Vec<usize> = Vec::new();
        let mut remaining: usize = n_queries;
        let size: u64 = pow2_usize(log_domain_size) as u64;
        proof {
            lemma2_to64();
            lemma_pow2_monotone(log_domain_size as nat, 31);
            lemma_pow2_pos(log_domain_size as nat);
        }
        while remaining > 0
            invariant
                log_domain_size <= 31,
                size == pow2(log_domain_size as nat),
                0 < size <= 0x8000_0000,
                spec_strictly_sorted(positions@),
                positions.len() + remaining <= n_queries,
                forall|i: int| 0 <= i < positions.len() ==> positions[i] < size,
                spec_generate(*channel, log_domain_size as nat, positions@, remaining as nat)
                    == spec_generate(
                    *old(channel),
                    log_domain_size as nat,
                    Seq::empty(),
                    n_queries as nat,
                ),
            decreases remaining,
        {
            let ghost before = *channel;
            let ghost start = positions@;
            let ghost start_remaining = remaining;
            let bytes = channel.draw_random_bytes();
            let mut at: usize = 0;
            while remaining > 0 && bytes.len() - at >= 4
                invariant
                    size == pow2(log_domain_size as nat),
                    0 < size <= 0x8000_0000,
                    at <= bytes.len(),
                    bytes.len() >= 4,
                    remaining <= start_remaining,
                    at > 0 ==> remaining < start_remaining,
                    positions.len() + remaining <= n_queries,
                    spec_strictly_sorted(positions@),
                    forall|i: int| 0 <= i < positions.len() ==> positions[i] < size,
                    spec_collect(
                        bytes@,
                        at as nat,
                        log_domain_size as nat,
                        positions@,
                        remaining as nat,
                    ) == spec_collect(
                        bytes@,
                        0,
                        log_domain_size as nat,
                        start,
                        start_remaining as nat,
                    ),
                decreases bytes.len() - at,
            {
                let word = u32_from_le(&bytes, at);
                let query = ((word as u64) % size) as usize;
                proof {
                    lemma_insert_sorted(positions@, query);
                    lemma_insert_len(positions@, query);
                    lemma_insert_in_range(positions@, query, size as nat);
                }
                insert_sorted(&mut positions, query);
                remaining = remaining - 1;
                at = at + 4;
            }
        }
        Queries { positions, log_domain_size }
    }

    /// The given positions, which are in increasing order and inside the domain.
    pub fn from_positions(positions: Vec<usize>, log_domain_size: u32) -> (r: Queries)
        requires
            log_domain_size <= 31,
            spec_sorted(positions@),
            forall|i: int| 0 <= i < positions.len() ==> positions[i] < pow2(log_domain_size as nat),
        ensures
            r@ == positions@,
            r.spec_log_domain_size() == log_domain_size,
            r.wf(),
    {
        Queries { positions, log_domain_size }
    }

    /// The positions in the domain folded `n_folds` times: each position
    /// divided by `2^n_folds`, without repetition.
    pub fn fold(&self, n_folds: u32) -> (r: Queries)
        requires
            n_folds <= self.spec_log_domain_size(),
        ensures
            r@ == spec_fold_positions(self@, n_folds as nat),
            r.spec_log_domain_size() == self.spec_log_domain_size() - n_folds,
            r.wf(),
            spec_strictly_sorted(r@),
    {
        proof {
            use_type_invariant(self);
            lemma_fold_positions(self@, n_folds as nat, self.log_domain_size as nat);
            lemma_pow2_pos(n_folds as nat);
        }
        let divisor = pow2_usize(n_folds);
        let mut out: Vec<usize> = Vec::new();
        let mut i: usize = 0;
        while i < self.positions.len()
            invariant
                i <= self.positions.len(),
                divisor == pow2(n_folds as nat),
                divisor > 0,
                out@ == spec_fold_positions(self.positions@.subrange(0, i as int), n_folds as nat),
            decreases self.positions.len() - i,
        {
            proof {
                let s = self.positions@.subrange(0, i + 1);
                assert(s.drop_last() =~= self.positions@.subrange(0, i as int));
            }
            let q = self.positions[i] / divisor;
            if out.len() == 0 || out[out.len() - 1] != q {
                out.push(q);
            }
            i = i + 1;
        }
        proof {
            assert(self.positions@.subrange(0, self.positions.len() as int) =~= self.positions@);
        }
        Queries { positions: out, log_domain_size: self.log_domain_size - n_folds }
    }

    pub fn positions(&self) -> (r: &Vec<usize>)
        ensures
            r@ == self@,
    {
        &self.positions
    }

    pub fn log_domain_size(&self) -> (r: u32)
        ensures
            r == self.spec_log_domain_size(),
            r <= 31,
    {
        proof {
            use_type_invariant(self);
        }
        self.log_domain_size
    }

    pub fn len(&self) -> (r: usize)
        ensures
            r == self@.len(),
    {
        self.positions.len()
    }
}

/// Puts `v` in its place among the sorted positions, unless it is there already.
fn insert_sorted(positions: &mut Vec<usize>, v: usize)
    ensures
        final(positions)@ == spec_insert(old(positions)@, v),
    decreases old(positions).len(),
{
    let n = positions.len();
    if n == 0 {
        positions.push(v);
    } else {
        let last = positions[n - 1];
        if last < v {
            positions.push(v);
        } else if last == v {
        } else {
            let ghost before = positions@;
            positions.pop();
            assert(positions@ =~= before.drop_last());
            insert_sorted(positions, v);
            positions.push(last);
        }
    }
}

} // verus!
