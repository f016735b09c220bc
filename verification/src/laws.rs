use vstd::prelude::*;

use crate::engine::{spec_do_match, spec_max_expand, spec_min_expand, spec_single, Cap, MatchOut};

verus! {

/// The single item `p[pi..ep]` matches at each of the `k` subject
/// offsets `si, si+1, ..., si+k-1`: a run of `k` repetitions.
pub open spec fn spec_run(s: Seq<u8>, p: Seq<u8>, si: int, pi: int, ep: int, k: int) -> bool {
    forall|t: int| 0 <= t < k ==> #[trigger] spec_single(s, si + t, p, pi, ep)
}

pub proof fn lemma_run_shift(s: Seq<u8>, p: Seq<u8>, si: int, pi: int, ep: int, k: int)
    requires
        k >= 1,
    ensures
        spec_run(s, p, si, pi, ep, k) <==> (spec_single(s, si, p, pi, ep) && spec_run(
            s,
            p,
            si + 1,
            pi,
            ep,
            k - 1,
        )),
{
    if spec_single(s, si, p, pi, ep) && spec_run(s, p, si + 1, pi, ep, k - 1) {
        assert forall|t: int| 0 <= t < k implies #[trigger] spec_single(s, si + t, p, pi, ep) by {
            if t >= 1 {
                assert(spec_single(s, (si + 1) + (t - 1), p, pi, ep));
            }
        }
    }
    if spec_run(s, p, si, pi, ep, k) {
        assert(spec_single(s, si + 0, p, pi, ep));
        assert forall|t: int| 0 <= t < k - 1 implies #[trigger] spec_single(
            s,
            (si + 1) + t,
            p,
            pi,
            ep,
        ) by {
            assert(spec_single(s, si + (t + 1), p, pi, ep));
        }
    }
}

/// When the greedy expansion fails altogether, no number of
/// repetitions makes the pattern tail after the quantifier succeed.
pub proof fn lemma_max_expand_fail(
    s: Seq<u8>,
    p: Seq<u8>,
    si: int,
    pi: int,
    ep: int,
    caps: Seq<Cap>,
    maxlev: int,
    depth: int,
)
    requires
        0 <= si <= s.len(),
        0 <= pi < ep < p.len(),
        spec_max_expand(s, p, si, pi, ep, caps, maxlev, depth) == MatchOut::Fail,
    ensures
        forall|k: int|
            0 <= k && #[trigger] spec_run(s, p, si, pi, ep, k) ==> spec_do_match(
                s,
                p,
                si + k,
                ep + 1,
                caps,
                maxlev,
                depth - 1,
            ) == MatchOut::Fail,
    decreases s.len() - si,
{
    if spec_single(s, si, p, pi, ep) {
        assert(spec_max_expand(s, p, si + 1, pi, ep, caps, maxlev, depth) == MatchOut::Fail);
        assert(spec_do_match(s, p, si, ep + 1, caps, maxlev, depth - 1) == MatchOut::Fail);
        lemma_max_expand_fail(s, p, si + 1, pi, ep, caps, maxlev, depth);
        assert forall|k: int| 0 <= k && #[trigger] spec_run(s, p, si, pi, ep, k) implies
        spec_do_match(s, p, si + k, ep + 1, caps, maxlev, depth - 1) == MatchOut::Fail by {
            if k >= 1 {
                lemma_run_shift(s, p, si, pi, ep, k);
                assert(spec_run(s, p, si + 1, pi, ep, k - 1));
                assert(spec_do_match(s, p, (si + 1) + (k - 1), ep + 1, caps, maxlev, depth - 1)
                    == MatchOut::Fail);
            }
        }
    } else {
        assert(spec_do_match(s, p, si, ep + 1, caps, maxlev, depth - 1) == MatchOut::Fail);
        assert forall|k: int| 0 <= k && #[trigger] spec_run(s, p, si, pi, ep, k) implies
        spec_do_match(s, p, si + k, ep + 1, caps, maxlev, depth - 1) == MatchOut::Fail by {
            if k >= 1 {
                assert(spec_single(s, si + 0, p, pi, ep));
            }
        }
    }
}

/// One way the greedy quantifier can come to a hit: `k` repetitions of
/// the item match, the pattern tail after the quantifier succeeds from
/// there with this very outcome, and every strictly longer repetition
/// run makes the tail fail.
pub open spec fn spec_greedy_witness(
    s: Seq<u8>,
    p: Seq<u8>,
    si: int,
    pi: int,
    ep: int,
    caps: Seq<Cap>,
    maxlev: int,
    depth: int,
    e: int,
    cc: Seq<Cap>,
    k: int,
) -> bool {
    &&& 0 <= k
    &&& spec_run(s, p, si, pi, ep, k)
    &&& spec_do_match(s, p, si + k, ep + 1, caps, maxlev, depth - 1) == MatchOut::Hit(e, cc)
    &&& forall|j: int|
        k < j && #[trigger] spec_run(s, p, si, pi, ep, j) ==> spec_do_match(
            s,
            p,
            si + j,
            ep + 1,
            caps,
            maxlev,
            depth - 1,
        ) == MatchOut::Fail
}

/// Greedy quantifiers (`*`, and `+` once its first repetition stands)
/// return the longest repetition count that lets the rest of the
/// pattern succeed: whenever the greedy expansion hits, some count `k`
/// matches with this outcome and every longer run fails the tail.
pub proof fn law_greedy_longest(
    s: Seq<u8>,
    p: Seq<u8>,
    si: int,
    pi: int,
    ep: int,
    caps: Seq<Cap>,
    maxlev: int,
    depth: int,
    e: int,
    cc: Seq<Cap>,
)
    requires
        0 <= si <= s.len(),
        0 <= pi < ep < p.len(),
        spec_max_expand(s, p, si, pi, ep, caps, maxlev, depth) == MatchOut::Hit(e, cc),
    ensures
        exists|k: int| #[trigger] spec_greedy_witness(s, p, si, pi, ep, caps, maxlev, depth, e, cc, k),
    decreases s.len() - si,
{
    if spec_single(s, si, p, pi, ep) {
        match spec_max_expand(s, p, si + 1, pi, ep, caps, maxlev, depth) {
            MatchOut::Hit(e2, cc2) => {
                assert(e2 == e && cc2 == cc);
                law_greedy_longest(s, p, si + 1, pi, ep, caps, maxlev, depth, e, cc);
                let k2 = choose|k2: int| #[trigger] spec_greedy_witness(
                    s,
                    p,
                    si + 1,
                    pi,
                    ep,
                    caps,
                    maxlev,
                    depth,
                    e,
                    cc,
                    k2,
                );
                lemma_run_shift(s, p, si, pi, ep, k2 + 1);
                assert forall|j: int| k2 + 1 < j && #[trigger] spec_run(s, p, si, pi, ep, j) implies
                spec_do_match(s, p, si + j, ep + 1, caps, maxlev, depth - 1) == MatchOut::Fail by {
                    lemma_run_shift(s, p, si, pi, ep, j);
                    assert(spec_run(s, p, si + 1, pi, ep, j - 1));
                    assert(spec_do_match(s, p, (si + 1) + (j - 1), ep + 1, caps, maxlev, depth - 1)
                        == MatchOut::Fail);
                }
                assert(spec_do_match(s, p, (si + 1) + k2, ep + 1, caps, maxlev, depth - 1)
                    == MatchOut::Hit(e, cc));
                assert(spec_greedy_witness(
                    s,
                    p,
                    si,
                    pi,
                    ep,
                    caps,
                    maxlev,
                    depth,
                    e,
                    cc,
                    k2 + 1,
                ));
            },
            MatchOut::Fail => {
                assert(spec_do_match(s, p, si, ep + 1, caps, maxlev, depth - 1) == MatchOut::Hit(
                    e,
                    cc,
                ));
                lemma_max_expand_fail(s, p, si + 1, pi, ep, caps, maxlev, depth);
                assert forall|j: int| 0 < j && #[trigger] spec_run(s, p, si, pi, ep, j) implies
                spec_do_match(s, p, si + j, ep + 1, caps, maxlev, depth - 1) == MatchOut::Fail by {
                    lemma_run_shift(s, p, si, pi, ep, j);
                    assert(spec_run(s, p, si + 1, pi, ep, j - 1));
                    assert(spec_do_match(s, p, (si + 1) + (j - 1), ep + 1, caps, maxlev, depth - 1)
                        == MatchOut::Fail);
                }
                assert(spec_run(s, p, si, pi, ep, 0));
                assert(spec_greedy_witness(s, p, si, pi, ep, caps, maxlev, depth, e, cc, 0));
            },
            MatchOut::Bad(_) => {
                assert(false);
            },
        }
    } else {
        assert(spec_do_match(s, p, si, ep + 1, caps, maxlev, depth - 1) == MatchOut::Hit(e, cc));
        assert forall|j: int| 0 < j && #[trigger] spec_run(s, p, si, pi, ep, j) implies
        spec_do_match(s, p, si + j, ep + 1, caps, maxlev, depth - 1) == MatchOut::Fail by {
            assert(spec_single(s, si + 0, p, pi, ep));
        }
        assert(spec_run(s, p, si, pi, ep, 0));
        assert(spec_greedy_witness(s, p, si, pi, ep, caps, maxlev, depth, e, cc, 0));
    }
}

/// One way the lazy quantifier can come to a hit: `k` repetitions
/// match, the tail succeeds from there with this very outcome, and for
/// every strictly shorter repetition count the tail fails.
pub open spec fn spec_lazy_witness(
    s: Seq<u8>,
    p: Seq<u8>,
    si: int,
    pi: int,
    ep: int,
    caps: Seq<Cap>,
    maxlev: int,
    depth: int,
    e: int,
    cc: Seq<Cap>,
    k: int,
) -> bool {
    &&& 0 <= k
    &&& spec_run(s, p, si, pi, ep, k)
    &&& spec_do_match(s, p, si + k, ep + 1, caps, maxlev, depth - 1) == MatchOut::Hit(e, cc)
    &&& forall|j: int|
        0 <= j < k ==> #[trigger] spec_do_match(s, p, si + j, ep + 1, caps, maxlev, depth - 1)
            == MatchOut::Fail
}

/// The lazy quantifier (`-`) returns the shortest repetition count
/// that lets the rest of the pattern succeed: whenever the lazy
/// expansion hits, some count `k` matches with this outcome and every
/// shorter count fails the tail.
pub proof fn law_lazy_shortest(
    s: Seq<u8>,
    p: Seq<u8>,
    si: int,
    pi: int,
    ep: int,
    caps: Seq<Cap>,
    maxlev: int,
    depth: int,
    e: int,
    cc: Seq<Cap>,
)
    requires
        0 <= si <= s.len(),
        0 <= pi < ep < p.len(),
        spec_min_expand(s, p, si, pi, ep, caps, maxlev, depth) == MatchOut::Hit(e, cc),
    ensures
        exists|k: int| #[trigger] spec_lazy_witness(s, p, si, pi, ep, caps, maxlev, depth, e, cc, k),
    decreases s.len() - si,
{
    match spec_do_match(s, p, si, ep + 1, caps, maxlev, depth - 1) {
        MatchOut::Hit(e2, cc2) => {
            assert(e2 == e && cc2 == cc);
            assert(spec_run(s, p, si, pi, ep, 0));
            assert(spec_lazy_witness(s, p, si, pi, ep, caps, maxlev, depth, e, cc, 0));
        },
        MatchOut::Fail => {
            assert(spec_single(s, si, p, pi, ep));
            assert(spec_min_expand(s, p, si + 1, pi, ep, caps, maxlev, depth) == MatchOut::Hit(
                e,
                cc,
            ));
            law_lazy_shortest(s, p, si + 1, pi, ep, caps, maxlev, depth, e, cc);
            let k2 = choose|k2: int| #[trigger] spec_lazy_witness(
                s,
                p,
                si + 1,
                pi,
                ep,
                caps,
                maxlev,
                depth,
                e,
                cc,
                k2,
            );
            lemma_run_shift(s, p, si, pi, ep, k2 + 1);
            assert forall|j: int| 0 <= j < k2 + 1 implies #[trigger] spec_do_match(
                s,
                p,
                si + j,
                ep + 1,
                caps,
                maxlev,
                depth - 1,
            ) == MatchOut::Fail by {
                if j >= 1 {
                    assert(spec_do_match(s, p, (si + 1) + (j - 1), ep + 1, caps, maxlev, depth - 1)
                        == MatchOut::Fail);
                }
            }
            assert(spec_do_match(s, p, (si + 1) + k2, ep + 1, caps, maxlev, depth - 1)
                == MatchOut::Hit(e, cc));
            assert(spec_lazy_witness(s, p, si, pi, ep, caps, maxlev, depth, e, cc, k2 + 1));
        },
        MatchOut::Bad(_) => {
            assert(false);
        },
    }
}

} // verus!
