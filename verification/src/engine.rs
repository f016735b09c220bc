use vstd::prelude::*;

use crate::classes::{class_match, set_match, spec_class_match, spec_set_match};
use crate::error::Error;

verus! {

/// The matcher's recursion bound: opening or closing a capture and every
/// backtracking point consume one unit; exceeding the bound fails the
/// match with `Error::TooComplex`.
pub const MAX_DEPTH: usize = 200;

/// A capture being tracked while a match is in progress.
#[derive(Debug, Clone, Copy)]
pub struct Cap {
    /// Subject offset where the capture opened.
    pub start: usize,
    /// Whether the capture is still open, positional, or closed.
    pub state: CapState,
}

/// The state of one in-progress capture.
#[derive(Debug, Clone, Copy)]
pub enum CapState {
    /// `(` seen, `)` not yet.
    Open,
    /// A `()` position capture.
    Position,
    /// Closed at the given subject offset.
    Closed(usize),
}

/// One slot of the final capture table: a byte range of the subject, or,
/// for a position capture, `start == end` with `pos` set; the capture's
/// value is then the 1-based position `start + 1`.
#[derive(Debug, Clone, Copy, PartialEq, Eq)]
pub struct LuaMatch {
    pub start: usize,
    pub end: usize,
    pub pos: bool,
}

/// What one attempt of the matcher can come to.
pub enum MatchOut {
    /// The pattern tail does not match here.
    Fail,
    /// The tail matches, ending at the given subject offset, with the
    /// given capture state.
    Hit(int, Seq<Cap>),
    /// A run-time error such as `TooComplex`.
    Bad(Error),
}

/// What a whole-subject search can come to.
pub enum TopOut {
    /// No offset matches.
    Miss,
    /// Leftmost match `[start, end)` with its captures.
    Got(int, int, Seq<Cap>),
    /// A run-time error.
    Bad(Error),
}

/// Scans the members of a class set from `i` until the closing `]`;
/// returns the position after the `]`. The first member is consumed
/// before the first test, so a leading `]` is a literal member.
pub open spec fn spec_scan_members(p: Seq<u8>, i: int) -> Option<int>
    decreases p.len() - i,
    when 0 <= i <= p.len()
{
    if i >= p.len() {
        None
    } else if p[i] == 37 && i + 1 >= p.len() {
        None
    } else {
        let j: int = if p[i] == 37 {
            i + 2
        } else {
            i + 1
        };
        if j < p.len() && p[j] == 93 {
            Some(j + 1)
        } else {
            spec_scan_members(p, j)
        }
    }
}

/// Given `[` at `p[pi]`, the position after the set's closing `]`, or
/// `None` if the set never closes.
pub open spec fn spec_scan_set(p: Seq<u8>, pi: int) -> Option<int> {
    if pi + 1 < p.len() && p[pi + 1] == 94 {
        spec_scan_members(p, pi + 2)
    } else {
        spec_scan_members(p, pi + 1)
    }
}

pub proof fn lemma_scan_members_bounds(p: Seq<u8>, i: int)
    requires
        0 <= i <= p.len(),
    ensures
        spec_scan_members(p, i) matches Some(e) ==> i + 2 <= e <= p.len() && p[e - 1] == 93,
    decreases p.len() - i,
{
    if i < p.len() {
        if !(p[i] == 37 && i + 1 >= p.len()) {
            let j: int = if p[i] == 37 {
                i + 2
            } else {
                i + 1
            };
            if !(j < p.len() && p[j] == 93) {
                lemma_scan_members_bounds(p, j);
            }
        }
    }
}

pub proof fn lemma_scan_set_bounds(p: Seq<u8>, pi: int)
    requires
        0 <= pi < p.len(),
        p[pi] == 91,
    ensures
        spec_scan_set(p, pi) matches Some(e) ==> pi + 3 <= e <= p.len() && p[e - 1] == 93,
{
    if pi + 1 < p.len() && p[pi + 1] == 94 {
        lemma_scan_members_bounds(p, pi + 2);
    } else {
        lemma_scan_members_bounds(p, pi + 1);
    }
}

/// Executable scan for the closing `]`.
fn scan_members(p: &[u8], i: usize) -> (r: Option<usize>)
    requires
        i <= p@.len(),
    ensures
        match r {
            Some(e) => spec_scan_members(p@, i as int) == Some(e as int),
            None => spec_scan_members(p@, i as int) is None,
        },
    decreases p@.len() - i,
{
    if i >= p.len() {
        None
    } else if p[i] == 37 && i + 1 >= p.len() {
        None
    } else {
        let j: usize = if p[i] == 37 {
            i + 2
        } else {
            i + 1
        };
        if j < p.len() && p[j] == 93 {
            Some(j + 1)
        } else {
            scan_members(p, j)
        }
    }
}

/// Executable scan of a whole class set starting at `p[pi]`.
pub fn scan_set(p: &[u8], pi: usize) -> (r: Option<usize>)
    requires
        pi < p@.len(),
    ensures
        match r {
            Some(e) => spec_scan_set(p@, pi as int) == Some(e as int),
            None => spec_scan_set(p@, pi as int) is None,
        },
{
    proof {
        vstd::slice::axiom_spec_len::<u8>(p);
    }
    if pi + 1 < p.len() && p[pi + 1] == 94 {
        scan_members(p, pi + 2)
    } else {
        scan_members(p, pi + 1)
    }
}

/// The position after the single pattern item at `pi`: one byte for a
/// literal or `.`, two for a `%` escape, the whole set for `[...]`.
/// `None` when the item is cut short by the end of the pattern.
pub open spec fn spec_item_end(p: Seq<u8>, pi: int) -> Option<int> {
    if p[pi] == 37 {
        if pi + 1 < p.len() {
            Some(pi + 2)
        } else {
            None
        }
    } else if p[pi] == 91 {
        spec_scan_set(p, pi)
    } else {
        Some(pi + 1)
    }
}

pub proof fn lemma_item_end_bounds(p: Seq<u8>, pi: int)
    requires
        0 <= pi < p.len(),
    ensures
        spec_item_end(p, pi) matches Some(e) ==> pi < e <= p.len(),
        p[pi] == 91 ==> (spec_item_end(p, pi) matches Some(e) ==> pi + 3 <= e && p[e - 1] == 93),
{
    if p[pi] == 91 {
        lemma_scan_set_bounds(p, pi);
    }
}

/// Executable item scan.
fn item_end(p: &[u8], pi: usize) -> (r: Option<usize>)
    requires
        pi < p@.len(),
    ensures
        match r {
            Some(e) => spec_item_end(p@, pi as int) == Some(e as int) && pi < e <= p@.len(),
            None => spec_item_end(p@, pi as int) is None,
        },
{
    proof {
        lemma_item_end_bounds(p@, pi as int);
    }
    if p[pi] == 37 {
        if pi + 1 < p.len() {
            Some(pi + 2)
        } else {
            None
        }
    } else if p[pi] == 91 {
        scan_set(p, pi)
    } else {
        Some(pi + 1)
    }
}

/// Whether the single item `p[pi..ep]` matches the subject byte at `si`.
pub open spec fn spec_single(s: Seq<u8>, si: int, p: Seq<u8>, pi: int, ep: int) -> bool {
    si < s.len() && {
        let c = s[si];
        if p[pi] == 46 {
            true
        } else if p[pi] == 37 {
            spec_class_match(p[pi + 1], c)
        } else if p[pi] == 91 {
            spec_set_match(c, p, pi, ep - 1)
        } else {
            p[pi] == c
        }
    }
}

/// Executable single-item test.
fn single(s: &[u8], si: usize, p: &[u8], pi: usize, ep: usize) -> (r: bool)
    requires
        si <= s@.len(),
        pi < p@.len(),
        spec_item_end(p@, pi as int) == Some(ep as int),
    ensures
        r == spec_single(s@, si as int, p@, pi as int, ep as int),
{
    proof {
        lemma_item_end_bounds(p@, pi as int);
    }
    if si >= s.len() {
        false
    } else {
        let c: u8 = s[si];
        if p[pi] == 46 {
            true
        } else if p[pi] == 37 {
            class_match(p[pi + 1], c)
        } else if p[pi] == 91 {
            set_match(c, p, pi, ep - 1)
        } else {
            p[pi] == c
        }
    }
}

/// Scans the subject for the delimiter that balances `b`/`e`, with
/// `cont` opens outstanding; returns the position after the balancing
/// close.
pub open spec fn spec_balance(s: Seq<u8>, si: int, b: u8, e: u8, cont: int) -> Option<int>
    decreases s.len() - si,
    when 0 <= si <= s.len()
{
    if si >= s.len() {
        None
    } else if s[si] == e {
        if cont == 1 {
            Some(si + 1)
        } else {
            spec_balance(s, si + 1, b, e, cont - 1)
        }
    } else if s[si] == b {
        spec_balance(s, si + 1, b, e, cont + 1)
    } else {
        spec_balance(s, si + 1, b, e, cont)
    }
}

proof fn lemma_balance_bounds(s: Seq<u8>, si: int, b: u8, e: u8, cont: int)
    requires
        0 <= si <= s.len(),
    ensures
        spec_balance(s, si, b, e, cont) matches Some(r) ==> si < r <= s.len(),
    decreases s.len() - si,
{
    if si < s.len() {
        if s[si] == e {
            if cont != 1 {
                lemma_balance_bounds(s, si + 1, b, e, cont - 1);
            }
        } else if s[si] == b {
            lemma_balance_bounds(s, si + 1, b, e, cont + 1);
        } else {
            lemma_balance_bounds(s, si + 1, b, e, cont);
        }
    }
}

/// Executable balance scan.
fn balance(s: &[u8], si: usize, b: u8, e: u8, cont: usize) -> (r: Option<usize>)
    requires
        si <= s@.len() < usize::MAX,
        1 <= cont,
        cont <= si + 1,
    ensures
        match r {
            Some(x) => spec_balance(s@, si as int, b, e, cont as int) == Some(x as int) && si < x
                <= s@.len(),
            None => spec_balance(s@, si as int, b, e, cont as int) is None,
        },
    decreases s@.len() - si,
{
    proof {
        lemma_balance_bounds(s@, si as int, b, e, cont as int);
    }
    if si >= s.len() {
        None
    } else if s[si] == e {
        if cont == 1 {
            Some(si + 1)
        } else {
            balance(s, si + 1, b, e, cont - 1)
        }
    } else if s[si] == b {
        balance(s, si + 1, b, e, cont + 1)
    } else {
        balance(s, si + 1, b, e, cont)
    }
}

/// The index of the most recently opened capture that is still open.
pub open spec fn spec_last_open(caps: Seq<Cap>) -> Option<int>
    decreases caps.len(),
{
    if caps.len() == 0 {
        None
    } else if caps.last().state is Open {
        Some(caps.len() - 1)
    } else {
        spec_last_open(caps.drop_last())
    }
}

pub proof fn lemma_last_open(caps: Seq<Cap>)
    ensures
        spec_last_open(caps) matches Some(j) ==> 0 <= j < caps.len() && caps[j].state is Open
            && forall|k: int| j < k < caps.len() ==> !(caps[k].state is Open),
        spec_last_open(caps) is None ==> forall|k: int|
            0 <= k < caps.len() ==> !(caps[k].state is Open),
    decreases caps.len(),
{
    if caps.len() > 0 && !(caps.last().state is Open) {
        lemma_last_open(caps.drop_last());
        assert forall|k: int| 0 <= k < caps.len() - 1 implies caps.drop_last()[k] == caps[k] by {}
    }
}

/// Executable search for the most recently opened capture.
fn last_open(caps: &Vec<Cap>) -> (r: Option<usize>)
    ensures
        match r {
            Some(j) => spec_last_open(caps@) == Some(j as int) && j < caps@.len()
                && caps@[j as int].state is Open,
            None => spec_last_open(caps@) is None,
        },
{
    proof {
        lemma_last_open(caps@);
    }
    let mut j: usize = caps.len();
    while j > 0
        invariant
            j <= caps@.len(),
            forall|k: int| j <= k < caps@.len() ==> !(caps@[k].state is Open),
        decreases j,
    {
        j = j - 1;
        match caps[j].state {
            CapState::Open => {
                proof {
                    lemma_last_open(caps@);
                }
                return Some(j);
            },
            _ => {},
        }
    }
    None
}

/// Whether the byte windows `s[a..a+n]` and `s[b..b+n]` hold the same
/// bytes.
fn region_eq(s: &[u8], a: usize, b: usize, n: usize) -> (r: bool)
    requires
        a + n <= s@.len(),
        b + n <= s@.len(),
    ensures
        r == (s@.subrange(a as int, a + n) == s@.subrange(b as int, b + n)),
{
    proof {
        vstd::slice::axiom_spec_len::<u8>(s);
    }
    let mut k: usize = 0;
    while k < n
        invariant
            k <= n,
            a + n <= s@.len(),
            b + n <= s@.len(),
            s@.len() <= usize::MAX,
            forall|t: int| 0 <= t < k ==> #[trigger] s@[a + t] == s@[b + t],
        decreases n - k,
    {
        if s[a + k] != s[b + k] {
            assert(s@.subrange(a as int, a + n)[k as int] != s@.subrange(b as int, b + n)[k as int]);
            return false;
        }
        k = k + 1;
    }
    assert forall|t: int| 0 <= t < n implies #[trigger] s@.subrange(a as int, a + n)[t]
        == s@.subrange(b as int, b + n)[t] by {
        assert(s@[a + t] == s@[b + t]);
    }
    assert(s@.subrange(a as int, a + n) =~= s@.subrange(b as int, b + n));
    true
}

/// How a capture state may change over one successful tail match that
/// ran from subject offset `si` to `e`: existing entries keep their
/// starts and may only go from open to closed within `[si, e]`; new
/// entries lie entirely within `[si, e]`.
pub open spec fn caps_evolve(a: Seq<Cap>, b: Seq<Cap>, si: int, e: int) -> bool {
    &&& b.len() >= a.len()
    &&& forall|i: int|
        0 <= i < a.len() ==> b[i].start == a[i].start && (b[i] == a[i] || (a[i].state is Open
            && match b[i].state {
            CapState::Closed(x) => si <= x <= e,
            _ => false,
        }))
    &&& forall|i: int|
        a.len() <= i < b.len() ==> si <= #[trigger] b[i].start <= e && (match b[i].state {
            CapState::Closed(x) => b[i].start <= x <= e,
            _ => true,
        })
}

/// The meaning of matching the pattern tail `p[pi..]` against the
/// subject at offset `si` with capture state `caps`, at most `maxlev`
/// user captures, and `depth` recursion units left. This is the
/// reference semantics of the whole matcher; the executable matcher is
/// proved to return exactly this.
///
/// Dispatch mirrors Lua's matcher: capture parentheses, the `$` end
/// anchor, the `%b`/`%f`/back-reference escapes, and otherwise a single
/// item followed by an optional quantifier. `*` and `+` hand the longest
/// repetition to `spec_max_expand`, `-` the shortest to
/// `spec_min_expand`, and `?` prefers taking the item over skipping it.
pub open spec fn spec_do_match(
    s: Seq<u8>,
    p: Seq<u8>,
    si: int,
    pi: int,
    caps: Seq<Cap>,
    maxlev: int,
    depth: int,
) -> MatchOut
    decreases p.len() - pi, 1int, 0int,
    when 0 <= si <= s.len() && 0 <= pi <= p.len()
    via spec_do_match_dec
{
    if depth <= 0 {
        MatchOut::Bad(Error::TooComplex)
    } else if pi == p.len() {
        MatchOut::Hit(si, caps)
    } else if p[pi] == 40 {  // (
        if pi + 1 < p.len() && p[pi + 1] == 41 {  // () position capture
            if caps.len() >= maxlev {
                MatchOut::Bad(Error::TooManyCaptures)
            } else {
                spec_do_match(
                    s,
                    p,
                    si,
                    pi + 2,
                    caps.push(Cap { start: si as usize, state: CapState::Position }),
                    maxlev,
                    depth - 1,
                )
            }
        } else {
            if caps.len() >= maxlev {
                MatchOut::Bad(Error::TooManyCaptures)
            } else {
                spec_do_match(
                    s,
                    p,
                    si,
                    pi + 1,
                    caps.push(Cap { start: si as usize, state: CapState::Open }),
                    maxlev,
                    depth - 1,
                )
            }
        }
    } else if p[pi] == 41 {  // )
        match spec_last_open(caps) {
            None => MatchOut::Bad(Error::InvalidCapture(None)),
            Some(j) => spec_do_match(
                s,
                p,
                si,
                pi + 1,
                caps.update(j, Cap { start: caps[j].start, state: CapState::Closed(si as usize) }),
                maxlev,
                depth - 1,
            ),
        }
    } else if p[pi] == 36 && pi == p.len() - 1 {  // $ at the end
        if si == s.len() {
            MatchOut::Hit(si, caps)
        } else {
            MatchOut::Fail
        }
    } else if p[pi] == 37 && pi + 1 < p.len() && p[pi + 1] == 98 {  // %b
        if pi + 4 > p.len() {
            MatchOut::Fail
        } else if si < s.len() && s[si] == p[pi + 2] {
            match spec_balance(s, si + 1, p[pi + 2], p[pi + 3], 1) {
                None => MatchOut::Fail,
                Some(si2) => spec_do_match(s, p, si2, pi + 4, caps, maxlev, depth),
            }
        } else {
            MatchOut::Fail
        }
    } else if p[pi] == 37 && pi + 1 < p.len() && p[pi + 1] == 102 {  // %f
        if pi + 2 < p.len() && p[pi + 2] == 91 {
            match spec_scan_set(p, pi + 2) {
                None => MatchOut::Fail,
                Some(ep) => {
                    let prev: u8 = if si == 0 {
                        0
                    } else {
                        s[si - 1]
                    };
                    let cur: u8 = if si < s.len() {
                        s[si]
                    } else {
                        0
                    };
                    if !spec_set_match(prev, p, pi + 2, ep - 1) && spec_set_match(
                        cur,
                        p,
                        pi + 2,
                        ep - 1,
                    ) {
                        spec_do_match(s, p, si, ep, caps, maxlev, depth)
                    } else {
                        MatchOut::Fail
                    }
                },
            }
        } else {
            MatchOut::Fail
        }
    } else if p[pi] == 37 && pi + 1 < p.len() && 48 <= p[pi + 1] <= 57 {  // %n back-reference
        let l: int = p[pi + 1] - 48;
        if l < 1 || l > caps.len() {
            MatchOut::Bad(Error::InvalidCapture(Some(l as i8)))
        } else {
            match caps[l - 1].state {
                CapState::Open => MatchOut::Bad(Error::InvalidCapture(Some(l as i8))),
                CapState::Position => MatchOut::Bad(Error::CapLen),
                CapState::Closed(ce) => {
                    let cs: int = caps[l - 1].start as int;
                    let n: int = ce - cs;
                    if n <= s.len() - si && s.subrange(si, si + n) == s.subrange(cs, ce as int) {
                        spec_do_match(s, p, si + n, pi + 2, caps, maxlev, depth)
                    } else {
                        MatchOut::Fail
                    }
                },
            }
        }
    } else {
        match spec_item_end(p, pi) {
            None => MatchOut::Fail,
            Some(ep) => {
                if ep < p.len() && p[ep] == 63 {  // ?
                    if spec_single(s, si, p, pi, ep) {
                        match spec_do_match(s, p, si + 1, ep + 1, caps, maxlev, depth - 1) {
                            MatchOut::Fail => spec_do_match(s, p, si, ep + 1, caps, maxlev, depth),
                            r => r,
                        }
                    } else {
                        spec_do_match(s, p, si, ep + 1, caps, maxlev, depth)
                    }
                } else if ep < p.len() && p[ep] == 43 {  // +
                    if spec_single(s, si, p, pi, ep) {
                        spec_max_expand(s, p, si + 1, pi, ep, caps, maxlev, depth)
                    } else {
                        MatchOut::Fail
                    }
                } else if ep < p.len() && p[ep] == 42 {  // *
                    spec_max_expand(s, p, si, pi, ep, caps, maxlev, depth)
                } else if ep < p.len() && p[ep] == 45 {  // -
                    spec_min_expand(s, p, si, pi, ep, caps, maxlev, depth)
                } else {
                    if spec_single(s, si, p, pi, ep) {
                        spec_do_match(s, p, si + 1, ep, caps, maxlev, depth)
                    } else {
                        MatchOut::Fail
                    }
                }
            },
        }
    }
}

#[via_fn]
proof fn spec_do_match_dec(
    s: Seq<u8>,
    p: Seq<u8>,
    si: int,
    pi: int,
    caps: Seq<Cap>,
    maxlev: int,
    depth: int,
) {
    if 0 <= pi < p.len() {
        lemma_item_end_bounds(p, pi);
        if p[pi] == 37 && pi + 1 < p.len() && p[pi + 1] == 102 && pi + 2 < p.len() && p[pi + 2]
            == 91 {
            lemma_scan_set_bounds(p, pi + 2);
        }
    }
}

/// Greedy repetition: take the item as many times as possible, then
/// back off one step at a time until the pattern tail after the
/// quantifier matches.
pub open spec fn spec_max_expand(
    s: Seq<u8>,
    p: Seq<u8>,
    si: int,
    pi: int,
    ep: int,
    caps: Seq<Cap>,
    maxlev: int,
    depth: int,
) -> MatchOut
    decreases p.len() - pi, 0int, s.len() - si + 1,
    when 0 <= si <= s.len() && 0 <= pi < ep < p.len()
{
    if spec_single(s, si, p, pi, ep) {
        match spec_max_expand(s, p, si + 1, pi, ep, caps, maxlev, depth) {
            MatchOut::Fail => spec_do_match(s, p, si, ep + 1, caps, maxlev, depth - 1),
            r => r,
        }
    } else {
        spec_do_match(s, p, si, ep + 1, caps, maxlev, depth - 1)
    }
}

/// Lazy repetition: try the pattern tail first, and take one more item
/// only when the tail fails.
pub open spec fn spec_min_expand(
    s: Seq<u8>,
    p: Seq<u8>,
    si: int,
    pi: int,
    ep: int,
    caps: Seq<Cap>,
    maxlev: int,
    depth: int,
) -> MatchOut
    decreases p.len() - pi, 0int, s.len() - si + 1,
    when 0 <= si <= s.len() && 0 <= pi < ep < p.len()
{
    match spec_do_match(s, p, si, ep + 1, caps, maxlev, depth - 1) {
        MatchOut::Fail => {
            if spec_single(s, si, p, pi, ep) {
                spec_min_expand(s, p, si + 1, pi, ep, caps, maxlev, depth)
            } else {
                MatchOut::Fail
            }
        },
        r => r,
    }
}

/// Every tracked capture fits the subject, and no open capture starts
/// after the current offset.
pub open spec fn caps_ok(caps: Seq<Cap>, si: int, n: int) -> bool {
    forall|i: int|
        0 <= i < caps.len() ==> caps[i].start <= n && (caps[i].state is Open ==> caps[i].start
            <= si) && (match caps[i].state {
            CapState::Closed(x) => caps[i].start <= x <= n,
            _ => true,
        })
}

/// Runs the matcher on the pattern tail `p[pi..]` at subject offset
/// `si`, returning exactly what `spec_do_match` denotes: the end offset
/// of a hit, `None` for a failure (with the capture state rolled back),
/// or a run-time error.
fn do_match(
    s: &[u8],
    p: &[u8],
    si: usize,
    pi: usize,
    caps: &mut Vec<Cap>,
    maxlev: usize,
    depth: usize,
) -> (r: Result<Option<usize>, Error>)
    requires
        si <= s@.len() < usize::MAX,
        pi <= p@.len() < usize::MAX,
        caps_ok(old(caps)@, si as int, s@.len() as int),
    ensures
        r matches Ok(Some(e)) ==> spec_do_match(
            s@,
            p@,
            si as int,
            pi as int,
            old(caps)@,
            maxlev as int,
            depth as int,
        ) == MatchOut::Hit(e as int, final(caps)@) && si <= e <= s@.len() && caps_evolve(
            old(caps)@,
            final(caps)@,
            si as int,
            e as int,
        ) && caps_ok(final(caps)@, e as int, s@.len() as int) && (final(caps)@.len() <= old(
            caps,
        )@.len() || final(caps)@.len() <= maxlev),
        r matches Ok(None) ==> spec_do_match(
            s@,
            p@,
            si as int,
            pi as int,
            old(caps)@,
            maxlev as int,
            depth as int,
        ) == MatchOut::Fail && final(caps)@ == old(caps)@,
        r matches Err(er) ==> spec_do_match(
            s@,
            p@,
            si as int,
            pi as int,
            old(caps)@,
            maxlev as int,
            depth as int,
        ) == MatchOut::Bad(er),
    decreases p@.len() - pi, 1int, 0int,
{
    proof {
        if pi < p@.len() {
            lemma_item_end_bounds(p@, pi as int);
        }
    }
    if depth == 0 {
        return Err(Error::TooComplex);
    }
    if pi == p.len() {
        return Ok(Some(si));
    }
    let c: u8 = p[pi];
    if c == 40 {  // (
        if pi + 1 < p.len() && p[pi + 1] == 41 {  // () position capture
            if caps.len() >= maxlev {
                return Err(Error::TooManyCaptures);
            }
            caps.push(Cap { start: si, state: CapState::Position });
            match do_match(s, p, si, pi + 2, caps, maxlev, depth - 1) {
                Ok(Some(e)) => Ok(Some(e)),
                Ok(None) => {
                    caps.pop();
                    assert(caps@ =~= old(caps)@);
                    Ok(None)
                },
                Err(er) => Err(er),
            }
        } else {
            if caps.len() >= maxlev {
                return Err(Error::TooManyCaptures);
            }
            caps.push(Cap { start: si, state: CapState::Open });
            match do_match(s, p, si, pi + 1, caps, maxlev, depth - 1) {
                Ok(Some(e)) => Ok(Some(e)),
                Ok(None) => {
                    caps.pop();
                    assert(caps@ =~= old(caps)@);
                    Ok(None)
                },
                Err(er) => Err(er),
            }
        }
    } else if c == 41 {  // )
        match last_open(caps) {
            None => Err(Error::InvalidCapture(None)),
            Some(j) => {
                let st: usize = caps[j].start;
                caps[j] = Cap { start: st, state: CapState::Closed(si) };
                match do_match(s, p, si, pi + 1, caps, maxlev, depth - 1) {
                    Ok(Some(e)) => Ok(Some(e)),
                    Ok(None) => {
                        caps[j] = Cap { start: st, state: CapState::Open };
                        assert(caps@ =~= old(caps)@);
                        Ok(None)
                    },
                    Err(er) => Err(er),
                }
            },
        }
    } else if c == 36 && pi + 1 == p.len() {  // $ at the end
        if si == s.len() {
            Ok(Some(si))
        } else {
            Ok(None)
        }
    } else if c == 37 && pi + 1 < p.len() && p[pi + 1] == 98 {  // %b
        if p.len() - pi < 4 {
            return Ok(None);
        }
        if si < s.len() && s[si] == p[pi + 2] {
            match balance(s, si + 1, p[pi + 2], p[pi + 3], 1) {
                None => Ok(None),
                Some(si2) => do_match(s, p, si2, pi + 4, caps, maxlev, depth),
            }
        } else {
            Ok(None)
        }
    } else if c == 37 && pi + 1 < p.len() && p[pi + 1] == 102 {  // %f
        if pi + 2 < p.len() && p[pi + 2] == 91 {
            match scan_set(p, pi + 2) {
                None => Ok(None),
                Some(ep) => {
                    proof {
                        lemma_scan_set_bounds(p@, pi + 2);
                    }
                    let prev: u8 = if si == 0 {
                        0
                    } else {
                        s[si - 1]
                    };
                    let cur: u8 = if si < s.len() {
                        s[si]
                    } else {
                        0
                    };
                    if !set_match(prev, p, pi + 2, ep - 1) && set_match(cur, p, pi + 2, ep - 1) {
                        do_match(s, p, si, ep, caps, maxlev, depth)
                    } else {
                        Ok(None)
                    }
                },
            }
        } else {
            Ok(None)
        }
    } else if c == 37 && pi + 1 < p.len() && 48 <= p[pi + 1] && p[pi + 1] <= 57 {  // %n
        let l: usize = (p[pi + 1] - 48) as usize;
        if l < 1 || l > caps.len() {
            return Err(Error::InvalidCapture(Some((p[pi + 1] - 48) as i8)));
        }
        match caps[l - 1].state {
            CapState::Open => Err(Error::InvalidCapture(Some((p[pi + 1] - 48) as i8))),
            CapState::Position => Err(Error::CapLen),
            CapState::Closed(ce) => {
                let cs: usize = caps[l - 1].start;
                let n: usize = ce - cs;
                if n <= s.len() - si && region_eq(s, si, cs, n) {
                    do_match(s, p, si + n, pi + 2, caps, maxlev, depth)
                } else {
                    Ok(None)
                }
            },
        }
    } else {
        match item_end(p, pi) {
            None => Ok(None),
            Some(ep) => {
                if ep < p.len() && p[ep] == 63 {  // ?
                    if single(s, si, p, pi, ep) {
                        match do_match(s, p, si + 1, ep + 1, caps, maxlev, depth - 1) {
                            Ok(Some(e)) => Ok(Some(e)),
                            Ok(None) => do_match(s, p, si, ep + 1, caps, maxlev, depth),
                            Err(er) => Err(er),
                        }
                    } else {
                        do_match(s, p, si, ep + 1, caps, maxlev, depth)
                    }
                } else if ep < p.len() && p[ep] == 43 {  // +
                    if single(s, si, p, pi, ep) {
                        max_expand(s, p, si + 1, pi, ep, caps, maxlev, depth)
                    } else {
                        Ok(None)
                    }
                } else if ep < p.len() && p[ep] == 42 {  // *
                    max_expand(s, p, si, pi, ep, caps, maxlev, depth)
                } else if ep < p.len() && p[ep] == 45 {  // -
                    min_expand(s, p, si, pi, ep, caps, maxlev, depth)
                } else {
                    if single(s, si, p, pi, ep) {
                        do_match(s, p, si + 1, ep, caps, maxlev, depth)
                    } else {
                        Ok(None)
                    }
                }
            },
        }
    }
}

/// Greedy repetition, mirroring `spec_max_expand`.
fn max_expand(
    s: &[u8],
    p: &[u8],
    si: usize,
    pi: usize,
    ep: usize,
    caps: &mut Vec<Cap>,
    maxlev: usize,
    depth: usize,
) -> (r: Result<Option<usize>, Error>)
    requires
        si <= s@.len() < usize::MAX,
        p@.len() < usize::MAX,
        pi < ep < p@.len(),
        spec_item_end(p@, pi as int) == Some(ep as int),
        1 <= depth,
        caps_ok(old(caps)@, si as int, s@.len() as int),
    ensures
        r matches Ok(Some(e)) ==> spec_max_expand(
            s@,
            p@,
            si as int,
            pi as int,
            ep as int,
            old(caps)@,
            maxlev as int,
            depth as int,
        ) == MatchOut::Hit(e as int, final(caps)@) && si <= e <= s@.len() && caps_evolve(
            old(caps)@,
            final(caps)@,
            si as int,
            e as int,
        ) && caps_ok(final(caps)@, e as int, s@.len() as int) && (final(caps)@.len() <= old(
            caps,
        )@.len() || final(caps)@.len() <= maxlev),
        r matches Ok(None) ==> spec_max_expand(
            s@,
            p@,
            si as int,
            pi as int,
            ep as int,
            old(caps)@,
            maxlev as int,
            depth as int,
        ) == MatchOut::Fail && final(caps)@ == old(caps)@,
        r matches Err(er) ==> spec_max_expand(
            s@,
            p@,
            si as int,
            pi as int,
            ep as int,
            old(caps)@,
            maxlev as int,
            depth as int,
        ) == MatchOut::Bad(er),
    decreases p@.len() - pi, 0int, s@.len() - si + 1,
{
    if single(s, si, p, pi, ep) {
        match max_expand(s, p, si + 1, pi, ep, caps, maxlev, depth) {
            Ok(Some(e)) => Ok(Some(e)),
            Ok(None) => do_match(s, p, si, ep + 1, caps, maxlev, depth - 1),
            Err(er) => Err(er),
        }
    } else {
        do_match(s, p, si, ep + 1, caps, maxlev, depth - 1)
    }
}

/// Lazy repetition, mirroring `spec_min_expand`.
fn min_expand(
    s: &[u8],
    p: &[u8],
    si: usize,
    pi: usize,
    ep: usize,
    caps: &mut Vec<Cap>,
    maxlev: usize,
    depth: usize,
) -> (r: Result<Option<usize>, Error>)
    requires
        si <= s@.len() < usize::MAX,
        p@.len() < usize::MAX,
        pi < ep < p@.len(),
        spec_item_end(p@, pi as int) == Some(ep as int),
        1 <= depth,
        caps_ok(old(caps)@, si as int, s@.len() as int),
    ensures
        r matches Ok(Some(e)) ==> spec_min_expand(
            s@,
            p@,
            si as int,
            pi as int,
            ep as int,
            old(caps)@,
            maxlev as int,
            depth as int,
        ) == MatchOut::Hit(e as int, final(caps)@) && si <= e <= s@.len() && caps_evolve(
            old(caps)@,
            final(caps)@,
            si as int,
            e as int,
        ) && caps_ok(final(caps)@, e as int, s@.len() as int) && (final(caps)@.len() <= old(
            caps,
        )@.len() || final(caps)@.len() <= maxlev),
        r matches Ok(None) ==> spec_min_expand(
            s@,
            p@,
            si as int,
            pi as int,
            ep as int,
            old(caps)@,
            maxlev as int,
            depth as int,
        ) == MatchOut::Fail && final(caps)@ == old(caps)@,
        r matches Err(er) ==> spec_min_expand(
            s@,
            p@,
            si as int,
            pi as int,
            ep as int,
            old(caps)@,
            maxlev as int,
            depth as int,
        ) == MatchOut::Bad(er),
    decreases p@.len() - pi, 0int, s@.len() - si + 1,
{
    match do_match(s, p, si, ep + 1, caps, maxlev, depth - 1) {
        Ok(Some(e)) => Ok(Some(e)),
        Ok(None) => {
            if single(s, si, p, pi, ep) {
                min_expand(s, p, si + 1, pi, ep, caps, maxlev, depth)
            } else {
                Ok(None)
            }
        },
        Err(er) => Err(er),
    }
}

/// The leftmost match: one attempt per start offset `init, init+1, ...`,
/// or a single attempt at `init` when the pattern was anchored.
pub open spec fn spec_first_hit(
    s: Seq<u8>,
    p: Seq<u8>,
    pi0: int,
    init: int,
    maxlev: int,
    anchor: bool,
) -> TopOut
    decreases s.len() - init,
    when 0 <= init <= s.len() && 0 <= pi0 <= p.len()
{
    match spec_do_match(s, p, init, pi0, Seq::empty(), maxlev, MAX_DEPTH as int) {
        MatchOut::Hit(e, cc) => TopOut::Got(init, e, cc),
        MatchOut::Bad(er) => TopOut::Bad(er),
        MatchOut::Fail => if anchor || init >= s.len() {
            TopOut::Miss
        } else {
            spec_first_hit(s, p, pi0, init + 1, maxlev, anchor)
        },
    }
}

/// The whole search: `max` is the size of the capture table including
/// slot 0, so `max - 1` user captures may open; a `^` at the start
/// anchors the single attempt at offset 0.
pub open spec fn spec_str_match(s: Seq<u8>, p: Seq<u8>, max: int) -> TopOut {
    if max < 1 {
        TopOut::Bad(Error::TooManyCaptures)
    } else {
        let anchor = p.len() > 0 && p[0] == 94;
        spec_first_hit(
            s,
            p,
            if anchor {
                1
            } else {
                0
            },
            0,
            max - 1,
            anchor,
        )
    }
}

proof fn lemma_first_hit_leftmost(
    s: Seq<u8>,
    p: Seq<u8>,
    pi0: int,
    init: int,
    maxlev: int,
    anchor: bool,
)
    requires
        0 <= init <= s.len(),
        0 <= pi0 <= p.len(),
    ensures
        spec_first_hit(s, p, pi0, init, maxlev, anchor) matches TopOut::Got(st, e, cc) ==> init
            <= st && forall|j: int|
            init <= j < st ==> #[trigger] spec_do_match(
                s,
                p,
                j,
                pi0,
                Seq::<Cap>::empty(),
                maxlev,
                MAX_DEPTH as int,
            ) == MatchOut::Fail,
    decreases s.len() - init,
{
    match spec_do_match(s, p, init, pi0, Seq::<Cap>::empty(), maxlev, MAX_DEPTH as int) {
        MatchOut::Hit(_, _) => {},
        MatchOut::Bad(_) => {},
        MatchOut::Fail => {
            if !(anchor || init >= s.len()) {
                lemma_first_hit_leftmost(s, p, pi0, init + 1, maxlev, anchor);
            }
        },
    }
}

/// No start offset admits a match: a match attempt fails at every
/// offset of the subject — at offset 0 alone when the pattern is
/// anchored.
pub open spec fn spec_no_match_anywhere(s: Seq<u8>, p: Seq<u8>, max: int) -> bool {
    if p.len() > 0 && p[0] == 94 {
        spec_do_match(s, p, 0, 1, Seq::<Cap>::empty(), max - 1, MAX_DEPTH as int)
            == MatchOut::Fail
    } else {
        forall|j: int|
            0 <= j <= s.len() ==> #[trigger] spec_do_match(
                s,
                p,
                j,
                0,
                Seq::<Cap>::empty(),
                max - 1,
                MAX_DEPTH as int,
            ) == MatchOut::Fail
    }
}

proof fn lemma_first_hit_miss(
    s: Seq<u8>,
    p: Seq<u8>,
    pi0: int,
    init: int,
    maxlev: int,
    anchor: bool,
)
    requires
        0 <= init <= s.len(),
        0 <= pi0 <= p.len(),
    ensures
        spec_first_hit(s, p, pi0, init, maxlev, anchor) is Miss ==> forall|j: int|
            init <= j <= s.len() && (anchor ==> j == init) ==> #[trigger] spec_do_match(
                s,
                p,
                j,
                pi0,
                Seq::<Cap>::empty(),
                maxlev,
                MAX_DEPTH as int,
            ) == MatchOut::Fail,
    decreases s.len() - init,
{
    match spec_do_match(s, p, init, pi0, Seq::<Cap>::empty(), maxlev, MAX_DEPTH as int) {
        MatchOut::Hit(_, _) => {},
        MatchOut::Bad(_) => {},
        MatchOut::Fail => {
            if !(anchor || init >= s.len()) {
                lemma_first_hit_miss(s, p, pi0, init + 1, maxlev, anchor);
            }
        },
    }
}

/// A miss is a miss everywhere: when the search finds no match, a
/// match attempt fails at every start offset (at offset 0 alone when
/// the pattern is anchored).
pub proof fn law_miss_no_offset(s: Seq<u8>, p: Seq<u8>, max: int)
    ensures
        spec_str_match(s, p, max) is Miss ==> spec_no_match_anywhere(s, p, max),
{
    if max >= 1 {
        let anchor = p.len() > 0 && p[0] == 94;
        let pi0: int = if anchor {
            1
        } else {
            0
        };
        lemma_first_hit_miss(s, p, pi0, 0, max - 1, anchor);
        if spec_str_match(s, p, max) is Miss {
            if anchor {
                assert(spec_do_match(s, p, 0, 1, Seq::<Cap>::empty(), max - 1, MAX_DEPTH as int)
                    == MatchOut::Fail);
            } else {
                assert forall|j: int|
                    0 <= j <= s.len() implies #[trigger] spec_do_match(
                    s,
                    p,
                    j,
                    0,
                    Seq::<Cap>::empty(),
                    max - 1,
                    MAX_DEPTH as int,
                ) == MatchOut::Fail by {
                    assert(spec_do_match(
                        s,
                        p,
                        j,
                        pi0,
                        Seq::<Cap>::empty(),
                        max - 1,
                        MAX_DEPTH as int,
                    ) == MatchOut::Fail);
                }
            }
        }
    }
}

/// The search returns the leftmost match: when it comes back with a
/// match starting at `st`, a match attempt at every earlier offset
/// fails.
pub proof fn law_leftmost_match(s: Seq<u8>, p: Seq<u8>, max: int)
    ensures
        spec_str_match(s, p, max) matches TopOut::Got(st, e, cc) ==> ({
            let anchor = p.len() > 0 && p[0] == 94;
            let pi0: int = if anchor {
                1
            } else {
                0
            };
            0 <= st && forall|j: int|
                0 <= j < st ==> #[trigger] spec_do_match(
                    s,
                    p,
                    j,
                    pi0,
                    Seq::<Cap>::empty(),
                    max - 1,
                    MAX_DEPTH as int,
                ) == MatchOut::Fail
        }),
{
    if max >= 1 {
        let anchor = p.len() > 0 && p[0] == 94;
        let pi0: int = if anchor {
            1
        } else {
            0
        };
        lemma_first_hit_leftmost(s, p, pi0, 0, max - 1, anchor);
    }
}

/// Turns the matcher's capture state into final table slots, one per
/// user capture in order of opening; a capture still open at the end of
/// a successful match is reported as `CapLen`.
pub open spec fn spec_conv_from(caps: Seq<Cap>, i: int) -> Result<Seq<LuaMatch>, Error>
    decreases caps.len() - i,
    when 0 <= i <= caps.len()
{
    if i >= caps.len() {
        Ok(Seq::empty())
    } else {
        match caps[i].state {
            CapState::Open => Err(Error::CapLen),
            CapState::Position => match spec_conv_from(caps, i + 1) {
                Err(e) => Err(e),
                Ok(rest) => Ok(
                    seq![LuaMatch { start: caps[i].start, end: caps[i].start, pos: true }] + rest,
                ),
            },
            CapState::Closed(x) => match spec_conv_from(caps, i + 1) {
                Err(e) => Err(e),
                Ok(rest) => Ok(seq![LuaMatch { start: caps[i].start, end: x, pos: false }] + rest),
            },
        }
    }
}

pub proof fn lemma_conv_entries(caps: Seq<Cap>, i: int)
    requires
        0 <= i <= caps.len(),
    ensures
        spec_conv_from(caps, i) matches Ok(us) ==> us.len() == caps.len() - i && forall|k: int|
            0 <= k < us.len() ==> #[trigger] us[k].start == caps[i + k].start && !(caps[i
                + k].state is Open) && (match caps[i + k].state {
                CapState::Closed(x) => us[k].end == x && !us[k].pos,
                CapState::Position => us[k].end == us[k].start && us[k].pos,
                CapState::Open => true,
            }),
    decreases caps.len() - i,
{
    if i < caps.len() {
        lemma_conv_entries(caps, i + 1);
    }
}

/// The final outcome of `str_match`: `Ok(None)` for no match,
/// `Ok(Some(slots))` with slot 0 the whole match followed by the user
/// captures, or a run-time error.
pub open spec fn spec_str_match_full(s: Seq<u8>, p: Seq<u8>, max: int) -> Result<
    Option<Seq<LuaMatch>>,
    Error,
> {
    match spec_str_match(s, p, max) {
        TopOut::Miss => Ok(None),
        TopOut::Bad(er) => Err(er),
        TopOut::Got(st, e, cc) => match spec_conv_from(cc, 0) {
            Err(er) => Err(er),
            Ok(us) => Ok(
                Some(seq![LuaMatch { start: st as usize, end: e as usize, pos: false }] + us),
            ),
        },
    }
}

/// Well-formedness of a final capture table against a subject of length
/// `n`: slot 0 is a real range inside the subject, and every further
/// slot lies inside slot 0's range; a positional slot is an empty range
/// at its position.
pub open spec fn slots_wf(v: Seq<LuaMatch>, n: int) -> bool {
    &&& v.len() >= 1
    &&& !v[0].pos
    &&& v[0].start <= v[0].end <= n
    &&& forall|i: int|
        1 <= i < v.len() ==> v[0].start <= #[trigger] v[i].start && v[i].start <= v[i].end
            && v[i].end <= v[0].end && (v[i].pos ==> v[i].start == v[i].end)
}

/// Builds the final slot vector from the capture state.
fn conv_caps(caps: &Vec<Cap>) -> (r: Result<Vec<LuaMatch>, Error>)
    ensures
        r matches Ok(v) ==> spec_conv_from(caps@, 0) == Ok::<Seq<LuaMatch>, Error>(v@),
        r matches Err(e) ==> spec_conv_from(caps@, 0) == Err::<Seq<LuaMatch>, Error>(e),
{
    let mut out: Vec<LuaMatch> = Vec::new();
    let mut i: usize = 0;
    while i < caps.len()
        invariant
            i <= caps@.len(),
            spec_conv_from(caps@, i as int) matches Ok(rest) ==> spec_conv_from(caps@, 0)
                == Ok::<Seq<LuaMatch>, Error>(out@ + rest),
            spec_conv_from(caps@, i as int) matches Err(e) ==> spec_conv_from(caps@, 0)
                == Err::<Seq<LuaMatch>, Error>(e),
        decreases caps@.len() - i,
    {
        let ghost prev_out = out@;
        match caps[i].state {
            CapState::Open => {
                return Err(Error::CapLen);
            },
            CapState::Position => {
                let st: usize = caps[i].start;
                out.push(LuaMatch { start: st, end: st, pos: true });
            },
            CapState::Closed(x) => {
                let st: usize = caps[i].start;
                out.push(LuaMatch { start: st, end: x, pos: false });
            },
        }
        proof {
            let m = out@[out@.len() - 1];
            assert(out@ =~= prev_out.push(m));
            if let Ok(rest) = spec_conv_from(caps@, i + 1) {
                assert(spec_conv_from(caps@, i as int) == Ok::<Seq<LuaMatch>, Error>(
                    seq![m] + rest,
                ));
                assert(prev_out + (seq![m] + rest) =~= out@ + rest);
            }
        }
        i = i + 1;
    }
    proof {
        assert(out@ + Seq::<LuaMatch>::empty() =~= out@);
    }
    Ok(out)
}

/// Finds the leftmost match of pattern `p` in subject `s`, with room
/// for `max` capture slots including slot 0.
///
/// Returns `Ok(None)` when nothing matches, and otherwise the capture
/// table: slot 0 is the whole match, the rest are the user captures in
/// order of opening. When the pattern is anchored the match can only
/// start at offset 0. Run-time failures (`TooComplex`,
/// `TooManyCaptures`, `CapLen`) are returned as errors.
pub fn str_match(s: &[u8], p: &[u8], max: usize) -> (r: Result<Option<Vec<LuaMatch>>, Error>)
    requires
        s@.len() < usize::MAX,
        p@.len() < usize::MAX,
    ensures
        r matches Ok(Some(v)) ==> spec_str_match_full(s@, p@, max as int) == Ok::<
            Option<Seq<LuaMatch>>,
            Error,
        >(Some(v@)) && slots_wf(v@, s@.len() as int) && v@.len() <= max,
        r matches Ok(None) ==> spec_str_match_full(s@, p@, max as int) == Ok::<
            Option<Seq<LuaMatch>>,
            Error,
        >(None) && spec_no_match_anywhere(s@, p@, max as int),
        r matches Err(er) ==> spec_str_match_full(s@, p@, max as int) == Err::<
            Option<Seq<LuaMatch>>,
            Error,
        >(er),
        r matches Ok(Some(v)) ==> (p@.len() > 0 && p@[0] == 94 ==> v@[0].start == 0),
{
    if max < 1 {
        return Err(Error::TooManyCaptures);
    }
    let anchor: bool = p.len() > 0 && p[0] == 94;
    let pi0: usize = if anchor {
        1
    } else {
        0
    };
    let maxlev: usize = max - 1;
    let mut init: usize = 0;
    let mut caps: Vec<Cap> = Vec::new();
    loop
        invariant
            init <= s@.len() < usize::MAX,
            p@.len() < usize::MAX,
            pi0 <= p@.len(),
            anchor == (p@.len() > 0 && p@[0] == 94),
            pi0 == if anchor {
                1int
            } else {
                0int
            },
            max >= 1,
            maxlev == max - 1,
            caps@ == Seq::<Cap>::empty(),
            anchor ==> init == 0,
            spec_first_hit(s@, p@, pi0 as int, 0, maxlev as int, anchor) == spec_first_hit(
                s@,
                p@,
                pi0 as int,
                init as int,
                maxlev as int,
                anchor,
            ),
        decreases s@.len() - init,
    {
        match do_match(s, p, init, pi0, &mut caps, maxlev, MAX_DEPTH) {
            Err(er) => {
                proof {
                    assert(spec_first_hit(s@, p@, pi0 as int, init as int, maxlev as int, anchor)
                        == TopOut::Bad(er));
                    assert(spec_str_match(s@, p@, max as int) == TopOut::Bad(er));
                }
                return Err(er);
            },
            Ok(Some(e)) => {
                proof {
                    lemma_conv_entries(caps@, 0);
                    assert(spec_first_hit(s@, p@, pi0 as int, init as int, maxlev as int, anchor)
                        == TopOut::Got(init as int, e as int, caps@));
                    assert(spec_str_match(s@, p@, max as int) == TopOut::Got(
                        init as int,
                        e as int,
                        caps@,
                    ));
                }
                match conv_caps(&caps) {
                    Err(er) => {
                        return Err(er);
                    },
                    Ok(us) => {
                        let mut v: Vec<LuaMatch> = Vec::new();
                        v.push(LuaMatch { start: init, end: e, pos: false });
                        let mut k: usize = 0;
                        while k < us.len()
                            invariant
                                k <= us@.len(),
                                v@ == seq![
                                    LuaMatch { start: init, end: e, pos: false },
                                ] + us@.take(k as int),
                            decreases us@.len() - k,
                        {
                            let m: LuaMatch = us[k];
                            v.push(m);
                            proof {
                                assert(us@.take(k + 1) =~= us@.take(k as int).push(us@[k as int]));
                            }
                            k = k + 1;
                        }
                        proof {
                            assert(us@.take(us@.len() as int) =~= us@);
                        }
                        return Ok(Some(v));
                    },
                }
            },
            Ok(None) => {
                if anchor || init >= s.len() {
                    proof {
                        assert(spec_first_hit(s@, p@, pi0 as int, init as int, maxlev as int, anchor)
                            == TopOut::Miss);
                        assert(spec_str_match(s@, p@, max as int) is Miss);
                        law_miss_no_offset(s@, p@, max as int);
                    }
                    return Ok(None);
                }
                init = init + 1;
            },
        }
    }
}

} // verus!
