use vstd::prelude::*;

use crate::engine::spec_scan_set;
use crate::error::Error;

verus! {

/// The index of the most recently opened capture that is still open,
/// in the validator's bookkeeping (`false` = open, `true` = closed).
pub open spec fn spec_last_unclosed(stat: Seq<bool>) -> Option<int>
    decreases stat.len(),
{
    if stat.len() == 0 {
        None
    } else if !stat.last() {
        Some(stat.len() - 1)
    } else {
        spec_last_unclosed(stat.drop_last())
    }
}

pub proof fn lemma_last_unclosed(stat: Seq<bool>)
    ensures
        spec_last_unclosed(stat) matches Some(j) ==> 0 <= j < stat.len() && !stat[j] && forall|
            k: int,
        | j < k < stat.len() ==> stat[k],
        spec_last_unclosed(stat) is None ==> forall|k: int| 0 <= k < stat.len() ==> stat[k],
    decreases stat.len(),
{
    if stat.len() > 0 && stat.last() {
        lemma_last_unclosed(stat.drop_last());
        assert forall|k: int| 0 <= k < stat.len() - 1 implies stat.drop_last()[k] == stat[k] by {}
    }
}

/// One forward scan of the pattern from `pi`, with `stat` recording for
/// each capture opened so far whether it has been closed, and at most
/// `maxuser` user captures allowed. This is the reference semantics of
/// validation; `str_check` is proved to return exactly this.
pub open spec fn spec_check_from(p: Seq<u8>, pi: int, stat: Seq<bool>, maxuser: int) -> Result<
    (),
    Error,
>
    decreases p.len() - pi,
    when 0 <= pi <= p.len()
    via spec_check_from_dec
{
    if pi >= p.len() {
        if spec_last_unclosed(stat) is Some {
            Err(Error::UnfinishedCapture)
        } else {
            Ok(())
        }
    } else if p[pi] == 37 {  // %
        if pi + 1 >= p.len() {
            Err(Error::EndsWithPercent)
        } else if p[pi + 1] == 98 {  // %b
            if p.len() - pi < 4 {
                Err(Error::MissingBalanceArgs)
            } else {
                spec_check_from(p, pi + 4, stat, maxuser)
            }
        } else if p[pi + 1] == 102 {  // %f
            if pi + 2 >= p.len() || p[pi + 2] != 91 {
                Err(Error::MissingLBracketF)
            } else {
                match spec_scan_set(p, pi + 2) {
                    None => Err(Error::MissingEndBracket),
                    Some(ep) => spec_check_from(p, ep, stat, maxuser),
                }
            }
        } else if 48 <= p[pi + 1] <= 57 {  // %n back-reference
            let n: int = p[pi + 1] - 48;
            if 1 <= n <= stat.len() && stat[n - 1] {
                spec_check_from(p, pi + 2, stat, maxuser)
            } else {
                Err(Error::InvalidCapture(Some(n as i8)))
            }
        } else {  // any other escape
            spec_check_from(p, pi + 2, stat, maxuser)
        }
    } else if p[pi] == 91 {  // [
        match spec_scan_set(p, pi) {
            None => Err(Error::MissingEndBracket),
            Some(ep) => spec_check_from(p, ep, stat, maxuser),
        }
    } else if p[pi] == 40 {  // (
        if stat.len() >= maxuser {
            Err(Error::TooManyCaptures)
        } else if pi + 1 < p.len() && p[pi + 1] == 41 {  // () position capture
            spec_check_from(p, pi + 2, stat.push(true), maxuser)
        } else {
            spec_check_from(p, pi + 1, stat.push(false), maxuser)
        }
    } else if p[pi] == 41 {  // )
        match spec_last_unclosed(stat) {
            None => Err(Error::NoOpenCapture),
            Some(j) => spec_check_from(p, pi + 1, stat.update(j, true), maxuser),
        }
    } else {
        spec_check_from(p, pi + 1, stat, maxuser)
    }
}

#[via_fn]
proof fn spec_check_from_dec(p: Seq<u8>, pi: int, stat: Seq<bool>, maxuser: int) {
    if 0 <= pi < p.len() {
        if p[pi] == 91 {
            crate::engine::lemma_scan_set_bounds(p, pi);
        }
        if p[pi] == 37 && pi + 2 < p.len() && p[pi + 2] == 91 {
            crate::engine::lemma_scan_set_bounds(p, pi + 2);
        }
    }
}

/// What validating a pattern against a capture table of `max` slots
/// (slot 0 included) comes to.
pub open spec fn spec_check(p: Seq<u8>, max: int) -> Result<(), Error> {
    if max < 1 {
        Err(Error::TooManyCaptures)
    } else {
        spec_check_from(p, 0, Seq::empty(), max - 1)
    }
}

/// Executable search for the most recently opened unclosed capture.
fn last_unclosed(stat: &Vec<bool>) -> (r: Option<usize>)
    ensures
        match r {
            Some(j) => spec_last_unclosed(stat@) == Some(j as int) && j < stat@.len(),
            None => spec_last_unclosed(stat@) is None,
        },
{
    let mut j: usize = stat.len();
    while j > 0
        invariant
            j <= stat@.len(),
            forall|k: int| j <= k < stat@.len() ==> stat@[k],
        decreases j,
    {
        j = j - 1;
        if !stat[j] {
            proof {
                lemma_last_unclosed(stat@);
            }
            return Some(j);
        }
    }
    proof {
        lemma_last_unclosed(stat@);
    }
    None
}

/// Walks the pattern from `pi`, carrying the capture bookkeeping.
fn check_from(p: &[u8], pi: usize, stat: &mut Vec<bool>, maxuser: usize) -> (r: Result<(), Error>)
    requires
        pi <= p@.len() < usize::MAX,
    ensures
        r == spec_check_from(p@, pi as int, old(stat)@, maxuser as int),
    decreases p@.len() - pi,
{
    if pi >= p.len() {
        match last_unclosed(stat) {
            Some(_) => Err(Error::UnfinishedCapture),
            None => Ok(()),
        }
    } else if p[pi] == 37 {
        if pi + 1 >= p.len() {
            Err(Error::EndsWithPercent)
        } else if p[pi + 1] == 98 {
            if p.len() - pi < 4 {
                Err(Error::MissingBalanceArgs)
            } else {
                check_from(p, pi + 4, stat, maxuser)
            }
        } else if p[pi + 1] == 102 {
            if pi + 2 >= p.len() || p[pi + 2] != 91 {
                Err(Error::MissingLBracketF)
            } else {
                match crate::engine::scan_set(p, pi + 2) {
                    None => Err(Error::MissingEndBracket),
                    Some(ep) => {
                        proof {
                            crate::engine::lemma_scan_set_bounds(p@, pi + 2);
                        }
                        check_from(p, ep, stat, maxuser)
                    },
                }
            }
        } else if 48 <= p[pi + 1] && p[pi + 1] <= 57 {
            let n: usize = (p[pi + 1] - 48) as usize;
            if 1 <= n && n <= stat.len() && stat[n - 1] {
                check_from(p, pi + 2, stat, maxuser)
            } else {
                Err(Error::InvalidCapture(Some((p[pi + 1] - 48) as i8)))
            }
        } else {
            check_from(p, pi + 2, stat, maxuser)
        }
    } else if p[pi] == 91 {
        match crate::engine::scan_set(p, pi) {
            None => Err(Error::MissingEndBracket),
            Some(ep) => {
                proof {
                    crate::engine::lemma_scan_set_bounds(p@, pi as int);
                }
                check_from(p, ep, stat, maxuser)
            },
        }
    } else if p[pi] == 40 {
        if stat.len() >= maxuser {
            Err(Error::TooManyCaptures)
        } else if pi + 1 < p.len() && p[pi + 1] == 41 {
            stat.push(true);
            check_from(p, pi + 2, stat, maxuser)
        } else {
            stat.push(false);
            check_from(p, pi + 1, stat, maxuser)
        }
    } else if p[pi] == 41 {
        match last_unclosed(stat) {
            None => Err(Error::NoOpenCapture),
            Some(j) => {
                stat[j] = true;
                check_from(p, pi + 1, stat, maxuser)
            },
        }
    } else {
        check_from(p, pi + 1, stat, maxuser)
    }
}

/// Validates a pattern against a capture table of `max` slots, slot 0
/// included: well-formed escapes, closed class sets, matched capture
/// parentheses, back-references to closed captures only, and no more
/// user captures than the table can hold. Returns exactly the outcome
/// `spec_check` denotes.
pub fn str_check(p: &[u8], max: usize) -> (r: Result<(), Error>)
    requires
        p@.len() < usize::MAX,
    ensures
        r == spec_check(p@, max as int),
{
    if max < 1 {
        return Err(Error::TooManyCaptures);
    }
    let mut stat: Vec<bool> = Vec::new();
    check_from(p, 0, &mut stat, max - 1)
}

/// Validation is a function of the pattern and the capture capacity
/// alone: validating the same pattern twice produces the same outcome.
/// (`str_check` returns `spec_check` exactly, so two runs agree.)
pub proof fn law_check_repeatable(p: Seq<u8>, max: int, first: Result<(), Error>, second: Result<
    (),
    Error,
>)
    requires
        first == spec_check(p, max),
        second == spec_check(p, max),
    ensures
        first == second,
{
}

} // verus!
