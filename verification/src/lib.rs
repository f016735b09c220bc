//! Lua string patterns over byte subjects: a validator that rejects
//! malformed patterns with Lua's own diagnostics, a backtracking
//! matcher for the full item vocabulary (classes, sets, anchors,
//! quantifiers, `%b`, `%f`, position captures and back-references),
//! and template-based global substitution. The matcher and validator
//! are specified by spec functions over byte sequences
//! (`engine::spec_do_match`, `validate::spec_check`) and proved to
//! return exactly what those denote; the tie-breaking of the
//! quantifiers is stated and proved in `laws`.

pub mod classes;
pub mod engine;
pub mod error;
pub mod laws;
pub mod replace;
pub mod validate;

use vstd::prelude::*;
use vstd::string::*;

use core::ops::Range;
use engine::{slots_wf, spec_no_match_anywhere, spec_str_match_full, str_match, LuaMatch};
use error::Error;
pub use replace::{generate_gsub_patterns, Subst, Substitute};

use replace::{
    apply_subst, bytes_to_string_lossy, extend_bytes, extend_vec, items_view, spec_compile_from,
    spec_esc_at, spec_find_esc, spec_gsub_from, spec_gsub_matches, spec_gsub_shape, SubstSpec,
};
use validate::{spec_check, str_check};

verus! {

/// A validated Lua string pattern together with the capture table of
/// its most recent match. `MAXCAPTURES` is the size of the capture
/// table, slot 0 (the whole match) included.
pub struct Pattern<'a, const MAXCAPTURES: usize> {
    patt: &'a [u8],
    matches: Vec<LuaMatch>,
    n_match: usize,
}

/// Copies a capture table.
fn copy_slots(v: &Vec<LuaMatch>) -> (r: Vec<LuaMatch>)
    ensures
        r@ == v@,
{
    let mut out: Vec<LuaMatch> = Vec::new();
    let mut i: usize = 0;
    while i < v.len()
        invariant
            i <= v@.len(),
            out@ == v@.take(i as int),
        decreases v@.len() - i,
    {
        out.push(v[i]);
        proof {
            assert(v@.take(i + 1) =~= v@.take(i as int).push(v@[i as int]));
        }
        i = i + 1;
    }
    proof {
        assert(v@.take(v@.len() as int) =~= v@);
    }
    out
}

/// Copies the first `n_valid` slots of a capture table, moving each
/// range `off` bytes to the right: the table of a match found in a
/// tail, rebased onto the whole subject.
fn shift_slots(v: &Vec<LuaMatch>, n_valid: usize, off: usize) -> (r: Vec<LuaMatch>)
    requires
        n_valid <= v@.len(),
        forall|i: int|
            0 <= i < n_valid ==> v@[i].start <= v@[i].end && #[trigger] v@[i].end + off
                <= usize::MAX,
    ensures
        r@.len() == n_valid,
        forall|i: int|
            0 <= i < n_valid ==> #[trigger] r@[i] == (LuaMatch {
                start: (v@[i].start + off) as usize,
                end: (v@[i].end + off) as usize,
                pos: v@[i].pos,
            }),
{
    let mut out: Vec<LuaMatch> = Vec::new();
    let mut i: usize = 0;
    while i < n_valid
        invariant
            i <= n_valid <= v@.len(),
            out@.len() == i,
            forall|k: int|
                0 <= k < n_valid ==> v@[k].start <= v@[k].end && #[trigger] v@[k].end + off
                    <= usize::MAX,
            forall|k: int|
                0 <= k < i ==> #[trigger] out@[k] == (LuaMatch {
                    start: (v@[k].start + off) as usize,
                    end: (v@[k].end + off) as usize,
                    pos: v@[k].pos,
                }),
        decreases n_valid - i,
    {
        let sl: LuaMatch = v[i];
        proof {
            assert(v@[i as int].end + off <= usize::MAX);
        }
        out.push(LuaMatch { start: sl.start + off, end: sl.end + off, pos: sl.pos });
        i = i + 1;
    }
    out
}

/// Relies on str::get over a byte range: returns `Some` exactly when
/// the range is inside the string and both ends fall on character
/// boundaries, and then the slice holds exactly those bytes.
#[verifier::external_body]
fn str_slice_range<'t>(s: &'t str, start: usize, end: usize) -> (r: Option<&'t str>)
    ensures
        r matches Some(t) ==> start <= end <= s.spec_bytes().len() && t.spec_bytes()
            == s.spec_bytes().subrange(start as int, end as int),
        r is Some <==> (start <= end <= s.spec_bytes().len() && vstd::utf8::is_char_boundary(
            s.spec_bytes(),
            start as int,
        ) && vstd::utf8::is_char_boundary(s.spec_bytes(), end as int)),
{
    s.get(start..end)
}

impl<'a, const MAXCAPTURES: usize> Pattern<'a, MAXCAPTURES> {
    /// The pattern was validated for this capture capacity, and the
    /// recorded match count never exceeds the stored table.
    pub closed spec fn wf(&self) -> bool {
        &&& spec_check(self.patt@, MAXCAPTURES as int) == Ok::<(), Error>(())
        &&& self.patt@.len() < usize::MAX
        &&& self.n_match <= self.matches@.len()
        &&& self.n_match <= MAXCAPTURES
        &&& forall|i: int|
            0 <= i < self.n_match ==> #[trigger] self.matches@[i].start < usize::MAX
    }

    /// The pattern bytes.
    pub closed spec fn spec_pattern(&self) -> Seq<u8> {
        self.patt@
    }

    /// The capture table of the most recent match.
    pub closed spec fn spec_slots(&self) -> Seq<LuaMatch> {
        self.matches@
    }

    /// The number of valid slots: 0 after a failed match, otherwise
    /// 1 + the number of user captures.
    pub closed spec fn spec_n(&self) -> int {
        self.n_match as int
    }

    /// Validates the pattern bytes once; a handle is returned only for
    /// a pattern that passes every rule of the validator.
    pub fn try_from_bytes(bytes: &'a [u8]) -> (r: Result<Self, Error>)
        requires
            bytes@.len() < usize::MAX,
        ensures
            r matches Ok(pt) ==> pt.wf() && pt.spec_pattern() == bytes@ && pt.spec_n() == 0
                && spec_check(bytes@, MAXCAPTURES as int) == Ok::<(), Error>(()),
            r matches Err(e) ==> spec_check(bytes@, MAXCAPTURES as int) == Err::<(), Error>(e),
    {
        match str_check(bytes, MAXCAPTURES) {
            Err(e) => Err(e),
            Ok(u) => {
                proof {
                    assert(u == ());
                    assert(spec_check(bytes@, MAXCAPTURES as int) == Ok::<(), Error>(u));
                }
                Ok(Pattern { patt: bytes, matches: Vec::new(), n_match: 0 })
            },
        }
    }

    /// Validates a pattern given as a string slice.
    pub fn new(pattern: &'a str) -> (r: Result<Self, Error>)
        ensures
            r matches Ok(pt) ==> pt.wf() && pt.spec_pattern() == pattern.spec_bytes()
                && pt.spec_n() == 0 && spec_check(pattern.spec_bytes(), MAXCAPTURES as int) == Ok::<
                (),
                Error,
            >(()),
            r matches Err(e) ==> spec_check(pattern.spec_bytes(), MAXCAPTURES as int) == Err::<
                (),
                Error,
            >(e) || pattern.spec_bytes().len() == usize::MAX,
    {
        let bytes: &[u8] = pattern.as_bytes();
        proof {
            vstd::slice::axiom_spec_len::<u8>(bytes);
        }
        if bytes.len() == usize::MAX {
            // a subject or pattern of this length cannot arise; reject it
            // as over the capture machinery's addressing limit
            return Err(Error::TooComplex);
        }
        Pattern::try_from_bytes(bytes)
    }

    /// Runs the matcher against a byte subject, surfacing the run-time
    /// matcher errors (`TooComplex`, `TooManyCaptures`, `CapLen`). On
    /// `Ok(true)` the capture table holds the leftmost match (slot 0)
    /// and all user captures, each inside the subject and inside slot
    /// 0's range; otherwise `num_matches` is 0. An anchored pattern
    /// matches only at offset 0.
    pub fn try_matches_bytes(&mut self, s: &[u8]) -> (r: Result<bool, Error>)
        requires
            old(self).wf(),
            s@.len() < usize::MAX,
        ensures
            final(self).wf(),
            final(self).spec_pattern() == old(self).spec_pattern(),
            ({
                let res = spec_str_match_full(s@, old(self).spec_pattern(), MAXCAPTURES as int);
                &&& r matches Ok(true) ==> res == Ok::<Option<Seq<LuaMatch>>, Error>(
                    Some(final(self).spec_slots()),
                ) && final(self).spec_n() == final(self).spec_slots().len() && final(self).spec_n()
                    >= 1 && final(self).spec_n() <= MAXCAPTURES && slots_wf(
                    final(self).spec_slots(),
                    s@.len() as int,
                )
                &&& r matches Ok(false) ==> final(self).spec_n() == 0 && res == Ok::<
                    Option<Seq<LuaMatch>>,
                    Error,
                >(None) && spec_no_match_anywhere(s@, old(self).spec_pattern(), MAXCAPTURES as int)
                &&& r matches Err(e) ==> final(self).spec_n() == 0 && res == Err::<
                    Option<Seq<LuaMatch>>,
                    Error,
                >(e)
            }),
            r matches Ok(true) && old(self).spec_pattern().len() > 0 && old(self).spec_pattern()[0]
                == 94 ==> final(self).spec_slots()[0].start == 0,
    {
        let patt: &[u8] = self.patt;
        match str_match(s, patt, MAXCAPTURES) {
            Ok(Some(v)) => {
                self.n_match = v.len();
                self.matches = v;
                Ok(true)
            },
            Ok(None) => {
                self.n_match = 0;
                Ok(false)
            },
            Err(e) => {
                self.n_match = 0;
                Err(e)
            },
        }
    }

    /// Runs the matcher against a byte subject. On success the capture
    /// table holds the leftmost match (slot 0) and all user captures,
    /// each inside the subject and inside slot 0's range; on failure —
    /// and on a run-time matcher error — `num_matches` is 0. An
    /// anchored pattern matches only at offset 0.
    pub fn matches_bytes(&mut self, s: &[u8]) -> (b: bool)
        requires
            old(self).wf(),
            s@.len() < usize::MAX,
        ensures
            final(self).wf(),
            final(self).spec_pattern() == old(self).spec_pattern(),
            ({
                let res = spec_str_match_full(s@, old(self).spec_pattern(), MAXCAPTURES as int);
                &&& b ==> res == Ok::<Option<Seq<LuaMatch>>, Error>(Some(final(self).spec_slots()))
                    && final(self).spec_n() == final(self).spec_slots().len() && final(self).spec_n() >= 1 && final(self).spec_n() <= MAXCAPTURES && slots_wf(final(self).spec_slots(), s@.len() as int)
                &&& !b ==> final(self).spec_n() == 0 && !(res matches Ok(Some(_)))
                &&& (!b && res is Ok) ==> spec_no_match_anywhere(
                    s@,
                    old(self).spec_pattern(),
                    MAXCAPTURES as int,
                )
            }),
            b && old(self).spec_pattern().len() > 0 && old(self).spec_pattern()[0] == 94 ==> final(self).spec_slots()[0].start == 0,
    {
        match self.try_matches_bytes(s) {
            Ok(b) => b,
            Err(_) => false,
        }
    }

    /// Runs the matcher against a string subject, byte-oriented.
    pub fn matches(&mut self, text: &str) -> (b: bool)
        requires
            old(self).wf(),
            text.spec_bytes().len() < usize::MAX,
        ensures
            final(self).wf(),
            final(self).spec_pattern() == old(self).spec_pattern(),
            ({
                let res = spec_str_match_full(
                    text.spec_bytes(),
                    old(self).spec_pattern(),
                    MAXCAPTURES as int,
                );
                &&& b ==> res == Ok::<Option<Seq<LuaMatch>>, Error>(Some(final(self).spec_slots()))
                    && final(self).spec_n() == final(self).spec_slots().len() && final(self).spec_n() >= 1 && final(self).spec_n() <= MAXCAPTURES && slots_wf(final(self).spec_slots(), text.spec_bytes().len() as int)
                &&& !b ==> final(self).spec_n() == 0 && !(res matches Ok(Some(_)))
                &&& (!b && res is Ok) ==> spec_no_match_anywhere(
                    text.spec_bytes(),
                    old(self).spec_pattern(),
                    MAXCAPTURES as int,
                )
            }),
            b && old(self).spec_pattern().len() > 0 && old(self).spec_pattern()[0] == 94 ==> final(self).spec_slots()[0].start == 0,
    {
        let bytes: &[u8] = text.as_bytes();
        self.matches_bytes(bytes)
    }

    /// The number of valid capture slots of the most recent match: 0
    /// when it failed, otherwise 1 + the number of user captures.
    pub fn num_matches(&self) -> (n: usize)
        ensures
            n == self.spec_n(),
            self.wf() ==> n <= MAXCAPTURES,
    {
        self.n_match
    }

    /// The raw capture table, for the template applier.
    pub(crate) fn raw_slots(&self) -> (r: &Vec<LuaMatch>)
        ensures
            r@ == self.spec_slots(),
    {
        &self.matches
    }

    /// The raw slot count, for the template applier.
    pub(crate) fn raw_n(&self) -> (n: usize)
        requires
            self.wf(),
        ensures
            n == self.spec_n(),
            n <= self.spec_slots().len(),
            forall|i: int| 0 <= i < n ==> #[trigger] self.spec_slots()[i].start < usize::MAX,
    {
        self.n_match
    }

    /// The byte range of capture slot `i`; slot 0 is the whole match.
    /// Defined for `i < num_matches`; a position capture gives the
    /// empty range at its position.
    pub fn capture(&self, i: usize) -> (r: Range<usize>)
        requires
            self.wf(),
            i < self.spec_n(),
        ensures
            r.start == self.spec_slots()[i as int].start,
            r.end == self.spec_slots()[i as int].end,
    {
        Range { start: self.matches[i].start, end: self.matches[i].end }
    }

    /// The full match (same as `capture(0)`).
    pub fn range(&self) -> (r: Range<usize>)
        requires
            self.wf(),
            self.spec_n() >= 1,
        ensures
            r.start == self.spec_slots()[0].start,
            r.end == self.spec_slots()[0].end,
    {
        self.capture(0)
    }

    /// The matched text if the pattern matches: the first user capture
    /// when the pattern has captures, otherwise the whole match.
    /// `None` when there is no match, and also when the matched byte
    /// range does not fall on character boundaries of `text`.
    pub fn match_maybe<'t>(&mut self, text: &'t str) -> (r: Option<&'t str>)
        requires
            old(self).wf(),
            text.spec_bytes().len() < usize::MAX,
        ensures
            final(self).wf(),
            final(self).spec_pattern() == old(self).spec_pattern(),
            ({
                let res = spec_str_match_full(
                    text.spec_bytes(),
                    old(self).spec_pattern(),
                    MAXCAPTURES as int,
                );
                &&& !(res matches Ok(Some(_))) ==> r is None
                &&& r matches Some(t) ==> (res matches Ok(Some(v)) && {
                    let fc = if v.len() > 1 {
                        v[1]
                    } else {
                        v[0]
                    };
                    t.spec_bytes() == text.spec_bytes().subrange(
                        fc.start as int,
                        fc.end as int,
                    )
                })
                &&& (res matches Ok(Some(v)) && {
                    let fc = if v.len() > 1 {
                        v[1]
                    } else {
                        v[0]
                    };
                    vstd::utf8::is_char_boundary(text.spec_bytes(), fc.start as int)
                        && vstd::utf8::is_char_boundary(text.spec_bytes(), fc.end as int)
                }) ==> r is Some
            }),
    {
        if self.matches(text) {
            let rg: Range<usize> = self.first_capture();
            str_slice_range(text, rg.start, rg.end)
        } else {
            None
        }
    }

    /// The two captures of a two-capture pattern, or `None`: when the
    /// pattern does not match, when the match does not have exactly two
    /// user captures, or when a capture range does not fall on
    /// character boundaries.
    pub fn match_maybe_2<'t>(&mut self, text: &'t str) -> (r: Option<(&'t str, &'t str)>)
        requires
            old(self).wf(),
            text.spec_bytes().len() < usize::MAX,
        ensures
            final(self).wf(),
            final(self).spec_pattern() == old(self).spec_pattern(),
            ({
                let res = spec_str_match_full(
                    text.spec_bytes(),
                    old(self).spec_pattern(),
                    MAXCAPTURES as int,
                );
                &&& !(res matches Ok(Some(_))) ==> r is None
                &&& r matches Some(t) ==> (res matches Ok(Some(v)) && v.len() == 3
                    && t.0.spec_bytes() == text.spec_bytes().subrange(
                    v[1].start as int,
                    v[1].end as int,
                ) && t.1.spec_bytes() == text.spec_bytes().subrange(
                    v[2].start as int,
                    v[2].end as int,
                ))
                &&& res matches Ok(Some(v)) ==> ((v.len() == 3
                    && vstd::utf8::is_char_boundary(text.spec_bytes(), v[1].start as int)
                    && vstd::utf8::is_char_boundary(text.spec_bytes(), v[1].end as int)
                    && vstd::utf8::is_char_boundary(text.spec_bytes(), v[2].start as int)
                    && vstd::utf8::is_char_boundary(text.spec_bytes(), v[2].end as int)) ==> r
                    is Some)
            }),
    {
        if self.matches(text) {
            if self.n_match != 3 {
                return None;
            }
            let rg1: Range<usize> = self.capture(1);
            let rg2: Range<usize> = self.capture(2);
            match str_slice_range(text, rg1.start, rg1.end) {
                None => None,
                Some(t1) => match str_slice_range(text, rg2.start, rg2.end) {
                    None => None,
                    Some(t2) => Some((t1, t2)),
                },
            }
        } else {
            None
        }
    }

    /// The three captures of a three-capture pattern, under the same
    /// rules as `match_maybe_2`.
    pub fn match_maybe_3<'t>(&mut self, text: &'t str) -> (r: Option<(&'t str, &'t str, &'t str)>)
        requires
            old(self).wf(),
            text.spec_bytes().len() < usize::MAX,
        ensures
            final(self).wf(),
            final(self).spec_pattern() == old(self).spec_pattern(),
            ({
                let res = spec_str_match_full(
                    text.spec_bytes(),
                    old(self).spec_pattern(),
                    MAXCAPTURES as int,
                );
                &&& !(res matches Ok(Some(_))) ==> r is None
                &&& r matches Some(t) ==> (res matches Ok(Some(v)) && v.len() == 4
                    && t.0.spec_bytes() == text.spec_bytes().subrange(
                    v[1].start as int,
                    v[1].end as int,
                ) && t.1.spec_bytes() == text.spec_bytes().subrange(
                    v[2].start as int,
                    v[2].end as int,
                ) && t.2.spec_bytes() == text.spec_bytes().subrange(
                    v[3].start as int,
                    v[3].end as int,
                ))
                &&& res matches Ok(Some(v)) ==> ((v.len() == 4
                    && vstd::utf8::is_char_boundary(text.spec_bytes(), v[1].start as int)
                    && vstd::utf8::is_char_boundary(text.spec_bytes(), v[1].end as int)
                    && vstd::utf8::is_char_boundary(text.spec_bytes(), v[2].start as int)
                    && vstd::utf8::is_char_boundary(text.spec_bytes(), v[2].end as int)
                    && vstd::utf8::is_char_boundary(text.spec_bytes(), v[3].start as int)
                    && vstd::utf8::is_char_boundary(text.spec_bytes(), v[3].end as int)) ==> r
                    is Some)
            }),
    {
        if self.matches(text) {
            if self.n_match != 4 {
                return None;
            }
            let rg1: Range<usize> = self.capture(1);
            let rg2: Range<usize> = self.capture(2);
            let rg3: Range<usize> = self.capture(3);
            match str_slice_range(text, rg1.start, rg1.end) {
                None => None,
                Some(t1) => match str_slice_range(text, rg2.start, rg2.end) {
                    None => None,
                    Some(t2) => match str_slice_range(text, rg3.start, rg3.end) {
                        None => None,
                        Some(t3) => Some((t1, t2, t3)),
                    },
                },
            }
        } else {
            None
        }
    }

    /// Matches and fills `vec` with one slice per capture slot: slot 0
    /// first, then the user captures. A slot whose range does not fall
    /// on character boundaries is handed back as an empty slice.
    /// Returns whether the pattern matched.
    pub fn capture_into<'b>(&mut self, text: &'b str, vec: &mut Vec<&'b str>) -> (b: bool)
        requires
            old(self).wf(),
            text.spec_bytes().len() < usize::MAX,
        ensures
            final(self).wf(),
            final(self).spec_pattern() == old(self).spec_pattern(),
            b == (final(self).spec_n() > 0),
            final(vec)@.len() == final(self).spec_n(),
            forall|i: int|
                0 <= i < final(vec)@.len() ==> ({
                    let sl = final(self).spec_slots()[i];
                    (vstd::utf8::is_char_boundary(text.spec_bytes(), sl.start as int)
                        && vstd::utf8::is_char_boundary(text.spec_bytes(), sl.end as int)
                        && sl.start <= sl.end <= text.spec_bytes().len())
                        ==> #[trigger] final(vec)@[i].spec_bytes() == text.spec_bytes().subrange(
                        sl.start as int,
                        sl.end as int,
                    )
                }),
            ({
                let res = spec_str_match_full(
                    text.spec_bytes(),
                    old(self).spec_pattern(),
                    MAXCAPTURES as int,
                );
                &&& b ==> res == Ok::<Option<Seq<LuaMatch>>, Error>(Some(final(self).spec_slots()))
                    && final(self).spec_n() == final(self).spec_slots().len()
                &&& !b ==> !(res matches Ok(Some(_)))
            }),
    {
        let b: bool = self.matches(text);
        vec.clear();
        let mut i: usize = 0;
        while i < self.n_match
            invariant
                self.wf(),
                i <= self.spec_n(),
                vec@.len() == i,
                text.spec_bytes().len() < usize::MAX,
                forall|k: int|
                    0 <= k < i ==> ({
                        let sl = self.spec_slots()[k];
                        (vstd::utf8::is_char_boundary(text.spec_bytes(), sl.start as int)
                            && vstd::utf8::is_char_boundary(text.spec_bytes(), sl.end as int)
                            && sl.start <= sl.end <= text.spec_bytes().len()) ==> #[trigger] vec@[
                            k
                        ].spec_bytes() == text.spec_bytes().subrange(sl.start as int, sl.end as int)
                    }),
            decreases self.spec_n() - i,
        {
            let rg: Range<usize> = self.capture(i);
            match str_slice_range(text, rg.start, rg.end) {
                Some(t) => vec.push(t),
                None => vec.push(""),
            }
            i = i + 1;
        }
        b
    }

    /// Matches and returns the capture slices as a fresh vector, as
    /// `capture_into` fills it: empty exactly when the pattern does
    /// not match, otherwise one slice per slot of the match.
    pub fn captures<'b>(&mut self, text: &'b str) -> (r: Vec<&'b str>)
        requires
            old(self).wf(),
            text.spec_bytes().len() < usize::MAX,
        ensures
            final(self).wf(),
            final(self).spec_pattern() == old(self).spec_pattern(),
            r@.len() == final(self).spec_n(),
            ({
                let res = spec_str_match_full(
                    text.spec_bytes(),
                    old(self).spec_pattern(),
                    MAXCAPTURES as int,
                );
                &&& res matches Ok(Some(v)) ==> final(self).spec_slots() == v
                    && final(self).spec_n() == v.len() && r@.len() >= 1
                &&& !(res matches Ok(Some(_))) ==> final(self).spec_n() == 0 && r@.len() == 0
            }),
            forall|i: int|
                0 <= i < r@.len() ==> ({
                    let sl = final(self).spec_slots()[i];
                    (vstd::utf8::is_char_boundary(text.spec_bytes(), sl.start as int)
                        && vstd::utf8::is_char_boundary(text.spec_bytes(), sl.end as int)
                        && sl.start <= sl.end <= text.spec_bytes().len()) ==> #[trigger] r@[
                        i
                    ].spec_bytes() == text.spec_bytes().subrange(sl.start as int, sl.end as int)
                }),
    {
        let mut res: Vec<&'b str> = Vec::new();
        self.capture_into(text, &mut res);
        res
    }

    /// A snapshot of the current capture table, viewed over `text`.
    pub fn match_captures<'b, 'c>(&'c self, text: &'b str) -> (r: Captures<'b, MAXCAPTURES>)
        requires
            self.wf(),
        ensures
            r.wf(),
            r.spec_slots() == self.spec_slots(),
            r.spec_n() == self.spec_n(),
            r.spec_text() == text.spec_bytes(),
    {
        Captures { slots: copy_slots(&self.matches), n: self.n_match, text }
    }

    /// Iterates the successive matches of this pattern over `text`.
    pub fn gmatch<'b, 'c>(&'c mut self, text: &'b str) -> (r: GMatch<'a, 'b, MAXCAPTURES>)
        requires
            old(self).wf(),
            text.spec_bytes().len() < usize::MAX,
        ensures
            *final(self) == *old(self),
            r.wf(),
            r.spec_pattern() == old(self).spec_pattern(),
            r.spec_text() == text.spec_bytes(),
            r.spec_pos() == 0,
            !r.spec_done(),
    {
        GMatch { m: Pattern { patt: self.patt, matches: Vec::new(), n_match: 0 }, text, pos: 0, done: false }
    }

    /// Iterates the successive matches of this pattern over `text`,
    /// handing out a capture snapshot for each.
    pub fn gmatch_captures<'b, 'c>(&'c mut self, text: &'b str) -> (r: GMatchCaptures<
        'a,
        'b,
        MAXCAPTURES,
    >)
        requires
            old(self).wf(),
            text.spec_bytes().len() < usize::MAX,
        ensures
            *final(self) == *old(self),
            r.wf(),
            r.spec_pattern() == old(self).spec_pattern(),
            r.spec_text() == text.spec_bytes(),
            r.spec_pos() == 0,
            !r.spec_done(),
    {
        GMatchCaptures {
            m: Pattern { patt: self.patt, matches: Vec::new(), n_match: 0 },
            text,
            pos: 0,
            done: false,
        }
    }

    /// Iterates the successive matches of this pattern over a byte
    /// subject.
    pub fn gmatch_bytes<'b, 'c>(&'c mut self, bytes: &'b [u8]) -> (r: GMatchBytes<
        'a,
        'b,
        MAXCAPTURES,
    >)
        requires
            old(self).wf(),
            bytes@.len() < usize::MAX,
        ensures
            *final(self) == *old(self),
            r.wf(),
            r.spec_pattern() == old(self).spec_pattern(),
            r.spec_text() == bytes@,
            r.spec_pos() == 0,
            !r.spec_done(),
    {
        GMatchBytes { m: Pattern { patt: self.patt, matches: Vec::new(), n_match: 0 }, bytes, pos: 0, done: false }
    }

    /// The engine of global substitution: walks the subject, replacing
    /// each leftmost match by the rendered template, exactly as
    /// `spec_gsub_from` lays it out.
    fn gsub_items(&mut self, s: &[u8], items: &Vec<Subst>) -> (r: Result<Vec<u8>, Error>)
        requires
            old(self).wf(),
            s@.len() < usize::MAX,
        ensures
            final(self).wf(),
            final(self).spec_pattern() == old(self).spec_pattern(),
            r matches Ok(v) ==> spec_gsub_from(
                s@,
                old(self).spec_pattern(),
                items_view(items@),
                MAXCAPTURES as int,
                0,
            ) == Ok::<Seq<u8>, Error>(v@),
            r matches Err(e) ==> spec_gsub_from(
                s@,
                old(self).spec_pattern(),
                items_view(items@),
                MAXCAPTURES as int,
                0,
            ) == Err::<Seq<u8>, Error>(e),
    {
        let ghost p = self.patt@;
        let ghost iv = items_view(items@);
        let n: usize = s.len();
        let mut out: Vec<u8> = Vec::new();
        let mut from: usize = 0;
        loop
            invariant
                self.wf(),
                self.spec_pattern() == p,
                p == old(self).spec_pattern(),
                from <= n,
                n == s@.len() < usize::MAX,
                iv == items_view(items@),
                spec_gsub_from(s@, p, iv, MAXCAPTURES as int, from as int) matches Ok(rest)
                    ==> spec_gsub_from(s@, p, iv, MAXCAPTURES as int, 0) == Ok::<Seq<u8>, Error>(
                    out@ + rest,
                ),
                spec_gsub_from(s@, p, iv, MAXCAPTURES as int, from as int) matches Err(e)
                    ==> spec_gsub_from(s@, p, iv, MAXCAPTURES as int, 0) == Err::<Seq<u8>, Error>(
                    e,
                ),
            decreases s@.len() - from,
        {
            let tail: &[u8] = vstd::slice::slice_subrange(s, from, n);
            match self.try_matches_bytes(tail) {
                Err(e) => {
                    return Err(e);
                },
                Ok(false) => {
                    let ghost before = out@;
                    extend_bytes(&mut out, s, from, n);
                    proof {
                        assert(spec_gsub_from(s@, p, iv, MAXCAPTURES as int, from as int) == Ok::<
                            Seq<u8>,
                            Error,
                        >(tail@));
                        assert(before + tail@ =~= out@);
                    }
                    return Ok(out);
                },
                Ok(true) => {
                    let ghost v = self.spec_slots();
                    let all: Range<usize> = self.range();
                    let st: usize = from + all.start;
                    let e: usize = from + all.end;
                    let rep: Vec<u8> = apply_subst(items, &self.matches, self.n_match, tail);
                    let ghost before = out@;
                    extend_bytes(&mut out, s, from, st);
                    extend_vec(&mut out, &rep);
                    proof {
                        assert(s@.subrange(from as int, st as int) =~= tail@.subrange(
                            0,
                            all.start as int,
                        ));
                    }
                    if e == st {
                        if st == n {
                            proof {
                                assert(spec_gsub_from(s@, p, iv, MAXCAPTURES as int, from as int)
                                    == Ok::<Seq<u8>, Error>(
                                    s@.subrange(from as int, st as int) + rep@,
                                ));
                                assert(before + (s@.subrange(from as int, st as int) + rep@)
                                    =~= out@);
                            }
                            return Ok(out);
                        } else {
                            extend_bytes(&mut out, s, st, st + 1);
                            proof {
                                let g_next = spec_gsub_from(
                                    s@,
                                    p,
                                    iv,
                                    MAXCAPTURES as int,
                                    st + 1,
                                );
                                if let Ok(rest) = g_next {
                                    assert(spec_gsub_from(
                                        s@,
                                        p,
                                        iv,
                                        MAXCAPTURES as int,
                                        from as int,
                                    ) == Ok::<Seq<u8>, Error>(
                                        s@.subrange(from as int, st as int) + rep@ + s@.subrange(
                                            st as int,
                                            st + 1,
                                        ) + rest,
                                    ));
                                    assert(before + (s@.subrange(from as int, st as int) + rep@
                                        + s@.subrange(st as int, st + 1) + rest) =~= out@ + rest);
                                }
                            }
                            from = st + 1;
                        }
                    } else {
                        proof {
                            let g_next = spec_gsub_from(s@, p, iv, MAXCAPTURES as int, e as int);
                            if let Ok(rest) = g_next {
                                assert(spec_gsub_from(s@, p, iv, MAXCAPTURES as int, from as int)
                                    == Ok::<Seq<u8>, Error>(
                                    s@.subrange(from as int, st as int) + rep@ + rest,
                                ));
                                assert(before + (s@.subrange(from as int, st as int) + rep@ + rest)
                                    =~= out@ + rest);
                            }
                        }
                        from = e;
                    }
                },
            }
        }
    }

    /// Global substitution with a compiled-on-the-spot template:
    /// replaces every leftmost match of this pattern in `text` by the
    /// rendering of `repl`, with the progress rule of `spec_gsub_from`.
    /// A run-time matcher error is returned as it arises. When the
    /// template is exactly the whole-match reference, the result is the
    /// subject itself. Invalid UTF-8 arising from byte-offset slicing
    /// is replaced, as `bytes_to_string_lossy` does.
    pub fn gsub(&mut self, text: &str, repl: &str) -> (r: Result<String, Error>)
        requires
            old(self).wf(),
            text.spec_bytes().len() < usize::MAX,
        ensures
            final(self).wf(),
            final(self).spec_pattern() == old(self).spec_pattern(),
            ({
                let items = spec_compile_from(repl.spec_bytes(), 0);
                let g = spec_gsub_from(
                    text.spec_bytes(),
                    old(self).spec_pattern(),
                    items,
                    MAXCAPTURES as int,
                    0,
                );
                &&& r matches Ok(out) ==> (g matches Ok(bs) && (vstd::utf8::valid_utf8(bs)
                    ==> vstd::utf8::encode_utf8(out@) == bs))
                &&& r matches Err(e) ==> g == Err::<Seq<u8>, Error>(e)
            }),
            r matches Ok(out) ==> (repl.spec_bytes() == seq![37u8, 48u8] ==> out@ == text@),
    {
        let items: Vec<Subst> = match generate_gsub_patterns(repl) {
            Ok(v) => v,
            Err(e) => {
                return Err(e);
            },
        };
        let tb: &[u8] = text.as_bytes();
        proof {
            vstd::slice::axiom_spec_len::<u8>(tb);
        }
        match self.gsub_items(tb, &items) {
            Err(e) => Err(e),
            Ok(v) => {
                let out: String = bytes_to_string_lossy(&v);
                proof {
                    broadcast use vstd::utf8::encode_utf8_valid_utf8, vstd::utf8::encode_utf8_decode_utf8;

                    let t = repl.spec_bytes();
                    if t == seq![37u8, 48u8] {
                        assert(vstd::utf8::valid_utf8(text.spec_bytes()));
                        assert(spec_esc_at(t, 0));
                        assert(spec_find_esc(t, 0) == Some(0int));
                        assert(spec_find_esc(t, 2) is None);
                        assert(t.subrange(2, 2) =~= Seq::<u8>::empty());
                        assert(spec_compile_from(t, 2) =~= seq![
                            SubstSpec::Lit(Seq::<u8>::empty()),
                        ]);
                        assert(spec_compile_from(t, 0) =~= seq![
                            SubstSpec::Cap(0),
                            SubstSpec::Lit(Seq::<u8>::empty()),
                        ]);
                        crate::replace::law_gsub_whole_match_identity(
                            text.spec_bytes(),
                            self.patt@,
                            MAXCAPTURES as int,
                            0,
                        );
                        assert(text.spec_bytes().subrange(
                            0,
                            text.spec_bytes().len() as int,
                        ) =~= text.spec_bytes());
                        assert(v@ == text.spec_bytes());
                        assert(vstd::utf8::encode_utf8(out@) == vstd::utf8::encode_utf8(text@));
                        assert(vstd::utf8::decode_utf8(vstd::utf8::encode_utf8(out@)) == out@);
                        assert(out@ == text@);
                    }
                }
                Ok(out)
            },
        }
    }

    /// Global substitution with a caller-supplied replacement function:
    /// walks the subject as `spec_gsub_shape` lays out, handing each
    /// leftmost match's captures — rebased onto the whole subject — to
    /// `lookup`, and splicing its result in place of the match. The
    /// result's bytes are exactly that shape for one replacement per
    /// match of `spec_gsub_matches`, the `k`-th being the encoding of
    /// a possible return of the lookup on the `k`-th match's captures;
    /// when the pattern does not match the subject at all, the result
    /// is the subject itself. Invalid UTF-8 arising from byte-offset
    /// slicing is replaced, as `bytes_to_string_lossy` does.
    #[verifier::rlimit(100)]
    #[verifier::spinoff_prover]
    pub fn gsub_with<'b, F: Fn(Captures<'b, MAXCAPTURES>) -> String>(
        &mut self,
        text: &'b str,
        lookup: F,
    ) -> (res: String)
        requires
            old(self).wf(),
            text.spec_bytes().len() < usize::MAX,
            forall|c: Captures<'b, MAXCAPTURES>| #[trigger] lookup.requires((c,)),
        ensures
            final(self).wf(),
            final(self).spec_pattern() == old(self).spec_pattern(),
            !(spec_str_match_full(
                text.spec_bytes(),
                old(self).spec_pattern(),
                MAXCAPTURES as int,
            ) matches Ok(Some(_))) ==> vstd::utf8::encode_utf8(res@) == text.spec_bytes(),
            exists|reps: Seq<Seq<u8>>|
                (vstd::utf8::valid_utf8(
                    #[trigger] spec_gsub_shape(
                        text.spec_bytes(),
                        old(self).spec_pattern(),
                        MAXCAPTURES as int,
                        0,
                        reps,
                        0,
                    ),
                ) ==> vstd::utf8::encode_utf8(res@) == spec_gsub_shape(
                    text.spec_bytes(),
                    old(self).spec_pattern(),
                    MAXCAPTURES as int,
                    0,
                    reps,
                    0,
                )) && reps.len() == spec_gsub_matches(
                    text.spec_bytes(),
                    old(self).spec_pattern(),
                    MAXCAPTURES as int,
                    0,
                ).len() && (forall|k: int|
                    0 <= k < reps.len() ==> exists|c: Captures<'b, MAXCAPTURES>, rv: String|
                        ({
                            let m = spec_gsub_matches(
                                text.spec_bytes(),
                                old(self).spec_pattern(),
                                MAXCAPTURES as int,
                                0,
                            )[k];
                            #[trigger] call_ensures(lookup, (c,), rv) && vstd::utf8::encode_utf8(
                                rv@,
                            ) == #[trigger] reps[k] && c.wf() && c.spec_text()
                                == text.spec_bytes() && c.spec_n() == m.1.len()
                                && c.spec_slots().len() == m.1.len() && (forall|i: int|
                                0 <= i < m.1.len() ==> #[trigger] c.spec_slots()[i].start == m.0
                                    + m.1[i].start && c.spec_slots()[i].end == m.0 + m.1[i].end
                                    && c.spec_slots()[i].pos == m.1[i].pos)
                        })),
    {
        let ghost p = self.patt@;
        let tb: &[u8] = text.as_bytes();
        proof {
            vstd::slice::axiom_spec_len::<u8>(tb);
        }
        let n: usize = tb.len();
        let mut out: Vec<u8> = Vec::new();
        let mut from: usize = 0;
        let ghost mut reps: Seq<Seq<u8>> = Seq::empty();
        let ghost mut mseq: Seq<(int, Seq<LuaMatch>)> = Seq::empty();
        proof {
            assert forall|future: Seq<Seq<u8>>|
                spec_gsub_shape(tb@, p, MAXCAPTURES as int, 0, reps + future, 0) == out@
                    + #[trigger] spec_gsub_shape(
                    tb@,
                    p,
                    MAXCAPTURES as int,
                    from as int,
                    reps + future,
                    reps.len() as int,
                ) by {
                assert(out@ + spec_gsub_shape(tb@, p, MAXCAPTURES as int, 0, reps + future, 0)
                    =~= spec_gsub_shape(tb@, p, MAXCAPTURES as int, 0, reps + future, 0));
            }
            assert(mseq + spec_gsub_matches(tb@, p, MAXCAPTURES as int, from as int)
                =~= spec_gsub_matches(tb@, p, MAXCAPTURES as int, 0));
        }
        loop
            invariant_except_break
                from <= n,
                from == 0 ==> out@ == Seq::<u8>::empty(),
                forall|future: Seq<Seq<u8>>|
                    spec_gsub_shape(tb@, p, MAXCAPTURES as int, 0, reps + future, 0) == out@
                        + #[trigger] spec_gsub_shape(
                        tb@,
                        p,
                        MAXCAPTURES as int,
                        from as int,
                        reps + future,
                        reps.len() as int,
                    ),
                spec_gsub_matches(tb@, p, MAXCAPTURES as int, 0) == mseq + spec_gsub_matches(
                    tb@,
                    p,
                    MAXCAPTURES as int,
                    from as int,
                ),
            invariant
                self.wf(),
                self.spec_pattern() == p,
                p == old(self).spec_pattern(),
                n == text.spec_bytes().len() < usize::MAX,
                tb@ == text.spec_bytes(),
                forall|c: Captures<'b, MAXCAPTURES>| #[trigger] lookup.requires((c,)),
                from > 0 ==> (spec_str_match_full(
                    text.spec_bytes(),
                    p,
                    MAXCAPTURES as int,
                ) matches Ok(Some(_))),
                mseq.len() == reps.len(),
                forall|k: int|
                    0 <= k < reps.len() ==> exists|c: Captures<'b, MAXCAPTURES>, rv: String|
                        #[trigger] call_ensures(lookup, (c,), rv) && vstd::utf8::encode_utf8(rv@)
                            == #[trigger] reps[k] && c.wf() && c.spec_text() == text.spec_bytes()
                            && c.spec_n() == mseq[k].1.len() && c.spec_slots().len()
                            == mseq[k].1.len() && (forall|i: int|
                            0 <= i < mseq[k].1.len() ==> #[trigger] c.spec_slots()[i].start
                                == mseq[k].0 + mseq[k].1[i].start && c.spec_slots()[i].end
                                == mseq[k].0 + mseq[k].1[i].end && c.spec_slots()[i].pos
                                == mseq[k].1[i].pos),
            ensures
                out@ == spec_gsub_shape(tb@, p, MAXCAPTURES as int, 0, reps, 0),
                mseq == spec_gsub_matches(tb@, p, MAXCAPTURES as int, 0),
                !(spec_str_match_full(tb@, p, MAXCAPTURES as int) matches Ok(Some(_))) ==> out@
                    == tb@,
            decreases n - from,
        {
            let tail: &[u8] = vstd::slice::slice_subrange(tb, from, n);
            let ghost before = out@;
            if !self.matches_bytes(tail) {
                extend_bytes(&mut out, tb, from, n);
                proof {
                    if from == 0 {
                        assert(tail@ =~= tb@);
                        assert(out@ =~= tb@);
                    }
                    assert(reps + Seq::<Seq<u8>>::empty() =~= reps);
                    assert(spec_gsub_shape(
                        tb@,
                        p,
                        MAXCAPTURES as int,
                        from as int,
                        reps,
                        reps.len() as int,
                    ) == tail@);
                    assert(before + tail@ =~= out@);
                    assert(out@ == spec_gsub_shape(tb@, p, MAXCAPTURES as int, 0, reps, 0));
                    assert(spec_gsub_matches(tb@, p, MAXCAPTURES as int, from as int)
                        =~= Seq::<(int, Seq<LuaMatch>)>::empty());
                    assert(mseq + Seq::<(int, Seq<LuaMatch>)>::empty() =~= mseq);
                }
                break;
            }
            proof {
                if from == 0 {
                    assert(tail@ =~= tb@);
                }
            }
            let ghost v = self.spec_slots();
            let all: Range<usize> = self.range();
            let st: usize = from + all.start;
            let e: usize = from + all.end;
            extend_bytes(&mut out, tb, from, st);
            proof {
                assert forall|i: int|
                    0 <= i < self.spec_n() implies v[i].start <= v[i].end && #[trigger] v[i].end
                    + from <= usize::MAX by {
                    if i >= 1 {
                        assert(v[0].start <= v[i].start);
                    }
                }
            }
            let caps: Captures<'b, MAXCAPTURES> = Captures {
                slots: shift_slots(&self.matches, self.n_match, from),
                n: self.n_match,
                text,
            };
            let ghost gc = caps;
            let repl: String = lookup(caps);
            let rbs: &[u8] = repl.as_str().as_bytes();
            proof {
                vstd::slice::axiom_spec_len::<u8>(rbs);
            }
            let ghost rb: Seq<u8> = rbs@;
            extend_bytes(&mut out, rbs, 0, rbs.len());
            proof {
                assert(out@ =~= before + tb@.subrange(from as int, st as int) + rb);
            }
            let ghost from0: int = from as int;
            let ghost old_reps = reps;
            let ghost old_mseq = mseq;
            proof {
                reps = reps.push(rb);
                mseq = mseq.push((from0, v));
                assert(old_reps + seq![rb] =~= reps);
                assert(old_mseq + seq![(from0, v)] =~= mseq);
                assert(call_ensures(lookup, (gc,), repl));
                assert(vstd::utf8::encode_utf8(repl@) == rb);
                assert(gc.wf() && gc.spec_text() == text.spec_bytes() && gc.spec_n() == v.len()
                    && gc.spec_slots().len() == v.len());
                assert forall|k: int|
                    0 <= k < reps.len() implies exists|c: Captures<'b, MAXCAPTURES>, rv: String|
                    #[trigger] call_ensures(lookup, (c,), rv) && vstd::utf8::encode_utf8(rv@)
                        == #[trigger] reps[k] && c.wf() && c.spec_text() == text.spec_bytes()
                        && c.spec_n() == mseq[k].1.len() && c.spec_slots().len()
                        == mseq[k].1.len() && (forall|i: int|
                        0 <= i < mseq[k].1.len() ==> #[trigger] c.spec_slots()[i].start
                            == mseq[k].0 + mseq[k].1[i].start && c.spec_slots()[i].end == mseq[k].0
                            + mseq[k].1[i].end && c.spec_slots()[i].pos == mseq[k].1[i].pos) by {
                    if k < old_reps.len() {
                        assert(exists|c: Captures<'b, MAXCAPTURES>, rv: String|
                            #[trigger] call_ensures(lookup, (c,), rv) && vstd::utf8::encode_utf8(
                                rv@,
                            ) == #[trigger] old_reps[k] && c.wf() && c.spec_text()
                                == text.spec_bytes() && c.spec_n() == old_mseq[k].1.len()
                                && c.spec_slots().len() == old_mseq[k].1.len() && (forall|i: int|
                                0 <= i < old_mseq[k].1.len() ==> #[trigger] c.spec_slots()[i].start
                                    == old_mseq[k].0 + old_mseq[k].1[i].start
                                    && c.spec_slots()[i].end == old_mseq[k].0
                                    + old_mseq[k].1[i].end && c.spec_slots()[i].pos
                                    == old_mseq[k].1[i].pos));
                        let (c0, rv0) = choose|c: Captures<'b, MAXCAPTURES>, rv: String|
                            call_ensures(lookup, (c,), rv) && vstd::utf8::encode_utf8(rv@)
                                == old_reps[k] && c.wf() && c.spec_text() == text.spec_bytes()
                                && c.spec_n() == old_mseq[k].1.len() && c.spec_slots().len()
                                == old_mseq[k].1.len() && (forall|i: int|
                                0 <= i < old_mseq[k].1.len() ==> #[trigger] c.spec_slots()[i].start
                                    == old_mseq[k].0 + old_mseq[k].1[i].start
                                    && c.spec_slots()[i].end == old_mseq[k].0
                                    + old_mseq[k].1[i].end && c.spec_slots()[i].pos
                                    == old_mseq[k].1[i].pos);
                        assert(call_ensures(lookup, (c0,), rv0) && vstd::utf8::encode_utf8(rv0@)
                            == reps[k] && c0.wf() && c0.spec_text() == text.spec_bytes()
                            && c0.spec_n() == mseq[k].1.len() && c0.spec_slots().len()
                            == mseq[k].1.len());
                    } else {
                        assert(reps[k] == rb && mseq[k] == (from0, v));
                        assert(call_ensures(lookup, (gc,), repl) && vstd::utf8::encode_utf8(repl@)
                            == reps[k]);
                    }
                }
            }
            if e == st {
                if st == n {
                    proof {
                        assert((old_reps + seq![rb])[old_reps.len() as int] == rb);
                        assert(spec_gsub_shape(
                            tb@,
                            p,
                            MAXCAPTURES as int,
                            from0,
                            old_reps + seq![rb],
                            old_reps.len() as int,
                        ) == tb@.subrange(from0, st as int) + rb);
                        assert(before + (tb@.subrange(from0, st as int) + rb) =~= out@);
                        assert(out@ == spec_gsub_shape(tb@, p, MAXCAPTURES as int, 0, reps, 0));
                        assert(spec_gsub_matches(tb@, p, MAXCAPTURES as int, from0)
                            =~= seq![(from0, v)]);
                        assert(old_mseq + seq![(from0, v)] =~= mseq);
                    }
                    break;
                }
                extend_bytes(&mut out, tb, st, st + 1);
                proof {
                    assert(spec_gsub_matches(tb@, p, MAXCAPTURES as int, from0) == seq![
                        (from0, v),
                    ] + spec_gsub_matches(tb@, p, MAXCAPTURES as int, st + 1));
                    assert(old_mseq + (seq![(from0, v)] + spec_gsub_matches(
                        tb@,
                        p,
                        MAXCAPTURES as int,
                        st + 1,
                    )) =~= mseq + spec_gsub_matches(tb@, p, MAXCAPTURES as int, st + 1));
                    assert forall|future: Seq<Seq<u8>>|
                        spec_gsub_shape(tb@, p, MAXCAPTURES as int, 0, reps + future, 0) == out@
                            + #[trigger] spec_gsub_shape(
                            tb@,
                            p,
                            MAXCAPTURES as int,
                            st + 1,
                            reps + future,
                            reps.len() as int,
                        ) by {
                        let fut2 = seq![rb] + future;
                        assert(reps + future =~= old_reps + fut2);
                        assert((old_reps + fut2)[old_reps.len() as int] == rb);
                        let x = spec_gsub_shape(
                            tb@,
                            p,
                            MAXCAPTURES as int,
                            st + 1,
                            old_reps + fut2,
                            old_reps.len() as int + 1,
                        );
                        assert(spec_gsub_shape(
                            tb@,
                            p,
                            MAXCAPTURES as int,
                            from0,
                            old_reps + fut2,
                            old_reps.len() as int,
                        ) == tb@.subrange(from0, st as int) + rb + tb@.subrange(
                            st as int,
                            st + 1,
                        ) + x);
                        assert(before + (tb@.subrange(from0, st as int) + rb + tb@.subrange(
                            st as int,
                            st + 1,
                        ) + x) =~= out@ + x);
                    }
                }
                from = st + 1;
            } else {
                proof {
                    assert(spec_gsub_matches(tb@, p, MAXCAPTURES as int, from0) == seq![
                        (from0, v),
                    ] + spec_gsub_matches(tb@, p, MAXCAPTURES as int, e as int));
                    assert(old_mseq + (seq![(from0, v)] + spec_gsub_matches(
                        tb@,
                        p,
                        MAXCAPTURES as int,
                        e as int,
                    )) =~= mseq + spec_gsub_matches(tb@, p, MAXCAPTURES as int, e as int));
                    assert forall|future: Seq<Seq<u8>>|
                        spec_gsub_shape(tb@, p, MAXCAPTURES as int, 0, reps + future, 0) == out@
                            + #[trigger] spec_gsub_shape(
                            tb@,
                            p,
                            MAXCAPTURES as int,
                            e as int,
                            reps + future,
                            reps.len() as int,
                        ) by {
                        let fut2 = seq![rb] + future;
                        assert(reps + future =~= old_reps + fut2);
                        assert((old_reps + fut2)[old_reps.len() as int] == rb);
                        let x = spec_gsub_shape(
                            tb@,
                            p,
                            MAXCAPTURES as int,
                            e as int,
                            old_reps + fut2,
                            old_reps.len() as int + 1,
                        );
                        assert(spec_gsub_shape(
                            tb@,
                            p,
                            MAXCAPTURES as int,
                            from0,
                            old_reps + fut2,
                            old_reps.len() as int,
                        ) == tb@.subrange(from0, st as int) + rb + x);
                        assert(before + (tb@.subrange(from0, st as int) + rb + x) =~= out@ + x);
                    }
                }
                from = e;
            }
        }
        let res: String = bytes_to_string_lossy(&out);
        proof {
            broadcast use vstd::utf8::encode_utf8_valid_utf8;

            if !(spec_str_match_full(
                text.spec_bytes(),
                old(self).spec_pattern(),
                MAXCAPTURES as int,
            ) matches Ok(Some(_))) {
                assert(out@ == text.spec_bytes());
                assert(vstd::utf8::valid_utf8(out@));
                assert(vstd::utf8::encode_utf8(res@) == text.spec_bytes());
            }
            let shape = spec_gsub_shape(
                text.spec_bytes(),
                old(self).spec_pattern(),
                MAXCAPTURES as int,
                0,
                reps,
                0,
            );
            assert(out@ == shape);
            if vstd::utf8::valid_utf8(shape) {
                assert(vstd::utf8::encode_utf8(res@) == shape);
            }
            assert(mseq == spec_gsub_matches(
                text.spec_bytes(),
                old(self).spec_pattern(),
                MAXCAPTURES as int,
                0,
            ));
        }
        res
    }

    /// Global substitution over a byte subject with a caller-supplied
    /// replacement function: walks the subject as `spec_gsub_shape`
    /// lays out, handing each leftmost match's captures over the
    /// searched tail to `lookup` and splicing its result in place of
    /// the match. The result is exactly that shape for one replacement
    /// per match of `spec_gsub_matches`, the `k`-th a possible return
    /// of the lookup on the `k`-th match's captures; when the pattern
    /// does not match the subject at all, the result is the subject
    /// itself.
    #[verifier::rlimit(100)]
    #[verifier::spinoff_prover]
    pub fn gsub_bytes_with<'b, F: Fn(ByteCaptures<'b, MAXCAPTURES>) -> Vec<u8>>(
        &mut self,
        bytes: &'b [u8],
        lookup: F,
    ) -> (res: Vec<u8>)
        requires
            old(self).wf(),
            bytes@.len() < usize::MAX,
            forall|c: ByteCaptures<'b, MAXCAPTURES>| #[trigger] lookup.requires((c,)),
        ensures
            final(self).wf(),
            final(self).spec_pattern() == old(self).spec_pattern(),
            !(spec_str_match_full(bytes@, old(self).spec_pattern(), MAXCAPTURES as int) matches Ok(
                Some(_),
            )) ==> res@ == bytes@,
            exists|reps: Seq<Seq<u8>>|
                res@ == #[trigger] spec_gsub_shape(
                    bytes@,
                    old(self).spec_pattern(),
                    MAXCAPTURES as int,
                    0,
                    reps,
                    0,
                ) && reps.len() == spec_gsub_matches(
                    bytes@,
                    old(self).spec_pattern(),
                    MAXCAPTURES as int,
                    0,
                ).len() && (forall|k: int|
                    0 <= k < reps.len() ==> exists|c: ByteCaptures<'b, MAXCAPTURES>, rv: Vec<u8>|
                        ({
                            let m = spec_gsub_matches(
                                bytes@,
                                old(self).spec_pattern(),
                                MAXCAPTURES as int,
                                0,
                            )[k];
                            #[trigger] call_ensures(lookup, (c,), rv) && rv@ == #[trigger] reps[k]
                                && c.wf() && c.spec_n() == m.1.len() && c.spec_slots() == m.1
                                && c.spec_text() == bytes@.subrange(m.0, bytes@.len() as int)
                        })),
    {
        let ghost p = self.patt@;
        let n: usize = bytes.len();
        let mut out: Vec<u8> = Vec::new();
        let mut from: usize = 0;
        let ghost mut reps: Seq<Seq<u8>> = Seq::empty();
        let ghost mut mseq: Seq<(int, Seq<LuaMatch>)> = Seq::empty();
        proof {
            assert forall|future: Seq<Seq<u8>>|
                spec_gsub_shape(bytes@, p, MAXCAPTURES as int, 0, reps + future, 0) == out@
                    + #[trigger] spec_gsub_shape(
                    bytes@,
                    p,
                    MAXCAPTURES as int,
                    from as int,
                    reps + future,
                    reps.len() as int,
                ) by {
                assert(out@ + spec_gsub_shape(bytes@, p, MAXCAPTURES as int, 0, reps + future, 0)
                    =~= spec_gsub_shape(bytes@, p, MAXCAPTURES as int, 0, reps + future, 0));
            }
            assert(mseq + spec_gsub_matches(bytes@, p, MAXCAPTURES as int, from as int)
                =~= spec_gsub_matches(bytes@, p, MAXCAPTURES as int, 0));
        }
        loop
            invariant_except_break
                from <= n,
                from == 0 ==> out@ == Seq::<u8>::empty(),
                forall|future: Seq<Seq<u8>>|
                    spec_gsub_shape(bytes@, p, MAXCAPTURES as int, 0, reps + future, 0) == out@
                        + #[trigger] spec_gsub_shape(
                        bytes@,
                        p,
                        MAXCAPTURES as int,
                        from as int,
                        reps + future,
                        reps.len() as int,
                    ),
                spec_gsub_matches(bytes@, p, MAXCAPTURES as int, 0) == mseq + spec_gsub_matches(
                    bytes@,
                    p,
                    MAXCAPTURES as int,
                    from as int,
                ),
            invariant
                self.wf(),
                self.spec_pattern() == p,
                p == old(self).spec_pattern(),
                n == bytes@.len() < usize::MAX,
                forall|c: ByteCaptures<'b, MAXCAPTURES>| #[trigger] lookup.requires((c,)),
                from > 0 ==> (spec_str_match_full(bytes@, p, MAXCAPTURES as int) matches Ok(
                    Some(_),
                )),
                mseq.len() == reps.len(),
                forall|k: int|
                    0 <= k < reps.len() ==> exists|c: ByteCaptures<'b, MAXCAPTURES>, rv: Vec<u8>|
                        call_ensures(lookup, (c,), rv) && rv@ == #[trigger] reps[k] && c.wf()
                            && c.spec_n() == mseq[k].1.len() && c.spec_slots() == mseq[k].1
                            && c.spec_text() == bytes@.subrange(mseq[k].0, bytes@.len() as int),
            ensures
                out@ == spec_gsub_shape(bytes@, p, MAXCAPTURES as int, 0, reps, 0),
                mseq == spec_gsub_matches(bytes@, p, MAXCAPTURES as int, 0),
                !(spec_str_match_full(bytes@, p, MAXCAPTURES as int) matches Ok(Some(_)))
                    ==> out@ == bytes@,
            decreases n - from,
        {
            let tail: &'b [u8] = vstd::slice::slice_subrange(bytes, from, n);
            let ghost before = out@;
            if !self.matches_bytes(tail) {
                extend_bytes(&mut out, bytes, from, n);
                proof {
                    if from == 0 {
                        assert(tail@ =~= bytes@);
                        assert(out@ =~= bytes@);
                    }
                    assert(reps + Seq::<Seq<u8>>::empty() =~= reps);
                    assert(spec_gsub_shape(
                        bytes@,
                        p,
                        MAXCAPTURES as int,
                        from as int,
                        reps,
                        reps.len() as int,
                    ) == tail@);
                    assert(before + tail@ =~= out@);
                    assert(out@ == spec_gsub_shape(bytes@, p, MAXCAPTURES as int, 0, reps, 0));
                    assert(spec_gsub_matches(bytes@, p, MAXCAPTURES as int, from as int)
                        =~= Seq::<(int, Seq<LuaMatch>)>::empty());
                    assert(mseq + Seq::<(int, Seq<LuaMatch>)>::empty() =~= mseq);
                }
                break;
            }
            proof {
                if from == 0 {
                    assert(tail@ =~= bytes@);
                }
            }
            let ghost v = self.spec_slots();
            let all: Range<usize> = self.range();
            let st: usize = from + all.start;
            let e: usize = from + all.end;
            extend_bytes(&mut out, bytes, from, st);
            let caps: ByteCaptures<'b, MAXCAPTURES> = ByteCaptures {
                slots: copy_slots(&self.matches),
                n: self.n_match,
                bytes: tail,
            };
            let ghost gc = caps;
            let repl: Vec<u8> = lookup(caps);
            let ghost rb: Seq<u8> = repl@;
            extend_vec(&mut out, &repl);
            let ghost from0: int = from as int;
            let ghost old_reps = reps;
            let ghost old_mseq = mseq;
            proof {
                reps = reps.push(rb);
                mseq = mseq.push((from0, v));
                assert(old_reps + seq![rb] =~= reps);
                assert(old_mseq + seq![(from0, v)] =~= mseq);
                assert(gc.wf() && gc.spec_n() == v.len() && gc.spec_slots() == v && gc.spec_text()
                    == bytes@.subrange(from0, bytes@.len() as int));
                assert forall|k: int|
                    0 <= k < reps.len() implies exists|
                    c: ByteCaptures<'b, MAXCAPTURES>,
                    rv: Vec<u8>,
                |
                    call_ensures(lookup, (c,), rv) && rv@ == #[trigger] reps[k] && c.wf()
                        && c.spec_n() == mseq[k].1.len() && c.spec_slots() == mseq[k].1
                        && c.spec_text() == bytes@.subrange(mseq[k].0, bytes@.len() as int) by {
                    if k < old_reps.len() {
                        assert(exists|c: ByteCaptures<'b, MAXCAPTURES>, rv: Vec<u8>|
                            call_ensures(lookup, (c,), rv) && rv@ == #[trigger] old_reps[k]
                                && c.wf() && c.spec_n() == old_mseq[k].1.len() && c.spec_slots()
                                == old_mseq[k].1 && c.spec_text() == bytes@.subrange(
                                old_mseq[k].0,
                                bytes@.len() as int,
                            ));
                        let (c0, rv0) = choose|c: ByteCaptures<'b, MAXCAPTURES>, rv: Vec<u8>|
                            call_ensures(lookup, (c,), rv) && rv@ == old_reps[k] && c.wf()
                                && c.spec_n() == old_mseq[k].1.len() && c.spec_slots()
                                == old_mseq[k].1 && c.spec_text() == bytes@.subrange(
                                old_mseq[k].0,
                                bytes@.len() as int,
                            );
                        assert(call_ensures(lookup, (c0,), rv0) && rv0@ == reps[k] && c0.wf()
                            && c0.spec_n() == mseq[k].1.len() && c0.spec_slots() == mseq[k].1
                            && c0.spec_text() == bytes@.subrange(mseq[k].0, bytes@.len() as int));
                    } else {
                        assert(reps[k] == rb && mseq[k] == (from0, v));
                        assert(call_ensures(lookup, (gc,), repl) && repl@ == reps[k]);
                    }
                }
            }
            if e == st {
                if st == n {
                    proof {
                        assert((old_reps + seq![rb])[old_reps.len() as int] == rb);
                        assert(spec_gsub_shape(
                            bytes@,
                            p,
                            MAXCAPTURES as int,
                            from0,
                            old_reps + seq![rb],
                            old_reps.len() as int,
                        ) == bytes@.subrange(from0, st as int) + rb);
                        assert(before + (bytes@.subrange(from0, st as int) + rb) =~= out@);
                        assert(out@ == spec_gsub_shape(bytes@, p, MAXCAPTURES as int, 0, reps, 0));
                        assert(spec_gsub_matches(bytes@, p, MAXCAPTURES as int, from0)
                            =~= seq![(from0, v)]);
                        assert(old_mseq + seq![(from0, v)] =~= mseq);
                    }
                    break;
                }
                extend_bytes(&mut out, bytes, st, st + 1);
                proof {
                    assert(spec_gsub_matches(bytes@, p, MAXCAPTURES as int, from0) == seq![
                        (from0, v),
                    ] + spec_gsub_matches(bytes@, p, MAXCAPTURES as int, st + 1));
                    assert(old_mseq + (seq![(from0, v)] + spec_gsub_matches(
                        bytes@,
                        p,
                        MAXCAPTURES as int,
                        st + 1,
                    )) =~= mseq + spec_gsub_matches(bytes@, p, MAXCAPTURES as int, st + 1));
                    assert forall|future: Seq<Seq<u8>>|
                        spec_gsub_shape(bytes@, p, MAXCAPTURES as int, 0, reps + future, 0) == out@
                            + #[trigger] spec_gsub_shape(
                            bytes@,
                            p,
                            MAXCAPTURES as int,
                            st + 1,
                            reps + future,
                            reps.len() as int,
                        ) by {
                        let fut2 = seq![rb] + future;
                        assert(reps + future =~= old_reps + fut2);
                        assert((old_reps + fut2)[old_reps.len() as int] == rb);
                        let x = spec_gsub_shape(
                            bytes@,
                            p,
                            MAXCAPTURES as int,
                            st + 1,
                            old_reps + fut2,
                            old_reps.len() as int + 1,
                        );
                        assert(spec_gsub_shape(
                            bytes@,
                            p,
                            MAXCAPTURES as int,
                            from0,
                            old_reps + fut2,
                            old_reps.len() as int,
                        ) == bytes@.subrange(from0, st as int) + rb + bytes@.subrange(
                            st as int,
                            st + 1,
                        ) + x);
                        assert(before + (bytes@.subrange(from0, st as int) + rb + bytes@.subrange(
                            st as int,
                            st + 1,
                        ) + x) =~= out@ + x);
                    }
                }
                from = st + 1;
            } else {
                proof {
                    assert(spec_gsub_matches(bytes@, p, MAXCAPTURES as int, from0) == seq![
                        (from0, v),
                    ] + spec_gsub_matches(bytes@, p, MAXCAPTURES as int, e as int));
                    assert(old_mseq + (seq![(from0, v)] + spec_gsub_matches(
                        bytes@,
                        p,
                        MAXCAPTURES as int,
                        e as int,
                    )) =~= mseq + spec_gsub_matches(bytes@, p, MAXCAPTURES as int, e as int));
                    assert forall|future: Seq<Seq<u8>>|
                        spec_gsub_shape(bytes@, p, MAXCAPTURES as int, 0, reps + future, 0) == out@
                            + #[trigger] spec_gsub_shape(
                            bytes@,
                            p,
                            MAXCAPTURES as int,
                            e as int,
                            reps + future,
                            reps.len() as int,
                        ) by {
                        let fut2 = seq![rb] + future;
                        assert(reps + future =~= old_reps + fut2);
                        assert((old_reps + fut2)[old_reps.len() as int] == rb);
                        let x = spec_gsub_shape(
                            bytes@,
                            p,
                            MAXCAPTURES as int,
                            e as int,
                            old_reps + fut2,
                            old_reps.len() as int + 1,
                        );
                        assert(spec_gsub_shape(
                            bytes@,
                            p,
                            MAXCAPTURES as int,
                            from0,
                            old_reps + fut2,
                            old_reps.len() as int,
                        ) == bytes@.subrange(from0, st as int) + rb + x);
                        assert(before + (bytes@.subrange(from0, st as int) + rb + x) =~= out@ + x);
                    }
                }
                from = e;
            }
        }
        proof {
            assert(out@ == spec_gsub_shape(
                bytes@,
                old(self).spec_pattern(),
                MAXCAPTURES as int,
                0,
                reps,
                0,
            ));
            assert(mseq == spec_gsub_matches(
                bytes@,
                old(self).spec_pattern(),
                MAXCAPTURES as int,
                0,
            ));
        }
        out
    }

    /// The first user capture if there is one, otherwise the whole
    /// match.
    pub fn first_capture(&self) -> (r: Range<usize>)
        requires
            self.wf(),
            self.spec_n() >= 1,
        ensures
            ({
                let idx: int = if self.spec_n() > 1 {
                    1
                } else {
                    0
                };
                r.start == self.spec_slots()[idx].start && r.end == self.spec_slots()[idx].end
            }),
    {
        let idx: usize = if self.n_match > 1 {
            1
        } else {
            0
        };
        self.capture(idx)
    }
}

/// The capture table of a pattern's most recent match, viewed over a
/// string subject. It owns a snapshot of the slots, so it outlives the
/// pattern handle's next match.
pub struct Captures<'b, const MAXCAPTURES: usize> {
    slots: Vec<LuaMatch>,
    n: usize,
    text: &'b str,
}

impl<'b, const MAXCAPTURES: usize> Captures<'b, MAXCAPTURES> {
    /// The recorded count never exceeds the snapshot, nor the capture
    /// capacity.
    pub closed spec fn wf(&self) -> bool {
        self.n <= self.slots@.len() && self.n <= MAXCAPTURES
    }

    /// The slots of the viewed capture table.
    pub closed spec fn spec_slots(&self) -> Seq<LuaMatch> {
        self.slots@
    }

    /// The number of valid slots.
    pub closed spec fn spec_n(&self) -> int {
        self.n as int
    }

    /// The subject bytes the ranges refer to.
    pub closed spec fn spec_text(&self) -> Seq<u8> {
        self.text.spec_bytes()
    }

    /// Capture `i` as a string slice; the empty string when `i` is not
    /// a valid slot, or when the slot's range does not fit the subject
    /// or does not fall on character boundaries. Total, so a
    /// replacement function may call it on any captures value.
    pub fn get(&self, i: usize) -> (r: &'b str)
        ensures
            self.wf() && i < self.spec_n() ==> ({
                let sl = self.spec_slots()[i as int];
                if (sl.start <= sl.end <= self.spec_text().len()
                    && vstd::utf8::is_char_boundary(self.spec_text(), sl.start as int)
                    && vstd::utf8::is_char_boundary(self.spec_text(), sl.end as int)) {
                    r.spec_bytes() == self.spec_text().subrange(sl.start as int, sl.end as int)
                } else {
                    r.spec_bytes() == Seq::<u8>::empty()
                }
            }),
            !(self.wf() && i < self.spec_n()) ==> r.spec_bytes() == Seq::<u8>::empty(),
    {
        if i < self.n && self.n <= self.slots.len() && self.n <= MAXCAPTURES {
            let sl: LuaMatch = self.slots[i];
            match str_slice_range(self.text, sl.start, sl.end) {
                Some(t) => t,
                None => {
                    let r: &'b str = "";
                    proof {
                        reveal_strlit("");
                        assert(r@ =~= Seq::<char>::empty());
                        assert(r.spec_bytes() =~= Seq::<u8>::empty());
                    }
                    r
                },
            }
        } else {
            let r: &'b str = "";
            proof {
                reveal_strlit("");
                assert(r@ =~= Seq::<char>::empty());
                assert(r.spec_bytes() =~= Seq::<u8>::empty());
            }
            r
        }
    }

    /// The number of valid slots: 0, or 1 + the number of user
    /// captures; never more than the capture capacity.
    pub fn num_matches(&self) -> (n: usize)
        ensures
            n == self.spec_n(),
            self.wf() ==> n <= MAXCAPTURES,
    {
        self.n
    }
}

/// The capture table of a pattern's most recent match, viewed over a
/// byte subject.
pub struct ByteCaptures<'b, const MAXCAPTURES: usize> {
    slots: Vec<LuaMatch>,
    n: usize,
    bytes: &'b [u8],
}

impl<'b, const MAXCAPTURES: usize> ByteCaptures<'b, MAXCAPTURES> {
    /// The recorded count never exceeds the snapshot, nor the capture
    /// capacity.
    pub closed spec fn wf(&self) -> bool {
        self.n <= self.slots@.len() && self.n <= MAXCAPTURES
    }

    /// The slots of the viewed capture table.
    pub closed spec fn spec_slots(&self) -> Seq<LuaMatch> {
        self.slots@
    }

    /// The number of valid slots.
    pub closed spec fn spec_n(&self) -> int {
        self.n as int
    }

    /// The subject bytes the ranges refer to.
    pub closed spec fn spec_text(&self) -> Seq<u8> {
        self.bytes@
    }

    /// Capture `i` as a byte slice; empty when `i` is not a valid slot
    /// or when the slot's range does not fit the subject. Total, so a
    /// replacement function may call it on any captures value.
    pub fn get(&self, i: usize) -> (r: &'b [u8])
        ensures
            self.wf() && i < self.spec_n() ==> ({
                let sl = self.spec_slots()[i as int];
                if sl.start <= sl.end <= self.spec_text().len() {
                    r@ == self.spec_text().subrange(sl.start as int, sl.end as int)
                } else {
                    r@ == Seq::<u8>::empty()
                }
            }),
            !(self.wf() && i < self.spec_n()) ==> r@ == Seq::<u8>::empty(),
    {
        if i < self.n && self.n <= self.slots.len() && self.n <= MAXCAPTURES {
            let sl: LuaMatch = self.slots[i];
            if sl.start <= sl.end && sl.end <= self.bytes.len() {
                vstd::slice::slice_subrange(self.bytes, sl.start, sl.end)
            } else {
                let e: &'b [u8] = vstd::slice::slice_subrange(self.bytes, 0, 0);
                proof {
                    assert(e@ =~= Seq::<u8>::empty());
                }
                e
            }
        } else {
            let e: &'b [u8] = vstd::slice::slice_subrange(self.bytes, 0, 0);
            proof {
                assert(e@ =~= Seq::<u8>::empty());
            }
            e
        }
    }

    /// The number of valid slots; never more than the capture
    /// capacity.
    pub fn num_matches(&self) -> (n: usize)
        ensures
            n == self.spec_n(),
            self.wf() ==> n <= MAXCAPTURES,
    {
        self.n
    }
}

/// Successive matches of a pattern over a string subject. Each call of
/// `next` searches the tail beginning at `pos`; zero-width matches
/// advance by one byte so that the iteration always makes progress.
pub struct GMatch<'a, 'b, const MAXCAPTURES: usize> {
    m: Pattern<'a, MAXCAPTURES>,
    text: &'b str,
    pos: usize,
    done: bool,
}

impl<'a, 'b, const MAXCAPTURES: usize> GMatch<'a, 'b, MAXCAPTURES> {
    /// The iterator's pattern handle is well formed and its position is
    /// inside the subject.
    pub closed spec fn wf(&self) -> bool {
        &&& self.m.wf()
        &&& self.pos <= self.text.spec_bytes().len()
        &&& self.text.spec_bytes().len() < usize::MAX
    }

    /// The pattern bytes.
    pub closed spec fn spec_pattern(&self) -> Seq<u8> {
        self.m.spec_pattern()
    }

    /// The subject bytes.
    pub closed spec fn spec_text(&self) -> Seq<u8> {
        self.text.spec_bytes()
    }

    /// The offset the next search starts from.
    pub closed spec fn spec_pos(&self) -> int {
        self.pos as int
    }

    /// Whether the iteration has ended.
    pub closed spec fn spec_done(&self) -> bool {
        self.done
    }

    /// The next match, as `match_maybe` would hand it out: the first
    /// user capture, or the whole match. The search position advances
    /// by at least one byte whenever a match is returned, and the
    /// match's start never lies before the old position, so successive
    /// starts are non-decreasing.
    pub fn next(&mut self) -> (r: Option<&'b str>)
        requires
            old(self).wf(),
        ensures
            final(self).wf(),
            final(self).spec_pattern() == old(self).spec_pattern(),
            final(self).spec_text() == old(self).spec_text(),
            final(self).spec_pos() >= old(self).spec_pos(),
            r is Some ==> (final(self).spec_pos() > old(self).spec_pos() || final(self).spec_done()),
            ({
                let tail = old(self).spec_text().subrange(
                    old(self).spec_pos(),
                    old(self).spec_text().len() as int,
                );
                let res = spec_str_match_full(tail, old(self).spec_pattern(), MAXCAPTURES as int);
                &&& (old(self).spec_done() || !(res matches Ok(Some(_)))) ==> r is None
                &&& r matches Some(t) ==> (res matches Ok(Some(v)) && {
                    let fc = if v.len() > 1 {
                        v[1]
                    } else {
                        v[0]
                    };
                    &&& t.spec_bytes() == old(self).spec_text().subrange(
                        old(self).spec_pos() + fc.start,
                        old(self).spec_pos() + fc.end,
                    )
                    &&& old(self).spec_pos() + v[0].start <= final(self).spec_pos()
                })
                &&& res matches Ok(Some(v)) ==> (!old(self).spec_done() ==> ({
                    let fc = if v.len() > 1 {
                        v[1]
                    } else {
                        v[0]
                    };
                    (vstd::utf8::is_char_boundary(
                        old(self).spec_text(),
                        old(self).spec_pos() + fc.start,
                    ) && vstd::utf8::is_char_boundary(
                        old(self).spec_text(),
                        old(self).spec_pos() + fc.end,
                    )) ==> r is Some
                }))
                &&& res matches Ok(Some(v)) ==> (r is Some ==> ({
                    &&& v[0].end > 0 ==> final(self).spec_pos() == old(self).spec_pos() + v[0].end
                        && !final(self).spec_done()
                    &&& (v[0].end == 0 && old(self).spec_pos() < old(self).spec_text().len())
                        ==> final(self).spec_pos() == old(self).spec_pos() + 1 && !final(self).spec_done()
                    &&& (v[0].end == 0 && old(self).spec_pos() == old(self).spec_text().len())
                        ==> final(self).spec_done() && final(self).spec_pos() == old(self).spec_pos()
                }))
            }),
    {
        if self.done {
            return None;
        }
        let bytes: &[u8] = self.text.as_bytes();
        let n: usize = bytes.len();
        let tail: &[u8] = vstd::slice::slice_subrange(bytes, self.pos, n);
        if !self.m.matches_bytes(tail) {
            self.done = true;
            return None;
        }
        let rg: Range<usize> = self.m.first_capture();
        let all: Range<usize> = self.m.range();
        let a: usize = self.pos + rg.start;
        let b2: usize = self.pos + rg.end;
        let out: Option<&'b str> = str_slice_range(self.text, a, b2);
        if all.end > 0 {
            self.pos = self.pos + all.end;
        } else {
            if self.pos < n {
                self.pos = self.pos + 1;
            } else {
                self.done = true;
            }
        }
        match out {
            Some(t) => Some(t),
            None => {
                self.done = true;
                None
            },
        }
    }
}

/// Successive matches of a pattern over a string subject, handing out
/// a capture snapshot for each match instead of the matched slice.
pub struct GMatchCaptures<'a, 'b, const MAXCAPTURES: usize> {
    m: Pattern<'a, MAXCAPTURES>,
    text: &'b str,
    pos: usize,
    done: bool,
}

impl<'a, 'b, const MAXCAPTURES: usize> GMatchCaptures<'a, 'b, MAXCAPTURES> {
    /// The iterator's pattern handle is well formed and its position is
    /// inside the subject.
    pub closed spec fn wf(&self) -> bool {
        &&& self.m.wf()
        &&& self.pos <= self.text.spec_bytes().len()
        &&& self.text.spec_bytes().len() < usize::MAX
    }

    /// The pattern bytes.
    pub closed spec fn spec_pattern(&self) -> Seq<u8> {
        self.m.spec_pattern()
    }

    /// The subject bytes.
    pub closed spec fn spec_text(&self) -> Seq<u8> {
        self.text.spec_bytes()
    }

    /// The offset the next search starts from.
    pub closed spec fn spec_pos(&self) -> int {
        self.pos as int
    }

    /// Whether the iteration has ended.
    pub closed spec fn spec_done(&self) -> bool {
        self.done
    }

    /// The captures of the next match, viewed over the whole subject:
    /// slot ranges are rebased from the searched tail onto the subject,
    /// so `get` reads the same bytes the match captured. A capture
    /// snapshot is handed out for every match; progress and ordering
    /// are as for `GMatch::next`.
    pub fn next(&mut self) -> (r: Option<Captures<'b, MAXCAPTURES>>)
        requires
            old(self).wf(),
        ensures
            final(self).wf(),
            final(self).spec_pattern() == old(self).spec_pattern(),
            final(self).spec_text() == old(self).spec_text(),
            final(self).spec_pos() >= old(self).spec_pos(),
            r is Some ==> (final(self).spec_pos() > old(self).spec_pos() || final(self).spec_done()),
            ({
                let tail = old(self).spec_text().subrange(
                    old(self).spec_pos(),
                    old(self).spec_text().len() as int,
                );
                let res = spec_str_match_full(tail, old(self).spec_pattern(), MAXCAPTURES as int);
                &&& r is None <==> (old(self).spec_done() || !(res matches Ok(Some(_))))
                &&& r matches Some(c) ==> (res matches Ok(Some(v)) && c.wf() && c.spec_n()
                    == v.len() && c.spec_text() == old(self).spec_text() && c.spec_slots().len()
                    == v.len() && (forall|i: int|
                    0 <= i < v.len() ==> #[trigger] c.spec_slots()[i].start == old(self).spec_pos()
                        + v[i].start && c.spec_slots()[i].end == old(self).spec_pos() + v[i].end
                        && c.spec_slots()[i].pos == v[i].pos))
                &&& res matches Ok(Some(v)) ==> (r is Some ==> ({
                    &&& v[0].end > 0 ==> final(self).spec_pos() == old(self).spec_pos() + v[0].end
                        && !final(self).spec_done()
                    &&& (v[0].end == 0 && old(self).spec_pos() < old(self).spec_text().len())
                        ==> final(self).spec_pos() == old(self).spec_pos() + 1 && !final(self).spec_done()
                    &&& (v[0].end == 0 && old(self).spec_pos() == old(self).spec_text().len())
                        ==> final(self).spec_done() && final(self).spec_pos() == old(self).spec_pos()
                }))
            }),
    {
        if self.done {
            return None;
        }
        let bytes: &[u8] = self.text.as_bytes();
        let n: usize = bytes.len();
        let tail: &[u8] = vstd::slice::slice_subrange(bytes, self.pos, n);
        if !self.m.matches_bytes(tail) {
            self.done = true;
            return None;
        }
        proof {
            let v = self.m.spec_slots();
            assert forall|i: int| 0 <= i < self.m.spec_n() implies v[i].start <= v[i].end && #[trigger] v[i].end
                + self.pos <= usize::MAX by {
                if i >= 1 {
                    assert(v[0].start <= v[i].start);
                }
            }
        }
        let caps: Captures<'b, MAXCAPTURES> = Captures {
            slots: shift_slots(&self.m.matches, self.m.n_match, self.pos),
            n: self.m.n_match,
            text: self.text,
        };
        let all: Range<usize> = self.m.range();
        if all.end > 0 {
            self.pos = self.pos + all.end;
        } else {
            if self.pos < n {
                self.pos = self.pos + 1;
            } else {
                self.done = true;
            }
        }
        Some(caps)
    }
}

/// Successive matches of a pattern over a byte subject.
pub struct GMatchBytes<'a, 'b, const MAXCAPTURES: usize> {
    m: Pattern<'a, MAXCAPTURES>,
    bytes: &'b [u8],
    pos: usize,
    done: bool,
}

impl<'a, 'b, const MAXCAPTURES: usize> GMatchBytes<'a, 'b, MAXCAPTURES> {
    /// The iterator's pattern handle is well formed and its position is
    /// inside the subject.
    pub closed spec fn wf(&self) -> bool {
        &&& self.m.wf()
        &&& self.pos <= self.bytes@.len()
        &&& self.bytes@.len() < usize::MAX
    }

    /// The pattern bytes.
    pub closed spec fn spec_pattern(&self) -> Seq<u8> {
        self.m.spec_pattern()
    }

    /// The subject bytes.
    pub closed spec fn spec_text(&self) -> Seq<u8> {
        self.bytes@
    }

    /// The offset the next search starts from.
    pub closed spec fn spec_pos(&self) -> int {
        self.pos as int
    }

    /// Whether the iteration has ended.
    pub closed spec fn spec_done(&self) -> bool {
        self.done
    }

    /// The next match, as a byte slice: the first user capture, or the
    /// whole match. Progress and ordering are as for `GMatch::next`.
    pub fn next(&mut self) -> (r: Option<&'b [u8]>)
        requires
            old(self).wf(),
        ensures
            final(self).wf(),
            final(self).spec_pattern() == old(self).spec_pattern(),
            final(self).spec_text() == old(self).spec_text(),
            final(self).spec_pos() >= old(self).spec_pos(),
            r is Some ==> (final(self).spec_pos() > old(self).spec_pos() || final(self).spec_done()),
            ({
                let tail = old(self).spec_text().subrange(
                    old(self).spec_pos(),
                    old(self).spec_text().len() as int,
                );
                let res = spec_str_match_full(tail, old(self).spec_pattern(), MAXCAPTURES as int);
                &&& r is None <==> (old(self).spec_done() || !(res matches Ok(Some(_))))
                &&& r matches Some(t) ==> (res matches Ok(Some(v)) && {
                    let fc = if v.len() > 1 {
                        v[1]
                    } else {
                        v[0]
                    };
                    &&& t@ == old(self).spec_text().subrange(
                        old(self).spec_pos() + fc.start,
                        old(self).spec_pos() + fc.end,
                    )
                    &&& old(self).spec_pos() + v[0].start <= final(self).spec_pos()
                })
                &&& res matches Ok(Some(v)) ==> (r is Some ==> ({
                    &&& v[0].end > 0 ==> final(self).spec_pos() == old(self).spec_pos() + v[0].end
                        && !final(self).spec_done()
                    &&& (v[0].end == 0 && old(self).spec_pos() < old(self).spec_text().len())
                        ==> final(self).spec_pos() == old(self).spec_pos() + 1 && !final(self).spec_done()
                    &&& (v[0].end == 0 && old(self).spec_pos() == old(self).spec_text().len())
                        ==> final(self).spec_done() && final(self).spec_pos() == old(self).spec_pos()
                }))
            }),
    {
        if self.done {
            return None;
        }
        let n: usize = self.bytes.len();
        let tail: &[u8] = vstd::slice::slice_subrange(self.bytes, self.pos, n);
        if !self.m.matches_bytes(tail) {
            self.done = true;
            return None;
        }
        let rg: Range<usize> = self.m.first_capture();
        let all: Range<usize> = self.m.range();
        let a: usize = self.pos + rg.start;
        let b2: usize = self.pos + rg.end;
        let out: &'b [u8] = vstd::slice::slice_subrange(self.bytes, a, b2);
        if all.end > 0 {
            self.pos = self.pos + all.end;
        } else {
            if self.pos < n {
                self.pos = self.pos + 1;
            } else {
                self.done = true;
            }
        }
        Some(out)
    }
}

} // verus!
