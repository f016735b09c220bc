use vstd::prelude::*;
use vstd::string::StringSliceAdditionalSpecFns;

use crate::engine::LuaMatch;
use crate::error::Error;

verus! {

/// One item of a compiled replacement template: a literal byte run, or
/// a reference to capture slot `i` (slot 0 is the whole match).
#[derive(Debug)]
pub enum Subst {
    Text(Vec<u8>),
    Capture(usize),
}

impl Subst {
    /// A literal item holding the bytes of `text`.
    pub fn new_text(text: &str) -> (r: Subst)
        ensures
            r@ == SubstSpec::Lit(text.spec_bytes()),
    {
        let tb: &[u8] = text.as_bytes();
        proof {
            vstd::slice::axiom_spec_len::<u8>(tb);
        }
        let mut v: Vec<u8> = Vec::new();
        extend_bytes(&mut v, tb, 0, tb.len());
        proof {
            assert(v@ =~= text.spec_bytes());
        }
        Subst::Text(v)
    }
}

/// The mathematical shape of a template item.
pub enum SubstSpec {
    Lit(Seq<u8>),
    Cap(int),
}

impl View for Subst {
    type V = SubstSpec;

    open spec fn view(&self) -> SubstSpec {
        match self {
            Subst::Text(v) => SubstSpec::Lit(v@),
            Subst::Capture(i) => SubstSpec::Cap(*i as int),
        }
    }
}

/// The items of a compiled template, one view per item.
pub open spec fn items_view(v: Seq<Subst>) -> Seq<SubstSpec> {
    v.map_values(|s: Subst| s@)
}

/// Whether a `%` escape that the template language knows begins at `i`:
/// `%%` or `%digit`. Any other `%` passes through as literal text.
pub open spec fn spec_esc_at(t: Seq<u8>, i: int) -> bool {
    t[i] == 37 && i + 1 < t.len() && (t[i + 1] == 37 || (48 <= t[i + 1] <= 57))
}

/// The first escape at or after `i`.
pub open spec fn spec_find_esc(t: Seq<u8>, i: int) -> Option<int>
    decreases t.len() - i,
    when 0 <= i <= t.len()
{
    if i >= t.len() {
        None
    } else if spec_esc_at(t, i) {
        Some(i)
    } else {
        spec_find_esc(t, i + 1)
    }
}

pub proof fn lemma_find_esc_bounds(t: Seq<u8>, i: int)
    requires
        0 <= i <= t.len(),
    ensures
        spec_find_esc(t, i) matches Some(j) ==> i <= j && j + 1 < t.len() && spec_esc_at(t, j),
    decreases t.len() - i,
{
    if i < t.len() && !spec_esc_at(t, i) {
        lemma_find_esc_bounds(t, i + 1);
    }
}

pub proof fn lemma_find_esc_skip(t: Seq<u8>, a: int, k: int)
    requires
        0 <= a <= k <= t.len(),
        forall|j: int| a <= j < k ==> !spec_esc_at(t, j),
    ensures
        spec_find_esc(t, a) == spec_find_esc(t, k),
    decreases k - a,
{
    if a < k {
        lemma_find_esc_skip(t, a + 1, k);
    }
}

/// The compiled form of the template tail `t[i..]`: literal runs
/// between escapes, `%%` as a literal percent byte, `%n` as a capture
/// reference, and a (possibly empty) trailing literal.
pub open spec fn spec_compile_from(t: Seq<u8>, i: int) -> Seq<SubstSpec>
    decreases t.len() - i,
    when 0 <= i <= t.len()
    via spec_compile_from_dec
{
    match spec_find_esc(t, i) {
        None => seq![SubstSpec::Lit(t.subrange(i, t.len() as int))],
        Some(j) => {
            let pre: Seq<SubstSpec> = if j > i {
                seq![SubstSpec::Lit(t.subrange(i, j))]
            } else {
                Seq::empty()
            };
            let item: SubstSpec = if t[j + 1] == 37 {
                SubstSpec::Lit(seq![37u8])
            } else {
                SubstSpec::Cap(t[j + 1] - 48)
            };
            pre + seq![item] + spec_compile_from(t, j + 2)
        },
    }
}

#[via_fn]
proof fn spec_compile_from_dec(t: Seq<u8>, i: int) {
    if 0 <= i <= t.len() {
        lemma_find_esc_bounds(t, i);
    }
}

/// The decimal digits of `n`, most significant first.
pub open spec fn spec_dec(n: int) -> Seq<u8>
    decreases n,
    when n >= 0
{
    if n < 10 {
        seq![(48 + n) as u8]
    } else {
        spec_dec(n / 10).push((48 + n % 10) as u8)
    }
}

/// Builds the decimal digits of `n`.
pub fn dec_digits(n: usize) -> (r: Vec<u8>)
    ensures
        r@ == spec_dec(n as int),
    decreases n,
{
    if n < 10 {
        let mut v: Vec<u8> = Vec::new();
        v.push(48 + (n as u8));
        proof {
            assert(v@ =~= spec_dec(n as int));
        }
        v
    } else {
        proof {
            assert(n / 10 < n) by (nonlinear_arith)
                requires
                    n >= 10,
            ;
        }
        let mut v: Vec<u8> = dec_digits(n / 10);
        v.push(48 + ((n % 10) as u8));
        v
    }
}

/// What one capture reference renders as: the slot's bytes of the
/// subject, the decimal of a position capture's 1-based position, and
/// the empty sequence for a reference outside the valid slots.
pub open spec fn spec_render(i: int, slots: Seq<LuaMatch>, n: int, s: Seq<u8>) -> Seq<u8> {
    if 0 <= i < n && i < slots.len() {
        let sl = slots[i];
        if sl.pos {
            spec_dec(sl.start + 1)
        } else if sl.start <= sl.end <= s.len() {
            s.subrange(sl.start as int, sl.end as int)
        } else {
            Seq::empty()
        }
    } else {
        Seq::empty()
    }
}

/// Applying the items from index `k` on to a match over subject `s`
/// with `n` valid slots: the concatenation of each item's rendering.
pub open spec fn spec_apply_from(
    items: Seq<SubstSpec>,
    k: int,
    slots: Seq<LuaMatch>,
    n: int,
    s: Seq<u8>,
) -> Seq<u8>
    decreases items.len() - k,
    when 0 <= k <= items.len()
{
    if k >= items.len() {
        Seq::empty()
    } else {
        let head: Seq<u8> = match items[k] {
            SubstSpec::Lit(b) => b,
            SubstSpec::Cap(i) => spec_render(i, slots, n, s),
        };
        head + spec_apply_from(items, k + 1, slots, n, s)
    }
}

/// Pushes `src[a..b]` onto `dst`.
pub fn extend_bytes(dst: &mut Vec<u8>, src: &[u8], a: usize, b: usize)
    requires
        a <= b <= src@.len(),
    ensures
        final(dst)@ == old(dst)@ + src@.subrange(a as int, b as int),
{
    let mut k: usize = a;
    while k < b
        invariant
            a <= k <= b <= src@.len(),
            dst@ == old(dst)@ + src@.subrange(a as int, k as int),
        decreases b - k,
    {
        let ghost before = dst@;
        dst.push(src[k]);
        proof {
            assert(dst@ =~= old(dst)@ + src@.subrange(a as int, k + 1));
        }
        k = k + 1;
    }
    proof {
        assert(dst@ =~= old(dst)@ + src@.subrange(a as int, b as int));
    }
}

/// Pushes the whole of `src` onto `dst`.
pub fn extend_vec(dst: &mut Vec<u8>, src: &Vec<u8>)
    ensures
        final(dst)@ == old(dst)@ + src@,
{
    let s: &[u8] = src.as_slice();
    proof {
        vstd::slice::axiom_spec_len::<u8>(s);
    }
    extend_bytes(dst, s, 0, s.len());
    proof {
        assert(old(dst)@ + src@.subrange(0, src@.len() as int) =~= old(dst)@ + src@);
    }
}

/// Renders one compiled template against the capture slots of a match
/// over the byte subject `s`.
pub fn apply_subst(items: &Vec<Subst>, slots: &Vec<LuaMatch>, n: usize, s: &[u8]) -> (r: Vec<u8>)
    requires
        n <= slots@.len(),
        forall|i: int|
            0 <= i < n ==> #[trigger] slots@[i].start <= usize::MAX - 1,
    ensures
        r@ == spec_apply_from(items_view(items@), 0, slots@, n as int, s@),
{
    let mut out: Vec<u8> = Vec::new();
    let mut k: usize = 0;
    while k < items.len()
        invariant
            k <= items@.len(),
            n <= slots@.len(),
            forall|i: int|
                0 <= i < n ==> #[trigger] slots@[i].start <= usize::MAX - 1,
            spec_apply_from(items_view(items@), 0, slots@, n as int, s@) == out@
                + spec_apply_from(items_view(items@), k as int, slots@, n as int, s@),
        decreases items@.len() - k,
    {
        let ghost before = out@;
        match &items[k] {
            Subst::Text(v) => {
                extend_vec(&mut out, v);
            },
            Subst::Capture(i) => {
                let i: usize = *i;
                if i < n {
                    let sl: LuaMatch = slots[i];
                    if sl.pos {
                        let mut d: Vec<u8> = dec_digits(sl.start + 1);
                        extend_vec(&mut out, &d);
                    } else if sl.start <= sl.end && sl.end <= s.len() {
                        extend_bytes(&mut out, s, sl.start, sl.end);
                    }
                }
            },
        }
        proof {
            assert(items_view(items@)[k as int] == items@[k as int]@);
            let head: Seq<u8> = match items_view(items@)[k as int] {
                SubstSpec::Lit(b) => b,
                SubstSpec::Cap(i) => spec_render(i, slots@, n as int, s@),
            };
            assert(out@ =~= before + head);
            assert(before + (head + spec_apply_from(
                items_view(items@),
                k + 1,
                slots@,
                n as int,
                s@,
            )) =~= out@ + spec_apply_from(items_view(items@), k + 1, slots@, n as int, s@));
        }
        k = k + 1;
    }
    proof {
        assert(out@ + Seq::<u8>::empty() =~= out@);
    }
    out
}

/// Compiles a replacement template: `%%` stands for a literal percent,
/// `%n` for capture slot `n`, and every other byte — a lone or trailing
/// `%` included — passes through as literal text. No template is
/// rejected; the `Result` carries the signature of the validating
/// constructors.
pub fn generate_gsub_patterns(repl: &str) -> (r: Result<Vec<Subst>, Error>)
    ensures
        r matches Ok(v) ==> items_view(v@) == spec_compile_from(repl.spec_bytes(), 0),
        r is Ok,
{
    let t: &[u8] = repl.as_bytes();
    proof {
        vstd::slice::axiom_spec_len::<u8>(t);
    }
    let mut res: Vec<Subst> = Vec::new();
    let mut i: usize = 0;
    let mut lit_start: usize = 0;
    while i < t.len()
        invariant
            lit_start <= i <= t@.len() <= usize::MAX,
            forall|j: int| lit_start <= j < i ==> !spec_esc_at(t@, j),
            spec_compile_from(t@, 0) == items_view(res@) + spec_compile_from(
                t@,
                lit_start as int,
            ),
        decreases t@.len() - i,
    {
        let is_esc: bool = t[i] == 37 && i + 1 < t.len() && (t[i + 1] == 37 || (48 <= t[i + 1]
            && t[i + 1] <= 57));
        if is_esc {
            proof {
                lemma_find_esc_skip(t@, lit_start as int, i as int);
            }
            let ghost before = res@;
            if i > lit_start {
                let mut lit: Vec<u8> = Vec::new();
                extend_bytes(&mut lit, t, lit_start, i);
                proof {
                    assert(lit@ =~= t@.subrange(lit_start as int, i as int));
                }
                res.push(Subst::Text(lit));
            }
            let ghost mid = res@;
            if t[i + 1] == 37 {
                let mut pc: Vec<u8> = Vec::new();
                pc.push(37u8);
                proof {
                    assert(pc@ =~= seq![37u8]);
                }
                res.push(Subst::Text(pc));
            } else {
                res.push(Subst::Capture((t[i + 1] - 48) as usize));
            }
            proof {
                let pre: Seq<SubstSpec> = if i > lit_start {
                    seq![SubstSpec::Lit(t@.subrange(lit_start as int, i as int))]
                } else {
                    Seq::<SubstSpec>::empty()
                };
                let item: SubstSpec = if t@[i as int + 1] == 37 {
                    SubstSpec::Lit(seq![37u8])
                } else {
                    SubstSpec::Cap(t@[i as int + 1] - 48)
                };
                assert(spec_compile_from(t@, lit_start as int) == pre + seq![item]
                    + spec_compile_from(t@, i + 2));
                assert(items_view(res@) =~= items_view(before) + pre + seq![item]);
                assert(items_view(before) + (pre + seq![item] + spec_compile_from(t@, i + 2))
                    =~= (items_view(before) + pre + seq![item]) + spec_compile_from(t@, i + 2));
            }
            i = i + 2;
            lit_start = i;
        } else {
            i = i + 1;
        }
    }
    proof {
        lemma_find_esc_skip(t@, lit_start as int, t@.len() as int);
    }
    let mut lit: Vec<u8> = Vec::new();
    extend_bytes(&mut lit, t, lit_start, t.len());
    let ghost before = res@;
    res.push(Subst::Text(lit));
    proof {
        assert(lit@ =~= t@.subrange(lit_start as int, t@.len() as int));
        assert(spec_compile_from(t@, lit_start as int) =~= seq![
            SubstSpec::Lit(t@.subrange(lit_start as int, t@.len() as int)),
        ]);
        assert(items_view(res@) =~= items_view(before) + seq![
            SubstSpec::Lit(t@.subrange(lit_start as int, t@.len() as int)),
        ]);
        assert(items_view(before) + seq![
            SubstSpec::Lit(t@.subrange(lit_start as int, t@.len() as int)),
        ] =~= items_view(res@) + Seq::<SubstSpec>::empty());
        assert(items_view(res@) + Seq::<SubstSpec>::empty() =~= items_view(res@));
    }
    Ok(res)
}

/// Global substitution over the subject tail `s[from..]`: find the
/// leftmost match of `p` there, emit the prefix up to the match and the
/// rendered template, then continue past the match; a zero-width match
/// additionally emits the byte under it and advances one byte, so the
/// scan always makes progress. When no match remains the tail is
/// emitted as it stands. A run-time matcher error aborts the whole
/// substitution.
pub open spec fn spec_gsub_from(
    s: Seq<u8>,
    p: Seq<u8>,
    items: Seq<SubstSpec>,
    max: int,
    from: int,
) -> Result<Seq<u8>, Error>
    decreases s.len() - from,
    when 0 <= from <= s.len()
{
    let tail = s.subrange(from, s.len() as int);
    match crate::engine::spec_str_match_full(tail, p, max) {
        Err(er) => Err(er),
        Ok(None) => Ok(tail),
        Ok(Some(v)) => {
            let st = from + v[0].start;
            let e = from + v[0].end;
            if !(from <= st && st <= e && e <= s.len()) {
                Ok(tail)
            } else {
                let rep = spec_apply_from(items, 0, v, v.len() as int, tail);
                let pre = s.subrange(from, st);
                if e == st {
                    if st == s.len() {
                        Ok(pre + rep)
                    } else {
                        match spec_gsub_from(s, p, items, max, st + 1) {
                            Err(er) => Err(er),
                            Ok(rest) => Ok(pre + rep + s.subrange(st, st + 1) + rest),
                        }
                    }
                } else {
                    match spec_gsub_from(s, p, items, max, e) {
                        Err(er) => Err(er),
                        Ok(rest) => Ok(pre + rep + rest),
                    }
                }
            }
        },
    }
}

/// The shape of a global substitution whose replacements are chosen by
/// a caller-supplied function: like `spec_gsub_from`, but the `k`-th
/// match is replaced by `reps[k]` instead of a rendered template, and a
/// run-time matcher error ends the scan with the tail emitted as it
/// stands (the boolean convenience matcher folds such errors into "no
/// match").
pub open spec fn spec_gsub_shape(
    s: Seq<u8>,
    p: Seq<u8>,
    max: int,
    from: int,
    reps: Seq<Seq<u8>>,
    k: int,
) -> Seq<u8>
    decreases s.len() - from,
    when 0 <= from <= s.len()
{
    let tail = s.subrange(from, s.len() as int);
    match crate::engine::spec_str_match_full(tail, p, max) {
        Ok(Some(v)) => {
            let st = from + v[0].start;
            let e = from + v[0].end;
            if !(from <= st && st <= e && e <= s.len()) {
                tail
            } else {
                let rep: Seq<u8> = if 0 <= k < reps.len() {
                    reps[k]
                } else {
                    Seq::empty()
                };
                let pre = s.subrange(from, st);
                if e == st {
                    if st == s.len() {
                        pre + rep
                    } else {
                        pre + rep + s.subrange(st, st + 1) + spec_gsub_shape(
                            s,
                            p,
                            max,
                            st + 1,
                            reps,
                            k + 1,
                        )
                    }
                } else {
                    pre + rep + spec_gsub_shape(s, p, max, e, reps, k + 1)
                }
            }
        },
        Ok(None) => tail,
        Err(_) => tail,
    }
}

/// The successive matches that a global substitution walks, one entry
/// per replacement: entry `k` holds the subject offset the `k`-th
/// search began at and the capture table of the match found there
/// (slot ranges relative to that tail). The walk advances exactly as
/// `spec_gsub_shape` does.
pub open spec fn spec_gsub_matches(s: Seq<u8>, p: Seq<u8>, max: int, from: int) -> Seq<
    (int, Seq<LuaMatch>),
>
    decreases s.len() - from,
    when 0 <= from <= s.len()
{
    let tail = s.subrange(from, s.len() as int);
    match crate::engine::spec_str_match_full(tail, p, max) {
        Ok(Some(v)) => {
            let st = from + v[0].start;
            let e = from + v[0].end;
            if !(from <= st && st <= e && e <= s.len()) {
                Seq::empty()
            } else if e == st {
                if st == s.len() {
                    seq![(from, v)]
                } else {
                    seq![(from, v)] + spec_gsub_matches(s, p, max, st + 1)
                }
            } else {
                seq![(from, v)] + spec_gsub_matches(s, p, max, e)
            }
        },
        Ok(None) => Seq::empty(),
        Err(_) => Seq::empty(),
    }
}

/// Substituting every match by the whole match itself (template `%0`)
/// reproduces the subject: whenever the substitution completes, its
/// output equals the input.
pub proof fn law_gsub_whole_match_identity(
    s: Seq<u8>,
    p: Seq<u8>,
    max: int,
    from: int,
)
    requires
        0 <= from <= s.len(),
    ensures
        ({
            let items = seq![SubstSpec::Cap(0), SubstSpec::Lit(Seq::<u8>::empty())];
            spec_gsub_from(s, p, items, max, from) matches Ok(out) ==> out == s.subrange(
                from,
                s.len() as int,
            )
        }),
    decreases s.len() - from,
{
    let items = seq![SubstSpec::Cap(0), SubstSpec::Lit(Seq::<u8>::empty())];
    let tail = s.subrange(from, s.len() as int);
    match crate::engine::spec_str_match_full(tail, p, max) {
        Err(_) => {},
        Ok(None) => {},
        Ok(Some(v)) => {
            let st = from + v[0].start;
            let e = from + v[0].end;
            if from <= st && st <= e && e <= s.len() {
                let rep = spec_apply_from(items, 0, v, v.len() as int, tail);
                assert(v.len() >= 1 && !v[0].pos);
                assert(spec_render(0, v, v.len() as int, tail) == tail.subrange(
                    v[0].start as int,
                    v[0].end as int,
                ));
                assert(spec_apply_from(items, 2, v, v.len() as int, tail) =~= Seq::<u8>::empty());
                assert(spec_apply_from(items, 1, v, v.len() as int, tail) =~= Seq::<u8>::empty()
                    + Seq::<u8>::empty());
                assert(rep =~= tail.subrange(v[0].start as int, v[0].end as int) + (
                Seq::<u8>::empty() + Seq::<u8>::empty()));
                assert(rep =~= s.subrange(st, e));
                let pre = s.subrange(from, st);
                if e == st {
                    if st == s.len() {
                        assert(pre + rep =~= s.subrange(from, s.len() as int));
                    } else {
                        law_gsub_whole_match_identity(s, p, max, st + 1);
                        if let Ok(rest) = spec_gsub_from(s, p, items, max, st + 1) {
                            assert(pre + rep + s.subrange(st, st + 1) + rest =~= s.subrange(
                                from,
                                s.len() as int,
                            ));
                        }
                    }
                } else {
                    law_gsub_whole_match_identity(s, p, max, e);
                    if let Ok(rest) = spec_gsub_from(s, p, items, max, e) {
                        assert(pre + rep + rest =~= s.subrange(from, s.len() as int));
                    }
                }
            }
        },
    }
}

/// Relies on String::from_utf8_lossy: bytes that are valid UTF-8 come
/// back as exactly that string; invalid sequences are replaced, and
/// nothing further is promised of them.
#[verifier::external_body]
pub(crate) fn bytes_to_string_lossy(v: &Vec<u8>) -> (r: String)
    ensures
        vstd::utf8::valid_utf8(v@) ==> vstd::utf8::encode_utf8(r@) == v@,
{
    String::from_utf8_lossy(v.as_slice()).into_owned()
}

/// A compiled replacement template, reusable across matches.
pub struct Substitute {
    repl: Vec<Subst>,
}

impl Substitute {
    /// The compiled items.
    pub closed spec fn spec_items(&self) -> Seq<SubstSpec> {
        items_view(self.repl@)
    }

    /// Compiles a template once; never rejects (see
    /// `generate_gsub_patterns`).
    pub fn new(repl: &str) -> (r: Result<Substitute, Error>)
        ensures
            r matches Ok(su) ==> su.spec_items() == spec_compile_from(repl.spec_bytes(), 0),
            r is Ok,
    {
        match generate_gsub_patterns(repl) {
            Ok(v) => Ok(Substitute { repl: v }),
            Err(e) => Err(e),
        }
    }

    /// Renders this template against the most recent match of `patt`,
    /// reading capture bytes out of `text`. Invalid UTF-8 arising from
    /// byte-offset slicing is replaced, as `bytes_to_string_lossy`
    /// does.
    pub fn subst<'x, const MAXCAPTURES: usize>(
        &self,
        patt: &crate::Pattern<'x, MAXCAPTURES>,
        text: &str,
    ) -> (r: String)
        requires
            patt.wf(),
        ensures
            ({
                let bs = spec_apply_from(
                    self.spec_items(),
                    0,
                    patt.spec_slots(),
                    patt.spec_n(),
                    text.spec_bytes(),
                );
                vstd::utf8::valid_utf8(bs) ==> vstd::utf8::encode_utf8(r@) == bs
            }),
    {
        let tb: &[u8] = text.as_bytes();
        let v: Vec<u8> = apply_subst(&self.repl, patt.raw_slots(), patt.raw_n(), tb);
        bytes_to_string_lossy(&v)
    }
}

/// A template with no `%` at all compiles to a single literal item, and
/// applying it yields the template itself, whatever the match was.
pub proof fn law_literal_template(t: Seq<u8>, slots: Seq<LuaMatch>, n: int, s: Seq<u8>)
    requires
        forall|i: int| 0 <= i < t.len() ==> t[i] != 37,
    ensures
        spec_compile_from(t, 0) == seq![SubstSpec::Lit(t)],
        spec_apply_from(spec_compile_from(t, 0), 0, slots, n, s) == t,
{
    assert forall|j: int| 0 <= j < t.len() implies !spec_esc_at(t, j) by {}
    lemma_find_esc_skip(t, 0, t.len() as int);
    assert(spec_find_esc(t, 0) is None);
    assert(t.subrange(0, t.len() as int) =~= t);
    let c = spec_compile_from(t, 0);
    assert(c == seq![SubstSpec::Lit(t)]);
    assert(spec_apply_from(c, 0, slots, n, s) == t + spec_apply_from(c, 1, slots, n, s));
    assert(t + Seq::<u8>::empty() =~= t);
}

} // verus!
