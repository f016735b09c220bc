use lupat::error::Error;
use lupat::{Pattern, Substitute};

fn collect<'b, const N: usize>(p: &mut Pattern<'_, N>, text: &'b str) -> Vec<&'b str> {
    let mut gm = p.gmatch(text);
    let mut out: Vec<&str> = Vec::new();
    while let Some(m) = gm.next() {
        out.push(m);
    }
    out
}

#[test]
fn gmatch_words() {
    let mut p: Pattern<'_, 2> = Pattern::new("%w+").unwrap();
    let found = collect(&mut p, "test foo bar");
    assert_eq!(found, vec!["test", "foo", "bar"]);
    assert_eq!(found.len(), 3);
}

#[test]
fn two_captures() {
    let mut p: Pattern<'_, 4> = Pattern::new("(%a+) (%a+)").unwrap();
    assert!(p.matches("hello world"));
    let all = p.range();
    assert_eq!(all.start, 0);
    assert_eq!(all.end, 11);
    let cc = p.match_captures("hello world");
    assert_eq!(cc.num_matches(), 3);
    assert_eq!(cc.get(1), "hello");
    assert_eq!(cc.get(2), "world");
}

#[test]
fn anchored_digits() {
    let mut p: Pattern<'_, 4> = Pattern::new("^(%d+)$").unwrap();
    assert_eq!(p.match_maybe("12345"), Some("12345"));
    assert_eq!(p.match_maybe("12a45"), None);
}

#[test]
fn balanced_match() {
    let mut p: Pattern<'_, 2> = Pattern::new("%b()").unwrap();
    assert!(p.matches("a(b(c)d)e"));
    let all = p.range();
    assert_eq!(all.start, 1);
    assert_eq!(all.end, 8);
    assert_eq!(&"a(b(c)d)e"[all], "(b(c)d)");
}

#[test]
fn frontier_words() {
    let mut p: Pattern<'_, 2> = Pattern::new("%f[%a]%a+").unwrap();
    let found = collect(&mut p, "  hello, world");
    assert_eq!(found, vec!["hello", "world"]);
}

#[test]
fn position_captures() {
    let mut p: Pattern<'_, 8> = Pattern::new("()(%a+)()").unwrap();
    assert!(p.matches("abc"));
    let cc = p.match_captures("abc");
    assert_eq!(cc.num_matches(), 4);
    // slot 1 is a position capture whose value is the 1-based position 1
    let r1 = p.capture(1);
    assert_eq!((r1.start, r1.end), (0, 0));
    assert_eq!(cc.get(2), "abc");
    // slot 3 is the position just past the word: 1-based position 4
    let r3 = p.capture(3);
    assert_eq!((r3.start, r3.end), (3, 3));
}

#[test]
fn position_captures_render_as_decimal() {
    let mut p: Pattern<'_, 8> = Pattern::new("()(%a+)()").unwrap();
    let out = p.gsub("abc", "%1-%3").unwrap();
    assert_eq!(out, "1-4");
}

#[test]
fn gsub_wraps_words() {
    let mut p: Pattern<'_, 2> = Pattern::new("%w+").unwrap();
    let out = p.gsub("a b", "<%0>").unwrap();
    assert_eq!(out, "<a> <b>");
}

#[test]
fn gsub_whole_match_is_identity() {
    let mut p: Pattern<'_, 2> = Pattern::new("%w+").unwrap();
    assert_eq!(p.gsub("a b", "%0").unwrap(), "a b");
    // even zero-width matches keep the subject intact
    let mut q: Pattern<'_, 2> = Pattern::new("x*").unwrap();
    assert_eq!(q.gsub("ab", "%0").unwrap(), "ab");
}

#[test]
fn gsub_zero_width_advances() {
    let mut p: Pattern<'_, 2> = Pattern::new("x*").unwrap();
    assert_eq!(p.gsub("ab", "<>").unwrap(), "<>a<>b<>");
}

#[test]
fn gsub_escaped_percent() {
    let mut p: Pattern<'_, 2> = Pattern::new("%a+").unwrap();
    assert_eq!(p.gsub("ab", "100%%").unwrap(), "100%");
}

#[test]
fn gsub_literal_template() {
    let mut p: Pattern<'_, 2> = Pattern::new("%a+").unwrap();
    assert_eq!(p.gsub("xyz", "QQ").unwrap(), "QQ");
}

#[test]
fn greedy_star_takes_longest() {
    let mut p: Pattern<'_, 4> = Pattern::new("(a*)a").unwrap();
    assert_eq!(p.match_maybe("aaaa"), Some("aaa"));
}

#[test]
fn lazy_minus_takes_shortest() {
    let mut p: Pattern<'_, 4> = Pattern::new("(a-)a").unwrap();
    assert_eq!(p.match_maybe("aaaa"), Some(""));
}

#[test]
fn optional_item() {
    let mut p: Pattern<'_, 2> = Pattern::new("ab?c").unwrap();
    assert!(p.matches("abc"));
    assert!(p.matches("ac"));
    assert!(!p.matches("abbc"));
}

#[test]
fn class_sets_and_ranges() {
    let mut p: Pattern<'_, 2> = Pattern::new("[a-c]+").unwrap();
    assert_eq!(p.match_maybe("zzabcz"), Some("abc"));
    let mut q: Pattern<'_, 2> = Pattern::new("[^%d]+").unwrap();
    assert_eq!(q.match_maybe("12ab34"), Some("ab"));
    let mut r: Pattern<'_, 2> = Pattern::new("[]]").unwrap();
    assert_eq!(r.match_maybe("x]y"), Some("]"));
}

#[test]
fn escaped_magic_bytes() {
    let mut p: Pattern<'_, 2> = Pattern::new("%.").unwrap();
    assert_eq!(p.match_maybe("a.b"), Some("."));
    let mut q: Pattern<'_, 2> = Pattern::new("%%").unwrap();
    assert_eq!(q.match_maybe("5% off"), Some("%"));
}

#[test]
fn ascii_classes() {
    let mut s: Pattern<'_, 2> = Pattern::new("%s+").unwrap();
    assert_eq!(s.match_maybe("ab \t cd"), Some(" \t "));
    let mut u: Pattern<'_, 2> = Pattern::new("%u+").unwrap();
    assert_eq!(u.match_maybe("one TWO three"), Some("TWO"));
    let mut x: Pattern<'_, 2> = Pattern::new("%x+").unwrap();
    assert_eq!(x.match_maybe("zz1aF!"), Some("1aF"));
    let mut a: Pattern<'_, 2> = Pattern::new("%A+").unwrap();
    assert_eq!(a.match_maybe("ab12cd"), Some("12"));
}

#[test]
fn dot_matches_any_byte() {
    let mut p: Pattern<'_, 2> = Pattern::new("a.c").unwrap();
    assert!(p.matches("a\u{0}c"));
    assert!(p.matches("axc"));
    assert!(!p.matches("ac"));
}

#[test]
fn dollar_not_at_end_is_literal() {
    let mut p: Pattern<'_, 2> = Pattern::new("a$b").unwrap();
    assert!(p.matches("xa$by"));
    assert!(!p.matches("ab"));
}

#[test]
fn back_reference() {
    let mut p: Pattern<'_, 4> = Pattern::new("(%a+) %1").unwrap();
    assert_eq!(p.match_maybe("dog dog"), Some("dog"));
    assert!(!p.matches("dog cat"));
}

#[test]
fn match_maybe_2_and_3() {
    let mut p: Pattern<'_, 4> = Pattern::new("(%a+) (%a+)").unwrap();
    assert_eq!(p.match_maybe_2("hello world"), Some(("hello", "world")));
    let mut q: Pattern<'_, 8> = Pattern::new("(%a+) (%a+) (%a+)").unwrap();
    assert_eq!(q.match_maybe_3("a b c"), Some(("a", "b", "c")));
    assert_eq!(q.match_maybe_3("a b"), None);
}

#[test]
fn num_matches_counts_slots() {
    let mut p: Pattern<'_, 4> = Pattern::new("(%a+) (%a+)").unwrap();
    assert_eq!(p.num_matches(), 0);
    assert!(p.matches("hello world"));
    assert_eq!(p.num_matches(), 3);
    assert!(!p.matches("123"));
    assert_eq!(p.num_matches(), 0);
}

#[test]
fn captures_into_vec() {
    let mut p: Pattern<'_, 4> = Pattern::new("(%a+) (%d+)").unwrap();
    let caps = p.captures("item 42");
    assert_eq!(caps, vec!["item 42", "item", "42"]);
}

#[test]
fn subst_text_item() {
    match lupat::Subst::new_text("abc") {
        lupat::Subst::Text(v) => assert_eq!(v, b"abc".to_vec()),
        _ => panic!("expected a literal item"),
    }
}

#[test]
fn substitute_compiled_template() {
    let mut p: Pattern<'_, 4> = Pattern::new("(%a+)").unwrap();
    assert!(p.matches("abc def"));
    let su = Substitute::new("[%1]").unwrap();
    assert_eq!(su.subst(&p, "abc def"), "[abc]");
}

#[test]
fn substitute_literal_only() {
    let mut p: Pattern<'_, 2> = Pattern::new("%a+").unwrap();
    assert!(p.matches("abc"));
    let su = Substitute::new("plain text").unwrap();
    assert_eq!(su.subst(&p, "abc"), "plain text");
}

#[test]
fn validate_twice_same_outcome() {
    for pat in ["%w+", "(", "[%a", "%b", "%f", "%"] {
        let first: Result<Pattern<'_, 8>, Error> = Pattern::new(pat);
        let second: Result<Pattern<'_, 8>, Error> = Pattern::new(pat);
        assert_eq!(first.is_ok(), second.is_ok());
        assert_eq!(first.err(), second.err());
    }
}

#[test]
fn remaining_error_kinds() {
    let a: Result<Pattern<'_, 8>, Error> = Pattern::new("%bx");
    assert_eq!(a.err(), Some(Error::MissingBalanceArgs));
    let b: Result<Pattern<'_, 8>, Error> = Pattern::new("%fx");
    assert_eq!(b.err(), Some(Error::MissingLBracketF));
    let c: Result<Pattern<'_, 8>, Error> = Pattern::new(")");
    assert_eq!(c.err(), Some(Error::NoOpenCapture));
    let d: Result<Pattern<'_, 2>, Error> = Pattern::new("(a)(b)");
    assert_eq!(d.err(), Some(Error::TooManyCaptures));
    let e: Result<Pattern<'_, 8>, Error> = Pattern::new("%0");
    assert_eq!(e.err(), Some(Error::InvalidCapture(Some(0))));
}

#[test]
fn runtime_too_complex() {
    let deep: String = "(".repeat(120) + &")".repeat(120);
    let mut p: Pattern<'_, 256> = Pattern::new(deep.as_str()).unwrap();
    assert_eq!(p.try_matches_bytes(b"x"), Err(Error::TooComplex));
}

#[test]
fn runtime_position_back_reference() {
    let mut p: Pattern<'_, 4> = Pattern::new("()%1").unwrap();
    assert_eq!(p.try_matches_bytes(b"ab"), Err(Error::CapLen));
}

#[test]
fn error_messages_match_lua() {
    assert_eq!(Error::EndsWithPercent.message(), "malformed pattern (ends with '%')");
    assert_eq!(Error::MissingEndBracket.message(), "malformed pattern (missing ']')");
    assert_eq!(Error::MissingBalanceArgs.message(), "malformed pattern (missing arguments to '%b')");
    assert_eq!(Error::MissingLBracketF.message(), "missing '[' after '%f' in pattern");
    assert_eq!(Error::UnfinishedCapture.message(), "unfinished capture");
    assert_eq!(Error::NoOpenCapture.message(), "no open capture");
    assert_eq!(Error::TooManyCaptures.message(), "too many captures");
    assert_eq!(Error::TooComplex.message(), "pattern too complex");
    assert_eq!(Error::InvalidCapture(Some(2)).message(), "invalid capture index %2");
    assert_eq!(Error::InvalidCapture(None).message(), "invalid pattern capture");
}

#[test]
fn byte_level_interfaces() {
    let mut p: Pattern<'_, 2> = Pattern::new("%w+").unwrap();
    assert!(p.matches_bytes(b"  ab  "));
    let all = p.range();
    assert_eq!((all.start, all.end), (2, 4));

    let mut gm = p.gmatch_bytes(b"ab cd");
    assert_eq!(gm.next(), Some(&b"ab"[..]));
    assert_eq!(gm.next(), Some(&b"cd"[..]));
    assert_eq!(gm.next(), None);
}

#[test]
fn gsub_with_lookup() {
    let mut p: Pattern<'_, 2> = Pattern::new("%w+").unwrap();
    let out = p.gsub_with("a b", |cc| {
        let mut s = String::from("<");
        s.push_str(cc.get(0));
        s.push('>');
        s
    });
    assert_eq!(out, "<a> <b>");
}

#[test]
fn gsub_bytes_with_lookup() {
    let mut p: Pattern<'_, 2> = Pattern::new("%w+").unwrap();
    let out = p.gsub_bytes_with(b"a b", |cc| {
        let mut v = vec![b'['];
        v.extend_from_slice(cc.get(0));
        v.push(b']');
        v
    });
    assert_eq!(out, b"[a] [b]".to_vec());
}

#[test]
fn gsub_bytes_with_varying_replacements() {
    let mut p: Pattern<'_, 2> = Pattern::new("%w+").unwrap();
    let out = p.gsub_bytes_with(b"ab cde", |cc| {
        let mut v = cc.get(0).to_vec();
        v.reverse();
        v
    });
    assert_eq!(out, b"ba edc".to_vec());
}

#[test]
fn gsub_with_capture_dependent_lookup() {
    let mut p: Pattern<'_, 4> = Pattern::new("(%a)(%a)").unwrap();
    let out = p.gsub_with("ab cd", |cc| {
        let mut s = String::new();
        s.push_str(cc.get(2));
        s.push_str(cc.get(1));
        s
    });
    assert_eq!(out, "ba dc");
}

#[test]
fn gmatch_captures_snapshots() {
    let mut p: Pattern<'_, 4> = Pattern::new("(%a+)=(%d+)").unwrap();
    let mut gm = p.gmatch_captures("a=1, bb=22");
    let mut pairs: Vec<(String, String)> = Vec::new();
    while let Some(cc) = gm.next() {
        assert_eq!(cc.num_matches(), 3);
        pairs.push((cc.get(1).to_string(), cc.get(2).to_string()));
    }
    assert_eq!(
        pairs,
        vec![("a".to_string(), "1".to_string()), ("bb".to_string(), "22".to_string())]
    );
}

#[test]
fn gmatch_empty_pattern_progresses() {
    let mut p: Pattern<'_, 2> = Pattern::new("").unwrap();
    let found = collect(&mut p, "ab");
    assert_eq!(found, vec!["", "", ""]);
}

#[test]
fn gmatch_starts_do_not_decrease() {
    let mut p: Pattern<'_, 2> = Pattern::new("%a+").unwrap();
    let text = "one two three";
    let mut gm = p.gmatch(text);
    let mut last_start: usize = 0;
    let mut starts: Vec<usize> = Vec::new();
    let mut offset: usize = 0;
    while let Some(m) = gm.next() {
        let pos = text[offset..].find(m).unwrap() + offset;
        assert!(pos >= last_start);
        last_start = pos;
        offset = pos + m.len();
        starts.push(pos);
    }
    assert_eq!(starts, vec![0, 4, 8]);
}

#[test]
fn first_capture_prefers_group() {
    let mut p: Pattern<'_, 4> = Pattern::new("<(%a+)>").unwrap();
    assert_eq!(p.match_maybe("ab <cd> ef"), Some("cd"));
    let r = p.first_capture();
    assert_eq!((r.start, r.end), (4, 6));
}

#[test]
fn try_from_bytes_validates() {
    let p: Result<Pattern<'_, 8>, Error> = Pattern::try_from_bytes(b"%d+");
    assert!(p.is_ok());
    let q: Result<Pattern<'_, 8>, Error> = Pattern::try_from_bytes(b"%");
    assert_eq!(q.err(), Some(Error::EndsWithPercent));
}
