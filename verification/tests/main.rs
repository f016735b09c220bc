use lupat::error::Error;
use lupat::Pattern;

#[test]
fn bad_patterns() {
    let tests = [
        ("%", Error::EndsWithPercent),
        ("(dog%(", Error::UnfinishedCapture),
        ("[%a%[", Error::MissingEndBracket),
        ("(()", Error::UnfinishedCapture),
        ("[%A", Error::MissingEndBracket),
        ("(1) (2(3)%2)%1", Error::InvalidCapture(Some(2))),
    ];

    for p in tests.iter() {
        let pattern: Result<Pattern<'_, 8>, _> = Pattern::new(p.0);
        match pattern {
            Err(why) => {
                assert_eq!(why, p.1);
            },
            Ok(_) => panic!("pattern {} should not have parsed", p.0),
        }
    }
}

#[test]
fn basic() {
    let patterns = ["%w+", "(%w+)", "([%w]+)"];
    let test_str = "test foo bar"; // All patterns should match 3 items, (test), (foo), (bar)

    for pattern in patterns {
        let mut pattern: Pattern<'_, 2> = Pattern::new(pattern).unwrap();
        let mut gm = pattern.gmatch(test_str);
        let mut count: usize = 0;
        while let Some(_) = gm.next() {
            count += 1;
        }
        assert_eq!(count, 3);
    }
}

#[test]
fn stack() {
    // 50 parenthesis + 1 base group (being 0)
    let mut pattern: Pattern<'_, 51> = Pattern::new(
        "(((((((((((((((((((((((((((((((((((((((((((((((((())))))))))))))))))))))))))))))))))))))))))))))))))",
    )
    .unwrap();
    pattern.matches("foo bar");

    // the handle is a pattern slice, a capture vector and a count,
    // whatever the capture capacity
    assert_eq!(std::mem::size_of::<Pattern<'_, 0>>(), 48);
    assert_eq!(std::mem::size_of::<Pattern<'_, 50>>(), 48);
}
