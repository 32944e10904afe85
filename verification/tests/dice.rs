use workbench::dice::{judge, parse_roll, pick_faces, Verdict};

#[test]
fn faces_are_one_to_five() {
    let mut seen = [false; 6];
    let mut round = 0;
    while round < 2000 {
        let faces = pick_faces();
        assert!(1 <= faces && faces <= 5, "picked {}", faces);
        seen[faces as usize] = true;
        round += 1;
    }
    assert_eq!([false, true, true, true, true, true], seen);
}

#[test]
fn roll_is_read_off_the_line() {
    assert_eq!(Some(3), parse_roll("3\n"));
    assert_eq!(Some(3), parse_roll("  3 \r\n"));
    assert_eq!(Some(42), parse_roll("+42"));
    assert_eq!(Some(7), parse_roll("007"));
    assert_eq!(Some(0), parse_roll("0"));
    assert_eq!(Some(5), parse_roll("\u{3000}5\u{a0}"));
}

#[test]
fn roll_is_bounded() {
    assert_eq!(Some(u32::MAX), parse_roll("4294967295"));
    assert_eq!(None, parse_roll("4294967296"));
    assert_eq!(None, parse_roll("99999999999999999999"));
    assert_eq!(Some(4294967290), parse_roll("4294967290"));
}

#[test]
fn what_is_no_number_is_no_roll() {
    assert_eq!(None, parse_roll(""));
    assert_eq!(None, parse_roll("\n"));
    assert_eq!(None, parse_roll("+"));
    assert_eq!(None, parse_roll("-"));
    assert_eq!(None, parse_roll("-3"));
    assert_eq!(None, parse_roll("++3"));
    assert_eq!(None, parse_roll("3 4"));
    assert_eq!(None, parse_roll("three"));
    assert_eq!(None, parse_roll("3.0"));
    assert_eq!(None, parse_roll("٣"));
}

#[test]
fn parse_roll_agrees_with_the_standard_library() {
    let samples = [
        "1", " 12 ", "+5", "+ 5", "5+", "\t6\n", "\u{b}7", "\u{85}8", "\u{200b}9", "1_000", "0x10",
        "4294967295", "4294967296", "00000000000000000001", "",
    ];
    for sample in samples {
        let expected: Option<u32> = sample.trim().parse().ok();
        assert_eq!(expected, parse_roll(sample), "for {:?}", sample);
    }
}

#[test]
fn verdicts() {
    assert_eq!(Verdict::TooSmall, judge(2, 3));
    assert_eq!(Verdict::TooBig, judge(4, 3));
    assert_eq!(Verdict::Win, judge(3, 3));
    assert_eq!(Verdict::TooSmall, judge(0, u32::MAX));
    assert_eq!(Verdict::TooBig, judge(u32::MAX, 0));
}

#[test]
fn messages() {
    assert_eq!("Too small!", Verdict::TooSmall.message());
    assert_eq!("Too big!", Verdict::TooBig.message());
    assert_eq!("You win!", Verdict::Win.message());
}
