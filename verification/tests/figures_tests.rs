use x1331::figures::fmt_state;
use x1331::figures::fmt_top;
use x1331::figures::l9_distribution;
use x1331::figures::parse_binary_state;
use x1331::figures::selected_count;
use x1331::figures::verify_frozen_discovery;
use x1331::figures::DiscoveryError;
use x1331::figures::ParseStateError;
use x1331::figures::Sample;
use x1331::figures::x1331_state_texts;
use x1331::figures::window_summary;
use x1331::figures::WindowStatus;

#[test]
fn figures_format_as_three_digits() {
    assert_eq!(fmt_state(0), "000");
    assert_eq!(fmt_state(1), "001");
    assert_eq!(fmt_state(2), "010");
    assert_eq!(fmt_state(5), "101");
    assert_eq!(fmt_state(7), "111");
    assert_eq!(fmt_state(9), "1001");
    for s in 0..8usize {
        assert_eq!(fmt_state(s), format!("{:03b}", s));
    }
}

#[test]
fn ranking_prefix_text() {
    let ranking = [5usize, 0, 7, 1, 2, 3, 4, 6];
    assert_eq!(fmt_top(&ranking, 3), "101,000,111");
    assert_eq!(fmt_top(&ranking, 1), "101");
    assert_eq!(fmt_top(&ranking, 0), "");
}

#[test]
fn selected_counts_sum_top_ranks() {
    let actual = [10u64, 20, 30, 40, 50, 60, 70, 80];
    let ranking = [7usize, 0, 3, 1, 2, 4, 5, 6];
    assert_eq!(selected_count(&actual, &ranking, 0), 0);
    assert_eq!(selected_count(&actual, &ranking, 2), 90);
    assert_eq!(selected_count(&actual, &ranking, 8), 360);
}

#[test]
fn parse_figures_like_from_str_radix() {
    for s in ["0", "1", "101", "111", "+11", "00000111", "11111111", "000000000001"] {
        assert_eq!(parse_binary_state(s).ok(), u8::from_str_radix(s, 2).ok());
    }
    assert_eq!(parse_binary_state("101"), Ok(5));
    assert_eq!(parse_binary_state(""), Err(ParseStateError::Empty));
    assert_eq!(parse_binary_state("+"), Err(ParseStateError::InvalidDigit));
    assert_eq!(parse_binary_state("-1"), Err(ParseStateError::InvalidDigit));
    assert_eq!(parse_binary_state("102"), Err(ParseStateError::InvalidDigit));
    assert_eq!(parse_binary_state("100000000"), Err(ParseStateError::Overflow));
    assert!(u8::from_str_radix("100000000", 2).is_err());
}

fn sample(height: u64, nonce: u32) -> Sample {
    Sample { height, nonce, l9: ((nonce >> 5) & 7) as u8 }
}

#[test]
fn l9_counts() {
    let samples = vec![sample(1, 0b1010_0000), sample(2, 0b1010_0001), sample(3, 0)];
    let c = l9_distribution(&samples);
    assert_eq!(c, [1, 0, 0, 0, 0, 2, 0, 0]);
    assert_eq!(l9_distribution(&Vec::new()), [0; 8]);
}

fn discovery_samples(ones: u64) -> Vec<Sample> {
    let mut v = Vec::new();
    v.push(sample(889_999, 0x80));
    for i in 0..223u64 {
        let nonce = if i < ones { 0x80 } else { 0 };
        v.push(sample(890_000 + i, nonce));
    }
    v.push(sample(890_223, 0x80));
    v
}

#[test]
fn frozen_discovery_holds() {
    assert_eq!(verify_frozen_discovery(&discovery_samples(72)), Ok(()));
}

#[test]
fn frozen_discovery_detects_changes() {
    assert_eq!(
        verify_frozen_discovery(&discovery_samples(71)),
        Err(DiscoveryError::ResultChanged { found: 71 })
    );
    let mut short = discovery_samples(72);
    short.remove(100);
    assert_eq!(verify_frozen_discovery(&short), Err(DiscoveryError::CountChanged { found: 222 }));
    assert_eq!(verify_frozen_discovery(&Vec::new()), Err(DiscoveryError::CountChanged { found: 0 }));
}

#[test]
fn path_figures_as_text() {
    let t = x1331_state_texts(0xE000_0003);
    assert_eq!(t.len(), 11);
    assert_eq!(t[0], "111");
    assert_eq!(t[1], "000");
    assert_eq!(t[10], "011");
    let t2 = x1331_state_texts(0x0000_0020);
    assert_eq!(t2[8], "001");
}

#[test]
fn window_summaries() {
    let all: Vec<Sample> = (10..20u64).map(|h| sample(h, if h % 2 == 0 { 0x80 } else { 0x20 })).collect();
    let w = window_summary(&all, 12, 15).unwrap();
    assert_eq!((w.n, w.first_height, w.last_height, w.ones), (4, 12, 15, 2));
    assert_eq!(w.l9, [0, 2, 0, 0, 2, 0, 0, 0]);
    assert_eq!(w.status, WindowStatus::Complete);
    let p = window_summary(&all, 15, 25).unwrap();
    assert_eq!(p.status, WindowStatus::Partial);
    assert_eq!(p.n, 5);
    let mut gappy = all.clone();
    gappy.remove(3);
    assert_eq!(window_summary(&gappy, 12, 15).unwrap().status, WindowStatus::PossibleGaps);
    assert!(window_summary(&all, 30, 40).is_none());
    let holdout = window_summary(&all, 15, u64::MAX).unwrap();
    assert_eq!((holdout.n, holdout.first_height, holdout.last_height), (5, 15, 19));
}

#[test]
fn formatted_figures_parse_back() {
    for s in 0..8usize {
        assert_eq!(parse_binary_state(&fmt_state(s)), Ok(s as u8));
    }
}
