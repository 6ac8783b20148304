use gwae::procs::{descendants, descendants_of, parse_u32, ps_pairs};

fn parse(s: &str) -> Option<u32> {
    let v: Vec<char> = s.chars().collect();
    parse_u32(&v, 0, v.len())
}

#[test]
fn pids_parse_like_u32_from_str() {
    assert_eq!(parse("42"), Some(42));
    assert_eq!(parse("+7"), Some(7));
    assert_eq!(parse("007"), Some(7));
    assert_eq!(parse("4294967295"), Some(u32::MAX));
    assert_eq!(parse("4294967296"), None);
    assert_eq!(parse("99999999999999999999"), None);
    assert_eq!(parse(""), None);
    assert_eq!(parse("+"), None);
    assert_eq!(parse("-1"), None);
    assert_eq!(parse("1a"), None);
    // Agreement with std on the same words.
    for w in ["0", "+0", "12", "+", "", "x", "4294967295", "4294967296", " 1"] {
        assert_eq!(parse(w), w.parse::<u32>().ok(), "word {:?}", w);
    }
}

#[test]
fn a_listing_yields_the_pairs_of_its_numeric_lines() {
    let listing = "    1     0\n   12     1\n   13    12\r\nPID PPID\n\n   14 12 extra\n   15\n   16   13";
    assert_eq!(ps_pairs(listing), vec![(1, 0), (12, 1), (13, 12), (14, 12), (16, 13)]);
    assert_eq!(ps_pairs(""), vec![]);
}

#[test]
fn descendants_come_deepest_first_without_the_root() {
    let listing = "1 0\n12 1\n13 12\n14 12\n15 13\n16 1\n";
    // Walked from 12: 13 and 14 are found first, then 15 under 13; the
    // reversed order puts every child before its parent.
    assert_eq!(descendants(listing, 12), vec![15, 14, 13]);
    assert_eq!(descendants(listing, 15), Vec::<u32>::new());
    assert_eq!(descendants(listing, 99), Vec::<u32>::new());
}

#[test]
fn a_cycle_in_the_listing_does_not_spin() {
    // 2 and 3 claim each other as parent, and one of them claims the root.
    let pairs = vec![(2, 1), (3, 2), (2, 3), (1, 3)];
    let d = descendants_of(&pairs, 1);
    assert_eq!(d, vec![3, 2]);
}
