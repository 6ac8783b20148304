use gwae::jump::{JumpAccum, JUMP_TIMEOUT_MS};

#[test]
fn jump_accum_builds_multi_digit_columns() {
    let t = 1_000u64;
    let mut j = JumpAccum::default();
    j.push(1, t);
    j.push(2, t);
    // 1-based typing, 0-based layout index: column 12 is index 11.
    assert_eq!(j.take(), Some(11));
    // Taking clears, so a second commit can't re-jump.
    assert_eq!(j.take(), None);
}

#[test]
fn jump_accum_ignores_a_leading_zero() {
    let t = 1_000u64;
    let mut j = JumpAccum::default();
    j.push(0, t);
    assert_eq!(j.pending(), None);
    // But zero still extends a real number: 1 then 0 is column 10.
    j.push(1, t);
    j.push(0, t);
    assert_eq!(j.take(), Some(9));
}

#[test]
fn jump_accum_refuses_absurd_numbers() {
    let t = 1_000u64;
    let mut j = JumpAccum::default();
    for _ in 0..12 {
        j.push(9, t);
    }
    assert_eq!(j.pending(), Some(999), "clamped at MAX, not overflowed");
}

#[test]
fn jump_accum_expires_without_a_release_event() {
    let t = 1_000u64;
    let mut j = JumpAccum::default();
    j.push(3, t);
    assert_eq!(j.take_if_expired(t), None, "still being typed");
    assert_eq!(j.take_if_expired(t + JUMP_TIMEOUT_MS), Some(2), "commits once idle");
    assert_eq!(j.pending(), None);
}

#[test]
fn jump_accum_timeout_is_refreshed_by_each_digit() {
    let t = 1_000u64;
    let mut j = JumpAccum::default();
    j.push(1, t);
    let late = t + JUMP_TIMEOUT_MS - 1;
    j.push(2, late);
    assert_eq!(j.take_if_expired(t + JUMP_TIMEOUT_MS), None);
    assert_eq!(j.take_if_expired(late + JUMP_TIMEOUT_MS), Some(11));
}

#[test]
fn jump_accum_new_starts_empty_and_nothing_expires() {
    let mut j = JumpAccum::new();
    assert_eq!(j.pending(), None);
    assert_eq!(j.take_if_expired(u64::MAX), None);
    j.push(7, 0);
    assert_eq!(j.pending(), Some(7));
    assert_eq!(j.take_if_expired(499), None);
    assert_eq!(j.pending(), Some(7));
}

#[test]
fn a_pending_jump_is_always_an_address() {
    let mut j = JumpAccum::new();
    j.push(0, 0);
    assert_eq!(j.pending(), None, "no column 0");
    j.push(9, 0);
    j.push(9, 0);
    j.push(9, 0);
    assert_eq!(j.pending(), Some(999));
    let before = j.deadline;
    j.push(1, 100);
    assert_eq!(j.pending(), Some(999), "past the maximum is refused");
    assert_eq!(j.deadline, before, "and the deadline is untouched");
    assert_eq!(j.take(), Some(998));
    assert_eq!(j.pending(), None);
    j.push(4, 10);
    assert_eq!(j.take_if_expired(10 + JUMP_TIMEOUT_MS), Some(3));
}

#[test]
fn a_jump_commits_only_after_the_timeout_since_its_last_digit() {
    let t: u64 = 1_000;
    let mut j = JumpAccum::new();
    j.push(3, t);
    assert_eq!(j.take_if_expired(t), None);
    assert_eq!(j.take_if_expired(t + JUMP_TIMEOUT_MS), Some(2));
    assert_eq!((j.value, j.deadline), (None, None));
    j.push(1, t);
    j.push(2, t + 499);
    assert_eq!(j.take_if_expired(t + JUMP_TIMEOUT_MS), None, "the second digit restarted the window");
    assert_eq!(j.take_if_expired(t + 499 + JUMP_TIMEOUT_MS), Some(11));
}
