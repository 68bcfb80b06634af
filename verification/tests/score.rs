use covers::score::calc_final_score;

fn uncovered(cover_percent: f64) -> i32 {
    (100.0 - (cover_percent * 100.0)) as i32
}

#[test]
fn calc_final_score_test() {
    assert_eq!(calc_final_score(0, uncovered(0.0)), Some(100));
    assert_eq!(calc_final_score(0, uncovered(1.0)), Some(0));
    assert_eq!(calc_final_score(0, uncovered(0.5)), Some(50));

    assert_eq!(calc_final_score(2, uncovered(0.0)), Some(104));
    assert_eq!(calc_final_score(4, uncovered(1.0)), Some(16));
    assert_eq!(calc_final_score(9, uncovered(0.5)), Some(131));
}

#[test]
fn score_is_square_plus_uncovered() {
    assert_eq!(calc_final_score(3, 50), Some(59));
    assert_eq!(calc_final_score(0, 0), Some(0));
    assert_eq!(calc_final_score(1, 0), Some(1));
    assert_eq!(calc_final_score(10, -100), Some(0));
    assert_eq!(calc_final_score(5, -100), Some(-75));
}

#[test]
fn score_truncates_the_uncovered_part() {
    assert_eq!(calc_final_score(0, uncovered(1.0 / 3.0)), Some(66));
    assert_eq!(calc_final_score(0, uncovered(2.0 / 3.0)), Some(33));
    assert_eq!(calc_final_score(0, uncovered(1.5)), Some(-50));
    assert_eq!(calc_final_score(0, uncovered(1.255)), Some(-25));
}

#[test]
fn score_at_the_edge_of_its_range() {
    assert_eq!(calc_final_score(46340, 0), Some(2147395600));
    assert_eq!(calc_final_score(46340, 88047), Some(i32::MAX));
    assert_eq!(calc_final_score(46340, 88048), None);
    assert_eq!(calc_final_score(46341, 0), None);
    assert_eq!(calc_final_score(46341, -4634), Some(i32::MAX));
    assert_eq!(calc_final_score(65535, i32::MIN), Some(2147352577));
    assert_eq!(calc_final_score(65536, i32::MIN), None);
    assert_eq!(calc_final_score(usize::MAX, i32::MIN), None);
    assert_eq!(calc_final_score(0, i32::MIN), Some(i32::MIN));
    assert_eq!(calc_final_score(0, i32::MAX), Some(i32::MAX));
    assert_eq!(calc_final_score(1, i32::MAX), None);
}

#[test]
fn score_without_functions() {
    assert_eq!(calc_final_score(3, uncovered(f64::NAN)), Some(9));
    assert_eq!(calc_final_score(0, uncovered(f64::INFINITY)), Some(i32::MIN));
    assert_eq!(calc_final_score(2, uncovered(1.0 / 0.0)), Some(i32::MIN + 4));
}
