use tessellations::{breakline, distance, hit, Point};

#[test]
fn line_test_breakline_on() {
    assert_eq!(
        breakline(
            Point::new(0, 0),
            Point::new(1_000_000, 0),
            Point::new(500_000, 0),
            100_000
        ),
        true
    );
}

#[test]
fn line_test_breakline_ontop() {
    assert_eq!(
        breakline(
            Point::new(0, 0),
            Point::new(1_000_000, 0),
            Point::new(500_000, 50_000),
            100_000
        ),
        true
    );
}

#[test]
fn line_test_breakline_offright() {
    assert_eq!(
        breakline(
            Point::new(0, 0),
            Point::new(1_000_000, 0),
            Point::new(1_010_000, 0),
            100_000
        ),
        false
    );
}

#[test]
fn line_test_breakline_offleft() {
    assert_eq!(
        breakline(
            Point::new(0, 0),
            Point::new(1_000_000, 0),
            Point::new(-50_000, 0),
            100_000
        ),
        false
    );
}

#[test]
fn line_test_breakline_offmoreleft() {
    assert_eq!(
        breakline(
            Point::new(0, 0),
            Point::new(1_000_000, 0),
            Point::new(-200_000, 0),
            100_000
        ),
        false
    );
}

#[test]
fn line_test_breakline_offmoreright() {
    assert_eq!(
        breakline(
            Point::new(0, 0),
            Point::new(1_000_000, 0),
            Point::new(1_200_000, 0),
            100_000
        ),
        false
    );
}

#[test]
fn test_breakline_degenerate_segment_never_hits() {
    assert_eq!(
        breakline(
            Point::new(300_000, 300_000),
            Point::new(300_000, 300_000),
            Point::new(300_000, 300_000),
            100_000
        ),
        false
    );
}

#[test]
fn line_test_distance_zeropoint() {
    assert_eq!(distance(Point::new(0, 0)), 0);
}

#[test]
fn line_test_distance_3and4() {
    assert_eq!(distance(Point::new(3_000_000, 4_000_000)), 5_000_000);
}

#[test]
fn line_test_distance_neg3and4() {
    assert_eq!(distance(Point::new(-3_000_000, 4_000_000)), 5_000_000);
}

#[test]
fn line_test_distance_neg3neg4() {
    assert_eq!(distance(Point::new(-3_000_000, -4_000_000)), 5_000_000);
}

#[test]
fn line_test_hitpoint() {
    assert_eq!(hit(Point::new(0, 0), Point::new(0, 0), 5_000_000), true);
}

#[test]
fn line_test_misspoint() {
    assert_eq!(
        hit(Point::new(0, 0), Point::new(10_000_000, 0), 5_000_000),
        false
    );
}

#[test]
fn test_transform() {
}
