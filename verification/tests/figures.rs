use tessellations::{
    EditEvent, EditSession, EditState, Point, PointIndexPath, TessellationFigure,
};

fn sorted_points(mut v: Vec<Point>) -> Vec<Point> {
    v.sort_by(|a, b| (a.x, a.y).cmp(&(b.x, b.y)));
    v
}

#[test]
fn square_test_polysquare() {
    let f = TessellationFigure::square();
    assert_eq!(
        f.points(),
        vec![
            Point { x: 0, y: 0 },
            Point { x: 0, y: 1000000 },
            Point { x: 0, y: 1000000 },
            Point { x: 1000000, y: 1000000 },
            Point { x: 1000000, y: 1000000 },
            Point { x: 1000000, y: 0 },
            Point { x: 1000000, y: 0 },
            Point { x: 0, y: 0 },
        ]
    );
}

#[test]
fn test_polysquare90() {
    let f = TessellationFigure::square90();
    assert_eq!(
        f.points(),
        vec![
            Point { x: 0, y: 0 },
            Point { x: 0, y: 1000000 },
            Point { x: 0, y: 1000000 },
            Point { x: 1000000, y: 1000000 },
            Point { x: 1000000, y: 1000000 },
            Point { x: 1000000, y: 0 },
            Point { x: 1000000, y: 0 },
            Point { x: 0, y: 0 },
        ]
    );
}

#[test]
fn test_polydiamond() {
    let f = TessellationFigure::diamond();
    assert_eq!(
        f.points(),
        vec![
            Point { x: 0, y: 0 },
            Point { x: 0, y: 1000000 },
            Point { x: 0, y: 1000000 },
            Point { x: 866025, y: 500000 },
            Point { x: 866025, y: 499999 },
            Point { x: 866025, y: -500000 },
            Point { x: 866025, y: -500000 },
            Point { x: 0, y: 0 },
        ]
    );
}

#[test]
fn test_polytriangle() {
    let f = TessellationFigure::triangle();
    assert_eq!(
        f.points(),
        vec![
            Point { x: 0, y: 0 },
            Point { x: -500000, y: 866025 },
            Point { x: -500000, y: 866025 },
            Point { x: 0, y: 866025 },
            Point { x: 0, y: 866025 },
            Point { x: 500000, y: 866025 },
            Point { x: 499999, y: 866025 },
            Point { x: 0, y: 0 },
        ]
    );
}

#[test]
fn test_polyhexagon() {
    let f = TessellationFigure::hexagon();
    assert_eq!(
        f.points(),
        vec![
            Point { x: 0, y: 0 },
            Point { x: 1000000, y: 0 },
            Point { x: 1000000, y: 0 },
            Point { x: 1866025, y: 866025 },
            Point { x: 1866025, y: 866025 },
            Point { x: 1000000, y: 1732050 },
            Point { x: 1000000, y: 1732050 },
            Point { x: 0, y: 1732050 },
            Point { x: 0, y: 1732050 },
            Point { x: -866025, y: 866025 },
            Point { x: -866025, y: 866025 },
            Point { x: 0, y: 0 },
        ]
    );
}

#[test]
fn test_polybrick() {
    let f = TessellationFigure::brick();
    assert_eq!(
        f.points(),
        vec![
            Point { x: 0, y: 1000000 },
            Point { x: 0, y: 0 },
            Point { x: 0, y: 0 },
            Point { x: 500000, y: 0 },
            Point { x: 500000, y: 0 },
            Point { x: 1000000, y: 0 },
            Point { x: 1000000, y: 0 },
            Point { x: 1000000, y: 1000000 },
            Point { x: 1000000, y: 1000000 },
            Point { x: 500000, y: 1000000 },
            Point { x: 500000, y: 1000000 },
            Point { x: 0, y: 1000000 },
        ]
    );
}

#[test]
fn diamond_test_polysquare() {
    let f = TessellationFigure::diamond();
    assert_eq!(
        f.points(),
        vec![
            Point { x: 0, y: 0 },
            Point { x: 0, y: 1000000 },
            Point { x: 0, y: 1000000 },
            Point { x: 866025, y: 500000 },
            Point { x: 866025, y: 499999 },
            Point { x: 866025, y: -500000 },
            Point { x: 866025, y: -500000 },
            Point { x: 0, y: 0 },
        ]
    );
}

#[test]
fn reversal_keeps_point_multiset() {
    let mut f = TessellationFigure::diamond();
    let forward = f.points();
    f.is_reversed = !f.is_reversed;
    let backward = f.points();
    assert_eq!(sorted_points(forward), sorted_points(backward));
}

#[test]
fn insert_then_hitpoint_finds_the_point() {
    let mut f = TessellationFigure::square();
    let p = Point { x: 0, y: 500_000 };
    let hit = f.hitline(p, 10_000).unwrap();
    assert_eq!(hit, PointIndexPath { line_index: 0, point_index: 0, corrp: false });
    f.insert(hit, p);
    let found = f.hitpoints(p, 1).unwrap();
    assert_eq!(found, PointIndexPath { line_index: 0, point_index: 1, corrp: false });
}

#[test]
fn insert_through_corresponding_frame_lands_in_authored_frame() {
    let mut f = TessellationFigure::square();
    // the corresponding image of the first edge lies at x = 1
    let p = Point { x: 1_000_000, y: 500_000 };
    let hit = f.hitline(p, 10_000).unwrap();
    assert!(hit.corrp);
    f.insert(hit, p);
    // the write landed in the authored frame, at x = 0
    assert_eq!(f.lines[0].dpoints()[1], Point { x: 0, y: 500_000 });
    assert!(f.hitpoints(p, 1).is_some());
}

#[test]
fn corrp_update_with_current_world_point_is_a_noop() {
    let mut f = TessellationFigure::square90();
    let before = f.points();
    // address the shared anchor of the first edge in the corresponding frame
    let path = PointIndexPath { line_index: 0, point_index: 1, corrp: true };
    let stored = f.lines[0].dpoints()[1];
    let world = f.lines[0].cpoints()[1];
    f.update(path, world);
    assert_eq!(f.lines[0].dpoints()[1], stored);
    assert_eq!(f.points(), before);
}

#[test]
fn session_press_move_release() {
    let mut f = TessellationFigure::square();
    let mut s = EditSession::new();
    let p = Point { x: 0, y: 500_000 };
    s.step(&mut f, EditEvent::Press(p), 10_000);
    assert_eq!(
        s.state,
        EditState::PointSelected(PointIndexPath { line_index: 0, point_index: 1, corrp: false })
    );
    assert_eq!(f.lines[0].dpoints().len(), 3);
    let q = Point { x: 150_000, y: 480_000 };
    s.step(&mut f, EditEvent::Move(q), 10_000);
    assert_eq!(
        s.state,
        EditState::Dragging(PointIndexPath { line_index: 0, point_index: 1, corrp: false }, q)
    );
    assert_eq!(f.lines[0].dpoints()[1], q);
    s.step(&mut f, EditEvent::Release, 10_000);
    assert_eq!(s.state, EditState::Idle);
}

#[test]
fn session_press_on_nothing_selects_nothing() {
    let mut f = TessellationFigure::square();
    let mut s = EditSession::new();
    s.step(&mut f, EditEvent::Press(Point { x: 400_000, y: 400_000 }), 10_000);
    assert_eq!(s.state, EditState::Idle);
    assert_eq!(f.lines[0].dpoints().len(), 2);
}

fn assert_closed_loop(f: &TessellationFigure) {
    let ps = f.points();
    let n = ps.len();
    assert!(n >= 2 && n % 2 == 0);
    let mut j: usize = 1;
    while j < n {
        let a = ps[j];
        let b = ps[(j + 1) % n];
        assert!((a.x - b.x).abs() <= 1 && (a.y - b.y).abs() <= 1);
        j += 2;
    }
}

#[test]
fn closure_of_all_presets() {
    assert_closed_loop(&TessellationFigure::square());
    assert_closed_loop(&TessellationFigure::square90());
    assert_closed_loop(&TessellationFigure::diamond());
    assert_closed_loop(&TessellationFigure::triangle());
    assert_closed_loop(&TessellationFigure::hexagon());
    assert_closed_loop(&TessellationFigure::brick());
}

#[test]
fn defaults_are_empty_and_plain() {
    let l = tessellations::TessellationLine::default();
    assert_eq!(l.dpoints().len(), 0);
    assert_eq!(
        tessellations::TessellationShape::default(),
        tessellations::TessellationShape::S
    );
}
