use tessellations::{Point, PointIndexPath, Rotation, TessellationFigure, TessellationLine};

fn unit_edge() -> TessellationLine {
    let mut l1 = TessellationLine::new(1_000_000, 0, Rotation { a: 1_000_000, b: 0 });
    l1.append(Point { x: 0, y: 0 });
    l1.append(Point { x: 0, y: 1_000_000 });
    l1
}

fn three_point_edge() -> TessellationLine {
    let mut l1 = TessellationLine::new(1_000_000, 0, Rotation { a: 1_000_000, b: 0 });
    l1.append(Point { x: 0, y: 0 });
    l1.append(Point { x: 0, y: 500_000 });
    l1.append(Point { x: 0, y: 1_000_000 });
    l1
}

#[test]
fn test_line_test_breakline() {
    let l1 = unit_edge();
    assert_eq!(
        l1.hitline(Point { x: 0, y: 500_000 }, 10_000),
        Some(PointIndexPath { line_index: 0, point_index: 0, corrp: false })
    );
}

#[test]
fn test_line_test_breakline_not() {
    let l1 = unit_edge();
    assert_eq!(l1.hitline(Point { x: 0, y: 1_500_000 }, 10_000), None);
}

#[test]
fn test_line_test_breakline_corrp() {
    let l1 = unit_edge();
    assert_eq!(
        l1.hitline(Point { x: 1_000_000, y: 500_000 }, 10_000),
        Some(PointIndexPath { line_index: 0, point_index: 0, corrp: true })
    );
}

#[test]
fn test_line_test_breakline_corrp_not() {
    let l1 = unit_edge();
    assert_eq!(l1.hitline(Point { x: 1_100_000, y: 500_000 }, 10_000), None);
}

#[test]
fn test_line_test_hitpoint() {
    let l1 = three_point_edge();
    assert_eq!(
        l1.hitpoint(Point { x: 0, y: 500_000 }, 10_000),
        Some(PointIndexPath { line_index: 0, point_index: 1, corrp: false })
    );
}

#[test]
fn test_line_test_hitpoint_not() {
    let l1 = three_point_edge();
    assert_eq!(l1.hitpoint(Point { x: 0, y: 400_000 }, 10_000), None);
}

#[test]
fn test_line_test_hitpoint_corrp() {
    let l1 = three_point_edge();
    assert_eq!(
        l1.hitpoint(Point { x: 1_000_000, y: 500_000 }, 10_000),
        Some(PointIndexPath { line_index: 0, point_index: 1, corrp: true })
    );
}

#[test]
fn test_line_test_hitpoint_not_corrp() {
    let l1 = three_point_edge();
    assert_eq!(l1.hitpoint(Point { x: 1_000_000, y: 400_000 }, 10_000), None);
}

#[test]
fn test_line_save_json() {
    let mut f = TessellationFigure::new();
    f.append(three_point_edge());
    let j = "{\"gridincx\":0,\"gridincy\":0,\"shiftx\":0,\"shifty\":0,\"rotdiv\":0,\"reversed\":false,\"shape\":\"S\",\"lines\":[{\"points\":[{\"x\":0,\"y\":0},{\"x\":0,\"y\":500000},{\"x\":0,\"y\":1000000}],\"rot\":[1000000,0],\"tx\":1000000,\"ty\":0}]}";
    assert_eq!(f.to_json(), j.as_bytes().to_vec());
}

#[test]
fn test_line_load_json() {
    let mut f = TessellationFigure::new();
    f.append(three_point_edge());
    let bytes = f.to_json();
    let g = TessellationFigure::from_json(&bytes).expect("parse error");
    assert_eq!(g.lines.len(), 1);
    assert_eq!(g.lines[0].dpoints(), f.lines[0].dpoints());
    assert_eq!(g.lines[0].transform, f.lines[0].transform);
    assert_eq!(g.points(), f.points());
}
