use tessellations::{ParseIssue, TessellationFigure};

fn assert_round_trip(f: &TessellationFigure) {
    let bytes = f.to_json();
    let g = TessellationFigure::from_json(&bytes).expect("parse error");
    assert_eq!(g.to_json(), bytes);
    assert_eq!(g.points(), f.points());
    assert_eq!(g.gridincx, f.gridincx);
    assert_eq!(g.gridincy, f.gridincy);
    assert_eq!(g.shiftx, f.shiftx);
    assert_eq!(g.shifty, f.shifty);
    assert_eq!(g.rotdiv, f.rotdiv);
    assert_eq!(g.is_reversed, f.is_reversed);
    assert_eq!(g.shape, f.shape);
    assert_eq!(g.lines.len(), f.lines.len());
}

#[test]
fn round_trip_square() {
    assert_round_trip(&TessellationFigure::square());
}

#[test]
fn round_trip_square90() {
    assert_round_trip(&TessellationFigure::square90());
}

#[test]
fn round_trip_diamond() {
    assert_round_trip(&TessellationFigure::diamond());
}

#[test]
fn round_trip_triangle() {
    assert_round_trip(&TessellationFigure::triangle());
}

#[test]
fn round_trip_hexagon() {
    assert_round_trip(&TessellationFigure::hexagon());
}

#[test]
fn round_trip_brick() {
    assert_round_trip(&TessellationFigure::brick());
}

#[test]
fn round_trip_after_edits() {
    let mut f = TessellationFigure::square();
    let p = tessellations::Point { x: 0, y: 500_000 };
    let hit = f.hitline(p, 10_000).unwrap();
    f.insert(hit, p);
    f.update(
        tessellations::PointIndexPath { line_index: 0, point_index: 1, corrp: false },
        tessellations::Point { x: 123_456, y: 654_321 },
    );
    assert_round_trip(&f);
}

#[test]
fn empty_input_is_rejected() {
    let e = TessellationFigure::from_json(b"").unwrap_err();
    assert_eq!(e.kind, ParseIssue::EndOfInput);
    assert_eq!(e.describe(), "unexpected end of input");
}

#[test]
fn garbage_is_rejected() {
    let e = TessellationFigure::from_json(b"nonsense, and then some").unwrap_err();
    assert_eq!(e.kind, ParseIssue::UnexpectedByte);
    assert_eq!(e.describe(), "unexpected byte");
}

#[test]
fn truncated_input_is_rejected() {
    let f = TessellationFigure::square();
    let bytes = f.to_json();
    let cut = &bytes[..bytes.len() - 1];
    assert!(TessellationFigure::from_json(cut).is_err());
}

#[test]
fn trailing_bytes_are_rejected() {
    let f = TessellationFigure::square();
    let mut bytes = f.to_json();
    bytes.push(b' ');
    assert!(TessellationFigure::from_json(&bytes).is_err());
}

#[test]
fn leading_zero_number_is_rejected() {
    let f = TessellationFigure::square();
    let bytes = f.to_json();
    let text = String::from_utf8(bytes).unwrap();
    let bent = text.replace("\"gridincx\":1000000", "\"gridincx\":01000000");
    assert!(TessellationFigure::from_json(bent.as_bytes()).is_err());
}

#[test]
fn out_of_band_number_is_rejected() {
    let f = TessellationFigure::square();
    let bytes = f.to_json();
    let text = String::from_utf8(bytes).unwrap();
    let bent = text.replace("\"gridincx\":1000000", "\"gridincx\":2000000000");
    let e = TessellationFigure::from_json(bent.as_bytes()).unwrap_err();
    assert_eq!(e.kind, ParseIssue::InvalidFigure);
    assert_eq!(e.describe(), "not a valid figure");
}

#[test]
fn degenerate_rotation_is_rejected() {
    let f = TessellationFigure::square();
    let bytes = f.to_json();
    let text = String::from_utf8(bytes).unwrap();
    let bent = text.replace("\"rot\":[1000000,0]", "\"rot\":[1,0]");
    let e = TessellationFigure::from_json(bent.as_bytes()).unwrap_err();
    assert_eq!(e.kind, ParseIssue::InvalidFigure);
}

#[test]
fn huge_number_is_rejected() {
    let f = TessellationFigure::square();
    let bytes = f.to_json();
    let text = String::from_utf8(bytes).unwrap();
    let bent = text.replace("\"gridincx\":1000000", "\"gridincx\":99999999999999999999");
    let e = TessellationFigure::from_json(bent.as_bytes()).unwrap_err();
    assert_eq!(e.kind, ParseIssue::NumberOutOfRange);
    assert_eq!(e.describe(), "number out of range");
}
