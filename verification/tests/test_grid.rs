use tessellations::{Point, TessellationFigure, TessellationPlane};

#[test]
fn test_grid_test_grid_square() {
    let f = TessellationFigure::square();
    let p = TessellationPlane {};
    let expected: Vec<Vec<Point>> = vec![
        vec![
            Point { x: -1000000, y: -2000000 },
            Point { x: 0, y: -2000000 },
            Point { x: 1000000, y: -2000000 },
            Point { x: 2000000, y: -2000000 },
            Point { x: 3000000, y: -2000000 },
            Point { x: 4000000, y: -2000000 },
        ],
        vec![
            Point { x: -1000000, y: -1000000 },
            Point { x: 0, y: -1000000 },
            Point { x: 1000000, y: -1000000 },
            Point { x: 2000000, y: -1000000 },
            Point { x: 3000000, y: -1000000 },
            Point { x: 4000000, y: -1000000 },
        ],
        vec![
            Point { x: -1000000, y: 0 },
            Point { x: 0, y: 0 },
            Point { x: 1000000, y: 0 },
            Point { x: 2000000, y: 0 },
            Point { x: 3000000, y: 0 },
            Point { x: 4000000, y: 0 },
        ],
        vec![
            Point { x: -1000000, y: 1000000 },
            Point { x: 0, y: 1000000 },
            Point { x: 1000000, y: 1000000 },
            Point { x: 2000000, y: 1000000 },
            Point { x: 3000000, y: 1000000 },
            Point { x: 4000000, y: 1000000 },
        ],
        vec![
            Point { x: -1000000, y: 2000000 },
            Point { x: 0, y: 2000000 },
            Point { x: 1000000, y: 2000000 },
            Point { x: 2000000, y: 2000000 },
            Point { x: 3000000, y: 2000000 },
            Point { x: 4000000, y: 2000000 },
        ],
        vec![
            Point { x: -1000000, y: 3000000 },
            Point { x: 0, y: 3000000 },
            Point { x: 1000000, y: 3000000 },
            Point { x: 2000000, y: 3000000 },
            Point { x: 3000000, y: 3000000 },
            Point { x: 4000000, y: 3000000 },
        ],
    ];
    assert_eq!(p.grid(&f, 2_000_000, 2_000_000, 1_000_000), expected);
}

#[test]
fn test_grid_triangle() {
    let f = TessellationFigure::triangle();
    let p = TessellationPlane {};
    let expected: Vec<Vec<Point>> = vec![
        vec![
            Point { x: -3000000, y: -1732050 },
            Point { x: 0, y: -1732050 },
            Point { x: 3000000, y: -1732050 },
            Point { x: 6000000, y: -1732050 },
            Point { x: 9000000, y: -1732050 },
            Point { x: 12000000, y: -1732050 },
            Point { x: 15000000, y: -1732050 },
        ],
        vec![
            Point { x: -1500000, y: -866025 },
            Point { x: 1500000, y: -866025 },
            Point { x: 4500000, y: -866025 },
            Point { x: 7500000, y: -866025 },
            Point { x: 10500000, y: -866025 },
            Point { x: 13500000, y: -866025 },
        ],
        vec![
            Point { x: 0, y: 0 },
            Point { x: 3000000, y: 0 },
            Point { x: 6000000, y: 0 },
            Point { x: 9000000, y: 0 },
            Point { x: 12000000, y: 0 },
            Point { x: 15000000, y: 0 },
        ],
        vec![
            Point { x: -1500000, y: 866025 },
            Point { x: 1500000, y: 866025 },
            Point { x: 4500000, y: 866025 },
            Point { x: 7500000, y: 866025 },
            Point { x: 10500000, y: 866025 },
            Point { x: 13500000, y: 866025 },
        ],
        vec![
            Point { x: 0, y: 1732050 },
            Point { x: 3000000, y: 1732050 },
            Point { x: 6000000, y: 1732050 },
            Point { x: 9000000, y: 1732050 },
            Point { x: 12000000, y: 1732050 },
            Point { x: 15000000, y: 1732050 },
        ],
        vec![
            Point { x: -1500000, y: 2598075 },
            Point { x: 1500000, y: 2598075 },
            Point { x: 4500000, y: 2598075 },
            Point { x: 7500000, y: 2598075 },
            Point { x: 10500000, y: 2598075 },
            Point { x: 13500000, y: 2598075 },
        ],
        vec![
            Point { x: 0, y: 3464100 },
            Point { x: 3000000, y: 3464100 },
            Point { x: 6000000, y: 3464100 },
            Point { x: 9000000, y: 3464100 },
            Point { x: 12000000, y: 3464100 },
            Point { x: 15000000, y: 3464100 },
        ],
        vec![
            Point { x: -1500000, y: 4330125 },
            Point { x: 1500000, y: 4330125 },
            Point { x: 4500000, y: 4330125 },
            Point { x: 7500000, y: 4330125 },
            Point { x: 10500000, y: 4330125 },
            Point { x: 13500000, y: 4330125 },
        ],
        vec![
            Point { x: 0, y: 5196150 },
            Point { x: 3000000, y: 5196150 },
            Point { x: 6000000, y: 5196150 },
            Point { x: 9000000, y: 5196150 },
            Point { x: 12000000, y: 5196150 },
            Point { x: 15000000, y: 5196150 },
        ],
        vec![
            Point { x: -1500000, y: 6062175 },
            Point { x: 1500000, y: 6062175 },
            Point { x: 4500000, y: 6062175 },
            Point { x: 7500000, y: 6062175 },
            Point { x: 10500000, y: 6062175 },
            Point { x: 13500000, y: 6062175 },
        ],
        vec![
            Point { x: 0, y: 6928200 },
            Point { x: 3000000, y: 6928200 },
            Point { x: 6000000, y: 6928200 },
            Point { x: 9000000, y: 6928200 },
            Point { x: 12000000, y: 6928200 },
            Point { x: 15000000, y: 6928200 },
        ],
        vec![
            Point { x: -1500000, y: 7794225 },
            Point { x: 1500000, y: 7794225 },
            Point { x: 4500000, y: 7794225 },
            Point { x: 7500000, y: 7794225 },
            Point { x: 10500000, y: 7794225 },
            Point { x: 13500000, y: 7794225 },
        ],
        vec![
            Point { x: 0, y: 8660250 },
            Point { x: 3000000, y: 8660250 },
            Point { x: 6000000, y: 8660250 },
            Point { x: 9000000, y: 8660250 },
            Point { x: 12000000, y: 8660250 },
            Point { x: 15000000, y: 8660250 },
        ],
        vec![
            Point { x: -1500000, y: 9526275 },
            Point { x: 1500000, y: 9526275 },
            Point { x: 4500000, y: 9526275 },
            Point { x: 7500000, y: 9526275 },
            Point { x: 10500000, y: 9526275 },
            Point { x: 13500000, y: 9526275 },
        ],
        vec![
            Point { x: 0, y: 10392300 },
            Point { x: 3000000, y: 10392300 },
            Point { x: 6000000, y: 10392300 },
            Point { x: 9000000, y: 10392300 },
            Point { x: 12000000, y: 10392300 },
            Point { x: 15000000, y: 10392300 },
        ],
    ];
    assert_eq!(p.grid(&f, 10_000_000, 10_000_000, 1_000_000), expected);
}
