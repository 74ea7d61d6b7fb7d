use probe_plot::CustomPlot;
use probe_plot::Plot;
use probe_plot::PlotError;
use probe_plot::Point3;
use probe_plot::PointType;
use probe_plot::Space;
use probe_plot::ZLayer;

const VALID: &str = r"---------------
------xxx------
------xox------
------xxx------
---------------

---------------
------xxx------
------xxx------
-----xxxxx-----
---------------";

const NO_ORIGIN: &str = r"---------------
------xxx------
------xxx------
------xxx------

---------------
------xxx------
------xxx------
---------------";

const INVALID_X_SPACE: &str = r"---------------
------xxx------
------xox-----
------xxx------

---------------
------xxx------
------xxx------
---------------";

const INVALID_Y_SPACE: &str = r"---------------
------xxx------
------xox------

---------------
------xxx------
------xxx------
---------------";

fn zero() -> Point3 {
    Point3 { x: 0, y: 0, z: 0 }
}

#[test]
fn create_custom_plot_from_valid_string() {
    let plot = CustomPlot::from_string(VALID, 1, zero());
    assert!(plot.is_ok());
}

#[test]
fn point_count_does_not_match_x_space() {
    let plot = CustomPlot::from_string(INVALID_X_SPACE, 1, zero());
    assert_eq!(
        plot.err().unwrap().message(),
        "Point count does not match space.".to_string()
    );
}

#[test]
fn point_count_does_not_match_y_space() {
    // The second block has four rows against the first block's three, so
    // the pattern is refused for its disagreeing layer height.
    let plot = CustomPlot::from_string(INVALID_Y_SPACE, 1, zero());
    assert_eq!(
        plot.err().unwrap().message(),
        "Y space does not match.".to_string()
    );
}

#[test]
fn create_custom_plot_from_without_origin() {
    let plot = CustomPlot::from_string(NO_ORIGIN, 1, zero());
    assert_eq!(
        plot.err().unwrap().message(),
        "First layer must have an origin.".to_string()
    );
}

#[test]
fn two_origins_in_one_layer_fail() {
    let plot = CustomPlot::from_string("o-o", 10, zero());
    assert_eq!(plot.err().unwrap(), PlotError::MultipleOrigins);
}

#[test]
fn unequal_row_lengths_fail() {
    let plot = CustomPlot::from_string("xox\nxx", 10, zero());
    assert_eq!(plot.err().unwrap(), PlotError::PointCountMismatch);
}

#[test]
fn unrecognized_symbol_fails() {
    let plot = CustomPlot::from_string("xoz", 10, zero());
    assert_eq!(plot.err().unwrap(), PlotError::InvalidSymbol('z'));
    assert_eq!(
        PlotError::InvalidSymbol('z').message(),
        "Invalid point type: z".to_string()
    );
}

#[test]
fn first_layer_without_origin_fails() {
    let plot = CustomPlot::from_string("xxx\nxxx", 10, zero());
    assert_eq!(plot.err().unwrap(), PlotError::MissingOrigin);
}

#[test]
fn crlf_pairs_are_normalized() {
    let plot = CustomPlot::from_string("-x-\r\n-o-\r\n-x-", 10, zero()).unwrap();
    assert_eq!(plot.space, Space { x: 3, y: 3, z: 1 });
    assert_eq!(plot.origin_point(), Some((1, 1)));
}

#[test]
fn classify_symbols() {
    assert_eq!(probe_plot::layer::classify_symbol('o'), Ok(PointType::Origin));
    assert_eq!(probe_plot::layer::classify_symbol('-'), Ok(PointType::Empty));
    assert_eq!(
        probe_plot::layer::classify_symbol('x'),
        Ok(PointType::ProbePoint)
    );
    assert_eq!(
        probe_plot::layer::classify_symbol('q'),
        Err(PlotError::InvalidSymbol('q'))
    );
}

#[test]
fn construct_layer_checks_count() {
    let points = vec![PointType::Origin, PointType::ProbePoint];
    let layer = ZLayer::construct_layer(2, 1, Some((0, 0)), points).unwrap();
    assert_eq!(layer.x_space, 2);
    assert_eq!(layer.y_space, 1);

    let too_few = vec![PointType::Origin];
    let r = ZLayer::construct_layer(2, 1, Some((0, 0)), too_few);
    assert_eq!(r.err().unwrap(), PlotError::PointCountMismatch);
}

#[test]
fn layer_parse_resolves_origin_cell() {
    let layer = ZLayer::from_string("--x\n-o-\nx--").unwrap();
    assert_eq!(layer.x_space, 3);
    assert_eq!(layer.y_space, 3);
    assert_eq!(layer.origin, Some((1, 1)));
}

#[test]
fn append_mismatched_layers() {
    let origin_layer = ZLayer::construct_layer(
        2,
        1,
        Some((0, 0)),
        vec![PointType::Origin, PointType::ProbePoint],
    )
    .unwrap();
    let wide_layer = ZLayer::construct_layer(
        3,
        1,
        None,
        vec![PointType::ProbePoint, PointType::Empty, PointType::ProbePoint],
    )
    .unwrap();
    let tall_layer = ZLayer::construct_layer(
        2,
        2,
        None,
        vec![
            PointType::ProbePoint,
            PointType::Empty,
            PointType::Empty,
            PointType::ProbePoint,
        ],
    )
    .unwrap();

    let mut plot = CustomPlot::new(Space { x: 2, y: 1, z: 2 }, 10, zero());
    assert_eq!(plot.add_layer(wide_layer), Err(PlotError::XSpaceMismatch));
    assert_eq!(plot.add_layer(tall_layer), Err(PlotError::YSpaceMismatch));
    assert_eq!(plot.add_layer(origin_layer), Ok(()));
}

#[test]
fn append_beyond_layer_count_overflows() {
    let make = || {
        ZLayer::construct_layer(
            1,
            1,
            Some((0, 0)),
            vec![PointType::Origin],
        )
        .unwrap()
    };
    let mut plot = CustomPlot::new(Space { x: 1, y: 1, z: 1 }, 10, zero());
    assert_eq!(plot.add_layer(make()), Ok(()));
    assert_eq!(plot.add_layer(make()), Err(PlotError::LayerOverflow));
    assert_eq!(
        PlotError::LayerOverflow.message(),
        "Cannot add another layer, it would exceed Z-space.".to_string()
    );
}

#[test]
fn pattern_round_trip_matches_declared_space() {
    let plot = CustomPlot::from_string(VALID, 1, zero()).unwrap();
    assert_eq!(plot.space, Space { x: 15, y: 5, z: 2 });
    for layer in &plot.layers {
        assert_eq!(layer.x_space, plot.space.x);
        assert_eq!(layer.y_space, plot.space.y);
        assert_eq!(layer.points.len(), plot.space.x * plot.space.y);
    }
    assert_eq!(plot.layers.len(), plot.space.z);
}

#[test]
fn single_layer_pattern_end_to_end() {
    let plot = CustomPlot::from_string("-x-\n-o-\n-x-", 10, zero()).unwrap();
    assert_eq!(plot.origin_point(), Some((1, 1)));
    let points = plot.produce_points();
    assert_eq!(
        points,
        vec![
            Point3 { x: 0, y: -20, z: 0 },
            Point3 { x: 0, y: 0, z: 0 },
            Point3 { x: 0, y: 20, z: 0 },
        ]
    );
    let gcode = plot.plot(2000, 500);
    let lines: Vec<&str> = gcode.lines().collect();
    assert_eq!(lines.len(), 15);
    assert_eq!(lines[0], "G0 X0.0 Y-1.0 Z0.0");
    assert_eq!(lines[1], "G4 P0.5");
    assert_eq!(lines[2], "M3");
    assert_eq!(lines[3], "G4 P2");
    assert_eq!(lines[4], "M5");
    assert_eq!(lines[5], "G0 X0.0 Y0.0 Z0.0");
    assert_eq!(lines[10], "G0 X0.0 Y1.0 Z0.0");
}

#[test]
fn later_layer_origin_is_plain_probe_point() {
    // Only the first layer's origin anchors the pattern; an `o` in a later
    // layer is an ordinary probe target.
    let plot = CustomPlot::from_string("o\n\no", 10, Point3 { x: 0, y: 0, z: 0 }).unwrap();
    let points = plot.produce_points();
    assert_eq!(
        points,
        vec![Point3 { x: 0, y: 0, z: 0 }, Point3 { x: 0, y: 0, z: 20 }]
    );
}
