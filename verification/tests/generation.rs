use probe_plot::command::create_gcode;
use probe_plot::Command;
use probe_plot::CustomPlot;
use probe_plot::Extent3;
use probe_plot::GridPlot;
use probe_plot::Plot;
use probe_plot::Point3;

fn zero() -> Point3 {
    Point3 { x: 0, y: 0, z: 0 }
}

#[test]
fn grid_point_count_is_product_of_axis_counts() {
    // Extents 3.0 x 2.0 x 1.0 units at resolution 1.0: 4 * 3 * 2 points.
    let grid = GridPlot::new(zero(), Extent3 { x: 30, y: 20, z: 10 }, 10);
    let points = grid.produce_points();
    assert_eq!(points.len(), 24);
    let gcode = grid.plot(1000, 0);
    assert_eq!(gcode.lines().count(), 5 * 24);
}

#[test]
fn grid_count_rounds_extent_down() {
    // floor(2.5 / 1.0) + 1 = 3 points on the x axis alone.
    let grid = GridPlot::new(zero(), Extent3 { x: 25, y: 0, z: 0 }, 10);
    assert_eq!(grid.produce_points().len(), 3);
}

#[test]
fn grid_example_nine_points() {
    let grid = GridPlot::new(zero(), Extent3 { x: 20, y: 20, z: 0 }, 10);
    let points = grid.produce_points();
    assert_eq!(points.len(), 9);
    let gcode = grid.plot(1000, 0);
    let lines: Vec<&str> = gcode.lines().collect();
    assert_eq!(lines.len(), 45);
    assert_eq!(lines[0], "G0 X-1.0 Y-1.0 Z0.0");
}

#[test]
fn grid_is_centered_on_origin() {
    // An even point count puts points half a step either side of the
    // origin; an odd count puts one point exactly on it.
    let even = GridPlot::new(zero(), Extent3 { x: 10, y: 0, z: 0 }, 10);
    let pts = even.produce_points();
    assert_eq!(pts.len(), 2);
    assert_eq!(pts[0].x + pts[1].x, 0);
    assert_eq!(pts[0].x, -10);

    let odd = GridPlot::new(
        Point3 { x: 40, y: 60, z: 0 },
        Extent3 { x: 20, y: 20, z: 0 },
        10,
    );
    let pts = odd.produce_points();
    assert_eq!(pts.len(), 9);
    for p in &pts {
        assert!(pts
            .iter()
            .any(|q| q.x + p.x == 80 && q.y == p.y && q.z == p.z));
        assert!(pts
            .iter()
            .any(|q| q.y + p.y == 120 && q.x == p.x && q.z == p.z));
    }
    assert_eq!(pts[4], Point3 { x: 40, y: 60, z: 0 });
}

#[test]
fn grid_enumerates_layers_then_rows_then_columns() {
    let grid = GridPlot::new(zero(), Extent3 { x: 10, y: 10, z: 10 }, 10);
    let pts = grid.produce_points();
    assert_eq!(
        pts,
        vec![
            Point3 { x: -10, y: -10, z: 0 },
            Point3 { x: 10, y: -10, z: 0 },
            Point3 { x: -10, y: 10, z: 0 },
            Point3 { x: 10, y: 10, z: 0 },
            Point3 { x: -10, y: -10, z: 20 },
            Point3 { x: 10, y: -10, z: 20 },
            Point3 { x: -10, y: 10, z: 20 },
            Point3 { x: 10, y: 10, z: 20 },
        ]
    );
}

#[test]
fn emitter_renders_each_command_kind() {
    let commands = vec![
        Command::Move(Point3 { x: 20, y: -20, z: 0 }),
        Command::Wait(500),
        Command::ActivateTool,
        Command::Wait(2000),
        Command::DeactivateTool,
    ];
    let gcode = create_gcode(commands);
    assert_eq!(gcode, "G0 X1.0 Y-1.0 Z0.0\nG4 P0.5\nM3\nG4 P2\nM5\n");
}

#[test]
fn emitter_rounds_half_tenths_away_from_zero() {
    let gcode = create_gcode(vec![Command::Move(Point3 { x: 3, y: -3, z: 2 })]);
    assert_eq!(gcode, "G0 X0.2 Y-0.2 Z0.1\n");
}

#[test]
fn emitter_trims_wait_fractions() {
    let gcode = create_gcode(vec![
        Command::Wait(0),
        Command::Wait(250),
        Command::Wait(1500),
        Command::Wait(3),
    ]);
    assert_eq!(gcode, "G4 P0\nG4 P0.25\nG4 P1.5\nG4 P0.003\n");
}

#[test]
fn emitter_is_deterministic() {
    let grid = GridPlot::new(zero(), Extent3 { x: 20, y: 20, z: 10 }, 10);
    let first = grid.plot(1500, 250);
    let second = grid.plot(1500, 250);
    assert_eq!(first.as_bytes(), second.as_bytes());

    let custom = CustomPlot::from_string("x-o\n\nxxx", 5, zero()).unwrap();
    let a = custom.plot(2000, 0);
    let b = custom.plot(2000, 0);
    assert_eq!(a.as_bytes(), b.as_bytes());
}

#[test]
fn readiness_checks_guard_plotting() {
    let good = GridPlot::new(zero(), Extent3 { x: 20, y: 20, z: 0 }, 10);
    assert!(good.plot_ready());
    let bad = GridPlot::new(zero(), Extent3 { x: 20, y: 20, z: 0 }, 0);
    assert!(!bad.plot_ready());
    let negative = GridPlot::new(zero(), Extent3 { x: -10, y: 0, z: 0 }, 10);
    assert!(!negative.plot_ready());

    let pattern = CustomPlot::from_string("-o-\nx-x", 10, zero()).unwrap();
    assert!(pattern.plot_ready());
    let empty = CustomPlot::new(probe_plot::Space { x: 1, y: 1, z: 1 }, 10, zero());
    assert!(!empty.plot_ready());
}
