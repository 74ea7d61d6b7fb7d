//! Generation of motion-and-trigger command sequences for a probing device.
//!
//! The library builds an ordered list of 3D probe targets — either a dense
//! uniform grid over a bounding volume, or a custom pattern parsed from a
//! layered ASCII diagram — and renders, for each target, a fixed five-command
//! activation cycle into a newline-separated text protocol.
//!
//! All geometry is fixed-point. A [`Point3`] coordinate counts *half-tenths*
//! (1/20) of a machine unit: the protocol prints coordinates with one decimal
//! digit, and centering a grid halves a spacing, so point coordinates live on
//! a lattice twice as fine as that printed tenth. Resolutions and extents
//! count tenths (1/10) of a unit, and wait durations count milliseconds.

use vstd::prelude::*;

pub mod command;
pub mod custom;
pub mod emit;
pub mod errors;
pub mod geom;
pub mod grid;
pub mod layer;
pub mod text;

pub use command::Command;
pub use custom::CustomPlot;
pub use errors::PlotError;
pub use geom::Extent3;
pub use geom::Point3;
pub use geom::Space;
pub use grid::GridPlot;
pub use layer::PointType;
pub use layer::ZLayer;

verus! {

/// A generator of probe targets.
///
/// Every generator exposes the ordered point list it would visit, and a
/// rendering of the full command sequence — one five-command activation
/// cycle per point — into the output text protocol.
pub trait Plot {
    /// The generator's parameters admit point generation: construction
    /// succeeded and every coordinate it would compute fits the fixed-point
    /// machine range.
    spec fn wf_plot(&self) -> bool;

    /// The ordered probe targets this generator visits.
    spec fn points_spec(&self) -> Seq<Point3>;

    /// Builds the ordered list of probe targets.
    fn produce_points(&self) -> (r: Vec<Point3>)
        requires
            self.wf_plot(),
        ensures
            r@ == self.points_spec(),
    ;

    /// Renders the whole run: for each probe target in order, a move, a
    /// pre-trigger wait, tool activation, a dwell, and tool deactivation,
    /// emitted in the output text protocol.
    fn plot(&self, wait_time: u64, pre_trigger_wait: u64) -> (r: String)
        requires
            self.wf_plot(),
        ensures
            r@ == command::gcode_of(
                command::cmds_of_points(self.points_spec(), wait_time, pre_trigger_wait),
            ),
    ;
}

} // verus!
