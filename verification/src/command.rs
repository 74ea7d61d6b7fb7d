//! The abstract command sequence and its rendering into the text protocol.

use vstd::prelude::*;

use crate::emit::fmt_coord;
use crate::emit::fmt_seconds;
use crate::emit::push_coord;
use crate::emit::push_seconds;
use crate::geom::Point3;

verus! {

/// One abstract machine command.
///
/// `Move` targets a machine coordinate, `Wait` pauses for a number of
/// milliseconds, and the two tool commands switch the spindle on and off.
#[derive(Clone, Copy, Debug, PartialEq, Eq, Structural)]
pub enum Command {
    Move(Point3),
    Wait(u64),
    ActivateTool,
    DeactivateTool,
}

/// The single protocol line a command renders to, newline included.
pub open spec fn line_of(c: Command) -> Seq<char> {
    match c {
        Command::Move(p) => "G0 X"@ + fmt_coord(p.x as int) + " Y"@ + fmt_coord(p.y as int)
            + " Z"@ + fmt_coord(p.z as int) + "\n"@,
        Command::Wait(ms) => "G4 P"@ + fmt_seconds(ms as nat) + "\n"@,
        Command::ActivateTool => "M3\n"@,
        Command::DeactivateTool => "M5\n"@,
    }
}

/// The whole rendered protocol text: the lines of the commands in order.
pub open spec fn gcode_of(cmds: Seq<Command>) -> Seq<char>
    decreases cmds.len(),
{
    if cmds.len() == 0 {
        Seq::empty()
    } else {
        gcode_of(cmds.drop_last()) + line_of(cmds.last())
    }
}

/// The five-command activation cycle emitted for one probe target.
pub open spec fn cmd_cycle(p: Point3, wait_time: u64, pre_trigger_wait: u64) -> Seq<Command> {
    seq![
        Command::Move(p),
        Command::Wait(pre_trigger_wait),
        Command::ActivateTool,
        Command::Wait(wait_time),
        Command::DeactivateTool,
    ]
}

/// The command sequence for an ordered list of probe targets: one activation
/// cycle per point, in point order.
pub open spec fn cmds_of_points(ps: Seq<Point3>, wait_time: u64, pre_trigger_wait: u64) -> Seq<
    Command,
>
    decreases ps.len(),
{
    if ps.len() == 0 {
        Seq::empty()
    } else {
        cmds_of_points(ps.drop_last(), wait_time, pre_trigger_wait) + cmd_cycle(
            ps.last(),
            wait_time,
            pre_trigger_wait,
        )
    }
}

/// A command sequence holds exactly five commands per probe target.
pub proof fn lemma_command_count(ps: Seq<Point3>, wait_time: u64, pre_trigger_wait: u64)
    ensures
        cmds_of_points(ps, wait_time, pre_trigger_wait).len() == 5 * ps.len(),
    decreases ps.len(),
{
    if ps.len() > 0 {
        lemma_command_count(ps.drop_last(), wait_time, pre_trigger_wait);
    }
}

/// Rendering is a pure function of the command sequence: two renderings of
/// equal sequences are identical, character for character.
pub proof fn lemma_emitter_deterministic(a: Seq<Command>, b: Seq<Command>)
    requires
        a == b,
    ensures
        gcode_of(a) == gcode_of(b),
{
}

/// Builds the command list for an ordered list of probe targets.
pub fn commands_for(points: &Vec<Point3>, wait_time: u64, pre_trigger_wait: u64) -> (r: Vec<
    Command,
>)
    ensures
        r@ == cmds_of_points(points@, wait_time, pre_trigger_wait),
{
    let mut commands: Vec<Command> = Vec::new();
    let mut i: usize = 0;
    while i < points.len()
        invariant
            i <= points@.len(),
            commands@ == cmds_of_points(points@.take(i as int), wait_time, pre_trigger_wait),
        decreases points@.len() - i,
    {
        let p = points[i];
        commands.push(Command::Move(p));
        commands.push(Command::Wait(pre_trigger_wait));
        commands.push(Command::ActivateTool);
        commands.push(Command::Wait(wait_time));
        commands.push(Command::DeactivateTool);
        proof {
            let t1 = points@.take(i + 1);
            assert(t1.drop_last() =~= points@.take(i as int));
            assert(t1.last() == points@[i as int]);
            assert(commands@ =~= cmds_of_points(points@.take(i as int), wait_time,
                pre_trigger_wait) + cmd_cycle(points@[i as int], wait_time, pre_trigger_wait));
        }
        i = i + 1;
    }
    proof {
        assert(points@.take(points@.len() as int) =~= points@);
    }
    commands
}

/// Renders a command list into the output text protocol, one line per
/// command, each line newline-terminated.
pub fn create_gcode(commands: Vec<Command>) -> (r: String)
    ensures
        r@ == gcode_of(commands@),
{
    let mut out = String::new();
    let mut i: usize = 0;
    while i < commands.len()
        invariant
            i <= commands@.len(),
            out@ == gcode_of(commands@.take(i as int)),
        decreases commands@.len() - i,
    {
        let ghost prev = out@;
        match commands[i] {
            Command::Move(p) => {
                out.append("G0 X");
                push_coord(&mut out, p.x);
                out.append(" Y");
                push_coord(&mut out, p.y);
                out.append(" Z");
                push_coord(&mut out, p.z);
                out.append("\n");
                proof {
                    assert(out@ =~= prev + line_of(commands@[i as int]));
                }
            },
            Command::Wait(ms) => {
                out.append("G4 P");
                push_seconds(&mut out, ms);
                out.append("\n");
                proof {
                    assert(out@ =~= prev + line_of(commands@[i as int]));
                }
            },
            Command::ActivateTool => {
                out.append("M3\n");
                proof {
                    assert(out@ =~= prev + line_of(commands@[i as int]));
                }
            },
            Command::DeactivateTool => {
                out.append("M5\n");
                proof {
                    assert(out@ =~= prev + line_of(commands@[i as int]));
                }
            },
        }
        proof {
            let t1 = commands@.take(i + 1);
            assert(t1.drop_last() =~= commands@.take(i as int));
            assert(t1.last() == commands@[i as int]);
        }
        i = i + 1;
    }
    proof {
        assert(commands@.take(commands@.len() as int) =~= commands@);
    }
    out
}

} // verus!
