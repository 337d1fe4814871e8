//! The text of a report.

use crate::model::{stack_view, Frame, FrameView};
use vstd::prelude::*;
use vstd::string::StringExecFns;

verus! {

/// The line of a report for one frame.
pub open spec fn frame_line(frame: FrameView) -> Seq<char> {
    "    "@ + frame.description + " in "@ + frame.location + "\n"@
}

/// The lines of a report: the marker `marker`, then one line for each
/// frame of `stack`, outermost first.
pub open spec fn report_lines(marker: Seq<char>, stack: Seq<FrameView>) -> Seq<Seq<char>> {
    seq![marker] + stack.map_values(|frame: FrameView| frame_line(frame))
}

fn report(marker: &str, call_stack: &Vec<Frame>) -> (lines: Vec<String>)
    ensures
        lines@.map_values(|line: String| line@) == report_lines(marker@, stack_view(call_stack@)),
{
    let mut lines: Vec<String> = Vec::new();
    lines.push(String::from_str(marker));
    let mut i: usize = 0;
    while i < call_stack.len()
        invariant
            i <= call_stack@.len(),
            lines@.len() == i + 1,
            lines@[0]@ == marker@,
            forall|k: int| 0 <= k < i ==> (#[trigger] lines@[k + 1])@ == frame_line(call_stack@[k]@),
        decreases call_stack@.len() - i,
    {
        let frame = &call_stack[i];
        let mut line = String::from_str("    ");
        line.append(frame.description.as_str());
        line.append(" in ");
        line.append(frame.location.as_str());
        line.append("\n");
        lines.push(line);
        i += 1;
    }
    assert(lines@.map_values(|line: String| line@) =~= report_lines(
        marker@,
        stack_view(call_stack@),
    )) by {
        let left = lines@.map_values(|line: String| line@);
        let right = report_lines(marker@, stack_view(call_stack@));
        assert(left.len() == right.len());
        assert forall|k: int| 0 <= k < left.len() implies left[k] == right[k] by {
            if k > 0 {
                assert(lines@[(k - 1) + 1]@ == frame_line(call_stack@[k - 1]@));
            }
        }
    }
    lines
}

/// The report of a finding: the marker of a panic, then the frames of the
/// call stack that ends in the panic primitive.
pub fn log_panic_in_deny_block(call_stack: &Vec<Frame>) -> (lines: Vec<String>)
    ensures
        lines@.map_values(|line: String| line@) == report_lines(
            "OMG A PANIC"@,
            stack_view(call_stack@),
        ),
{
    report("OMG A PANIC", call_stack)
}

/// The report of a suppression region that was met: its marker, then the
/// frames of the call stack at the region.
pub fn log_allow_panic(call_stack: &Vec<Frame>) -> (lines: Vec<String>)
    ensures
        lines@.map_values(|line: String| line@) == report_lines(
            "ATTENTION ALLOW PANIC"@,
            stack_view(call_stack@),
        ),
{
    report("ATTENTION ALLOW PANIC", call_stack)
}

} // verus!
