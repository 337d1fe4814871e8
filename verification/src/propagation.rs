//! What holds of the calls that pass from one unit to another.

use crate::function_collectors::{
    argument_at, arguments_of, arguments_upto, callee_id, callers_upto, calls_in, calls_in_root,
    calls_noted, method_of, missing_upto, note_from, noted, noted_callers, noted_calls, noted_entries,
    noted_roots, own_frame, regions_of, resumed_upto, resumption, scanned_upto, site_frame,
    solved, suppressed_upto, ArgumentView, CallerView, EntryView, ProceduralParameter,
    Resumption,
};
use crate::function_handlers::{disposal, is_runtime_unit, is_sink, Disposal};
use crate::hir_traverser::{
    absorbed, after_arguments, after_entries, after_roots, after_walk, checked, has_entry, joined,
    passed, root_walk, Outcome,
};
use crate::laws::{
    begins_with, bodies_named, calls_behind, calls_named, calls_plainly, is_the_leaf, linked,
    reached_call_is_one_leaf, reached_primitive_is_reported_once, reports,
    root_walk_keeps_the_start,
};
use crate::model::{position_is_first, Expr, FrameView, Function, FunctionId, Unit};
use crate::pending::{bucket_from, bucket_is_first, saved, PendingCallView};
use crate::walk::{walk, LeafView, Walk};
use vstd::prelude::*;

verus! {

/// Whether `call` waits for the unit `name`: it is in the unit's bucket.
pub open spec fn waits(
    pending: Seq<(Seq<char>, Seq<PendingCallView>)>,
    name: Seq<char>,
    call: PendingCallView,
) -> bool {
    match bucket_from(pending, name, 0) {
        Some(at) => pending[at].1.contains(call),
        None => false,
    }
}

/// Whether `outcome` holds what became of `leaf`: its call stack is among
/// the findings, or its call waits for its unit, or it was dropped.
pub open spec fn holds(outcome: Outcome, leaf: LeafView) -> bool {
    match disposal(leaf) {
        Disposal::Finding(stack) => outcome.findings.contains(stack),
        Disposal::Later { unit, call } => waits(outcome.pending, unit, call),
        Disposal::Dropped => true,
    }
}

/// Whether `later` holds every finding and every waiting call of
/// `earlier`.
pub open spec fn keeps(earlier: Outcome, later: Outcome) -> bool {
    &&& forall|stack: Seq<FrameView>| #[trigger]
        earlier.findings.contains(stack) ==> later.findings.contains(stack)
    &&& forall|name: Seq<char>, call: PendingCallView| #[trigger]
        waits(earlier.pending, name, call) ==> waits(later.pending, name, call)
}

proof fn saved_keeps(
    pending: Seq<(Seq<char>, Seq<PendingCallView>)>,
    name: Seq<char>,
    call: PendingCallView,
)
    ensures
        waits(saved(pending, name, call), name, call),
        forall|other: Seq<char>, earlier: PendingCallView| #[trigger]
            waits(pending, other, earlier) ==> waits(saved(pending, name, call), other, earlier),
{
    let after = saved(pending, name, call);
    bucket_is_first(pending, name, 0);
    bucket_is_first(after, name, 0);
    match bucket_from(pending, name, 0) {
        Some(at) => {
            assert(after[at].0 == name);
            assert(bucket_from(after, name, 0) == Some(at));
            assert(after[at].1.last() == call);
        },
        None => {
            assert(after[pending.len() as int].0 == name);
            assert(bucket_from(after, name, 0) == Some(pending.len() as int));
            assert(after[pending.len() as int].1[0] == call);
        },
    }
    assert forall|other: Seq<char>, earlier: PendingCallView| #[trigger]
        waits(pending, other, earlier) implies waits(after, other, earlier) by {
        bucket_is_first(pending, other, 0);
        bucket_is_first(after, other, 0);
        let old_at = bucket_from(pending, other, 0)->0;
        assert(after[old_at].0 == other);
        assert(bucket_from(after, other, 0) == Some(old_at)) by {
            let new_at = bucket_from(after, other, 0)->0;
            if new_at < old_at {
                assert(pending[new_at].0 == after[new_at].0);
            }
        }
        let i = choose|i: int| 0 <= i < pending[old_at].1.len() && pending[old_at].1[i] == earlier;
        assert(after[old_at].1[i] == earlier);
    }
}

proof fn keeps_chain(first: Outcome, second: Outcome, third: Outcome)
    requires
        keeps(first, second),
        keeps(second, third),
    ensures
        keeps(first, third),
{
    assert forall|stack: Seq<FrameView>| #[trigger]
        first.findings.contains(stack) implies third.findings.contains(stack) by {
        assert(second.findings.contains(stack));
    }
    assert forall|name: Seq<char>, call: PendingCallView| #[trigger]
        waits(first.pending, name, call) implies waits(third.pending, name, call) by {
        assert(waits(second.pending, name, call));
    }
}

proof fn held_stays(earlier: Outcome, later: Outcome, leaf: LeafView)
    requires
        keeps(earlier, later),
        holds(earlier, leaf),
    ensures
        holds(later, leaf),
{
    match disposal(leaf) {
        Disposal::Finding(stack) => {
            assert(earlier.findings.contains(stack));
        },
        Disposal::Later { unit, call } => {
            assert(waits(earlier.pending, unit, call));
        },
        Disposal::Dropped => {},
    }
}

proof fn absorbed_holds(outcome: Outcome, leaves: Seq<LeafView>, upto: int, at: int)
    requires
        0 <= upto <= leaves.len(),
    ensures
        keeps(outcome, absorbed(outcome, leaves, upto)),
        0 <= at < upto ==> holds(absorbed(outcome, leaves, upto), leaves[at]),
    decreases upto,
{
    if upto > 0 {
        absorbed_holds(outcome, leaves, upto - 1, at);
        let before = absorbed(outcome, leaves, upto - 1);
        let after = absorbed(outcome, leaves, upto);
        let leaf = leaves[upto - 1];
        assert(keeps(before, after) && holds(after, leaf)) by {
            match disposal(leaf) {
                Disposal::Finding(stack) => {
                    assert(after.findings.last() == stack);
                    assert forall|found: Seq<FrameView>| #[trigger]
                        before.findings.contains(found) implies after.findings.contains(found) by {
                        let i = choose|i: int|
                            0 <= i < before.findings.len() && before.findings[i] == found;
                        assert(after.findings[i] == found);
                    }
                },
                Disposal::Later { unit, call } => {
                    saved_keeps(before.pending, unit, call);
                },
                Disposal::Dropped => {},
            }
        }
        keeps_chain(outcome, before, after);
        if 0 <= at < upto - 1 {
            held_stays(before, after, leaves[at]);
        }
    }
}

/// Taking a finished walk in keeps what was gathered, and holds what
/// became of each of its leaves.
pub proof fn walk_is_taken_in(outcome: Outcome, finished: Walk, at: int)
    ensures
        keeps(outcome, after_walk(outcome, finished)),
        0 <= at < finished.leaves.len() ==> holds(
            after_walk(outcome, finished),
            finished.leaves[at],
        ),
{
    absorbed_holds(outcome, finished.leaves, finished.leaves.len() as int, at);
    let disposed = absorbed(outcome, finished.leaves, finished.leaves.len() as int);
    let after = after_walk(outcome, finished);
    assert(keeps(disposed, after));
    keeps_chain(outcome, disposed, after);
    if 0 <= at < finished.leaves.len() {
        held_stays(disposed, after, finished.leaves[at]);
    }
}

proof fn roots_are_taken_in(
    outcome: Outcome,
    unit: Unit,
    roots: Seq<Expr>,
    stack: Seq<FrameView>,
    upto: int,
    root: int,
    at: int,
)
    requires
        0 <= upto <= roots.len(),
    ensures
        keeps(outcome, after_roots(outcome, unit, roots, stack, upto)),
        0 <= root < upto && 0 <= at < root_walk(unit, roots[root], stack).leaves.len() ==> holds(
            after_roots(outcome, unit, roots, stack, upto),
            root_walk(unit, roots[root], stack).leaves[at],
        ),
    decreases upto,
{
    if upto > 0 {
        roots_are_taken_in(outcome, unit, roots, stack, upto - 1, root, at);
        let before = after_roots(outcome, unit, roots, stack, upto - 1);
        let finished = root_walk(unit, roots[upto - 1], stack);
        walk_is_taken_in(before, finished, at);
        let after = after_roots(outcome, unit, roots, stack, upto);
        keeps_chain(outcome, before, after);
        if 0 <= root < upto - 1 && 0 <= at < root_walk(unit, roots[root], stack).leaves.len() {
            held_stays(before, after, root_walk(unit, roots[root], stack).leaves[at]);
        }
    }
}

/// Walking entries keeps what was gathered, and holds what became of each
/// leaf of the walk of each place where a walk starts.
pub proof fn entries_are_taken_in(
    outcome: Outcome,
    unit: Unit,
    entries: Seq<EntryView>,
    upto: int,
    entry: int,
    root: int,
    at: int,
)
    requires
        0 <= upto <= entries.len(),
    ensures
        keeps(outcome, after_entries(outcome, unit, entries, upto)),
        0 <= entry < upto && 0 <= root < entries[entry].roots.len() && 0 <= at < root_walk(
            unit,
            entries[entry].roots[root],
            entries[entry].call_stack,
        ).leaves.len() ==> holds(
            after_entries(outcome, unit, entries, upto),
            root_walk(unit, entries[entry].roots[root], entries[entry].call_stack).leaves[at],
        ),
    decreases upto,
{
    if upto > 0 {
        entries_are_taken_in(outcome, unit, entries, upto - 1, entry, root, at);
        let before = after_entries(outcome, unit, entries, upto - 1);
        let last = entries[upto - 1];
        roots_are_taken_in(
            before,
            unit,
            last.roots,
            last.call_stack,
            last.roots.len() as int,
            root,
            at,
        );
        let after = after_entries(outcome, unit, entries, upto);
        keeps_chain(outcome, before, after);
        if 0 <= entry < upto - 1 && 0 <= root < entries[entry].roots.len() && 0 <= at < root_walk(
            unit,
            entries[entry].roots[root],
            entries[entry].call_stack,
        ).leaves.len() {
            held_stays(
                before,
                after,
                root_walk(unit, entries[entry].roots[root], entries[entry].call_stack).leaves[at],
            );
        }
    }
}

proof fn resumed_has_entry(unit: Unit, calls: Seq<PendingCallView>, upto: int, at: int)
    requires
        0 <= at < upto <= calls.len(),
        resumption(unit, calls[at]) is Walk,
    ensures
        exists|entry: int|
            0 <= entry < resumed_upto(unit, calls, upto).len() && #[trigger] resumed_upto(
                unit,
                calls,
                upto,
            )[entry] == (EntryView {
                function: unit.functions@[resumption(unit, calls[at])->0].id,
                roots: seq![unit.functions@[resumption(unit, calls[at])->0].body],
                call_stack: calls[at].call_stack,
            }),
    decreases upto,
{
    let wanted = EntryView {
        function: unit.functions@[resumption(unit, calls[at])->0].id,
        roots: seq![unit.functions@[resumption(unit, calls[at])->0].body],
        call_stack: calls[at].call_stack,
    };
    let entries = resumed_upto(unit, calls, upto);
    if at == upto - 1 {
        assert(entries[entries.len() - 1] == wanted);
    } else {
        resumed_has_entry(unit, calls, upto - 1, at);
        let before = resumed_upto(unit, calls, upto - 1);
        let entry = choose|entry: int| 0 <= entry < before.len() && before[entry] == wanted;
        assert(entries[entry] == wanted);
    }
}

proof fn joined_begins_with_seeded(seeded: Seq<EntryView>, scanned: Seq<EntryView>, upto: int)
    requires
        0 <= upto <= scanned.len(),
    ensures
        seeded.len() <= joined(seeded, scanned, upto).len(),
        forall|entry: int|
            0 <= entry < seeded.len() ==> #[trigger] joined(seeded, scanned, upto)[entry]
                == seeded[entry],
    decreases upto,
{
    if upto > 0 {
        joined_begins_with_seeded(seeded, scanned, upto - 1);
    }
}

proof fn joined_holds_unseeded(seeded: Seq<EntryView>, scanned: Seq<EntryView>, upto: int, at: int)
    requires
        0 <= at < upto <= scanned.len(),
        !has_entry(seeded, scanned[at].function),
    ensures
        exists|entry: int|
            0 <= entry < joined(seeded, scanned, upto).len() && #[trigger] joined(
                seeded,
                scanned,
                upto,
            )[entry] == scanned[at],
    decreases upto,
{
    let entries = joined(seeded, scanned, upto);
    if at == upto - 1 {
        assert(entries[entries.len() - 1] == scanned[at]);
    } else {
        joined_holds_unseeded(seeded, scanned, upto - 1, at);
        let before = joined(seeded, scanned, upto - 1);
        let entry = choose|entry: int| 0 <= entry < before.len() && before[entry] == scanned[at];
        assert(entries[entry] == scanned[at]);
    }
}

proof fn scanned_has_entry(functions: Seq<Function>, upto: int, position: int)
    requires
        0 <= position < upto <= functions.len(),
        regions_of(functions[position].body).len() > 0,
    ensures
        exists|entry: int|
            0 <= entry < scanned_upto(functions, upto).len() && #[trigger] scanned_upto(
                functions,
                upto,
            )[entry] == (EntryView {
                function: functions[position].id,
                roots: regions_of(functions[position].body),
                call_stack: seq![own_frame(functions[position])],
            }),
    decreases upto,
{
    let wanted = EntryView {
        function: functions[position].id,
        roots: regions_of(functions[position].body),
        call_stack: seq![own_frame(functions[position])],
    };
    let entries = scanned_upto(functions, upto);
    if position == upto - 1 {
        assert(entries[entries.len() - 1] == wanted);
    } else {
        scanned_has_entry(functions, upto - 1, position);
        let before = scanned_upto(functions, upto - 1);
        let entry = choose|entry: int| 0 <= entry < before.len() && before[entry] == wanted;
        assert(entries[entry] == wanted);
    }
}

/// When a unit is walked, each call that waited for it and that goes to a
/// body of the unit is walked under the call stack that led to it, and
/// what became of each leaf of that walk is held afterwards.
pub proof fn waiting_call_is_walked(
    unit: Unit,
    outcome: Outcome,
    notes: Seq<ProceduralParameter>,
    calls: Seq<PendingCallView>,
    scan: bool,
    call: int,
    at: int,
)
    requires
        0 <= call < calls.len(),
        resumption(unit, calls[call]) is Walk,
        missing_upto(unit, calls, calls.len() as int) is None,
        0 <= at < root_walk(
            unit,
            unit.functions@[resumption(unit, calls[call])->0].body,
            calls[call].call_stack,
        ).leaves.len(),
    ensures
        checked(outcome, notes, unit, calls, scan) is Ok,
        holds(
            checked(outcome, notes, unit, calls, scan)->Ok_0.0,
            root_walk(
                unit,
                unit.functions@[resumption(unit, calls[call])->0].body,
                calls[call].call_stack,
            ).leaves[at],
        ),
{
    let resumed = resumed_upto(unit, calls, calls.len() as int);
    let scanned = scanned_upto(unit.functions@, unit.functions@.len() as int);
    let entries = if scan {
        joined(resumed, scanned, scanned.len() as int)
    } else {
        resumed
    };
    resumed_has_entry(unit, calls, calls.len() as int, call);
    let body = unit.functions@[resumption(unit, calls[call])->0].body;
    let wanted = EntryView {
        function: unit.functions@[resumption(unit, calls[call])->0].id,
        roots: seq![body],
        call_stack: calls[call].call_stack,
    };
    let entry = choose|entry: int| 0 <= entry < resumed.len() && resumed[entry] == wanted;
    if scan {
        joined_begins_with_seeded(resumed, scanned, scanned.len() as int);
    }
    assert(entries[entry] == wanted);
    assert(wanted.roots[0] == body);
    let before = Outcome {
        allowed: outcome.allowed + suppressed_upto(
            unit,
            calls,
            calls.len() as int,
        ),
        ..outcome
    };
    entries_are_taken_in(before, unit, entries, entries.len() as int, entry, 0, at);
}

/// When a unit is walked for the first time with no call waiting for it,
/// each of its restricted regions is walked under the frame of its
/// function, and what became of each leaf of that walk is held
/// afterwards.
pub proof fn region_is_walked(
    unit: Unit,
    outcome: Outcome,
    notes: Seq<ProceduralParameter>,
    position: int,
    region: int,
    at: int,
)
    requires
        0 <= position < unit.functions@.len(),
        0 <= region < regions_of(unit.functions@[position].body).len(),
        0 <= at < root_walk(
            unit,
            regions_of(unit.functions@[position].body)[region],
            seq![own_frame(unit.functions@[position])],
        ).leaves.len(),
    ensures
        checked(outcome, notes, unit, Seq::empty(), true) is Ok,
        keeps(outcome, checked(outcome, notes, unit, Seq::empty(), true)->Ok_0.0),
        holds(
            checked(outcome, notes, unit, Seq::empty(), true)->Ok_0.0,
            root_walk(
                unit,
                regions_of(unit.functions@[position].body)[region],
                seq![own_frame(unit.functions@[position])],
            ).leaves[at],
        ),
{
    let calls = Seq::<PendingCallView>::empty();
    let resumed = resumed_upto(unit, calls, 0);
    let scanned = scanned_upto(unit.functions@, unit.functions@.len() as int);
    let entries = joined(resumed, scanned, scanned.len() as int);
    scanned_has_entry(unit.functions@, unit.functions@.len() as int, position);
    let function = unit.functions@[position];
    let wanted = EntryView {
        function: function.id,
        roots: regions_of(function.body),
        call_stack: seq![own_frame(function)],
    };
    let found = choose|entry: int| 0 <= entry < scanned.len() && scanned[entry] == wanted;
    assert(!has_entry(resumed, scanned[found].function));
    joined_holds_unseeded(resumed, scanned, scanned.len() as int, found);
    let entry = choose|entry: int| 0 <= entry < entries.len() && entries[entry] == wanted;
    let before = Outcome {
        allowed: outcome.allowed + suppressed_upto(unit, calls, 0),
        ..outcome
    };
    assert(keeps(outcome, before));
    entries_are_taken_in(before, unit, entries, entries.len() as int, entry, region, at);
    keeps_chain(outcome, before, after_entries(before, unit, entries, entries.len() as int));
}


/// Whether the body of `function` stands in `unit` and is no suppression
/// region, so that a plain call of the function is resumed by walking the
/// body.
pub open spec fn is_resumed_in(unit: Unit, function: FunctionId) -> bool {
    match unit.position(function) {
        Some(position) => match unit.functions@[position].body {
            Expr::Block { label, .. } => !label.suppresses,
            _ => true,
        },
        None => false,
    }
}

/// A restricted region of one unit that calls, through calls of its own
/// unit, a function of a second unit, which in turn calls a panic
/// primitive through calls of the second unit, yields a finding once the
/// second unit is walked: when the first unit is walked, the call waits
/// for the second unit; and when the second unit is walked with the calls
/// that wait for it, and holds the bodies of them all, the findings hold a
/// call stack that begins with the frame of the region's function and ends
/// in the frame that names the primitive.
pub proof fn call_across_units_is_reported(
    first: Unit,
    second: Unit,
    outcome: Outcome,
    notes: Seq<ProceduralParameter>,
    later_notes: Seq<ProceduralParameter>,
    scan: bool,
    position: int,
    region: int,
    chain: Seq<int>,
    callee: FunctionId,
    callee_name: Seq<char>,
    inner_chain: Seq<int>,
    sink: FunctionId,
    sink_name: Seq<char>,
    sink_owner: Seq<char>,
)
    requires
        0 <= position < first.functions@.len(),
        0 <= region < regions_of(first.functions@[position].body).len(),
        linked(first, regions_of(first.functions@[position].body)[region], chain),
        calls_plainly(
            first,
            calls_behind(
                first,
                regions_of(first.functions@[position].body)[region],
                chain,
                chain.len() as int,
            ),
            callee,
        ),
        !first.is_local(callee),
        calls_named(
            first,
            calls_in_root(regions_of(first.functions@[position].body)[region]),
            callee,
            callee_name,
            second.name@,
        ),
        bodies_named(first, callee, callee_name, second.name@),
        !is_runtime_unit(second.name@),
        is_resumed_in(second, callee),
        linked(second, second.functions@[second.position(callee)->0].body, inner_chain),
        calls_plainly(
            second,
            calls_behind(
                second,
                second.functions@[second.position(callee)->0].body,
                inner_chain,
                inner_chain.len() as int,
            ),
            sink,
        ),
        !second.is_local(sink),
        calls_named(
            second,
            calls_in_root(second.functions@[second.position(callee)->0].body),
            sink,
            sink_name,
            sink_owner,
        ),
        bodies_named(second, sink, sink_name, sink_owner),
        is_sink(sink_owner, sink_name),
    ensures
        checked(outcome, notes, first, Seq::empty(), true) is Ok,
        bucket_from(
            checked(outcome, notes, first, Seq::empty(), true)->Ok_0.0.pending,
            second.name@,
            0,
        ) is Some,
        ({
            let gathered = checked(outcome, notes, first, Seq::empty(), true)->Ok_0.0;
            let at = bucket_from(gathered.pending, second.name@, 0)->0;
            let calls = gathered.pending[at].1;
            let rest = Outcome { pending: gathered.pending.remove(at), ..gathered };
            missing_upto(second, calls, calls.len() as int) is None ==> {
                &&& checked(rest, later_notes, second, calls, scan) is Ok
                &&& exists|finding: Seq<FrameView>|
                    #![trigger checked(rest, later_notes, second, calls, scan)->Ok_0.0.findings.contains(finding)]
                    checked(rest, later_notes, second, calls, scan)->Ok_0.0.findings.contains(
                        finding,
                    ) && finding.len() > 0 && finding[0] == own_frame(first.functions@[position])
                        && finding.last().description == sink_name
            }
        }),
{
    let function = first.functions@[position];
    let root = regions_of(function.body)[region];
    let stack = seq![own_frame(function)];
    reached_call_is_one_leaf(first, root, stack, chain, callee, callee_name, second.name@);
    let leaves = root_walk(first, root, stack).leaves;
    let leaf_at = choose|at: int| is_the_leaf(leaves, at, callee, callee_name, second.name@);
    region_is_walked(first, outcome, notes, position, region, leaf_at);
    let gathered = checked(outcome, notes, first, Seq::empty(), true)->Ok_0.0;
    let leaf = leaves[leaf_at];
    let call = PendingCallView { function: callee, call_stack: leaf.stack, receiver: None };
    assert(disposal(leaf) == Disposal::Later { unit: second.name@, call });
    assert(waits(gathered.pending, second.name@, call));
    let at = bucket_from(gathered.pending, second.name@, 0)->0;
    let calls = gathered.pending[at].1;
    let rest = Outcome { pending: gathered.pending.remove(at), ..gathered };
    if missing_upto(second, calls, calls.len() as int) is None {
        let index = choose|index: int| 0 <= index < calls.len() && calls[index] == call;
        let body = second.functions@[second.position(callee)->0].body;
        position_is_first(second.functions@, callee, 0);
        assert(resumption(second, call) == Resumption::Walk(second.position(callee)->0));
        reached_primitive_is_reported_once(
            second,
            body,
            call.call_stack,
            inner_chain,
            sink,
            sink_name,
            sink_owner,
        );
        let found = root_walk(second, body, call.call_stack).leaves;
        let report = choose|report: int|
            reports(found, report, sink, sink_name) && begins_with(
                found[report].stack,
                call.call_stack,
            );
        waiting_call_is_walked(second, rest, later_notes, calls, scan, index, report);
        let last = checked(rest, later_notes, second, calls, scan)->Ok_0.0;
        root_walk_keeps_the_start(first, root, stack);
        assert(begins_with(leaf.stack, stack));
        assert(leaf.stack.subrange(0, 1)[0] == own_frame(function));
        assert(found[report].stack.subrange(0, leaf.stack.len() as int)[0] == leaf.stack[0]);
        assert(last.findings.contains(found[report].stack));
    }
}


proof fn noted_callers_hold(
    notes: Seq<ProceduralParameter>,
    function: Function,
    calls: Seq<Expr>,
    upto: int,
    at: int,
)
    requires
        0 <= at < upto <= calls.len(),
        calls_noted(notes, calls[at]),
    ensures
        noted_callers(notes, function, calls, upto).contains(
            CallerView { call: calls[at], function },
        ),
    decreases upto,
{
    let wanted = CallerView { call: calls[at], function };
    let callers = noted_callers(notes, function, calls, upto);
    if at == upto - 1 {
        assert(callers[callers.len() - 1] == wanted);
    } else {
        noted_callers_hold(notes, function, calls, upto - 1, at);
        let before = noted_callers(notes, function, calls, upto - 1);
        let found = choose|found: int| 0 <= found < before.len() && before[found] == wanted;
        assert(callers[found] == wanted);
    }
}

proof fn callers_hold(
    notes: Seq<ProceduralParameter>,
    functions: Seq<Function>,
    upto: int,
    position: int,
    at: int,
)
    requires
        0 <= position < upto <= functions.len(),
        0 <= at < calls_in(functions[position].body).len(),
        calls_noted(notes, calls_in(functions[position].body)[at]),
    ensures
        callers_upto(notes, functions, upto).contains(
            CallerView {
                call: calls_in(functions[position].body)[at],
                function: functions[position],
            },
        ),
    decreases upto,
{
    let wanted = CallerView {
        call: calls_in(functions[position].body)[at],
        function: functions[position],
    };
    let last = functions[upto - 1];
    let before = callers_upto(notes, functions, upto - 1);
    let added = noted_callers(notes, last, calls_in(last.body), calls_in(last.body).len() as int);
    if position == upto - 1 {
        noted_callers_hold(notes, last, calls_in(last.body), calls_in(last.body).len() as int, at);
        let found = choose|found: int| 0 <= found < added.len() && added[found] == wanted;
        assert((before + added)[before.len() + found] == wanted);
    } else {
        callers_hold(notes, functions, upto - 1, position, at);
        let found = choose|found: int| 0 <= found < before.len() && before[found] == wanted;
        assert((before + added)[found] == wanted);
    }
}

/// Whether the note at position `note` of `notes` is for the function that
/// the call of `caller` names, and the call hands `argument` to the noted
/// parameter.
pub open spec fn hands(
    notes: Seq<ProceduralParameter>,
    caller: CallerView,
    note: int,
    argument: Expr,
) -> bool {
    &&& 0 <= note < notes.len()
    &&& caller.call matches Expr::Call { target, .. }
    &&& callee_id(target) == Some(notes[note].function)
    &&& argument_at(caller.call, notes[note].parameter as int) == Some(argument)
}

proof fn arguments_of_hold(
    notes: Seq<ProceduralParameter>,
    caller: CallerView,
    upto: int,
    note: int,
    argument: Expr,
)
    requires
        0 <= note < upto <= notes.len(),
        hands(notes, caller, note, argument),
    ensures
        arguments_of(notes, caller, upto).contains(
            ArgumentView { argument, to_log: site_frame(caller), method: notes[note].method },
        ),
    decreases upto,
{
    let wanted = ArgumentView {
        argument,
        to_log: site_frame(caller),
        method: notes[note].method,
    };
    let arguments = arguments_of(notes, caller, upto);
    if note == upto - 1 {
        assert(arguments[arguments.len() - 1] == wanted);
    } else {
        arguments_of_hold(notes, caller, upto - 1, note, argument);
        let before = arguments_of(notes, caller, upto - 1);
        let found = choose|found: int| 0 <= found < before.len() && before[found] == wanted;
        assert(arguments[found] == wanted);
    }
}

proof fn arguments_hold(
    notes: Seq<ProceduralParameter>,
    callers: Seq<CallerView>,
    upto: int,
    caller: int,
    note: int,
    argument: Expr,
)
    requires
        0 <= caller < upto <= callers.len(),
        hands(notes, callers[caller], note, argument),
    ensures
        arguments_upto(notes, callers, upto).contains(
            ArgumentView {
                argument,
                to_log: site_frame(callers[caller]),
                method: notes[note].method,
            },
        ),
    decreases upto,
{
    let wanted = ArgumentView {
        argument,
        to_log: site_frame(callers[caller]),
        method: notes[note].method,
    };
    let before = arguments_upto(notes, callers, upto - 1);
    let added = arguments_of(notes, callers[upto - 1], notes.len() as int);
    if caller == upto - 1 {
        arguments_of_hold(notes, callers[caller], notes.len() as int, note, argument);
        let found = choose|found: int| 0 <= found < added.len() && added[found] == wanted;
        assert((before + added)[before.len() + found] == wanted);
    } else {
        arguments_hold(notes, callers, upto - 1, caller, note, argument);
        let found = choose|found: int| 0 <= found < before.len() && before[found] == wanted;
        assert((before + added)[found] == wanted);
    }
}

/// Walking what arguments resolve to keeps what was gathered, and holds
/// what became of each leaf of the walk of each argument that can be
/// followed.
pub proof fn arguments_are_taken_in(
    outcome: Outcome,
    unit: Unit,
    arguments: Seq<ArgumentView>,
    upto: int,
    argument: int,
    at: int,
)
    requires
        0 <= upto <= arguments.len(),
    ensures
        keeps(outcome, after_arguments(outcome, unit, arguments, upto)),
        0 <= argument < upto && solved(
            unit,
            arguments[argument].argument,
            arguments[argument].method,
        ) is Some && 0 <= at < walk(
            unit,
            solved(unit, arguments[argument].argument, arguments[argument].method)->0,
            seq![arguments[argument].to_log],
            Walk::fresh(unit.functions@.len()),
            unit.functions@.len(),
        ).leaves.len() ==> holds(
            after_arguments(outcome, unit, arguments, upto),
            walk(
                unit,
                solved(unit, arguments[argument].argument, arguments[argument].method)->0,
                seq![arguments[argument].to_log],
                Walk::fresh(unit.functions@.len()),
                unit.functions@.len(),
            ).leaves[at],
        ),
    decreases upto,
{
    if upto > 0 {
        arguments_are_taken_in(outcome, unit, arguments, upto - 1, argument, at);
        let before = after_arguments(outcome, unit, arguments, upto - 1);
        let after = after_arguments(outcome, unit, arguments, upto);
        let handed = arguments[upto - 1];
        match solved(unit, handed.argument, handed.method) {
            Some(root) => {
                let finished = walk(
                    unit,
                    root,
                    seq![handed.to_log],
                    Walk::fresh(unit.functions@.len()),
                    unit.functions@.len(),
                );
                walk_is_taken_in(before, finished, at);
            },
            None => {},
        }
        keeps_chain(outcome, before, after);
        if 0 <= argument < upto - 1 && solved(
            unit,
            arguments[argument].argument,
            arguments[argument].method,
        ) is Some {
            let earlier = walk(
                unit,
                solved(unit, arguments[argument].argument, arguments[argument].method)->0,
                seq![arguments[argument].to_log],
                Walk::fresh(unit.functions@.len()),
                unit.functions@.len(),
            );
            if 0 <= at < earlier.leaves.len() {
                held_stays(before, after, earlier.leaves[at]);
            }
        }
    }
}

/// Whether `root` is no suppression region, so that walking it as an
/// expression is walking it as a place where a walk starts.
pub open spec fn is_open(root: Expr) -> bool {
    match root {
        Expr::Block { label, .. } => !label.suppresses,
        _ => true,
    }
}

/// An argument handed to a parameter that a restricted region calls is
/// checked where it is handed over: if a call in a function of the unit
/// names a function of which a parameter is noted, and hands that
/// parameter an argument that can be followed to an expression that calls
/// a panic primitive, through calls of functions of the unit and outside
/// any suppression region, then searching the unit yields a finding whose
/// call stack begins with the frame of the call site and ends in the frame
/// that names the primitive.
pub proof fn handed_argument_is_reported(
    unit: Unit,
    outcome: Outcome,
    notes: Seq<ProceduralParameter>,
    position: int,
    call: int,
    note: int,
    argument: Expr,
    chain: Seq<int>,
    sink: FunctionId,
    name: Seq<char>,
    owner: Seq<char>,
)
    requires
        0 <= position < unit.functions@.len(),
        0 <= call < calls_in(unit.functions@[position].body).len(),
        hands(
            notes,
            CallerView {
                call: calls_in(unit.functions@[position].body)[call],
                function: unit.functions@[position],
            },
            note,
            argument,
        ),
        solved(unit, argument, notes[note].method) is Some,
        is_open(solved(unit, argument, notes[note].method)->0),
        linked(unit, solved(unit, argument, notes[note].method)->0, chain),
        calls_plainly(
            unit,
            calls_behind(
                unit,
                solved(unit, argument, notes[note].method)->0,
                chain,
                chain.len() as int,
            ),
            sink,
        ),
        !unit.is_local(sink),
        calls_named(
            unit,
            calls_in_root(solved(unit, argument, notes[note].method)->0),
            sink,
            name,
            owner,
        ),
        bodies_named(unit, sink, name, owner),
        is_sink(owner, name),
    ensures
        exists|finding: Seq<FrameView>|
            #![trigger passed(outcome, notes, unit).findings.contains(finding)]
            passed(outcome, notes, unit).findings.contains(finding) && finding.len() > 0
                && finding[0] == site_frame(
                CallerView {
                    call: calls_in(unit.functions@[position].body)[call],
                    function: unit.functions@[position],
                },
            ) && finding.last().description == name,
{
    let function = unit.functions@[position];
    let caller = CallerView { call: calls_in(function.body)[call], function };
    let root = solved(unit, argument, notes[note].method)->0;
    let stack = seq![site_frame(caller)];
    assert(calls_noted(notes, caller.call)) by {
        assert(notes[note].function == notes[note].function);
    }
    let callers = callers_upto(notes, unit.functions@, unit.functions@.len() as int);
    callers_hold(notes, unit.functions@, unit.functions@.len() as int, position, call);
    let c = choose|c: int| 0 <= c < callers.len() && callers[c] == caller;
    let arguments = arguments_upto(notes, callers, callers.len() as int);
    arguments_hold(notes, callers, callers.len() as int, c, note, argument);
    let wanted = ArgumentView { argument, to_log: site_frame(caller), method: notes[note].method };
    let a = choose|a: int| 0 <= a < arguments.len() && arguments[a] == wanted;
    reached_primitive_is_reported_once(unit, root, stack, chain, sink, name, owner);
    let leaves = root_walk(unit, root, stack).leaves;
    let report = choose|report: int|
        reports(leaves, report, sink, name) && begins_with(leaves[report].stack, stack);
    assert(root_walk(unit, root, stack) == walk(
        unit,
        root,
        stack,
        Walk::fresh(unit.functions@.len()),
        unit.functions@.len(),
    ));
    arguments_are_taken_in(outcome, unit, arguments, arguments.len() as int, a, report);
    let finding = leaves[report].stack;
    assert(finding.subrange(0, 1)[0] == site_frame(caller));
    assert(passed(outcome, notes, unit).findings.contains(finding));
}


/// Whether the parameter at position `parameter` of `function` is noted.
pub open spec fn has_note(
    notes: Seq<ProceduralParameter>,
    function: FunctionId,
    parameter: usize,
) -> bool {
    exists|n: int|
        0 <= n < notes.len() && (#[trigger] notes[n]).function == function && notes[n].parameter
            == parameter
}

proof fn note_is_first(
    notes: Seq<ProceduralParameter>,
    function: FunctionId,
    parameter: usize,
    from: int,
)
    requires
        0 <= from,
    ensures
        match note_from(notes, function, parameter, from) {
            Some(at) => from <= at < notes.len() && notes[at].function == function
                && notes[at].parameter == parameter,
            None => forall|n: int|
                from <= n < notes.len() ==> !((#[trigger] notes[n]).function == function
                    && notes[n].parameter == parameter),
        },
    decreases notes.len() - from,
{
    if from < notes.len() && !(notes[from].function == function && notes[from].parameter
        == parameter) {
        note_is_first(notes, function, parameter, from + 1);
    }
}

proof fn note_stays(
    notes: Seq<ProceduralParameter>,
    taken: ProceduralParameter,
    function: FunctionId,
    parameter: usize,
)
    ensures
        has_note(noted(notes, taken), taken.function, taken.parameter),
        has_note(notes, function, parameter) ==> has_note(
            noted(notes, taken),
            function,
            parameter,
        ),
{
    let after = noted(notes, taken);
    note_is_first(notes, taken.function, taken.parameter, 0);
    match note_from(notes, taken.function, taken.parameter, 0) {
        Some(at) => {
            assert(after[at] == taken);
        },
        None => {
            assert(after[notes.len() as int] == taken);
        },
    }
    if has_note(notes, function, parameter) {
        let n = choose|n: int|
            0 <= n < notes.len() && (#[trigger] notes[n]).function == function
                && notes[n].parameter == parameter;
        assert(after[n].function == function && after[n].parameter == parameter);
    }
}

proof fn calls_are_noted(
    notes: Seq<ProceduralParameter>,
    function: FunctionId,
    calls: Seq<Expr>,
    upto: int,
    owner: FunctionId,
    parameter: usize,
    at: int,
)
    requires
        0 <= upto <= calls.len(),
    ensures
        has_note(notes, owner, parameter) ==> has_note(
            noted_calls(notes, function, calls, upto),
            owner,
            parameter,
        ),
        0 <= at < upto && owner == function && (calls[at] matches Expr::Call {
            parameter: through,
            ..
        } && through == Some(parameter)) ==> has_note(
            noted_calls(notes, function, calls, upto),
            owner,
            parameter,
        ),
    decreases upto,
{
    if upto > 0 {
        calls_are_noted(notes, function, calls, upto - 1, owner, parameter, at);
        let before = noted_calls(notes, function, calls, upto - 1);
        match calls[upto - 1] {
            Expr::Call { target, parameter: Some(through), .. } => {
                note_stays(
                    before,
                    ProceduralParameter {
                        function,
                        parameter: through,
                        method: method_of(target),
                    },
                    owner,
                    parameter,
                );
            },
            _ => {},
        }
    }
}

proof fn roots_are_noted(
    notes: Seq<ProceduralParameter>,
    function: FunctionId,
    roots: Seq<Expr>,
    upto: int,
    owner: FunctionId,
    parameter: usize,
    root: int,
    at: int,
)
    requires
        0 <= upto <= roots.len(),
    ensures
        has_note(notes, owner, parameter) ==> has_note(
            noted_roots(notes, function, roots, upto),
            owner,
            parameter,
        ),
        0 <= root < upto && owner == function && 0 <= at < calls_in_root(roots[root]).len() && (
        calls_in_root(roots[root])[at] matches Expr::Call { parameter: through, .. } && through
            == Some(parameter)) ==> has_note(
            noted_roots(notes, function, roots, upto),
            owner,
            parameter,
        ),
    decreases upto,
{
    if upto > 0 {
        roots_are_noted(notes, function, roots, upto - 1, owner, parameter, root, at);
        let before = noted_roots(notes, function, roots, upto - 1);
        let calls = calls_in_root(roots[upto - 1]);
        calls_are_noted(before, function, calls, calls.len() as int, owner, parameter, at);
    }
}

/// A parameter that a function calls in one of the places where walks
/// start in it is noted: if a call there is made through the parameter at
/// position `parameter`, the notes hold that parameter of the function
/// once the entries are looked at.
pub proof fn called_parameter_is_noted(
    notes: Seq<ProceduralParameter>,
    entries: Seq<EntryView>,
    upto: int,
    owner: FunctionId,
    parameter: usize,
    entry: int,
    root: int,
    at: int,
)
    requires
        0 <= upto <= entries.len(),
    ensures
        has_note(notes, owner, parameter) ==> has_note(
            noted_entries(notes, entries, upto),
            owner,
            parameter,
        ),
        0 <= entry < upto && owner == entries[entry].function && 0 <= root
            < entries[entry].roots.len() && 0 <= at < calls_in_root(
            entries[entry].roots[root],
        ).len() && (calls_in_root(entries[entry].roots[root])[at] matches Expr::Call {
            parameter: through,
            ..
        } && through == Some(parameter)) ==> has_note(
            noted_entries(notes, entries, upto),
            owner,
            parameter,
        ),
    decreases upto,
{
    if upto > 0 {
        called_parameter_is_noted(notes, entries, upto - 1, owner, parameter, entry, root, at);
        let before = noted_entries(notes, entries, upto - 1);
        let last = entries[upto - 1];
        roots_are_noted(
            before,
            last.function,
            last.roots,
            last.roots.len() as int,
            owner,
            parameter,
            root,
            at,
        );
    }
}

} // verus!
