//! The end of a path: calls that leave the unit are either panic
//! primitives, calls to resume in another unit, or of no interest.

use crate::model::{clone_stack, stack_view, Frame, FrameView, FunctionId, TypeId};
use crate::pending::{saved, ForeignCallsToCheck, PendingCallView};
use crate::text::same_text;
use crate::traversers::{stacks_view, Leaf};
use crate::walk::LeafView;
use vstd::prelude::*;

verus! {

/// Whether the function named `symbol` of the unit named `unit` is a panic
/// primitive.
pub open spec fn is_sink(unit: Seq<char>, symbol: Seq<char>) -> bool {
    ||| unit == "std"@ && symbol == "begin_panic"@
    ||| unit == "core"@ && symbol == "panic"@
}

/// Whether `name` is one of the runtime units, which are never loaded.
pub open spec fn is_runtime_unit(name: Seq<char>) -> bool {
    name == "std"@ || name == "core"@
}

/// Whether the function `fn_name` of the unit `krate_name` is a panic
/// primitive.
pub fn is_panic(krate_name: &str, fn_name: &str) -> (sink: bool)
    ensures
        sink == is_sink(krate_name@, fn_name@),
{
    (same_text(krate_name, "std") && same_text(fn_name, "begin_panic")) || (same_text(
        krate_name,
        "core",
    ) && same_text(fn_name, "panic"))
}

/// Whether `krate_name` names a runtime unit.
pub fn is_runtime(krate_name: &str) -> (runtime: bool)
    ensures
        runtime == is_runtime_unit(krate_name@),
{
    same_text(krate_name, "std") || same_text(krate_name, "core")
}

/// What becomes of a leaf.
pub enum Disposal {
    /// It is a panic primitive: its call stack is a finding.
    Finding(Seq<FrameView>),
    /// It is resumed when the unit `unit` is loaded.
    Later { unit: Seq<char>, call: PendingCallView },
    /// It is a call into a runtime unit that is no panic primitive.
    Dropped,
}

/// What becomes of the leaf `leaf`: one into a runtime unit is held against
/// the panic primitives, any other waits for its unit.
pub open spec fn disposal(leaf: LeafView) -> Disposal {
    if is_runtime_unit(leaf.owner) {
        if is_sink(leaf.owner, leaf.name) {
            Disposal::Finding(leaf.stack)
        } else {
            Disposal::Dropped
        }
    } else {
        Disposal::Later {
            unit: leaf.owner,
            call: PendingCallView {
                function: leaf.id,
                call_stack: leaf.stack,
                receiver: leaf.receiver,
            },
        }
    }
}

/// The findings after `leaf` is disposed of.
pub open spec fn findings_after(findings: Seq<Seq<FrameView>>, leaf: LeafView) -> Seq<
    Seq<FrameView>,
> {
    match disposal(leaf) {
        Disposal::Finding(stack) => findings.push(stack),
        _ => findings,
    }
}

/// The pending calls after `leaf` is disposed of.
pub open spec fn pending_after(
    pending: Seq<(Seq<char>, Seq<PendingCallView>)>,
    leaf: LeafView,
) -> Seq<(Seq<char>, Seq<PendingCallView>)> {
    match disposal(leaf) {
        Disposal::Later { unit, call } => saved(pending, unit, call),
        _ => pending,
    }
}

/// Disposes of a leaf: a panic primitive adds its call stack to `to_log`, a
/// call into another unit that can be loaded is kept in `acc`.
pub fn check_fn_panics(leaf: &Leaf, acc: &mut ForeignCallsToCheck, to_log: &mut Vec<Vec<Frame>>)
    requires
        old(acc).wf(),
    ensures
        final(acc).wf(),
        final(acc)@ == pending_after(old(acc)@, leaf@),
        stacks_view(final(to_log)@) == findings_after(stacks_view(old(to_log)@), leaf@),
{
    let owner = leaf.function.owner.as_str();
    if is_runtime(owner) {
        if is_panic(owner, leaf.function.name.as_str()) {
            let stack = clone_stack(&leaf.stack);
            let ghost copied = stack_view(stack@);
            to_log.push(stack);
            assert(stacks_view(to_log@) =~= stacks_view(old(to_log)@).push(copied));
        }
    } else {
        acc.save_for_later_check(owner, leaf.function.id, &leaf.stack, leaf.receiver);
    }
}

/// Keeps a method or associated-function call for the unit `krate_name`.
pub fn check_assoc_fn(
    def_id: FunctionId,
    krate_name: &str,
    acc: &mut ForeignCallsToCheck,
    receiver: Option<TypeId>,
    call_stack: &Vec<Frame>,
)
    requires
        old(acc).wf(),
    ensures
        final(acc).wf(),
        final(acc)@ == saved(
            old(acc)@,
            krate_name@,
            PendingCallView {
                function: def_id,
                call_stack: stack_view(call_stack@),
                receiver: receiver,
            },
        ),
{
    acc.save_for_later_check(krate_name, def_id, call_stack, receiver);
}

} // verus!
