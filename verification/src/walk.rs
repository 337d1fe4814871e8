//! What a walk over an expression tree yields, as a mathematical function.
//!
//! [`walk`] follows the calls of an expression. A call into a function whose
//! body the unit holds is expanded once per walk; a call that leaves the unit
//! becomes a leaf, recorded once with the call stack that led to it; a
//! suppression region is not entered, and leaves an event instead.

use crate::model::{position_is_first, Expr, FrameView, FunctionId, Target, TypeId, Unit};
use vstd::prelude::*;

verus! {

/// A call that the walk could not expand in the unit, as plain values.
pub struct LeafView {
    pub id: FunctionId,
    pub name: Seq<char>,
    pub owner: Seq<char>,
    /// The receiver's type, for a method or a trait method.
    pub receiver: Option<TypeId>,
    /// Whether the call was a method or associated-function call.
    pub associated: bool,
    /// The frames from the start of the walk down to this call.
    pub stack: Seq<FrameView>,
}

/// The state of a walk.
pub struct Walk {
    /// For each function of the unit, by position, whether it was expanded.
    pub visited: Seq<bool>,
    /// The leaves met so far, in the order in which they were met.
    pub leaves: Seq<LeafView>,
    /// One call stack for each suppression region met so far.
    pub suppressed: Seq<Seq<FrameView>>,
}

impl Walk {
    /// The state before anything was walked, for a unit of `functions`
    /// functions.
    pub open spec fn fresh(functions: nat) -> Walk {
        Walk {
            visited: Seq::new(functions, |i: int| false),
            leaves: Seq::empty(),
            suppressed: Seq::empty(),
        }
    }
}

/// How many functions are not yet expanded.
pub open spec fn unvisited(visited: Seq<bool>) -> nat
    decreases visited.len(),
{
    if visited.len() == 0 {
        0
    } else {
        unvisited(visited.drop_last()) + if visited.last() {
            0nat
        } else {
            1nat
        }
    }
}

/// The function that a call goes to, where the analysis follows the call.
pub struct CalleeView {
    pub id: FunctionId,
    pub name: Seq<char>,
    pub owner: Seq<char>,
    pub receiver: Option<TypeId>,
    pub associated: bool,
}

/// The callee of a call with target `target` in `unit`. A trait method whose
/// receiver's type has an implementation in the unit, with its body there,
/// goes to that implementation.
pub open spec fn callee_of(unit: Unit, target: Target) -> Option<CalleeView> {
    match target {
        Target::Binding { .. } => None,
        Target::Constructor => None,
        Target::Unresolved => None,
        Target::Function(function) => Some(
            CalleeView {
                id: function.id,
                name: function.name@,
                owner: function.owner@,
                receiver: None,
                associated: false,
            },
        ),
        Target::Method { function, receiver } => Some(
            CalleeView {
                id: function.id,
                name: function.name@,
                owner: function.owner@,
                receiver: receiver,
                associated: true,
            },
        ),
        Target::TraitMethod { method, receiver } => Some(
            CalleeView {
                id: dispatch(unit, method.id, receiver),
                name: method.name@,
                owner: method.owner@,
                receiver: receiver,
                associated: true,
            },
        ),
    }
}

/// The function that a call of the trait method `method` on a receiver of
/// type `receiver` goes to: the implementation in the unit if there is one
/// with its body, else the trait method itself.
pub open spec fn dispatch(unit: Unit, method: FunctionId, receiver: Option<TypeId>) -> FunctionId {
    match receiver {
        Some(ty) => match unit.implementation(method, ty) {
            Some(function) => if unit.is_local(function) {
                function
            } else {
                method
            },
            None => method,
        },
        None => method,
    }
}

/// Whether a leaf for `id` with `receiver` is among `leaves`.
pub open spec fn recorded(leaves: Seq<LeafView>, id: FunctionId, receiver: Option<TypeId>) -> bool {
    exists|i: int| 0 <= i < leaves.len() && leaves[i].id == id && leaves[i].receiver == receiver
}

/// What a call does to the walk before its arguments are looked at.
pub enum Step {
    /// Nothing to expand: the walk goes on from this state.
    Stay(Walk),
    /// The body at `position` is walked next, under `stack`, from `state`.
    Expand { position: int, stack: Seq<FrameView>, state: Walk },
}

/// The step that a call with `target` at `site` takes from `state`.
pub open spec fn call_step(
    unit: Unit,
    target: Target,
    site: Seq<char>,
    stack: Seq<FrameView>,
    state: Walk,
) -> Step {
    match callee_of(unit, target) {
        None => Step::Stay(state),
        Some(callee) => {
            let inner = stack.push(FrameView { description: callee.name, location: site });
            match unit.position(callee.id) {
                Some(position) => if position < state.visited.len() && !state.visited[position] {
                    Step::Expand {
                        position,
                        stack: inner,
                        state: Walk { visited: state.visited.update(position, true), ..state },
                    }
                } else {
                    Step::Stay(state)
                },
                None => if recorded(state.leaves, callee.id, callee.receiver) {
                    Step::Stay(state)
                } else {
                    Step::Stay(
                        Walk {
                            leaves: state.leaves.push(
                                LeafView {
                                    id: callee.id,
                                    name: callee.name,
                                    owner: callee.owner,
                                    receiver: callee.receiver,
                                    associated: callee.associated,
                                    stack: inner,
                                },
                            ),
                            ..state
                        },
                    )
                },
            }
        },
    }
}

/// The state after `expr` is walked under `stack` from `state`. `depth`
/// bounds how many bodies may be entered one inside the other; the number of
/// functions not yet expanded is always enough (see [`depth_is_enough`]).
pub open spec fn walk(unit: Unit, expr: Expr, stack: Seq<FrameView>, state: Walk, depth: nat) -> Walk
    decreases depth, expr, 0nat,
{
    match expr {
        Expr::Node(children) => walk_all(unit, children, 0, stack, state, depth),
        Expr::Binding { .. } => state,
        Expr::Call { target, site, parameter, receiver, args } => {
            let entered = match call_step(unit, target, site@, stack, state) {
                Step::Stay(next) => next,
                Step::Expand { position, stack: inner, state: next } => if depth == 0 {
                    next
                } else {
                    walk(unit, unit.functions@[position].body, inner, next, (depth - 1) as nat)
                },
            };
            let received = match receiver {
                Some(inner) => walk(unit, *inner, stack, entered, depth),
                None => entered,
            };
            walk_all(unit, args, 0, stack, received, depth)
        },
        Expr::Block { label, body } => if label.suppresses {
            Walk { suppressed: state.suppressed.push(stack), ..state }
        } else {
            walk_all(unit, body, 0, stack, state, depth)
        },
        Expr::Closure(body) => walk(unit, *body, stack, state, depth),
    }
}

/// The state after the expressions of `items` from position `from` on are
/// walked in order.
pub open spec fn walk_all(
    unit: Unit,
    items: Vec<Expr>,
    from: nat,
    stack: Seq<FrameView>,
    state: Walk,
    depth: nat,
) -> Walk
    decreases depth, items, items.len() - from,
{
    if from >= items.len() {
        state
    } else {
        walk_all(
            unit,
            items,
            from + 1,
            stack,
            walk(unit, items[from as int], stack, state, depth),
            depth,
        )
    }
}

/// A call expands only a function of the unit that was not expanded before,
/// and marks it; the leaves and the suppression events stay.
pub proof fn expansion_is_new(
    unit: Unit,
    target: Target,
    site: Seq<char>,
    stack: Seq<FrameView>,
    state: Walk,
)
    ensures
        match call_step(unit, target, site, stack, state) {
            Step::Stay(next) => next.visited == state.visited && next.suppressed
                == state.suppressed,
            Step::Expand { position, stack: inner, state: next } => {
                &&& 0 <= position < state.visited.len()
                &&& position < unit.functions@.len()
                &&& !state.visited[position]
                &&& next.visited == state.visited.update(position, true)
                &&& next.leaves == state.leaves
                &&& next.suppressed == state.suppressed
                &&& unvisited(next.visited) + 1 == unvisited(state.visited)
            },
        },
{
    match callee_of(unit, target) {
        None => {},
        Some(callee) => {
            position_is_first(unit.functions@, callee.id, 0);
            match unit.position(callee.id) {
                Some(position) => {
                    if position < state.visited.len() && !state.visited[position] {
                        unvisited_after_visit(state.visited, position);
                    }
                },
                None => {},
            }
        },
    }
}

/// Marking one more function as expanded lowers the count by one.
pub proof fn unvisited_after_visit(visited: Seq<bool>, position: int)
    requires
        0 <= position < visited.len(),
        !visited[position],
    ensures
        unvisited(visited.update(position, true)) + 1 == unvisited(visited),
    decreases visited.len(),
{
    let after = visited.update(position, true);
    if position == visited.len() - 1 {
        assert(after.drop_last() =~= visited.drop_last());
    } else {
        assert(after.drop_last() =~= visited.drop_last().update(position, true));
        unvisited_after_visit(visited.drop_last(), position);
    }
}

/// No more functions are unexpanded than the unit has.
pub proof fn unvisited_is_bounded(visited: Seq<bool>)
    ensures
        unvisited(visited) <= visited.len(),
    decreases visited.len(),
{
    if visited.len() > 0 {
        unvisited_is_bounded(visited.drop_last());
    }
}

} // verus!
