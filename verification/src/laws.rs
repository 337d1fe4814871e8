//! What holds of every walk.

use crate::function_collectors::{calls_in, calls_in_all, calls_in_root};
use crate::function_handlers::{disposal, is_runtime_unit, is_sink, Disposal};
use crate::hir_traverser::root_walk;
use crate::model::{
    position_is_first, Expr, FrameView, FunctionId, FunctionRef, Target, TypeId, Unit,
};
use crate::walk::{
    call_step, callee_of, dispatch, expansion_is_new, recorded, unvisited, unvisited_is_bounded,
    walk, walk_all, CalleeView, LeafView, Step, Walk,
};
use vstd::prelude::*;

verus! {

/// A walk terminates because no function is expanded twice: once the depth
/// allows as many nested bodies as there are functions not yet expanded, a
/// larger depth changes nothing, and the walk never expands less than it
/// had.
pub proof fn depth_is_enough(
    unit: Unit,
    expr: Expr,
    stack: Seq<FrameView>,
    state: Walk,
    low: nat,
    high: nat,
)
    requires
        state.visited.len() == unit.functions@.len(),
        low >= unvisited(state.visited),
        high >= unvisited(state.visited),
    ensures
        walk(unit, expr, stack, state, low) == walk(unit, expr, stack, state, high),
        walk(unit, expr, stack, state, low).visited.len() == state.visited.len(),
        unvisited(walk(unit, expr, stack, state, low).visited) <= unvisited(state.visited),
    decreases unvisited(state.visited), expr, 0nat,
{
    match expr {
        Expr::Node(children) => {
            depth_is_enough_for_all(unit, children, 0, stack, state, low, high);
        },
        Expr::Binding { .. } => {},
        Expr::Call { target, site, parameter, receiver, args } => {
            expansion_is_new(unit, target, site@, stack, state);
            let entered = match call_step(unit, target, site@, stack, state) {
                Step::Stay(next) => next,
                Step::Expand { position, stack: inner, state: next } => {
                    depth_is_enough(
                        unit,
                        unit.functions@[position].body,
                        inner,
                        next,
                        (low - 1) as nat,
                        (high - 1) as nat,
                    );
                    walk(unit, unit.functions@[position].body, inner, next, (low - 1) as nat)
                },
            };
            let received = match receiver {
                Some(inner) => {
                    depth_is_enough(unit, *inner, stack, entered, low, high);
                    walk(unit, *inner, stack, entered, low)
                },
                None => entered,
            };
            depth_is_enough_for_all(unit, args, 0, stack, received, low, high);
        },
        Expr::Block { label, body } => {
            if !label.suppresses {
                depth_is_enough_for_all(unit, body, 0, stack, state, low, high);
            }
        },
        Expr::Closure(body) => {
            depth_is_enough(unit, *body, stack, state, low, high);
        },
    }
}

/// [`depth_is_enough`], for the expressions of a list.
pub proof fn depth_is_enough_for_all(
    unit: Unit,
    items: Vec<Expr>,
    from: nat,
    stack: Seq<FrameView>,
    state: Walk,
    low: nat,
    high: nat,
)
    requires
        state.visited.len() == unit.functions@.len(),
        low >= unvisited(state.visited),
        high >= unvisited(state.visited),
    ensures
        walk_all(unit, items, from, stack, state, low) == walk_all(
            unit,
            items,
            from,
            stack,
            state,
            high,
        ),
        walk_all(unit, items, from, stack, state, low).visited.len() == state.visited.len(),
        unvisited(walk_all(unit, items, from, stack, state, low).visited) <= unvisited(
            state.visited,
        ),
    decreases unvisited(state.visited), items, items.len() - from,
{
    if from < items.len() {
        depth_is_enough(unit, items[from as int], stack, state, low, high);
        let next = walk(unit, items[from as int], stack, state, low);
        depth_is_enough_for_all(unit, items, from + 1, stack, next, low, high);
    }
}

/// A call of a trait method whose receiver's type has an implementation in
/// the unit, with its body there, is walked as a direct call of that
/// implementation.
pub proof fn trait_call_is_direct_call(
    unit: Unit,
    method: FunctionRef,
    receiver: TypeId,
    implementation: FunctionRef,
    site: String,
    parameter: Option<usize>,
    through: Option<Box<Expr>>,
    args: Vec<Expr>,
    stack: Seq<FrameView>,
    state: Walk,
    depth: nat,
)
    requires
        unit.implementation(method.id, receiver) == Some(implementation.id),
        unit.is_local(implementation.id),
        implementation.name@ == method.name@,
        implementation.owner@ == method.owner@,
    ensures
        walk(
            unit,
            Expr::Call {
                target: Target::TraitMethod { method, receiver: Some(receiver) },
                site,
                parameter,
                receiver: through,
                args,
            },
            stack,
            state,
            depth,
        ) == walk(
            unit,
            Expr::Call {
                target: Target::Method { function: implementation, receiver: Some(receiver) },
                site,
                parameter,
                receiver: through,
                args,
            },
            stack,
            state,
            depth,
        ),
{
    let by_trait = Target::TraitMethod { method, receiver: Some(receiver) };
    let direct = Target::Method { function: implementation, receiver: Some(receiver) };
    assert(dispatch(unit, method.id, Some(receiver)) == implementation.id);
    assert(callee_of(unit, by_trait) == callee_of(unit, direct));
    assert(call_step(unit, by_trait, site@, stack, state) == call_step(
        unit,
        direct,
        site@,
        stack,
        state,
    ));
}


/// The function that the call `call` goes to in `unit`, where the walk
/// follows the call.
pub open spec fn followed(unit: Unit, call: Expr) -> Option<CalleeView> {
    match call {
        Expr::Call { target, .. } => callee_of(unit, target),
        _ => None,
    }
}

/// Whether the walk has dealt with the call `call` in `state`: its callee
/// was expanded, or is among the leaves.
pub open spec fn settled(unit: Unit, state: Walk, call: Expr) -> bool {
    match followed(unit, call) {
        None => true,
        Some(callee) => match unit.position(callee.id) {
            Some(position) => 0 <= position < state.visited.len() && state.visited[position],
            None => recorded(state.leaves, callee.id, callee.receiver),
        },
    }
}

/// Whether the walk has dealt with each of `calls` in `state`.
pub open spec fn all_settled(unit: Unit, state: Walk, calls: Seq<Expr>) -> bool {
    forall|k: int| 0 <= k < calls.len() ==> settled(unit, state, #[trigger] calls[k])
}

/// Whether `later` holds all that `earlier` holds: every function expanded
/// then is expanded now, and the leaves of then are the first leaves of
/// now.
pub open spec fn extends(earlier: Walk, later: Walk) -> bool {
    &&& later.visited.len() == earlier.visited.len()
    &&& forall|p: int|
        0 <= p < earlier.visited.len() && earlier.visited[p] ==> #[trigger] later.visited[p]
    &&& earlier.leaves.len() <= later.leaves.len()
    &&& forall|i: int| 0 <= i < earlier.leaves.len() ==> #[trigger] later.leaves[i] == earlier.leaves[i]
}

/// Whether the walk has dealt with every call in the body of every
/// function that is expanded in `state`, but for the functions of `active`,
/// whose bodies are still being walked.
pub open spec fn closed_but(unit: Unit, state: Walk, active: Set<int>) -> bool {
    forall|p: int|
        0 <= p < state.visited.len() && #[trigger] state.visited[p] && !active.contains(p)
            ==> all_settled(unit, state, calls_in(unit.functions@[p].body))
}

/// No two leaves are for the same function and receiver.
pub open spec fn distinct_leaves(leaves: Seq<LeafView>) -> bool {
    forall|i: int, j: int|
        0 <= i < j < leaves.len() ==> !((#[trigger] leaves[i]).id == (#[trigger] leaves[j]).id
            && leaves[i].receiver == leaves[j].receiver)
}

/// The call stack of every leaf ends in a frame that is described by the
/// name under which the leaf was called.
pub open spec fn leaves_end_in_their_call(leaves: Seq<LeafView>) -> bool {
    forall|i: int|
        0 <= i < leaves.len() ==> (#[trigger] leaves[i]).stack.len() > 0
            && leaves[i].stack.last().description == leaves[i].name
}

/// Every leaf for `id` carries the name `name` and the owner `owner`.
pub open spec fn leaves_named(
    leaves: Seq<LeafView>,
    id: FunctionId,
    name: Seq<char>,
    owner: Seq<char>,
) -> bool {
    forall|i: int|
        0 <= i < leaves.len() && (#[trigger] leaves[i]).id == id ==> leaves[i].name == name
            && leaves[i].owner == owner
}

/// Every one of `calls` that goes to `id` names it `name`, of the unit
/// `owner`.
pub open spec fn calls_named(
    unit: Unit,
    calls: Seq<Expr>,
    id: FunctionId,
    name: Seq<char>,
    owner: Seq<char>,
) -> bool {
    forall|k: int|
        0 <= k < calls.len() ==> match followed(unit, #[trigger] calls[k]) {
            Some(callee) => callee.id == id ==> callee.name == name && callee.owner == owner,
            None => true,
        }
}

/// Every call in the body of a function of `unit` that goes to `id` names
/// it `name`, of the unit `owner`.
pub open spec fn bodies_named(unit: Unit, id: FunctionId, name: Seq<char>, owner: Seq<char>) -> bool {
    forall|p: int|
        0 <= p < unit.functions@.len() ==> calls_named(
            unit,
            #[trigger] calls_in(unit.functions@[p].body),
            id,
            name,
            owner,
        )
}

/// What holds of the state of a walk at every moment.
pub open spec fn walk_inv(
    unit: Unit,
    state: Walk,
    active: Set<int>,
    id: FunctionId,
    name: Seq<char>,
    owner: Seq<char>,
) -> bool {
    &&& state.visited.len() == unit.functions@.len()
    &&& closed_but(unit, state, active)
    &&& distinct_leaves(state.leaves)
    &&& leaves_end_in_their_call(state.leaves)
    &&& leaves_named(state.leaves, id, name, owner)
}

proof fn settled_stays(unit: Unit, earlier: Walk, later: Walk, calls: Seq<Expr>)
    requires
        extends(earlier, later),
        all_settled(unit, earlier, calls),
    ensures
        all_settled(unit, later, calls),
{
    assert forall|k: int| 0 <= k < calls.len() implies settled(unit, later, #[trigger] calls[k]) by {
        assert(settled(unit, earlier, calls[k]));
        match followed(unit, calls[k]) {
            None => {},
            Some(callee) => {
                match unit.position(callee.id) {
                    Some(position) => {
                        assert(later.visited[position]);
                    },
                    None => {
                        let i = choose|i: int|
                            0 <= i < earlier.leaves.len() && earlier.leaves[i].id == callee.id
                                && earlier.leaves[i].receiver == callee.receiver;
                        assert(later.leaves[i] == earlier.leaves[i]);
                    },
                }
            },
        }
    }
}

proof fn closed_stays(unit: Unit, earlier: Walk, later: Walk, active: Set<int>, grown: Set<int>)
    requires
        extends(earlier, later),
        closed_but(unit, earlier, active),
        forall|p: int|
            0 <= p < later.visited.len() && #[trigger] later.visited[p] && !grown.contains(p)
                ==> earlier.visited[p] && !active.contains(p),
    ensures
        closed_but(unit, later, grown),
{
    assert forall|p: int|
        0 <= p < later.visited.len() && #[trigger] later.visited[p] && !grown.contains(
            p,
        ) implies all_settled(unit, later, calls_in(unit.functions@[p].body)) by {
        assert(earlier.visited[p]);
        settled_stays(unit, earlier, later, calls_in(unit.functions@[p].body));
    }
}

proof fn extends_chain(first: Walk, second: Walk, third: Walk)
    requires
        extends(first, second),
        extends(second, third),
    ensures
        extends(first, third),
{
    assert forall|p: int| 0 <= p < first.visited.len() && first.visited[p] implies #[trigger] third.visited[p] by {
        assert(second.visited[p]);
    }
    assert forall|i: int| 0 <= i < first.leaves.len() implies #[trigger] third.leaves[i]
        == first.leaves[i] by {
        assert(second.leaves[i] == first.leaves[i]);
    }
}

proof fn settled_joined(unit: Unit, state: Walk, left: Seq<Expr>, right: Seq<Expr>)
    requires
        all_settled(unit, state, left),
        all_settled(unit, state, right),
    ensures
        all_settled(unit, state, left + right),
{
    assert forall|k: int| 0 <= k < (left + right).len() implies settled(
        unit,
        state,
        #[trigger] (left + right)[k],
    ) by {
        if k < left.len() {
            assert((left + right)[k] == left[k]);
        } else {
            assert((left + right)[k] == right[k - left.len()]);
        }
    }
}

proof fn named_split(
    unit: Unit,
    left: Seq<Expr>,
    right: Seq<Expr>,
    id: FunctionId,
    name: Seq<char>,
    owner: Seq<char>,
)
    requires
        calls_named(unit, left + right, id, name, owner),
    ensures
        calls_named(unit, left, id, name, owner),
        calls_named(unit, right, id, name, owner),
{
    assert forall|k: int| 0 <= k < left.len() implies match followed(unit, #[trigger] left[k]) {
        Some(callee) => callee.id == id ==> callee.name == name && callee.owner == owner,
        None => true,
    } by {
        assert((left + right)[k] == left[k]);
    }
    assert forall|k: int| 0 <= k < right.len() implies match followed(unit, #[trigger] right[k]) {
        Some(callee) => callee.id == id ==> callee.name == name && callee.owner == owner,
        None => true,
    } by {
        assert((left + right)[k + left.len()] == right[k]);
    }
}

/// What the step of a call keeps and gains.
proof fn step_settles(
    unit: Unit,
    call: Expr,
    stack: Seq<FrameView>,
    state: Walk,
    active: Set<int>,
    id: FunctionId,
    name: Seq<char>,
    owner: Seq<char>,
)
    requires
        call is Call,
        walk_inv(unit, state, active, id, name, owner),
        calls_named(unit, seq![call], id, name, owner),
    ensures
        match call_step(unit, call->target, call->site@, stack, state) {
            Step::Stay(next) => {
                &&& extends(state, next)
                &&& walk_inv(unit, next, active, id, name, owner)
                &&& settled(unit, next, call)
                &&& next.visited == state.visited
            },
            Step::Expand { position, stack: inner, state: next } => {
                &&& extends(state, next)
                &&& walk_inv(unit, next, active.insert(position), id, name, owner)
                &&& 0 <= position < unit.functions@.len()
                &&& next.visited[position]
                &&& !state.visited[position]
                &&& unit.position(followed(unit, call)->0.id) == Some(position)
                &&& unvisited(next.visited) + 1 == unvisited(state.visited)
                &&& forall|p: int|
                    0 <= p < next.visited.len() && #[trigger] next.visited[p] && p != position
                        ==> state.visited[p]
            },
        },
{
    let target = call->target;
    let site = call->site@;
    expansion_is_new(unit, target, site, stack, state);
    assert(seq![call][0] == call);
    match callee_of(unit, target) {
        None => {},
        Some(callee) => {
            position_is_first(unit.functions@, callee.id, 0);
            let inner = stack.push(FrameView { description: callee.name, location: site });
            match unit.position(callee.id) {
                Some(position) => {
                    if position < state.visited.len() && !state.visited[position] {
                        let next = Walk {
                            visited: state.visited.update(position, true),
                            ..state
                        };
                        closed_stays(unit, state, next, active, active.insert(position));
                    }
                },
                None => {
                    if !recorded(state.leaves, callee.id, callee.receiver) {
                        let leaf = LeafView {
                            id: callee.id,
                            name: callee.name,
                            owner: callee.owner,
                            receiver: callee.receiver,
                            associated: callee.associated,
                            stack: inner,
                        };
                        let next = Walk { leaves: state.leaves.push(leaf), ..state };
                        assert(call_step(unit, target, site, stack, state) == Step::Stay(next));
                        assert(next.leaves[state.leaves.len() as int] == leaf);
                        assert(inner.last().description == callee.name);
                        closed_stays(unit, state, next, active, active);
                        assert(distinct_leaves(next.leaves)) by {
                            assert forall|i: int, j: int| 0 <= i < j < next.leaves.len() implies !((
                            #[trigger] next.leaves[i]).id == (#[trigger] next.leaves[j]).id
                                && next.leaves[i].receiver == next.leaves[j].receiver) by {
                                if j == state.leaves.len() {
                                    assert(next.leaves[i] == state.leaves[i]);
                                }
                            }
                        }
                        assert(recorded(next.leaves, callee.id, callee.receiver));
                    }
                },
            }
        },
    }
}

/// A walk deals with every call that it meets outside a suppression
/// region: when it is over, the callee of each was expanded or is among
/// the leaves, and so it is for every call in the bodies that were
/// expanded. No leaf is recorded twice, and each ends in the frame of its
/// call.
pub proof fn walk_settles(
    unit: Unit,
    expr: Expr,
    stack: Seq<FrameView>,
    state: Walk,
    active: Set<int>,
    depth: nat,
    id: FunctionId,
    name: Seq<char>,
    owner: Seq<char>,
)
    requires
        walk_inv(unit, state, active, id, name, owner),
        depth >= unvisited(state.visited),
        calls_named(unit, calls_in(expr), id, name, owner),
        bodies_named(unit, id, name, owner),
    ensures
        extends(state, walk(unit, expr, stack, state, depth)),
        walk_inv(unit, walk(unit, expr, stack, state, depth), active, id, name, owner),
        all_settled(unit, walk(unit, expr, stack, state, depth), calls_in(expr)),
        unvisited(walk(unit, expr, stack, state, depth).visited) <= unvisited(state.visited),
    decreases unvisited(state.visited), expr, 0nat,
{
    match expr {
        Expr::Node(children) => {
            walk_all_settles(unit, children, 0, stack, state, active, depth, id, name, owner);
        },
        Expr::Binding { .. } => {},
        Expr::Call { target, site, parameter, receiver, args } => {
            let received_calls = match receiver {
                Some(inner) => calls_in(*inner),
                None => Seq::empty(),
            };
            assert(calls_in(expr) == seq![expr] + received_calls + calls_in_all(args, 0));
            named_split(unit, seq![expr] + received_calls, calls_in_all(args, 0), id, name, owner);
            named_split(unit, seq![expr], received_calls, id, name, owner);
            step_settles(unit, expr, stack, state, active, id, name, owner);
            let entered = match call_step(unit, target, site@, stack, state) {
                Step::Stay(next) => next,
                Step::Expand { position, stack: inner, state: next } => {
                    let body = unit.functions@[position].body;
                    assert(calls_named(unit, calls_in(body), id, name, owner));
                    walk_settles(
                        unit,
                        body,
                        inner,
                        next,
                        active.insert(position),
                        (depth - 1) as nat,
                        id,
                        name,
                        owner,
                    );
                    let after = walk(unit, body, inner, next, (depth - 1) as nat);
                    extends_chain(state, next, after);
                    assert(closed_but(unit, after, active)) by {
                        assert forall|p: int|
                            0 <= p < after.visited.len() && #[trigger] after.visited[p]
                                && !active.contains(p) implies all_settled(
                            unit,
                            after,
                            calls_in(unit.functions@[p].body),
                        ) by {
                            if p != position {
                                assert(!active.insert(position).contains(p));
                            }
                        }
                    }
                    assert(after.visited[position]);
                    after
                },
            };
            assert(settled(unit, entered, expr));
            let received = match receiver {
                Some(inner) => {
                    walk_settles(unit, *inner, stack, entered, active, depth, id, name, owner);
                    walk(unit, *inner, stack, entered, depth)
                },
                None => entered,
            };
            extends_chain(state, entered, received);
            walk_all_settles(unit, args, 0, stack, received, active, depth, id, name, owner);
            let last = walk_all(unit, args, 0, stack, received, depth);
            extends_chain(state, received, last);
            extends_chain(entered, received, last);
            assert(all_settled(unit, entered, seq![expr])) by {
                assert forall|k: int| 0 <= k < seq![expr].len() implies settled(
                    unit,
                    entered,
                    #[trigger] seq![expr][k],
                ) by {
                    assert(seq![expr][k] == expr);
                }
            }
            settled_stays(unit, entered, last, seq![expr]);
            settled_stays(unit, received, last, received_calls);
            settled_joined(unit, last, seq![expr], received_calls);
            settled_joined(unit, last, seq![expr] + received_calls, calls_in_all(args, 0));
        },
        Expr::Block { label, body } => {
            if !label.suppresses {
                walk_all_settles(unit, body, 0, stack, state, active, depth, id, name, owner);
            } else {
                let next = Walk { suppressed: state.suppressed.push(stack), ..state };
                closed_stays(unit, state, next, active, active);
            }
        },
        Expr::Closure(body) => {
            walk_settles(unit, *body, stack, state, active, depth, id, name, owner);
        },
    }
}

/// [`walk_settles`], for the expressions of a list.
pub proof fn walk_all_settles(
    unit: Unit,
    items: Vec<Expr>,
    from: nat,
    stack: Seq<FrameView>,
    state: Walk,
    active: Set<int>,
    depth: nat,
    id: FunctionId,
    name: Seq<char>,
    owner: Seq<char>,
)
    requires
        walk_inv(unit, state, active, id, name, owner),
        depth >= unvisited(state.visited),
        calls_named(unit, calls_in_all(items, from), id, name, owner),
        bodies_named(unit, id, name, owner),
    ensures
        extends(state, walk_all(unit, items, from, stack, state, depth)),
        walk_inv(unit, walk_all(unit, items, from, stack, state, depth), active, id, name, owner),
        all_settled(
            unit,
            walk_all(unit, items, from, stack, state, depth),
            calls_in_all(items, from),
        ),
        unvisited(walk_all(unit, items, from, stack, state, depth).visited) <= unvisited(
            state.visited,
        ),
    decreases unvisited(state.visited), items, items.len() - from,
{
    if from < items.len() {
        let head = calls_in(items[from as int]);
        let tail = calls_in_all(items, from + 1);
        named_split(unit, head, tail, id, name, owner);
        walk_settles(unit, items[from as int], stack, state, active, depth, id, name, owner);
        let next = walk(unit, items[from as int], stack, state, depth);
        walk_all_settles(unit, items, from + 1, stack, next, active, depth, id, name, owner);
        let last = walk_all(unit, items, from + 1, stack, next, depth);
        extends_chain(state, next, last);
        settled_stays(unit, next, last, head);
        settled_joined(unit, last, head, tail);
    }
}


/// Whether one of `calls` goes to the function whose body stands at
/// `position` in `unit`.
pub open spec fn calls_function(unit: Unit, calls: Seq<Expr>, position: int) -> bool {
    exists|k: int|
        0 <= k < calls.len() && (match followed(unit, #[trigger] calls[k]) {
            Some(callee) => unit.position(callee.id) == Some(position),
            None => false,
        })
}

/// Whether one of `calls` is a call of the plain function `id`.
pub open spec fn calls_plainly(unit: Unit, calls: Seq<Expr>, id: FunctionId) -> bool {
    exists|k: int|
        0 <= k < calls.len() && (match followed(unit, #[trigger] calls[k]) {
            Some(callee) => callee.id == id && callee.receiver is None,
            None => false,
        })
}

/// The calls that stand, outside any suppression region, at the end of
/// the chain `chain` that starts in `root`: those of the body of the last
/// function of the chain, or of `root` if the chain is empty.
pub open spec fn calls_behind(unit: Unit, root: Expr, chain: Seq<int>, length: int) -> Seq<Expr> {
    if length <= 0 {
        calls_in_root(root)
    } else {
        calls_in(unit.functions@[chain[length - 1]].body)
    }
}

/// Whether `chain` is a chain of calls that starts in `root`: `root` calls
/// the first function, and each function calls the next, outside any
/// suppression region.
pub open spec fn linked(unit: Unit, root: Expr, chain: Seq<int>) -> bool {
    forall|i: int|
        0 <= i < chain.len() ==> 0 <= #[trigger] chain[i] < unit.functions@.len()
            && calls_function(unit, calls_behind(unit, root, chain, i), chain[i])
}

/// Whether the leaf at position `at` is the one report of the panic
/// primitive `sink`: it is the only leaf for `sink` as a plain function,
/// it is disposed of as a finding, and its call stack ends in a frame that
/// names the primitive.
pub open spec fn reports(leaves: Seq<LeafView>, at: int, sink: FunctionId, name: Seq<char>) -> bool {
    &&& 0 <= at < leaves.len()
    &&& leaves[at].id == sink
    &&& leaves[at].receiver is None
    &&& disposal(leaves[at]) == Disposal::Finding(leaves[at].stack)
    &&& leaves[at].stack.len() > 0
    &&& leaves[at].stack.last().description == name
    &&& forall|other: int|
        0 <= other < leaves.len() && other != at ==> !((#[trigger] leaves[other]).id == sink
            && leaves[other].receiver is None)
}

proof fn root_walk_settles(
    unit: Unit,
    root: Expr,
    stack: Seq<FrameView>,
    id: FunctionId,
    name: Seq<char>,
    owner: Seq<char>,
)
    requires
        calls_named(unit, calls_in_root(root), id, name, owner),
        bodies_named(unit, id, name, owner),
    ensures
        walk_inv(unit, root_walk(unit, root, stack), Set::empty(), id, name, owner),
        all_settled(unit, root_walk(unit, root, stack), calls_in_root(root)),
{
    let functions = unit.functions@.len();
    let fresh = Walk::fresh(functions);
    unvisited_is_bounded(fresh.visited);
    assert(walk_inv(unit, fresh, Set::empty(), id, name, owner));
    match root {
        Expr::Block { label, body } => {
            walk_all_settles(
                unit,
                body,
                0,
                stack,
                fresh,
                Set::empty(),
                functions,
                id,
                name,
                owner,
            );
        },
        _ => {
            walk_settles(unit, root, stack, fresh, Set::empty(), functions, id, name, owner);
        },
    }
}

proof fn chain_is_expanded(unit: Unit, root: Expr, chain: Seq<int>, last: Walk, upto: int)
    requires
        linked(unit, root, chain),
        0 <= upto <= chain.len(),
        last.visited.len() == unit.functions@.len(),
        closed_but(unit, last, Set::empty()),
        all_settled(unit, last, calls_in_root(root)),
    ensures
        all_settled(unit, last, calls_behind(unit, root, chain, upto)),
    decreases upto,
{
    if upto > 0 {
        chain_is_expanded(unit, root, chain, last, upto - 1);
        let before = calls_behind(unit, root, chain, upto - 1);
        let position = chain[upto - 1];
        assert(calls_function(unit, before, position));
        let k = choose|k: int|
            0 <= k < before.len() && (match followed(unit, #[trigger] before[k]) {
                Some(callee) => unit.position(callee.id) == Some(position),
                None => false,
            });
        assert(settled(unit, last, before[k]));
        assert(last.visited[position]);
    }
}

/// Whether the leaf at position `at` is the one leaf for the plain
/// function `id`: it carries the name and the owner given, and its call
/// stack ends in a frame that names the function.
pub open spec fn is_the_leaf(
    leaves: Seq<LeafView>,
    at: int,
    id: FunctionId,
    name: Seq<char>,
    owner: Seq<char>,
) -> bool {
    &&& 0 <= at < leaves.len()
    &&& leaves[at].id == id
    &&& leaves[at].receiver is None
    &&& leaves[at].name == name
    &&& leaves[at].owner == owner
    &&& leaves[at].stack.len() > 0
    &&& leaves[at].stack.last().description == name
    &&& forall|other: int|
        0 <= other < leaves.len() && other != at ==> !((#[trigger] leaves[other]).id == id
            && leaves[other].receiver is None)
}

/// A place where a walk starts, and that calls a plain function outside
/// its unit through a chain of calls of functions of the unit, none of
/// them in a suppression region, yields exactly one leaf for that
/// function.
pub proof fn reached_call_is_one_leaf(
    unit: Unit,
    root: Expr,
    stack: Seq<FrameView>,
    chain: Seq<int>,
    id: FunctionId,
    name: Seq<char>,
    owner: Seq<char>,
)
    requires
        linked(unit, root, chain),
        calls_plainly(unit, calls_behind(unit, root, chain, chain.len() as int), id),
        !unit.is_local(id),
        calls_named(unit, calls_in_root(root), id, name, owner),
        bodies_named(unit, id, name, owner),
    ensures
        exists|at: int| is_the_leaf(root_walk(unit, root, stack).leaves, at, id, name, owner),
{
    let last = root_walk(unit, root, stack);
    root_walk_settles(unit, root, stack, id, name, owner);
    chain_is_expanded(unit, root, chain, last, chain.len() as int);
    let behind = calls_behind(unit, root, chain, chain.len() as int);
    let k = choose|k: int|
        0 <= k < behind.len() && (match followed(unit, #[trigger] behind[k]) {
            Some(callee) => callee.id == id && callee.receiver is None,
            None => false,
        });
    assert(settled(unit, last, behind[k]));
    assert(recorded(last.leaves, id, None));
    let at = choose|at: int|
        0 <= at < last.leaves.len() && last.leaves[at].id == id && last.leaves[at].receiver
            == None::<TypeId>;
    assert(last.leaves[at].name == name && last.leaves[at].owner == owner);
    assert forall|other: int| 0 <= other < last.leaves.len() && other != at implies !((
    #[trigger] last.leaves[other]).id == id && last.leaves[other].receiver is None) by {
        if other < at {
            assert(!(last.leaves[other].id == last.leaves[at].id && last.leaves[other].receiver
                == last.leaves[at].receiver));
        } else {
            assert(!(last.leaves[at].id == last.leaves[other].id && last.leaves[at].receiver
                == last.leaves[other].receiver));
        }
    }
    assert(is_the_leaf(last.leaves, at, id, name, owner));
}

/// A restricted region that calls a panic primitive through a chain of
/// calls of functions of its unit, none of them in a suppression region,
/// yields exactly one report of that primitive: one leaf, which is
/// disposed of as a finding, and whose call stack begins with the call
/// stack of the region and ends in the frame that names the primitive.
pub proof fn reached_primitive_is_reported_once(
    unit: Unit,
    root: Expr,
    stack: Seq<FrameView>,
    chain: Seq<int>,
    sink: FunctionId,
    name: Seq<char>,
    owner: Seq<char>,
)
    requires
        linked(unit, root, chain),
        calls_plainly(unit, calls_behind(unit, root, chain, chain.len() as int), sink),
        !unit.is_local(sink),
        calls_named(unit, calls_in_root(root), sink, name, owner),
        bodies_named(unit, sink, name, owner),
        is_sink(owner, name),
    ensures
        exists|at: int|
            reports(root_walk(unit, root, stack).leaves, at, sink, name) && begins_with(
                root_walk(unit, root, stack).leaves[at].stack,
                stack,
            ),
{
    reached_call_is_one_leaf(unit, root, stack, chain, sink, name, owner);
    root_walk_keeps_the_start(unit, root, stack);
    let leaves = root_walk(unit, root, stack).leaves;
    let at = choose|at: int| is_the_leaf(leaves, at, sink, name, owner);
    assert(is_runtime_unit(owner));
    assert(reports(leaves, at, sink, name) && begins_with(leaves[at].stack, stack));
}

/// Whether each of `calls` that the walk follows goes to a function of
/// `within`, by position, or to a function and receiver of `outside`.
pub open spec fn confined(
    unit: Unit,
    calls: Seq<Expr>,
    within: Set<int>,
    outside: Set<(FunctionId, Option<TypeId>)>,
) -> bool {
    forall|k: int|
        0 <= k < calls.len() ==> match followed(unit, #[trigger] calls[k]) {
            Some(callee) => match unit.position(callee.id) {
                Some(position) => within.contains(position),
                None => outside.contains((callee.id, callee.receiver)),
            },
            None => true,
        }
}

/// Whether the calls in the bodies of the functions of `within`, outside
/// any suppression region, stay in `within` and `outside`.
pub open spec fn closed_under_calls(
    unit: Unit,
    within: Set<int>,
    outside: Set<(FunctionId, Option<TypeId>)>,
) -> bool {
    forall|p: int|
        0 <= p < unit.functions@.len() && within.contains(p) ==> confined(
            unit,
            #[trigger] calls_in(unit.functions@[p].body),
            within,
            outside,
        )
}

/// Every leaf is for a function and receiver of `outside`.
pub open spec fn leaves_within(leaves: Seq<LeafView>, outside: Set<(FunctionId, Option<TypeId>)>) -> bool {
    forall|i: int|
        0 <= i < leaves.len() ==> outside.contains(
            ((#[trigger] leaves[i]).id, leaves[i].receiver),
        )
}

proof fn confined_split(
    unit: Unit,
    left: Seq<Expr>,
    right: Seq<Expr>,
    within: Set<int>,
    outside: Set<(FunctionId, Option<TypeId>)>,
)
    requires
        confined(unit, left + right, within, outside),
    ensures
        confined(unit, left, within, outside),
        confined(unit, right, within, outside),
{
    assert forall|k: int| 0 <= k < left.len() implies match followed(unit, #[trigger] left[k]) {
        Some(callee) => match unit.position(callee.id) {
            Some(position) => within.contains(position),
            None => outside.contains((callee.id, callee.receiver)),
        },
        None => true,
    } by {
        assert((left + right)[k] == left[k]);
    }
    assert forall|k: int| 0 <= k < right.len() implies match followed(unit, #[trigger] right[k]) {
        Some(callee) => match unit.position(callee.id) {
            Some(position) => within.contains(position),
            None => outside.contains((callee.id, callee.receiver)),
        },
        None => true,
    } by {
        assert((left + right)[k + left.len()] == right[k]);
    }
}

/// A walk records no leaf but for what the calls that it may follow lead
/// to: if those of the expression, and those of the bodies of `within`,
/// stay in `within` and `outside`, so do the leaves. A suppression region
/// adds its one event and nothing else.
pub proof fn walk_stays_within(
    unit: Unit,
    expr: Expr,
    stack: Seq<FrameView>,
    state: Walk,
    depth: nat,
    within: Set<int>,
    outside: Set<(FunctionId, Option<TypeId>)>,
)
    requires
        state.visited.len() == unit.functions@.len(),
        depth >= unvisited(state.visited),
        leaves_within(state.leaves, outside),
        confined(unit, calls_in(expr), within, outside),
        closed_under_calls(unit, within, outside),
    ensures
        leaves_within(walk(unit, expr, stack, state, depth).leaves, outside),
        walk(unit, expr, stack, state, depth).visited.len() == state.visited.len(),
        unvisited(walk(unit, expr, stack, state, depth).visited) <= unvisited(state.visited),
    decreases unvisited(state.visited), expr, 0nat,
{
    match expr {
        Expr::Node(children) => {
            walk_all_stays_within(unit, children, 0, stack, state, depth, within, outside);
        },
        Expr::Binding { .. } => {},
        Expr::Call { target, site, parameter, receiver, args } => {
            let received_calls = match receiver {
                Some(inner) => calls_in(*inner),
                None => Seq::empty(),
            };
            assert(calls_in(expr) == seq![expr] + received_calls + calls_in_all(args, 0));
            confined_split(
                unit,
                seq![expr] + received_calls,
                calls_in_all(args, 0),
                within,
                outside,
            );
            confined_split(unit, seq![expr], received_calls, within, outside);
            assert(seq![expr][0] == expr);
            expansion_is_new(unit, target, site@, stack, state);
            let entered = match call_step(unit, target, site@, stack, state) {
                Step::Stay(next) => {
                    assert(leaves_within(next.leaves, outside)) by {
                        assert forall|i: int| 0 <= i < next.leaves.len() implies outside.contains(
                            ((#[trigger] next.leaves[i]).id, next.leaves[i].receiver),
                        ) by {
                            if i < state.leaves.len() {
                                assert(next.leaves[i] == state.leaves[i]);
                            }
                        }
                    }
                    next
                },
                Step::Expand { position, stack: inner, state: next } => {
                    assert(within.contains(position));
                    walk_stays_within(
                        unit,
                        unit.functions@[position].body,
                        inner,
                        next,
                        (depth - 1) as nat,
                        within,
                        outside,
                    );
                    walk(unit, unit.functions@[position].body, inner, next, (depth - 1) as nat)
                },
            };
            let received = match receiver {
                Some(inner) => {
                    walk_stays_within(unit, *inner, stack, entered, depth, within, outside);
                    walk(unit, *inner, stack, entered, depth)
                },
                None => entered,
            };
            walk_all_stays_within(unit, args, 0, stack, received, depth, within, outside);
        },
        Expr::Block { label, body } => {
            if !label.suppresses {
                walk_all_stays_within(unit, body, 0, stack, state, depth, within, outside);
            }
        },
        Expr::Closure(body) => {
            walk_stays_within(unit, *body, stack, state, depth, within, outside);
        },
    }
}

/// [`walk_stays_within`], for the expressions of a list.
pub proof fn walk_all_stays_within(
    unit: Unit,
    items: Vec<Expr>,
    from: nat,
    stack: Seq<FrameView>,
    state: Walk,
    depth: nat,
    within: Set<int>,
    outside: Set<(FunctionId, Option<TypeId>)>,
)
    requires
        state.visited.len() == unit.functions@.len(),
        depth >= unvisited(state.visited),
        leaves_within(state.leaves, outside),
        confined(unit, calls_in_all(items, from), within, outside),
        closed_under_calls(unit, within, outside),
    ensures
        leaves_within(walk_all(unit, items, from, stack, state, depth).leaves, outside),
        walk_all(unit, items, from, stack, state, depth).visited.len() == state.visited.len(),
        unvisited(walk_all(unit, items, from, stack, state, depth).visited) <= unvisited(
            state.visited,
        ),
    decreases unvisited(state.visited), items, items.len() - from,
{
    if from < items.len() {
        confined_split(
            unit,
            calls_in(items[from as int]),
            calls_in_all(items, from + 1),
            within,
            outside,
        );
        walk_stays_within(unit, items[from as int], stack, state, depth, within, outside);
        let next = walk(unit, items[from as int], stack, state, depth);
        walk_all_stays_within(unit, items, from + 1, stack, next, depth, within, outside);
    }
}

/// A suppression region is not entered: it adds one event, which carries
/// the call stack at the region, and changes nothing else.
pub proof fn suppression_region_is_one_event(
    unit: Unit,
    label: crate::model::Label,
    body: Vec<Expr>,
    stack: Seq<FrameView>,
    state: Walk,
    depth: nat,
)
    requires
        label.suppresses,
    ensures
        walk(unit, Expr::Block { label, body }, stack, state, depth) == (Walk {
            suppressed: state.suppressed.push(stack),
            ..state
        }),
{
}

/// If every chain of calls from a restricted region to a panic primitive
/// passes through a suppression region, the walk of the region yields no
/// leaf for the primitive, and so no finding: what the region and the
/// functions of `within` call outside suppression regions stays in
/// `within` and `outside`, and the primitive is not in `outside`.
pub proof fn suppressed_primitive_is_not_reported(
    unit: Unit,
    root: Expr,
    stack: Seq<FrameView>,
    within: Set<int>,
    outside: Set<(FunctionId, Option<TypeId>)>,
    sink: FunctionId,
    receiver: Option<TypeId>,
)
    requires
        confined(unit, calls_in_root(root), within, outside),
        closed_under_calls(unit, within, outside),
        !outside.contains((sink, receiver)),
    ensures
        !recorded(root_walk(unit, root, stack).leaves, sink, receiver),
{
    let functions = unit.functions@.len();
    let fresh = Walk::fresh(functions);
    unvisited_is_bounded(fresh.visited);
    match root {
        Expr::Block { label, body } => {
            walk_all_stays_within(unit, body, 0, stack, fresh, functions, within, outside);
        },
        _ => {
            walk_stays_within(unit, root, stack, fresh, functions, within, outside);
        },
    }
    let leaves = root_walk(unit, root, stack).leaves;
    assert forall|i: int| 0 <= i < leaves.len() implies !(leaves[i].id == sink
        && leaves[i].receiver == receiver) by {
        assert(outside.contains((leaves[i].id, leaves[i].receiver)));
    }
}


/// Whether the call stack `stack` begins with the frames of `base`.
pub open spec fn begins_with(stack: Seq<FrameView>, base: Seq<FrameView>) -> bool {
    base.len() <= stack.len() && stack.subrange(0, base.len() as int) == base
}

/// The call stack of every leaf begins with the frames of `base`.
pub open spec fn leaves_begin_with(leaves: Seq<LeafView>, base: Seq<FrameView>) -> bool {
    forall|i: int| 0 <= i < leaves.len() ==> begins_with((#[trigger] leaves[i]).stack, base)
}

/// Every call stack of a suppression event begins with the frames of
/// `base`.
pub open spec fn events_begin_with(events: Seq<Seq<FrameView>>, base: Seq<FrameView>) -> bool {
    forall|i: int| 0 <= i < events.len() ==> begins_with(#[trigger] events[i], base)
}

/// Call stacks only grow along a walk: every leaf and every suppression
/// event that a walk adds carries a call stack that begins with the call
/// stack that the walk started under.
pub proof fn walk_keeps_the_start(
    unit: Unit,
    expr: Expr,
    stack: Seq<FrameView>,
    state: Walk,
    depth: nat,
    base: Seq<FrameView>,
)
    requires
        state.visited.len() == unit.functions@.len(),
        depth >= unvisited(state.visited),
        begins_with(stack, base),
        leaves_begin_with(state.leaves, base),
        events_begin_with(state.suppressed, base),
    ensures
        leaves_begin_with(walk(unit, expr, stack, state, depth).leaves, base),
        events_begin_with(walk(unit, expr, stack, state, depth).suppressed, base),
        walk(unit, expr, stack, state, depth).visited.len() == state.visited.len(),
        unvisited(walk(unit, expr, stack, state, depth).visited) <= unvisited(state.visited),
    decreases unvisited(state.visited), expr, 0nat,
{
    match expr {
        Expr::Node(children) => {
            walk_all_keeps_the_start(unit, children, 0, stack, state, depth, base);
        },
        Expr::Binding { .. } => {},
        Expr::Call { target, site, parameter, receiver, args } => {
            expansion_is_new(unit, target, site@, stack, state);
            let entered = match call_step(unit, target, site@, stack, state) {
                Step::Stay(next) => {
                    assert(leaves_begin_with(next.leaves, base)) by {
                        assert forall|i: int| 0 <= i < next.leaves.len() implies begins_with(
                            (#[trigger] next.leaves[i]).stack,
                            base,
                        ) by {
                            if i < state.leaves.len() {
                                assert(next.leaves[i] == state.leaves[i]);
                            } else {
                                let pushed = next.leaves[i].stack;
                                assert(pushed.subrange(0, base.len() as int) =~= stack.subrange(
                                    0,
                                    base.len() as int,
                                ));
                            }
                        }
                    }
                    next
                },
                Step::Expand { position, stack: inner, state: next } => {
                    assert(begins_with(inner, base)) by {
                        assert(inner.subrange(0, base.len() as int) =~= stack.subrange(
                            0,
                            base.len() as int,
                        ));
                    }
                    walk_keeps_the_start(
                        unit,
                        unit.functions@[position].body,
                        inner,
                        next,
                        (depth - 1) as nat,
                        base,
                    );
                    walk(unit, unit.functions@[position].body, inner, next, (depth - 1) as nat)
                },
            };
            let received = match receiver {
                Some(inner) => {
                    walk_keeps_the_start(unit, *inner, stack, entered, depth, base);
                    walk(unit, *inner, stack, entered, depth)
                },
                None => entered,
            };
            walk_all_keeps_the_start(unit, args, 0, stack, received, depth, base);
        },
        Expr::Block { label, body } => {
            if !label.suppresses {
                walk_all_keeps_the_start(unit, body, 0, stack, state, depth, base);
            } else {
                let next = Walk { suppressed: state.suppressed.push(stack), ..state };
                assert forall|i: int| 0 <= i < next.suppressed.len() implies begins_with(
                    #[trigger] next.suppressed[i],
                    base,
                ) by {
                    if i < state.suppressed.len() {
                        assert(next.suppressed[i] == state.suppressed[i]);
                    }
                }
            }
        },
        Expr::Closure(body) => {
            walk_keeps_the_start(unit, *body, stack, state, depth, base);
        },
    }
}

/// [`walk_keeps_the_start`], for the expressions of a list.
pub proof fn walk_all_keeps_the_start(
    unit: Unit,
    items: Vec<Expr>,
    from: nat,
    stack: Seq<FrameView>,
    state: Walk,
    depth: nat,
    base: Seq<FrameView>,
)
    requires
        state.visited.len() == unit.functions@.len(),
        depth >= unvisited(state.visited),
        begins_with(stack, base),
        leaves_begin_with(state.leaves, base),
        events_begin_with(state.suppressed, base),
    ensures
        leaves_begin_with(walk_all(unit, items, from, stack, state, depth).leaves, base),
        events_begin_with(walk_all(unit, items, from, stack, state, depth).suppressed, base),
        walk_all(unit, items, from, stack, state, depth).visited.len() == state.visited.len(),
        unvisited(walk_all(unit, items, from, stack, state, depth).visited) <= unvisited(
            state.visited,
        ),
    decreases unvisited(state.visited), items, items.len() - from,
{
    if from < items.len() {
        walk_keeps_the_start(unit, items[from as int], stack, state, depth, base);
        let next = walk(unit, items[from as int], stack, state, depth);
        walk_all_keeps_the_start(unit, items, from + 1, stack, next, depth, base);
    }
}

/// Every leaf and every suppression event of the walk that starts at
/// `root` under `stack` carries a call stack that begins with `stack`.
pub proof fn root_walk_keeps_the_start(unit: Unit, root: Expr, stack: Seq<FrameView>)
    ensures
        leaves_begin_with(root_walk(unit, root, stack).leaves, stack),
        events_begin_with(root_walk(unit, root, stack).suppressed, stack),
{
    let functions = unit.functions@.len();
    let fresh = Walk::fresh(functions);
    unvisited_is_bounded(fresh.visited);
    assert(stack.subrange(0, stack.len() as int) =~= stack);
    match root {
        Expr::Block { label, body } => {
            walk_all_keeps_the_start(unit, body, 0, stack, fresh, functions, stack);
        },
        _ => {
            walk_keeps_the_start(unit, root, stack, fresh, functions, stack);
        },
    }
}

} // verus!
