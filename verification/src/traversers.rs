//! The walk over an expression tree, as executable code.

use crate::model::{
    clone_stack, position_is_first, stack_view, Expr, Frame, FrameView, FunctionId, FunctionRef,
    Target, TypeId, Unit,
};
use crate::walk::{
    call_step, callee_of, dispatch, recorded, unvisited, unvisited_after_visit,
    unvisited_is_bounded, walk, walk_all, CalleeView, LeafView, Step, Walk,
};
use vstd::prelude::*;

verus! {

/// A function identity, tagged by where its body is.
#[derive(Clone, Copy, PartialEq, Eq, Structural, Debug, Hash)]
pub enum HirId_ {
    /// The body is in the unit that is loaded.
    Local(FunctionId),
    /// The body is in a unit that is not loaded.
    Extern(FunctionId),
}

impl HirId_ {
    /// The identity without its tag.
    pub fn inner(&self) -> (id: FunctionId)
        ensures
            id == match *self {
                HirId_::Local(id) => id,
                HirId_::Extern(id) => id,
            },
    {
        match self {
            HirId_::Local(id) => *id,
            HirId_::Extern(id) => *id,
        }
    }

    /// Whether the body is in a unit that is not loaded.
    pub fn is_extern(&self) -> (external: bool)
        ensures
            external == (*self is Extern),
    {
        match self {
            HirId_::Local(_) => false,
            HirId_::Extern(_) => true,
        }
    }

    /// Tags `id` by whether `unit` holds its body.
    pub fn of(unit: &Unit, id: FunctionId) -> (tagged: HirId_)
        ensures
            tagged == if unit.is_local(id) {
                HirId_::Local(id)
            } else {
                HirId_::Extern(id)
            },
    {
        match unit.find_function(id) {
            Some(_) => HirId_::Local(id),
            None => HirId_::Extern(id),
        }
    }
}

/// A call that left the unit, with the call stack that led to it.
#[derive(Debug, PartialEq, Eq)]
pub struct Leaf {
    pub function: FunctionRef,
    pub receiver: Option<TypeId>,
    pub associated: bool,
    pub stack: Vec<Frame>,
}

impl View for Leaf {
    type V = LeafView;

    open spec fn view(&self) -> LeafView {
        LeafView {
            id: self.function.id,
            name: self.function.name@,
            owner: self.function.owner@,
            receiver: self.receiver,
            associated: self.associated,
            stack: stack_view(self.stack@),
        }
    }
}

/// The leaves of a list, as plain values.
pub open spec fn leaves_view(leaves: Seq<Leaf>) -> Seq<LeafView> {
    leaves.map_values(|leaf: Leaf| leaf@)
}

/// The call stacks of a list, as plain values.
pub open spec fn stacks_view(stacks: Seq<Vec<Frame>>) -> Seq<Seq<FrameView>> {
    stacks.map_values(|stack: Vec<Frame>| stack_view(stack@))
}

/// The state of one walk: which functions were expanded, the calls that left
/// the unit, and one call stack for each suppression region that was met.
pub struct FunctionCallPartialTree {
    pub visited: Vec<bool>,
    pub leaves: Vec<Leaf>,
    pub allow_panics: Vec<Vec<Frame>>,
}

impl View for FunctionCallPartialTree {
    type V = Walk;

    open spec fn view(&self) -> Walk {
        Walk {
            visited: self.visited@,
            leaves: leaves_view(self.leaves@),
            suppressed: stacks_view(self.allow_panics@),
        }
    }
}

/// The callee of a call, borrowed from the call's target.
struct Callee<'a> {
    id: FunctionId,
    function: &'a FunctionRef,
    receiver: Option<TypeId>,
    associated: bool,
}

impl<'a> Callee<'a> {
    spec fn plain(&self) -> CalleeView {
        CalleeView {
            id: self.id,
            name: self.function.name@,
            owner: self.function.owner@,
            receiver: self.receiver,
            associated: self.associated,
        }
    }
}

fn same_receiver(left: Option<TypeId>, right: Option<TypeId>) -> (same: bool)
    ensures
        same == (left == right),
{
    match (left, right) {
        (Some(a), Some(b)) => a == b,
        (None, None) => true,
        _ => false,
    }
}

fn resolve<'a>(unit: &Unit, target: &'a Target) -> (found: Option<Callee<'a>>)
    ensures
        match found {
            Some(callee) => callee_of(*unit, *target) == Some(callee.plain()) && (callee.id
                == callee.function.id || unit.is_local(callee.id)),
            None => callee_of(*unit, *target) is None,
        },
{
    match target {
        Target::Binding { .. } => None,
        Target::Constructor => None,
        Target::Unresolved => None,
        Target::Function(function) => Some(
            Callee { id: function.id, function, receiver: None, associated: false },
        ),
        Target::Method { function, receiver } => Some(
            Callee { id: function.id, function, receiver: *receiver, associated: true },
        ),
        Target::TraitMethod { method, receiver } => {
            let mut id = method.id;
            if let Some(ty) = receiver {
                if let Some(function) = unit.find_implementation(method.id, *ty) {
                    if unit.find_function(function).is_some() {
                        id = function;
                    }
                }
            }
            assert(id == dispatch(*unit, method.id, *receiver));
            Some(Callee { id, function: method, receiver: *receiver, associated: true })
        },
    }
}

impl FunctionCallPartialTree {
    /// The state before anything of `unit` was walked.
    pub fn new(unit: &Unit) -> (tree: FunctionCallPartialTree)
        ensures
            tree@ == Walk::fresh(unit.functions@.len()),
    {
        let mut visited: Vec<bool> = Vec::new();
        let mut i: usize = 0;
        while i < unit.functions.len()
            invariant
                i <= unit.functions@.len(),
                visited@.len() == i,
                forall|j: int| 0 <= j < i ==> !visited@[j],
            decreases unit.functions@.len() - i,
        {
            visited.push(false);
            i += 1;
        }
        let tree = FunctionCallPartialTree {
            visited,
            leaves: Vec::new(),
            allow_panics: Vec::new(),
        };
        assert(tree@.visited =~= Walk::fresh(unit.functions@.len()).visited);
        assert(tree@.leaves =~= Seq::empty());
        assert(tree@.suppressed =~= Seq::empty());
        tree
    }

    fn has_leaf(&self, id: FunctionId, receiver: Option<TypeId>) -> (found: bool)
        ensures
            found == recorded(self@.leaves, id, receiver),
    {
        let mut i: usize = 0;
        while i < self.leaves.len()
            invariant
                i <= self.leaves@.len(),
                forall|j: int|
                    0 <= j < i ==> !(self@.leaves[j].id == id && self@.leaves[j].receiver
                        == receiver),
            decreases self.leaves@.len() - i,
        {
            if self.leaves[i].function.id == id && same_receiver(self.leaves[i].receiver, receiver) {
                assert(self@.leaves[i as int].id == id);
                return true;
            }
            i += 1;
        }
        false
    }

    /// Takes the step of a call: records a leaf, or marks the callee as
    /// expanded and hands back its position and the frame of the call.
    fn enter(&mut self, unit: &Unit, target: &Target, site: &String, stack: &Vec<Frame>) -> (next:
        Option<(usize, Frame)>)
        requires
            old(self)@.visited.len() == unit.functions@.len(),
        ensures
            final(self)@.visited.len() == old(self)@.visited.len(),
            match call_step(*unit, *target, site@, stack_view(stack@), old(self)@) {
                Step::Stay(state) => next is None && final(self)@ == state && unvisited(
                    final(self)@.visited,
                ) == unvisited(old(self)@.visited),
                Step::Expand { position, stack: inner, state } => {
                    &&& next matches Some(pair)
                    &&& pair.0 == position
                    &&& 0 <= position < unit.functions@.len()
                    &&& inner == stack_view(stack@).push(pair.1@)
                    &&& final(self)@ == state
                    &&& unvisited(final(self)@.visited) + 1 == unvisited(old(self)@.visited)
                },
            },
    {
        let callee = match resolve(unit, target) {
            None => {
                return None;
            },
            Some(callee) => callee,
        };
        let frame = Frame { description: callee.function.name.clone(), location: site.clone() };
        match unit.find_function(callee.id) {
            Some(position) => {
                proof {
                    position_is_first(unit.functions@, callee.id, 0);
                }
                if self.visited[position] {
                    None
                } else {
                    proof {
                        unvisited_after_visit(self.visited@, position as int);
                    }
                    self.visited.set(position, true);
                    assert(final(self)@.leaves == old(self)@.leaves);
                    Some((position, frame))
                }
            },
            None => {
                if self.has_leaf(callee.id, callee.receiver) {
                    None
                } else {
                    let mut frames = clone_stack(stack);
                    let ghost pushed = frame@;
                    frames.push(frame);
                    assert(stack_view(frames@) =~= stack_view(stack@).push(pushed));
                    let leaf = Leaf {
                        function: callee.function.clone(),
                        receiver: callee.receiver,
                        associated: callee.associated,
                        stack: frames,
                    };
                    let ghost recorded_leaf = leaf@;
                    self.leaves.push(leaf);
                    assert(final(self)@.leaves =~= old(self)@.leaves.push(recorded_leaf));
                    None
                }
            },
        }
    }

    fn expand_expr(&mut self, unit: &Unit, expr: &Expr, call_stack: &mut Vec<Frame>)
        requires
            old(self)@.visited.len() == unit.functions@.len(),
        ensures
            final(call_stack)@ == old(call_stack)@,
            final(self)@.visited.len() == old(self)@.visited.len(),
            unvisited(final(self)@.visited) <= unvisited(old(self)@.visited),
            forall|depth: nat|
                depth >= unvisited(old(self)@.visited) ==> final(self)@ == #[trigger] walk(
                    *unit,
                    *expr,
                    stack_view(old(call_stack)@),
                    old(self)@,
                    depth,
                ),
        decreases unvisited(old(self)@.visited), expr, 0nat,
    {
        match expr {
            Expr::Node(children) => {
                self.expand_all(unit, children, call_stack);
                assert forall|depth: nat| depth >= unvisited(old(self)@.visited) implies self@
                    == #[trigger] walk(
                    *unit,
                    *expr,
                    stack_view(old(call_stack)@),
                    old(self)@,
                    depth,
                ) by {
                    assert(self@ == walk_all(
                        *unit,
                        *children,
                        0,
                        stack_view(old(call_stack)@),
                        old(self)@,
                        depth,
                    ));
                }
            },
            Expr::Binding { .. } => {},
            Expr::Call { target, site, parameter, receiver, args } => {
                let ghost before = self@;
                let ghost frames = stack_view(call_stack@);
                match self.enter(unit, target, site, call_stack) {
                    None => {},
                    Some((position, frame)) => {
                        let ghost pushed = frame@;
                        call_stack.push(frame);
                        assert(stack_view(call_stack@) =~= frames.push(pushed));
                        self.expand_expr(unit, &unit.functions[position].body, call_stack);
                        call_stack.pop();
                        assert(call_stack@ =~= old(call_stack)@);
                    },
                }
                let ghost entered = self@;
                match receiver {
                    Some(inner) => {
                        self.expand_expr(unit, inner, call_stack);
                    },
                    None => {},
                }
                let ghost received = self@;
                self.expand_all(unit, args, call_stack);
                assert forall|depth: nat| depth >= unvisited(before.visited) implies self@
                    == #[trigger] walk(*unit, *expr, frames, before, depth) by {
                    match call_step(*unit, *target, site@, frames, before) {
                        Step::Stay(next) => {
                            assert(entered == next);
                        },
                        Step::Expand { position, stack: inner, state: next } => {
                            assert(depth >= 1);
                            assert(entered == walk(
                                *unit,
                                unit.functions@[position].body,
                                inner,
                                next,
                                (depth - 1) as nat,
                            ));
                        },
                    }
                    match receiver {
                        Some(inner) => {
                            assert(received == walk(*unit, **inner, frames, entered, depth));
                        },
                        None => {
                            assert(received == entered);
                        },
                    }
                    assert(self@ == walk_all(*unit, *args, 0, frames, received, depth));
                }
            },
            Expr::Block { label, body } => {
                if label.suppresses {
                    let frames = clone_stack(call_stack);
                    let ghost copied = stack_view(frames@);
                    self.allow_panics.push(frames);
                    assert(final(self)@.suppressed =~= old(self)@.suppressed.push(copied));
                    assert(final(self)@.leaves == old(self)@.leaves);
                } else {
                    self.expand_all(unit, body, call_stack);
                    assert forall|depth: nat| depth >= unvisited(old(self)@.visited) implies self@
                        == #[trigger] walk(
                        *unit,
                        *expr,
                        stack_view(old(call_stack)@),
                        old(self)@,
                        depth,
                    ) by {
                        assert(self@ == walk_all(
                            *unit,
                            *body,
                            0,
                            stack_view(old(call_stack)@),
                            old(self)@,
                            depth,
                        ));
                    }
                }
            },
            Expr::Closure(body) => {
                self.expand_expr(unit, body, call_stack);
                assert forall|depth: nat| depth >= unvisited(old(self)@.visited) implies self@
                    == #[trigger] walk(
                    *unit,
                    *expr,
                    stack_view(old(call_stack)@),
                    old(self)@,
                    depth,
                ) by {
                    assert(self@ == walk(
                        *unit,
                        **body,
                        stack_view(old(call_stack)@),
                        old(self)@,
                        depth,
                    ));
                }
            },
        }
    }

    fn expand_all(&mut self, unit: &Unit, items: &Vec<Expr>, call_stack: &mut Vec<Frame>)
        requires
            old(self)@.visited.len() == unit.functions@.len(),
        ensures
            final(call_stack)@ == old(call_stack)@,
            final(self)@.visited.len() == old(self)@.visited.len(),
            unvisited(final(self)@.visited) <= unvisited(old(self)@.visited),
            forall|depth: nat|
                depth >= unvisited(old(self)@.visited) ==> final(self)@ == #[trigger] walk_all(
                    *unit,
                    *items,
                    0,
                    stack_view(old(call_stack)@),
                    old(self)@,
                    depth,
                ),
        decreases unvisited(old(self)@.visited), items, 0nat,
    {
        let mut i: usize = 0;
        while i < items.len()
            invariant
                i <= items@.len(),
                call_stack@ == old(call_stack)@,
                self@.visited.len() == unit.functions@.len(),
                unvisited(self@.visited) <= unvisited(old(self)@.visited),
                forall|depth: nat|
                    depth >= unvisited(old(self)@.visited) ==> walk_all(
                        *unit,
                        *items,
                        i as nat,
                        stack_view(old(call_stack)@),
                        self@,
                        depth,
                    ) == #[trigger] walk_all(
                        *unit,
                        *items,
                        0,
                        stack_view(old(call_stack)@),
                        old(self)@,
                        depth,
                    ),
            decreases items@.len() - i,
        {
            let ghost before = self@;
            self.expand_expr(unit, &items[i], call_stack);
            assert forall|depth: nat| depth >= unvisited(old(self)@.visited) implies walk_all(
                *unit,
                *items,
                (i + 1) as nat,
                stack_view(old(call_stack)@),
                self@,
                depth,
            ) == #[trigger] walk_all(
                *unit,
                *items,
                0,
                stack_view(old(call_stack)@),
                old(self)@,
                depth,
            ) by {
                assert(self@ == walk(
                    *unit,
                    items@[i as int],
                    stack_view(old(call_stack)@),
                    before,
                    depth,
                ));
                assert(walk_all(
                    *unit,
                    *items,
                    i as nat,
                    stack_view(old(call_stack)@),
                    before,
                    depth,
                ) == walk_all(
                    *unit,
                    *items,
                    (i + 1) as nat,
                    stack_view(old(call_stack)@),
                    self@,
                    depth,
                ));
            }
            i += 1;
        }
    }

    /// Walks `expr` under `call_stack`, which is left as it was.
    pub fn traverse_expr(&mut self, unit: &Unit, expr: &Expr, call_stack: &mut Vec<Frame>)
        requires
            old(self)@.visited.len() == unit.functions@.len(),
        ensures
            final(call_stack)@ == old(call_stack)@,
            final(self)@ == walk(
                *unit,
                *expr,
                stack_view(old(call_stack)@),
                old(self)@,
                unit.functions@.len(),
            ),
    {
        proof {
            unvisited_is_bounded(self@.visited);
        }
        self.expand_expr(unit, expr, call_stack);
    }

    /// Walks the expressions of `block` in order under `call_stack`, which is
    /// left as it was.
    pub fn traverse_block(&mut self, unit: &Unit, block: &Vec<Expr>, call_stack: &mut Vec<Frame>)
        requires
            old(self)@.visited.len() == unit.functions@.len(),
        ensures
            final(call_stack)@ == old(call_stack)@,
            final(self)@ == walk_all(
                *unit,
                *block,
                0,
                stack_view(old(call_stack)@),
                old(self)@,
                unit.functions@.len(),
            ),
    {
        proof {
            unvisited_is_bounded(self@.visited);
        }
        self.expand_all(unit, block, call_stack);
    }
}

} // verus!
