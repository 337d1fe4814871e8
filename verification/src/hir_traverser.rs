//! The analysis of a whole program, one unit at a time.
//!
//! [`HirTraverser`] decides which unit is needed next and what is walked in
//! it; whoever drives it loads the unit and hands it over. The target unit
//! comes first. Calls that leave a unit wait for the unit that owns them;
//! every dependency is looked at once; then every unit is searched for the
//! arguments handed to parameters that a restricted region calls, and what
//! those lead to is resolved in turn.

use crate::function_collectors::{
    arguments_upto, arguments_view, callers_into_args, callers_upto, entries_view, get_all_fn_in_crate, get_callers,
    get_function_for_dependency, get_functions, get_procedural_parameters, missing_upto,
    noted_entries, pointees, resumed_upto, scanned_upto, solve_arg, solved, suppressed_upto,
    Argument, ArgumentView, Entry, EntryView, ProceduralParameter,
};
use crate::function_handlers::{
    check_fn_panics, findings_after, is_runtime, is_runtime_unit, pending_after,
};
use crate::model::{clone_stack, stack_view, Expr, Frame, FrameView, Function, FunctionId, Unit};
use crate::pending::{
    bucket_from, calls_view, ForeignCallsToCheck, PendingCall, PendingCallView,
};
use crate::text::{clone_strings, same_text, strings_view};
use crate::traversers::{stacks_view, FunctionCallPartialTree};
use crate::walk::{walk, walk_all, LeafView, Walk};
use vstd::prelude::*;

verus! {

/// What the analysis has gathered: the calls that wait for their unit, the
/// call stacks that end in a panic primitive, and the call stacks of the
/// suppression regions that were met.
pub struct Outcome {
    pub pending: Seq<(Seq<char>, Seq<PendingCallView>)>,
    pub findings: Seq<Seq<FrameView>>,
    pub allowed: Seq<Seq<FrameView>>,
}

/// The outcome after the first `upto` of `leaves` are disposed of, in
/// order.
pub open spec fn absorbed(outcome: Outcome, leaves: Seq<LeafView>, upto: int) -> Outcome
    decreases upto,
{
    if upto <= 0 {
        outcome
    } else {
        let before = absorbed(outcome, leaves, upto - 1);
        Outcome {
            pending: pending_after(before.pending, leaves[upto - 1]),
            findings: findings_after(before.findings, leaves[upto - 1]),
            allowed: before.allowed,
        }
    }
}

/// The outcome after a finished walk is taken in: its leaves are disposed
/// of, and its suppression events are kept.
pub open spec fn after_walk(outcome: Outcome, finished: Walk) -> Outcome {
    let disposed = absorbed(outcome, finished.leaves, finished.leaves.len() as int);
    Outcome { allowed: disposed.allowed + finished.suppressed, ..disposed }
}

/// The walk that starts at `root` under `stack`, with nothing expanded
/// before: the contents of a block, whatever its label, or the expression.
pub open spec fn root_walk(unit: Unit, root: Expr, stack: Seq<FrameView>) -> Walk {
    let functions = unit.functions@.len();
    match root {
        Expr::Block { label, body } => walk_all(
            unit,
            body,
            0,
            stack,
            Walk::fresh(functions),
            functions,
        ),
        _ => walk(unit, root, stack, Walk::fresh(functions), functions),
    }
}

/// The outcome after the first `upto` of `roots` are walked, each from a
/// fresh state.
pub open spec fn after_roots(
    outcome: Outcome,
    unit: Unit,
    roots: Seq<Expr>,
    stack: Seq<FrameView>,
    upto: int,
) -> Outcome
    decreases upto,
{
    if upto <= 0 {
        outcome
    } else {
        after_walk(
            after_roots(outcome, unit, roots, stack, upto - 1),
            root_walk(unit, roots[upto - 1], stack),
        )
    }
}

/// The outcome after the first `upto` of `entries` are walked.
pub open spec fn after_entries(outcome: Outcome, unit: Unit, entries: Seq<EntryView>, upto: int) -> Outcome
    decreases upto,
{
    if upto <= 0 {
        outcome
    } else {
        let entry = entries[upto - 1];
        after_roots(
            after_entries(outcome, unit, entries, upto - 1),
            unit,
            entry.roots,
            entry.call_stack,
            entry.roots.len() as int,
        )
    }
}

/// The outcome after the first `upto` of `arguments` are resolved and
/// walked, each from a fresh state under the frame of its call site. An
/// argument that cannot be followed is passed over.
pub open spec fn after_arguments(
    outcome: Outcome,
    unit: Unit,
    arguments: Seq<ArgumentView>,
    upto: int,
) -> Outcome
    decreases upto,
{
    if upto <= 0 {
        outcome
    } else {
        let before = after_arguments(outcome, unit, arguments, upto - 1);
        let handed = arguments[upto - 1];
        match solved(unit, handed.argument, handed.method) {
            Some(root) => after_walk(
                before,
                walk(
                    unit,
                    root,
                    seq![handed.to_log],
                    Walk::fresh(unit.functions@.len()),
                    unit.functions@.len(),
                ),
            ),
            None => before,
        }
    }
}

/// Whether an entry of `entries` is for `function`.
pub open spec fn has_entry(entries: Seq<EntryView>, function: FunctionId) -> bool {
    exists|k: int| 0 <= k < entries.len() && entries[k].function == function
}

/// `seeded`, followed by those of the first `upto` of `scanned` whose
/// function has no entry in `seeded`.
pub open spec fn joined(seeded: Seq<EntryView>, scanned: Seq<EntryView>, upto: int) -> Seq<EntryView>
    decreases upto,
{
    if upto <= 0 {
        seeded
    } else if has_entry(seeded, scanned[upto - 1].function) {
        joined(seeded, scanned, upto - 1)
    } else {
        joined(seeded, scanned, upto - 1).push(scanned[upto - 1])
    }
}

/// The outcome that three collections stand for.
pub open spec fn outcome_of(
    pending: ForeignCallsToCheck,
    findings: Seq<Vec<Frame>>,
    allowed: Seq<Vec<Frame>>,
) -> Outcome {
    Outcome {
        pending: pending@,
        findings: stacks_view(findings),
        allowed: stacks_view(allowed),
    }
}

/// Takes a finished walk in: disposes of its leaves in order and keeps its
/// suppression events.
pub fn absorb(
    tree: FunctionCallPartialTree,
    acc: &mut ForeignCallsToCheck,
    to_log: &mut Vec<Vec<Frame>>,
    allowed: &mut Vec<Vec<Frame>>,
)
    requires
        old(acc).wf(),
    ensures
        final(acc).wf(),
        outcome_of(*final(acc), final(to_log)@, final(allowed)@) == after_walk(
            outcome_of(*old(acc), old(to_log)@, old(allowed)@),
            tree@,
        ),
{
    let ghost start = outcome_of(*acc, to_log@, allowed@);
    let mut i: usize = 0;
    while i < tree.leaves.len()
        invariant
            i <= tree.leaves@.len(),
            acc.wf(),
            allowed@ == old(allowed)@,
            outcome_of(*acc, to_log@, allowed@) == absorbed(start, tree@.leaves, i as int),
        decreases tree.leaves@.len() - i,
    {
        assert(tree@.leaves[i as int] == tree.leaves@[i as int]@);
        check_fn_panics(&tree.leaves[i], acc, to_log);
        i += 1;
    }
    let mut j: usize = 0;
    while j < tree.allow_panics.len()
        invariant
            j <= tree.allow_panics@.len(),
            stacks_view(allowed@) == stacks_view(old(allowed)@) + tree@.suppressed.subrange(
                0,
                j as int,
            ),
        decreases tree.allow_panics@.len() - j,
    {
        let stack = clone_stack(&tree.allow_panics[j]);
        let ghost copied = stack_view(stack@);
        let ghost before = stacks_view(allowed@);
        allowed.push(stack);
        assert(stacks_view(allowed@) =~= before.push(copied));
        assert(stacks_view(allowed@) =~= stacks_view(old(allowed)@) + tree@.suppressed.subrange(
            0,
            j + 1,
        ));
        j += 1;
    }
    assert(tree@.suppressed.subrange(0, j as int) =~= tree@.suppressed);
}

/// Walks every place where `entries` say that a walk starts in `unit`, each
/// from a fresh state, and takes the walks in.
pub fn walk_entries(
    unit: &Unit,
    entries: &Vec<Entry<'_>>,
    acc: &mut ForeignCallsToCheck,
    to_log: &mut Vec<Vec<Frame>>,
    allowed: &mut Vec<Vec<Frame>>,
)
    requires
        old(acc).wf(),
    ensures
        final(acc).wf(),
        outcome_of(*final(acc), final(to_log)@, final(allowed)@) == after_entries(
            outcome_of(*old(acc), old(to_log)@, old(allowed)@),
            *unit,
            entries_view(entries@),
            entries@.len() as int,
        ),
{
    let ghost start = outcome_of(*acc, to_log@, allowed@);
    let mut e: usize = 0;
    while e < entries.len()
        invariant
            e <= entries@.len(),
            acc.wf(),
            outcome_of(*acc, to_log@, allowed@) == after_entries(
                start,
                *unit,
                entries_view(entries@),
                e as int,
            ),
        decreases entries@.len() - e,
    {
        let entry = &entries[e];
        assert(entries_view(entries@)[e as int] == entry@);
        let ghost at_entry = outcome_of(*acc, to_log@, allowed@);
        let mut call_stack = clone_stack(&entry.call_stack);
        let mut r: usize = 0;
        while r < entry.roots.len()
            invariant
                r <= entry.roots@.len(),
                acc.wf(),
                stack_view(call_stack@) == stack_view(entry.call_stack@),
                outcome_of(*acc, to_log@, allowed@) == after_roots(
                    at_entry,
                    *unit,
                    pointees(entry.roots@),
                    stack_view(entry.call_stack@),
                    r as int,
                ),
            decreases entry.roots@.len() - r,
        {
            let root = entry.roots[r];
            assert(pointees(entry.roots@)[r as int] == *root);
            let mut tree = FunctionCallPartialTree::new(unit);
            match root {
                Expr::Block { label, body } => {
                    tree.traverse_block(unit, body, &mut call_stack);
                },
                _ => {
                    tree.traverse_expr(unit, root, &mut call_stack);
                },
            }
            assert(tree@ == root_walk(*unit, *root, stack_view(entry.call_stack@)));
            absorb(tree, acc, to_log, allowed);
            r += 1;
        }
        e += 1;
    }
}


/// Walks what each of `arguments` resolves to in `unit`, each from a fresh
/// state under the frame of its call site, and takes the walks in.
pub fn walk_arguments(
    unit: &Unit,
    arguments: &Vec<Argument<'_>>,
    acc: &mut ForeignCallsToCheck,
    to_log: &mut Vec<Vec<Frame>>,
    allowed: &mut Vec<Vec<Frame>>,
)
    requires
        old(acc).wf(),
    ensures
        final(acc).wf(),
        outcome_of(*final(acc), final(to_log)@, final(allowed)@) == after_arguments(
            outcome_of(*old(acc), old(to_log)@, old(allowed)@),
            *unit,
            arguments_view(arguments@),
            arguments@.len() as int,
        ),
{
    let ghost start = outcome_of(*acc, to_log@, allowed@);
    let ghost handed = arguments_view(arguments@);
    let mut a: usize = 0;
    while a < arguments.len()
        invariant
            a <= arguments@.len(),
            acc.wf(),
            handed == arguments_view(arguments@),
            outcome_of(*acc, to_log@, allowed@) == after_arguments(start, *unit, handed, a as int),
        decreases arguments@.len() - a,
    {
        let argument = &arguments[a];
        assert(handed[a as int] == argument@);
        match solve_arg(unit, argument.argument, argument.method) {
            Some(root) => {
                let mut call_stack: Vec<Frame> = Vec::new();
                call_stack.push(argument.to_log.clone());
                assert(stack_view(call_stack@) =~= seq![argument.to_log@]);
                let mut tree = FunctionCallPartialTree::new(unit);
                tree.traverse_expr(unit, root, &mut call_stack);
                absorb(tree, acc, to_log, allowed);
            },
            None => {},
        }
        a += 1;
    }
}

/// A unit that the target depends on, with the arguments that build it.
#[derive(Debug, PartialEq, Eq)]
pub struct Dependency {
    pub name: String,
    pub build_script: Option<Vec<String>>,
    pub args: Vec<String>,
}

/// A [`Dependency`] as plain values.
pub struct DependencyView {
    pub name: Seq<char>,
    pub args: Seq<Seq<char>>,
}

impl View for Dependency {
    type V = DependencyView;

    open spec fn view(&self) -> DependencyView {
        DependencyView { name: self.name@, args: strings_view(self.args@) }
    }
}

/// The dependencies of a list, as plain values.
pub open spec fn dependencies_view(dependencies: Seq<Dependency>) -> Seq<DependencyView> {
    dependencies.map_values(|dependency: Dependency| dependency@)
}

/// What the driver is asked to do next.
#[derive(Debug, PartialEq, Eq)]
pub enum Action {
    /// Load the unit that these arguments build, and hand it over.
    Load(Vec<String>),
    /// Nothing is left to do: the findings are complete.
    Finish,
}

/// An [`Action`] as plain values.
pub enum ActionView {
    Load(Seq<Seq<char>>),
    Finish,
}

impl View for Action {
    type V = ActionView;

    open spec fn view(&self) -> ActionView {
        match self {
            Action::Load(args) => ActionView::Load(strings_view(args@)),
            Action::Finish => ActionView::Finish,
        }
    }
}

/// Why the analysis gave up.
#[derive(Debug, PartialEq, Eq)]
pub enum AnalysisError {
    /// The target unit holds no restricted region: there is nothing to
    /// check.
    NoRestrictedRegion,
    /// A call waited for a unit that does not hold the function's body.
    MissingBody(FunctionId),
    /// Calls wait for a unit that is neither the target nor a dependency.
    UnknownUnit(String),
    /// The unit handed over is not the one that was asked for.
    UnexpectedUnit(String),
    /// A unit was handed over when none was asked for.
    OutOfTurn,
}

/// An [`AnalysisError`] as plain values.
pub enum AnalysisErrorView {
    NoRestrictedRegion,
    MissingBody(FunctionId),
    UnknownUnit(Seq<char>),
    UnexpectedUnit(Seq<char>),
    OutOfTurn,
}

impl View for AnalysisError {
    type V = AnalysisErrorView;

    open spec fn view(&self) -> AnalysisErrorView {
        match self {
            AnalysisError::NoRestrictedRegion => AnalysisErrorView::NoRestrictedRegion,
            AnalysisError::MissingBody(function) => AnalysisErrorView::MissingBody(*function),
            AnalysisError::UnknownUnit(name) => AnalysisErrorView::UnknownUnit(name@),
            AnalysisError::UnexpectedUnit(name) => AnalysisErrorView::UnexpectedUnit(name@),
            AnalysisError::OutOfTurn => AnalysisErrorView::OutOfTurn,
        }
    }
}

/// Where the analysis stands.
#[derive(Clone, Copy, PartialEq, Eq, Structural, Debug)]
pub enum Stage {
    /// Nothing was asked for yet.
    Created,
    /// The target unit was asked for.
    Target,
    /// A unit was asked for because calls wait for it.
    Seeded,
    /// A dependency that no call waited for was asked for.
    Sweep,
    /// A unit was asked for to search it for arguments handed to noted
    /// parameters.
    Pass,
    /// A unit was asked for because calls wait for it, after every unit
    /// was searched for arguments.
    SeededLast,
    /// The analysis is over.
    Done,
}

/// The position of the first dependency at or after `from` named `name`.
pub open spec fn dependency_from(dependencies: Seq<DependencyView>, name: Seq<char>, from: int) -> Option<
    int,
>
    decreases dependencies.len() - from,
{
    if from < 0 || from >= dependencies.len() {
        None
    } else if dependencies[from].name == name {
        Some(from)
    } else {
        dependency_from(dependencies, name, from + 1)
    }
}

/// The position of the first dependency at or after `from` that was not
/// loaded yet.
pub open spec fn unvisited_from(
    dependencies: Seq<DependencyView>,
    visited: Seq<Seq<char>>,
    from: int,
) -> Option<int>
    decreases dependencies.len() - from,
{
    if from < 0 || from >= dependencies.len() {
        None
    } else if !visited.contains(dependencies[from].name) {
        Some(from)
    } else {
        unvisited_from(dependencies, visited, from + 1)
    }
}

/// Those of the first `upto` dependencies that are no runtime unit.
pub open spec fn loadable_upto(dependencies: Seq<DependencyView>, upto: int) -> Seq<DependencyView>
    decreases upto,
{
    if upto <= 0 {
        Seq::empty()
    } else if is_runtime_unit(dependencies[upto - 1].name) {
        loadable_upto(dependencies, upto - 1)
    } else {
        loadable_upto(dependencies, upto - 1).push(dependencies[upto - 1])
    }
}

/// The state of an analysis, as plain values.
pub struct Analysis {
    pub outcome: Outcome,
    pub notes: Seq<ProceduralParameter>,
    pub visited: Seq<Seq<char>>,
    pub dependencies: Seq<DependencyView>,
    pub target_args: Seq<Seq<char>>,
    pub target_name: Seq<char>,
    pub stage: Stage,
    pub expected: Seq<char>,
    pub cursor: int,
}

/// What walking a loaded unit gives: the calls `calls` that waited for it
/// are resumed, and with `scan` its restricted regions are walked too, but
/// for those in a function that a call is resumed in. Fails with the
/// identity of the first plain function among the calls whose body the unit
/// does not hold.
pub open spec fn checked(
    outcome: Outcome,
    notes: Seq<ProceduralParameter>,
    unit: Unit,
    calls: Seq<PendingCallView>,
    scan: bool,
) -> Result<(Outcome, Seq<ProceduralParameter>), FunctionId> {
    match missing_upto(unit, calls, calls.len() as int) {
        Some(function) => Err(function),
        None => {
            let resumed = resumed_upto(unit, calls, calls.len() as int);
            let scanned = scanned_upto(unit.functions@, unit.functions@.len() as int);
            let entries = if scan {
                joined(resumed, scanned, scanned.len() as int)
            } else {
                resumed
            };
            let before = Outcome {
                allowed: outcome.allowed + suppressed_upto(unit, calls, calls.len() as int),
                ..outcome
            };
            Ok(
                (
                    after_entries(before, unit, entries, entries.len() as int),
                    noted_entries(notes, entries, entries.len() as int),
                ),
            )
        },
    }
}

/// What searching a unit for arguments handed to noted parameters gives.
pub open spec fn passed(outcome: Outcome, notes: Seq<ProceduralParameter>, unit: Unit) -> Outcome {
    let callers = callers_upto(
        notes,
        unit.functions@,
        unit.functions@.len() as int,
    );
    let arguments = arguments_upto(notes, callers, callers.len() as int);
    after_arguments(outcome, unit, arguments, arguments.len() as int)
}

/// The state after a loaded unit is taken in, or why the analysis gives up
/// on it.
pub open spec fn loaded(state: Analysis, unit: Unit) -> Result<Analysis, AnalysisErrorView> {
    match state.stage {
        Stage::Created => Err(AnalysisErrorView::OutOfTurn),
        Stage::Done => Err(AnalysisErrorView::OutOfTurn),
        Stage::Target => if scanned_upto(unit.functions@, unit.functions@.len() as int).len()
            == 0 {
            Err(AnalysisErrorView::NoRestrictedRegion)
        } else {
            match checked(state.outcome, state.notes, unit, Seq::empty(), true) {
                Ok((outcome, notes)) => Ok(
                    Analysis {
                        outcome,
                        notes,
                        visited: state.visited.push(unit.name@),
                        target_name: unit.name@,
                        ..state
                    },
                ),
                Err(function) => Err(AnalysisErrorView::MissingBody(function)),
            }
        },
        Stage::Pass => if unit.name@ != state.expected {
            Err(AnalysisErrorView::UnexpectedUnit(unit.name@))
        } else {
            Ok(Analysis { outcome: passed(state.outcome, state.notes, unit), ..state })
        },
        _ => if unit.name@ != state.expected {
            Err(AnalysisErrorView::UnexpectedUnit(unit.name@))
        } else {
            seeded(state, unit)
        },
    }
}

/// What a dependency adds that was asked for: the calls that wait for it
/// are taken out and resumed, and if the unit is loaded for the first
/// time, its restricted regions are walked too.
pub open spec fn seeded(state: Analysis, unit: Unit) -> Result<Analysis, AnalysisErrorView> {
    let at = bucket_from(state.outcome.pending, unit.name@, 0);
    let calls = match at {
        Some(at) => state.outcome.pending[at].1,
        None => Seq::empty(),
    };
    let rest = match at {
        Some(at) => state.outcome.pending.remove(at),
        None => state.outcome.pending,
    };
    let first = !state.visited.contains(unit.name@);
    match checked(Outcome { pending: rest, ..state.outcome }, state.notes, unit, calls, first) {
        Ok((outcome, notes)) => Ok(
            Analysis {
                outcome,
                notes,
                visited: if first {
                    state.visited.push(unit.name@)
                } else {
                    state.visited
                },
                ..state
            },
        ),
        Err(function) => Err(AnalysisErrorView::MissingBody(function)),
    }
}

/// Asks for the unit that the first pending calls wait for.
pub open spec fn resume_first(state: Analysis, stage: Stage) -> Result<
    (Analysis, ActionView),
    AnalysisErrorView,
> {
    let name = state.outcome.pending[0].0;
    match dependency_from(state.dependencies, name, 0) {
        Some(at) => Ok(
            (
                Analysis { stage, expected: name, ..state },
                ActionView::Load(state.dependencies[at].args),
            ),
        ),
        None => if name == state.target_name {
            Ok((Analysis { stage, expected: name, ..state }, ActionView::Load(state.target_args)))
        } else {
            Err(AnalysisErrorView::UnknownUnit(name))
        },
    }
}

/// Asks for the unit at position `cursor` of the search for arguments: the
/// target first, then the dependencies in order.
pub open spec fn pass_unit(state: Analysis) -> (Analysis, ActionView) {
    if state.cursor <= 0 {
        (
            Analysis { stage: Stage::Pass, cursor: 0, expected: state.target_name, ..state },
            ActionView::Load(state.target_args),
        )
    } else {
        let dependency = state.dependencies[state.cursor - 1];
        (
            Analysis { stage: Stage::Pass, expected: dependency.name, ..state },
            ActionView::Load(dependency.args),
        )
    }
}

/// What is asked for next, after a unit was taken in. While calls wait,
/// the unit of the first of them; else a dependency that was not loaded
/// yet; else each unit in turn, to search it for arguments; and at last
/// the units that calls wait for again.
pub open spec fn decide(state: Analysis) -> Result<(Analysis, ActionView), AnalysisErrorView> {
    match state.stage {
        Stage::Created => Err(AnalysisErrorView::OutOfTurn),
        Stage::Done => Err(AnalysisErrorView::OutOfTurn),
        Stage::Pass => if 0 <= state.cursor < state.dependencies.len() {
            Ok(pass_unit(Analysis { cursor: state.cursor + 1, ..state }))
        } else {
            decide_last(state)
        },
        Stage::SeededLast => decide_last(state),
        _ => if state.outcome.pending.len() > 0 {
            resume_first(state, Stage::Seeded)
        } else {
            match unvisited_from(state.dependencies, state.visited, 0) {
                Some(at) => Ok(
                    (
                        Analysis {
                            stage: Stage::Sweep,
                            expected: state.dependencies[at].name,
                            ..state
                        },
                        ActionView::Load(state.dependencies[at].args),
                    ),
                ),
                None => Ok(pass_unit(Analysis { cursor: 0, ..state })),
            }
        },
    }
}

/// What is asked for next once every unit was searched for arguments.
pub open spec fn decide_last(state: Analysis) -> Result<(Analysis, ActionView), AnalysisErrorView> {
    if state.outcome.pending.len() > 0 {
        resume_first(state, Stage::SeededLast)
    } else {
        Ok((Analysis { stage: Stage::Done, ..state }, ActionView::Finish))
    }
}

/// What handing over `unit` leads to: the state after it is taken in and
/// the next unit is decided on, and what the driver is asked to do.
pub open spec fn step(state: Analysis, unit: Unit) -> Result<(Analysis, ActionView), AnalysisErrorView> {
    match loaded(state, unit) {
        Ok(next) => decide(next),
        Err(error) => Err(error),
    }
}


/// The analysis of one target unit with its dependencies.
pub struct HirTraverser {
    /// The calls that wait for their unit.
    pub function_to_check: ForeignCallsToCheck,
    /// The arguments that build the target unit.
    pub target_args: Vec<String>,
    /// The dependencies, with the arguments that build each.
    pub dep_map: Vec<Dependency>,
    /// The root of the toolchain, for whoever loads the units.
    pub sysroot: String,
    /// The parameters that restricted regions call.
    pub deny_panic_procedural_parameters: Vec<ProceduralParameter>,
    /// The names of the units that were loaded.
    pub visited_crates: Vec<String>,
    /// The findings: each call stack that ends in a panic primitive.
    pub to_log: Vec<Vec<Frame>>,
    /// One call stack for each suppression region that was met.
    pub allowed: Vec<Vec<Frame>>,
    /// The name of the target unit, once it was loaded.
    pub target_name: String,
    pub stage: Stage,
    /// The name of the unit that was asked for.
    pub expected: String,
    /// How far the search for arguments has come.
    pub cursor: usize,
}

impl View for HirTraverser {
    type V = Analysis;

    open spec fn view(&self) -> Analysis {
        Analysis {
            outcome: outcome_of(self.function_to_check, self.to_log@, self.allowed@),
            notes: self.deny_panic_procedural_parameters@,
            visited: strings_view(self.visited_crates@),
            dependencies: dependencies_view(self.dep_map@),
            target_args: strings_view(self.target_args@),
            target_name: self.target_name@,
            stage: self.stage,
            expected: self.expected@,
            cursor: self.cursor as int,
        }
    }
}

fn has_entry_for(entries: &Vec<Entry<'_>>, function: FunctionId) -> (found: bool)
    ensures
        found == has_entry(entries_view(entries@), function),
{
    let mut i: usize = 0;
    while i < entries.len()
        invariant
            i <= entries@.len(),
            forall|k: int| 0 <= k < i ==> entries_view(entries@)[k].function != function,
        decreases entries@.len() - i,
    {
        if entries[i].function == function {
            assert(entries_view(entries@)[i as int].function == function);
            return true;
        }
        i += 1;
    }
    false
}

fn join<'a>(seeded: Vec<Entry<'a>>, scanned: &Vec<Entry<'a>>) -> (entries: Vec<Entry<'a>>)
    ensures
        entries_view(entries@) == joined(
            entries_view(seeded@),
            entries_view(scanned@),
            scanned@.len() as int,
        ),
{
    let mut entries: Vec<Entry<'a>> = Vec::new();
    let mut i: usize = 0;
    assert(entries_view(entries@) =~= Seq::empty());
    while i < scanned.len()
        invariant
            i <= scanned@.len(),
            entries_view(seeded@) + entries_view(entries@) == joined(
                entries_view(seeded@),
                entries_view(scanned@),
                i as int,
            ),
        decreases scanned@.len() - i,
    {
        let entry = &scanned[i];
        assert(entries_view(scanned@)[i as int] == entry@);
        if !has_entry_for(&seeded, entry.function) {
            let mut roots: Vec<&'a Expr> = Vec::new();
            let mut r: usize = 0;
            while r < entry.roots.len()
                invariant
                    r <= entry.roots@.len(),
                    roots@ == entry.roots@.subrange(0, r as int),
                decreases entry.roots@.len() - r,
            {
                roots.push(entry.roots[r]);
                assert(roots@ =~= entry.roots@.subrange(0, r + 1));
                r += 1;
            }
            assert(roots@ =~= entry.roots@);
            let copy = Entry {
                function: entry.function,
                roots,
                call_stack: clone_stack(&entry.call_stack),
            };
            assert(copy@ == entry@);
            let ghost before = entries_view(entries@);
            entries.push(copy);
            assert(entries_view(entries@) =~= before.push(entry@));
            assert(entries_view(seeded@) + entries_view(entries@) =~= (entries_view(seeded@)
                + before).push(entry@));
        }
        i += 1;
    }
    let ghost tail = entries_view(entries@);
    let ghost head = entries_view(seeded@);
    let mut all = seeded;
    all.append(&mut entries);
    assert(entries_view(all@) =~= head + tail);
    all
}

fn find_name(names: &Vec<String>, name: &str) -> (found: bool)
    ensures
        found == strings_view(names@).contains(name@),
{
    let mut i: usize = 0;
    while i < names.len()
        invariant
            i <= names@.len(),
            forall|k: int| 0 <= k < i ==> strings_view(names@)[k] != name@,
        decreases names@.len() - i,
    {
        if same_text(names[i].as_str(), name) {
            assert(strings_view(names@)[i as int] == name@);
            return true;
        }
        i += 1;
    }
    false
}

impl HirTraverser {
    /// What the analysis relies on: no two buckets of pending calls are for
    /// the same unit, and the search for arguments is within the
    /// dependencies.
    pub open spec fn wf(&self) -> bool {
        self.function_to_check.wf() && self@.cursor <= self@.dependencies.len()
    }

    /// An analysis of the target built by `target_args`, with the
    /// dependencies `dep_map`. Nothing is asked for yet.
    pub fn new(target_args: Vec<String>, dep_map: Vec<Dependency>, sysroot: String) -> (analysis:
        HirTraverser)
        ensures
            analysis.wf(),
            analysis.sysroot == sysroot,
            analysis@ == (Analysis {
                outcome: Outcome {
                    pending: Seq::empty(),
                    findings: Seq::empty(),
                    allowed: Seq::empty(),
                },
                notes: Seq::empty(),
                visited: Seq::empty(),
                dependencies: dependencies_view(dep_map@),
                target_args: strings_view(target_args@),
                target_name: Seq::empty(),
                stage: Stage::Created,
                expected: Seq::empty(),
                cursor: 0,
            }),
    {
        let analysis = HirTraverser {
            function_to_check: ForeignCallsToCheck::new(),
            target_args,
            dep_map,
            sysroot,
            deny_panic_procedural_parameters: Vec::new(),
            visited_crates: Vec::new(),
            to_log: Vec::new(),
            allowed: Vec::new(),
            target_name: String::new(),
            stage: Stage::Created,
            expected: String::new(),
            cursor: 0,
        };
        assert(analysis@.outcome.findings =~= Seq::empty());
        assert(analysis@.outcome.allowed =~= Seq::empty());
        assert(analysis@.visited =~= Seq::empty());
        analysis
    }

    /// Begins the analysis: the runtime units leave the dependencies, since
    /// they are never loaded, and the target unit is asked for.
    pub fn start(&mut self) -> (action: Action)
        requires
            old(self).function_to_check.wf(),
        ensures
            final(self).wf(),
            final(self)@ == (Analysis {
                dependencies: loadable_upto(
                    old(self)@.dependencies,
                    old(self)@.dependencies.len() as int,
                ),
                stage: Stage::Target,
                cursor: 0,
                ..old(self)@
            }),
            action@ == ActionView::Load(old(self)@.target_args),
    {
        let mut kept: Vec<Dependency> = Vec::new();
        let ghost all = dependencies_view(self.dep_map@);
        assert(dependencies_view(kept@) =~= loadable_upto(all, 0));
        let mut i: usize = 0;
        while i < self.dep_map.len()
            invariant
                i <= self.dep_map@.len(),
                all == dependencies_view(self.dep_map@),
                self.dep_map@ == old(self).dep_map@,
                dependencies_view(kept@) == loadable_upto(all, i as int),
            decreases self.dep_map@.len() - i,
        {
            let dependency = &self.dep_map[i];
            assert(all[i as int] == dependency@);
            if !is_runtime(dependency.name.as_str()) {
                let copy = Dependency {
                    name: dependency.name.clone(),
                    build_script: match &dependency.build_script {
                        Some(script) => Some(clone_strings(script)),
                        None => None,
                    },
                    args: clone_strings(&dependency.args),
                };
                let ghost before = dependencies_view(kept@);
                let ghost added = copy@;
                kept.push(copy);
                assert(dependencies_view(kept@) =~= before.push(added));
            }
            i += 1;
        }
        self.dep_map = kept;
        self.stage = Stage::Target;
        self.cursor = 0;
        Action::Load(clone_strings(&self.target_args))
    }

    /// Walks the loaded `unit`: resumes the calls `function_to_check` that
    /// waited for it, and with `scan` walks its restricted regions too.
    /// Fails with the identity of the first plain function among the calls
    /// whose body the unit does not hold.
    pub fn check_crate(
        &mut self,
        unit: &Unit,
        function_to_check: Option<Vec<PendingCall>>,
        scan: bool,
    ) -> (done: Result<(), FunctionId>)
        requires
            old(self).function_to_check.wf(),
        ensures
            match checked(
                old(self)@.outcome,
                old(self)@.notes,
                *unit,
                match function_to_check {
                    Some(calls) => calls_view(calls@),
                    None => Seq::empty(),
                },
                scan,
            ) {
                Ok((outcome, notes)) => {
                    &&& done is Ok
                    &&& final(self).function_to_check.wf()
                    &&& final(self)@ == (Analysis { outcome, notes, ..old(self)@ })
                },
                Err(function) => done == Err::<(), FunctionId>(function),
            },
    {
        let calls: Vec<PendingCall> = match function_to_check {
            Some(calls) => calls,
            None => {
                let calls: Vec<PendingCall> = Vec::new();
                assert(calls_view(calls@) =~= Seq::empty());
                calls
            },
        };
        let mut resumed = match get_function_for_dependency(unit, &calls) {
            Ok(resumed) => resumed,
            Err(function) => {
                return Err(function);
            },
        };
        let ghost suppressed = stacks_view(resumed.allowed@);
        let ghost before = stacks_view(self.allowed@);
        self.allowed.append(&mut resumed.allowed);
        assert(stacks_view(self.allowed@) =~= before + suppressed);
        let entries = if scan {
            let scanned = get_functions(unit);
            join(resumed.entries, &scanned)
        } else {
            resumed.entries
        };
        get_procedural_parameters(&entries, &mut self.deny_panic_procedural_parameters);
        walk_entries(unit, &entries, &mut self.function_to_check, &mut self.to_log, &mut self.allowed);
        Ok(())
    }

    /// Searches the loaded `unit` for the arguments handed to noted
    /// parameters, and walks what they resolve to.
    pub fn second_pass(&mut self, unit: &Unit)
        requires
            old(self).function_to_check.wf(),
        ensures
            final(self).function_to_check.wf(),
            final(self)@ == (Analysis {
                outcome: passed(old(self)@.outcome, old(self)@.notes, *unit),
                ..old(self)@
            }),
    {
        let all_fn = get_all_fn_in_crate(unit);
        assert(all_fn@.map_values(|function: &Function| *function) =~= unit.functions@);
        let callers = get_callers(&all_fn, &self.deny_panic_procedural_parameters);
        let args_to_check = callers_into_args(&callers, &self.deny_panic_procedural_parameters);
        walk_arguments(
            unit,
            &args_to_check,
            &mut self.function_to_check,
            &mut self.to_log,
            &mut self.allowed,
        );
    }
}


impl HirTraverser {
    fn find_dependency(&self, name: &str) -> (found: Option<usize>)
        ensures
            match found {
                Some(at) => dependency_from(self@.dependencies, name@, 0) == Some(at as int) && at
                    < self.dep_map@.len(),
                None => dependency_from(self@.dependencies, name@, 0) is None,
            },
    {
        let mut i: usize = 0;
        while i < self.dep_map.len()
            invariant
                i <= self.dep_map@.len(),
                dependency_from(self@.dependencies, name@, 0) == dependency_from(
                    self@.dependencies,
                    name@,
                    i as int,
                ),
            decreases self.dep_map@.len() - i,
        {
            assert(self@.dependencies[i as int] == self.dep_map@[i as int]@);
            if same_text(self.dep_map[i].name.as_str(), name) {
                return Some(i);
            }
            i += 1;
        }
        None
    }

    fn first_unvisited(&self) -> (found: Option<usize>)
        ensures
            match found {
                Some(at) => unvisited_from(self@.dependencies, self@.visited, 0) == Some(
                    at as int,
                ) && at < self.dep_map@.len(),
                None => unvisited_from(self@.dependencies, self@.visited, 0) is None,
            },
    {
        let mut i: usize = 0;
        while i < self.dep_map.len()
            invariant
                i <= self.dep_map@.len(),
                unvisited_from(self@.dependencies, self@.visited, 0) == unvisited_from(
                    self@.dependencies,
                    self@.visited,
                    i as int,
                ),
            decreases self.dep_map@.len() - i,
        {
            assert(self@.dependencies[i as int] == self.dep_map@[i as int]@);
            if !find_name(&self.visited_crates, self.dep_map[i].name.as_str()) {
                return Some(i);
            }
            i += 1;
        }
        None
    }

    fn ask_first(&mut self, stage: Stage) -> (asked: Result<Action, AnalysisError>)
        requires
            old(self).wf(),
            old(self)@.outcome.pending.len() > 0,
        ensures
            match resume_first(old(self)@, stage) {
                Ok((state, action)) => {
                    &&& asked matches Ok(given)
                    &&& given@ == action
                    &&& final(self)@ == state
                    &&& final(self).wf()
                },
                Err(error) => asked matches Err(given) && given@ == error,
            },
    {
        let name = match self.function_to_check.first_key() {
            Some(name) => name,
            None => {
                return Err(AnalysisError::OutOfTurn);
            },
        };
        match self.find_dependency(name.as_str()) {
            Some(at) => {
                assert(self@.dependencies[at as int] == self.dep_map@[at as int]@);
                let args = clone_strings(&self.dep_map[at].args);
                self.stage = stage;
                self.expected = name;
                Ok(Action::Load(args))
            },
            None => {
                if same_text(name.as_str(), self.target_name.as_str()) {
                    let args = clone_strings(&self.target_args);
                    self.stage = stage;
                    self.expected = name;
                    Ok(Action::Load(args))
                } else {
                    Err(AnalysisError::UnknownUnit(name))
                }
            },
        }
    }

    fn ask_pass(&mut self) -> (action: Action)
        requires
            old(self).wf(),
        ensures
            final(self).wf(),
            (final(self)@, action@) == pass_unit(old(self)@),
    {
        if self.cursor == 0 {
            self.stage = Stage::Pass;
            self.expected = self.target_name.clone();
            Action::Load(clone_strings(&self.target_args))
        } else {
            let dependency = &self.dep_map[self.cursor - 1];
            assert(self@.dependencies[self.cursor - 1] == dependency@);
            let args = clone_strings(&dependency.args);
            let name = dependency.name.clone();
            self.stage = Stage::Pass;
            self.expected = name;
            Action::Load(args)
        }
    }

    fn ask_last(&mut self) -> (asked: Result<Action, AnalysisError>)
        requires
            old(self).wf(),
        ensures
            match decide_last(old(self)@) {
                Ok((state, action)) => {
                    &&& asked matches Ok(given)
                    &&& given@ == action
                    &&& final(self)@ == state
                    &&& final(self).wf()
                },
                Err(error) => asked matches Err(given) && given@ == error,
            },
    {
        if !self.function_to_check.is_empty() {
            self.ask_first(Stage::SeededLast)
        } else {
            self.stage = Stage::Done;
            Ok(Action::Finish)
        }
    }

    /// Decides what is asked for next.
    fn ask(&mut self) -> (asked: Result<Action, AnalysisError>)
        requires
            old(self).wf(),
        ensures
            match decide(old(self)@) {
                Ok((state, action)) => {
                    &&& asked matches Ok(given)
                    &&& given@ == action
                    &&& final(self)@ == state
                    &&& final(self).wf()
                },
                Err(error) => asked matches Err(given) && given@ == error,
            },
    {
        match self.stage {
            Stage::Created => Err(AnalysisError::OutOfTurn),
            Stage::Done => Err(AnalysisError::OutOfTurn),
            Stage::Pass => {
                if self.cursor < self.dep_map.len() {
                    self.cursor = self.cursor + 1;
                    Ok(self.ask_pass())
                } else {
                    self.ask_last()
                }
            },
            Stage::SeededLast => self.ask_last(),
            _ => {
                if !self.function_to_check.is_empty() {
                    self.ask_first(Stage::Seeded)
                } else {
                    match self.first_unvisited() {
                        Some(at) => {
                            let dependency = &self.dep_map[at];
                            assert(self@.dependencies[at as int] == dependency@);
                            let args = clone_strings(&dependency.args);
                            let name = dependency.name.clone();
                            self.stage = Stage::Sweep;
                            self.expected = name;
                            Ok(Action::Load(args))
                        },
                        None => {
                            self.cursor = 0;
                            Ok(self.ask_pass())
                        },
                    }
                }
            },
        }
    }

    /// Takes the loaded `unit` in.
    fn take(&mut self, unit: &Unit) -> (taken: Result<(), AnalysisError>)
        requires
            old(self).wf(),
        ensures
            match loaded(old(self)@, *unit) {
                Ok(state) => taken is Ok && final(self)@ == state && final(self).wf(),
                Err(error) => taken matches Err(given) && given@ == error,
            },
    {
        match self.stage {
            Stage::Created => Err(AnalysisError::OutOfTurn),
            Stage::Done => Err(AnalysisError::OutOfTurn),
            Stage::Target => {
                if get_functions(unit).len() == 0 {
                    return Err(AnalysisError::NoRestrictedRegion);
                }
                match self.check_crate(unit, None, true) {
                    Ok(()) => {
                        let ghost before = strings_view(self.visited_crates@);
                        self.visited_crates.push(unit.name.clone());
                        assert(strings_view(self.visited_crates@) =~= before.push(unit.name@));
                        self.target_name = unit.name.clone();
                        Ok(())
                    },
                    Err(function) => Err(AnalysisError::MissingBody(function)),
                }
            },
            Stage::Pass => {
                if !same_text(unit.name.as_str(), self.expected.as_str()) {
                    return Err(AnalysisError::UnexpectedUnit(unit.name.clone()));
                }
                self.second_pass(unit);
                Ok(())
            },
            _ => {
                if !same_text(unit.name.as_str(), self.expected.as_str()) {
                    return Err(AnalysisError::UnexpectedUnit(unit.name.clone()));
                }
                let to_check = self.function_to_check.remove(unit.name.as_str());
                let first = !find_name(&self.visited_crates, unit.name.as_str());
                match self.check_crate(unit, to_check, first) {
                    Ok(()) => {
                        if first {
                            let ghost before = strings_view(self.visited_crates@);
                            self.visited_crates.push(unit.name.clone());
                            assert(strings_view(self.visited_crates@) =~= before.push(unit.name@));
                        }
                        Ok(())
                    },
                    Err(function) => Err(AnalysisError::MissingBody(function)),
                }
            },
        }
    }

    /// Takes the loaded `unit` in, and says what to load next. On an error
    /// the analysis is over, and what it gathered is not to be relied on.
    pub fn resume(&mut self, unit: &Unit) -> (asked: Result<Action, AnalysisError>)
        requires
            old(self).wf(),
        ensures
            match step(old(self)@, *unit) {
                Ok((state, action)) => {
                    &&& asked matches Ok(given)
                    &&& given@ == action
                    &&& final(self)@ == state
                    &&& final(self).wf()
                },
                Err(error) => asked matches Err(given) && given@ == error,
            },
    {
        match self.take(unit) {
            Ok(()) => self.ask(),
            Err(error) => Err(error),
        }
    }
}

} // verus!
