//! Finding where walks start: restricted regions, resumed calls, and the
//! arguments handed to parameters that a restricted region calls.

use crate::model::{
    clone_stack, position_is_first, stack_view, Expr, Frame, FrameView, Function, FunctionId,
    Label, Target, TypeId, Unit,
};
use crate::text::{contains, has_match};
use crate::pending::{calls_view, PendingCall, PendingCallView};
use crate::traversers::stacks_view;
use vstd::prelude::*;

verus! {

/// What the label named `name` asks of the analysis: a name that holds
/// `deny_panic` marks a restricted region, one that holds `allow_panic` a
/// suppression region.
pub fn label_of(name: &str) -> (label: Label)
    ensures
        label == (Label {
            restricts: has_match(name@, "deny_panic"@),
            suppresses: has_match(name@, "allow_panic"@),
        }),
{
    Label { restricts: contains(name, "deny_panic"), suppresses: contains(name, "allow_panic") }
}

/// Whether `expr` is a block labelled as a restricted region.
pub open spec fn is_region(expr: Expr) -> bool {
    expr matches Expr::Block { label, .. } && label.restricts
}

/// The restricted regions among the first `upto` expressions of `children`,
/// in order.
pub open spec fn regions_upto(children: Seq<Expr>, upto: int) -> Seq<Expr>
    decreases upto,
{
    if upto <= 0 {
        Seq::empty()
    } else if is_region(children[upto - 1]) {
        regions_upto(children, upto - 1).push(children[upto - 1])
    } else {
        regions_upto(children, upto - 1)
    }
}

/// The restricted regions of a function body: the blocks labelled so that
/// stand directly in the body's own block, where that block is itself
/// neither a restricted nor a suppression region.
pub open spec fn regions_of(body: Expr) -> Seq<Expr> {
    match body {
        Expr::Block { label, body } => if !label.restricts && !label.suppresses {
            regions_upto(body@, body@.len() as int)
        } else {
            Seq::empty()
        },
        _ => Seq::empty(),
    }
}

/// The expressions that the references of `refs` point to.
pub open spec fn pointees(refs: Seq<&Expr>) -> Seq<Expr> {
    refs.map_values(|r: &Expr| *r)
}

/// Adds the restricted regions of the function body `expr` to `blocks`.
pub fn get_deny_panic_in_expr<'a>(expr: &'a Expr, blocks: &mut Vec<&'a Expr>)
    ensures
        pointees(final(blocks)@) == pointees(old(blocks)@) + regions_of(*expr),
{
    match expr {
        Expr::Block { label, body } => {
            if !label.restricts && !label.suppresses {
                let mut i: usize = 0;
                while i < body.len()
                    invariant
                        i <= body@.len(),
                        pointees(blocks@) == pointees(old(blocks)@) + regions_upto(
                            body@,
                            i as int,
                        ),
                    decreases body@.len() - i,
                {
                    let child = &body[i];
                    let ghost before = pointees(blocks@);
                    match child {
                        Expr::Block { label: inner, .. } => {
                            if inner.restricts {
                                blocks.push(child);
                                assert(pointees(blocks@) =~= before.push(*child));
                            }
                        },
                        _ => {},
                    }
                    i += 1;
                    assert(pointees(blocks@) =~= pointees(old(blocks)@) + regions_upto(
                        body@,
                        i as int,
                    ));
                }
            } else {
                assert(pointees(blocks@) =~= pointees(old(blocks)@) + regions_of(*expr));
            }
        },
        _ => {
            assert(pointees(blocks@) =~= pointees(old(blocks)@) + regions_of(*expr));
        },
    }
}


/// A function with the places in it where walks start, and the call stack
/// that they start under.
pub struct Entry<'a> {
    pub function: FunctionId,
    pub roots: Vec<&'a Expr>,
    pub call_stack: Vec<Frame>,
}

/// An [`Entry`] as plain values.
pub struct EntryView {
    pub function: FunctionId,
    pub roots: Seq<Expr>,
    pub call_stack: Seq<FrameView>,
}

impl<'a> View for Entry<'a> {
    type V = EntryView;

    open spec fn view(&self) -> EntryView {
        EntryView {
            function: self.function,
            roots: pointees(self.roots@),
            call_stack: stack_view(self.call_stack@),
        }
    }
}

/// The entries of a list, as plain values.
pub open spec fn entries_view(entries: Seq<Entry<'_>>) -> Seq<EntryView> {
    entries.map_values(|entry: Entry<'_>| entry@)
}

/// The frame that stands for a function itself: its name and where it is
/// defined.
pub open spec fn own_frame(function: Function) -> FrameView {
    FrameView { description: function.name@, location: function.location@ }
}

/// The entries of the functions among the first `upto` of `functions` that
/// hold a restricted region, in order. Each starts under the function's own
/// frame.
pub open spec fn scanned_upto(functions: Seq<Function>, upto: int) -> Seq<EntryView>
    decreases upto,
{
    if upto <= 0 {
        Seq::empty()
    } else {
        let function = functions[upto - 1];
        let regions = regions_of(function.body);
        if regions.len() > 0 {
            scanned_upto(functions, upto - 1).push(
                EntryView {
                    function: function.id,
                    roots: regions,
                    call_stack: seq![own_frame(function)],
                },
            )
        } else {
            scanned_upto(functions, upto - 1)
        }
    }
}

/// Every function of `unit` that holds a restricted region, with its
/// regions.
pub fn get_functions<'a>(unit: &'a Unit) -> (entries: Vec<Entry<'a>>)
    ensures
        entries_view(entries@) == scanned_upto(unit.functions@, unit.functions@.len() as int),
{
    let mut entries: Vec<Entry<'a>> = Vec::new();
    let mut i: usize = 0;
    assert(entries_view(entries@) =~= scanned_upto(unit.functions@, 0));
    while i < unit.functions.len()
        invariant
            i <= unit.functions@.len(),
            entries_view(entries@) == scanned_upto(unit.functions@, i as int),
        decreases unit.functions@.len() - i,
    {
        let function = &unit.functions[i];
        let mut roots: Vec<&'a Expr> = Vec::new();
        assert(pointees(roots@) =~= Seq::empty());
        get_deny_panic_in_expr(&function.body, &mut roots);
        assert(pointees(roots@) =~= regions_of(function.body));
        if roots.len() > 0 {
            let mut call_stack: Vec<Frame> = Vec::new();
            call_stack.push(
                Frame { description: function.name.clone(), location: function.location.clone() },
            );
            assert(stack_view(call_stack@) =~= seq![own_frame(*function)]);
            let entry = Entry { function: function.id, roots, call_stack };
            let ghost added = entry@;
            let ghost before = entries_view(entries@);
            entries.push(entry);
            assert(entries_view(entries@) =~= before.push(added));
        }
        i += 1;
    }
    entries
}

/// All functions of `unit`, in order.
pub fn get_all_fn_in_crate<'a>(unit: &'a Unit) -> (functions: Vec<&'a Function>)
    ensures
        functions@.len() == unit.functions@.len(),
        forall|i: int| 0 <= i < functions@.len() ==> *functions@[i] == unit.functions@[i],
{
    let mut functions: Vec<&'a Function> = Vec::new();
    let mut i: usize = 0;
    while i < unit.functions.len()
        invariant
            i <= unit.functions@.len(),
            functions@.len() == i,
            forall|j: int| 0 <= j < i ==> *functions@[j] == unit.functions@[j],
        decreases unit.functions@.len() - i,
    {
        functions.push(&unit.functions[i]);
        i += 1;
    }
    functions
}

/// Where a resumed call starts in the unit that owns it.
pub enum Resumption {
    /// The body at this position is walked.
    Walk(int),
    /// The body is a suppression region: it leaves an event and is not
    /// walked.
    Suppressed,
    /// A method call whose receiver's type has no implementation with a
    /// body in the unit: it is passed over.
    PassedOver,
    /// A plain function whose body the unit does not hold.
    Missing,
}

/// The position of the body that the call of `function` on `receiver` goes
/// to in `unit`: the function's own body, or the body of the
/// implementation for the receiver's type.
pub open spec fn resumed_position(unit: Unit, function: FunctionId, receiver: Option<TypeId>) -> Option<
    int,
> {
    match unit.position(function) {
        Some(position) => Some(position),
        None => match receiver {
            Some(ty) => match unit.implementation(function, ty) {
                Some(implementation) => unit.position(implementation),
                None => None,
            },
            None => None,
        },
    }
}

/// Where the call `call` starts in `unit`.
pub open spec fn resumption(unit: Unit, call: PendingCallView) -> Resumption {
    match resumed_position(unit, call.function, call.receiver) {
        Some(position) => match unit.functions@[position].body {
            Expr::Block { label, .. } => if label.suppresses {
                Resumption::Suppressed
            } else {
                Resumption::Walk(position)
            },
            _ => Resumption::Walk(position),
        },
        None => if call.receiver is Some {
            Resumption::PassedOver
        } else {
            Resumption::Missing
        },
    }
}

/// The entries of the first `upto` calls of `calls` that are walked in
/// `unit`: each starts at the body it goes to, under the call stack that
/// led to the call.
pub open spec fn resumed_upto(unit: Unit, calls: Seq<PendingCallView>, upto: int) -> Seq<EntryView>
    decreases upto,
{
    if upto <= 0 {
        Seq::empty()
    } else {
        let call = calls[upto - 1];
        match resumption(unit, call) {
            Resumption::Walk(position) => resumed_upto(unit, calls, upto - 1).push(
                EntryView {
                    function: unit.functions@[position].id,
                    roots: seq![unit.functions@[position].body],
                    call_stack: call.call_stack,
                },
            ),
            _ => resumed_upto(unit, calls, upto - 1),
        }
    }
}

/// The call stacks of those of the first `upto` calls of `calls` whose body
/// in `unit` is a suppression region.
pub open spec fn suppressed_upto(unit: Unit, calls: Seq<PendingCallView>, upto: int) -> Seq<
    Seq<FrameView>,
>
    decreases upto,
{
    if upto <= 0 {
        Seq::empty()
    } else {
        let call = calls[upto - 1];
        match resumption(unit, call) {
            Resumption::Suppressed => suppressed_upto(unit, calls, upto - 1).push(call.call_stack),
            _ => suppressed_upto(unit, calls, upto - 1),
        }
    }
}

/// The first of the first `upto` calls of `calls` that is a plain function
/// whose body `unit` does not hold.
pub open spec fn missing_upto(unit: Unit, calls: Seq<PendingCallView>, upto: int) -> Option<
    FunctionId,
>
    decreases upto,
{
    if upto <= 0 {
        None
    } else {
        match missing_upto(unit, calls, upto - 1) {
            Some(function) => Some(function),
            None => if resumption(unit, calls[upto - 1]) is Missing {
                Some(calls[upto - 1].function)
            } else {
                None
            },
        }
    }
}

/// What resuming calls in the unit that owns them gives.
pub struct Resumed<'a> {
    /// One entry for each call that is walked.
    pub entries: Vec<Entry<'a>>,
    /// One call stack for each call whose body is a suppression region.
    pub allowed: Vec<Vec<Frame>>,
}

fn resumed_body(unit: &Unit, call: &PendingCall) -> (found: Option<usize>)
    ensures
        match found {
            Some(position) => resumed_position(*unit, call.function, call.receiver) == Some(
                position as int,
            ) && position < unit.functions@.len(),
            None => resumed_position(*unit, call.function, call.receiver) is None,
        },
{
    proof {
        position_is_first(unit.functions@, call.function, 0);
    }
    match unit.find_function(call.function) {
        Some(position) => Some(position),
        None => match call.receiver {
            Some(ty) => match unit.find_implementation(call.function, ty) {
                Some(implementation) => {
                    proof {
                        position_is_first(unit.functions@, implementation, 0);
                    }
                    unit.find_function(implementation)
                },
                None => None,
            },
            None => None,
        },
    }
}

/// Finds, for each of the calls `ids` that waited for `unit`, the body to
/// walk. Fails with the function's identity on the first plain function
/// whose body the unit does not hold.
pub fn get_function_for_dependency<'a>(unit: &'a Unit, ids: &Vec<PendingCall>) -> (resumed: Result<
    Resumed<'a>,
    FunctionId,
>)
    ensures
        match resumed {
            Ok(found) => {
                &&& missing_upto(*unit, calls_view(ids@), ids@.len() as int) is None
                &&& entries_view(found.entries@) == resumed_upto(
                    *unit,
                    calls_view(ids@),
                    ids@.len() as int,
                )
                &&& stacks_view(found.allowed@) == suppressed_upto(
                    *unit,
                    calls_view(ids@),
                    ids@.len() as int,
                )
            },
            Err(function) => missing_upto(*unit, calls_view(ids@), ids@.len() as int) == Some(
                function,
            ),
        },
{
    let mut entries: Vec<Entry<'a>> = Vec::new();
    let mut allowed: Vec<Vec<Frame>> = Vec::new();
    let mut i: usize = 0;
    assert(entries_view(entries@) =~= resumed_upto(*unit, calls_view(ids@), 0));
    assert(stacks_view(allowed@) =~= suppressed_upto(*unit, calls_view(ids@), 0));
    while i < ids.len()
        invariant
            i <= ids@.len(),
            missing_upto(*unit, calls_view(ids@), i as int) is None,
            entries_view(entries@) == resumed_upto(*unit, calls_view(ids@), i as int),
            stacks_view(allowed@) == suppressed_upto(*unit, calls_view(ids@), i as int),
        decreases ids@.len() - i,
    {
        let call = &ids[i];
        assert(calls_view(ids@)[i as int] == call@);
        match resumed_body(unit, call) {
            Some(position) => {
                let function = &unit.functions[position];
                let suppressed = match &function.body {
                    Expr::Block { label, .. } => label.suppresses,
                    _ => false,
                };
                if suppressed {
                    let stack = clone_stack(&call.call_stack);
                    let ghost copied = stack_view(stack@);
                    let ghost before = stacks_view(allowed@);
                    allowed.push(stack);
                    assert(stacks_view(allowed@) =~= before.push(copied));
                } else {
                    let mut roots: Vec<&'a Expr> = Vec::new();
                    roots.push(&function.body);
                    assert(pointees(roots@) =~= seq![function.body]);
                    let entry = Entry {
                        function: function.id,
                        roots,
                        call_stack: clone_stack(&call.call_stack),
                    };
                    let ghost added = entry@;
                    let ghost before = entries_view(entries@);
                    entries.push(entry);
                    assert(entries_view(entries@) =~= before.push(added));
                }
            },
            None => {
                if call.receiver.is_none() {
                    assert(missing_upto(*unit, calls_view(ids@), i + 1) == Some(call.function));
                    proof {
                        missing_stays(*unit, calls_view(ids@), i + 1, ids@.len() as int);
                    }
                    return Err(call.function);
                }
            },
        }
        i += 1;
    }
    Ok(Resumed { entries, allowed })
}

/// Once a body is missing among the first calls, it is the one reported for
/// any longer run of them.
pub proof fn missing_stays(unit: Unit, calls: Seq<PendingCallView>, upto: int, later: int)
    requires
        upto <= later,
        missing_upto(unit, calls, upto) is Some,
    ensures
        missing_upto(unit, calls, later) == missing_upto(unit, calls, upto),
    decreases later - upto,
{
    if upto < later {
        missing_stays(unit, calls, upto, later - 1);
    }
}

/// The calls of `expr`, in the order of the walk: the calls that stand in
/// the expression itself, in closures and in blocks, but not in a
/// suppression region and not in the bodies of the functions called.
pub open spec fn calls_in(expr: Expr) -> Seq<Expr>
    decreases expr, 0nat,
{
    match expr {
        Expr::Node(children) => calls_in_all(children, 0),
        Expr::Binding { .. } => Seq::empty(),
        Expr::Call { target, site, parameter, receiver, args } => {
            let received = match receiver {
                Some(inner) => calls_in(*inner),
                None => Seq::empty(),
            };
            seq![expr] + received + calls_in_all(args, 0)
        },
        Expr::Block { label, body } => if label.suppresses {
            Seq::empty()
        } else {
            calls_in_all(body, 0)
        },
        Expr::Closure(body) => calls_in(*body),
    }
}

/// The calls of the expressions of `items` from position `from` on.
pub open spec fn calls_in_all(items: Vec<Expr>, from: nat) -> Seq<Expr>
    decreases items, items.len() - from,
{
    if from >= items.len() {
        Seq::empty()
    } else {
        calls_in(items[from as int]) + calls_in_all(items, from + 1)
    }
}

/// The calls of a place where a walk starts: those of a block's contents,
/// whatever its label, or of the expression.
pub open spec fn calls_in_root(root: Expr) -> Seq<Expr> {
    match root {
        Expr::Block { label, body } => calls_in_all(body, 0),
        _ => calls_in(root),
    }
}

fn collect_calls<'a>(expr: &'a Expr, calls: &mut Vec<&'a Expr>)
    ensures
        pointees(final(calls)@) == pointees(old(calls)@) + calls_in(*expr),
    decreases expr, 0nat,
{
    match expr {
        Expr::Node(children) => {
            collect_calls_of_all(children, calls);
        },
        Expr::Binding { .. } => {
            assert(pointees(calls@) =~= pointees(old(calls)@) + calls_in(*expr));
        },
        Expr::Call { target, site, parameter, receiver, args } => {
            calls.push(expr);
            assert(pointees(calls@) =~= pointees(old(calls)@) + seq![*expr]);
            let ghost first = pointees(calls@);
            match receiver {
                Some(inner) => {
                    collect_calls(inner, calls);
                },
                None => {
                    assert(pointees(calls@) =~= first + Seq::<Expr>::empty());
                },
            }
            collect_calls_of_all(args, calls);
            assert(pointees(calls@) =~= pointees(old(calls)@) + calls_in(*expr));
        },
        Expr::Block { label, body } => {
            if label.suppresses {
                assert(pointees(calls@) =~= pointees(old(calls)@) + calls_in(*expr));
            } else {
                collect_calls_of_all(body, calls);
            }
        },
        Expr::Closure(body) => {
            collect_calls(body, calls);
        },
    }
}

fn collect_calls_of_all<'a>(items: &'a Vec<Expr>, calls: &mut Vec<&'a Expr>)
    ensures
        pointees(final(calls)@) == pointees(old(calls)@) + calls_in_all(*items, 0),
    decreases items, 0nat,
{
    let mut i: usize = 0;
    while i < items.len()
        invariant
            i <= items@.len(),
            pointees(calls@) + calls_in_all(*items, i as nat) == pointees(old(calls)@)
                + calls_in_all(*items, 0),
        decreases items@.len() - i,
    {
        let ghost before = pointees(calls@);
        collect_calls(&items[i], calls);
        assert(pointees(calls@) + calls_in_all(*items, (i + 1) as nat) =~= before + calls_in_all(
            *items,
            i as nat,
        ));
        i += 1;
    }
    assert(pointees(calls@) =~= pointees(calls@) + calls_in_all(*items, i as nat));
}

/// The calls of `root`, a place where a walk starts.
pub fn get_call_in_block<'a>(root: &'a Expr) -> (calls: Vec<&'a Expr>)
    ensures
        pointees(calls@) == calls_in_root(*root),
{
    let mut calls: Vec<&'a Expr> = Vec::new();
    assert(pointees(calls@) =~= Seq::empty());
    match root {
        Expr::Block { label, body } => {
            collect_calls_of_all(body, &mut calls);
        },
        _ => {
            collect_calls(root, &mut calls);
        },
    }
    assert(pointees(calls@) =~= calls_in_root(*root));
    calls
}


/// A parameter of a function that the function calls inside a restricted
/// region, with the abstract method that the call goes through, where one
/// is known.
#[derive(Clone, Copy, Debug)]
pub struct ProceduralParameter {
    pub function: FunctionId,
    pub parameter: usize,
    pub method: Option<FunctionId>,
}

/// The abstract method that a call with `target` goes through.
pub open spec fn method_of(target: Target) -> Option<FunctionId> {
    match target {
        Target::Binding { through } => through,
        Target::Function(function) => Some(function.id),
        Target::Method { function, .. } => Some(function.id),
        Target::TraitMethod { method, .. } => Some(method.id),
        Target::Constructor => None,
        Target::Unresolved => None,
    }
}

/// The position of the first note at or after `from` of the parameter
/// `parameter` of `function`.
pub open spec fn note_from(
    notes: Seq<ProceduralParameter>,
    function: FunctionId,
    parameter: usize,
    from: int,
) -> Option<int>
    decreases notes.len() - from,
{
    if from < 0 || from >= notes.len() {
        None
    } else if notes[from].function == function && notes[from].parameter == parameter {
        Some(from)
    } else {
        note_from(notes, function, parameter, from + 1)
    }
}

/// The notes after `note` is taken: it replaces the note of the same
/// parameter of the same function, or joins behind the others.
pub open spec fn noted(notes: Seq<ProceduralParameter>, note: ProceduralParameter) -> Seq<
    ProceduralParameter,
> {
    match note_from(notes, note.function, note.parameter, 0) {
        Some(at) => notes.update(at, note),
        None => notes.push(note),
    }
}

/// The notes after the first `upto` calls of `calls`, which stand in
/// `function`, are looked at: each call made through a parameter of the
/// function is noted.
pub open spec fn noted_calls(
    notes: Seq<ProceduralParameter>,
    function: FunctionId,
    calls: Seq<Expr>,
    upto: int,
) -> Seq<ProceduralParameter>
    decreases upto,
{
    if upto <= 0 {
        notes
    } else {
        let before = noted_calls(notes, function, calls, upto - 1);
        match calls[upto - 1] {
            Expr::Call { target, parameter: Some(parameter), .. } => noted(
                before,
                ProceduralParameter { function, parameter, method: method_of(target) },
            ),
            _ => before,
        }
    }
}

/// The notes after the first `upto` of the `roots` of `function` are looked
/// at.
pub open spec fn noted_roots(
    notes: Seq<ProceduralParameter>,
    function: FunctionId,
    roots: Seq<Expr>,
    upto: int,
) -> Seq<ProceduralParameter>
    decreases upto,
{
    if upto <= 0 {
        notes
    } else {
        let calls = calls_in_root(roots[upto - 1]);
        noted_calls(
            noted_roots(notes, function, roots, upto - 1),
            function,
            calls,
            calls.len() as int,
        )
    }
}

/// The notes after the first `upto` of `entries` are looked at.
pub open spec fn noted_entries(
    notes: Seq<ProceduralParameter>,
    entries: Seq<EntryView>,
    upto: int,
) -> Seq<ProceduralParameter>
    decreases upto,
{
    if upto <= 0 {
        notes
    } else {
        let entry = entries[upto - 1];
        noted_roots(
            noted_entries(notes, entries, upto - 1),
            entry.function,
            entry.roots,
            entry.roots.len() as int,
        )
    }
}

fn same_function(left: Option<FunctionId>, right: Option<FunctionId>) -> (same: bool)
    ensures
        same == (left == right),
{
    match (left, right) {
        (Some(a), Some(b)) => a == b,
        (None, None) => true,
        _ => false,
    }
}

fn through(target: &Target) -> (method: Option<FunctionId>)
    ensures
        method == method_of(*target),
{
    match target {
        Target::Binding { through } => *through,
        Target::Function(function) => Some(function.id),
        Target::Method { function, .. } => Some(function.id),
        Target::TraitMethod { method, .. } => Some(method.id),
        Target::Constructor => None,
        Target::Unresolved => None,
    }
}

fn note(notes: &mut Vec<ProceduralParameter>, taken: ProceduralParameter)
    ensures
        final(notes)@ == noted(old(notes)@, taken),
{
    let mut i: usize = 0;
    while i < notes.len()
        invariant
            i <= notes@.len(),
            notes@ == old(notes)@,
            note_from(notes@, taken.function, taken.parameter, 0) == note_from(
                notes@,
                taken.function,
                taken.parameter,
                i as int,
            ),
        decreases notes@.len() - i,
    {
        if notes[i].function == taken.function && notes[i].parameter == taken.parameter {
            notes.set(i, taken);
            return ;
        }
        i += 1;
    }
    notes.push(taken);
}

/// Notes, for each entry, the parameters of its function that the places
/// where walks start call.
pub fn get_procedural_parameters(
    deny_panic_fn_bodies: &Vec<Entry<'_>>,
    notes: &mut Vec<ProceduralParameter>,
)
    ensures
        final(notes)@ == noted_entries(
            old(notes)@,
            entries_view(deny_panic_fn_bodies@),
            deny_panic_fn_bodies@.len() as int,
        ),
{
    let ghost entries = entries_view(deny_panic_fn_bodies@);
    let mut e: usize = 0;
    while e < deny_panic_fn_bodies.len()
        invariant
            e <= deny_panic_fn_bodies@.len(),
            entries == entries_view(deny_panic_fn_bodies@),
            notes@ == noted_entries(old(notes)@, entries, e as int),
        decreases deny_panic_fn_bodies@.len() - e,
    {
        let entry = &deny_panic_fn_bodies[e];
        assert(entries[e as int] == entry@);
        let ghost at_entry = notes@;
        let mut r: usize = 0;
        while r < entry.roots.len()
            invariant
                r <= entry.roots@.len(),
                notes@ == noted_roots(at_entry, entry.function, pointees(entry.roots@), r as int),
            decreases entry.roots@.len() - r,
        {
            let calls = get_call_in_block(entry.roots[r]);
            let ghost at_root = notes@;
            let mut c: usize = 0;
            while c < calls.len()
                invariant
                    c <= calls@.len(),
                    notes@ == noted_calls(at_root, entry.function, pointees(calls@), c as int),
                decreases calls@.len() - c,
            {
                match calls[c] {
                    Expr::Call { target, parameter: Some(parameter), .. } => {
                        note(
                            notes,
                            ProceduralParameter {
                                function: entry.function,
                                parameter: *parameter,
                                method: through(target),
                            },
                        );
                    },
                    _ => {},
                }
                c += 1;
            }
            r += 1;
        }
        e += 1;
    }
}

/// The function that a call with `target` names, where it names one.
pub open spec fn callee_id(target: Target) -> Option<FunctionId> {
    match target {
        Target::Function(function) => Some(function.id),
        Target::Method { function, .. } => Some(function.id),
        Target::TraitMethod { method, .. } => Some(method.id),
        Target::Binding { .. } => None,
        Target::Constructor => None,
        Target::Unresolved => None,
    }
}

/// Whether a parameter of `function` is noted in `notes`.
pub open spec fn is_noted(notes: Seq<ProceduralParameter>, function: FunctionId) -> bool {
    exists|k: int| 0 <= k < notes.len() && notes[k].function == function
}

/// Whether `call` is a call of a function of which a parameter is noted.
pub open spec fn calls_noted(notes: Seq<ProceduralParameter>, call: Expr) -> bool {
    match call {
        Expr::Call { target, .. } => match callee_id(target) {
            Some(function) => is_noted(notes, function),
            None => false,
        },
        _ => false,
    }
}

/// A call, with the function that it stands in.
pub struct Caller<'a> {
    pub call: &'a Expr,
    pub function: &'a Function,
}

/// A [`Caller`] as plain values.
pub struct CallerView {
    pub call: Expr,
    pub function: Function,
}

impl<'a> View for Caller<'a> {
    type V = CallerView;

    open spec fn view(&self) -> CallerView {
        CallerView { call: *self.call, function: *self.function }
    }
}

/// The callers of a list, as plain values.
pub open spec fn callers_view(callers: Seq<Caller<'_>>) -> Seq<CallerView> {
    callers.map_values(|caller: Caller<'_>| caller@)
}

/// Those of the first `upto` calls of `calls`, which stand in `function`,
/// that call a function of which a parameter is noted.
pub open spec fn noted_callers(
    notes: Seq<ProceduralParameter>,
    function: Function,
    calls: Seq<Expr>,
    upto: int,
) -> Seq<CallerView>
    decreases upto,
{
    if upto <= 0 {
        Seq::empty()
    } else if calls_noted(notes, calls[upto - 1]) {
        noted_callers(notes, function, calls, upto - 1).push(
            CallerView { call: calls[upto - 1], function },
        )
    } else {
        noted_callers(notes, function, calls, upto - 1)
    }
}

/// The calls in the first `upto` of `functions` that call a function of
/// which a parameter is noted.
pub open spec fn callers_upto(
    notes: Seq<ProceduralParameter>,
    functions: Seq<Function>,
    upto: int,
) -> Seq<CallerView>
    decreases upto,
{
    if upto <= 0 {
        Seq::empty()
    } else {
        let function = functions[upto - 1];
        let calls = calls_in(function.body);
        callers_upto(notes, functions, upto - 1) + noted_callers(
            notes,
            function,
            calls,
            calls.len() as int,
        )
    }
}

fn has_note(notes: &Vec<ProceduralParameter>, function: FunctionId) -> (found: bool)
    ensures
        found == is_noted(notes@, function),
{
    let mut i: usize = 0;
    while i < notes.len()
        invariant
            i <= notes@.len(),
            forall|k: int| 0 <= k < i ==> notes@[k].function != function,
        decreases notes@.len() - i,
    {
        if notes[i].function == function {
            return true;
        }
        i += 1;
    }
    false
}

fn named(target: &Target) -> (function: Option<FunctionId>)
    ensures
        function == callee_id(*target),
{
    match target {
        Target::Function(function) => Some(function.id),
        Target::Method { function, .. } => Some(function.id),
        Target::TraitMethod { method, .. } => Some(method.id),
        Target::Binding { .. } => None,
        Target::Constructor => None,
        Target::Unresolved => None,
    }
}

/// The calls in the functions `callers` that call a function of which
/// `called` notes a parameter.
pub fn get_callers<'a>(callers: &Vec<&'a Function>, called: &Vec<ProceduralParameter>) -> (found:
    Vec<Caller<'a>>)
    ensures
        callers_view(found@) == callers_upto(
            called@,
            callers@.map_values(|function: &Function| *function),
            callers@.len() as int,
        ),
{
    let ghost functions = callers@.map_values(|function: &Function| *function);
    let mut found: Vec<Caller<'a>> = Vec::new();
    assert(callers_view(found@) =~= callers_upto(called@, functions, 0));
    let mut f: usize = 0;
    while f < callers.len()
        invariant
            f <= callers@.len(),
            functions == callers@.map_values(|function: &Function| *function),
            callers_view(found@) == callers_upto(called@, functions, f as int),
        decreases callers@.len() - f,
    {
        let function = callers[f];
        assert(functions[f as int] == *function);
        let mut calls: Vec<&'a Expr> = Vec::new();
        assert(pointees(calls@) =~= Seq::empty());
        collect_calls(&function.body, &mut calls);
        assert(pointees(calls@) =~= calls_in(function.body));
        let ghost at_function = callers_view(found@);
        let mut c: usize = 0;
        assert(callers_view(found@) =~= at_function + noted_callers(
            called@,
            *function,
            pointees(calls@),
            0,
        ));
        while c < calls.len()
            invariant
                c <= calls@.len(),
                callers_view(found@) == at_function + noted_callers(
                    called@,
                    *function,
                    pointees(calls@),
                    c as int,
                ),
            decreases calls@.len() - c,
        {
            let call = calls[c];
            assert(pointees(calls@)[c as int] == *call);
            let calls_one = match call {
                Expr::Call { target, .. } => match named(target) {
                    Some(callee) => has_note(called, callee),
                    None => false,
                },
                _ => false,
            };
            if calls_one {
                let caller = Caller { call, function };
                let ghost added = caller@;
                let ghost before = callers_view(found@);
                found.push(caller);
                assert(callers_view(found@) =~= before.push(added));
            }
            c += 1;
            assert(callers_view(found@) =~= at_function + noted_callers(
                called@,
                *function,
                pointees(calls@),
                c as int,
            ));
        }
        f += 1;
    }
    found
}

/// The expression handed to the parameter at position `index` by `call`.
/// The receiver of a method call is handed to the first parameter, and the
/// other arguments follow it.
pub open spec fn argument_at(call: Expr, index: int) -> Option<Expr> {
    match call {
        Expr::Call { receiver, args, .. } => match receiver {
            Some(inner) => if index == 0 {
                Some(*inner)
            } else if 0 < index <= args@.len() {
                Some(args@[index - 1])
            } else {
                None
            },
            None => if 0 <= index < args@.len() {
                Some(args@[index])
            } else {
                None
            },
        },
        _ => None,
    }
}

/// An argument handed to a parameter that a restricted region calls.
pub struct Argument<'a> {
    pub argument: &'a Expr,
    pub to_log: Frame,
    pub method: Option<FunctionId>,
}

/// An [`Argument`] as plain values.
pub struct ArgumentView {
    pub argument: Expr,
    pub to_log: FrameView,
    pub method: Option<FunctionId>,
}

impl<'a> View for Argument<'a> {
    type V = ArgumentView;

    open spec fn view(&self) -> ArgumentView {
        ArgumentView { argument: *self.argument, to_log: self.to_log@, method: self.method }
    }
}

/// The arguments of a list, as plain values.
pub open spec fn arguments_view(arguments: Seq<Argument<'_>>) -> Seq<ArgumentView> {
    arguments.map_values(|argument: Argument<'_>| argument@)
}

/// The frame of a call site: the function that the call stands in, and
/// where the call is.
pub open spec fn site_frame(caller: CallerView) -> FrameView {
    match caller.call {
        Expr::Call { site, .. } => FrameView {
            description: caller.function.name@,
            location: site@,
        },
        _ => FrameView { description: caller.function.name@, location: Seq::empty() },
    }
}

/// The arguments that `caller` hands to the parameters noted by the first
/// `upto` notes.
pub open spec fn arguments_of(
    notes: Seq<ProceduralParameter>,
    caller: CallerView,
    upto: int,
) -> Seq<ArgumentView>
    decreases upto,
{
    if upto <= 0 {
        Seq::empty()
    } else {
        let note = notes[upto - 1];
        let before = arguments_of(notes, caller, upto - 1);
        match caller.call {
            Expr::Call { target, .. } => if callee_id(target) == Some(note.function) {
                match argument_at(caller.call, note.parameter as int) {
                    Some(argument) => before.push(
                        ArgumentView {
                            argument,
                            to_log: site_frame(caller),
                            method: note.method,
                        },
                    ),
                    None => before,
                }
            } else {
                before
            },
            _ => before,
        }
    }
}

/// The arguments that the first `upto` of `callers` hand to noted
/// parameters.
pub open spec fn arguments_upto(
    notes: Seq<ProceduralParameter>,
    callers: Seq<CallerView>,
    upto: int,
) -> Seq<ArgumentView>
    decreases upto,
{
    if upto <= 0 {
        Seq::empty()
    } else {
        arguments_upto(notes, callers, upto - 1) + arguments_of(
            notes,
            callers[upto - 1],
            notes.len() as int,
        )
    }
}

fn argument<'a>(call: &'a Expr, index: usize) -> (found: Option<&'a Expr>)
    ensures
        match found {
            Some(argument) => argument_at(*call, index as int) == Some(*argument),
            None => argument_at(*call, index as int) is None,
        },
{
    match call {
        Expr::Call { receiver, args, .. } => match receiver {
            Some(inner) => {
                if index == 0 {
                    Some(inner)
                } else if index <= args.len() {
                    Some(&args[index - 1])
                } else {
                    None
                }
            },
            None => {
                if index < args.len() {
                    Some(&args[index])
                } else {
                    None
                }
            },
        },
        _ => None,
    }
}

/// The arguments that `callers` hand to the parameters that `called` notes.
pub fn callers_into_args<'a>(callers: &Vec<Caller<'a>>, called: &Vec<ProceduralParameter>) -> (found:
    Vec<Argument<'a>>)
    ensures
        arguments_view(found@) == arguments_upto(
            called@,
            callers_view(callers@),
            callers@.len() as int,
        ),
{
    let mut found: Vec<Argument<'a>> = Vec::new();
    assert(arguments_view(found@) =~= arguments_upto(called@, callers_view(callers@), 0));
    let mut c: usize = 0;
    while c < callers.len()
        invariant
            c <= callers@.len(),
            arguments_view(found@) == arguments_upto(called@, callers_view(callers@), c as int),
        decreases callers@.len() - c,
    {
        let caller = &callers[c];
        assert(callers_view(callers@)[c as int] == caller@);
        let ghost at_caller = arguments_view(found@);
        assert(arguments_view(found@) =~= at_caller + arguments_of(called@, caller@, 0));
        let mut n: usize = 0;
        while n < called.len()
            invariant
                n <= called@.len(),
                arguments_view(found@) == at_caller + arguments_of(called@, caller@, n as int),
            decreases called@.len() - n,
        {
            let note = called[n];
            match caller.call {
                Expr::Call { target, site, .. } => {
                    if same_function(named(target), Some(note.function)) {
                        match argument(caller.call, note.parameter) {
                            Some(handed) => {
                                let taken = Argument {
                                    argument: handed,
                                    to_log: Frame {
                                        description: caller.function.name.clone(),
                                        location: site.clone(),
                                    },
                                    method: note.method,
                                };
                                let ghost added = taken@;
                                let ghost before = arguments_view(found@);
                                found.push(taken);
                                assert(arguments_view(found@) =~= before.push(added));
                            },
                            None => {},
                        }
                    }
                },
                _ => {},
            }
            n += 1;
            assert(arguments_view(found@) =~= at_caller + arguments_of(
                called@,
                caller@,
                n as int,
            ));
        }
        c += 1;
    }
    found
}

/// The expression to walk for an argument handed to a noted parameter: a
/// closure is walked itself; a variable whose type implements `method` in
/// the unit, with the body there, stands for that body; nothing else can
/// be followed.
pub open spec fn solved(unit: Unit, arg: Expr, method: Option<FunctionId>) -> Option<Expr> {
    match arg {
        Expr::Closure(_) => Some(arg),
        Expr::Binding { type_id: Some(ty) } => match method {
            Some(method) => match unit.implementation(method, ty) {
                Some(function) => match unit.position(function) {
                    Some(position) => Some(unit.functions@[position].body),
                    None => None,
                },
                None => None,
            },
            None => None,
        },
        _ => None,
    }
}

/// Resolves an argument handed to a noted parameter to the expression to
/// walk, where it can be followed.
pub fn solve_arg<'a>(unit: &'a Unit, arg: &'a Expr, method: Option<FunctionId>) -> (found: Option<
    &'a Expr,
>)
    ensures
        match found {
            Some(root) => solved(*unit, *arg, method) == Some(*root),
            None => solved(*unit, *arg, method) is None,
        },
{
    match arg {
        Expr::Closure(_) => Some(arg),
        Expr::Binding { type_id: Some(ty) } => match method {
            Some(method) => match unit.find_implementation(method, *ty) {
                Some(function) => {
                    proof {
                        position_is_first(unit.functions@, function, 0);
                    }
                    match unit.find_function(function) {
                        Some(position) => Some(&unit.functions[position].body),
                        None => None,
                    }
                },
                None => None,
            },
            None => None,
        },
        _ => None,
    }
}

} // verus!
