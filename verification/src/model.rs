//! The program model: what the analysis reads of a compilation unit.

use vstd::prelude::*;

verus! {

/// Identity of a function or associated function. Two ids are the same
/// function exactly when they are equal.
#[derive(Clone, Copy, PartialEq, Eq, Structural, Debug, Hash)]
pub struct FunctionId {
    pub unit: u64,
    pub index: u64,
}

/// Identity of a concrete type that receives a method call.
#[derive(Clone, Copy, PartialEq, Eq, Structural, Debug, Hash)]
pub struct TypeId {
    pub unit: u64,
    pub index: u64,
}

/// One entry of a call stack: what was called, and where.
#[derive(Debug, PartialEq, Eq)]
pub struct Frame {
    pub description: String,
    pub location: String,
}

/// A [`Frame`] as plain text.
pub struct FrameView {
    pub description: Seq<char>,
    pub location: Seq<char>,
}

impl View for Frame {
    type V = FrameView;

    open spec fn view(&self) -> FrameView {
        FrameView { description: self.description@, location: self.location@ }
    }
}

impl Clone for Frame {
    fn clone(&self) -> (copy: Frame)
        ensures
            copy@ == self@,
    {
        Frame { description: self.description.clone(), location: self.location.clone() }
    }
}

/// The frames of a call stack, outermost first, as plain text.
pub open spec fn stack_view(stack: Seq<Frame>) -> Seq<FrameView> {
    stack.map_values(|f: Frame| f@)
}

/// Copies a call stack frame by frame.
pub fn clone_stack(stack: &Vec<Frame>) -> (copy: Vec<Frame>)
    ensures
        stack_view(copy@) == stack_view(stack@),
{
    let mut copy: Vec<Frame> = Vec::new();
    let mut i: usize = 0;
    while i < stack.len()
        invariant
            i <= stack@.len(),
            copy@.len() == i,
            forall|j: int| 0 <= j < i ==> copy@[j]@ == stack@[j]@,
        decreases stack@.len() - i,
    {
        copy.push(stack[i].clone());
        i += 1;
    }
    assert(stack_view(copy@) =~= stack_view(stack@));
    copy
}

/// What the label of a block asks of the analysis.
#[derive(Clone, Copy, PartialEq, Eq, Structural, Debug)]
pub struct Label {
    /// The block is a restricted region: nothing it reaches may panic.
    pub restricts: bool,
    /// The block is a suppression region: what it reaches is not checked.
    pub suppresses: bool,
}

/// A mention of a function at a call: its identity, its symbol name and the
/// name of the unit that owns it.
#[derive(Debug, PartialEq, Eq)]
pub struct FunctionRef {
    pub id: FunctionId,
    pub name: String,
    pub owner: String,
}

impl Clone for FunctionRef {
    fn clone(&self) -> (copy: FunctionRef)
        ensures
            copy.id == self.id,
            copy.name@ == self.name@,
            copy.owner@ == self.owner@,
    {
        FunctionRef { id: self.id, name: self.name.clone(), owner: self.owner.clone() }
    }
}

/// What the callee of a call was resolved to.
#[derive(Debug, PartialEq, Eq)]
pub enum Target {
    /// A parameter or local variable of the enclosing function. `through` is
    /// the abstract method that the call goes through, where one is known.
    Binding { through: Option<FunctionId> },
    /// A constructor of a struct or enum variant.
    Constructor,
    /// A plain function.
    Function(FunctionRef),
    /// A method or associated function, resolved to its definition.
    Method { function: FunctionRef, receiver: Option<TypeId> },
    /// A method of a trait, to be resolved by the receiver's type.
    TraitMethod { method: FunctionRef, receiver: Option<TypeId> },
    /// Nothing the analysis can follow.
    Unresolved,
}

/// An expression tree, reduced to what decides the walk.
#[derive(Debug, PartialEq, Eq)]
pub enum Expr {
    /// Any node without a decision of its own (arithmetic, field access,
    /// control flow, ...): only its sub-expressions matter.
    Node(Vec<Expr>),
    /// A use of a parameter or local variable, with its concrete type where
    /// that is statically known.
    Binding { type_id: Option<TypeId> },
    /// A call. `parameter` is the position of the enclosing function's
    /// declared parameter that the call is made through, if it is made
    /// through one. `receiver` is the receiver of a method call.
    Call {
        target: Target,
        site: String,
        parameter: Option<usize>,
        receiver: Option<Box<Expr>>,
        args: Vec<Expr>,
    },
    /// A block, labelled or not, with its statements and tail in order.
    Block { label: Label, body: Vec<Expr> },
    /// A closure literal.
    Closure(Box<Expr>),
}

/// A function or associated function whose body the unit holds.
#[derive(Debug, PartialEq, Eq)]
pub struct Function {
    pub id: FunctionId,
    pub name: String,
    pub location: String,
    pub body: Expr,
}

/// An implementation, in this unit, of a trait method for a concrete type.
#[derive(Clone, Copy, PartialEq, Eq, Structural, Debug)]
pub struct Implementation {
    pub method: FunctionId,
    pub receiver: TypeId,
    pub function: FunctionId,
}

/// One loaded compilation unit.
#[derive(Debug, PartialEq, Eq)]
pub struct Unit {
    pub name: String,
    pub functions: Vec<Function>,
    pub implementations: Vec<Implementation>,
}

/// The first position at or after `from` of a function with identity `id`.
pub open spec fn position_from(functions: Seq<Function>, id: FunctionId, from: int) -> Option<int>
    decreases functions.len() - from,
{
    if from < 0 || from >= functions.len() {
        None
    } else if functions[from].id == id {
        Some(from)
    } else {
        position_from(functions, id, from + 1)
    }
}

/// The function of the first implementation at or after `from` of `method`
/// for `receiver`.
pub open spec fn implementation_from(
    implementations: Seq<Implementation>,
    method: FunctionId,
    receiver: TypeId,
    from: int,
) -> Option<FunctionId>
    decreases implementations.len() - from,
{
    if from < 0 || from >= implementations.len() {
        None
    } else if implementations[from].method == method && implementations[from].receiver
        == receiver {
        Some(implementations[from].function)
    } else {
        implementation_from(implementations, method, receiver, from + 1)
    }
}

impl Unit {
    /// Where the body of `id` stands in this unit, if the unit holds it.
    pub open spec fn position(&self, id: FunctionId) -> Option<int> {
        position_from(self.functions@, id, 0)
    }

    /// The function that implements `method` for `receiver` in this unit.
    pub open spec fn implementation(&self, method: FunctionId, receiver: TypeId) -> Option<
        FunctionId,
    > {
        implementation_from(self.implementations@, method, receiver, 0)
    }

    /// Whether the body of `id` is available in this unit.
    pub open spec fn is_local(&self, id: FunctionId) -> bool {
        self.position(id) is Some
    }

    /// Looks up the body of `id`.
    pub fn find_function(&self, id: FunctionId) -> (found: Option<usize>)
        ensures
            match found {
                Some(p) => self.position(id) == Some(p as int),
                None => self.position(id) is None,
            },
    {
        let mut i: usize = 0;
        while i < self.functions.len()
            invariant
                i <= self.functions@.len(),
                position_from(self.functions@, id, 0) == position_from(
                    self.functions@,
                    id,
                    i as int,
                ),
            decreases self.functions@.len() - i,
        {
            if self.functions[i].id == id {
                return Some(i);
            }
            i += 1;
        }
        None
    }

    /// Looks up the implementation of `method` for `receiver`.
    pub fn find_implementation(&self, method: FunctionId, receiver: TypeId) -> (found: Option<
        FunctionId,
    >)
        ensures
            found == self.implementation(method, receiver),
    {
        let mut i: usize = 0;
        while i < self.implementations.len()
            invariant
                i <= self.implementations@.len(),
                implementation_from(self.implementations@, method, receiver, 0)
                    == implementation_from(self.implementations@, method, receiver, i as int),
            decreases self.implementations@.len() - i,
        {
            let entry = self.implementations[i];
            if entry.method == method && entry.receiver == receiver {
                return Some(entry.function);
            }
            i += 1;
        }
        None
    }
}

/// A position that `position_from` returns holds a function with that
/// identity, and none before it does.
pub proof fn position_is_first(functions: Seq<Function>, id: FunctionId, from: int)
    requires
        0 <= from,
    ensures
        match position_from(functions, id, from) {
            Some(p) => from <= p < functions.len() && functions[p].id == id && forall|j: int|
                from <= j < p ==> functions[j].id != id,
            None => forall|j: int| from <= j < functions.len() ==> functions[j].id != id,
        },
    decreases functions.len() - from,
{
    if from < functions.len() && functions[from].id != id {
        position_is_first(functions, id, from + 1);
    }
}

} // verus!
