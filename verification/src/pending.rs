//! Calls that wait for the unit that owns them.

use crate::model::{clone_stack, stack_view, Frame, FrameView, FunctionId, TypeId};
use crate::text::same_text;
use vstd::prelude::*;

verus! {

/// A call to resume once its unit is loaded.
#[derive(Debug, PartialEq, Eq)]
pub struct PendingCall {
    pub function: FunctionId,
    pub call_stack: Vec<Frame>,
    pub receiver: Option<TypeId>,
}

/// A [`PendingCall`] as plain values.
pub struct PendingCallView {
    pub function: FunctionId,
    pub call_stack: Seq<FrameView>,
    pub receiver: Option<TypeId>,
}

impl View for PendingCall {
    type V = PendingCallView;

    open spec fn view(&self) -> PendingCallView {
        PendingCallView {
            function: self.function,
            call_stack: stack_view(self.call_stack@),
            receiver: self.receiver,
        }
    }
}

/// The calls of a list, as plain values.
pub open spec fn calls_view(calls: Seq<PendingCall>) -> Seq<PendingCallView> {
    calls.map_values(|call: PendingCall| call@)
}

/// The calls that wait for one unit.
struct Bucket {
    unit: String,
    calls: Vec<PendingCall>,
}

/// The pending calls, one bucket for each unit that has any, in the order
/// in which the units were first named.
pub struct ForeignCallsToCheck {
    inner: Vec<Bucket>,
}

/// The position of the first bucket at or after `from` for the unit `name`.
pub open spec fn bucket_from(
    buckets: Seq<(Seq<char>, Seq<PendingCallView>)>,
    name: Seq<char>,
    from: int,
) -> Option<int>
    decreases buckets.len() - from,
{
    if from < 0 || from >= buckets.len() {
        None
    } else if buckets[from].0 == name {
        Some(from)
    } else {
        bucket_from(buckets, name, from + 1)
    }
}

/// The buckets after `call` is kept for the unit `name`: it joins the
/// unit's bucket, or starts one behind the others.
pub open spec fn saved(
    buckets: Seq<(Seq<char>, Seq<PendingCallView>)>,
    name: Seq<char>,
    call: PendingCallView,
) -> Seq<(Seq<char>, Seq<PendingCallView>)> {
    match bucket_from(buckets, name, 0) {
        Some(at) => buckets.update(at, (name, buckets[at].1.push(call))),
        None => buckets.push((name, seq![call])),
    }
}

/// The names of the units that calls wait for, in bucket order.
pub open spec fn bucket_names(buckets: Seq<(Seq<char>, Seq<PendingCallView>)>) -> Seq<Seq<char>> {
    buckets.map_values(|bucket: (Seq<char>, Seq<PendingCallView>)| bucket.0)
}

/// No two buckets are for the same unit.
pub open spec fn distinct_buckets(buckets: Seq<(Seq<char>, Seq<PendingCallView>)>) -> bool {
    forall|i: int, j: int|
        0 <= i < j < buckets.len() ==> (#[trigger] buckets[i]).0 != (#[trigger] buckets[j]).0
}

/// A position that `bucket_from` returns holds a bucket of that name, and
/// none before it does.
pub proof fn bucket_is_first(
    buckets: Seq<(Seq<char>, Seq<PendingCallView>)>,
    name: Seq<char>,
    from: int,
)
    requires
        0 <= from,
    ensures
        match bucket_from(buckets, name, from) {
            Some(at) => from <= at < buckets.len() && buckets[at].0 == name && forall|j: int|
                from <= j < at ==> buckets[j].0 != name,
            None => forall|j: int| from <= j < buckets.len() ==> buckets[j].0 != name,
        },
    decreases buckets.len() - from,
{
    if from < buckets.len() && buckets[from].0 != name {
        bucket_is_first(buckets, name, from + 1);
    }
}

impl View for ForeignCallsToCheck {
    type V = Seq<(Seq<char>, Seq<PendingCallView>)>;

    closed spec fn view(&self) -> Seq<(Seq<char>, Seq<PendingCallView>)> {
        self.inner@.map_values(|bucket: Bucket| (bucket.unit@, calls_view(bucket.calls@)))
    }
}

impl ForeignCallsToCheck {
    /// No two buckets are for the same unit.
    pub open spec fn wf(&self) -> bool {
        distinct_buckets(self@)
    }

    /// No call is pending.
    pub fn new() -> (pending: ForeignCallsToCheck)
        ensures
            pending@ == Seq::<(Seq<char>, Seq<PendingCallView>)>::empty(),
            pending.wf(),
    {
        let pending = ForeignCallsToCheck { inner: Vec::new() };
        assert(pending@ =~= Seq::empty());
        pending
    }

    fn find(&self, name: &str) -> (found: Option<usize>)
        ensures
            match found {
                Some(at) => bucket_from(self@, name@, 0) == Some(at as int) && at
                    < self.inner@.len(),
                None => bucket_from(self@, name@, 0) is None,
            },
    {
        let mut i: usize = 0;
        while i < self.inner.len()
            invariant
                i <= self.inner@.len(),
                self@.len() == self.inner@.len(),
                bucket_from(self@, name@, 0) == bucket_from(self@, name@, i as int),
            decreases self.inner@.len() - i,
        {
            if same_text(self.inner[i].unit.as_str(), name) {
                assert(self@[i as int].0 == name@);
                return Some(i);
            }
            assert(self@[i as int].0 != name@);
            i += 1;
        }
        None
    }

    /// Keeps the call of `def_id`, reached by `call_stack`, for the unit
    /// `krate_name`.
    pub fn save_for_later_check(
        &mut self,
        krate_name: &str,
        def_id: FunctionId,
        call_stack: &Vec<Frame>,
        receiver: Option<TypeId>,
    )
        requires
            old(self).wf(),
        ensures
            final(self).wf(),
            final(self)@ == saved(
                old(self)@,
                krate_name@,
                PendingCallView {
                    function: def_id,
                    call_stack: stack_view(call_stack@),
                    receiver: receiver,
                },
            ),
    {
        let call = PendingCall { function: def_id, call_stack: clone_stack(call_stack), receiver };
        let ghost kept = call@;
        proof {
            bucket_is_first(self@, krate_name@, 0);
        }
        match self.find(krate_name) {
            Some(at) => {
                let ghost before = self.inner@[at as int];
                let mut bucket = self.inner.remove(at);
                bucket.calls.push(call);
                assert(calls_view(bucket.calls@) =~= calls_view(before.calls@).push(kept));
                self.inner.insert(at, bucket);
                assert(self@ =~= saved(old(self)@, krate_name@, kept));
            },
            None => {
                let mut calls: Vec<PendingCall> = Vec::new();
                calls.push(call);
                assert(calls_view(calls@) =~= seq![kept]);
                self.inner.push(Bucket { unit: krate_name.to_owned(), calls });
                assert(self@ =~= saved(old(self)@, krate_name@, kept));
            },
        }
    }

    /// The names of the units that calls wait for, in bucket order.
    pub fn keys(&self) -> (names: Vec<String>)
        ensures
            names@.map_values(|name: String| name@) == bucket_names(self@),
    {
        let mut names: Vec<String> = Vec::new();
        let mut i: usize = 0;
        while i < self.inner.len()
            invariant
                i <= self.inner@.len(),
                names@.len() == i,
                forall|j: int| 0 <= j < i ==> names@[j]@ == self.inner@[j].unit@,
            decreases self.inner@.len() - i,
        {
            names.push(self.inner[i].unit.clone());
            i += 1;
        }
        assert(names@.map_values(|name: String| name@) =~= bucket_names(self@));
        names
    }

    /// Whether no call waits.
    pub fn is_empty(&self) -> (empty: bool)
        ensures
            empty == (self@.len() == 0),
    {
        self.inner.len() == 0
    }

    /// The name of the unit of the first bucket, if any call waits.
    pub fn first_key(&self) -> (name: Option<String>)
        ensures
            match name {
                Some(name) => self@.len() > 0 && name@ == self@[0].0,
                None => self@.len() == 0,
            },
    {
        if self.inner.len() > 0 {
            Some(self.inner[0].unit.clone())
        } else {
            None
        }
    }

    /// Takes out the calls that wait for the unit `key`, if any do.
    pub fn remove(&mut self, key: &str) -> (calls: Option<Vec<PendingCall>>)
        requires
            old(self).wf(),
        ensures
            final(self).wf(),
            match bucket_from(old(self)@, key@, 0) {
                Some(at) => {
                    &&& calls matches Some(taken)
                    &&& calls_view(taken@) == old(self)@[at].1
                    &&& final(self)@ == old(self)@.remove(at)
                },
                None => calls is None && final(self)@ == old(self)@,
            },
    {
        proof {
            bucket_is_first(self@, key@, 0);
        }
        match self.find(key) {
            Some(at) => {
                let bucket = self.inner.remove(at);
                assert(self@ =~= old(self)@.remove(at as int));
                Some(bucket.calls)
            },
            None => None,
        }
    }
}

} // verus!
