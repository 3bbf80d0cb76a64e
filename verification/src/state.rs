//! The mathematical state of an environment, and every operation on it as
//! a function from state to outcome.
//!
//! A state is three sequences. `bindings` holds every binding in scope, in
//! the order of declaration. `borrows` holds every borrow ever taken, live
//! or ended, so that a borrow's position names it for good. `frames` holds
//! one entry for each scope that is open beyond the outermost one.

use crate::rejection::Rejection;
use crate::value::ValueModel;
use vstd::prelude::*;

verus! {

/// What a binding holds.
pub enum SlotModel {
    /// The binding owns this value.
    Live(ValueModel),
    /// The value went to another owner.
    Moved,
    /// The value was released.
    Dropped,
}

/// A name bound to a slot, with the flag that permits mutation.
pub struct BindingModel {
    pub name: Seq<char>,
    pub mutable: bool,
    pub slot: SlotModel,
}

/// A borrow of the value that the binding at `owner` holds.
pub struct BorrowModel {
    pub owner: int,
    pub mutable: bool,
    pub live: bool,
}

/// An open scope: where its bindings and its borrows begin.
pub struct FrameModel {
    pub first_binding: int,
    pub first_borrow: int,
}

/// The state of an environment.
#[verifier::ext_equal]
pub struct State {
    pub bindings: Seq<BindingModel>,
    pub borrows: Seq<BorrowModel>,
    pub frames: Seq<FrameModel>,
}

/// The greatest index below `upto` whose binding bears `name`, if any.
pub open spec fn newest_below(bindings: Seq<BindingModel>, name: Seq<char>, upto: int) -> Option<
    int,
>
    decreases upto,
{
    if upto <= 0 {
        None
    } else if bindings[upto - 1].name == name {
        Some(upto - 1)
    } else {
        newest_below(bindings, name, upto - 1)
    }
}

/// `newest_below` finds a binding that bears the name and that no later
/// binding below `upto` shadows; it finds none only where none bears it.
pub proof fn lemma_newest_below(bindings: Seq<BindingModel>, name: Seq<char>, upto: int)
    requires
        0 <= upto <= bindings.len(),
    ensures
        match newest_below(bindings, name, upto) {
            Some(i) => {
                &&& 0 <= i < upto
                &&& bindings[i].name == name
                &&& forall|j: int| i < j < upto ==> bindings[j].name != name
            },
            None => forall|j: int| 0 <= j < upto ==> bindings[j].name != name,
        },
    decreases upto,
{
    if upto > 0 && bindings[upto - 1].name != name {
        lemma_newest_below(bindings, name, upto - 1);
    }
}

/// `newest_below` reads nothing but the names below `upto`.
pub proof fn lemma_newest_below_by_names(
    a: Seq<BindingModel>,
    b: Seq<BindingModel>,
    name: Seq<char>,
    upto: int,
)
    requires
        0 <= upto <= a.len(),
        upto <= b.len(),
        forall|j: int| 0 <= j < upto ==> a[j].name == b[j].name,
    ensures
        newest_below(a, name, upto) == newest_below(b, name, upto),
    decreases upto,
{
    if upto > 0 {
        lemma_newest_below_by_names(a, b, name, upto - 1);
    }
}

/// The number of bindings below `upto` that own a value.
pub open spec fn owners_below(bindings: Seq<BindingModel>, upto: int) -> nat
    decreases upto,
{
    if upto <= 0 {
        0
    } else if bindings[upto - 1].slot is Live {
        owners_below(bindings, upto - 1) + 1
    } else {
        owners_below(bindings, upto - 1)
    }
}

impl State {
    /// The state with no binding, no borrow and only the outermost scope.
    pub open spec fn empty() -> State {
        State { bindings: Seq::empty(), borrows: Seq::empty(), frames: Seq::empty() }
    }

    /// Every frame lies within the two sequences, and frames opened later
    /// begin no earlier.
    pub open spec fn frames_wf(self) -> bool {
        &&& forall|k: int|
            0 <= k < self.frames.len() ==> {
                &&& 0 <= (#[trigger] self.frames[k]).first_binding <= self.bindings.len()
                &&& 0 <= self.frames[k].first_borrow <= self.borrows.len()
            }
        &&& forall|j: int, k: int|
            0 <= j <= k < self.frames.len() ==> {
                &&& (#[trigger] self.frames[j]).first_binding <= (
                #[trigger] self.frames[k]).first_binding
                &&& self.frames[j].first_borrow <= self.frames[k].first_borrow
            }
    }

    /// Every live borrow has a live owner, a mutable borrow a mutable one,
    /// and no live borrow outlives the scope of its owner.
    pub open spec fn borrows_wf(self) -> bool {
        &&& forall|b: int|
            0 <= b < self.borrows.len() && (#[trigger] self.borrows[b]).live ==> {
                &&& 0 <= self.borrows[b].owner < self.bindings.len()
                &&& self.bindings[self.borrows[b].owner].slot is Live
                &&& self.borrows[b].mutable ==> self.bindings[self.borrows[b].owner].mutable
            }
        &&& forall|b: int, k: int|
            0 <= b < self.borrows.len() && 0 <= k < self.frames.len() && (
            #[trigger] self.borrows[b]).live && b < (#[trigger] self.frames[k]).first_borrow
                ==> self.borrows[b].owner < self.frames[k].first_binding
    }

    /// The borrow rule: two live borrows of one value are both shared. So a
    /// value has at most one mutable borrow, or any number of shared ones,
    /// and never both.
    pub open spec fn borrows_compatible(self) -> bool {
        forall|a: int, b: int|
            0 <= a < self.borrows.len() && 0 <= b < self.borrows.len() && a != b && (
            #[trigger] self.borrows[a]).live && (#[trigger] self.borrows[b]).live
                && self.borrows[a].owner == self.borrows[b].owner ==> !self.borrows[a].mutable
                && !self.borrows[b].mutable
    }

    /// What holds of every state that the operations reach.
    pub open spec fn wf(self) -> bool {
        &&& self.frames_wf()
        &&& self.borrows_wf()
        &&& self.borrows_compatible()
    }

    /// The binding that `name` denotes: the newest in scope that bears it.
    pub open spec fn resolve(self, name: Seq<char>) -> Option<int> {
        newest_below(self.bindings, name, self.bindings.len() as int)
    }

    /// Whether some live borrow has the binding at `i` for its owner.
    pub open spec fn borrowed(self, i: int) -> bool {
        exists|b: int|
            0 <= b < self.borrows.len() && (#[trigger] self.borrows[b]).live
                && self.borrows[b].owner == i
    }

    /// Whether some live mutable borrow has the binding at `i` for its owner.
    pub open spec fn exclusively_borrowed(self, i: int) -> bool {
        exists|b: int|
            0 <= b < self.borrows.len() && (#[trigger] self.borrows[b]).live
                && self.borrows[b].owner == i && self.borrows[b].mutable
    }

    /// The number of scopes open beyond the outermost one.
    pub open spec fn depth(self) -> nat {
        self.frames.len()
    }

    /// The number of values that the bindings in scope own.
    pub open spec fn owned_values(self) -> nat {
        owners_below(self.bindings, self.bindings.len() as int)
    }

    /// The live binding that `name` denotes, or why it cannot be used.
    pub open spec fn usable(self, name: Seq<char>) -> Result<int, Rejection> {
        match self.resolve(name) {
            None => Err(Rejection::Undeclared),
            Some(i) => match self.bindings[i].slot {
                SlotModel::Live(_) => Ok(i),
                SlotModel::Moved => Err(Rejection::UseAfterMove),
                SlotModel::Dropped => Err(Rejection::UseAfterDrop),
            },
        }
    }

    /// This state with the slot of the binding at `i` replaced.
    pub open spec fn with_slot(self, i: int, slot: SlotModel) -> State {
        State {
            bindings: self.bindings.update(
                i,
                BindingModel { name: self.bindings[i].name, mutable: self.bindings[i].mutable, slot },
            ),
            ..self
        }
    }

    /// A new binding comes into scope. It shadows any older binding of the
    /// same name. Declaring is never rejected.
    pub open spec fn declare(self, name: Seq<char>, value: ValueModel, mutable: bool) -> State {
        State {
            bindings: self.bindings.push(BindingModel { name, mutable, slot: SlotModel::Live(value) }),
            ..self
        }
    }

    /// The value that `name` owns. Rejected where the name denotes no live
    /// binding, and while a mutable borrow of the value is live.
    pub open spec fn read(self, name: Seq<char>) -> Result<ValueModel, Rejection> {
        match self.usable(name) {
            Err(e) => Err(e),
            Ok(i) => if self.exclusively_borrowed(i) {
                Err(Rejection::ConflictingBorrow)
            } else {
                Ok(self.bindings[i].slot->Live_0)
            },
        }
    }

    /// The binding takes a new value of the same shape. Rejected, in this
    /// order: where the name denotes no live binding; where the binding is
    /// not mutable; where the shape differs; while any borrow of the value
    /// is live.
    pub open spec fn mutate(self, name: Seq<char>, value: ValueModel) -> Result<State, Rejection> {
        match self.usable(name) {
            Err(e) => Err(e),
            Ok(i) => if !self.bindings[i].mutable {
                Err(Rejection::ImmutableBinding)
            } else if self.bindings[i].slot->Live_0.kind() != value.kind() {
                Err(Rejection::TypeMismatch)
            } else if self.borrowed(i) {
                Err(Rejection::ConflictingBorrow)
            } else {
                Ok(self.with_slot(i, SlotModel::Live(value)))
            },
        }
    }

    /// Ownership leaves the environment: the binding is left moved-from
    /// and the value is handed out. Rejected where the name denotes no live
    /// binding, and while any borrow of the value is live.
    pub open spec fn move_out(self, name: Seq<char>) -> Result<(State, ValueModel), Rejection> {
        match self.usable(name) {
            Err(e) => Err(e),
            Ok(i) => if self.borrowed(i) {
                Err(Rejection::ConflictingBorrow)
            } else {
                Ok((self.with_slot(i, SlotModel::Moved), self.bindings[i].slot->Live_0))
            },
        }
    }

    /// Ownership passes from `from` to a new immutable binding `to`, which
    /// comes into the innermost open scope; `from` is left moved-from.
    /// Rejected where `from` denotes no live binding, and while any borrow
    /// of the value is live.
    pub open spec fn transfer(self, from: Seq<char>, to: Seq<char>) -> Result<State, Rejection> {
        match self.move_out(from) {
            Err(e) => Err(e),
            Ok((rest, value)) => Ok(rest.declare(to, value, false)),
        }
    }

    /// The binding releases the value it owns and is left dropped. Rejected
    /// where the name denotes no live binding, and while any borrow of the
    /// value is live.
    pub open spec fn drop(self, name: Seq<char>) -> Result<State, Rejection> {
        match self.usable(name) {
            Err(e) => Err(e),
            Ok(i) => if self.borrowed(i) {
                Err(Rejection::ConflictingBorrow)
            } else {
                Ok(self.with_slot(i, SlotModel::Dropped))
            },
        }
    }

    /// A borrow of the value that `name` owns comes to life, in the innermost
    /// open scope. Its handle is the length of `borrows` before the call.
    /// Rejected, in this order: where the name denotes no live binding; for
    /// a mutable borrow, where the binding is not mutable; for a mutable
    /// borrow, while any borrow of the value is live; for a shared borrow,
    /// while a mutable one is live.
    pub open spec fn borrow(self, name: Seq<char>, mutable: bool) -> Result<State, Rejection> {
        match self.usable(name) {
            Err(e) => Err(e),
            Ok(i) => if mutable && !self.bindings[i].mutable {
                Err(Rejection::ImmutableBinding)
            } else if (mutable && self.borrowed(i)) || self.exclusively_borrowed(i) {
                Err(Rejection::ConflictingBorrow)
            } else {
                Ok(
                    State {
                        borrows: self.borrows.push(BorrowModel { owner: i, mutable, live: true }),
                        ..self
                    },
                )
            },
        }
    }

    /// The borrow with handle `id` ends. Rejected unless it is live.
    pub open spec fn release(self, id: int) -> Result<State, Rejection> {
        if 0 <= id < self.borrows.len() && self.borrows[id].live {
            Ok(
                State {
                    borrows: self.borrows.update(
                        id,
                        BorrowModel {
                            owner: self.borrows[id].owner,
                            mutable: self.borrows[id].mutable,
                            live: false,
                        },
                    ),
                    ..self
                },
            )
        } else {
            Err(Rejection::UnknownBorrow)
        }
    }

    /// The value seen through the borrow with handle `id`: the value that
    /// its owner holds. Rejected unless that borrow is live.
    pub open spec fn read_through(self, id: int) -> Result<ValueModel, Rejection> {
        if 0 <= id < self.borrows.len() && self.borrows[id].live {
            Ok(self.bindings[self.borrows[id].owner].slot->Live_0)
        } else {
            Err(Rejection::UnknownBorrow)
        }
    }

    /// The owner of the borrow with handle `id` takes a new value of the
    /// same shape. Rejected, in this order: unless that borrow is live;
    /// unless it is mutable; where the shape differs.
    pub open spec fn write_through(self, id: int, value: ValueModel) -> Result<State, Rejection> {
        if !(0 <= id < self.borrows.len() && self.borrows[id].live) {
            Err(Rejection::UnknownBorrow)
        } else if !self.borrows[id].mutable {
            Err(Rejection::SharedBorrow)
        } else if self.bindings[self.borrows[id].owner].slot->Live_0.kind() != value.kind() {
            Err(Rejection::TypeMismatch)
        } else {
            Ok(self.with_slot(self.borrows[id].owner, SlotModel::Live(value)))
        }
    }

    /// A scope opens inside the innermost open one.
    pub open spec fn enter_scope(self) -> State {
        State {
            frames: self.frames.push(
                FrameModel {
                    first_binding: self.bindings.len() as int,
                    first_borrow: self.borrows.len() as int,
                },
            ),
            ..self
        }
    }

    /// The innermost open scope ends: every borrow taken in it ends, and
    /// every binding declared in it goes out of scope, with the value it
    /// owns. Rejected where only the outermost scope is open.
    pub open spec fn exit_scope(self) -> Result<State, Rejection> {
        if self.frames.len() == 0 {
            Err(Rejection::NoOpenScope)
        } else {
            let frame = self.frames.last();
            Ok(
                State {
                    bindings: self.bindings.subrange(0, frame.first_binding),
                    borrows: Seq::new(
                        self.borrows.len(),
                        |b: int|
                            BorrowModel {
                                owner: self.borrows[b].owner,
                                mutable: self.borrows[b].mutable,
                                live: self.borrows[b].live && b < frame.first_borrow,
                            },
                    ),
                    frames: self.frames.drop_last(),
                },
            )
        }
    }
}

/// A usable name denotes a binding of the state.
pub proof fn lemma_usable_in_bounds(s: State, name: Seq<char>)
    ensures
        s.usable(name) matches Ok(i) ==> 0 <= i < s.bindings.len() && s.resolve(name) == Some(i)
            && s.bindings[i].name == name && s.bindings[i].slot is Live,
{
    lemma_newest_below(s.bindings, name, s.bindings.len() as int);
}

} // verus!
