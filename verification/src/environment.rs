//! The environment: bindings in nested scopes, the values they own and the
//! borrows taken of those values. Every operation either makes a legal
//! transition or is rejected and changes nothing.
//!
//! An environment is well-formed at all times, so no operation asks
//! anything of its caller.

use crate::preservation::{
    lemma_borrow_keeps_wf, lemma_declare_keeps_wf, lemma_drop_keeps_wf, lemma_enter_scope_keeps_wf,
    lemma_exit_scope_keeps_wf, lemma_move_out_keeps_wf, lemma_mutate_keeps_wf,
    lemma_release_keeps_wf, lemma_write_through_keeps_wf,
};
use crate::rejection::Rejection;
use crate::state::{
    newest_below, owners_below, BindingModel, BorrowModel, FrameModel, SlotModel, State,
};
use crate::value::Value;
use vstd::prelude::*;

verus! {

#[derive(Debug)]
enum Slot {
    Live(Value),
    Moved,
    Dropped,
}

impl View for Slot {
    type V = SlotModel;

    closed spec fn view(&self) -> SlotModel {
        match self {
            Slot::Live(value) => SlotModel::Live(value@),
            Slot::Moved => SlotModel::Moved,
            Slot::Dropped => SlotModel::Dropped,
        }
    }
}

#[derive(Debug)]
struct Binding {
    name: String,
    mutable: bool,
    slot: Slot,
}

impl View for Binding {
    type V = BindingModel;

    closed spec fn view(&self) -> BindingModel {
        BindingModel { name: self.name@, mutable: self.mutable, slot: self.slot@ }
    }
}

#[derive(Debug)]
struct Borrow {
    owner: usize,
    mutable: bool,
    live: bool,
}

impl View for Borrow {
    type V = BorrowModel;

    closed spec fn view(&self) -> BorrowModel {
        BorrowModel { owner: self.owner as int, mutable: self.mutable, live: self.live }
    }
}

#[derive(Debug)]
struct Frame {
    first_binding: usize,
    first_borrow: usize,
}

impl View for Frame {
    type V = FrameModel;

    closed spec fn view(&self) -> FrameModel {
        FrameModel {
            first_binding: self.first_binding as int,
            first_borrow: self.first_borrow as int,
        }
    }
}

/// The state that three sequences of entries stand for.
spec fn model_of(bindings: Seq<Binding>, borrows: Seq<Borrow>, frames: Seq<Frame>) -> State {
    State {
        bindings: Seq::new(bindings.len(), |i: int| bindings[i]@),
        borrows: Seq::new(borrows.len(), |i: int| borrows[i]@),
        frames: Seq::new(frames.len(), |i: int| frames[i]@),
    }
}

/// Bindings in nested scopes, the values they own, and the borrows of
/// those values.
#[derive(Debug)]
pub struct Environment {
    bindings: Vec<Binding>,
    borrows: Vec<Borrow>,
    frames: Vec<Frame>,
}

impl View for Environment {
    type V = State;

    closed spec fn view(&self) -> State {
        model_of(self.bindings@, self.borrows@, self.frames@)
    }
}

impl Default for Environment {
    /// The environment that `new` gives.
    fn default() -> (env: Environment)
        ensures
            env@ == State::empty(),
            env@.wf(),
    {
        Environment::new()
    }
}

impl Environment {
    #[verifier::type_invariant]
    spec fn well_formed(self) -> bool {
        self@.wf()
    }

    /// An environment with no binding, no borrow, and only the outermost
    /// scope open.
    pub fn new() -> (env: Environment)
        ensures
            env@ == State::empty(),
            env@.wf(),
    {
        let env = Environment { bindings: Vec::new(), borrows: Vec::new(), frames: Vec::new() };
        assert(env@ =~= State::empty());
        env
    }

    /// Takes the three sequences out and leaves the environment empty, for
    /// the caller to change them and put them back.
    fn take_apart(&mut self) -> (parts: (Vec<Binding>, Vec<Borrow>, Vec<Frame>))
        ensures
            parts.0 == old(self).bindings,
            parts.1 == old(self).borrows,
            parts.2 == old(self).frames,
            model_of(parts.0@, parts.1@, parts.2@) == old(self)@,
    {
        let mut taken = Environment::new();
        core::mem::swap(self, &mut taken);
        let Environment { bindings, borrows, frames } = taken;
        (bindings, borrows, frames)
    }

    /// The number of scopes open beyond the outermost one.
    pub fn depth(&self) -> (d: usize)
        ensures
            d == self@.depth(),
            self@.wf(),
    {
        proof {
            use_type_invariant(self);
        }
        self.frames.len()
    }

    /// The number of values that the bindings in scope own.
    pub fn owned_values(&self) -> (n: usize)
        ensures
            n == self@.owned_values(),
            self@.wf(),
    {
        proof {
            use_type_invariant(self);
        }
        let mut n: usize = 0;
        let mut i: usize = 0;
        while i < self.bindings.len()
            invariant
                i <= self.bindings.len(),
                n <= i,
                n == owners_below(self@.bindings, i as int),
            decreases self.bindings.len() - i,
        {
            if let Slot::Live(_) = &self.bindings[i].slot {
                n += 1;
            }
            i += 1;
        }
        n
    }

    /// The index of the newest binding that bears `name`.
    fn resolve(&self, name: &str) -> (r: Option<usize>)
        ensures
            match r {
                Some(i) => self@.resolve(name@) == Some(i as int) && i < self.bindings.len(),
                None => self@.resolve(name@) is None,
            },
    {
        let key = name.to_owned();
        let mut i = self.bindings.len();
        while i > 0
            invariant
                i <= self.bindings.len(),
                key@ == name@,
                self@.resolve(name@) == newest_below(self@.bindings, name@, i as int),
            decreases i,
        {
            i -= 1;
            if self.bindings[i].name == key {
                return Some(i);
            }
        }
        None
    }

    /// The index of the live binding that `name` denotes, or the reason it
    /// cannot be used.
    fn usable(&self, name: &str) -> (r: Result<usize, Rejection>)
        ensures
            match r {
                Ok(i) => self@.usable(name@) == Ok::<int, Rejection>(i as int) && i
                    < self.bindings.len() && self.bindings[i as int].slot is Live,
                Err(e) => self@.usable(name@) == Err::<int, Rejection>(e),
            },
    {
        match self.resolve(name) {
            None => Err(Rejection::Undeclared),
            Some(i) => match &self.bindings[i].slot {
                Slot::Live(_) => Ok(i),
                Slot::Moved => Err(Rejection::UseAfterMove),
                Slot::Dropped => Err(Rejection::UseAfterDrop),
            },
        }
    }

    /// Whether a live borrow of the binding at `i` exists; with
    /// `only_mutable`, whether a live mutable one does.
    fn has_borrow(&self, i: usize, only_mutable: bool) -> (r: bool)
        ensures
            only_mutable ==> r == self@.exclusively_borrowed(i as int),
            !only_mutable ==> r == self@.borrowed(i as int),
    {
        let mut b: usize = 0;
        while b < self.borrows.len()
            invariant
                b <= self.borrows.len(),
                forall|c: int|
                    0 <= c < b ==> !((#[trigger] self@.borrows[c]).live && self@.borrows[c].owner
                        == i && (only_mutable ==> self@.borrows[c].mutable)),
            decreases self.borrows.len() - b,
        {
            let entry = &self.borrows[b];
            if entry.live && entry.owner == i && (!only_mutable || entry.mutable) {
                assert(self@.borrows[b as int].live);
                return true;
            }
            b += 1;
        }
        false
    }

    /// Brings a binding into the innermost open scope. It owns `value`, and
    /// shadows any older binding of the same name. Never rejected.
    pub fn declare(&mut self, name: &str, value: Value, mutable: bool)
        ensures
            final(self)@ == old(self)@.declare(name@, value@, mutable),
            final(self)@.wf(),
    {
        proof {
            use_type_invariant(&*self);
            lemma_declare_keeps_wf(self@, name@, value@, mutable);
        }
        let (mut bindings, borrows, frames) = self.take_apart();
        bindings.push(Binding { name: name.to_owned(), mutable, slot: Slot::Live(value) });
        assert(model_of(bindings@, borrows@, frames@) =~= old(self)@.declare(
            name@,
            value@,
            mutable,
        ));
        *self = Environment { bindings, borrows, frames };
    }

    /// Reads the value that `name` owns. Rejected where the name denotes no
    /// live binding, and while a mutable borrow of the value is live.
    pub fn read(&self, name: &str) -> (r: Result<&Value, Rejection>)
        ensures
            match (self@.read(name@), r) {
                (Ok(value), Ok(got)) => got@ == value,
                (Err(e), Err(got)) => got == e,
                _ => false,
            },
            self@.wf(),
    {
        proof {
            use_type_invariant(self);
        }
        let i = match self.usable(name) {
            Ok(i) => i,
            Err(e) => { return Err(e); },
        };
        if self.has_borrow(i, true) {
            return Err(Rejection::ConflictingBorrow);
        }
        match &self.bindings[i].slot {
            Slot::Live(value) => Ok(value),
            _ => unreached(),
        }
    }

    /// Gives the binding a new value of the same shape. Rejected where the
    /// name denotes no live binding, where the binding is not mutable,
    /// where the shape differs, and while any borrow of the value is live.
    pub fn mutate(&mut self, name: &str, value: Value) -> (r: Result<(), Rejection>)
        ensures
            match old(self)@.mutate(name@, value@) {
                Ok(next) => r is Ok && final(self)@ == next,
                Err(e) => r == Err::<(), Rejection>(e) && final(self)@ == old(self)@,
            },
            final(self)@.wf(),
    {
        proof {
            use_type_invariant(&*self);
            lemma_mutate_keeps_wf(self@, name@, value@);
        }
        let i = match self.usable(name) {
            Ok(i) => i,
            Err(e) => { return Err(e); },
        };
        if !self.bindings[i].mutable {
            return Err(Rejection::ImmutableBinding);
        }
        let same_shape = match &self.bindings[i].slot {
            Slot::Live(held) => held.kind() == value.kind(),
            _ => unreached(),
        };
        if !same_shape {
            return Err(Rejection::TypeMismatch);
        }
        if self.has_borrow(i, false) {
            return Err(Rejection::ConflictingBorrow);
        }
        let (mut bindings, borrows, frames) = self.take_apart();
        bindings[i].slot = Slot::Live(value);
        assert(model_of(bindings@, borrows@, frames@) =~= old(self)@.with_slot(
            i as int,
            SlotModel::Live(value@),
        ));
        *self = Environment { bindings, borrows, frames };
        Ok(())
    }

    /// Hands the value that `name` owns to the caller and leaves the
    /// binding moved-from. Rejected where the name denotes no live binding,
    /// and while any borrow of the value is live.
    pub fn move_out(&mut self, name: &str) -> (r: Result<Value, Rejection>)
        ensures
            match (old(self)@.move_out(name@), r) {
                (Ok((next, value)), Ok(got)) => got@ == value && final(self)@ == next,
                (Err(e), Err(got)) => got == e && final(self)@ == old(self)@,
                _ => false,
            },
            final(self)@.wf(),
    {
        proof {
            use_type_invariant(&*self);
            lemma_move_out_keeps_wf(self@, name@);
        }
        let i = match self.usable(name) {
            Ok(i) => i,
            Err(e) => { return Err(e); },
        };
        if self.has_borrow(i, false) {
            return Err(Rejection::ConflictingBorrow);
        }
        let (mut bindings, borrows, frames) = self.take_apart();
        let mut taken = Slot::Moved;
        core::mem::swap(&mut bindings[i].slot, &mut taken);
        assert(model_of(bindings@, borrows@, frames@) =~= old(self)@.with_slot(
            i as int,
            SlotModel::Moved,
        ));
        *self = Environment { bindings, borrows, frames };
        match taken {
            Slot::Live(value) => Ok(value),
            _ => unreached(),
        }
    }

    /// Moves ownership from `from` to a new immutable binding `to` in the
    /// innermost open scope, and leaves `from` moved-from. Rejected where
    /// `from` denotes no live binding, and while any borrow of the value is
    /// live.
    pub fn transfer(&mut self, from: &str, to: &str) -> (r: Result<(), Rejection>)
        ensures
            match old(self)@.transfer(from@, to@) {
                Ok(next) => r is Ok && final(self)@ == next,
                Err(e) => r == Err::<(), Rejection>(e) && final(self)@ == old(self)@,
            },
            final(self)@.wf(),
    {
        match self.move_out(from) {
            Ok(value) => {
                self.declare(to, value, false);
                Ok(())
            },
            Err(e) => Err(e),
        }
    }

    /// Releases the value that `name` owns. Rejected where the name denotes
    /// no live binding, and while any borrow of the value is live.
    pub fn drop(&mut self, name: &str) -> (r: Result<(), Rejection>)
        ensures
            match old(self)@.drop(name@) {
                Ok(next) => r is Ok && final(self)@ == next,
                Err(e) => r == Err::<(), Rejection>(e) && final(self)@ == old(self)@,
            },
            final(self)@.wf(),
    {
        proof {
            use_type_invariant(&*self);
            lemma_drop_keeps_wf(self@, name@);
        }
        let i = match self.usable(name) {
            Ok(i) => i,
            Err(e) => { return Err(e); },
        };
        if self.has_borrow(i, false) {
            return Err(Rejection::ConflictingBorrow);
        }
        let (mut bindings, borrows, frames) = self.take_apart();
        bindings[i].slot = Slot::Dropped;
        assert(model_of(bindings@, borrows@, frames@) =~= old(self)@.with_slot(
            i as int,
            SlotModel::Dropped,
        ));
        *self = Environment { bindings, borrows, frames };
        Ok(())
    }

    /// Takes a borrow of the value that `name` owns and returns its handle.
    /// Rejected where the name denotes no live binding; for a mutable
    /// borrow, where the binding is not mutable or any borrow of the value
    /// is live; for a shared borrow, while a mutable one is live.
    pub fn borrow(&mut self, name: &str, mutable: bool) -> (r: Result<usize, Rejection>)
        ensures
            match (old(self)@.borrow(name@, mutable), r) {
                (Ok(next), Ok(id)) => id == old(self)@.borrows.len() && final(self)@ == next,
                (Err(e), Err(got)) => got == e && final(self)@ == old(self)@,
                _ => false,
            },
            final(self)@.wf(),
    {
        proof {
            use_type_invariant(&*self);
            lemma_borrow_keeps_wf(self@, name@, mutable);
        }
        let i = match self.usable(name) {
            Ok(i) => i,
            Err(e) => { return Err(e); },
        };
        if mutable && !self.bindings[i].mutable {
            return Err(Rejection::ImmutableBinding);
        }
        if self.has_borrow(i, !mutable) {
            return Err(Rejection::ConflictingBorrow);
        }
        let (bindings, mut borrows, frames) = self.take_apart();
        let id = borrows.len();
        borrows.push(Borrow { owner: i, mutable, live: true });
        assert(model_of(bindings@, borrows@, frames@) =~= old(self)@.borrow(
            name@,
            mutable,
        ).unwrap());
        *self = Environment { bindings, borrows, frames };
        Ok(id)
    }

    /// Ends the borrow with handle `id`. Rejected unless that borrow is
    /// live.
    pub fn release(&mut self, id: usize) -> (r: Result<(), Rejection>)
        ensures
            match old(self)@.release(id as int) {
                Ok(next) => r is Ok && final(self)@ == next,
                Err(e) => r == Err::<(), Rejection>(e) && final(self)@ == old(self)@,
            },
            final(self)@.wf(),
    {
        proof {
            use_type_invariant(&*self);
            lemma_release_keeps_wf(self@, id as int);
        }
        if id >= self.borrows.len() || !self.borrows[id].live {
            return Err(Rejection::UnknownBorrow);
        }
        let (bindings, mut borrows, frames) = self.take_apart();
        borrows[id].live = false;
        assert(model_of(bindings@, borrows@, frames@) =~= old(self)@.release(id as int).unwrap());
        *self = Environment { bindings, borrows, frames };
        Ok(())
    }

    /// Reads, through the borrow with handle `id`, the value that its owner
    /// holds. Rejected unless that borrow is live.
    pub fn read_through(&self, id: usize) -> (r: Result<&Value, Rejection>)
        ensures
            match (self@.read_through(id as int), r) {
                (Ok(value), Ok(got)) => got@ == value,
                (Err(e), Err(got)) => got == e,
                _ => false,
            },
            self@.wf(),
    {
        proof {
            use_type_invariant(self);
        }
        if id >= self.borrows.len() || !self.borrows[id].live {
            return Err(Rejection::UnknownBorrow);
        }
        assert(self@.borrows[id as int].live);
        match &self.bindings[self.borrows[id].owner].slot {
            Slot::Live(value) => Ok(value),
            _ => unreached(),
        }
    }

    /// Gives, through the borrow with handle `id`, its owner a new value of
    /// the same shape. Rejected unless that borrow is live and mutable, and
    /// where the shape differs.
    pub fn write_through(&mut self, id: usize, value: Value) -> (r: Result<(), Rejection>)
        ensures
            match old(self)@.write_through(id as int, value@) {
                Ok(next) => r is Ok && final(self)@ == next,
                Err(e) => r == Err::<(), Rejection>(e) && final(self)@ == old(self)@,
            },
            final(self)@.wf(),
    {
        proof {
            use_type_invariant(&*self);
            lemma_write_through_keeps_wf(self@, id as int, value@);
        }
        if id >= self.borrows.len() || !self.borrows[id].live {
            return Err(Rejection::UnknownBorrow);
        }
        if !self.borrows[id].mutable {
            return Err(Rejection::SharedBorrow);
        }
        assert(self@.borrows[id as int].live);
        let owner = self.borrows[id].owner;
        let same_shape = match &self.bindings[owner].slot {
            Slot::Live(held) => held.kind() == value.kind(),
            _ => unreached(),
        };
        if !same_shape {
            return Err(Rejection::TypeMismatch);
        }
        let (mut bindings, borrows, frames) = self.take_apart();
        bindings[owner].slot = Slot::Live(value);
        assert(model_of(bindings@, borrows@, frames@) =~= old(self)@.with_slot(
            owner as int,
            SlotModel::Live(value@),
        ));
        *self = Environment { bindings, borrows, frames };
        Ok(())
    }

    /// Opens a scope inside the innermost open one.
    pub fn enter_scope(&mut self)
        ensures
            final(self)@ == old(self)@.enter_scope(),
            final(self)@.wf(),
    {
        proof {
            use_type_invariant(&*self);
            lemma_enter_scope_keeps_wf(self@);
        }
        let (bindings, borrows, mut frames) = self.take_apart();
        frames.push(Frame { first_binding: bindings.len(), first_borrow: borrows.len() });
        assert(model_of(bindings@, borrows@, frames@) =~= old(self)@.enter_scope());
        *self = Environment { bindings, borrows, frames };
    }

    /// Closes the innermost open scope: ends every borrow taken in it and
    /// takes every binding declared in it out of scope, with the value it
    /// owns. Rejected where only the outermost scope is open.
    pub fn exit_scope(&mut self) -> (r: Result<(), Rejection>)
        ensures
            match old(self)@.exit_scope() {
                Ok(next) => r is Ok && final(self)@ == next,
                Err(e) => r == Err::<(), Rejection>(e) && final(self)@ == old(self)@,
            },
            final(self)@.wf(),
    {
        proof {
            use_type_invariant(&*self);
            lemma_exit_scope_keeps_wf(self@);
        }
        if self.frames.len() == 0 {
            return Err(Rejection::NoOpenScope);
        }
        let (mut bindings, mut borrows, mut frames) = self.take_apart();
        let frame = frames.pop().unwrap();
        assert(frame@ == old(self)@.frames.last());
        let mut b = frame.first_borrow;
        while b < borrows.len()
            invariant
                frame.first_borrow <= b <= borrows.len(),
                borrows.len() == old(self).borrows.len(),
                forall|c: int|
                    0 <= c < borrows.len() ==> (#[trigger] borrows[c]).owner == old(
                        self,
                    ).borrows[c].owner && borrows[c].mutable == old(self).borrows[c].mutable
                        && borrows[c].live == (old(self).borrows[c].live && !(frame.first_borrow
                        <= c < b)),
            decreases borrows.len() - b,
        {
            borrows[b].live = false;
            b += 1;
        }
        bindings.truncate(frame.first_binding);
        assert(model_of(bindings@, borrows@, frames@) =~= old(self)@.exit_scope().unwrap());
        *self = Environment { bindings, borrows, frames };
        Ok(())
    }
}

} // verus!
