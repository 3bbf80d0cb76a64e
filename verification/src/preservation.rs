//! Every operation takes a well-formed state to a well-formed state. So
//! the borrow rule holds in every state that an environment reaches: a
//! value has at most one live mutable borrow, or any number of live shared
//! ones, and never both.

use crate::state::{lemma_usable_in_bounds, SlotModel, State};
use crate::value::ValueModel;
use vstd::prelude::*;

verus! {

/// The empty state is well-formed.
pub proof fn lemma_empty_wf()
    ensures
        State::empty().wf(),
{
}

/// Replacing the slot of a binding keeps the state well-formed where the
/// binding stays live, or has no live borrow.
pub proof fn lemma_with_slot_keeps_wf(s: State, i: int, slot: SlotModel)
    requires
        s.wf(),
        0 <= i < s.bindings.len(),
        slot is Live || !s.borrowed(i),
    ensures
        s.with_slot(i, slot).wf(),
{
    let t = s.with_slot(i, slot);
    assert forall|b: int| 0 <= b < t.borrows.len() && (#[trigger] t.borrows[b]).live implies {
        &&& 0 <= t.borrows[b].owner < t.bindings.len()
        &&& t.bindings[t.borrows[b].owner].slot is Live
        &&& t.borrows[b].mutable ==> t.bindings[t.borrows[b].owner].mutable
    } by {
        assert(s.borrows[b].live);
    }
}

/// Declaring keeps the state well-formed.
pub proof fn lemma_declare_keeps_wf(s: State, name: Seq<char>, value: ValueModel, mutable: bool)
    requires
        s.wf(),
    ensures
        s.declare(name, value, mutable).wf(),
{
    let t = s.declare(name, value, mutable);
    assert forall|b: int| 0 <= b < t.borrows.len() && (#[trigger] t.borrows[b]).live implies {
        &&& 0 <= t.borrows[b].owner < t.bindings.len()
        &&& t.bindings[t.borrows[b].owner].slot is Live
        &&& t.borrows[b].mutable ==> t.bindings[t.borrows[b].owner].mutable
    } by {
        assert(s.borrows[b].live);
    }
}

/// Mutating keeps the state well-formed.
pub proof fn lemma_mutate_keeps_wf(s: State, name: Seq<char>, value: ValueModel)
    requires
        s.wf(),
    ensures
        s.mutate(name, value) matches Ok(t) ==> t.wf(),
{
    if let Ok(i) = s.usable(name) {
        lemma_usable_in_bounds(s, name);
        lemma_with_slot_keeps_wf(s, i, SlotModel::Live(value));
    }
}

/// Moving a value out keeps the state well-formed.
pub proof fn lemma_move_out_keeps_wf(s: State, name: Seq<char>)
    requires
        s.wf(),
    ensures
        s.move_out(name) matches Ok((t, _)) ==> t.wf(),
{
    if let Ok(i) = s.usable(name) {
        lemma_usable_in_bounds(s, name);
        if !s.borrowed(i) {
            lemma_with_slot_keeps_wf(s, i, SlotModel::Moved);
        }
    }
}

/// Transferring keeps the state well-formed.
pub proof fn lemma_transfer_keeps_wf(s: State, from: Seq<char>, to: Seq<char>)
    requires
        s.wf(),
    ensures
        s.transfer(from, to) matches Ok(t) ==> t.wf(),
{
    lemma_move_out_keeps_wf(s, from);
    if let Ok((rest, value)) = s.move_out(from) {
        lemma_declare_keeps_wf(rest, to, value, false);
    }
}

/// Dropping keeps the state well-formed.
pub proof fn lemma_drop_keeps_wf(s: State, name: Seq<char>)
    requires
        s.wf(),
    ensures
        s.drop(name) matches Ok(t) ==> t.wf(),
{
    if let Ok(i) = s.usable(name) {
        lemma_usable_in_bounds(s, name);
        if !s.borrowed(i) {
            lemma_with_slot_keeps_wf(s, i, SlotModel::Dropped);
        }
    }
}

/// Borrowing keeps the state well-formed: a borrow comes to life only
/// where the borrow rule admits it.
pub proof fn lemma_borrow_keeps_wf(s: State, name: Seq<char>, mutable: bool)
    requires
        s.wf(),
    ensures
        s.borrow(name, mutable) matches Ok(t) ==> t.wf(),
{
    if let Ok(t) = s.borrow(name, mutable) {
        lemma_usable_in_bounds(s, name);
        let i = s.usable(name).unwrap();
        let n = s.borrows.len() as int;
        assert forall|a: int, b: int|
            0 <= a < t.borrows.len() && 0 <= b < t.borrows.len() && a != b && (
            #[trigger] t.borrows[a]).live && (#[trigger] t.borrows[b]).live && t.borrows[a].owner
                == t.borrows[b].owner implies !t.borrows[a].mutable && !t.borrows[b].mutable by {
            if a < n && b < n {
                assert(s.borrows[a].live && s.borrows[b].live);
            } else if a < n {
                assert(s.borrows[a].live && s.borrows[a].owner == i);
            } else {
                assert(s.borrows[b].live && s.borrows[b].owner == i);
            }
        }
        assert forall|b: int| 0 <= b < t.borrows.len() && (#[trigger] t.borrows[b]).live implies {
            &&& 0 <= t.borrows[b].owner < t.bindings.len()
            &&& t.bindings[t.borrows[b].owner].slot is Live
            &&& t.borrows[b].mutable ==> t.bindings[t.borrows[b].owner].mutable
        } by {
            if b < n {
                assert(s.borrows[b].live);
            }
        }
        assert forall|b: int, k: int|
            0 <= b < t.borrows.len() && 0 <= k < t.frames.len() && (#[trigger] t.borrows[b]).live
                && b < (#[trigger] t.frames[k]).first_borrow implies t.borrows[b].owner
            < t.frames[k].first_binding by {
            assert(s.frames[k].first_borrow <= n);
            assert(s.borrows[b].live);
        }
    }
}

/// Releasing keeps the state well-formed.
pub proof fn lemma_release_keeps_wf(s: State, id: int)
    requires
        s.wf(),
    ensures
        s.release(id) matches Ok(t) ==> t.wf(),
{
    if let Ok(t) = s.release(id) {
        assert forall|b: int| 0 <= b < t.borrows.len() && (#[trigger] t.borrows[b]).live implies {
            &&& 0 <= t.borrows[b].owner < t.bindings.len()
            &&& t.bindings[t.borrows[b].owner].slot is Live
            &&& t.borrows[b].mutable ==> t.bindings[t.borrows[b].owner].mutable
        } by {
            assert(s.borrows[b].live);
        }
        assert forall|b: int, k: int|
            0 <= b < t.borrows.len() && 0 <= k < t.frames.len() && (#[trigger] t.borrows[b]).live
                && b < (#[trigger] t.frames[k]).first_borrow implies t.borrows[b].owner
            < t.frames[k].first_binding by {
            assert(s.borrows[b].live);
        }
        assert forall|a: int, b: int|
            0 <= a < t.borrows.len() && 0 <= b < t.borrows.len() && a != b && (
            #[trigger] t.borrows[a]).live && (#[trigger] t.borrows[b]).live && t.borrows[a].owner
                == t.borrows[b].owner implies !t.borrows[a].mutable && !t.borrows[b].mutable by {
            assert(s.borrows[a].live && s.borrows[b].live);
        }
    }
}

/// Writing through a borrow keeps the state well-formed.
pub proof fn lemma_write_through_keeps_wf(s: State, id: int, value: ValueModel)
    requires
        s.wf(),
    ensures
        s.write_through(id, value) matches Ok(t) ==> t.wf(),
{
    if s.write_through(id, value) is Ok {
        assert(s.borrows[id].live);
        lemma_with_slot_keeps_wf(s, s.borrows[id].owner, SlotModel::Live(value));
    }
}

/// Opening a scope keeps the state well-formed.
pub proof fn lemma_enter_scope_keeps_wf(s: State)
    requires
        s.wf(),
    ensures
        s.enter_scope().wf(),
{
    let t = s.enter_scope();
    let n = s.frames.len() as int;
    assert forall|b: int, k: int|
        0 <= b < t.borrows.len() && 0 <= k < t.frames.len() && (#[trigger] t.borrows[b]).live && b
            < (#[trigger] t.frames[k]).first_borrow implies t.borrows[b].owner
        < t.frames[k].first_binding by {
        assert(s.borrows[b].live);
        if k < n {
            assert(t.frames[k] == s.frames[k]);
        }
    }
    assert forall|j: int, k: int| 0 <= j <= k < t.frames.len() implies {
        &&& (#[trigger] t.frames[j]).first_binding <= (#[trigger] t.frames[k]).first_binding
        &&& t.frames[j].first_borrow <= t.frames[k].first_borrow
    } by {
        if k < n {
            assert(t.frames[j] == s.frames[j] && t.frames[k] == s.frames[k]);
        } else if j < n {
            assert(t.frames[j] == s.frames[j]);
        }
    }
}

/// Closing a scope keeps the state well-formed: what outlives the scope
/// leans on nothing that ended with it.
pub proof fn lemma_exit_scope_keeps_wf(s: State)
    requires
        s.wf(),
    ensures
        s.exit_scope() matches Ok(t) ==> t.wf(),
{
    if let Ok(t) = s.exit_scope() {
        let last = s.frames.len() - 1;
        let frame = s.frames[last];
        assert forall|k: int| 0 <= k < t.frames.len() implies {
            &&& 0 <= (#[trigger] t.frames[k]).first_binding <= t.bindings.len()
            &&& 0 <= t.frames[k].first_borrow <= t.borrows.len()
        } by {
            assert(t.frames[k] == s.frames[k]);
            assert(s.frames[k].first_binding <= s.frames[last].first_binding);
        }
        assert forall|j: int, k: int| 0 <= j <= k < t.frames.len() implies {
            &&& (#[trigger] t.frames[j]).first_binding <= (#[trigger] t.frames[k]).first_binding
            &&& t.frames[j].first_borrow <= t.frames[k].first_borrow
        } by {
            assert(t.frames[j] == s.frames[j] && t.frames[k] == s.frames[k]);
        }
        assert forall|b: int| 0 <= b < t.borrows.len() && (#[trigger] t.borrows[b]).live implies {
            &&& 0 <= t.borrows[b].owner < t.bindings.len()
            &&& t.bindings[t.borrows[b].owner].slot is Live
            &&& t.borrows[b].mutable ==> t.bindings[t.borrows[b].owner].mutable
        } by {
            assert(s.borrows[b].live && b < s.frames[last].first_borrow);
        }
        assert forall|b: int, k: int|
            0 <= b < t.borrows.len() && 0 <= k < t.frames.len() && (#[trigger] t.borrows[b]).live
                && b < (#[trigger] t.frames[k]).first_borrow implies t.borrows[b].owner
            < t.frames[k].first_binding by {
            assert(s.borrows[b].live);
            assert(t.frames[k] == s.frames[k]);
        }
        assert forall|a: int, b: int|
            0 <= a < t.borrows.len() && 0 <= b < t.borrows.len() && a != b && (
            #[trigger] t.borrows[a]).live && (#[trigger] t.borrows[b]).live && t.borrows[a].owner
                == t.borrows[b].owner implies !t.borrows[a].mutable && !t.borrows[b].mutable by {
            assert(s.borrows[a].live && s.borrows[b].live);
        }
    }
}

} // verus!
