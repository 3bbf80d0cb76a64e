//! What holds of every state, whatever came before: ownership has one
//! holder, a mutable borrow excludes every other borrow, shared borrows
//! coexist, and nothing outlives its scope.

use crate::preservation::lemma_borrow_keeps_wf;
use crate::rejection::Rejection;
use crate::state::{
    lemma_newest_below, lemma_newest_below_by_names, lemma_usable_in_bounds, owners_below,
    BindingModel, BorrowModel, SlotModel, State,
};
use crate::value::ValueModel;
use vstd::prelude::*;

verus! {

/// The state after `n` shared borrows of `name` in a row, none of them
/// released; `None` where one of them is rejected.
pub open spec fn borrow_shared_repeatedly(s: State, name: Seq<char>, n: nat) -> Option<State>
    decreases n,
{
    if n == 0 {
        Some(s)
    } else {
        match borrow_shared_repeatedly(s, name, (n - 1) as nat) {
            Some(t) => match t.borrow(name, false) {
                Ok(u) => Some(u),
                Err(_) => None,
            },
            None => None,
        }
    }
}

/// Whether every use of `name` is rejected for the reason `why`: reading,
/// mutating, borrowing, transferring, moving out and dropping.
pub open spec fn every_use_rejected(s: State, name: Seq<char>, why: Rejection) -> bool {
    &&& s.read(name) == Err::<ValueModel, Rejection>(why)
    &&& forall|value: ValueModel| s.mutate(name, value) == Err::<State, Rejection>(why)
    &&& forall|mutable: bool| s.borrow(name, mutable) == Err::<State, Rejection>(why)
    &&& forall|to: Seq<char>| s.transfer(name, to) == Err::<State, Rejection>(why)
    &&& s.move_out(name) == Err::<(State, ValueModel), Rejection>(why)
    &&& s.drop(name) == Err::<State, Rejection>(why)
}

/// After ownership has passed from `from` to another name `to`, every use
/// of `from` is rejected as a use after move, and `to` owns the value that
/// `from` owned: reading it yields that value, and it can be borrowed.
pub proof fn law_transfer_moves_ownership(s: State, from: Seq<char>, to: Seq<char>)
    requires
        s.wf(),
        from != to,
        s.transfer(from, to) is Ok,
    ensures
        every_use_rejected(s.transfer(from, to).unwrap(), from, Rejection::UseAfterMove),
        s.read(from) is Ok,
        s.transfer(from, to).unwrap().read(to) == s.read(from),
        s.transfer(from, to).unwrap().borrow(to, false) is Ok,
{
    let t = s.transfer(from, to).unwrap();
    let n = s.bindings.len() as int;
    lemma_usable_in_bounds(s, from);
    let i = s.usable(from).unwrap();
    lemma_newest_below_by_names(t.bindings, s.bindings, from, n);
    assert(t.resolve(from) == Some(i));
    assert(t.usable(from) == Err::<int, Rejection>(Rejection::UseAfterMove));
    assert(t.resolve(to) == Some(n));
    assert(!t.borrowed(n)) by {
        if t.borrowed(n) {
            let b = choose|b: int|
                0 <= b < t.borrows.len() && (#[trigger] t.borrows[b]).live && t.borrows[b].owner
                    == n;
            assert(s.borrows[b].live);
        }
    }
    assert(!s.exclusively_borrowed(i)) by {
        if s.exclusively_borrowed(i) {
            let b = choose|b: int|
                0 <= b < s.borrows.len() && (#[trigger] s.borrows[b]).live && s.borrows[b].owner
                    == i && s.borrows[b].mutable;
            assert(s.borrows[b].live && s.borrows[b].owner == i);
        }
    }
}

/// A value that was moved out of the environment is out of reach of the
/// name that owned it: the caller holds what reading the name yielded, and
/// every further use of the name is rejected as a use after move.
pub proof fn law_moved_out_value_is_out_of_reach(s: State, name: Seq<char>)
    requires
        s.wf(),
        s.move_out(name) is Ok,
    ensures
        s.read(name) == Ok::<ValueModel, Rejection>(s.move_out(name).unwrap().1),
        every_use_rejected(s.move_out(name).unwrap().0, name, Rejection::UseAfterMove),
{
    let t = s.move_out(name).unwrap().0;
    lemma_usable_in_bounds(s, name);
    let i = s.usable(name).unwrap();
    lemma_newest_below_by_names(t.bindings, s.bindings, name, s.bindings.len() as int);
    assert(t.usable(name) == Err::<int, Rejection>(Rejection::UseAfterMove));
    assert(!s.exclusively_borrowed(i)) by {
        if s.exclusively_borrowed(i) {
            let b = choose|b: int|
                0 <= b < s.borrows.len() && (#[trigger] s.borrows[b]).live && s.borrows[b].owner
                    == i && s.borrows[b].mutable;
            assert(s.borrows[b].live && s.borrows[b].owner == i);
        }
    }
}

/// A value that was dropped is gone: every further use of the name that
/// owned it is rejected as a use after drop.
pub proof fn law_dropped_value_is_out_of_reach(s: State, name: Seq<char>)
    requires
        s.wf(),
        s.drop(name) is Ok,
    ensures
        every_use_rejected(s.drop(name).unwrap(), name, Rejection::UseAfterDrop),
{
    let t = s.drop(name).unwrap();
    lemma_usable_in_bounds(s, name);
    lemma_newest_below_by_names(t.bindings, s.bindings, name, s.bindings.len() as int);
    assert(t.usable(name) == Err::<int, Rejection>(Rejection::UseAfterDrop));
}

/// A name that was never declared, or whose binding went out of scope,
/// can be put to no use.
pub proof fn law_undeclared_name_is_out_of_reach(s: State, name: Seq<char>)
    requires
        s.resolve(name) is None,
    ensures
        every_use_rejected(s, name, Rejection::Undeclared),
{
}

/// Replacing one binding changes the number of owners by what that
/// binding gains or loses.
proof fn lemma_owners_below_update(
    bindings: Seq<BindingModel>,
    i: int,
    binding: BindingModel,
    upto: int,
)
    requires
        0 <= i < bindings.len(),
        0 <= upto <= bindings.len(),
    ensures
        owners_below(bindings.update(i, binding), upto) + (if i < upto && bindings[i].slot is Live {
            1nat
        } else {
            0nat
        }) == owners_below(bindings, upto) + (if i < upto && binding.slot is Live {
            1nat
        } else {
            0nat
        }),
    decreases upto,
{
    if upto > 0 {
        lemma_owners_below_update(bindings, i, binding, upto - 1);
    }
}

/// The number of owners below `upto` depends on nothing but the bindings
/// below `upto`.
proof fn lemma_owners_below_prefix(a: Seq<BindingModel>, b: Seq<BindingModel>, upto: int)
    requires
        0 <= upto <= a.len(),
        upto <= b.len(),
        forall|j: int| 0 <= j < upto ==> a[j] == b[j],
    ensures
        owners_below(a, upto) == owners_below(b, upto),
    decreases upto,
{
    if upto > 0 {
        lemma_owners_below_prefix(a, b, upto - 1);
    }
}

/// The number of owners does not shrink as `upto` grows.
proof fn lemma_owners_below_grows(bindings: Seq<BindingModel>, lower: int, upto: int)
    requires
        lower <= upto,
    ensures
        owners_below(bindings, lower) <= owners_below(bindings, upto),
    decreases upto - lower,
{
    if lower < upto {
        lemma_owners_below_grows(bindings, lower, upto - 1);
    }
}

/// A value has one owner at a time, and a transfer keeps it so: the
/// bindings own as many values after a transfer as before. Declaring adds
/// one owned value; moving a value out and dropping it take one away;
/// mutating, borrowing, releasing and opening a scope change nothing in
/// who owns what; closing a scope adds no owned value.
pub proof fn law_ownership_is_conserved(
    s: State,
    name: Seq<char>,
    to: Seq<char>,
    value: ValueModel,
    mutable: bool,
    id: int,
)
    requires
        s.wf(),
    ensures
        s.transfer(name, to) matches Ok(t) ==> t.owned_values() == s.owned_values(),
        s.declare(name, value, mutable).owned_values() == s.owned_values() + 1,
        s.move_out(name) matches Ok((t, _)) ==> t.owned_values() + 1 == s.owned_values(),
        s.drop(name) matches Ok(t) ==> t.owned_values() + 1 == s.owned_values(),
        s.mutate(name, value) matches Ok(t) ==> t.owned_values() == s.owned_values(),
        s.write_through(id, value) matches Ok(t) ==> t.owned_values() == s.owned_values(),
        s.borrow(name, mutable) matches Ok(t) ==> t.owned_values() == s.owned_values(),
        s.release(id) matches Ok(t) ==> t.owned_values() == s.owned_values(),
        s.enter_scope().owned_values() == s.owned_values(),
        s.exit_scope() matches Ok(t) ==> t.owned_values() <= s.owned_values(),
{
    let n = s.bindings.len() as int;
    if let Ok(t) = s.exit_scope() {
        let first = s.frames.last().first_binding;
        assert(0 <= first <= n) by {
            assert(0 <= s.frames[s.frames.len() - 1].first_binding <= n);
        }
        lemma_owners_below_prefix(t.bindings, s.bindings, first);
        lemma_owners_below_grows(s.bindings, first, n);
    }
    lemma_usable_in_bounds(s, name);
    lemma_owners_below_prefix(s.declare(name, value, mutable).bindings, s.bindings, n);
    if let Ok(i) = s.usable(name) {
        lemma_owners_below_update(s.bindings, i, s.with_slot(i, SlotModel::Moved).bindings[i], n);
        lemma_owners_below_update(s.bindings, i, s.with_slot(i, SlotModel::Dropped).bindings[i], n);
        lemma_owners_below_update(
            s.bindings,
            i,
            s.with_slot(i, SlotModel::Live(value)).bindings[i],
            n,
        );
        if let Ok((rest, held)) = s.move_out(name) {
            lemma_owners_below_prefix(rest.declare(to, held, false).bindings, rest.bindings, n);
        }
    }
    if let Ok(t) = s.write_through(id, value) {
        assert(s.borrows[id].live);
        let o = s.borrows[id].owner;
        lemma_owners_below_update(s.bindings, o, t.bindings[o], n);
    }
}

/// While any borrow of the value that `name` owns is live, a mutable
/// borrow of it is rejected: as a conflict where the binding is mutable,
/// and for want of mutability where it is not.
pub proof fn law_mutable_borrow_excludes_others(s: State, name: Seq<char>)
    requires
        s.wf(),
        s.resolve(name) matches Some(i) && s.borrowed(i),
    ensures
        s.borrow(name, true) == Err::<State, Rejection>(
            if s.bindings[s.resolve(name).unwrap()].mutable {
                Rejection::ConflictingBorrow
            } else {
                Rejection::ImmutableBinding
            },
        ),
{
    let i = s.resolve(name).unwrap();
    let b = choose|b: int|
        0 <= b < s.borrows.len() && (#[trigger] s.borrows[b]).live && s.borrows[b].owner == i;
    assert(s.borrows[b].live);
}

/// While a mutable borrow of the value that `name` owns is live, every
/// further borrow of it, shared or mutable, is rejected as a conflict, and
/// so are reading, mutating, moving and dropping through the name.
pub proof fn law_mutable_borrow_is_exclusive(s: State, name: Seq<char>)
    requires
        s.wf(),
        s.resolve(name) matches Some(i) && s.exclusively_borrowed(i),
    ensures
        forall|mutable: bool|
            s.borrow(name, mutable) == Err::<State, Rejection>(Rejection::ConflictingBorrow),
        s.read(name) == Err::<ValueModel, Rejection>(Rejection::ConflictingBorrow),
        forall|value: ValueModel|
            s.mutate(name, value) is Err,
        forall|to: Seq<char>|
            s.transfer(name, to) == Err::<State, Rejection>(Rejection::ConflictingBorrow),
        s.move_out(name) == Err::<(State, ValueModel), Rejection>(Rejection::ConflictingBorrow),
        s.drop(name) == Err::<State, Rejection>(Rejection::ConflictingBorrow),
{
    let i = s.resolve(name).unwrap();
    let b = choose|b: int|
        0 <= b < s.borrows.len() && (#[trigger] s.borrows[b]).live && s.borrows[b].owner == i
            && s.borrows[b].mutable;
    assert(s.borrows[b].live);
    assert(s.borrowed(i));
}

/// Any number of shared borrows of one value are live at once: where
/// `name` denotes a live binding with no live mutable borrow, `n` shared
/// borrows in a row all succeed, and leave `n` new live shared borrows of
/// that binding beside what was there.
pub proof fn law_shared_borrows_coexist(s: State, name: Seq<char>, n: nat)
    requires
        s.wf(),
        s.usable(name) matches Ok(i) && !s.exclusively_borrowed(i),
    ensures
        borrow_shared_repeatedly(s, name, n) matches Some(t) && t.wf() && t.bindings == s.bindings
            && t.frames == s.frames && t.borrows == s.borrows + Seq::new(
            n,
            |k: int| BorrowModel { owner: s.usable(name).unwrap(), mutable: false, live: true },
        ),
    decreases n,
{
    let i = s.usable(name).unwrap();
    let fresh = |k: int| BorrowModel { owner: i, mutable: false, live: true };
    if n == 0 {
        assert(s.borrows =~= s.borrows + Seq::new(0, fresh));
    } else {
        law_shared_borrows_coexist(s, name, (n - 1) as nat);
        let t = borrow_shared_repeatedly(s, name, (n - 1) as nat).unwrap();
        assert(!t.exclusively_borrowed(i)) by {
            if t.exclusively_borrowed(i) {
                let b = choose|b: int|
                    0 <= b < t.borrows.len() && (#[trigger] t.borrows[b]).live
                        && t.borrows[b].owner == i && t.borrows[b].mutable;
                if b < s.borrows.len() {
                    assert(s.borrows[b].live && s.borrows[b].mutable);
                }
            }
        }
        assert(t.usable(name) == s.usable(name));
        lemma_borrow_keeps_wf(t, name, false);
        let u = t.borrow(name, false).unwrap();
        assert(u.borrows =~= s.borrows + Seq::new(n, fresh));
    }
}

/// A value changes only under a binding that was declared mutable, be it
/// through the name or through a borrow.
pub proof fn law_change_needs_mutable_binding(
    s: State,
    name: Seq<char>,
    id: int,
    value: ValueModel,
)
    requires
        s.wf(),
    ensures
        s.mutate(name, value) is Ok ==> (s.resolve(name) matches Some(i) && s.bindings[i].mutable),
        s.write_through(id, value) is Ok ==> s.bindings[s.borrows[id].owner].mutable,
{
    if s.write_through(id, value) is Ok {
        assert(s.borrows[id].live);
    }
}

/// A borrow gives access to the value of its owner: right after it was
/// taken, reading through it yields what reading the name yielded before.
pub proof fn law_borrow_sees_owner_value(s: State, name: Seq<char>, mutable: bool)
    requires
        s.wf(),
        s.borrow(name, mutable) is Ok,
    ensures
        s.read(name) is Ok,
        s.borrow(name, mutable).unwrap().read_through(s.borrows.len() as int) == s.read(name),
{
    lemma_usable_in_bounds(s, name);
    let i = s.usable(name).unwrap();
    assert(!s.exclusively_borrowed(i));
}

/// What is written through a mutable borrow is what the owner holds when
/// the borrow has ended: once the borrow is released, reading the name
/// yields the value written.
pub proof fn law_write_through_reaches_owner(s: State, name: Seq<char>, value: ValueModel)
    requires
        s.wf(),
        s.borrow(name, true) is Ok,
        s.borrow(name, true).unwrap().write_through(s.borrows.len() as int, value) is Ok,
    ensures
        ({
            let id = s.borrows.len() as int;
            let written = s.borrow(name, true).unwrap().write_through(id, value).unwrap();
            &&& written.read_through(id) == Ok::<ValueModel, Rejection>(value)
            &&& written.read(name) == Err::<ValueModel, Rejection>(Rejection::ConflictingBorrow)
            &&& written.release(id) matches Ok(after) && after.read(name) == Ok::<
                ValueModel,
                Rejection,
            >(value)
        }),
{
    let id = s.borrows.len() as int;
    lemma_usable_in_bounds(s, name);
    let i = s.usable(name).unwrap();
    let t = s.borrow(name, true).unwrap();
    let written = t.write_through(id, value).unwrap();
    lemma_newest_below_by_names(written.bindings, s.bindings, name, s.bindings.len() as int);
    assert(written.borrows[id].live && written.borrows[id].owner == i);
    assert(written.exclusively_borrowed(i));
    let after = written.release(id).unwrap();
    lemma_newest_below_by_names(after.bindings, s.bindings, name, s.bindings.len() as int);
    assert(!after.exclusively_borrowed(i)) by {
        if after.exclusively_borrowed(i) {
            let b = choose|b: int|
                0 <= b < after.borrows.len() && (#[trigger] after.borrows[b]).live
                    && after.borrows[b].owner == i && after.borrows[b].mutable;
            assert(s.borrows[b].live && s.borrows[b].owner == i);
            assert(s.borrowed(i));
        }
    }
}

/// A scope in which nothing happens leaves no trace.
pub proof fn law_empty_scope_leaves_no_trace(s: State)
    requires
        s.wf(),
    ensures
        s.enter_scope().exit_scope() == Ok::<State, Rejection>(s),
{
    let t = s.enter_scope().exit_scope().unwrap();
    assert(t =~= s);
}

/// A binding does not outlive its scope: when the scope that declared it
/// ends, the binding is gone with the value it owns, and every name denotes
/// what it denoted before the scope was opened.
pub proof fn law_binding_ends_with_scope(
    s: State,
    name: Seq<char>,
    value: ValueModel,
    mutable: bool,
)
    requires
        s.wf(),
    ensures
        s.enter_scope().declare(name, value, mutable).exit_scope() == Ok::<State, Rejection>(s),
{
    let t = s.enter_scope().declare(name, value, mutable).exit_scope().unwrap();
    assert(t =~= s);
}

/// A value moved into a scope ends with that scope, and the binding it was
/// moved from stays moved-from: after the scope the state is as if the
/// value had been moved out of the environment, and using `from` is
/// rejected as a use after move.
pub proof fn law_moved_value_ends_with_scope(s: State, from: Seq<char>, to: Seq<char>)
    requires
        s.wf(),
        s.enter_scope().transfer(from, to) is Ok,
    ensures
        s.enter_scope().transfer(from, to).unwrap().exit_scope() matches Ok(t) && t == s.move_out(
            from,
        ).unwrap().0 && every_use_rejected(t, from, Rejection::UseAfterMove),
{
    let e = s.enter_scope();
    let m = e.transfer(from, to).unwrap();
    let t = m.exit_scope().unwrap();
    lemma_usable_in_bounds(e, from);
    let i = e.usable(from).unwrap();
    assert(e.borrowed(i) == s.borrowed(i));
    assert(t =~= s.move_out(from).unwrap().0);
    lemma_newest_below_by_names(t.bindings, s.bindings, from, s.bindings.len() as int);
    assert(t.usable(from) == Err::<int, Rejection>(Rejection::UseAfterMove));
}

/// A borrow does not outlive its scope: when the scope in which it was
/// taken ends, the borrow has ended, and the value is borrowed exactly as
/// it was before the scope was opened.
pub proof fn law_borrow_ends_with_scope(s: State, name: Seq<char>, mutable: bool)
    requires
        s.wf(),
        s.enter_scope().borrow(name, mutable) is Ok,
    ensures
        s.enter_scope().borrow(name, mutable).unwrap().exit_scope() matches Ok(t) && t.bindings
            == s.bindings && t.frames == s.frames && t.release(s.borrows.len() as int) is Err
            && forall|i: int|
            t.borrowed(i) == s.borrowed(i) && t.exclusively_borrowed(i) == s.exclusively_borrowed(
                i,
            ),
{
    let m = s.enter_scope().borrow(name, mutable).unwrap();
    let t = m.exit_scope().unwrap();
    assert(t.bindings =~= s.bindings);
    assert(t.frames =~= s.frames);
    assert forall|i: int|
        t.borrowed(i) == s.borrowed(i) && t.exclusively_borrowed(i) == s.exclusively_borrowed(
            i,
        ) by {
        if t.borrowed(i) {
            let b = choose|b: int|
                0 <= b < t.borrows.len() && (#[trigger] t.borrows[b]).live && t.borrows[b].owner
                    == i;
            assert(s.borrows[b].live && s.borrows[b].owner == i);
        }
        if s.borrowed(i) {
            let b = choose|b: int|
                0 <= b < s.borrows.len() && (#[trigger] s.borrows[b]).live && s.borrows[b].owner
                    == i;
            assert(t.borrows[b].live && t.borrows[b].owner == i);
        }
        if t.exclusively_borrowed(i) {
            let b = choose|b: int|
                0 <= b < t.borrows.len() && (#[trigger] t.borrows[b]).live && t.borrows[b].owner
                    == i && t.borrows[b].mutable;
            assert(s.borrows[b].live && s.borrows[b].owner == i && s.borrows[b].mutable);
        }
        if s.exclusively_borrowed(i) {
            let b = choose|b: int|
                0 <= b < s.borrows.len() && (#[trigger] s.borrows[b]).live && s.borrows[b].owner
                    == i && s.borrows[b].mutable;
            assert(t.borrows[b].live && t.borrows[b].owner == i && t.borrows[b].mutable);
        }
    }
}

/// A name denotes the newest binding in scope that bears it: no later
/// binding bears the name, and a name that denotes nothing is borne by no
/// binding in scope.
pub proof fn law_name_denotes_newest(s: State, name: Seq<char>)
    ensures
        match s.resolve(name) {
            Some(i) => {
                &&& 0 <= i < s.bindings.len()
                &&& s.bindings[i].name == name
                &&& forall|j: int| i < j < s.bindings.len() ==> s.bindings[j].name != name
            },
            None => forall|j: int| 0 <= j < s.bindings.len() ==> s.bindings[j].name != name,
        },
{
    lemma_newest_below(s.bindings, name, s.bindings.len() as int);
}

} // verus!
