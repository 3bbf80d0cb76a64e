use binding_lifecycle::environment::Environment;
use binding_lifecycle::external_stuff::Stuff;
use binding_lifecycle::rejection::Rejection;
use binding_lifecycle::value::{Kind, Value};

fn text(s: &str) -> Value {
    Value::Text(s.to_string())
}

#[test]
fn transfer_invalidates_source_and_target_reads_value() {
    let mut env = Environment::new();
    env.declare("s1", text("abc"), false);
    assert_eq!(env.transfer("s1", "s2"), Ok(()));
    assert_eq!(env.read("s1"), Err(Rejection::UseAfterMove));
    assert_eq!(env.read("s2"), Ok(&text("abc")));
}

#[test]
fn mutable_binding_takes_new_value() {
    let mut env = Environment::new();
    env.declare("m", Value::Number(42), true);
    assert_eq!(env.mutate("m", Value::Number(2001)), Ok(()));
    assert_eq!(env.read("m"), Ok(&Value::Number(2001)));
}

#[test]
fn two_shared_borrows_then_mutable_borrow_rejected_while_either_lives() {
    let mut env = Environment::new();
    env.declare("m", Value::Number(42), true);
    let first = env.borrow("m", false).unwrap();
    let second = env.borrow("m", false).unwrap();
    assert_ne!(first, second);
    assert_eq!(env.borrow("m", true), Err(Rejection::ConflictingBorrow));
    assert_eq!(env.release(first), Ok(()));
    assert_eq!(env.borrow("m", true), Err(Rejection::ConflictingBorrow));
    assert_eq!(env.release(second), Ok(()));
    assert!(env.borrow("m", true).is_ok());
}

#[test]
fn every_use_of_a_moved_binding_is_rejected() {
    let mut env = Environment::new();
    env.declare("a", text("Holden Caulfield"), true);
    assert_eq!(env.transfer("a", "b"), Ok(()));
    assert_eq!(env.read("a"), Err(Rejection::UseAfterMove));
    assert_eq!(env.mutate("a", text("x")), Err(Rejection::UseAfterMove));
    assert_eq!(env.borrow("a", false), Err(Rejection::UseAfterMove));
    assert_eq!(env.borrow("a", true), Err(Rejection::UseAfterMove));
    assert_eq!(env.transfer("a", "c"), Err(Rejection::UseAfterMove));
    assert_eq!(env.move_out("a"), Err(Rejection::UseAfterMove));
    assert_eq!(env.drop("a"), Err(Rejection::UseAfterMove));
    assert_eq!(env.read("b"), Ok(&text("Holden Caulfield")));
    assert_eq!(env.read("c"), Err(Rejection::Undeclared));
    assert!(env.borrow("b", false).is_ok());
}

#[test]
fn transfer_can_be_chained() {
    let mut env = Environment::new();
    env.declare("catcher_in_the_string", text("Holden Caulfield"), false);
    assert_eq!(env.transfer("catcher_in_the_string", "catcher_in_the_heap"), Ok(()));
    assert_eq!(
        env.transfer("catcher_in_the_string", "attempted_move"),
        Err(Rejection::UseAfterMove)
    );
    assert_eq!(env.transfer("catcher_in_the_heap", "successful_move"), Ok(()));
    assert_eq!(env.read("catcher_in_the_heap"), Err(Rejection::UseAfterMove));
    assert_eq!(env.read("successful_move"), Ok(&text("Holden Caulfield")));
}

#[test]
fn transfer_onto_the_same_name_shadows_the_source() {
    let mut env = Environment::new();
    env.declare("a", Value::Number(7), true);
    assert_eq!(env.transfer("a", "a"), Ok(()));
    assert_eq!(env.read("a"), Ok(&Value::Number(7)));
    assert_eq!(env.mutate("a", Value::Number(8)), Err(Rejection::ImmutableBinding));
}

#[test]
fn transferred_binding_is_immutable() {
    let mut env = Environment::new();
    env.declare("m", Value::Number(1), true);
    assert_eq!(env.transfer("m", "n"), Ok(()));
    assert_eq!(env.mutate("n", Value::Number(2)), Err(Rejection::ImmutableBinding));
    assert_eq!(env.borrow("n", true), Err(Rejection::ImmutableBinding));
    assert_eq!(env.read("n"), Ok(&Value::Number(1)));
}

#[test]
fn mutable_borrow_excludes_every_other_borrow() {
    let mut env = Environment::new();
    env.declare("jeremiah", text("was a bullfrog."), true);
    let exclusive = env.borrow("jeremiah", true).unwrap();
    assert_eq!(env.borrow("jeremiah", true), Err(Rejection::ConflictingBorrow));
    assert_eq!(env.borrow("jeremiah", false), Err(Rejection::ConflictingBorrow));
    assert_eq!(env.read("jeremiah"), Err(Rejection::ConflictingBorrow));
    assert_eq!(env.mutate("jeremiah", text("x")), Err(Rejection::ConflictingBorrow));
    assert_eq!(env.transfer("jeremiah", "other"), Err(Rejection::ConflictingBorrow));
    assert_eq!(env.move_out("jeremiah"), Err(Rejection::ConflictingBorrow));
    assert_eq!(env.drop("jeremiah"), Err(Rejection::ConflictingBorrow));
    assert_eq!(env.release(exclusive), Ok(()));
    assert_eq!(env.read("jeremiah"), Ok(&text("was a bullfrog.")));
    assert!(env.borrow("jeremiah", true).is_ok());
}

#[test]
fn many_shared_borrows_are_live_at_once() {
    let mut env = Environment::new();
    env.declare("respect", text("Find out what it means to me."), false);
    let mut handles = Vec::new();
    for _ in 0..1000 {
        handles.push(env.borrow("respect", false).unwrap());
    }
    for (position, handle) in handles.iter().enumerate() {
        assert_eq!(*handle, position);
    }
    assert_eq!(env.read("respect"), Ok(&text("Find out what it means to me.")));
    assert_eq!(env.transfer("respect", "other"), Err(Rejection::ConflictingBorrow));
    for handle in handles {
        assert_eq!(env.release(handle), Ok(()));
    }
    assert_eq!(env.transfer("respect", "other"), Ok(()));
}

#[test]
fn shared_borrow_blocks_mutation_and_moves_but_not_reads() {
    let mut env = Environment::new();
    env.declare("viktor", Value::Number(42), true);
    let index_1 = env.borrow("viktor", false).unwrap();
    assert_eq!(env.read("viktor"), Ok(&Value::Number(42)));
    assert_eq!(env.mutate("viktor", Value::Number(1999)), Err(Rejection::ConflictingBorrow));
    assert_eq!(env.transfer("viktor", "v"), Err(Rejection::ConflictingBorrow));
    assert_eq!(env.move_out("viktor"), Err(Rejection::ConflictingBorrow));
    assert_eq!(env.drop("viktor"), Err(Rejection::ConflictingBorrow));
    assert_eq!(env.read("viktor"), Ok(&Value::Number(42)));
    assert_eq!(env.release(index_1), Ok(()));
    assert_eq!(env.mutate("viktor", Value::Number(1999)), Ok(()));
    assert_eq!(env.read("viktor"), Ok(&Value::Number(1999)));
}

#[test]
fn immutable_binding_rejects_mutation_and_mutable_borrow() {
    let mut env = Environment::new();
    env.declare("immutable_value", Value::Number(42), false);
    assert_eq!(env.mutate("immutable_value", Value::Number(2001)), Err(Rejection::ImmutableBinding));
    assert_eq!(env.borrow("immutable_value", true), Err(Rejection::ImmutableBinding));
    assert_eq!(env.read("immutable_value"), Ok(&Value::Number(42)));
    assert!(env.borrow("immutable_value", false).is_ok());
}

#[test]
fn mutation_keeps_the_shape_of_the_value() {
    let mut env = Environment::new();
    env.declare("m", Value::Number(42), true);
    assert_eq!(env.mutate("m", text("forty-two")), Err(Rejection::TypeMismatch));
    assert_eq!(
        env.mutate("m", Value::Record(Stuff { x: 42, y: 2001 })),
        Err(Rejection::TypeMismatch)
    );
    assert_eq!(env.read("m"), Ok(&Value::Number(42)));
    env.declare("s", text("coffee"), true);
    assert_eq!(env.mutate("s", Value::Number(1)), Err(Rejection::TypeMismatch));
    assert_eq!(env.mutate("s", text("coffees")), Ok(()));
    assert_eq!(env.read("s"), Ok(&text("coffees")));
    env.declare("r", Value::Record(Stuff { x: 1, y: 2 }), true);
    assert_eq!(env.mutate("r", Value::Record(Stuff { x: 3, y: 4 })), Ok(()));
    assert_eq!(env.read("r"), Ok(&Value::Record(Stuff { x: 3, y: 4 })));
}

#[test]
fn immutability_is_reported_before_shape_and_borrows() {
    let mut env = Environment::new();
    env.declare("fixed", Value::Number(1), false);
    let _shared = env.borrow("fixed", false).unwrap();
    assert_eq!(env.mutate("fixed", text("x")), Err(Rejection::ImmutableBinding));
    env.declare("loose", Value::Number(1), true);
    let _shared = env.borrow("loose", false).unwrap();
    assert_eq!(env.mutate("loose", text("x")), Err(Rejection::TypeMismatch));
    assert_eq!(env.mutate("loose", Value::Number(2)), Err(Rejection::ConflictingBorrow));
}

#[test]
fn undeclared_name_is_rejected_everywhere() {
    let mut env = Environment::new();
    assert_eq!(env.read("ghost"), Err(Rejection::Undeclared));
    assert_eq!(env.mutate("ghost", Value::Number(1)), Err(Rejection::Undeclared));
    assert_eq!(env.transfer("ghost", "other"), Err(Rejection::Undeclared));
    assert_eq!(env.move_out("ghost"), Err(Rejection::Undeclared));
    assert_eq!(env.borrow("ghost", false), Err(Rejection::Undeclared));
    assert_eq!(env.borrow("ghost", true), Err(Rejection::Undeclared));
    assert_eq!(env.drop("ghost"), Err(Rejection::Undeclared));
    assert_eq!(env.read("other"), Err(Rejection::Undeclared));
}

#[test]
fn names_are_compared_in_full() {
    let mut env = Environment::new();
    env.declare("s1", Value::Number(1), false);
    env.declare("s", Value::Number(2), false);
    env.declare("", Value::Number(3), false);
    assert_eq!(env.read("s1"), Ok(&Value::Number(1)));
    assert_eq!(env.read("s"), Ok(&Value::Number(2)));
    assert_eq!(env.read(""), Ok(&Value::Number(3)));
    assert_eq!(env.read("s12"), Err(Rejection::Undeclared));
    assert_eq!(env.read("S1"), Err(Rejection::Undeclared));
}

#[test]
fn drop_releases_the_value() {
    let mut env = Environment::new();
    env.declare("money", text("Gimme money!"), false);
    assert_eq!(env.drop("money"), Ok(()));
    assert_eq!(env.read("money"), Err(Rejection::UseAfterDrop));
    assert_eq!(env.drop("money"), Err(Rejection::UseAfterDrop));
    assert_eq!(env.transfer("money", "new_owner"), Err(Rejection::UseAfterDrop));
    assert_eq!(env.move_out("money"), Err(Rejection::UseAfterDrop));
    assert_eq!(env.borrow("money", false), Err(Rejection::UseAfterDrop));
    assert_eq!(env.mutate("money", text("x")), Err(Rejection::UseAfterDrop));
}

#[test]
fn move_out_hands_the_value_to_the_caller() {
    let mut env = Environment::new();
    env.declare("external_value", text("nee"), false);
    assert_eq!(env.move_out("external_value"), Ok(text("nee")));
    assert_eq!(env.read("external_value"), Err(Rejection::UseAfterMove));
    assert_eq!(env.move_out("external_value"), Err(Rejection::UseAfterMove));
}

#[test]
fn declaring_again_shadows_the_older_binding() {
    let mut env = Environment::new();
    env.declare("immutable_value", Value::Number(42), false);
    env.declare("immutable_value", Value::Number(42), false);
    env.declare("immutable_value", Value::Number(2001), true);
    assert_eq!(env.read("immutable_value"), Ok(&Value::Number(2001)));
    assert_eq!(env.mutate("immutable_value", Value::Number(7)), Ok(()));
    assert_eq!(env.move_out("immutable_value"), Ok(Value::Number(7)));
    assert_eq!(env.read("immutable_value"), Err(Rejection::UseAfterMove));
}

#[test]
fn shadowing_may_change_the_shape() {
    let mut env = Environment::new();
    env.declare("x", Value::Number(42), false);
    env.declare("x", text("Dinner for one"), false);
    assert_eq!(env.read("x"), Ok(&text("Dinner for one")));
    assert_eq!(env.read("x").unwrap().kind(), Kind::Text);
}

#[test]
fn scope_end_takes_bindings_out_of_scope() {
    let mut env = Environment::new();
    assert_eq!(env.depth(), 0);
    env.enter_scope();
    assert_eq!(env.depth(), 1);
    env.declare("scoped_value", Value::Number(2001), false);
    assert_eq!(env.read("scoped_value"), Ok(&Value::Number(2001)));
    assert_eq!(env.exit_scope(), Ok(()));
    assert_eq!(env.depth(), 0);
    assert_eq!(env.read("scoped_value"), Err(Rejection::Undeclared));
}

#[test]
fn scope_end_uncovers_a_shadowed_binding() {
    let mut env = Environment::new();
    env.declare("val1", text("best of times"), false);
    env.enter_scope();
    env.declare("val1", text("worst of times"), false);
    assert_eq!(env.read("val1"), Ok(&text("worst of times")));
    assert_eq!(env.exit_scope(), Ok(()));
    assert_eq!(env.read("val1"), Ok(&text("best of times")));
}

#[test]
fn value_moved_into_a_scope_ends_with_it() {
    let mut env = Environment::new();
    env.declare("thats_what_i_want", text("Gimme money!"), false);
    env.enter_scope();
    assert_eq!(env.transfer("thats_what_i_want", "new_owner"), Ok(()));
    assert_eq!(env.read("new_owner"), Ok(&text("Gimme money!")));
    assert_eq!(env.exit_scope(), Ok(()));
    assert_eq!(env.read("new_owner"), Err(Rejection::Undeclared));
    assert_eq!(env.read("thats_what_i_want"), Err(Rejection::UseAfterMove));
    assert_eq!(env.transfer("thats_what_i_want", "money"), Err(Rejection::UseAfterMove));
}

#[test]
fn scope_end_ends_the_borrows_taken_in_it() {
    let mut env = Environment::new();
    env.declare("jeremiah", text("was a bullfrog."), true);
    env.enter_scope();
    let new_owner = env.borrow("jeremiah", true).unwrap();
    assert_eq!(env.borrow("jeremiah", true), Err(Rejection::ConflictingBorrow));
    assert_eq!(env.exit_scope(), Ok(()));
    assert_eq!(env.release(new_owner), Err(Rejection::UnknownBorrow));
    let again = env.borrow("jeremiah", true).unwrap();
    assert_ne!(again, new_owner);
    assert_eq!(env.release(again), Ok(()));
}

#[test]
fn scope_end_keeps_the_borrows_taken_outside_it() {
    let mut env = Environment::new();
    env.declare("respect", text("Find out what it means to me."), true);
    let outer = env.borrow("respect", false).unwrap();
    env.enter_scope();
    let inner = env.borrow("respect", false).unwrap();
    assert_eq!(env.exit_scope(), Ok(()));
    assert_eq!(env.release(inner), Err(Rejection::UnknownBorrow));
    assert_eq!(env.borrow("respect", true), Err(Rejection::ConflictingBorrow));
    assert_eq!(env.release(outer), Ok(()));
    assert!(env.borrow("respect", true).is_ok());
}

#[test]
fn borrow_released_inside_a_scope_stays_released() {
    let mut env = Environment::new();
    env.declare("m", Value::Number(1), true);
    let outer = env.borrow("m", false).unwrap();
    env.enter_scope();
    assert_eq!(env.release(outer), Ok(()));
    assert_eq!(env.exit_scope(), Ok(()));
    assert_eq!(env.release(outer), Err(Rejection::UnknownBorrow));
    assert_eq!(env.mutate("m", Value::Number(2)), Ok(()));
}

#[test]
fn scopes_nest() {
    let mut env = Environment::new();
    env.declare("a", Value::Number(1), false);
    env.enter_scope();
    env.declare("b", Value::Number(2), false);
    env.enter_scope();
    env.declare("c", Value::Number(3), false);
    assert_eq!(env.depth(), 2);
    assert_eq!(env.read("a"), Ok(&Value::Number(1)));
    assert_eq!(env.read("b"), Ok(&Value::Number(2)));
    assert_eq!(env.read("c"), Ok(&Value::Number(3)));
    assert_eq!(env.exit_scope(), Ok(()));
    assert_eq!(env.read("c"), Err(Rejection::Undeclared));
    assert_eq!(env.read("b"), Ok(&Value::Number(2)));
    assert_eq!(env.exit_scope(), Ok(()));
    assert_eq!(env.read("b"), Err(Rejection::Undeclared));
    assert_eq!(env.read("a"), Ok(&Value::Number(1)));
    assert_eq!(env.depth(), 0);
}

#[test]
fn outermost_scope_cannot_be_closed() {
    let mut env = Environment::new();
    env.declare("a", Value::Number(1), false);
    assert_eq!(env.exit_scope(), Err(Rejection::NoOpenScope));
    assert_eq!(env.read("a"), Ok(&Value::Number(1)));
    env.enter_scope();
    assert_eq!(env.exit_scope(), Ok(()));
    assert_eq!(env.exit_scope(), Err(Rejection::NoOpenScope));
}

#[test]
fn release_rejects_what_is_not_a_live_borrow() {
    let mut env = Environment::new();
    assert_eq!(env.release(0), Err(Rejection::UnknownBorrow));
    env.declare("m", Value::Number(1), false);
    let handle = env.borrow("m", false).unwrap();
    assert_eq!(handle, 0);
    assert_eq!(env.release(1), Err(Rejection::UnknownBorrow));
    assert_eq!(env.release(usize::MAX), Err(Rejection::UnknownBorrow));
    assert_eq!(env.release(handle), Ok(()));
    assert_eq!(env.release(handle), Err(Rejection::UnknownBorrow));
}

#[test]
fn handles_are_never_given_twice() {
    let mut env = Environment::new();
    env.declare("m", Value::Number(1), true);
    let first = env.borrow("m", true).unwrap();
    assert_eq!(env.release(first), Ok(()));
    let second = env.borrow("m", true).unwrap();
    assert_eq!(first, 0);
    assert_eq!(second, 1);
    assert_eq!(env.release(first), Err(Rejection::UnknownBorrow));
    assert_eq!(env.borrow("m", false), Err(Rejection::ConflictingBorrow));
}

#[test]
fn borrows_of_a_shadowed_binding_do_not_touch_the_newer_one() {
    let mut env = Environment::new();
    env.declare("x", Value::Number(1), true);
    let old = env.borrow("x", true).unwrap();
    env.declare("x", Value::Number(2), true);
    assert_eq!(env.read("x"), Ok(&Value::Number(2)));
    assert_eq!(env.mutate("x", Value::Number(3)), Ok(()));
    assert!(env.borrow("x", true).is_ok());
    assert_eq!(env.release(old), Ok(()));
}

#[test]
fn rejected_operation_changes_nothing() {
    let mut env = Environment::new();
    env.declare("a", text("abc"), false);
    let shared = env.borrow("a", false).unwrap();
    assert_eq!(env.transfer("a", "b"), Err(Rejection::ConflictingBorrow));
    assert_eq!(env.read("b"), Err(Rejection::Undeclared));
    assert_eq!(env.read("a"), Ok(&text("abc")));
    assert_eq!(env.release(shared), Ok(()));
    assert_eq!(env.transfer("a", "b"), Ok(()));
    assert_eq!(env.read("b"), Ok(&text("abc")));
}

#[test]
fn value_reports_its_shape() {
    assert_eq!(Value::Number(42).kind(), Kind::Number);
    assert_eq!(text("Hello world!").kind(), Kind::Text);
    assert_eq!(Value::Record(Stuff { x: 42, y: 2001 }).kind(), Kind::Record);
}

#[test]
fn value_clone_is_equal_and_apart() {
    let first = text("cookies");
    let copy = first.clone();
    assert_eq!(copy, first);
    let mut env = Environment::new();
    env.declare("food", first, false);
    assert_eq!(env.move_out("food"), Ok(copy.clone()));
    assert_eq!(copy, text("cookies"));
    assert_eq!(Value::Number(-7).clone(), Value::Number(-7));
    assert_eq!(
        Value::Record(Stuff { x: 1, y: 2 }).clone(),
        Value::Record(Stuff { x: 1, y: 2 })
    );
}

#[test]
fn borrow_reads_the_value_of_its_owner() {
    let mut env = Environment::new();
    env.declare("respect", text("Find out what it means to me."), false);
    let new_owner = env.borrow("respect", false).unwrap();
    let another_new_owner = env.borrow("respect", false).unwrap();
    assert_eq!(env.read_through(new_owner), Ok(&text("Find out what it means to me.")));
    assert_eq!(env.read_through(another_new_owner), Ok(&text("Find out what it means to me.")));
    assert_eq!(env.release(new_owner), Ok(()));
    assert_eq!(env.read_through(new_owner), Err(Rejection::UnknownBorrow));
    assert_eq!(env.read_through(another_new_owner), Ok(&text("Find out what it means to me.")));
    assert_eq!(env.read_through(2), Err(Rejection::UnknownBorrow));
}

#[test]
fn write_through_a_mutable_borrow_reaches_the_owner() {
    let mut env = Environment::new();
    env.declare("drink", text("coffee"), true);
    let closure_drink = env.borrow("drink", true).unwrap();
    assert_eq!(env.write_through(closure_drink, text("coffees")), Ok(()));
    assert_eq!(env.read_through(closure_drink), Ok(&text("coffees")));
    assert_eq!(env.read("drink"), Err(Rejection::ConflictingBorrow));
    assert_eq!(env.release(closure_drink), Ok(()));
    assert_eq!(env.read("drink"), Ok(&text("coffees")));
    assert_eq!(env.write_through(closure_drink, text("tea")), Err(Rejection::UnknownBorrow));
    assert_eq!(env.read("drink"), Ok(&text("coffees")));
}

#[test]
fn write_through_is_rejected_for_shared_borrows_and_other_shapes() {
    let mut env = Environment::new();
    env.declare("m", Value::Number(42), true);
    let shared = env.borrow("m", false).unwrap();
    assert_eq!(env.write_through(shared, Value::Number(1)), Err(Rejection::SharedBorrow));
    assert_eq!(env.write_through(shared, text("x")), Err(Rejection::SharedBorrow));
    assert_eq!(env.release(shared), Ok(()));
    let exclusive = env.borrow("m", true).unwrap();
    assert_eq!(env.write_through(exclusive, text("x")), Err(Rejection::TypeMismatch));
    assert_eq!(env.read_through(exclusive), Ok(&Value::Number(42)));
    assert_eq!(env.write_through(exclusive, Value::Number(2001)), Ok(()));
    assert_eq!(env.read_through(exclusive), Ok(&Value::Number(2001)));
    assert_eq!(env.write_through(7, Value::Number(1)), Err(Rejection::UnknownBorrow));
}

#[test]
fn borrow_follows_its_owner_not_the_name() {
    let mut env = Environment::new();
    env.declare("x", Value::Number(1), true);
    let old = env.borrow("x", true).unwrap();
    env.declare("x", Value::Number(2), false);
    assert_eq!(env.write_through(old, Value::Number(10)), Ok(()));
    assert_eq!(env.read_through(old), Ok(&Value::Number(10)));
    assert_eq!(env.read("x"), Ok(&Value::Number(2)));
}

#[test]
fn default_environment_is_empty() {
    let mut env = Environment::default();
    assert_eq!(env.depth(), 0);
    assert_eq!(env.read("anything"), Err(Rejection::Undeclared));
    assert_eq!(env.release(0), Err(Rejection::UnknownBorrow));
    assert_eq!(env.exit_scope(), Err(Rejection::NoOpenScope));
    assert_eq!(env.borrow("anything", false), Err(Rejection::Undeclared));
}

#[test]
fn transfer_keeps_the_number_of_owned_values() {
    let mut env = Environment::new();
    assert_eq!(env.owned_values(), 0);
    env.declare("a", text("abc"), false);
    env.declare("m", Value::Number(42), true);
    assert_eq!(env.owned_values(), 2);
    assert_eq!(env.transfer("a", "b"), Ok(()));
    assert_eq!(env.owned_values(), 2);
    assert_eq!(env.mutate("m", Value::Number(2001)), Ok(()));
    let shared = env.borrow("m", false).unwrap();
    assert_eq!(env.owned_values(), 2);
    assert_eq!(env.release(shared), Ok(()));
    assert_eq!(env.owned_values(), 2);
    assert_eq!(env.move_out("b"), Ok(text("abc")));
    assert_eq!(env.owned_values(), 1);
    assert_eq!(env.drop("m"), Ok(()));
    assert_eq!(env.owned_values(), 0);
    assert_eq!(env.transfer("a", "c"), Err(Rejection::UseAfterMove));
    assert_eq!(env.owned_values(), 0);
}

#[test]
fn scope_end_releases_the_values_owned_in_it() {
    let mut env = Environment::new();
    env.declare("outer", Value::Number(1), false);
    env.declare("travels", Value::Number(2), false);
    env.enter_scope();
    assert_eq!(env.owned_values(), 2);
    env.declare("inner", Value::Number(3), false);
    assert_eq!(env.transfer("travels", "arrived"), Ok(()));
    assert_eq!(env.owned_values(), 3);
    assert_eq!(env.exit_scope(), Ok(()));
    assert_eq!(env.owned_values(), 1);
    assert_eq!(env.read("outer"), Ok(&Value::Number(1)));
}

#[test]
fn names_and_texts_may_hold_any_character() {
    let mut env = Environment::new();
    env.declare("kannada_char", text("ಠ"), true);
    env.declare("ಠ", text("z"), false);
    assert_eq!(env.read("kannada_char"), Ok(&text("\u{0ca0}")));
    assert_eq!(env.read("\u{0ca0}"), Ok(&text("\u{007a}")));
    assert_eq!(env.mutate("kannada_char", text("ಠಠ")), Ok(()));
    assert_eq!(env.read("kannada_char"), Ok(&text("ಠಠ")));
}
