use sparse_set::SparseSet;

// empty sparse set => created => no items
#[test]
fn empty_sparse_set_created_no_items() {
    let sparse_set: SparseSet<i32> = SparseSet::new();

    assert_eq!(sparse_set.len(), 0);
    for _ in sparse_set.values().iter() {
        assert!(false);
    }
}

// empty sparse set => created with capacity => no items
#[test]
fn empty_sparse_set_created_with_capacity_no_items() {
    let sparse_set: SparseSet<i32> = SparseSet::with_capacity(10);

    assert_eq!(sparse_set.len(), 0);
    for _ in sparse_set.values().iter() {
        assert!(false);
    }
}

// empty sparse set => push item => has one item
#[test]
fn empty_sparse_set_push_item_has_one_item() {
    let mut sparse_set: SparseSet<i32> = SparseSet::new();

    let key = sparse_set.push(42);

    assert_eq!(sparse_set.len(), 1);
    assert_eq!(sparse_set.get_key(0), Some(key));
    assert_eq!(sparse_set.get(key), Some(&42));
}

// empty sparse set with capacity => push item => has one item
#[test]
fn empty_sparse_set_with_capacity_push_item_has_one_item() {
    let mut sparse_set: SparseSet<i32> = SparseSet::with_capacity(10);

    let key = sparse_set.push(42);

    assert_eq!(sparse_set.len(), 1);
    assert_eq!(sparse_set.get_key(0), Some(key));
    assert_eq!(sparse_set.get(key), Some(&42));
}

// sparse set with three items => get key => the expected key is returned
#[test]
fn sparse_set_with_three_items_get_key_the_expected_key_is_returned() {
    let mut sparse_set: SparseSet<i32> = SparseSet::new();
    let key1 = sparse_set.push(42);
    let key2 = sparse_set.push(43);
    let key3 = sparse_set.push(44);

    assert_eq!(sparse_set.get_key(0), Some(key1));
    assert_eq!(sparse_set.get_key(1), Some(key2));
    assert_eq!(sparse_set.get_key(2), Some(key3));
}

// sparse set with three items => get key out of bounds => returns none
#[test]
fn sparse_set_with_three_items_get_key_out_of_bounds_returns_none() {
    let mut sparse_set: SparseSet<i32> = SparseSet::new();
    sparse_set.push(42);
    sparse_set.push(43);
    sparse_set.push(44);

    assert_eq!(sparse_set.get_key(3), None);
    assert_eq!(sparse_set.get_key(4), None);
}

// sparse set with three items => remove and add item and get key => the expected key is returned
#[test]
fn sparse_set_with_three_items_remove_and_add_item_and_get_key_the_expected_key_is_returned() {
    let mut sparse_set: SparseSet<i32> = SparseSet::new();
    let key1 = sparse_set.push(42);
    let key2 = sparse_set.push(43);
    let key3 = sparse_set.push(44);

    sparse_set.remove(key1);
    let key4 = sparse_set.push(45);

    assert_eq!(sparse_set.get_key(0), Some(key2));
    assert_eq!(sparse_set.get_key(1), Some(key3));
    assert_eq!(sparse_set.get_key(2), Some(key4));
}

// sparse set with one item => mutate the item => the item is changed
#[test]
fn sparse_set_with_one_item_mutate_the_item_the_item_is_changed() {
    let mut sparse_set: SparseSet<i32> = SparseSet::new();
    let key = sparse_set.push(42);

    *sparse_set.get_mut(key).unwrap() = 43;

    assert_eq!(sparse_set.len(), 1);
    assert_eq!(sparse_set.get(key), Some(&43));
}

// sparse set with one item => remove item => no items
#[test]
fn sparse_set_with_one_item_remove_item_no_items() {
    let mut sparse_set: SparseSet<i32> = SparseSet::new();
    let key = sparse_set.push(42);

    sparse_set.remove(key);

    assert_eq!(sparse_set.len(), 0);
    assert_eq!(sparse_set.get_key(0), None);
    assert_eq!(sparse_set.get(key), None);
}

// sparse set with one item => swap_remove item => no items
#[test]
fn swap_sparse_set_with_one_item_remove_item_no_items() {
    let mut sparse_set: SparseSet<i32> = SparseSet::new();
    let key = sparse_set.push(42);

    sparse_set.swap_remove(key);

    assert_eq!(sparse_set.len(), 0);
    assert_eq!(sparse_set.get_key(0), None);
    assert_eq!(sparse_set.get(key), None);
}

// sparse set with one item => add second item and remove first item => only second item remains
#[test]
fn sparse_set_with_one_item_add_second_item_and_remove_first_item_only_second_item_remains() {
    let mut sparse_set: SparseSet<i32> = SparseSet::new();
    let key1 = sparse_set.push(42);
    let key2 = sparse_set.push(43);

    sparse_set.remove(key1);

    assert_eq!(sparse_set.len(), 1);
    assert_eq!(sparse_set.get_key(0), Some(key2));
    assert_eq!(sparse_set.get_key(1), None);
    assert_eq!(sparse_set.get(key1), None);
    assert_eq!(sparse_set.get(key2), Some(&43));
}

// sparse set with one item => remove item and add two new items => has two items
#[test]
fn sparse_set_with_one_item_remove_item_and_add_two_new_items_has_two_items() {
    let mut sparse_set: SparseSet<i32> = SparseSet::new();
    let key1 = sparse_set.push(42);

    sparse_set.remove(key1);
    let key2 = sparse_set.push(43);
    let key3 = sparse_set.push(44);

    assert_eq!(sparse_set.len(), 2);
    assert_eq!(sparse_set.get_key(0), Some(key2));
    assert_eq!(sparse_set.get_key(1), Some(key3));
    assert_eq!(sparse_set.get_key(2), None);
    assert_eq!(sparse_set.get(key1), None);
    assert_eq!(sparse_set.get(key2), Some(&43));
    assert_eq!(sparse_set.get(key3), Some(&44));
}

// sparse set with two items => remove first item => has one item
#[test]
fn sparse_set_with_two_items_remove_first_item_has_one_item() {
    let mut sparse_set: SparseSet<i32> = SparseSet::new();
    let key1 = sparse_set.push(42);
    let key2 = sparse_set.push(43);

    sparse_set.remove(key1);

    assert_eq!(sparse_set.len(), 1);
    assert_eq!(sparse_set.get_key(0), Some(key2));
    assert_eq!(sparse_set.get_key(1), None);
    assert_eq!(sparse_set.get(key1), None);
    assert_eq!(sparse_set.get(key2), Some(&43));
}

// sparse set with two items => swap_remove first item => has one item
#[test]
fn swap_sparse_set_with_two_items_remove_first_item_has_one_item() {
    let mut sparse_set: SparseSet<i32> = SparseSet::new();
    let key1 = sparse_set.push(42);
    let key2 = sparse_set.push(43);

    sparse_set.swap_remove(key1);

    assert_eq!(sparse_set.len(), 1);
    assert_eq!(sparse_set.get_key(0), Some(key2));
    assert_eq!(sparse_set.get_key(1), None);
    assert_eq!(sparse_set.get(key1), None);
    assert_eq!(sparse_set.get(key2), Some(&43));
}

// sparse set with two items => remove second item => has one item
#[test]
fn sparse_set_with_two_items_remove_second_item_has_one_item() {
    let mut sparse_set: SparseSet<i32> = SparseSet::new();
    let key1 = sparse_set.push(42);
    let key2 = sparse_set.push(43);

    sparse_set.remove(key2);

    assert_eq!(sparse_set.len(), 1);
    assert_eq!(sparse_set.get_key(0), Some(key1));
    assert_eq!(sparse_set.get_key(1), None);
    assert_eq!(sparse_set.get(key1), Some(&42));
    assert_eq!(sparse_set.get(key2), None);
}

// sparse set with two items => swap_remove second item => has one item
#[test]
fn swap_sparse_set_with_two_items_remove_second_item_has_one_item() {
    let mut sparse_set: SparseSet<i32> = SparseSet::new();
    let key1 = sparse_set.push(42);
    let key2 = sparse_set.push(43);

    sparse_set.swap_remove(key2);

    assert_eq!(sparse_set.len(), 1);
    assert_eq!(sparse_set.get_key(0), Some(key1));
    assert_eq!(sparse_set.get_key(1), None);
    assert_eq!(sparse_set.get(key1), Some(&42));
    assert_eq!(sparse_set.get(key2), None);
}

// spare set with one item => remove an item and push new item => has one item
#[test]
fn sparse_set_with_one_item_remove_an_item_and_push_new_item_has_one_item() {
    let mut sparse_set: SparseSet<i32> = SparseSet::new();
    let key = sparse_set.push(42);
    sparse_set.remove(key);

    let new_key = sparse_set.push(43);

    assert_eq!(sparse_set.len(), 1);
    assert_eq!(sparse_set.get_key(0), Some(new_key));
    assert_eq!(sparse_set.get_key(1), None);
    assert_eq!(sparse_set.get(key), None);
    assert_eq!(sparse_set.get(new_key), Some(&43));
}

// sparse set with one item => swap_remove an item and push new item => has one item
#[test]
fn swap_sparse_set_with_one_item_remove_an_item_and_push_new_item_has_one_item() {
    let mut sparse_set: SparseSet<i32> = SparseSet::new();
    let key = sparse_set.push(42);
    sparse_set.swap_remove(key);

    let new_key = sparse_set.push(43);

    assert_eq!(sparse_set.len(), 1);
    assert_eq!(sparse_set.get_key(0), Some(new_key));
    assert_eq!(sparse_set.get_key(1), None);
    assert_eq!(sparse_set.get(key), None);
    assert_eq!(sparse_set.get(new_key), Some(&43));
}

// sparse set with five items => remove first item => order is not changed
#[test]
fn sparse_set_with_five_items_remove_first_item_order_is_not_changed() {
    let mut sparse_set: SparseSet<i32> = SparseSet::new();
    let key1 = sparse_set.push(42);
    let key2 = sparse_set.push(43);
    let key3 = sparse_set.push(44);
    let key4 = sparse_set.push(45);
    let key5 = sparse_set.push(46);

    sparse_set.remove(key1);

    assert_eq!(sparse_set.len(), 4);
    for (i, value) in sparse_set.values().iter().enumerate() {
        if i == 0 {
            assert_eq!(value, &43);
        } else if i == 1 {
            assert_eq!(value, &44);
        } else if i == 2 {
            assert_eq!(value, &45);
        } else {
            assert_eq!(value, &46);
        }
    }
    assert_eq!(sparse_set.get_key(0), Some(key2));
    assert_eq!(sparse_set.get_key(1), Some(key3));
    assert_eq!(sparse_set.get_key(2), Some(key4));
    assert_eq!(sparse_set.get_key(3), Some(key5));
    assert_eq!(sparse_set.get_key(4), None);
    assert_eq!(sparse_set.get(key1), None);
    assert_eq!(sparse_set.get(key2), Some(&43));
    assert_eq!(sparse_set.get(key3), Some(&44));
    assert_eq!(sparse_set.get(key4), Some(&45));
    assert_eq!(sparse_set.get(key5), Some(&46));
}

// sparse set with one item => remove item twice => no items
#[test]
fn sparse_set_with_one_item_remove_item_twice_no_items() {
    let mut sparse_set: SparseSet<i32> = SparseSet::new();
    let key = sparse_set.push(42);

    sparse_set.remove(key);
    sparse_set.remove(key);

    assert_eq!(sparse_set.len(), 0);
    assert_eq!(sparse_set.get_key(0), None);
    assert_eq!(sparse_set.get(key), None);
}

// sparse set with one item => remove item twice => no items
#[test]
fn sparse_set_with_one_item_swap_remove_item_twice_no_items() {
    let mut sparse_set: SparseSet<i32> = SparseSet::new();
    let key = sparse_set.push(42);

    sparse_set.swap_remove(key);
    sparse_set.swap_remove(key);

    assert_eq!(sparse_set.len(), 0);
    assert_eq!(sparse_set.get_key(0), None);
    assert_eq!(sparse_set.get(key), None);
}

// sparse set with no items => clear => no items
#[test]
fn sparse_set_with_no_items_clear_no_items() {
    let mut sparse_set: SparseSet<i32> = SparseSet::new();

    sparse_set.clear();

    assert_eq!(sparse_set.len(), 0);
}

// sparse set with three items => clear => no items
#[test]
fn sparse_set_with_one_item_clear_no_items() {
    let mut sparse_set: SparseSet<i32> = SparseSet::new();
    sparse_set.push(42);
    sparse_set.push(43);
    sparse_set.push(44);

    sparse_set.clear();

    assert_eq!(sparse_set.len(), 0);
}

// sparse set with three items => clear and add new items => old keys are invalid
#[test]
fn sparse_set_with_three_items_clear_and_add_new_items_old_keys_are_invalid() {
    let mut sparse_set: SparseSet<i32> = SparseSet::new();
    let key1 = sparse_set.push(42);
    let key2 = sparse_set.push(43);
    let key3 = sparse_set.push(44);

    sparse_set.clear();
    let key4 = sparse_set.push(45);
    let key5 = sparse_set.push(46);
    let key6 = sparse_set.push(47);

    assert_eq!(sparse_set.len(), 3);
    assert_eq!(sparse_set.contains(key1), false);
    assert_eq!(sparse_set.contains(key2), false);
    assert_eq!(sparse_set.contains(key3), false);
    assert_eq!(sparse_set.contains(key4), true);
    assert_eq!(sparse_set.contains(key5), true);
    assert_eq!(sparse_set.contains(key6), true);
}

// sparse set with three items => get index => the expected index is returned
#[test]
fn sparse_set_with_three_items_get_index_the_expected_index_is_returned() {
    let mut sparse_set: SparseSet<i32> = SparseSet::new();
    let key1 = sparse_set.push(42);
    let key2 = sparse_set.push(43);
    let key3 = sparse_set.push(44);

    assert_eq!(sparse_set.index(key1), Some(0));
    assert_eq!(sparse_set.index(key2), Some(1));
    assert_eq!(sparse_set.index(key3), Some(2));
}

// sparse set with two items => remove item and get its index => returns None
#[test]
fn sparse_set_with_two_items_remove_item_and_get_its_index_returns_none() {
    let mut sparse_set: SparseSet<i32> = SparseSet::new();
    let key1 = sparse_set.push(42);
    let key2 = sparse_set.push(43);

    sparse_set.remove(key1);

    assert_eq!(sparse_set.index(key1), None);
    assert_eq!(sparse_set.index(key2), Some(0));
}

// sparse set with three items => iterate over values => the values are iterated in order
#[test]
fn sparse_set_with_three_items_iterate_over_values_the_values_are_iterated_in_order() {
    let mut sparse_set: SparseSet<i32> = SparseSet::new();
    sparse_set.push(42);
    sparse_set.push(43);
    sparse_set.push(44);

    for (i, value) in sparse_set.values().iter().enumerate() {
        if i == 0 {
            assert_eq!(value, &42);
        } else if i == 1 {
            assert_eq!(value, &43);
        } else {
            assert_eq!(value, &44);
        }
    }
}

// sparse set with three items => iterate over keys => the keys are iterated in order
#[test]
fn sparse_set_with_three_items_iterate_over_keys_the_keys_are_iterated_in_order() {
    let mut sparse_set: SparseSet<i32> = SparseSet::new();
    sparse_set.push(42);
    sparse_set.push(43);
    sparse_set.push(44);

    for (i, key) in sparse_set.keys().iter().enumerate() {
        if i == 0 {
            assert_eq!(sparse_set.get(*key), Some(&42));
        } else if i == 1 {
            assert_eq!(sparse_set.get(*key), Some(&43));
        } else {
            assert_eq!(sparse_set.get(*key), Some(&44));
        }
    }
}

// sparse set with three items => iterate over key-values => the key-values are iterated in order
#[test]
fn sparse_set_with_three_items_iterate_over_key_values_the_key_values_are_iterated_in_order() {
    let mut sparse_set: SparseSet<i32> = SparseSet::new();
    let key1 = sparse_set.push(42);
    let key2 = sparse_set.push(43);
    let key3 = sparse_set.push(44);

    for (i, (key, value)) in sparse_set.key_values().iter().enumerate() {
        if i == 0 {
            assert_eq!(*value, &42);
            assert_eq!(*key, key1);
        } else if i == 1 {
            assert_eq!(*value, &43);
            assert_eq!(*key, key2);
        } else {
            assert_eq!(*value, &44);
            assert_eq!(*key, key3);
        }
    }
}

// sparse set with one item => iterate over values and mutate => the value is changed
#[test]
fn sparse_set_with_one_item_iterate_over_values_and_mutate_the_value_is_changed() {
    let mut sparse_set: SparseSet<i32> = SparseSet::new();
    let key = sparse_set.push(42);

    for value in sparse_set.values_mut().iter_mut() {
        *value = 43;
    }

    assert_eq!(sparse_set.len(), 1);
    assert_eq!(sparse_set.get(key), Some(&43));
}

// sparse set with two items => swap the items => the items are swapped in order but not by keys
#[test]
fn sparse_set_with_two_items_swap_the_items_the_items_are_swapped_in_order_but_not_by_keys() {
    let mut sparse_set: SparseSet<i32> = SparseSet::new();
    let key1 = sparse_set.push(42);
    let key2 = sparse_set.push(43);

    sparse_set.swap(key1, key2);

    assert_eq!(sparse_set.len(), 2);
    for (i, value) in sparse_set.values().iter().enumerate() {
        if i == 0 {
            assert_eq!(value, &43);
        } else {
            assert_eq!(value, &42);
        }
    }
    assert_eq!(sparse_set.get_key(0), Some(key2));
    assert_eq!(sparse_set.get_key(1), Some(key1));
    assert_eq!(sparse_set.get(key1), Some(&42));
    assert_eq!(sparse_set.get(key2), Some(&43));
}

// sparse set with one item => try swapping with itself => does nothing
#[test]
fn sparse_set_with_one_item_try_swapping_with_itself_does_nothing() {
    let mut sparse_set: SparseSet<i32> = SparseSet::new();
    let key = sparse_set.push(42);

    sparse_set.swap(key, key);

    assert_eq!(sparse_set.len(), 1);
    assert_eq!(sparse_set.get_key(0), Some(key));
    assert_eq!(sparse_set.get(key), Some(&42));
}

// sparse set with five items => clone the set => cloned set has the same items
#[test]
fn sparse_set_with_five_items_clone_the_set_cloned_set_has_the_same_items() {
    let mut sparse_set: SparseSet<i32> = SparseSet::new();
    let key1 = sparse_set.push(42);
    let key2 = sparse_set.push(43);
    let key3 = sparse_set.push(44);
    let key4 = sparse_set.push(45);
    let key5 = sparse_set.push(46);

    let cloned_sparse_set = sparse_set.clone();

    assert_eq!(cloned_sparse_set.len(), 5);
    assert_eq!(cloned_sparse_set.get_key(0), Some(key1));
    assert_eq!(cloned_sparse_set.get_key(1), Some(key2));
    assert_eq!(cloned_sparse_set.get_key(2), Some(key3));
    assert_eq!(cloned_sparse_set.get_key(3), Some(key4));
    assert_eq!(cloned_sparse_set.get_key(4), Some(key5));
    assert_eq!(cloned_sparse_set.get(key1), Some(&42));
    assert_eq!(cloned_sparse_set.get(key2), Some(&43));
    assert_eq!(cloned_sparse_set.get(key3), Some(&44));
    assert_eq!(cloned_sparse_set.get(key4), Some(&45));
    assert_eq!(cloned_sparse_set.get(key5), Some(&46));
}

// sparse set with one item => check if contains => returns true
#[test]
fn sparse_set_with_one_item_check_if_contains_returns_true() {
    let mut sparse_set: SparseSet<i32> = SparseSet::new();
    let key = sparse_set.push(42);

    assert!(sparse_set.contains(key));
}

// sparse set with one item => remove the item and check if contains => returns false
#[test]
fn sparse_set_with_one_item_remove_the_item_and_check_if_contains_returns_false() {
    let mut sparse_set: SparseSet<i32> = SparseSet::new();
    let key = sparse_set.push(42);

    sparse_set.swap_remove(key);

    assert!(!sparse_set.contains(key));
}

// sparse set with one item => rotate left => has that same item
#[test]
fn sparse_set_with_one_item_rotate_left_has_that_same_item() {
    let mut sparse_set: SparseSet<i32> = SparseSet::new();
    let key = sparse_set.push(42);

    sparse_set.rotate_left(0, 1, 1);

    assert_eq!(sparse_set.len(), 1);
    assert_eq!(sparse_set.get_key(0), Some(key));
    assert_eq!(sparse_set.get(key), Some(&42));
}

// sparse set with two items => rotate left once => items change position with stable keys
#[test]
fn sparse_set_with_two_items_rotate_left_once_items_change_position_with_stable_keys() {
    let mut sparse_set: SparseSet<i32> = SparseSet::new();
    let key1 = sparse_set.push(42);
    let key2 = sparse_set.push(43);

    sparse_set.rotate_left(0, 2, 1);

    assert_eq!(sparse_set.len(), 2);
    assert_eq!(sparse_set.get_key(0), Some(key2));
    assert_eq!(sparse_set.get_key(1), Some(key1));
    assert_eq!(sparse_set.get(key1), Some(&42));
    assert_eq!(sparse_set.get(key2), Some(&43));
}

// sparse set with two items => rotate left twice => items return to the same positions
#[test]
fn sparse_set_with_two_items_rotate_left_twice_items_return_to_the_same_positions() {
    let mut sparse_set: SparseSet<i32> = SparseSet::new();
    let key1 = sparse_set.push(42);
    let key2 = sparse_set.push(43);

    sparse_set.rotate_left(0, 2, 2);

    assert_eq!(sparse_set.len(), 2);
    assert_eq!(sparse_set.get_key(0), Some(key1));
    assert_eq!(sparse_set.get_key(1), Some(key2));
    assert_eq!(sparse_set.get(key1), Some(&42));
    assert_eq!(sparse_set.get(key2), Some(&43));
}

// sparse set with three items => rotate left once => items change position with stable keys
#[test]
fn sparse_set_with_three_items_rotate_left_once_items_change_position_with_stable_keys() {
    let mut sparse_set: SparseSet<i32> = SparseSet::new();
    let key1 = sparse_set.push(42);
    let key2 = sparse_set.push(43);
    let key3 = sparse_set.push(44);

    sparse_set.rotate_left(0, 3, 1);

    assert_eq!(sparse_set.len(), 3);
    assert_eq!(sparse_set.get_key(0), Some(key2));
    assert_eq!(sparse_set.get_key(1), Some(key3));
    assert_eq!(sparse_set.get_key(2), Some(key1));
    assert_eq!(sparse_set.get(key1), Some(&42));
    assert_eq!(sparse_set.get(key2), Some(&43));
    assert_eq!(sparse_set.get(key3), Some(&44));
}

// sparse set with three items => rotate left twice => items change position with stable keys
#[test]
fn sparse_set_with_three_items_rotate_left_twice_items_change_position_with_stable_keys() {
    let mut sparse_set: SparseSet<i32> = SparseSet::new();
    let key1 = sparse_set.push(42);
    let key2 = sparse_set.push(43);
    let key3 = sparse_set.push(44);

    sparse_set.rotate_left(0, 3, 2);

    assert_eq!(sparse_set.len(), 3);
    assert_eq!(sparse_set.get_key(0), Some(key3));
    assert_eq!(sparse_set.get_key(1), Some(key1));
    assert_eq!(sparse_set.get_key(2), Some(key2));
    assert_eq!(sparse_set.get(key1), Some(&42));
    assert_eq!(sparse_set.get(key2), Some(&43));
    assert_eq!(sparse_set.get(key3), Some(&44));
}

// sparse set with four items => rotate middle two left once => items change position with stable keys
#[test]
fn sparse_set_with_four_items_rotate_middle_two_left_once_items_change_position_with_stable_keys() {
    let mut sparse_set: SparseSet<i32> = SparseSet::new();
    let key1 = sparse_set.push(42);
    let key2 = sparse_set.push(43);
    let key3 = sparse_set.push(44);
    let key4 = sparse_set.push(45);

    sparse_set.rotate_left(1, 3, 1);

    assert_eq!(sparse_set.len(), 4);
    assert_eq!(sparse_set.get_key(0), Some(key1));
    assert_eq!(sparse_set.get_key(1), Some(key3));
    assert_eq!(sparse_set.get_key(2), Some(key2));
    assert_eq!(sparse_set.get_key(3), Some(key4));
    assert_eq!(sparse_set.get(key1), Some(&42));
    assert_eq!(sparse_set.get(key2), Some(&43));
    assert_eq!(sparse_set.get(key3), Some(&44));
    assert_eq!(sparse_set.get(key4), Some(&45));
}

// sparse set with one item => rotate right => has that same item
#[test]
fn sparse_set_with_one_item_rotate_right_has_that_same_item() {
    let mut sparse_set: SparseSet<i32> = SparseSet::new();
    let key = sparse_set.push(42);

    sparse_set.rotate_right(0, 1, 1);

    assert_eq!(sparse_set.len(), 1);
    assert_eq!(sparse_set.get_key(0), Some(key));
    assert_eq!(sparse_set.get(key), Some(&42));
}

// sparse set with two items => rotate right once => items change position with stable keys
#[test]
fn sparse_set_with_two_items_rotate_right_once_items_change_position_with_stable_keys() {
    let mut sparse_set: SparseSet<i32> = SparseSet::new();
    let key1 = sparse_set.push(42);
    let key2 = sparse_set.push(43);

    sparse_set.rotate_right(0, 2, 1);

    assert_eq!(sparse_set.len(), 2);
    assert_eq!(sparse_set.get_key(0), Some(key2));
    assert_eq!(sparse_set.get_key(1), Some(key1));
    assert_eq!(sparse_set.get(key1), Some(&42));
    assert_eq!(sparse_set.get(key2), Some(&43));
}

// sparse set with two items => rotate right twice => items return to the same positions
#[test]
fn sparse_set_with_two_items_rotate_right_twice_items_return_to_the_same_positions() {
    let mut sparse_set: SparseSet<i32> = SparseSet::new();
    let key1 = sparse_set.push(42);
    let key2 = sparse_set.push(43);

    sparse_set.rotate_right(0, 2, 2);

    assert_eq!(sparse_set.len(), 2);
    assert_eq!(sparse_set.get_key(0), Some(key1));
    assert_eq!(sparse_set.get_key(1), Some(key2));
    assert_eq!(sparse_set.get(key1), Some(&42));
    assert_eq!(sparse_set.get(key2), Some(&43));
}

// sparse set with three items => rotate right once => items change position with stable keys
#[test]
fn sparse_set_with_three_items_rotate_right_once_items_change_position_with_stable_keys() {
    let mut sparse_set: SparseSet<i32> = SparseSet::new();
    let key1 = sparse_set.push(42);
    let key2 = sparse_set.push(43);
    let key3 = sparse_set.push(44);

    sparse_set.rotate_right(0, 3, 1);

    assert_eq!(sparse_set.len(), 3);
    assert_eq!(sparse_set.get_key(0), Some(key3));
    assert_eq!(sparse_set.get_key(1), Some(key1));
    assert_eq!(sparse_set.get_key(2), Some(key2));
    assert_eq!(sparse_set.get(key1), Some(&42));
    assert_eq!(sparse_set.get(key2), Some(&43));
    assert_eq!(sparse_set.get(key3), Some(&44));
}

// sparse set with three items => rotate right twice => items change position with stable keys
#[test]
fn sparse_set_with_three_items_rotate_right_twice_items_change_position_with_stable_keys() {
    let mut sparse_set: SparseSet<i32> = SparseSet::new();
    let key1 = sparse_set.push(42);
    let key2 = sparse_set.push(43);
    let key3 = sparse_set.push(44);

    sparse_set.rotate_right(0, 3, 2);

    assert_eq!(sparse_set.len(), 3);
    assert_eq!(sparse_set.get_key(0), Some(key2));
    assert_eq!(sparse_set.get_key(1), Some(key3));
    assert_eq!(sparse_set.get_key(2), Some(key1));
    assert_eq!(sparse_set.get(key1), Some(&42));
    assert_eq!(sparse_set.get(key2), Some(&43));
    assert_eq!(sparse_set.get(key3), Some(&44));
}

// sparse set with four items => rotate middle two right once => items change position with stable keys
#[test]
fn sparse_set_with_four_items_rotate_middle_two_right_once_items_change_position_with_stable_keys() {
    let mut sparse_set: SparseSet<i32> = SparseSet::new();
    let key1 = sparse_set.push(42);
    let key2 = sparse_set.push(43);
    let key3 = sparse_set.push(44);
    let key4 = sparse_set.push(45);

    sparse_set.rotate_right(1, 3, 1);

    assert_eq!(sparse_set.len(), 4);
    assert_eq!(sparse_set.get_key(0), Some(key1));
    assert_eq!(sparse_set.get_key(1), Some(key3));
    assert_eq!(sparse_set.get_key(2), Some(key2));
    assert_eq!(sparse_set.get_key(3), Some(key4));
    assert_eq!(sparse_set.get(key1), Some(&42));
    assert_eq!(sparse_set.get(key2), Some(&43));
    assert_eq!(sparse_set.get(key3), Some(&44));
    assert_eq!(sparse_set.get(key4), Some(&45));
}
