use customer_database::store::{CustomerStore, Outcome, StoreError};

fn add(
    store: &mut CustomerStore,
    name: &str,
    email: &str,
    phone: &str,
) -> Result<u32, StoreError> {
    store.add(name.to_string(), email.to_string(), phone.to_string())
}

#[test]
fn fresh_store_is_empty_and_starts_at_one() {
    let store = CustomerStore::new();
    assert_eq!(store.len(), 0);
    assert_eq!(store.peek_next_id(), 1);
    assert!(store.list_all().is_empty());
}

#[test]
fn adds_with_distinct_emails_get_gapless_increasing_ids() {
    let mut store = CustomerStore::new();
    for i in 1..=5u32 {
        let email = format!("user{}@example.com", i);
        let r = store.add(format!("User {}", i), email, format!("{}", i));
        assert_eq!(r, Ok(i));
        assert_eq!(store.len(), i as usize);
        assert_eq!(store.peek_next_id(), i + 1);
    }
    let all = store.list_all();
    for (k, c) in all.iter().enumerate() {
        assert_eq!(c.id, k as u32 + 1);
    }
}

#[test]
fn add_duplicate_email_fails_and_size_unchanged() {
    let mut store = CustomerStore::new();
    assert_eq!(add(&mut store, "Alice", "a@x.com", "111"), Ok(1));
    let r = add(&mut store, "Bob", "a@x.com", "222");
    assert_eq!(r, Err(StoreError::DuplicateEmail));
    assert_eq!(store.len(), 1);
    assert_eq!(store.peek_next_id(), 2);
    assert_eq!(store.get(1).unwrap().name, "Alice");
}

#[test]
fn add_empty_name_fails_store_stays_empty() {
    let mut store = CustomerStore::new();
    let r = add(&mut store, "", "e@x.com", "111");
    assert_eq!(r, Err(StoreError::EmptyField));
    assert_eq!(store.len(), 0);
    assert_eq!(store.peek_next_id(), 1);
}

#[test]
fn add_empty_phone_fails_store_unchanged() {
    let mut store = CustomerStore::new();
    let r = add(&mut store, "Alice", "a@x.com", "");
    assert_eq!(r, Err(StoreError::EmptyField));
    assert_eq!(store.len(), 0);
}

#[test]
fn add_email_without_at_sign_fails() {
    let mut store = CustomerStore::new();
    assert_eq!(add(&mut store, "Alice", "ax.com", "111"), Err(StoreError::InvalidEmail));
    assert_eq!(add(&mut store, "Alice", "", "111"), Err(StoreError::InvalidEmail));
    assert_eq!(store.len(), 0);
}

#[test]
fn get_absent_id_is_none() {
    let mut store = CustomerStore::new();
    assert!(store.get(1).is_none());
    assert_eq!(add(&mut store, "Alice", "a@x.com", "111"), Ok(1));
    assert!(store.get(2).is_none());
    let c = store.get(1).unwrap();
    assert_eq!(c.id, 1);
    assert_eq!(c.name, "Alice");
    assert_eq!(c.email, "a@x.com");
    assert_eq!(c.phone, "111");
}

#[test]
fn remove_unconfirmed_is_a_noop() {
    let mut store = CustomerStore::new();
    assert_eq!(add(&mut store, "Alice", "a@x.com", "111"), Ok(1));
    let r = store.remove(1, false);
    assert_eq!(r, Ok(Outcome::Cancelled));
    assert_eq!(store.len(), 1);
    let c = store.get(1).unwrap();
    assert_eq!(c.name, "Alice");
    assert_eq!(c.email, "a@x.com");
    assert_eq!(c.phone, "111");
}

#[test]
fn remove_confirmed_deletes_exactly_one() {
    let mut store = CustomerStore::new();
    assert_eq!(add(&mut store, "Alice", "a@x.com", "111"), Ok(1));
    assert_eq!(add(&mut store, "Bob", "b@x.com", "222"), Ok(2));
    let r = store.remove(1, true);
    assert_eq!(r, Ok(Outcome::Applied));
    assert_eq!(store.len(), 1);
    assert!(store.get(1).is_none());
    assert_eq!(store.get(2).unwrap().name, "Bob");
}

#[test]
fn remove_absent_id_is_not_found() {
    let mut store = CustomerStore::new();
    assert_eq!(store.remove(7, true), Err(StoreError::NotFound));
    assert_eq!(store.remove(7, false), Err(StoreError::NotFound));
}

#[test]
fn removed_email_becomes_reusable() {
    let mut store = CustomerStore::new();
    assert_eq!(add(&mut store, "Alice", "a@x.com", "111"), Ok(1));
    assert_eq!(store.remove(1, true), Ok(Outcome::Applied));
    assert_eq!(add(&mut store, "Anna", "a@x.com", "333"), Ok(2));
}

#[test]
fn edit_all_blank_confirmed_keeps_record() {
    let mut store = CustomerStore::new();
    assert_eq!(add(&mut store, "Alice", "a@x.com", "111"), Ok(1));
    let r = store.edit(1, None, None, None, true);
    assert_eq!(r, Ok(Outcome::Applied));
    let r2 = store.edit(1, Some(String::new()), Some(String::new()), Some(String::new()), true);
    assert_eq!(r2, Ok(Outcome::Applied));
    assert_eq!(store.len(), 1);
    let c = store.get(1).unwrap();
    assert_eq!(c.id, 1);
    assert_eq!(c.name, "Alice");
    assert_eq!(c.email, "a@x.com");
    assert_eq!(c.phone, "111");
}

#[test]
fn edit_unconfirmed_is_a_noop() {
    let mut store = CustomerStore::new();
    assert_eq!(add(&mut store, "Alice", "a@x.com", "111"), Ok(1));
    let r = store.edit(1, Some("Alicia".to_string()), None, Some("999".to_string()), false);
    assert_eq!(r, Ok(Outcome::Cancelled));
    let c = store.get(1).unwrap();
    assert_eq!(c.name, "Alice");
    assert_eq!(c.phone, "111");
}

#[test]
fn edit_replaces_supplied_fields_and_keeps_the_rest() {
    let mut store = CustomerStore::new();
    assert_eq!(add(&mut store, "Alice", "a@x.com", "111"), Ok(1));
    let r = store.edit(1, Some("Alicia".to_string()), None, Some("999".to_string()), true);
    assert_eq!(r, Ok(Outcome::Applied));
    let c = store.get(1).unwrap();
    assert_eq!(c.id, 1);
    assert_eq!(c.name, "Alicia");
    assert_eq!(c.email, "a@x.com");
    assert_eq!(c.phone, "999");
}

#[test]
fn edit_email_to_another_records_email_fails() {
    let mut store = CustomerStore::new();
    assert_eq!(add(&mut store, "Alice", "a@x.com", "111"), Ok(1));
    assert_eq!(add(&mut store, "Bob", "b@x.com", "222"), Ok(2));
    let r = store.edit(2, None, Some("a@x.com".to_string()), None, true);
    assert_eq!(r, Err(StoreError::DuplicateEmail));
    let c = store.get(2).unwrap();
    assert_eq!(c.name, "Bob");
    assert_eq!(c.email, "b@x.com");
    assert_eq!(c.phone, "222");
}

#[test]
fn edit_email_to_its_own_value_succeeds() {
    let mut store = CustomerStore::new();
    assert_eq!(add(&mut store, "Alice", "a@x.com", "111"), Ok(1));
    assert_eq!(add(&mut store, "Bob", "b@x.com", "222"), Ok(2));
    let r = store.edit(2, None, Some("b@x.com".to_string()), None, true);
    assert_eq!(r, Ok(Outcome::Applied));
    assert_eq!(store.get(2).unwrap().email, "b@x.com");
}

#[test]
fn edit_email_without_at_sign_fails() {
    let mut store = CustomerStore::new();
    assert_eq!(add(&mut store, "Alice", "a@x.com", "111"), Ok(1));
    let r = store.edit(1, None, Some("ax.com".to_string()), None, true);
    assert_eq!(r, Err(StoreError::InvalidEmail));
    assert_eq!(store.get(1).unwrap().email, "a@x.com");
}

#[test]
fn edit_absent_id_is_not_found() {
    let mut store = CustomerStore::new();
    let r = store.edit(3, Some("X".to_string()), None, None, true);
    assert_eq!(r, Err(StoreError::NotFound));
}

#[test]
fn list_all_is_sorted_regardless_of_history() {
    let mut store = CustomerStore::new();
    for i in 1..=6u32 {
        let r = store.add(
            format!("User {}", i),
            format!("user{}@example.com", i),
            "555".to_string(),
        );
        assert_eq!(r, Ok(i));
    }
    assert_eq!(store.remove(3, true), Ok(Outcome::Applied));
    assert_eq!(store.remove(1, true), Ok(Outcome::Applied));
    assert_eq!(add(&mut store, "Greta", "g@x.com", "777"), Ok(7));
    let all = store.list_all();
    assert_eq!(all.len(), 5);
    let ids: Vec<u32> = all.iter().map(|c| c.id).collect();
    assert_eq!(ids, vec![2, 4, 5, 6, 7]);
    for w in ids.windows(2) {
        assert!(w[0] < w[1]);
    }
}

#[test]
fn removed_ids_are_never_reused() {
    let mut store = CustomerStore::new();
    assert_eq!(add(&mut store, "Alice", "a@x.com", "111"), Ok(1));
    assert_eq!(add(&mut store, "Bob", "b@x.com", "222"), Ok(2));
    assert_eq!(store.remove(1, true), Ok(Outcome::Applied));
    assert_eq!(store.len(), 1);
    assert_eq!(add(&mut store, "Carol", "c@x.com", "333"), Ok(3));
    let all = store.list_all();
    assert_eq!(all.len(), 2);
    assert_eq!(all[0].id, 2);
    assert_eq!(all[0].name, "Bob");
    assert_eq!(all[1].id, 3);
    assert_eq!(all[1].name, "Carol");
}

#[test]
fn listed_records_carry_full_field_values() {
    let mut store = CustomerStore::new();
    assert_eq!(add(&mut store, "Alice", "a@x.com", "111"), Ok(1));
    let all = store.list_all();
    assert_eq!(all.len(), 1);
    assert_eq!(all[0].id, 1);
    assert_eq!(all[0].name, "Alice");
    assert_eq!(all[0].email, "a@x.com");
    assert_eq!(all[0].phone, "111");
}
