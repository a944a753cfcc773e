use option_ledger::model::RowFilter;
use option_ledger::{MatrixView, OptionRecord, Ownership, Store, StoreError, User};

fn user(id: u64, name: &str) -> User {
    User { id, name: name.to_string() }
}

fn option(id: u64, symbol: &str) -> OptionRecord {
    OptionRecord { id, symbol: symbol.to_string() }
}

fn row(user_id: u64, option_id: u64, quantity: i64) -> Ownership {
    Ownership { user_id, option_id, quantity }
}

#[test]
fn new_store_is_empty() {
    let s = Store::new();
    assert!(s.list_users().is_empty());
    assert!(s.list_options().is_empty());
    assert!(s.get_ownerships().is_empty());
    let m = s.get_matrix_view();
    assert_eq!(m, MatrixView { users: vec![], options: vec![], cells: vec![] });
}

#[test]
fn created_user_is_listed_exactly_once() {
    let mut s = Store::new();
    let a = s.create_user("Alice".to_string()).unwrap();
    assert_eq!(a, user(1, "Alice"));
    let users = s.list_users();
    assert_eq!(users.iter().filter(|u| **u == a).count(), 1);
    assert_eq!(users, vec![user(1, "Alice")]);
}

#[test]
fn deleted_user_is_no_longer_listed() {
    let mut s = Store::new();
    let a = s.create_user("Alice".to_string()).unwrap();
    let b = s.create_user("Bob".to_string()).unwrap();
    assert_eq!(s.delete_user(a.id), Ok(()));
    assert_eq!(s.list_users(), vec![b]);
}

#[test]
fn ids_are_assigned_in_creation_order() {
    let mut s = Store::new();
    assert_eq!(s.create_user("A".to_string()).unwrap().id, 1);
    assert_eq!(s.create_user("B".to_string()).unwrap().id, 2);
    assert_eq!(s.create_option("X".to_string()).unwrap().id, 1);
    assert_eq!(s.create_option("Y".to_string()).unwrap().id, 2);
    // an id is never handed out twice, even after a deletion
    s.delete_user(2).unwrap();
    assert_eq!(s.create_user("C".to_string()).unwrap().id, 3);
    assert_eq!(s.list_users(), vec![user(1, "A"), user(3, "C")]);
}

#[test]
fn empty_name_is_rejected() {
    let mut s = Store::new();
    assert_eq!(s.create_user(String::new()), Err(StoreError::Validation));
    assert!(s.list_users().is_empty());
}

#[test]
fn empty_symbol_is_rejected() {
    let mut s = Store::new();
    assert_eq!(s.create_option(String::new()), Err(StoreError::Validation));
    assert!(s.list_options().is_empty());
}

#[test]
fn created_option_is_listed_and_deleted() {
    let mut s = Store::new();
    let x = s.create_option("AAPL 150C 2025-01-17".to_string()).unwrap();
    assert_eq!(x, option(1, "AAPL 150C 2025-01-17"));
    assert_eq!(s.list_options(), vec![x]);
    assert_eq!(s.delete_option(1), Ok(()));
    assert!(s.list_options().is_empty());
}

#[test]
fn deleting_unknown_ids_is_not_found() {
    let mut s = Store::new();
    s.create_user("A".to_string()).unwrap();
    s.create_option("X".to_string()).unwrap();
    assert_eq!(s.delete_user(7), Err(StoreError::NotFound));
    assert_eq!(s.delete_option(7), Err(StoreError::NotFound));
    assert_eq!(s.list_users(), vec![user(1, "A")]);
    assert_eq!(s.list_options(), vec![option(1, "X")]);
}

#[test]
fn deleting_a_user_cascades_to_its_rows() {
    let mut s = Store::new();
    let u = s.create_user("U".to_string()).unwrap();
    let v = s.create_user("V".to_string()).unwrap();
    let o = s.create_option("O".to_string()).unwrap();
    s.set_ownership(u.id, o.id, 5).unwrap();
    s.set_ownership(v.id, o.id, 2).unwrap();
    s.delete_user(u.id).unwrap();
    let rows = s.get_ownerships();
    assert!(rows.iter().all(|w| w.user_id != u.id));
    assert_eq!(rows, vec![row(v.id, o.id, 2)]);
}

#[test]
fn deleting_an_option_cascades_to_its_rows() {
    let mut s = Store::new();
    let u = s.create_user("U".to_string()).unwrap();
    let o = s.create_option("O".to_string()).unwrap();
    let p = s.create_option("P".to_string()).unwrap();
    s.set_ownership(u.id, o.id, 5).unwrap();
    s.set_ownership(u.id, p.id, 6).unwrap();
    s.delete_option(o.id).unwrap();
    assert_eq!(s.get_ownerships(), vec![row(u.id, p.id, 6)]);
}

#[test]
fn setting_a_pair_twice_keeps_one_row() {
    let mut s = Store::new();
    let u = s.create_user("U".to_string()).unwrap();
    let o = s.create_option("O".to_string()).unwrap();
    assert_eq!(s.set_ownership(u.id, o.id, 5), Ok(row(u.id, o.id, 5)));
    assert_eq!(s.set_ownership(u.id, o.id, 9), Ok(row(u.id, o.id, 9)));
    assert_eq!(s.get_ownerships(), vec![row(u.id, o.id, 9)]);
}

#[test]
fn overwriting_keeps_the_row_in_place() {
    let mut s = Store::new();
    let u = s.create_user("U".to_string()).unwrap();
    let o = s.create_option("O".to_string()).unwrap();
    let p = s.create_option("P".to_string()).unwrap();
    s.set_ownership(u.id, o.id, 1).unwrap();
    s.set_ownership(u.id, p.id, 2).unwrap();
    s.set_ownership(u.id, o.id, 3).unwrap();
    assert_eq!(s.get_ownerships(), vec![row(u.id, o.id, 3), row(u.id, p.id, 2)]);
}

#[test]
fn zero_quantity_is_kept_as_a_row() {
    let mut s = Store::new();
    let u = s.create_user("U".to_string()).unwrap();
    let o = s.create_option("O".to_string()).unwrap();
    s.set_ownership(u.id, o.id, 4).unwrap();
    assert_eq!(s.set_ownership(u.id, o.id, 0), Ok(row(u.id, o.id, 0)));
    assert_eq!(s.get_ownerships(), vec![row(u.id, o.id, 0)]);
    assert_eq!(s.get_matrix_view().cells, vec![vec![0]]);
}

#[test]
fn negative_quantity_is_rejected() {
    let mut s = Store::new();
    let u = s.create_user("U".to_string()).unwrap();
    let o = s.create_option("O".to_string()).unwrap();
    assert_eq!(s.set_ownership(u.id, o.id, -1), Err(StoreError::Validation));
    assert!(s.get_ownerships().is_empty());
    s.set_ownership(u.id, o.id, 5).unwrap();
    assert_eq!(s.set_ownership(u.id, o.id, -1), Err(StoreError::Validation));
    assert_eq!(s.get_ownerships(), vec![row(u.id, o.id, 5)]);
}

#[test]
fn unknown_user_is_rejected() {
    let mut s = Store::new();
    let u = s.create_user("U".to_string()).unwrap();
    let o = s.create_option("O".to_string()).unwrap();
    s.set_ownership(u.id, o.id, 2).unwrap();
    let before = s.get_ownerships();
    assert_eq!(s.set_ownership(99, o.id, 1), Err(StoreError::NotFound));
    assert_eq!(s.get_ownerships(), before);
}

#[test]
fn unknown_option_is_rejected() {
    let mut s = Store::new();
    let u = s.create_user("U".to_string()).unwrap();
    assert_eq!(s.set_ownership(u.id, 42, 1), Err(StoreError::NotFound));
    assert!(s.get_ownerships().is_empty());
}

#[test]
fn deleting_one_row_removes_only_that_pair() {
    let mut s = Store::new();
    let u = s.create_user("U".to_string()).unwrap();
    let o = s.create_option("O".to_string()).unwrap();
    let p = s.create_option("P".to_string()).unwrap();
    s.set_ownership(u.id, o.id, 1).unwrap();
    s.set_ownership(u.id, p.id, 2).unwrap();
    s.delete_ownership(u.id, o.id);
    assert_eq!(s.get_ownerships(), vec![row(u.id, p.id, 2)]);
    // absent pair: nothing changes
    s.delete_ownership(u.id, o.id);
    s.delete_ownership(77, 78);
    assert_eq!(s.get_ownerships(), vec![row(u.id, p.id, 2)]);
}

#[test]
fn matrix_is_complete_and_zero_filled() {
    let mut s = Store::new();
    let users: Vec<User> = ["A", "B", "C"]
        .iter()
        .map(|n| s.create_user(n.to_string()).unwrap())
        .collect();
    let options: Vec<OptionRecord> = ["X", "Y", "Z", "W"]
        .iter()
        .map(|n| s.create_option(n.to_string()).unwrap())
        .collect();
    s.set_ownership(users[2].id, options[0].id, 7).unwrap();
    s.set_ownership(users[0].id, options[3].id, 1).unwrap();
    s.set_ownership(users[2].id, options[2].id, 4).unwrap();
    let m = s.get_matrix_view();
    assert_eq!(m.users, users);
    assert_eq!(m.options, options);
    assert_eq!(m.cells, vec![vec![0, 0, 0, 1], vec![0, 0, 0, 0], vec![7, 0, 4, 0]]);
}

#[test]
fn matrix_with_users_and_no_options() {
    let mut s = Store::new();
    s.create_user("A".to_string()).unwrap();
    s.create_user("B".to_string()).unwrap();
    let m = s.get_matrix_view();
    assert_eq!(m.cells, vec![Vec::<i64>::new(), Vec::new()]);
    assert!(m.options.is_empty());
}

#[test]
fn example_scenario_matrix() {
    let mut s = Store::new();
    let a = s.create_user("A".to_string()).unwrap();
    let b = s.create_user("B".to_string()).unwrap();
    let x = s.create_option("X".to_string()).unwrap();
    let y = s.create_option("Y".to_string()).unwrap();
    s.set_ownership(a.id, x.id, 10).unwrap();
    s.set_ownership(b.id, y.id, 3).unwrap();
    let m = s.get_matrix_view();
    assert_eq!(m.users, vec![user(a.id, "A"), user(b.id, "B")]);
    assert_eq!(m.options, vec![option(x.id, "X"), option(y.id, "Y")]);
    assert_eq!(m.cells, vec![vec![10, 0], vec![0, 3]]);
}

#[test]
fn matrix_after_deletions_has_no_gaps() {
    let mut s = Store::new();
    let a = s.create_user("A".to_string()).unwrap();
    let b = s.create_user("B".to_string()).unwrap();
    let x = s.create_option("X".to_string()).unwrap();
    let y = s.create_option("Y".to_string()).unwrap();
    s.set_ownership(a.id, y.id, 2).unwrap();
    s.set_ownership(b.id, x.id, 8).unwrap();
    s.delete_option(x.id).unwrap();
    let m = s.get_matrix_view();
    assert_eq!(m.options, vec![option(y.id, "Y")]);
    assert_eq!(m.cells, vec![vec![2], vec![0]]);
}

#[test]
fn row_filter_keeps_expected_rows() {
    let w = row(1, 2, 3);
    assert!(!RowFilter::NotUser(1).keeps_row(&w));
    assert!(RowFilter::NotUser(2).keeps_row(&w));
    assert!(!RowFilter::NotOption(2).keeps_row(&w));
    assert!(!RowFilter::NotPair(1, 2).keeps_row(&w));
    assert!(RowFilter::NotPair(1, 3).keeps_row(&w));
}

#[test]
fn copy_record_keeps_fields() {
    let u = user(4, "Dana");
    assert_eq!(u.copy_record(), u);
    let o = option(5, "SPY 400P");
    assert_eq!(o.copy_record(), o);
}

fn sample_store() -> Store {
    let mut s = Store::new();
    let a = s.create_user("A".to_string()).unwrap();
    let b = s.create_user("B".to_string()).unwrap();
    let x = s.create_option("X".to_string()).unwrap();
    let y = s.create_option("Y".to_string()).unwrap();
    s.set_ownership(a.id, y.id, 2).unwrap();
    s.set_ownership(b.id, x.id, 8).unwrap();
    s
}

#[test]
fn restoring_saved_parts_gives_the_same_store() {
    let s = sample_store();
    let mut r = Store::from_parts(
        s.list_users(),
        s.list_options(),
        s.get_ownerships(),
        s.next_user_id(),
        s.next_option_id(),
    )
    .unwrap();
    assert_eq!(r.list_users(), s.list_users());
    assert_eq!(r.list_options(), s.list_options());
    assert_eq!(r.get_ownerships(), s.get_ownerships());
    assert_eq!(r.get_matrix_view(), s.get_matrix_view());
    assert_eq!(r.next_user_id(), 3);
    assert_eq!(r.next_option_id(), 3);
    assert_eq!(r.create_user("C".to_string()).unwrap().id, 3);
}

#[test]
fn restoring_empty_parts_gives_an_empty_store() {
    let r = Store::from_parts(vec![], vec![], vec![], 1, 1).unwrap();
    assert!(r.list_users().is_empty());
    assert_eq!(r.next_user_id(), 1);
}

#[test]
fn restoring_rejects_unordered_or_stale_ids() {
    let users = vec![user(2, "B"), user(1, "A")];
    assert_eq!(Store::from_parts(users, vec![], vec![], 3, 1).err(), Some(StoreError::StorageRead));
    let users = vec![user(1, "A"), user(1, "B")];
    assert_eq!(Store::from_parts(users, vec![], vec![], 3, 1).err(), Some(StoreError::StorageRead));
    let users = vec![user(1, "A")];
    assert_eq!(Store::from_parts(users, vec![], vec![], 1, 1).err(), Some(StoreError::StorageRead));
    let options = vec![option(5, "X")];
    assert_eq!(Store::from_parts(vec![], options, vec![], 1, 5).err(), Some(StoreError::StorageRead));
}

#[test]
fn restoring_rejects_empty_names_and_symbols() {
    let users = vec![user(1, "")];
    assert_eq!(Store::from_parts(users, vec![], vec![], 2, 1).err(), Some(StoreError::StorageRead));
    let options = vec![option(1, "")];
    assert_eq!(Store::from_parts(vec![], options, vec![], 1, 2).err(), Some(StoreError::StorageRead));
}

#[test]
fn restoring_rejects_bad_rows() {
    let users = || vec![user(1, "A")];
    let options = || vec![option(1, "X")];
    let negative = vec![row(1, 1, -3)];
    assert_eq!(Store::from_parts(users(), options(), negative, 2, 2).err(), Some(StoreError::StorageRead));
    let dangling_user = vec![row(2, 1, 3)];
    assert_eq!(Store::from_parts(users(), options(), dangling_user, 2, 2).err(), Some(StoreError::StorageRead));
    let dangling_option = vec![row(1, 9, 3)];
    assert_eq!(Store::from_parts(users(), options(), dangling_option, 2, 2).err(), Some(StoreError::StorageRead));
    let duplicate = vec![row(1, 1, 3), row(1, 1, 4)];
    assert_eq!(Store::from_parts(users(), options(), duplicate, 2, 2).err(), Some(StoreError::StorageRead));
    let fine = vec![row(1, 1, 0)];
    assert!(Store::from_parts(users(), options(), fine, 2, 2).is_ok());
}
