use rollup_core::pubkey::Pubkey;
use rollup_core::users_handler::user_handler::{decimal_string, AppUserBase};

fn unique_key() -> Pubkey {
    Pubkey::new_from_array(solana_sdk::pubkey::Pubkey::new_unique().to_bytes())
}

#[test]
fn test_add_new_user_to_app() {
    let mut app_user_base = AppUserBase::default();
    let program_id = unique_key();
    app_user_base.register_app(program_id);
    assert_eq!(app_user_base.app_user_base.len(), 1);

    app_user_base.add_new_user_to_app(program_id);
    app_user_base.add_new_user_to_app(program_id);
    assert_eq!(app_user_base.get_current_len_of_userbase_of_app(program_id), 2);
    println!("{:?}", app_user_base);
}

#[test]
fn get_user_key() {
    let mut app_user_base = AppUserBase::default();
    let program_id = unique_key();
    app_user_base.register_app(program_id);
    assert_eq!(app_user_base.app_user_base.len(), 1);

    app_user_base.add_new_user_to_app(program_id);

    let new_added_keypair = app_user_base.get_keypair_from_user_name(program_id, "user1".to_string());
    println!("{:?}", new_added_keypair)
}

#[test]
fn users_are_named_in_order_with_their_own_keys() {
    let mut base = AppUserBase::default();
    let program_id = unique_key();
    base.register_app(program_id);
    for _ in 0..12 {
        base.add_new_user_to_app(program_id);
    }
    assert_eq!(base.get_current_len_of_userbase_of_app(program_id), 12);
    let first = base.get_keypair_from_user_name(program_id, "user1".to_string());
    let twelfth = base.get_keypair_from_user_name(program_id, "user12".to_string());
    assert_ne!(first.pubkey(), twelfth.pubkey());
    let again = base.get_keypair_from_user_name(program_id, "user12".to_string());
    assert_eq!(again.pubkey(), twelfth.pubkey());
    assert_eq!(again.secret, twelfth.secret);
    let users = &base.app_user_base.get(&program_id).unwrap().users;
    assert!(users.contains_key(&"user10".to_string()));
    assert!(!users.contains_key(&"user13".to_string()));
}

#[test]
fn apps_keep_separate_user_bases() {
    let mut base = AppUserBase::default();
    let a = unique_key();
    let b = unique_key();
    base.register_app(a);
    base.register_app(b);
    base.add_new_user_to_app(a);
    assert_eq!(base.get_current_len_of_userbase_of_app(a), 1);
    assert_eq!(base.get_current_len_of_userbase_of_app(b), 0);
}

#[test]
fn decimal_strings() {
    assert_eq!(decimal_string(0), "0");
    assert_eq!(decimal_string(7), "7");
    assert_eq!(decimal_string(40), "40");
    assert_eq!(decimal_string(1203), "1203");
}
