use airdrop::allocation_map::AllocationMap;
use airdrop::canister::Airdrop;
use airdrop::state::{
    add_share_allocation, add_token_allocation, clear_all, get_all_share_allocations,
    get_all_token_allocations, get_token_pid, get_user_shares, get_user_tokens, AirdropState,
};
use airdrop::types::{AirdropError, Identity};
use airdrop::utils::{handle_intercanister_call, not_anonymous, only_controller};

fn user(n: u8) -> Identity {
    Identity::from_bytes(vec![n, 1, 1])
}

fn service() -> Airdrop {
    Airdrop::new(Identity::from_bytes(vec![9, 9]))
}

#[test]
fn anonymous_identity_is_the_single_byte_four() {
    let anon = Identity::anonymous();
    assert_eq!(anon.as_bytes(), &vec![4u8]);
    assert!(anon.is_anonymous());
    assert!(!user(4).is_anonymous());
    assert!(user(1).same_as(&user(1)));
    assert!(!user(1).same_as(&user(2)));
}

#[test]
fn map_put_overwrites_instead_of_adding() {
    let mut m = AllocationMap::new();
    m.put(user(1), 5);
    m.put(user(2), 7);
    m.put(user(1), 3);
    assert_eq!(m.len(), 2);
    assert_eq!(m.get(&user(1)), Some(3));
    assert_eq!(m.get(&user(2)), Some(7));
    assert_eq!(m.get(&user(3)), None);
    m.remove(&user(1));
    assert_eq!(m.get(&user(1)), None);
    assert_eq!(m.len(), 1);
    m.clear();
    assert_eq!(m.len(), 0);
}

#[test]
fn state_functions_record_and_clear() {
    let mut st = AirdropState::new();
    assert!(get_token_pid(&st).is_anonymous());
    st.set_token_pid(user(7));
    add_share_allocation(&mut st, user(1), 10);
    add_share_allocation(&mut st, user(1), 20);
    add_token_allocation(&mut st, user(2), 30);
    assert_eq!(get_user_shares(&st, &user(1)), Some(20));
    assert_eq!(get_user_tokens(&st, &user(2)), Some(30));
    assert_eq!(get_all_share_allocations(&st).len(), 1);
    assert_eq!(get_all_token_allocations(&st).len(), 1);
    assert!(get_token_pid(&st).same_as(&user(7)));
    clear_all(&mut st);
    assert!(get_token_pid(&st).is_anonymous());
    assert_eq!(get_user_shares(&st, &user(1)), None);
    assert_eq!(get_user_tokens(&st, &user(2)), None);
}

#[test]
fn utils_classify_callers_and_replies() {
    assert_eq!(only_controller(true), Ok(()));
    assert_eq!(only_controller(false), Err(AirdropError::Unauthorized));
    assert_eq!(not_anonymous(&Identity::anonymous()), Err(AirdropError::ConfigurationError));
    assert_eq!(not_anonymous(&user(1)), Ok(()));
    let ok: Result<(u64,), (u8, String)> = Ok((42,));
    assert_eq!(handle_intercanister_call(ok), Ok(42));
    let rejected: Result<(u64,), (u8, String)> = Err((3, "no such method".to_string()));
    assert_eq!(
        handle_intercanister_call(rejected),
        Err(AirdropError::Unknown("no such method".to_string()))
    );
}

#[test]
fn set_token_canister_id_and_its_twin_agree() {
    let mut a = service();
    assert_eq!(a.validate_set_token_canister_id(false, user(5)), Err(AirdropError::Unauthorized));
    assert_eq!(a.set_token_canister_id(false, user(5)), Err(AirdropError::Unauthorized));
    assert!(a.get_token_canister_id().is_none());
    assert_eq!(
        a.validate_set_token_canister_id(true, Identity::anonymous()),
        Err(AirdropError::ConfigurationError)
    );
    assert_eq!(
        a.set_token_canister_id(true, Identity::anonymous()),
        Err(AirdropError::ConfigurationError)
    );
    assert_eq!(a.validate_set_token_canister_id(true, user(5)), Ok(()));
    assert!(a.get_token_canister_id().is_none());
    assert_eq!(a.set_token_canister_id(true, user(5)), Ok(()));
    assert!(a.get_token_canister_id().unwrap().same_as(&user(5)));
}

#[test]
fn add_share_allocations_rejects_zero_shares_and_anonymous_users() {
    let mut a = service();
    let zero = vec![(user(1), 4), (user(2), 0)];
    assert_eq!(a.validate_add_share_allocations(true, &zero), Err(AirdropError::ConfigurationError));
    assert_eq!(a.add_share_allocations(true, zero), Err(AirdropError::ConfigurationError));
    let anon = vec![(Identity::anonymous(), 4)];
    assert_eq!(a.validate_add_share_allocations(true, &anon), Err(AirdropError::ConfigurationError));
    assert_eq!(a.add_share_allocations(true, anon), Err(AirdropError::ConfigurationError));
    let good = vec![(user(1), 4), (user(2), 6), (user(1), 5)];
    assert_eq!(a.validate_add_share_allocations(false, &good), Err(AirdropError::Unauthorized));
    assert_eq!(a.add_share_allocations(false, good), Err(AirdropError::Unauthorized));
    assert_eq!(a.get_shares_list(0).len(), 0);
    let good = vec![(user(1), 4), (user(2), 6), (user(1), 5)];
    assert_eq!(a.validate_add_share_allocations(true, &good), Ok(()));
    assert_eq!(a.get_shares_list(0).len(), 0);
    assert_eq!(a.add_share_allocations(true, good), Ok(()));
    assert_eq!(a.get_user_share_allocation(user(1)), Some(5));
    assert_eq!(a.get_user_share_allocation(user(2)), Some(6));
    assert_eq!(a.get_user_share_allocation(user(3)), None);
}

#[test]
fn reset_twice_leaves_the_same_empty_state() {
    let mut a = service();
    assert_eq!(a.set_token_canister_id(true, user(5)), Ok(()));
    assert_eq!(a.add_share_allocations(true, vec![(user(1), 1)]), Ok(()));
    assert_eq!(a.validate_reset(false), Err(AirdropError::Unauthorized));
    assert_eq!(a.reset(false), Err(AirdropError::Unauthorized));
    assert_eq!(a.get_user_share_allocation(user(1)), Some(1));
    assert_eq!(a.validate_reset(true), Ok(()));
    assert_eq!(a.reset(true), Ok(()));
    assert!(a.get_token_canister_id().is_none());
    assert_eq!(a.get_shares_list(0).len(), 0);
    assert_eq!(a.reset(true), Ok(()));
    assert!(a.get_token_canister_id().is_none());
    assert_eq!(a.get_shares_list(0).len(), 0);
    assert_eq!(a.get_tokens_list(0).len(), 0);
    assert_eq!(a.get_interrupted_distributions().len(), 0);
}

#[test]
fn shares_list_pages_by_one_hundred() {
    let mut a = service();
    let mut list = Vec::new();
    for i in 0..250u32 {
        list.push((Identity::from_bytes(vec![1, (i / 256) as u8, (i % 256) as u8]), 1 + i as u64));
    }
    assert_eq!(a.add_share_allocations(true, list), Ok(()));
    assert_eq!(a.get_shares_list(0).len(), 100);
    assert_eq!(a.get_shares_list(200).len(), 50);
    assert_eq!(a.get_shares_list(249).len(), 1);
    assert_eq!(a.get_shares_list(250).len(), 0);
    assert_eq!(a.get_shares_list(u64::MAX).len(), 0);
    let page = a.get_shares_list(120);
    assert_eq!(page.len(), 100);
    assert_eq!(page[0].1, 121);
    assert_eq!(page[99].1, 220);
    assert_eq!(a.get_tokens_list(0).len(), 0);
    assert_eq!(a.get_tokens_list(5).len(), 0);
}
