use social_core::access_control::{
    get_user_roles, update_user_add_role, update_user_remove_role, AccessControlMap, UserAccessRole,
};
use social_core::identity::Identity;
use social_core::score_ranking::{
    send_top_post_scores_to_post_cache_canister, update_post_score_index_on_post_score_recalculation,
    ScoreRankingIndex,
};
use social_core::username::{
    update_index_with_unique_user_name_corresponding_to_user_principal_id, CanisterRegistry,
    SetUniqueUsernameError, UsernameDirectory,
};

fn id(b: &[u8]) -> Identity {
    Identity::from_bytes(b.to_vec())
}

fn scores(index: &ScoreRankingIndex) -> Vec<u64> {
    index.posts_index_sorted_by_score_v1.items.iter().map(|i| i.score).collect()
}

fn legacy_pairs(index: &ScoreRankingIndex) -> Vec<(u64, u64)> {
    index.posts_index_sorted_by_score.items.iter().map(|i| (i.post_id, i.score)).collect()
}

fn current_pairs(index: &ScoreRankingIndex) -> Vec<(u64, u64)> {
    index.posts_index_sorted_by_score_v1.items.iter().map(|i| (i.post_id, i.score)).collect()
}

#[test]
fn grant_then_revoke_moderator() {
    let mut map = AccessControlMap::new();
    let a = id(&[1, 2, 3]);
    update_user_add_role(&mut map, UserAccessRole::Moderator, a.clone());
    assert_eq!(get_user_roles(&map, a.clone()), vec![UserAccessRole::Moderator]);
    update_user_remove_role(&mut map, UserAccessRole::Moderator, a.clone());
    assert_eq!(get_user_roles(&map, a.clone()), Vec::<UserAccessRole>::new());
}

#[test]
fn granting_twice_lists_role_once() {
    let mut map = AccessControlMap::new();
    let a = id(&[7]);
    for _ in 0..3 {
        update_user_add_role(&mut map, UserAccessRole::CanisterAdmin, a.clone());
    }
    update_user_add_role(&mut map, UserAccessRole::ProfileOwner, a.clone());
    let roles = get_user_roles(&map, a.clone());
    assert_eq!(roles.len(), 2);
    assert!(roles.contains(&UserAccessRole::CanisterAdmin));
    assert!(roles.contains(&UserAccessRole::ProfileOwner));
}

#[test]
fn revoking_unheld_role_changes_nothing() {
    let mut map = AccessControlMap::new();
    let a = id(&[1]);
    let b = id(&[2]);
    update_user_remove_role(&mut map, UserAccessRole::Moderator, a.clone());
    assert_eq!(get_user_roles(&map, a.clone()), Vec::<UserAccessRole>::new());
    update_user_add_role(&mut map, UserAccessRole::ProfileOwner, b.clone());
    update_user_remove_role(&mut map, UserAccessRole::Moderator, b.clone());
    assert_eq!(get_user_roles(&map, b.clone()), vec![UserAccessRole::ProfileOwner]);
    assert_eq!(map.entries.len(), 1);
}

#[test]
fn roles_are_kept_per_identity() {
    let mut map = AccessControlMap::new();
    let a = id(&[1]);
    let b = id(&[1, 0]);
    update_user_add_role(&mut map, UserAccessRole::CanisterController, a.clone());
    update_user_add_role(&mut map, UserAccessRole::Moderator, b.clone());
    assert_eq!(get_user_roles(&map, a.clone()), vec![UserAccessRole::CanisterController]);
    assert_eq!(get_user_roles(&map, b.clone()), vec![UserAccessRole::Moderator]);
    update_user_remove_role(&mut map, UserAccessRole::CanisterController, a.clone());
    assert_eq!(get_user_roles(&map, a.clone()), Vec::<UserAccessRole>::new());
    assert_eq!(get_user_roles(&map, b.clone()), vec![UserAccessRole::Moderator]);
    // the emptied identity keeps its entry
    assert_eq!(map.entries.len(), 2);
}

#[test]
fn claim_then_second_claim_is_taken() {
    let u = id(&[10]);
    let c = id(&[20]);
    let other = id(&[30]);
    let mut registry = CanisterRegistry::new();
    registry.insert(u.clone(), c.clone());
    let mut directory = UsernameDirectory::new();
    let r = update_index_with_unique_user_name_corresponding_to_user_principal_id(
        &mut directory, &registry, &c, "alice".to_string(), u.clone(),
    );
    assert_eq!(r, Ok(()));
    assert_eq!(directory.get(&"alice".to_string()).map(|i| i.bytes.clone()), Some(vec![20]));
    for caller in [&c, &other] {
        let r = update_index_with_unique_user_name_corresponding_to_user_principal_id(
            &mut directory, &registry, caller, "alice".to_string(), u.clone(),
        );
        assert_eq!(r, Err(SetUniqueUsernameError::UsernameAlreadyTaken));
    }
    assert_eq!(directory.get(&"alice".to_string()).map(|i| i.bytes.clone()), Some(vec![20]));
}

#[test]
fn claim_for_unregistered_user_fails() {
    let u = id(&[10]);
    let registry = CanisterRegistry::new();
    let mut directory = UsernameDirectory::new();
    let r = update_index_with_unique_user_name_corresponding_to_user_principal_id(
        &mut directory, &registry, &id(&[99]), "bob".to_string(), u.clone(),
    );
    assert_eq!(r, Err(SetUniqueUsernameError::UserCanisterEntryDoesNotExist));
    assert!(!directory.contains_key(&"bob".to_string()));
}

#[test]
fn claim_by_wrong_caller_fails() {
    let u = id(&[10]);
    let c1 = id(&[21]);
    let c2 = id(&[22]);
    let mut registry = CanisterRegistry::new();
    registry.insert(u.clone(), c1.clone());
    let mut directory = UsernameDirectory::new();
    let r = update_index_with_unique_user_name_corresponding_to_user_principal_id(
        &mut directory, &registry, &c2, "carol".to_string(), u.clone(),
    );
    assert_eq!(r, Err(SetUniqueUsernameError::SendingCanisterDoesNotMatchUserCanisterId));
    assert!(!directory.contains_key(&"carol".to_string()));
}

#[test]
fn usernames_are_case_sensitive() {
    let u = id(&[10]);
    let c = id(&[20]);
    let mut registry = CanisterRegistry::new();
    registry.insert(u.clone(), c.clone());
    let mut directory = UsernameDirectory::new();
    let r1 = update_index_with_unique_user_name_corresponding_to_user_principal_id(
        &mut directory, &registry, &c, "alice".to_string(), u.clone(),
    );
    let r2 = update_index_with_unique_user_name_corresponding_to_user_principal_id(
        &mut directory, &registry, &c, "Alice".to_string(), u.clone(),
    );
    assert_eq!(r1, Ok(()));
    assert_eq!(r2, Ok(()));
}

#[test]
fn registry_insert_replaces_owner() {
    let u = id(&[10]);
    let mut registry = CanisterRegistry::new();
    registry.insert(u.clone(), id(&[1]));
    registry.insert(u.clone(), id(&[2]));
    assert_eq!(registry.entries.len(), 1);
    assert_eq!(registry.get(&u).map(|i| i.bytes.clone()), Some(vec![2]));
}

#[test]
fn trim_keeps_hundred_best_scores() {
    let own = id(&[5, 5]);
    let mut index = ScoreRankingIndex::new();
    for score in 1..=150u64 {
        update_post_score_index_on_post_score_recalculation(&mut index, score, score, &own);
        assert_eq!(index.len() as u64, score);
    }
    update_post_score_index_on_post_score_recalculation(&mut index, 151, 151, &own);
    assert_eq!(index.len(), 100);
    let expected: Vec<u64> = (52..=151u64).rev().collect();
    assert_eq!(scores(&index), expected);
    assert_eq!(legacy_pairs(&index), current_pairs(&index));
}

#[test]
fn length_never_exceeds_soft_cap() {
    let own = id(&[1]);
    let mut index = ScoreRankingIndex::new();
    for k in 0..400u64 {
        update_post_score_index_on_post_score_recalculation(&mut index, k, (k * 37) % 101, &own);
        assert!(index.len() <= 150);
        assert_eq!(legacy_pairs(&index), current_pairs(&index));
    }
}

#[test]
fn rescoring_replaces_entry() {
    let own = id(&[1]);
    let mut index = ScoreRankingIndex::new();
    update_post_score_index_on_post_score_recalculation(&mut index, 1, 10, &own);
    update_post_score_index_on_post_score_recalculation(&mut index, 2, 20, &own);
    update_post_score_index_on_post_score_recalculation(&mut index, 1, 30, &own);
    assert_eq!(current_pairs(&index), vec![(1, 30), (2, 20)]);
    assert_eq!(legacy_pairs(&index), current_pairs(&index));
    assert_eq!(index.posts_index_sorted_by_score_v1.items[0].publisher_canister_id.bytes, vec![1]);
}

#[test]
fn broadcast_sends_top_three_in_order() {
    let own = id(&[3]);
    let cache = id(&[4, 4]);
    let mut index = ScoreRankingIndex::new();
    for (post, score) in [10u64, 50, 30, 90, 5].iter().enumerate() {
        update_post_score_index_on_post_score_recalculation(&mut index, post as u64, *score, &own);
    }
    let n = send_top_post_scores_to_post_cache_canister(&index, &cache);
    let sent: Vec<u64> = n.payload.iter().map(|i| i.score).collect();
    assert_eq!(sent, vec![90, 50, 30]);
    assert_eq!(n.recipient.bytes, vec![4, 4]);
    assert_eq!(n.method, "receive_top_posts_from_publishing_canister");
}

#[test]
fn broadcast_of_small_index_sends_all() {
    let own = id(&[3]);
    let cache = id(&[4]);
    let mut index = ScoreRankingIndex::new();
    let n = send_top_post_scores_to_post_cache_canister(&index, &cache);
    assert!(n.payload.is_empty());
    update_post_score_index_on_post_score_recalculation(&mut index, 8, 1, &own);
    update_post_score_index_on_post_score_recalculation(&mut index, 9, 2, &own);
    let n = send_top_post_scores_to_post_cache_canister(&index, &cache);
    let sent: Vec<(u64, u64)> = n.payload.iter().map(|i| (i.post_id, i.score)).collect();
    assert_eq!(sent, vec![(9, 2), (8, 1)]);
}

#[test]
fn equal_scores_rank_by_post_id() {
    let own = id(&[3]);
    let mut index = ScoreRankingIndex::new();
    update_post_score_index_on_post_score_recalculation(&mut index, 7, 5, &own);
    update_post_score_index_on_post_score_recalculation(&mut index, 3, 5, &own);
    update_post_score_index_on_post_score_recalculation(&mut index, 9, u64::MAX, &own);
    assert_eq!(current_pairs(&index), vec![(9, u64::MAX), (3, 5), (7, 5)]);
}

#[test]
fn taken_name_is_reported_before_missing_registration() {
    let u = id(&[10]);
    let c = id(&[20]);
    let stranger = id(&[40]);
    let mut registry = CanisterRegistry::new();
    registry.insert(u.clone(), c.clone());
    let mut directory = UsernameDirectory::new();
    let r = update_index_with_unique_user_name_corresponding_to_user_principal_id(
        &mut directory, &registry, &c, "dave".to_string(), u.clone(),
    );
    assert_eq!(r, Ok(()));
    let r = update_index_with_unique_user_name_corresponding_to_user_principal_id(
        &mut directory, &registry, &c, "dave".to_string(), stranger.clone(),
    );
    assert_eq!(r, Err(SetUniqueUsernameError::UsernameAlreadyTaken));
    let r = update_index_with_unique_user_name_corresponding_to_user_principal_id(
        &mut directory, &registry, &c, "erin".to_string(), stranger.clone(),
    );
    assert_eq!(r, Err(SetUniqueUsernameError::UserCanisterEntryDoesNotExist));
}
