use nft_contract::{
    gyde_token_metadata_sample, sample_token_metadata, Contract, EventLogVariant, RegistryError,
    TokenMetadata, UserType, STORAGE_PRICE_PER_UNIT,
};

const MINT_STORAGE_COST: u128 = 100_000_000_000_000_000_000_000;
const NOW: u64 = 1_600_000_000_000_000_000;

fn alice() -> String {
    "alice".to_string()
}

fn bob() -> String {
    "bob".to_string()
}

fn empty_patch() -> TokenMetadata {
    TokenMetadata {
        title: None,
        description: None,
        media: None,
        media_hash: None,
        copies: None,
        issued_at: None,
        expires_at: None,
        starts_at: None,
        updated_at: None,
        extra: None,
        reference: None,
        reference_hash: None,
        user_type: None,
        organization: None,
    }
}

#[test]
fn test_new_account_contract() {
    let contract = Contract::new_default_meta(bob());
    let contract_nft_tokens = contract.nft_tokens(Some(0), None);
    assert_eq!(contract_nft_tokens.len(), 0);
}

#[test]
fn test_mint_nft() {
    let mut contract = Contract::new_default_meta(alice());
    let token_metadata: TokenMetadata = gyde_token_metadata_sample(Some("admin".to_string()), None);
    let token_id = "0".to_string();
    let res = contract.nft_mint(
        &alice(),
        NOW,
        MINT_STORAGE_COST,
        token_id.clone(),
        token_metadata,
        alice(),
    );
    assert!(res.is_ok());
    let contract_nft_tokens = contract.nft_tokens(Some(0), None);
    assert_eq!(contract_nft_tokens.len(), 1);

    assert_eq!(contract_nft_tokens[0].token_id, token_id);
    assert_eq!(contract_nft_tokens[0].owner_id, alice());
    assert_eq!(
        contract_nft_tokens[0].metadata.title,
        sample_token_metadata().title
    );
    assert_eq!(
        contract_nft_tokens[0].metadata.description,
        sample_token_metadata().description
    );
    assert_eq!(
        contract_nft_tokens[0].metadata.media,
        sample_token_metadata().media
    );
    assert_eq!(
        contract_nft_tokens[0].metadata.user_type,
        Some(UserType::Admin.to_tag())
    );
}

#[test]
fn test_mint_nft_as_user() {
    let mut contract = Contract::new_default_meta(alice());
    let token_metadata: TokenMetadata = gyde_token_metadata_sample(Some("user".to_string()), None);
    let res = contract.nft_mint(
        &bob(),
        NOW,
        MINT_STORAGE_COST,
        "0".to_string(),
        token_metadata,
        alice(),
    );
    assert!(matches!(res, Err(RegistryError::Authorization)));
    assert_eq!(contract.nft_total_supply(), 0);
}

#[test]
fn test_mint_nft_as_admin() {
    // Mint an admin-tagged token to a second account, then let that
    // account mint for itself.
    let mut contract = Contract::new_default_meta(alice());
    let token_metadata: TokenMetadata = gyde_token_metadata_sample(Some("admin".to_string()), None);
    let res = contract.nft_mint(
        &alice(),
        NOW,
        MINT_STORAGE_COST,
        "0".to_string(),
        token_metadata,
        bob(),
    );
    assert!(res.is_ok());
    let supply = contract.nft_supply_for_owner(&bob());
    assert!(supply == 1);

    let res = contract.nft_mint(
        &bob(),
        NOW + 1,
        MINT_STORAGE_COST,
        "1".to_string(),
        gyde_token_metadata_sample(Some("super_user".to_string()), None),
        bob(),
    );
    assert!(res.is_ok());
    let supply = contract.nft_supply_for_owner(&bob());
    assert!(supply == 2);
}

#[test]
fn test_internal_transfer_by_user() {
    let mut contract = Contract::new_default_meta(alice());
    let token_id = "0".to_string();
    let res = contract.nft_mint(
        &alice(),
        NOW,
        MINT_STORAGE_COST,
        token_id.clone(),
        gyde_token_metadata_sample(Some(String::from("user")), None),
        bob(),
    );
    assert!(res.is_ok());
    let res = contract.internal_transfer(&bob(), MINT_STORAGE_COST, &bob(), &alice(), &token_id, None);
    assert!(matches!(res, Err(RegistryError::Authorization)));
    assert_eq!(contract.nft_supply_for_owner(&bob()), 1);
}

#[test]
fn test_internal_transfer() {
    let mut contract = Contract::new_default_meta(alice());
    let token_id = "0".to_string();
    let res = contract.nft_mint(
        &alice(),
        NOW,
        MINT_STORAGE_COST,
        token_id.clone(),
        sample_token_metadata(),
        alice(),
    );
    assert!(res.is_ok());
    let res = contract.internal_transfer(&alice(), 1, &alice(), &bob(), &token_id, None);
    assert!(res.is_ok());

    let tokens = contract.nft_tokens_for_owner(&bob(), Some(0), None);
    assert_ne!(
        tokens.len(),
        0,
        "Token not correctly created and/or sent to second account"
    );
    let token = &tokens[0];
    assert_eq!(token.token_id, token_id);
    assert_eq!(token.owner_id, bob());
    assert_eq!(token.metadata.title, sample_token_metadata().title);
    assert_eq!(
        token.metadata.description,
        sample_token_metadata().description
    );
    assert_eq!(token.metadata.media, sample_token_metadata().media);
}

#[test]
fn test_internal_remove_token_from_owner() {
    let mut contract = Contract::new_default_meta(alice());
    let token_id = "0".to_string();
    let res = contract.nft_mint(
        &alice(),
        NOW,
        MINT_STORAGE_COST,
        token_id.clone(),
        sample_token_metadata(),
        alice(),
    );
    assert!(res.is_ok());

    let contract_nft_tokens_before = contract.nft_tokens_for_owner(&alice(), None, None);
    assert_eq!(contract_nft_tokens_before.len(), 1);

    contract.internal_remove_token_from_owner(&alice(), &token_id);
    let contract_nft_tokens_after = contract.nft_tokens_for_owner(&alice(), None, None);
    assert_eq!(contract_nft_tokens_after.len(), 0);
}

#[test]
fn test_nft_total_supply() {
    let mut contract = Contract::new_default_meta(alice());
    let res = contract.nft_mint(
        &alice(),
        NOW,
        MINT_STORAGE_COST,
        "0".to_string(),
        sample_token_metadata(),
        alice(),
    );
    assert!(res.is_ok());
    let total_supply = contract.nft_total_supply();
    assert_eq!(total_supply, 1);
}

#[test]
fn test_nft_modify_admin() {
    let mut contract = Contract::new_default_meta(alice());
    let token_id = "0".to_string();
    let res = contract.nft_mint(
        &alice(),
        NOW,
        MINT_STORAGE_COST,
        token_id.clone(),
        gyde_token_metadata_sample(Some(String::from("user")), None),
        bob(),
    );
    assert!(res.is_ok());
    let old_tokens = contract.nft_tokens_for_owner(&bob(), Some(0), None);
    assert_eq!(old_tokens.len(), 1);

    let old_token = old_tokens.get(0).unwrap();
    assert_eq!(
        old_token.metadata.user_type.clone().unwrap(),
        UserType::User.to_tag()
    );

    let res = contract.nft_modify_token(
        &alice(),
        NOW + 7,
        MINT_STORAGE_COST,
        token_id.clone(),
        gyde_token_metadata_sample(Some(String::from("admin")), Some("gyde_test".to_string())),
    );
    assert!(res.is_ok());

    let new_tokens = contract.nft_tokens_for_owner(&bob(), Some(0), None);
    assert_eq!(new_tokens.len(), 1);

    let new_token = new_tokens.get(0).unwrap();
    assert_eq!(
        new_token.metadata.user_type.clone().unwrap(),
        UserType::Admin.to_tag()
    );
    assert_eq!(
        new_token.metadata.organization.clone().unwrap(),
        "gyde_test".to_string()
    );
}

#[test]
fn test_nft_modify_as_user() {
    let mut contract = Contract::new_default_meta(alice());
    let token_id = "0".to_string();
    let res = contract.nft_mint(
        &alice(),
        NOW,
        MINT_STORAGE_COST,
        token_id.clone(),
        gyde_token_metadata_sample(Some(String::from("user")), None),
        bob(),
    );
    assert!(res.is_ok());
    let old_tokens = contract.nft_tokens_for_owner(&bob(), Some(0), None);
    assert_eq!(old_tokens.len(), 1);

    let old_token = old_tokens.get(0).unwrap();
    assert_eq!(
        old_token.metadata.user_type.clone().unwrap(),
        UserType::User.to_tag()
    );

    let res = contract.nft_modify_token(
        &bob(),
        NOW + 7,
        MINT_STORAGE_COST,
        token_id.clone(),
        gyde_token_metadata_sample(Some(String::from("admin")), Some("gyde_test".to_string())),
    );
    assert!(matches!(res, Err(RegistryError::Authorization)));

    let new_tokens = contract.nft_tokens_for_owner(&bob(), Some(0), None);
    assert_eq!(new_tokens.len(), 1);
    let new_token = new_tokens.get(0).unwrap();
    assert_eq!(
        new_token.metadata.user_type.clone().unwrap(),
        UserType::User.to_tag()
    );
    assert_eq!(new_token.metadata.organization, None);
}

#[test]
pub fn test_nft_mint_invalid_user() {
    let mut contract = Contract::new_default_meta(alice());
    let res = contract.nft_mint(
        &alice(),
        NOW,
        MINT_STORAGE_COST,
        "0".to_string(),
        gyde_token_metadata_sample(Some(String::from("no_user")), None),
        bob(),
    );
    assert!(matches!(res, Err(RegistryError::Validation)));
    assert_eq!(contract.nft_total_supply(), 0);
    assert!(contract.nft_tokens(Some(0), None).is_empty());
}

#[test]
fn test_mint_conflict_second_call() {
    let mut contract = Contract::new_default_meta(alice());
    let token_id = "0".to_string();
    let res = contract.nft_mint(
        &alice(),
        NOW,
        MINT_STORAGE_COST,
        token_id.clone(),
        sample_token_metadata(),
        alice(),
    );
    assert!(res.is_ok());
    let res = contract.nft_mint(
        &alice(),
        NOW + 1,
        MINT_STORAGE_COST,
        token_id.clone(),
        gyde_token_metadata_sample(Some("admin".to_string()), None),
        bob(),
    );
    assert!(matches!(res, Err(RegistryError::Conflict)));
    // The registry is exactly as it was after the first mint.
    assert_eq!(contract.nft_total_supply(), 1);
    assert_eq!(contract.nft_supply_for_owner(&alice()), 1);
    assert_eq!(contract.nft_supply_for_owner(&bob()), 0);
    let tokens = contract.nft_tokens(None, None);
    assert_eq!(tokens.len(), 1);
    assert_eq!(tokens[0].owner_id, alice());
    assert_eq!(tokens[0].metadata.title, sample_token_metadata().title);
    assert_eq!(tokens[0].metadata.user_type, None);
}

#[test]
fn test_mint_budget_exact_refund() {
    // gyde sample with the "admin" tag, token id "7", receiver "bob":
    // title 9 + description 29 + copies 8 + defaulted issued_at 8
    // + user_type 5 = 59 metadata units, plus 2 units for the id and 3
    // for the owner: 64 units in all.
    let cost: u128 = 64 * STORAGE_PRICE_PER_UNIT;

    let mut contract = Contract::new_default_meta(alice());
    let res = contract.nft_mint(
        &alice(),
        NOW,
        cost - 1,
        "7".to_string(),
        gyde_token_metadata_sample(Some("admin".to_string()), None),
        bob(),
    );
    assert!(matches!(res, Err(RegistryError::Budget)));
    assert_eq!(contract.nft_total_supply(), 0);
    assert_eq!(contract.nft_supply_for_owner(&bob()), 0);

    let res = contract.nft_mint(
        &alice(),
        NOW,
        cost + 5,
        "7".to_string(),
        gyde_token_metadata_sample(Some("admin".to_string()), None),
        bob(),
    );
    let out = res.unwrap();
    assert_eq!(out.refund, 5);
    assert_eq!(out.log.standard, "nep171");
    assert_eq!(out.log.version, "nft-1.0.0");
    let EventLogVariant::NftMint(logs) = out.log.event;
    assert_eq!(logs.len(), 1);
    assert_eq!(logs[0].owner_id, bob());
    assert_eq!(logs[0].token_ids, vec!["7".to_string()]);
    assert_eq!(logs[0].memo, None);
    assert_eq!(contract.nft_total_supply(), 1);
}

#[test]
fn test_modify_missing_token() {
    let mut contract = Contract::new_default_meta(alice());
    let res = contract.nft_modify_token(
        &alice(),
        NOW,
        MINT_STORAGE_COST,
        "404".to_string(),
        empty_patch(),
    );
    assert!(matches!(res, Err(RegistryError::NotFound)));
}

#[test]
fn test_transfer_wrong_sender() {
    let mut contract = Contract::new_default_meta(alice());
    let token_id = "0".to_string();
    let res = contract.nft_mint(
        &alice(),
        NOW,
        MINT_STORAGE_COST,
        token_id.clone(),
        sample_token_metadata(),
        alice(),
    );
    assert!(res.is_ok());
    let res = contract.internal_transfer(&alice(), 1, &bob(), &alice(), &token_id, None);
    assert!(matches!(res, Err(RegistryError::NotFound)));
    let res = contract.internal_transfer(&alice(), 1, &alice(), &bob(), &"404".to_string(), None);
    assert!(matches!(res, Err(RegistryError::NotFound)));
    assert_eq!(contract.nft_supply_for_owner(&alice()), 1);
}

#[test]
fn test_transfer_budget() {
    let mut contract = Contract::new_default_meta(alice());
    let token_id = "0".to_string();
    let res = contract.nft_mint(
        &alice(),
        NOW,
        MINT_STORAGE_COST,
        token_id.clone(),
        sample_token_metadata(),
        alice(),
    );
    assert!(res.is_ok());
    // "a-much-longer-owner-name" outgrows "alice" by 19 units.
    let receiver = "a-much-longer-owner-name".to_string();
    let res = contract.internal_transfer(&alice(), 0, &alice(), &receiver, &token_id, None);
    assert!(matches!(res, Err(RegistryError::Budget)));
    assert_eq!(contract.nft_supply_for_owner(&alice()), 1);

    let res = contract.internal_transfer(
        &alice(),
        19 * STORAGE_PRICE_PER_UNIT + 3,
        &alice(),
        &receiver,
        &token_id,
        None,
    );
    assert_eq!(res.unwrap(), 3);
    assert_eq!(contract.nft_supply_for_owner(&receiver), 1);
}

#[test]
fn test_transfer_empties_sender_entry() {
    let mut contract = Contract::new_default_meta(alice());
    let token_id = "0".to_string();
    let res = contract.nft_mint(
        &alice(),
        NOW,
        MINT_STORAGE_COST,
        token_id.clone(),
        sample_token_metadata(),
        alice(),
    );
    assert!(res.is_ok());
    let res = contract.internal_transfer(&alice(), 1, &alice(), &bob(), &token_id, None);
    assert!(res.is_ok());
    assert_eq!(contract.nft_supply_for_owner(&alice()), 0);
    assert!(contract.nft_tokens_for_owner(&alice(), None, None).is_empty());
    assert_eq!(contract.nft_supply_for_owner(&bob()), 1);
    let tokens = contract.nft_tokens_for_owner(&bob(), None, None);
    assert_eq!(tokens[0].token_id, token_id);
    assert_eq!(tokens[0].owner_id, bob());
}

#[test]
fn test_modify_patches_only_given_fields() {
    let mut contract = Contract::new_default_meta(alice());
    let token_id = "0".to_string();
    let res = contract.nft_mint(
        &alice(),
        NOW,
        MINT_STORAGE_COST,
        token_id.clone(),
        sample_token_metadata(),
        alice(),
    );
    assert!(res.is_ok());

    let mut patch = empty_patch();
    patch.title = Some("Renamed".to_string());
    let res = contract.nft_modify_token(&alice(), NOW + 99, MINT_STORAGE_COST, token_id.clone(), patch);
    assert!(res.is_ok());

    let tokens = contract.nft_tokens(None, None);
    assert_eq!(tokens.len(), 1);
    let m = &tokens[0].metadata;
    assert_eq!(m.title, Some("Renamed".to_string()));
    assert_eq!(m.description, sample_token_metadata().description);
    assert_eq!(m.media, None);
    assert_eq!(m.media_hash, None);
    assert_eq!(m.copies, Some(1));
    assert_eq!(m.issued_at, Some(NOW));
    assert_eq!(m.expires_at, None);
    assert_eq!(m.starts_at, None);
    assert_eq!(m.updated_at, Some(NOW + 99));
    assert_eq!(m.extra, None);
    assert_eq!(m.reference, None);
    assert_eq!(m.reference_hash, None);
    assert_eq!(m.user_type, None);
    assert_eq!(m.organization, None);

    // An explicit updated_at in the patch overrides the clock.
    let mut patch = empty_patch();
    patch.updated_at = Some(123);
    let res = contract.nft_modify_token(&alice(), NOW + 100, MINT_STORAGE_COST, token_id.clone(), patch);
    assert!(res.is_ok());
    let tokens = contract.nft_tokens(None, None);
    assert_eq!(tokens[0].metadata.updated_at, Some(123));
}

#[test]
fn test_self_bootstrap_requires_existing_admin() {
    // The deployer is the one identity whose admin role is not
    // data-driven; anyone else must first be handed an admin-tagged token.
    let mut contract = Contract::new_default_meta("dan".to_string());
    let res = contract.nft_mint(
        &alice(),
        NOW,
        MINT_STORAGE_COST,
        "0".to_string(),
        gyde_token_metadata_sample(Some("admin".to_string()), None),
        alice(),
    );
    assert!(matches!(res, Err(RegistryError::Authorization)));
    assert_eq!(contract.nft_total_supply(), 0);

    let res = contract.nft_mint(
        &"dan".to_string(),
        NOW,
        MINT_STORAGE_COST,
        "0".to_string(),
        gyde_token_metadata_sample(Some("admin".to_string()), None),
        alice(),
    );
    assert!(res.is_ok());
    let res = contract.nft_mint(
        &alice(),
        NOW + 1,
        MINT_STORAGE_COST,
        "1".to_string(),
        sample_token_metadata(),
        alice(),
    );
    assert!(res.is_ok());
    assert_eq!(contract.nft_supply_for_owner(&alice()), 2);
}

#[test]
fn test_pagination() {
    let mut contract = Contract::new_default_meta(alice());
    for (i, id) in ["0", "1", "2"].iter().enumerate() {
        let res = contract.nft_mint(
            &alice(),
            NOW + i as u64,
            MINT_STORAGE_COST,
            id.to_string(),
            sample_token_metadata(),
            alice(),
        );
        assert!(res.is_ok());
    }
    let page = contract.nft_tokens(Some(1), Some(1));
    assert_eq!(page.len(), 1);
    assert_eq!(page[0].token_id, "1".to_string());
    let page = contract.nft_tokens(Some(2), Some(10));
    assert_eq!(page.len(), 1);
    assert_eq!(page[0].token_id, "2".to_string());
    let page = contract.nft_tokens(Some(9), None);
    assert_eq!(page.len(), 0);
    let page = contract.nft_tokens_for_owner(&alice(), Some(1), Some(2));
    assert_eq!(page.len(), 2);
}

#[test]
fn test_user_type_tags() {
    assert_eq!(UserType::Admin.to_tag(), "admin");
    assert_eq!(UserType::SuperUser.to_tag(), "super_user");
    assert_eq!(UserType::User.to_tag(), "user");
}

#[test]
fn test_modify_budget() {
    let mut contract = Contract::new_default_meta(alice());
    let token_id = "0".to_string();
    let res = contract.nft_mint(
        &alice(),
        NOW,
        MINT_STORAGE_COST,
        token_id.clone(),
        sample_token_metadata(),
        alice(),
    );
    assert!(res.is_ok());

    // The patch grows the title from 9 to 19 units; ten units must be paid.
    let mut patch = empty_patch();
    patch.title = Some("Gyde Test Gyde Test".to_string());
    let res = contract.nft_modify_token(&alice(), NOW + 1, 0, token_id.clone(), patch);
    assert!(matches!(res, Err(RegistryError::Budget)));
    let tokens = contract.nft_tokens(None, None);
    assert_eq!(tokens[0].metadata.title, sample_token_metadata().title);
    assert_eq!(tokens[0].metadata.updated_at, None);

    // A shrinking patch costs nothing and refunds the whole attachment.
    let mut patch = empty_patch();
    patch.title = Some("G".to_string());
    let res = contract.nft_modify_token(&alice(), NOW + 2, 7, token_id.clone(), patch);
    assert_eq!(res.unwrap(), 7);
    let tokens = contract.nft_tokens(None, None);
    assert_eq!(tokens[0].metadata.title, Some("G".to_string()));
    assert_eq!(tokens[0].metadata.updated_at, Some(NOW + 2));
}

#[test]
fn test_modify_invalid_user_type() {
    let mut contract = Contract::new_default_meta(alice());
    let token_id = "0".to_string();
    let res = contract.nft_mint(
        &alice(),
        NOW,
        MINT_STORAGE_COST,
        token_id.clone(),
        gyde_token_metadata_sample(Some("user".to_string()), None),
        bob(),
    );
    assert!(res.is_ok());
    let mut patch = empty_patch();
    patch.user_type = Some("no_user".to_string());
    let res = contract.nft_modify_token(&alice(), NOW + 1, MINT_STORAGE_COST, token_id, patch);
    assert!(matches!(res, Err(RegistryError::Validation)));
    let tokens = contract.nft_tokens(None, None);
    assert_eq!(tokens[0].metadata.user_type, Some("user".to_string()));
    assert_eq!(tokens[0].metadata.updated_at, None);
}

#[test]
fn test_mint_keeps_explicit_issued_at() {
    let mut contract = Contract::new_default_meta(alice());
    let mut md = sample_token_metadata();
    md.issued_at = Some(42);
    let res = contract.nft_mint(
        &alice(),
        NOW,
        MINT_STORAGE_COST,
        "0".to_string(),
        md,
        alice(),
    );
    assert!(res.is_ok());
    let tokens = contract.nft_tokens(None, None);
    assert_eq!(tokens[0].metadata.issued_at, Some(42));
    assert_eq!(tokens[0].metadata.updated_at, None);
}

#[test]
fn test_modify_never_changes_issued_at() {
    let mut contract = Contract::new_default_meta(alice());
    let token_id = "0".to_string();
    let res = contract.nft_mint(
        &alice(),
        NOW,
        MINT_STORAGE_COST,
        token_id.clone(),
        sample_token_metadata(),
        alice(),
    );
    assert!(res.is_ok());

    // issued_at is set exactly once, at creation: a patch that carries it
    // is applied in full otherwise, but issued_at stays as minted.
    let mut patch = empty_patch();
    patch.issued_at = Some(1);
    patch.title = Some("Renamed".to_string());
    let res = contract.nft_modify_token(&alice(), NOW + 5, MINT_STORAGE_COST, token_id, patch);
    assert!(res.is_ok());
    let tokens = contract.nft_tokens(None, None);
    assert_eq!(tokens[0].metadata.issued_at, Some(NOW));
    assert_eq!(tokens[0].metadata.title, Some("Renamed".to_string()));
    assert_eq!(tokens[0].metadata.updated_at, Some(NOW + 5));
}
