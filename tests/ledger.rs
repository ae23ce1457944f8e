use treasury::{
    Contract, NonFungibleTokens, OutboundTransfer, TransferError, DEFAULT_PAGE_END,
    GAS_NFT_TRANSFER, ONE_YOCTO,
};

fn strings(items: &[&str]) -> Vec<String> {
    items.iter().map(|s| s.to_string()).collect()
}

fn sample() -> Contract {
    let mut c = Contract::new("owner.near".to_string());
    c.set_nft_tokens("nft.A".to_string(), strings(&["1", "2", "3"]));
    c.set_nft_tokens("nft.B".to_string(), strings(&["9"]));
    c
}

fn with_collections(n: usize) -> Contract {
    let mut c = Contract::new("owner.near".to_string());
    for i in 0..n {
        c.set_nft_tokens(format!("nft{}", i), vec![format!("t{}", i)]);
    }
    c
}

fn ids(page: &[NonFungibleTokens]) -> Vec<String> {
    page.iter().map(|e| e.account_id.clone()).collect()
}

fn snapshot(c: &Contract) -> (String, Vec<String>, Vec<Vec<String>>) {
    (c.owner_id.clone(), c.collections.clone(), c.holdings.clone())
}

#[test]
fn scenario_holdings_then_transfer() {
    let mut c = sample();
    let page = c.nft_holdings(None, None);
    assert_eq!(page.len(), 2);
    assert_eq!(page[0].account_id, "nft.A");
    assert_eq!(page[0].tokens, strings(&["1", "2", "3"]));
    assert_eq!(page[1].account_id, "nft.B");
    assert_eq!(page[1].tokens, strings(&["9"]));

    let call = c
        .nft_transfer(
            &"owner.near".to_string(),
            "nft.A".to_string(),
            "2".to_string(),
            "user.X".to_string(),
        )
        .unwrap();
    assert_eq!(call.collection_id, "nft.A");
    assert_eq!(call.receiver_id, "user.X");
    assert_eq!(call.token_id, "2");
    assert_eq!(call.position, 1);
    assert_eq!(call.deposit, ONE_YOCTO);
    assert_eq!(call.gas, GAS_NFT_TRANSFER);
    assert_eq!(c.get_nft_list(), strings(&["nft.A", "nft.B"]));
    assert_eq!(c.holdings, vec![strings(&["1", "3"]), strings(&["9"])]);
}

#[test]
fn list_tokens_owned_by_treasury() {
    let c = sample();
    let me = "treasury.near".to_string();
    let toks = c.nft_tokens(&"nft.A".to_string(), &me);
    assert_eq!(toks.len(), 3);
    for (t, id) in toks.iter().zip(["1", "2", "3"]) {
        assert_eq!(t.id, id);
        assert_eq!(t.owner_id, "treasury.near");
    }
}

#[test]
fn list_tokens_unknown_collection_is_empty() {
    let c = sample();
    assert!(c.nft_tokens(&"nft.Z".to_string(), &"me".to_string()).is_empty());
}

#[test]
fn collection_list_in_insertion_order() {
    let mut c = sample();
    c.set_nft_tokens("nft.C".to_string(), Vec::new());
    c.set_nft_tokens("nft.A".to_string(), strings(&["7"]));
    assert_eq!(c.get_nft_list(), strings(&["nft.A", "nft.B", "nft.C"]));
    assert_eq!(c.holdings[0], strings(&["7"]));
}

#[test]
fn default_page_is_first_ten() {
    let c = with_collections(15);
    let page = c.nft_holdings(None, None);
    assert_eq!(DEFAULT_PAGE_END, 10);
    assert_eq!(page.len(), 10);
    assert_eq!(page[0].account_id, "nft0");
    assert_eq!(page[9].account_id, "nft9");
    assert_eq!(page[9].tokens, strings(&["t9"]));
}

#[test]
fn default_page_of_small_ledger() {
    let c = with_collections(4);
    assert_eq!(ids(&c.nft_holdings(None, None)), strings(&["nft0", "nft1", "nft2", "nft3"]));
    let empty = Contract::new("o".to_string());
    assert!(empty.nft_holdings(None, None).is_empty());
}

#[test]
fn start_without_limit_stops_at_ten() {
    let c = with_collections(15);
    let page = c.nft_holdings(Some(5), None);
    assert_eq!(ids(&page), strings(&["nft5", "nft6", "nft7", "nft8", "nft9"]));
    let small = with_collections(7);
    assert_eq!(ids(&small.nft_holdings(Some(5), None)), strings(&["nft5", "nft6"]));
}

#[test]
fn first_three() {
    assert_eq!(with_collections(15).nft_holdings(Some(0), Some(3)).len(), 3);
    assert_eq!(with_collections(2).nft_holdings(Some(0), Some(3)).len(), 2);
    assert_eq!(with_collections(0).nft_holdings(Some(0), Some(3)).len(), 0);
}

#[test]
fn limit_extends_past_default_end() {
    let c = with_collections(15);
    let page = c.nft_holdings(Some(8), Some(5));
    assert_eq!(ids(&page), strings(&["nft8", "nft9", "nft10", "nft11", "nft12"]));
    assert_eq!(c.nft_holdings(None, Some(20)).len(), 15);
}

#[test]
fn start_beyond_ledger_is_empty() {
    let c = with_collections(3);
    assert!(c.nft_holdings(Some(3), None).is_empty());
    assert!(c.nft_holdings(Some(50), Some(5)).is_empty());
    assert!(c.nft_holdings(Some(u64::MAX), Some(u64::MAX)).is_empty());
}

#[test]
fn largest_limit_does_not_overflow() {
    let c = with_collections(12);
    let page = c.nft_holdings(Some(2), Some(u64::MAX));
    assert_eq!(page.len(), 10);
    assert_eq!(page[0].account_id, "nft2");
    assert_eq!(page[9].account_id, "nft11");
}

#[test]
fn transfer_by_stranger_is_unauthorized() {
    let mut c = sample();
    let before = snapshot(&c);
    let r = c.nft_transfer(
        &"mallory.near".to_string(),
        "nft.A".to_string(),
        "2".to_string(),
        "mallory.near".to_string(),
    );
    assert_eq!(r.err(), Some(TransferError::Unauthorized));
    assert_eq!(snapshot(&c), before);
}

#[test]
fn transfer_unknown_collection() {
    let mut c = sample();
    let before = snapshot(&c);
    let r = c.nft_transfer(
        &"owner.near".to_string(),
        "nft.Z".to_string(),
        "1".to_string(),
        "user.X".to_string(),
    );
    assert_eq!(r.err(), Some(TransferError::CollectionNotFound));
    assert_eq!(snapshot(&c), before);
}

#[test]
fn transfer_token_not_held() {
    let mut c = sample();
    let before = snapshot(&c);
    let r = c.nft_transfer(
        &"owner.near".to_string(),
        "nft.B".to_string(),
        "1".to_string(),
        "user.X".to_string(),
    );
    assert_eq!(r.err(), Some(TransferError::TokenNotHeld));
    assert_eq!(snapshot(&c), before);
}

#[test]
fn transfer_removes_first_duplicate_only() {
    let mut c = sample();
    c.set_nft_tokens("nft.B".to_string(), strings(&["9", "4", "9", "5"]));
    let call = c
        .nft_transfer(
            &"owner.near".to_string(),
            "nft.B".to_string(),
            "9".to_string(),
            "user.Y".to_string(),
        )
        .unwrap();
    assert_eq!(call.position, 0);
    assert_eq!(c.holdings, vec![strings(&["1", "2", "3"]), strings(&["4", "9", "5"])]);
}

#[test]
fn transfer_last_token_keeps_empty_entry() {
    let mut c = sample();
    let r = c.nft_transfer(
        &"owner.near".to_string(),
        "nft.B".to_string(),
        "9".to_string(),
        "user.X".to_string(),
    );
    assert!(r.is_ok());
    assert_eq!(c.get_nft_list(), strings(&["nft.A", "nft.B"]));
    assert!(c.nft_tokens(&"nft.B".to_string(), &"me".to_string()).is_empty());
}

#[test]
fn failed_transfer_resolves_back() {
    let mut c = sample();
    let before = snapshot(&c);
    let call = c
        .nft_transfer(
            &"owner.near".to_string(),
            "nft.A".to_string(),
            "2".to_string(),
            "user.X".to_string(),
        )
        .unwrap();
    c.nft_resolve_transfer(&call, false);
    assert_eq!(snapshot(&c), before);
}

#[test]
fn successful_transfer_resolves_unchanged() {
    let mut c = sample();
    let call = c
        .nft_transfer(
            &"owner.near".to_string(),
            "nft.A".to_string(),
            "3".to_string(),
            "user.X".to_string(),
        )
        .unwrap();
    let after = snapshot(&c);
    c.nft_resolve_transfer(&call, true);
    assert_eq!(snapshot(&c), after);
}

#[test]
fn failed_resolve_on_shorter_list_appends() {
    let mut c = sample();
    let call = OutboundTransfer {
        collection_id: "nft.B".to_string(),
        receiver_id: "user.X".to_string(),
        token_id: "8".to_string(),
        position: 5,
        deposit: ONE_YOCTO,
        gas: GAS_NFT_TRANSFER,
    };
    c.nft_resolve_transfer(&call, false);
    assert_eq!(c.holdings[1], strings(&["9", "8"]));
    let gone = OutboundTransfer { collection_id: "nft.N".to_string(), ..call };
    c.nft_resolve_transfer(&gone, false);
    assert_eq!(c.get_nft_list(), strings(&["nft.A", "nft.B", "nft.N"]));
    assert_eq!(c.holdings[2], strings(&["8"]));
}
