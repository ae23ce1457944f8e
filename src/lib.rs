//! Custodial ledger of non-fungible token holdings kept by a treasury on
//! behalf of its owner: paginated queries over the ledger, and owner-only
//! transfers that hand back the outbound call to issue.

mod holdings;
mod laws;
mod transfer;

pub use holdings::{Contract, NonFungibleToken, NonFungibleTokens, DEFAULT_PAGE_END};
pub use laws::{
    lemma_default_page, lemma_failed_transfer_restores, lemma_page_first_three,
    lemma_page_from_five,
};
pub use transfer::{OutboundTransfer, TransferError, GAS_NFT_TRANSFER, ONE_YOCTO};
