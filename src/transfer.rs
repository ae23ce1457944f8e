use vstd::prelude::*;
use crate::holdings::Contract;

verus! {

/// Gas reserved for the outbound `nft_transfer` call on the collection.
pub const GAS_NFT_TRANSFER: u64 = 10_000_000_000_000;

/// The smallest deposit, attached to the outbound call as its fee model asks.
pub const ONE_YOCTO: u128 = 1;

/// Why a transfer was refused. A refused transfer changes nothing.
#[derive(Debug, Clone, Copy, PartialEq, Eq, Structural)]
pub enum TransferError {
    /// The caller is not the treasury's owner.
    Unauthorized,
    /// The ledger has no entry for the collection.
    CollectionNotFound,
    /// The collection's list does not hold the token id.
    TokenNotHeld,
}

/// The outbound call that an accepted transfer asks for: `nft_transfer` on
/// the collection's contract, with payload `{receiver_id, token_id}`, the
/// deposit and the gas given here. `position` is where the token stood in
/// the collection's list, so that a failed call can put it back.
pub struct OutboundTransfer {
    pub collection_id: String,
    pub receiver_id: String,
    pub token_id: String,
    pub position: usize,
    pub deposit: u128,
    pub gas: u64,
}

/// `k` is the first position of `t` in `s`.
pub open spec fn is_first_at(s: Seq<Seq<char>>, t: Seq<char>, k: int) -> bool {
    &&& 0 <= k < s.len()
    &&& s[k] == t
    &&& forall|j: int| 0 <= j < k ==> s[j] != t
}

/// The first position of `t` in `v`, if `v` holds it.
fn find_token(v: &Vec<String>, t: &String) -> (r: Option<usize>)
    ensures
        match r {
            Some(k) => is_first_at(v.deep_view(), t@, k as int),
            None => !v.deep_view().contains(t@),
        },
{
    let mut k: usize = 0;
    while k < v.len()
        invariant
            k <= v.len(),
            forall|j: int| 0 <= j < k ==> v.deep_view()[j] != t@,
        decreases v.len() - k,
    {
        if v[k] == *t {
            return Some(k);
        }
        k = k + 1;
    }
    None
}

impl Contract {
    /// Hands token `to_token_id` of collection `nft_account_id` over to
    /// `to_account_id`, on behalf of the caller `predecessor_id`.
    ///
    /// Only the owner may transfer. The first occurrence of the token id is
    /// taken out of the collection's list at once; the returned call is the
    /// one to issue to the collection. Its outcome is not awaited here: see
    /// `nft_resolve_transfer`.
    pub fn nft_transfer(
        &mut self,
        predecessor_id: &String,
        nft_account_id: String,
        to_token_id: String,
        to_account_id: String,
    ) -> (r: Result<OutboundTransfer, TransferError>)
        requires
            old(self).wf(),
        ensures
            final(self).wf(),
            predecessor_id@ != old(self).owner_id@ ==> r == Err::<OutboundTransfer, TransferError>(
                TransferError::Unauthorized,
            ),
            predecessor_id@ == old(self).owner_id@ && !old(self).has_collection(nft_account_id@)
                ==> r == Err::<OutboundTransfer, TransferError>(TransferError::CollectionNotFound),
            predecessor_id@ == old(self).owner_id@ && old(self).has_collection(nft_account_id@)
                && !old(self).tokens_of(nft_account_id@).contains(to_token_id@) ==> r == Err::<
                OutboundTransfer,
                TransferError,
            >(TransferError::TokenNotHeld),
            r is Ok <==> (predecessor_id@ == old(self).owner_id@ && old(self).tokens_of(
                nft_account_id@,
            ).contains(to_token_id@)),
            r is Err ==> *final(self) == *old(self),
            r matches Ok(call) ==> {
                &&& call.collection_id@ == nft_account_id@
                &&& call.receiver_id@ == to_account_id@
                &&& call.token_id@ == to_token_id@
                &&& call.deposit == ONE_YOCTO
                &&& call.gas == GAS_NFT_TRANSFER
                &&& is_first_at(
                    old(self).tokens_of(nft_account_id@),
                    to_token_id@,
                    call.position as int,
                )
                &&& final(self).owner_id == old(self).owner_id
                &&& final(self).keys() == old(self).keys()
                &&& final(self).lists() == old(self).lists().update(
                    old(self).keys().index_of(nft_account_id@),
                    old(self).tokens_of(nft_account_id@).remove(call.position as int),
                )
                &&& final(self).tokens_of(nft_account_id@) == old(self).tokens_of(
                    nft_account_id@,
                ).remove(call.position as int)
                &&& forall|c: Seq<char>|
                    c != nft_account_id@ ==> #[trigger] final(self).tokens_of(c) == old(
                        self,
                    ).tokens_of(c)
            },
    {
        if !(self.owner_id == *predecessor_id) {
            return Err(TransferError::Unauthorized);
        }
        let idx = match self.find_collection(&nft_account_id) {
            Some(i) => i,
            None => {
                return Err(TransferError::CollectionNotFound);
            },
        };
        let pos = match find_token(&self.holdings[idx], &to_token_id) {
            Some(k) => k,
            None => {
                return Err(TransferError::TokenNotHeld);
            },
        };
        let ghost before = self.lists();
        let ghost list_before = self.holdings@[idx as int].deep_view();
        let mut list = self.holdings.remove(idx);
        list.remove(pos);
        assert(list.deep_view() =~= list_before.remove(pos as int));
        self.holdings.insert(idx, list);
        assert(self.lists() =~= before.update(idx as int, list_before.remove(pos as int)));
        proof {
            assert forall|c: Seq<char>| c != nft_account_id@ implies #[trigger] self.tokens_of(c)
                == old(self).tokens_of(c) by {
                if self.keys().contains(c) {
                    let j = self.keys().index_of(c);
                    assert(self.keys()[j] == c);
                }
            }
        }
        Ok(
            OutboundTransfer {
                collection_id: nft_account_id,
                receiver_id: to_account_id,
                token_id: to_token_id,
                position: pos,
                deposit: ONE_YOCTO,
                gas: GAS_NFT_TRANSFER,
            },
        )
    }
}

impl Contract {
    /// Settles an issued transfer once the collection has answered: on
    /// success the ledger stays as it is; on failure the token id goes back
    /// into its collection's list at the place it was taken from (or at the
    /// end, if the list has since become shorter), and a collection that has
    /// meanwhile left the ledger comes back holding just that token.
    pub fn nft_resolve_transfer(&mut self, call: &OutboundTransfer, succeeded: bool)
        requires
            old(self).wf(),
        ensures
            final(self).wf(),
            final(self).owner_id == old(self).owner_id,
            succeeded ==> *final(self) == *old(self),
            !succeeded ==> final(self).tokens_of(call.collection_id@) == old(self).tokens_of(
                call.collection_id@,
            ).insert(
                if (call.position as int) <= old(self).tokens_of(call.collection_id@).len() {
                    call.position as int
                } else {
                    old(self).tokens_of(call.collection_id@).len() as int
                },
                call.token_id@,
            ),
            !succeeded && old(self).has_collection(call.collection_id@) ==> final(self).keys()
                == old(self).keys(),
            !succeeded && !old(self).has_collection(call.collection_id@) ==> final(self).keys()
                == old(self).keys().push(call.collection_id@),
            forall|c: Seq<char>|
                c != call.collection_id@ ==> #[trigger] final(self).tokens_of(c) == old(
                    self,
                ).tokens_of(c),
    {
        if succeeded {
            return;
        }
        match self.find_collection(&call.collection_id) {
            Some(i) => {
                let ghost before = self.lists();
                let ghost list_before = self.holdings@[i as int].deep_view();
                let mut list = self.holdings.remove(i);
                let at: usize = if call.position <= list.len() {
                    call.position
                } else {
                    list.len()
                };
                list.insert(at, call.token_id.clone());
                assert(list.deep_view() =~= list_before.insert(at as int, call.token_id@));
                self.holdings.insert(i, list);
                assert(self.lists() =~= before.update(
                    i as int,
                    list_before.insert(at as int, call.token_id@),
                ));
                proof {
                    assert forall|c: Seq<char>| c != call.collection_id@ implies #[trigger] self.tokens_of(
                        c,
                    ) == old(self).tokens_of(c) by {
                        if self.keys().contains(c) {
                            let j = self.keys().index_of(c);
                            assert(self.keys()[j] == c);
                        }
                    }
                }
            },
            None => {
                let mut list: Vec<String> = Vec::new();
                list.push(call.token_id.clone());
                assert(list.deep_view() =~= Seq::<Seq<char>>::empty().insert(0, call.token_id@));
                self.set_nft_tokens(call.collection_id.clone(), list);
            },
        }
    }
}

} // verus!
