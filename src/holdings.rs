use vstd::prelude::*;

verus! {

/// The token ids held for one collection, as handed out by `nft_holdings`.
pub struct NonFungibleTokens {
    pub account_id: String,
    pub tokens: Vec<String>,
}

/// One held token, as handed out by `nft_tokens`: custody makes the treasury
/// itself the owner of every token it lists.
pub struct NonFungibleToken {
    pub id: String,
    pub owner_id: String,
}

/// The treasury's state: its owner, and the ledger that maps each collection
/// (an outside token contract) to the ordered list of token ids held for it.
///
/// The ledger keeps its collections in the order in which they were first
/// recorded; that order is the one that pagination windows index into.
/// `collections[i]` holds the token list `holdings[i]`; code that writes the
/// fields directly must keep `wf`, which every operation here requires.
pub struct Contract {
    pub owner_id: String,
    pub collections: Vec<String>,
    pub holdings: Vec<Vec<String>>,
}

/// The end of a page when the caller gives no `limit`.
pub const DEFAULT_PAGE_END: u64 = 10;

/// Where a page of `nft_holdings` starts.
pub open spec fn page_start(from_index: Option<u64>) -> int {
    match from_index {
        Some(f) => f as int,
        None => 0,
    }
}

/// Where a page of `nft_holdings` ends, before it is cut to the ledger's
/// size: `start + limit` capped at `n` when a limit is given, else the fixed
/// default end (which a start alone does not move).
pub open spec fn page_end(n: int, from_index: Option<u64>, limit: Option<u64>) -> int {
    match limit {
        Some(l) => if page_start(from_index) + l <= n {
            page_start(from_index) + l
        } else {
            n
        },
        None => DEFAULT_PAGE_END as int,
    }
}

/// How many entries a page over `n` collections holds: the indices in
/// `[start, end)` that are below `n`.
pub open spec fn page_len(n: int, from_index: Option<u64>, limit: Option<u64>) -> int {
    let hi = if page_end(n, from_index, limit) <= n {
        page_end(n, from_index, limit)
    } else {
        n
    };
    if hi > page_start(from_index) {
        hi - page_start(from_index)
    } else {
        0
    }
}

/// Copies a list of strings, element for element.
pub(crate) fn clone_strings(v: &Vec<String>) -> (r: Vec<String>)
    ensures
        r.deep_view() == v.deep_view(),
{
    let mut r: Vec<String> = Vec::new();
    let mut i: usize = 0;
    while i < v.len()
        invariant
            i <= v.len(),
            r@.len() == i,
            forall|j: int| 0 <= j < i ==> r@[j]@ == v@[j]@,
        decreases v.len() - i,
    {
        r.push(v[i].clone());
        i = i + 1;
    }
    assert(r.deep_view() =~= v.deep_view());
    r
}

/// In a sequence without repeats, the element at `i` is found at `i`.
pub proof fn lemma_index_of_unique<A>(s: Seq<A>, x: A, i: int)
    requires
        s.no_duplicates(),
        0 <= i < s.len(),
        s[i] == x,
    ensures
        s.index_of(x) == i,
{
    assert(s.contains(x));
    let j = s.index_of(x);
    assert(0 <= j < s.len() && s[j] == x);
}

impl Contract {
    /// The collection ids, in ledger order.
    pub open spec fn keys(&self) -> Seq<Seq<char>> {
        self.collections.deep_view()
    }

    /// The token lists, position for position with `keys`.
    pub open spec fn lists(&self) -> Seq<Seq<Seq<char>>> {
        self.holdings.deep_view()
    }

    /// One list per collection, and each collection recorded once.
    pub open spec fn wf(&self) -> bool {
        &&& self.collections.len() == self.holdings.len()
        &&& self.keys().no_duplicates()
    }

    /// Whether collection `c` has an entry in the ledger.
    pub open spec fn has_collection(&self, c: Seq<char>) -> bool {
        self.keys().contains(c)
    }

    /// The token list of collection `c`, or the empty list when the ledger
    /// has no entry for it.
    pub open spec fn tokens_of(&self, c: Seq<char>) -> Seq<Seq<char>> {
        if self.keys().contains(c) {
            self.lists()[self.keys().index_of(c)]
        } else {
            Seq::empty()
        }
    }

    /// A treasury for `owner_id` that holds nothing yet.
    pub fn new(owner_id: String) -> (r: Contract)
        ensures
            r.wf(),
            r.owner_id@ == owner_id@,
            r.keys().len() == 0,
    {
        Contract { owner_id, collections: Vec::new(), holdings: Vec::new() }
    }

    /// The position of collection `c` in the ledger, if it has an entry.
    pub(crate) fn find_collection(&self, c: &String) -> (r: Option<usize>)
        requires
            self.wf(),
        ensures
            match r {
                Some(i) => i < self.keys().len() && self.keys()[i as int] == c@
                    && self.keys().index_of(c@) == i,
                None => !self.keys().contains(c@),
            },
    {
        let mut i: usize = 0;
        while i < self.collections.len()
            invariant
                self.wf(),
                i <= self.keys().len(),
                forall|j: int| 0 <= j < i ==> self.keys()[j] != c@,
            decreases self.collections.len() - i,
        {
            if self.collections[i] == *c {
                proof {
                    assert(self.keys()[i as int] == c@);
                    lemma_index_of_unique(self.keys(), c@, i as int);
                }
                return Some(i);
            }
            i = i + 1;
        }
        None
    }

    /// Records `token_ids` as the list held for `collection_id`: a collection
    /// already in the ledger keeps its place and has its list replaced, a new
    /// one is added after all others.
    pub fn set_nft_tokens(&mut self, collection_id: String, token_ids: Vec<String>)
        requires
            old(self).wf(),
        ensures
            final(self).wf(),
            final(self).owner_id == old(self).owner_id,
            old(self).has_collection(collection_id@) ==> final(self).keys()
                == old(self).keys(),
            !old(self).has_collection(collection_id@) ==> final(self).keys()
                == old(self).keys().push(collection_id@),
            final(self).tokens_of(collection_id@) == token_ids.deep_view(),
            forall|c: Seq<char>|
                c != collection_id@ ==> #[trigger] final(self).tokens_of(c) == old(self).tokens_of(c),
    {
        let ghost c0 = collection_id@;
        let ghost t0 = token_ids.deep_view();
        match self.find_collection(&collection_id) {
            Some(i) => {
                let ghost before = self.lists();
                let _ = self.holdings.remove(i);
                self.holdings.insert(i, token_ids);
                assert(self.lists() =~= before.update(i as int, t0));
                proof {
                    assert forall|c: Seq<char>| c != c0 implies #[trigger] self.tokens_of(c)
                        == old(self).tokens_of(c) by {
                        if self.keys().contains(c) {
                            let j = self.keys().index_of(c);
                            assert(self.keys()[j] == c);
                        }
                    }
                }
            },
            None => {
                let ghost keys0 = self.keys();
                let ghost lists0 = self.lists();
                self.collections.push(collection_id);
                self.holdings.push(token_ids);
                assert(self.keys() =~= keys0.push(c0));
                assert(self.lists() =~= lists0.push(t0));
                proof {
                    assert(self.keys().no_duplicates()) by {
                        assert forall|a: int, b: int|
                            0 <= a < b < self.keys().len() implies self.keys()[a]
                            != self.keys()[b] by {
                            if b == keys0.len() {
                                assert(keys0.contains(keys0[a]));
                            }
                        }
                    }
                    lemma_index_of_unique(self.keys(), c0, keys0.len() as int);
                    assert forall|c: Seq<char>| c != c0 implies #[trigger] self.tokens_of(c)
                        == old(self).tokens_of(c) by {
                        if keys0.contains(c) {
                            let j = keys0.index_of(c);
                            assert(keys0[j] == c);
                            assert(self.keys()[j] == c);
                            lemma_index_of_unique(self.keys(), c, j);
                        } else {
                            assert(!self.keys().contains(c)) by {
                                if self.keys().contains(c) {
                                    let j = self.keys().index_of(c);
                                    assert(self.keys()[j] == c);
                                    assert(keys0[j] == c);
                                }
                            }
                        }
                    }
                }
            },
        }
    }

    /// The collection ids that the ledger has entries for, in ledger order.
    pub fn get_nft_list(&self) -> (r: Vec<String>)
        ensures
            r.deep_view() == self.keys(),
    {
        clone_strings(&self.collections)
    }

    /// A page of the ledger: the collections at indices `[start, end)` in
    /// ledger order, each with its token list. `start` is `from_index` or 0;
    /// `end` is `start + limit` capped at the number of collections when a
    /// limit is given, else the default end of 10. Indices past the ledger
    /// are skipped, so a start beyond it gives an empty page.
    pub fn nft_holdings(&self, from_index: Option<u64>, limit: Option<u64>) -> (r: Vec<
        NonFungibleTokens,
    >)
        requires
            self.wf(),
        ensures
            r@.len() == page_len(self.keys().len() as int, from_index, limit),
            forall|j: int|
                #![trigger r@[j]]
                0 <= j < r@.len() ==> {
                    &&& r@[j].account_id@ == self.keys()[page_start(from_index) + j]
                    &&& r@[j].tokens.deep_view() == self.lists()[page_start(from_index) + j]
                },
    {
        let mut result: Vec<NonFungibleTokens> = Vec::new();
        let n: u64 = self.collections.len() as u64;
        let start: u64 = match from_index {
            Some(f) => f,
            None => 0,
        };
        let end: u64 = match limit {
            Some(l) => if start <= n && l <= n - start {
                start + l
            } else {
                n
            },
            None => DEFAULT_PAGE_END,
        };
        let hi: u64 = if end <= n {
            end
        } else {
            n
        };
        let mut i: u64 = start;
        while i < hi
            invariant
                self.wf(),
                n == self.keys().len(),
                start == page_start(from_index),
                hi <= n,
                hi as int == if page_end(n as int, from_index, limit) <= n {
                    page_end(n as int, from_index, limit)
                } else {
                    n as int
                },
                start <= i,
                i <= hi || i == start,
                result@.len() == i - start,
                forall|j: int|
                    #![trigger result@[j]]
                    0 <= j < result@.len() ==> {
                        &&& result@[j].account_id@ == self.keys()[start + j]
                        &&& result@[j].tokens.deep_view() == self.lists()[start + j]
                    },
            decreases hi - i,
        {
            let k = i as usize;
            let entry = NonFungibleTokens {
                account_id: self.collections[k].clone(),
                tokens: clone_strings(&self.holdings[k]),
            };
            result.push(entry);
            i = i + 1;
        }
        result
    }

    /// The tokens held for collection `account_id`, in list order, each
    /// owned by the treasury itself (`current_account_id`). A collection
    /// without an entry gives an empty list.
    pub fn nft_tokens(&self, account_id: &String, current_account_id: &String) -> (r: Vec<
        NonFungibleToken,
    >)
        requires
            self.wf(),
        ensures
            r@.len() == self.tokens_of(account_id@).len(),
            forall|j: int|
                #![trigger r@[j]]
                0 <= j < r@.len() ==> {
                    &&& r@[j].id@ == self.tokens_of(account_id@)[j]
                    &&& r@[j].owner_id@ == current_account_id@
                },
    {
        let mut result: Vec<NonFungibleToken> = Vec::new();
        let idx = match self.find_collection(account_id) {
            Some(i) => i,
            None => {
                return result;
            },
        };
        let tokens = &self.holdings[idx];
        let mut k: usize = 0;
        while k < tokens.len()
            invariant
                self.wf(),
                idx < self.keys().len(),
                self.tokens_of(account_id@) == tokens.deep_view(),
                k <= tokens.len(),
                result@.len() == k,
                forall|j: int|
                    #![trigger result@[j]]
                    0 <= j < k ==> {
                        &&& result@[j].id@ == tokens.deep_view()[j]
                        &&& result@[j].owner_id@ == current_account_id@
                    },
            decreases tokens.len() - k,
        {
            let token = NonFungibleToken {
                id: tokens[k].clone(),
                owner_id: current_account_id.clone(),
            };
            result.push(token);
            k = k + 1;
        }
        result
    }
}

} // verus!
