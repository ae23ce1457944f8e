use vstd::prelude::*;
use crate::holdings::{page_len, page_start, Contract};
use crate::transfer::is_first_at;

verus! {

/// With neither `from_index` nor `limit`, a page starts at the first
/// collection and holds at most ten entries: all of them when the ledger has
/// ten or fewer.
pub proof fn lemma_default_page(n: nat)
    ensures
        page_start(None) == 0,
        page_len(n as int, None, None) <= 10,
        page_len(n as int, None, None) == if n <= 10 {
            n as int
        } else {
            10
        },
{
}

/// A page that starts at index 5 with no `limit` covers the indices from 5
/// up to, but not including, 10 that the ledger has: leaving out the limit
/// never carries a page past the default end, however many collections
/// follow.
pub proof fn lemma_page_from_five(n: nat)
    ensures
        page_start(Some(5u64)) == 5,
        page_len(n as int, Some(5u64), None) == if n <= 5 {
            0
        } else if n <= 10 {
            n - 5
        } else {
            5
        },
        page_start(Some(5u64)) + page_len(n as int, Some(5u64), None) <= 10,
{
}

/// A page from index 0 with limit 3 holds exactly `min(3, n)` entries.
pub proof fn lemma_page_first_three(n: nat)
    ensures
        page_len(n as int, Some(0u64), Some(3u64)) == if n <= 3 {
            n as int
        } else {
            3
        },
{
}

/// A transfer whose outbound call failed, once resolved, leaves every
/// collection's list as it was before the transfer: the token goes back to
/// the place that the transfer took it from.
///
/// `before`, `sent` and `resolved` are the ledger before the transfer of
/// token `t` of collection `c`, after it (with `pos` the position it
/// reported), and after the failure was resolved.
pub proof fn lemma_failed_transfer_restores(
    before: Contract,
    sent: Contract,
    resolved: Contract,
    c: Seq<char>,
    t: Seq<char>,
    pos: int,
)
    requires
        is_first_at(before.tokens_of(c), t, pos),
        sent.tokens_of(c) == before.tokens_of(c).remove(pos),
        forall|d: Seq<char>| d != c ==> #[trigger] sent.tokens_of(d) == before.tokens_of(d),
        resolved.tokens_of(c) == sent.tokens_of(c).insert(
            if pos <= sent.tokens_of(c).len() {
                pos
            } else {
                sent.tokens_of(c).len() as int
            },
            t,
        ),
        forall|d: Seq<char>| d != c ==> #[trigger] resolved.tokens_of(d) == sent.tokens_of(d),
    ensures
        forall|d: Seq<char>| #[trigger] resolved.tokens_of(d) == before.tokens_of(d),
{
    assert(resolved.tokens_of(c) =~= before.tokens_of(c));
    assert forall|d: Seq<char>| #[trigger] resolved.tokens_of(d) == before.tokens_of(d) by {
        if d != c {
            assert(sent.tokens_of(d) == before.tokens_of(d));
        }
    }
}

} // verus!
