//! The consent ledger: the single source of truth for every (owner, requester)
//! pair. Each pair has at most one link, which is either pending or approved;
//! the owner's lists and the requester's lists are views of the same links.

use vstd::prelude::*;

verus! {

/// One consent relationship between an owner and a requester.
#[derive(Clone, Copy, Debug, PartialEq, Eq, Structural)]
pub struct Link {
    pub owner: u64,
    pub requester: u64,
    /// The correlation identifier minted when the request was made.
    pub id: u128,
    pub approved: bool,
}

/// The four bounded per-account lists that the links make up.
#[derive(Clone, Copy, Debug, PartialEq, Eq, Structural)]
pub enum ListKind {
    /// Requesters waiting on an owner.
    OwnerPending,
    /// Requesters an owner has approved.
    OwnerApproved,
    /// Owners a requester is waiting on.
    RequesterPending,
    /// Owners that have approved a requester.
    RequesterApproved,
}

/// Errors of the consent state machine.
#[derive(Clone, Copy, Debug, PartialEq, Eq, Structural)]
pub enum LedgerError {
    AlreadyRequested,
    AlreadyApproved,
    NoRequest,
    MaxListLengthReached,
}

pub open spec fn is_link_of(l: Link, owner: u64, requester: u64) -> bool {
    l.owner == owner && l.requester == requester
}

/// Whether link `l` belongs to list `kind` of account `a`.
pub open spec fn in_list(l: Link, kind: ListKind, a: u64) -> bool {
    match kind {
        ListKind::OwnerPending => l.owner == a && !l.approved,
        ListKind::OwnerApproved => l.owner == a && l.approved,
        ListKind::RequesterPending => l.requester == a && !l.approved,
        ListKind::RequesterApproved => l.requester == a && l.approved,
    }
}

/// The accounts on list `kind` of account `a`, in link order.
pub open spec fn list_of(s: Seq<Link>, kind: ListKind, a: u64) -> Seq<u64>
    decreases s.len(),
{
    if s.len() == 0 {
        Seq::empty()
    } else {
        let rest = list_of(s.drop_last(), kind, a);
        if in_list(s.last(), kind, a) {
            match kind {
                ListKind::OwnerPending | ListKind::OwnerApproved => rest.push(s.last().requester),
                _ => rest.push(s.last().owner),
            }
        } else {
            rest
        }
    }
}

/// The length of list `kind` of account `a`.
pub open spec fn list_len(s: Seq<Link>, kind: ListKind, a: u64) -> nat {
    list_of(s, kind, a).len()
}

pub open spec fn is_present(s: Seq<Link>, owner: u64, requester: u64) -> bool {
    exists|i: int| 0 <= i < s.len() && is_link_of(#[trigger] s[i], owner, requester)
}

pub open spec fn is_pending(s: Seq<Link>, owner: u64, requester: u64) -> bool {
    exists|i: int| 0 <= i < s.len() && is_link_of(#[trigger] s[i], owner, requester) && !s[i].approved
}

pub open spec fn is_approved(s: Seq<Link>, owner: u64, requester: u64) -> bool {
    exists|i: int| 0 <= i < s.len() && is_link_of(#[trigger] s[i], owner, requester) && s[i].approved
}

/// The position of the link of a present pair.
pub open spec fn link_index(s: Seq<Link>, owner: u64, requester: u64) -> int {
    choose|i: int| 0 <= i < s.len() && is_link_of(#[trigger] s[i], owner, requester)
}

/// No pair has two links.
pub open spec fn pairs_unique(s: Seq<Link>) -> bool {
    forall|i: int, j: int|
        0 <= i < s.len() && 0 <= j < s.len() && #[trigger] s[i].owner == #[trigger] s[j].owner
            && s[i].requester == s[j].requester ==> i == j
}

/// Well-formed links: one link per pair, and no list longer than `max`.
pub open spec fn ledger_wf(s: Seq<Link>, max: nat) -> bool {
    &&& pairs_unique(s)
    &&& forall|kind: ListKind, a: u64| #[trigger] list_len(s, kind, a) <= max
}

pub proof fn lemma_list_push(s: Seq<Link>, x: Link, kind: ListKind, a: u64)
    ensures
        list_len(s.push(x), kind, a) == list_len(s, kind, a) + if in_list(x, kind, a) { 1nat } else { 0nat },
{
    assert(s.push(x).drop_last() =~= s);
}

pub proof fn lemma_list_remove(s: Seq<Link>, i: int, kind: ListKind, a: u64)
    requires
        0 <= i < s.len(),
    ensures
        list_len(s.remove(i), kind, a) + (if in_list(s[i], kind, a) { 1nat } else { 0nat })
            == list_len(s, kind, a),
    decreases s.len(),
{
    let t = s.remove(i);
    if i == s.len() - 1 {
        assert(t =~= s.drop_last());
    } else {
        assert(t.drop_last() =~= s.drop_last().remove(i));
        assert(t.last() == s.last());
        lemma_list_remove(s.drop_last(), i, kind, a);
    }
}

/// Two links of one pair in unique links are the same link.
pub proof fn lemma_same_pair(s: Seq<Link>, i: int, j: int)
    requires
        pairs_unique(s),
        0 <= i < s.len(),
        0 <= j < s.len(),
        is_link_of(s[i], s[j].owner, s[j].requester),
    ensures
        i == j,
{
    assert(s[i].owner == s[j].owner);
}

/// Removing the link at `i` takes its account out of each list that held it,
/// at the position that the links before `i` give, and leaves every other
/// list as it was.
pub proof fn lemma_list_of_remove(s: Seq<Link>, i: int, kind: ListKind, a: u64)
    requires
        0 <= i < s.len(),
    ensures
        in_list(s[i], kind, a) ==> list_len(s.take(i), kind, a) < list_len(s, kind, a),
        list_of(s.remove(i), kind, a) == if in_list(s[i], kind, a) {
            list_of(s, kind, a).remove(list_len(s.take(i), kind, a) as int)
        } else {
            list_of(s, kind, a)
        },
    decreases s.len(),
{
    let t = s.remove(i);
    let d = s.drop_last();
    if i == s.len() - 1 {
        assert(t =~= d);
        assert(s.take(i) =~= d);
        if in_list(s[i], kind, a) {
            assert(list_of(s, kind, a).remove(list_len(d, kind, a) as int) =~= list_of(d, kind, a));
        }
    } else {
        assert(t.drop_last() =~= d.remove(i));
        assert(t.last() == s.last());
        assert(d.take(i) =~= s.take(i));
        lemma_list_of_remove(d, i, kind, a);
        if in_list(s[i], kind, a) {
            let l = list_of(d, kind, a);
            let j = list_len(s.take(i), kind, a) as int;
            if in_list(s.last(), kind, a) {
                let y = match kind {
                    ListKind::OwnerPending | ListKind::OwnerApproved => s.last().requester,
                    _ => s.last().owner,
                };
                assert(l.remove(j).push(y) =~= l.push(y).remove(j));
            }
        }
    }
}

/// Removing a link keeps the others unique, in order, and leaves its pair
/// without a link.
pub proof fn lemma_remove_link(s: Seq<Link>, i: int)
    requires
        pairs_unique(s),
        0 <= i < s.len(),
    ensures
        pairs_unique(s.remove(i)),
        forall|j: int| 0 <= j < s.len() - 1 ==> #[trigger] s.remove(i)[j] == s[if j < i { j } else { j + 1 }],
        !is_present(s.remove(i), s[i].owner, s[i].requester),
{
    let t = s.remove(i);
    assert forall|j: int| 0 <= j < s.len() - 1 implies #[trigger] t[j] == s[if j < i { j } else { j + 1 }] by {}
    assert forall|p: int, q: int|
        0 <= p < t.len() && 0 <= q < t.len() && #[trigger] t[p].owner == #[trigger] t[q].owner
            && t[p].requester == t[q].requester implies p == q by {
        let ps = if p < i { p } else { p + 1 };
        let qs = if q < i { q } else { q + 1 };
        assert(t[p] == s[ps] && t[q] == s[qs]);
        lemma_same_pair(s, ps, qs);
    }
    if is_present(t, s[i].owner, s[i].requester) {
        let j = choose|j: int| 0 <= j < t.len() && is_link_of(#[trigger] t[j], s[i].owner, s[i].requester);
        let js = if j < i { j } else { j + 1 };
        assert(t[j] == s[js]);
        lemma_same_pair(s, js, i);
    }
}

/// The link of a pending pair is the pending one.
pub proof fn lemma_pending_link(s: Seq<Link>, owner: u64, requester: u64)
    requires
        pairs_unique(s),
        is_pending(s, owner, requester),
    ensures
        0 <= link_index(s, owner, requester) < s.len(),
        is_link_of(s[link_index(s, owner, requester)], owner, requester),
        !s[link_index(s, owner, requester)].approved,
{
    let j = choose|j: int| 0 <= j < s.len() && is_link_of(#[trigger] s[j], owner, requester) && !s[j].approved;
    assert(is_present(s, owner, requester));
    let k = link_index(s, owner, requester);
    lemma_same_pair(s, j, k);
}

/// What `request` answers on links `s`.
pub open spec fn request_result(s: Seq<Link>, max: nat, owner: u64, requester: u64) -> Result<(), LedgerError> {
    if is_pending(s, owner, requester) {
        Err(LedgerError::AlreadyRequested)
    } else if is_approved(s, owner, requester) {
        Err(LedgerError::AlreadyApproved)
    } else if list_len(s, ListKind::OwnerPending, owner) >= max
        || list_len(s, ListKind::RequesterPending, requester) >= max {
        Err(LedgerError::MaxListLengthReached)
    } else {
        Ok(())
    }
}

/// The links after `request`: a new pending link when it succeeds, else unchanged.
pub open spec fn after_request(s: Seq<Link>, max: nat, owner: u64, requester: u64, id: u128) -> Seq<Link> {
    if request_result(s, max, owner, requester) is Ok {
        s.push(Link { owner, requester, id, approved: false })
    } else {
        s
    }
}

/// What `approve` answers on links `s`: the request's identifier on success.
pub open spec fn approve_result(s: Seq<Link>, max: nat, owner: u64, requester: u64) -> Result<u128, LedgerError> {
    if !is_pending(s, owner, requester) {
        Err(LedgerError::NoRequest)
    } else if list_len(s, ListKind::OwnerApproved, owner) >= max
        || list_len(s, ListKind::RequesterApproved, requester) >= max {
        Err(LedgerError::MaxListLengthReached)
    } else {
        Ok(s[link_index(s, owner, requester)].id)
    }
}

/// A link turned approved, with its identifier kept.
pub open spec fn approved_link(l: Link) -> Link {
    Link { owner: l.owner, requester: l.requester, id: l.id, approved: true }
}

/// The links after `approve`: on success the pair's pending link leaves its
/// place and comes back, approved, at the end.
pub open spec fn after_approve(s: Seq<Link>, max: nat, owner: u64, requester: u64) -> Seq<Link> {
    if approve_result(s, max, owner, requester) is Ok {
        let i = link_index(s, owner, requester);
        s.remove(i).push(approved_link(s[i]))
    } else {
        s
    }
}

/// What `revoke` answers on links `s`.
pub open spec fn revoke_result(s: Seq<Link>, owner: u64, requester: u64) -> Result<(), LedgerError> {
    if is_present(s, owner, requester) {
        Ok(())
    } else {
        Err(LedgerError::NoRequest)
    }
}

/// The links after `revoke`: the pair's link removed, pending or approved.
pub open spec fn after_revoke(s: Seq<Link>, owner: u64, requester: u64) -> Seq<Link> {
    if is_present(s, owner, requester) {
        s.remove(link_index(s, owner, requester))
    } else {
        s
    }
}

/// No pair is ever both pending and approved.
pub proof fn lemma_never_pending_and_approved(s: Seq<Link>, max: nat, owner: u64, requester: u64)
    requires
        ledger_wf(s, max),
    ensures
        !(is_pending(s, owner, requester) && is_approved(s, owner, requester)),
{
    if is_pending(s, owner, requester) && is_approved(s, owner, requester) {
        let i = choose|i: int| 0 <= i < s.len() && is_link_of(#[trigger] s[i], owner, requester) && !s[i].approved;
        let j = choose|j: int| 0 <= j < s.len() && is_link_of(#[trigger] s[j], owner, requester) && s[j].approved;
        lemma_same_pair(s, i, j);
    }
}

/// The owner's lists and the requester's lists agree with the pair's state:
/// `requester` is on `owner`'s pending list exactly when `owner` is on
/// `requester`'s pending list, exactly when the pair is pending; likewise for
/// approved.
pub proof fn lemma_views_agree(s: Seq<Link>, owner: u64, requester: u64)
    ensures
        list_of(s, ListKind::OwnerPending, owner).contains(requester) == is_pending(s, owner, requester),
        list_of(s, ListKind::RequesterPending, requester).contains(owner) == is_pending(s, owner, requester),
        list_of(s, ListKind::OwnerApproved, owner).contains(requester) == is_approved(s, owner, requester),
        list_of(s, ListKind::RequesterApproved, requester).contains(owner) == is_approved(s, owner, requester),
    decreases s.len(),
{
    if s.len() > 0 {
        let t = s.drop_last();
        let x = s.last();
        lemma_views_agree(t, owner, requester);
        assert(is_pending(s, owner, requester) == (is_pending(t, owner, requester)
            || (is_link_of(x, owner, requester) && !x.approved))) by {
            if is_pending(t, owner, requester) {
                let j = choose|j: int| 0 <= j < t.len() && is_link_of(#[trigger] t[j], owner, requester) && !t[j].approved;
                assert(s[j] == t[j]);
            }
            if is_pending(s, owner, requester) && !(is_link_of(x, owner, requester) && !x.approved) {
                let j = choose|j: int| 0 <= j < s.len() && is_link_of(#[trigger] s[j], owner, requester) && !s[j].approved;
                assert(t[j] == s[j]);
            }
            if is_link_of(x, owner, requester) && !x.approved {
                assert(is_link_of(s[s.len() - 1], owner, requester));
            }
        }
        assert(is_approved(s, owner, requester) == (is_approved(t, owner, requester)
            || (is_link_of(x, owner, requester) && x.approved))) by {
            if is_approved(t, owner, requester) {
                let j = choose|j: int| 0 <= j < t.len() && is_link_of(#[trigger] t[j], owner, requester) && t[j].approved;
                assert(s[j] == t[j]);
            }
            if is_approved(s, owner, requester) && !(is_link_of(x, owner, requester) && x.approved) {
                let j = choose|j: int| 0 <= j < s.len() && is_link_of(#[trigger] s[j], owner, requester) && s[j].approved;
                assert(t[j] == s[j]);
            }
            if is_link_of(x, owner, requester) && x.approved {
                assert(is_link_of(s[s.len() - 1], owner, requester));
            }
        }
        let kinds = seq![ListKind::OwnerPending, ListKind::RequesterPending, ListKind::OwnerApproved, ListKind::RequesterApproved];
        assert forall|k: int| 0 <= k < 4 implies {
            let kind = #[trigger] kinds[k];
            let a = match kind { ListKind::OwnerPending | ListKind::OwnerApproved => owner, _ => requester };
            let b = match kind { ListKind::OwnerPending | ListKind::OwnerApproved => requester, _ => owner };
            let rest = list_of(t, kind, a);
            list_of(s, kind, a).contains(b) == (rest.contains(b) || (in_list(x, kind, a)
                && b == match kind { ListKind::OwnerPending | ListKind::OwnerApproved => x.requester, _ => x.owner }))
        } by {
            let kind = kinds[k];
            let a = match kind { ListKind::OwnerPending | ListKind::OwnerApproved => owner, _ => requester };
            let b = match kind { ListKind::OwnerPending | ListKind::OwnerApproved => requester, _ => owner };
            let rest = list_of(t, kind, a);
            let y = match kind { ListKind::OwnerPending | ListKind::OwnerApproved => x.requester, _ => x.owner };
            if in_list(x, kind, a) {
                assert(list_of(s, kind, a) == rest.push(y));
                if rest.contains(b) {
                    let j = choose|j: int| 0 <= j < rest.len() && rest[j] == b;
                    assert(rest.push(y)[j] == b);
                }
                if b == y {
                    assert(rest.push(y)[rest.len() as int] == b);
                }
                if rest.push(y).contains(b) && b != y {
                    let j = choose|j: int| 0 <= j < rest.len() + 1 && rest.push(y)[j] == b;
                    assert(rest[j] == b);
                }
            }
        }
        assert(kinds[0] == ListKind::OwnerPending);
        assert(kinds[1] == ListKind::RequesterPending);
        assert(kinds[2] == ListKind::OwnerApproved);
        assert(kinds[3] == ListKind::RequesterApproved);
    }
}

/// No account appears twice on any list of well-formed links.
pub proof fn lemma_lists_duplicate_free(s: Seq<Link>, kind: ListKind, a: u64)
    requires
        pairs_unique(s),
    ensures
        list_of(s, kind, a).no_duplicates(),
    decreases s.len(),
{
    if s.len() > 0 {
        let t = s.drop_last();
        let x = s.last();
        let n = t.len() as int;
        assert(pairs_unique(t)) by {
            assert forall|i: int, j: int|
                0 <= i < t.len() && 0 <= j < t.len() && #[trigger] t[i].owner == #[trigger] t[j].owner
                    && t[i].requester == t[j].requester implies i == j by {
                assert(s[i] == t[i] && s[j] == t[j]);
            }
        }
        lemma_lists_duplicate_free(t, kind, a);
        if in_list(x, kind, a) {
            let rest = list_of(t, kind, a);
            let y = match kind {
                ListKind::OwnerPending | ListKind::OwnerApproved => x.requester,
                _ => x.owner,
            };
            assert(list_of(s, kind, a) == rest.push(y));
            lemma_views_agree(t, x.owner, x.requester);
            assert(!rest.contains(y)) by {
                if rest.contains(y) {
                    let j = if x.approved {
                        choose|j: int| 0 <= j < t.len() && is_link_of(#[trigger] t[j], x.owner, x.requester) && t[j].approved
                    } else {
                        choose|j: int| 0 <= j < t.len() && is_link_of(#[trigger] t[j], x.owner, x.requester) && !t[j].approved
                    };
                    assert(s[j] == t[j]);
                    assert(s[n] == x);
                    lemma_same_pair(s, j, n);
                }
            }
            assert forall|i: int, j: int|
                0 <= i < rest.push(y).len() && 0 <= j < rest.push(y).len() && i != j
                    implies #[trigger] rest.push(y)[i] != #[trigger] rest.push(y)[j] by {
                if i == rest.len() {
                    assert(rest[j] == rest.push(y)[j]);
                } else if j == rest.len() {
                    assert(rest[i] == rest.push(y)[i]);
                }
            }
        }
    }
}

/// Approving right after a successful request succeeds, with the identifier
/// the request was given, when the approved lists have room.
pub proof fn lemma_request_then_approve(s: Seq<Link>, max: nat, owner: u64, requester: u64, id: u128)
    requires
        ledger_wf(s, max),
        request_result(s, max, owner, requester) is Ok,
        list_len(s, ListKind::OwnerApproved, owner) < max,
        list_len(s, ListKind::RequesterApproved, requester) < max,
    ensures
        approve_result(after_request(s, max, owner, requester, id), max, owner, requester) == Ok::<u128, LedgerError>(id),
{
    let x = Link { owner, requester, id, approved: false };
    let t = s.push(x);
    assert(after_request(s, max, owner, requester, id) == t);
    let n = s.len() as int;
    assert(is_link_of(t[n], owner, requester) && !t[n].approved);
    assert(is_pending(t, owner, requester));
    let k = link_index(t, owner, requester);
    if k < n {
        assert(is_link_of(s[k], owner, requester));
        assert(s[k].approved ==> is_approved(s, owner, requester));
        assert(!s[k].approved ==> is_pending(s, owner, requester));
    }
    assert(k == n);
    lemma_list_push(s, x, ListKind::OwnerApproved, owner);
    lemma_list_push(s, x, ListKind::RequesterApproved, requester);
}

/// Approving a pair that has no pending request fails with `NoRequest` and
/// changes nothing.
pub proof fn lemma_approve_without_request(s: Seq<Link>, max: nat, owner: u64, requester: u64)
    requires
        !is_pending(s, owner, requester),
    ensures
        approve_result(s, max, owner, requester) == Err::<u128, LedgerError>(LedgerError::NoRequest),
        after_approve(s, max, owner, requester) == s,
{
}

/// A second request for the same pair fails with `AlreadyRequested` and
/// changes nothing.
pub proof fn lemma_request_twice(s: Seq<Link>, max: nat, owner: u64, requester: u64, id1: u128, id2: u128)
    requires
        request_result(s, max, owner, requester) is Ok,
    ensures
        request_result(after_request(s, max, owner, requester, id1), max, owner, requester)
            == Err::<(), LedgerError>(LedgerError::AlreadyRequested),
        after_request(after_request(s, max, owner, requester, id1), max, owner, requester, id2)
            == after_request(s, max, owner, requester, id1),
{
    let t = after_request(s, max, owner, requester, id1);
    assert(is_link_of(t[s.len() as int], owner, requester) && !t[s.len() as int].approved);
}

/// A request that would overfill the owner's or the requester's pending list
/// fails with `MaxListLengthReached`, and every list keeps its length.
pub proof fn lemma_request_over_bound(s: Seq<Link>, max: nat, owner: u64, requester: u64, id: u128)
    requires
        !is_present(s, owner, requester),
        list_len(s, ListKind::OwnerPending, owner) >= max
            || list_len(s, ListKind::RequesterPending, requester) >= max,
    ensures
        request_result(s, max, owner, requester) == Err::<(), LedgerError>(LedgerError::MaxListLengthReached),
        forall|kind: ListKind, a: u64|
            #[trigger] list_len(after_request(s, max, owner, requester, id), kind, a) == list_len(s, kind, a),
{
    assert(!is_pending(s, owner, requester));
    assert(!is_approved(s, owner, requester));
}

/// An approval that would overfill the owner's or the requester's approved
/// list fails with `MaxListLengthReached`, and every list keeps its length.
pub proof fn lemma_approve_over_bound(s: Seq<Link>, max: nat, owner: u64, requester: u64)
    requires
        is_pending(s, owner, requester),
        list_len(s, ListKind::OwnerApproved, owner) >= max
            || list_len(s, ListKind::RequesterApproved, requester) >= max,
    ensures
        approve_result(s, max, owner, requester) == Err::<u128, LedgerError>(LedgerError::MaxListLengthReached),
        forall|kind: ListKind, a: u64|
            #[trigger] list_len(after_approve(s, max, owner, requester), kind, a) == list_len(s, kind, a),
{
}

/// A successful request keeps the links well formed, leaves the pair
/// pending, and appends the requester to the owner's pending list and the
/// owner to the requester's pending list; every other list stays as it was.
pub proof fn lemma_request_effect(s: Seq<Link>, max: nat, owner: u64, requester: u64, id: u128)
    requires
        ledger_wf(s, max),
        request_result(s, max, owner, requester) is Ok,
    ensures
        ({
            let t = after_request(s, max, owner, requester, id);
            let x = Link { owner, requester, id, approved: false };
            &&& ledger_wf(t, max)
            &&& is_pending(t, owner, requester)
            &&& list_of(t, ListKind::OwnerPending, owner) == list_of(s, ListKind::OwnerPending, owner).push(requester)
            &&& list_of(t, ListKind::RequesterPending, requester)
                == list_of(s, ListKind::RequesterPending, requester).push(owner)
            &&& forall|kind: ListKind, a: u64| !in_list(x, kind, a) ==> #[trigger] list_of(t, kind, a) == list_of(s, kind, a)
        }),
{
    let x = Link { owner, requester, id, approved: false };
    let t = s.push(x);
    assert(t.drop_last() =~= s);
    assert(!is_present(s, owner, requester)) by {
        if is_present(s, owner, requester) {
            let j = choose|j: int| 0 <= j < s.len() && is_link_of(#[trigger] s[j], owner, requester);
            assert(s[j].approved ==> is_approved(s, owner, requester));
            assert(!s[j].approved ==> is_pending(s, owner, requester));
        }
    }
    assert forall|kind: ListKind, a: u64| #[trigger] list_len(t, kind, a) <= max by {
        lemma_list_push(s, x, kind, a);
    }
    assert forall|i: int, j: int|
        0 <= i < t.len() && 0 <= j < t.len() && #[trigger] t[i].owner == #[trigger] t[j].owner
            && t[i].requester == t[j].requester implies i == j by {
        if i < s.len() && j < s.len() {
            lemma_same_pair(s, i, j);
        } else if i < s.len() {
            assert(is_link_of(s[i], owner, requester));
        } else if j < s.len() {
            assert(is_link_of(s[j], owner, requester));
        }
    }
    assert(is_link_of(t[s.len() as int], owner, requester));
}

/// A successful approval keeps the links well formed, leaves the pair
/// approved and no longer pending, appends the requester to the owner's
/// approved list and the owner to the requester's approved list, and takes
/// each out of the other's pending list; every other list stays as it was.
pub proof fn lemma_approve_effect(s: Seq<Link>, max: nat, owner: u64, requester: u64)
    requires
        ledger_wf(s, max),
        approve_result(s, max, owner, requester) is Ok,
    ensures
        ({
            let t = after_approve(s, max, owner, requester);
            let k = link_index(s, owner, requester);
            &&& ledger_wf(t, max)
            &&& is_approved(t, owner, requester)
            &&& !is_pending(t, owner, requester)
            &&& list_of(t, ListKind::OwnerApproved, owner) == list_of(s, ListKind::OwnerApproved, owner).push(requester)
            &&& list_of(t, ListKind::RequesterApproved, requester)
                == list_of(s, ListKind::RequesterApproved, requester).push(owner)
            &&& list_of(t, ListKind::OwnerPending, owner) == list_of(s, ListKind::OwnerPending, owner).remove(
                list_len(s.take(k), ListKind::OwnerPending, owner) as int,
            )
            &&& list_of(t, ListKind::RequesterPending, requester) == list_of(
                s,
                ListKind::RequesterPending,
                requester,
            ).remove(list_len(s.take(k), ListKind::RequesterPending, requester) as int)
            &&& forall|kind: ListKind, a: u64|
                !in_list(s[k], kind, a) && !in_list(approved_link(s[k]), kind, a)
                    ==> #[trigger] list_of(t, kind, a) == list_of(s, kind, a)
        }),
{
    lemma_pending_link(s, owner, requester);
    let k = link_index(s, owner, requester);
    let x = approved_link(s[k]);
    let r = s.remove(k);
    let t = r.push(x);
    assert(t.drop_last() =~= r);
    lemma_remove_link(s, k);
    assert forall|kind: ListKind, a: u64| #[trigger] list_len(t, kind, a) <= max by {
        lemma_list_remove(s, k, kind, a);
        lemma_list_push(r, x, kind, a);
    }
    assert forall|kind: ListKind, a: u64|
        !in_list(s[k], kind, a) && !in_list(x, kind, a) implies #[trigger] list_of(t, kind, a) == list_of(s, kind, a) by {
        lemma_list_of_remove(s, k, kind, a);
    }
    let n = r.len() as int;
    assert forall|p: int, q: int|
        0 <= p < t.len() && 0 <= q < t.len() && #[trigger] t[p].owner == #[trigger] t[q].owner
            && t[p].requester == t[q].requester implies p == q by {
        if p < n && q < n {
            lemma_same_pair(r, p, q);
        } else if p < n {
            assert(is_link_of(r[p], s[k].owner, s[k].requester));
        } else if q < n {
            assert(is_link_of(r[q], s[k].owner, s[k].requester));
        }
    }
    assert(is_link_of(t[n], owner, requester) && t[n].approved);
    if is_pending(t, owner, requester) {
        let j = choose|j: int| 0 <= j < t.len() && is_link_of(#[trigger] t[j], owner, requester) && !t[j].approved;
        assert(j < n);
        assert(is_link_of(r[j], owner, requester));
    }
    lemma_list_of_remove(s, k, ListKind::OwnerApproved, owner);
    lemma_list_of_remove(s, k, ListKind::RequesterApproved, requester);
    lemma_list_of_remove(s, k, ListKind::OwnerPending, owner);
    lemma_list_of_remove(s, k, ListKind::RequesterPending, requester);
}

/// A successful revocation keeps the links well formed, leaves the pair
/// without a link, and takes each account out of the one list of the other
/// that held it; every other list stays as it was.
pub proof fn lemma_revoke_effect(s: Seq<Link>, max: nat, owner: u64, requester: u64)
    requires
        ledger_wf(s, max),
        is_present(s, owner, requester),
    ensures
        ({
            let t = after_revoke(s, owner, requester);
            let k = link_index(s, owner, requester);
            &&& ledger_wf(t, max)
            &&& !is_present(t, owner, requester)
            &&& forall|kind: ListKind, a: u64| #[trigger] list_of(t, kind, a) == if in_list(s[k], kind, a) {
                list_of(s, kind, a).remove(list_len(s.take(k), kind, a) as int)
            } else {
                list_of(s, kind, a)
            }
        }),
{
    let k = link_index(s, owner, requester);
    lemma_remove_link(s, k);
    assert forall|kind: ListKind, a: u64| #[trigger] list_len(s.remove(k), kind, a) <= max by {
        lemma_list_remove(s, k, kind, a);
    }
    assert forall|kind: ListKind, a: u64| #[trigger] list_of(s.remove(k), kind, a) == if in_list(s[k], kind, a) {
        list_of(s, kind, a).remove(list_len(s.take(k), kind, a) as int)
    } else {
        list_of(s, kind, a)
    } by {
        lemma_list_of_remove(s, k, kind, a);
    }
}

/// Whether link `l` belongs to list `kind` of account `a`.
pub fn link_in_list(l: &Link, kind: ListKind, a: u64) -> (b: bool)
    ensures
        b == in_list(*l, kind, a),
{
    match kind {
        ListKind::OwnerPending => l.owner == a && !l.approved,
        ListKind::OwnerApproved => l.owner == a && l.approved,
        ListKind::RequesterPending => l.requester == a && !l.approved,
        ListKind::RequesterApproved => l.requester == a && l.approved,
    }
}

/// The consent ledger with its configured list bound.
pub struct Ledger {
    links: Vec<Link>,
    max_list_length: u32,
}

impl View for Ledger {
    type V = Seq<Link>;

    closed spec fn view(&self) -> Seq<Link> {
        self.links@
    }
}

impl Ledger {
    /// The bound on every per-account list.
    pub closed spec fn max_len(&self) -> nat {
        self.max_list_length as nat
    }

    pub open spec fn wf(&self) -> bool {
        ledger_wf(self@, self.max_len())
    }

    /// An empty ledger whose lists hold at most `max_list_length` accounts.
    pub fn new(max_list_length: u32) -> (l: Self)
        ensures
            l.wf(),
            l@ == Seq::<Link>::empty(),
            l.max_len() == max_list_length,
    {
        let l = Ledger { links: Vec::new(), max_list_length };
        assert forall|kind: ListKind, a: u64| #[trigger] list_len(l@, kind, a) <= l.max_len() by {
            assert(list_of(l@, kind, a) == Seq::<u64>::empty());
        }
        l
    }

    /// The configured list bound.
    pub fn max_list_length(&self) -> (m: u32)
        ensures
            m == self.max_len(),
    {
        self.max_list_length
    }

    /// The position of the pair's link, if it has one.
    fn find(&self, owner: u64, requester: u64) -> (res: Option<usize>)
        ensures
            match res {
                Some(i) => i < self@.len() && is_link_of(self@[i as int], owner, requester),
                None => !is_present(self@, owner, requester),
            },
    {
        let mut i: usize = 0;
        while i < self.links.len()
            invariant
                i <= self.links@.len(),
                forall|j: int| 0 <= j < i ==> !is_link_of(#[trigger] self.links@[j], owner, requester),
            decreases self.links@.len() - i,
        {
            if self.links[i].owner == owner && self.links[i].requester == requester {
                return Some(i);
            }
            i = i + 1;
        }
        None
    }

    /// The length of list `kind` of account `a`.
    pub fn list_count(&self, kind: ListKind, a: u64) -> (n: usize)
        ensures
            n == list_len(self@, kind, a),
    {
        let mut n: usize = 0;
        let mut i: usize = 0;
        while i < self.links.len()
            invariant
                i <= self.links@.len(),
                n <= i,
                n == list_len(self.links@.subrange(0, i as int), kind, a),
            decreases self.links@.len() - i,
        {
            assert(self.links@.subrange(0, i + 1).drop_last() =~= self.links@.subrange(0, i as int));
            if link_in_list(&self.links[i], kind, a) {
                n = n + 1;
            }
            i = i + 1;
        }
        assert(self.links@.subrange(0, i as int) =~= self.links@);
        n
    }

    /// The accounts on list `kind` of account `a`, in link order.
    pub fn accounts(&self, kind: ListKind, a: u64) -> (v: Vec<u64>)
        ensures
            v@ == list_of(self@, kind, a),
    {
        let mut v: Vec<u64> = Vec::new();
        let mut i: usize = 0;
        while i < self.links.len()
            invariant
                i <= self.links@.len(),
                v@ == list_of(self.links@.subrange(0, i as int), kind, a),
            decreases self.links@.len() - i,
        {
            assert(self.links@.subrange(0, i + 1).drop_last() =~= self.links@.subrange(0, i as int));
            let l = self.links[i];
            if link_in_list(&l, kind, a) {
                match kind {
                    ListKind::OwnerPending | ListKind::OwnerApproved => v.push(l.requester),
                    _ => v.push(l.owner),
                }
            }
            i = i + 1;
        }
        assert(self.links@.subrange(0, i as int) =~= self.links@);
        v
    }

    /// Whether the pair's link is approved: the guard of every record access.
    pub fn is_approved(&self, owner: u64, requester: u64) -> (b: bool)
        requires
            self.wf(),
        ensures
            b == is_approved(self@, owner, requester),
    {
        match self.find(owner, requester) {
            Some(i) => {
                proof {
                    if is_approved(self@, owner, requester) {
                        let j = choose|j: int| 0 <= j < self@.len() && is_link_of(#[trigger] self@[j], owner, requester) && self@[j].approved;
                        lemma_same_pair(self@, j, i as int);
                    }
                    if self@[i as int].approved {
                        assert(is_link_of(self@[i as int], owner, requester));
                    }
                }
                self.links[i].approved
            },
            None => false,
        }
    }

    /// Records that `requester` asks `owner` for access, under identifier `id`.
    pub fn request(&mut self, requester: u64, owner: u64, id: u128) -> (res: Result<(), LedgerError>)
        requires
            old(self).wf(),
        ensures
            final(self).wf(),
            final(self).max_len() == old(self).max_len(),
            res == request_result(old(self)@, old(self).max_len(), owner, requester),
            final(self)@ == after_request(old(self)@, old(self).max_len(), owner, requester, id),
            res is Ok ==> is_pending(final(self)@, owner, requester),
            res is Ok ==> list_of(final(self)@, ListKind::OwnerPending, owner)
                == list_of(old(self)@, ListKind::OwnerPending, owner).push(requester),
            res is Ok ==> list_of(final(self)@, ListKind::RequesterPending, requester)
                == list_of(old(self)@, ListKind::RequesterPending, requester).push(owner),
    {
        let ghost s = self@;
        let ghost max = self.max_len();
        match self.find(owner, requester) {
            Some(i) => {
                proof {
                    if self@[i as int].approved {
                        assert(!is_pending(s, owner, requester)) by {
                            if is_pending(s, owner, requester) {
                                let j = choose|j: int| 0 <= j < s.len() && is_link_of(#[trigger] s[j], owner, requester) && !s[j].approved;
                                lemma_same_pair(s, j, i as int);
                            }
                        }
                    }
                }
                if self.links[i].approved {
                    return Err(LedgerError::AlreadyApproved);
                } else {
                    return Err(LedgerError::AlreadyRequested);
                }
            },
            None => {},
        }
        let m = self.max_list_length as u64;
        if self.list_count(ListKind::OwnerPending, owner) as u64 >= m
            || self.list_count(ListKind::RequesterPending, requester) as u64 >= m {
            return Err(LedgerError::MaxListLengthReached);
        }
        let x = Link { owner, requester, id, approved: false };
        self.links.push(x);
        proof {
            assert(!is_present(s, owner, requester));
            lemma_request_effect(s, max, owner, requester, id);
        }
        Ok(())
    }

    /// Approves the pair's pending request: its link, with its identifier,
    /// moves to the end, approved.
    pub fn approve(&mut self, owner: u64, requester: u64) -> (res: Result<u128, LedgerError>)
        requires
            old(self).wf(),
        ensures
            final(self).wf(),
            final(self).max_len() == old(self).max_len(),
            res == approve_result(old(self)@, old(self).max_len(), owner, requester),
            final(self)@ == after_approve(old(self)@, old(self).max_len(), owner, requester),
            res is Ok ==> is_approved(final(self)@, owner, requester) && !is_pending(final(self)@, owner, requester),
            res is Ok ==> list_of(final(self)@, ListKind::OwnerApproved, owner)
                == list_of(old(self)@, ListKind::OwnerApproved, owner).push(requester),
            res is Ok ==> list_of(final(self)@, ListKind::RequesterApproved, requester)
                == list_of(old(self)@, ListKind::RequesterApproved, requester).push(owner),
            res is Ok ==> list_len(final(self)@, ListKind::OwnerPending, owner) + 1
                == list_len(old(self)@, ListKind::OwnerPending, owner),
            res is Ok ==> list_len(final(self)@, ListKind::RequesterPending, requester) + 1
                == list_len(old(self)@, ListKind::RequesterPending, requester),
            res is Ok ==> !list_of(final(self)@, ListKind::OwnerPending, owner).contains(requester),
            res is Ok ==> !list_of(final(self)@, ListKind::RequesterPending, requester).contains(owner),
    {
        let ghost s = self@;
        let ghost max = self.max_len();
        let i = match self.find(owner, requester) {
            Some(i) => i,
            None => {
                return Err(LedgerError::NoRequest);
            },
        };
        proof {
            assert(is_present(s, owner, requester));
            lemma_same_pair(s, link_index(s, owner, requester), i as int);
        }
        let l = self.links[i];
        if l.approved {
            proof {
                if is_pending(s, owner, requester) {
                    lemma_pending_link(s, owner, requester);
                }
            }
            return Err(LedgerError::NoRequest);
        }
        let m = self.max_list_length as u64;
        if self.list_count(ListKind::OwnerApproved, owner) as u64 >= m
            || self.list_count(ListKind::RequesterApproved, requester) as u64 >= m {
            return Err(LedgerError::MaxListLengthReached);
        }
        let x = Link { owner: l.owner, requester: l.requester, id: l.id, approved: true };
        self.links.remove(i);
        self.links.push(x);
        proof {
            lemma_approve_effect(s, max, owner, requester);
            lemma_list_of_remove(s, i as int, ListKind::OwnerPending, owner);
            lemma_list_of_remove(s, i as int, ListKind::RequesterPending, requester);
            lemma_views_agree(self@, owner, requester);
        }
        Ok(l.id)
    }

    /// Removes the pair's link, whether pending or approved.
    pub fn revoke(&mut self, owner: u64, requester: u64) -> (res: Result<(), LedgerError>)
        requires
            old(self).wf(),
        ensures
            final(self).wf(),
            final(self).max_len() == old(self).max_len(),
            res == revoke_result(old(self)@, owner, requester),
            final(self)@ == after_revoke(old(self)@, owner, requester),
            !is_present(final(self)@, owner, requester),
            res is Ok ==> forall|kind: ListKind, a: u64| #[trigger] list_len(final(self)@, kind, a) == if in_list(
                old(self)@[link_index(old(self)@, owner, requester)],
                kind,
                a,
            ) {
                (list_len(old(self)@, kind, a) - 1) as nat
            } else {
                list_len(old(self)@, kind, a)
            },
    {
        let ghost s = self@;
        let ghost max = self.max_len();
        let i = match self.find(owner, requester) {
            Some(i) => i,
            None => {
                return Err(LedgerError::NoRequest);
            },
        };
        proof {
            assert(is_present(s, owner, requester));
            lemma_same_pair(s, link_index(s, owner, requester), i as int);
        }
        self.links.remove(i);
        proof {
            lemma_revoke_effect(s, max, owner, requester);
            assert forall|kind: ListKind, a: u64| #[trigger] list_len(self@, kind, a) == if in_list(s[i as int], kind, a) {
                (list_len(s, kind, a) - 1) as nat
            } else {
                list_len(s, kind, a)
            } by {
                lemma_list_remove(s, i as int, kind, a);
            }
        }
        Ok(())
    }
}

} // verus!
