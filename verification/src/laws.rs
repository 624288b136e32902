//! What holds of the registry whatever it holds: of the order of display, and of
//! the registries that the changes of the application lead to.

use crate::account::{AccountView, DEFAULT_ACCOUNT_ID};
use crate::registry::{
    account_of, activated, active_account, added, display_order, distinct_orders, has_id,
    is_default, is_first_active, is_position, max_order, none_active, orders_swapped, other_than,
    position, removed, reordered, replaced, shown_no_later, slot, sorted, unique_ids, well_formed,
    zoom_raised,
};
use vstd::prelude::*;

verus! {

/// Whether the account at index `x` is shown before the account at index `y`: it is
/// shown no later going by what the two hold, and where that does not decide, it
/// stands earlier in the registry.
pub open spec fn shown_before(s: Seq<AccountView>, x: int, y: int) -> bool {
    !shown_no_later(s[y], s[x]) || (shown_no_later(s[x], s[y]) && x < y)
}

/// Whether `p` lists indices of `s`, each before all that follow it in the order of
/// display.
pub open spec fn in_display_order(s: Seq<AccountView>, p: Seq<int>) -> bool {
    &&& forall|i: int| 0 <= i < p.len() ==> 0 <= #[trigger] p[i] < s.len()
    &&& forall|i: int, j: int| 0 <= i < j < p.len() ==> shown_before(s, #[trigger] p[i], #[trigger] p[j])
}

/// A slot lies between 0 and the number of listed indices.
pub proof fn lemma_slot_in_range(s: Seq<AccountView>, listed: Seq<int>, a: AccountView)
    ensures
        0 <= slot(s, listed, a) <= listed.len(),
    decreases listed.len(),
{
    if listed.len() > 0 && !shown_no_later(s[listed.last()], a) {
        lemma_slot_in_range(s, listed.drop_last(), a);
    }
}

/// A slot parts the listed accounts: the one just before it is shown no later than
/// `a`, and `a` is shown before each one behind it.
pub proof fn lemma_slot_parts(s: Seq<AccountView>, listed: Seq<int>, a: AccountView)
    ensures
        0 <= slot(s, listed, a) <= listed.len(),
        slot(s, listed, a) > 0 ==> shown_no_later(s[listed[slot(s, listed, a) - 1]], a),
        forall|j: int| slot(s, listed, a) <= j < listed.len() ==> !shown_no_later(s[#[trigger] listed[j]], a),
    decreases listed.len(),
{
    if listed.len() > 0 && !shown_no_later(s[listed.last()], a) {
        let shorter = listed.drop_last();
        lemma_slot_parts(s, shorter, a);
        assert forall|j: int| slot(s, listed, a) <= j < listed.len() implies !shown_no_later(
            s[#[trigger] listed[j]],
            a,
        ) by {
            if j < shorter.len() {
                assert(shorter[j] == listed[j]);
            }
        }
    }
}

/// The order of display lists as many indices as the registry has accounts, each of
/// them an index of the registry.
pub proof fn lemma_display_order_indices(s: Seq<AccountView>)
    ensures
        display_order(s).len() == s.len(),
        sorted(s).len() == s.len(),
        forall|i: int| 0 <= i < s.len() ==> 0 <= #[trigger] display_order(s)[i] < s.len(),
    decreases s.len(),
{
    if s.len() > 0 {
        let rest = display_order(s.drop_last());
        lemma_display_order_indices(s.drop_last());
        lemma_slot_in_range(s, rest, s.last());
    }
}

/// The order of display is ordered: every account is listed before all that are
/// shown after it. So the default account comes before the others, a lower display
/// order before a higher one, and accounts of one display order come as the
/// registry holds them.
pub proof fn lemma_display_order_sorted(s: Seq<AccountView>)
    ensures
        in_display_order(s, display_order(s)),
    decreases s.len(),
{
    if s.len() > 0 {
        let n = s.len() as int;
        let shorter = s.drop_last();
        let rest = display_order(shorter);
        let a = s.last();
        let at = slot(s, rest, a);
        let p = display_order(s);
        lemma_display_order_sorted(shorter);
        lemma_display_order_indices(shorter);
        lemma_slot_parts(s, rest, a);
        assert(p == rest.insert(at, n - 1));
        assert forall|i: int| 0 <= i < rest.len() implies s[#[trigger] rest[i]] == shorter[rest[i]] by {}
        assert forall|i: int, j: int| 0 <= i < j < rest.len() implies shown_before(
            s,
            #[trigger] rest[i],
            #[trigger] rest[j],
        ) by {
            assert(shown_before(shorter, rest[i], rest[j]));
            assert(s[rest[i]] == shorter[rest[i]]);
            assert(s[rest[j]] == shorter[rest[j]]);
        }
        assert forall|i: int, j: int| 0 <= i < j < p.len() implies shown_before(
            s,
            #[trigger] p[i],
            #[trigger] p[j],
        ) by {
            if j < at {
                assert(p[i] == rest[i] && p[j] == rest[j]);
            } else if j == at {
                assert(p[i] == rest[i]);
                assert(p[j] == n - 1);
                if i < at - 1 {
                    assert(shown_before(s, rest[i], rest[at - 1]));
                }
                assert(shown_no_later(s[rest[i]], a));
            } else if i < at {
                assert(p[i] == rest[i] && p[j] == rest[j - 1]);
            } else if i == at {
                assert(p[i] == n - 1);
                assert(p[j] == rest[j - 1]);
                assert(!shown_no_later(s[rest[j - 1]], a));
            } else {
                assert(p[i] == rest[i - 1] && p[j] == rest[j - 1]);
            }
        }
    }
}

/// The accounts in the order of display are in order: of any two of them the
/// earlier is shown no later than the other. So behind the accounts with the
/// default id all others follow, in display orders that never fall, whether or not
/// the registry holds an id twice.
pub proof fn lemma_sorted_is_ordered(s: Seq<AccountView>)
    ensures
        sorted(s).len() == s.len(),
        forall|i: int, j: int|
            0 <= i < j < s.len() ==> shown_no_later(#[trigger] sorted(s)[i], #[trigger] sorted(s)[j]),
        forall|i: int, j: int|
            0 <= i < j < s.len() && !is_default(#[trigger] sorted(s)[i]) ==> !is_default(
                #[trigger] sorted(s)[j],
            ) && sorted(s)[i].order <= sorted(s)[j].order,
{
    let p = display_order(s);
    lemma_display_order_indices(s);
    lemma_display_order_sorted(s);
    assert forall|i: int, j: int| 0 <= i < j < s.len() implies shown_no_later(
        #[trigger] sorted(s)[i],
        #[trigger] sorted(s)[j],
    ) by {
        assert(shown_before(s, p[i], p[j]));
        assert(sorted(s)[i] == s[p[i]] && sorted(s)[j] == s[p[j]]);
    }
}

/// No index is listed twice in the order of display.
pub proof fn lemma_display_order_distinct(s: Seq<AccountView>)
    ensures
        forall|i: int, j: int|
            0 <= i < j < s.len() ==> #[trigger] display_order(s)[i] != #[trigger] display_order(s)[j],
{
    lemma_display_order_sorted(s);
    lemma_display_order_indices(s);
    let p = display_order(s);
    assert forall|i: int, j: int| 0 <= i < j < s.len() implies #[trigger] p[i] != #[trigger] p[j] by {
        assert(shown_before(s, p[i], p[j]));
    }
}

/// Every account of the registry is listed in the order of display.
pub proof fn lemma_display_order_complete(s: Seq<AccountView>, k: int)
    requires
        0 <= k < s.len(),
    ensures
        exists|i: int| 0 <= i < s.len() && #[trigger] display_order(s)[i] == k,
    decreases s.len(),
{
    let n = s.len() as int;
    let shorter = s.drop_last();
    let rest = display_order(shorter);
    let at = slot(s, rest, s.last());
    let p = display_order(s);
    lemma_display_order_indices(shorter);
    lemma_display_order_indices(s);
    lemma_slot_in_range(s, rest, s.last());
    assert(p == rest.insert(at, n - 1));
    if k == n - 1 {
        assert(p[at] == k);
    } else {
        lemma_display_order_complete(shorter, k);
        let i = choose|i: int| 0 <= i < shorter.len() && #[trigger] rest[i] == k;
        if i < at {
            assert(p[i] == k);
        } else {
            assert(p[i + 1] == k);
        }
    }
}

/// Where the registry holds the default account, that account is shown first,
/// whatever display orders are stored.
pub proof fn lemma_default_shown_first(s: Seq<AccountView>)
    requires
        has_id(s, DEFAULT_ACCOUNT_ID@),
    ensures
        s.len() > 0,
        sorted(s).len() == s.len(),
        is_default(sorted(s)[0]),
{
    let p = display_order(s);
    lemma_display_order_indices(s);
    lemma_display_order_sorted(s);
    let k = choose|k: int| 0 <= k < s.len() && (#[trigger] s[k]).id == DEFAULT_ACCOUNT_ID@;
    lemma_display_order_complete(s, k);
    let i = choose|i: int| 0 <= i < s.len() && #[trigger] p[i] == k;
    if i > 0 {
        assert(shown_before(s, p[0], p[i]));
    }
    assert(sorted(s)[0] == s[p[0]]);
}

/// The accounts in the order of display are the accounts of the registry: the same
/// ids are held, before and after.
pub proof fn lemma_sorted_holds_same_ids(s: Seq<AccountView>, id: Seq<char>)
    ensures
        has_id(sorted(s), id) == has_id(s, id),
{
    let p = display_order(s);
    lemma_display_order_indices(s);
    if has_id(s, id) {
        let k = choose|k: int| 0 <= k < s.len() && (#[trigger] s[k]).id == id;
        lemma_display_order_complete(s, k);
        let i = choose|i: int| 0 <= i < s.len() && #[trigger] p[i] == k;
        assert(sorted(s)[i].id == id);
    }
    if has_id(sorted(s), id) {
        let i = choose|i: int| 0 <= i < sorted(s).len() && (#[trigger] sorted(s)[i]).id == id;
        assert(s[p[i]].id == id);
    }
}

/// Registering an account keeps the registry well formed.
pub proof fn lemma_added_well_formed(s: Seq<AccountView>, a: AccountView)
    requires
        well_formed(s),
    ensures
        well_formed(added(s, a)),
{
    let t = added(s, a);
    if !has_id(s, a.id) {
        assert(forall|i: int| 0 <= i < s.len() ==> t[i] == s[i]);
        assert(t[s.len() as int].id == a.id);
        assert forall|i: int, j: int| 0 <= i < j < t.len() implies (#[trigger] t[i]).id != (#[trigger] t[j]).id by {
            if j == s.len() {
                assert(s[i].id != a.id);
            } else {
                assert(s[i].id != s[j].id);
            }
        }
        if s.len() > 0 {
            let k = choose|k: int| 0 <= k < s.len() && (#[trigger] s[k]).is_active;
            assert(t[k].is_active);
        } else {
            assert(t[0].is_active);
        }
    }
}

/// What is left after some accounts went holds no id twice, where the registry held
/// none twice, and every account left was in the registry.
pub proof fn lemma_filter_unique(s: Seq<AccountView>, id: Seq<char>)
    requires
        unique_ids(s),
    ensures
        unique_ids(s.filter(other_than(id))),
        forall|i: int|
            0 <= i < s.filter(other_than(id)).len() ==> s.contains(#[trigger] s.filter(other_than(id))[i]),
    decreases s.len(),
{
    reveal(Seq::filter);
    let keep = other_than(id);
    let kept = s.filter(keep);
    if s.len() > 0 {
        let shorter = s.drop_last();
        let before = shorter.filter(keep);
        assert(forall|i: int| 0 <= i < shorter.len() ==> shorter[i] == s[i]);
        lemma_filter_unique(shorter, id);
        assert forall|i: int| 0 <= i < kept.len() implies s.contains(#[trigger] kept[i]) by {
            if i < before.len() {
                assert(kept[i] == before[i]);
                assert(shorter.contains(before[i]));
                let k = choose|k: int| 0 <= k < shorter.len() && shorter[k] == before[i];
                assert(s[k] == kept[i]);
            } else {
                assert(kept[i] == s[s.len() - 1]);
            }
        }
        assert forall|i: int, j: int| 0 <= i < j < kept.len() implies (#[trigger] kept[i]).id != (
        #[trigger] kept[j]).id by {
            if j < before.len() {
                assert(kept[i] == before[i] && kept[j] == before[j]);
            } else {
                assert(kept[i] == before[i]);
                assert(shorter.contains(before[i]));
                let k = choose|k: int| 0 <= k < shorter.len() && shorter[k] == before[i];
                assert(s[k].id != s[s.len() - 1].id);
            }
        }
    }
}

/// Removing accounts keeps the registry well formed: where the active account
/// went, the first account left in the order of display is active afterwards.
pub proof fn lemma_removed_well_formed(s: Seq<AccountView>, id: Seq<char>)
    requires
        well_formed(s),
    ensures
        well_formed(removed(s, id)),
{
    let kept = s.filter(other_than(id));
    let t = removed(s, id);
    lemma_filter_unique(s, id);
    assert forall|i: int, j: int| 0 <= i < j < kept.len() implies !((#[trigger] kept[i]).is_active && (
    #[trigger] kept[j]).is_active) by {
        assert(s.contains(kept[i]));
        assert(s.contains(kept[j]));
        let x = choose|x: int| 0 <= x < s.len() && s[x] == kept[i];
        let y = choose|y: int| 0 <= y < s.len() && s[y] == kept[j];
        assert(kept[i].id != kept[j].id);
        if x < y {
            assert(!(s[x].is_active && s[y].is_active));
        } else {
            assert(!(s[y].is_active && s[x].is_active));
        }
    }
    if kept.len() > 0 && none_active(kept) {
        lemma_display_order_indices(kept);
        let k = display_order(kept)[0];
        assert(t == kept.update(k, AccountView { is_active: true, ..kept[k] }));
        assert(t[k].is_active);
        assert forall|i: int, j: int| 0 <= i < j < t.len() implies (#[trigger] t[i]).id != (#[trigger] t[j]).id by {
            assert(t[i].id == kept[i].id && t[j].id == kept[j].id);
        }
        assert forall|i: int, j: int| 0 <= i < j < t.len() implies !((#[trigger] t[i]).is_active && (
        #[trigger] t[j]).is_active) by {
            if i != k {
                assert(t[i] == kept[i]);
            }
            if j != k {
                assert(t[j] == kept[j]);
            }
        }
    }
}

/// Choosing an account for use keeps the registry well formed.
pub proof fn lemma_activated_well_formed(s: Seq<AccountView>, id: Seq<char>)
    requires
        well_formed(s),
    ensures
        well_formed(activated(s, id)),
{
    let t = activated(s, id);
    if has_id(s, id) {
        let k = choose|k: int| 0 <= k < s.len() && (#[trigger] s[k]).id == id;
        assert(t[k].is_active);
        assert forall|i: int, j: int| 0 <= i < j < t.len() implies (#[trigger] t[i]).id != (#[trigger] t[j]).id by {
            assert(s[i].id != s[j].id);
        }
        assert forall|i: int, j: int| 0 <= i < j < t.len() implies !((#[trigger] t[i]).is_active && (
        #[trigger] t[j]).is_active) by {
            assert(s[i].id != s[j].id);
        }
    }
}

/// Replacing an account by one with its id and its active mark keeps the registry
/// well formed. Renaming, permissions, zoom, the unread mark and the
/// session mark are such replacements.
pub proof fn lemma_replaced_well_formed(s: Seq<AccountView>, id: Seq<char>, a: AccountView)
    requires
        well_formed(s),
        has_id(s, id) ==> a.id == account_of(s, id).id && a.is_active == account_of(s, id).is_active,
    ensures
        well_formed(replaced(s, id, a)),
{
    let t = replaced(s, id, a);
    if has_id(s, id) {
        let w = choose|k: int| 0 <= k < s.len() && (#[trigger] s[k]).id == id;
        lemma_position_exists(s, id);
        let k = position(s, id);
        assert(is_position(s, id, k));
        assert forall|i: int| 0 <= i < s.len() implies (#[trigger] t[i]).id == s[i].id && t[i].is_active
            == s[i].is_active by {}
        assert forall|i: int, j: int| 0 <= i < j < t.len() implies (#[trigger] t[i]).id != (#[trigger] t[j]).id by {
            assert(s[i].id != s[j].id);
        }
        assert forall|i: int, j: int| 0 <= i < j < t.len() implies !((#[trigger] t[i]).is_active && (
        #[trigger] t[j]).is_active) by {
            assert(!(s[i].is_active && s[j].is_active));
        }
        let v = choose|v: int| 0 <= v < s.len() && (#[trigger] s[v]).is_active;
        assert(t[v].is_active);
    }
}

/// Where some account has the id `id`, one of them is the first.
pub proof fn lemma_position_exists(s: Seq<AccountView>, id: Seq<char>)
    requires
        has_id(s, id),
    ensures
        is_position(s, id, position(s, id)),
    decreases s.len(),
{
    let shorter = s.drop_last();
    assert(forall|i: int| 0 <= i < shorter.len() ==> shorter[i] == s[i]);
    if has_id(shorter, id) {
        lemma_position_exists(shorter, id);
        let k = position(shorter, id);
        assert(s[k].id == id);
        assert forall|j: int| 0 <= j < k implies (#[trigger] s[j]).id != id by {
            assert(shorter[j].id != id);
        }
        assert(is_position(s, id, k));
    } else {
        let w = choose|w: int| 0 <= w < s.len() && (#[trigger] s[w]).id == id;
        if w < s.len() - 1 {
            assert(shorter[w].id == id);
        }
        assert forall|j: int| 0 <= j < s.len() - 1 implies (#[trigger] s[j]).id != id by {
            assert(shorter[j].id == s[j].id);
        }
        assert(is_position(s, id, s.len() - 1));
    }
}

/// Moving an account changes display orders only, and never that of the default
/// account: every account keeps its place in the registry and all else that it
/// holds.
pub proof fn lemma_reordered_frame(s: Seq<AccountView>, id: Seq<char>, direction: i32)
    ensures
        reordered(s, id, direction).len() == s.len(),
        forall|k: int|
            0 <= k < s.len() ==> (#[trigger] reordered(s, id, direction)[k]) == (AccountView {
                order: reordered(s, id, direction)[k].order,
                ..s[k]
            }),
        forall|k: int| 0 <= k < s.len() && is_default(s[k]) ==> (#[trigger] reordered(s, id, direction)[k]) == s[k],
{
    let t = reordered(s, id, direction);
    let p = display_order(s);
    let shown = sorted(s);
    lemma_display_order_indices(s);
    lemma_display_order_sorted(s);
    if id != DEFAULT_ACCOUNT_ID@ && has_id(shown, id) {
        lemma_position_exists(shown, id);
        let r = position(shown, id);
        assert(shown[r] == s[p[r]]);
        assert(!is_default(s[p[r]]));
        if direction < 0 {
            if r > 0 && !is_default(shown[r - 1]) {
                assert(shown[r - 1] == s[p[r - 1]]);
                assert(t == orders_swapped(s, p[r], p[r - 1]));
            }
        } else {
            if r + 1 < shown.len() {
                assert(shown[r + 1] == s[p[r + 1]]);
                assert(shown_before(s, p[r], p[r + 1]));
                assert(!is_default(s[p[r + 1]]));
                assert(t == orders_swapped(s, p[r], p[r + 1]));
            }
        }
    }
}

/// Moving an account keeps the registry well formed.
pub proof fn lemma_reordered_well_formed(s: Seq<AccountView>, id: Seq<char>, direction: i32)
    requires
        well_formed(s),
    ensures
        well_formed(reordered(s, id, direction)),
{
    let t = reordered(s, id, direction);
    lemma_reordered_frame(s, id, direction);
    assert forall|i: int, j: int| 0 <= i < j < t.len() implies (#[trigger] t[i]).id != (#[trigger] t[j]).id by {
        assert(s[i].id != s[j].id);
    }
    assert forall|i: int, j: int| 0 <= i < j < t.len() implies !((#[trigger] t[i]).is_active && (
    #[trigger] t[j]).is_active) by {
        assert(!(s[i].is_active && s[j].is_active));
    }
    if s.len() > 0 {
        let v = choose|v: int| 0 <= v < s.len() && (#[trigger] s[v]).is_active;
        assert(t[v].is_active);
    }
}

/// Raising zoom levels keeps the registry well formed.
pub proof fn lemma_zoom_raised_well_formed(s: Seq<AccountView>, floor: u32)
    requires
        well_formed(s),
    ensures
        well_formed(zoom_raised(s, floor)),
{
    let t = zoom_raised(s, floor);
    assert forall|i: int, j: int| 0 <= i < j < t.len() implies (#[trigger] t[i]).id != (#[trigger] t[j]).id by {
        assert(s[i].id != s[j].id);
    }
    assert forall|i: int, j: int| 0 <= i < j < t.len() implies !((#[trigger] t[i]).is_active && (
    #[trigger] t[j]).is_active) by {
        assert(!(s[i].is_active && s[j].is_active));
    }
    if s.len() > 0 {
        let v = choose|v: int| 0 <= v < s.len() && (#[trigger] s[v]).is_active;
        assert(t[v].is_active);
    }
}

/// A change that the application asks of the registry.
pub enum Change {
    /// Register this account.
    Add(AccountView),
    /// Remove the account of this id; refused for the default account.
    Remove(Seq<char>),
    /// Choose the account of this id for use.
    Activate(Seq<char>),
    /// Move the account of this id up (below zero) or down.
    Move(Seq<char>, i32),
}

/// The registry after one change.
pub open spec fn changed(s: Seq<AccountView>, change: Change) -> Seq<AccountView> {
    match change {
        Change::Add(a) => added(s, a),
        Change::Remove(id) => if id == DEFAULT_ACCOUNT_ID@ {
            s
        } else {
            removed(s, id)
        },
        Change::Activate(id) => activated(s, id),
        Change::Move(id, direction) => reordered(s, id, direction),
    }
}

/// The registry that an empty one becomes by the changes `changes`, one after another.
pub open spec fn replayed(changes: Seq<Change>) -> Seq<AccountView>
    decreases changes.len(),
{
    if changes.len() == 0 {
        Seq::empty()
    } else {
        changed(replayed(changes.drop_last()), changes.last())
    }
}

/// Whatever accounts are added, removed, chosen and moved, in whatever order: the
/// registry never holds an id twice, never has two active accounts, and has an
/// active account whenever it holds one at all.
pub proof fn lemma_registry_stays_well_formed(changes: Seq<Change>)
    ensures
        well_formed(replayed(changes)),
    decreases changes.len(),
{
    if changes.len() > 0 {
        let before = replayed(changes.drop_last());
        lemma_registry_stays_well_formed(changes.drop_last());
        match changes.last() {
            Change::Add(a) => lemma_added_well_formed(before, a),
            Change::Remove(id) => {
                if id != DEFAULT_ACCOUNT_ID@ {
                    lemma_removed_well_formed(before, id);
                }
            },
            Change::Activate(id) => lemma_activated_well_formed(before, id),
            Change::Move(id, direction) => lemma_reordered_well_formed(before, id, direction),
        }
    }
}

/// The default account, once registered, stays registered under every change.
pub proof fn lemma_default_account_stays(s: Seq<AccountView>, change: Change)
    requires
        has_id(s, DEFAULT_ACCOUNT_ID@),
    ensures
        has_id(changed(s, change), DEFAULT_ACCOUNT_ID@),
{
    let t = changed(s, change);
    let k = choose|k: int| 0 <= k < s.len() && (#[trigger] s[k]).id == DEFAULT_ACCOUNT_ID@;
    match change {
        Change::Add(a) => {
            assert(t[k].id == DEFAULT_ACCOUNT_ID@);
        },
        Change::Remove(id) => {
            if id != DEFAULT_ACCOUNT_ID@ {
                let keep = other_than(id);
                let kept = s.filter(keep);
                assert(keep(s[k]));
                s.lemma_filter_contains(keep, k);
                let w = choose|w: int| 0 <= w < kept.len() && kept[w] == s[k];
                lemma_display_order_indices(kept);
                assert(t[w].id == DEFAULT_ACCOUNT_ID@);
            }
        },
        Change::Activate(id) => {
            assert(t[k].id == DEFAULT_ACCOUNT_ID@);
        },
        Change::Move(id, direction) => {
            lemma_reordered_frame(s, id, direction);
            assert(t[k].id == DEFAULT_ACCOUNT_ID@);
        },
    }
}

/// The account in use after a removal is not the account that was removed.
pub proof fn lemma_active_is_not_removed(s: Seq<AccountView>, id: Seq<char>)
    ensures
        active_account(removed(s, id)) matches Some(a) ==> a.id != id,
{
    let keep = other_than(id);
    let kept = s.filter(keep);
    let t = removed(s, id);
    lemma_display_order_indices(kept);
    assert forall|i: int| 0 <= i < t.len() implies (#[trigger] t[i]).id != id by {
        s.lemma_filter_pred(keep, i);
        assert(keep(kept[i]));
        assert(t[i].id == kept[i].id);
    }
    if t.len() > 0 {
        if !none_active(t) {
            let w = choose|w: int| 0 <= w < t.len() && (#[trigger] t[w]).is_active;
            lemma_first_active_exists(t);
        }
    }
}

/// Where some account is marked active, one of them is the first.
pub proof fn lemma_first_active_exists(s: Seq<AccountView>)
    requires
        !none_active(s),
    ensures
        is_first_active(s, choose|i: int| is_first_active(s, i)),
    decreases s.len(),
{
    let shorter = s.drop_last();
    assert(forall|i: int| 0 <= i < shorter.len() ==> shorter[i] == s[i]);
    if !none_active(shorter) {
        lemma_first_active_exists(shorter);
        let k = choose|i: int| is_first_active(shorter, i);
        assert(s[k].is_active);
        assert forall|j: int| 0 <= j < k implies !(#[trigger] s[j]).is_active by {
            assert(!shorter[j].is_active);
        }
        assert(is_first_active(s, k));
    } else {
        let w = choose|w: int| 0 <= w < s.len() && (#[trigger] s[w]).is_active;
        if w < s.len() - 1 {
            assert(shorter[w].is_active);
        }
        assert forall|j: int| 0 <= j < s.len() - 1 implies !(#[trigger] s[j]).is_active by {
            assert(!shorter[j].is_active);
        }
        assert(is_first_active(s, s.len() - 1));
    }
}

/// Choosing an account neither adds nor removes one.
pub proof fn lemma_activated_keeps_ids(s: Seq<AccountView>, id: Seq<char>, other: Seq<char>)
    ensures
        has_id(activated(s, id), other) == has_id(s, other),
{
    let t = activated(s, id);
    if has_id(s, other) {
        let w = choose|w: int| 0 <= w < s.len() && (#[trigger] s[w]).id == other;
        assert(t[w].id == other);
    }
    if has_id(t, other) {
        let w = choose|w: int| 0 <= w < t.len() && (#[trigger] t[w]).id == other;
        assert(s[w].id == other);
    }
}

/// Replacing an account by one with its id changes nothing else: the registry holds
/// the same ids as before, as many accounts as before, and the account of that id is
/// the new one.
pub proof fn lemma_replaced_keeps(s: Seq<AccountView>, id: Seq<char>, a: AccountView)
    requires
        has_id(s, id) ==> a.id == account_of(s, id).id,
    ensures
        replaced(s, id, a).len() == s.len(),
        forall|other: Seq<char>| #[trigger] has_id(replaced(s, id, a), other) == has_id(s, other),
        has_id(s, id) ==> account_of(replaced(s, id, a), id) == a,
{
    let t = replaced(s, id, a);
    if has_id(s, id) {
        lemma_position_exists(s, id);
        let k = position(s, id);
        assert forall|i: int| 0 <= i < s.len() implies (#[trigger] t[i]).id == s[i].id by {}
        assert(is_position(t, id, k)) by {
            assert forall|j: int| 0 <= j < k implies (#[trigger] t[j]).id != id by {
                assert(s[j].id != id);
            }
        }
        assert(has_id(t, id));
        lemma_position_exists(t, id);
        assert forall|other: Seq<char>| #[trigger] has_id(t, other) == has_id(s, other) by {
            if has_id(s, other) {
                let w = choose|w: int| 0 <= w < s.len() && (#[trigger] s[w]).id == other;
                assert(t[w].id == other);
            }
            if has_id(t, other) {
                let w = choose|w: int| 0 <= w < t.len() && (#[trigger] t[w]).id == other;
                assert(s[w].id == other);
            }
        }
    }
}

/// Choosing an account changes no id and no number: the registry holds the same
/// ids as before, and the account chosen is the account in use afterwards.
pub proof fn lemma_activated_keeps(s: Seq<AccountView>, id: Seq<char>)
    ensures
        activated(s, id).len() == s.len(),
        forall|other: Seq<char>| #[trigger] has_id(activated(s, id), other) == has_id(s, other),
        has_id(s, id) ==> active_account(activated(s, id)) == Some(account_of(activated(s, id), id))
            && account_of(activated(s, id), id).id == id,
{
    let t = activated(s, id);
    assert forall|other: Seq<char>| #[trigger] has_id(t, other) == has_id(s, other) by {
        lemma_activated_keeps_ids(s, id, other);
    }
    if has_id(s, id) {
        lemma_position_exists(s, id);
        let k = position(s, id);
        assert(t[k].id == id && t[k].is_active);
        assert(is_position(t, id, k)) by {
            assert forall|j: int| 0 <= j < k implies (#[trigger] t[j]).id != id by {
                assert(s[j].id != id);
            }
        }
        assert(has_id(t, id));
        lemma_position_exists(t, id);
        assert(is_first_active(t, k)) by {
            assert forall|j: int| 0 <= j < k implies !(#[trigger] t[j]).is_active by {
                assert(s[j].id != id);
            }
        }
        assert(!none_active(t));
        let f = choose|i: int| is_first_active(t, i);
        assert(f == k);
    }
}

/// Registering an account adds its id and no other, where the id was free.
pub proof fn lemma_added_keeps(s: Seq<AccountView>, a: AccountView)
    ensures
        added(s, a).len() == (if has_id(s, a.id) {
            s.len()
        } else {
            s.len() + 1
        }),
        forall|other: Seq<char>| #[trigger] has_id(added(s, a), other) == (has_id(s, other) || other == a.id),
        forall|i: int| 0 <= i < s.len() ==> #[trigger] added(s, a)[i] == s[i],
{
    let t = added(s, a);
    assert forall|other: Seq<char>| #[trigger] has_id(t, other) == (has_id(s, other) || other == a.id) by {
        if has_id(s, other) {
            let w = choose|w: int| 0 <= w < s.len() && (#[trigger] s[w]).id == other;
            assert(t[w].id == other);
        }
        if has_id(t, other) && other != a.id {
            let w = choose|w: int| 0 <= w < t.len() && (#[trigger] t[w]).id == other;
            assert(s[w].id == other);
        }
        if other == a.id && !has_id(s, a.id) {
            assert(t[s.len() as int].id == a.id);
        }
    }
}

/// Removing an account removes its id and no other.
pub proof fn lemma_removed_keeps(s: Seq<AccountView>, id: Seq<char>)
    ensures
        !has_id(removed(s, id), id),
        forall|other: Seq<char>| other != id ==> #[trigger] has_id(removed(s, id), other) == has_id(s, other),
        removed(s, id).len() <= s.len(),
        !has_id(s, id) ==> removed(s, id).len() == s.len(),
{
    let keep = other_than(id);
    let kept = s.filter(keep);
    let t = removed(s, id);
    lemma_display_order_indices(kept);
    s.lemma_filter_len(keep);
    assert forall|i: int| 0 <= i < t.len() implies (#[trigger] t[i]).id == kept[i].id by {}
    assert forall|i: int| 0 <= i < kept.len() implies (#[trigger] kept[i]).id != id by {
        s.lemma_filter_pred(keep, i);
        assert(keep(kept[i]));
    }
    if has_id(t, id) {
        let w = choose|w: int| 0 <= w < t.len() && (#[trigger] t[w]).id == id;
        assert(kept[w].id == id);
    }
    assert forall|other: Seq<char>| other != id implies #[trigger] has_id(t, other) == has_id(s, other) by {
        lemma_filter_holds(s, id, other);
        if has_id(kept, other) {
            let w = choose|w: int| 0 <= w < kept.len() && (#[trigger] kept[w]).id == other;
            assert(t[w].id == other);
        }
        if has_id(t, other) {
            let w = choose|w: int| 0 <= w < t.len() && (#[trigger] t[w]).id == other;
            assert(kept[w].id == other);
        }
    }
    if !has_id(s, id) {
        lemma_filter_all(s, id);
    }
}

/// What is left after the accounts of one id went holds every other id that the
/// registry held, and none that it did not hold.
pub proof fn lemma_filter_holds(s: Seq<AccountView>, gone: Seq<char>, other: Seq<char>)
    requires
        other != gone,
    ensures
        has_id(s.filter(other_than(gone)), other) == has_id(s, other),
    decreases s.len(),
{
    reveal(Seq::filter);
    let keep = other_than(gone);
    let kept = s.filter(keep);
    if s.len() > 0 {
        let shorter = s.drop_last();
        let before = shorter.filter(keep);
        lemma_filter_holds(shorter, gone, other);
        assert(forall|i: int| 0 <= i < shorter.len() ==> shorter[i] == s[i]);
        if has_id(s, other) {
            let w = choose|w: int| 0 <= w < s.len() && (#[trigger] s[w]).id == other;
            if w < shorter.len() {
                assert(shorter[w].id == other);
                let v = choose|v: int| 0 <= v < before.len() && (#[trigger] before[v]).id == other;
                assert(kept[v].id == other);
            } else {
                assert(keep(s.last()));
                assert(kept[before.len() as int].id == other);
            }
        }
        if has_id(kept, other) {
            let w = choose|w: int| 0 <= w < kept.len() && (#[trigger] kept[w]).id == other;
            if w < before.len() {
                assert(before[w].id == other);
                let v = choose|v: int| 0 <= v < shorter.len() && (#[trigger] shorter[v]).id == other;
                assert(s[v].id == other);
            } else {
                assert(s[s.len() - 1].id == other);
            }
        }
    } else {
        if has_id(kept, other) {
            let w = choose|w: int| 0 <= w < kept.len() && (#[trigger] kept[w]).id == other;
        }
        if has_id(s, other) {
            let w = choose|w: int| 0 <= w < s.len() && (#[trigger] s[w]).id == other;
        }
    }
}

/// Where no account has the id, nothing goes.
pub proof fn lemma_filter_all(s: Seq<AccountView>, gone: Seq<char>)
    requires
        !has_id(s, gone),
    ensures
        s.filter(other_than(gone)) == s,
    decreases s.len(),
{
    reveal(Seq::filter);
    let keep = other_than(gone);
    if s.len() > 0 {
        let shorter = s.drop_last();
        assert(forall|i: int| 0 <= i < shorter.len() ==> shorter[i] == s[i]);
        if has_id(shorter, gone) {
            let w = choose|w: int| 0 <= w < shorter.len() && (#[trigger] shorter[w]).id == gone;
            assert(s[w].id == gone);
        }
        lemma_filter_all(shorter, gone);
        assert(s[s.len() - 1].id != gone);
        assert(keep(s.last()));
        assert(s.filter(keep) =~= s);
    }
}

/// Moving an account changes no id and no number of accounts.
pub proof fn lemma_reordered_keeps(s: Seq<AccountView>, id: Seq<char>, direction: i32)
    ensures
        reordered(s, id, direction).len() == s.len(),
        forall|other: Seq<char>| #[trigger] has_id(reordered(s, id, direction), other) == has_id(s, other),
{
    let t = reordered(s, id, direction);
    lemma_reordered_frame(s, id, direction);
    assert forall|other: Seq<char>| #[trigger] has_id(t, other) == has_id(s, other) by {
        if has_id(s, other) {
            let w = choose|w: int| 0 <= w < s.len() && (#[trigger] s[w]).id == other;
            assert(t[w].id == other);
        }
        if has_id(t, other) {
            let w = choose|w: int| 0 <= w < t.len() && (#[trigger] t[w]).id == other;
            assert(s[w].id == other);
        }
    }
}

/// Raising zoom levels changes no id and no number of accounts.
pub proof fn lemma_zoom_raised_keeps(s: Seq<AccountView>, floor: u32)
    ensures
        zoom_raised(s, floor).len() == s.len(),
        forall|other: Seq<char>| #[trigger] has_id(zoom_raised(s, floor), other) == has_id(s, other),
{
    let t = zoom_raised(s, floor);
    assert forall|other: Seq<char>| #[trigger] has_id(t, other) == has_id(s, other) by {
        if has_id(s, other) {
            let w = choose|w: int| 0 <= w < s.len() && (#[trigger] s[w]).id == other;
            assert(t[w].id == other);
        }
        if has_id(t, other) {
            let w = choose|w: int| 0 <= w < t.len() && (#[trigger] t[w]).id == other;
            assert(s[w].id == other);
        }
    }
}

/// The greatest display order is one that an account has, and no account has a
/// greater one; it is -1 where there is no account.
pub proof fn lemma_max_order(s: Seq<AccountView>)
    ensures
        forall|i: int| 0 <= i < s.len() ==> (#[trigger] s[i]).order <= max_order(s),
        s.len() > 0 ==> exists|i: int| 0 <= i < s.len() && (#[trigger] s[i]).order == max_order(s),
        s.len() == 0 ==> max_order(s) == -1,
        i32::MIN <= max_order(s) <= i32::MAX,
    decreases s.len(),
{
    if s.len() == 1 {
        assert(s[0].order == max_order(s));
    } else if s.len() > 1 {
        let shorter = s.drop_last();
        lemma_max_order(shorter);
        assert forall|i: int| 0 <= i < s.len() implies (#[trigger] s[i]).order <= max_order(s) by {
            if i < shorter.len() {
                assert(shorter[i].order <= max_order(shorter));
            }
        }
        if s.last().order > max_order(shorter) {
            assert(s[s.len() - 1].order == max_order(s));
        } else {
            let w = choose|w: int| 0 <= w < shorter.len() && (#[trigger] shorter[w]).order == max_order(shorter);
            assert(s[w].order == max_order(s));
        }
    }
}

/// The account in use is an account of the registry.
pub proof fn lemma_active_is_registered(s: Seq<AccountView>)
    ensures
        active_account(s) matches Some(a) ==> has_id(s, a.id) && s.contains(a),
        s.len() > 0 ==> active_account(s) is Some,
{
    if s.len() > 0 {
        if none_active(s) {
            assert(s[0].id == s[0].id);
            assert(s.contains(s[0]));
        } else {
            lemma_first_active_exists(s);
            let k = choose|i: int| is_first_active(s, i);
            assert(s[k].id == s[k].id);
            assert(s.contains(s[k]));
        }
    }
}

/// A list without repetition of numbers from 0 up to, but not with, `bound` is no
/// longer than `bound`.
pub proof fn lemma_distinct_numbers_fit(q: Seq<int>, bound: int)
    requires
        forall|i: int| 0 <= i < q.len() ==> 0 <= #[trigger] q[i] < bound,
        forall|i: int, j: int| 0 <= i < j < q.len() ==> #[trigger] q[i] != #[trigger] q[j],
    ensures
        q.len() <= bound || q.len() == 0,
    decreases q.len(),
{
    if q.len() > 0 {
        assert(0 <= q[0] < bound);
        let top = bound - 1;
        if exists|k: int| 0 <= k < q.len() && #[trigger] q[k] == top {
            let k = choose|k: int| 0 <= k < q.len() && #[trigger] q[k] == top;
            let rest = q.remove(k);
            assert forall|i: int| 0 <= i < rest.len() implies 0 <= #[trigger] rest[i] < top by {
                if i < k {
                    assert(rest[i] == q[i]);
                } else {
                    assert(rest[i] == q[i + 1]);
                }
            }
            assert forall|i: int, j: int| 0 <= i < j < rest.len() implies #[trigger] rest[i] != #[trigger] rest[j] by {
                let a = if i < k {
                    i
                } else {
                    i + 1
                };
                let b = if j < k {
                    j
                } else {
                    j + 1
                };
                assert(rest[i] == q[a] && rest[j] == q[b]);
            }
            lemma_distinct_numbers_fit(rest, top);
        } else {
            let rest = q.drop_last();
            assert forall|i: int| 0 <= i < rest.len() implies 0 <= #[trigger] rest[i] < top by {
                assert(rest[i] == q[i]);
            }
            assert forall|i: int, j: int| 0 <= i < j < rest.len() implies #[trigger] rest[i] != #[trigger] rest[j] by {
                assert(rest[i] == q[i] && rest[j] == q[j]);
            }
            lemma_distinct_numbers_fit(rest, top);
            if rest.len() > 0 {
                assert(q.len() <= bound);
            } else {
                assert(q.len() == 1);
                assert(q[0] != top);
            }
        }
    }
}

/// There is one order of display only: a list of as many indices as the registry
/// has accounts, each before all that follow it in the order of display, is the
/// order of display.
pub proof fn lemma_display_order_unique(s: Seq<AccountView>, q: Seq<int>)
    requires
        q.len() == s.len(),
        in_display_order(s, q),
    ensures
        q == display_order(s),
    decreases s.len(),
{
    let n = s.len() as int;
    if n == 0 {
        assert(q =~= display_order(s));
    } else {
        let a = s.last();
        let shorter = s.drop_last();
        let rest = display_order(shorter);
        assert forall|i: int, j: int| 0 <= i < j < q.len() implies #[trigger] q[i] != #[trigger] q[j] by {
            assert(shown_before(s, q[i], q[j]));
        }
        if !(exists|k: int| 0 <= k < q.len() && #[trigger] q[k] == n - 1) {
            assert forall|i: int| 0 <= i < q.len() implies 0 <= #[trigger] q[i] < n - 1 by {
                assert(0 <= q[i] < n);
            }
            lemma_distinct_numbers_fit(q, n - 1);
        }
        let k = choose|k: int| 0 <= k < q.len() && #[trigger] q[k] == n - 1;
        let others = q.remove(k);
        assert forall|i: int| 0 <= i < others.len() implies others[i] == q[if i < k {
            i
        } else {
            i + 1
        }] by {}
        assert forall|i: int| 0 <= i < others.len() implies 0 <= #[trigger] others[i] < shorter.len() by {
            let at = if i < k {
                i
            } else {
                i + 1
            };
            assert(others[i] == q[at]);
            assert(0 <= q[at] < n);
            if at < k {
                assert(q[at] != q[k]);
            } else {
                assert(q[k] != q[at]);
            }
        }
        assert forall|i: int, j: int| 0 <= i < j < others.len() implies shown_before(
            shorter,
            #[trigger] others[i],
            #[trigger] others[j],
        ) by {
            let x = if i < k {
                i
            } else {
                i + 1
            };
            let y = if j < k {
                j
            } else {
                j + 1
            };
            assert(others[i] == q[x] && others[j] == q[y]);
            assert(shown_before(s, q[x], q[y]));
            assert(shorter[q[x]] == s[q[x]] && shorter[q[y]] == s[q[y]]);
        }
        lemma_display_order_unique(shorter, others);
        assert(others == rest);
        lemma_slot_parts(s, rest, a);
        let at = slot(s, rest, a);
        if k < at {
            assert(rest[k] == q[k + 1]);
            assert(shown_before(s, q[k], q[k + 1]));
            assert(!shown_no_later(s[rest[k]], a));
            if k < at - 1 {
                assert(shown_before(shorter, rest[k], rest[at - 1]));
                assert(shorter[rest[k]] == s[rest[k]] && shorter[rest[at - 1]] == s[rest[at - 1]]);
            }
            assert(false);
        }
        if k > at {
            assert(rest[at] == q[at]);
            assert(shown_before(s, q[at], q[k]));
            assert(false);
        }
        assert(q =~= rest.insert(at, n - 1));
    }
}

/// The order of display after two neighbours in it, neither of them the default
/// account, exchanged their display orders: the two have changed places and all
/// others stand where they stood. This holds where no two accounts share a display
/// order; with shared ones a third account may come between.
pub proof fn lemma_neighbours_change_places(s: Seq<AccountView>, r: int)
    requires
        distinct_orders(s),
        0 <= r,
        r + 1 < s.len(),
        !is_default(sorted(s)[r]),
        !is_default(sorted(s)[r + 1]),
    ensures
        display_order(s).len() == s.len(),
        0 <= display_order(s)[r] < s.len(),
        0 <= display_order(s)[r + 1] < s.len(),
        display_order(s)[r] != display_order(s)[r + 1],
        display_order(orders_swapped(s, display_order(s)[r], display_order(s)[r + 1])) == display_order(s).update(
            r,
            display_order(s)[r + 1],
        ).update(r + 1, display_order(s)[r]),
{
    let p = display_order(s);
    lemma_display_order_indices(s);
    lemma_display_order_sorted(s);
    lemma_display_order_distinct(s);
    let me = p[r];
    let x = p[r + 1];
    assert(sorted(s)[r] == s[me] && sorted(s)[r + 1] == s[x]);
    let t = orders_swapped(s, me, x);
    let q = p.update(r, x).update(r + 1, me);
    assert(t[me] == AccountView { order: s[x].order, ..s[me] });
    assert(t[x] == AccountView { order: s[me].order, ..s[x] });
    assert forall|i: int| 0 <= i < s.len() implies is_default(t[#[trigger] q[i]]) == is_default(s[p[i]])
        && t[q[i]].order == s[p[i]].order by {
        if i == r {
            assert(q[i] == x);
        } else if i == r + 1 {
            assert(q[i] == me);
        } else {
            assert(q[i] == p[i]);
            if i < r {
                assert(p[i] != p[r] && p[i] != p[r + 1]);
            } else {
                assert(p[r] != p[i] && p[r + 1] != p[i]);
            }
            assert(t[p[i]] == s[p[i]]);
        }
    }
    assert forall|i: int, j: int| 0 <= i < j < q.len() implies shown_before(t, #[trigger] q[i], #[trigger] q[j]) by {
        assert(shown_before(s, p[i], p[j]));
        assert(p[i] != p[j]);
        if p[i] < p[j] {
            assert(s[p[i]].order != s[p[j]].order);
        } else {
            assert(s[p[j]].order != s[p[i]].order);
        }
        assert(is_default(t[q[i]]) == is_default(s[p[i]]) && t[q[i]].order == s[p[i]].order);
        assert(is_default(t[q[j]]) == is_default(s[p[j]]) && t[q[j]].order == s[p[j]].order);
        assert(!shown_no_later(s[p[j]], s[p[i]]));
        assert(!shown_no_later(t[q[j]], t[q[i]]));
    }
    assert forall|i: int| 0 <= i < q.len() implies 0 <= #[trigger] q[i] < t.len() by {
        if i != r && i != r + 1 {
            assert(q[i] == p[i]);
        }
    }
    lemma_display_order_unique(t, q);
}

/// What an exchange of display orders leaves at each place: the two accounts hold
/// each other's display order, and nothing else has changed.
pub proof fn lemma_orders_swapped_at(s: Seq<AccountView>, i: int, j: int)
    requires
        0 <= i < s.len(),
        0 <= j < s.len(),
    ensures
        orders_swapped(s, i, j).len() == s.len(),
        orders_swapped(s, i, j)[i] == (AccountView { order: s[j].order, ..s[i] }),
        orders_swapped(s, i, j)[j] == (AccountView { order: s[i].order, ..s[j] }),
        forall|k: int| 0 <= k < s.len() && k != i && k != j ==> #[trigger] orders_swapped(s, i, j)[k] == s[k],
{
}

/// Exchanging the display orders of two accounts twice leaves the registry as it was.
pub proof fn lemma_swapped_twice(s: Seq<AccountView>, i: int, j: int)
    requires
        0 <= i < s.len(),
        0 <= j < s.len(),
    ensures
        orders_swapped(orders_swapped(s, i, j), i, j) == s,
{
    let t = orders_swapped(s, i, j);
    lemma_orders_swapped_at(s, i, j);
    let u = orders_swapped(t, i, j);
    lemma_orders_swapped_at(t, i, j);
    assert(u.len() == s.len());
    assert(u[i] == s[i]);
    assert(u[j] == s[j]);
    assert forall|k: int| 0 <= k < s.len() implies u[k] == s[k] by {
        if k != i && k != j {
            assert(u[k] == t[k]);
            assert(t[k] == s[k]);
        }
    }
    assert(u =~= s);
}

/// Where an account that is not the default one stands in the order of display,
/// given that ids are unique: at the one place where its index is listed.
pub proof fn lemma_place_in_display(s: Seq<AccountView>, id: Seq<char>, at: int)
    requires
        unique_ids(s),
        0 <= at < s.len(),
        s[display_order(s)[at]].id == id,
    ensures
        has_id(sorted(s), id),
        position(sorted(s), id) == at,
{
    let p = display_order(s);
    let shown = sorted(s);
    lemma_display_order_indices(s);
    lemma_display_order_distinct(s);
    assert(shown[at] == s[p[at]]);
    assert(is_position(shown, id, at)) by {
        assert forall|j: int| 0 <= j < at implies (#[trigger] shown[j]).id != id by {
            assert(shown[j] == s[p[j]]);
            assert(p[j] != p[at]);
            if p[j] < p[at] {
                assert(s[p[j]].id != s[p[at]].id);
            } else {
                assert(s[p[at]].id != s[p[j]].id);
            }
        }
    }
    assert(has_id(shown, id));
    lemma_position_exists(shown, id);
}

/// Moving an account down exchanges its display order with that of the account
/// shown behind it, and the two change places in the order of display. This holds
/// where the account is not the default one nor the last one shown, ids are unique
/// and no two accounts share a display order.
pub proof fn lemma_move_down(s: Seq<AccountView>, id: Seq<char>)
    requires
        unique_ids(s),
        distinct_orders(s),
        id != DEFAULT_ACCOUNT_ID@,
        has_id(s, id),
        position(sorted(s), id) + 1 < s.len(),
    ensures
        0 <= position(sorted(s), id),
        reordered(s, id, 1) == orders_swapped(
            s,
            display_order(s)[position(sorted(s), id)],
            display_order(s)[position(sorted(s), id) + 1],
        ),
        position(sorted(reordered(s, id, 1)), id) == position(sorted(s), id) + 1,
        has_id(sorted(reordered(s, id, 1)), id),
        display_order(reordered(s, id, 1)) == display_order(s).update(
            position(sorted(s), id),
            display_order(s)[position(sorted(s), id) + 1],
        ).update(position(sorted(s), id) + 1, display_order(s)[position(sorted(s), id)]),
        !is_default(sorted(s)[position(sorted(s), id) + 1]),
{
    let p = display_order(s);
    let shown = sorted(s);
    lemma_display_order_indices(s);
    lemma_sorted_is_ordered(s);
    lemma_sorted_holds_same_ids(s, id);
    lemma_position_exists(shown, id);
    let r = position(shown, id);
    let me = p[r];
    let x = p[r + 1];
    assert(shown[r] == s[me] && shown[r + 1] == s[x]);
    assert(!is_default(shown[r]));
    assert(!is_default(shown[r + 1]));
    lemma_neighbours_change_places(s, r);
    let t = orders_swapped(s, me, x);
    assert(reordered(s, id, 1) == t);
    lemma_orders_swapped_at(s, me, x);
    assert(unique_ids(t)) by {
        assert forall|i: int, j: int| 0 <= i < j < t.len() implies (#[trigger] t[i]).id != (#[trigger] t[j]).id by {
            assert(s[i].id != s[j].id);
        }
    }
    let q = display_order(t);
    assert(q[r + 1] == me);
    assert(t[q[r + 1]].id == id);
    lemma_place_in_display(t, id, r + 1);
}

/// Moving an account down and then up again leaves the registry as it was, where
/// the account is not the default one nor the last one shown, ids are unique and no
/// two accounts share a display order. Where accounts share a display order, a
/// third account may come between the two moves.
pub proof fn lemma_move_down_then_up(s: Seq<AccountView>, id: Seq<char>)
    requires
        unique_ids(s),
        distinct_orders(s),
        id != DEFAULT_ACCOUNT_ID@,
        has_id(s, id),
        position(sorted(s), id) + 1 < s.len(),
    ensures
        reordered(reordered(s, id, 1), id, -1i32) == s,
{
    lemma_move_down(s, id);
    lemma_display_order_indices(s);
    let p = display_order(s);
    let r = position(sorted(s), id);
    let me = p[r];
    let x = p[r + 1];
    let t = reordered(s, id, 1);
    let q = display_order(t);
    lemma_swapped_twice(s, me, x);
    lemma_orders_swapped_at(s, me, x);
    lemma_display_order_indices(t);
    assert(q[r] == x && q[r + 1] == me);
    assert(sorted(t)[r] == t[x]);
    assert(t[x].id == s[x].id);
    assert(sorted(s)[r + 1] == s[x]);
    assert(!is_default(sorted(t)[r]));
    assert(reordered(t, id, -1i32) == orders_swapped(t, q[r + 1], q[r]));
}

/// Exchanging the display orders of two accounts does not depend on which of the
/// two is named first.
pub proof fn lemma_swap_either_way(s: Seq<AccountView>, i: int, j: int)
    requires
        0 <= i < s.len(),
        0 <= j < s.len(),
    ensures
        orders_swapped(s, i, j) == orders_swapped(s, j, i),
{
    let t = orders_swapped(s, i, j);
    let u = orders_swapped(s, j, i);
    lemma_orders_swapped_at(s, i, j);
    lemma_orders_swapped_at(s, j, i);
    assert forall|k: int| 0 <= k < s.len() implies t[k] == u[k] by {
        if k != i && k != j {
            assert(t[k] == s[k]);
            assert(u[k] == s[k]);
        }
    }
    assert(t =~= u);
}

/// Moving an account up and then down again leaves the registry as it was, where
/// the account is not the default one, the account shown before it is neither the
/// default one nor missing, ids are unique and no two accounts share a display
/// order.
pub proof fn lemma_move_up_then_down(s: Seq<AccountView>, id: Seq<char>)
    requires
        unique_ids(s),
        distinct_orders(s),
        id != DEFAULT_ACCOUNT_ID@,
        has_id(s, id),
        position(sorted(s), id) > 0,
        !is_default(sorted(s)[position(sorted(s), id) - 1]),
    ensures
        reordered(s, id, -1i32) == orders_swapped(
            s,
            display_order(s)[position(sorted(s), id)],
            display_order(s)[position(sorted(s), id) - 1],
        ),
        reordered(reordered(s, id, -1i32), id, 1) == s,
{
    let p = display_order(s);
    let shown = sorted(s);
    lemma_display_order_indices(s);
    lemma_sorted_holds_same_ids(s, id);
    lemma_position_exists(shown, id);
    let r = position(shown, id);
    let me = p[r];
    let x = p[r - 1];
    assert(shown[r] == s[me] && shown[r - 1] == s[x]);
    assert(!is_default(shown[r]));
    lemma_neighbours_change_places(s, r - 1);
    lemma_swap_either_way(s, me, x);
    let t = orders_swapped(s, me, x);
    assert(reordered(s, id, -1i32) == t);
    lemma_orders_swapped_at(s, me, x);
    lemma_swapped_twice(s, me, x);
    assert(unique_ids(t)) by {
        assert forall|i: int, j: int| 0 <= i < j < t.len() implies (#[trigger] t[i]).id != (#[trigger] t[j]).id by {
            assert(s[i].id != s[j].id);
        }
    }
    let q = display_order(t);
    lemma_display_order_indices(t);
    assert(q[r - 1] == me && q[r] == x);
    assert(t[q[r - 1]].id == id);
    lemma_place_in_display(t, id, r - 1);
    assert(position(sorted(t), id) == r - 1);
    assert(reordered(t, id, 1) == orders_swapped(t, q[r - 1], q[r]));
}

/// Exchanging the display orders of two accounts keeps display orders distinct.
pub proof fn lemma_swapped_distinct(s: Seq<AccountView>, i: int, j: int)
    requires
        distinct_orders(s),
        0 <= i < s.len(),
        0 <= j < s.len(),
    ensures
        distinct_orders(orders_swapped(s, i, j)),
{
    let t = orders_swapped(s, i, j);
    lemma_orders_swapped_at(s, i, j);
    assert forall|a: int, b: int| 0 <= a < b < t.len() implies (#[trigger] t[a]).order != (#[trigger] t[b]).order by {
        let from_a = if a == i {
            j
        } else if a == j {
            i
        } else {
            a
        };
        let from_b = if b == i {
            j
        } else if b == j {
            i
        } else {
            b
        };
        assert(t[a].order == s[from_a].order);
        assert(t[b].order == s[from_b].order);
        assert(from_a != from_b);
        if from_a < from_b {
            assert(s[from_a].order != s[from_b].order);
        } else {
            assert(s[from_b].order != s[from_a].order);
        }
    }
}

/// Moving an account keeps display orders distinct.
pub proof fn lemma_reordered_distinct(s: Seq<AccountView>, id: Seq<char>, direction: i32)
    requires
        distinct_orders(s),
    ensures
        distinct_orders(reordered(s, id, direction)),
{
    let p = display_order(s);
    let shown = sorted(s);
    lemma_display_order_indices(s);
    if id != DEFAULT_ACCOUNT_ID@ && has_id(shown, id) {
        lemma_position_exists(shown, id);
        let r = position(shown, id);
        if direction < 0 {
            if r > 0 && !is_default(shown[r - 1]) {
                lemma_swapped_distinct(s, p[r], p[r - 1]);
            }
        } else {
            if r + 1 < shown.len() {
                lemma_swapped_distinct(s, p[r], p[r + 1]);
            }
        }
    }
}

/// Registering an account keeps display orders distinct, as long as the greatest
/// of them is not the last number of its type: the new account comes behind all.
pub proof fn lemma_added_distinct(s: Seq<AccountView>, a: AccountView)
    requires
        distinct_orders(s),
        max_order(s) < i32::MAX,
    ensures
        distinct_orders(added(s, a)),
        !has_id(s, a.id) ==> added(s, a).last().order == max_order(s) + 1,
{
    let t = added(s, a);
    lemma_max_order(s);
    if !has_id(s, a.id) {
        assert forall|i: int, j: int| 0 <= i < j < t.len() implies (#[trigger] t[i]).order != (#[trigger] t[j]).order by {
            assert(t[i] == s[i]);
            if j < s.len() {
                assert(t[j] == s[j]);
            } else {
                assert(s[i].order <= max_order(s));
            }
        }
    }
}

/// Removing accounts keeps display orders distinct.
pub proof fn lemma_removed_distinct(s: Seq<AccountView>, id: Seq<char>)
    requires
        distinct_orders(s),
    ensures
        distinct_orders(removed(s, id)),
{
    let kept = s.filter(other_than(id));
    let t = removed(s, id);
    lemma_filter_distinct(s, id);
    lemma_display_order_indices(kept);
    assert forall|i: int, j: int| 0 <= i < j < t.len() implies (#[trigger] t[i]).order != (#[trigger] t[j]).order by {
        assert(t[i].order == kept[i].order && t[j].order == kept[j].order);
    }
}

/// What is left after some accounts went holds no display order twice, where the
/// registry held none twice.
pub proof fn lemma_filter_distinct(s: Seq<AccountView>, id: Seq<char>)
    requires
        distinct_orders(s),
    ensures
        distinct_orders(s.filter(other_than(id))),
        forall|i: int|
            0 <= i < s.filter(other_than(id)).len() ==> s.contains(#[trigger] s.filter(other_than(id))[i]),
    decreases s.len(),
{
    reveal(Seq::filter);
    let keep = other_than(id);
    let kept = s.filter(keep);
    if s.len() > 0 {
        let shorter = s.drop_last();
        let before = shorter.filter(keep);
        assert(forall|i: int| 0 <= i < shorter.len() ==> shorter[i] == s[i]);
        assert(distinct_orders(shorter)) by {
            assert forall|i: int, j: int| 0 <= i < j < shorter.len() implies (#[trigger] shorter[i]).order != (
            #[trigger] shorter[j]).order by {
                assert(s[i].order != s[j].order);
            }
        }
        lemma_filter_distinct(shorter, id);
        assert forall|i: int| 0 <= i < kept.len() implies s.contains(#[trigger] kept[i]) by {
            if i < before.len() {
                assert(kept[i] == before[i]);
                assert(shorter.contains(before[i]));
                let k = choose|k: int| 0 <= k < shorter.len() && shorter[k] == before[i];
                assert(s[k] == kept[i]);
            } else {
                assert(kept[i] == s[s.len() - 1]);
            }
        }
        assert forall|i: int, j: int| 0 <= i < j < kept.len() implies (#[trigger] kept[i]).order != (
        #[trigger] kept[j]).order by {
            if j < before.len() {
                assert(kept[i] == before[i] && kept[j] == before[j]);
            } else {
                assert(kept[i] == before[i]);
                assert(shorter.contains(before[i]));
                let k = choose|k: int| 0 <= k < shorter.len() && shorter[k] == before[i];
                assert(s[k].order != s[s.len() - 1].order);
            }
        }
    }
}

/// Choosing an account keeps display orders distinct.
pub proof fn lemma_activated_distinct(s: Seq<AccountView>, id: Seq<char>)
    requires
        distinct_orders(s),
    ensures
        distinct_orders(activated(s, id)),
{
    let t = activated(s, id);
    assert forall|i: int, j: int| 0 <= i < j < t.len() implies (#[trigger] t[i]).order != (#[trigger] t[j]).order by {
        assert(s[i].order != s[j].order);
    }
}

} // verus!
