//! The registry of accounts as a mathematical sequence: what each change of the
//! registry means, and what holds of every registry that those changes can reach.

use crate::account::{
    AccountView, PermissionKind, DEFAULT_ACCOUNT_ID, DEFAULT_ACCOUNT_NAME, DEFAULT_COLOR,
    DEFAULT_EMOJI, DEFAULT_ZOOM,
};
use vstd::prelude::*;

verus! {

/// Whether `a` is the default account.
pub open spec fn is_default(a: AccountView) -> bool {
    a.id == DEFAULT_ACCOUNT_ID@
}

/// Whether some account of `s` has the id `id`.
pub open spec fn has_id(s: Seq<AccountView>, id: Seq<char>) -> bool {
    exists|i: int| 0 <= i < s.len() && (#[trigger] s[i]).id == id
}

/// No account has a colon in its id, so that every routing id names its account
/// again.
pub open spec fn colon_free(s: Seq<AccountView>) -> bool {
    forall|id: Seq<char>| #[trigger] has_id(s, id) ==> !id.contains(':')
}

/// Whether `i` is the index of the first account of `s` with the id `id`.
pub open spec fn is_position(s: Seq<AccountView>, id: Seq<char>, i: int) -> bool {
    &&& 0 <= i < s.len()
    &&& s[i].id == id
    &&& forall|j: int| 0 <= j < i ==> (#[trigger] s[j]).id != id
}

/// The index of the first account of `s` with the id `id`, where there is one.
pub open spec fn position(s: Seq<AccountView>, id: Seq<char>) -> int {
    choose|i: int| is_position(s, id, i)
}

/// No two accounts share an id.
pub open spec fn unique_ids(s: Seq<AccountView>) -> bool {
    forall|i: int, j: int| 0 <= i < j < s.len() ==> (#[trigger] s[i]).id != (#[trigger] s[j]).id
}

/// No two accounts have the same display order.
pub open spec fn distinct_orders(s: Seq<AccountView>) -> bool {
    forall|i: int, j: int| 0 <= i < j < s.len() ==> (#[trigger] s[i]).order != (#[trigger] s[j]).order
}

/// No account is marked active.
pub open spec fn none_active(s: Seq<AccountView>) -> bool {
    forall|i: int| 0 <= i < s.len() ==> !(#[trigger] s[i]).is_active
}

/// No two accounts are marked active.
pub open spec fn at_most_one_active(s: Seq<AccountView>) -> bool {
    forall|i: int, j: int|
        0 <= i < j < s.len() ==> !((#[trigger] s[i]).is_active && (#[trigger] s[j]).is_active)
}

/// What holds of every registry that the application can reach: ids are unique, at
/// most one account is active, and a registry that holds an account has an active one.
pub open spec fn well_formed(s: Seq<AccountView>) -> bool {
    &&& unique_ids(s)
    &&& at_most_one_active(s)
    &&& s.len() > 0 ==> !none_active(s)
}

/// Whether `i` is the index of the first account of `s` that is marked active.
pub open spec fn is_first_active(s: Seq<AccountView>, i: int) -> bool {
    &&& 0 <= i < s.len()
    &&& s[i].is_active
    &&& forall|j: int| 0 <= j < i ==> !(#[trigger] s[j]).is_active
}

/// The account in use: the first one marked active, else the first one.
pub open spec fn active_account(s: Seq<AccountView>) -> Option<AccountView> {
    if s.len() == 0 {
        None
    } else if none_active(s) {
        Some(s[0])
    } else {
        Some(s[choose|i: int| is_first_active(s, i)])
    }
}

/// The greatest display order in `s`, or -1 where `s` is empty.
pub open spec fn max_order(s: Seq<AccountView>) -> int
    decreases s.len(),
{
    if s.len() == 0 {
        -1
    } else if s.len() == 1 {
        s[0].order as int
    } else {
        let rest = max_order(s.drop_last());
        if s.last().order > rest {
            s.last().order as int
        } else {
            rest
        }
    }
}

/// The display order given to an account that joins `s`: one after the greatest,
/// as far as the number type reaches.
pub open spec fn next_order(s: Seq<AccountView>) -> i32 {
    if max_order(s) < i32::MAX {
        (max_order(s) + 1) as i32
    } else {
        i32::MAX
    }
}

/// The registry after `a` asked to join: unchanged where its id is taken; else `a`
/// stands last, with the next display order, and is active exactly if it is the
/// first account ever.
pub open spec fn added(s: Seq<AccountView>, a: AccountView) -> Seq<AccountView> {
    if has_id(s, a.id) {
        s
    } else {
        s.push(AccountView { is_active: s.len() == 0, order: next_order(s), ..a })
    }
}

/// Whether `a` is shown no later than `b`, going by what the two hold: the default
/// account before all others, then lower display order first.
pub open spec fn shown_no_later(a: AccountView, b: AccountView) -> bool {
    if is_default(a) == is_default(b) {
        a.order <= b.order
    } else {
        is_default(a)
    }
}

/// Where the account `a` joins the indices `listed`: behind every listed account that
/// is shown no later than `a`.
pub open spec fn slot(s: Seq<AccountView>, listed: Seq<int>, a: AccountView) -> int
    decreases listed.len(),
{
    if listed.len() == 0 {
        0
    } else if shown_no_later(s[listed.last()], a) {
        listed.len() as int
    } else {
        slot(s, listed.drop_last(), a)
    }
}

/// The indices of `s` in the order of display: the default account first, then by
/// display order, accounts of equal display order in the order of the registry.
pub open spec fn display_order(s: Seq<AccountView>) -> Seq<int>
    decreases s.len(),
{
    if s.len() == 0 {
        Seq::empty()
    } else {
        let rest = display_order(s.drop_last());
        rest.insert(slot(s, rest, s.last()), s.len() - 1)
    }
}

/// The accounts of `s` in the order of display.
pub open spec fn sorted(s: Seq<AccountView>) -> Seq<AccountView> {
    display_order(s).map_values(|k: int| s[k])
}

/// A registry that holds accounts, none of them active, gets the first account
/// in the order of display as its active one. Any other registry stays as it is.
pub open spec fn reactivated(s: Seq<AccountView>) -> Seq<AccountView> {
    if s.len() > 0 && none_active(s) {
        let k = display_order(s)[0];
        s.update(k, AccountView { is_active: true, ..s[k] })
    } else {
        s
    }
}

/// The test that an account has another id than `id`.
pub open spec fn other_than(id: Seq<char>) -> spec_fn(AccountView) -> bool {
    |a: AccountView| a.id != id
}

/// The registry after the accounts with the id `id` left it.
pub open spec fn removed(s: Seq<AccountView>, id: Seq<char>) -> Seq<AccountView> {
    reactivated(s.filter(other_than(id)))
}

/// The registry after the account `id` was chosen for use: unchanged where no account
/// has that id, else exactly the accounts with that id are marked active.
pub open spec fn activated(s: Seq<AccountView>, id: Seq<char>) -> Seq<AccountView> {
    if has_id(s, id) {
        s.map_values(|a: AccountView| AccountView { is_active: a.id == id, ..a })
    } else {
        s
    }
}

/// The registry with the first account of the id `id` replaced by `a`; unchanged
/// where no account has that id.
pub open spec fn replaced(s: Seq<AccountView>, id: Seq<char>, a: AccountView) -> Seq<AccountView> {
    if has_id(s, id) {
        s.update(position(s, id), a)
    } else {
        s
    }
}

/// The first account of the id `id`. Meaningful only where `has_id(s, id)`.
pub open spec fn account_of(s: Seq<AccountView>, id: Seq<char>) -> AccountView {
    s[position(s, id)]
}

/// The registry with the display orders of the accounts at `i` and `j` exchanged.
pub open spec fn orders_swapped(s: Seq<AccountView>, i: int, j: int) -> Seq<AccountView> {
    s.update(i, AccountView { order: s[j].order, ..s[i] }).update(
        j,
        AccountView { order: s[i].order, ..s[j] },
    )
}

/// The registry after the account `id` was asked to move one place up (`direction`
/// below zero) or down in the order of display. The default account does not move,
/// nothing moves above it, and nothing moves past either end; a move exchanges the
/// display orders of the two neighbours and nothing else.
pub open spec fn reordered(s: Seq<AccountView>, id: Seq<char>, direction: i32) -> Seq<AccountView> {
    let p = display_order(s);
    let shown = sorted(s);
    if id == DEFAULT_ACCOUNT_ID@ || !has_id(shown, id) {
        s
    } else {
        let r = position(shown, id);
        if direction < 0 {
            if r == 0 || is_default(shown[r - 1]) {
                s
            } else {
                orders_swapped(s, p[r], p[r - 1])
            }
        } else {
            if r + 1 >= shown.len() {
                s
            } else {
                orders_swapped(s, p[r], p[r + 1])
            }
        }
    }
}

/// The `(asked, granted)` pair of the account `id` for `kind`; `(false, false)` where
/// no account has that id.
pub open spec fn permission_of(s: Seq<AccountView>, id: Seq<char>, kind: PermissionKind) -> (bool, bool) {
    if has_id(s, id) {
        account_of(s, id).permission(kind)
    } else {
        (false, false)
    }
}

/// The zoom level of the account `id`; the default zoom where no account has that id.
pub open spec fn zoom_of(s: Seq<AccountView>, id: Seq<char>) -> u32 {
    if has_id(s, id) {
        account_of(s, id).zoom_level
    } else {
        DEFAULT_ZOOM
    }
}

/// The default account as the first start creates it.
pub open spec fn first_account(has_session: bool, created_at: i64) -> AccountView {
    AccountView {
        is_active: true,
        has_session,
        ..AccountView::fresh(
            DEFAULT_ACCOUNT_ID@,
            DEFAULT_ACCOUNT_NAME@,
            DEFAULT_COLOR@,
            DEFAULT_EMOJI@,
            created_at,
        )
    }
}

/// The directory below `root` that holds the session directories of all accounts.
pub open spec fn session_root(root: Seq<char>) -> Seq<char> {
    root + "/sessions"@
}

/// The directory below `root` that holds what the account `id` keeps on disk.
pub open spec fn session_dir(root: Seq<char>, id: Seq<char>) -> Seq<char> {
    session_root(root) + "/"@ + id
}

/// The directory of the browsing data of the account `id`.
pub open spec fn data_dir(root: Seq<char>, id: Seq<char>) -> Seq<char> {
    session_dir(root, id) + "/data"@
}

/// The directory of the cache of the account `id`.
pub open spec fn cache_dir(root: Seq<char>, id: Seq<char>) -> Seq<char> {
    session_dir(root, id) + "/cache"@
}

/// A zoom level held at or above `floor`.
pub open spec fn at_least(level: u32, floor: u32) -> u32 {
    if level < floor {
        floor
    } else {
        level
    }
}

/// The registry after every zoom level below `floor` was raised to `floor`.
pub open spec fn zoom_raised(s: Seq<AccountView>, floor: u32) -> Seq<AccountView> {
    s.map_values(|a: AccountView| AccountView { zoom_level: at_least(a.zoom_level, floor), ..a })
}

/// What the chrome shows of an account: id, name, emoji, and the unread mark.
pub open spec fn summary_of(a: AccountView) -> (Seq<char>, Seq<char>, Seq<char>, bool) {
    (a.id, a.name, a.emoji, a.has_unread)
}

} // verus!
