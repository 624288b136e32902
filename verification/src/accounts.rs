//! The account registry: the accounts of the application in the order in which they
//! were added, with the changes that the application makes to them.

use crate::account::{
    views, Account, AccountError, AccountView, PermissionKind, DEFAULT_ACCOUNT_ID,
    DEFAULT_ACCOUNT_NAME, DEFAULT_COLOR, DEFAULT_EMOJI, DEFAULT_ZOOM,
};
use crate::laws::{
    lemma_sorted_is_ordered,
    lemma_active_is_registered, lemma_max_order, lemma_activated_keeps, lemma_added_keeps,
    lemma_removed_keeps, lemma_reordered_keeps, lemma_replaced_keeps, lemma_zoom_raised_keeps,
    lemma_zoom_raised_well_formed, lemma_activated_well_formed, lemma_added_well_formed,
    lemma_default_shown_first, lemma_display_order_indices, lemma_removed_well_formed,
    lemma_reordered_well_formed, lemma_replaced_well_formed,
};
use crate::registry::{
    account_of, activated, active_account, added, at_least, cache_dir, data_dir, display_order,
    first_account, has_id, is_default, is_first_active, is_position, max_order, next_order,
    none_active, orders_swapped, other_than, permission_of, position, removed, reordered, replaced,
    session_dir, session_root, shown_no_later, slot, sorted, summary_of, well_formed, zoom_of,
    zoom_raised,
};
use vstd::prelude::*;

verus! {

/// The registry of accounts, rooted at the directory that holds its file and the
/// session directories of its accounts.
pub struct AccountManager {
    config_dir: String,
    accounts: Vec<Account>,
}

impl View for AccountManager {
    type V = Seq<AccountView>;

    closed spec fn view(&self) -> Seq<AccountView> {
        views(self.accounts@)
    }
}

/// Whether `a` is shown no later than `b`.
fn precedes(a: &Account, b: &Account) -> (r: bool)
    ensures
        r == shown_no_later(a@, b@),
{
    let default_id = DEFAULT_ACCOUNT_ID.to_owned();
    let a_default = a.id == default_id;
    let b_default = b.id == default_id;
    if a_default == b_default {
        a.order <= b.order
    } else {
        a_default
    }
}

/// The indices of `accounts` in the order of display.
fn display_indices(accounts: &Vec<Account>) -> (r: Vec<usize>)
    ensures
        r@.len() == accounts@.len(),
        r@.map_values(|k: usize| k as int) == display_order(views(accounts@)),
{
    let ghost s = views(accounts@);
    let mut listed: Vec<usize> = Vec::new();
    let mut i: usize = 0;
    while i < accounts.len()
        invariant
            i <= accounts.len(),
            s == views(accounts@),
            listed@.len() == i,
            listed@.map_values(|k: usize| k as int) == display_order(s.take(i as int)),
            forall|j: int| 0 <= j < listed@.len() ==> listed@[j] < i,
        decreases accounts.len() - i,
    {
        let ghost before = listed@.map_values(|k: usize| k as int);
        let ghost head = s.take(i as int + 1);
        assert(head.drop_last() =~= s.take(i as int));
        assert(head.last() == s[i as int]);
        let mut at: usize = listed.len();
        assert(before.take(at as int) =~= before);
        while at > 0 && !precedes(&accounts[listed[at - 1]], &accounts[i])
            invariant
                at <= listed@.len(),
                i < accounts.len(),
                s == views(accounts@),
                head == s.take(i as int + 1),
                before == listed@.map_values(|k: usize| k as int),
                forall|j: int| 0 <= j < listed@.len() ==> listed@[j] < i,
                slot(head, before, s[i as int]) == slot(head, before.take(at as int), s[i as int]),
            decreases at,
        {
            assert(before.take(at as int).drop_last() =~= before.take(at as int - 1));
            assert(before.take(at as int).last() == listed@[at - 1] as int);
            assert(head[listed@[at - 1] as int] == accounts@[listed@[at - 1] as int]@);
            at -= 1;
        }
        proof {
            if at > 0 {
                assert(before.take(at as int).last() == listed@[at - 1] as int);
                assert(head[listed@[at - 1] as int] == accounts@[listed@[at - 1] as int]@);
            }
            assert(slot(head, before.take(at as int), s[i as int]) == at);
        }
        listed.insert(at, i);
        assert(listed@.map_values(|k: usize| k as int) =~= before.insert(at as int, i as int));
        i += 1;
    }
    assert(s.take(i as int) =~= s);
    listed
}

impl AccountManager {
    /// The directory at which the registry is rooted.
    pub closed spec fn root(&self) -> Seq<char> {
        self.config_dir@
    }

    /// An empty registry rooted at `config_dir`.
    pub fn new(config_dir: String) -> (r: Self)
        ensures
            r@ == Seq::<AccountView>::empty(),
            r.root() == config_dir@,
    {
        let r = AccountManager { config_dir, accounts: Vec::new() };
        assert(r@ =~= Seq::<AccountView>::empty());
        r
    }

    /// The registry that holds `accounts`, as read from its file, rooted at `config_dir`.
    pub fn with_accounts(config_dir: String, accounts: Vec<Account>) -> (r: Self)
        ensures
            r@ == views(accounts@),
            r.root() == config_dir@,
    {
        AccountManager { config_dir, accounts }
    }

    /// The directory at which the registry is rooted.
    pub fn config_dir(&self) -> (r: String)
        ensures
            r@ == self.root(),
    {
        self.config_dir.clone()
    }

    /// All accounts, in the order of the registry.
    pub fn get_accounts(&self) -> (r: Vec<Account>)
        ensures
            views(r@) == self@,
    {
        let mut out: Vec<Account> = Vec::new();
        let mut i: usize = 0;
        while i < self.accounts.len()
            invariant
                i <= self.accounts.len(),
                out@.len() == i,
                forall|j: int| 0 <= j < i ==> out@[j]@ == self.accounts@[j]@,
            decreases self.accounts.len() - i,
        {
            out.push(self.accounts[i].clone());
            i += 1;
        }
        assert(views(out@) =~= self@);
        out
    }

    /// The number of accounts.
    pub fn get_account_count(&self) -> (r: usize)
        ensures
            r == self@.len(),
    {
        self.accounts.len()
    }

    /// The index of the first account with the id `key`.
    fn find(&self, key: &String) -> (r: Option<usize>)
        ensures
            match r {
                Some(i) => is_position(self@, key@, i as int) && i as int == position(self@, key@)
                    && has_id(self@, key@),
                None => !has_id(self@, key@),
            },
    {
        let mut i: usize = 0;
        while i < self.accounts.len()
            invariant
                i <= self.accounts.len(),
                forall|j: int| 0 <= j < i ==> (#[trigger] self@[j]).id != key@,
            decreases self.accounts.len() - i,
        {
            if self.accounts[i].id == *key {
                assert(self@[i as int].id == key@);
                assert(is_position(self@, key@, i as int));
                return Some(i);
            }
            i += 1;
        }
        None
    }

    /// Whether the registry holds an account with the id `account_id`.
    pub fn has_account(&self, account_id: &str) -> (r: bool)
        ensures
            r == has_id(self@, account_id@),
    {
        let key = account_id.to_owned();
        self.find(&key).is_some()
    }

    /// The account in use: the one marked active, or the first account where none is
    /// marked; `None` where the registry is empty.
    pub fn get_active_account(&self) -> (r: Option<Account>)
        ensures
            match r {
                Some(a) => active_account(self@) == Some(a@),
                None => active_account(self@) is None,
            },
    {
        if self.accounts.len() == 0 {
            return None;
        }
        let mut i: usize = 0;
        while i < self.accounts.len()
            invariant
                i <= self.accounts.len(),
                self.accounts.len() > 0,
                forall|j: int| 0 <= j < i ==> !(#[trigger] self@[j]).is_active,
            decreases self.accounts.len() - i,
        {
            if self.accounts[i].is_active {
                assert(self@[i as int].is_active);
                assert(is_first_active(self@, i as int));
                return Some(self.accounts[i].clone());
            }
            i += 1;
        }
        assert(none_active(self@));
        Some(self.accounts[0].clone())
    }

    /// The greatest display order in the registry, or -1 where it is empty.
    fn greatest_order(&self) -> (r: i32)
        ensures
            r == max_order(self@),
    {
        if self.accounts.len() == 0 {
            return -1;
        }
        let mut m: i32 = self.accounts[0].order;
        let mut i: usize = 1;
        assert(self@.take(1)[0] == self.accounts@[0]@);
        while i < self.accounts.len()
            invariant
                1 <= i <= self.accounts.len(),
                m == max_order(self@.take(i as int)),
            decreases self.accounts.len() - i,
        {
            assert(self@.take(i as int + 1).drop_last() =~= self@.take(i as int));
            assert(self@.take(i as int + 1).last() == self.accounts@[i as int]@);
            let o: i32 = self.accounts[i].order;
            if o > m {
                m = o;
            }
            i += 1;
        }
        assert(self@.take(i as int) =~= self@);
        m
    }

    /// Registers `account`. An account whose id is taken is refused and the registry
    /// stays as it is. Otherwise the account stands last, its display order is one
    /// after the greatest in the registry, and it is active exactly if it is the first
    /// account ever.
    pub fn add_account(&mut self, account: Account) -> (r: Result<(), AccountError>)
        ensures
            final(self)@ == added(old(self)@, account@),
            final(self).root() == old(self).root(),
            r is Ok <==> !has_id(old(self)@, account@.id),
            r is Err ==> r == Err::<(), AccountError>(AccountError::DuplicateId),
            well_formed(old(self)@) ==> well_formed(final(self)@),
            final(self)@.len() == old(self)@.len() + (if r is Ok {
                1int
            } else {
                0int
            }),
            forall|other: Seq<char>|
                #[trigger] has_id(final(self)@, other) == (has_id(old(self)@, other) || other == account@.id),
            forall|i: int| 0 <= i < old(self)@.len() ==> #[trigger] final(self)@[i] == old(self)@[i],
            r is Ok ==> final(self)@.last() == (AccountView {
                is_active: old(self)@.len() == 0,
                order: next_order(old(self)@),
                ..account@
            }),
            forall|i: int| 0 <= i < old(self)@.len() ==> (#[trigger] old(self)@[i]).order <= max_order(old(self)@),
            old(self)@.len() > 0 ==> exists|i: int|
                0 <= i < old(self)@.len() && (#[trigger] old(self)@[i]).order == max_order(old(self)@),
            old(self)@.len() == 0 ==> next_order(old(self)@) == 0,
    {
        proof {
            if well_formed(self@) {
                lemma_added_well_formed(self@, account@);
            }
            lemma_added_keeps(self@, account@);
            lemma_max_order(self@);
        }
        let mut account = account;
        if self.find(&account.id).is_some() {
            return Err(AccountError::DuplicateId);
        }
        let greatest: i32 = self.greatest_order();
        account.is_active = self.accounts.len() == 0;
        account.order = if greatest < i32::MAX {
            greatest + 1
        } else {
            i32::MAX
        };
        let ghost joined = account@;
        self.accounts.push(account);
        assert(self@ =~= old(self)@.push(joined));
        Ok(())
    }

    /// Whether no account is marked active.
    fn no_active(&self) -> (r: bool)
        ensures
            r == none_active(self@),
    {
        let mut i: usize = 0;
        while i < self.accounts.len()
            invariant
                i <= self.accounts.len(),
                forall|j: int| 0 <= j < i ==> !(#[trigger] self@[j]).is_active,
            decreases self.accounts.len() - i,
        {
            if self.accounts[i].is_active {
                assert(self@[i as int].is_active);
                return false;
            }
            i += 1;
        }
        true
    }

    /// Removes the account `account_id`. The default account is protected: asking for
    /// its removal is refused and changes nothing. Removing an id that no account has
    /// succeeds. Afterwards, where accounts are left and none of them is active, the
    /// first in the order of display becomes active.
    pub fn remove_account(&mut self, account_id: &str) -> (r: Result<(), AccountError>)
        ensures
            final(self).root() == old(self).root(),
            account_id@ == DEFAULT_ACCOUNT_ID@ ==> r == Err::<(), AccountError>(
                AccountError::ProtectedAccount,
            ) && final(self)@ == old(self)@,
            account_id@ != DEFAULT_ACCOUNT_ID@ ==> r is Ok && final(self)@ == removed(
                old(self)@,
                account_id@,
            ),
            well_formed(old(self)@) ==> well_formed(final(self)@),
            r is Ok ==> !has_id(final(self)@, account_id@),
            forall|other: Seq<char>|
                other != account_id@ ==> #[trigger] has_id(final(self)@, other) == has_id(old(self)@, other),
            final(self)@.len() <= old(self)@.len(),
    {
        proof {
            if well_formed(self@) {
                lemma_removed_well_formed(self@, account_id@);
            }
            lemma_removed_keeps(self@, account_id@);
        }
        let key = account_id.to_owned();
        if key == DEFAULT_ACCOUNT_ID.to_owned() {
            return Err(AccountError::ProtectedAccount);
        }
        let ghost before = self@;
        let ghost keep = other_than(key@);
        let mut kept: Vec<Account> = Vec::new();
        let mut i: usize = 0;
        while i < self.accounts.len()
            invariant
                i <= self.accounts.len(),
                before == self@,
                keep == other_than(key@),
                views(kept@) == before.take(i as int).filter(keep),
            decreases self.accounts.len() - i,
        {
            assert(before.take(i as int + 1).drop_last() =~= before.take(i as int));
            assert(before.take(i as int + 1).last() == self.accounts@[i as int]@);
            let ghost head = before.take(i as int + 1);
            assert(head.filter(keep) == if keep(head.last()) {
                head.drop_last().filter(keep).push(head.last())
            } else {
                head.drop_last().filter(keep)
            }) by {
                reveal(Seq::filter);
            }
            if !(self.accounts[i].id == key) {
                let ghost prior = views(kept@);
                kept.push(self.accounts[i].clone());
                assert(views(kept@) =~= prior.push(self.accounts@[i as int]@));
            }
            i += 1;
        }
        assert(before.take(i as int) =~= before);
        self.accounts = kept;
        if self.accounts.len() > 0 && self.no_active() {
            let shown = display_indices(&self.accounts);
            let first: usize = shown[0];
            assert(first as int == display_order(self@)[0]) by {
                assert(shown@.map_values(|k: usize| k as int)[0] == shown@[0] as int);
            }
            proof {
                lemma_display_order_indices(self@);
            }
            let ghost filtered = self@;
            self.accounts[first].is_active = true;
            assert(self@ =~= filtered.update(
                first as int,
                AccountView { is_active: true, ..filtered[first as int] },
            ));
        }
        Ok(())
    }

    /// Chooses the account `account_id` for use: it becomes the only active account.
    /// Where no account has that id, nothing changes.
    pub fn set_active_account(&mut self, account_id: &str)
        ensures
            final(self)@ == activated(old(self)@, account_id@),
            final(self).root() == old(self).root(),
            well_formed(old(self)@) ==> well_formed(final(self)@),
            final(self)@.len() == old(self)@.len(),
            forall|other: Seq<char>| #[trigger] has_id(final(self)@, other) == has_id(old(self)@, other),
            has_id(old(self)@, account_id@) ==> active_account(final(self)@) == Some(
                account_of(final(self)@, account_id@),
            ) && account_of(final(self)@, account_id@).id == account_id@,
    {
        proof {
            if well_formed(self@) {
                lemma_activated_well_formed(self@, account_id@);
            }
            lemma_activated_keeps(self@, account_id@);
        }
        let key = account_id.to_owned();
        if self.find(&key).is_none() {
            return;
        }
        let ghost before = self@;
        let mut i: usize = 0;
        while i < self.accounts.len()
            invariant
                i <= self.accounts.len(),
                self.accounts.len() == before.len(),
                self.root() == old(self).root(),
                forall|j: int|
                    0 <= j < i ==> #[trigger] self@[j] == (AccountView {
                        is_active: before[j].id == key@,
                        ..before[j]
                    }),
                forall|j: int| i <= j < before.len() ==> #[trigger] self@[j] == before[j],
            decreases self.accounts.len() - i,
        {
            let chosen = self.accounts[i].id == key;
            let ghost prior = self@;
            self.accounts[i].is_active = chosen;
            assert(self@ =~= prior.update(i as int, AccountView { is_active: chosen, ..prior[i as int] }));
            i += 1;
        }
        assert(self@ =~= activated(before, key@));
    }

    /// Gives the account `account_id` a new display name.
    pub fn update_account_name(&mut self, account_id: &str, name: &str) -> (r: Result<(), AccountError>)
        ensures
            final(self)@ == replaced(
                old(self)@,
                account_id@,
                AccountView { name: name@, ..account_of(old(self)@, account_id@) },
            ),
            final(self).root() == old(self).root(),
            r is Ok <==> has_id(old(self)@, account_id@),
            r is Err ==> r == Err::<(), AccountError>(AccountError::NotFound),
            well_formed(old(self)@) ==> well_formed(final(self)@),
            final(self)@.len() == old(self)@.len(),
            forall|other: Seq<char>| #[trigger] has_id(final(self)@, other) == has_id(old(self)@, other),
            has_id(old(self)@, account_id@) ==> account_of(final(self)@, account_id@) == (AccountView {
                name: name@,
                ..account_of(old(self)@, account_id@)
            }),
    {
        proof {
            if well_formed(self@) {
                lemma_replaced_well_formed(
                    self@,
                    account_id@,
                    AccountView { name: name@, ..account_of(self@, account_id@) },
                );
            }
            lemma_replaced_keeps(
                self@,
                account_id@,
                AccountView { name: name@, ..account_of(self@, account_id@) },
            );
        }
        let key = account_id.to_owned();
        match self.find(&key) {
            Some(i) => {
                self.accounts[i].name = name.to_owned();
                assert(self@ =~= old(self)@.update(
                    i as int,
                    AccountView { name: name@, ..old(self)@[i as int] },
                ));
                Ok(())
            },
            None => Err(AccountError::NotFound),
        }
    }

    /// Gives the account `account_id` a new display name, emoji and colour.
    pub fn update_account_identity(&mut self, account_id: &str, name: &str, emoji: &str, color: &str) -> (r:
        Result<(), AccountError>)
        ensures
            final(self)@ == replaced(
                old(self)@,
                account_id@,
                AccountView {
                    name: name@,
                    emoji: emoji@,
                    color: color@,
                    ..account_of(old(self)@, account_id@)
                },
            ),
            final(self).root() == old(self).root(),
            r is Ok <==> has_id(old(self)@, account_id@),
            r is Err ==> r == Err::<(), AccountError>(AccountError::NotFound),
            well_formed(old(self)@) ==> well_formed(final(self)@),
            final(self)@.len() == old(self)@.len(),
            forall|other: Seq<char>| #[trigger] has_id(final(self)@, other) == has_id(old(self)@, other),
            has_id(old(self)@, account_id@) ==> account_of(final(self)@, account_id@) == (AccountView {
                name: name@,
                emoji: emoji@,
                color: color@,
                ..account_of(old(self)@, account_id@)
            }),
    {
        proof {
            if well_formed(self@) {
                lemma_replaced_well_formed(
                    self@,
                    account_id@,
                    AccountView { name: name@, emoji: emoji@, color: color@, ..account_of(self@, account_id@) },
                );
            }
            lemma_replaced_keeps(
                self@,
                account_id@,
                AccountView { name: name@, emoji: emoji@, color: color@, ..account_of(self@, account_id@) },
            );
        }
        let key = account_id.to_owned();
        match self.find(&key) {
            Some(i) => {
                self.accounts[i].name = name.to_owned();
                self.accounts[i].emoji = emoji.to_owned();
                self.accounts[i].color = color.to_owned();
                assert(self@ =~= old(self)@.update(
                    i as int,
                    AccountView { name: name@, emoji: emoji@, color: color@, ..old(self)@[i as int] },
                ));
                Ok(())
            },
            None => Err(AccountError::NotFound),
        }
    }

    /// The `(asked, granted)` pair of the account `account_id` for `kind`, and
    /// `(false, false)` where no account has that id.
    pub fn get_account_permission(&self, account_id: &str, kind: PermissionKind) -> (r: (bool, bool))
        ensures
            r == permission_of(self@, account_id@, kind),
    {
        let key = account_id.to_owned();
        match self.find(&key) {
            Some(i) => {
                assert(self@[i as int] == self.accounts@[i as int]@);
                self.accounts[i].permission(kind)
            },
            None => (false, false),
        }
    }

    /// Records for the account `account_id` whether `kind` was asked and granted.
    pub fn set_account_permission(&mut self, account_id: &str, kind: PermissionKind, asked: bool, granted: bool) -> (r:
        Result<(), AccountError>)
        ensures
            final(self)@ == replaced(
                old(self)@,
                account_id@,
                account_of(old(self)@, account_id@).with_permission(kind, asked, granted),
            ),
            final(self).root() == old(self).root(),
            r is Ok <==> has_id(old(self)@, account_id@),
            r is Err ==> r == Err::<(), AccountError>(AccountError::NotFound),
            well_formed(old(self)@) ==> well_formed(final(self)@),
            final(self)@.len() == old(self)@.len(),
            forall|other: Seq<char>| #[trigger] has_id(final(self)@, other) == has_id(old(self)@, other),
            has_id(old(self)@, account_id@) ==> account_of(final(self)@, account_id@) == account_of(
                old(self)@,
                account_id@,
            ).with_permission(kind, asked, granted),
            r is Ok ==> permission_of(final(self)@, account_id@, kind) == (asked, granted),
    {
        proof {
            if well_formed(self@) {
                lemma_replaced_well_formed(
                    self@,
                    account_id@,
                    account_of(self@, account_id@).with_permission(kind, asked, granted),
                );
            }
            lemma_replaced_keeps(
                self@,
                account_id@,
                account_of(self@, account_id@).with_permission(kind, asked, granted),
            );
        }
        let key = account_id.to_owned();
        match self.find(&key) {
            Some(i) => {
                assert(old(self)@[i as int] == self.accounts@[i as int]@);
                self.accounts[i].set_permission(kind, asked, granted);
                assert(self@ =~= old(self)@.update(
                    i as int,
                    old(self)@[i as int].with_permission(kind, asked, granted),
                ));
                Ok(())
            },
            None => Err(AccountError::NotFound),
        }
    }

    /// The zoom level of the account `account_id` in percent, and the default zoom
    /// where no account has that id.
    pub fn get_account_zoom(&self, account_id: &str) -> (r: u32)
        ensures
            r == zoom_of(self@, account_id@),
    {
        let key = account_id.to_owned();
        match self.find(&key) {
            Some(i) => {
                assert(self@[i as int] == self.accounts@[i as int]@);
                self.accounts[i].zoom_level
            },
            None => DEFAULT_ZOOM,
        }
    }

    /// Sets the zoom level of the account `account_id`, in percent.
    pub fn set_account_zoom(&mut self, account_id: &str, zoom: u32) -> (r: Result<(), AccountError>)
        ensures
            final(self)@ == replaced(
                old(self)@,
                account_id@,
                AccountView { zoom_level: zoom, ..account_of(old(self)@, account_id@) },
            ),
            final(self).root() == old(self).root(),
            r is Ok <==> has_id(old(self)@, account_id@),
            r is Err ==> r == Err::<(), AccountError>(AccountError::NotFound),
            well_formed(old(self)@) ==> well_formed(final(self)@),
            final(self)@.len() == old(self)@.len(),
            forall|other: Seq<char>| #[trigger] has_id(final(self)@, other) == has_id(old(self)@, other),
            has_id(old(self)@, account_id@) ==> account_of(final(self)@, account_id@) == (AccountView {
                zoom_level: zoom,
                ..account_of(old(self)@, account_id@)
            }),
            r is Ok ==> zoom_of(final(self)@, account_id@) == zoom,
    {
        proof {
            if well_formed(self@) {
                lemma_replaced_well_formed(
                    self@,
                    account_id@,
                    AccountView { zoom_level: zoom, ..account_of(self@, account_id@) },
                );
            }
            lemma_replaced_keeps(
                self@,
                account_id@,
                AccountView { zoom_level: zoom, ..account_of(self@, account_id@) },
            );
        }
        let key = account_id.to_owned();
        match self.find(&key) {
            Some(i) => {
                self.accounts[i].zoom_level = zoom;
                assert(self@ =~= old(self)@.update(
                    i as int,
                    AccountView { zoom_level: zoom, ..old(self)@[i as int] },
                ));
                Ok(())
            },
            None => Err(AccountError::NotFound),
        }
    }

    /// Raises every zoom level below `floor` to `floor`.
    pub fn raise_zoom(&mut self, floor: u32)
        ensures
            final(self)@ == zoom_raised(old(self)@, floor),
            final(self).root() == old(self).root(),
            well_formed(old(self)@) ==> well_formed(final(self)@),
            final(self)@.len() == old(self)@.len(),
            forall|other: Seq<char>| #[trigger] has_id(final(self)@, other) == has_id(old(self)@, other),
            forall|i: int| 0 <= i < final(self)@.len() ==> (#[trigger] final(self)@[i]).zoom_level >= floor,
    {
        proof {
            lemma_zoom_raised_keeps(self@, floor);
        }
        let ghost before = self@;
        let mut i: usize = 0;
        while i < self.accounts.len()
            invariant
                i <= self.accounts.len(),
                self.accounts.len() == before.len(),
                self.root() == old(self).root(),
                forall|j: int|
                    0 <= j < i ==> #[trigger] self@[j] == (AccountView {
                        zoom_level: at_least(before[j].zoom_level, floor),
                        ..before[j]
                    }),
                forall|j: int| i <= j < before.len() ==> #[trigger] self@[j] == before[j],
            decreases self.accounts.len() - i,
        {
            let ghost prior = self@;
            if self.accounts[i].zoom_level < floor {
                self.accounts[i].zoom_level = floor;
            }
            assert(self@ =~= prior.update(
                i as int,
                AccountView { zoom_level: at_least(prior[i as int].zoom_level, floor), ..prior[i as int] },
            ));
            i += 1;
        }
        assert(self@ =~= zoom_raised(before, floor));
        proof {
            if well_formed(before) {
                lemma_zoom_raised_well_formed(before, floor);
            }
        }
    }

    /// Sets or clears the unread mark of the account `account_id`.
    pub fn set_account_unread(&mut self, account_id: &str, unread: bool) -> (r: Result<(), AccountError>)
        ensures
            final(self)@ == replaced(
                old(self)@,
                account_id@,
                AccountView { has_unread: unread, ..account_of(old(self)@, account_id@) },
            ),
            final(self).root() == old(self).root(),
            r is Ok <==> has_id(old(self)@, account_id@),
            r is Err ==> r == Err::<(), AccountError>(AccountError::NotFound),
            well_formed(old(self)@) ==> well_formed(final(self)@),
            final(self)@.len() == old(self)@.len(),
            forall|other: Seq<char>| #[trigger] has_id(final(self)@, other) == has_id(old(self)@, other),
            has_id(old(self)@, account_id@) ==> account_of(final(self)@, account_id@) == (AccountView {
                has_unread: unread,
                ..account_of(old(self)@, account_id@)
            }),
    {
        proof {
            if well_formed(self@) {
                lemma_replaced_well_formed(
                    self@,
                    account_id@,
                    AccountView { has_unread: unread, ..account_of(self@, account_id@) },
                );
            }
            lemma_replaced_keeps(
                self@,
                account_id@,
                AccountView { has_unread: unread, ..account_of(self@, account_id@) },
            );
        }
        let key = account_id.to_owned();
        match self.find(&key) {
            Some(i) => {
                self.accounts[i].has_unread = unread;
                assert(self@ =~= old(self)@.update(
                    i as int,
                    AccountView { has_unread: unread, ..old(self)@[i as int] },
                ));
                Ok(())
            },
            None => Err(AccountError::NotFound),
        }
    }

    /// Records whether a browsing session of the account `account_id` was found on
    /// disk. Where no account has that id, nothing changes.
    pub fn update_session_state(&mut self, account_id: &str, session_exists: bool)
        ensures
            final(self)@ == replaced(
                old(self)@,
                account_id@,
                AccountView { has_session: session_exists, ..account_of(old(self)@, account_id@) },
            ),
            final(self).root() == old(self).root(),
            well_formed(old(self)@) ==> well_formed(final(self)@),
            final(self)@.len() == old(self)@.len(),
            forall|other: Seq<char>| #[trigger] has_id(final(self)@, other) == has_id(old(self)@, other),
            has_id(old(self)@, account_id@) ==> account_of(final(self)@, account_id@) == (AccountView {
                has_session: session_exists,
                ..account_of(old(self)@, account_id@)
            }),
    {
        proof {
            if well_formed(self@) {
                lemma_replaced_well_formed(
                    self@,
                    account_id@,
                    AccountView { has_session: session_exists, ..account_of(self@, account_id@) },
                );
            }
            lemma_replaced_keeps(
                self@,
                account_id@,
                AccountView { has_session: session_exists, ..account_of(self@, account_id@) },
            );
        }
        let key = account_id.to_owned();
        match self.find(&key) {
            Some(i) => {
                self.accounts[i].has_session = session_exists;
                assert(self@ =~= old(self)@.update(
                    i as int,
                    AccountView { has_session: session_exists, ..old(self)@[i as int] },
                ));
            },
            None => {},
        }
    }

    /// All accounts in the order of display: the default account first, then by
    /// display order, accounts of equal display order as the registry holds them.
    pub fn get_accounts_sorted(&self) -> (r: Vec<Account>)
        ensures
            views(r@) == sorted(self@),
            r@.len() == self@.len(),
            has_id(self@, DEFAULT_ACCOUNT_ID@) ==> is_default(r@[0]@),
            forall|i: int, j: int|
                0 <= i < j < r@.len() ==> shown_no_later((#[trigger] r@[i])@, (#[trigger] r@[j])@),
    {
        let shown = display_indices(&self.accounts);
        proof {
            lemma_display_order_indices(self@);
            lemma_sorted_is_ordered(self@);
            if has_id(self@, DEFAULT_ACCOUNT_ID@) {
                lemma_default_shown_first(self@);
            }
        }
        let mut out: Vec<Account> = Vec::new();
        let mut i: usize = 0;
        while i < shown.len()
            invariant
                i <= shown.len(),
                shown@.len() == self.accounts@.len(),
                shown@.map_values(|k: usize| k as int) == display_order(self@),
                forall|j: int| 0 <= j < self@.len() ==> 0 <= #[trigger] display_order(self@)[j] < self@.len(),
                out@.len() == i,
                forall|j: int| 0 <= j < i ==> out@[j]@ == sorted(self@)[j],
            decreases shown.len() - i,
        {
            assert(shown@.map_values(|k: usize| k as int)[i as int] == shown@[i as int] as int);
            let k: usize = shown[i];
            out.push(self.accounts[k].clone());
            i += 1;
        }
        assert(views(out@) =~= sorted(self@));
        assert(self@.len() > 0 ==> views(out@)[0] == out@[0]@);
        assert forall|i: int, j: int| 0 <= i < j < out@.len() implies shown_no_later(
            (#[trigger] out@[i])@,
            (#[trigger] out@[j])@,
        ) by {
            assert(views(out@)[i] == out@[i]@ && views(out@)[j] == out@[j]@);
        }
        out
    }

    /// What the chrome shows of each account, in the order of display: id, name,
    /// emoji and the unread mark.
    pub fn get_accounts_summary(&self) -> (r: Vec<(String, String, String, bool)>)
        ensures
            r@.len() == self@.len(),
            forall|i: int|
                0 <= i < r@.len() ==> (#[trigger] r@[i].0@, r@[i].1@, r@[i].2@, r@[i].3) == summary_of(
                    sorted(self@)[i],
                ),
    {
        let shown = self.get_accounts_sorted();
        proof {
            lemma_display_order_indices(self@);
            assert(views(shown@).len() == shown@.len());
            assert(sorted(self@).len() == self@.len());
        }
        let mut out: Vec<(String, String, String, bool)> = Vec::new();
        let mut i: usize = 0;
        while i < shown.len()
            invariant
                i <= shown.len(),
                shown@.len() == self@.len(),
                views(shown@) == sorted(self@),
                out@.len() == i,
                forall|j: int|
                    0 <= j < i ==> (#[trigger] out@[j].0@, out@[j].1@, out@[j].2@, out@[j].3) == summary_of(
                        sorted(self@)[j],
                    ),
            decreases shown.len() - i,
        {
            assert(views(shown@)[i as int] == shown@[i as int]@);
            let a = &shown[i];
            out.push((a.id.clone(), a.name.clone(), a.emoji.clone(), a.has_unread));
            i += 1;
        }
        out
    }

    /// The place in the order of display of the first account shown with the id `key`.
    fn place_of(&self, shown: &Vec<usize>, key: &String) -> (r: Option<usize>)
        requires
            shown@.len() == self@.len(),
            shown@.map_values(|k: usize| k as int) == display_order(self@),
        ensures
            match r {
                Some(at) => is_position(sorted(self@), key@, at as int) && at < shown@.len(),
                None => !has_id(sorted(self@), key@),
            },
    {
        let ghost listed = sorted(self@);
        proof {
            lemma_display_order_indices(self@);
        }
        let mut at: usize = 0;
        while at < shown.len()
            invariant
                at <= shown.len(),
                listed == sorted(self@),
                shown@.len() == self@.len(),
                listed.len() == self@.len(),
                shown@.map_values(|k: usize| k as int) == display_order(self@),
                forall|j: int| 0 <= j < self@.len() ==> 0 <= #[trigger] display_order(self@)[j] < self@.len(),
                forall|j: int| 0 <= j < at ==> (#[trigger] listed[j]).id != key@,
            decreases shown.len() - at,
        {
            assert(shown@.map_values(|k: usize| k as int)[at as int] == shown@[at as int] as int);
            let k: usize = shown[at];
            assert(listed[at as int] == self@[k as int]);
            assert(self@[k as int] == self.accounts@[k as int]@);
            if self.accounts[k].id == *key {
                return Some(at);
            }
            at += 1;
        }
        None
    }

    /// Exchanges the display orders of the accounts at `i` and `j`.
    fn swap_orders(&mut self, i: usize, j: usize)
        requires
            i < old(self)@.len(),
            j < old(self)@.len(),
        ensures
            final(self)@ == orders_swapped(old(self)@, i as int, j as int),
            final(self).root() == old(self).root(),
    {
        let ghost s0 = self@;
        let first: i32 = self.accounts[i].order;
        let second: i32 = self.accounts[j].order;
        assert(s0[i as int] == self.accounts@[i as int]@);
        assert(s0[j as int] == self.accounts@[j as int]@);
        self.accounts[i].order = second;
        let ghost s1 = self@;
        assert(s1 =~= s0.update(i as int, AccountView { order: second, ..s0[i as int] }));
        self.accounts[j].order = first;
        assert(self@ =~= s1.update(j as int, AccountView { order: first, ..s1[j as int] }));
        assert(s1.update(j as int, AccountView { order: first, ..s1[j as int] }) =~= orders_swapped(
            s0,
            i as int,
            j as int,
        ));
    }

    /// Whether the account at `i` is the default account.
    fn is_default_at(&self, i: usize) -> (r: bool)
        requires
            i < self@.len(),
        ensures
            r == is_default(self@[i as int]),
    {
        assert(self@[i as int] == self.accounts@[i as int]@);
        self.accounts[i].id == DEFAULT_ACCOUNT_ID.to_owned()
    }

    /// Moves the account `account_id` one place up (`direction` below zero) or down
    /// in the order of display, by exchanging its display order with that of its
    /// neighbour. The default account does not move, no account moves above it, and
    /// nothing moves past either end of the list: such a request changes nothing.
    pub fn reorder_account(&mut self, account_id: &str, direction: i32)
        ensures
            final(self)@ == reordered(old(self)@, account_id@, direction),
            final(self).root() == old(self).root(),
            account_id@ == DEFAULT_ACCOUNT_ID@ ==> final(self)@ == old(self)@,
            well_formed(old(self)@) ==> well_formed(final(self)@),
            final(self)@.len() == old(self)@.len(),
            forall|other: Seq<char>| #[trigger] has_id(final(self)@, other) == has_id(old(self)@, other),
    {
        proof {
            if well_formed(self@) {
                lemma_reordered_well_formed(self@, account_id@, direction);
            }
            lemma_reordered_keeps(self@, account_id@, direction);
        }
        let key = account_id.to_owned();
        if key == DEFAULT_ACCOUNT_ID.to_owned() {
            return;
        }
        let shown = display_indices(&self.accounts);
        let ghost p = display_order(self@);
        proof {
            lemma_display_order_indices(self@);
        }
        match self.place_of(&shown, &key) {
            None => {},
            Some(at) => {
                assert(at as int == position(sorted(self@), key@));
                assert(p[at as int] == shown@[at as int] as int) by {
                    assert(shown@.map_values(|k: usize| k as int)[at as int] == shown@[at as int] as int);
                }
                if direction < 0 {
                    if at > 0 {
                        assert(p[at - 1] == shown@[at - 1] as int) by {
                            assert(shown@.map_values(|k: usize| k as int)[at - 1] == shown@[at - 1] as int);
                        }
                        assert(sorted(self@)[at - 1] == self@[p[at - 1]]);
                        if !self.is_default_at(shown[at - 1]) {
                            self.swap_orders(shown[at], shown[at - 1]);
                        }
                    }
                } else {
                    if at < shown.len() - 1 {
                        assert(p[at + 1] == shown@[at + 1] as int) by {
                            assert(shown@.map_values(|k: usize| k as int)[at + 1] == shown@[at + 1] as int);
                        }
                        self.swap_orders(shown[at], shown[at + 1]);
                    }
                }
            },
        }
    }

    /// The directory that holds the session directories of all accounts.
    pub fn session_root_dir(&self) -> (r: String)
        ensures
            r@ == session_root(self.root()),
    {
        let mut path = self.config_dir.clone();
        path.append("/sessions");
        path
    }

    /// The directory that holds what the account `account_id` keeps on disk.
    pub fn session_dir_for(&self, account_id: &str) -> (r: String)
        ensures
            r@ == session_dir(self.root(), account_id@),
    {
        let mut path = self.session_root_dir();
        path.append("/");
        path.append(account_id);
        path
    }

    /// The directory of the browsing data of the account `account_id`.
    pub fn data_dir_for(&self, account_id: &str) -> (r: String)
        ensures
            r@ == data_dir(self.root(), account_id@),
    {
        let mut path = self.session_dir_for(account_id);
        path.append("/data");
        path
    }

    /// The directory of the cache of the account `account_id`.
    pub fn cache_dir_for(&self, account_id: &str) -> (r: String)
        ensures
            r@ == cache_dir(self.root(), account_id@),
    {
        let mut path = self.session_dir_for(account_id);
        path.append("/cache");
        path
    }

    /// Makes sure that the registry holds an account, and returns the one in use. A
    /// registry that holds accounts stays as it is. An empty one gets the default
    /// account, created now and active; `has_legacy_session` tells whether a session
    /// from before the registry existed was found, which that account then takes over.
    pub fn ensure_default_account(&mut self, has_legacy_session: bool) -> (r: Account)
        ensures
            final(self).root() == old(self).root(),
            old(self)@.len() > 0 ==> final(self)@ == old(self)@ && active_account(old(self)@) == Some(r@),
            old(self)@.len() == 0 ==> final(self)@ == seq![r@] && r@ == first_account(
                has_legacy_session,
                r.created_at,
            ),
            active_account(final(self)@) == Some(r@),
            has_id(final(self)@, r@.id),
            well_formed(old(self)@) ==> well_formed(final(self)@),
    {
        proof {
            lemma_active_is_registered(self@);
        }
        match self.get_active_account() {
            Some(active) => active,
            None => {
                let mut account = Account::new(
                    DEFAULT_ACCOUNT_ID.to_owned(),
                    DEFAULT_ACCOUNT_NAME.to_owned(),
                    DEFAULT_COLOR.to_owned(),
                    DEFAULT_EMOJI.to_owned(),
                );
                account.is_active = true;
                account.has_session = has_legacy_session;
                self.accounts.push(account.clone());
                assert(self@ =~= seq![account@]);
                assert(self@[0].is_active);
                assert(is_first_active(self@, 0));
                assert(!none_active(self@));
                assert((choose|i: int| is_first_active(self@, i)) == 0);
                assert(self@[0].id == account@.id);
                account
            },
        }
    }
}

} // verus!
