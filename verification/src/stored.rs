//! The stored form of an account: what one entry of the registry file holds. A file
//! written by an earlier version lacks the fields that came later; reading fills
//! them with their defaults.

use crate::account::{views, Account, AccountView, DEFAULT_COLOR, DEFAULT_EMOJI, DEFAULT_ZOOM};
use vstd::prelude::*;

verus! {

/// One entry of the registry file. Id, name and creation time are always there; a
/// field that the file may lack is `None` where it does.
#[derive(Debug)]
pub struct StoredAccount {
    pub id: String,
    pub name: String,
    pub created_at: i64,
    pub is_active: Option<bool>,
    pub has_session: Option<bool>,
    pub color: Option<String>,
    pub emoji: Option<String>,
    pub order: Option<i32>,
    pub has_unread: Option<bool>,
    /// In percent of the natural size.
    pub zoom_level: Option<u32>,
    pub notification_permission_asked: Option<bool>,
    pub notification_permission_granted: Option<bool>,
    pub microphone_permission_asked: Option<bool>,
    pub microphone_permission_granted: Option<bool>,
    pub camera_permission_asked: Option<bool>,
    pub camera_permission_granted: Option<bool>,
}

/// What a `StoredAccount` holds, with each string as its sequence of characters.
pub struct StoredAccountView {
    pub id: Seq<char>,
    pub name: Seq<char>,
    pub created_at: i64,
    pub is_active: Option<bool>,
    pub has_session: Option<bool>,
    pub color: Option<Seq<char>>,
    pub emoji: Option<Seq<char>>,
    pub order: Option<i32>,
    pub has_unread: Option<bool>,
    pub zoom_level: Option<u32>,
    pub notification_permission_asked: Option<bool>,
    pub notification_permission_granted: Option<bool>,
    pub microphone_permission_asked: Option<bool>,
    pub microphone_permission_granted: Option<bool>,
    pub camera_permission_asked: Option<bool>,
    pub camera_permission_granted: Option<bool>,
}

/// The characters of a string that may be missing.
pub open spec fn text_view(s: Option<String>) -> Option<Seq<char>> {
    match s {
        Some(t) => Some(t@),
        None => None,
    }
}

impl View for StoredAccount {
    type V = StoredAccountView;

    open spec fn view(&self) -> StoredAccountView {
        StoredAccountView {
            id: self.id@,
            name: self.name@,
            created_at: self.created_at,
            is_active: self.is_active,
            has_session: self.has_session,
            color: text_view(self.color),
            emoji: text_view(self.emoji),
            order: self.order,
            has_unread: self.has_unread,
            zoom_level: self.zoom_level,
            notification_permission_asked: self.notification_permission_asked,
            notification_permission_granted: self.notification_permission_granted,
            microphone_permission_asked: self.microphone_permission_asked,
            microphone_permission_granted: self.microphone_permission_granted,
            camera_permission_asked: self.camera_permission_asked,
            camera_permission_granted: self.camera_permission_granted,
        }
    }
}

/// A flag that the file may lack: absent means `false`.
pub open spec fn flag(stored: Option<bool>) -> bool {
    match stored {
        Some(b) => b,
        None => false,
    }
}

/// The account that an entry of the file stands for: a field that the entry lacks
/// has its default. Flags default to `false`, the display order to 0, the zoom to
/// the natural size, colour and emoji to the default avatar.
pub open spec fn restored(stored: StoredAccountView) -> AccountView {
    AccountView {
        id: stored.id,
        name: stored.name,
        created_at: stored.created_at,
        is_active: flag(stored.is_active),
        has_session: flag(stored.has_session),
        color: match stored.color {
            Some(c) => c,
            None => DEFAULT_COLOR@,
        },
        emoji: match stored.emoji {
            Some(e) => e,
            None => DEFAULT_EMOJI@,
        },
        order: match stored.order {
            Some(o) => o,
            None => 0,
        },
        has_unread: flag(stored.has_unread),
        zoom_level: match stored.zoom_level {
            Some(z) => z,
            None => DEFAULT_ZOOM,
        },
        notification_permission_asked: flag(stored.notification_permission_asked),
        notification_permission_granted: flag(stored.notification_permission_granted),
        microphone_permission_asked: flag(stored.microphone_permission_asked),
        microphone_permission_granted: flag(stored.microphone_permission_granted),
        camera_permission_asked: flag(stored.camera_permission_asked),
        camera_permission_granted: flag(stored.camera_permission_granted),
    }
}

/// The entry that is written for an account: every field is there.
pub open spec fn written(a: AccountView) -> StoredAccountView {
    StoredAccountView {
        id: a.id,
        name: a.name,
        created_at: a.created_at,
        is_active: Some(a.is_active),
        has_session: Some(a.has_session),
        color: Some(a.color),
        emoji: Some(a.emoji),
        order: Some(a.order),
        has_unread: Some(a.has_unread),
        zoom_level: Some(a.zoom_level),
        notification_permission_asked: Some(a.notification_permission_asked),
        notification_permission_granted: Some(a.notification_permission_granted),
        microphone_permission_asked: Some(a.microphone_permission_asked),
        microphone_permission_granted: Some(a.microphone_permission_granted),
        camera_permission_asked: Some(a.camera_permission_asked),
        camera_permission_granted: Some(a.camera_permission_granted),
    }
}

/// The views of a sequence of entries.
pub open spec fn stored_views(v: Seq<StoredAccount>) -> Seq<StoredAccountView> {
    v.map_values(|e: StoredAccount| e@)
}

/// A flag that the file may lack.
fn flag_of(stored: Option<bool>) -> (r: bool)
    ensures
        r == flag(stored),
{
    match stored {
        Some(b) => b,
        None => false,
    }
}

impl Account {
    /// The account that an entry of the file stands for.
    pub fn from_stored(stored: StoredAccount) -> (r: Account)
        ensures
            r@ == restored(stored@),
    {
        Account {
            id: stored.id,
            name: stored.name,
            created_at: stored.created_at,
            is_active: flag_of(stored.is_active),
            has_session: flag_of(stored.has_session),
            color: match stored.color {
                Some(c) => c,
                None => DEFAULT_COLOR.to_owned(),
            },
            emoji: match stored.emoji {
                Some(e) => e,
                None => DEFAULT_EMOJI.to_owned(),
            },
            order: match stored.order {
                Some(o) => o,
                None => 0,
            },
            has_unread: flag_of(stored.has_unread),
            zoom_level: match stored.zoom_level {
                Some(z) => z,
                None => DEFAULT_ZOOM,
            },
            notification_permission_asked: flag_of(stored.notification_permission_asked),
            notification_permission_granted: flag_of(stored.notification_permission_granted),
            microphone_permission_asked: flag_of(stored.microphone_permission_asked),
            microphone_permission_granted: flag_of(stored.microphone_permission_granted),
            camera_permission_asked: flag_of(stored.camera_permission_asked),
            camera_permission_granted: flag_of(stored.camera_permission_granted),
        }
    }

    /// The entry that is written for this account.
    pub fn to_stored(&self) -> (r: StoredAccount)
        ensures
            r@ == written(self@),
            restored(r@) == self@,
    {
        StoredAccount {
            id: self.id.clone(),
            name: self.name.clone(),
            created_at: self.created_at,
            is_active: Some(self.is_active),
            has_session: Some(self.has_session),
            color: Some(self.color.clone()),
            emoji: Some(self.emoji.clone()),
            order: Some(self.order),
            has_unread: Some(self.has_unread),
            zoom_level: Some(self.zoom_level),
            notification_permission_asked: Some(self.notification_permission_asked),
            notification_permission_granted: Some(self.notification_permission_granted),
            microphone_permission_asked: Some(self.microphone_permission_asked),
            microphone_permission_granted: Some(self.microphone_permission_granted),
            camera_permission_asked: Some(self.camera_permission_asked),
            camera_permission_granted: Some(self.camera_permission_granted),
        }
    }
}

/// The accounts that the entries of a file stand for, in the order of the file.
pub fn restore_all(entries: Vec<StoredAccount>) -> (r: Vec<Account>)
    ensures
        views(r@) == stored_views(entries@).map_values(|e: StoredAccountView| restored(e)),
{
    let ghost all = stored_views(entries@);
    let mut entries = entries;
    let mut reversed: Vec<Account> = Vec::new();
    while entries.len() > 0
        invariant
            entries@.len() + reversed@.len() == all.len(),
            stored_views(entries@) == all.take(entries@.len() as int),
            forall|j: int|
                0 <= j < reversed@.len() ==> (#[trigger] reversed@[j])@ == restored(all[all.len() - 1 - j]),
        decreases entries@.len(),
    {
        let ghost prior = stored_views(entries@);
        let entry = entries.pop().unwrap();
        assert(stored_views(entries@) =~= prior.drop_last());
        assert(entry@ == prior.last());
        assert(prior.drop_last() =~= all.take(entries@.len() as int));
        reversed.push(Account::from_stored(entry));
    }
    let mut out: Vec<Account> = Vec::new();
    while reversed.len() > 0
        invariant
            out@.len() + reversed@.len() == all.len(),
            forall|j: int|
                0 <= j < reversed@.len() ==> (#[trigger] reversed@[j])@ == restored(all[all.len() - 1 - j]),
            forall|j: int| 0 <= j < out@.len() ==> (#[trigger] out@[j])@ == restored(all[j]),
        decreases reversed@.len(),
    {
        let account = reversed.pop().unwrap();
        out.push(account);
    }
    assert(views(out@) =~= all.map_values(|e: StoredAccountView| restored(e)));
    out
}

/// The entries that are written for `accounts`, in their order.
pub fn store_all(accounts: &Vec<Account>) -> (r: Vec<StoredAccount>)
    ensures
        stored_views(r@) == views(accounts@).map_values(|a: AccountView| written(a)),
        stored_views(r@).map_values(|e: StoredAccountView| restored(e)) == views(accounts@),
{
    let mut out: Vec<StoredAccount> = Vec::new();
    let mut i: usize = 0;
    while i < accounts.len()
        invariant
            i <= accounts.len(),
            out@.len() == i,
            forall|j: int| 0 <= j < i ==> (#[trigger] out@[j])@ == written(accounts@[j]@),
        decreases accounts.len() - i,
    {
        out.push(accounts[i].to_stored());
        i += 1;
    }
    assert(stored_views(out@) =~= views(accounts@).map_values(|a: AccountView| written(a)));
    assert(stored_views(out@).map_values(|e: StoredAccountView| restored(e)) =~= views(accounts@)) by {
        assert forall|j: int| 0 <= j < out@.len() implies restored(#[trigger] stored_views(out@)[j]) == views(
            accounts@,
        )[j] by {
            lemma_written_then_restored(accounts@[j]@);
        }
    }
    out
}

/// Reading what was written gives back the account, field for field.
pub proof fn lemma_written_then_restored(a: AccountView)
    ensures
        restored(written(a)) == a,
{
}

/// Reading what was written gives back the accounts, each field for field and all
/// in their order.
pub proof fn lemma_registry_round_trip(s: Seq<AccountView>)
    ensures
        s.map_values(|a: AccountView| written(a)).map_values(|e: StoredAccountView| restored(e)) == s,
{
    let back = s.map_values(|a: AccountView| written(a)).map_values(|e: StoredAccountView| restored(e));
    assert(back =~= s) by {
        assert forall|j: int| 0 <= j < s.len() implies back[j] == s[j] by {
            lemma_written_then_restored(s[j]);
        }
    }
}

/// An entry that lacks every field that it may lack is read as a fresh account.
pub proof fn lemma_oldest_entry_reads_as_fresh(id: Seq<char>, name: Seq<char>, created_at: i64)
    ensures
        restored(
            StoredAccountView {
                id,
                name,
                created_at,
                is_active: None,
                has_session: None,
                color: None,
                emoji: None,
                order: None,
                has_unread: None,
                zoom_level: None,
                notification_permission_asked: None,
                notification_permission_granted: None,
                microphone_permission_asked: None,
                microphone_permission_granted: None,
                camera_permission_asked: None,
                camera_permission_granted: None,
            },
        ) == AccountView::fresh(id, name, DEFAULT_COLOR@, DEFAULT_EMOJI@, created_at),
{
}

} // verus!
