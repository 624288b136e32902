//! The coordinator: it owns the registry, the pool of sessions, the router of
//! notifications and the zoom policy, takes the events of the window and of the
//! engine, changes what it owns, and says what its caller has to do.

use crate::account::{
    views, Account, AccountError, AccountView, PermissionKind, DEFAULT_ACCOUNT_ID, DEFAULT_ZOOM,
};
use crate::laws::{
    lemma_activated_keeps_ids, lemma_active_is_not_removed, lemma_active_is_registered,
};
use crate::accounts::AccountManager;
use crate::notifications::{
    decoded, default_tag, forgotten, lemma_decode_inverts, lemma_default_id_decodes, next_stamp, remembered, routing_id,
    NotificationRouter, RouterView,
};
use crate::permissions::{
    answer_of, checked, media_kind, media_resolved, resolved, PermissionAnswer, PermissionLedger,
};
use crate::registry::{
    account_of, activated, active_account, added, cache_dir, colon_free, data_dir, first_account, has_id,
    removed, reordered, replaced, session_dir, sorted, summary_of, well_formed, zoom_of,
    zoom_raised,
};
use crate::sessions::{
    displaced, evicted, front, holds, lemma_evicted, lemma_obtained, obtained, pool_ok, SessionPool,
    SessionView, StorageDirs, SERVICE_URI,
};
use crate::text::{chars_of, decimal, decimal_string, lemma_decimal_is_digits, same_text};
use crate::zoom::{stepped_in, stepped_out, zoom_set, ZoomPolicy};
use vstd::prelude::*;

verus! {

/// What the caller of the coordinator has to do.
#[derive(Debug)]
pub enum Effect {
    /// Build a session of this account at these directories and load the service at
    /// this address into it.
    CreateSession { account_id: String, data_dir: String, cache_dir: String, uri: String },
    /// Show the session of this account.
    ShowSession { account_id: String },
    /// Hide the session of this account; it lives on.
    HideSession { account_id: String },
    /// Release the session of this account.
    DestroySession { account_id: String },
    /// Remove this directory and all below it, if it exists.
    RemoveDirectory { path: String },
    /// Withdraw the notification that the platform knows under this id.
    WithdrawNotification { platform_id: String },
    /// Hand the click on this notification to the session that raised it.
    ReplayClick { routing_id: String },
    /// Let go of what is kept of the notification that the platform knows under this
    /// id: it is no longer remembered for withdrawal.
    ForgetNotification { platform_id: String },
}

/// What an `Effect` holds, with each string as its sequence of characters.
pub enum EffectView {
    CreateSession { account_id: Seq<char>, data_dir: Seq<char>, cache_dir: Seq<char>, uri: Seq<char> },
    ShowSession { account_id: Seq<char> },
    HideSession { account_id: Seq<char> },
    DestroySession { account_id: Seq<char> },
    RemoveDirectory { path: Seq<char> },
    WithdrawNotification { platform_id: Seq<char> },
    ReplayClick { routing_id: Seq<char> },
    ForgetNotification { platform_id: Seq<char> },
}

impl View for Effect {
    type V = EffectView;

    open spec fn view(&self) -> EffectView {
        match *self {
            Effect::CreateSession { account_id, data_dir, cache_dir, uri } => EffectView::CreateSession {
                account_id: account_id@,
                data_dir: data_dir@,
                cache_dir: cache_dir@,
                uri: uri@,
            },
            Effect::ShowSession { account_id } => EffectView::ShowSession { account_id: account_id@ },
            Effect::HideSession { account_id } => EffectView::HideSession { account_id: account_id@ },
            Effect::DestroySession { account_id } => EffectView::DestroySession { account_id: account_id@ },
            Effect::RemoveDirectory { path } => EffectView::RemoveDirectory { path: path@ },
            Effect::WithdrawNotification { platform_id } => EffectView::WithdrawNotification {
                platform_id: platform_id@,
            },
            Effect::ReplayClick { routing_id } => EffectView::ReplayClick { routing_id: routing_id@ },
            Effect::ForgetNotification { platform_id } => EffectView::ForgetNotification {
                platform_id: platform_id@,
            },
        }
    }
}

/// The views of a sequence of effects.
pub open spec fn effects(v: Seq<Effect>) -> Seq<EffectView> {
    v.map_values(|e: Effect| e@)
}

/// Whether `c` is a decimal digit.
pub open spec fn is_digit(c: char) -> bool {
    '0' <= c && c <= '9'
}

/// Whether a page title begins with a count of unread messages in parentheses, as
/// in `(3) Chats`. No other form of title tells of unread messages.
pub open spec fn counts_unread(title: Seq<char>) -> bool {
    exists|n: int|
        2 <= n < title.len() && title[0] == '(' && #[trigger] title[n] == ')' && forall|i: int|
            1 <= i < n ==> is_digit(#[trigger] title[i])
}

/// Whether a page title tells of unread messages.
pub fn title_counts_unread(title: &str) -> (r: bool)
    ensures
        r == counts_unread(title@),
{
    let t = chars_of(title);
    if t.len() < 3 || t[0] != '(' {
        return false;
    }
    let mut i: usize = 1;
    while i < t.len() && '0' <= t[i] && t[i] <= '9'
        invariant
            1 <= i <= t.len(),
            forall|j: int| 1 <= j < i ==> is_digit(#[trigger] t@[j]),
        decreases t.len() - i,
    {
        i += 1;
    }
    if i >= 2 && i < t.len() && t[i] == ')' {
        assert(t@[i as int] == ')');
        true
    } else {
        assert forall|n: int| 2 <= n < t@.len() && t@[0] == '(' && #[trigger] t@[n] == ')' && (forall|k: int|
            1 <= k < n ==> is_digit(#[trigger] t@[k])) implies false by {
            if n < i {
                assert(is_digit(t@[n]));
            } else if n > i {
                assert(is_digit(t@[i as int]));
            }
        }
        false
    }
}

/// What creating the session of the account `id` asks of the engine: nothing where
/// the pool holds it already.
pub open spec fn creation(sessions: Seq<SessionView>, root: Seq<char>, id: Seq<char>) -> Seq<EffectView> {
    if holds(sessions, id) {
        Seq::empty()
    } else {
        seq![
            EffectView::CreateSession {
                account_id: id,
                data_dir: data_dir(root, id),
                cache_dir: cache_dir(root, id),
                uri: SERVICE_URI@,
            },
        ]
    }
}

/// What bringing the session of the account `id` to the foreground asks of the
/// engine: build it where it is new, hide the one that was in front, show it.
pub open spec fn switch_effects(sessions: Seq<SessionView>, root: Seq<char>, id: Seq<char>) -> Seq<EffectView> {
    creation(sessions, root, id) + (match displaced(sessions, id, true) {
        Some(other) => seq![EffectView::HideSession { account_id: other }],
        None => Seq::empty(),
    }) + seq![EffectView::ShowSession { account_id: id }]
}

/// The registry after the user turned to the account `id`: it is the account in use
/// and has nothing unread. Unchanged where no account has that id.
pub open spec fn turned_to(s: Seq<AccountView>, id: Seq<char>) -> Seq<AccountView> {
    let chosen = activated(s, id);
    replaced(chosen, id, AccountView { has_unread: false, ..account_of(chosen, id) })
}

/// Every session belongs to an account of the registry.
pub open spec fn sessions_belong(accounts: Seq<AccountView>, sessions: Seq<SessionView>) -> bool {
    forall|id: Seq<char>| #[trigger] holds(sessions, id) ==> has_id(accounts, id)
}

/// The coordinator of accounts, sessions and notifications.
pub struct SessionCoordinator {
    store: AccountManager,
    pool: SessionPool,
    router: NotificationRouter,
    zoom: ZoomPolicy,
}

impl SessionCoordinator {
    /// The accounts of the registry.
    pub closed spec fn accounts(&self) -> Seq<AccountView> {
        self.store@
    }

    /// The directory at which the registry is rooted.
    pub closed spec fn root(&self) -> Seq<char> {
        self.store.root()
    }

    /// The live sessions.
    pub closed spec fn sessions(&self) -> Seq<SessionView> {
        self.pool@
    }

    /// What the router of notifications holds.
    pub closed spec fn routing(&self) -> RouterView {
        self.router@
    }

    /// The zoom floor in force, if any.
    pub closed spec fn floor(&self) -> Option<u32> {
        self.zoom@
    }

    /// What holds of every coordinator that started over a well-formed registry,
    /// whatever happened since: the registry is well formed; no account has two
    /// sessions and no two sessions are in front; every session belongs to an
    /// account of the registry.
    pub open spec fn in_order(&self) -> bool {
        &&& well_formed(self.accounts())
        &&& pool_ok(self.sessions())
        &&& sessions_belong(self.accounts(), self.sessions())
    }

    /// A coordinator over the registry `store`, with no session yet.
    pub fn new(store: AccountManager) -> (r: Self)
        ensures
            r.accounts() == store@,
            r.root() == store.root(),
            r.sessions() == Seq::<SessionView>::empty(),
            r.routing().issued == Seq::<Seq<char>>::empty(),
            r.floor() is None,
            well_formed(store@) ==> r.in_order(),
    {
        SessionCoordinator {
            store,
            pool: SessionPool::new(),
            router: NotificationRouter::new(),
            zoom: ZoomPolicy::new(),
        }
    }

    /// The registry, for writing it to its file.
    pub fn store(&self) -> (r: &AccountManager)
        ensures
            r@ == self.accounts(),
            r.root() == self.root(),
    {
        &self.store
    }

    /// The account in use.
    pub fn active_account(&self) -> (r: Option<Account>)
        ensures
            match r {
                Some(a) => active_account(self.accounts()) == Some(a@),
                None => active_account(self.accounts()) is None,
            },
    {
        self.store.get_active_account()
    }

    /// What the chrome shows of each account, in the order of display.
    pub fn accounts_summary(&self) -> (r: Vec<(String, String, String, bool)>)
        ensures
            r@.len() == self.accounts().len(),
            forall|i: int|
                0 <= i < r@.len() ==> (#[trigger] r@[i].0@, r@[i].1@, r@[i].2@, r@[i].3) == summary_of(
                    sorted(self.accounts())[i],
                ),
    {
        self.store.get_accounts_summary()
    }

    /// The account whose session the user sees, if any.
    pub fn foreground_account(&self) -> (r: Option<String>)
        ensures
            match r {
                Some(id) => front(self.sessions()) == Some(id@),
                None => front(self.sessions()) is None,
            },
    {
        self.pool.foreground()
    }

    /// The directories of the session of the account `account_id`.
    fn dirs_for(&self, account_id: &str) -> (r: StorageDirs)
        ensures
            r.data@ == data_dir(self.root(), account_id@),
            r.cache@ == cache_dir(self.root(), account_id@),
    {
        StorageDirs { data: self.store.data_dir_for(account_id), cache: self.store.cache_dir_for(account_id) }
    }

    /// Brings the session of `account_id` to the foreground and lists what that asks
    /// of the engine.
    fn bring_forward(&mut self, account_id: &str) -> (r: Vec<Effect>)
        ensures
            final(self).accounts() == old(self).accounts(),
            final(self).root() == old(self).root(),
            final(self).routing() == old(self).routing(),
            final(self).floor() == old(self).floor(),
            final(self).sessions() == obtained(
                old(self).sessions(),
                account_id@,
                data_dir(old(self).root(), account_id@),
                cache_dir(old(self).root(), account_id@),
                true,
            ),
            effects(r@) == switch_effects(old(self).sessions(), old(self).root(), account_id@),
            front(final(self).sessions()) == Some(account_id@),
            pool_ok(old(self).sessions()) ==> pool_ok(final(self).sessions()),
            old(self).in_order() && has_id(old(self).accounts(), account_id@) ==> final(self).in_order(),
            colon_free(old(self).accounts()) ==> colon_free(final(self).accounts()),
    {
        let dirs = self.dirs_for(account_id);
        let change = self.pool.switch(account_id, dirs);
        let mut out: Vec<Effect> = Vec::new();
        if change.created {
            out.push(
                Effect::CreateSession {
                    account_id: account_id.to_owned(),
                    data_dir: self.store.data_dir_for(account_id),
                    cache_dir: self.store.cache_dir_for(account_id),
                    uri: SERVICE_URI.to_owned(),
                },
            );
        }
        match change.demoted {
            Some(other) => {
                out.push(Effect::HideSession { account_id: other });
            },
            None => {},
        }
        out.push(Effect::ShowSession { account_id: account_id.to_owned() });
        assert(effects(out@) =~= switch_effects(old(self).sessions(), old(self).root(), account_id@));
        out
    }

    /// The user turns to the account `account_id`: it becomes the account in use,
    /// its unread mark is cleared, and its session comes to the foreground, built
    /// first where there is none. The session that was in front is hidden and lives
    /// on. Where no account has that id, nothing happens.
    pub fn switch_account(&mut self, account_id: &str) -> (r: Vec<Effect>)
        ensures
            final(self).root() == old(self).root(),
            final(self).routing() == old(self).routing(),
            final(self).floor() == old(self).floor(),
            final(self).accounts() == turned_to(old(self).accounts(), account_id@),
            has_id(old(self).accounts(), account_id@) ==> {
                &&& final(self).sessions() == obtained(
                    old(self).sessions(),
                    account_id@,
                    data_dir(old(self).root(), account_id@),
                    cache_dir(old(self).root(), account_id@),
                    true,
                )
                &&& effects(r@) == switch_effects(old(self).sessions(), old(self).root(), account_id@)
                &&& front(final(self).sessions()) == Some(account_id@)
            },
            !has_id(old(self).accounts(), account_id@) ==> {
                &&& final(self).sessions() == old(self).sessions()
                &&& r@.len() == 0
            },
            well_formed(old(self).accounts()) ==> well_formed(final(self).accounts()),
            pool_ok(old(self).sessions()) ==> pool_ok(final(self).sessions()),
            old(self).in_order() ==> final(self).in_order(),
            colon_free(old(self).accounts()) ==> colon_free(final(self).accounts()),
    {
        self.store.set_active_account(account_id);
        match self.store.set_account_unread(account_id, false) {
            Ok(()) => {
                proof {
                    lemma_activated_keeps_ids(old(self).accounts(), account_id@, account_id@);
                }
                self.bring_forward(account_id)
            },
            Err(_) => {
                proof {
                    lemma_activated_keeps_ids(old(self).accounts(), account_id@, account_id@);
                }
                Vec::new()
            },
        }
    }

    /// Makes sure that the account `account_id` has a session, in the background
    /// where it is new, so that it can raise notifications. Where no account has
    /// that id, nothing happens.
    pub fn warm_account(&mut self, account_id: &str) -> (r: Vec<Effect>)
        ensures
            final(self).accounts() == old(self).accounts(),
            final(self).root() == old(self).root(),
            final(self).routing() == old(self).routing(),
            final(self).floor() == old(self).floor(),
            has_id(old(self).accounts(), account_id@) ==> {
                &&& final(self).sessions() == obtained(
                    old(self).sessions(),
                    account_id@,
                    data_dir(old(self).root(), account_id@),
                    cache_dir(old(self).root(), account_id@),
                    false,
                )
                &&& effects(r@) == creation(old(self).sessions(), old(self).root(), account_id@)
            },
            !has_id(old(self).accounts(), account_id@) ==> {
                &&& final(self).sessions() == old(self).sessions()
                &&& r@.len() == 0
            },
            pool_ok(old(self).sessions()) ==> pool_ok(final(self).sessions()),
            old(self).in_order() ==> final(self).in_order(),
            colon_free(old(self).accounts()) ==> colon_free(final(self).accounts()),
    {
        let mut out: Vec<Effect> = Vec::new();
        if !self.knows(account_id) {
            return out;
        }
        let dirs = self.dirs_for(account_id);
        let change = self.pool.get_or_create(account_id, dirs, false);
        if change.created {
            out.push(
                Effect::CreateSession {
                    account_id: account_id.to_owned(),
                    data_dir: self.store.data_dir_for(account_id),
                    cache_dir: self.store.cache_dir_for(account_id),
                    uri: SERVICE_URI.to_owned(),
                },
            );
        }
        assert(effects(out@) =~= creation(old(self).sessions(), old(self).root(), account_id@));
        out
    }

    /// Whether the registry holds the account `account_id`.
    pub fn knows(&self, account_id: &str) -> (r: bool)
        ensures
            r == has_id(self.accounts(), account_id@),
    {
        self.store.has_account(account_id)
    }

    /// Makes sure that the registry holds an account, and brings the session of the
    /// account in use to the foreground. An empty registry gets the default account,
    /// which takes over the legacy session if `has_legacy_session` tells of one.
    pub fn start(&mut self, has_legacy_session: bool) -> (r: Vec<Effect>)
        ensures
            final(self).root() == old(self).root(),
            final(self).routing() == old(self).routing(),
            final(self).floor() == old(self).floor(),
            old(self).accounts().len() > 0 ==> final(self).accounts() == old(self).accounts(),
            old(self).accounts().len() == 0 ==> final(self).accounts().len() == 1
                && final(self).accounts()[0] == first_account(
                has_legacy_session,
                final(self).accounts()[0].created_at,
            ),
            active_account(final(self).accounts()) matches Some(a) && {
                &&& final(self).sessions() == obtained(
                    old(self).sessions(),
                    a.id,
                    data_dir(old(self).root(), a.id),
                    cache_dir(old(self).root(), a.id),
                    true,
                )
                &&& effects(r@) == switch_effects(old(self).sessions(), old(self).root(), a.id)
                &&& front(final(self).sessions()) == Some(a.id)
            },
            pool_ok(old(self).sessions()) ==> pool_ok(final(self).sessions()),
            old(self).in_order() ==> final(self).in_order(),
            colon_free(old(self).accounts()) ==> colon_free(final(self).accounts()),
    {
        let active = self.store.ensure_default_account(has_legacy_session);
        proof {
            lemma_default_id_decodes(Seq::empty());
            if old(self).accounts().len() == 0 {
                assert forall|id: Seq<char>| #[trigger] has_id(self.accounts(), id) implies !id.contains(':') by {
                    let w = choose|w: int| 0 <= w < self.accounts().len() && (#[trigger] self.accounts()[w]).id == id;
                    assert(id == DEFAULT_ACCOUNT_ID@);
                }
            }
        }
        self.bring_forward(active.id.as_str())
    }

    /// Registers a new account with the id that belongs to its creation time.
    pub fn add_account_at(&mut self, name: &str, color: &str, emoji: &str, created_at: i64) -> (r: Result<
        Account,
        AccountError,
    >)
        ensures
            final(self).root() == old(self).root(),
            final(self).sessions() == old(self).sessions(),
            final(self).routing() == old(self).routing(),
            final(self).floor() == old(self).floor(),
            final(self).accounts() == added(
                old(self).accounts(),
                AccountView::fresh(account_id_for(created_at), name@, color@, emoji@, created_at),
            ),
            r is Ok <==> !has_id(old(self).accounts(), account_id_for(created_at)),
            r is Err ==> r->Err_0 == AccountError::DuplicateId,
            r matches Ok(a) ==> a@ == final(self).accounts().last(),
            r matches Ok(a) ==> a@.id == account_id_for(created_at) && !a@.id.contains(':'),
            well_formed(old(self).accounts()) ==> well_formed(final(self).accounts()),
            old(self).in_order() ==> final(self).in_order(),
            colon_free(old(self).accounts()) ==> colon_free(final(self).accounts()),
    {
        let stamp: u64 = if created_at < 0 {
            0
        } else {
            created_at as u64
        };
        let mut id = ACCOUNT_ID_PREFIX.to_owned();
        let digits = decimal_string(stamp);
        id.append(digits.as_str());
        let account = Account::created_at(id, name.to_owned(), color.to_owned(), emoji.to_owned(), created_at);
        proof {
            lemma_made_id_decodes(created_at, Seq::empty());
        }
        match self.store.add_account(account) {
            Ok(()) => {
                let list = self.store.get_accounts();
                assert(views(list@).last() == list@.last()@);
                Ok(list[list.len() - 1].clone())
            },
            Err(e) => Err(e),
        }
    }

    /// Registers a new account, created now. Its id belongs to its creation time, so
    /// a second account made within the same second is refused. Nothing else is: the
    /// account is registered unless the registry holds an id of this making already.
    pub fn add_account(&mut self, name: &str, color: &str, emoji: &str) -> (r: Result<Account, AccountError>)
        ensures
            final(self).root() == old(self).root(),
            final(self).sessions() == old(self).sessions(),
            final(self).routing() == old(self).routing(),
            final(self).floor() == old(self).floor(),
            r is Err ==> r->Err_0 == AccountError::DuplicateId && final(self).accounts() == old(self).accounts(),
            r is Err ==> exists|t: i64| has_id(old(self).accounts(), #[trigger] account_id_for(t)),
            r matches Ok(a) ==> {
                &&& !has_id(old(self).accounts(), account_id_for(a.created_at))
                &&& final(self).accounts() == added(
                    old(self).accounts(),
                    AccountView::fresh(account_id_for(a.created_at), name@, color@, emoji@, a.created_at),
                )
                &&& a@ == final(self).accounts().last()
                &&& a@.id == account_id_for(a.created_at)
                &&& !a@.id.contains(':')
            },
            well_formed(old(self).accounts()) ==> well_formed(final(self).accounts()),
            old(self).in_order() ==> final(self).in_order(),
            colon_free(old(self).accounts()) ==> colon_free(final(self).accounts()),
    {
        let now = Account::new(String::new(), String::new(), String::new(), String::new()).created_at;
        self.add_account_at(name, color, emoji, now)
    }

    /// Removes the account `account_id`, ends its session, and asks for its session
    /// directory to be removed. Where its session was the one in front, the session
    /// of the account now in use comes to the foreground. The default account is
    /// protected: asking for its removal is refused and changes nothing.
    pub fn remove_account(&mut self, account_id: &str) -> (r: Result<Vec<Effect>, AccountError>)
        ensures
            final(self).root() == old(self).root(),
            final(self).routing() == old(self).routing(),
            final(self).floor() == old(self).floor(),
            account_id@ == DEFAULT_ACCOUNT_ID@ ==> {
                &&& r is Err
                &&& r->Err_0 == AccountError::ProtectedAccount
                &&& final(self).accounts() == old(self).accounts()
                &&& final(self).sessions() == old(self).sessions()
            },
            account_id@ != DEFAULT_ACCOUNT_ID@ ==> {
                &&& r is Ok
                &&& final(self).accounts() == removed(old(self).accounts(), account_id@)
                &&& final(self).sessions() == sessions_after_removal(
                    old(self).accounts(),
                    old(self).sessions(),
                    old(self).root(),
                    account_id@,
                )
                &&& effects(r->Ok_0@) == removal_effects(
                    old(self).accounts(),
                    old(self).sessions(),
                    old(self).root(),
                    account_id@,
                )
                &&& !holds(final(self).sessions(), account_id@)
            },
            well_formed(old(self).accounts()) ==> well_formed(final(self).accounts()),
            pool_ok(old(self).sessions()) ==> pool_ok(final(self).sessions()),
            old(self).in_order() ==> final(self).in_order(),
            colon_free(old(self).accounts()) ==> colon_free(final(self).accounts()),
    {
        match self.store.remove_account(account_id) {
            Err(e) => Err(e),
            Ok(()) => {
                let was_front = match self.pool.foreground() {
                    Some(id) => same_text(id.as_str(), account_id),
                    None => false,
                };
                let mut out: Vec<Effect> = Vec::new();
                let ghost rest = evicted(old(self).sessions(), account_id@);
                proof {
                    lemma_evicted(old(self).sessions(), account_id@);
                }
                match self.pool.evict(account_id) {
                    Some(_) => {
                        out.push(Effect::DestroySession { account_id: account_id.to_owned() });
                    },
                    None => {},
                }
                out.push(Effect::RemoveDirectory { path: self.store.session_dir_for(account_id) });
                assert(effects(out@) =~= parting_effects(old(self).sessions(), old(self).root(), account_id@));
                if was_front {
                    match self.store.get_active_account() {
                        Some(next) => {
                            let ghost first = effects(out@);
                            proof {
                                lemma_obtained(
                                    rest,
                                    next@.id,
                                    data_dir(self.root(), next@.id),
                                    cache_dir(self.root(), next@.id),
                                    true,
                                );
                                lemma_active_is_not_removed(old(self).accounts(), account_id@);
                                lemma_active_is_registered(self.accounts());
                            }
                            let mut more = self.bring_forward(next.id.as_str());
                            let ghost second = effects(more@);
                            out.append(&mut more);
                            assert(effects(out@) =~= first + second);
                        },
                        None => {},
                    }
                }
                Ok(out)
            },
        }
    }

    /// Moves the account `account_id` one place up (`direction` below zero) or down
    /// in the order of display.
    pub fn reorder_account(&mut self, account_id: &str, direction: i32)
        ensures
            final(self).root() == old(self).root(),
            final(self).sessions() == old(self).sessions(),
            final(self).routing() == old(self).routing(),
            final(self).floor() == old(self).floor(),
            final(self).accounts() == reordered(old(self).accounts(), account_id@, direction),
            account_id@ == DEFAULT_ACCOUNT_ID@ ==> final(self).accounts() == old(self).accounts(),
            well_formed(old(self).accounts()) ==> well_formed(final(self).accounts()),
            old(self).in_order() ==> final(self).in_order(),
            colon_free(old(self).accounts()) ==> colon_free(final(self).accounts()),
    {
        self.store.reorder_account(account_id, direction);
    }

    /// How a request of a page of the account `account_id` for `kind` is answered.
    pub fn on_permission_request(&self, account_id: &str, kind: PermissionKind) -> (r: PermissionAnswer)
        ensures
            r == answer_of(checked(self.accounts(), account_id@, kind)),
    {
        PermissionLedger::answer(&self.store, account_id, kind)
    }

    /// Records what the user decided on `kind` for the account `account_id`.
    pub fn on_permission_decided(&mut self, account_id: &str, kind: PermissionKind, granted: bool) -> (r: Result<
        (),
        AccountError,
    >)
        ensures
            final(self).root() == old(self).root(),
            final(self).sessions() == old(self).sessions(),
            final(self).routing() == old(self).routing(),
            final(self).floor() == old(self).floor(),
            final(self).accounts() == resolved(old(self).accounts(), account_id@, kind, granted),
            r is Ok <==> has_id(old(self).accounts(), account_id@),
            r is Err ==> r == Err::<(), AccountError>(AccountError::NotFound),
            r is Ok ==> answer_of(checked(final(self).accounts(), account_id@, kind)) == (if granted {
                PermissionAnswer::Allow
            } else {
                PermissionAnswer::Deny
            }),
            well_formed(old(self).accounts()) ==> well_formed(final(self).accounts()),
            old(self).in_order() ==> final(self).in_order(),
            colon_free(old(self).accounts()) ==> colon_free(final(self).accounts()),
    {
        PermissionLedger::resolve(&mut self.store, account_id, kind, granted)
    }

    /// Records what the user decided on a request for capture devices.
    pub fn on_media_decided(&mut self, account_id: &str, audio: bool, video: bool, granted: bool) -> (r: Result<
        (),
        AccountError,
    >)
        ensures
            final(self).root() == old(self).root(),
            final(self).sessions() == old(self).sessions(),
            final(self).routing() == old(self).routing(),
            final(self).floor() == old(self).floor(),
            final(self).accounts() == media_resolved(old(self).accounts(), account_id@, audio, video, granted),
            r is Ok <==> (media_kind(audio, video) is None || has_id(old(self).accounts(), account_id@)),
            r is Err ==> r == Err::<(), AccountError>(AccountError::NotFound),
            well_formed(old(self).accounts()) ==> well_formed(final(self).accounts()),
            old(self).in_order() ==> final(self).in_order(),
            colon_free(old(self).accounts()) ==> colon_free(final(self).accounts()),
    {
        PermissionLedger::resolve_media(&mut self.store, account_id, audio, video, granted)
    }

    /// A session of the account `account_id` raised a notification. The account is
    /// marked unread unless the user is looking at it: the window has the focus and
    /// the session is the one in front. The result is the routing id under which the
    /// notification is to be delivered.
    pub fn on_notification_raised(&mut self, account_id: &str, tag: Option<&str>, now: u64, window_focused: bool) -> (r:
        String)
        ensures
            final(self).root() == old(self).root(),
            final(self).sessions() == old(self).sessions(),
            final(self).floor() == old(self).floor(),
            final(self).routing().issued == old(self).routing().issued,
            match tag {
                Some(t) => r@ == routing_id(account_id@, t@) && final(self).routing().last_stamp == old(
                    self,
                ).routing().last_stamp,
                None => r@ == routing_id(account_id@, default_tag(final(self).routing().last_stamp))
                    && final(self).routing().last_stamp == next_stamp(old(self).routing().last_stamp, now),
            },
            !account_id@.contains(':') ==> decoded(r@).0 == account_id@,
            final(self).accounts() == (if window_focused && front(old(self).sessions()) == Some(account_id@) {
                old(self).accounts()
            } else {
                replaced(
                    old(self).accounts(),
                    account_id@,
                    AccountView { has_unread: true, ..account_of(old(self).accounts(), account_id@) },
                )
            }),
            well_formed(old(self).accounts()) ==> well_formed(final(self).accounts()),
            old(self).in_order() ==> final(self).in_order(),
            colon_free(old(self).accounts()) ==> colon_free(final(self).accounts()),
    {
        let in_view = window_focused && match self.pool.foreground() {
            Some(id) => same_text(id.as_str(), account_id),
            None => false,
        };
        if !in_view {
            let _ = self.store.set_account_unread(account_id, true);
        }
        let routed = self.router.route(account_id, tag, now);
        proof {
            if !account_id@.contains(':') {
                match tag {
                    Some(t) => lemma_decode_inverts(account_id@, t@),
                    None => lemma_decode_inverts(account_id@, default_tag(self.routing().last_stamp)),
                }
            }
        }
        routed
    }

    /// The platform took a notification under the id `platform_id`: it is remembered
    /// for withdrawal. Of more than the cap allows, the oldest are forgotten, and
    /// the caller is told to let go of them.
    pub fn on_notification_delivered(&mut self, platform_id: String) -> (r: Vec<Effect>)
        ensures
            final(self).root() == old(self).root(),
            final(self).accounts() == old(self).accounts(),
            final(self).sessions() == old(self).sessions(),
            final(self).floor() == old(self).floor(),
            final(self).routing().issued == remembered(old(self).routing().issued, platform_id@),
            final(self).routing().last_stamp == old(self).routing().last_stamp,
            effects(r@) == forgotten(old(self).routing().issued, platform_id@).map_values(
                |id: Seq<char>| EffectView::ForgetNotification { platform_id: id },
            ),
            old(self).in_order() ==> final(self).in_order(),
            colon_free(old(self).accounts()) ==> colon_free(final(self).accounts()),
    {
        let ghost lost = forgotten(self.routing().issued, platform_id@);
        let mut ids = self.router.track_issued(platform_id);
        let mut reversed: Vec<Effect> = Vec::new();
        while ids.len() > 0
            invariant
                ids@.len() + reversed@.len() == lost.len(),
                ids@.map_values(|s: String| s@) == lost.take(ids@.len() as int),
                forall|j: int|
                    0 <= j < reversed@.len() ==> (#[trigger] reversed@[j])@ == (EffectView::ForgetNotification {
                        platform_id: lost[lost.len() - 1 - j],
                    }),
            decreases ids@.len(),
        {
            let ghost prior = ids@.map_values(|s: String| s@);
            let id = ids.pop().unwrap();
            assert(ids@.map_values(|s: String| s@) =~= prior.drop_last());
            assert(id@ == prior.last());
            assert(prior.drop_last() =~= lost.take(ids@.len() as int));
            reversed.push(Effect::ForgetNotification { platform_id: id });
        }
        let mut out: Vec<Effect> = Vec::new();
        while reversed.len() > 0
            invariant
                out@.len() + reversed@.len() == lost.len(),
                forall|j: int|
                    0 <= j < reversed@.len() ==> (#[trigger] reversed@[j])@ == (EffectView::ForgetNotification {
                        platform_id: lost[lost.len() - 1 - j],
                    }),
                forall|j: int|
                    0 <= j < out@.len() ==> (#[trigger] out@[j])@ == (EffectView::ForgetNotification {
                        platform_id: lost[j],
                    }),
            decreases reversed@.len(),
        {
            let e = reversed.pop().unwrap();
            out.push(e);
        }
        assert(effects(out@) =~= lost.map_values(
            |id: Seq<char>| EffectView::ForgetNotification { platform_id: id },
        ));
        out
    }

    /// The user clicked the notification `routing_id`: the account that it names
    /// becomes the account in use, its session comes to the foreground, and the click
    /// is handed to that session. Where the registry does not hold that account,
    /// nothing happens.
    pub fn on_notification_clicked(&mut self, routing_id: &str) -> (r: Vec<Effect>)
        ensures
            final(self).root() == old(self).root(),
            final(self).routing() == old(self).routing(),
            final(self).floor() == old(self).floor(),
            final(self).accounts() == turned_to(old(self).accounts(), decoded(routing_id@).0),
            has_id(old(self).accounts(), decoded(routing_id@).0) ==> {
                &&& final(self).sessions() == obtained(
                    old(self).sessions(),
                    decoded(routing_id@).0,
                    data_dir(old(self).root(), decoded(routing_id@).0),
                    cache_dir(old(self).root(), decoded(routing_id@).0),
                    true,
                )
                &&& effects(r@) == switch_effects(old(self).sessions(), old(self).root(), decoded(routing_id@).0)
                    + seq![EffectView::ReplayClick { routing_id: routing_id@ }]
                &&& front(final(self).sessions()) == Some(decoded(routing_id@).0)
            },
            !has_id(old(self).accounts(), decoded(routing_id@).0) ==> {
                &&& final(self).sessions() == old(self).sessions()
                &&& r@.len() == 0
            },
            well_formed(old(self).accounts()) ==> well_formed(final(self).accounts()),
            pool_ok(old(self).sessions()) ==> pool_ok(final(self).sessions()),
            old(self).in_order() ==> final(self).in_order(),
            colon_free(old(self).accounts()) ==> colon_free(final(self).accounts()),
    {
        let target = self.router.on_click(routing_id);
        let known = self.knows(target.0.as_str());
        let mut out = self.switch_account(target.0.as_str());
        if known {
            let ghost first = effects(out@);
            out.push(Effect::ReplayClick { routing_id: routing_id.to_owned() });
            assert(effects(out@) =~= first + seq![EffectView::ReplayClick { routing_id: routing_id@ }]);
        }
        out
    }

    /// The window got the focus: every notification issued is withdrawn, oldest
    /// first, and the account in front has nothing unread any more.
    pub fn on_window_focused(&mut self) -> (r: Vec<Effect>)
        ensures
            final(self).root() == old(self).root(),
            final(self).sessions() == old(self).sessions(),
            final(self).floor() == old(self).floor(),
            final(self).routing().issued == Seq::<Seq<char>>::empty(),
            final(self).routing().last_stamp == old(self).routing().last_stamp,
            effects(r@) == old(self).routing().issued.map_values(
                |id: Seq<char>| EffectView::WithdrawNotification { platform_id: id },
            ),
            final(self).accounts() == (match front(old(self).sessions()) {
                Some(id) => replaced(
                    old(self).accounts(),
                    id,
                    AccountView { has_unread: false, ..account_of(old(self).accounts(), id) },
                ),
                None => old(self).accounts(),
            }),
            well_formed(old(self).accounts()) ==> well_formed(final(self).accounts()),
            old(self).in_order() ==> final(self).in_order(),
            colon_free(old(self).accounts()) ==> colon_free(final(self).accounts()),
    {
        match self.pool.foreground() {
            Some(id) => {
                let _ = self.store.set_account_unread(id.as_str(), false);
            },
            None => {},
        }
        let ghost issued = self.routing().issued;
        let mut ids = self.router.withdraw_all();
        let mut reversed: Vec<Effect> = Vec::new();
        while ids.len() > 0
            invariant
                ids@.len() + reversed@.len() == issued.len(),
                ids@.map_values(|s: String| s@) == issued.take(ids@.len() as int),
                forall|j: int|
                    0 <= j < reversed@.len() ==> (#[trigger] reversed@[j])@ == (EffectView::WithdrawNotification {
                        platform_id: issued[issued.len() - 1 - j],
                    }),
            decreases ids@.len(),
        {
            let ghost prior = ids@.map_values(|s: String| s@);
            let id = ids.pop().unwrap();
            assert(ids@.map_values(|s: String| s@) =~= prior.drop_last());
            assert(id@ == prior.last());
            assert(prior.drop_last() =~= issued.take(ids@.len() as int));
            reversed.push(Effect::WithdrawNotification { platform_id: id });
        }
        let mut out: Vec<Effect> = Vec::new();
        while reversed.len() > 0
            invariant
                out@.len() + reversed@.len() == issued.len(),
                forall|j: int|
                    0 <= j < reversed@.len() ==> (#[trigger] reversed@[j])@ == (EffectView::WithdrawNotification {
                        platform_id: issued[issued.len() - 1 - j],
                    }),
                forall|j: int|
                    0 <= j < out@.len() ==> (#[trigger] out@[j])@ == (EffectView::WithdrawNotification {
                        platform_id: issued[j],
                    }),
            decreases reversed@.len(),
        {
            let e = reversed.pop().unwrap();
            out.push(e);
        }
        assert(effects(out@) =~= issued.map_values(
            |id: Seq<char>| EffectView::WithdrawNotification { platform_id: id },
        ));
        out
    }

    /// The page of the account `account_id` changed its title: the account has unread
    /// messages exactly if the title begins with a count in parentheses.
    pub fn on_title_changed(&mut self, account_id: &str, title: &str) -> (r: Result<(), AccountError>)
        ensures
            final(self).root() == old(self).root(),
            final(self).sessions() == old(self).sessions(),
            final(self).routing() == old(self).routing(),
            final(self).floor() == old(self).floor(),
            final(self).accounts() == replaced(
                old(self).accounts(),
                account_id@,
                AccountView { has_unread: counts_unread(title@), ..account_of(old(self).accounts(), account_id@) },
            ),
            r is Ok <==> has_id(old(self).accounts(), account_id@),
            r is Err ==> r == Err::<(), AccountError>(AccountError::NotFound),
            well_formed(old(self).accounts()) ==> well_formed(final(self).accounts()),
            old(self).in_order() ==> final(self).in_order(),
            colon_free(old(self).accounts()) ==> colon_free(final(self).accounts()),
    {
        let unread = title_counts_unread(title);
        self.store.set_account_unread(account_id, unread)
    }

    /// The zoom level of the account `account_id`, in percent.
    pub fn zoom_of(&self, account_id: &str) -> (r: u32)
        ensures
            r == zoom_of(self.accounts(), account_id@),
    {
        self.zoom.get(&self.store, account_id)
    }

    /// Sets the zoom level of the account `account_id`; a level below the floor in
    /// force is stored as the floor.
    pub fn set_zoom(&mut self, account_id: &str, level: u32) -> (r: Result<(), AccountError>)
        ensures
            final(self).root() == old(self).root(),
            final(self).sessions() == old(self).sessions(),
            final(self).routing() == old(self).routing(),
            final(self).floor() == old(self).floor(),
            final(self).accounts() == zoom_set(old(self).accounts(), account_id@, level, old(self).floor()),
            r is Ok <==> has_id(old(self).accounts(), account_id@),
            r is Err ==> r == Err::<(), AccountError>(AccountError::NotFound),
            well_formed(old(self).accounts()) ==> well_formed(final(self).accounts()),
            old(self).in_order() ==> final(self).in_order(),
            colon_free(old(self).accounts()) ==> colon_free(final(self).accounts()),
    {
        self.zoom.set(&mut self.store, account_id, level)
    }

    /// Zooms the account `account_id` in by one step.
    pub fn zoom_in(&mut self, account_id: &str) -> (r: Result<(), AccountError>)
        ensures
            final(self).root() == old(self).root(),
            final(self).sessions() == old(self).sessions(),
            final(self).routing() == old(self).routing(),
            final(self).floor() == old(self).floor(),
            final(self).accounts() == zoom_set(
                old(self).accounts(),
                account_id@,
                stepped_in(zoom_of(old(self).accounts(), account_id@)),
                old(self).floor(),
            ),
            r is Ok <==> has_id(old(self).accounts(), account_id@),
            r is Err ==> r == Err::<(), AccountError>(AccountError::NotFound),
            well_formed(old(self).accounts()) ==> well_formed(final(self).accounts()),
            old(self).in_order() ==> final(self).in_order(),
            colon_free(old(self).accounts()) ==> colon_free(final(self).accounts()),
    {
        self.zoom.zoom_in(&mut self.store, account_id)
    }

    /// Zooms the account `account_id` out by one step.
    pub fn zoom_out(&mut self, account_id: &str) -> (r: Result<(), AccountError>)
        ensures
            final(self).root() == old(self).root(),
            final(self).sessions() == old(self).sessions(),
            final(self).routing() == old(self).routing(),
            final(self).floor() == old(self).floor(),
            final(self).accounts() == zoom_set(
                old(self).accounts(),
                account_id@,
                stepped_out(zoom_of(old(self).accounts(), account_id@)),
                old(self).floor(),
            ),
            r is Ok <==> has_id(old(self).accounts(), account_id@),
            r is Err ==> r == Err::<(), AccountError>(AccountError::NotFound),
            well_formed(old(self).accounts()) ==> well_formed(final(self).accounts()),
            old(self).in_order() ==> final(self).in_order(),
            colon_free(old(self).accounts()) ==> colon_free(final(self).accounts()),
    {
        self.zoom.zoom_out(&mut self.store, account_id)
    }

    /// Sets the account `account_id` back to the default zoom.
    pub fn zoom_reset(&mut self, account_id: &str) -> (r: Result<(), AccountError>)
        ensures
            final(self).root() == old(self).root(),
            final(self).sessions() == old(self).sessions(),
            final(self).routing() == old(self).routing(),
            final(self).floor() == old(self).floor(),
            final(self).accounts() == zoom_set(old(self).accounts(), account_id@, DEFAULT_ZOOM, old(self).floor()),
            r is Ok <==> has_id(old(self).accounts(), account_id@),
            r is Err ==> r == Err::<(), AccountError>(AccountError::NotFound),
            well_formed(old(self).accounts()) ==> well_formed(final(self).accounts()),
            old(self).in_order() ==> final(self).in_order(),
            colon_free(old(self).accounts()) ==> colon_free(final(self).accounts()),
    {
        self.zoom.zoom_reset(&mut self.store, account_id)
    }

    /// Gives the account `account_id` a new display name, emoji and colour.
    pub fn update_account_identity(&mut self, account_id: &str, name: &str, emoji: &str, color: &str) -> (r: Result<
        (),
        AccountError,
    >)
        ensures
            final(self).root() == old(self).root(),
            final(self).sessions() == old(self).sessions(),
            final(self).routing() == old(self).routing(),
            final(self).floor() == old(self).floor(),
            final(self).accounts() == replaced(
                old(self).accounts(),
                account_id@,
                AccountView {
                    name: name@,
                    emoji: emoji@,
                    color: color@,
                    ..account_of(old(self).accounts(), account_id@)
                },
            ),
            r is Ok <==> has_id(old(self).accounts(), account_id@),
            r is Err ==> r == Err::<(), AccountError>(AccountError::NotFound),
            well_formed(old(self).accounts()) ==> well_formed(final(self).accounts()),
            old(self).in_order() ==> final(self).in_order(),
            colon_free(old(self).accounts()) ==> colon_free(final(self).accounts()),
    {
        self.store.update_account_identity(account_id, name, emoji, color)
    }

    /// Records whether a browsing session of the account `account_id` was found on
    /// disk.
    pub fn update_session_state(&mut self, account_id: &str, session_exists: bool)
        ensures
            final(self).root() == old(self).root(),
            final(self).sessions() == old(self).sessions(),
            final(self).routing() == old(self).routing(),
            final(self).floor() == old(self).floor(),
            final(self).accounts() == replaced(
                old(self).accounts(),
                account_id@,
                AccountView { has_session: session_exists, ..account_of(old(self).accounts(), account_id@) },
            ),
            well_formed(old(self).accounts()) ==> well_formed(final(self).accounts()),
            old(self).in_order() ==> final(self).in_order(),
            colon_free(old(self).accounts()) ==> colon_free(final(self).accounts()),
    {
        self.store.update_session_state(account_id, session_exists);
    }

    /// Puts a zoom floor in force, or changes the one in force.
    pub fn apply_zoom_floor(&mut self, floor: u32)
        ensures
            final(self).root() == old(self).root(),
            final(self).sessions() == old(self).sessions(),
            final(self).routing() == old(self).routing(),
            final(self).floor() == Some(floor),
            final(self).accounts() == zoom_raised(old(self).accounts(), floor),
            forall|i: int|
                0 <= i < final(self).accounts().len() ==> (#[trigger] final(self).accounts()[i]).zoom_level >= floor,
            well_formed(old(self).accounts()) ==> well_formed(final(self).accounts()),
            old(self).in_order() ==> final(self).in_order(),
            colon_free(old(self).accounts()) ==> colon_free(final(self).accounts()),
    {
        self.zoom.apply_floor(&mut self.store, floor);
    }

    /// Ends the zoom floor; no stored level changes.
    pub fn disable_zoom_floor(&mut self)
        ensures
            final(self).root() == old(self).root(),
            final(self).accounts() == old(self).accounts(),
            final(self).sessions() == old(self).sessions(),
            final(self).routing() == old(self).routing(),
            final(self).floor() is None,
            old(self).in_order() ==> final(self).in_order(),
            colon_free(old(self).accounts()) ==> colon_free(final(self).accounts()),
    {
        self.zoom.disable_floor();
    }
}

/// What every id begins with that the coordinator gives to a new account.
pub const ACCOUNT_ID_PREFIX: &'static str = "account-";

/// The id of the account created at `created_at`: the prefix and the time in
/// decimal notation, a time before the epoch counting as 0.
pub open spec fn account_id_for(created_at: i64) -> Seq<char> {
    ACCOUNT_ID_PREFIX@ + decimal(if created_at < 0 {
        0nat
    } else {
        created_at as nat
    })
}

/// An id that the coordinator gives to a new account holds no colon, so every
/// routing id made for such an account names it again: decoding undoes encoding.
pub proof fn lemma_made_id_decodes(created_at: i64, tag: Seq<char>)
    ensures
        !account_id_for(created_at).contains(':'),
        decoded(routing_id(account_id_for(created_at), tag)) == (account_id_for(created_at), tag),
{
    reveal_strlit("account-");
    let prefix = ACCOUNT_ID_PREFIX@;
    let stamp: nat = if created_at < 0 {
        0nat
    } else {
        created_at as nat
    };
    let id = account_id_for(created_at);
    lemma_decimal_is_digits(stamp);
    if id.contains(':') {
        let i = choose|i: int| 0 <= i < id.len() && id[i] == ':';
        if i < prefix.len() {
            assert(id[i] == prefix[i]);
        } else {
            assert(id[i] == decimal(stamp)[i - prefix.len()]);
        }
    }
    lemma_decode_inverts(id, tag);
}

/// What the parting of the account `id` asks of the caller: release its session
/// where it has one, and remove its directory.
pub open spec fn parting_effects(sessions: Seq<SessionView>, root: Seq<char>, id: Seq<char>) -> Seq<EffectView> {
    (if holds(sessions, id) {
        seq![EffectView::DestroySession { account_id: id }]
    } else {
        Seq::empty()
    }) + seq![EffectView::RemoveDirectory { path: session_dir(root, id) }]
}

/// The account whose session comes to the foreground when the account `id` is
/// removed: the account then in use, where the session of `id` was in front.
pub open spec fn successor(accounts: Seq<AccountView>, sessions: Seq<SessionView>, id: Seq<char>) -> Option<
    Seq<char>,
> {
    if front(sessions) == Some(id) {
        match active_account(removed(accounts, id)) {
            Some(a) => Some(a.id),
            None => None,
        }
    } else {
        None
    }
}

/// The sessions after the account `id` was removed.
pub open spec fn sessions_after_removal(
    accounts: Seq<AccountView>,
    sessions: Seq<SessionView>,
    root: Seq<char>,
    id: Seq<char>,
) -> Seq<SessionView> {
    match successor(accounts, sessions, id) {
        Some(next) => obtained(evicted(sessions, id), next, data_dir(root, next), cache_dir(root, next), true),
        None => evicted(sessions, id),
    }
}

/// What the removal of the account `id` asks of the caller.
pub open spec fn removal_effects(
    accounts: Seq<AccountView>,
    sessions: Seq<SessionView>,
    root: Seq<char>,
    id: Seq<char>,
) -> Seq<EffectView> {
    match successor(accounts, sessions, id) {
        Some(next) => parting_effects(sessions, root, id) + switch_effects(evicted(sessions, id), root, next),
        None => parting_effects(sessions, root, id),
    }
}

} // verus!
