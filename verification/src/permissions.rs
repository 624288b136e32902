//! The permission ledger: what the user decided, per account and per kind of
//! permission, and how a request of a page is answered from it.

use crate::account::{AccountError, AccountView, PermissionKind, DEFAULT_ACCOUNT_ID};
use crate::laws::{
    changed, lemma_display_order_indices, lemma_position_exists, lemma_reordered_frame, Change,
};
use crate::accounts::AccountManager;
use crate::registry::{
    account_of, has_id, is_position, other_than, permission_of, position, replaced, well_formed,
};
use vstd::prelude::*;

verus! {

/// What the ledger holds of one permission.
#[derive(Clone, Copy, Debug, PartialEq, Eq, Structural)]
pub enum PermissionState {
    /// The user was never asked.
    Unknown,
    /// The user was asked and agreed.
    Granted,
    /// The user was asked and refused.
    Denied,
}

/// How a request of a page is answered.
#[derive(Clone, Copy, Debug, PartialEq, Eq, Structural)]
pub enum PermissionAnswer {
    /// Allow at once, without asking the user.
    Allow,
    /// Deny at once, without asking the user.
    Deny,
    /// Ask the user, and record the decision.
    Ask,
}

/// The state that an `(asked, granted)` pair stands for.
pub open spec fn state_of(pair: (bool, bool)) -> PermissionState {
    if !pair.0 {
        PermissionState::Unknown
    } else if pair.1 {
        PermissionState::Granted
    } else {
        PermissionState::Denied
    }
}

/// The state of `kind` for the account `id`; unknown where no account has that id.
pub open spec fn checked(s: Seq<AccountView>, id: Seq<char>, kind: PermissionKind) -> PermissionState {
    state_of(permission_of(s, id, kind))
}

/// The answer that a state gives to a request.
pub open spec fn answer_of(state: PermissionState) -> PermissionAnswer {
    match state {
        PermissionState::Unknown => PermissionAnswer::Ask,
        PermissionState::Granted => PermissionAnswer::Allow,
        PermissionState::Denied => PermissionAnswer::Deny,
    }
}

/// The registry after the user decided on `kind` for the account `id`.
pub open spec fn resolved(s: Seq<AccountView>, id: Seq<char>, kind: PermissionKind, granted: bool) -> Seq<
    AccountView,
> {
    replaced(s, id, account_of(s, id).with_permission(kind, true, granted))
}

/// The permission that a request for capture devices is decided by: the camera where
/// video is asked for, else the microphone where audio is asked for.
pub open spec fn media_kind(audio: bool, video: bool) -> Option<PermissionKind> {
    if video {
        Some(PermissionKind::Camera)
    } else if audio {
        Some(PermissionKind::Microphone)
    } else {
        None
    }
}

/// The registry after the user decided on a request for capture devices. The
/// decision is recorded for the permission that decides the request. Where camera
/// and microphone were asked for together and granted, the microphone is recorded
/// as granted too, so that it is not asked for again.
pub open spec fn media_resolved(s: Seq<AccountView>, id: Seq<char>, audio: bool, video: bool, granted: bool) -> Seq<
    AccountView,
> {
    match media_kind(audio, video) {
        None => s,
        Some(kind) => {
            let first = resolved(s, id, kind, granted);
            if audio && video && granted {
                resolved(first, id, PermissionKind::Microphone, true)
            } else {
                first
            }
        },
    }
}

/// The ledger of permissions. It keeps nothing itself: every decision is part of the
/// account that it was made for.
pub struct PermissionLedger {}

impl PermissionLedger {
    /// The state of `kind` for the account `account_id`.
    pub fn check(store: &AccountManager, account_id: &str, kind: PermissionKind) -> (r: PermissionState)
        ensures
            r == checked(store@, account_id@, kind),
    {
        let pair = store.get_account_permission(account_id, kind);
        if !pair.0 {
            PermissionState::Unknown
        } else if pair.1 {
            PermissionState::Granted
        } else {
            PermissionState::Denied
        }
    }

    /// How a request for `kind` by a page of the account `account_id` is answered:
    /// from the recorded decision where there is one, else by asking the user.
    pub fn answer(store: &AccountManager, account_id: &str, kind: PermissionKind) -> (r: PermissionAnswer)
        ensures
            r == answer_of(checked(store@, account_id@, kind)),
    {
        match PermissionLedger::check(store, account_id, kind) {
            PermissionState::Unknown => PermissionAnswer::Ask,
            PermissionState::Granted => PermissionAnswer::Allow,
            PermissionState::Denied => PermissionAnswer::Deny,
        }
    }

    /// Records the decision of the user on `kind` for the account `account_id`.
    pub fn resolve(store: &mut AccountManager, account_id: &str, kind: PermissionKind, granted: bool) -> (r:
        Result<(), AccountError>)
        ensures
            final(store)@ == resolved(old(store)@, account_id@, kind, granted),
            final(store).root() == old(store).root(),
            r is Ok <==> has_id(old(store)@, account_id@),
            r is Err ==> r == Err::<(), AccountError>(AccountError::NotFound),
            r is Ok ==> checked(final(store)@, account_id@, kind) == (if granted {
                PermissionState::Granted
            } else {
                PermissionState::Denied
            }),
            well_formed(old(store)@) ==> well_formed(final(store)@),
            final(store)@.len() == old(store)@.len(),
            forall|other: Seq<char>| #[trigger] has_id(final(store)@, other) == has_id(old(store)@, other),
    {
        proof {
            if has_id(store@, account_id@) {
                lemma_resolved_is_recorded(store@, account_id@, kind, granted);
            }
        }
        store.set_account_permission(account_id, kind, true, granted)
    }

    /// The permission that decides a request for capture devices, if it asks for any.
    pub fn media_permission(audio: bool, video: bool) -> (r: Option<PermissionKind>)
        ensures
            r == media_kind(audio, video),
    {
        if video {
            Some(PermissionKind::Camera)
        } else if audio {
            Some(PermissionKind::Microphone)
        } else {
            None
        }
    }

    /// Records the decision of the user on a request for capture devices. A request
    /// that asks for no device records nothing and succeeds.
    pub fn resolve_media(store: &mut AccountManager, account_id: &str, audio: bool, video: bool, granted: bool) -> (r:
        Result<(), AccountError>)
        ensures
            final(store)@ == media_resolved(old(store)@, account_id@, audio, video, granted),
            final(store).root() == old(store).root(),
            r is Ok <==> (media_kind(audio, video) is None || has_id(old(store)@, account_id@)),
            r is Err ==> r == Err::<(), AccountError>(AccountError::NotFound),
            well_formed(old(store)@) ==> well_formed(final(store)@),
            final(store)@.len() == old(store)@.len(),
            forall|other: Seq<char>| #[trigger] has_id(final(store)@, other) == has_id(old(store)@, other),
    {
        match PermissionLedger::media_permission(audio, video) {
            None => Ok(()),
            Some(kind) => {
                match PermissionLedger::resolve(store, account_id, kind, granted) {
                    Err(e) => {
                        proof {
                            lemma_resolved_keeps_ids(old(store)@, account_id@, kind, granted, account_id@);
                        }
                        Err(e)
                    },
                    Ok(()) => {
                        if audio && video && granted {
                            proof {
                                lemma_resolved_keeps_ids(old(store)@, account_id@, kind, granted, account_id@);
                            }
                            PermissionLedger::resolve(store, account_id, PermissionKind::Microphone, true)
                        } else {
                            Ok(())
                        }
                    },
                }
            },
        }
    }
}

/// A recorded decision is what the ledger answers afterwards: granted after a
/// grant, denied after a denial.
pub proof fn lemma_resolved_is_recorded(s: Seq<AccountView>, id: Seq<char>, kind: PermissionKind, granted: bool)
    requires
        has_id(s, id),
    ensures
        has_id(resolved(s, id, kind, granted), id),
        checked(resolved(s, id, kind, granted), id, kind) == (if granted {
            PermissionState::Granted
        } else {
            PermissionState::Denied
        }),
{
    let t = resolved(s, id, kind, granted);
    lemma_position_exists(s, id);
    let k = position(s, id);
    assert(t[k].id == id);
    assert(is_position(t, id, k)) by {
        assert forall|j: int| 0 <= j < k implies (#[trigger] t[j]).id != id by {
            assert(t[j] == s[j]);
        }
    }
    lemma_position_exists(t, id);
}

/// Recording a decision neither adds nor removes an account.
pub proof fn lemma_resolved_keeps_ids(
    s: Seq<AccountView>,
    id: Seq<char>,
    kind: PermissionKind,
    granted: bool,
    other: Seq<char>,
)
    ensures
        has_id(resolved(s, id, kind, granted), other) == has_id(s, other),
{
    let t = resolved(s, id, kind, granted);
    if has_id(s, id) {
        lemma_position_exists(s, id);
        let k = position(s, id);
        assert forall|j: int| 0 <= j < s.len() implies (#[trigger] t[j]).id == s[j].id by {}
        if has_id(s, other) {
            let w = choose|w: int| 0 <= w < s.len() && (#[trigger] s[w]).id == other;
            assert(t[w].id == other);
        }
        if has_id(t, other) {
            let w = choose|w: int| 0 <= w < t.len() && (#[trigger] t[w]).id == other;
            assert(s[w].id == other);
        }
    }
}

/// Where two registries hold the same ids in the same places, and each account
/// holds the same decision on `kind` in both, the ledger answers the same in both.
pub proof fn lemma_same_decisions(s: Seq<AccountView>, t: Seq<AccountView>, id: Seq<char>, kind: PermissionKind)
    requires
        s.len() == t.len(),
        forall|i: int| 0 <= i < s.len() ==> (#[trigger] t[i]).id == s[i].id,
        forall|i: int| 0 <= i < s.len() ==> (#[trigger] t[i]).permission(kind) == s[i].permission(kind),
    ensures
        has_id(t, id) == has_id(s, id),
        checked(t, id, kind) == checked(s, id, kind),
{
    if has_id(s, id) {
        lemma_position_exists(s, id);
        let k = position(s, id);
        assert(t[k].id == id);
        assert(is_position(t, id, k)) by {
            assert forall|j: int| 0 <= j < k implies (#[trigger] t[j]).id != id by {
                assert(s[j].id != id);
            }
        }
        lemma_position_exists(t, id);
    }
    if has_id(t, id) {
        let w = choose|w: int| 0 <= w < t.len() && (#[trigger] t[w]).id == id;
        assert(s[w].id == id);
    }
}

/// The first account of an id that stays is the same before and after other
/// accounts went.
pub proof fn lemma_filter_keeps_first(s: Seq<AccountView>, gone: Seq<char>, id: Seq<char>)
    requires
        id != gone,
    ensures
        has_id(s.filter(other_than(gone)), id) == has_id(s, id),
        has_id(s, id) ==> account_of(s.filter(other_than(gone)), id) == account_of(s, id),
    decreases s.len(),
{
    reveal(Seq::filter);
    let keep = other_than(gone);
    let kept = s.filter(keep);
    if s.len() > 0 {
        let shorter = s.drop_last();
        let before = shorter.filter(keep);
        lemma_filter_keeps_first(shorter, gone, id);
        assert(forall|i: int| 0 <= i < shorter.len() ==> shorter[i] == s[i]);
        if has_id(shorter, id) {
            lemma_position_exists(shorter, id);
            let k = position(shorter, id);
            assert(s[k].id == id);
            assert(is_position(s, id, k)) by {
                assert forall|j: int| 0 <= j < k implies (#[trigger] s[j]).id != id by {
                    assert(shorter[j].id != id);
                }
            }
            lemma_position_exists(s, id);
            lemma_position_exists(before, id);
            let w = position(before, id);
            assert(kept[w] == before[w]);
            assert(is_position(kept, id, w)) by {
                assert forall|j: int| 0 <= j < w implies (#[trigger] kept[j]).id != id by {
                    assert(kept[j] == before[j]);
                }
            }
            lemma_position_exists(kept, id);
        } else {
            assert forall|j: int| 0 <= j < before.len() implies (#[trigger] kept[j]).id != id by {
                assert(kept[j] == before[j]);
                assert(before[j].id != id);
            }
            if s.last().id == id {
                assert(s[s.len() - 1].id == id);
                assert(is_position(s, id, s.len() - 1)) by {
                    assert forall|j: int| 0 <= j < s.len() - 1 implies (#[trigger] s[j]).id != id by {
                        assert(shorter[j].id != id);
                    }
                }
                lemma_position_exists(s, id);
                assert(keep(s.last()));
                assert(kept[before.len() as int] == s.last());
                assert(is_position(kept, id, before.len() as int));
                lemma_position_exists(kept, id);
            } else {
                if has_id(s, id) {
                    let w = choose|w: int| 0 <= w < s.len() && (#[trigger] s[w]).id == id;
                    assert(shorter[w].id == id);
                }
                if has_id(kept, id) {
                    let w = choose|w: int| 0 <= w < kept.len() && (#[trigger] kept[w]).id == id;
                    assert(kept[w] == before[w]);
                }
            }
        }
    } else {
        if has_id(kept, id) {
            let w = choose|w: int| 0 <= w < kept.len() && (#[trigger] kept[w]).id == id;
        }
    }
}

/// A decision stays as it was recorded, whatever accounts are added, chosen or
/// moved, and whatever other accounts are removed: the ledger gives the same answer
/// after every such change. Only the removal of the account itself ends it.
pub proof fn lemma_decision_survives(s: Seq<AccountView>, change: Change, id: Seq<char>, kind: PermissionKind)
    requires
        has_id(s, id),
        change != Change::Remove(id),
    ensures
        has_id(changed(s, change), id),
        checked(changed(s, change), id, kind) == checked(s, id, kind),
{
    let t = changed(s, change);
    lemma_position_exists(s, id);
    let k = position(s, id);
    match change {
        Change::Add(a) => {
            if !has_id(s, a.id) {
                assert(t[k] == s[k]);
                assert(is_position(t, id, k)) by {
                    assert forall|j: int| 0 <= j < k implies (#[trigger] t[j]).id != id by {
                        assert(t[j] == s[j]);
                    }
                }
                lemma_position_exists(t, id);
            }
        },
        Change::Remove(gone) => {
            if gone != DEFAULT_ACCOUNT_ID@ {
                let kept = s.filter(other_than(gone));
                lemma_filter_keeps_first(s, gone, id);
                lemma_display_order_indices(kept);
                assert(t.len() == kept.len());
                assert forall|i: int| 0 <= i < kept.len() implies (#[trigger] t[i]).id == kept[i].id by {}
                assert forall|i: int| 0 <= i < kept.len() implies (#[trigger] t[i]).permission(kind)
                    == kept[i].permission(kind) by {}
                lemma_same_decisions(kept, t, id, kind);
            }
        },
        Change::Activate(chosen) => {
            assert forall|i: int| 0 <= i < s.len() implies (#[trigger] t[i]).id == s[i].id by {}
            assert forall|i: int| 0 <= i < s.len() implies (#[trigger] t[i]).permission(kind) == s[i].permission(
                kind,
            ) by {}
            lemma_same_decisions(s, t, id, kind);
        },
        Change::Move(moved, direction) => {
            lemma_reordered_frame(s, moved, direction);
            assert forall|i: int| 0 <= i < s.len() implies (#[trigger] t[i]).id == s[i].id by {}
            assert forall|i: int| 0 <= i < s.len() implies (#[trigger] t[i]).permission(kind) == s[i].permission(
                kind,
            ) by {}
            lemma_same_decisions(s, t, id, kind);
        },
    }
}

/// A decision stays as it was recorded when an account gets another name, zoom,
/// unread mark or the like: whatever replaces an account and keeps its id and its
/// decision on `kind` leaves the answer of the ledger as it was, for every account.
pub proof fn lemma_decision_survives_update(
    s: Seq<AccountView>,
    updated: Seq<char>,
    a: AccountView,
    id: Seq<char>,
    kind: PermissionKind,
)
    requires
        has_id(s, updated) ==> a.id == account_of(s, updated).id && a.permission(kind) == account_of(
            s,
            updated,
        ).permission(kind),
    ensures
        has_id(replaced(s, updated, a), id) == has_id(s, id),
        checked(replaced(s, updated, a), id, kind) == checked(s, id, kind),
{
    let t = replaced(s, updated, a);
    if has_id(s, updated) {
        lemma_position_exists(s, updated);
        assert forall|i: int| 0 <= i < s.len() implies (#[trigger] t[i]).id == s[i].id by {}
        assert forall|i: int| 0 <= i < s.len() implies (#[trigger] t[i]).permission(kind) == s[i].permission(
            kind,
        ) by {}
    }
    lemma_same_decisions(s, t, id, kind);
}

} // verus!
