//! Zoom per account, with an optional floor for accessibility below which no
//! account is shown.

use crate::account::{AccountError, AccountView, DEFAULT_ZOOM};
use crate::accounts::AccountManager;
use crate::laws::lemma_position_exists;
use crate::registry::{
    account_of, at_least, has_id, is_position, position, replaced, well_formed, zoom_of,
    zoom_raised,
};
use vstd::prelude::*;

verus! {

/// The step of one zoom action, in percent.
pub const ZOOM_STEP: u32 = 10;

/// The level at or below which zooming out has no effect, in percent.
pub const ZOOM_OUT_LIMIT: u32 = 20;

/// The level that is stored where `level` is asked for under `floor`.
pub open spec fn held(level: u32, floor: Option<u32>) -> u32 {
    match floor {
        Some(f) => at_least(level, f),
        None => level,
    }
}

/// One step in from `level`, as far as the number type reaches.
pub open spec fn stepped_in(level: u32) -> u32 {
    if level <= u32::MAX - ZOOM_STEP {
        (level + ZOOM_STEP) as u32
    } else {
        level
    }
}

/// One step out from `level`; a level at or below the limit stays.
pub open spec fn stepped_out(level: u32) -> u32 {
    if level > ZOOM_OUT_LIMIT {
        (level - ZOOM_STEP) as u32
    } else {
        level
    }
}

/// The registry after the zoom of the account `id` was set to `level` under `floor`.
pub open spec fn zoom_set(s: Seq<AccountView>, id: Seq<char>, level: u32, floor: Option<u32>) -> Seq<AccountView> {
    replaced(s, id, AccountView { zoom_level: held(level, floor), ..account_of(s, id) })
}

/// The zoom policy: whether a floor is in force, and which.
pub struct ZoomPolicy {
    floor: Option<u32>,
}

impl View for ZoomPolicy {
    type V = Option<u32>;

    closed spec fn view(&self) -> Option<u32> {
        self.floor
    }
}

impl ZoomPolicy {
    /// A policy without a floor.
    pub fn new() -> (r: Self)
        ensures
            r@ is None,
    {
        ZoomPolicy { floor: None }
    }

    /// The floor in force, if any.
    pub fn floor(&self) -> (r: Option<u32>)
        ensures
            r == self@,
    {
        self.floor
    }

    /// The zoom level of the account `account_id`, in percent.
    pub fn get(&self, store: &AccountManager, account_id: &str) -> (r: u32)
        ensures
            r == zoom_of(store@, account_id@),
    {
        store.get_account_zoom(account_id)
    }

    /// Sets the zoom level of the account `account_id`. While a floor is in force, a
    /// level below it is stored as the floor.
    pub fn set(&self, store: &mut AccountManager, account_id: &str, level: u32) -> (r: Result<(), AccountError>)
        ensures
            final(store)@ == zoom_set(old(store)@, account_id@, level, self@),
            final(store).root() == old(store).root(),
            r is Ok <==> has_id(old(store)@, account_id@),
            r is Err ==> r == Err::<(), AccountError>(AccountError::NotFound),
            r is Ok ==> zoom_of(final(store)@, account_id@) == held(level, self@),
            well_formed(old(store)@) ==> well_formed(final(store)@),
            final(store)@.len() == old(store)@.len(),
            forall|other: Seq<char>| #[trigger] has_id(final(store)@, other) == has_id(old(store)@, other),
    {
        let stored: u32 = match self.floor {
            Some(f) => if level < f {
                f
            } else {
                level
            },
            None => level,
        };
        proof {
            if has_id(store@, account_id@) {
                lemma_zoom_set_is_held(store@, account_id@, level, self@);
            }
        }
        store.set_account_zoom(account_id, stored)
    }

    /// Puts the floor `floor` in force, or changes the one in force to it: every
    /// account below it is raised to it, and it holds for every level set afterwards.
    pub fn apply_floor(&mut self, store: &mut AccountManager, floor: u32)
        ensures
            final(self)@ == Some(floor),
            final(store)@ == zoom_raised(old(store)@, floor),
            final(store).root() == old(store).root(),
            forall|i: int| 0 <= i < final(store)@.len() ==> (#[trigger] final(store)@[i]).zoom_level >= floor,
            well_formed(old(store)@) ==> well_formed(final(store)@),
            final(store)@.len() == old(store)@.len(),
            forall|other: Seq<char>| #[trigger] has_id(final(store)@, other) == has_id(old(store)@, other),
    {
        self.floor = Some(floor);
        store.raise_zoom(floor);
    }

    /// Ends the floor. No stored level changes by that.
    pub fn disable_floor(&mut self)
        ensures
            final(self)@ is None,
    {
        self.floor = None;
    }

    /// Zooms the account `account_id` in by one step.
    pub fn zoom_in(&self, store: &mut AccountManager, account_id: &str) -> (r: Result<(), AccountError>)
        ensures
            final(store)@ == zoom_set(
                old(store)@,
                account_id@,
                stepped_in(zoom_of(old(store)@, account_id@)),
                self@,
            ),
            final(store).root() == old(store).root(),
            r is Ok <==> has_id(old(store)@, account_id@),
            r is Err ==> r == Err::<(), AccountError>(AccountError::NotFound),
            well_formed(old(store)@) ==> well_formed(final(store)@),
            final(store)@.len() == old(store)@.len(),
            forall|other: Seq<char>| #[trigger] has_id(final(store)@, other) == has_id(old(store)@, other),
    {
        let level: u32 = store.get_account_zoom(account_id);
        let next: u32 = if level <= u32::MAX - ZOOM_STEP {
            level + ZOOM_STEP
        } else {
            level
        };
        self.set(store, account_id, next)
    }

    /// Zooms the account `account_id` out by one step.
    pub fn zoom_out(&self, store: &mut AccountManager, account_id: &str) -> (r: Result<(), AccountError>)
        ensures
            final(store)@ == zoom_set(
                old(store)@,
                account_id@,
                stepped_out(zoom_of(old(store)@, account_id@)),
                self@,
            ),
            final(store).root() == old(store).root(),
            r is Ok <==> has_id(old(store)@, account_id@),
            r is Err ==> r == Err::<(), AccountError>(AccountError::NotFound),
            well_formed(old(store)@) ==> well_formed(final(store)@),
            final(store)@.len() == old(store)@.len(),
            forall|other: Seq<char>| #[trigger] has_id(final(store)@, other) == has_id(old(store)@, other),
    {
        let level: u32 = store.get_account_zoom(account_id);
        let next: u32 = if level > ZOOM_OUT_LIMIT {
            level - ZOOM_STEP
        } else {
            level
        };
        self.set(store, account_id, next)
    }

    /// Sets the account `account_id` back to the default zoom.
    pub fn zoom_reset(&self, store: &mut AccountManager, account_id: &str) -> (r: Result<(), AccountError>)
        ensures
            final(store)@ == zoom_set(old(store)@, account_id@, DEFAULT_ZOOM, self@),
            final(store).root() == old(store).root(),
            r is Ok <==> has_id(old(store)@, account_id@),
            r is Err ==> r == Err::<(), AccountError>(AccountError::NotFound),
            well_formed(old(store)@) ==> well_formed(final(store)@),
            final(store)@.len() == old(store)@.len(),
            forall|other: Seq<char>| #[trigger] has_id(final(store)@, other) == has_id(old(store)@, other),
    {
        self.set(store, account_id, DEFAULT_ZOOM)
    }
}

/// After a level was set for an account, that account has the level asked for,
/// or the floor where the level was below it.
pub proof fn lemma_zoom_set_is_held(s: Seq<AccountView>, id: Seq<char>, level: u32, floor: Option<u32>)
    requires
        has_id(s, id),
    ensures
        has_id(zoom_set(s, id, level, floor), id),
        zoom_of(zoom_set(s, id, level, floor), id) == held(level, floor),
        floor matches Some(f) ==> zoom_of(zoom_set(s, id, level, floor), id) >= f,
{
    let t = zoom_set(s, id, level, floor);
    lemma_position_exists(s, id);
    let k = position(s, id);
    assert(t[k].id == id);
    assert(is_position(t, id, k)) by {
        assert forall|j: int| 0 <= j < k implies (#[trigger] t[j]).id != id by {
            assert(t[j] == s[j]);
        }
    }
    lemma_position_exists(t, id);
}

/// Once a floor is put in force, every account of the registry is at or above it,
/// and stays so under every level set while the floor holds.
pub proof fn lemma_floor_holds(s: Seq<AccountView>, floor: u32, id: Seq<char>, level: u32, other: Seq<char>)
    requires
        has_id(s, other),
    ensures
        zoom_of(zoom_raised(s, floor), other) >= floor,
        zoom_of(zoom_set(zoom_raised(s, floor), id, level, Some(floor)), other) >= floor,
{
    let raised = zoom_raised(s, floor);
    let t = zoom_set(raised, id, level, Some(floor));
    let w = choose|w: int| 0 <= w < s.len() && (#[trigger] s[w]).id == other;
    assert(raised[w].id == other);
    lemma_position_exists(raised, other);
    assert(raised[position(raised, other)].zoom_level >= floor);
    if has_id(raised, id) {
        lemma_position_exists(raised, id);
        let k = position(raised, id);
        assert(t[w].id == other);
        lemma_position_exists(t, other);
        let p = position(t, other);
        if p != k {
            assert(t[p] == raised[p]);
        }
    }
}

} // verus!
