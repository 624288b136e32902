//! Routing of notifications: the id under which a notification leaves the
//! application names the account that raised it, so that a click finds its way back.

use crate::account::DEFAULT_ACCOUNT_ID;
use crate::text::{
    chars_from, chars_of, decimal, decimal_string, find_char, first_chars, lemma_decimal_injective,
    string_of,
};
use vstd::prelude::*;

verus! {

/// How many issued notifications are remembered for withdrawal at most.
pub const ISSUED_CAP: usize = 50;

/// What every tag begins with that the router makes up itself.
pub const TAG_PREFIX: &'static str = "msg-";

/// The routing id of a notification: the id of the account, a colon, and the tag.
pub open spec fn routing_id(account: Seq<char>, tag: Seq<char>) -> Seq<char> {
    account + seq![':'] + tag
}

/// The account and the tag that a routing id names: what stands before and behind
/// its first colon. An id without a colon belongs to the default account, and all of
/// it is the tag.
pub open spec fn decoded(id: Seq<char>) -> (Seq<char>, Seq<char>) {
    match id.index_of_first(':') {
        Some(i) => (id.take(i), id.skip(i + 1)),
        None => (DEFAULT_ACCOUNT_ID@, id),
    }
}

/// The tag of a notification that came without one.
pub open spec fn default_tag(stamp: u64) -> Seq<char> {
    TAG_PREFIX@ + decimal(stamp as nat)
}

/// The stamp after `last` at the time `now`: the time where it is later, else the
/// next number, as far as the number type reaches.
pub open spec fn next_stamp(last: u64, now: u64) -> u64 {
    if now > last {
        now
    } else if last < u64::MAX {
        (last + 1) as u64
    } else {
        last
    }
}

/// The ids remembered after `id` was issued: `id` comes last, and of more than
/// the cap allows the oldest are forgotten.
pub open spec fn remembered(issued: Seq<Seq<char>>, id: Seq<char>) -> Seq<Seq<char>> {
    let all = issued.push(id);
    if all.len() > ISSUED_CAP {
        all.skip(all.len() - ISSUED_CAP)
    } else {
        all
    }
}

/// The ids forgotten when `id` was issued: the oldest, as many as the cap is
/// exceeded by.
pub open spec fn forgotten(issued: Seq<Seq<char>>, id: Seq<char>) -> Seq<Seq<char>> {
    let all = issued.push(id);
    if all.len() > ISSUED_CAP {
        all.take(all.len() - ISSUED_CAP)
    } else {
        Seq::empty()
    }
}

/// What a router holds.
pub struct RouterView {
    /// The platform ids of the notifications issued and not yet withdrawn, oldest first.
    pub issued: Seq<Seq<char>>,
    /// The stamp of the last tag that the router made up.
    pub last_stamp: u64,
}

/// The router of notifications.
pub struct NotificationRouter {
    issued: Vec<String>,
    last_stamp: u64,
}

impl View for NotificationRouter {
    type V = RouterView;

    closed spec fn view(&self) -> RouterView {
        RouterView { issued: self.issued@.map_values(|s: String| s@), last_stamp: self.last_stamp }
    }
}

impl NotificationRouter {
    /// A router that has issued nothing.
    pub fn new() -> (r: Self)
        ensures
            r@.issued == Seq::<Seq<char>>::empty(),
            r@.last_stamp == 0,
    {
        let r = NotificationRouter { issued: Vec::new(), last_stamp: 0 };
        assert(r@.issued =~= Seq::<Seq<char>>::empty());
        r
    }

    /// The routing id of a notification of the account `account_id` with the tag `tag`.
    pub fn make_routing_id(account_id: &str, tag: &str) -> (r: String)
        ensures
            r@ == routing_id(account_id@, tag@),
    {
        proof {
            reveal_strlit(":");
        }
        let mut id = account_id.to_owned();
        id.append(":");
        id.append(tag);
        assert(":"@ =~= seq![':']);
        id
    }

    /// The account and the tag that a routing id names.
    pub fn decode(routing_id: &str) -> (r: (String, String))
        ensures
            (r.0@, r.1@) == decoded(routing_id@),
    {
        let all = chars_of(routing_id);
        match find_char(&all, ':') {
            Some(i) => {
                let account = first_chars(&all, i);
                let tag = chars_from(&all, i + 1);
                (string_of(&account), string_of(&tag))
            },
            None => (DEFAULT_ACCOUNT_ID.to_owned(), routing_id.to_owned()),
        }
    }

    /// A tag for a notification that came without one. No two tags made by one
    /// router are the same, as long as the stamp has not reached the end of its type.
    pub fn next_tag(&mut self, now: u64) -> (r: String)
        ensures
            final(self)@.last_stamp == next_stamp(old(self)@.last_stamp, now),
            final(self)@.issued == old(self)@.issued,
            r@ == default_tag(final(self)@.last_stamp),
            old(self)@.last_stamp < u64::MAX ==> final(self)@.last_stamp > old(self)@.last_stamp,
    {
        let stamp: u64 = if now > self.last_stamp {
            now
        } else if self.last_stamp < u64::MAX {
            self.last_stamp + 1
        } else {
            self.last_stamp
        };
        self.last_stamp = stamp;
        let mut tag = TAG_PREFIX.to_owned();
        let digits = decimal_string(stamp);
        tag.append(digits.as_str());
        tag
    }

    /// The routing id under which a notification of the account `account_id` leaves:
    /// with its own tag where it has one, else with a tag made up for it.
    pub fn route(&mut self, account_id: &str, tag: Option<&str>, now: u64) -> (r: String)
        ensures
            final(self)@.issued == old(self)@.issued,
            match tag {
                Some(t) => r@ == routing_id(account_id@, t@) && final(self)@.last_stamp == old(self)@.last_stamp,
                None => r@ == routing_id(account_id@, default_tag(final(self)@.last_stamp))
                    && final(self)@.last_stamp == next_stamp(old(self)@.last_stamp, now),
            },
    {
        match tag {
            Some(t) => NotificationRouter::make_routing_id(account_id, t),
            None => {
                let made = self.next_tag(now);
                NotificationRouter::make_routing_id(account_id, made.as_str())
            },
        }
    }

    /// Remembers the platform id of an issued notification for withdrawal. Of more
    /// than the cap allows, the oldest are forgotten; they are handed out.
    pub fn track_issued(&mut self, platform_id: String) -> (r: Vec<String>)
        ensures
            final(self)@.issued == remembered(old(self)@.issued, platform_id@),
            r@.map_values(|s: String| s@) == forgotten(old(self)@.issued, platform_id@),
            final(self)@.issued.len() <= ISSUED_CAP,
            final(self)@.issued.len() > 0,
            final(self)@.issued.last() == platform_id@,
            old(self)@.issued.len() < ISSUED_CAP ==> r@.len() == 0,
            final(self)@.last_stamp == old(self)@.last_stamp,
    {
        let ghost before = self@;
        self.issued.push(platform_id);
        let ghost all = self@.issued;
        assert(all =~= before.issued.push(platform_id@));
        assert(all.skip(0) =~= all);
        let mut gone: Vec<String> = Vec::new();
        assert(gone@.map_values(|s: String| s@) =~= all.take(0));
        while self.issued.len() > ISSUED_CAP
            invariant
                self.issued@.len() <= all.len(),
                self.issued@.len() >= ISSUED_CAP || self.issued@.len() == all.len(),
                all == before.issued.push(platform_id@),
                self@.issued == all.skip(all.len() - self.issued@.len()),
                gone@.map_values(|s: String| s@) == all.take(all.len() - self.issued@.len()),
                self@.last_stamp == before.last_stamp,
            decreases self.issued@.len(),
        {
            let ghost prior = self@.issued;
            let ghost lost = gone@.map_values(|s: String| s@);
            let oldest = self.issued.remove(0);
            assert(oldest@ == prior[0]);
            assert(self@.issued =~= prior.skip(1));
            assert(prior.skip(1) =~= all.skip(all.len() - self.issued@.len()));
            gone.push(oldest);
            assert(gone@.map_values(|s: String| s@) =~= lost.push(prior[0]));
            assert(lost.push(prior[0]) =~= all.take(all.len() - self.issued@.len()));
        }
        assert(all.take(0) =~= Seq::<Seq<char>>::empty());
        gone
    }

    /// How many issued notifications are remembered.
    pub fn pending(&self) -> (r: usize)
        ensures
            r == self@.issued.len(),
    {
        self.issued.len()
    }

    /// Hands out the platform ids of all notifications issued and not yet withdrawn,
    /// oldest first, and forgets them.
    pub fn withdraw_all(&mut self) -> (r: Vec<String>)
        ensures
            r@.map_values(|s: String| s@) == old(self)@.issued,
            r@.len() == old(self)@.issued.len(),
            forall|i: int| 0 <= i < r@.len() ==> (#[trigger] r@[i])@ == old(self)@.issued[i],
            final(self)@.issued == Seq::<Seq<char>>::empty(),
            final(self)@.last_stamp == old(self)@.last_stamp,
    {
        let mut out: Vec<String> = Vec::new();
        std::mem::swap(&mut out, &mut self.issued);
        assert(self@.issued =~= Seq::<Seq<char>>::empty());
        assert forall|i: int| 0 <= i < out@.len() implies (#[trigger] out@[i])@ == old(self)@.issued[i] by {
            assert(out@.map_values(|s: String| s@)[i] == out@[i]@);
        }
        out
    }

    /// The account and the tag of the notification that was clicked.
    pub fn on_click(&self, routing_id: &str) -> (r: (String, String))
        ensures
            (r.0@, r.1@) == decoded(routing_id@),
    {
        NotificationRouter::decode(routing_id)
    }
}

/// Decoding undoes encoding: the routing id made of an account id without a colon
/// and any tag names that account and that tag.
pub proof fn lemma_decode_inverts(account: Seq<char>, tag: Seq<char>)
    requires
        !account.contains(':'),
    ensures
        decoded(routing_id(account, tag)) == (account, tag),
{
    let id = routing_id(account, tag);
    let at = account.len() as int;
    assert(id[at] == ':');
    assert(id.contains(':'));
    id.index_of_first_ensures(':');
    let i = id.index_of_first(':').unwrap();
    if i < at {
        assert(id[i] == account[i]);
        assert(account.contains(':'));
    }
    assert(i == at);
    assert(id.take(at) =~= account);
    assert(id.skip(at + 1) =~= tag);
}

/// The id of the default account holds no colon, so every routing id made for it
/// names it again: decoding undoes encoding for the default account.
pub proof fn lemma_default_id_decodes(tag: Seq<char>)
    ensures
        !DEFAULT_ACCOUNT_ID@.contains(':'),
        decoded(routing_id(DEFAULT_ACCOUNT_ID@, tag)) == (DEFAULT_ACCOUNT_ID@, tag),
{
    reveal_strlit("default");
    let id = DEFAULT_ACCOUNT_ID@;
    if id.contains(':') {
        let i = choose|i: int| 0 <= i < id.len() && id[i] == ':';
        assert(id[i] != ':');
    }
    lemma_decode_inverts(id, tag);
}

/// Tags of different stamps differ: notifications that came without a tag never
/// share a made-up one.
pub proof fn lemma_default_tags_differ(first: u64, second: u64)
    requires
        first != second,
    ensures
        default_tag(first) != default_tag(second),
{
    let prefix = TAG_PREFIX@;
    if default_tag(first) == default_tag(second) {
        assert(default_tag(first).skip(prefix.len() as int) =~= decimal(first as nat));
        assert(default_tag(second).skip(prefix.len() as int) =~= decimal(second as nat));
        lemma_decimal_injective(first as nat, second as nat);
    }
}

} // verus!
