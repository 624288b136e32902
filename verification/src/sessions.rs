//! The pool of browsing sessions: at most one per account, at most one of them in
//! the foreground, the others kept warm in the background.

use vstd::prelude::*;

verus! {

/// The address of the service that every session loads.
pub const SERVICE_URI: &'static str = "https://web.whatsapp.com";

/// Where a session keeps its data and its cache.
#[derive(Debug)]
pub struct StorageDirs {
    pub data: String,
    pub cache: String,
}

/// A live browsing session of one account.
#[derive(Debug)]
pub struct Session {
    /// The account that the session belongs to.
    pub account_id: String,
    /// The directory of its browsing data.
    pub data_dir: String,
    /// The directory of its cache.
    pub cache_dir: String,
    /// Whether it is the session that the user sees.
    pub foreground: bool,
}

/// What a `Session` holds, with each string as its sequence of characters.
pub struct SessionView {
    pub account_id: Seq<char>,
    pub data_dir: Seq<char>,
    pub cache_dir: Seq<char>,
    pub foreground: bool,
}

impl View for Session {
    type V = SessionView;

    open spec fn view(&self) -> SessionView {
        SessionView {
            account_id: self.account_id@,
            data_dir: self.data_dir@,
            cache_dir: self.cache_dir@,
            foreground: self.foreground,
        }
    }
}

impl Clone for Session {
    fn clone(&self) -> (r: Self)
        ensures
            r@ == self@,
    {
        Session {
            account_id: self.account_id.clone(),
            data_dir: self.data_dir.clone(),
            cache_dir: self.cache_dir.clone(),
            foreground: self.foreground,
        }
    }
}

/// What the pool did to hand out a session.
#[derive(Debug)]
pub struct SessionChange {
    /// The session of the account asked for, as the pool holds it now.
    pub session: Session,
    /// Whether the session is new, so that the engine has to build it and load the
    /// service into it.
    pub created: bool,
    /// The account whose session left the foreground for this one, if any. That
    /// session is hidden and lives on.
    pub demoted: Option<String>,
}

/// Whether the pool holds a session of the account `id`.
pub open spec fn holds(s: Seq<SessionView>, id: Seq<char>) -> bool {
    exists|i: int| 0 <= i < s.len() && (#[trigger] s[i]).account_id == id
}

/// Whether `i` is the index of the first session of the account `id`.
pub open spec fn is_place(s: Seq<SessionView>, id: Seq<char>, i: int) -> bool {
    &&& 0 <= i < s.len()
    &&& s[i].account_id == id
    &&& forall|j: int| 0 <= j < i ==> (#[trigger] s[j]).account_id != id
}

/// The index of the first session of the account `id`, where there is one.
pub open spec fn place(s: Seq<SessionView>, id: Seq<char>) -> int {
    choose|i: int| is_place(s, id, i)
}

/// No session is in the foreground.
pub open spec fn all_hidden(s: Seq<SessionView>) -> bool {
    forall|i: int| 0 <= i < s.len() ==> !(#[trigger] s[i]).foreground
}

/// Whether `i` is the index of the first session in the foreground.
pub open spec fn is_front(s: Seq<SessionView>, i: int) -> bool {
    &&& 0 <= i < s.len()
    &&& s[i].foreground
    &&& forall|j: int| 0 <= j < i ==> !(#[trigger] s[j]).foreground
}

/// The account whose session is in the foreground, if any is.
pub open spec fn front(s: Seq<SessionView>) -> Option<Seq<char>> {
    if all_hidden(s) {
        None
    } else {
        Some(s[choose|i: int| is_front(s, i)].account_id)
    }
}

/// The pool with every session in the background.
pub open spec fn hidden(s: Seq<SessionView>) -> Seq<SessionView> {
    s.map_values(|x: SessionView| SessionView { foreground: false, ..x })
}

/// The pool after a session of the account `id` was asked for. A session that
/// exists is kept with its directories, and is brought to the foreground where that
/// was asked for. One that does not exist is made at the directories given. Whenever
/// a session comes to the foreground, all others go to the background; none is
/// ever destroyed.
pub open spec fn obtained(
    s: Seq<SessionView>,
    id: Seq<char>,
    data: Seq<char>,
    cache: Seq<char>,
    foreground: bool,
) -> Seq<SessionView> {
    if holds(s, id) {
        if foreground {
            hidden(s).update(place(s, id), SessionView { foreground: true, ..s[place(s, id)] })
        } else {
            s
        }
    } else {
        let made = SessionView { account_id: id, data_dir: data, cache_dir: cache, foreground };
        if foreground {
            hidden(s).push(made)
        } else {
            s.push(made)
        }
    }
}

/// The account whose session leaves the foreground when the account `id` is asked
/// for: the one in front, unless it is `id` itself or the foreground was not asked for.
pub open spec fn displaced(s: Seq<SessionView>, id: Seq<char>, foreground: bool) -> Option<Seq<char>> {
    if foreground && front(s) != Some(id) {
        front(s)
    } else {
        None
    }
}

/// The test that a session belongs to another account than `id`.
pub open spec fn not_of(id: Seq<char>) -> spec_fn(SessionView) -> bool {
    |x: SessionView| x.account_id != id
}

/// The pool without the sessions of the account `id`.
pub open spec fn evicted(s: Seq<SessionView>, id: Seq<char>) -> Seq<SessionView> {
    s.filter(not_of(id))
}

/// No account has two sessions.
pub open spec fn one_per_account(s: Seq<SessionView>) -> bool {
    forall|i: int, j: int| 0 <= i < j < s.len() ==> (#[trigger] s[i]).account_id != (#[trigger] s[j]).account_id
}

/// No two sessions are in the foreground.
pub open spec fn one_in_front(s: Seq<SessionView>) -> bool {
    forall|i: int, j: int| 0 <= i < j < s.len() ==> !((#[trigger] s[i]).foreground && (#[trigger] s[j]).foreground)
}

/// What holds of every pool: at most one session per account, and at most one
/// session in the foreground.
pub open spec fn pool_ok(s: Seq<SessionView>) -> bool {
    one_per_account(s) && one_in_front(s)
}

/// The pool of sessions.
pub struct SessionPool {
    sessions: Vec<Session>,
}

impl View for SessionPool {
    type V = Seq<SessionView>;

    closed spec fn view(&self) -> Seq<SessionView> {
        self.sessions@.map_values(|x: Session| x@)
    }
}

impl SessionPool {
    /// An empty pool.
    pub fn new() -> (r: Self)
        ensures
            r@ == Seq::<SessionView>::empty(),
            pool_ok(r@),
    {
        let r = SessionPool { sessions: Vec::new() };
        assert(r@ =~= Seq::<SessionView>::empty());
        r
    }

    /// The number of live sessions.
    pub fn len(&self) -> (r: usize)
        ensures
            r == self@.len(),
    {
        self.sessions.len()
    }

    /// The index of the first session of the account `key`.
    fn find(&self, key: &String) -> (r: Option<usize>)
        ensures
            match r {
                Some(i) => is_place(self@, key@, i as int) && i as int == place(self@, key@) && holds(
                    self@,
                    key@,
                ),
                None => !holds(self@, key@),
            },
    {
        let mut i: usize = 0;
        while i < self.sessions.len()
            invariant
                i <= self.sessions.len(),
                forall|j: int| 0 <= j < i ==> (#[trigger] self@[j]).account_id != key@,
            decreases self.sessions.len() - i,
        {
            if self.sessions[i].account_id == *key {
                assert(self@[i as int].account_id == key@);
                assert(is_place(self@, key@, i as int));
                return Some(i);
            }
            i += 1;
        }
        None
    }

    /// Whether the pool holds a session of the account `account_id`.
    pub fn contains(&self, account_id: &str) -> (r: bool)
        ensures
            r == holds(self@, account_id@),
    {
        let key = account_id.to_owned();
        self.find(&key).is_some()
    }

    /// The session of the account `account_id`, if the pool holds one.
    pub fn get(&self, account_id: &str) -> (r: Option<Session>)
        ensures
            match r {
                Some(x) => holds(self@, account_id@) && x@ == self@[place(self@, account_id@)],
                None => !holds(self@, account_id@),
            },
    {
        let key = account_id.to_owned();
        match self.find(&key) {
            Some(i) => {
                assert(self@[i as int] == self.sessions@[i as int]@);
                Some(self.sessions[i].clone())
            },
            None => None,
        }
    }

    /// The account whose session is in the foreground, if any is.
    pub fn foreground(&self) -> (r: Option<String>)
        ensures
            match r {
                Some(id) => front(self@) == Some(id@),
                None => front(self@) is None,
            },
    {
        let mut i: usize = 0;
        while i < self.sessions.len()
            invariant
                i <= self.sessions.len(),
                forall|j: int| 0 <= j < i ==> !(#[trigger] self@[j]).foreground,
            decreases self.sessions.len() - i,
        {
            if self.sessions[i].foreground {
                assert(self@[i as int].foreground);
                assert(is_front(self@, i as int));
                return Some(self.sessions[i].account_id.clone());
            }
            i += 1;
        }
        assert(all_hidden(self@));
        None
    }

    /// Sends every session to the background.
    fn hide_all(&mut self)
        ensures
            final(self)@ == hidden(old(self)@),
    {
        let ghost before = self@;
        let mut i: usize = 0;
        while i < self.sessions.len()
            invariant
                i <= self.sessions.len(),
                self.sessions.len() == before.len(),
                forall|j: int|
                    0 <= j < i ==> #[trigger] self@[j] == (SessionView { foreground: false, ..before[j] }),
                forall|j: int| i <= j < before.len() ==> #[trigger] self@[j] == before[j],
            decreases self.sessions.len() - i,
        {
            let ghost prior = self@;
            self.sessions[i].foreground = false;
            assert(self@ =~= prior.update(i as int, SessionView { foreground: false, ..prior[i as int] }));
            i += 1;
        }
        assert(self@ =~= hidden(before));
    }

    /// Hands out the session of the account `account_id`. The session that exists is
    /// handed out, and brought to the foreground if `foreground` asks for it. Where
    /// none exists, one is registered at `dirs`, for the engine to build. A session
    /// that comes to the foreground sends the one in front to the background, where
    /// it lives on.
    pub fn get_or_create(&mut self, account_id: &str, dirs: StorageDirs, foreground: bool) -> (r: SessionChange)
        ensures
            final(self)@ == obtained(old(self)@, account_id@, dirs.data@, dirs.cache@, foreground),
            r.created == !holds(old(self)@, account_id@),
            holds(final(self)@, account_id@),
            r.session@ == final(self)@[place(final(self)@, account_id@)],
            r.session@.account_id == account_id@,
            foreground ==> r.session@.foreground && front(final(self)@) == Some(account_id@),
            match r.demoted {
                Some(id) => displaced(old(self)@, account_id@, foreground) == Some(id@),
                None => displaced(old(self)@, account_id@, foreground) is None,
            },
            pool_ok(old(self)@) ==> pool_ok(final(self)@),
            final(self)@.len() == old(self)@.len() + (if r.created {
                1int
            } else {
                0int
            }),
            forall|other: Seq<char>|
                #[trigger] holds(final(self)@, other) == (holds(old(self)@, other) || other == account_id@),
            r.created ==> r.session@ == (SessionView {
                account_id: account_id@,
                data_dir: dirs.data@,
                cache_dir: dirs.cache@,
                foreground: foreground,
            }),
            !r.created ==> r.session@ == (SessionView {
                foreground: foreground || old(self)@[place(old(self)@, account_id@)].foreground,
                ..old(self)@[place(old(self)@, account_id@)]
            }),
    {
        let key = account_id.to_owned();
        let ghost before = self@;
        proof {
            lemma_obtained(before, key@, dirs.data@, dirs.cache@, foreground);
        }
        let in_front = self.foreground();
        let demoted: Option<String> = match in_front {
            Some(id) => if foreground && !(id == key) {
                Some(id)
            } else {
                None
            },
            None => None,
        };
        match self.find(&key) {
            Some(i) => {
                if foreground {
                    self.hide_all();
                    let ghost dimmed = self@;
                    assert(dimmed[i as int] == SessionView { foreground: false, ..before[i as int] });
                    self.sessions[i].foreground = true;
                    assert(self@ =~= dimmed.update(i as int, SessionView { foreground: true, ..dimmed[i as int] }));
                    assert(self@ =~= dimmed.update(i as int, SessionView { foreground: true, ..before[i as int] }));
                }
                assert(self@[i as int] == self.sessions@[i as int]@);
                assert(is_place(self@, key@, i as int)) by {
                    assert forall|j: int| 0 <= j < i implies (#[trigger] self@[j]).account_id != key@ by {
                        assert(self@[j].account_id == before[j].account_id);
                    }
                }
                SessionChange { session: self.sessions[i].clone(), created: false, demoted }
            },
            None => {
                if foreground {
                    self.hide_all();
                }
                let session = Session { account_id: key, data_dir: dirs.data, cache_dir: dirs.cache, foreground };
                let ghost dimmed = self@;
                self.sessions.push(session.clone());
                assert(self@ =~= dimmed.push(session@));
                assert(is_place(self@, key@, before.len() as int)) by {
                    assert forall|j: int| 0 <= j < before.len() implies (#[trigger] self@[j]).account_id != key@ by {
                        assert(self@[j].account_id == before[j].account_id);
                    }
                }
                SessionChange { session, created: true, demoted }
            },
        }
    }

    /// Brings the session of the account `account_id` to the foreground, making it
    /// first where the pool holds none. Switching to the account in front changes
    /// nothing.
    pub fn switch(&mut self, account_id: &str, dirs: StorageDirs) -> (r: SessionChange)
        ensures
            final(self)@ == obtained(old(self)@, account_id@, dirs.data@, dirs.cache@, true),
            r.created == !holds(old(self)@, account_id@),
            holds(final(self)@, account_id@),
            r.session@ == final(self)@[place(final(self)@, account_id@)],
            r.session@.account_id == account_id@,
            r.session@.foreground,
            front(final(self)@) == Some(account_id@),
            match r.demoted {
                Some(id) => displaced(old(self)@, account_id@, true) == Some(id@),
                None => displaced(old(self)@, account_id@, true) is None,
            },
            pool_ok(old(self)@) ==> pool_ok(final(self)@),
            final(self)@.len() == old(self)@.len() + (if r.created {
                1int
            } else {
                0int
            }),
            forall|other: Seq<char>|
                #[trigger] holds(final(self)@, other) == (holds(old(self)@, other) || other == account_id@),
            r.created ==> r.session@ == (SessionView {
                account_id: account_id@,
                data_dir: dirs.data@,
                cache_dir: dirs.cache@,
                foreground: true,
            }),
            !r.created ==> r.session@ == (SessionView {
                foreground: true || old(self)@[place(old(self)@, account_id@)].foreground,
                ..old(self)@[place(old(self)@, account_id@)]
            }),
    {
        self.get_or_create(account_id, dirs, true)
    }

    /// Ends the session of the account `account_id` and hands it out, for the engine
    /// to release. The sessions of all other accounts stay as they are.
    pub fn evict(&mut self, account_id: &str) -> (r: Option<Session>)
        ensures
            final(self)@ == evicted(old(self)@, account_id@),
            !holds(final(self)@, account_id@),
            match r {
                Some(x) => holds(old(self)@, account_id@) && x@ == old(self)@[place(old(self)@, account_id@)],
                None => !holds(old(self)@, account_id@),
            },
            pool_ok(old(self)@) ==> pool_ok(final(self)@),
            forall|other: Seq<char>|
                other != account_id@ ==> (#[trigger] holds(final(self)@, other) <==> holds(old(self)@, other)),
            final(self)@.len() <= old(self)@.len(),
    {
        let key = account_id.to_owned();
        let ghost before = self@;
        let ghost keep = not_of(key@);
        proof {
            lemma_evicted(before, key@);
            before.lemma_filter_len(keep);
        }
        let gone = self.get(account_id);
        let mut kept: Vec<Session> = Vec::new();
        let mut i: usize = 0;
        while i < self.sessions.len()
            invariant
                i <= self.sessions.len(),
                before == self@,
                keep == not_of(key@),
                kept@.map_values(|x: Session| x@) == before.take(i as int).filter(keep),
            decreases self.sessions.len() - i,
        {
            let ghost head = before.take(i as int + 1);
            assert(head.drop_last() =~= before.take(i as int));
            assert(head.last() == self.sessions@[i as int]@);
            assert(head.filter(keep) == if keep(head.last()) {
                head.drop_last().filter(keep).push(head.last())
            } else {
                head.drop_last().filter(keep)
            }) by {
                reveal(Seq::filter);
            }
            if !(self.sessions[i].account_id == key) {
                let ghost prior = kept@.map_values(|x: Session| x@);
                kept.push(self.sessions[i].clone());
                assert(kept@.map_values(|x: Session| x@) =~= prior.push(self.sessions@[i as int]@));
            }
            i += 1;
        }
        assert(before.take(i as int) =~= before);
        self.sessions = kept;
        gone
    }
}

/// Where the pool holds a session of the account `id`, one of them is the first.
pub proof fn lemma_place_exists(s: Seq<SessionView>, id: Seq<char>)
    requires
        holds(s, id),
    ensures
        is_place(s, id, place(s, id)),
    decreases s.len(),
{
    let shorter = s.drop_last();
    assert(forall|i: int| 0 <= i < shorter.len() ==> shorter[i] == s[i]);
    if holds(shorter, id) {
        lemma_place_exists(shorter, id);
        let k = place(shorter, id);
        assert(s[k].account_id == id);
        assert forall|j: int| 0 <= j < k implies (#[trigger] s[j]).account_id != id by {
            assert(shorter[j].account_id != id);
        }
        assert(is_place(s, id, k));
    } else {
        let w = choose|w: int| 0 <= w < s.len() && (#[trigger] s[w]).account_id == id;
        if w < s.len() - 1 {
            assert(shorter[w].account_id == id);
        }
        assert forall|j: int| 0 <= j < s.len() - 1 implies (#[trigger] s[j]).account_id != id by {
            assert(shorter[j].account_id == s[j].account_id);
        }
        assert(is_place(s, id, s.len() - 1));
    }
}

/// Asking for a session never destroys one: the pool holds the session asked for
/// afterwards, and every session held before. A session asked into the foreground
/// is the one in front afterwards. And what holds of every pool holds afterwards.
pub proof fn lemma_obtained(s: Seq<SessionView>, id: Seq<char>, data: Seq<char>, cache: Seq<char>, foreground: bool)
    ensures
        holds(obtained(s, id, data, cache, foreground), id),
        forall|other: Seq<char>| holds(s, other) ==> holds(obtained(s, id, data, cache, foreground), other),
        forall|other: Seq<char>|
            other != id ==> (holds(obtained(s, id, data, cache, foreground), other) <==> holds(s, other)),
        foreground ==> front(obtained(s, id, data, cache, foreground)) == Some(id),
        foreground ==> obtained(s, id, data, cache, foreground)[place(
            obtained(s, id, data, cache, foreground),
            id,
        )].foreground,
        pool_ok(s) ==> pool_ok(obtained(s, id, data, cache, foreground)),
        obtained(s, id, data, cache, foreground).len() == (if holds(s, id) {
            s.len()
        } else {
            s.len() + 1
        }),
        obtained(s, id, data, cache, foreground)[place(obtained(s, id, data, cache, foreground), id)] == (if holds(
            s,
            id,
        ) {
            SessionView { foreground: foreground || s[place(s, id)].foreground, ..s[place(s, id)] }
        } else {
            SessionView { account_id: id, data_dir: data, cache_dir: cache, foreground }
        }),
{
    let t = obtained(s, id, data, cache, foreground);
    if holds(s, id) {
        lemma_place_exists(s, id);
        let k = place(s, id);
        assert(t[k].account_id == id);
        assert forall|j: int| 0 <= j < s.len() implies (#[trigger] t[j]).account_id == s[j].account_id by {}
    } else {
        assert(t[s.len() as int].account_id == id);
        assert forall|j: int| 0 <= j < s.len() implies (#[trigger] t[j]).account_id == s[j].account_id by {}
    }
    assert forall|other: Seq<char>| holds(s, other) implies holds(t, other) by {
        let w = choose|w: int| 0 <= w < s.len() && (#[trigger] s[w]).account_id == other;
        assert(t[w].account_id == other);
    }
    assert forall|other: Seq<char>| other != id && holds(t, other) implies holds(s, other) by {
        let w = choose|w: int| 0 <= w < t.len() && (#[trigger] t[w]).account_id == other;
        assert(w < s.len());
        assert(s[w].account_id == other);
    }
    lemma_place_exists(t, id);
    let at = place(t, id);
    if holds(s, id) {
        let k = place(s, id);
        assert(is_place(t, id, k)) by {
            assert forall|j: int| 0 <= j < k implies (#[trigger] t[j]).account_id != id by {
                assert(s[j].account_id != id);
            }
        }
        assert(at == k);
    } else {
        assert(is_place(t, id, s.len() as int)) by {
            assert forall|j: int| 0 <= j < s.len() implies (#[trigger] t[j]).account_id != id by {
                assert(s[j].account_id != id);
            }
        }
        assert(at == s.len());
    }
    if foreground {
        let k = if holds(s, id) {
            place(s, id)
        } else {
            s.len() as int
        };
        assert(t[k].foreground && t[k].account_id == id);
        assert forall|j: int| 0 <= j < t.len() && j != k implies !(#[trigger] t[j]).foreground by {}
        assert(is_front(t, k));
        let f = choose|f: int| is_front(t, f);
        assert(f == k);
        assert(at <= k);
        if at < k {
            assert(t[at].account_id == id);
            if holds(s, id) {
                assert(s[at].account_id == id);
            } else {
                assert(s[at].account_id == id);
            }
        }
    }
    if pool_ok(s) {
        assert forall|i: int, j: int| 0 <= i < j < t.len() implies (#[trigger] t[i]).account_id != (
        #[trigger] t[j]).account_id by {
            if j < s.len() {
                assert(s[i].account_id != s[j].account_id);
            } else {
                assert(s[i].account_id != id);
            }
        }
        assert forall|i: int, j: int| 0 <= i < j < t.len() implies !((#[trigger] t[i]).foreground && (
        #[trigger] t[j]).foreground) by {
            if !foreground {
                if j < s.len() {
                    assert(!(s[i].foreground && s[j].foreground));
                }
            }
        }
    }
}

/// Ending the session of an account leaves no session of it, touches no session of
/// another account, and keeps what holds of every pool.
pub proof fn lemma_evicted(s: Seq<SessionView>, id: Seq<char>)
    ensures
        !holds(evicted(s, id), id),
        forall|other: Seq<char>| other != id ==> (holds(evicted(s, id), other) <==> holds(s, other)),
        forall|i: int| 0 <= i < evicted(s, id).len() ==> s.contains(#[trigger] evicted(s, id)[i]),
        pool_ok(s) ==> pool_ok(evicted(s, id)),
    decreases s.len(),
{
    reveal(Seq::filter);
    let keep = not_of(id);
    let t = evicted(s, id);
    if s.len() > 0 {
        let shorter = s.drop_last();
        let before = evicted(shorter, id);
        lemma_evicted(shorter, id);
        assert(forall|i: int| 0 <= i < shorter.len() ==> shorter[i] == s[i]);
        assert forall|i: int| 0 <= i < t.len() implies s.contains(#[trigger] t[i]) by {
            if i < before.len() {
                assert(t[i] == before[i]);
                assert(shorter.contains(before[i]));
                let k = choose|k: int| 0 <= k < shorter.len() && shorter[k] == before[i];
                assert(s[k] == t[i]);
            } else {
                assert(t[i] == s[s.len() - 1]);
            }
        }
        if holds(t, id) {
            let w = choose|w: int| 0 <= w < t.len() && (#[trigger] t[w]).account_id == id;
            if w < before.len() {
                assert(before[w].account_id == id);
            }
        }
        assert forall|other: Seq<char>| other != id implies (holds(t, other) <==> holds(s, other)) by {
            if holds(s, other) {
                let w = choose|w: int| 0 <= w < s.len() && (#[trigger] s[w]).account_id == other;
                if w < shorter.len() {
                    assert(shorter[w].account_id == other);
                    assert(holds(shorter, other));
                    assert(holds(evicted(shorter, id), other));
                    assert(holds(before, other));
                    let v = choose|v: int| 0 <= v < before.len() && (#[trigger] before[v]).account_id == other;
                    assert(t[v].account_id == other);
                } else {
                    assert(keep(s.last()));
                    assert(t[before.len() as int].account_id == other);
                }
            }
            if holds(t, other) {
                let w = choose|w: int| 0 <= w < t.len() && (#[trigger] t[w]).account_id == other;
                assert(s.contains(t[w]));
                let k = choose|k: int| 0 <= k < s.len() && s[k] == t[w];
                assert(s[k].account_id == other);
            }
        }
        if pool_ok(s) {
            assert(pool_ok(shorter)) by {
                assert forall|i: int, j: int| 0 <= i < j < shorter.len() implies (#[trigger] shorter[i]).account_id
                    != (#[trigger] shorter[j]).account_id by {
                    assert(s[i].account_id != s[j].account_id);
                }
                assert forall|i: int, j: int| 0 <= i < j < shorter.len() implies !((
                #[trigger] shorter[i]).foreground && (#[trigger] shorter[j]).foreground) by {
                    assert(!(s[i].foreground && s[j].foreground));
                }
            }
            assert forall|i: int, j: int| 0 <= i < j < t.len() implies (#[trigger] t[i]).account_id != (
            #[trigger] t[j]).account_id && !(t[i].foreground && t[j].foreground) by {
                if j < before.len() {
                    assert(t[i] == before[i] && t[j] == before[j]);
                } else {
                    assert(t[i] == before[i]);
                    assert(shorter.contains(before[i]));
                    let k = choose|k: int| 0 <= k < shorter.len() && shorter[k] == before[i];
                    assert(s[k].account_id != s[s.len() - 1].account_id);
                    assert(!(s[k].foreground && s[s.len() - 1].foreground));
                }
            }
        }
    } else {
        if holds(t, id) {
            let w = choose|w: int| 0 <= w < t.len() && (#[trigger] t[w]).account_id == id;
        }
        assert forall|other: Seq<char>| other != id implies (holds(t, other) <==> holds(s, other)) by {
            if holds(t, other) {
                let w = choose|w: int| 0 <= w < t.len() && (#[trigger] t[w]).account_id == other;
            }
            if holds(s, other) {
                let w = choose|w: int| 0 <= w < s.len() && (#[trigger] s[w]).account_id == other;
            }
        }
    }
}

/// Switching to the account in front changes nothing: a second switch to the same
/// account leaves the pool as the first one left it.
pub proof fn lemma_switch_idempotent(
    s: Seq<SessionView>,
    id: Seq<char>,
    data: Seq<char>,
    cache: Seq<char>,
    again_data: Seq<char>,
    again_cache: Seq<char>,
)
    ensures
        obtained(obtained(s, id, data, cache, true), id, again_data, again_cache, true) == obtained(
            s,
            id,
            data,
            cache,
            true,
        ),
        displaced(obtained(s, id, data, cache, true), id, true) is None,
{
    let t = obtained(s, id, data, cache, true);
    lemma_obtained(s, id, data, cache, true);
    lemma_place_exists(t, id);
    let k = place(t, id);
    assert(t[k].foreground);
    if holds(s, id) {
        lemma_place_exists(s, id);
    }
    let only = if holds(s, id) {
        place(s, id)
    } else {
        s.len() as int
    };
    assert forall|j: int| 0 <= j < t.len() && j != only implies !(#[trigger] t[j]).foreground by {}
    assert(k == only);
    let u = obtained(t, id, again_data, again_cache, true);
    assert(u =~= t);
    assert(is_front(t, k));
}

/// What is asked of the pool.
pub enum PoolRequest {
    /// Hand out the session of this account, made at these directories where it is
    /// new, in the foreground or not.
    Obtain { account_id: Seq<char>, data_dir: Seq<char>, cache_dir: Seq<char>, foreground: bool },
    /// End the session of this account.
    Evict { account_id: Seq<char> },
}

/// The pool after one request.
pub open spec fn served(s: Seq<SessionView>, request: PoolRequest) -> Seq<SessionView> {
    match request {
        PoolRequest::Obtain { account_id, data_dir, cache_dir, foreground } => obtained(
            s,
            account_id,
            data_dir,
            cache_dir,
            foreground,
        ),
        PoolRequest::Evict { account_id } => evicted(s, account_id),
    }
}

/// The pool that an empty one becomes by the requests `requests`, one after another.
pub open spec fn served_all(requests: Seq<PoolRequest>) -> Seq<SessionView>
    decreases requests.len(),
{
    if requests.len() == 0 {
        Seq::empty()
    } else {
        served(served_all(requests.drop_last()), requests.last())
    }
}

/// Whatever sessions are asked for and ended, in whatever order: no account ever
/// has two sessions, and no two sessions are ever in the foreground.
pub proof fn lemma_pool_stays_ok(requests: Seq<PoolRequest>)
    ensures
        pool_ok(served_all(requests)),
    decreases requests.len(),
{
    if requests.len() > 0 {
        let before = served_all(requests.drop_last());
        lemma_pool_stays_ok(requests.drop_last());
        match requests.last() {
            PoolRequest::Obtain { account_id, data_dir, cache_dir, foreground } => {
                lemma_obtained(before, account_id, data_dir, cache_dir, foreground);
            },
            PoolRequest::Evict { account_id } => {
                lemma_evicted(before, account_id);
            },
        }
    }
}

} // verus!
