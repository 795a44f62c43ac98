//! The session table: the process-wide mapping from session token to
//! session record.
//!
//! The table owns the records' lifecycle.  A token present in the table
//! always maps to a well-formed record, lookups never yield a partially
//! constructed one, and the idle-expiry sweep removes exactly the records
//! that have been idle past the threshold and are not busy serving an
//! in-flight request at sweep time.

use vstd::prelude::*;

use crate::assoc::assoc_map;
use crate::assoc::distinct_keys;
use crate::assoc::lemma_assoc_map_absent;
use crate::assoc::lemma_assoc_map_at;
use crate::assoc::lemma_assoc_push;
use crate::assoc::lemma_assoc_update;
use crate::errors::SessionErr;
use crate::errors::SessionErrKind;
use crate::record::RecordModel;
use crate::record::SessionData;

verus! {

/// Whether a record last accessed at `last` counts as idle-expired at
/// `now`: strictly more than `expiry` time units have passed since the
/// last access.
pub open spec fn expired(last: u64, now: u64, expiry: u64) -> bool {
    now - last > expiry
}

/// Executable form of the expiry test.
pub fn is_expired(last: u64, now: u64, expiry: u64) -> (r: bool)
    ensures
        r == expired(last, now, expiry),
{
    if now <= last {
        false
    } else {
        now - last > expiry
    }
}

/// Whether the sweep keeps this entry: it is busy with an in-flight
/// request, or it has been accessed within the expiry threshold.
pub open spec fn kept_by_sweep(e: (u128, SessionData), now: u64, expiry: u64, busy: Seq<u128>) -> bool {
    busy.contains(e.0) || !expired(e.1@.last_access, now, expiry)
}

/// Linear membership test over a list of tokens.
fn token_list_contains(v: &Vec<u128>, x: u128) -> (r: bool)
    ensures
        r == v@.contains(x),
{
    let mut i: usize = 0;
    while i < v.len()
        invariant
            0 <= i <= v@.len(),
            forall|j: int| 0 <= j < i ==> v@[j] != x,
        decreases v@.len() - i,
    {
        if v[i] == x {
            return true;
        }
        i = i + 1;
    }
    false
}

/// The mapping from session token to session record.
pub struct SessionTable {
    entries: Vec<(u128, SessionData)>,
}

impl View for SessionTable {
    type V = Map<u128, RecordModel>;

    closed spec fn view(&self) -> Map<u128, RecordModel> {
        assoc_map(self.entries@)
    }
}

impl SessionTable {
    /// The table's invariant: one record per token, every record
    /// well-formed.
    pub closed spec fn wf(self) -> bool {
        &&& distinct_keys(self.entries@)
        &&& forall|i: int|
            0 <= i < self.entries@.len() ==> (#[trigger] self.entries@[i]).1.wf()
    }

    /// An empty table.
    pub fn new() -> (r: SessionTable)
        ensures
            r.wf(),
            r@ == Map::<u128, RecordModel>::empty(),
    {
        let r = SessionTable { entries: Vec::new() };
        proof {
            assert(r@ =~= Map::<u128, RecordModel>::empty());
        }
        r
    }

    /// Where the entry for `token` sits, if anywhere.
    fn index_of(&self, token: u128) -> (r: Option<usize>)
        ensures
            match r {
                Some(i) => 0 <= i < self.entries@.len() && self.entries@[i as int].0 == token,
                None => forall|j: int|
                    0 <= j < self.entries@.len() ==> (#[trigger] self.entries@[j]).0 != token,
            },
    {
        let mut i: usize = 0;
        while i < self.entries.len()
            invariant
                0 <= i <= self.entries@.len(),
                forall|j: int| 0 <= j < i ==> (#[trigger] self.entries@[j]).0 != token,
            decreases self.entries@.len() - i,
        {
            if self.entries[i].0 == token {
                return Some(i);
            }
            i = i + 1;
        }
        None
    }

    /// Whether a session with this token is live in the table.
    pub fn contains_token(&self, token: u128) -> (r: bool)
        requires
            self.wf(),
        ensures
            r == self@.dom().contains(token),
    {
        match self.index_of(token) {
            Some(i) => {
                proof {
                    lemma_assoc_map_at(self.entries@, i as int);
                }
                true
            },
            None => {
                proof {
                    lemma_assoc_map_absent(self.entries@, token);
                }
                false
            },
        }
    }

    /// Concurrent-safe lookup in the design; here the sequential core:
    /// the record under `token`, if live.  Does not update last-access;
    /// the caller touches the record on successful resolution.
    pub fn get<'a>(&'a self, token: u128) -> (r: Option<&'a SessionData>)
        requires
            self.wf(),
        ensures
            match r {
                Some(rec) => self@.dom().contains(token) && rec.wf() && rec@ == self@[token],
                None => !self@.dom().contains(token),
            },
    {
        match self.index_of(token) {
            Some(i) => {
                proof {
                    lemma_assoc_map_at(self.entries@, i as int);
                }
                Some(&self.entries[i].1)
            },
            None => {
                proof {
                    lemma_assoc_map_absent(self.entries@, token);
                }
                None
            },
        }
    }

    /// Adds a new session under a token that is not yet present; the
    /// generator's practical uniqueness is the caller's precondition.
    pub fn insert(&mut self, token: u128, rec: SessionData)
        requires
            old(self).wf(),
            rec.wf(),
            !old(self)@.dom().contains(token),
        ensures
            final(self).wf(),
            final(self)@ == old(self)@.insert(token, rec@),
    {
        proof {
            assert forall|j: int| 0 <= j < self.entries@.len() implies (#[trigger] self.entries@[j]).0
                != token by {
                if self.entries@[j].0 == token {
                    assert(exists|i: int|
                        0 <= i < self.entries@.len() && self.entries@[i].0 == token);
                }
            }
        }
        let ghost olds = self.entries@;
        self.entries.push((token, rec));
        proof {
            let news = self.entries@;
            assert(distinct_keys(news)) by {
                assert(forall|j: int| 0 <= j < news.len() - 1 ==> news[j] == olds[j]);
            }
            lemma_assoc_push(olds, news, token);
        }
    }

    /// Marks the session under `token` as accessed now, leaving its
    /// attributes alone.  Reports whether the token was live.
    pub fn touch(&mut self, token: u128, now: u64) -> (r: bool)
        requires
            old(self).wf(),
        ensures
            final(self).wf(),
            r == old(self)@.dom().contains(token),
            r ==> final(self)@ == old(self)@.insert(
                token,
                RecordModel { attrs: old(self)@[token].attrs, last_access: now },
            ),
            !r ==> final(self)@ == old(self)@,
    {
        let ghost olds = self.entries@;
        match self.index_of(token) {
            Some(i) => {
                proof {
                    lemma_assoc_map_at(olds, i as int);
                }
                let slot = &mut self.entries[i];
                slot.1.touch(now);
                proof {
                    let news = self.entries@;
                    assert(news == olds.update(i as int, news[i as int]));
                    assert(news[i as int].0 == token);
                    assert forall|j: int| 0 <= j < news.len() implies (#[trigger] news[j]).0
                        == olds[j].0 by {}
                    assert(distinct_keys(news));
                    lemma_assoc_update(olds, news, i as int, token);
                }
                true
            },
            None => {
                proof {
                    lemma_assoc_map_absent(olds, token);
                }
                false
            },
        }
    }

    /// Stores one typed value in the session under `token`, overwriting
    /// any prior value of the same kind.  Fails with the store-unavailable
    /// condition when the token is not live.
    pub fn insert_session_data(&mut self, token: u128, tag: u64, value: String) -> (r: Result<
        (),
        SessionErr,
    >)
        requires
            old(self).wf(),
        ensures
            final(self).wf(),
            r is Ok <==> old(self)@.dom().contains(token),
            r is Ok ==> final(self)@ == old(self)@.insert(
                token,
                RecordModel {
                    attrs: old(self)@[token].attrs.insert(tag, value@),
                    last_access: old(self)@[token].last_access,
                },
            ),
            r matches Err(e) ==> e.kind == SessionErrKind::StoreUnavailable && final(self)@
                == old(self)@,
    {
        let ghost olds = self.entries@;
        match self.index_of(token) {
            Some(i) => {
                proof {
                    lemma_assoc_map_at(olds, i as int);
                }
                let slot = &mut self.entries[i];
                slot.1.set(tag, value);
                proof {
                    let news = self.entries@;
                    assert(news == olds.update(i as int, news[i as int]));
                    assert(news[i as int].0 == token);
                    assert forall|j: int| 0 <= j < news.len() implies (#[trigger] news[j]).0
                        == olds[j].0 by {}
                    assert(distinct_keys(news));
                    lemma_assoc_update(olds, news, i as int, token);
                }
                Ok(())
            },
            None => {
                proof {
                    lemma_assoc_map_absent(olds, token);
                }
                Err(SessionErr { kind: SessionErrKind::StoreUnavailable })
            },
        }
    }

    /// Reads one typed value from the session under `token`.  Absence of
    /// the value is not an error here; an unknown token is the
    /// store-unavailable condition.
    pub fn get_session_data<'a>(&'a self, token: u128, tag: u64) -> (r: Result<
        Option<&'a String>,
        SessionErr,
    >)
        requires
            self.wf(),
        ensures
            r is Ok <==> self@.dom().contains(token),
            r matches Ok(v) ==> match v {
                Some(s) => self@[token].attrs.dom().contains(tag) && s@ == self@[token].attrs[tag],
                None => !self@[token].attrs.dom().contains(tag),
            },
            r matches Err(e) ==> e.kind == SessionErrKind::StoreUnavailable,
    {
        match self.index_of(token) {
            Some(i) => {
                proof {
                    lemma_assoc_map_at(self.entries@, i as int);
                }
                Ok(self.entries[i].1.get(tag))
            },
            None => {
                proof {
                    lemma_assoc_map_absent(self.entries@, token);
                }
                Err(SessionErr { kind: SessionErrKind::StoreUnavailable })
            },
        }
    }

    /// One pass of the idle-expiry sweep.  `busy` lists the tokens of
    /// records held by in-flight requests at sweep time: such records are
    /// skipped this pass rather than evicted or waited for.  Every other
    /// record idle past the threshold is removed; records accessed within
    /// the threshold are always kept, untouched.
    pub fn sweep(&mut self, now: u64, expiry: u64, busy: &Vec<u128>)
        requires
            old(self).wf(),
        ensures
            final(self).wf(),
            forall|t: u128| #[trigger]
                final(self)@.dom().contains(t) <==> (old(self)@.dom().contains(t) && (
                busy@.contains(t) || !expired(old(self)@[t].last_access, now, expiry))),
            forall|t: u128| #[trigger]
                final(self)@.dom().contains(t) ==> final(self)@[t] == old(self)@[t],
    {
        let ghost orig = old(self).entries@;
        let mut kept: Vec<(u128, SessionData)> = Vec::new();
        while self.entries.len() > 0
            invariant
                old(self).wf(),
                orig == old(self).entries@,
                self.entries@.len() <= orig.len(),
                self.entries@ == orig.take(self.entries@.len() as int),
                distinct_keys(kept@),
                forall|i: int| 0 <= i < kept@.len() ==> (#[trigger] kept@[i]).1.wf(),
                forall|t: u128| #[trigger]
                    assoc_map(kept@).dom().contains(t) <==> (exists|i: int|
                        self.entries@.len() <= i < orig.len() && (#[trigger] orig[i]).0 == t
                            && kept_by_sweep(orig[i], now, expiry, busy@)),
                forall|t: u128| #[trigger]
                    assoc_map(kept@).dom().contains(t) ==> assoc_map(kept@)[t] == assoc_map(
                        orig,
                    )[t],
            decreases self.entries@.len(),
        {
            let ghost n = self.entries@.len() as int;
            let e = self.entries.pop().unwrap();
            proof {
                assert(orig.take(n).drop_last() =~= orig.take(n - 1));
                assert(e == orig[n - 1]);
            }
            let keep = token_list_contains(busy, e.0) || !is_expired(e.1.last_access(), now, expiry);
            proof {
                assert(keep == kept_by_sweep(orig[n - 1], now, expiry, busy@));
            }
            if keep {
                proof {
                    assert forall|j: int| 0 <= j < kept@.len() implies (#[trigger] kept@[j]).0
                        != e.0 by {
                        lemma_assoc_map_at(kept@, j);
                        let w = choose|i: int|
                            n <= i < orig.len() && orig[i].0 == kept@[j].0 && kept_by_sweep(
                                orig[i],
                                now,
                                expiry,
                                busy@,
                            );
                        assert(orig[w].0 == kept@[j].0);
                        assert(orig[n - 1].0 == e.0);
                    }
                }
                let ghost oldk = kept@;
                kept.push(e);
                proof {
                    let newk = kept@;
                    assert(distinct_keys(newk)) by {
                        assert(forall|j: int| 0 <= j < newk.len() - 1 ==> newk[j] == oldk[j]);
                    }
                    lemma_assoc_push(oldk, newk, e.0);
                    lemma_assoc_map_at(orig, n - 1);
                    assert forall|t: u128| #[trigger]
                        assoc_map(newk).dom().contains(t) implies assoc_map(newk)[t] == assoc_map(
                        orig,
                    )[t] by {
                        if t != e.0 {
                            assert(assoc_map(oldk).dom().contains(t));
                        }
                    }
                }
            } else {
                proof {
                    assert forall|t: u128| #[trigger]
                        assoc_map(kept@).dom().contains(t) <==> (exists|i: int|
                            n - 1 <= i < orig.len() && (#[trigger] orig[i]).0 == t && kept_by_sweep(
                                orig[i],
                                now,
                                expiry,
                                busy@,
                            )) by {
                        if exists|i: int|
                            n - 1 <= i < orig.len() && (#[trigger] orig[i]).0 == t && kept_by_sweep(
                                orig[i],
                                now,
                                expiry,
                                busy@,
                            ) {
                            let w = choose|i: int|
                                n - 1 <= i < orig.len() && (#[trigger] orig[i]).0 == t
                                    && kept_by_sweep(orig[i], now, expiry, busy@);
                            if w == n - 1 {
                                assert(!kept_by_sweep(orig[n - 1], now, expiry, busy@));
                            } else {
                                assert(n <= w < orig.len());
                            }
                        }
                    }
                }
            }
        }
        proof {
            assert(self.entries@.len() == 0);
        }
        self.entries = kept;
        proof {
            let m = assoc_map(kept@);
            assert forall|t: u128| #[trigger]
                m.dom().contains(t) <==> (assoc_map(orig).dom().contains(t) && (busy@.contains(t)
                    || !expired(assoc_map(orig)[t].last_access, now, expiry))) by {
                if m.dom().contains(t) {
                    let i = choose|i: int|
                        0 <= i < orig.len() && orig[i].0 == t && kept_by_sweep(
                            orig[i],
                            now,
                            expiry,
                            busy@,
                        );
                    lemma_assoc_map_at(orig, i);
                }
                if assoc_map(orig).dom().contains(t) {
                    let i = choose|i: int| 0 <= i < orig.len() && orig[i].0 == t;
                    lemma_assoc_map_at(orig, i);
                    if busy@.contains(t) || !expired(assoc_map(orig)[t].last_access, now, expiry) {
                        assert(kept_by_sweep(orig[i], now, expiry, busy@));
                        assert(0 <= i < orig.len() && orig[i].0 == t && kept_by_sweep(
                            orig[i],
                            now,
                            expiry,
                            busy@,
                        ));
                    }
                }
            }
        }
    }
}

} // verus!
