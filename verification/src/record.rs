//! The per-visitor session record: a typed attribute store plus the
//! record's last-access time.
//!
//! The attribute store keeps at most one value per attribute kind.  Kinds
//! stand for the static types of the stored values; each is named by a
//! stable tag, as the store-by-type design reduces type identity to a
//! stable key.  Insertion overwrites any prior value of the same kind and
//! there is no ordering across kinds, so the store's model is a map from
//! tag to value.

use vstd::prelude::*;

use crate::assoc::assoc_map;
use crate::assoc::distinct_keys;
use crate::assoc::lemma_assoc_map_absent;
use crate::assoc::lemma_assoc_map_at;
use crate::assoc::lemma_assoc_push;
use crate::assoc::lemma_assoc_update;

verus! {

/// Tag of the proof-key-exchange verifier stored during login initiation.
pub const ATTR_PKCE_VERIFIER: u64 = 1;

/// Tag of the anti-forgery secret stored during login initiation.
pub const ATTR_CSRF_SECRET: u64 = 2;

/// Tag of the optional address to return to after login.
pub const ATTR_RETURN_TO: u64 = 3;

/// Tag of the identity provider's access secret obtained by the callback.
pub const ATTR_ACCESS_SECRET: u64 = 4;

/// The mathematical model of a session record.
pub struct RecordModel {
    /// One value per attribute kind.
    pub attrs: Map<u64, Seq<char>>,
    /// When the record was last successfully resolved or touched.
    pub last_access: u64,
}

/// The model of a newly provisioned record: no attributes, accessed now.
pub open spec fn fresh_record(now: u64) -> RecordModel {
    RecordModel { attrs: Map::empty(), last_access: now }
}

/// The model of a record after a successful access at `now`: same
/// attributes, new last-access time.
pub open spec fn touched(m: RecordModel, now: u64) -> RecordModel {
    RecordModel { attrs: m.attrs, last_access: now }
}

/// One visitor's session record.
pub struct SessionData {
    attrs: Vec<(u64, String)>,
    last_access: u64,
}

impl View for SessionData {
    type V = RecordModel;

    closed spec fn view(&self) -> RecordModel {
        RecordModel { attrs: assoc_map(self.attrs@), last_access: self.last_access }
    }
}

impl SessionData {
    /// The record's internal invariant: at most one live value per
    /// attribute kind.
    pub closed spec fn wf(self) -> bool {
        distinct_keys(self.attrs@)
    }

    /// A fresh record: no attributes, last accessed now.
    pub fn new(now: u64) -> (r: SessionData)
        ensures
            r.wf(),
            r@.attrs == Map::<u64, Seq<char>>::empty(),
            r@.last_access == now,
    {
        let r = SessionData { attrs: Vec::new(), last_access: now };
        proof {
            assert(r@.attrs =~= Map::<u64, Seq<char>>::empty());
        }
        r
    }

    /// When this record was last accessed.
    pub fn last_access(&self) -> (r: u64)
        ensures
            r == self@.last_access,
    {
        self.last_access
    }

    /// Marks the record as accessed now.  Called on every successful
    /// resolution; the attributes are untouched.
    pub fn touch(&mut self, now: u64)
        requires
            old(self).wf(),
        ensures
            final(self).wf(),
            final(self)@.attrs == old(self)@.attrs,
            final(self)@.last_access == now,
    {
        self.last_access = now;
    }

    /// Stores the single value of the given attribute kind, overwriting
    /// any prior value of that kind: last write wins.
    pub fn set(&mut self, tag: u64, value: String)
        requires
            old(self).wf(),
        ensures
            final(self).wf(),
            final(self)@.attrs == old(self)@.attrs.insert(tag, value@),
            final(self)@.last_access == old(self)@.last_access,
    {
        let mut i: usize = 0;
        while i < self.attrs.len()
            invariant
                0 <= i <= self.attrs@.len(),
                old(self).wf(),
                self.attrs@ == old(self).attrs@,
                self.last_access == old(self).last_access,
                forall|j: int| 0 <= j < i ==> (#[trigger] old(self).attrs@[j]).0 != tag,
            decreases self.attrs@.len() - i,
        {
            let ghost olds = old(self).attrs@;
            if self.attrs[i].0 == tag {
                let slot = &mut self.attrs[i];
                slot.1 = value;
                proof {
                    let news = self.attrs@;
                    assert(news == olds.update(i as int, (tag, value)));
                    assert forall|j: int| 0 <= j < news.len() implies (#[trigger] news[j]).0
                        == olds[j].0 by {}
                    assert(distinct_keys(news));
                    lemma_assoc_update(olds, news, i as int, tag);
                }
                return;
            }
            i = i + 1;
        }
        let ghost olds = old(self).attrs@;
        self.attrs.push((tag, value));
        proof {
            let news = self.attrs@;
            assert(news.drop_last() =~= olds);
            assert(distinct_keys(news)) by {
                assert(forall|j: int| 0 <= j < news.len() - 1 ==> news[j] == olds[j]);
            }
            lemma_assoc_push(olds, news, tag);
        }
    }

    /// Reads the single value of the given attribute kind, if one is
    /// present; absence is not an error at this level.
    pub fn get<'a>(&'a self, tag: u64) -> (r: Option<&'a String>)
        requires
            self.wf(),
        ensures
            match r {
                Some(v) => self@.attrs.dom().contains(tag) && v@ == self@.attrs[tag],
                None => !self@.attrs.dom().contains(tag),
            },
    {
        let mut i: usize = 0;
        while i < self.attrs.len()
            invariant
                0 <= i <= self.attrs@.len(),
                self.wf(),
                forall|j: int| 0 <= j < i ==> (#[trigger] self.attrs@[j]).0 != tag,
            decreases self.attrs@.len() - i,
        {
            if self.attrs[i].0 == tag {
                proof {
                    lemma_assoc_map_at(self.attrs@, i as int);
                }
                return Some(&self.attrs[i].1);
            }
            i = i + 1;
        }
        proof {
            lemma_assoc_map_absent(self.attrs@, tag);
        }
        None
    }
}

/// The attribute map after a sequence of writes, applied oldest first.
pub open spec fn apply_writes(m: Map<u64, Seq<char>>, w: Seq<(u64, Seq<char>)>) -> Map<
    u64,
    Seq<char>,
>
    decreases w.len(),
{
    if w.len() == 0 {
        m
    } else {
        apply_writes(m, w.drop_last()).insert(w.last().0, w.last().1)
    }
}

/// Last write wins: after any sequence of writes to one record, the store
/// holds, for each attribute kind, exactly the value of the latest write
/// of that kind.  Each `set` call's contract is an `insert` on the model,
/// so a request's writes in real-time order are `apply_writes`.
pub proof fn lemma_last_write_wins(
    m: Map<u64, Seq<char>>,
    w: Seq<(u64, Seq<char>)>,
    i: int,
    tag: u64,
)
    requires
        0 <= i < w.len(),
        w[i].0 == tag,
        forall|j: int| i < j < w.len() ==> (#[trigger] w[j]).0 != tag,
    ensures
        apply_writes(m, w).dom().contains(tag),
        apply_writes(m, w)[tag] == w[i].1,
    decreases w.len(),
{
    if i == w.len() - 1 {
    } else {
        lemma_last_write_wins(m, w.drop_last(), i, tag);
        assert(w.last().0 != tag);
    }
}

/// A kind never written keeps its original value.
pub proof fn lemma_unwritten_kind_unchanged(
    m: Map<u64, Seq<char>>,
    w: Seq<(u64, Seq<char>)>,
    tag: u64,
)
    requires
        forall|j: int| 0 <= j < w.len() ==> (#[trigger] w[j]).0 != tag,
    ensures
        apply_writes(m, w).dom().contains(tag) <==> m.dom().contains(tag),
        m.dom().contains(tag) ==> apply_writes(m, w)[tag] == m[tag],
    decreases w.len(),
{
    if w.len() > 0 {
        lemma_unwritten_kind_unchanged(m, w.drop_last(), tag);
    }
}

} // verus!
