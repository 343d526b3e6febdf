//! Revocation cache: explicit early invalidation of otherwise-still-valid
//! tokens, keyed by subject and issuance time.

use vstd::prelude::*;

verus! {

/// One revocation: the token identity (subject and issuance time) and the
/// token's expiry, after which the record may be pruned.
#[derive(Clone, Copy, Debug, PartialEq, Eq, Structural)]
pub struct RevocationRecord {
    pub subject: u64,
    pub issued_at: u64,
    pub expires_at: u64,
}

/// Fast-lookup store of revocations.
pub struct RevocationCache {
    records: Vec<RevocationRecord>,
}

impl RevocationCache {
    pub closed spec fn records(&self) -> Seq<RevocationRecord> {
        self.records@
    }

    /// The set of revoked token identities.
    pub open spec fn revoked(&self) -> Set<(u64, u64)> {
        Set::new(
            |p: (u64, u64)|
                exists|i: int|
                    0 <= i < self.records().len() && (#[trigger] self.records()[i]).subject == p.0
                        && self.records()[i].issued_at == p.1,
        )
    }

    pub fn new() -> (r: Self)
        ensures
            r.records() == Seq::<RevocationRecord>::empty(),
            r.revoked() == Set::<(u64, u64)>::empty(),
    {
        let r = RevocationCache { records: Vec::new() };
        proof {
            assert(r.revoked() =~= Set::<(u64, u64)>::empty());
        }
        r
    }

    /// Records the revocation of the token `(subject, issued_at)`; the record
    /// carries the token's expiry so the cache can later self-prune.
    pub fn revoke(&mut self, subject: u64, issued_at: u64, expires_at: u64)
        ensures
            final(self).records() == old(self).records().push(
                RevocationRecord { subject, issued_at, expires_at },
            ),
            final(self).revoked() == old(self).revoked().insert((subject, issued_at)),
    {
        let ghost oldr = self.records@;
        self.records.push(RevocationRecord { subject, issued_at, expires_at });
        proof {
            let vs = self.revoked();
            let is = old(self).revoked().insert((subject, issued_at));
            assert forall|p: (u64, u64)| vs.contains(p) implies is.contains(p) by {
                let i = choose|i: int|
                    0 <= i < self.records@.len() && (#[trigger] self.records@[i]).subject == p.0
                        && self.records@[i].issued_at == p.1;
                if i < oldr.len() {
                    assert(oldr[i].subject == p.0 && oldr[i].issued_at == p.1);
                }
            }
            assert forall|p: (u64, u64)| is.contains(p) implies vs.contains(p) by {
                if p == (subject, issued_at) {
                    assert(self.records@[oldr.len() as int].subject == p.0);
                } else {
                    let i = choose|i: int|
                        0 <= i < oldr.len() && (#[trigger] oldr[i]).subject == p.0
                            && oldr[i].issued_at == p.1;
                    assert(self.records@[i].subject == p.0 && self.records@[i].issued_at == p.1);
                }
            }
            assert(vs =~= is);
        }
    }

    /// Whether the token `(subject, issued_at)` has been revoked.
    pub fn is_revoked(&self, subject: u64, issued_at: u64) -> (r: bool)
        ensures
            r == self.revoked().contains((subject, issued_at)),
    {
        let n = self.records.len();
        let mut i: usize = 0;
        while i < n
            invariant
                n == self.records@.len(),
                i <= n,
                forall|j: int|
                    0 <= j < i ==> !((#[trigger] self.records@[j]).subject == subject
                        && self.records@[j].issued_at == issued_at),
            decreases n - i,
        {
            let rec = &self.records[i];
            if rec.subject == subject && rec.issued_at == issued_at {
                return true;
            }
            i = i + 1;
        }
        false
    }

    /// Drops every record whose token has already expired at `now`; tokens
    /// revoked until their own expiry need no record past it. Pruning never
    /// adds a revocation.
    pub fn prune(&mut self, now: u64)
        ensures
            final(self).records() == old(self).records().filter(
                |r: RevocationRecord| r.expires_at > now,
            ),
            forall|p: (u64, u64)|
                final(self).revoked().contains(p) ==> old(self).revoked().contains(p),
    {
        let n = self.records.len();
        let mut kept: Vec<RevocationRecord> = Vec::new();
        let mut i: usize = 0;
        while i < n
            invariant
                n == self.records@.len(),
                i <= n,
                kept@ == self.records@.take(i as int).filter(
                    |r: RevocationRecord| r.expires_at > now,
                ),
            decreases n - i,
        {
            let rec = self.records[i];
            proof {
                reveal(Seq::filter);
                assert(self.records@.take(i + 1).drop_last() =~= self.records@.take(i as int));
                assert(self.records@.take(i + 1).last() == rec);
            }
            if rec.expires_at > now {
                kept.push(rec);
            }
            i = i + 1;
        }
        proof {
            assert(self.records@.take(n as int) =~= self.records@);
        }
        self.records = kept;
        proof {
            let oldr = old(self).records();
            let newr = self.records@;
            assert forall|p: (u64, u64)| self.revoked().contains(p) implies old(
                self,
            ).revoked().contains(p) by {
                let i = choose|i: int|
                    0 <= i < newr.len() && (#[trigger] newr[i]).subject == p.0 && newr[i].issued_at
                        == p.1;
                lemma_filter_member(oldr, |r: RevocationRecord| r.expires_at > now, i);
                let j = choose|j: int| 0 <= j < oldr.len() && oldr[j] == newr[i];
                assert(oldr[j].subject == p.0 && oldr[j].issued_at == p.1);
            }
        }
    }
}

/// Every element of a filtered sequence comes from the sequence itself.
proof fn lemma_filter_member(
    s: Seq<RevocationRecord>,
    pred: spec_fn(RevocationRecord) -> bool,
    i: int,
)
    requires
        0 <= i < s.filter(pred).len(),
    ensures
        s.contains(s.filter(pred)[i]),
    decreases s.len(),
{
    reveal(Seq::filter);
    if s.len() > 0 {
        let out = s.filter(pred);
        let sub = s.drop_last().filter(pred);
        if i < sub.len() {
            lemma_filter_member(s.drop_last(), pred, i);
            let j = choose|j: int| 0 <= j < s.drop_last().len() && s.drop_last()[j] == sub[i];
            assert(s[j] == sub[i]);
        } else {
            assert(out[i] == s.last());
            assert(s[s.len() - 1] == s.last());
        }
    }
}

} // verus!
