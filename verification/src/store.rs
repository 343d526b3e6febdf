//! Credential store: a durable mapping from email to user identity and
//! password credential, with point lookup and atomic create/update.

use vstd::prelude::*;
use vstd::string::*;
use crate::error::Error;

verus! {

/// One stored user row: an opaque unique identifier, the unique email, and the
/// one-way-hashed password credential.
#[derive(Debug)]
pub struct UserRecord {
    pub id: u64,
    pub email: String,
    pub credential: String,
}

/// The first row of a lookup result, or `UserNotFound` for an empty one; the
/// decision a remote lookup shares with the in-memory one.
pub fn first_user_or_not_found(rows: Vec<UserRecord>) -> (r: Result<UserRecord, Error>)
    ensures
        rows@.len() == 0 ==> r == Err::<UserRecord, Error>(Error::UserNotFound),
        rows@.len() > 0 ==> (r matches Ok(u) && u == rows@[0]),
{
    let mut rows = rows;
    if rows.len() == 0 {
        Err(Error::UserNotFound)
    } else {
        Ok(rows.remove(0))
    }
}

/// Where `e` sits in `v`, if some row has email `e`.
pub open spec fn email_index_of(v: Seq<UserRecord>, e: Seq<char>) -> int {
    choose|i: int| 0 <= i < v.len() && (#[trigger] v[i]).email@ == e
}

/// The mapping a row sequence denotes: email to (id, credential).
pub open spec fn users_map_of(v: Seq<UserRecord>) -> Map<Seq<char>, (u64, Seq<char>)> {
    Map::new(
        |e: Seq<char>| exists|i: int| 0 <= i < v.len() && (#[trigger] v[i]).email@ == e,
        |e: Seq<char>|
            (v[email_index_of(v, e)].id, v[email_index_of(v, e)].credential@),
    )
}

pub open spec fn emails_unique(v: Seq<UserRecord>) -> bool {
    forall|i: int, j: int|
        0 <= i < j < v.len() ==> (#[trigger] v[i]).email@ != (#[trigger] v[j]).email@
}

pub proof fn lemma_map_at(v: Seq<UserRecord>, i: int)
    requires
        emails_unique(v),
        0 <= i < v.len(),
    ensures
        users_map_of(v).dom().contains(v[i].email@),
        users_map_of(v)[v[i].email@] == (v[i].id, v[i].credential@),
{
    let e = v[i].email@;
    assert(0 <= i < v.len() && v[i].email@ == e);
    let j = email_index_of(v, e);
    assert(0 <= j < v.len() && v[j].email@ == e);
    if i < j {
        assert(v[i].email@ != v[j].email@);
    }
    if j < i {
        assert(v[j].email@ != v[i].email@);
    }
}

pub proof fn lemma_map_no_email(v: Seq<UserRecord>, e: Seq<char>)
    requires
        forall|i: int| 0 <= i < v.len() ==> (#[trigger] v[i]).email@ != e,
    ensures
        !users_map_of(v).dom().contains(e),
{
}

pub proof fn lemma_map_push(v: Seq<UserRecord>, rec: UserRecord)
    requires
        emails_unique(v),
        forall|i: int| 0 <= i < v.len() ==> (#[trigger] v[i]).email@ != rec.email@,
    ensures
        users_map_of(v.push(rec)) == users_map_of(v).insert(
            rec.email@,
            (rec.id, rec.credential@),
        ),
        emails_unique(v.push(rec)),
{
    let vp = v.push(rec);
    let vm = users_map_of(vp);
    let im = users_map_of(v).insert(rec.email@, (rec.id, rec.credential@));
    assert(vp[v.len() as int] == rec);
    assert forall|e: Seq<char>| vm.dom().contains(e) implies im.dom().contains(e) by {
        let i = choose|i: int| 0 <= i < vp.len() && (#[trigger] vp[i]).email@ == e;
        if i < v.len() {
            assert(v[i].email@ == e);
        } else {
            assert(e == rec.email@);
        }
    }
    assert forall|e: Seq<char>| im.dom().contains(e) implies vm.dom().contains(e) by {
        if e == rec.email@ {
            assert(vp[v.len() as int].email@ == e);
        } else {
            let i = choose|i: int| 0 <= i < v.len() && (#[trigger] v[i]).email@ == e;
            assert(vp[i].email@ == e);
        }
    }
    assert forall|e: Seq<char>| vm.dom().contains(e) implies vm[e] == im[e] by {
        let j = email_index_of(vp, e);
        assert(0 <= j < vp.len() && vp[j].email@ == e);
        if e == rec.email@ {
            if j < v.len() {
                assert(v[j].email@ == rec.email@);
                assert(false);
            }
            assert(vm[e] == (rec.id, rec.credential@));
        } else {
            assert(j < v.len());
            assert(v[j].email@ == e);
            lemma_map_at(v, j);
            let j2 = email_index_of(v, e);
            assert(0 <= j2 < v.len() && v[j2].email@ == e);
            if j < j2 {
                assert(v[j].email@ != v[j2].email@);
            }
            if j2 < j {
                assert(v[j2].email@ != v[j].email@);
            }
        }
    }
    assert(vm =~= im);
}

pub proof fn lemma_map_update(v: Seq<UserRecord>, i: int, rec: UserRecord)
    requires
        emails_unique(v),
        0 <= i < v.len(),
        rec.email@ == v[i].email@,
    ensures
        users_map_of(v.update(i, rec)) == users_map_of(v).insert(
            rec.email@,
            (rec.id, rec.credential@),
        ),
        emails_unique(v.update(i, rec)),
{
    let vu = v.update(i, rec);
    let vm = users_map_of(vu);
    let im = users_map_of(v).insert(rec.email@, (rec.id, rec.credential@));
    assert forall|a: int, b: int| 0 <= a < b < vu.len() implies (#[trigger] vu[a]).email@ != (
    #[trigger] vu[b]).email@ by {
        assert(v[a].email@ != v[b].email@);
        assert(vu[a].email@ == if a == i { rec.email@ } else { v[a].email@ });
        assert(vu[b].email@ == if b == i { rec.email@ } else { v[b].email@ });
    }
    assert forall|e: Seq<char>| vm.dom().contains(e) implies im.dom().contains(e) by {
        let j = choose|j: int| 0 <= j < vu.len() && (#[trigger] vu[j]).email@ == e;
        if j == i {
            assert(v[i].email@ == rec.email@);
        } else {
            assert(v[j].email@ == e);
        }
    }
    assert forall|e: Seq<char>| im.dom().contains(e) implies vm.dom().contains(e) by {
        if e == rec.email@ {
            assert(vu[i].email@ == e);
        } else {
            let j = choose|j: int| 0 <= j < v.len() && (#[trigger] v[j]).email@ == e;
            assert(j != i);
            assert(vu[j].email@ == e);
        }
    }
    assert forall|e: Seq<char>| vm.dom().contains(e) implies vm[e] == im[e] by {
        let j = email_index_of(vu, e);
        assert(0 <= j < vu.len() && vu[j].email@ == e);
        if e == rec.email@ {
            if j != i {
                assert(vu[j].email@ != vu[i].email@);
                assert(false);
            }
        } else {
            assert(j != i);
            assert(v[j].email@ == e);
            lemma_map_at(v, j);
            let j2 = email_index_of(v, e);
            if j < j2 {
                assert(v[j].email@ != v[j2].email@);
            }
            if j2 < j {
                assert(v[j2].email@ != v[j].email@);
            }
        }
    }
    assert(vm =~= im);
}

/// The storage capability the authenticator is written against: lookup by
/// email, atomic create, and credential update.
///
/// `users()` is the mapping the store currently holds; `reliable()` says
/// whether the store can fail with the retryable `StoreUnavailable` kind (a
/// remote store can; the in-memory one cannot).
pub trait AuthStorage: Sized {
    spec fn users(&self) -> Map<Seq<char>, (u64, Seq<char>)>;

    spec fn reliable(&self) -> bool;

    fn get_user_by_email(&self, email: &str) -> (r: Result<UserRecord, Error>)
        ensures
            (match r {
                Ok(u) => {
                    &&& self.users().dom().contains(email@)
                    &&& u.email@ == email@
                    &&& u.id == self.users()[email@].0
                    &&& u.credential@ == self.users()[email@].1
                },
                Err(e) => {
                    &&& e == Error::UserNotFound || e == Error::StoreUnavailable
                    &&& e == Error::UserNotFound ==> !self.users().dom().contains(email@)
                },
            }),
            self.reliable() ==> (r is Ok <==> self.users().dom().contains(email@)),
            self.reliable() ==> (r matches Err(e) ==> e != Error::StoreUnavailable),
    ;

    fn create_user(&mut self, email: &str, credential: &str) -> (r: Result<(), Error>)
        ensures
            (match r {
                Ok(()) => {
                    &&& !old(self).users().dom().contains(email@)
                    &&& exists|id: u64|
                        final(self).users() == #[trigger] old(self).users().insert(
                            email@,
                            (id, credential@),
                        ) && (forall|e: Seq<char>|
                            #[trigger] old(self).users().dom().contains(e) ==> old(
                                self,
                            ).users()[e].0 != id)
                },
                Err(e) => {
                    &&& final(self).users() == old(self).users()
                    &&& e == Error::DuplicateEmail || e == Error::StoreUnavailable
                    &&& e == Error::DuplicateEmail ==> old(self).users().dom().contains(email@)
                },
            }),
            final(self).reliable() == old(self).reliable(),
            old(self).reliable() ==> (r is Ok <==> !old(self).users().dom().contains(email@)),
            old(self).reliable() ==> (r matches Err(e) ==> e != Error::StoreUnavailable),
    ;

    fn set_user_password(&mut self, email: &str, credential: &str) -> (r: Result<(), Error>)
        ensures
            (match r {
                Ok(()) => {
                    &&& old(self).users().dom().contains(email@)
                    &&& final(self).users() == old(self).users().insert(
                        email@,
                        (old(self).users()[email@].0, credential@),
                    )
                },
                Err(e) => {
                    &&& final(self).users() == old(self).users()
                    &&& e == Error::UserNotFound || e == Error::StoreUnavailable
                    &&& e == Error::UserNotFound ==> !old(self).users().dom().contains(email@)
                },
            }),
            final(self).reliable() == old(self).reliable(),
            old(self).reliable() ==> (r is Ok <==> old(self).users().dom().contains(email@)),
            old(self).reliable() ==> (r matches Err(e) ==> e != Error::StoreUnavailable),
    ;
}

/// In-memory store: rows in insertion order, emails unique, ids equal to row
/// positions. It never fails with a retryable kind.
pub struct MemoryAuthStorage {
    users: Vec<UserRecord>,
}

impl MemoryAuthStorage {
    #[verifier::type_invariant]
    closed spec fn inv(self) -> bool {
        &&& emails_unique(self.users@)
        &&& forall|i: int|
            0 <= i < self.users@.len() ==> (#[trigger] self.users@[i]).id == i as u64
    }

    pub fn new() -> (r: Self)
        ensures
            r.users() == Map::<Seq<char>, (u64, Seq<char>)>::empty(),
            r.reliable(),
    {
        let r = MemoryAuthStorage { users: Vec::new() };
        proof {
            assert(r.users() =~= Map::<Seq<char>, (u64, Seq<char>)>::empty());
        }
        r
    }

    /// Index of the row holding `email`, if any.
    fn find(&self, email: &str) -> (r: Option<usize>)
        ensures
            (match r {
                Some(i) => i < self.users@.len() && self.users@[i as int].email@ == email@,
                None => forall|i: int|
                    0 <= i < self.users@.len() ==> (#[trigger] self.users@[i]).email@ != email@,
            }),
    {
        let n = self.users.len();
        let mut i: usize = 0;
        while i < n
            invariant
                n == self.users@.len(),
                i <= n,
                forall|j: int| 0 <= j < i ==> (#[trigger] self.users@[j]).email@ != email@,
            decreases n - i,
        {
            if crate::strutil::str_eq(self.users[i].email.as_str(), email) {
                return Some(i);
            }
            i = i + 1;
        }
        None
    }
}

impl AuthStorage for MemoryAuthStorage {
    closed spec fn users(&self) -> Map<Seq<char>, (u64, Seq<char>)> {
        users_map_of(self.users@)
    }

    closed spec fn reliable(&self) -> bool {
        true
    }

    fn get_user_by_email(&self, email: &str) -> (r: Result<UserRecord, Error>) {
        proof {
            use_type_invariant(self);
        }
        match self.find(email) {
            Some(i) => {
                proof {
                    lemma_map_at(self.users@, i as int);
                }
                let u = &self.users[i];
                Ok(UserRecord { id: u.id, email: u.email.clone(), credential: u.credential.clone() })
            },
            None => {
                proof {
                    lemma_map_no_email(self.users@, email@);
                }
                Err(Error::UserNotFound)
            },
        }
    }

    fn create_user(&mut self, email: &str, credential: &str) -> (r: Result<(), Error>) {
        proof {
            use_type_invariant(&*self);
        }
        match self.find(email) {
            Some(i) => {
                proof {
                    lemma_map_at(self.users@, i as int);
                }
                Err(Error::DuplicateEmail)
            },
            None => {
                let ghost oldv = self.users@;
                let id: u64 = self.users.len() as u64;
                let rec = UserRecord {
                    id,
                    email: String::from_str(email),
                    credential: String::from_str(credential),
                };
                proof {
                    lemma_map_no_email(oldv, email@);
                    lemma_map_push(oldv, rec);
                }
                let mut v: Vec<UserRecord> = Vec::new();
                core::mem::swap(&mut self.users, &mut v);
                v.push(rec);
                self.users = v;
                proof {
                    assert forall|e: Seq<char>|
                        #[trigger] users_map_of(oldv).dom().contains(e) implies users_map_of(
                        oldv,
                    )[e].0 != id by {
                        let j = email_index_of(oldv, e);
                        assert(0 <= j < oldv.len() && oldv[j].email@ == e);
                        assert(oldv[j].id == j as u64);
                    }
                }
                Ok(())
            },
        }
    }

    fn set_user_password(&mut self, email: &str, credential: &str) -> (r: Result<(), Error>) {
        proof {
            use_type_invariant(&*self);
        }
        match self.find(email) {
            Some(i) => {
                let ghost oldv = self.users@;
                proof {
                    lemma_map_at(oldv, i as int);
                }
                let rec = UserRecord {
                    id: self.users[i].id,
                    email: String::from_str(email),
                    credential: String::from_str(credential),
                };
                proof {
                    lemma_map_update(oldv, i as int, rec);
                }
                let mut v: Vec<UserRecord> = Vec::new();
                core::mem::swap(&mut self.users, &mut v);
                let _ = v.remove(i);
                v.insert(i, rec);
                self.users = v;
                proof {
                    assert(self.users@ =~= oldv.update(i as int, rec));
                }
                Ok(())
            },
            None => {
                proof {
                    lemma_map_no_email(self.users@, email@);
                }
                Err(Error::UserNotFound)
            },
        }
    }
}

} // verus!
