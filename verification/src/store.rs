//! The record store: create, update and delete over addressed records, and
//! the receipt-gated vote casting built on top of them.
//!
//! The store is modelled as a map from addresses to record values.  Each
//! operation's contract equates the store after the call with a pure spec
//! transition on that map, so that every property of the operations can be
//! stated and proved on the mathematical model alone.  Every operation is
//! all-or-nothing: a failure leaves the store exactly as it was, and all
//! validation runs before any write.  Timestamps are handed in by the host
//! runtime's trusted clock; the store never invents one.

use vstd::prelude::*;

verus! {

use crate::address::Address;
use crate::address::Namespace;
use crate::address::copy_bytes;
use crate::address::component_views;
use crate::address::todo_address;
use crate::address::vote_address;
use crate::address::receipt_address;
use crate::address::lemma_receipt_address_differs;
use crate::auth::authorize;
use crate::error::Error;
use crate::records::Identity;
use crate::records::Record;
use crate::records::RecordModel;
use crate::records::TodoState;
use crate::records::TodoStateModel;
use crate::records::TodoPatch;
use crate::records::TodoPatchModel;
use crate::records::VoteState;
use crate::records::VoteStateModel;
use crate::records::VotePatch;
use crate::records::VotePatchModel;
use crate::records::VoteReceipt;
use crate::records::todo_fields_fit;
use crate::records::todo_patch_fits;
use crate::records::vote_patch_fits;
use crate::records::todo_patched;
use crate::records::vote_patched;
use crate::records::TITLE_MAX_BYTES;
use crate::records::DESCRIPTION_MAX_BYTES;
use crate::records::NAME_MAX_BYTES;
use vstd::pervasive::unreached;

/// What a create yields: the address now occupied, and the store after.
pub open spec fn create_todo_spec(
    m: Map<Seq<u8>, RecordModel>,
    owner: Seq<u8>,
    title: Seq<u8>,
    description: Seq<u8>,
    now: i64,
) -> Result<(Seq<u8>, Map<Seq<u8>, RecordModel>), Error> {
    let a = todo_address(owner, title);
    if m.dom().contains(a) {
        Err(Error::AlreadyExists)
    } else if !todo_fields_fit(title, description) {
        Err(Error::FieldTooLong)
    } else {
        Ok(
            (
                a,
                m.insert(
                    a,
                    RecordModel::Todo(
                        TodoStateModel {
                            owner,
                            title,
                            description,
                            is_active: true,
                            created_on: now,
                            modified_on: now,
                        },
                    ),
                ),
            ),
        )
    }
}

/// The store after a sparse patch of the todo at `a`, or why it failed:
/// absence, then authorization, then budgets, are checked in that order,
/// before anything is written.
pub open spec fn update_todo_spec(
    m: Map<Seq<u8>, RecordModel>,
    a: Seq<u8>,
    proof_id: Seq<u8>,
    p: TodoPatchModel,
    now: i64,
) -> Result<Map<Seq<u8>, RecordModel>, Error> {
    if !m.dom().contains(a) {
        Err(Error::NotFound)
    } else {
        match m[a] {
            RecordModel::Todo(t) => {
                if proof_id != t.owner {
                    Err(Error::Unauthorized)
                } else if !todo_patch_fits(p) {
                    Err(Error::FieldTooLong)
                } else {
                    Ok(m.insert(a, RecordModel::Todo(todo_patched(t, p, now))))
                }
            },
            _ => Err(Error::NotFound),
        }
    }
}

/// The store after deleting the todo at `a`: the address holds nothing any
/// more; the host runtime refunds the storage deposit to the owner.
pub open spec fn delete_todo_spec(
    m: Map<Seq<u8>, RecordModel>,
    a: Seq<u8>,
    proof_id: Seq<u8>,
) -> Result<Map<Seq<u8>, RecordModel>, Error> {
    if !m.dom().contains(a) {
        Err(Error::NotFound)
    } else {
        match m[a] {
            RecordModel::Todo(t) => {
                if proof_id != t.owner {
                    Err(Error::Unauthorized)
                } else {
                    Ok(m.remove(a))
                }
            },
            _ => Err(Error::NotFound),
        }
    }
}

/// What creating a vote record yields; the count starts at zero and the
/// two timestamps coincide.
pub open spec fn create_vote_spec(
    m: Map<Seq<u8>, RecordModel>,
    creator: Seq<u8>,
    name: Seq<u8>,
    now: i64,
) -> Result<(Seq<u8>, Map<Seq<u8>, RecordModel>), Error> {
    let a = vote_address(creator, name);
    if m.dom().contains(a) {
        Err(Error::AlreadyExists)
    } else if name.len() > NAME_MAX_BYTES {
        Err(Error::FieldTooLong)
    } else {
        Ok(
            (
                a,
                m.insert(
                    a,
                    RecordModel::Vote(
                        VoteStateModel {
                            owner: creator,
                            name,
                            count: 0,
                            created_on: now,
                            modified_on: now,
                        },
                    ),
                ),
            ),
        )
    }
}

/// The store after a sparse patch of the vote at `a`; the count is never
/// touched by an update.
pub open spec fn update_vote_spec(
    m: Map<Seq<u8>, RecordModel>,
    a: Seq<u8>,
    proof_id: Seq<u8>,
    p: VotePatchModel,
    now: i64,
) -> Result<Map<Seq<u8>, RecordModel>, Error> {
    if !m.dom().contains(a) {
        Err(Error::NotFound)
    } else {
        match m[a] {
            RecordModel::Vote(v) => {
                if proof_id != v.owner {
                    Err(Error::Unauthorized)
                } else if !vote_patch_fits(p) {
                    Err(Error::FieldTooLong)
                } else {
                    Ok(m.insert(a, RecordModel::Vote(vote_patched(v, p, now))))
                }
            },
            _ => Err(Error::NotFound),
        }
    }
}

/// The store after deleting the vote at `a`.  Receipts of the vote are not
/// deleted: they stay as inert historical markers.
pub open spec fn delete_vote_spec(
    m: Map<Seq<u8>, RecordModel>,
    a: Seq<u8>,
    proof_id: Seq<u8>,
) -> Result<Map<Seq<u8>, RecordModel>, Error> {
    if !m.dom().contains(a) {
        Err(Error::NotFound)
    } else {
        match m[a] {
            RecordModel::Vote(v) => {
                if proof_id != v.owner {
                    Err(Error::Unauthorized)
                } else {
                    Ok(m.remove(a))
                }
            },
            _ => Err(Error::NotFound),
        }
    }
}

/// The store after `voter` casts on the vote at `a`.  The receipt is
/// created before the count moves; an occupied receipt address means this
/// identity has already been counted, and the vote record stays untouched.
pub open spec fn cast_vote_spec(
    m: Map<Seq<u8>, RecordModel>,
    a: Seq<u8>,
    voter: Seq<u8>,
    now: i64,
) -> Result<Map<Seq<u8>, RecordModel>, Error> {
    if !m.dom().contains(a) {
        Err(Error::NotFound)
    } else {
        match m[a] {
            RecordModel::Vote(v) => {
                let ra = receipt_address(a, voter);
                if m.dom().contains(ra) {
                    Err(Error::DuplicateVote)
                } else {
                    Ok(
                        m.insert(ra, RecordModel::Receipt).insert(
                            a,
                            RecordModel::Vote(
                                VoteStateModel {
                                    owner: v.owner,
                                    name: v.name,
                                    count: v.count + 1,
                                    created_on: v.created_on,
                                    modified_on: now,
                                },
                            ),
                        ),
                    )
                }
            },
            _ => Err(Error::NotFound),
        }
    }
}

/// The record value found at `key`, searching the entries from the end.
pub open spec fn find_at(s: Seq<(Address, Record)>, key: Seq<u8>) -> Option<RecordModel>
    decreases s.len(),
{
    if s.len() == 0 {
        None
    } else if s.last().0@ == key {
        Some(s.last().1@)
    } else {
        find_at(s.drop_last(), key)
    }
}

/// How many receipts the entries hold.  Receipts are never removed, so
/// this number never shrinks, and it bounds every vote's count.
pub open spec fn receipt_count(s: Seq<(Address, Record)>) -> nat
    decreases s.len(),
{
    if s.len() == 0 {
        0
    } else {
        receipt_count(s.drop_last()) + (if s.last().1@ is Receipt {
            1nat
        } else {
            0nat
        })
    }
}

/// The entries seen as a map from address to record value.
pub open spec fn map_of(s: Seq<(Address, Record)>) -> Map<Seq<u8>, RecordModel> {
    Map::new(|k: Seq<u8>| find_at(s, k) is Some, |k: Seq<u8>| find_at(s, k)->0)
}

/// No two entries share an address.
pub open spec fn distinct_keys(s: Seq<(Address, Record)>) -> bool {
    forall|i: int, j: int| 0 <= i < j < s.len() ==> s[i].0@ != s[j].0@
}

proof fn lemma_find_push(s: Seq<(Address, Record)>, p: (Address, Record))
    ensures
        forall|k: Seq<u8>|
            #[trigger] find_at(s.push(p), k) == (if p.0@ == k {
                Some(p.1@)
            } else {
                find_at(s, k)
            }),
{
    assert(s.push(p).last() == p);
    assert(s.push(p).drop_last() =~= s);
}

proof fn lemma_find_none(s: Seq<(Address, Record)>, k: Seq<u8>)
    requires
        find_at(s, k) is None,
    ensures
        forall|i: int| 0 <= i < s.len() ==> (#[trigger] s[i]).0@ != k,
    decreases s.len(),
{
    if s.len() > 0 {
        lemma_find_none(s.drop_last(), k);
        assert forall|i: int| 0 <= i < s.len() implies (#[trigger] s[i]).0@ != k by {
            if i < s.len() - 1 {
                assert(s.drop_last()[i] == s[i]);
            } else {
                assert(s[i] == s.last());
            }
        }
    }
}

proof fn lemma_find_none_of(s: Seq<(Address, Record)>, k: Seq<u8>)
    requires
        forall|i: int| 0 <= i < s.len() ==> (#[trigger] s[i]).0@ != k,
    ensures
        find_at(s, k) is None,
    decreases s.len(),
{
    if s.len() > 0 {
        assert(s.last() == s[s.len() - 1]);
        assert forall|i: int| 0 <= i < s.drop_last().len() implies (#[trigger] s.drop_last()[i]).0@
            != k by {
            assert(s.drop_last()[i] == s[i]);
        }
        lemma_find_none_of(s.drop_last(), k);
    }
}

proof fn lemma_find_remove(s: Seq<(Address, Record)>, i: int)
    requires
        distinct_keys(s),
        0 <= i < s.len(),
    ensures
        forall|k: Seq<u8>|
            #[trigger] find_at(s.remove(i), k) == (if s[i].0@ == k {
                None::<RecordModel>
            } else {
                find_at(s, k)
            }),
    decreases s.len(),
{
    s.remove_ensures(i);
    assert forall|k: Seq<u8>| true implies #[trigger] find_at(s.remove(i), k) == (if s[i].0@ == k {
        None::<RecordModel>
    } else {
        find_at(s, k)
    }) by {
        if i == s.len() - 1 {
            assert(s.remove(i) =~= s.drop_last());
            if s[i].0@ == k {
                assert forall|j: int| 0 <= j < s.drop_last().len() implies (#[trigger] s.drop_last()[j]).0@
                    != k by {
                    assert(s.drop_last()[j] == s[j]);
                    assert(s[j].0@ != s[i].0@);
                }
                lemma_find_none_of(s.drop_last(), k);
            } else {
                assert(s.last() == s[i]);
            }
        } else {
            let t = s.remove(i);
            assert(t.last() == s[s.len() - 1]);
            assert(s.last() == s[s.len() - 1]);
            assert(t.drop_last() =~= s.drop_last().remove(i));
            assert forall|x: int, y: int| 0 <= x < y < s.drop_last().len() implies (
            #[trigger] s.drop_last()[x]).0@ != (#[trigger] s.drop_last()[y]).0@ by {
                assert(s.drop_last()[x] == s[x]);
                assert(s.drop_last()[y] == s[y]);
            }
            lemma_find_remove(s.drop_last(), i);
            assert(s.drop_last()[i] == s[i]);
            if s.last().0@ == k {
                assert(s[i].0@ != k);
                assert(find_at(t, k) == Some(t.last().1@));
                assert(find_at(s, k) == Some(s.last().1@));
            } else {
                assert(find_at(t, k) == find_at(t.drop_last(), k));
                assert(find_at(s, k) == find_at(s.drop_last(), k));
            }
        }
    }
}

proof fn lemma_map_of_push(s: Seq<(Address, Record)>, p: (Address, Record))
    ensures
        map_of(s.push(p)) == map_of(s).insert(p.0@, p.1@),
{
    lemma_find_push(s, p);
    assert(map_of(s.push(p)) =~= map_of(s).insert(p.0@, p.1@));
}

proof fn lemma_map_of_remove(s: Seq<(Address, Record)>, i: int)
    requires
        distinct_keys(s),
        0 <= i < s.len(),
    ensures
        map_of(s.remove(i)) == map_of(s).remove(s[i].0@),
{
    lemma_find_remove(s, i);
    assert(map_of(s.remove(i)) =~= map_of(s).remove(s[i].0@));
}

proof fn lemma_distinct_push(s: Seq<(Address, Record)>, p: (Address, Record))
    requires
        distinct_keys(s),
        find_at(s, p.0@) is None,
    ensures
        distinct_keys(s.push(p)),
{
    lemma_find_none(s, p.0@);
    assert forall|i: int, j: int| 0 <= i < j < s.push(p).len() implies (#[trigger] s.push(p)[i]).0@
        != (#[trigger] s.push(p)[j]).0@ by {
        if j < s.len() {
            assert(s.push(p)[i] == s[i]);
            assert(s.push(p)[j] == s[j]);
        } else {
            assert(s.push(p)[i] == s[i]);
            assert(s.push(p)[j] == p);
        }
    }
}

proof fn lemma_distinct_remove(s: Seq<(Address, Record)>, i: int)
    requires
        distinct_keys(s),
        0 <= i < s.len(),
    ensures
        distinct_keys(s.remove(i)),
        forall|j: int| 0 <= j < s.remove(i).len() ==> (#[trigger] s.remove(i)[j]).0@ != s[i].0@,
{
    s.remove_ensures(i);
    assert forall|x: int, y: int| 0 <= x < y < s.remove(i).len() implies (
    #[trigger] s.remove(i)[x]).0@ != (#[trigger] s.remove(i)[y]).0@ by {
        let sx: int = if x < i {
            x
        } else {
            x + 1
        };
        let sy: int = if y < i {
            y
        } else {
            y + 1
        };
        assert(s.remove(i)[x] == s[sx]);
        assert(s.remove(i)[y] == s[sy]);
    }
    assert forall|j: int| 0 <= j < s.remove(i).len() implies (#[trigger] s.remove(i)[j]).0@
        != s[i].0@ by {
        let sj: int = if j < i {
            j
        } else {
            j + 1
        };
        assert(s.remove(i)[j] == s[sj]);
    }
}

proof fn lemma_receipt_count_push(s: Seq<(Address, Record)>, p: (Address, Record))
    ensures
        receipt_count(s.push(p)) == receipt_count(s) + (if p.1@ is Receipt {
            1nat
        } else {
            0nat
        }),
{
    assert(s.push(p).last() == p);
    assert(s.push(p).drop_last() =~= s);
}

proof fn lemma_receipt_count_remove(s: Seq<(Address, Record)>, i: int)
    requires
        0 <= i < s.len(),
    ensures
        receipt_count(s) == receipt_count(s.remove(i)) + (if s[i].1@ is Receipt {
            1nat
        } else {
            0nat
        }),
    decreases s.len(),
{
    s.remove_ensures(i);
    if i == s.len() - 1 {
        assert(s.remove(i) =~= s.drop_last());
        assert(s.last() == s[i]);
    } else {
        let t = s.remove(i);
        assert(t.last() == s[s.len() - 1]);
        assert(s.last() == s[s.len() - 1]);
        assert(t.drop_last() =~= s.drop_last().remove(i));
        lemma_receipt_count_remove(s.drop_last(), i);
        assert(s.drop_last()[i] == s[i]);
    }
}

proof fn lemma_receipt_count_le_len(s: Seq<(Address, Record)>)
    ensures
        receipt_count(s) <= s.len(),
    decreases s.len(),
{
    if s.len() > 0 {
        lemma_receipt_count_le_len(s.drop_last());
    }
}

proof fn lemma_receipt_count_lt_len(s: Seq<(Address, Record)>, i: int)
    requires
        0 <= i < s.len(),
        !(s[i].1@ is Receipt),
    ensures
        receipt_count(s) < s.len(),
    decreases s.len(),
{
    lemma_receipt_count_le_len(s.drop_last());
    if i == s.len() - 1 {
        assert(s.last() == s[i]);
    } else {
        assert(s.drop_last()[i] == s[i]);
        lemma_receipt_count_lt_len(s.drop_last(), i);
    }
}

/// The store of addressed records.
pub struct Ledger {
    entries: Vec<(Address, Record)>,
}

impl View for Ledger {
    type V = Map<Seq<u8>, RecordModel>;

    closed spec fn view(&self) -> Map<Seq<u8>, RecordModel> {
        map_of(self.entries@)
    }
}

/// Every vote's count is bounded by the number of receipts the entries
/// hold, so a count can always still grow by one machine word's worth.
pub open spec fn counts_bounded(s: Seq<(Address, Record)>) -> bool {
    forall|k: int|
        0 <= k < s.len() ==> match (#[trigger] s[k]).1@ {
            RecordModel::Vote(v) => 0 <= v.count <= receipt_count(s),
            _ => true,
        }
}

impl Ledger {
    /// No two entries share an address, and no vote's count exceeds the
    /// number of receipts ever written (receipts are never removed, so a
    /// count can always still grow by one without overflowing).
    pub closed spec fn wf(self) -> bool {
        &&& distinct_keys(self.entries@)
        &&& counts_bounded(self.entries@)
    }

    /// How many receipt records the store holds.
    pub closed spec fn spec_receipt_total(self) -> nat {
        receipt_count(self.entries@)
    }

    /// An empty store.
    pub fn new() -> (l: Ledger)
        ensures
            l.wf(),
            l@ == Map::<Seq<u8>, RecordModel>::empty(),
    {
        let l = Ledger { entries: Vec::new() };
        proof {
            assert(l@ =~= Map::<Seq<u8>, RecordModel>::empty());
        }
        l
    }

    /// The index of the entry at `key`, if the store holds one.
    fn find_index(&self, key: &Vec<u8>) -> (r: Option<usize>)
        ensures
            match r {
                Some(i) => i < self.entries@.len() && self.entries@[i as int].0@ == key@
                    && find_at(self.entries@, key@) == Some(self.entries@[i as int].1@),
                None => find_at(self.entries@, key@) is None,
            },
    {
        let mut j: usize = self.entries.len();
        proof {
            assert(self.entries@.take(j as int) =~= self.entries@);
        }
        while j > 0
            invariant
                j <= self.entries@.len(),
                find_at(self.entries@, key@) == find_at(self.entries@.take(j as int), key@),
            decreases j,
        {
            let jj = j - 1;
            let hit = crate::auth::bytes_eq(&self.entries[jj].0.bytes, key);
            proof {
                let tk = self.entries@.take(j as int);
                assert(tk.last() == self.entries@[jj as int]);
                assert(tk.drop_last() =~= self.entries@.take(jj as int));
            }
            if hit {
                return Some(jj);
            }
            j = jj;
        }
        proof {
            assert(self.entries@.take(0) =~= Seq::<(Address, Record)>::empty());
        }
        None
    }

    /// The record at `address`, if one exists.  This is the read that the
    /// host runtime performs when a client queries a derived address.
    pub fn read(&self, address: &Address) -> (r: Option<&Record>)
        ensures
            match r {
                Some(rec) => self@.dom().contains(address@) && self@[address@] == rec@,
                None => !self@.dom().contains(address@),
            },
    {
        match self.find_index(&address.bytes) {
            Some(i) => Some(&self.entries[i].1),
            None => None,
        }
    }

    /// How many receipts the store holds.
    pub fn receipt_total(&self) -> (n: u64)
        ensures
            n as nat == self.spec_receipt_total(),
    {
        let mut n: u64 = 0;
        let mut i: usize = 0;
        proof {
            assert(self.entries@.take(0) =~= Seq::<(Address, Record)>::empty());
            lemma_receipt_count_le_len(self.entries@);
        }
        while i < self.entries.len()
            invariant
                i <= self.entries@.len(),
                n as nat == receipt_count(self.entries@.take(i as int)),
                n as nat <= i,
            decreases self.entries@.len() - i,
        {
            let is_receipt = match &self.entries[i].1 {
                Record::Receipt(_) => true,
                _ => false,
            };
            proof {
                let tk = self.entries@.take(i + 1);
                assert(tk.last() == self.entries@[i as int]);
                assert(tk.drop_last() =~= self.entries@.take(i as int));
            }
            if is_receipt {
                n = n + 1;
            }
            i = i + 1;
        }
        proof {
            assert(self.entries@.take(self.entries@.len() as int) =~= self.entries@);
        }
        n
    }

    /// Creates a todo record owned by `owner` at the address derived from
    /// the owner and the title.  `now` is the host clock's reading; both
    /// timestamps start there and the record starts active.
    pub fn create_todo(
        &mut self,
        owner: &Identity,
        title: Vec<u8>,
        description: Vec<u8>,
        now: i64,
    ) -> (r: Result<Address, Error>)
        requires
            old(self).wf(),
        ensures
            final(self).wf(),
            match r {
                Ok(a) => create_todo_spec(old(self)@, owner@, title@, description@, now)
                    == Ok::<(Seq<u8>, Map<Seq<u8>, RecordModel>), Error>((a@, final(self)@)),
                Err(e) => create_todo_spec(old(self)@, owner@, title@, description@, now)
                    == Err::<(Seq<u8>, Map<Seq<u8>, RecordModel>), Error>(e) && final(self)@
                    == old(self)@,
            },
    {
        let mut components: Vec<Vec<u8>> = Vec::new();
        components.push(copy_bytes(&owner.bytes));
        components.push(copy_bytes(&title));
        let a = crate::address::derive(Namespace::Todo, &components);
        proof {
            assert(component_views(components@) =~= seq![owner@, title@]);
        }
        match self.find_index(&a.bytes) {
            Some(_) => {
                return Err(Error::AlreadyExists);
            },
            None => {},
        }
        if title.len() > TITLE_MAX_BYTES || description.len() > DESCRIPTION_MAX_BYTES {
            return Err(Error::FieldTooLong);
        }
        let ghost olde = self.entries@;
        let ghost ga = a@;
        let record = Record::Todo(
            TodoState {
                owner: owner.clone(),
                title,
                description,
                is_active: true,
                created_on: now,
                modified_on: now,
            },
        );
        let ghost grec = record@;
        let ret = a.clone();
        self.entries.push((a, record));
        proof {
            let p = self.entries@.last();
            assert(p.0@ == ga && p.1@ == grec);
            lemma_map_of_push(olde, p);
            lemma_distinct_push(olde, p);
            lemma_receipt_count_push(olde, p);
            assert(counts_bounded(self.entries@)) by {
                assert forall|k: int|
                    0 <= k < self.entries@.len() implies match (#[trigger] self.entries@[k]).1@ {
                    RecordModel::Vote(v) => 0 <= v.count <= receipt_count(self.entries@),
                    _ => true,
                } by {
                    if k < olde.len() {
                        assert(self.entries@[k] == olde[k]);
                    }
                }
            }
        }
        Ok(ret)
    }

    /// Creates a vote record owned by `creator` at the address derived
    /// from the creator and the name.  The count starts at zero and both
    /// timestamps at `now`.
    pub fn create_vote(&mut self, creator: &Identity, name: Vec<u8>, now: i64) -> (r: Result<
        Address,
        Error,
    >)
        requires
            old(self).wf(),
        ensures
            final(self).wf(),
            match r {
                Ok(a) => create_vote_spec(old(self)@, creator@, name@, now) == Ok::<
                    (Seq<u8>, Map<Seq<u8>, RecordModel>),
                    Error,
                >((a@, final(self)@)),
                Err(e) => create_vote_spec(old(self)@, creator@, name@, now) == Err::<
                    (Seq<u8>, Map<Seq<u8>, RecordModel>),
                    Error,
                >(e) && final(self)@ == old(self)@,
            },
    {
        let mut components: Vec<Vec<u8>> = Vec::new();
        components.push(copy_bytes(&creator.bytes));
        components.push(copy_bytes(&name));
        let a = crate::address::derive(Namespace::Vote, &components);
        proof {
            assert(component_views(components@) =~= seq![creator@, name@]);
        }
        match self.find_index(&a.bytes) {
            Some(_) => {
                return Err(Error::AlreadyExists);
            },
            None => {},
        }
        if name.len() > NAME_MAX_BYTES {
            return Err(Error::FieldTooLong);
        }
        let ghost olde = self.entries@;
        let ghost ga = a@;
        let record = Record::Vote(
            VoteState { owner: creator.clone(), name, count: 0, created_on: now, modified_on: now },
        );
        let ghost grec = record@;
        let ret = a.clone();
        self.entries.push((a, record));
        proof {
            let p = self.entries@.last();
            assert(p.0@ == ga && p.1@ == grec);
            lemma_map_of_push(olde, p);
            lemma_distinct_push(olde, p);
            lemma_receipt_count_push(olde, p);
            assert(counts_bounded(self.entries@)) by {
                assert forall|k: int|
                    0 <= k < self.entries@.len() implies match (#[trigger] self.entries@[k]).1@ {
                    RecordModel::Vote(v) => 0 <= v.count <= receipt_count(self.entries@),
                    _ => true,
                } by {
                    if k < olde.len() {
                        assert(self.entries@[k] == olde[k]);
                    }
                }
            }
        }
        Ok(ret)
    }

    /// Applies a sparse patch to the todo at `address`: existence, then
    /// authorization, then field budgets are checked before anything is
    /// written; the modification time is stamped even if no field changed.
    pub fn update_todo(
        &mut self,
        address: &Address,
        owner_proof: &Identity,
        patch: TodoPatch,
        now: i64,
    ) -> (r: Result<(), Error>)
        requires
            old(self).wf(),
        ensures
            final(self).wf(),
            match r {
                Ok(()) => update_todo_spec(old(self)@, address@, owner_proof@, patch@, now)
                    == Ok::<Map<Seq<u8>, RecordModel>, Error>(final(self)@),
                Err(e) => update_todo_spec(old(self)@, address@, owner_proof@, patch@, now)
                    == Err::<Map<Seq<u8>, RecordModel>, Error>(e) && final(self)@ == old(self)@,
            },
    {
        let ghost gp = patch@;
        let i = match self.find_index(&address.bytes) {
            Some(i) => i,
            None => {
                return Err(Error::NotFound);
            },
        };
        match &self.entries[i].1 {
            Record::Todo(t) => {
                match authorize(owner_proof, &t.owner) {
                    Ok(()) => {},
                    Err(e) => {
                        return Err(e);
                    },
                }
            },
            _ => {
                return Err(Error::NotFound);
            },
        }
        match &patch.title {
            Some(tv) => {
                if tv.len() > TITLE_MAX_BYTES {
                    return Err(Error::FieldTooLong);
                }
            },
            None => {},
        }
        match &patch.description {
            Some(dv) => {
                if dv.len() > DESCRIPTION_MAX_BYTES {
                    return Err(Error::FieldTooLong);
                }
            },
            None => {},
        }
        let ghost olde = self.entries@;
        let (addr_owned, rec) = self.entries.remove(i);
        let mut t = match rec {
            Record::Todo(t) => t,
            _ => unreached(),
        };
        let ghost gt = t@;
        match patch.title {
            Some(x) => {
                t.title = x;
            },
            None => {},
        }
        match patch.description {
            Some(x) => {
                t.description = x;
            },
            None => {},
        }
        match patch.is_active {
            Some(x) => {
                t.is_active = x;
            },
            None => {},
        }
        t.modified_on = now;
        proof {
            assert(t@ == todo_patched(gt, gp, now));
        }
        self.entries.push((addr_owned, Record::Todo(t)));
        proof {
            let s1 = olde.remove(i as int);
            let p = self.entries@.last();
            olde.remove_ensures(i as int);
            lemma_distinct_remove(olde, i as int);
            lemma_map_of_remove(olde, i as int);
            lemma_receipt_count_remove(olde, i as int);
            lemma_find_none_of(s1, address@);
            lemma_distinct_push(s1, p);
            lemma_map_of_push(s1, p);
            lemma_receipt_count_push(s1, p);
            assert(self@ =~= old(self)@.insert(address@, p.1@));
            assert(counts_bounded(self.entries@)) by {
                assert forall|k: int|
                    0 <= k < self.entries@.len() implies match (#[trigger] self.entries@[k]).1@ {
                    RecordModel::Vote(v) => 0 <= v.count <= receipt_count(self.entries@),
                    _ => true,
                } by {
                    if k < s1.len() {
                        assert(self.entries@[k] == s1[k]);
                        if k < i {
                            assert(s1[k] == olde[k]);
                        } else {
                            assert(s1[k] == olde[k + 1]);
                        }
                    }
                }
            }
        }
        Ok(())
    }

    /// Deletes the todo at `address` after the existence and authorization
    /// checks; the host runtime then refunds the storage deposit to the
    /// owner.  The address is free again afterwards.
    pub fn delete_todo(&mut self, address: &Address, owner_proof: &Identity) -> (r: Result<
        (),
        Error,
    >)
        requires
            old(self).wf(),
        ensures
            final(self).wf(),
            match r {
                Ok(()) => delete_todo_spec(old(self)@, address@, owner_proof@) == Ok::<
                    Map<Seq<u8>, RecordModel>,
                    Error,
                >(final(self)@),
                Err(e) => delete_todo_spec(old(self)@, address@, owner_proof@) == Err::<
                    Map<Seq<u8>, RecordModel>,
                    Error,
                >(e) && final(self)@ == old(self)@,
            },
    {
        let i = match self.find_index(&address.bytes) {
            Some(i) => i,
            None => {
                return Err(Error::NotFound);
            },
        };
        match &self.entries[i].1 {
            Record::Todo(t) => {
                match authorize(owner_proof, &t.owner) {
                    Ok(()) => {},
                    Err(e) => {
                        return Err(e);
                    },
                }
            },
            _ => {
                return Err(Error::NotFound);
            },
        }
        let ghost olde = self.entries@;
        let _removed = self.entries.remove(i);
        proof {
            olde.remove_ensures(i as int);
            lemma_distinct_remove(olde, i as int);
            lemma_map_of_remove(olde, i as int);
            lemma_receipt_count_remove(olde, i as int);
            assert(counts_bounded(self.entries@)) by {
                assert forall|k: int|
                    0 <= k < self.entries@.len() implies match (#[trigger] self.entries@[k]).1@ {
                    RecordModel::Vote(v) => 0 <= v.count <= receipt_count(self.entries@),
                    _ => true,
                } by {
                    if k < i {
                        assert(self.entries@[k] == olde[k]);
                    } else {
                        assert(self.entries@[k] == olde[k + 1]);
                    }
                }
            }
        }
        Ok(())
    }

    /// Applies a sparse patch to the vote at `address`; the count is never
    /// touched by an update.
    pub fn update_vote(
        &mut self,
        address: &Address,
        owner_proof: &Identity,
        patch: VotePatch,
        now: i64,
    ) -> (r: Result<(), Error>)
        requires
            old(self).wf(),
        ensures
            final(self).wf(),
            match r {
                Ok(()) => update_vote_spec(old(self)@, address@, owner_proof@, patch@, now)
                    == Ok::<Map<Seq<u8>, RecordModel>, Error>(final(self)@),
                Err(e) => update_vote_spec(old(self)@, address@, owner_proof@, patch@, now)
                    == Err::<Map<Seq<u8>, RecordModel>, Error>(e) && final(self)@ == old(self)@,
            },
    {
        let ghost gp = patch@;
        let i = match self.find_index(&address.bytes) {
            Some(i) => i,
            None => {
                return Err(Error::NotFound);
            },
        };
        match &self.entries[i].1 {
            Record::Vote(v) => {
                match authorize(owner_proof, &v.owner) {
                    Ok(()) => {},
                    Err(e) => {
                        return Err(e);
                    },
                }
            },
            _ => {
                return Err(Error::NotFound);
            },
        }
        match &patch.name {
            Some(nv) => {
                if nv.len() > NAME_MAX_BYTES {
                    return Err(Error::FieldTooLong);
                }
            },
            None => {},
        }
        let ghost olde = self.entries@;
        let (addr_owned, rec) = self.entries.remove(i);
        let mut v = match rec {
            Record::Vote(v) => v,
            _ => unreached(),
        };
        let ghost gv = v@;
        match patch.name {
            Some(x) => {
                v.name = x;
            },
            None => {},
        }
        v.modified_on = now;
        proof {
            assert(v@ == vote_patched(gv, gp, now));
        }
        self.entries.push((addr_owned, Record::Vote(v)));
        proof {
            let s1 = olde.remove(i as int);
            let p = self.entries@.last();
            olde.remove_ensures(i as int);
            lemma_distinct_remove(olde, i as int);
            lemma_map_of_remove(olde, i as int);
            lemma_receipt_count_remove(olde, i as int);
            lemma_find_none_of(s1, address@);
            lemma_distinct_push(s1, p);
            lemma_map_of_push(s1, p);
            lemma_receipt_count_push(s1, p);
            assert(self@ =~= old(self)@.insert(address@, p.1@));
            assert(counts_bounded(self.entries@)) by {
                assert forall|k: int|
                    0 <= k < self.entries@.len() implies match (#[trigger] self.entries@[k]).1@ {
                    RecordModel::Vote(w) => 0 <= w.count <= receipt_count(self.entries@),
                    _ => true,
                } by {
                    if k < s1.len() {
                        assert(self.entries@[k] == s1[k]);
                        if k < i {
                            assert(s1[k] == olde[k]);
                        } else {
                            assert(s1[k] == olde[k + 1]);
                        }
                    } else {
                        assert(self.entries@[k] == p);
                        assert(p.1@ == RecordModel::Vote(vote_patched(gv, gp, now)));
                        assert(olde[i as int].1@ == RecordModel::Vote(gv));
                    }
                }
            }
        }
        Ok(())
    }

    /// Casts `voter_proof`'s vote on the vote record at `address`.  A
    /// receipt is created at the address derived from the vote address and
    /// the voter; if that address is already occupied this identity has
    /// already been counted, the call fails with `DuplicateVote`, and the
    /// vote record stays completely unchanged.  Only on successful receipt
    /// creation does the count grow by one.
    pub fn cast_vote(&mut self, address: &Address, voter_proof: &Identity, now: i64) -> (r: Result<
        (),
        Error,
    >)
        requires
            old(self).wf(),
        ensures
            final(self).wf(),
            match r {
                Ok(()) => cast_vote_spec(old(self)@, address@, voter_proof@, now) == Ok::<
                    Map<Seq<u8>, RecordModel>,
                    Error,
                >(final(self)@),
                Err(e) => cast_vote_spec(old(self)@, address@, voter_proof@, now) == Err::<
                    Map<Seq<u8>, RecordModel>,
                    Error,
                >(e) && final(self)@ == old(self)@,
            },
    {
        let n = self.entries.len();
        let i = match self.find_index(&address.bytes) {
            Some(i) => i,
            None => {
                return Err(Error::NotFound);
            },
        };
        match &self.entries[i].1 {
            Record::Vote(_) => {},
            _ => {
                return Err(Error::NotFound);
            },
        }
        let mut components: Vec<Vec<u8>> = Vec::new();
        components.push(copy_bytes(&address.bytes));
        components.push(copy_bytes(&voter_proof.bytes));
        let ra = crate::address::derive(Namespace::Receipt, &components);
        proof {
            assert(component_views(components@) =~= seq![address@, voter_proof@]);
        }
        let ghost gra = ra@;
        match self.find_index(&ra.bytes) {
            Some(_) => {
                return Err(Error::DuplicateVote);
            },
            None => {},
        }
        let ghost olde = self.entries@;
        let (addr_owned, rec) = self.entries.remove(i);
        let v = match rec {
            Record::Vote(v) => v,
            _ => unreached(),
        };
        let ghost gv = v@;
        proof {
            lemma_receipt_count_lt_len(olde, i as int);
            assert(gv.count <= receipt_count(olde));
            assert(gv.count < n as int);
            assert(usize::MAX <= u64::MAX);
        }
        self.entries.push((ra, Record::Receipt(VoteReceipt {  })));
        let ghost s2 = self.entries@;
        let new_count = v.count + 1;
        let updated = VoteState {
            owner: v.owner,
            name: v.name,
            count: new_count,
            created_on: v.created_on,
            modified_on: now,
        };
        self.entries.push((addr_owned, Record::Vote(updated)));
        proof {
            let s1 = olde.remove(i as int);
            let p1 = s2.last();
            let p2 = self.entries@.last();
            olde.remove_ensures(i as int);
            lemma_distinct_remove(olde, i as int);
            lemma_map_of_remove(olde, i as int);
            lemma_receipt_count_remove(olde, i as int);
            lemma_find_none(olde, gra);
            assert forall|k: int| 0 <= k < s1.len() implies (#[trigger] s1[k]).0@ != gra by {
                if k < i {
                    assert(s1[k] == olde[k]);
                } else {
                    assert(s1[k] == olde[k + 1]);
                }
            }
            lemma_find_none_of(s1, gra);
            lemma_distinct_push(s1, p1);
            lemma_map_of_push(s1, p1);
            lemma_receipt_count_push(s1, p1);
            lemma_receipt_address_differs(address@, voter_proof@);
            assert forall|k: int| 0 <= k < s2.len() implies (#[trigger] s2[k]).0@ != address@ by {
                if k < s1.len() {
                    assert(s2[k] == s1[k]);
                } else {
                    assert(s2[k] == p1);
                }
            }
            lemma_find_none_of(s2, address@);
            lemma_distinct_push(s2, p2);
            lemma_map_of_push(s2, p2);
            lemma_receipt_count_push(s2, p2);
            assert(p1.1@ == RecordModel::Receipt);
            assert(p2.1@ == RecordModel::Vote(
                VoteStateModel {
                    owner: gv.owner,
                    name: gv.name,
                    count: gv.count + 1,
                    created_on: gv.created_on,
                    modified_on: now,
                },
            ));
            assert(self@ =~= old(self)@.insert(gra, RecordModel::Receipt).insert(
                address@,
                p2.1@,
            ));
            assert(receipt_count(self.entries@) == receipt_count(olde) + 1);
            assert(counts_bounded(self.entries@)) by {
                assert forall|k: int|
                    0 <= k < self.entries@.len() implies match (#[trigger] self.entries@[k]).1@ {
                    RecordModel::Vote(w) => 0 <= w.count <= receipt_count(self.entries@),
                    _ => true,
                } by {
                    if k < s1.len() {
                        assert(self.entries@[k] == s1[k]);
                        if k < i {
                            assert(s1[k] == olde[k]);
                        } else {
                            assert(s1[k] == olde[k + 1]);
                        }
                    } else if k == s1.len() {
                        assert(self.entries@[k] == p1);
                    } else {
                        assert(self.entries@[k] == p2);
                    }
                }
            }
        }
        Ok(())
    }

    /// Deletes the vote at `address` after the existence and authorization
    /// checks.  Receipts of the vote are not deleted: they stay as inert
    /// historical markers and carry no dangling references.
    pub fn delete_vote(&mut self, address: &Address, owner_proof: &Identity) -> (r: Result<
        (),
        Error,
    >)
        requires
            old(self).wf(),
        ensures
            final(self).wf(),
            match r {
                Ok(()) => delete_vote_spec(old(self)@, address@, owner_proof@) == Ok::<
                    Map<Seq<u8>, RecordModel>,
                    Error,
                >(final(self)@),
                Err(e) => delete_vote_spec(old(self)@, address@, owner_proof@) == Err::<
                    Map<Seq<u8>, RecordModel>,
                    Error,
                >(e) && final(self)@ == old(self)@,
            },
    {
        let i = match self.find_index(&address.bytes) {
            Some(i) => i,
            None => {
                return Err(Error::NotFound);
            },
        };
        match &self.entries[i].1 {
            Record::Vote(v) => {
                match authorize(owner_proof, &v.owner) {
                    Ok(()) => {},
                    Err(e) => {
                        return Err(e);
                    },
                }
            },
            _ => {
                return Err(Error::NotFound);
            },
        }
        let ghost olde = self.entries@;
        let _removed = self.entries.remove(i);
        proof {
            olde.remove_ensures(i as int);
            lemma_distinct_remove(olde, i as int);
            lemma_map_of_remove(olde, i as int);
            lemma_receipt_count_remove(olde, i as int);
            assert(counts_bounded(self.entries@)) by {
                assert forall|k: int|
                    0 <= k < self.entries@.len() implies match (#[trigger] self.entries@[k]).1@ {
                    RecordModel::Vote(w) => 0 <= w.count <= receipt_count(self.entries@),
                    _ => true,
                } by {
                    if k < i {
                        assert(self.entries@[k] == olde[k]);
                    } else {
                        assert(self.entries@[k] == olde[k + 1]);
                    }
                }
            }
        }
        Ok(())
    }
}

} // verus!
