//! Laws relating several store operations, stated over the spec
//! transitions and proved once for every input.

use vstd::prelude::*;

verus! {

use crate::address::todo_address;
use crate::address::vote_address;
use crate::address::receipt_address;
use crate::address::lemma_receipt_address_differs;
use crate::address::lemma_receipt_address_injective;
use crate::error::Error;
use crate::records::RecordModel;
use crate::records::TodoStateModel;
use crate::records::TodoPatchModel;
use crate::records::VotePatchModel;
use crate::records::todo_fields_fit;
use crate::records::NAME_MAX_BYTES;
use crate::store::create_todo_spec;
use crate::store::update_todo_spec;
use crate::store::delete_todo_spec;
use crate::store::create_vote_spec;
use crate::store::update_vote_spec;
use crate::store::delete_vote_spec;
use crate::store::cast_vote_spec;

/// Creating a todo within budget at a free address succeeds, and the
/// record read back at the returned address holds exactly the supplied
/// fields, is active, and has its two timestamps equal.
pub proof fn lemma_create_todo_then_read(
    m: Map<Seq<u8>, RecordModel>,
    owner: Seq<u8>,
    title: Seq<u8>,
    description: Seq<u8>,
    now: i64,
)
    requires
        !m.dom().contains(todo_address(owner, title)),
        todo_fields_fit(title, description),
    ensures
        ({
            let a = todo_address(owner, title);
            let rec = RecordModel::Todo(
                TodoStateModel {
                    owner,
                    title,
                    description,
                    is_active: true,
                    created_on: now,
                    modified_on: now,
                },
            );
            &&& create_todo_spec(m, owner, title, description, now) == Ok::<
                (Seq<u8>, Map<Seq<u8>, RecordModel>),
                Error,
            >((a, m.insert(a, rec)))
            &&& m.insert(a, rec).dom().contains(a)
            &&& m.insert(a, rec)[a] == rec
        }),
{
}

/// Creating twice with the same owner and title fails the second call
/// with `AlreadyExists`, whatever description or clock reading it brings,
/// and the first record is unchanged.
pub proof fn lemma_create_todo_duplicate(
    m: Map<Seq<u8>, RecordModel>,
    owner: Seq<u8>,
    title: Seq<u8>,
    description: Seq<u8>,
    description2: Seq<u8>,
    now: i64,
    now2: i64,
)
    requires
        create_todo_spec(m, owner, title, description, now) is Ok,
    ensures
        ({
            let a = create_todo_spec(m, owner, title, description, now)->Ok_0.0;
            let m1 = create_todo_spec(m, owner, title, description, now)->Ok_0.1;
            &&& create_todo_spec(m1, owner, title, description2, now2) == Err::<
                (Seq<u8>, Map<Seq<u8>, RecordModel>),
                Error,
            >(Error::AlreadyExists)
            &&& m1[a] == RecordModel::Todo(
                TodoStateModel {
                    owner,
                    title,
                    description,
                    is_active: true,
                    created_on: now,
                    modified_on: now,
                },
            )
        }),
{
}

/// An update with no fields set succeeds and changes nothing but the
/// modification time.
pub proof fn lemma_update_todo_empty_patch(
    m: Map<Seq<u8>, RecordModel>,
    a: Seq<u8>,
    proof_id: Seq<u8>,
    now: i64,
)
    requires
        m.dom().contains(a),
        m[a] is Todo,
        proof_id == m[a]->Todo_0.owner,
    ensures
        ({
            let t = m[a]->Todo_0;
            let p = TodoPatchModel { title: None, description: None, is_active: None };
            update_todo_spec(m, a, proof_id, p, now) == Ok::<Map<Seq<u8>, RecordModel>, Error>(
                m.insert(
                    a,
                    RecordModel::Todo(
                        TodoStateModel {
                            owner: t.owner,
                            title: t.title,
                            description: t.description,
                            is_active: t.is_active,
                            created_on: t.created_on,
                            modified_on: now,
                        },
                    ),
                ),
            )
        }),
{
}

/// A mutation whose proof does not match the stored owner fails
/// `Unauthorized`.  The transition yields no new store, and the exec
/// operations leave the store untouched on every error.
pub proof fn lemma_wrong_owner_unauthorized(
    m: Map<Seq<u8>, RecordModel>,
    a: Seq<u8>,
    proof_id: Seq<u8>,
    p: TodoPatchModel,
    pv: VotePatchModel,
    now: i64,
)
    requires
        m.dom().contains(a),
        m[a] is Todo ==> proof_id != m[a]->Todo_0.owner,
        m[a] is Vote ==> proof_id != m[a]->Vote_0.owner,
    ensures
        m[a] is Todo ==> update_todo_spec(m, a, proof_id, p, now) == Err::<
            Map<Seq<u8>, RecordModel>,
            Error,
        >(Error::Unauthorized),
        m[a] is Todo ==> delete_todo_spec(m, a, proof_id) == Err::<
            Map<Seq<u8>, RecordModel>,
            Error,
        >(Error::Unauthorized),
        m[a] is Vote ==> update_vote_spec(m, a, proof_id, pv, now) == Err::<
            Map<Seq<u8>, RecordModel>,
            Error,
        >(Error::Unauthorized),
        m[a] is Vote ==> delete_vote_spec(m, a, proof_id) == Err::<
            Map<Seq<u8>, RecordModel>,
            Error,
        >(Error::Unauthorized),
{
}

/// After a successful delete of a todo, a read of the same address finds
/// nothing.
pub proof fn lemma_delete_todo_then_read(m: Map<Seq<u8>, RecordModel>, a: Seq<u8>, proof_id: Seq<u8>)
    requires
        delete_todo_spec(m, a, proof_id) is Ok,
    ensures
        !delete_todo_spec(m, a, proof_id)->Ok_0.dom().contains(a),
{
}

/// After a successful delete of a vote, a read of the same address finds
/// nothing; the vote's receipts are not removed.
pub proof fn lemma_delete_vote_then_read(m: Map<Seq<u8>, RecordModel>, a: Seq<u8>, proof_id: Seq<u8>)
    requires
        delete_vote_spec(m, a, proof_id) is Ok,
    ensures
        !delete_vote_spec(m, a, proof_id)->Ok_0.dom().contains(a),
        forall|k: Seq<u8>|
            k != a && m.dom().contains(k) ==> delete_vote_spec(m, a, proof_id)->Ok_0.dom().contains(
                k,
            ),
{
}

/// Casting twice under one voter identity: the second cast fails
/// `DuplicateVote`, and the count stands exactly one above where it began.
pub proof fn lemma_cast_vote_twice(
    m: Map<Seq<u8>, RecordModel>,
    a: Seq<u8>,
    voter: Seq<u8>,
    now: i64,
    now2: i64,
)
    requires
        cast_vote_spec(m, a, voter, now) is Ok,
    ensures
        ({
            let m1 = cast_vote_spec(m, a, voter, now)->Ok_0;
            &&& cast_vote_spec(m1, a, voter, now2) == Err::<Map<Seq<u8>, RecordModel>, Error>(
                Error::DuplicateVote,
            )
            &&& m1[a] is Vote
            &&& m1[a]->Vote_0.count == m[a]->Vote_0.count + 1
        }),
{
    lemma_receipt_address_differs(a, voter);
}

/// The store after the given voters cast on the vote at `a`, in order.
pub open spec fn cast_all_spec(
    m: Map<Seq<u8>, RecordModel>,
    a: Seq<u8>,
    voters: Seq<Seq<u8>>,
    now: i64,
) -> Result<Map<Seq<u8>, RecordModel>, Error>
    decreases voters.len(),
{
    if voters.len() == 0 {
        Ok(m)
    } else {
        match cast_vote_spec(m, a, voters[0], now) {
            Ok(m1) => cast_all_spec(m1, a, voters.drop_first(), now),
            Err(e) => Err(e),
        }
    }
}

/// Distinct identities, none of which has voted yet, are all counted:
/// the casts all succeed, the count grows by exactly their number, each
/// identity's receipt exists afterwards, and nothing but those receipts
/// was added to the store.
pub proof fn lemma_cast_all_counted(
    m: Map<Seq<u8>, RecordModel>,
    a: Seq<u8>,
    voters: Seq<Seq<u8>>,
    now: i64,
)
    requires
        m.dom().contains(a),
        m[a] is Vote,
        a.len() <= u64::MAX,
        forall|i: int| 0 <= i < voters.len() ==> (#[trigger] voters[i]).len() <= u64::MAX,
        forall|i: int|
            0 <= i < voters.len() ==> !m.dom().contains(receipt_address(a, #[trigger] voters[i])),
        forall|i: int, j: int| 0 <= i < j < voters.len() ==> voters[i] != voters[j],
    ensures
        cast_all_spec(m, a, voters, now) is Ok,
        ({
            let m2 = cast_all_spec(m, a, voters, now)->Ok_0;
            &&& m2.dom().contains(a)
            &&& m2[a] is Vote
            &&& m2[a]->Vote_0.count == m[a]->Vote_0.count + voters.len()
            &&& forall|i: int|
                0 <= i < voters.len() ==> m2.dom().contains(
                    receipt_address(a, #[trigger] voters[i]),
                )
            &&& forall|k: Seq<u8>| m.dom().contains(k) ==> m2.dom().contains(k)
            &&& forall|k: Seq<u8>|
                m2.dom().contains(k) ==> m.dom().contains(k) || (exists|i: int|
                    0 <= i < voters.len() && k == receipt_address(a, #[trigger] voters[i]))
        }),
    decreases voters.len(),
{
    if voters.len() == 0 {
    } else {
        let v0 = voters[0];
        let ra0 = receipt_address(a, v0);
        lemma_receipt_address_differs(a, v0);
        assert(cast_vote_spec(m, a, v0, now) is Ok);
        let m1 = cast_vote_spec(m, a, v0, now)->Ok_0;
        assert(m1.dom().contains(a) && m1[a] is Vote);
        assert(m1[a]->Vote_0.count == m[a]->Vote_0.count + 1);
        let rest = voters.drop_first();
        assert(forall|i: int| 0 <= i < rest.len() ==> #[trigger] rest[i] == voters[i + 1]);
        assert forall|i: int|
            0 <= i < rest.len() implies !m1.dom().contains(
            receipt_address(a, #[trigger] rest[i]),
        ) by {
            assert(rest[i] == voters[i + 1]);
            assert(voters[i + 1] != v0);
            lemma_receipt_address_injective(a, voters[i + 1], v0);
            lemma_receipt_address_differs(a, voters[i + 1]);
        }
        lemma_cast_all_counted(m1, a, rest, now);
        let m2 = cast_all_spec(m1, a, rest, now)->Ok_0;
        assert(cast_all_spec(m, a, voters, now) == cast_all_spec(m1, a, rest, now));
        assert(m2[a]->Vote_0.count == m[a]->Vote_0.count + voters.len());
        assert forall|i: int|
            0 <= i < voters.len() implies m2.dom().contains(
            receipt_address(a, #[trigger] voters[i]),
        ) by {
            if i == 0 {
                assert(m1.dom().contains(ra0));
            } else {
                assert(voters[i] == rest[i - 1]);
            }
        }
        assert forall|k: Seq<u8>|
            m2.dom().contains(k) implies m.dom().contains(k) || (exists|i: int|
            0 <= i < voters.len() && k == receipt_address(a, #[trigger] voters[i])) by {
            if !m.dom().contains(k) {
                if m1.dom().contains(k) {
                    assert(k == ra0 || k == a);
                    assert(k == receipt_address(a, voters[0]));
                } else {
                    let i = choose|i: int|
                        0 <= i < rest.len() && k == receipt_address(a, #[trigger] rest[i]);
                    assert(k == receipt_address(a, voters[i + 1]));
                }
            }
        }
    }
}

/// An oversized field fails a create with `FieldTooLong`, and no record
/// is written: the transition yields no new store, and the exec create
/// leaves the store untouched on every error.
pub proof fn lemma_create_oversized_rejected(
    m: Map<Seq<u8>, RecordModel>,
    owner: Seq<u8>,
    title: Seq<u8>,
    description: Seq<u8>,
    name: Seq<u8>,
    now: i64,
)
    requires
        !todo_fields_fit(title, description),
        !m.dom().contains(todo_address(owner, title)),
        name.len() > NAME_MAX_BYTES,
        !m.dom().contains(vote_address(owner, name)),
    ensures
        create_todo_spec(m, owner, title, description, now) == Err::<
            (Seq<u8>, Map<Seq<u8>, RecordModel>),
            Error,
        >(Error::FieldTooLong),
        create_vote_spec(m, owner, name, now) == Err::<
            (Seq<u8>, Map<Seq<u8>, RecordModel>),
            Error,
        >(Error::FieldTooLong),
{
}

} // verus!
