//! Deterministic address derivation.
//!
//! A record's storage address is a pure function of a namespace tag and an
//! ordered sequence of seed components, so any party holding the public
//! seed values can re-derive the address without consulting the store.
//! Each component is laid down behind an eight-byte length prefix, which
//! makes the derivation injective: distinct seeds can never collide.

use vstd::prelude::*;

verus! {

use vstd::bytes::spec_u64_to_le_bytes;
use vstd::bytes::spec_u64_from_le_bytes;
use vstd::bytes::lemma_auto_spec_u64_to_from_le_bytes;
use vstd::bytes::u64_to_le_bytes;

/// The record families whose storage locations are derived here.
#[derive(Clone, Copy, Debug, PartialEq, Eq, Structural)]
pub enum Namespace {
    Todo,
    Vote,
    Receipt,
}

/// A storage location.
pub struct Address {
    pub bytes: Vec<u8>,
}

impl View for Address {
    type V = Seq<u8>;

    open spec fn view(&self) -> Seq<u8> {
        self.bytes@
    }
}

impl Clone for Address {
    fn clone(&self) -> (r: Self)
        ensures
            r@ == self@,
    {
        Address { bytes: copy_bytes(&self.bytes) }
    }
}

/// The byte that opens every address of the given namespace.
pub open spec fn namespace_tag(ns: Namespace) -> u8 {
    match ns {
        Namespace::Todo => 1,
        Namespace::Vote => 2,
        Namespace::Receipt => 3,
    }
}

/// One component: its length, little endian in eight bytes, then its bytes.
pub open spec fn encode_component(c: Seq<u8>) -> Seq<u8> {
    spec_u64_to_le_bytes(c.len() as u64) + c
}

/// All components in order, each behind its own length prefix.
pub open spec fn encode_components(cs: Seq<Seq<u8>>) -> Seq<u8>
    decreases cs.len(),
{
    if cs.len() == 0 {
        Seq::empty()
    } else {
        encode_component(cs[0]) + encode_components(cs.drop_first())
    }
}

/// The address derived from a namespace and ordered seed components.
pub open spec fn address_of(ns: Namespace, cs: Seq<Seq<u8>>) -> Seq<u8> {
    seq![namespace_tag(ns)] + encode_components(cs)
}

/// The length prefix records a component's length exactly only while the
/// length fits in it; every in-memory component satisfies this.
pub open spec fn component_fits(c: Seq<u8>) -> bool {
    c.len() <= u64::MAX
}

pub open spec fn components_fit(cs: Seq<Seq<u8>>) -> bool {
    forall|i: int| 0 <= i < cs.len() ==> component_fits(#[trigger] cs[i])
}

/// Where a todo record created by `owner` under `title` lives.
pub open spec fn todo_address(owner: Seq<u8>, title: Seq<u8>) -> Seq<u8> {
    address_of(Namespace::Todo, seq![owner, title])
}

/// Where a vote record created by `creator` under `name` lives.
pub open spec fn vote_address(creator: Seq<u8>, name: Seq<u8>) -> Seq<u8> {
    address_of(Namespace::Vote, seq![creator, name])
}

/// Where the receipt marking "`voter` has voted on the record at
/// `vote_addr`" lives.
pub open spec fn receipt_address(vote_addr: Seq<u8>, voter: Seq<u8>) -> Seq<u8> {
    address_of(Namespace::Receipt, seq![vote_addr, voter])
}

/// The views of a vector of byte vectors.
pub open spec fn component_views(cs: Seq<Vec<u8>>) -> Seq<Seq<u8>> {
    cs.map_values(|c: Vec<u8>| c@)
}

fn tag_of(ns: Namespace) -> (b: u8)
    ensures
        b == namespace_tag(ns),
{
    match ns {
        Namespace::Todo => 1,
        Namespace::Vote => 2,
        Namespace::Receipt => 3,
    }
}

/// A fresh vector holding the same bytes.
pub fn copy_bytes(src: &Vec<u8>) -> (r: Vec<u8>)
    ensures
        r@ == src@,
{
    let mut r: Vec<u8> = Vec::new();
    let mut i: usize = 0;
    while i < src.len()
        invariant
            i <= src@.len(),
            r@ == src@.take(i as int),
        decreases src@.len() - i,
    {
        r.push(src[i]);
        i = i + 1;
        proof {
            assert(r@ =~= src@.take(i as int));
        }
    }
    proof {
        assert(src@.take(src@.len() as int) =~= src@);
    }
    r
}

fn push_all(dst: &mut Vec<u8>, src: &Vec<u8>)
    ensures
        final(dst)@ == old(dst)@ + src@,
{
    let mut i: usize = 0;
    while i < src.len()
        invariant
            i <= src@.len(),
            dst@ == old(dst)@ + src@.take(i as int),
        decreases src@.len() - i,
    {
        dst.push(src[i]);
        i = i + 1;
        proof {
            assert(dst@ =~= old(dst)@ + src@.take(i as int));
        }
    }
    proof {
        assert(old(dst)@ + src@.take(src@.len() as int) =~= old(dst)@ + src@);
    }
}

proof fn lemma_encode_components_push(cs: Seq<Seq<u8>>, c: Seq<u8>)
    ensures
        encode_components(cs.push(c)) == encode_components(cs) + encode_component(c),
    decreases cs.len(),
{
    if cs.len() == 0 {
        assert(cs.push(c)[0] == c);
        assert(cs.push(c).drop_first() =~= Seq::<Seq<u8>>::empty());
        assert(encode_components(Seq::<Seq<u8>>::empty()) =~= Seq::<u8>::empty());
        assert(encode_components(cs.push(c)) == encode_component(c) + encode_components(
            cs.push(c).drop_first(),
        ));
        assert(encode_components(cs.push(c)) =~= encode_components(cs) + encode_component(c));
    } else {
        assert(cs.push(c)[0] == cs[0]);
        assert(cs.push(c).drop_first() =~= cs.drop_first().push(c));
        lemma_encode_components_push(cs.drop_first(), c);
        assert(encode_components(cs.push(c)) == encode_component(cs[0]) + encode_components(
            cs.drop_first().push(c),
        ));
        assert(encode_components(cs.drop_first().push(c)) == encode_components(cs.drop_first())
            + encode_component(c));
        assert(encode_components(cs) == encode_component(cs[0]) + encode_components(
            cs.drop_first(),
        ));
        assert(encode_component(cs[0]) + (encode_components(cs.drop_first()) + encode_component(c))
            =~= (encode_component(cs[0]) + encode_components(cs.drop_first())) + encode_component(
            c,
        ));
    }
}

/// Derives the storage address for the given namespace and components.
/// Pure: the result is a function of the arguments alone.
pub fn derive(ns: Namespace, components: &Vec<Vec<u8>>) -> (a: Address)
    ensures
        a@ == address_of(ns, component_views(components@)),
{
    let ghost cs = component_views(components@);
    let mut bytes: Vec<u8> = Vec::new();
    bytes.push(tag_of(ns));
    let mut i: usize = 0;
    while i < components.len()
        invariant
            i <= components@.len(),
            cs == component_views(components@),
            cs.len() == components@.len(),
            bytes@ == seq![namespace_tag(ns)] + encode_components(cs.take(i as int)),
        decreases components@.len() - i,
    {
        let c = &components[i];
        let prefix = u64_to_le_bytes(c.len() as u64);
        push_all(&mut bytes, &prefix);
        push_all(&mut bytes, c);
        proof {
            assert(cs[i as int] == components@[i as int]@);
            assert(cs.take(i + 1) =~= cs.take(i as int).push(cs[i as int]));
            lemma_encode_components_push(cs.take(i as int), cs[i as int]);
            assert(bytes@ =~= seq![namespace_tag(ns)] + encode_components(cs.take(i + 1)));
        }
        i = i + 1;
    }
    proof {
        assert(cs.take(cs.len() as int) =~= cs);
    }
    Address { bytes }
}

proof fn lemma_encode_components_min_len(cs: Seq<Seq<u8>>)
    ensures
        cs.len() == 0 ==> encode_components(cs).len() == 0,
        cs.len() > 0 ==> encode_components(cs).len() >= 8,
{
    lemma_auto_spec_u64_to_from_le_bytes();
    if cs.len() > 0 {
        assert(spec_u64_to_le_bytes(cs[0].len() as u64).len() == 8);
    }
}

proof fn lemma_encode_components_injective(cs1: Seq<Seq<u8>>, cs2: Seq<Seq<u8>>)
    requires
        components_fit(cs1),
        components_fit(cs2),
        encode_components(cs1) == encode_components(cs2),
    ensures
        cs1 == cs2,
    decreases cs1.len(),
{
    lemma_auto_spec_u64_to_from_le_bytes();
    lemma_encode_components_min_len(cs1);
    lemma_encode_components_min_len(cs2);
    if cs1.len() == 0 && cs2.len() == 0 {
        assert(cs1 =~= cs2);
    } else if cs1.len() == 0 || cs2.len() == 0 {
        assert(false);
    } else {
        let e = encode_components(cs1);
        let a = cs1[0];
        let b = cs2[0];
        let pa = spec_u64_to_le_bytes(a.len() as u64);
        let pb = spec_u64_to_le_bytes(b.len() as u64);
        let r1 = encode_components(cs1.drop_first());
        let r2 = encode_components(cs2.drop_first());
        assert(pa.len() == 8);
        assert(pb.len() == 8);
        assert(e == (pa + a) + r1);
        assert(e == (pb + b) + r2);
        assert(e.subrange(0, 8) =~= pa);
        assert(e.subrange(0, 8) =~= pb);
        assert(spec_u64_from_le_bytes(pa) == a.len() as u64);
        assert(spec_u64_from_le_bytes(pb) == b.len() as u64);
        assert(component_fits(a) && component_fits(b));
        assert(a.len() == b.len());
        assert(a =~= e.subrange(8, 8 + a.len() as int));
        assert(b =~= e.subrange(8, 8 + b.len() as int));
        assert(r1 =~= e.subrange(8 + a.len() as int, e.len() as int));
        assert(r2 =~= e.subrange(8 + b.len() as int, e.len() as int));
        assert(components_fit(cs1.drop_first())) by {
            assert(forall|i: int|
                0 <= i < cs1.drop_first().len() ==> #[trigger] cs1.drop_first()[i] == cs1[i + 1]);
        }
        assert(components_fit(cs2.drop_first())) by {
            assert(forall|i: int|
                0 <= i < cs2.drop_first().len() ==> #[trigger] cs2.drop_first()[i] == cs2[i + 1]);
        }
        lemma_encode_components_injective(cs1.drop_first(), cs2.drop_first());
        assert(cs1 =~= cs2) by {
            assert(cs1.len() == cs2.len());
            assert(forall|i: int| 1 <= i < cs1.len() ==> #[trigger] cs1[i] == cs1.drop_first()[i - 1]);
            assert(forall|i: int| 1 <= i < cs2.len() ==> #[trigger] cs2[i] == cs2.drop_first()[i - 1]);
        }
    }
}

/// Address derivation is injective: equal addresses can only come from
/// the same namespace and the same ordered components.  Together with the
/// purity of `address_of` this pins the derivation down: identical seeds
/// always give the identical address, and any difference in any component,
/// or in their order or namespace, gives a different one.
pub proof fn lemma_address_injective(ns1: Namespace, cs1: Seq<Seq<u8>>, ns2: Namespace, cs2: Seq<Seq<u8>>)
    requires
        components_fit(cs1),
        components_fit(cs2),
        address_of(ns1, cs1) == address_of(ns2, cs2),
    ensures
        ns1 == ns2,
        cs1 == cs2,
{
    let e1 = address_of(ns1, cs1);
    let e2 = address_of(ns2, cs2);
    assert(e1[0] == namespace_tag(ns1));
    assert(e2[0] == namespace_tag(ns2));
    assert(namespace_tag(ns1) == namespace_tag(ns2));
    assert(ns1 == ns2) by {
        match (ns1, ns2) {
            (Namespace::Todo, Namespace::Todo) => {},
            (Namespace::Vote, Namespace::Vote) => {},
            (Namespace::Receipt, Namespace::Receipt) => {},
            _ => {
                assert(false);
            },
        }
    }
    assert(encode_components(cs1) =~= e1.subrange(1, e1.len() as int));
    assert(encode_components(cs2) =~= e2.subrange(1, e2.len() as int));
    lemma_encode_components_injective(cs1, cs2);
}

/// Two distinct voter identities give distinct receipt addresses for the
/// same vote record.
pub proof fn lemma_receipt_address_injective(vote_addr: Seq<u8>, v1: Seq<u8>, v2: Seq<u8>)
    requires
        vote_addr.len() <= u64::MAX,
        v1.len() <= u64::MAX,
        v2.len() <= u64::MAX,
        v1 != v2,
    ensures
        receipt_address(vote_addr, v1) != receipt_address(vote_addr, v2),
{
    if receipt_address(vote_addr, v1) == receipt_address(vote_addr, v2) {
        let cs1 = seq![vote_addr, v1];
        let cs2 = seq![vote_addr, v2];
        assert(components_fit(cs1));
        assert(components_fit(cs2));
        lemma_address_injective(Namespace::Receipt, cs1, Namespace::Receipt, cs2);
        assert(cs1[1] == cs2[1]);
        assert(false);
    }
}

/// A receipt address is strictly longer than the vote address it is
/// derived from, so the two can never coincide.
pub proof fn lemma_receipt_address_differs(vote_addr: Seq<u8>, voter: Seq<u8>)
    ensures
        receipt_address(vote_addr, voter) != vote_addr,
{
    lemma_auto_spec_u64_to_from_le_bytes();
    let cs = seq![vote_addr, voter];
    let single = seq![voter];
    assert(cs.drop_first() =~= single);
    assert(single[0] == voter);
    assert(encode_components(single) == encode_component(voter) + encode_components(
        single.drop_first(),
    ));
    assert(single.drop_first() =~= Seq::<Seq<u8>>::empty());
    assert(encode_components(Seq::<Seq<u8>>::empty()) =~= Seq::<u8>::empty());
    assert(encode_components(single) =~= encode_component(voter));
    assert(spec_u64_to_le_bytes(vote_addr.len() as u64).len() == 8);
    assert(spec_u64_to_le_bytes(voter.len() as u64).len() == 8);
    assert(receipt_address(vote_addr, voter).len() == 17 + vote_addr.len() + voter.len());
}

} // verus!
