use todo_vote::address::Namespace;

fn derive_address(ns: Namespace, components: &Vec<Vec<u8>>) -> todo_vote::address::Address {
    todo_vote::address::derive(ns, components)
}

fn owner_bytes() -> Vec<u8> {
    vec![7, 7, 7, 7]
}

#[test]
fn derive_is_deterministic() {
    let components = vec![owner_bytes(), b"garden".to_vec()];
    let a = derive_address(Namespace::Todo, &components);
    let b = derive_address(Namespace::Todo, &components);
    assert_eq!(a.bytes, b.bytes);
}

#[test]
fn derive_differs_across_components() {
    let a = derive_address(Namespace::Todo, &vec![owner_bytes(), b"garden".to_vec()]);
    let b = derive_address(Namespace::Todo, &vec![owner_bytes(), b"garten".to_vec()]);
    assert_ne!(a.bytes, b.bytes);
}

#[test]
fn derive_differs_across_namespaces() {
    let components = vec![owner_bytes(), b"garden".to_vec()];
    let a = derive_address(Namespace::Todo, &components);
    let b = derive_address(Namespace::Vote, &components);
    assert_ne!(a.bytes, b.bytes);
}

#[test]
fn derive_order_matters() {
    let a = derive_address(Namespace::Vote, &vec![vec![1], vec![2]]);
    let b = derive_address(Namespace::Vote, &vec![vec![2], vec![1]]);
    assert_ne!(a.bytes, b.bytes);
}

#[test]
fn derive_component_split_matters() {
    let a = derive_address(Namespace::Vote, &vec![vec![1, 2], vec![3]]);
    let b = derive_address(Namespace::Vote, &vec![vec![1], vec![2, 3]]);
    assert_ne!(a.bytes, b.bytes);
}

#[test]
fn derive_distinct_many() {
    let owner = owner_bytes();
    let mut addresses: Vec<Vec<u8>> = Vec::new();
    for i in 0..10_000u32 {
        let component = i.to_le_bytes().to_vec();
        let a = derive_address(Namespace::Todo, &vec![owner.clone(), component]);
        addresses.push(a.bytes);
    }
    addresses.sort();
    for pair in addresses.windows(2) {
        assert_ne!(pair[0], pair[1]);
    }
}
