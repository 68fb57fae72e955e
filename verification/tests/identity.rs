use node::identity::{Delegate, Did, DidError, Doc, ProjId, ProjIdError, PublicKey};

#[test]
fn proj_id_encodes_base58btc() {
    // 32 zero bytes render as the multibase prefix `z` and 32 ones;
    // this fails if the encoder handed its input back unchanged.
    let p = ProjId { digest: [0; 32] };
    assert_eq!(p.encode(), "z11111111111111111111111111111111");
}

#[test]
fn proj_id_roundtrip() {
    let p = ProjId { digest: [42; 32] };
    let s = p.encode();
    let q = ProjId::from_str(&s).expect("the rendering parses back");
    assert_eq!(p, q);
}

#[test]
fn proj_id_rejects_bad_input() {
    assert!(matches!(ProjId::from_str("not base58 0OIl"), Err(ProjIdError::InvalidDigest)));
    // A valid Base58Btc string of the wrong length is refused too.
    assert!(matches!(ProjId::from_str("z1111"), Err(ProjIdError::InvalidDigest)));
}

#[test]
fn did_roundtrip() {
    let did = Did(PublicKey { bytes: [7; 32] });
    let s = did.encode();
    assert!(s.starts_with("did:key:z"));
    let back = Did::decode(&s).expect("the rendering parses back");
    assert_eq!(did, back);
}

#[test]
fn did_rejects_bad_input() {
    assert!(matches!(Did::decode("key:z6Mkf"), Err(DidError::Did(_))));
    assert!(matches!(Did::decode("did:key:0invalid"), Err(DidError::PublicKey)));
    assert!(matches!(Did::decode("did"), Err(DidError::Did(_))));
}

#[test]
fn public_key_roundtrip() {
    let k = PublicKey { bytes: [0xee; 32] };
    let s = k.encode();
    let back = PublicKey::decode(&s).expect("the rendering parses back");
    assert_eq!(k, back);
}

#[test]
fn parse_ref_splits_remote_refs() {
    let k = PublicKey { bytes: [3; 32] };
    let path = format!("refs/remotes/{}/heads/master", k.encode());
    let (id, name) = node::git::parse_ref(&path).expect("a well-formed remote ref parses");
    assert_eq!(id, k);
    assert_eq!(name, "heads/master");
}

#[test]
fn parse_ref_rejects_malformed_paths() {
    let k = PublicKey { bytes: [3; 32] };
    assert!(node::git::parse_ref("refs/heads/master").is_err());
    assert!(node::git::parse_ref(&format!("refs/remotes/{}", k.encode())).is_err());
    assert!(node::git::parse_ref(&format!("refs/remotes/{}/", k.encode())).is_err());
    assert!(node::git::parse_ref("refs/remotes/nonsense/heads/master").is_err());
    assert!(node::git::parse_ref("").is_err());
}

#[test]
fn doc_names_delegates() {
    let doc = Doc {
        name: String::from("acme"),
        description: String::from("a project"),
        default_branch: String::from("master"),
        version: 1,
        parent: None,
        delegates: vec![Delegate {
            name: String::from("alice"),
            id: Did(PublicKey { bytes: [1; 32] }),
        }],
    };
    assert!(doc.is_well_formed());
    let orphan = Doc { delegates: vec![], ..doc };
    assert!(!orphan.is_well_formed());
}

#[test]
fn parse_ref_rejects_bad_refnames() {
    let k = PublicKey { bytes: [3; 32] };
    let bad = [
        format!("refs/remotes/{}/heads//master", k.encode()),
        format!("refs/remotes/{}/heads/master.", k.encode()),
        format!("refs/remotes/{}/heads/ma..ster", k.encode()),
        format!("refs/remotes/{}/heads/mas^ter", k.encode()),
        format!("refs/remotes/{}//heads/master", k.encode()),
    ];
    for path in &bad {
        assert!(matches!(
            node::git::parse_ref(path),
            Err(node::git::RefError::Format(_))
        ));
    }
    assert!(node::git::parse_ref(&format!("refs/remotes/{}/heads/master", k.encode())).is_ok());
}
