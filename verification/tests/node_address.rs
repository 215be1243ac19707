use morphir_core::format_version::ReleaseTriplet;
use morphir_core::naming::name::Name;
use morphir_core::naming::package_name::PackageName;
use morphir_core::naming::path::Path;
use morphir_core::node_address::{
    ArtifactRevision, ArtifactSelector, FingerprintMode, NodeFingerprintBuilder, NodeOwner,
    NodeRoot, NodeStep, NodeUri, NodeUriError, Sha256Digest,
};

const ABC_HEX: &str = "ba7816bf8f01cfea414140de5dae2223b00361a396177a9cb410ff61f20015ad";
const ABC_DIGEST: &str = "sha256:ba7816bf8f01cfea414140de5dae2223b00361a396177a9cb410ff61f20015ad";

fn invalid(message: &str) -> NodeUriError {
    NodeUriError::Invalid(message.to_string())
}

#[test]
fn a_value_address_parses_and_spells_back() {
    let text = "morphir://ir/pkg/acme/orders?format=4.0.0#/module/api/value/submit-order";
    let uri = NodeUri::parse(text).unwrap();
    assert_eq!(uri.to_string(), text);
    assert_eq!(uri.format(), ReleaseTriplet::new(4, 0, 0));
    assert!(uri.steps().is_empty());
    assert_eq!(uri.revision(), &ArtifactRevision::Current);
    assert!(uri.guard().is_none());
    match uri.artifact() {
        ArtifactSelector::Package(p) => assert_eq!(p.to_canonical_string(), "acme/orders"),
        other => panic!("expected a package selector, got {other:?}"),
    }
    match uri.root() {
        NodeRoot::Value { owner, module, name } => {
            assert_eq!(owner, &NodeOwner::OwnPackage);
            assert_eq!(module.to_canonical_string(), "api");
            assert_eq!(name.to_kebab_case(), "submit-order");
        }
        other => panic!("expected a value root, got {other:?}"),
    }
}

#[test]
fn every_root_shape_spells_back() {
    for text in [
        "morphir://ir/pkg/acme/orders?format=4.0.0#/distribution",
        "morphir://ir/pkg/acme/orders?format=4.0.0#/package",
        "morphir://ir/pkg/acme/orders?format=4.0.0#/dependency/acme%2Fbase",
        "morphir://ir/pkg/acme/orders?format=4.0.0#/entry-point/main",
        "morphir://ir/workspace/my-work?format=4.1.0#/module/api",
        "morphir://ir/pkg/acme/orders?format=4.0.0#/dependency/acme%2Fbase/module/core/type/money",
        "morphir://ir/pkg/acme/orders?format=4.0.0#/module/api/type/order/type-exp/record/field/id",
        "morphir://ir/pkg/acme/orders?format=4.0.0#/module/api/value/total/body/if/then",
    ] {
        let uri = NodeUri::parse(text).unwrap();
        assert_eq!(uri.to_string(), text);
    }
}

#[test]
fn a_positional_step_needs_a_guard_or_a_pin() {
    let unguarded = "morphir://ir/pkg/acme/orders?format=4.0.0#/module/api/value/total/body/tuple/element/1";
    assert_eq!(NodeUri::parse(unguarded), Err(NodeUriError::MissingGuard));

    let guarded = format!(
        "morphir://ir/pkg/acme/orders?format=4.0.0&guard={ABC_DIGEST}#/module/api/value/total/body/tuple/element/1"
    );
    let uri = NodeUri::parse(&guarded).unwrap();
    assert_eq!(uri.to_string(), guarded);
    assert_eq!(uri.steps(), &[NodeStep::Body, NodeStep::TupleElement(1)]);
    assert!(uri.steps()[1].is_positional());
    assert_eq!(uri.guard().unwrap().hex(), ABC_HEX);

    let pinned = format!(
        "morphir://ir/pkg/acme/orders?format=4.0.0&rev={ABC_DIGEST}#/module/api/value/total/body/list/element/0"
    );
    let uri = NodeUri::parse(&pinned).unwrap();
    assert_eq!(uri.revision(), &ArtifactRevision::Pinned(Sha256Digest::parse(ABC_DIGEST).unwrap()));
}

#[test]
fn malformed_addresses_are_refused_with_their_reason() {
    let cases = [
        ("http://ir/pkg/acme?format=4.0.0#/package", "wrong URI authority"),
        ("morphir://ir/pkg/acme?format=4.0.0", "missing node fragment"),
        ("morphir://ir/pkg/acme?format=4.0.0#/package#x", "duplicate fragment"),
        ("morphir://ir/pkg/acme#/package", "missing format query"),
        ("morphir://ir/pkg/?format=4.0.0#/package", "empty package selector"),
        ("morphir://ir/workspace/My?format=4.0.0#/package", "invalid workspace alias"),
        ("morphir://ir/repo/acme?format=4.0.0#/package", "unknown artifact selector"),
        ("morphir://ir/pkg/acme?format#/package", "malformed query parameter"),
        ("morphir://ir/pkg/acme?format=4.0.0&format=4.0.0#/package", "duplicate or unknown query parameter"),
        ("morphir://ir/pkg/acme?format=04.0.0#/package", "format must have three canonical numeric components"),
        ("morphir://ir/pkg/acme?format=4.0#/package", "format must have three canonical numeric components"),
        ("morphir://ir/pkg/acme?format=4.0.0#package", "node fragment must start with /"),
        ("morphir://ir/pkg/acme?format=4.0.0#/nowhere", "invalid node root"),
    ];
    for (text, reason) in cases {
        assert_eq!(NodeUri::parse(text), Err(invalid(reason)), "{text}");
    }
}

#[test]
fn a_noncanonical_spelling_is_refused() {
    let text = "morphir://ir/pkg/acme/orders?format=4.0.0#/module/api/value/submitOrder";
    assert!(NodeUri::parse(text).is_err());
}

#[test]
fn error_messages_carry_their_reason() {
    assert_eq!(
        NodeUriError::MissingGuard.message(),
        "an unpinned indexed node address requires a guard"
    );
    assert_eq!(invalid("duplicate fragment").message(), "invalid node URI: duplicate fragment");
    assert_eq!(
        NodeUriError::InvalidFingerprint("x".to_string()).message(),
        "cannot fingerprint selected semantic child: x"
    );
}

#[test]
fn an_address_built_from_parts_is_the_one_its_spelling_parses_to() {
    let uri = NodeUri::new(
        ArtifactSelector::Package(PackageName::new(Path::new("acme/orders"))),
        ReleaseTriplet::new(4, 0, 0),
        NodeRoot::Type {
            owner: NodeOwner::OwnPackage,
            module: Path::new("api"),
            name: Name::from("order"),
        },
        vec![NodeStep::TypeExpression],
        ArtifactRevision::Current,
        None,
    )
    .unwrap();
    assert_eq!(
        uri.to_string(),
        "morphir://ir/pkg/acme/orders?format=4.0.0#/module/api/type/order/type-exp"
    );
    let back = NodeUri::parse(&uri.to_string()).unwrap();
    assert!(back.same_as(&uri));
    assert!(back.duplicate().same_as(&uri));
}

#[test]
fn an_address_whose_spelling_would_need_a_guard_is_refused() {
    let result = NodeUri::new(
        ArtifactSelector::Workspace("work".to_string()),
        ReleaseTriplet::new(4, 0, 0),
        NodeRoot::Value {
            owner: NodeOwner::OwnPackage,
            module: Path::new("api"),
            name: Name::from("total"),
        },
        vec![NodeStep::Body, NodeStep::ListElement(2)],
        ArtifactRevision::Current,
        None,
    );
    assert_eq!(result, Err(NodeUriError::MissingGuard));
}

#[test]
fn an_entry_point_name_is_percent_encoded() {
    let uri = NodeUri::new(
        ArtifactSelector::Workspace("work".to_string()),
        ReleaseTriplet::new(4, 0, 0),
        NodeRoot::EntryPoint("my app/1".to_string()),
        vec![],
        ArtifactRevision::Current,
        None,
    )
    .unwrap();
    let text = uri.to_string();
    assert_eq!(text, "morphir://ir/workspace/work?format=4.0.0#/entry-point/my%20app%2F1");
    match NodeUri::parse(&text).unwrap().root() {
        NodeRoot::EntryPoint(name) => assert_eq!(name, "my app/1"),
        other => panic!("expected an entry point, got {other:?}"),
    }
}

#[test]
fn a_digest_is_the_lowercase_hex_of_sha256() {
    let digest = Sha256Digest::from_bytes(b"abc");
    assert_eq!(digest.hex(), ABC_HEX);
    assert_eq!(digest.to_string(), ABC_DIGEST);
    assert!(digest.same_as(&Sha256Digest::parse(ABC_DIGEST).unwrap()));
}

#[test]
fn a_digest_must_be_sha256_with_64_lowercase_hex_characters() {
    assert_eq!(Sha256Digest::parse(ABC_HEX), Err(invalid("digest must use sha256")));
    let upper = format!("sha256:{}", ABC_HEX.to_uppercase());
    assert_eq!(
        Sha256Digest::parse(&upper),
        Err(invalid("digest must have 64 lowercase hex digits"))
    );
    let short = format!("sha256:{}", &ABC_HEX[1..]);
    assert_eq!(
        Sha256Digest::parse(&short),
        Err(invalid("digest must have 64 lowercase hex digits"))
    );
}

#[test]
fn the_format_version_spells_as_three_numbers() {
    assert_eq!(ReleaseTriplet::new(4, 12, 0).to_string(), "4.12.0");
}

#[test]
fn a_fingerprint_hashes_the_framed_children_after_the_header() {
    let empty = NodeFingerprintBuilder::new();
    assert_eq!(
        empty.finish().hex(),
        "212a520e139944d4a05fd983f16154e1de6bf3f5469743c9894e3568a093b58e"
    );
    let mut one = NodeFingerprintBuilder::new();
    one.push_canonical(&NodeStep::TupleElement(1), b"{}").unwrap();
    assert_eq!(
        one.clone().finish().hex(),
        "072ef5348a36ecc8f763276dc7e93cdb582a34d57d4a2586f60062ddab8c8882"
    );
    one.push_canonical(&NodeStep::PatternMatchCaseBody(300), b"null").unwrap();
    assert_eq!(
        one.finish().to_string(),
        "sha256:ac68ef9ca59a1ea58e595665367cb2cd62dcc04214151d927b9faaa1e4f81686"
    );
}

#[test]
fn only_a_positional_step_is_fingerprinted() {
    let mut builder = NodeFingerprintBuilder::for_v4_1();
    assert_eq!(builder.mode(), FingerprintMode::V4_1);
    assert_eq!(
        builder.push_canonical(&NodeStep::Body, b"{}"),
        Err(NodeUriError::InvalidFingerprint("step is not positional".to_string()))
    );
    assert_eq!(
        builder.finish().hex(),
        "212a520e139944d4a05fd983f16154e1de6bf3f5469743c9894e3568a093b58e"
    );
}
