use morphir_core::json::JsonValue;
use morphir_core::metadata::assertion::{Assertion, AssertionKey, AssertionSource, Carrier, DocumentId};
use morphir_core::metadata::term::{Fact, GraphName, ObjectTerm};
use morphir_core::metadata::MetadataError;
use morphir_core::node_address::NodeUri;

const SUBJECT: &str = "morphir://ir/pkg/acme/metadata?format=4.0.0#/module/naming";
const OTHER: &str = "morphir://ir/pkg/acme/metadata?format=4.0.0#/module/other";
const LABEL: &str = "morphir://ir/pkg/acme/metadata?format=4.0.0#/module/naming/value/label";

fn uri(s: &str) -> NodeUri {
    NodeUri::parse(s).unwrap()
}

fn fact() -> Fact {
    Fact::new(
        uri(SUBJECT),
        uri(LABEL),
        ObjectTerm::value(JsonValue::Str("Naming".to_string())),
        GraphName::Default,
    )
}

fn owner() -> DocumentId {
    DocumentId::new("doc.json".to_string()).unwrap()
}

fn compiler(producer: &str, reference: Option<&str>) -> AssertionSource {
    AssertionSource::Compiler {
        producer: producer.to_string(),
        reference: reference.map(str::to_string),
    }
}

#[test]
fn a_document_identity_is_never_empty() {
    assert_eq!(DocumentId::new(String::new()), Err(MetadataError::EmptyDocumentId));
    assert_eq!(owner().as_str(), "doc.json");
}

#[test]
fn a_node_local_carrier_must_describe_the_fact_subject() {
    assert!(AssertionKey::new(owner(), Carrier::AttributesFacts(uri(SUBJECT)), fact()).is_ok());
    assert_eq!(
        AssertionKey::new(owner(), Carrier::AnnotationsFacts(uri(OTHER)), fact()).unwrap_err(),
        MetadataError::CarrierSubjectMismatch
    );
    assert_eq!(
        AssertionKey::new(
            owner(),
            Carrier::Sidecar { target: uri(OTHER), entry_point: uri(LABEL) },
            fact()
        )
        .unwrap_err(),
        MetadataError::CarrierSubjectMismatch
    );
    let key = AssertionKey::new(owner(), Carrier::DocumentGraph, fact()).unwrap();
    assert_eq!(key.owner().as_str(), "doc.json");
    assert_eq!(key.fact().subject().to_string(), SUBJECT);
    assert_eq!(key.fact().predicate().to_string(), LABEL);
    assert_eq!(key.carrier(), &Carrier::DocumentGraph);
}

#[test]
fn extra_claims_are_kept_once_and_in_order() {
    let key = AssertionKey::new(owner(), Carrier::DocumentGraph, fact()).unwrap();
    let mut assertion = Assertion::new(key);
    assert_eq!(
        assertion.add_detail(AssertionSource::Document(owner())),
        Err(MetadataError::DocumentProvenanceIsImplicit)
    );
    assert!(assertion.detail().is_empty());
    let author = AssertionSource::Author { reference: "ann".to_string() };
    assert_eq!(assertion.add_detail(author.clone()), Ok(()));
    assert_eq!(assertion.add_detail(compiler("morphir-elm", Some("src/A.elm"))), Ok(()));
    assert_eq!(assertion.add_detail(compiler("morphir-elm", None)), Ok(()));
    assert_eq!(assertion.add_detail(author.clone()), Ok(()));
    assert_eq!(
        assertion.detail(),
        &[compiler("morphir-elm", None), compiler("morphir-elm", Some("src/A.elm")), author.clone()]
    );
    assert_eq!(
        assertion.sources(),
        vec![
            AssertionSource::Document(owner()),
            compiler("morphir-elm", None),
            compiler("morphir-elm", Some("src/A.elm")),
            author,
        ]
    );
}

#[test]
fn typed_values_keep_their_datatype() {
    let typed = ObjectTerm::typed_json(JsonValue::Null, uri(LABEL));
    match typed {
        ObjectTerm::Value(v) => {
            assert_eq!(v.value(), &JsonValue::Null);
            assert_eq!(v.datatype().map(|d| d.to_string()), Some(LABEL.to_string()));
        }
        ObjectTerm::NodeRef(_) => panic!("a typed value is data"),
    }
    match ObjectTerm::value(JsonValue::Bool(true)) {
        ObjectTerm::Value(v) => assert!(v.datatype().is_none()),
        ObjectTerm::NodeRef(_) => panic!("a value is data"),
    }
}
