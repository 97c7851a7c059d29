use hangulang::eqedit::error::EqError;
use hangulang::error::ConvertError;

#[test]
fn convert_error_messages() {
    assert_eq!(
        ConvertError::Parse("bad".into()).message(),
        "failed to parse HWP document: bad"
    );
    assert_eq!(
        ConvertError::EncryptedDocument.message(),
        "encrypted HWP documents are not supported"
    );
    assert_eq!(
        ConvertError::DistributionDocumentUnsupported.message(),
        "distribution (배포용) HWP documents are not supported in v1"
    );
    assert_eq!(
        ConvertError::UnsupportedFormat("HWP 3.x").message(),
        "unsupported input format: HWP 3.x"
    );
    assert_eq!(
        ConvertError::Xml("eof".into()).message(),
        "failed to serialize DocLang XML: eof"
    );
}

#[test]
fn eq_error_message() {
    assert_eq!(
        EqError::UnbalancedBrace.message(),
        "unbalanced braces in EqEdit script"
    );
}
