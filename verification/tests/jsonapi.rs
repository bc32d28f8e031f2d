use libqaul::jsonapi::{
    negotiate, DocumentError, JsonApiError, MediaType, Negotiation, ObjectConversionError,
};

fn mime(top: &str, sub: &str, params: usize) -> MediaType {
    MediaType { top: top.to_string(), sub: sub.to_string(), params }
}

#[test]
fn document_errors_in_words() {
    let cases: Vec<(DocumentError, &str, &str, Option<&str>)> = vec![
        (DocumentError::NoDocument, "No Document", "The request does not contain a document", None),
        (
            DocumentError::MultipleData,
            "Multiple Data",
            "The document contains multiple primary data when the endpoint expects only one",
            Some("/data"),
        ),
        (DocumentError::NoData, "No Data", "The document contains no primary data", Some("/data")),
        (
            DocumentError::from_conversion(ObjectConversionError::MissingId),
            "No Id",
            "The object does not have an id",
            None,
        ),
        (
            DocumentError::no_attributes("/data/0".to_string()),
            "Missing Attributes",
            "Data is missing attributes",
            Some("/data/0"),
        ),
        (
            DocumentError::no_relationships("/data".to_string()),
            "Missing Relationships",
            "Data is missing relationships",
            Some("/data"),
        ),
        (
            DocumentError::no_relationship("author".to_string(), "/data".to_string()),
            "Missing Relationship",
            "Data is missing relationship author",
            Some("/data"),
        ),
        (
            DocumentError::wrong_type(vec!["user".to_string()], "grant".to_string(), "/data".to_string()),
            "Wrong Type",
            "Object is of the wrong type (expected user, got grant)",
            Some("/data"),
        ),
        (
            DocumentError::wrong_type(
                vec!["a".to_string(), "b".to_string(), "c".to_string()],
                "d".to_string(),
                "/p".to_string(),
            ),
            "Wrong Type",
            "Object is of the wrong type (expected a, b, c, got d)",
            Some("/p"),
        ),
        (
            DocumentError::wrong_type(vec![], "d".to_string(), "/p".to_string()),
            "Wrong Type",
            "Object is of the wrong type (expected , got d)",
            Some("/p"),
        ),
        (
            DocumentError::conversion_error(
                ObjectConversionError::ImproperType { expected: "user".to_string(), got: "room".to_string() },
                "/data".to_string(),
            ),
            "Object Error",
            "Data should be of type user but is of type room instead",
            Some("/data"),
        ),
        (
            DocumentError::from_conversion(ObjectConversionError::FailedDeserialization(
                "missing field `name`".to_string(),
            )),
            "Object Error",
            "Failed to deserialize attributes of primary data: missing field `name`",
            None,
        ),
    ];
    for (e, title, detail, pointer) in cases {
        assert_eq!(e.title(), title);
        assert_eq!(e.detail().as_deref(), Some(detail));
        assert_eq!(e.pointer().as_deref(), pointer);
    }
}

#[test]
fn refusals_in_words() {
    let e = JsonApiError::MediaTypeParameters;
    assert_eq!(
        e.reason(),
        "Content type had media type parameters in violation of https://jsonapi.org/format/#content-negotiation-servers"
    );
    assert_eq!(e.to_string(), format!("Json Api Error: {}", e.reason()));
    let o = e.describe();
    assert_eq!(o.status, 415);
    assert_eq!(o.about.as_deref(), Some("https://jsonapi.org/format/#content-negotiation-servers"));
    assert_eq!(o.title.as_deref(), Some("Invalid Media Type Parameters"));
    assert_eq!(o.detail, Some(e.reason()));

    let e = JsonApiError::NoAcceptableType;
    assert_eq!(
        e.reason(),
        "Accept header had JSON:API media type but all instances included parameters in violation of https://jsonapi.org/format/#content-negotiation-servers"
    );
    let o = e.describe();
    assert_eq!((o.status, e.status()), (406, 406));
    assert_eq!(o.title.as_deref(), Some("No Acceptable Type"));
    assert!(o.about.is_some() && o.detail.is_some());

    let e = JsonApiError::SerdeError("EOF at line 1".to_string());
    assert_eq!(e.reason(), "Error deserializing document (EOF at line 1)");
    let o = e.describe();
    assert_eq!(o.status, 400);
    assert_eq!(o.about, None);
    assert_eq!(o.title.as_deref(), Some("Deserialization Error"));
    assert_eq!(o.detail.as_deref(), Some("Error deserializing document (EOF at line 1)"));

    let e = JsonApiError::IoError("broken pipe".to_string());
    assert_eq!(e.reason(), "IO Error while parsing body (broken pipe)");
    let o = e.describe();
    assert_eq!(o.status, 500);
    assert_eq!((o.about, o.title, o.detail), (None, None, None));
}

#[test]
fn headers_are_judged() {
    let api = || Some(mime("application", "vnd.api+json", 0));
    assert_eq!(negotiate(&None, &None), Negotiation::Pass);
    assert_eq!(negotiate(&None, &Some(vec![mime("application", "vnd.api+json", 1)])), Negotiation::Pass);
    assert_eq!(negotiate(&Some(mime("application", "json", 0)), &None), Negotiation::Pass);
    assert_eq!(negotiate(&Some(mime("text", "vnd.api+json", 0)), &None), Negotiation::Pass);
    assert_eq!(negotiate(&Some(mime("application", "json", 3)), &None), Negotiation::Pass);
    assert_eq!(negotiate(&api(), &None), Negotiation::Read);
    assert_eq!(negotiate(&Some(mime("application", "vnd.api+json", 1)), &None), Negotiation::RefuseContentType);
    assert_eq!(negotiate(&api(), &Some(vec![])), Negotiation::Read);
    assert_eq!(negotiate(&api(), &Some(vec![mime("text", "html", 2)])), Negotiation::Read);
    assert_eq!(
        negotiate(&api(), &Some(vec![mime("application", "vnd.api+json", 1)])),
        Negotiation::RefuseAccept
    );
    assert_eq!(
        negotiate(
            &api(),
            &Some(vec![mime("application", "vnd.api+json", 1), mime("text", "html", 0)])
        ),
        Negotiation::RefuseAccept
    );
    assert_eq!(
        negotiate(
            &api(),
            &Some(vec![
                mime("application", "vnd.api+json", 1),
                mime("text", "html", 0),
                mime("application", "vnd.api+json", 0)
            ])
        ),
        Negotiation::Read
    );
}
