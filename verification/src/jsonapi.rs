//! What the JSON:API face says when a request is not in order.
//!
//! A server that speaks JSON:API looks at the headers of a request,
//! reads the document in its body, and takes the object that it needs
//! out of the document. Each of the three can fail; this module holds
//! the words for each failure and the rule by which headers are judged.

use crate::users::text_view;
use vstd::prelude::*;
use vstd::string::StringExecFns;

verus! {

/// Why an object could not be made out of a document.
#[derive(Debug)]
pub enum ObjectConversionError {
    /// The object is of another type than the one asked for.
    ImproperType { expected: String, got: String },
    /// The object has no id.
    MissingId,
    /// The attributes could not be read; the text says why.
    FailedDeserialization(String),
}

/// What is wrong with the document of a request.
#[derive(Debug)]
pub enum DocumentError {
    /// There is no document in the request
    NoDocument,
    /// The endpoint supports a single primary data when multiple were provided
    MultipleData,
    /// The endpoint requires primary data
    NoData,
    /// The data has no id
    NoId { pointer: Option<String> },
    /// The data has the wrong type
    WrongType { expected: Vec<String>, got: String, pointer: Option<String> },
    /// An object could not be made out of the data
    ConversionError { err: ObjectConversionError, pointer: Option<String> },
    /// The endpoint expected an attribute where none was provided
    NoAttributes { pointer: Option<String> },
    /// The endpoint expected there to be a relationships key in the document
    NoRelationships { pointer: Option<String> },
    /// The named relationship was missing from the document
    NoRelationship { rel: String, pointer: Option<String> },
}

/// The texts of a list of strings.
pub open spec fn texts_of(parts: Seq<String>) -> Seq<Seq<char>> {
    parts.map_values(|s: String| s@)
}

/// The parts one after the other, with a comma and a space between two.
pub open spec fn joined(parts: Seq<Seq<char>>) -> Seq<char>
    decreases parts.len(),
{
    if parts.len() == 0 {
        Seq::empty()
    } else if parts.len() == 1 {
        parts[0]
    } else {
        joined(parts.drop_last()) + ", "@ + parts.last()
    }
}

/// The short name of an error.
pub open spec fn title_of(e: DocumentError) -> Seq<char> {
    match e {
        DocumentError::NoDocument => "No Document"@,
        DocumentError::MultipleData => "Multiple Data"@,
        DocumentError::NoData => "No Data"@,
        DocumentError::NoId { .. } => "No Id"@,
        DocumentError::WrongType { .. } => "Wrong Type"@,
        DocumentError::ConversionError { .. } => "Object Error"@,
        DocumentError::NoAttributes { .. } => "Missing Attributes"@,
        DocumentError::NoRelationships { .. } => "Missing Relationships"@,
        DocumentError::NoRelationship { .. } => "Missing Relationship"@,
    }
}

/// Whether an error is one that is never shown: an object without an id
/// is reported as `NoId`, not as a failed conversion.
pub open spec fn unshown(e: DocumentError) -> bool {
    e matches DocumentError::ConversionError { err: ObjectConversionError::MissingId, .. }
}

/// The sentence that describes an error.
pub open spec fn detail_of(e: DocumentError) -> Seq<char> {
    match e {
        DocumentError::NoDocument => "The request does not contain a document"@,
        DocumentError::MultipleData => "The document contains multiple primary data when the endpoint expects only one"@,
        DocumentError::NoData => "The document contains no primary data"@,
        DocumentError::NoId { .. } => "The object does not have an id"@,
        DocumentError::WrongType { expected, got, .. } => "Object is of the wrong type (expected "@
            + joined(texts_of(expected@)) + ", got "@ + got@ + ")"@,
        DocumentError::ConversionError {
            err: ObjectConversionError::ImproperType { expected, got },
            ..
        } => "Data should be of type "@ + expected@ + " but is of type "@ + got@ + " instead"@,
        DocumentError::ConversionError {
            err: ObjectConversionError::FailedDeserialization(e),
            ..
        } => "Failed to deserialize attributes of primary data: "@ + e@,
        DocumentError::ConversionError { err: ObjectConversionError::MissingId, .. } => Seq::empty(),
        DocumentError::NoAttributes { .. } => "Data is missing attributes"@,
        DocumentError::NoRelationships { .. } => "Data is missing relationships"@,
        DocumentError::NoRelationship { rel, .. } => "Data is missing relationship "@ + rel@,
    }
}

/// Where in the document an error lies.
pub open spec fn pointer_of(e: DocumentError) -> Option<Seq<char>> {
    match e {
        DocumentError::NoDocument => None,
        DocumentError::MultipleData => Some("/data"@),
        DocumentError::NoData => Some("/data"@),
        DocumentError::NoId { pointer } => text_view(pointer),
        DocumentError::WrongType { pointer, .. } => text_view(pointer),
        DocumentError::ConversionError { pointer, .. } => text_view(pointer),
        DocumentError::NoAttributes { pointer } => text_view(pointer),
        DocumentError::NoRelationships { pointer } => text_view(pointer),
        DocumentError::NoRelationship { pointer, .. } => text_view(pointer),
    }
}

fn copy_of(text: &Option<String>) -> (r: Option<String>)
    ensures
        text_view(r) == text_view(*text),
{
    match text {
        Some(s) => Some(s.clone()),
        None => None,
    }
}

fn join(parts: &Vec<String>) -> (r: String)
    ensures
        r@ == joined(texts_of(parts@)),
{
    let mut s = String::new();
    let ghost all = texts_of(parts@);
    let mut i: usize = 0;
    while i < parts.len()
        invariant
            i <= parts.len(),
            all == texts_of(parts@),
            s@ == joined(all.take(i as int)),
        decreases parts.len() - i,
    {
        proof {
            assert(all.take(i + 1).drop_last() =~= all.take(i as int));
            assert(all.take(i + 1).last() == parts@[i as int]@);
        }
        if i != 0 {
            s.append(", ");
        } else {
            assert(s@ + parts@[i as int]@ =~= parts@[i as int]@);
        }
        s.append(parts[i].as_str());
        i += 1;
    }
    assert(all.take(i as int) =~= all);
    s
}

impl DocumentError {
    /// The data at `pointer` has no attributes.
    pub fn no_attributes(pointer: String) -> (r: DocumentError)
        ensures
            r == (DocumentError::NoAttributes { pointer: Some(pointer) }),
    {
        DocumentError::NoAttributes { pointer: Some(pointer) }
    }

    /// No object could be made out of the data at `pointer`.
    pub fn conversion_error(e: ObjectConversionError, pointer: String) -> (r: DocumentError)
        ensures
            r == (DocumentError::ConversionError { err: e, pointer: Some(pointer) }),
    {
        DocumentError::ConversionError { err: e, pointer: Some(pointer) }
    }

    /// The data at `pointer` has no relationships.
    pub fn no_relationships(pointer: String) -> (r: DocumentError)
        ensures
            r == (DocumentError::NoRelationships { pointer: Some(pointer) }),
    {
        DocumentError::NoRelationships { pointer: Some(pointer) }
    }

    /// The data at `pointer` lacks the relationship `key`.
    pub fn no_relationship(key: String, pointer: String) -> (r: DocumentError)
        ensures
            r == (DocumentError::NoRelationship { rel: key, pointer: Some(pointer) }),
    {
        DocumentError::NoRelationship { rel: key, pointer: Some(pointer) }
    }

    /// The data at `pointer` is of type `got`, not of one of `expected`.
    pub fn wrong_type(expected: Vec<String>, got: String, pointer: String) -> (r: DocumentError)
        ensures
            r == (DocumentError::WrongType { expected, got, pointer: Some(pointer) }),
    {
        DocumentError::WrongType { expected, got, pointer: Some(pointer) }
    }

    /// The error of a document for a failed conversion: a missing id
    /// has an error of its own.
    pub fn from_conversion(e: ObjectConversionError) -> (r: DocumentError)
        ensures
            r == match e {
                ObjectConversionError::MissingId => DocumentError::NoId { pointer: None },
                _ => DocumentError::ConversionError { err: e, pointer: None },
            },
            !unshown(r),
    {
        match e {
            ObjectConversionError::MissingId => DocumentError::NoId { pointer: None },
            e => DocumentError::ConversionError { err: e, pointer: None },
        }
    }

    /// The short name of the error.
    pub fn title(&self) -> (r: String)
        ensures
            r@ == title_of(*self),
    {
        let text = match self {
            DocumentError::NoDocument => "No Document",
            DocumentError::MultipleData => "Multiple Data",
            DocumentError::NoData => "No Data",
            DocumentError::NoId { .. } => "No Id",
            DocumentError::WrongType { .. } => "Wrong Type",
            DocumentError::ConversionError { .. } => "Object Error",
            DocumentError::NoAttributes { .. } => "Missing Attributes",
            DocumentError::NoRelationships { .. } => "Missing Relationships",
            DocumentError::NoRelationship { .. } => "Missing Relationship",
        };
        text.to_owned()
    }

    /// The sentence that describes the error.
    pub fn detail(&self) -> (r: Option<String>)
        requires
            !unshown(*self),
        ensures
            r matches Some(s) && s@ == detail_of(*self),
    {
        Some(
            match self {
                DocumentError::NoDocument => "The request does not contain a document".to_owned(),
                DocumentError::MultipleData => "The document contains multiple primary data when the endpoint expects only one".to_owned(),
                DocumentError::NoData => "The document contains no primary data".to_owned(),
                DocumentError::NoId { .. } => "The object does not have an id".to_owned(),
                DocumentError::WrongType { expected, got, .. } => {
                    let mut s = "Object is of the wrong type (expected ".to_owned();
                    s.append(join(expected).as_str());
                    s.append(", got ");
                    s.append(got.as_str());
                    s.append(")");
                    s
                },
                DocumentError::ConversionError {
                    err: ObjectConversionError::ImproperType { expected, got },
                    ..
                } => {
                    let mut s = "Data should be of type ".to_owned();
                    s.append(expected.as_str());
                    s.append(" but is of type ");
                    s.append(got.as_str());
                    s.append(" instead");
                    s
                },
                DocumentError::ConversionError {
                    err: ObjectConversionError::FailedDeserialization(e),
                    ..
                } => {
                    let mut s = "Failed to deserialize attributes of primary data: ".to_owned();
                    s.append(e.as_str());
                    s
                },
                DocumentError::ConversionError { err: ObjectConversionError::MissingId, .. } => {
                    String::new()
                },
                DocumentError::NoAttributes { .. } => "Data is missing attributes".to_owned(),
                DocumentError::NoRelationships { .. } => "Data is missing relationships".to_owned(),
                DocumentError::NoRelationship { rel, .. } => {
                    let mut s = "Data is missing relationship ".to_owned();
                    s.append(rel.as_str());
                    s
                },
            },
        )
    }

    /// Where in the document the error lies.
    pub fn pointer(&self) -> (r: Option<String>)
        ensures
            text_view(r) == pointer_of(*self),
    {
        match self {
            DocumentError::NoDocument => None,
            DocumentError::MultipleData => Some("/data".to_owned()),
            DocumentError::NoData => Some("/data".to_owned()),
            DocumentError::NoId { pointer } => copy_of(pointer),
            DocumentError::WrongType { pointer, .. } => copy_of(pointer),
            DocumentError::ConversionError { pointer, .. } => copy_of(pointer),
            DocumentError::NoAttributes { pointer } => copy_of(pointer),
            DocumentError::NoRelationships { pointer } => copy_of(pointer),
            DocumentError::NoRelationship { pointer, .. } => copy_of(pointer),
        }
    }
}

/// Why a request was turned away before its document was looked at.
#[derive(Debug)]
pub enum JsonApiError {
    /// The content type carries parameters.
    MediaTypeParameters,
    /// Every acceptable type carries parameters.
    NoAcceptableType,
    /// The body is no document; the text says why.
    SerdeError(String),
    /// The body could not be read; the text says why.
    IoError(String),
}

/// Where the rule on media types is written down.
pub const NEGOTIATION_RULE: &'static str = "https://jsonapi.org/format/#content-negotiation-servers";

/// Why a request was turned away, in a sentence.
pub open spec fn reason_of(e: JsonApiError) -> Seq<char> {
    match e {
        JsonApiError::MediaTypeParameters => "Content type had media type parameters in violation of https://jsonapi.org/format/#content-negotiation-servers"@,
        JsonApiError::NoAcceptableType => "Accept header had JSON:API media type but all instances included parameters in violation of https://jsonapi.org/format/#content-negotiation-servers"@,
        JsonApiError::SerdeError(e) => "Error deserializing document ("@ + e@ + ")"@,
        JsonApiError::IoError(e) => "IO Error while parsing body ("@ + e@ + ")"@,
    }
}

/// The HTTP status that answers an error.
pub open spec fn status_of(e: JsonApiError) -> u16 {
    match e {
        JsonApiError::MediaTypeParameters => 415,
        JsonApiError::NoAcceptableType => 406,
        JsonApiError::SerdeError(_) => 400,
        JsonApiError::IoError(_) => 500,
    }
}

/// What is sent back for an error: the members of an error object.
#[derive(Debug)]
pub struct ErrorObject {
    /// Where to read about the rule that was broken
    pub about: Option<String>,
    /// The HTTP status
    pub status: u16,
    pub title: Option<String>,
    pub detail: Option<String>,
}

/// The members of the error object for an error.
pub open spec fn described(e: JsonApiError, o: ErrorObject) -> bool {
    &&& o.status == status_of(e)
    &&& text_view(o.about) == match e {
        JsonApiError::MediaTypeParameters => Some(NEGOTIATION_RULE@),
        JsonApiError::NoAcceptableType => Some(NEGOTIATION_RULE@),
        _ => None,
    }
    &&& text_view(o.title) == match e {
        JsonApiError::MediaTypeParameters => Some("Invalid Media Type Parameters"@),
        JsonApiError::NoAcceptableType => Some("No Acceptable Type"@),
        JsonApiError::SerdeError(_) => Some("Deserialization Error"@),
        JsonApiError::IoError(_) => None,
    }
    &&& text_view(o.detail) == match e {
        JsonApiError::IoError(_) => None,
        _ => Some(reason_of(e)),
    }
}

impl JsonApiError {
    /// Why the request was turned away, in a sentence.
    pub fn reason(&self) -> (r: String)
        ensures
            r@ == reason_of(*self),
    {
        match self {
            JsonApiError::MediaTypeParameters => "Content type had media type parameters in violation of https://jsonapi.org/format/#content-negotiation-servers".to_owned(),
            JsonApiError::NoAcceptableType => "Accept header had JSON:API media type but all instances included parameters in violation of https://jsonapi.org/format/#content-negotiation-servers".to_owned(),
            JsonApiError::SerdeError(e) => {
                let mut s = "Error deserializing document (".to_owned();
                s.append(e.as_str());
                s.append(")");
                s
            },
            JsonApiError::IoError(e) => {
                let mut s = "IO Error while parsing body (".to_owned();
                s.append(e.as_str());
                s.append(")");
                s
            },
        }
    }

    /// The error as text, as it is shown.
    pub fn to_string(&self) -> (r: String)
        ensures
            r@ == "Json Api Error: "@ + reason_of(*self),
    {
        let mut s = "Json Api Error: ".to_owned();
        s.append(self.reason().as_str());
        s
    }

    /// The HTTP status that answers the error.
    pub fn status(&self) -> (r: u16)
        ensures
            r == status_of(*self),
    {
        match self {
            JsonApiError::MediaTypeParameters => 415,
            JsonApiError::NoAcceptableType => 406,
            JsonApiError::SerdeError(_) => 400,
            JsonApiError::IoError(_) => 500,
        }
    }

    /// The members of the error object that is sent back.
    pub fn describe(&self) -> (r: ErrorObject)
        ensures
            described(*self, r),
    {
        let about = match self {
            JsonApiError::MediaTypeParameters => Some(NEGOTIATION_RULE.to_owned()),
            JsonApiError::NoAcceptableType => Some(NEGOTIATION_RULE.to_owned()),
            _ => None,
        };
        let title = match self {
            JsonApiError::MediaTypeParameters => Some("Invalid Media Type Parameters".to_owned()),
            JsonApiError::NoAcceptableType => Some("No Acceptable Type".to_owned()),
            JsonApiError::SerdeError(_) => Some("Deserialization Error".to_owned()),
            JsonApiError::IoError(_) => None,
        };
        let detail = match self {
            JsonApiError::IoError(_) => None,
            _ => Some(self.reason()),
        };
        ErrorObject { about, status: self.status(), title, detail }
    }
}

/// A media type as a header names it: the two levels, and how many
/// parameters follow.
#[derive(Debug)]
pub struct MediaType {
    pub top: String,
    pub sub: String,
    pub params: usize,
}

/// What the headers of a request mean for it.
#[derive(Clone, Copy, Debug, PartialEq, Eq, Structural)]
pub enum Negotiation {
    /// The request is no JSON:API request and is passed on untouched.
    Pass,
    /// The content type carries parameters: the request is refused.
    RefuseContentType,
    /// No acceptable type is without parameters: the request is refused.
    RefuseAccept,
    /// The body is to be read as a document.
    Read,
}

/// Whether a media type is `application/vnd.api+json`.
pub open spec fn is_json_api(m: MediaType) -> bool {
    m.top@ == "application"@ && m.sub@ == "vnd.api+json"@
}

/// The rule on the headers: a request whose content type is not that of
/// JSON:API is passed on; parameters on the content type are refused;
/// and so is a list of acceptable types in which application types
/// stand, all with parameters.
pub open spec fn negotiated(content_type: Option<MediaType>, accept: Option<Vec<MediaType>>) -> Negotiation {
    match content_type {
        Some(m) => if !is_json_api(m) {
            Negotiation::Pass
        } else if m.params > 0 {
            Negotiation::RefuseContentType
        } else {
            match accept {
                None => Negotiation::Read,
                Some(v) => if (exists|i: int|
                    0 <= i < v@.len() && (#[trigger] v@[i]).top@ == "application"@) && !(exists|
                    i: int,
                |
                    0 <= i < v@.len() && (#[trigger] v@[i]).top@ == "application"@ && v@[i].params
                        == 0) {
                    Negotiation::RefuseAccept
                } else {
                    Negotiation::Read
                },
            }
        },
        None => Negotiation::Pass,
    }
}

/// Judges the headers of a request.
#[verifier::loop_isolation(false)]
pub fn negotiate(content_type: &Option<MediaType>, accept: &Option<Vec<MediaType>>) -> (r: Negotiation)
    ensures
        r == negotiated(*content_type, *accept),
{
    match content_type {
        None => Negotiation::Pass,
        Some(m) => {
            if !(crate::text::same_text(m.top.as_str(), "application") && crate::text::same_text(
                m.sub.as_str(),
                "vnd.api+json",
            )) {
                return Negotiation::Pass;
            }
            if m.params > 0 {
                return Negotiation::RefuseContentType;
            }
            match accept {
                None => Negotiation::Read,
                Some(v) => {
                    let mut any = false;
                    let mut i: usize = 0;
                    while i < v.len()
                        invariant
                            i <= v.len(),
                            any == exists|j: int|
                                0 <= j < i && (#[trigger] v@[j]).top@ == "application"@,
                            forall|j: int|
                                0 <= j < i ==> !((#[trigger] v@[j]).top@ == "application"@
                                    && v@[j].params == 0),
                        decreases v.len() - i,
                    {
                        if crate::text::same_text(v[i].top.as_str(), "application") {
                            if v[i].params == 0 {
                                assert(v@[i as int].top@ == "application"@ && v@[i as int].params
                                    == 0);
                                return Negotiation::Read;
                            }
                            any = true;
                        }
                        i += 1;
                    }
                    if any {
                        Negotiation::RefuseAccept
                    } else {
                        Negotiation::Read
                    }
                },
            }
        },
    }
}

} // verus!
