//! The failures of building a schema and of executing a request.
use vstd::prelude::*;

verus! {

/// Why a request failed. The first failure anywhere ends the request, and no
/// partial data comes with it.
#[derive(Debug, PartialEq)]
pub enum Error {
    /// The request text could not be parsed; the payload is the parser's report.
    ParseError(String),
    /// The request uses a feature that the engine does not offer.
    UnSupportedYetError(String),
    /// A field without a resolver of its own had to be resolved.
    DefaultResolveError,
    /// An operation, a field or an enum value is not known.
    NotFoundError(String),
    /// A value is not of the kind that its declared type expects.
    DataTypeMisMatchError(String, String),
    /// A type refers by name to a registry entry that does not exist.
    MissingReferenceCustomTypeError,
    /// A mutation was requested of a schema without mutations.
    MutationSchemaNotDefined,
    /// Several operations are defined and the request does not single one out.
    MultipleOperationNeedTarget,
    /// Two operations of one kind share a name.
    OnlyOneOperationCanNamed(String),
    /// An anonymous operation stands beside other operations.
    MustBeDefinedAnonymousOperation,
    /// A fragment spread names a fragment that the document does not define.
    NoSuchFragment(String),
}

/// What an [`Error`] says, with its texts as sequences of characters.
pub enum Failure {
    ParseError(Seq<char>),
    UnSupportedYetError(Seq<char>),
    DefaultResolveError,
    NotFoundError(Seq<char>),
    DataTypeMisMatchError(Seq<char>, Seq<char>),
    MissingReferenceCustomTypeError,
    MutationSchemaNotDefined,
    MultipleOperationNeedTarget,
    OnlyOneOperationCanNamed(Seq<char>),
    MustBeDefinedAnonymousOperation,
    NoSuchFragment(Seq<char>),
}

impl View for Error {
    type V = Failure;

    open spec fn view(&self) -> Failure {
        match self {
            Error::ParseError(s) => Failure::ParseError(s@),
            Error::UnSupportedYetError(s) => Failure::UnSupportedYetError(s@),
            Error::DefaultResolveError => Failure::DefaultResolveError,
            Error::NotFoundError(s) => Failure::NotFoundError(s@),
            Error::DataTypeMisMatchError(e, a) => Failure::DataTypeMisMatchError(e@, a@),
            Error::MissingReferenceCustomTypeError => Failure::MissingReferenceCustomTypeError,
            Error::MutationSchemaNotDefined => Failure::MutationSchemaNotDefined,
            Error::MultipleOperationNeedTarget => Failure::MultipleOperationNeedTarget,
            Error::OnlyOneOperationCanNamed(s) => Failure::OnlyOneOperationCanNamed(s@),
            Error::MustBeDefinedAnonymousOperation => Failure::MustBeDefinedAnonymousOperation,
            Error::NoSuchFragment(s) => Failure::NoSuchFragment(s@),
        }
    }
}

impl Failure {
    /// The text that describes the failure to a reader.
    pub open spec fn message(self) -> Seq<char> {
        match self {
            Failure::ParseError(s) => "parse graphql request error: "@ + s,
            Failure::UnSupportedYetError(s) => "Unsupported yet error: "@ + s,
            Failure::DefaultResolveError => "This is default resulover, should not be invoked"@,
            Failure::NotFoundError(s) => "NotFound: "@ + s,
            Failure::DataTypeMisMatchError(e, a) => "DataTypeMisMatchError expect: "@ + e
                + ", actul: "@ + a,
            Failure::MissingReferenceCustomTypeError => "Missing reference custom type"@,
            Failure::MutationSchemaNotDefined => "Mutation schema not defined"@,
            Failure::MultipleOperationNeedTarget =>
                "Must provide operation name if query contains multiple operations"@,
            Failure::OnlyOneOperationCanNamed(s) => "There can only be one operation named "@ + s,
            Failure::MustBeDefinedAnonymousOperation =>
                "This anonymous operation must be the only defined operation"@,
            Failure::NoSuchFragment(s) => "No such Fragment "@ + s,
        }
    }
}

impl Error {
    /// The text that describes the failure to a reader.
    pub fn message(&self) -> (text: String)
        ensures
            text@ == self@.message(),
    {
        match self {
            Error::ParseError(s) => String::from_str("parse graphql request error: ").concat(
                s.as_str(),
            ),
            Error::UnSupportedYetError(s) => String::from_str("Unsupported yet error: ").concat(
                s.as_str(),
            ),
            Error::DefaultResolveError => String::from_str(
                "This is default resulover, should not be invoked",
            ),
            Error::NotFoundError(s) => String::from_str("NotFound: ").concat(s.as_str()),
            Error::DataTypeMisMatchError(e, a) => String::from_str(
                "DataTypeMisMatchError expect: ",
            ).concat(e.as_str()).concat(", actul: ").concat(a.as_str()),
            Error::MissingReferenceCustomTypeError => String::from_str(
                "Missing reference custom type",
            ),
            Error::MutationSchemaNotDefined => String::from_str("Mutation schema not defined"),
            Error::MultipleOperationNeedTarget => String::from_str(
                "Must provide operation name if query contains multiple operations",
            ),
            Error::OnlyOneOperationCanNamed(s) => String::from_str(
                "There can only be one operation named ",
            ).concat(s.as_str()),
            Error::MustBeDefinedAnonymousOperation => String::from_str(
                "This anonymous operation must be the only defined operation",
            ),
            Error::NoSuchFragment(s) => String::from_str("No such Fragment ").concat(s.as_str()),
        }
    }
}

/// Why a schema could not be built.
#[derive(Debug, PartialEq)]
pub enum BuildError {
    /// No object type of this name has been registered.
    NoSuchObjectType(String),
    /// No enum type of this name has been registered.
    NoSuchEnumType(String),
    /// No input type of this name has been registered.
    NoSuchInputType(String),
}

/// What a [`BuildError`] says, with its texts as sequences of characters.
pub enum BuildFailure {
    NoSuchObjectType(Seq<char>),
    NoSuchEnumType(Seq<char>),
    NoSuchInputType(Seq<char>),
}

impl View for BuildError {
    type V = BuildFailure;

    open spec fn view(&self) -> BuildFailure {
        match self {
            BuildError::NoSuchObjectType(s) => BuildFailure::NoSuchObjectType(s@),
            BuildError::NoSuchEnumType(s) => BuildFailure::NoSuchEnumType(s@),
            BuildError::NoSuchInputType(s) => BuildFailure::NoSuchInputType(s@),
        }
    }
}

impl BuildFailure {
    /// The text that describes the failure to a reader.
    pub open spec fn message(self) -> Seq<char> {
        match self {
            BuildFailure::NoSuchObjectType(s) => "No such object type "@ + s + ", set it first"@,
            BuildFailure::NoSuchEnumType(s) => "No such enum type "@ + s + ", set it first"@,
            BuildFailure::NoSuchInputType(s) => "No such input type "@ + s + ", set it first"@,
        }
    }
}

impl BuildError {
    /// The text that describes the failure to a reader.
    pub fn message(&self) -> (text: String)
        ensures
            text@ == self@.message(),
    {
        match self {
            BuildError::NoSuchObjectType(s) => String::from_str("No such object type ").concat(
                s.as_str(),
            ).concat(", set it first"),
            BuildError::NoSuchEnumType(s) => String::from_str("No such enum type ").concat(
                s.as_str(),
            ).concat(", set it first"),
            BuildError::NoSuchInputType(s) => String::from_str("No such input type ").concat(
                s.as_str(),
            ).concat(", set it first"),
        }
    }
}

} // verus!
