//! The errors of composition.

use vstd::prelude::*;

verus! {

/// What is wrong with one subgraph, as found by a stage that looks at that subgraph alone.
#[derive(Debug)]
pub struct SubgraphError {
    pub subgraph: String,
    pub message: String,
}

/// Why composition failed.
#[derive(Debug)]
pub enum CompositionError {
    /// One subgraph is at fault.
    SubgraphError { subgraph: String, message: String },
    /// Composition was called wrongly, or a stage broke down.
    InternalError { message: String },
    /// A type definition is not acceptable.
    TypeDefinitionInvalid { message: String },
    /// Any other error that a stage reports, with its code.
    Other { code: String, message: String },
}

/// The content of a [`CompositionError`].
pub enum ErrorView {
    SubgraphError { subgraph: Seq<char>, message: Seq<char> },
    InternalError { message: Seq<char> },
    TypeDefinitionInvalid { message: Seq<char> },
    Other { code: Seq<char>, message: Seq<char> },
}

impl View for CompositionError {
    type V = ErrorView;

    open spec fn view(&self) -> ErrorView {
        match *self {
            CompositionError::SubgraphError { subgraph, message } => ErrorView::SubgraphError {
                subgraph: subgraph@,
                message: message@,
            },
            CompositionError::InternalError { message } => ErrorView::InternalError {
                message: message@,
            },
            CompositionError::TypeDefinitionInvalid { message } => {
                ErrorView::TypeDefinitionInvalid { message: message@ }
            },
            CompositionError::Other { code, message } => ErrorView::Other {
                code: code@,
                message: message@,
            },
        }
    }
}

/// The content of each error, in order.
pub open spec fn error_views(errors: Seq<CompositionError>) -> Seq<ErrorView> {
    Seq::new(errors.len(), |i: int| errors[i]@)
}

/// The content of what a [`SubgraphError`] becomes.
pub open spec fn subgraph_error_view(e: SubgraphError) -> ErrorView {
    ErrorView::SubgraphError { subgraph: e.subgraph@, message: e.message@ }
}

/// An error about a type definition.
pub open spec fn invalid(message: Seq<char>) -> ErrorView {
    ErrorView::TypeDefinitionInvalid { message }
}

/// An internal error.
pub open spec fn internal(message: Seq<char>) -> ErrorView {
    ErrorView::InternalError { message }
}

impl From<SubgraphError> for CompositionError {
    fn from(e: SubgraphError) -> (r: CompositionError) {
        CompositionError::SubgraphError { subgraph: e.subgraph, message: e.message }
    }
}

impl vstd::std_specs::convert::FromSpecImpl<SubgraphError> for CompositionError {
    open spec fn obeys_from_spec() -> bool {
        true
    }

    open spec fn from_spec(e: SubgraphError) -> CompositionError {
        CompositionError::SubgraphError { subgraph: e.subgraph, message: e.message }
    }
}

/// Appends an error to `errors`.
pub(crate) fn report(errors: &mut Vec<CompositionError>, error: CompositionError)
    ensures
        final(errors)@ == old(errors)@.push(error),
        error_views(final(errors)@) == error_views(old(errors)@).push(error@),
{
    errors.push(error);
    assert(error_views(errors@) =~= error_views(old(errors)@).push(error@));
}

/// Appends an error about a type definition to `errors`.
pub(crate) fn report_invalid(errors: &mut Vec<CompositionError>, message: String)
    ensures
        error_views(final(errors)@) == error_views(old(errors)@).push(invalid(message@)),
{
    report(errors, CompositionError::TypeDefinitionInvalid { message });
}

/// Appends an internal error to `errors`.
pub(crate) fn report_internal(errors: &mut Vec<CompositionError>, message: String)
    ensures
        error_views(final(errors)@) == error_views(old(errors)@).push(internal(message@)),
{
    report(errors, CompositionError::InternalError { message });
}

/// Errors have the same content exactly when they are the same variant with the same strings.
pub proof fn content_tells_errors_apart(a: CompositionError, b: CompositionError)
    ensures
        a@ == b@ <==> match (a, b) {
            (
                CompositionError::SubgraphError { subgraph: x, message: y },
                CompositionError::SubgraphError { subgraph: s, message: t },
            ) => x@ == s@ && y@ == t@,
            (
                CompositionError::InternalError { message: y },
                CompositionError::InternalError { message: t },
            ) => y@ == t@,
            (
                CompositionError::TypeDefinitionInvalid { message: y },
                CompositionError::TypeDefinitionInvalid { message: t },
            ) => y@ == t@,
            (
                CompositionError::Other { code: x, message: y },
                CompositionError::Other { code: s, message: t },
            ) => x@ == s@ && y@ == t@,
            _ => false,
        },
        a matches CompositionError::TypeDefinitionInvalid { message } ==> a@ == (
        ErrorView::TypeDefinitionInvalid { message: message@ }),
        a matches CompositionError::InternalError { message } ==> a@ == (ErrorView::InternalError {
            message: message@,
        }),
        a matches CompositionError::SubgraphError { subgraph, message } ==> a@ == (
        ErrorView::SubgraphError { subgraph: subgraph@, message: message@ }),
        a matches CompositionError::Other { code, message } ==> a@ == (ErrorView::Other {
            code: code@,
            message: message@,
        }),
{
}

/// The contents of errors are listed one by one.
pub proof fn contents_are_listed_in_order(errors: Seq<CompositionError>)
    ensures
        error_views(errors).len() == errors.len(),
        forall|i: int| 0 <= i < errors.len() ==> #[trigger] error_views(errors)[i] == errors[i]@,
{
}

} // verus!
