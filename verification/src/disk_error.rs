//! Why a disk operation is refused.
use vstd::prelude::*;

verus! {

/// The class of a refusal.
#[derive(Clone, Copy, Debug, PartialEq, Eq, Structural)]
pub enum DiskErrorKind {
    /// The request is outside of what the disk has.
    InvalidInput,
    /// A file does not hold what it should.
    InvalidData,
    /// A file that is needed is not there.
    NotFound,
}

/// A refusal: its class, and what to tell the user.
#[derive(Clone, Debug)]
pub struct DiskError {
    pub kind: DiskErrorKind,
    pub message: String,
}

impl View for DiskError {
    type V = (DiskErrorKind, Seq<char>);

    open spec fn view(&self) -> (DiskErrorKind, Seq<char>) {
        (self.kind, self.message@)
    }
}

/// A request that the disk cannot serve.
pub fn invalid_input(message: String) -> (r: DiskError)
    ensures
        r@ == (DiskErrorKind::InvalidInput, message@),
{
    DiskError { kind: DiskErrorKind::InvalidInput, message }
}

/// A file that does not hold what it should.
pub fn invalid_data(message: String) -> (r: DiskError)
    ensures
        r@ == (DiskErrorKind::InvalidData, message@),
{
    DiskError { kind: DiskErrorKind::InvalidData, message }
}

/// A file that is needed and not there.
pub fn not_found(message: String) -> (r: DiskError)
    ensures
        r@ == (DiskErrorKind::NotFound, message@),
{
    DiskError { kind: DiskErrorKind::NotFound, message }
}

/// A refusal is taken for what its fields say.
pub proof fn law_views_of_refusals(e: DiskError)
    ensures
        e@.0 == e.kind,
        e@.1 == e.message@,
{
}

} // verus!
