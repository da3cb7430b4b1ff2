//! The error type of the library.

use vstd::prelude::*;

verus! {

/// A result of the library.
pub type LeoResult<T> = Result<T, LeoError>;

/// What an error is about.
#[derive(Debug, Clone, Copy, PartialEq, Eq, Structural)]
pub enum LeoErrorKind {
    Usage,
    Configuration,
    Dataset,
    CheckpointCorrupt,
    CheckpointIncompatible,
    Backend,
    Cuda,
    Numerical,
    Io,
    Internal,
}

/// An error: its kind and a message for the reader.
#[derive(Debug, Clone)]
pub struct LeoError {
    kind: LeoErrorKind,
    message: String,
}

impl LeoError {
    /// What the error is about.
    pub closed spec fn about(self) -> LeoErrorKind {
        self.kind
    }

    /// The message.
    pub closed spec fn text(self) -> Seq<char> {
        self.message@
    }

    /// Whether the error has this kind and this message.
    pub open spec fn says(self, kind: LeoErrorKind, text: Seq<char>) -> bool {
        self.about() == kind && self.text() == text
    }

    /// An error of `kind` with `message`.
    pub fn new(kind: LeoErrorKind, message: String) -> (r: Self)
        ensures
            r.says(kind, message@),
    {
        Self { kind, message }
    }

    /// A usage error.
    pub fn usage(message: String) -> (r: Self)
        ensures
            r.says(LeoErrorKind::Usage, message@),
    {
        Self::new(LeoErrorKind::Usage, message)
    }

    /// A configuration error.
    pub fn configuration(message: String) -> (r: Self)
        ensures
            r.says(LeoErrorKind::Configuration, message@),
    {
        Self::new(LeoErrorKind::Configuration, message)
    }

    /// A dataset error.
    pub fn dataset(message: String) -> (r: Self)
        ensures
            r.says(LeoErrorKind::Dataset, message@),
    {
        Self::new(LeoErrorKind::Dataset, message)
    }

    /// A checkpoint that cannot be read.
    pub fn checkpoint_corrupt(message: String) -> (r: Self)
        ensures
            r.says(LeoErrorKind::CheckpointCorrupt, message@),
    {
        Self::new(LeoErrorKind::CheckpointCorrupt, message)
    }

    /// A checkpoint of another shape or version.
    pub fn checkpoint_incompatible(message: String) -> (r: Self)
        ensures
            r.says(LeoErrorKind::CheckpointIncompatible, message@),
    {
        Self::new(LeoErrorKind::CheckpointIncompatible, message)
    }

    /// A backend error.
    pub fn backend(message: String) -> (r: Self)
        ensures
            r.says(LeoErrorKind::Backend, message@),
    {
        Self::new(LeoErrorKind::Backend, message)
    }

    /// A CUDA error.
    pub fn cuda(message: String) -> (r: Self)
        ensures
            r.says(LeoErrorKind::Cuda, message@),
    {
        Self::new(LeoErrorKind::Cuda, message)
    }

    /// A numerical error.
    pub fn numerical(message: String) -> (r: Self)
        ensures
            r.says(LeoErrorKind::Numerical, message@),
    {
        Self::new(LeoErrorKind::Numerical, message)
    }

    /// An error inside the library.
    pub fn internal(message: String) -> (r: Self)
        ensures
            r.says(LeoErrorKind::Internal, message@),
    {
        Self::new(LeoErrorKind::Internal, message)
    }

    /// What the error is about.
    pub fn kind(&self) -> (r: LeoErrorKind)
        ensures
            r == self.about(),
    {
        self.kind
    }

    /// The message.
    pub fn message(&self) -> (r: &str)
        ensures
            r@ == self.text(),
    {
        self.message.as_str()
    }
}

/// Whether a result is the error of this kind with this message.
pub open spec fn fails<T>(r: LeoResult<T>, kind: LeoErrorKind, text: Seq<char>) -> bool {
    r matches Err(e) && e.says(kind, text)
}

} // verus!
