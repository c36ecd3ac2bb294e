//! Why a schema was refused.

use vstd::prelude::*;

verus! {

/// A schema that the grammar accepts but that cannot be resolved. Each error
/// carries the path of the place where it was found.
#[derive(Debug, PartialEq, Eq)]
pub enum ResolveError {
    /// A reference at `path` names `key`, which the definition table lacks.
    UnknownReference { key: String, path: String },
    /// The union at `path` has no alternative.
    EmptyUnion { path: String },
    /// The class at `path` requires `field`, which is not one of its
    /// properties.
    UnknownRequiredField { path: String, field: String },
    /// The type position at `path` is nested deeper than the limit allows.
    DepthExceeded { path: String },
}

/// Mathematical model of a [`ResolveError`].
pub enum ResolveErrorView {
    UnknownReference { key: Seq<char>, path: Seq<char> },
    EmptyUnion { path: Seq<char> },
    UnknownRequiredField { path: Seq<char>, field: Seq<char> },
    DepthExceeded { path: Seq<char> },
}

impl View for ResolveError {
    type V = ResolveErrorView;

    open spec fn view(&self) -> ResolveErrorView {
        match self {
            ResolveError::UnknownReference { key, path } => ResolveErrorView::UnknownReference {
                key: key@,
                path: path@,
            },
            ResolveError::EmptyUnion { path } => ResolveErrorView::EmptyUnion { path: path@ },
            ResolveError::UnknownRequiredField { path, field } => {
                ResolveErrorView::UnknownRequiredField { path: path@, field: field@ }
            },
            ResolveError::DepthExceeded { path } => ResolveErrorView::DepthExceeded { path: path@ },
        }
    }
}

/// Why the grammar refuses a document.
#[derive(Clone, Copy, Debug, PartialEq, Eq, Structural)]
pub enum GrammarReason {
    /// The node is not of the kind that the grammar has at this place.
    UnexpectedShape,
    /// The `type` tag is none of those that the grammar knows.
    UnknownTypeTag,
    /// The map lacks an entry that the grammar demands.
    MissingField,
}

/// A document that is no schema: the path of the offending node, from the
/// root of the document, and the reason.
#[derive(Debug, PartialEq, Eq)]
pub struct GrammarError {
    pub path: String,
    pub reason: GrammarReason,
}

/// Mathematical model of a [`GrammarError`].
pub struct GrammarErrorView {
    pub path: Seq<char>,
    pub reason: GrammarReason,
}

impl View for GrammarError {
    type V = GrammarErrorView;

    open spec fn view(&self) -> GrammarErrorView {
        GrammarErrorView { path: self.path@, reason: self.reason }
    }
}

/// The path `path`, which is relative to the node under `segment`, seen
/// from the parent of that node.
pub open spec fn prefixed(segment: Seq<char>, path: Seq<char>) -> Seq<char> {
    if path.len() == 0 {
        segment
    } else {
        segment + "."@ + path
    }
}

impl GrammarErrorView {
    /// This error, found in the node under `segment`, seen from the parent.
    pub open spec fn under(self, segment: Seq<char>) -> GrammarErrorView {
        GrammarErrorView { path: prefixed(segment, self.path), reason: self.reason }
    }
}

impl GrammarError {
    /// An error at the node that is being read.
    pub fn here(reason: GrammarReason) -> (e: GrammarError)
        ensures
            e@ == (GrammarErrorView { path: Seq::empty(), reason }),
    {
        GrammarError { path: String::new(), reason }
    }

    /// An error at the node `path`.
    pub fn at(path: &str, reason: GrammarReason) -> (e: GrammarError)
        ensures
            e@ == (GrammarErrorView { path: path@, reason }),
    {
        GrammarError { path: String::from_str(path), reason }
    }

    /// This error, found in the node under `segment`, seen from the parent.
    pub fn under(self, segment: &str) -> (e: GrammarError)
        ensures
            e@ == self@.under(segment@),
    {
        if self.path.as_str().unicode_len() == 0 {
            GrammarError { path: String::from_str(segment), reason: self.reason }
        } else {
            let mut path = String::from_str(segment);
            path.append(".");
            path.append(self.path.as_str());
            GrammarError { path, reason: self.reason }
        }
    }
}

/// The words for a reason.
pub open spec fn reason_text(reason: GrammarReason) -> Seq<char> {
    match reason {
        GrammarReason::UnexpectedShape => "unexpected shape"@,
        GrammarReason::UnknownTypeTag => "unknown type tag"@,
        GrammarReason::MissingField => "missing field"@,
    }
}

impl GrammarErrorView {
    /// The message of this error: the path, a colon and the reason.
    pub open spec fn message(self) -> Seq<char> {
        self.path + ": "@ + reason_text(self.reason)
    }
}

impl ResolveErrorView {
    /// The path of the place where the error was found.
    pub open spec fn path(self) -> Seq<char> {
        match self {
            ResolveErrorView::UnknownReference { path, .. } => path,
            ResolveErrorView::EmptyUnion { path } => path,
            ResolveErrorView::UnknownRequiredField { path, .. } => path,
            ResolveErrorView::DepthExceeded { path } => path,
        }
    }

    /// What went wrong, without the path.
    pub open spec fn complaint(self) -> Seq<char> {
        match self {
            ResolveErrorView::UnknownReference { key, .. } => "unknown reference "@ + key,
            ResolveErrorView::EmptyUnion { .. } => "empty union"@,
            ResolveErrorView::UnknownRequiredField { field, .. } => "unknown required field "@
                + field,
            ResolveErrorView::DepthExceeded { .. } => "depth exceeded"@,
        }
    }

    /// The message of this error: the path, a colon and the complaint.
    pub open spec fn message(self) -> Seq<char> {
        self.path() + ": "@ + self.complaint()
    }
}

impl GrammarError {
    /// The message of this error, for the user to read.
    pub fn message(&self) -> (r: String)
        ensures
            r@ == self@.message(),
    {
        let mut r = self.path.clone();
        r.append(": ");
        match self.reason {
            GrammarReason::UnexpectedShape => r.append("unexpected shape"),
            GrammarReason::UnknownTypeTag => r.append("unknown type tag"),
            GrammarReason::MissingField => r.append("missing field"),
        }
        r
    }
}

impl ResolveError {
    /// The path of the place where the error was found.
    pub fn path(&self) -> (r: &String)
        ensures
            r@ == self@.path(),
    {
        match self {
            ResolveError::UnknownReference { path, .. } => path,
            ResolveError::EmptyUnion { path } => path,
            ResolveError::UnknownRequiredField { path, .. } => path,
            ResolveError::DepthExceeded { path } => path,
        }
    }

    /// The message of this error, for the user to read.
    pub fn message(&self) -> (r: String)
        ensures
            r@ == self@.message(),
    {
        let mut r = self.path().clone();
        r.append(": ");
        match self {
            ResolveError::UnknownReference { key, .. } => {
                r.append("unknown reference ");
                r.append(key.as_str());
            },
            ResolveError::EmptyUnion { .. } => {
                r.append("empty union");
            },
            ResolveError::UnknownRequiredField { field, .. } => {
                r.append("unknown required field ");
                r.append(field.as_str());
            },
            ResolveError::DepthExceeded { .. } => {
                r.append("depth exceeded");
            },
        }
        r
    }
}

} // verus!
