//! Reference resolution for `THIS`/`THAT`.
//!
//! `THIS`/`THAT` are object references, not textual substitutions: both
//! resolve to the single most recently established object. An unresolved
//! reference is a semantic error and never reaches execution.
use vstd::prelude::*;
use vstd::string::*;

use crate::ast::ReferenceKind;

verus! {

/// An object a command established, for a later `THIS`/`THAT`.
#[derive(Debug, Clone, PartialEq, Eq)]
pub enum ResolvedObject {
    Path(String),
    Text(String),
}

pub enum ResolvedObjectView {
    Path(Seq<char>),
    Text(Seq<char>),
}

impl View for ResolvedObject {
    type V = ResolvedObjectView;

    open spec fn view(&self) -> ResolvedObjectView {
        match self {
            ResolvedObject::Path(p) => ResolvedObjectView::Path(p@),
            ResolvedObject::Text(t) => ResolvedObjectView::Text(t@),
        }
    }
}

impl ResolvedObject {
    /// A copy with the same view.
    pub fn duplicate(&self) -> (r: ResolvedObject)
        ensures
            r@ == self@,
    {
        match self {
            ResolvedObject::Path(p) => ResolvedObject::Path(p.clone()),
            ResolvedObject::Text(t) => ResolvedObject::Text(t.clone()),
        }
    }
}

pub open spec fn opt_object_view(o: Option<ResolvedObject>) -> Option<ResolvedObjectView> {
    match o {
        Some(x) => Some(x@),
        None => None,
    }
}

/// The most recently established object, which `THIS` and `THAT` both
/// resolve to.
#[derive(Debug, Clone)]
pub struct ReferenceContext {
    last: Option<ResolvedObject>,
}

impl View for ReferenceContext {
    type V = Option<ResolvedObjectView>;

    closed spec fn view(&self) -> Option<ResolvedObjectView> {
        opt_object_view(self.last)
    }
}

/// What a reference of either kind resolves to in context `c`.
pub open spec fn resolve_spec(c: Option<ResolvedObjectView>, kind: ReferenceKind) -> Option<ResolvedObjectView> {
    c
}

/// The context after `object` is recorded.
pub open spec fn record_spec(c: Option<ResolvedObjectView>, object: ResolvedObjectView) -> Option<ResolvedObjectView> {
    Some(object)
}

impl ReferenceContext {
    /// A context in which nothing has been established yet.
    pub fn new() -> (r: Self)
        ensures
            r@ is None,
    {
        ReferenceContext { last: None }
    }

    /// The object a reference of kind `kind` resolves to, if any.
    pub fn resolve(&self, kind: ReferenceKind) -> (r: Option<&ResolvedObject>)
        ensures
            match r {
                Some(o) => resolve_spec(self@, kind) == Some(o@),
                None => resolve_spec(self@, kind) is None,
            },
    {
        self.last.as_ref()
    }

    /// Makes `object` the target of later references.
    pub fn record(&mut self, object: ResolvedObject)
        ensures
            final(self)@ == record_spec(old(self)@, object@),
    {
        self.last = Some(object);
    }
}

impl Default for ReferenceContext {
    fn default() -> (r: Self)
        ensures
            r@ is None,
    {
        ReferenceContext::new()
    }
}

/// Before anything is recorded no reference resolves; after `object` is
/// recorded, `THIS` and `THAT` both resolve to it, whatever came before.
pub proof fn law_resolve_after_record(c: Option<ResolvedObjectView>, object: ResolvedObjectView, kind: ReferenceKind)
    ensures
        resolve_spec(None, kind) is None,
        resolve_spec(record_spec(c, object), kind) == Some(object),
{
}

} // verus!
