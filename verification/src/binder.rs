//! The bound-query representation the planner consumes.
//!
//! The binder itself — resolving SQL syntax against the catalog — is an
//! external collaborator; what arrives here is already validated, with
//! resolved column indices and types.

use vstd::prelude::*;
use crate::catalog::Schema;
use crate::expr::InputRef;

verus! {

/// A validated select: its output schema and the correlated column
/// references it still carries from an enclosing query.
pub struct BoundSelect {
    pub schema: Schema,
    pub correlated_refs: Vec<InputRef>,
}

/// A validated literal row list: its output schema.
pub struct BoundValues {
    pub schema: Schema,
}

/// Part of a validated query, without order or limit clause. It may be
/// composed of smaller set expressions via set operators.
pub enum BoundSetExpr {
    Select(Box<BoundSelect>),
    Values(Box<BoundValues>),
}

impl BoundSetExpr {
    /// The schema this set expression returns, as seen by specifications.
    pub open spec fn spec_schema(self) -> Schema {
        match self {
            BoundSetExpr::Select(s) => s.schema,
            BoundSetExpr::Values(v) => v.schema,
        }
    }

    /// The schema returned by this set expression.
    pub fn schema(&self) -> (r: &Schema)
        ensures
            *r == self.spec_schema(),
    {
        match self {
            BoundSetExpr::Select(s) => &s.schema,
            BoundSetExpr::Values(v) => &v.schema,
        }
    }

    /// Whether the expression still carries correlated column references.
    /// A literal row list never does.
    pub fn has_correlated_input_ref(&self) -> (r: bool)
        ensures
            r == match *self {
                BoundSetExpr::Select(s) => s.correlated_refs@.len() > 0,
                BoundSetExpr::Values(_) => false,
            },
    {
        match self {
            BoundSetExpr::Select(s) => s.correlated_refs.len() > 0,
            BoundSetExpr::Values(_) => false,
        }
    }

    /// Take the correlated references out of the expression — afterwards it
    /// carries none — and hand them to the caller, in their original order.
    pub fn get_and_change_correlated_input_ref(&mut self) -> (r: Vec<InputRef>)
        ensures
            match *old(self) {
                BoundSetExpr::Select(s) => {
                    &&& r@ == s.correlated_refs@
                    &&& (*final(self)) matches BoundSetExpr::Select(s2) && s2.schema
                        == s.schema && s2.correlated_refs@.len() == 0
                },
                BoundSetExpr::Values(_) => r@.len() == 0 && *final(self) == *old(self),
            },
            !final(self).has_correlated(),
    {
        match self {
            BoundSetExpr::Select(s) => {
                let mut taken: Vec<InputRef> = Vec::new();
                let n = s.correlated_refs.len();
                let mut i: usize = 0;
                while i < n
                    invariant
                        n == s.correlated_refs@.len(),
                        i <= n,
                        taken@ =~= s.correlated_refs@.subrange(0, i as int),
                    decreases n - i,
                {
                    taken.push(s.correlated_refs[i]);
                    i += 1;
                }
                proof {
                    assert(taken@ =~= s.correlated_refs@);
                }
                s.correlated_refs = Vec::new();
                taken
            },
            BoundSetExpr::Values(_) => Vec::new(),
        }
    }

    /// Whether the expression carries correlated references, as seen by
    /// specifications.
    pub open spec fn has_correlated(self) -> bool {
        match self {
            BoundSetExpr::Select(s) => s.correlated_refs@.len() > 0,
            BoundSetExpr::Values(_) => false,
        }
    }
}

} // verus!
