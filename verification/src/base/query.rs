//! Logical subscription queries.

use vstd::prelude::*;

use crate::base::error::{Error, ErrorView};
use crate::base::value::{views, Value, ValueView};

verus! {

/// How a predicate compares a column with its value.
#[derive(Clone, Copy, Debug, PartialEq, Eq, Structural)]
pub enum ComparisonOp {
    /// Equal.
    Eq,
    /// Different.
    Ne,
    /// Less.
    Lt,
    /// Less or equal.
    Lte,
    /// Greater.
    Gt,
    /// Greater or equal.
    Gte,
}

/// The direction of an ordering.
#[derive(Clone, Copy, Debug, PartialEq, Eq, Structural)]
pub enum OrderDirection {
    /// Smallest first.
    Ascending,
    /// Largest first.
    Descending,
}

/// One condition on a column.
#[derive(Debug, PartialEq, Eq)]
pub struct Predicate {
    /// The column.
    pub column: String,
    /// The comparison.
    pub op: ComparisonOp,
    /// The value compared with.
    pub value: Value,
}

/// The mathematical content of a [`Predicate`].
pub struct PredicateView {
    pub column: Seq<char>,
    pub op: ComparisonOp,
    pub value: ValueView,
}

impl View for Predicate {
    type V = PredicateView;

    open spec fn view(&self) -> PredicateView {
        PredicateView { column: self.column@, op: self.op, value: self.value@ }
    }
}

/// The ordering of a view.
#[derive(Debug, PartialEq, Eq)]
pub struct OrderBy {
    /// The column ordered by.
    pub column: String,
    /// The direction.
    pub direction: OrderDirection,
}

/// The mathematical content of an [`OrderBy`].
pub struct OrderByView {
    pub column: Seq<char>,
    pub direction: OrderDirection,
}

impl View for OrderBy {
    type V = OrderByView;

    open spec fn view(&self) -> OrderByView {
        OrderByView { column: self.column@, direction: self.direction }
    }
}

/// The parts of a query, before the table name is checked.
#[derive(Debug, PartialEq, Eq)]
pub struct QueryParts {
    /// The table queried.
    pub table: String,
    /// The conditions, all of which hold of a matching row.
    pub predicates: Vec<Predicate>,
    /// The ordering, if any.
    pub order_by: Option<OrderBy>,
    /// The most rows in the view, if bounded.
    pub limit: Option<u32>,
    /// The columns delivered, if not all.
    pub projection: Option<Vec<String>>,
}

/// A logical query on one table. Its table name is never empty.
#[derive(Debug, PartialEq, Eq)]
pub struct Query {
    parts: QueryParts,
}

/// The mathematical content of a [`Query`].
pub struct QueryView {
    pub table: Seq<char>,
    pub predicates: Seq<PredicateView>,
    pub order_by: Option<OrderByView>,
    pub limit: Option<u32>,
    pub projection: Option<Seq<Seq<char>>>,
}

impl View for QueryParts {
    type V = QueryView;

    open spec fn view(&self) -> QueryView {
        QueryView {
            table: self.table@,
            predicates: views(self.predicates@),
            order_by: match self.order_by {
                Some(order) => Some(order@),
                None => None,
            },
            limit: self.limit,
            projection: match self.projection {
                Some(columns) => Some(views(columns@)),
                None => None,
            },
        }
    }
}

impl View for Query {
    type V = QueryView;

    closed spec fn view(&self) -> QueryView {
        self.parts@
    }
}

impl Query {
    #[verifier::type_invariant]
    spec fn names_a_table(&self) -> bool {
        self.parts.table@.len() > 0
    }

    /// A query of the given parts; an empty table name is refused.
    pub fn build(parts: QueryParts) -> (query: Result<Query, Error>)
        ensures
            match query {
                Ok(q) => parts@.table.len() > 0 && q@ == parts@,
                Err(e) => parts@.table.len() == 0 && e@ == ErrorView::InvalidArgument(
                    "query table name must not be empty"@,
                ),
            },
    {
        if parts.table.as_str().is_empty() {
            return Err(Error::invalid_argument("query table name must not be empty"));
        }
        Ok(Query { parts })
    }

    /// The parts of the query.
    pub fn parts(&self) -> (parts: &QueryParts)
        ensures
            parts@ == self@,
            parts@.table.len() > 0,
    {
        proof {
            use_type_invariant(self);
        }
        &self.parts
    }
}

impl QueryParts {
    /// Every row of `table`.
    pub fn all(table: &str) -> (parts: QueryParts)
        ensures
            parts@ == (QueryView {
                table: table@,
                predicates: Seq::empty(),
                order_by: None,
                limit: None,
                projection: None,
            }),
    {
        let parts = QueryParts {
            table: table.to_owned(),
            predicates: Vec::new(),
            order_by: None,
            limit: None,
            projection: None,
        };
        assert(parts@.predicates =~= Seq::empty());
        parts
    }
}

} // verus!
