//! What the database reports: types as its catalog describes them, and the
//! parameters and columns of a prepared statement.
//!
//! These are plain descriptions. The caller that talks to the database fills
//! them in; everything here and above works on them alone.

use crate::names::{views, Named};
use vstd::prelude::*;

verus! {

/// One field of a composite type, in declaration order.
#[derive(Debug)]
pub struct PgField {
    pub name: String,
    pub ty: PgType,
}

/// The shape of a database type.
#[derive(Debug)]
pub enum PgKind {
    /// A scalar without further structure.
    Simple,
    /// An enumeration with its labels in declaration order.
    Enum(Vec<String>),
    /// A pseudo type.
    Pseudo,
    /// An array of the given element type.
    Array(Box<PgType>),
    /// A range over the given element type.
    Range(Box<PgType>),
    /// A multirange over the given element type.
    Multirange(Box<PgType>),
    /// A constrained alias of the given base type.
    Domain(Box<PgType>),
    /// A record; fields in declaration order.
    Composite(Vec<PgField>),
}

/// A database type: its wire OID, where it lives, and its shape.
#[derive(Debug)]
pub struct PgType {
    pub oid: u32,
    pub schema: String,
    pub name: String,
    pub kind: PgKind,
}

/// One result column of a prepared statement.
#[derive(Debug)]
pub struct Column {
    pub name: String,
    pub ty: PgType,
}

/// What the database reports of a prepared statement: the types of its
/// parameters, in the order of their numbers, and its result columns in wire
/// order.
#[derive(Debug)]
pub struct Statement {
    pub params: Vec<PgType>,
    pub columns: Vec<Column>,
}

/// The database's refusal to prepare a statement, with its message.
#[derive(Debug)]
pub struct DbError {
    pub message: String,
}

/// Mathematical model of a [`PgField`].
pub struct PgFieldView {
    pub name: Seq<char>,
    pub ty: PgTypeView,
}

/// Mathematical model of a [`PgKind`].
pub enum PgKindView {
    Simple,
    Enum(Seq<Seq<char>>),
    Pseudo,
    Array(Box<PgTypeView>),
    Range(Box<PgTypeView>),
    Multirange(Box<PgTypeView>),
    Domain(Box<PgTypeView>),
    Composite(Seq<PgFieldView>),
}

/// Mathematical model of a [`PgType`].
pub struct PgTypeView {
    pub oid: u32,
    pub schema: Seq<char>,
    pub name: Seq<char>,
    pub kind: PgKindView,
}

/// The labels of an enumeration as character sequences.
pub open spec fn labels_view(labels: Seq<String>) -> Seq<Seq<char>> {
    Seq::new(labels.len(), |i: int| labels[i]@)
}

/// The model of a type: its OID, its schema and name as character
/// sequences, and the model of its shape.
pub open spec fn pg_type_view(ty: PgType) -> PgTypeView
    decreases ty, 1int,
{
    PgTypeView { oid: ty.oid, schema: ty.schema@, name: ty.name@, kind: pg_kind_view(ty.kind) }
}

/// The model of a shape, with the models of the types it is built from.
pub open spec fn pg_kind_view(kind: PgKind) -> PgKindView
    decreases kind, 0int,
{
    match kind {
        PgKind::Simple => PgKindView::Simple,
        PgKind::Enum(labels) => PgKindView::Enum(labels_view(labels@)),
        PgKind::Pseudo => PgKindView::Pseudo,
        PgKind::Array(inner) => PgKindView::Array(Box::new(pg_type_view(*inner))),
        PgKind::Range(inner) => PgKindView::Range(Box::new(pg_type_view(*inner))),
        PgKind::Multirange(inner) => PgKindView::Multirange(Box::new(pg_type_view(*inner))),
        PgKind::Domain(inner) => PgKindView::Domain(Box::new(pg_type_view(*inner))),
        PgKind::Composite(fields) => PgKindView::Composite(
            Seq::new(
                fields.len() as nat,
                |i: int|
                    if 0 <= i < fields.len() {
                        PgFieldView { name: fields[i].name@, ty: pg_type_view(fields[i].ty) }
                    } else {
                        arbitrary()
                    },
            ),
        ),
    }
}

impl View for PgType {
    type V = PgTypeView;

    open spec fn view(&self) -> PgTypeView {
        pg_type_view(*self)
    }
}

/// Mathematical model of a [`Column`].
pub struct ColumnView {
    pub name: Seq<char>,
    pub ty: PgTypeView,
}

impl View for Column {
    type V = ColumnView;

    open spec fn view(&self) -> ColumnView {
        ColumnView { name: self.name@, ty: self.ty@ }
    }
}

impl Named for Column {
    open spec fn name_of(model: ColumnView) -> Seq<char> {
        model.name
    }

    fn name(&self) -> (r: &String) {
        &self.name
    }
}

/// Mathematical model of a [`Statement`].
pub struct StatementView {
    pub params: Seq<PgTypeView>,
    pub columns: Seq<ColumnView>,
}

impl View for Statement {
    type V = StatementView;

    open spec fn view(&self) -> StatementView {
        StatementView { params: views(self.params@), columns: views(self.columns@) }
    }
}

/// Mathematical model of what the database made of an SQL text: the
/// statement, or the message of the refusal.
pub type OutcomeView = Result<StatementView, Seq<char>>;

/// The model of an outcome.
pub open spec fn outcome_view(outcome: Result<Statement, DbError>) -> OutcomeView {
    match outcome {
        Ok(stmt) => Ok(stmt@),
        Err(e) => Err(e.message@),
    }
}

/// The models of the outcomes of the queries of one module.
pub open spec fn outcome_views(outcomes: Seq<Result<Statement, DbError>>) -> Seq<OutcomeView> {
    outcomes.map_values(|outcome: Result<Statement, DbError>| outcome_view(outcome))
}

/// The models of the outcomes of the queries of all modules.
pub open spec fn all_outcome_views(outcomes: Seq<Vec<Result<Statement, DbError>>>) -> Seq<
    Seq<OutcomeView>,
> {
    outcomes.map_values(|of_module: Vec<Result<Statement, DbError>>| outcome_views(of_module@))
}

impl View for PgField {
    type V = PgFieldView;

    open spec fn view(&self) -> PgFieldView {
        PgFieldView { name: self.name@, ty: self.ty@ }
    }
}

/// Copies a list of strings.
pub fn clone_strings(v: &Vec<String>) -> (r: Vec<String>)
    ensures
        r@ == v@,
{
    let mut r: Vec<String> = Vec::new();
    let mut i: usize = 0;
    while i < v.len()
        invariant
            i <= v.len(),
            r@ == v@.take(i as int),
        decreases v.len() - i,
    {
        r.push(v[i].clone());
        assert(r@ == v@.take(i + 1));
        i += 1;
    }
    assert(v@.take(v.len() as int) == v@);
    r
}

impl PgType {
    /// Copies the whole description, everything below it included.
    pub fn deep_clone(&self) -> (r: PgType)
        ensures
            r@ == self@,
        decreases self,
    {
        let kind = match &self.kind {
            PgKind::Simple => PgKind::Simple,
            PgKind::Enum(labels) => PgKind::Enum(clone_strings(labels)),
            PgKind::Pseudo => PgKind::Pseudo,
            PgKind::Array(inner) => PgKind::Array(Box::new(inner.deep_clone())),
            PgKind::Range(inner) => PgKind::Range(Box::new(inner.deep_clone())),
            PgKind::Multirange(inner) => PgKind::Multirange(Box::new(inner.deep_clone())),
            PgKind::Domain(inner) => PgKind::Domain(Box::new(inner.deep_clone())),
            PgKind::Composite(fields) => {
                let mut copy: Vec<PgField> = Vec::new();
                let mut i: usize = 0;
                while i < fields.len()
                    invariant
                        i <= fields.len(),
                        self.kind is Composite,
                        self.kind->Composite_0 == *fields,
                        copy.len() == i,
                        forall|k: int| 0 <= k < i ==> copy[k]@ == fields[k]@,
                    decreases fields.len() - i,
                {
                    proof {
                        vstd::std_specs::vec::axiom_vec_index_decreases(
                            self.kind->Composite_0,
                            i as int,
                        );
                    }
                    let field = &fields[i];
                    copy.push(PgField { name: field.name.clone(), ty: field.ty.deep_clone() });
                    i += 1;
                }
                let kind = PgKind::Composite(copy);
                assert(pg_kind_view(kind)->Composite_0 =~= pg_kind_view(self.kind)->Composite_0);
                kind
            },
        };
        assert(pg_kind_view(kind) == pg_kind_view(self.kind));
        PgType { oid: self.oid, schema: self.schema.clone(), name: self.name.clone(), kind }
    }
}

} // verus!
