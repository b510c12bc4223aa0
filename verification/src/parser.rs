//! What a query file holds once it is read: names with their positions, type
//! annotations, and the two ways in which a query describes its parameters
//! and its row.

use crate::names::{views, Named};
use vstd::prelude::*;
use vstd::std_specs::cmp::PartialEqSpecImpl;

verus! {

/// A place in a query file, for diagnostics only.
#[derive(Clone, Copy, Debug, PartialEq, Eq, Structural)]
pub struct Position {
    pub line: usize,
    pub col: usize,
}

/// A value together with the place where it was read.
#[derive(Debug)]
pub struct Parsed<T> {
    pub pos: Position,
    pub value: T,
}

/// Mathematical model of a `Parsed<String>`.
pub struct ParsedName {
    pub pos: Position,
    pub value: Seq<char>,
}

impl View for Parsed<String> {
    type V = ParsedName;

    open spec fn view(&self) -> ParsedName {
        ParsedName { pos: self.pos, value: self.value@ }
    }
}

impl Clone for Parsed<String> {
    fn clone(&self) -> (r: Self)
        ensures
            r == *self,
    {
        Parsed { pos: self.pos, value: self.value.clone() }
    }
}

/// Two parsed names are equal if they read the same, wherever they stand.
impl PartialEq for Parsed<String> {
    fn eq(&self, other: &Self) -> (r: bool) {
        self.value == other.value
    }
}

impl PartialEqSpecImpl for Parsed<String> {
    open spec fn obeys_eq_spec() -> bool {
        true
    }

    open spec fn eq_spec(&self, other: &Self) -> bool {
        self.value@ == other.value@
    }
}

impl Named for Parsed<String> {
    open spec fn name_of(model: ParsedName) -> Seq<char> {
        model.value
    }

    fn name(&self) -> (r: &String) {
        &self.value
    }
}

/// What a list of parsed names reads, without the positions.
pub open spec fn names_read(names: Seq<ParsedName>) -> Seq<Seq<char>> {
    names.map_values(|name: ParsedName| name.value)
}

/// What a list of parsed names reads, without the positions.
pub open spec fn values_of(names: Seq<Parsed<String>>) -> Seq<Seq<char>> {
    names_read(views(names))
}

/// A name that may be marked nullable.
#[derive(Debug)]
pub struct NullableIdent {
    pub name: String,
    pub is_nullable: bool,
}

impl NullableIdent {
    /// The name.
    pub fn name(&self) -> (r: &String)
        ensures
            r == self.name,
    {
        &self.name
    }

    /// Whether the name is marked nullable.
    pub fn is_nullable(&self) -> (r: bool)
        ensures
            r == self.is_nullable,
    {
        self.is_nullable
    }
}

/// One field of a type annotation: its name, the SQL type as written, and
/// whether it is marked nullable.
#[derive(Debug)]
pub struct AnnotationField {
    pub name: Parsed<String>,
    pub ty: String,
    pub is_nullable: bool,
}

/// A shape for parameters or rows that a query file declares under a name.
#[derive(Debug)]
pub struct TypeAnnotation {
    pub name: Parsed<String>,
    pub fields: Vec<AnnotationField>,
}

/// How a query describes its parameters or its row.
#[derive(Debug)]
pub enum QueryDataStructure {
    /// The shape follows from the statement; the names listed are nullable.
    Implicit { idents: Vec<Parsed<String>> },
    /// The shape is the annotation of this name.
    Named(Parsed<String>),
}

/// Mathematical model of a parsed [`NullableIdent`].
pub struct NullableNameView {
    pub pos: Position,
    pub name: Seq<char>,
    pub is_nullable: bool,
}

impl View for Parsed<NullableIdent> {
    type V = NullableNameView;

    open spec fn view(&self) -> NullableNameView {
        NullableNameView {
            pos: self.pos,
            name: self.value.name@,
            is_nullable: self.value.is_nullable,
        }
    }
}

/// Mathematical model of an [`AnnotationField`].
pub struct AnnotationFieldView {
    pub name: ParsedName,
    pub ty: Seq<char>,
    pub is_nullable: bool,
}

impl View for AnnotationField {
    type V = AnnotationFieldView;

    open spec fn view(&self) -> AnnotationFieldView {
        AnnotationFieldView { name: self.name@, ty: self.ty@, is_nullable: self.is_nullable }
    }
}

/// Mathematical model of a [`TypeAnnotation`].
pub struct TypeAnnotationView {
    pub name: ParsedName,
    pub fields: Seq<AnnotationFieldView>,
}

impl View for TypeAnnotation {
    type V = TypeAnnotationView;

    open spec fn view(&self) -> TypeAnnotationView {
        TypeAnnotationView { name: self.name@, fields: views(self.fields@) }
    }
}

impl Named for TypeAnnotation {
    open spec fn name_of(model: TypeAnnotationView) -> Seq<char> {
        model.name.value
    }

    fn name(&self) -> (r: &String) {
        &self.name.value
    }
}

/// Mathematical model of a [`QueryDataStructure`].
pub enum DescriptorView {
    Implicit { idents: Seq<ParsedName> },
    Named(ParsedName),
}

impl View for QueryDataStructure {
    type V = DescriptorView;

    open spec fn view(&self) -> DescriptorView {
        match *self {
            QueryDataStructure::Implicit { idents } => DescriptorView::Implicit {
                idents: views(idents@),
            },
            QueryDataStructure::Named(name) => DescriptorView::Named(name@),
        }
    }
}

/// Mathematical model of a [`ParsedQuery`].
#[allow(inconsistent_fields)]
pub enum ParsedQueryView {
    PgCompatible {
        name: ParsedName,
        params: Seq<NullableNameView>,
        row: Seq<ParsedName>,
        sql_str: Seq<char>,
    },
    Extended {
        name: ParsedName,
        params: DescriptorView,
        bind_params: Seq<ParsedName>,
        row: DescriptorView,
        sql_str: Seq<char>,
    },
}

impl ParsedQueryView {
    /// The name of the query.
    pub open spec fn name(self) -> ParsedName {
        match self {
            ParsedQueryView::PgCompatible { name, .. } => name,
            ParsedQueryView::Extended { name, .. } => name,
        }
    }

    /// The SQL text of the query.
    pub open spec fn sql(self) -> Seq<char> {
        match self {
            ParsedQueryView::PgCompatible { sql_str, .. } => sql_str,
            ParsedQueryView::Extended { sql_str, .. } => sql_str,
        }
    }
}

/// Mathematical model of a [`ParsedModule`].
pub struct ParsedModuleView {
    pub path: Seq<char>,
    pub name: Seq<char>,
    pub queries: Seq<ParsedQueryView>,
    pub param_types: Seq<TypeAnnotationView>,
    pub row_types: Seq<TypeAnnotationView>,
}

/// A query as it is read, before any rule is checked.
#[derive(Debug)]
#[allow(inconsistent_fields)]
pub enum ParsedQuery {
    /// The older form: the parameters by name, each of which may be marked
    /// nullable, and the names of the nullable columns.
    PgCompatible {
        name: Parsed<String>,
        params: Vec<Parsed<NullableIdent>>,
        row: Vec<Parsed<String>>,
        sql_str: String,
    },
    /// The usual form: a description each for the parameters and for the
    /// row, and the bind parameters in the order of their first mention.
    Extended {
        name: Parsed<String>,
        params: QueryDataStructure,
        bind_params: Vec<Parsed<String>>,
        row: QueryDataStructure,
        sql_str: String,
    },
}

impl ParsedQuery {
    /// The name of the query.
    pub open spec fn spec_name(&self) -> Parsed<String> {
        match *self {
            ParsedQuery::PgCompatible { name, .. } => name,
            ParsedQuery::Extended { name, .. } => name,
        }
    }

    /// The name of the query, with its position.
    pub fn parsed_name(&self) -> (r: &Parsed<String>)
        ensures
            *r == self.spec_name(),
            r@ == self@.name(),
    {
        match self {
            ParsedQuery::PgCompatible { name, .. } => name,
            ParsedQuery::Extended { name, .. } => name,
        }
    }
}

impl View for ParsedQuery {
    type V = ParsedQueryView;

    open spec fn view(&self) -> ParsedQueryView {
        match *self {
            ParsedQuery::PgCompatible { name, params, row, sql_str } => ParsedQueryView::PgCompatible {
                name: name@,
                params: views(params@),
                row: views(row@),
                sql_str: sql_str@,
            },
            ParsedQuery::Extended { name, params, bind_params, row, sql_str } => ParsedQueryView::Extended {
                name: name@,
                params: params@,
                bind_params: views(bind_params@),
                row: row@,
                sql_str: sql_str@,
            },
        }
    }
}

impl Named for ParsedQuery {
    open spec fn name_of(model: ParsedQueryView) -> Seq<char> {
        model.name().value
    }

    fn name(&self) -> (r: &String) {
        match self {
            ParsedQuery::PgCompatible { name, .. } => &name.value,
            ParsedQuery::Extended { name, .. } => &name.value,
        }
    }
}

/// A query file as it is read.
#[derive(Debug)]
pub struct ParsedModule {
    pub path: String,
    pub name: String,
    pub queries: Vec<ParsedQuery>,
    pub param_types: Vec<TypeAnnotation>,
    pub row_types: Vec<TypeAnnotation>,
}

impl View for ParsedModule {
    type V = ParsedModuleView;

    open spec fn view(&self) -> ParsedModuleView {
        ParsedModuleView {
            path: self.path@,
            name: self.name@,
            queries: views(self.queries@),
            param_types: views(self.param_types@),
            row_types: views(self.row_types@),
        }
    }
}

/// What is wrong with the text of a query file.
#[derive(Clone, Copy, Debug, PartialEq, Eq, Structural)]
pub enum ParseErrorKind {
    /// Something else stands where a token of the grammar must stand.
    UnexpectedToken,
    /// A query has no `;` after its SQL text.
    UnterminatedQuery,
    /// What follows the name of an annotation or a query is none of the
    /// forms of the grammar.
    BadMetadataForm,
}

/// A failure to read a query file, with the place it came up at.
#[derive(Clone, Copy, Debug, PartialEq, Eq, Structural)]
pub struct ParseError {
    pub kind: ParseErrorKind,
    pub pos: Position,
}

} // verus!
