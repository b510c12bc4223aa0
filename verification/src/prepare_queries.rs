//! The prepared representation of query modules: fields, queries, and the
//! row and parameter structs that queries share by name.

use crate::named_table::NamedTable;
use crate::names::{
    index_of_name, key_of, lemma_index_of_name, lemma_sort_by_name, lemma_views_push,
    sort_by_name, sort_vec_by_name, sorted_by_name, views, Named,
};
use crate::parser::{Parsed, ParsedName};
use crate::pg::DbError;
use crate::text::{decimal, decimal_string};
use crate::type_registrar::{is_copy_at, EntryView, TypeHandle, TypeRegistrar};
use crate::validation::{named_struct_field, same_struct};
use vstd::prelude::*;

verus! {

/// A field of a row or of a parameter struct.
#[derive(Debug, Clone, PartialEq, Eq)]
pub struct PreparedField {
    pub name: String,
    pub ty: TypeHandle,
    pub is_nullable: bool,
    /// For arrays only: whether the elements may be null.
    pub is_inner_nullable: bool,
}

/// Mathematical model of a [`PreparedField`]; `ty` is the position of the
/// type in the registrar's table.
pub struct FieldView {
    pub name: Seq<char>,
    pub ty: int,
    pub is_nullable: bool,
    pub is_inner_nullable: bool,
}

impl View for PreparedField {
    type V = FieldView;

    open spec fn view(&self) -> FieldView {
        FieldView {
            name: self.name@,
            ty: self.ty.index as int,
            is_nullable: self.is_nullable,
            is_inner_nullable: self.is_inner_nullable,
        }
    }
}

impl Named for PreparedField {
    open spec fn name_of(model: FieldView) -> Seq<char> {
        model.name
    }

    fn name(&self) -> (r: &String) {
        &self.name
    }
}

impl PreparedField {
    /// A copy of the field.
    pub fn duplicate(&self) -> (r: PreparedField)
        ensures
            r@ == self@,
    {
        PreparedField {
            name: self.name.clone(),
            ty: self.ty,
            is_nullable: self.is_nullable,
            is_inner_nullable: self.is_inner_nullable,
        }
    }

    /// Whether two fields agree in name, type and nullability.
    pub fn same(&self, other: &PreparedField) -> (r: bool)
        ensures
            r == (self@ == other@),
    {
        self.name == other.name && self.ty.index == other.ty.index && self.is_nullable
            == other.is_nullable && self.is_inner_nullable == other.is_inner_nullable
    }
}

/// A copy of a list of fields.
pub fn duplicate_fields(fields: &Vec<PreparedField>) -> (r: Vec<PreparedField>)
    ensures
        views(r@) == views(fields@),
{
    let mut r: Vec<PreparedField> = Vec::new();
    let mut i: usize = 0;
    while i < fields.len()
        invariant
            i <= fields.len(),
            r.len() == i,
            forall|k: int| 0 <= k < i ==> r[k]@ == fields[k]@,
        decreases fields.len() - i,
    {
        r.push(fields[i].duplicate());
        i += 1;
    }
    assert(views(r@) =~= views(fields@));
    r
}

/// Everything that is generated for one query.
#[derive(Debug, Clone, PartialEq, Eq)]
pub struct PreparedQuery {
    pub name: String,
    pub params: Vec<PreparedField>,
    /// The row struct and, for each of its fields, the wire column that
    /// holds it; `None` for a statement that returns no rows.
    pub row: Option<(usize, Vec<usize>)>,
    pub sql: String,
}

/// Mathematical model of a [`PreparedQuery`].
pub struct QueryView {
    pub name: Seq<char>,
    pub params: Seq<FieldView>,
    pub row: Option<(int, Seq<int>)>,
    pub sql: Seq<char>,
}

/// A list of positions as integers.
pub open spec fn positions(indices: Seq<usize>) -> Seq<int> {
    indices.map_values(|i: usize| i as int)
}

impl View for PreparedQuery {
    type V = QueryView;

    open spec fn view(&self) -> QueryView {
        QueryView {
            name: self.name@,
            params: views(self.params@),
            row: match self.row {
                Some((idx, columns)) => Some((idx as int, positions(columns@))),
                None => None,
            },
            sql: self.sql@,
        }
    }
}

impl Named for PreparedQuery {
    open spec fn name_of(model: QueryView) -> Seq<char> {
        model.name
    }

    fn name(&self) -> (r: &String) {
        &self.name
    }
}

/// A parameter struct, with the queries that bind it.
#[derive(Debug, Clone, PartialEq, Eq)]
pub struct PreparedParams {
    pub name: String,
    /// Sorted by name.
    pub fields: Vec<PreparedField>,
    pub is_copy: bool,
    pub queries: Vec<usize>,
}

/// Mathematical model of a [`PreparedParams`].
pub struct ParamsView {
    pub name: Seq<char>,
    pub fields: Seq<FieldView>,
    pub is_copy: bool,
    pub queries: Seq<int>,
}

impl View for PreparedParams {
    type V = ParamsView;

    open spec fn view(&self) -> ParamsView {
        ParamsView {
            name: self.name@,
            fields: views(self.fields@),
            is_copy: self.is_copy,
            queries: positions(self.queries@),
        }
    }
}

impl Named for PreparedParams {
    open spec fn name_of(model: ParamsView) -> Seq<char> {
        model.name
    }

    fn name(&self) -> (r: &String) {
        &self.name
    }
}

/// A row struct.
#[derive(Debug, Clone, PartialEq, Eq)]
pub struct PreparedRow {
    pub name: String,
    /// Sorted by name.
    pub fields: Vec<PreparedField>,
    pub is_copy: bool,
}

/// Mathematical model of a [`PreparedRow`].
pub struct RowView {
    pub name: Seq<char>,
    pub fields: Seq<FieldView>,
    pub is_copy: bool,
}

impl View for PreparedRow {
    type V = RowView;

    open spec fn view(&self) -> RowView {
        RowView { name: self.name@, fields: views(self.fields@), is_copy: self.is_copy }
    }
}

impl Named for PreparedRow {
    open spec fn name_of(model: RowView) -> Seq<char> {
        model.name
    }

    fn name(&self) -> (r: &String) {
        &self.name
    }
}

/// One module: its queries, and the parameter and row structs they use, each
/// in the order in which it first came up.
#[derive(Debug)]
pub struct PreparedModule {
    pub path: String,
    pub name: String,
    pub queries: NamedTable<PreparedQuery>,
    pub params: NamedTable<PreparedParams>,
    pub rows: NamedTable<PreparedRow>,
}

/// Mathematical model of a [`PreparedModule`].
pub struct ModuleView {
    pub path: Seq<char>,
    pub name: Seq<char>,
    pub queries: Seq<QueryView>,
    pub params: Seq<ParamsView>,
    pub rows: Seq<RowView>,
}

impl View for PreparedModule {
    type V = ModuleView;

    open spec fn view(&self) -> ModuleView {
        ModuleView {
            path: self.path@,
            name: self.name@,
            queries: views(self.queries.values()),
            params: views(self.params.values()),
            rows: views(self.rows.values()),
        }
    }
}

impl Named for PreparedModule {
    open spec fn name_of(model: ModuleView) -> Seq<char> {
        model.name
    }

    fn name(&self) -> (r: &String) {
        &self.name
    }
}

/// The table is in order and each value stands under its own name.
pub open spec fn keyed<T: Named>(table: &NamedTable<T>) -> bool {
    &&& table.wf()
    &&& forall|i: int|
        0 <= i < table.values().len() ==> (#[trigger] table.names()[i]) == T::name_of(
            table.values()[i]@,
        )
}

/// In a table whose values stand under their own names, looking a name up
/// gives the first value of that name.
pub proof fn lemma_keyed_position<T: Named>(table: &NamedTable<T>, name: Seq<char>)
    requires
        keyed(table),
    ensures
        table.position(name) == index_of_name(views(table.values()), key_of::<T>(), name),
{
    let key = key_of::<T>();
    let models = views(table.values());
    lemma_index_of_name(models, key, name);
    assert forall|j: int| 0 <= j < models.len() implies key(models[j]) == table.names()[j] by {}
    match index_of_name(models, key, name) {
        Some(i) => {
            assert(table.names()[i] == name);
            assert(table.names().contains(name));
        },
        None => {
            if table.names().contains(name) {
                let j = table.names().index_of(name);
                assert(key(models[j]) == name);
            }
        },
    }
}

/// Why a query could not be prepared.
#[derive(Debug)]
pub enum ErrorVariant {
    /// The database refused the statement.
    Db(DbError),
    /// The statement uses a type that cannot be registered.
    PostgresType(crate::type_registrar::Error),
    /// The query breaks a rule.
    Validation(crate::validation::Error),
    /// Two or more columns of the statement have this name.
    DuplicateSqlColName { name: String },
}

/// Mathematical model of an [`ErrorVariant`].
pub enum ErrorVariantView {
    Db(Seq<char>),
    PostgresType(crate::type_registrar::ErrorView),
    Validation(crate::validation::ErrorView),
    DuplicateSqlColName { name: Seq<char> },
}

impl View for ErrorVariant {
    type V = ErrorVariantView;

    open spec fn view(&self) -> ErrorVariantView {
        match *self {
            ErrorVariant::Db(e) => ErrorVariantView::Db(e.message@),
            ErrorVariant::PostgresType(e) => ErrorVariantView::PostgresType(e@),
            ErrorVariant::Validation(e) => ErrorVariantView::Validation(e@),
            ErrorVariant::DuplicateSqlColName { name } => ErrorVariantView::DuplicateSqlColName {
                name: name@,
            },
        }
    }
}

/// A failure, with the query and the file it came up in.
#[derive(Debug)]
pub struct Error {
    pub query_name: Parsed<String>,
    pub err: ErrorVariant,
    pub path: String,
}

/// Mathematical model of an [`Error`].
pub struct ErrorView {
    pub query_name: ParsedName,
    pub err: ErrorVariantView,
    pub path: Seq<char>,
}

impl View for Error {
    type V = ErrorView;

    open spec fn view(&self) -> ErrorView {
        ErrorView { query_name: self.query_name@, err: self.err@, path: self.path@ }
    }
}

/// How a diagnostic begins: the query, the file and the line.
pub open spec fn heading(error: ErrorView) -> Seq<char> {
    "Error while preparing query \""@ + error.query_name.value + "\" [file: \""@ + error.path
        + "\", line: "@ + decimal(error.query_name.pos.line as nat) + "]"@
}

/// What a failure is about, without the query and the file: the database's
/// message, the type that was refused, or the name that columns share. A
/// broken rule has its own text.
pub open spec fn detail_of(err: ErrorVariantView) -> Seq<char> {
    match err {
        ErrorVariantView::Db(message) => message,
        ErrorVariantView::Validation(e) => crate::validation::message_of(e),
        ErrorVariantView::PostgresType(e) => crate::type_registrar::message_of(e),
        ErrorVariantView::DuplicateSqlColName { name } => "Two or more columns have the same name: `"@
            + name + "`. Consider disambiguing the column names with `AS` clauses."@,
    }
}

/// The text of a failure: a broken rule speaks for itself; anything else is
/// the heading followed by the detail in round brackets.
pub open spec fn message_of(error: ErrorView) -> Seq<char> {
    match error.err {
        ErrorVariantView::Validation(e) => crate::validation::message_of(e),
        _ => heading(error) + " ("@ + detail_of(error.err) + ")"@,
    }
}

impl Error {
    /// The failure `err` of the query `query_name` in the file `path`.
    pub fn new(err: ErrorVariant, query_name: &Parsed<String>, path: &String) -> (r: Self)
        ensures
            r@ == (ErrorView { query_name: query_name@, err: err@, path: path@ }),
    {
        Error { err, path: path.clone(), query_name: query_name.clone() }
    }

    /// Writes how the diagnostic begins.
    fn heading(&self) -> (r: String)
        ensures
            r@ == heading(self@),
    {
        let mut text = "Error while preparing query \"".to_owned();
        text.append(self.query_name.value.as_str());
        text.append("\" [file: \"");
        text.append(self.path.as_str());
        text.append("\", line: ");
        text.append(decimal_string(self.query_name.pos.line).as_str());
        text.append("]");
        text
    }

    /// Writes what the failure is about.
    fn detail(&self) -> (r: String)
        ensures
            r@ == detail_of(self@.err),
    {
        match &self.err {
            ErrorVariant::Db(e) => e.message.clone(),
            ErrorVariant::Validation(e) => e.message(),
            ErrorVariant::PostgresType(e) => e.message(),
            ErrorVariant::DuplicateSqlColName { name } => {
                let mut text = "Two or more columns have the same name: `".to_owned();
                text.append(name.as_str());
                text.append("`. Consider disambiguing the column names with `AS` clauses.");
                text
            },
        }
    }

    /// The diagnostic as text.
    pub fn message(&self) -> (r: String)
        ensures
            r@ == message_of(self@),
    {
        match &self.err {
            ErrorVariant::Validation(e) => e.message(),
            _ => {
                let mut text = self.heading();
                text.append(" (");
                text.append(self.detail().as_str());
                text.append(")");
                text
            },
        }
    }
}

/// Whether all fields are copies.
pub open spec fn all_copy_fields(table: Seq<EntryView>, fields: Seq<FieldView>) -> bool {
    forall|i: int| 0 <= i < fields.len() ==> is_copy_at(table, (#[trigger] fields[i]).ty)
}

/// For each stored field, the first place at which `fields` holds it.
pub open spec fn permutation(stored: Seq<FieldView>, fields: Seq<FieldView>) -> Seq<int> {
    Seq::new(stored.len(), |i: int| fields.index_of_first(stored[i]).unwrap())
}

/// For each stored field, `permutation` gives a place in `fields` at which
/// this very field stands, where every stored field occurs among `fields`.
pub proof fn lemma_permutation(stored: Seq<FieldView>, fields: Seq<FieldView>)
    requires
        forall|i: int| 0 <= i < stored.len() ==> fields.contains(#[trigger] stored[i]),
    ensures
        permutation(stored, fields).len() == stored.len(),
        forall|i: int|
            0 <= i < stored.len() ==> 0 <= #[trigger] permutation(stored, fields)[i] < fields.len()
                && fields[permutation(stored, fields)[i]] == stored[i],
{
    assert forall|i: int| 0 <= i < stored.len() implies 0 <= #[trigger] permutation(
        stored,
        fields,
    )[i] < fields.len() && fields[permutation(stored, fields)[i]] == stored[i] by {
        assert(fields.contains(stored[i]));
        fields.index_of_first_ensures(stored[i]);
    }
}

/// The row that a query names is a row struct of the module, and the column
/// order has one entry for each of its fields, each the place of a column.
pub open spec fn row_in_range(rows: Seq<RowView>, row: Option<(int, Seq<int>)>) -> bool {
    row matches Some((index, columns)) ==> {
        &&& 0 <= index < rows.len()
        &&& columns.len() == rows[index].fields.len()
        &&& forall|i: int| 0 <= i < columns.len() ==> 0 <= #[trigger] columns[i] < columns.len()
    }
}

/// What holds of every module: the fields of each row struct and of each
/// parameter struct stand in the order of their names; the row that a query
/// names and its column order are in range; the queries that a parameter
/// struct lists are queries of the module.
pub open spec fn module_inv(module: ModuleView) -> bool {
    &&& forall|r: int|
        0 <= r < module.rows.len() ==> sorted_by_name(
            (#[trigger] module.rows[r]).fields,
            key_of::<PreparedField>(),
        )
    &&& forall|p: int|
        0 <= p < module.params.len() ==> sorted_by_name(
            (#[trigger] module.params[p]).fields,
            key_of::<PreparedField>(),
        )
    &&& forall|p: int, k: int|
        0 <= p < module.params.len() && 0 <= k < module.params[p].queries.len() ==> 0
            <= #[trigger] module.params[p].queries[k] < module.queries.len()
    &&& forall|q: int|
        0 <= q < module.queries.len() ==> row_in_range(
            module.rows,
            (#[trigger] module.queries[q]).row,
        )
}

/// The module with one more row struct.
pub open spec fn with_row(module: ModuleView, row: RowView) -> ModuleView {
    ModuleView { rows: module.rows.push(row), ..module }
}

/// What interning a row does. Under a new name the fields are stored in the
/// order of their names, and the struct is a copy exactly if all its fields
/// are. Under a name that exists the module stays as it is, and the fields
/// must be the stored ones in some order. Either way the result is the
/// position of the struct and, for each stored field, the place it has in
/// `fields`.
pub open spec fn add_row_spec(
    module: ModuleView,
    table: Seq<EntryView>,
    name: ParsedName,
    fields: Seq<FieldView>,
) -> (ModuleView, Result<(int, Seq<int>), crate::validation::ErrorView>) {
    match index_of_name(module.rows, key_of::<PreparedRow>(), name.value) {
        Some(i) => if same_struct(module.rows[i].fields, fields) {
            (module, Ok((i, permutation(module.rows[i].fields, fields))))
        } else {
            (
                module,
                Err(
                    crate::validation::ErrorView::IncompatibleNamedStruct {
                        name,
                        prev: module.rows[i].fields,
                        new: fields,
                    },
                ),
            )
        },
        None => {
            let stored = sort_by_name(fields, key_of::<PreparedField>());
            let row = RowView {
                name: name.value,
                fields: stored,
                is_copy: all_copy_fields(table, fields),
            };
            (with_row(module, row), Ok((module.rows.len() as int, permutation(stored, fields))))
        },
    }
}

/// The module with one more query, or with the query of that name replaced.
pub open spec fn add_query_spec(module: ModuleView, query: QueryView) -> (ModuleView, int) {
    match index_of_name(module.queries, key_of::<PreparedQuery>(), query.name) {
        Some(i) => (ModuleView { queries: module.queries.update(i, query), ..module }, i),
        None => (
            ModuleView { queries: module.queries.push(query), ..module },
            module.queries.len() as int,
        ),
    }
}

/// What interning a parameter struct does for the query at `query_idx`.
/// Under a new name the query's parameters are stored in the order of their
/// names. Under a name that exists they must be the stored ones in some
/// order. Either way the query is added to the struct's queries, and the
/// result is the position of the struct.
pub open spec fn add_param_spec(
    module: ModuleView,
    table: Seq<EntryView>,
    name: ParsedName,
    query_idx: int,
) -> (ModuleView, Result<int, crate::validation::ErrorView>) {
    let fields = module.queries[query_idx].params;
    match index_of_name(module.params, key_of::<PreparedParams>(), name.value) {
        Some(i) => if same_struct(module.params[i].fields, fields) {
            let entry = ParamsView {
                queries: module.params[i].queries.push(query_idx),
                ..module.params[i]
            };
            (ModuleView { params: module.params.update(i, entry), ..module }, Ok(i))
        } else {
            (
                module,
                Err(
                    crate::validation::ErrorView::IncompatibleNamedStruct {
                        name,
                        prev: module.params[i].fields,
                        new: fields,
                    },
                ),
            )
        },
        None => {
            let entry = ParamsView {
                name: name.value,
                fields: sort_by_name(fields, key_of::<PreparedField>()),
                is_copy: all_copy_fields(table, fields),
                queries: seq![query_idx],
            };
            (
                ModuleView { params: module.params.push(entry), ..module },
                Ok(module.params.len() as int),
            )
        },
    }
}

/// Whether all fields are copies.
pub fn all_copy(registrar: &TypeRegistrar, fields: &Vec<PreparedField>) -> (r: bool)
    ensures
        r == all_copy_fields(registrar@, views(fields@)),
{
    let mut i: usize = 0;
    while i < fields.len()
        invariant
            i <= fields.len(),
            forall|j: int| 0 <= j < i ==> is_copy_at(registrar@, (#[trigger] views(fields@)[j]).ty),
        decreases fields.len() - i,
    {
        if !registrar.is_copy(fields[i].ty) {
            assert(!is_copy_at(registrar@, views(fields@)[i as int].ty));
            return false;
        }
        i += 1;
    }
    true
}

/// For each stored field, the first place at which `fields` holds it.
pub fn positions_of(stored: &Vec<PreparedField>, fields: &Vec<PreparedField>) -> (r: Vec<usize>)
    requires
        forall|i: int|
            0 <= i < stored.len() ==> views(fields@).contains(#[trigger] views(stored@)[i]),
    ensures
        positions(r@) == permutation(views(stored@), views(fields@)),
{
    assert forall|i: int| 0 <= i < stored.len() implies views(fields@).contains(
        #[trigger] stored[i]@,
    ) by {
        assert(views(stored@)[i] == stored[i]@);
    }
    let mut r: Vec<usize> = Vec::new();
    let mut i: usize = 0;
    while i < stored.len()
        invariant
            i <= stored.len(),
            r.len() == i,
            forall|k: int| 0 <= k < stored.len() ==> views(fields@).contains(#[trigger] stored[k]@),
            forall|k: int|
                0 <= k < i ==> Some(r[k] as int) == views(fields@).index_of_first(
                    #[trigger] stored[k]@,
                ),
        decreases stored.len() - i,
    {
        let mut j: usize = 0;
        proof {
            views(fields@).index_of_first_ensures(stored[i as int]@);
        }
        while j < fields.len() && !fields[j].same(&stored[i])
            invariant
                j <= fields.len(),
                i < stored.len(),
                views(fields@).contains(stored[i as int]@),
                forall|k: int| 0 <= k < j ==> views(fields@)[k] != stored[i as int]@,
            decreases fields.len() - j,
        {
            j += 1;
        }
        proof {
            let found = views(fields@).index_of_first(stored[i as int]@).unwrap();
            if j >= fields.len() {
                assert(views(fields@)[found] == stored[i as int]@);
                assert(false);
            }
            assert(views(fields@)[j as int] == stored[i as int]@);
            if found < j {
                assert(views(fields@)[found] != stored[i as int]@);
            }
        }
        r.push(j);
        i += 1;
    }
    assert(positions(r@) =~= permutation(views(stored@), views(fields@)));
    r
}

impl PreparedModule {
    /// The three tables are in order, every struct and query stands under
    /// its own name, and the module is in order (see [`module_inv`]).
    pub open spec fn wf(&self) -> bool {
        &&& keyed(&self.queries)
        &&& keyed(&self.params)
        &&& keyed(&self.rows)
        &&& module_inv(self@)
    }

    /// A module that holds nothing yet.
    pub fn new(name: String, path: String) -> (r: Self)
        ensures
            r.wf(),
            r@ == (ModuleView {
                path: path@,
                name: name@,
                queries: Seq::empty(),
                params: Seq::empty(),
                rows: Seq::empty(),
            }),
    {
        let r = PreparedModule {
            name,
            queries: NamedTable::new(),
            params: NamedTable::new(),
            rows: NamedTable::new(),
            path,
        };
        assert(r@.queries =~= Seq::empty());
        assert(r@.params =~= Seq::empty());
        assert(r@.rows =~= Seq::empty());
        r
    }

    /// Interns the row struct `name` with the fields of one query, given in
    /// wire order (see [`add_row_spec`]).
    pub fn add_row(
        &mut self,
        registrar: &TypeRegistrar,
        name: Parsed<String>,
        fields: Vec<PreparedField>,
    ) -> (r: Result<(usize, Vec<usize>), ErrorVariant>)
        requires
            old(self).wf(),
            fields.len() > 0,
        ensures
            final(self).wf(),
            final(self)@ == add_row_spec(old(self)@, registrar@, name@, views(fields@)).0,
            match r {
                Ok((index, columns)) => add_row_spec(
                    old(self)@,
                    registrar@,
                    name@,
                    views(fields@),
                ).1 == Ok::<_, crate::validation::ErrorView>((index as int, positions(columns@))),
                Err(e) => add_row_spec(old(self)@, registrar@, name@, views(fields@)).1 matches Err(
                    reason,
                ) && e@ == ErrorVariantView::Validation(reason),
            },
            r matches Ok((index, columns)) ==> row_in_range(
                final(self)@.rows,
                Some((index as int, positions(columns@))),
            ),
    {
        proof {
            lemma_keyed_position(&self.rows, name.value@);
            lemma_index_of_name(self@.rows, key_of::<PreparedRow>(), name.value@);
            lemma_sort_by_name(views(fields@), key_of::<PreparedField>());
        }
        match self.rows.index_of(&name.value) {
            Some(index) => {
                let prev = &self.rows.get(index).fields;
                match named_struct_field(&name, prev, &fields) {
                    Ok(()) => {
                        proof {
                            crate::validation::lemma_same_struct(views(prev@), views(fields@));
                            lemma_permutation(views(prev@), views(fields@));
                        }
                        let columns = positions_of(prev, &fields);
                        Ok((index, columns))
                    },
                    Err(e) => Err(ErrorVariant::Validation(e)),
                }
            },
            None => {
                let is_copy = all_copy(registrar, &fields);
                let stored = sort_vec_by_name(duplicate_fields(&fields));
                proof {
                    lemma_stored_fields_occur(views(stored@), views(fields@));
                    lemma_permutation(views(stored@), views(fields@));
                }
                let columns = positions_of(&stored, &fields);
                let row = PreparedRow { name: name.value.clone(), fields: stored, is_copy };
                proof {
                    lemma_views_push(self.rows.values(), row);
                }
                let (index, _) = self.rows.insert_full(name.value, row);
                proof {
                    let before = old(self)@;
                    let after = self@;
                    assert(after.rows == before.rows.push(row@));
                    assert forall|r: int| 0 <= r < after.rows.len() implies sorted_by_name(
                        (#[trigger] after.rows[r]).fields,
                        key_of::<PreparedField>(),
                    ) by {
                        if r < before.rows.len() {
                            assert(after.rows[r] == before.rows[r]);
                        }
                    }
                    assert forall|q: int| 0 <= q < after.queries.len() implies row_in_range(
                        after.rows,
                        (#[trigger] after.queries[q]).row,
                    ) by {
                        assert(row_in_range(before.rows, before.queries[q].row));
                        if let Some((at, _)) = before.queries[q].row {
                            assert(after.rows[at] == before.rows[at]);
                        }
                    }
                }
                Ok((index, columns))
            },
        }
    }

    /// Stores a query under its name and gives its position (see
    /// [`add_query_spec`]).
    pub fn add_query(
        &mut self,
        name: String,
        params: Vec<PreparedField>,
        row_idx: Option<(usize, Vec<usize>)>,
        sql: String,
    ) -> (r: usize)
        requires
            old(self).wf(),
            row_in_range(old(self)@.rows, (PreparedQuery { name, params, row: row_idx, sql })@.row),
        ensures
            final(self).wf(),
            (final(self)@, r as int) == add_query_spec(
                old(self)@,
                (PreparedQuery { name, params, row: row_idx, sql })@,
            ),
            r < final(self)@.queries.len(),
    {
        proof {
            lemma_keyed_position(&self.queries, name@);
            lemma_index_of_name(self@.queries, key_of::<PreparedQuery>(), name@);
        }
        let query = PreparedQuery { name: name.clone(), params, row: row_idx, sql };
        proof {
            lemma_views_push(self.queries.values(), query);
        }
        let (index, _) = self.queries.insert_full(name, query);
        proof {
            if old(self).queries.position(name@).is_some() {
                assert(self@.queries =~= old(self)@.queries.update(index as int, query@));
            }
            let before = old(self)@;
            let after = self@;
            assert(after.rows == before.rows && after.params == before.params);
            assert(after.queries.len() >= before.queries.len());
            assert forall|q: int| 0 <= q < after.queries.len() implies row_in_range(
                after.rows,
                (#[trigger] after.queries[q]).row,
            ) by {
                if q != index {
                    assert(after.queries[q] == before.queries[q]);
                } else {
                    assert(after.queries[q] == query@);
                }
            }
            assert forall|p: int, k: int|
                0 <= p < after.params.len() && 0 <= k < after.params[p].queries.len() implies 0
                <= #[trigger] after.params[p].queries[k] < after.queries.len() by {
                assert(0 <= before.params[p].queries[k] < before.queries.len());
            }
        }
        index
    }

    /// Interns the parameter struct `name` for the query at `query_idx` (see
    /// [`add_param_spec`]).
    pub fn add_param(&mut self, registrar: &TypeRegistrar, name: Parsed<String>, query_idx: usize) -> (r:
        Result<usize, ErrorVariant>)
        requires
            old(self).wf(),
            query_idx < old(self)@.queries.len(),
            old(self)@.queries[query_idx as int].params.len() > 0,
        ensures
            final(self).wf(),
            final(self)@ == add_param_spec(old(self)@, registrar@, name@, query_idx as int).0,
            match r {
                Ok(index) => add_param_spec(old(self)@, registrar@, name@, query_idx as int).1 == Ok::<
                    _,
                    crate::validation::ErrorView,
                >(index as int),
                Err(e) => add_param_spec(old(self)@, registrar@, name@, query_idx as int).1 matches Err(
                    reason,
                ) && e@ == ErrorVariantView::Validation(reason),
            },
    {
        proof {
            lemma_keyed_position(&self.params, name.value@);
        }
        match self.params.index_of(&name.value) {
            Some(index) => {
                let fields = &self.queries.get(query_idx).params;
                let prev = self.params.get(index);
                match named_struct_field(&name, &prev.fields, fields) {
                    Ok(()) => {
                        let ghost before = prev@;
                        let entry = self.params.get_mut(index);
                        entry.queries.push(query_idx);
                        proof {
                            assert(positions(entry.queries@) =~= before.queries.push(
                                query_idx as int,
                            ));
                            assert(self@.params =~= old(self)@.params.update(
                                index as int,
                                (ParamsView {
                                    queries: before.queries.push(query_idx as int),
                                    ..before
                                }),
                            ));
                            lemma_params_in_order(old(self)@, self@, index as int, query_idx as int);
                        }
                        Ok(index)
                    },
                    Err(e) => Err(ErrorVariant::Validation(e)),
                }
            },
            None => {
                let fields = &self.queries.get(query_idx).params;
                let is_copy = all_copy(registrar, fields);
                let stored = sort_vec_by_name(duplicate_fields(fields));
                let mut queries: Vec<usize> = Vec::new();
                queries.push(query_idx);
                let entry = PreparedParams {
                    name: name.value.clone(),
                    fields: stored,
                    is_copy,
                    queries,
                };
                proof {
                    lemma_views_push(self.params.values(), entry);
                    assert(positions(entry.queries@) =~= seq![query_idx as int]);
                    lemma_sort_by_name(views(fields@), key_of::<PreparedField>());
                }
                let (index, _) = self.params.insert_full(name.value, entry);
                proof {
                    lemma_params_in_order(old(self)@, self@, index as int, query_idx as int);
                }
                Ok(index)
            },
        }
    }
}

/// A module stays in order when one parameter struct is added or gets one
/// more query, the others staying as they are.
proof fn lemma_params_in_order(before: ModuleView, after: ModuleView, index: int, query_idx: int)
    requires
        module_inv(before),
        after.rows == before.rows,
        after.queries == before.queries,
        0 <= query_idx < before.queries.len(),
        0 <= index < after.params.len(),
        before.params.len() <= after.params.len() <= before.params.len() + 1,
        after.params.len() > before.params.len() ==> index == before.params.len(),
        forall|p: int|
            0 <= p < before.params.len() && p != index ==> after.params[p] == before.params[p],
        sorted_by_name(after.params[index].fields, key_of::<PreparedField>()),
        index < before.params.len() ==> after.params[index].queries
            == before.params[index].queries.push(query_idx),
        index >= before.params.len() ==> after.params[index].queries == seq![query_idx],
    ensures
        module_inv(after),
{
    assert forall|p: int| 0 <= p < after.params.len() implies sorted_by_name(
        (#[trigger] after.params[p]).fields,
        key_of::<PreparedField>(),
    ) by {
        if p != index {
            assert(after.params[p] == before.params[p]);
        }
    }
    assert forall|p: int, k: int|
        0 <= p < after.params.len() && 0 <= k < after.params[p].queries.len() implies 0
        <= #[trigger] after.params[p].queries[k] < after.queries.len() by {
        if p != index {
            assert(after.params[p] == before.params[p]);
            assert(0 <= before.params[p].queries[k] < before.queries.len());
        } else if index < before.params.len() && k < before.params[index].queries.len() {
            assert(after.params[p].queries[k] == before.params[index].queries[k]);
            assert(0 <= before.params[index].queries[k] < before.queries.len());
        }
    }
}

/// Fields that are, in the order of their names, the given fields, all occur
/// among the given fields.
pub proof fn lemma_stored_fields_occur(stored: Seq<FieldView>, fields: Seq<FieldView>)
    requires
        stored == sort_by_name(fields, key_of::<PreparedField>()),
    ensures
        stored.len() == fields.len(),
        forall|i: int| 0 <= i < stored.len() ==> fields.contains(#[trigger] stored[i]),
{
    broadcast use vstd::seq_lib::group_to_multiset_ensures;

    lemma_sort_by_name(fields, key_of::<PreparedField>());
    assert forall|i: int| 0 <= i < stored.len() implies fields.contains(#[trigger] stored[i]) by {
        assert(stored.contains(stored[i]));
        assert(stored.to_multiset().count(stored[i]) > 0);
    }
}

} // verus!
