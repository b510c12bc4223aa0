//! Validated queries, and the rules that can only be checked against what
//! the database reports or against what a module already holds.

use crate::names::{
    first_duplicate, has_duplicate, index_of_name, key_of, lemma_index_of_name, position_by_name,
    views,
};
use crate::parser::{
    values_of, AnnotationFieldView, DescriptorView, NullableIdent, Parsed, ParsedModule,
    ParsedModuleView, ParsedName, ParsedQuery, ParsedQueryView, QueryDataStructure,
    TypeAnnotation, TypeAnnotationView,
};
use crate::pg::{Column, ColumnView};
use crate::prepare_queries::{duplicate_fields, FieldView, PreparedField};
use crate::text::{decimal, decimal_string};
use vstd::prelude::*;

verus! {

/// A query that passed validation.
#[derive(Debug)]
#[allow(inconsistent_fields)]
pub enum ValidatedQuery {
    /// The older form: the parameters by name, each of which may be marked
    /// nullable, and the names of the nullable columns.
    PgCompatible {
        name: Parsed<String>,
        params: Vec<Parsed<NullableIdent>>,
        row: Vec<Parsed<String>>,
        sql_str: String,
    },
    /// The usual form: a description each for the parameters and for the
    /// row, and the bind parameters in the order of their numbers.
    Extended {
        name: Parsed<String>,
        params: QueryDataStructure,
        bind_params: Vec<Parsed<String>>,
        row: QueryDataStructure,
        sql_str: String,
    },
}

impl ValidatedQuery {
    /// The name of the query.
    pub open spec fn spec_name(&self) -> Parsed<String> {
        match *self {
            ValidatedQuery::PgCompatible { name, .. } => name,
            ValidatedQuery::Extended { name, .. } => name,
        }
    }

    /// The SQL text of the query.
    pub open spec fn spec_sql(&self) -> String {
        match *self {
            ValidatedQuery::PgCompatible { sql_str, .. } => sql_str,
            ValidatedQuery::Extended { sql_str, .. } => sql_str,
        }
    }

    /// The name of the query.
    pub fn name(&self) -> (r: &Parsed<String>)
        ensures
            *r == self.spec_name(),
            r@ == self@.name(),
    {
        match self {
            ValidatedQuery::PgCompatible { name, .. } => name,
            ValidatedQuery::Extended { name, .. } => name,
        }
    }

    /// The SQL text, as it is handed to the database.
    pub fn sql_str(&self) -> (r: &String)
        ensures
            *r == self.spec_sql(),
            r@ == self@.sql(),
    {
        match self {
            ValidatedQuery::PgCompatible { sql_str, .. } => sql_str,
            ValidatedQuery::Extended { sql_str, .. } => sql_str,
        }
    }
}

impl View for ValidatedQuery {
    type V = ParsedQueryView;

    open spec fn view(&self) -> ParsedQueryView {
        match *self {
            ValidatedQuery::PgCompatible { name, params, row, sql_str } => ParsedQueryView::PgCompatible {
                name: name@,
                params: views(params@),
                row: views(row@),
                sql_str: sql_str@,
            },
            ValidatedQuery::Extended { name, params, bind_params, row, sql_str } => ParsedQueryView::Extended {
                name: name@,
                params: params@,
                bind_params: views(bind_params@),
                row: row@,
                sql_str: sql_str@,
            },
        }
    }
}

/// A module that passed validation.
#[derive(Debug)]
pub struct ValidatedModule {
    pub path: String,
    pub name: String,
    pub queries: Vec<ValidatedQuery>,
    pub param_types: Vec<TypeAnnotation>,
    pub row_types: Vec<TypeAnnotation>,
}

impl View for ValidatedModule {
    type V = ParsedModuleView;

    open spec fn view(&self) -> ParsedModuleView {
        ParsedModuleView {
            path: self.path@,
            name: self.name@,
            queries: views(self.queries@),
            param_types: views(self.param_types@),
            row_types: views(self.row_types@),
        }
    }
}

/// A rule that a query breaks.
#[derive(Debug)]
pub enum Error {
    /// The query refers to an annotation that its module does not declare.
    UnknownNamedStruct { name: Parsed<String>, in_params: bool },
    /// A column marked nullable is none of the statement's columns.
    UnknownNullableColumn { name: Parsed<String> },
    /// A parameter marked nullable is none of the statement's parameters.
    UnknownNullableParam { name: Parsed<String> },
    /// A struct of this name exists with other fields.
    IncompatibleNamedStruct { name: Parsed<String>, prev: Vec<PreparedField>, new: Vec<PreparedField> },
    /// An earlier query of the module has this name.
    DuplicateQueryName { name: Parsed<String> },
    /// An earlier annotation of the same list has this name.
    DuplicateTypeAnnotation { name: Parsed<String>, in_params: bool },
    /// The bind parameters hold this name twice.
    DuplicateBindParam { name: Parsed<String> },
}

/// Mathematical model of an [`Error`].
pub enum ErrorView {
    UnknownNamedStruct { name: ParsedName, in_params: bool },
    UnknownNullableColumn { name: ParsedName },
    UnknownNullableParam { name: ParsedName },
    IncompatibleNamedStruct { name: ParsedName, prev: Seq<FieldView>, new: Seq<FieldView> },
    DuplicateQueryName { name: ParsedName },
    DuplicateTypeAnnotation { name: ParsedName, in_params: bool },
    DuplicateBindParam { name: ParsedName },
}

impl View for Error {
    type V = ErrorView;

    open spec fn view(&self) -> ErrorView {
        match *self {
            Error::UnknownNamedStruct { name, in_params } => ErrorView::UnknownNamedStruct {
                name: name@,
                in_params,
            },
            Error::UnknownNullableColumn { name } => ErrorView::UnknownNullableColumn { name: name@ },
            Error::UnknownNullableParam { name } => ErrorView::UnknownNullableParam { name: name@ },
            Error::IncompatibleNamedStruct { name, prev, new } => ErrorView::IncompatibleNamedStruct {
                name: name@,
                prev: views(prev@),
                new: views(new@),
            },
            Error::DuplicateQueryName { name } => ErrorView::DuplicateQueryName { name: name@ },
            Error::DuplicateTypeAnnotation { name, in_params } => ErrorView::DuplicateTypeAnnotation {
                name: name@,
                in_params,
            },
            Error::DuplicateBindParam { name } => ErrorView::DuplicateBindParam { name: name@ },
        }
    }
}

/// The place of a name, as diagnostics give it.
pub open spec fn place_of(name: ParsedName) -> Seq<char> {
    " [line: "@ + decimal(name.pos.line as nat) + ", col: "@ + decimal(name.pos.col as nat) + "]"@
}

/// The text of a broken rule.
pub open spec fn message_of(error: ErrorView) -> Seq<char> {
    match error {
        ErrorView::UnknownNamedStruct { name, in_params } => "No type annotation named `"@
            + name.value + if in_params {
            "` is declared for parameters"@
        } else {
            "` is declared for rows"@
        } + place_of(name),
        ErrorView::UnknownNullableColumn { name } => "No column named `"@ + name.value
            + "` found for the row"@ + place_of(name),
        ErrorView::UnknownNullableParam { name } => "No parameter named `"@ + name.value
            + "` found for the query"@ + place_of(name),
        ErrorView::IncompatibleNamedStruct { name, .. } => "Named struct `"@ + name.value
            + "` is already used with other fields"@ + place_of(name),
        ErrorView::DuplicateQueryName { name } => "A query named `"@ + name.value
            + "` already exists"@ + place_of(name),
        ErrorView::DuplicateTypeAnnotation { name, in_params } => "A type annotation named `"@
            + name.value + if in_params {
            "` already exists for parameters"@
        } else {
            "` already exists for rows"@
        } + place_of(name),
        ErrorView::DuplicateBindParam { name } => "The bind parameter `"@ + name.value
            + "` is listed twice"@ + place_of(name),
    }
}

/// Writes the place of a name.
fn place(name: &Parsed<String>) -> (r: String)
    ensures
        r@ == place_of(name@),
{
    let mut text = " [line: ".to_owned();
    text.append(decimal_string(name.pos.line).as_str());
    text.append(", col: ");
    text.append(decimal_string(name.pos.col).as_str());
    text.append("]");
    text
}

impl Error {
    /// The diagnostic as text.
    pub fn message(&self) -> (r: String)
        ensures
            r@ == message_of(self@),
    {
        match self {
            Error::UnknownNamedStruct { name, in_params } => {
                let mut text = "No type annotation named `".to_owned();
                text.append(name.value.as_str());
                if *in_params {
                    text.append("` is declared for parameters");
                } else {
                    text.append("` is declared for rows");
                }
                text.append(place(name).as_str());
                text
            },
            Error::UnknownNullableColumn { name } => {
                let mut text = "No column named `".to_owned();
                text.append(name.value.as_str());
                text.append("` found for the row");
                text.append(place(name).as_str());
                text
            },
            Error::UnknownNullableParam { name } => {
                let mut text = "No parameter named `".to_owned();
                text.append(name.value.as_str());
                text.append("` found for the query");
                text.append(place(name).as_str());
                text
            },
            Error::IncompatibleNamedStruct { name, .. } => {
                let mut text = "Named struct `".to_owned();
                text.append(name.value.as_str());
                text.append("` is already used with other fields");
                text.append(place(name).as_str());
                text
            },
            Error::DuplicateQueryName { name } => {
                let mut text = "A query named `".to_owned();
                text.append(name.value.as_str());
                text.append("` already exists");
                text.append(place(name).as_str());
                text
            },
            Error::DuplicateTypeAnnotation { name, in_params } => {
                let mut text = "A type annotation named `".to_owned();
                text.append(name.value.as_str());
                if *in_params {
                    text.append("` already exists for parameters");
                } else {
                    text.append("` already exists for rows");
                }
                text.append(place(name).as_str());
                text
            },
            Error::DuplicateBindParam { name } => {
                let mut text = "The bind parameter `".to_owned();
                text.append(name.value.as_str());
                text.append("` is listed twice");
                text.append(place(name).as_str());
                text
            },
        }
    }
}

/// Whether one of the names reads `name`.
pub fn contains_name(names: &Vec<Parsed<String>>, end: usize, name: &String) -> (r: bool)
    requires
        end <= names.len(),
    ensures
        r == values_of(names@).take(end as int).contains(name@),
{
    let ghost values = values_of(names@).take(end as int);
    let mut i: usize = 0;
    while i < end
        invariant
            i <= end <= names.len(),
            values == values_of(names@).take(end as int),
            forall|j: int| 0 <= j < i ==> values[j] != name@,
        decreases end - i,
    {
        if names[i].value == *name {
            assert(values[i as int] == name@);
            return true;
        }
        i += 1;
    }
    false
}

/// The names of the columns, in wire order.
pub open spec fn column_names(columns: Seq<ColumnView>) -> Seq<Seq<char>> {
    columns.map_values(|column: ColumnView| column.name)
}

/// A column that a query marks nullable must be one of the statement's
/// columns.
pub fn nullable_column_name(nullable_col: &Parsed<String>, stmt_cols: &Vec<Column>) -> (r: Result<
    (),
    Error,
>)
    ensures
        r is Ok <==> column_names(views(stmt_cols@)).contains(nullable_col.value@),
        r matches Err(e) ==> e@ == (ErrorView::UnknownNullableColumn { name: nullable_col@ }),
{
    proof {
        let columns = views(stmt_cols@);
        assert(columns.take(stmt_cols.len() as int) =~= columns);
        lemma_index_of_name(columns, key_of::<Column>(), nullable_col.value@);
        match index_of_name(columns, key_of::<Column>(), nullable_col.value@) {
            Some(i) => {
                assert(column_names(columns)[i] == nullable_col.value@);
            },
            None => {
                if column_names(columns).contains(nullable_col.value@) {
                    let i = choose|i: int|
                        0 <= i < columns.len() && column_names(columns)[i] == nullable_col.value@;
                    assert(key_of::<Column>()(columns[i]) == nullable_col.value@);
                }
            },
        }
    }
    match position_by_name(stmt_cols, stmt_cols.len(), &nullable_col.value) {
        Some(_) => Ok(()),
        None => Err(Error::UnknownNullableColumn { name: nullable_col.clone() }),
    }
}

/// A parameter that a query marks nullable must be one of the first `count`
/// bind parameters, `count` being the number of parameters that the
/// statement has.
pub fn nullable_param_name(
    nullable_col: &Parsed<String>,
    bind_params: &Vec<Parsed<String>>,
    count: usize,
) -> (r: Result<(), Error>)
    requires
        count <= bind_params.len(),
    ensures
        r is Ok <==> values_of(bind_params@).take(count as int).contains(nullable_col.value@),
        r matches Err(e) ==> e@ == (ErrorView::UnknownNullableParam { name: nullable_col@ }),
{
    if contains_name(bind_params, count, &nullable_col.value) {
        Ok(())
    } else {
        Err(Error::UnknownNullableParam { name: nullable_col.clone() })
    }
}

/// The name of an annotation, as the key to find it by.
pub open spec fn annotation_name() -> spec_fn(TypeAnnotationView) -> Seq<char> {
    key_of::<TypeAnnotation>()
}

/// The names of the fields that are marked nullable, in declaration order.
pub open spec fn nullable_names(fields: Seq<AnnotationFieldView>) -> Seq<ParsedName>
    decreases fields.len(),
{
    if fields.len() == 0 {
        Seq::empty()
    } else if fields.last().is_nullable {
        nullable_names(fields.drop_last()).push(fields.last().name)
    } else {
        nullable_names(fields.drop_last())
    }
}

/// The annotation that a query refers to must be declared; what comes back
/// are the fields that it marks nullable.
pub fn unknown_named_struct(
    name: &Parsed<String>,
    types: &Vec<TypeAnnotation>,
    in_params: bool,
) -> (r: Result<Vec<Parsed<String>>, Error>)
    ensures
        match r {
            Ok(idents) => index_of_name(views(types@), annotation_name(), name.value@) matches Some(
                i,
            ) && views(idents@) == nullable_names(views(types@)[i].fields),
            Err(e) => {
                &&& index_of_name(views(types@), annotation_name(), name.value@).is_none()
                &&& e@ == (ErrorView::UnknownNamedStruct { name: name@, in_params })
            },
        },
{
    proof {
        assert(views(types@).take(types.len() as int) =~= views(types@));
        lemma_index_of_name(views(types@), annotation_name(), name.value@);
    }
    match position_by_name(types, types.len(), &name.value) {
        None => Err(Error::UnknownNamedStruct { name: name.clone(), in_params }),
        Some(i) => {
            let fields = &types[i].fields;
            let ghost models = views(fields@);
            let mut idents: Vec<Parsed<String>> = Vec::new();
            let mut k: usize = 0;
            assert(views(idents@) =~= nullable_names(models.take(0)));
            while k < fields.len()
                invariant
                    k <= fields.len(),
                    models == views(fields@),
                    views(idents@) == nullable_names(models.take(k as int)),
                decreases fields.len() - k,
            {
                proof {
                    assert(models.take(k + 1).drop_last() =~= models.take(k as int));
                    assert(models.take(k + 1).last() == fields[k as int]@);
                }
                if fields[k].is_nullable {
                    let ghost before = idents@;
                    idents.push(fields[k].name.clone());
                    assert(views(idents@) =~= views(before).push(fields[k as int].name@));
                }
                k += 1;
            }
            proof {
                assert(models.take(fields.len() as int) =~= models);
            }
            Ok(idents)
        },
    }
}

/// The names of the queries, in file order.
pub open spec fn query_names(queries: Seq<ParsedQueryView>) -> Seq<Seq<char>> {
    queries.map_values(|query: ParsedQueryView| query.name().value)
}

/// The rule that a description breaks: one that names an annotation must
/// name one that is declared.
pub open spec fn unresolved(
    structure: DescriptorView,
    types: Seq<TypeAnnotationView>,
    in_params: bool,
) -> Option<ErrorView> {
    match structure {
        DescriptorView::Implicit { .. } => None,
        DescriptorView::Named(name) => if index_of_name(types, annotation_name(), name.value).is_some() {
            None
        } else {
            Some(ErrorView::UnknownNamedStruct { name, in_params })
        },
    }
}

/// The first rule that a query breaks, `earlier` being the names of the
/// queries before it: its name must be new; the annotations it names must be
/// declared, first the one for the parameters, then the one for the row; no
/// bind parameter may be listed twice.
pub open spec fn broken_rule(
    query: ParsedQueryView,
    earlier: Seq<Seq<char>>,
    param_types: Seq<TypeAnnotationView>,
    row_types: Seq<TypeAnnotationView>,
) -> Option<ErrorView> {
    if earlier.contains(query.name().value) {
        Some(ErrorView::DuplicateQueryName { name: query.name() })
    } else {
        match query {
            ParsedQueryView::PgCompatible { .. } => None,
            ParsedQueryView::Extended { params, bind_params, row, .. } => match unresolved(
                params,
                param_types,
                true,
            ) {
                Some(e) => Some(e),
                None => match unresolved(row, row_types, false) {
                    Some(e) => Some(e),
                    None => match first_duplicate(bind_params, key_of::<Parsed<String>>()) {
                        Some(j) => Some(ErrorView::DuplicateBindParam { name: bind_params[j] }),
                        None => None,
                    },
                },
            },
        }
    }
}

/// Of the first `n` queries, those that break no rule, in file order, and
/// the rules that the others break, one for each, in file order.
pub open spec fn validate_queries_spec(
    queries: Seq<ParsedQueryView>,
    param_types: Seq<TypeAnnotationView>,
    row_types: Seq<TypeAnnotationView>,
    n: nat,
) -> (Seq<ParsedQueryView>, Seq<ErrorView>)
    decreases n,
{
    if n == 0 {
        (Seq::empty(), Seq::empty())
    } else {
        let before = validate_queries_spec(queries, param_types, row_types, (n - 1) as nat);
        match broken_rule(queries[n - 1], query_names(queries).take(n - 1), param_types, row_types) {
            Some(e) => (before.0, before.1.push(e)),
            None => (before.0.push(queries[n - 1]), before.1),
        }
    }
}

/// The names of the annotations with the places at which they are declared.
pub open spec fn declarations(types: Seq<TypeAnnotationView>) -> Seq<ParsedName> {
    types.map_values(|annotation: TypeAnnotationView| annotation.name)
}

/// One failure for each of the first `n` annotations that has the name of an
/// earlier one of its list, in declaration order. An annotation that stands
/// among `reported` too, under the same name at the same place, is the same
/// declaration and is left out here.
pub open spec fn annotation_errors(
    types: Seq<TypeAnnotationView>,
    in_params: bool,
    reported: Seq<TypeAnnotationView>,
    n: nat,
) -> Seq<ErrorView>
    decreases n,
{
    if n == 0 {
        Seq::empty()
    } else {
        let before = annotation_errors(types, in_params, reported, (n - 1) as nat);
        if index_of_name(types.take(n - 1), annotation_name(), types[n - 1].name.value).is_some()
            && !declarations(reported).contains(types[n - 1].name) {
            before.push(ErrorView::DuplicateTypeAnnotation { name: types[n - 1].name, in_params })
        } else {
            before
        }
    }
}

/// What validation makes of a module: the module with the queries that
/// break no rule, in file order, and every rule that is broken: first the
/// annotations for parameters that repeat a name, then those for rows, then
/// for each other query the first rule it breaks (see [`broken_rule`]). The
/// two lists of annotations are checked each for itself; a declaration that
/// stands in both is reported once, for parameters.
pub open spec fn validate_spec(module: ParsedModuleView) -> (ParsedModuleView, Seq<ErrorView>) {
    let checked = validate_queries_spec(
        module.queries,
        module.param_types,
        module.row_types,
        module.queries.len(),
    );
    (
        ParsedModuleView { queries: checked.0, ..module },
        annotation_errors(module.param_types, true, Seq::empty(), module.param_types.len())
            + annotation_errors(
            module.row_types,
            false,
            module.param_types,
            module.row_types.len(),
        ) + checked.1,
    )
}

/// Whether an annotation is declared among `others` under this name at this
/// place.
fn declared_at(others: &Vec<TypeAnnotation>, name: &Parsed<String>) -> (r: bool)
    ensures
        r == declarations(views(others@)).contains(name@),
{
    let ghost places = declarations(views(others@));
    let mut k: usize = 0;
    while k < others.len()
        invariant
            k <= others.len(),
            places == declarations(views(others@)),
            forall|j: int| 0 <= j < k ==> places[j] != name@,
        decreases others.len() - k,
    {
        if others[k].name.value == name.value && others[k].name.pos == name.pos {
            assert(places[k as int] == name@);
            return true;
        }
        assert(places[k as int] == others[k as int].name@);
        k += 1;
    }
    false
}

/// Reports every annotation that has the name of an earlier one (see
/// [`annotation_errors`]).
fn check_annotations(
    types: &Vec<TypeAnnotation>,
    in_params: bool,
    reported: &Vec<TypeAnnotation>,
    errors: &mut Vec<Error>,
)
    ensures
        views(final(errors)@) == views(old(errors)@) + annotation_errors(
            views(types@),
            in_params,
            views(reported@),
            types.len() as nat,
        ),
{
    let mut i: usize = 0;
    assert(views(errors@) =~= views(old(errors)@) + annotation_errors(
        views(types@),
        in_params,
        views(reported@),
        0,
    ));
    while i < types.len()
        invariant
            i <= types.len(),
            views(errors@) == views(old(errors)@) + annotation_errors(
                views(types@),
                in_params,
                views(reported@),
                i as nat,
            ),
        decreases types.len() - i,
    {
        if position_by_name(types, i, &types[i].name.value).is_some() && !declared_at(
            reported,
            &types[i].name,
        ) {
            let ghost before = errors@;
            let error = Error::DuplicateTypeAnnotation { name: types[i].name.clone(), in_params };
            errors.push(error);
            proof {
                crate::names::lemma_views_push(before, error);
                assert(views(errors@) =~= views(old(errors)@) + annotation_errors(
                    views(types@),
                    in_params,
                    views(reported@),
                    (i + 1) as nat,
                ));
            }
        }
        i += 1;
    }
}

/// Whether an annotation of this name is declared.
fn declared(types: &Vec<TypeAnnotation>, name: &String) -> (r: bool)
    ensures
        r == index_of_name(views(types@), annotation_name(), name@).is_some(),
{
    assert(views(types@).take(types.len() as int) =~= views(types@));
    position_by_name(types, types.len(), name).is_some()
}

/// The first rule that a query breaks (see [`broken_rule`]); `earlier` are
/// the names of the queries before it.
fn check_query(
    query: &ParsedQuery,
    earlier: &Vec<Parsed<String>>,
    param_types: &Vec<TypeAnnotation>,
    row_types: &Vec<TypeAnnotation>,
) -> (r: Option<Error>)
    ensures
        match r {
            Some(e) => broken_rule(
                query@,
                values_of(earlier@),
                views(param_types@),
                views(row_types@),
            ) == Some(e@),
            None => broken_rule(
                query@,
                values_of(earlier@),
                views(param_types@),
                views(row_types@),
            ).is_none(),
        },
{
    proof {
        assert(values_of(earlier@).take(earlier.len() as int) =~= values_of(earlier@));
    }
    if contains_name(earlier, earlier.len(), &query.parsed_name().value) {
        return Some(Error::DuplicateQueryName { name: query.parsed_name().clone() });
    }
    match query {
        ParsedQuery::PgCompatible { .. } => None,
        ParsedQuery::Extended { params, bind_params, row, .. } => {
            if let QueryDataStructure::Named(name) = params {
                if !declared(param_types, &name.value) {
                    return Some(
                        Error::UnknownNamedStruct { name: name.clone(), in_params: true },
                    );
                }
            }
            if let QueryDataStructure::Named(name) = row {
                if !declared(row_types, &name.value) {
                    return Some(
                        Error::UnknownNamedStruct { name: name.clone(), in_params: false },
                    );
                }
            }
            match has_duplicate(bind_params) {
                Some(j) => {
                    proof {
                        crate::names::lemma_first_duplicate(
                            views(bind_params@),
                            key_of::<Parsed<String>>(),
                        );
                    }
                    Some(Error::DuplicateBindParam { name: bind_params[j].clone() })
                },
                None => None,
            }
        },
    }
}

/// Turns a query that breaks no rule into a validated query.
fn into_validated(query: ParsedQuery) -> (r: ValidatedQuery)
    ensures
        r@ == query@,
{
    match query {
        ParsedQuery::PgCompatible { name, params, row, sql_str } => ValidatedQuery::PgCompatible {
            name,
            params,
            row,
            sql_str,
        },
        ParsedQuery::Extended { name, params, bind_params, row, sql_str } => ValidatedQuery::Extended {
            name,
            params,
            bind_params,
            row,
            sql_str,
        },
    }
}

/// Checks a module against the rules (see [`validate_spec`]). A module
/// without failures is valid as it stands.
pub fn validate_module(module: ParsedModule) -> (r: (ValidatedModule, Vec<Error>))
    ensures
        (r.0@, views(r.1@)) == validate_spec(module@),
{
    let ghost given = module@;
    let ParsedModule { path, name, queries, param_types, row_types } = module;
    let mut errors: Vec<Error> = Vec::new();
    assert(views(errors@) =~= Seq::<ErrorView>::empty());
    let none: Vec<TypeAnnotation> = Vec::new();
    assert(views(none@) =~= Seq::<TypeAnnotationView>::empty());
    check_annotations(&param_types, true, &none, &mut errors);
    check_annotations(&row_types, false, &param_types, &mut errors);
    let ghost annotations = views(errors@);
    let ghost all = views(queries@);
    let count = queries.len();
    let mut pending = crate::names::reversed(queries);
    let mut valid: Vec<ValidatedQuery> = Vec::new();
    let mut earlier: Vec<Parsed<String>> = Vec::new();
    let mut i: usize = 0;
    proof {
        assert(values_of(earlier@) =~= query_names(all).take(0));
        assert(views(errors@) =~= annotations + Seq::<ErrorView>::empty());
        assert(views(valid@) =~= Seq::<ParsedQueryView>::empty());
    }
    while i < count
        invariant
            i <= count,
            count == all.len(),
            pending.len() == count - i,
            forall|k: int| 0 <= k < count - i ==> (#[trigger] pending[k])@ == all[count - 1 - k],
            values_of(earlier@) == query_names(all).take(i as int),
            views(valid@) == validate_queries_spec(
                all,
                views(param_types@),
                views(row_types@),
                i as nat,
            ).0,
            views(errors@) == annotations + validate_queries_spec(
                all,
                views(param_types@),
                views(row_types@),
                i as nat,
            ).1,
        decreases count - i,
    {
        let query = pending.pop().unwrap();
        assert(query@ == all[i as int]);
        let ghost names = earlier@;
        let found = check_query(&query, &earlier, &param_types, &row_types);
        earlier.push(query.parsed_name().clone());
        proof {
            assert(earlier@ == names.push(query.spec_name()));
            assert(values_of(earlier@) =~= values_of(names).push(query@.name().value));
            assert(query_names(all).take(i + 1) =~= query_names(all).take(i as int).push(
                query@.name().value,
            ));
        }
        match found {
            Some(e) => {
                let ghost before = errors@;
                errors.push(e);
                proof {
                    crate::names::lemma_views_push(before, e);
                    assert(views(errors@) =~= annotations + validate_queries_spec(
                        all,
                        views(param_types@),
                        views(row_types@),
                        (i + 1) as nat,
                    ).1);
                }
            },
            None => {
                let ghost before = valid@;
                let passed = into_validated(query);
                valid.push(passed);
                proof {
                    crate::names::lemma_views_push(before, passed);
                }
            },
        }
        i += 1;
    }
    (ValidatedModule { path, name, queries: valid, param_types, row_types }, errors)
}

/// Whether a struct stored with the fields `prev` can take a query that
/// comes with the fields `new`: the new fields are the stored ones in some
/// order, each as often as it is stored.
pub open spec fn same_struct(prev: Seq<FieldView>, new: Seq<FieldView>) -> bool {
    prev.to_multiset() == new.to_multiset()
}

/// Fields that are the same in some order are as many, and each of the one
/// occurs among the other.
pub proof fn lemma_same_struct(prev: Seq<FieldView>, new: Seq<FieldView>)
    requires
        same_struct(prev, new),
    ensures
        prev.len() == new.len(),
        forall|i: int| 0 <= i < prev.len() ==> new.contains(#[trigger] prev[i]),
        forall|i: int| 0 <= i < new.len() ==> prev.contains(#[trigger] new[i]),
{
    broadcast use vstd::seq_lib::group_to_multiset_ensures;

    vstd::seq_lib::to_multiset_len(prev);
    vstd::seq_lib::to_multiset_len(new);
    assert forall|i: int| 0 <= i < prev.len() implies new.contains(#[trigger] prev[i]) by {
        assert(prev.contains(prev[i]));
        assert(prev.to_multiset().count(prev[i]) > 0);
    }
    assert forall|i: int| 0 <= i < new.len() implies prev.contains(#[trigger] new[i]) by {
        assert(new.contains(new[i]));
        assert(new.to_multiset().count(new[i]) > 0);
    }
}

/// A field that occurs once more among the first fields of `prev` than `new`
/// has it shows that the two are not the same fields.
proof fn lemma_field_missing(
    prev: Seq<FieldView>,
    new: Seq<FieldView>,
    i: int,
    rest: Seq<FieldView>,
)
    requires
        0 <= i < prev.len(),
        new.to_multiset() == prev.take(i).to_multiset().add(rest.to_multiset()),
        !rest.contains(prev[i]),
    ensures
        !same_struct(prev, new),
{
    broadcast use vstd::seq_lib::group_to_multiset_ensures;

    let x = prev[i];
    let head = prev.take(i + 1);
    let tail = prev.skip(i + 1);
    assert(prev =~= head + tail);
    vstd::seq_lib::lemma_multiset_commutative(head, tail);
    assert(head =~= prev.take(i).push(x));
    assert(head.to_multiset() == prev.take(i).to_multiset().insert(x));
    assert(rest.to_multiset().count(x) == 0);
    assert(prev.to_multiset().count(x) >= prev.take(i).to_multiset().count(x) + 1);
    assert(new.to_multiset().count(x) == prev.take(i).to_multiset().count(x));
}

/// A struct that exists under a name takes a further query only with the
/// same fields, in whatever order they come.
pub fn named_struct_field(
    name: &Parsed<String>,
    prev: &Vec<PreparedField>,
    new: &Vec<PreparedField>,
) -> (r: Result<(), Error>)
    ensures
        r is Ok <==> same_struct(views(prev@), views(new@)),
        r matches Err(e) ==> e@ == (ErrorView::IncompatibleNamedStruct {
            name: name@,
            prev: views(prev@),
            new: views(new@),
        }),
{
    broadcast use vstd::seq_lib::group_to_multiset_ensures;

    let ghost stored = views(prev@);
    let ghost given = views(new@);
    let mut rest = duplicate_fields(new);
    let mut same = prev.len() == new.len();
    let mut i: usize = 0;
    proof {
        assert(stored.len() == prev.len() && given.len() == new.len());
        vstd::seq_lib::to_multiset_len(stored);
        vstd::seq_lib::to_multiset_len(given);
        assert(stored.take(0) =~= Seq::<FieldView>::empty());
        assert(given.to_multiset() =~= stored.take(0).to_multiset().add(views(rest@).to_multiset()));
    }
    while same && i < prev.len()
        invariant
            i <= prev.len(),
            stored == views(prev@),
            given == views(new@),
            same ==> prev.len() == new.len(),
            same ==> rest.len() + i == prev.len(),
            same ==> given.to_multiset() == stored.take(i as int).to_multiset().add(
                views(rest@).to_multiset(),
            ),
            !same ==> !same_struct(stored, given),
        decreases prev.len() - i, same as int,
    {
        let mut j: usize = 0;
        while j < rest.len() && !rest[j].same(&prev[i])
            invariant
                j <= rest.len(),
                i < prev.len(),
                forall|k: int| 0 <= k < j ==> views(rest@)[k] != prev[i as int]@,
            decreases rest.len() - j,
        {
            j += 1;
        }
        if j < rest.len() {
            let ghost before = views(rest@);
            rest.remove(j);
            proof {
                broadcast use vstd::multiset::group_multiset_axioms;

                let x = stored[i as int];
                assert(views(rest@) =~= before.remove(j as int));
                assert(before[j as int] == x);
                assert(stored.take(i + 1) =~= stored.take(i as int).push(x));
                vstd::seq_lib::to_multiset_remove(before, j as int);
                vstd::seq_lib::to_multiset_build(stored.take(i as int), x);
                assert(before.contains(x));
                vstd::seq_lib::to_multiset_contains(before, x);
                assert(before.to_multiset().count(x) > 0);
                assert(given.to_multiset() =~= stored.take(i + 1).to_multiset().add(
                    views(rest@).to_multiset(),
                ));
            }
            i += 1;
        } else {
            proof {
                assert(stored[i as int] == prev[i as int]@);
                assert(!views(rest@).contains(stored[i as int]));
                lemma_field_missing(stored, given, i as int, views(rest@));
            }
            same = false;
        }
    }
    if same {
        proof {
            assert(stored.take(i as int) =~= stored);
            assert(views(rest@).len() == 0);
            assert(views(rest@).to_multiset() =~= vstd::multiset::Multiset::<FieldView>::empty());
            assert(given.to_multiset() =~= stored.to_multiset());
        }
        Ok(())
    } else {
        Err(
            Error::IncompatibleNamedStruct {
                name: name.clone(),
                prev: duplicate_fields(prev),
                new: duplicate_fields(new),
            },
        )
    }
}

} // verus!
