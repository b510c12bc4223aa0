//! Prepares one query at a time: from the validated query and what the
//! database reports of its statement to the fields, the row struct and the
//! parameter struct in the module.

use crate::names::{first_duplicate, has_duplicate, key_of, views};
use crate::parser::{
    names_read, values_of, DescriptorView, NullableIdent, NullableNameView, Parsed, ParsedModuleView,
    ParsedName, ParsedQueryView, QueryDataStructure, TypeAnnotation, TypeAnnotationView,
};
use crate::pg::{
    outcome_view, outcome_views, Column, ColumnView, DbError, OutcomeView, PgType, PgTypeView,
    Statement,
};
use crate::names::index_of_name;
use crate::prepare_queries::{
    add_param_spec, add_query_spec, add_row_spec, lemma_keyed_position, Error, ErrorVariant,
    ErrorVariantView, ErrorView, FieldView, ModuleView, PreparedField, PreparedModule,
    PreparedParams, PreparedQuery, PreparedRow, QueryView,
};
use crate::type_registrar::{
    lemma_register_grows, register_spec, table_wf, to_upper_camel_case, upper_camel_case,
    EntryView, TypeRegistrar,
};
use crate::validation::{
    annotation_name, column_names, contains_name, named_struct_field, nullable_column_name,
    nullable_names, nullable_param_name, same_struct, unknown_named_struct, ValidatedModule,
    ValidatedQuery,
};
use vstd::prelude::*;

verus! {

/// A parameter or a column before its type is registered.
pub struct Slot<'a> {
    pub name: String,
    pub is_nullable: bool,
    pub ty: &'a PgType,
}

/// Mathematical model of a [`Slot`].
pub struct SlotView {
    pub name: Seq<char>,
    pub is_nullable: bool,
    pub ty: PgTypeView,
}

impl<'a> View for Slot<'a> {
    type V = SlotView;

    open spec fn view(&self) -> SlotView {
        SlotView { name: self.name@, is_nullable: self.is_nullable, ty: self.ty@ }
    }
}

/// The field that a slot becomes once its type has the handle `ty`.
pub open spec fn field_of(slot: SlotView, ty: int) -> FieldView {
    FieldView { name: slot.name, ty, is_nullable: slot.is_nullable, is_inner_nullable: false }
}

/// The table after registering the types of the first `n` slots in order,
/// and the fields they become; or the table up to the first type that is
/// refused, and the refusal.
pub open spec fn register_slots(table: Seq<EntryView>, slots: Seq<SlotView>, n: nat) -> (
    Seq<EntryView>,
    Result<Seq<FieldView>, crate::type_registrar::ErrorView>,
)
    decreases n,
{
    if n == 0 || n > slots.len() {
        (table, Ok(Seq::empty()))
    } else {
        let before = register_slots(table, slots, (n - 1) as nat);
        match before.1 {
            Err(e) => before,
            Ok(fields) => {
                let this = register_spec(before.0, slots[n - 1].ty);
                match this.1 {
                    Err(e) => (this.0, Err(e)),
                    Ok(ty) => (this.0, Ok(fields.push(field_of(slots[n - 1], ty)))),
                }
            },
        }
    }
}

/// Once the slots have failed, they fail the same way however many of them
/// are counted.
proof fn lemma_slots_failure_stays(table: Seq<EntryView>, slots: Seq<SlotView>, k: nat, n: nat)
    requires
        k <= n <= slots.len(),
        register_slots(table, slots, k).1 is Err,
    ensures
        register_slots(table, slots, n) == register_slots(table, slots, k),
    decreases n - k,
{
    if k < n {
        lemma_slots_failure_stays(table, slots, k, (n - 1) as nat);
    }
}

/// Registering slots only adds to the table and keeps it well formed; the
/// fields are as many as the slots, each has the name and the mark of its
/// slot and is never marked for its elements, and each has the handle under
/// which the type of its slot is registered.
pub proof fn lemma_register_slots(table: Seq<EntryView>, slots: Seq<SlotView>, n: nat)
    requires
        n <= slots.len(),
    ensures
        table.is_prefix_of(register_slots(table, slots, n).0),
        table_wf(table) ==> table_wf(register_slots(table, slots, n).0),
        register_slots(table, slots, n).1 matches Ok(fields) ==> {
            &&& fields.len() == n
            &&& forall|i: int|
                0 <= i < n ==> (#[trigger] fields[i]).name == slots[i].name && fields[i].is_nullable
                    == slots[i].is_nullable && !fields[i].is_inner_nullable
            &&& table_wf(table) ==> forall|i: int|
                0 <= i < n ==> 0 <= (#[trigger] fields[i]).ty < register_slots(table, slots, n).0.len()
                    && crate::type_registrar::find(
                    register_slots(table, slots, n).0,
                    slots[i].ty.schema,
                    slots[i].ty.name,
                ) == Some(fields[i].ty)
        },
    decreases n,
{
    if n > 0 {
        lemma_register_slots(table, slots, (n - 1) as nat);
        let before = register_slots(table, slots, (n - 1) as nat);
        if let Ok(earlier) = before.1 {
            lemma_register_grows(before.0, slots[n - 1].ty);
            let this = register_spec(before.0, slots[n - 1].ty);
            if table_wf(table) {
                crate::type_registrar::lemma_register(before.0, slots[n - 1].ty);
                if let Ok(ty) = this.1 {
                    let fields = earlier.push(field_of(slots[n - 1], ty));
                    crate::type_registrar::lemma_find(
                        this.0,
                        slots[n - 1].ty.schema,
                        slots[n - 1].ty.name,
                    );
                    assert forall|i: int| 0 <= i < n implies 0 <= (#[trigger] fields[i]).ty
                        < this.0.len() && crate::type_registrar::find(
                        this.0,
                        slots[i].ty.schema,
                        slots[i].ty.name,
                    ) == Some(fields[i].ty) by {
                        if i < n - 1 {
                            assert(fields[i] == earlier[i]);
                            crate::type_registrar::lemma_find_extend(
                                before.0,
                                this.0,
                                slots[i].ty.schema,
                                slots[i].ty.name,
                            );
                        }
                    }
                }
            }
        }
    }
}

/// Registers the types of the slots in order and gives the fields.
pub fn prepare_fields(registrar: &mut TypeRegistrar, slots: &Vec<Slot>) -> (r: Result<
    Vec<PreparedField>,
    crate::type_registrar::Error,
>)
    ensures
        final(registrar)@ == register_slots(old(registrar)@, views(slots@), slots.len() as nat).0,
        match r {
            Ok(fields) => register_slots(old(registrar)@, views(slots@), slots.len() as nat).1 == Ok::<
                _,
                crate::type_registrar::ErrorView,
            >(views(fields@)),
            Err(e) => register_slots(old(registrar)@, views(slots@), slots.len() as nat).1 == Err::<
                Seq<FieldView>,
                _,
            >(e@),
        },
        old(registrar).wf() ==> final(registrar).wf(),
{
    let ghost start = registrar@;
    let ghost models = views(slots@);
    proof {
        lemma_register_slots(start, models, slots.len() as nat);
    }
    let mut fields: Vec<PreparedField> = Vec::new();
    let mut i: usize = 0;
    assert(views(fields@) =~= Seq::<FieldView>::empty());
    while i < slots.len()
        invariant
            i <= slots.len(),
            models == views(slots@),
            start == old(registrar)@,
            register_slots(start, models, i as nat) == (
                registrar@,
                Ok::<_, crate::type_registrar::ErrorView>(views(fields@)),
            ),
            old(registrar).wf() ==> table_wf(register_slots(start, models, slots.len() as nat).0),
        decreases slots.len() - i,
    {
        let slot = &slots[i];
        assert(models[i as int] == slot@);
        match registrar.register(slot.ty) {
            Ok(ty) => {
                let ghost before = fields@;
                let field = PreparedField {
                    name: slot.name.clone(),
                    ty,
                    is_nullable: slot.is_nullable,
                    is_inner_nullable: false,
                };
                fields.push(field);
                proof {
                    crate::names::lemma_views_push(before, field);
                }
            },
            Err(e) => {
                proof {
                    assert(register_slots(start, models, (i + 1) as nat) == (
                        registrar@,
                        Err::<Seq<FieldView>, _>(e@),
                    ));
                    lemma_slots_failure_stays(start, models, (i + 1) as nat, slots.len() as nat);
                }
                return Err(e);
            },
        }
        i += 1;
    }
    Ok(fields)
}

/// The smaller of two lengths.
pub open spec fn shorter(a: int, b: int) -> int {
    if a <= b {
        a
    } else {
        b
    }
}

/// The slots of a query in the older form: each parameter that the query
/// names, as far as the statement has parameters, with the mark it carries.
pub open spec fn named_param_slots(params: Seq<NullableNameView>, types: Seq<PgTypeView>) -> Seq<
    SlotView,
> {
    Seq::new(
        shorter(params.len() as int, types.len() as int) as nat,
        |k: int| SlotView { name: params[k].name, is_nullable: params[k].is_nullable, ty: types[k] },
    )
}

/// The slots of the bind parameters, as far as the statement has
/// parameters: one is nullable if the nullable names hold its name.
pub open spec fn bind_param_slots(
    bind_params: Seq<ParsedName>,
    nullable: Seq<ParsedName>,
    types: Seq<PgTypeView>,
) -> Seq<SlotView> {
    Seq::new(
        shorter(bind_params.len() as int, types.len() as int) as nat,
        |k: int|
            SlotView {
                name: bind_params[k].value,
                is_nullable: names_read(nullable).contains(bind_params[k].value),
                ty: types[k],
            },
    )
}

/// The slots of the columns, in wire order: one is nullable if the nullable
/// names hold its name.
pub open spec fn column_slots(columns: Seq<ColumnView>, nullable: Seq<ParsedName>) -> Seq<SlotView> {
    Seq::new(
        columns.len(),
        |k: int|
            SlotView {
                name: columns[k].name,
                is_nullable: names_read(nullable).contains(columns[k].name),
                ty: columns[k].ty,
            },
    )
}

/// The position of the first name that is not among `known`.
pub open spec fn first_unknown(names: Seq<ParsedName>, known: Seq<Seq<char>>) -> Option<int>
    decreases names.len(),
{
    if names.len() == 0 {
        None
    } else {
        match first_unknown(names.drop_last(), known) {
            Some(i) => Some(i),
            None => if known.contains(names.last().value) {
                None
            } else {
                Some(names.len() - 1)
            },
        }
    }
}

/// `first_unknown` gives the first name that is not known, and `None` exactly
/// if every name is.
pub proof fn lemma_first_unknown(names: Seq<ParsedName>, known: Seq<Seq<char>>)
    ensures
        match first_unknown(names, known) {
            Some(i) => {
                &&& 0 <= i < names.len()
                &&& !known.contains(names[i].value)
                &&& forall|j: int| 0 <= j < i ==> known.contains((#[trigger] names[j]).value)
            },
            None => forall|j: int| 0 <= j < names.len() ==> known.contains((#[trigger] names[j]).value),
        },
    decreases names.len(),
{
    if names.len() > 0 {
        let front = names.drop_last();
        lemma_first_unknown(front, known);
        assert forall|j: int| 0 <= j < front.len() implies names[j] == front[j] by {}
        match first_unknown(front, known) {
            Some(i) => {
                assert(names[i] == front[i]);
                assert forall|j: int| 0 <= j < i implies known.contains(
                    (#[trigger] names[j]).value,
                ) by {
                    assert(names[j] == front[j]);
                }
            },
            None => {
                assert forall|j: int| 0 <= j < front.len() implies known.contains(
                    (#[trigger] names[j]).value,
                ) by {
                    assert(names[j] == front[j]);
                }
            },
        }
    }
}

/// An unknown name among the first `n` names is the first unknown name of
/// all.
proof fn lemma_unknown_stays(names: Seq<ParsedName>, known: Seq<Seq<char>>, n: int)
    requires
        0 <= n <= names.len(),
        first_unknown(names.take(n), known).is_some(),
    ensures
        first_unknown(names, known) == first_unknown(names.take(n), known),
    decreases names.len() - n,
{
    if n < names.len() {
        assert(names.take(n + 1).drop_last() =~= names.take(n));
        lemma_unknown_stays(names, known, n + 1);
    } else {
        assert(names.take(n) =~= names);
    }
}

/// The name of a query in upper camel case, at the query's position.
pub open spec fn row_struct_name(query: ParsedName) -> ParsedName {
    ParsedName { pos: query.pos, value: upper_camel_case(query.value) }
}

/// The name of a query in upper camel case, followed by `Params`.
pub open spec fn params_struct_name(query: ParsedName) -> ParsedName {
    ParsedName { pos: query.pos, value: upper_camel_case(query.value) + seq!['P', 'a', 'r', 'a', 'm', 's'] }
}

/// The name of the struct that a description stands for, and the names it
/// marks nullable: for an implicit one, the given name and the names
/// listed; for a named one, the annotation's name and the fields that the
/// annotation marks nullable. A named one must be declared.
pub open spec fn described(
    structure: DescriptorView,
    types: Seq<TypeAnnotationView>,
    implicit_name: ParsedName,
    in_params: bool,
) -> Result<(ParsedName, Seq<ParsedName>), crate::validation::ErrorView> {
    match structure {
        DescriptorView::Implicit { idents } => Ok((implicit_name, idents)),
        DescriptorView::Named(name) => match crate::names::index_of_name(
            types,
            annotation_name(),
            name.value,
        ) {
            Some(i) => Ok((name, nullable_names(types[i].fields))),
            None => Err(crate::validation::ErrorView::UnknownNamedStruct { name, in_params }),
        },
    }
}

/// What is known of a query before any type is registered.
pub struct Shape {
    pub params_name: ParsedName,
    pub row_name: ParsedName,
    pub param_slots: Seq<SlotView>,
    pub nullable_columns: Seq<ParsedName>,
}

/// The shape of a query, given the types of the statement's parameters, or
/// the first rule that the query breaks: an annotation it names must be
/// declared, first for the parameters and then for the row, and each
/// parameter it marks nullable must be a bind parameter of the statement.
pub open spec fn shape_of(
    query: ParsedQueryView,
    param_types: Seq<TypeAnnotationView>,
    row_types: Seq<TypeAnnotationView>,
    types: Seq<PgTypeView>,
) -> Result<Shape, crate::validation::ErrorView> {
    match query {
        ParsedQueryView::PgCompatible { name, params, row, .. } => Ok(
            Shape {
                params_name: params_struct_name(name),
                row_name: row_struct_name(name),
                param_slots: named_param_slots(params, types),
                nullable_columns: row,
            },
        ),
        ParsedQueryView::Extended { name, params, bind_params, row, .. } => match described(
            params,
            param_types,
            params_struct_name(name),
            true,
        ) {
            Err(e) => Err(e),
            Ok((params_name, nullable_params)) => match described(
                row,
                row_types,
                row_struct_name(name),
                false,
            ) {
                Err(e) => Err(e),
                Ok((row_name, nullable_columns)) => match first_unknown(
                    nullable_params,
                    names_read(bind_params).take(
                        shorter(bind_params.len() as int, types.len() as int),
                    ),
                ) {
                    Some(i) => Err(
                        crate::validation::ErrorView::UnknownNullableParam {
                            name: nullable_params[i],
                        },
                    ),
                    None => Ok(
                        Shape {
                            params_name,
                            row_name,
                            param_slots: bind_param_slots(bind_params, nullable_params, types),
                            nullable_columns,
                        },
                    ),
                },
            },
        },
    }
}

/// What the columns of a statement must meet: no two have the same name,
/// and every column marked nullable is one of them.
pub open spec fn columns_checked(columns: Seq<ColumnView>, nullable: Seq<ParsedName>) -> Result<
    (),
    ErrorVariantView,
> {
    match first_duplicate(columns, key_of::<Column>()) {
        Some(j) => Err(ErrorVariantView::DuplicateSqlColName { name: columns[j].name }),
        None => match first_unknown(nullable, column_names(columns)) {
            Some(i) => Err(
                ErrorVariantView::Validation(
                    crate::validation::ErrorView::UnknownNullableColumn { name: nullable[i] },
                ),
            ),
            None => Ok(()),
        },
    }
}

/// Why the module cannot take a row struct of this name with these fields:
/// a struct of the name exists and its fields are not these, in whatever
/// order. No fields are never refused.
pub open spec fn row_refusal(module: ModuleView, name: ParsedName, fields: Seq<FieldView>) -> Option<
    crate::validation::ErrorView,
> {
    match index_of_name(module.rows, key_of::<PreparedRow>(), name.value) {
        Some(i) => if fields.len() == 0 || same_struct(module.rows[i].fields, fields) {
            None
        } else {
            Some(
                crate::validation::ErrorView::IncompatibleNamedStruct {
                    name,
                    prev: module.rows[i].fields,
                    new: fields,
                },
            )
        },
        None => None,
    }
}

/// Why the module cannot take a parameter struct of this name with these
/// fields: a struct of the name exists and its fields are not these, in
/// whatever order. No fields are never refused.
pub open spec fn params_refusal(module: ModuleView, name: ParsedName, fields: Seq<FieldView>) -> Option<
    crate::validation::ErrorView,
> {
    match index_of_name(module.params, key_of::<PreparedParams>(), name.value) {
        Some(i) => if fields.len() == 0 || same_struct(module.params[i].fields, fields) {
            None
        } else {
            Some(
                crate::validation::ErrorView::IncompatibleNamedStruct {
                    name,
                    prev: module.params[i].fields,
                    new: fields,
                },
            )
        },
        None => None,
    }
}

/// The module with a query put in: its row struct interned, unless the
/// statement has no columns; the query stored with the row's position and
/// column order; its parameter struct interned, unless it has no parameters.
pub open spec fn stored(
    module: ModuleView,
    table: Seq<EntryView>,
    query_name: ParsedName,
    params_name: ParsedName,
    row_name: ParsedName,
    params: Seq<FieldView>,
    row_fields: Seq<FieldView>,
    sql: Seq<char>,
) -> ModuleView {
    let rowed = if row_fields.len() == 0 {
        (module, None)
    } else {
        let interned = add_row_spec(module, table, row_name, row_fields);
        (
            interned.0,
            match interned.1 {
                Ok(row) => Some(row),
                Err(_) => None,
            },
        )
    };
    let queried = add_query_spec(
        rowed.0,
        QueryView { name: query_name.value, params, row: rowed.1, sql },
    );
    if params.len() == 0 {
        queried.0
    } else {
        add_param_spec(queried.0, table, params_name, queried.1).0
    }
}

/// What putting a query into a module gives. A query whose row struct or
/// whose parameter struct the module cannot take fails, the row first, and
/// leaves the module as it is; any other is stored (see [`stored`]).
pub open spec fn assembled(
    module: ModuleView,
    table: Seq<EntryView>,
    query_name: ParsedName,
    params_name: ParsedName,
    row_name: ParsedName,
    params: Seq<FieldView>,
    row_fields: Seq<FieldView>,
    sql: Seq<char>,
) -> (ModuleView, Result<(), crate::validation::ErrorView>) {
    match row_refusal(module, row_name, row_fields) {
        Some(e) => (module, Err(e)),
        None => match params_refusal(module, params_name, params) {
            Some(e) => (module, Err(e)),
            None => (
                stored(module, table, query_name, params_name, row_name, params, row_fields, sql),
                Ok(()),
            ),
        },
    }
}

/// The failure `err` of `query` in the file `path`.
pub open spec fn failure(query: ParsedQueryView, path: Seq<char>, err: ErrorVariantView) -> ErrorView {
    ErrorView { query_name: query.name(), err, path }
}

/// The module and the table after one query is prepared, and whether it
/// went well. In order: the database must have prepared the statement; the
/// query must have a shape (see [`shape_of`]); the types of the parameters
/// are registered; the columns must pass (see [`columns_checked`]); the
/// types of the columns are registered; the query is put into the module
/// (see [`assembled`]). The first failure ends it: the module stays as it
/// was, and the types that were registered before it stay registered.
pub open spec fn prepare_query_spec(
    module: ModuleView,
    table: Seq<EntryView>,
    param_types: Seq<TypeAnnotationView>,
    row_types: Seq<TypeAnnotationView>,
    query: ParsedQueryView,
    outcome: OutcomeView,
) -> (ModuleView, Seq<EntryView>, Result<(), ErrorView>) {
    match outcome {
        Err(message) => (
            module,
            table,
            Err(failure(query, module.path, ErrorVariantView::Db(message))),
        ),
        Ok(stmt) => match shape_of(query, param_types, row_types, stmt.params) {
            Err(e) => (
                module,
                table,
                Err(failure(query, module.path, ErrorVariantView::Validation(e))),
            ),
            Ok(shape) => {
                let with_params = register_slots(
                    table,
                    shape.param_slots,
                    shape.param_slots.len(),
                );
                match with_params.1 {
                    Err(e) => (
                        module,
                        with_params.0,
                        Err(failure(query, module.path, ErrorVariantView::PostgresType(e))),
                    ),
                    Ok(params) => match columns_checked(stmt.columns, shape.nullable_columns) {
                        Err(e) => (module, with_params.0, Err(failure(query, module.path, e))),
                        Ok(()) => {
                            let slots = column_slots(stmt.columns, shape.nullable_columns);
                            let with_columns = register_slots(with_params.0, slots, slots.len());
                            match with_columns.1 {
                                Err(e) => (
                                    module,
                                    with_columns.0,
                                    Err(
                                        failure(
                                            query,
                                            module.path,
                                            ErrorVariantView::PostgresType(e),
                                        ),
                                    ),
                                ),
                                Ok(row_fields) => {
                                    let done = assembled(
                                        module,
                                        with_columns.0,
                                        query.name(),
                                        shape.params_name,
                                        shape.row_name,
                                        params,
                                        row_fields,
                                        query.sql(),
                                    );
                                    (
                                        done.0,
                                        with_columns.0,
                                        match done.1 {
                                            Ok(()) => Ok(()),
                                            Err(e) => Err(
                                                failure(
                                                    query,
                                                    module.path,
                                                    ErrorVariantView::Validation(e),
                                                ),
                                            ),
                                        },
                                    )
                                },
                            }
                        },
                    },
                }
            },
        },
    }
}

/// Whether the nullable names hold `name`.
fn marked(nullable: &Vec<Parsed<String>>, name: &String) -> (r: bool)
    ensures
        r == names_read(views(nullable@)).contains(name@),
{
    proof {
        assert(values_of(nullable@).take(nullable.len() as int) =~= values_of(nullable@));
    }
    contains_name(nullable, nullable.len(), name)
}

/// The shorter of two lengths.
fn shorter_of(a: usize, b: usize) -> (r: usize)
    ensures
        r == shorter(a as int, b as int),
{
    if a <= b {
        a
    } else {
        b
    }
}

/// The slots of a query in the older form (see [`named_param_slots`]).
fn named_slots<'a>(params: &Vec<Parsed<NullableIdent>>, types: &'a Vec<PgType>) -> (r: Vec<Slot<'a>>)
    ensures
        views(r@) == named_param_slots(views(params@), views(types@)),
{
    let count = shorter_of(params.len(), types.len());
    let mut slots: Vec<Slot<'a>> = Vec::new();
    let mut k: usize = 0;
    while k < count
        invariant
            k <= count,
            count == shorter(params.len() as int, types.len() as int),
            slots.len() == k,
            forall|j: int|
                0 <= j < k ==> slots[j]@ == named_param_slots(views(params@), views(types@))[j],
        decreases count - k,
    {
        slots.push(
            Slot {
                name: params[k].value.name().clone(),
                is_nullable: params[k].value.is_nullable(),
                ty: &types[k],
            },
        );
        k += 1;
    }
    assert(views(slots@) =~= named_param_slots(views(params@), views(types@)));
    slots
}

/// The slots of the bind parameters (see [`bind_param_slots`]).
fn bind_slots<'a>(
    bind_params: &Vec<Parsed<String>>,
    nullable: &Vec<Parsed<String>>,
    types: &'a Vec<PgType>,
) -> (r: Vec<Slot<'a>>)
    ensures
        views(r@) == bind_param_slots(views(bind_params@), views(nullable@), views(types@)),
{
    let count = shorter_of(bind_params.len(), types.len());
    let mut slots: Vec<Slot<'a>> = Vec::new();
    let mut k: usize = 0;
    while k < count
        invariant
            k <= count,
            count == shorter(bind_params.len() as int, types.len() as int),
            slots.len() == k,
            forall|j: int|
                0 <= j < k ==> slots[j]@ == bind_param_slots(
                    views(bind_params@),
                    views(nullable@),
                    views(types@),
                )[j],
        decreases count - k,
    {
        slots.push(
            Slot {
                name: bind_params[k].value.clone(),
                is_nullable: marked(nullable, &bind_params[k].value),
                ty: &types[k],
            },
        );
        k += 1;
    }
    assert(views(slots@) =~= bind_param_slots(views(bind_params@), views(nullable@), views(types@)));
    slots
}

/// The slots of the columns (see [`column_slots`]).
fn slots_of_columns<'a>(columns: &'a Vec<Column>, nullable: &Vec<Parsed<String>>) -> (r: Vec<
    Slot<'a>,
>)
    ensures
        views(r@) == column_slots(views(columns@), views(nullable@)),
{
    let mut slots: Vec<Slot<'a>> = Vec::new();
    let mut k: usize = 0;
    while k < columns.len()
        invariant
            k <= columns.len(),
            slots.len() == k,
            forall|j: int|
                0 <= j < k ==> slots[j]@ == column_slots(views(columns@), views(nullable@))[j],
        decreases columns.len() - k,
    {
        slots.push(
            Slot {
                name: columns[k].name.clone(),
                is_nullable: marked(nullable, &columns[k].name),
                ty: &columns[k].ty,
            },
        );
        k += 1;
    }
    assert(views(slots@) =~= column_slots(views(columns@), views(nullable@)));
    slots
}

/// The struct that a description stands for (see [`described`]).
fn describe(
    structure: QueryDataStructure,
    types: &Vec<TypeAnnotation>,
    implicit_name: Parsed<String>,
    in_params: bool,
) -> (r: Result<(Parsed<String>, Vec<Parsed<String>>), crate::validation::Error>)
    ensures
        match r {
            Ok((name, nullable)) => described(
                structure@,
                views(types@),
                implicit_name@,
                in_params,
            ) == Ok::<_, crate::validation::ErrorView>((name@, views(nullable@))),
            Err(e) => described(structure@, views(types@), implicit_name@, in_params) == Err::<
                (ParsedName, Seq<ParsedName>),
                _,
            >(e@),
        },
{
    match structure {
        QueryDataStructure::Implicit { idents } => Ok((implicit_name, idents)),
        QueryDataStructure::Named(name) => {
            match unknown_named_struct(&name, types, in_params) {
                Ok(nullable) => Ok((name, nullable)),
                Err(e) => Err(e),
            }
        },
    }
}

/// Every parameter marked nullable must be one of the first `count` bind
/// parameters; the first that is not is reported.
fn check_nullable_params(
    nullable: &Vec<Parsed<String>>,
    bind_params: &Vec<Parsed<String>>,
    count: usize,
) -> (r: Result<(), crate::validation::Error>)
    requires
        count <= bind_params.len(),
    ensures
        match r {
            Ok(()) => first_unknown(
                views(nullable@),
                values_of(bind_params@).take(count as int),
            ).is_none(),
            Err(e) => first_unknown(
                views(nullable@),
                values_of(bind_params@).take(count as int),
            ) matches Some(i) && e@ == (crate::validation::ErrorView::UnknownNullableParam {
                name: views(nullable@)[i],
            }),
        },
{
    let ghost names = views(nullable@);
    let ghost known = values_of(bind_params@).take(count as int);
    let mut i: usize = 0;
    while i < nullable.len()
        invariant
            i <= nullable.len(),
            count <= bind_params.len(),
            names == views(nullable@),
            known == values_of(bind_params@).take(count as int),
            first_unknown(names.take(i as int), known).is_none(),
        decreases nullable.len() - i,
    {
        proof {
            assert(names.take(i + 1).drop_last() =~= names.take(i as int));
            assert(names.take(i + 1).last() == nullable[i as int]@);
        }
        match nullable_param_name(&nullable[i], bind_params, count) {
            Ok(()) => {},
            Err(e) => {
                proof {
                    lemma_unknown_stays(names, known, i + 1);
                }
                return Err(e);
            },
        }
        i += 1;
    }
    proof {
        assert(names.take(nullable.len() as int) =~= names);
    }
    Ok(())
}

/// Checks the columns of a statement (see [`columns_checked`]).
fn check_columns(columns: &Vec<Column>, nullable: &Vec<Parsed<String>>) -> (r: Result<
    (),
    ErrorVariant,
>)
    ensures
        match r {
            Ok(()) => columns_checked(views(columns@), views(nullable@)) is Ok,
            Err(e) => columns_checked(views(columns@), views(nullable@)) == Err::<(), _>(e@),
        },
{
    if let Some(j) = has_duplicate(columns) {
        proof {
            crate::names::lemma_first_duplicate(views(columns@), key_of::<Column>());
        }
        return Err(ErrorVariant::DuplicateSqlColName { name: columns[j].name.clone() });
    }
    let ghost names = views(nullable@);
    let ghost known = column_names(views(columns@));
    let mut i: usize = 0;
    while i < nullable.len()
        invariant
            i <= nullable.len(),
            names == views(nullable@),
            known == column_names(views(columns@)),
            first_duplicate(views(columns@), key_of::<Column>()).is_none(),
            first_unknown(names.take(i as int), known).is_none(),
        decreases nullable.len() - i,
    {
        proof {
            assert(names.take(i + 1).drop_last() =~= names.take(i as int));
            assert(names.take(i + 1).last() == nullable[i as int]@);
        }
        match nullable_column_name(&nullable[i], columns) {
            Ok(()) => {},
            Err(e) => {
                proof {
                    lemma_unknown_stays(names, known, i + 1);
                }
                return Err(ErrorVariant::Validation(e));
            },
        }
        i += 1;
    }
    proof {
        assert(names.take(nullable.len() as int) =~= names);
    }
    Ok(())
}

/// The name of the row struct of a query that names none.
fn row_struct(query: &Parsed<String>) -> (r: Parsed<String>)
    ensures
        r@ == row_struct_name(query@),
{
    Parsed { pos: query.pos, value: to_upper_camel_case(query.value.as_str()) }
}

/// The name of the parameter struct of a query that names none.
fn params_struct(query: &Parsed<String>) -> (r: Parsed<String>)
    ensures
        r@ == params_struct_name(query@),
{
    let mut value = to_upper_camel_case(query.value.as_str());
    proof {
        reveal_strlit("Params");
        assert("Params"@ =~= seq!['P', 'a', 'r', 'a', 'm', 's']);
    }
    value.append("Params");
    Parsed { pos: query.pos, value }
}

/// Puts a query into the module (see [`assembled`]): `params` and
/// `row_fields` are its parameters and its columns, each in the order of the
/// statement, and `params_name` and `row_name` the names of their structs.
pub fn assemble(
    module: &mut PreparedModule,
    registrar: &TypeRegistrar,
    query_name: &Parsed<String>,
    params_name: Parsed<String>,
    row_name: Parsed<String>,
    params: Vec<PreparedField>,
    row_fields: Vec<PreparedField>,
    sql: String,
) -> (r: Result<(), ErrorVariant>)
    requires
        old(module).wf(),
    ensures
        final(module).wf(),
        final(module)@ == assembled(
            old(module)@,
            registrar@,
            query_name@,
            params_name@,
            row_name@,
            views(params@),
            views(row_fields@),
            sql@,
        ).0,
        match r {
            Ok(()) => assembled(
                old(module)@,
                registrar@,
                query_name@,
                params_name@,
                row_name@,
                views(params@),
                views(row_fields@),
                sql@,
            ).1 is Ok,
            Err(e) => assembled(
                old(module)@,
                registrar@,
                query_name@,
                params_name@,
                row_name@,
                views(params@),
                views(row_fields@),
                sql@,
            ).1 matches Err(reason) && e@ == ErrorVariantView::Validation(reason),
        },
{
    proof {
        lemma_keyed_position(&module.rows, row_name.value@);
        lemma_keyed_position(&module.params, params_name.value@);
        crate::names::lemma_index_of_name(module@.rows, key_of::<PreparedRow>(), row_name.value@);
        crate::names::lemma_index_of_name(
            module@.params,
            key_of::<PreparedParams>(),
            params_name.value@,
        );
    }
    if row_fields.len() > 0 {
        if let Some(index) = module.rows.index_of(&row_name.value) {
            match named_struct_field(&row_name, &module.rows.get(index).fields, &row_fields) {
                Ok(()) => {},
                Err(e) => {
                    return Err(ErrorVariant::Validation(e));
                },
            }
        }
    }
    if params.len() > 0 {
        if let Some(index) = module.params.index_of(&params_name.value) {
            match named_struct_field(&params_name, &module.params.get(index).fields, &params) {
                Ok(()) => {},
                Err(e) => {
                    return Err(ErrorVariant::Validation(e));
                },
            }
        }
    }
    let params_empty = params.len() == 0;
    let row_idx = if row_fields.len() > 0 {
        match module.add_row(registrar, row_name, row_fields) {
            Ok(row) => Some(row),
            Err(e) => {
                proof {
                    assert(false);
                }
                return Err(e);
            },
        }
    } else {
        None
    };
    proof {
        crate::names::lemma_index_of_name(
            module@.queries,
            key_of::<PreparedQuery>(),
            query_name.value@,
        );
    }
    let query_idx = module.add_query(query_name.value.clone(), params, row_idx, sql);
    if !params_empty {
        match module.add_param(registrar, params_name, query_idx) {
            Ok(_) => {},
            Err(e) => {
                proof {
                    assert(false);
                }
                return Err(e);
            },
        }
    }
    Ok(())
}

/// Prepares one query and puts it into the module (see
/// [`prepare_query_spec`]). `outcome` is what the database made of the
/// query's SQL text: the statement's description, or its refusal.
pub fn prepare_query(
    module: &mut PreparedModule,
    registrar: &mut TypeRegistrar,
    param_types: &Vec<TypeAnnotation>,
    row_types: &Vec<TypeAnnotation>,
    query: ValidatedQuery,
    outcome: Result<Statement, DbError>,
) -> (r: Result<(), Error>)
    requires
        old(module).wf(),
    ensures
        final(module).wf(),
        old(registrar).wf() ==> final(registrar).wf(),
        final(module)@ == prepare_query_spec(
            old(module)@,
            old(registrar)@,
            views(param_types@),
            views(row_types@),
            query@,
            outcome_view(outcome),
        ).0,
        final(registrar)@ == prepare_query_spec(
            old(module)@,
            old(registrar)@,
            views(param_types@),
            views(row_types@),
            query@,
            outcome_view(outcome),
        ).1,
        match r {
            Ok(()) => prepare_query_spec(
                old(module)@,
                old(registrar)@,
                views(param_types@),
                views(row_types@),
                query@,
                outcome_view(outcome),
            ).2 is Ok,
            Err(e) => prepare_query_spec(
                old(module)@,
                old(registrar)@,
                views(param_types@),
                views(row_types@),
                query@,
                outcome_view(outcome),
            ).2 == Err::<(), _>(e@),
        },
{
    let stmt = match outcome {
        Ok(stmt) => stmt,
        Err(e) => {
            return Err(Error::new(ErrorVariant::Db(e), query.name(), &module.path));
        },
    };
    let (name, params_name, row_name, slots, nullable_columns, sql) = match query {
        ValidatedQuery::PgCompatible { name, params, row, sql_str } => {
            let slots = named_slots(&params, &stmt.params);
            let params_name = params_struct(&name);
            let row_name = row_struct(&name);
            (name, params_name, row_name, slots, row, sql_str)
        },
        ValidatedQuery::Extended { name, params, bind_params, row, sql_str } => {
            let (params_name, nullable_params) = match describe(
                params,
                param_types,
                params_struct(&name),
                true,
            ) {
                Ok(found) => found,
                Err(e) => {
                    return Err(Error::new(ErrorVariant::Validation(e), &name, &module.path));
                },
            };
            let (row_name, nullable_columns) = match describe(
                row,
                row_types,
                row_struct(&name),
                false,
            ) {
                Ok(found) => found,
                Err(e) => {
                    return Err(Error::new(ErrorVariant::Validation(e), &name, &module.path));
                },
            };
            let count = shorter_of(bind_params.len(), stmt.params.len());
            match check_nullable_params(&nullable_params, &bind_params, count) {
                Ok(()) => {},
                Err(e) => {
                    return Err(Error::new(ErrorVariant::Validation(e), &name, &module.path));
                },
            }
            let slots = bind_slots(&bind_params, &nullable_params, &stmt.params);
            (name, params_name, row_name, slots, nullable_columns, sql_str)
        },
    };
    let ghost shape = shape_of(
        query@,
        views(param_types@),
        views(row_types@),
        views(stmt.params@),
    )->Ok_0;
    assert(shape.params_name == params_name@ && shape.row_name == row_name@);
    assert(shape.param_slots == views(slots@));
    assert(shape.nullable_columns == views(nullable_columns@));
    let params = match prepare_fields(registrar, &slots) {
        Ok(fields) => fields,
        Err(e) => {
            return Err(Error::new(ErrorVariant::PostgresType(e), &name, &module.path));
        },
    };
    match check_columns(&stmt.columns, &nullable_columns) {
        Ok(()) => {},
        Err(e) => {
            return Err(Error::new(e, &name, &module.path));
        },
    }
    let column_slots = slots_of_columns(&stmt.columns, &nullable_columns);
    let row_fields = match prepare_fields(registrar, &column_slots) {
        Ok(fields) => fields,
        Err(e) => {
            return Err(Error::new(ErrorVariant::PostgresType(e), &name, &module.path));
        },
    };
    match assemble(module, registrar, &name, params_name, row_name, params, row_fields, sql) {
        Ok(()) => Ok(()),
        Err(e) => Err(Error::new(e, &name, &module.path)),
    }
}

/// A module that holds nothing yet.
pub open spec fn empty_module(name: Seq<char>, path: Seq<char>) -> ModuleView {
    ModuleView { path, name, queries: Seq::empty(), params: Seq::empty(), rows: Seq::empty() }
}

/// The module and the table after the first `n` queries are prepared in
/// file order, each with its outcome, and the failures in file order. A
/// query that fails leaves the module as it was and does not keep the
/// queries behind it from being prepared.
pub open spec fn prepare_queries_spec(
    module: ModuleView,
    table: Seq<EntryView>,
    param_types: Seq<TypeAnnotationView>,
    row_types: Seq<TypeAnnotationView>,
    queries: Seq<ParsedQueryView>,
    outcomes: Seq<OutcomeView>,
    n: nat,
) -> (ModuleView, Seq<EntryView>, Seq<ErrorView>)
    decreases n,
{
    if n == 0 {
        (module, table, Seq::empty())
    } else {
        let before = prepare_queries_spec(
            module,
            table,
            param_types,
            row_types,
            queries,
            outcomes,
            (n - 1) as nat,
        );
        let this = prepare_query_spec(
            before.0,
            before.1,
            param_types,
            row_types,
            queries[n - 1],
            outcomes[n - 1],
        );
        (
            this.0,
            this.1,
            match this.2 {
                Ok(()) => before.2,
                Err(e) => before.2.push(e),
            },
        )
    }
}

/// What preparing a whole module gives: the module with the queries that
/// could be prepared, in file order; one failure for each of the others, in
/// file order; and the table of types after all of them.
pub open spec fn prepare_module_spec(
    validated: ParsedModuleView,
    outcomes: Seq<OutcomeView>,
    table: Seq<EntryView>,
) -> (ModuleView, Seq<ErrorView>, Seq<EntryView>) {
    let done = prepare_queries_spec(
        empty_module(validated.name, validated.path),
        table,
        validated.param_types,
        validated.row_types,
        validated.queries,
        outcomes,
        validated.queries.len(),
    );
    (done.0, done.2, done.1)
}

/// Prepares all queries of a module in file order (see
/// [`prepare_module_spec`]). `outcomes` holds, for each query in the same
/// order, what the database made of its SQL text. What comes back is the
/// module with every query that could be prepared, and the failures of the
/// others.
pub fn prepare_module(
    validated_module: ValidatedModule,
    outcomes: Vec<Result<Statement, DbError>>,
    registrar: &mut TypeRegistrar,
) -> (r: (PreparedModule, Vec<Error>))
    requires
        outcomes.len() == validated_module.queries.len(),
    ensures
        r.0.wf(),
        old(registrar).wf() ==> final(registrar).wf(),
        (r.0@, views(r.1@), final(registrar)@) == prepare_module_spec(
            validated_module@,
            outcome_views(outcomes@),
            old(registrar)@,
        ),
{
    let ghost all_outcomes = outcome_views(outcomes@);
    let ghost table = registrar@;
    let ghost start = empty_module(validated_module.name@, validated_module.path@);
    let ValidatedModule { path, name, queries, param_types, row_types } = validated_module;
    let ghost all_queries = views(queries@);
    let mut module = PreparedModule::new(name, path);
    let mut errors: Vec<Error> = Vec::new();
    let count = queries.len();
    let mut pending = crate::names::reversed(queries);
    let mut answers = crate::names::reversed(outcomes);
    let mut i: usize = 0;
    assert(views(errors@) =~= Seq::<ErrorView>::empty());
    while i < count
        invariant
            i <= count,
            count == all_queries.len(),
            count == all_outcomes.len(),
            pending.len() == count - i,
            answers.len() == count - i,
            forall|k: int|
                0 <= k < count - i ==> (#[trigger] pending[k])@ == all_queries[count - 1 - k],
            forall|k: int|
                0 <= k < count - i ==> outcome_view(#[trigger] answers[k]) == all_outcomes[count - 1
                    - k],
            module.wf(),
            table == old(registrar)@,
            old(registrar).wf() ==> registrar.wf(),
            prepare_queries_spec(
                start,
                table,
                views(param_types@),
                views(row_types@),
                all_queries,
                all_outcomes,
                i as nat,
            ) == (module@, registrar@, views(errors@)),
        decreases count - i,
    {
        let query = pending.pop().unwrap();
        let outcome = answers.pop().unwrap();
        match prepare_query(&mut module, registrar, &param_types, &row_types, query, outcome) {
            Ok(()) => {},
            Err(e) => {
                proof {
                    crate::names::lemma_views_push(errors@, e);
                }
                errors.push(e);
            },
        }
        i += 1;
    }
    (module, errors)
}

} // verus!
