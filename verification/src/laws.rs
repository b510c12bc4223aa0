//! Laws that hold of every preparation, stated over the models and proved
//! from the definitions.

use crate::names::{
    index_of_name, key_of, lemma_index_of_name, lemma_sort_by_name, sort_by_name, sorted_by_name,
    views,
};
use crate::parser::{
    names_read, ParsedModuleView, ParsedName, ParsedQueryView, TypeAnnotationView,
};
use crate::pg::{OutcomeView, PgKindView, StatementView};
use crate::prepare_queries::{
    add_param_spec, add_query_spec, add_row_spec, all_copy_fields, lemma_stored_fields_occur,
    FieldView, ModuleView, PreparedField, PreparedParams, PreparedQuery, PreparedRow, QueryView,
};
use crate::preparer::{
    column_slots, columns_checked, described, lemma_first_unknown, lemma_register_slots,
    params_struct_name, prepare_query_spec, register_slots, shape_of, shorter, stored,
};
use crate::assembler::{
    collect_types, lemma_entries_ready, prepare_modules_spec, prepare_spec, prepare_type_spec,
    ContentView, SchemaView,
};
use crate::preparer::{empty_module, prepare_module_spec, prepare_queries_spec};
use crate::prepare_queries::PreparedModule;
use crate::validation::column_names;
use crate::type_registrar::{
    all_copy, all_params, entry_wf, field_index, fields_registered, is_copy_at, is_params_at,
    lemma_fields_extend, register_spec, table_wf, lemma_register, EntryView, TypeView,
};
use vstd::prelude::*;

verus! {

/// In a well-formed table an array is never a copy, a domain is a copy
/// exactly if its base is, whether it is registered as a domain or as a
/// user-defined type over one, and a composite is a copy exactly if every
/// one of its fields is; the same holds of whether a domain or a composite
/// can stand in a parameter.
pub proof fn law_is_copy_transitive(table: Seq<EntryView>, i: int)
    requires
        table_wf(table),
        0 <= i < table.len(),
    ensures
        table[i].ty is Array ==> !is_copy_at(table, i),
        table[i].ty matches TypeView::Domain { inner } ==> is_copy_at(table, i) == is_copy_at(
            table,
            inner,
        ) && is_params_at(table, i) == is_params_at(table, inner),
        table[i].ty matches TypeView::Custom { pg_ty, .. } ==> (pg_ty.kind matches PgKindView::Composite(
            fields,
        ) ==> {
            &&& fields_registered(table, fields, fields.len() as int)
            &&& is_copy_at(table, i) == all_copy(table, fields, fields.len() as int)
            &&& is_params_at(table, i) == all_params(table, fields, fields.len() as int)
        }),
        table[i].ty matches TypeView::Custom { pg_ty, .. } ==> (pg_ty.kind is Enum ==> is_copy_at(
            table,
            i,
        ) && is_params_at(table, i)),
        table[i].ty matches TypeView::Custom { pg_ty, .. } ==> (pg_ty.kind matches PgKindView::Domain(
            base,
        ) ==> {
            &&& crate::type_registrar::find(table, base.schema, base.name) matches Some(at)
            &&& is_copy_at(table, i) == is_copy_at(table, at)
            &&& is_params_at(table, i) == is_params_at(table, at)
        }),
{
    assert(entry_wf(table, i));
    if let TypeView::Custom { pg_ty, .. } = table[i].ty {
        match pg_ty.kind {
            PgKindView::Composite(fields) => {
                lemma_fields_extend(table.take(i), table, fields, fields.len() as int);
            },
            PgKindView::Domain(base) => {
                crate::type_registrar::lemma_find_take(table, i, base.schema, base.name);
                crate::type_registrar::lemma_find(table.take(i), base.schema, base.name);
                let at = crate::type_registrar::find(table.take(i), base.schema, base.name).unwrap();
                crate::type_registrar::lemma_flags_extend(table.take(i), table, at);
            },
            _ => {},
        }
    }
}

/// Registering a type in a well-formed table leaves a well-formed table, so
/// the law above holds of every table that registration builds.
pub proof fn law_registration_keeps_order(table: Seq<EntryView>, ty: crate::pg::PgTypeView)
    requires
        table_wf(table),
    ensures
        table_wf(register_spec(table, ty).0),
        table.is_prefix_of(register_spec(table, ty).0),
        register_spec(table, ty).1 matches Ok(at) ==> 0 <= at < register_spec(table, ty).0.len(),
{
    lemma_register(table, ty);
    if let Ok(at) = register_spec(table, ty).1 {
        crate::type_registrar::lemma_find(register_spec(table, ty).0, ty.schema, ty.name);
    }
}

/// Interning a row gives the position of a row struct of the module and,
/// for each field of that struct, a place in the fields handed in at which
/// this very field stands: same name, same type, same nullability.
pub proof fn law_row_interning(
    module: ModuleView,
    table: Seq<EntryView>,
    name: ParsedName,
    fields: Seq<FieldView>,
)
    ensures
        add_row_spec(module, table, name, fields).1 matches Ok((index, columns)) ==> {
            let rows = add_row_spec(module, table, name, fields).0.rows;
            &&& 0 <= index < rows.len()
            &&& rows[index].name == name.value
            &&& rows[index].fields.len() == columns.len()
            &&& rows[index].fields.len() == fields.len()
            &&& forall|i: int|
                0 <= i < columns.len() ==> 0 <= #[trigger] columns[i] < fields.len()
                    && fields[columns[i]] == rows[index].fields[i]
        },
{
    lemma_index_of_name(module.rows, key_of::<PreparedRow>(), name.value);
    if let Ok((index, columns)) = add_row_spec(module, table, name, fields).1 {
        let rows = add_row_spec(module, table, name, fields).0.rows;
        let stored = rows[index].fields;
        if index_of_name(module.rows, key_of::<PreparedRow>(), name.value).is_some() {
            crate::validation::lemma_same_struct(stored, fields);
        } else {
            lemma_stored_fields_occur(stored, fields);
        }
        assert forall|i: int| 0 <= i < columns.len() implies 0 <= #[trigger] columns[i]
            < fields.len() && fields[columns[i]] == stored[i] by {
            assert(fields.contains(stored[i]));
            fields.index_of_first_ensures(stored[i]);
        }
    }
}

/// Under a name that the module has, a row is taken exactly if its fields
/// are the stored ones in some order: as many, and each stored field among
/// them as often as it is stored. It is refused otherwise, and either way the
/// module stays as it is.
pub proof fn law_reordering_is_taken(
    module: ModuleView,
    table: Seq<EntryView>,
    name: ParsedName,
    fields: Seq<FieldView>,
)
    requires
        index_of_name(module.rows, key_of::<PreparedRow>(), name.value).is_some(),
    ensures
        ({
            let at = index_of_name(module.rows, key_of::<PreparedRow>(), name.value).unwrap();
            let done = add_row_spec(module, table, name, fields);
            &&& done.0 == module
            &&& done.1 is Ok <==> module.rows[at].fields.to_multiset() == fields.to_multiset()
            &&& done.1 matches Ok((index, _)) ==> index == at
            &&& done.1 matches Err(e) ==> e == (crate::validation::ErrorView::IncompatibleNamedStruct {
                name,
                prev: module.rows[at].fields,
                new: fields,
            })
            &&& done.1 is Ok ==> module.rows[at].fields.len() == fields.len() && forall|i: int|
                0 <= i < fields.len() ==> fields.contains(#[trigger] module.rows[at].fields[i])
        }),
{
    let at = index_of_name(module.rows, key_of::<PreparedRow>(), name.value).unwrap();
    if add_row_spec(module, table, name, fields).1 is Ok {
        crate::validation::lemma_same_struct(module.rows[at].fields, fields);
    }
}

/// Fields of which no two are equal are the same as other fields in some
/// order exactly if the others are as many and hold each of them.
pub proof fn law_reordering(stored: Seq<FieldView>, fields: Seq<FieldView>)
    requires
        stored.no_duplicates(),
    ensures
        stored.to_multiset() == fields.to_multiset() <==> stored.len() == fields.len() && forall|
            i: int,
        | 0 <= i < stored.len() ==> fields.contains(#[trigger] stored[i]),
    decreases stored.len(),
{
    broadcast use vstd::seq_lib::group_to_multiset_ensures;

    if stored.to_multiset() == fields.to_multiset() {
        crate::validation::lemma_same_struct(stored, fields);
    }
    if stored.len() == fields.len() && forall|i: int|
        0 <= i < stored.len() ==> fields.contains(#[trigger] stored[i]) {
        if stored.len() == 0 {
            assert(stored =~= fields);
        } else {
            let x = stored.last();
            let front = stored.drop_last();
            assert(fields.contains(x));
            let j = choose|j: int| 0 <= j < fields.len() && fields[j] == x;
            let others = fields.remove(j);
            assert forall|i: int| 0 <= i < front.len() implies others.contains(
                #[trigger] front[i],
            ) by {
                assert(front[i] == stored[i]);
                assert(stored[i] != stored[stored.len() - 1]);
                assert(fields.contains(stored[i]));
                let k = choose|k: int| 0 <= k < fields.len() && fields[k] == stored[i];
                if k < j {
                    assert(others[k] == fields[k]);
                } else {
                    assert(others[k - 1] == fields[k]);
                }
            }
            assert forall|a: int, b: int| 0 <= a < front.len() && 0 <= b < front.len() && a
                != b implies front[a] != front[b] by {
                assert(front[a] == stored[a] && front[b] == stored[b]);
            }
            law_reordering(front, others);
            assert(stored =~= front.push(x));
            vstd::seq_lib::to_multiset_build(front, x);
            vstd::seq_lib::to_multiset_remove(fields, j);
            vstd::seq_lib::to_multiset_contains(fields, x);
            assert(stored.to_multiset() =~= fields.to_multiset()) by {
                broadcast use vstd::multiset::group_multiset_axioms;

            }
        }
    }
}

/// Two queries that intern the same fields under the same name get the same
/// row struct, whatever the order of their columns, and the second leaves
/// the module as the first left it.
pub proof fn law_same_row_is_shared(
    module: ModuleView,
    table: Seq<EntryView>,
    name: ParsedName,
    first: Seq<FieldView>,
    second: Seq<FieldView>,
)
    requires
        first.to_multiset() == second.to_multiset(),
        add_row_spec(module, table, name, first).1 is Ok,
    ensures
        ({
            let once = add_row_spec(module, table, name, first);
            let twice = add_row_spec(once.0, table, name, second);
            &&& twice.0 == once.0
            &&& twice.1 is Ok
            &&& twice.1->Ok_0.0 == once.1->Ok_0.0
        }),
{
    lemma_index_of_name(module.rows, key_of::<PreparedRow>(), name.value);
    let once = add_row_spec(module, table, name, first);
    lemma_index_of_name(once.0.rows, key_of::<PreparedRow>(), name.value);
    lemma_sort_by_name(first, key_of::<PreparedField>());
    match index_of_name(module.rows, key_of::<PreparedRow>(), name.value) {
        Some(i) => {},
        None => {
            let at = module.rows.len() as int;
            assert(key_of::<PreparedRow>()(once.0.rows[at]) == name.value);
            assert forall|j: int| 0 <= j < at implies #[trigger] key_of::<PreparedRow>()(
                once.0.rows[j],
            ) != name.value by {
                assert(once.0.rows[j] == module.rows[j]);
            }
        },
    }
}

/// The fields of a row struct stand in the order of their names; fields that
/// come in that order are stored as they come, each at its own place.
pub proof fn law_rows_are_sorted(
    module: ModuleView,
    table: Seq<EntryView>,
    name: ParsedName,
    fields: Seq<FieldView>,
)
    requires
        crate::names::index_of_name(module.rows, key_of::<PreparedRow>(), name.value).is_none(),
    ensures
        sorted_by_name(
            add_row_spec(module, table, name, fields).0.rows.last().fields,
            key_of::<PreparedField>(),
        ),
        sorted_by_name(fields, key_of::<PreparedField>()) ==> add_row_spec(
            module,
            table,
            name,
            fields,
        ).0.rows.last().fields == fields,
{
    lemma_sort_by_name(fields, key_of::<PreparedField>());
    if sorted_by_name(fields, key_of::<PreparedField>()) {
        crate::names::lemma_sort_sorted(fields, key_of::<PreparedField>());
    }
}

/// Fields that come in the order of their names, no two of the same name,
/// are stored as they come, and the column order of the query that brings
/// them is the identity.
pub proof fn law_sorted_row_keeps_its_order(
    module: ModuleView,
    table: Seq<EntryView>,
    name: ParsedName,
    fields: Seq<FieldView>,
)
    requires
        index_of_name(module.rows, key_of::<PreparedRow>(), name.value).is_none(),
        sorted_by_name(fields, key_of::<PreparedField>()),
        crate::names::distinct_names(fields, key_of::<PreparedField>()),
    ensures
        add_row_spec(module, table, name, fields).1 == Ok::<_, crate::validation::ErrorView>(
            (module.rows.len() as int, Seq::new(fields.len(), |i: int| i)),
        ),
{
    crate::names::lemma_sort_sorted(fields, key_of::<PreparedField>());
    let columns = crate::prepare_queries::permutation(fields, fields);
    assert forall|i: int| 0 <= i < fields.len() implies columns[i] == i by {
        assert(fields.contains(fields[i]));
        fields.index_of_first_ensures(fields[i]);
        let at = fields.index_of_first(fields[i]).unwrap();
        if at < i {
            assert(key_of::<PreparedField>()(fields[at]) != key_of::<PreparedField>()(fields[i]));
        }
    }
    assert(columns =~= Seq::new(fields.len(), |i: int| i));
}

/// The fields of a composite type are prepared in the order in which the
/// database declares them, under the names it gives them.
pub proof fn law_composites_keep_declaration_order(
    table: Seq<EntryView>,
    fields: Seq<crate::pg::PgFieldView>,
)
    ensures
        crate::assembler::content_of(table, PgKindView::Composite(fields)) matches ContentView::Composite(
            parts,
        ) && parts.len() == fields.len() && forall|k: int|
            0 <= k < fields.len() ==> (#[trigger] parts[k]).name == fields[k].name,
{
}

/// Modules that read the same, with outcomes that read the same, give the
/// same preparation: nothing but what the inputs hold goes into it.
pub proof fn law_preparation_is_determined(
    first: Seq<crate::validation::ValidatedModule>,
    first_outcomes: Seq<Vec<Result<crate::pg::Statement, crate::pg::DbError>>>,
    second: Seq<crate::validation::ValidatedModule>,
    second_outcomes: Seq<Vec<Result<crate::pg::Statement, crate::pg::DbError>>>,
)
    requires
        views(first) == views(second),
        crate::pg::all_outcome_views(first_outcomes) == crate::pg::all_outcome_views(
            second_outcomes,
        ),
    ensures
        prepare_spec(views(first), crate::pg::all_outcome_views(first_outcomes)) == prepare_spec(
            views(second),
            crate::pg::all_outcome_views(second_outcomes),
        ),
{
}

/// Every field has a type that is among the first `n` of the table.
pub open spec fn fields_closed(fields: Seq<FieldView>, n: int) -> bool {
    forall|i: int| 0 <= i < fields.len() ==> 0 <= (#[trigger] fields[i]).ty < n
}

/// Every field of every query, parameter struct and row struct of the module
/// has a type that is among the first `n` of the table.
pub open spec fn module_closed(module: ModuleView, n: int) -> bool {
    &&& forall|q: int|
        0 <= q < module.queries.len() ==> fields_closed((#[trigger] module.queries[q]).params, n)
    &&& forall|p: int|
        0 <= p < module.params.len() ==> fields_closed((#[trigger] module.params[p]).fields, n)
    &&& forall|r: int|
        0 <= r < module.rows.len() ==> fields_closed((#[trigger] module.rows[r]).fields, n)
}

proof fn lemma_sorted_closed(fields: Seq<FieldView>, n: int)
    requires
        fields_closed(fields, n),
    ensures
        fields_closed(sort_by_name(fields, key_of::<PreparedField>()), n),
{
    let stored = sort_by_name(fields, key_of::<PreparedField>());
    lemma_stored_fields_occur(stored, fields);
    assert forall|i: int| 0 <= i < stored.len() implies 0 <= (#[trigger] stored[i]).ty < n by {
        assert(fields.contains(stored[i]));
        let j = choose|j: int| 0 <= j < fields.len() && fields[j] == stored[i];
        assert(0 <= fields[j].ty < n);
    }
}

/// Storing a query keeps every field of the module within the table.
proof fn lemma_stored_closed(
    module: ModuleView,
    table: Seq<EntryView>,
    query_name: ParsedName,
    params_name: ParsedName,
    row_name: ParsedName,
    params: Seq<FieldView>,
    row_fields: Seq<FieldView>,
    sql: Seq<char>,
    n: int,
)
    requires
        module_closed(module, n),
        fields_closed(params, n),
        fields_closed(row_fields, n),
    ensures
        module_closed(
            stored(module, table, query_name, params_name, row_name, params, row_fields, sql),
            n,
        ),
{
    lemma_sorted_closed(row_fields, n);
    lemma_sorted_closed(params, n);
    lemma_index_of_name(module.rows, key_of::<PreparedRow>(), row_name.value);
    let rowed = if row_fields.len() == 0 {
        module
    } else {
        add_row_spec(module, table, row_name, row_fields).0
    };
    assert(module_closed(rowed, n)) by {
        assert forall|r: int| 0 <= r < rowed.rows.len() implies fields_closed(
            (#[trigger] rowed.rows[r]).fields,
            n,
        ) by {
            if r < module.rows.len() {
                assert(rowed.rows[r] == module.rows[r]);
            }
        }
    }
    let row = if row_fields.len() == 0 {
        None
    } else {
        match add_row_spec(module, table, row_name, row_fields).1 {
            Ok(found) => Some(found),
            Err(_) => None,
        }
    };
    let query = QueryView { name: query_name.value, params, row, sql };
    lemma_index_of_name(rowed.queries, key_of::<PreparedQuery>(), query.name);
    let queried = add_query_spec(rowed, query);
    assert(module_closed(queried.0, n)) by {
        assert forall|q: int| 0 <= q < queried.0.queries.len() implies fields_closed(
            (#[trigger] queried.0.queries[q]).params,
            n,
        ) by {
            if q != queried.1 {
                assert(queried.0.queries[q] == rowed.queries[q]);
            }
        }
    }
    lemma_index_of_name(queried.0.params, key_of::<PreparedParams>(), params_name.value);
    let interned = add_param_spec(queried.0, table, params_name, queried.1);
    assert(queried.0.queries[queried.1].params == params);
    assert(module_closed(interned.0, n)) by {
        assert forall|p: int| 0 <= p < interned.0.params.len() implies fields_closed(
            (#[trigger] interned.0.params[p]).fields,
            n,
        ) by {
            if p < queried.0.params.len() {
                assert(interned.0.params[p].fields == queried.0.params[p].fields);
            }
        }
    }
}

proof fn lemma_closed_grows(module: ModuleView, n: int, m: int)
    requires
        module_closed(module, n),
        n <= m,
    ensures
        module_closed(module, m),
{
    assert forall|q: int| 0 <= q < module.queries.len() implies fields_closed(
        (#[trigger] module.queries[q]).params,
        m,
    ) by {
        assert(fields_closed(module.queries[q].params, n));
    }
    assert forall|p: int| 0 <= p < module.params.len() implies fields_closed(
        (#[trigger] module.params[p]).fields,
        m,
    ) by {
        assert(fields_closed(module.params[p].fields, n));
    }
    assert forall|r: int| 0 <= r < module.rows.len() implies fields_closed(
        (#[trigger] module.rows[r]).fields,
        m,
    ) by {
        assert(fields_closed(module.rows[r].fields, n));
    }
}

/// Preparing a query only adds to the table of types, keeps it well formed,
/// and leaves every field of the module with a type that the table holds.
pub proof fn law_type_closure(
    module: ModuleView,
    table: Seq<EntryView>,
    param_types: Seq<TypeAnnotationView>,
    row_types: Seq<TypeAnnotationView>,
    query: ParsedQueryView,
    outcome: OutcomeView,
)
    requires
        table_wf(table),
        module_closed(module, table.len() as int),
    ensures
        ({
            let done = prepare_query_spec(module, table, param_types, row_types, query, outcome);
            &&& table.is_prefix_of(done.1)
            &&& table_wf(done.1)
            &&& module_closed(done.0, done.1.len() as int)
        }),
{
    if let Ok(stmt) = outcome {
        if let Ok(shape) = shape_of(query, param_types, row_types, stmt.params) {
            lemma_register_slots(table, shape.param_slots, shape.param_slots.len());
            let with_params = register_slots(table, shape.param_slots, shape.param_slots.len());
            lemma_closed_grows(module, table.len() as int, with_params.0.len() as int);
            if let Ok(params) = with_params.1 {
                let slots = column_slots(stmt.columns, shape.nullable_columns);
                lemma_register_slots(with_params.0, slots, slots.len());
                let with_columns = register_slots(with_params.0, slots, slots.len());
                lemma_closed_grows(module, table.len() as int, with_columns.0.len() as int);
                if let Ok(row_fields) = with_columns.1 {
                    assert(fields_closed(params, with_columns.0.len() as int)) by {
                        assert forall|i: int| 0 <= i < params.len() implies 0 <= (
                        #[trigger] params[i]).ty < with_columns.0.len() by {
                            assert(0 <= params[i].ty < with_params.0.len());
                        }
                    }
                    lemma_stored_closed(
                        module,
                        with_columns.0,
                        query.name(),
                        shape.params_name,
                        shape.row_name,
                        params,
                        row_fields,
                        query.sql(),
                        with_columns.0.len() as int,
                    );
                }
            }
        }
    }
}

/// Every parameter struct lists only queries of the module, and the
/// parameters of each of them are the fields of the struct in some order.
pub open spec fn params_backed(module: ModuleView) -> bool {
    forall|p: int, k: int|
        0 <= p < module.params.len() && 0 <= k < module.params[p].queries.len() ==> {
            let q = #[trigger] module.params[p].queries[k];
            &&& 0 <= q < module.queries.len()
            &&& module.queries[q].params.to_multiset() == module.params[p].fields.to_multiset()
        }
}

/// Where the fields of a parameter struct have different names, the
/// parameters of each query that the struct lists are, sorted by name, the
/// fields of the struct.
pub proof fn law_back_edges_sort_to_the_fields(module: ModuleView, p: int, k: int)
    requires
        params_backed(module),
        crate::prepare_queries::module_inv(module),
        0 <= p < module.params.len(),
        0 <= k < module.params[p].queries.len(),
        crate::names::distinct_names(module.params[p].fields, key_of::<PreparedField>()),
    ensures
        0 <= module.params[p].queries[k] < module.queries.len(),
        sort_by_name(module.queries[module.params[p].queries[k]].params, key_of::<PreparedField>())
            == module.params[p].fields,
{
    let q = module.params[p].queries[k];
    let given = module.queries[q].params;
    lemma_sort_by_name(given, key_of::<PreparedField>());
    crate::names::lemma_sorted_is_unique(
        module.params[p].fields,
        sort_by_name(given, key_of::<PreparedField>()),
        key_of::<PreparedField>(),
    );
}

/// Preparing a query under a new name keeps the back edges of the
/// parameter structs right.
pub proof fn law_params_back_edges(
    module: ModuleView,
    table: Seq<EntryView>,
    param_types: Seq<TypeAnnotationView>,
    row_types: Seq<TypeAnnotationView>,
    query: ParsedQueryView,
    outcome: OutcomeView,
)
    requires
        params_backed(module),
        index_of_name(module.queries, key_of::<PreparedQuery>(), query.name().value).is_none(),
    ensures
        params_backed(
            prepare_query_spec(module, table, param_types, row_types, query, outcome).0,
        ),
{
    if let Ok(stmt) = outcome {
        if let Ok(shape) = shape_of(query, param_types, row_types, stmt.params) {
            let with_params = register_slots(table, shape.param_slots, shape.param_slots.len());
            if let Ok(params) = with_params.1 {
                if columns_checked(stmt.columns, shape.nullable_columns) is Ok {
                    let slots = column_slots(stmt.columns, shape.nullable_columns);
                    let with_columns = register_slots(with_params.0, slots, slots.len());
                    if let Ok(row_fields) = with_columns.1 {
                        lemma_stored_backed(
                            module,
                            with_columns.0,
                            query.name(),
                            shape.params_name,
                            shape.row_name,
                            params,
                            row_fields,
                            query.sql(),
                        );
                    }
                }
            }
        }
    }
}

/// Storing a query under a new name keeps the back edges right.
proof fn lemma_stored_backed(
    module: ModuleView,
    table: Seq<EntryView>,
    query_name: ParsedName,
    params_name: ParsedName,
    row_name: ParsedName,
    params: Seq<FieldView>,
    row_fields: Seq<FieldView>,
    sql: Seq<char>,
)
    requires
        params_backed(module),
        index_of_name(module.queries, key_of::<PreparedQuery>(), query_name.value).is_none(),
    ensures
        params_backed(
            stored(module, table, query_name, params_name, row_name, params, row_fields, sql),
        ),
{
    let rowed = if row_fields.len() == 0 {
        module
    } else {
        add_row_spec(module, table, row_name, row_fields).0
    };
    assert(rowed.queries == module.queries && rowed.params == module.params);
    assert(params_backed(rowed));
    let row = if row_fields.len() == 0 {
        None
    } else {
        match add_row_spec(module, table, row_name, row_fields).1 {
            Ok(found) => Some(found),
            Err(_) => None,
        }
    };
    let query = QueryView { name: query_name.value, params, row, sql };
    let queried = add_query_spec(rowed, query);
    assert(queried.0.queries == rowed.queries.push(query));
    assert(params_backed(queried.0)) by {
        assert forall|p: int, k: int|
            0 <= p < queried.0.params.len() && 0 <= k < queried.0.params[p].queries.len() implies {
            let q = #[trigger] queried.0.params[p].queries[k];
            &&& 0 <= q < queried.0.queries.len()
            &&& queried.0.queries[q].params.to_multiset() == queried.0.params[p].fields.to_multiset()
        } by {
            let q = rowed.params[p].queries[k];
            assert(0 <= q < rowed.queries.len());
            assert(queried.0.queries[q] == rowed.queries[q]);
        }
    }
    lemma_index_of_name(queried.0.params, key_of::<PreparedParams>(), params_name.value);
    lemma_sort_by_name(params, key_of::<PreparedField>());
    let interned = add_param_spec(queried.0, table, params_name, queried.1);
    assert(interned.0.queries == queried.0.queries);
    assert(queried.0.queries[queried.1].params == params);
    assert forall|p: int, k: int|
        0 <= p < interned.0.params.len() && 0 <= k < interned.0.params[p].queries.len() implies {
        let q = #[trigger] interned.0.params[p].queries[k];
        &&& 0 <= q < interned.0.queries.len()
        &&& interned.0.queries[q].params.to_multiset() == interned.0.params[p].fields.to_multiset()
    } by {
        if p < queried.0.params.len() && k < queried.0.params[p].queries.len() {
            let q = queried.0.params[p].queries[k];
            assert(0 <= q < queried.0.queries.len());
            assert(interned.0.params[p].queries[k] == q);
            assert(interned.0.params[p].fields == queried.0.params[p].fields);
        }
    }
}

/// Where a query is prepared, every name that it marks nullable is the name
/// of a column of its statement, and every parameter that a query with
/// separate descriptions marks nullable is one of the bind parameters that
/// the statement has.
pub proof fn law_nullable_names_resolve(
    module: ModuleView,
    table: Seq<EntryView>,
    param_types: Seq<TypeAnnotationView>,
    row_types: Seq<TypeAnnotationView>,
    query: ParsedQueryView,
    stmt: StatementView,
)
    requires
        prepare_query_spec(
            module,
            table,
            param_types,
            row_types,
            query,
            Ok::<_, Seq<char>>(stmt),
        ).2 is Ok,
    ensures
        shape_of(query, param_types, row_types, stmt.params) matches Ok(shape) && forall|i: int|
            0 <= i < shape.nullable_columns.len() ==> column_names(stmt.columns).contains(
                (#[trigger] shape.nullable_columns[i]).value,
            ),
        query matches ParsedQueryView::Extended { name, params, bind_params, .. } ==> described(
            params,
            param_types,
            params_struct_name(name),
            true,
        ) matches Ok((_, nullable)) && forall|i: int|
            0 <= i < nullable.len() ==> names_read(bind_params).take(
                shorter(bind_params.len() as int, stmt.params.len() as int),
            ).contains((#[trigger] nullable[i]).value),
{
    let shape = shape_of(query, param_types, row_types, stmt.params)->Ok_0;
    lemma_first_unknown(shape.nullable_columns, column_names(stmt.columns));
    if let ParsedQueryView::Extended { name, params, bind_params, .. } = query {
        let nullable = described(params, param_types, params_struct_name(name), true)->Ok_0.1;
        lemma_first_unknown(
            nullable,
            names_read(bind_params).take(
                shorter(bind_params.len() as int, stmt.params.len() as int),
            ),
        );
    }
}

/// What a row field must be to stand for a wire column: it has the column's
/// name, the handle under which the column's type is registered, and is
/// nullable exactly if the query marks the column's name.
pub open spec fn stands_for(
    field: FieldView,
    column: crate::pg::ColumnView,
    nullable: Seq<ParsedName>,
    table: Seq<EntryView>,
) -> bool {
    &&& field.name == column.name
    &&& Some(field.ty) == crate::type_registrar::find(table, column.ty.schema, column.ty.name)
    &&& field.is_nullable == names_read(nullable).contains(column.name)
    &&& !field.is_inner_nullable
}

/// Where a query whose statement has columns is prepared, the module holds
/// it under its name with a row struct and a column order; the order has one
/// entry for each field of the struct, and the field at `i` stands for the
/// wire column that the entry at `i` names.
pub proof fn law_rows_match_columns(
    module: ModuleView,
    table: Seq<EntryView>,
    param_types: Seq<TypeAnnotationView>,
    row_types: Seq<TypeAnnotationView>,
    query: ParsedQueryView,
    stmt: StatementView,
)
    requires
        table_wf(table),
        stmt.columns.len() > 0,
        prepare_query_spec(
            module,
            table,
            param_types,
            row_types,
            query,
            Ok::<_, Seq<char>>(stmt),
        ).2 is Ok,
    ensures
        ({
            let done = prepare_query_spec(
                module,
                table,
                param_types,
                row_types,
                query,
                Ok::<_, Seq<char>>(stmt),
            );
            let columns = stmt.columns;
            let nullable = shape_of(query, param_types, row_types, stmt.params)->Ok_0.nullable_columns;
            &&& index_of_name(
                done.0.queries,
                key_of::<PreparedQuery>(),
                query.name().value,
            ) matches Some(q)
            &&& done.0.queries[q].row matches Some((index, order))
            &&& 0 <= index < done.0.rows.len()
            &&& done.0.rows[index].fields.len() == order.len()
            &&& order.len() == columns.len()
            &&& forall|i: int|
                0 <= i < order.len() ==> 0 <= #[trigger] order[i] < columns.len() && stands_for(
                    done.0.rows[index].fields[i],
                    columns[order[i]],
                    nullable,
                    done.1,
                )
        }),
{
    let shape = shape_of(query, param_types, row_types, stmt.params)->Ok_0;
    let columns = stmt.columns;
    lemma_register_slots(table, shape.param_slots, shape.param_slots.len());
    let with_params = register_slots(table, shape.param_slots, shape.param_slots.len());
    let params = with_params.1->Ok_0;
    let slots = column_slots(columns, shape.nullable_columns);
    lemma_register_slots(with_params.0, slots, slots.len());
    let with_columns = register_slots(with_params.0, slots, slots.len());
    let row_fields = with_columns.1->Ok_0;
    let name = query.name();
    assert(row_fields.len() == columns.len());
    law_row_interning(module, with_columns.0, shape.row_name, row_fields);
    let interned = add_row_spec(module, with_columns.0, shape.row_name, row_fields);
    let found = interned.1->Ok_0;
    let stored_query = QueryView {
        name: name.value,
        params,
        row: Some(found),
        sql: query.sql(),
    };
    lemma_index_of_name(interned.0.queries, key_of::<PreparedQuery>(), name.value);
    let queried = add_query_spec(interned.0, stored_query);
    assert(queried.0.queries[queried.1] == stored_query);
    assert(index_of_name(queried.0.queries, key_of::<PreparedQuery>(), name.value) == Some(
        queried.1,
    )) by {
        lemma_index_of_name(queried.0.queries, key_of::<PreparedQuery>(), name.value);
        assert(key_of::<PreparedQuery>()(queried.0.queries[queried.1]) == name.value);
        assert forall|j: int| 0 <= j < queried.1 implies key_of::<PreparedQuery>()(
            #[trigger] queried.0.queries[j],
        ) != name.value by {
            assert(queried.0.queries[j] == interned.0.queries[j]);
        }
    }
    let done = prepare_query_spec(
        module,
        table,
        param_types,
        row_types,
        query,
        Ok::<_, Seq<char>>(stmt),
    );
    assert(done.0.queries == queried.0.queries);
    assert(done.0.rows == queried.0.rows);
    let order = found.1;
    assert forall|i: int| 0 <= i < order.len() implies 0 <= #[trigger] order[i] < columns.len()
        && stands_for(
        done.0.rows[found.0].fields[i],
        columns[order[i]],
        shape.nullable_columns,
        done.1,
    ) by {
        let c = order[i];
        assert(row_fields[c] == done.0.rows[found.0].fields[i]);
        assert(row_fields[c].name == slots[c].name);
    }
}

/// Preparing queries keeps the table well formed and every field of the
/// module within it.
proof fn lemma_queries_closed(
    module: ModuleView,
    table: Seq<EntryView>,
    param_types: Seq<TypeAnnotationView>,
    row_types: Seq<TypeAnnotationView>,
    queries: Seq<ParsedQueryView>,
    outcomes: Seq<OutcomeView>,
    n: nat,
)
    requires
        table_wf(table),
        module_closed(module, table.len() as int),
    ensures
        ({
            let done = prepare_queries_spec(
                module,
                table,
                param_types,
                row_types,
                queries,
                outcomes,
                n,
            );
            &&& table.is_prefix_of(done.1)
            &&& table_wf(done.1)
            &&& module_closed(done.0, done.1.len() as int)
        }),
    decreases n,
{
    if n > 0 {
        lemma_queries_closed(
            module,
            table,
            param_types,
            row_types,
            queries,
            outcomes,
            (n - 1) as nat,
        );
        let before = prepare_queries_spec(
            module,
            table,
            param_types,
            row_types,
            queries,
            outcomes,
            (n - 1) as nat,
        );
        law_type_closure(
            before.0,
            before.1,
            param_types,
            row_types,
            queries[n - 1],
            outcomes[n - 1],
        );
    }
}

/// Preparing modules keeps the table well formed and every field of every
/// module within it.
proof fn lemma_modules_closed(
    modules: Seq<ParsedModuleView>,
    outcomes: Seq<Seq<OutcomeView>>,
    table: Seq<EntryView>,
    n: nat,
)
    requires
        table_wf(table),
    ensures
        ({
            let done = prepare_modules_spec(modules, outcomes, table, n);
            &&& table.is_prefix_of(done.0)
            &&& table_wf(done.0)
            &&& forall|m: int|
                0 <= m < done.1.len() ==> module_closed(#[trigger] done.1[m], done.0.len() as int)
        }),
    decreases n,
{
    if n > 0 {
        lemma_modules_closed(modules, outcomes, table, (n - 1) as nat);
        let before = prepare_modules_spec(modules, outcomes, table, (n - 1) as nat);
        let validated = modules[n - 1];
        lemma_queries_closed(
            empty_module(validated.name, validated.path),
            before.0,
            validated.param_types,
            validated.row_types,
            validated.queries,
            outcomes[n - 1],
            validated.queries.len(),
        );
        let this = prepare_module_spec(validated, outcomes[n - 1], before.0);
        let all = before.1.push(this.0);
        assert forall|m: int| 0 <= m < all.len() implies module_closed(
            #[trigger] all[m],
            this.2.len() as int,
        ) by {
            if m < before.1.len() {
                lemma_closed_grows(before.1[m], before.0.len() as int, this.2.len() as int);
            }
        }
    }
}

/// Every field of every user-defined type has a type among the first `n` of
/// the table.
pub open spec fn types_closed(types: Seq<SchemaView>, n: int) -> bool {
    forall|s: int, t: int|
        0 <= s < types.len() && 0 <= t < types[s].types.len() ==> match (
        #[trigger] types[s].types[t]).content {
            ContentView::Enum(_) => true,
            ContentView::Domain(inner) => 0 <= inner.ty < n,
            ContentView::Composite(fields) => fields_closed(fields, n),
        }
}

proof fn lemma_collected_closed(table: Seq<EntryView>, n: nat)
    requires
        table_wf(table),
        n <= table.len(),
    ensures
        types_closed(collect_types(table, n), table.len() as int),
    decreases n,
{
    if n > 0 {
        lemma_collected_closed(table, (n - 1) as nat);
        let before = collect_types(table, (n - 1) as nat);
        let entry = table[n - 1];
        lemma_entries_ready(table, n - 1);
        if let Some(ty) = prepare_type_spec(table, entry.name, entry.ty) {
            let pg_ty = entry.ty->Custom_pg_ty;
            match pg_ty.kind {
                PgKindView::Domain(base) => {
                    crate::type_registrar::lemma_find(table, base.schema, base.name);
                },
                PgKindView::Composite(fields) => {
                    assert forall|k: int| 0 <= k < fields.len() implies 0 <= field_index(
                        table,
                        #[trigger] fields[k],
                    ) < table.len() by {
                        assert(crate::type_registrar::find(
                            table,
                            fields[k].ty.schema,
                            fields[k].ty.name,
                        ).is_some());
                        crate::type_registrar::lemma_find(
                            table,
                            fields[k].ty.schema,
                            fields[k].ty.name,
                        );
                    }
                },
                _ => {},
            }
            let after = collect_types(table, n);
            lemma_index_of_name(before, crate::assembler::schema_key(), entry.schema);
            assert forall|s: int, t: int|
                0 <= s < after.len() && 0 <= t < after[s].types.len() implies match (
            #[trigger] after[s].types[t]).content {
                ContentView::Enum(_) => true,
                ContentView::Domain(inner) => 0 <= inner.ty < table.len(),
                ContentView::Composite(fields) => fields_closed(fields, table.len() as int),
            } by {
                if s < before.len() && t < before[s].types.len() {
                    assert(after[s].types[t] == before[s].types[t]);
                } else {
                    assert(after[s].types[t] == ty);
                }
            }
        }
    }
}

/// In every preparation the table of types is well formed, and every field
/// of every module and of every user-defined type has a type that the table
/// holds.
pub proof fn law_preparation_is_closed(
    modules: Seq<ParsedModuleView>,
    outcomes: Seq<Seq<OutcomeView>>,
)
    ensures
        ({
            let preparation = prepare_spec(modules, outcomes).0;
            &&& table_wf(preparation.registrar)
            &&& types_closed(preparation.types, preparation.registrar.len() as int)
            &&& forall|m: int|
                0 <= m < preparation.modules.len() ==> module_closed(
                    #[trigger] preparation.modules[m],
                    preparation.registrar.len() as int,
                )
        }),
{
    broadcast use vstd::seq_lib::group_to_multiset_ensures;

    lemma_modules_closed(modules, outcomes, Seq::empty(), modules.len());
    let done = prepare_modules_spec(modules, outcomes, Seq::empty(), modules.len());
    let prepared = done.1;
    lemma_collected_closed(done.0, done.0.len());
    let sorted = sort_by_name(prepared, key_of::<PreparedModule>());
    lemma_sort_by_name(prepared, key_of::<PreparedModule>());
    assert forall|m: int| 0 <= m < sorted.len() implies module_closed(
        #[trigger] sorted[m],
        done.0.len() as int,
    ) by {
        assert(sorted.contains(sorted[m]));
        assert(sorted.to_multiset().count(sorted[m]) > 0);
        assert(prepared.contains(sorted[m]));
        let k = choose|k: int| 0 <= k < prepared.len() && prepared[k] == sorted[m];
        assert(module_closed(prepared[k], done.0.len() as int));
    }
}

/// The modules of a preparation stand in the order of their names.
pub proof fn law_modules_are_sorted(
    modules: Seq<ParsedModuleView>,
    outcomes: Seq<Seq<OutcomeView>>,
)
    ensures
        sorted_by_name(prepare_spec(modules, outcomes).0.modules, key_of::<PreparedModule>()),
{
    let done = prepare_modules_spec(modules, outcomes, Seq::empty(), modules.len());
    lemma_sort_by_name(done.1, key_of::<PreparedModule>());
}

/// No two queries have the same name.
pub open spec fn distinct_query_names(queries: Seq<ParsedQueryView>) -> bool {
    forall|i: int, j: int|
        0 <= i < j < queries.len() ==> (#[trigger] queries[i]).name().value != (
        #[trigger] queries[j]).name().value
}

/// Every query of the module has the name of one of the first `n` queries.
pub open spec fn named_within(module: ModuleView, queries: Seq<ParsedQueryView>, n: int) -> bool {
    forall|q: int|
        0 <= q < module.queries.len() ==> exists|k: int|
            0 <= k < n && (#[trigger] queries[k]).name().value == (
            #[trigger] module.queries[q]).name
}

/// Preparing a query adds to a module no query under another name.
proof fn lemma_prepared_query_is_named(
    module: ModuleView,
    table: Seq<EntryView>,
    param_types: Seq<TypeAnnotationView>,
    row_types: Seq<TypeAnnotationView>,
    query: ParsedQueryView,
    outcome: OutcomeView,
)
    ensures
        ({
            let done = prepare_query_spec(module, table, param_types, row_types, query, outcome);
            forall|q: int|
                0 <= q < done.0.queries.len() ==> (#[trigger] done.0.queries[q]).name
                    == query.name().value || (q < module.queries.len() && done.0.queries[q]
                    == module.queries[q])
        }),
{
    let done = prepare_query_spec(module, table, param_types, row_types, query, outcome);
    lemma_index_of_name(module.queries, key_of::<PreparedQuery>(), query.name().value);
    assert forall|q: int| 0 <= q < done.0.queries.len() implies (#[trigger] done.0.queries[q]).name
        == query.name().value || (q < module.queries.len() && done.0.queries[q]
        == module.queries[q]) by {}
}

/// Preparing queries of different names into an empty module keeps the
/// back edges right.
proof fn lemma_queries_backed(
    module: ModuleView,
    table: Seq<EntryView>,
    param_types: Seq<TypeAnnotationView>,
    row_types: Seq<TypeAnnotationView>,
    queries: Seq<ParsedQueryView>,
    outcomes: Seq<OutcomeView>,
    n: nat,
)
    requires
        n <= queries.len(),
        distinct_query_names(queries),
        params_backed(module),
        module.queries.len() == 0,
    ensures
        ({
            let done = prepare_queries_spec(
                module,
                table,
                param_types,
                row_types,
                queries,
                outcomes,
                n,
            );
            &&& params_backed(done.0)
            &&& named_within(done.0, queries, n as int)
        }),
    decreases n,
{
    if n > 0 {
        lemma_queries_backed(
            module,
            table,
            param_types,
            row_types,
            queries,
            outcomes,
            (n - 1) as nat,
        );
        let before = prepare_queries_spec(
            module,
            table,
            param_types,
            row_types,
            queries,
            outcomes,
            (n - 1) as nat,
        );
        let query = queries[n - 1];
        let name = query.name().value;
        lemma_index_of_name(before.0.queries, key_of::<PreparedQuery>(), name);
        if let Some(i) = index_of_name(before.0.queries, key_of::<PreparedQuery>(), name) {
            let k = choose|k: int|
                0 <= k < n - 1 && (#[trigger] queries[k]).name().value
                    == before.0.queries[i].name;
            assert(queries[k].name().value != queries[n - 1].name().value);
            assert(false);
        }
        law_params_back_edges(before.0, before.1, param_types, row_types, query, outcomes[n - 1]);
        lemma_prepared_query_is_named(
            before.0,
            before.1,
            param_types,
            row_types,
            query,
            outcomes[n - 1],
        );
        let done = prepare_query_spec(
            before.0,
            before.1,
            param_types,
            row_types,
            query,
            outcomes[n - 1],
        );
        assert forall|q: int| 0 <= q < done.0.queries.len() implies exists|k: int|
            0 <= k < n && (#[trigger] queries[k]).name().value == (
            #[trigger] done.0.queries[q]).name by {
            if done.0.queries[q].name == name {
                assert(queries[n - 1].name().value == done.0.queries[q].name);
            } else {
                assert(done.0.queries[q] == before.0.queries[q]);
                let k = choose|k: int|
                    0 <= k < n - 1 && (#[trigger] queries[k]).name().value
                        == before.0.queries[q].name;
                assert(queries[k].name().value == done.0.queries[q].name);
            }
        }
    }
}

/// Preparing modules none of which has two queries of one name keeps the
/// back edges of every module right.
proof fn lemma_modules_backed(
    modules: Seq<ParsedModuleView>,
    outcomes: Seq<Seq<OutcomeView>>,
    table: Seq<EntryView>,
    n: nat,
)
    requires
        n <= modules.len(),
        forall|m: int| 0 <= m < modules.len() ==> distinct_query_names((#[trigger] modules[m]).queries),
    ensures
        forall|m: int|
            0 <= m < prepare_modules_spec(modules, outcomes, table, n).1.len() ==> params_backed(
                #[trigger] prepare_modules_spec(modules, outcomes, table, n).1[m],
            ),
    decreases n,
{
    if n > 0 {
        lemma_modules_backed(modules, outcomes, table, (n - 1) as nat);
        let before = prepare_modules_spec(modules, outcomes, table, (n - 1) as nat);
        let validated = modules[n - 1];
        lemma_queries_backed(
            empty_module(validated.name, validated.path),
            before.0,
            validated.param_types,
            validated.row_types,
            validated.queries,
            outcomes[n - 1],
            validated.queries.len(),
        );
        let this = prepare_module_spec(validated, outcomes[n - 1], before.0);
        let all = before.1.push(this.0);
        assert forall|m: int| 0 <= m < all.len() implies params_backed(#[trigger] all[m]) by {
            if m < before.1.len() {
                assert(all[m] == before.1[m]);
            }
        }
    }
}

/// Where no module has two queries of the same name, every parameter struct
/// of a preparation lists only queries of its module, and the parameters of
/// each of them are the fields of the struct in some order.
pub proof fn law_preparation_back_edges(
    modules: Seq<ParsedModuleView>,
    outcomes: Seq<Seq<OutcomeView>>,
)
    requires
        forall|m: int| 0 <= m < modules.len() ==> distinct_query_names((#[trigger] modules[m]).queries),
    ensures
        forall|m: int|
            0 <= m < prepare_spec(modules, outcomes).0.modules.len() ==> params_backed(
                #[trigger] prepare_spec(modules, outcomes).0.modules[m],
            ),
{
    broadcast use vstd::seq_lib::group_to_multiset_ensures;

    lemma_modules_backed(modules, outcomes, Seq::empty(), modules.len());
    let done = prepare_modules_spec(modules, outcomes, Seq::empty(), modules.len());
    let prepared = done.1;
    let sorted = sort_by_name(prepared, key_of::<PreparedModule>());
    lemma_sort_by_name(prepared, key_of::<PreparedModule>());
    assert forall|m: int| 0 <= m < sorted.len() implies params_backed(#[trigger] sorted[m]) by {
        assert(sorted.contains(sorted[m]));
        assert(sorted.to_multiset().count(sorted[m]) > 0);
        assert(prepared.contains(sorted[m]));
        let k = choose|k: int| 0 <= k < prepared.len() && prepared[k] == sorted[m];
        assert(params_backed(prepared[k]));
    }
}

/// The queries that validation lets through all have different names, and
/// each has the name of a query of the file.
pub proof fn law_validated_names_differ(
    queries: Seq<ParsedQueryView>,
    param_types: Seq<TypeAnnotationView>,
    row_types: Seq<TypeAnnotationView>,
    n: nat,
)
    requires
        n <= queries.len(),
    ensures
        distinct_query_names(
            crate::validation::validate_queries_spec(queries, param_types, row_types, n).0,
        ),
        forall|i: int|
            0 <= i < crate::validation::validate_queries_spec(
                queries,
                param_types,
                row_types,
                n,
            ).0.len() ==> crate::validation::query_names(queries).take(n as int).contains(
                (#[trigger] crate::validation::validate_queries_spec(
                    queries,
                    param_types,
                    row_types,
                    n,
                ).0[i]).name().value,
            ),
    decreases n,
{
    if n > 0 {
        law_validated_names_differ(queries, param_types, row_types, (n - 1) as nat);
        let before = crate::validation::validate_queries_spec(
            queries,
            param_types,
            row_types,
            (n - 1) as nat,
        ).0;
        let after = crate::validation::validate_queries_spec(queries, param_types, row_types, n).0;
        let names = crate::validation::query_names(queries);
        let query = queries[n - 1];
        assert forall|i: int| 0 <= i < before.len() implies names.take(n as int).contains(
            (#[trigger] before[i]).name().value,
        ) by {
            let name = before[i].name().value;
            let shorter = names.take(n - 1);
            assert(shorter.contains(name));
            let k = choose|k: int| 0 <= k < shorter.len() && shorter[k] == name;
            assert(names.take(n as int)[k] == name);
        }
        if crate::validation::broken_rule(query, names.take(n - 1), param_types, row_types)
            is None {
            assert(names.take(n as int)[n - 1] == query.name().value);
            assert forall|i: int, j: int| 0 <= i < j < after.len() implies (
            #[trigger] after[i]).name().value != (#[trigger] after[j]).name().value by {
                if j < before.len() {
                    assert(after[i] == before[i] && after[j] == before[j]);
                } else {
                    assert(after[i] == before[i]);
                    assert(names.take(n - 1).contains(before[i].name().value));
                }
            }
            assert forall|i: int| 0 <= i < after.len() implies names.take(n as int).contains(
                (#[trigger] after[i]).name().value,
            ) by {
                if i < before.len() {
                    assert(after[i] == before[i]);
                }
            }
        }
    }
}

/// The bind parameters that reading an SQL text gives all have different
/// names, so each name has one number.
pub proof fn law_bind_params_differ(
    text: Seq<char>,
    k: int,
    end: int,
    out: Seq<char>,
    names: Seq<ParsedName>,
)
    requires
        0 <= k,
        end <= text.len(),
        crate::names::distinct_names(names, key_of::<crate::parser::Parsed<String>>()),
    ensures
        crate::names::distinct_names(
            crate::grammar::bind_from(text, k, end, out, names).1,
            key_of::<crate::parser::Parsed<String>>(),
        ),
    decreases end - k,
{
    let key = key_of::<crate::parser::Parsed<String>>();
    if k < end {
        if crate::grammar::is_mention(text, k, end) {
            let e = crate::grammar::mention_end(text, k, end);
            crate::grammar::lemma_ident_end(text, k + 1);
            let name = text.subrange(k + 1, e);
            lemma_index_of_name(names, key, name);
            match index_of_name(names, key, name) {
                Some(p) => {
                    law_bind_params_differ(
                        text,
                        e,
                        end,
                        out + crate::grammar::placeholder((p + 1) as nat),
                        names,
                    );
                },
                None => {
                    let more = names.push(
                        ParsedName { pos: crate::grammar::position_at(text, k + 1), value: name },
                    );
                    assert forall|i: int, j: int| 0 <= i < j < more.len() implies #[trigger] key(
                        more[i],
                    ) != #[trigger] key(more[j]) by {
                        if j < names.len() {
                            assert(key(names[i]) != key(names[j]));
                        } else {
                            assert(key(names[i]) != name);
                        }
                    }
                    law_bind_params_differ(
                        text,
                        e,
                        end,
                        out + crate::grammar::placeholder(names.len() + 1),
                        more,
                    );
                },
            }
        } else {
            law_bind_params_differ(text, k + 1, end, out.push(text[k]), names);
        }
    }
}

/// Under a name that the module has with fields of which no two are equal,
/// a row is refused exactly if its fields are no reordering of the stored
/// ones: they are not as many, or one of the stored is not among them.
pub proof fn law_refusal_is_no_reordering(
    module: ModuleView,
    table: Seq<EntryView>,
    name: ParsedName,
    fields: Seq<FieldView>,
)
    requires
        index_of_name(module.rows, key_of::<PreparedRow>(), name.value) matches Some(at)
            && module.rows[at].fields.no_duplicates(),
    ensures
        ({
            let at = index_of_name(module.rows, key_of::<PreparedRow>(), name.value).unwrap();
            let kept = module.rows[at].fields;
            add_row_spec(module, table, name, fields).1 is Err <==> !(kept.len() == fields.len()
                && forall|i: int| 0 <= i < kept.len() ==> fields.contains(#[trigger] kept[i]))
        }),
{
    let at = index_of_name(module.rows, key_of::<PreparedRow>(), name.value).unwrap();
    law_reordering(module.rows[at].fields, fields);
}

/// Each row struct and each parameter struct of the module is a copy
/// exactly if all of its fields are.
pub open spec fn copies_right(module: ModuleView, table: Seq<EntryView>) -> bool {
    &&& forall|r: int|
        0 <= r < module.rows.len() ==> (#[trigger] module.rows[r]).is_copy == all_copy_fields(
            table,
            module.rows[r].fields,
        )
    &&& forall|p: int|
        0 <= p < module.params.len() ==> (#[trigger] module.params[p]).is_copy == all_copy_fields(
            table,
            module.params[p].fields,
        )
}

/// Fields that are the same in some order are all copies or not together.
proof fn lemma_copy_reordered(table: Seq<EntryView>, first: Seq<FieldView>, second: Seq<FieldView>)
    requires
        first.to_multiset() == second.to_multiset(),
    ensures
        all_copy_fields(table, first) == all_copy_fields(table, second),
{
    crate::validation::lemma_same_struct(first, second);
    if all_copy_fields(table, first) {
        assert forall|i: int| 0 <= i < second.len() implies is_copy_at(
            table,
            (#[trigger] second[i]).ty,
        ) by {
            assert(first.contains(second[i]));
            let k = choose|k: int| 0 <= k < first.len() && first[k] == second[i];
            assert(is_copy_at(table, first[k].ty));
        }
    }
    if all_copy_fields(table, second) {
        assert forall|i: int| 0 <= i < first.len() implies is_copy_at(
            table,
            (#[trigger] first[i]).ty,
        ) by {
            assert(second.contains(first[i]));
            let k = choose|k: int| 0 <= k < second.len() && second[k] == first[i];
            assert(is_copy_at(table, second[k].ty));
        }
    }
}

/// Whether fields with types of the table are all copies does not change
/// when the table grows.
proof fn lemma_copy_extend(table: Seq<EntryView>, longer: Seq<EntryView>, fields: Seq<FieldView>)
    requires
        table.is_prefix_of(longer),
        fields_closed(fields, table.len() as int),
    ensures
        all_copy_fields(longer, fields) == all_copy_fields(table, fields),
{
    assert forall|i: int| 0 <= i < fields.len() implies is_copy_at(longer, (#[trigger] fields[i]).ty)
        == is_copy_at(table, fields[i].ty) by {
        crate::type_registrar::lemma_flags_extend(table, longer, fields[i].ty);
    }
    if all_copy_fields(table, fields) {
        assert forall|i: int| 0 <= i < fields.len() implies is_copy_at(
            longer,
            (#[trigger] fields[i]).ty,
        ) by {
            assert(is_copy_at(table, fields[i].ty));
        }
    }
    if all_copy_fields(longer, fields) {
        assert forall|i: int| 0 <= i < fields.len() implies is_copy_at(
            table,
            (#[trigger] fields[i]).ty,
        ) by {
            assert(is_copy_at(longer, fields[i].ty));
        }
    }
}

/// The structs of a module keep being copies or not when the table grows.
proof fn lemma_copies_grow(module: ModuleView, table: Seq<EntryView>, longer: Seq<EntryView>)
    requires
        copies_right(module, table),
        module_closed(module, table.len() as int),
        table.is_prefix_of(longer),
    ensures
        copies_right(module, longer),
{
    assert forall|r: int| 0 <= r < module.rows.len() implies (#[trigger] module.rows[r]).is_copy
        == all_copy_fields(longer, module.rows[r].fields) by {
        lemma_copy_extend(table, longer, module.rows[r].fields);
    }
    assert forall|p: int| 0 <= p < module.params.len() implies (
    #[trigger] module.params[p]).is_copy == all_copy_fields(longer, module.params[p].fields) by {
        lemma_copy_extend(table, longer, module.params[p].fields);
    }
}

/// Storing a query keeps the structs of the module copies exactly if their
/// fields are.
proof fn lemma_stored_copies(
    module: ModuleView,
    table: Seq<EntryView>,
    query_name: ParsedName,
    params_name: ParsedName,
    row_name: ParsedName,
    params: Seq<FieldView>,
    row_fields: Seq<FieldView>,
    sql: Seq<char>,
)
    requires
        copies_right(module, table),
    ensures
        copies_right(
            stored(module, table, query_name, params_name, row_name, params, row_fields, sql),
            table,
        ),
{
    lemma_sort_by_name(row_fields, key_of::<PreparedField>());
    lemma_sort_by_name(params, key_of::<PreparedField>());
    lemma_copy_reordered(table, sort_by_name(row_fields, key_of::<PreparedField>()), row_fields);
    lemma_copy_reordered(table, sort_by_name(params, key_of::<PreparedField>()), params);
    let rowed = if row_fields.len() == 0 {
        module
    } else {
        add_row_spec(module, table, row_name, row_fields).0
    };
    assert(copies_right(rowed, table)) by {
        assert forall|r: int| 0 <= r < rowed.rows.len() implies (#[trigger] rowed.rows[r]).is_copy
            == all_copy_fields(table, rowed.rows[r].fields) by {
            if r < module.rows.len() {
                assert(rowed.rows[r] == module.rows[r]);
            }
        }
    }
    let row = if row_fields.len() == 0 {
        None
    } else {
        match add_row_spec(module, table, row_name, row_fields).1 {
            Ok(found) => Some(found),
            Err(_) => None,
        }
    };
    let query = QueryView { name: query_name.value, params, row, sql };
    lemma_index_of_name(rowed.queries, key_of::<PreparedQuery>(), query.name);
    let queried = add_query_spec(rowed, query);
    assert(queried.0.rows == rowed.rows && queried.0.params == rowed.params);
    assert(queried.0.queries[queried.1].params == params);
    lemma_index_of_name(queried.0.params, key_of::<PreparedParams>(), params_name.value);
    let interned = add_param_spec(queried.0, table, params_name, queried.1);
    assert(interned.0.rows == queried.0.rows);
    assert forall|p: int| 0 <= p < interned.0.params.len() implies (
    #[trigger] interned.0.params[p]).is_copy == all_copy_fields(table, interned.0.params[p].fields) by {
        if p < queried.0.params.len() {
            assert(interned.0.params[p].fields == queried.0.params[p].fields);
            assert(interned.0.params[p].is_copy == queried.0.params[p].is_copy);
        }
    }
}

/// Preparing a query keeps every row struct and every parameter struct of
/// the module a copy exactly if all of its fields are, by the table as it
/// then is.
pub proof fn law_structs_copy_with_their_fields(
    module: ModuleView,
    table: Seq<EntryView>,
    param_types: Seq<TypeAnnotationView>,
    row_types: Seq<TypeAnnotationView>,
    query: ParsedQueryView,
    outcome: OutcomeView,
)
    requires
        table_wf(table),
        module_closed(module, table.len() as int),
        copies_right(module, table),
    ensures
        ({
            let done = prepare_query_spec(module, table, param_types, row_types, query, outcome);
            copies_right(done.0, done.1)
        }),
{
    law_type_closure(module, table, param_types, row_types, query, outcome);
    let done = prepare_query_spec(module, table, param_types, row_types, query, outcome);
    lemma_copies_grow(module, table, done.1);
    if let Ok(stmt) = outcome {
        if let Ok(shape) = shape_of(query, param_types, row_types, stmt.params) {
            lemma_register_slots(table, shape.param_slots, shape.param_slots.len());
            let with_params = register_slots(table, shape.param_slots, shape.param_slots.len());
            if let Ok(params) = with_params.1 {
                let slots = column_slots(stmt.columns, shape.nullable_columns);
                lemma_register_slots(with_params.0, slots, slots.len());
                let with_columns = register_slots(with_params.0, slots, slots.len());
                if let Ok(row_fields) = with_columns.1 {
                    lemma_copies_grow(module, table, with_columns.0);
                    lemma_stored_copies(
                        module,
                        with_columns.0,
                        query.name(),
                        shape.params_name,
                        shape.row_name,
                        params,
                        row_fields,
                        query.sql(),
                    );
                }
            }
        }
    }
}

/// Preparing queries keeps the structs of the module copies exactly if their
/// fields are.
proof fn lemma_queries_copies(
    module: ModuleView,
    table: Seq<EntryView>,
    param_types: Seq<TypeAnnotationView>,
    row_types: Seq<TypeAnnotationView>,
    queries: Seq<ParsedQueryView>,
    outcomes: Seq<OutcomeView>,
    n: nat,
)
    requires
        table_wf(table),
        module_closed(module, table.len() as int),
        copies_right(module, table),
    ensures
        ({
            let done = prepare_queries_spec(
                module,
                table,
                param_types,
                row_types,
                queries,
                outcomes,
                n,
            );
            copies_right(done.0, done.1)
        }),
    decreases n,
{
    if n > 0 {
        lemma_queries_copies(module, table, param_types, row_types, queries, outcomes, (n - 1) as nat);
        lemma_queries_closed(module, table, param_types, row_types, queries, outcomes, (n - 1) as nat);
        let before = prepare_queries_spec(
            module,
            table,
            param_types,
            row_types,
            queries,
            outcomes,
            (n - 1) as nat,
        );
        law_structs_copy_with_their_fields(
            before.0,
            before.1,
            param_types,
            row_types,
            queries[n - 1],
            outcomes[n - 1],
        );
    }
}

/// Preparing modules keeps the structs of every module copies exactly if
/// their fields are.
proof fn lemma_modules_copies(
    modules: Seq<ParsedModuleView>,
    outcomes: Seq<Seq<OutcomeView>>,
    table: Seq<EntryView>,
    n: nat,
)
    requires
        table_wf(table),
    ensures
        ({
            let done = prepare_modules_spec(modules, outcomes, table, n);
            forall|m: int| 0 <= m < done.1.len() ==> copies_right(#[trigger] done.1[m], done.0)
        }),
    decreases n,
{
    if n > 0 {
        lemma_modules_copies(modules, outcomes, table, (n - 1) as nat);
        lemma_modules_closed(modules, outcomes, table, (n - 1) as nat);
        let before = prepare_modules_spec(modules, outcomes, table, (n - 1) as nat);
        let validated = modules[n - 1];
        let start = empty_module(validated.name, validated.path);
        lemma_queries_copies(
            start,
            before.0,
            validated.param_types,
            validated.row_types,
            validated.queries,
            outcomes[n - 1],
            validated.queries.len(),
        );
        lemma_queries_closed(
            start,
            before.0,
            validated.param_types,
            validated.row_types,
            validated.queries,
            outcomes[n - 1],
            validated.queries.len(),
        );
        let this = prepare_module_spec(validated, outcomes[n - 1], before.0);
        let all = before.1.push(this.0);
        assert forall|m: int| 0 <= m < all.len() implies copies_right(#[trigger] all[m], this.2) by {
            if m < before.1.len() {
                lemma_copies_grow(before.1[m], before.0, this.2);
            }
        }
    }
}

/// Each user-defined type over a domain is a copy exactly if its base is,
/// and each composite exactly if all of its fields are.
pub open spec fn types_copy_right(types: Seq<SchemaView>, table: Seq<EntryView>) -> bool {
    forall|s: int, t: int|
        0 <= s < types.len() && 0 <= t < types[s].types.len() ==> match (
        #[trigger] types[s].types[t]).content {
            ContentView::Enum(_) => types[s].types[t].is_copy,
            ContentView::Domain(inner) => types[s].types[t].is_copy == is_copy_at(table, inner.ty),
            ContentView::Composite(fields) => types[s].types[t].is_copy == all_copy_fields(
                table,
                fields,
            ),
        }
}

proof fn lemma_collected_copies(table: Seq<EntryView>, n: nat)
    requires
        table_wf(table),
        n <= table.len(),
    ensures
        types_copy_right(collect_types(table, n), table),
    decreases n,
{
    if n > 0 {
        lemma_collected_copies(table, (n - 1) as nat);
        let before = collect_types(table, (n - 1) as nat);
        let entry = table[n - 1];
        law_is_copy_transitive(table, n - 1);
        if let Some(ty) = prepare_type_spec(table, entry.name, entry.ty) {
            let pg_ty = entry.ty->Custom_pg_ty;
            assert(entry_wf(table, n - 1));
            assert(ty.is_copy == is_copy_at(table, n - 1));
            if let PgKindView::Domain(base) = pg_ty.kind {
                let inner = ty.content->Domain_0;
                assert(inner.ty == crate::type_registrar::find(table, base.schema, base.name).unwrap());
            }
            if let PgKindView::Composite(fields) = pg_ty.kind {
                let parts = ty.content->Composite_0;
                assert(parts.len() == fields.len());
                if all_copy(table, fields, fields.len() as int) {
                    assert forall|k: int| 0 <= k < parts.len() implies is_copy_at(
                        table,
                        (#[trigger] parts[k]).ty,
                    ) by {
                        assert(is_copy_at(table, field_index(table, fields[k])));
                    }
                }
                if all_copy_fields(table, parts) {
                    assert forall|k: int| 0 <= k < fields.len() implies is_copy_at(
                        table,
                        #[trigger] field_index(table, fields[k]),
                    ) by {
                        assert(is_copy_at(table, parts[k].ty));
                    }
                }
            }
            let after = collect_types(table, n);
            lemma_index_of_name(before, crate::assembler::schema_key(), entry.schema);
            assert forall|s: int, t: int|
                0 <= s < after.len() && 0 <= t < after[s].types.len() implies match (
            #[trigger] after[s].types[t]).content {
                ContentView::Enum(_) => after[s].types[t].is_copy,
                ContentView::Domain(inner) => after[s].types[t].is_copy == is_copy_at(
                    table,
                    inner.ty,
                ),
                ContentView::Composite(parts) => after[s].types[t].is_copy == all_copy_fields(
                    table,
                    parts,
                ),
            } by {
                if s < before.len() && t < before[s].types.len() {
                    assert(after[s].types[t] == before[s].types[t]);
                } else {
                    assert(after[s].types[t] == ty);
                }
            }
        }
    }
}

/// In every preparation, by its table of types: an array is never a copy; a
/// domain is a copy exactly if its base is; each row struct, each parameter
/// struct and each composite is a copy exactly if all of its fields are, so
/// none with a field of an array type is; and a user-defined type over a
/// domain is a copy exactly if its base is.
pub proof fn law_prepared_copies(
    modules: Seq<ParsedModuleView>,
    outcomes: Seq<Seq<OutcomeView>>,
)
    ensures
        ({
            let preparation = prepare_spec(modules, outcomes).0;
            let table = preparation.registrar;
            &&& forall|i: int|
                0 <= i < table.len() ==> ((#[trigger] table[i]).ty is Array ==> !is_copy_at(
                    table,
                    i,
                ))
            &&& forall|i: int|
                0 <= i < table.len() ==> ((#[trigger] table[i]).ty matches TypeView::Domain { inner }
                    ==> is_copy_at(table, i) == is_copy_at(table, inner))
            &&& forall|m: int|
                0 <= m < preparation.modules.len() ==> copies_right(
                    #[trigger] preparation.modules[m],
                    table,
                )
            &&& types_copy_right(preparation.types, table)
        }),
{
    broadcast use vstd::seq_lib::group_to_multiset_ensures;

    lemma_modules_closed(modules, outcomes, Seq::empty(), modules.len());
    lemma_modules_copies(modules, outcomes, Seq::empty(), modules.len());
    let done = prepare_modules_spec(modules, outcomes, Seq::empty(), modules.len());
    let table = done.0;
    lemma_collected_copies(table, table.len());
    assert forall|i: int| 0 <= i < table.len() implies ((#[trigger] table[i]).ty is Array
        ==> !is_copy_at(table, i)) && (table[i].ty matches TypeView::Domain { inner } ==> is_copy_at(
        table,
        i,
    ) == is_copy_at(table, inner)) by {
        law_is_copy_transitive(table, i);
    }
    let prepared = done.1;
    let sorted = sort_by_name(prepared, key_of::<PreparedModule>());
    lemma_sort_by_name(prepared, key_of::<PreparedModule>());
    assert forall|m: int| 0 <= m < sorted.len() implies copies_right(#[trigger] sorted[m], table) by {
        assert(sorted.contains(sorted[m]));
        assert(sorted.to_multiset().count(sorted[m]) > 0);
        assert(prepared.contains(sorted[m]));
        let k = choose|k: int| 0 <= k < prepared.len() && prepared[k] == sorted[m];
        assert(copies_right(prepared[k], table));
    }
}

/// A struct that is a copy exactly if all of its fields are is no copy if
/// one of its fields has an array type.
pub proof fn law_array_field_is_no_copy(table: Seq<EntryView>, fields: Seq<FieldView>, i: int)
    requires
        0 <= i < fields.len(),
        0 <= fields[i].ty < table.len(),
        table[fields[i].ty].ty is Array,
    ensures
        !all_copy_fields(table, fields),
{
    assert(!is_copy_at(table, fields[i].ty));
}

/// A query whose statement reports, in whatever order, the columns that a
/// row struct of the module was stored with is prepared under that struct:
/// the rows of the module stay as they are, and the query names the struct
/// that was there, with a column order of its own (see
/// [`law_rows_match_columns`]).
pub proof fn law_second_query_shares_the_row(
    module: ModuleView,
    table: Seq<EntryView>,
    param_types: Seq<TypeAnnotationView>,
    row_types: Seq<TypeAnnotationView>,
    query: ParsedQueryView,
    stmt: StatementView,
)
    requires
        stmt.columns.len() > 0,
        shape_of(query, param_types, row_types, stmt.params) is Ok,
        columns_checked(
            stmt.columns,
            shape_of(query, param_types, row_types, stmt.params)->Ok_0.nullable_columns,
        ) is Ok,
        ({
            let shape = shape_of(query, param_types, row_types, stmt.params)->Ok_0;
            let with_params = register_slots(table, shape.param_slots, shape.param_slots.len());
            let slots = column_slots(stmt.columns, shape.nullable_columns);
            let with_columns = register_slots(with_params.0, slots, slots.len());
            &&& with_params.1 matches Ok(params)
            &&& with_columns.1 matches Ok(row_fields)
            &&& crate::preparer::params_refusal(module, shape.params_name, params).is_none()
            &&& index_of_name(module.rows, key_of::<PreparedRow>(), shape.row_name.value) matches Some(
                at,
            )
            &&& module.rows[at].fields.to_multiset() == row_fields.to_multiset()
        }),
    ensures
        ({
            let done = prepare_query_spec(
                module,
                table,
                param_types,
                row_types,
                query,
                Ok::<_, Seq<char>>(stmt),
            );
            let shape = shape_of(query, param_types, row_types, stmt.params)->Ok_0;
            let at = index_of_name(
                module.rows,
                key_of::<PreparedRow>(),
                shape.row_name.value,
            ).unwrap();
            &&& done.2 is Ok
            &&& done.0.rows == module.rows
            &&& index_of_name(done.0.queries, key_of::<PreparedQuery>(), query.name().value) matches Some(
                q,
            )
            &&& done.0.queries[q].row matches Some((index, order))
            &&& index == at
            &&& order.len() == stmt.columns.len()
        }),
{
    let shape = shape_of(query, param_types, row_types, stmt.params)->Ok_0;
    let with_params = register_slots(table, shape.param_slots, shape.param_slots.len());
    let params = with_params.1->Ok_0;
    let slots = column_slots(stmt.columns, shape.nullable_columns);
    lemma_register_slots(with_params.0, slots, slots.len());
    let with_columns = register_slots(with_params.0, slots, slots.len());
    let row_fields = with_columns.1->Ok_0;
    let name = query.name();
    assert(row_fields.len() == stmt.columns.len());
    lemma_index_of_name(module.rows, key_of::<PreparedRow>(), shape.row_name.value);
    law_row_interning(module, with_columns.0, shape.row_name, row_fields);
    let interned = add_row_spec(module, with_columns.0, shape.row_name, row_fields);
    let found = interned.1->Ok_0;
    let stored_query = QueryView {
        name: name.value,
        params,
        row: Some(found),
        sql: query.sql(),
    };
    lemma_index_of_name(interned.0.queries, key_of::<PreparedQuery>(), name.value);
    let queried = add_query_spec(interned.0, stored_query);
    assert(queried.0.queries[queried.1] == stored_query);
    assert(index_of_name(queried.0.queries, key_of::<PreparedQuery>(), name.value) == Some(
        queried.1,
    )) by {
        lemma_index_of_name(queried.0.queries, key_of::<PreparedQuery>(), name.value);
        assert(key_of::<PreparedQuery>()(queried.0.queries[queried.1]) == name.value);
        assert forall|j: int| 0 <= j < queried.1 implies key_of::<PreparedQuery>()(
            #[trigger] queried.0.queries[j],
        ) != name.value by {
            assert(queried.0.queries[j] == interned.0.queries[j]);
        }
    }
    let done = prepare_query_spec(
        module,
        table,
        param_types,
        row_types,
        query,
        Ok::<_, Seq<char>>(stmt),
    );
    assert(done.0.queries == queried.0.queries);
    assert(done.0.rows == queried.0.rows);
}

/// A query that cannot be prepared leaves the module as it was, whatever
/// the reason; only types that were registered before the failure stay in
/// the table.
pub proof fn law_failure_leaves_the_module(
    module: ModuleView,
    table: Seq<EntryView>,
    param_types: Seq<TypeAnnotationView>,
    row_types: Seq<TypeAnnotationView>,
    query: ParsedQueryView,
    outcome: OutcomeView,
)
    ensures
        ({
            let done = prepare_query_spec(module, table, param_types, row_types, query, outcome);
            &&& done.2 is Err ==> done.0 == module
            &&& done.2 matches Err(e) ==> e.query_name == query.name() && e.path == module.path
            &&& table.is_prefix_of(done.1)
        }),
{
    if let Ok(stmt) = outcome {
        if let Ok(shape) = shape_of(query, param_types, row_types, stmt.params) {
            lemma_register_slots(table, shape.param_slots, shape.param_slots.len());
            let with_params = register_slots(table, shape.param_slots, shape.param_slots.len());
            let slots = column_slots(stmt.columns, shape.nullable_columns);
            lemma_register_slots(with_params.0, slots, slots.len());
        }
    }
}

/// Every query of a module is either prepared or reported: there are as
/// many failures as queries that could not be prepared, and the failure of
/// one query does not keep the next from being prepared as if it stood
/// alone behind those before it.
pub proof fn law_queries_fail_alone(
    module: ModuleView,
    table: Seq<EntryView>,
    param_types: Seq<TypeAnnotationView>,
    row_types: Seq<TypeAnnotationView>,
    queries: Seq<ParsedQueryView>,
    outcomes: Seq<OutcomeView>,
    n: nat,
)
    requires
        n > 0,
    ensures
        ({
            let before = prepare_queries_spec(
                module,
                table,
                param_types,
                row_types,
                queries,
                outcomes,
                (n - 1) as nat,
            );
            let done = prepare_queries_spec(
                module,
                table,
                param_types,
                row_types,
                queries,
                outcomes,
                n,
            );
            let this = prepare_query_spec(
                before.0,
                before.1,
                param_types,
                row_types,
                queries[n - 1],
                outcomes[n - 1],
            );
            &&& done.0 == this.0
            &&& done.1 == this.1
            &&& this.2 is Ok ==> done.2 == before.2
            &&& this.2 matches Err(e) ==> done.2 == before.2.push(e) && done.0 == before.0
        }),
{
    let before = prepare_queries_spec(
        module,
        table,
        param_types,
        row_types,
        queries,
        outcomes,
        (n - 1) as nat,
    );
    law_failure_leaves_the_module(
        before.0,
        before.1,
        param_types,
        row_types,
        queries[n - 1],
        outcomes[n - 1],
    );
}

} // verus!
