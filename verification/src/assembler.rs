//! Assembles what the emitter consumes: the modules in the order of their
//! names, and the user-defined types by schema in the order in which they
//! were registered.

use crate::named_table::NamedTable;
use crate::names::{
    index_of_name, key_of, lemma_index_of_name, lemma_views_push, sort_by_name, sort_vec_by_name,
    views,
};
use crate::parser::ParsedModuleView;
use crate::pg::{
    all_outcome_views, clone_strings, labels_view, outcome_views, DbError, OutcomeView, PgKind,
    PgKindView, Statement,
};
use crate::prepare_queries::{Error, ErrorView, FieldView, ModuleView, PreparedField, PreparedModule};
use crate::preparer::{prepare_module, prepare_module_spec};
use crate::type_registrar::{
    entry_wf, field_index, fields_registered, find, lemma_find_take, table_wf, CornucopiaType,
    EntryView, TypeRegistrar, TypeView,
};
use crate::validation::ValidatedModule;
use vstd::prelude::*;

verus! {

/// What a user-defined type consists of.
#[derive(Debug, Clone, PartialEq, Eq)]
pub enum PreparedContent {
    /// The labels of an enumeration.
    Enum(Vec<String>),
    /// The base of a domain, as the single field `inner`.
    Domain(PreparedField),
    /// The fields of a composite, in the order in which the database
    /// declares them.
    Composite(Vec<PreparedField>),
}

/// A user-defined type for which a definition is generated.
#[derive(Debug, Clone, PartialEq, Eq)]
pub struct PreparedType {
    pub name: String,
    pub struct_name: String,
    pub content: PreparedContent,
    pub is_copy: bool,
    pub is_params: bool,
}

/// Mathematical model of a [`PreparedContent`].
pub enum ContentView {
    Enum(Seq<Seq<char>>),
    Domain(FieldView),
    Composite(Seq<FieldView>),
}

/// Mathematical model of a [`PreparedType`].
pub struct PreparedTypeView {
    pub name: Seq<char>,
    pub struct_name: Seq<char>,
    pub content: ContentView,
    pub is_copy: bool,
    pub is_params: bool,
}

impl View for PreparedContent {
    type V = ContentView;

    open spec fn view(&self) -> ContentView {
        match *self {
            PreparedContent::Enum(labels) => ContentView::Enum(labels_view(labels@)),
            PreparedContent::Domain(inner) => ContentView::Domain(inner@),
            PreparedContent::Composite(fields) => ContentView::Composite(views(fields@)),
        }
    }
}

impl View for PreparedType {
    type V = PreparedTypeView;

    open spec fn view(&self) -> PreparedTypeView {
        PreparedTypeView {
            name: self.name@,
            struct_name: self.struct_name@,
            content: self.content@,
            is_copy: self.is_copy,
            is_params: self.is_params,
        }
    }
}

/// The field that stands for a part of a user-defined type: never nullable.
pub open spec fn part(name: Seq<char>, ty: int) -> FieldView {
    FieldView { name, ty, is_nullable: false, is_inner_nullable: false }
}

/// The name of the single field of a domain.
pub open spec fn inner_name() -> Seq<char> {
    seq!['i', 'n', 'n', 'e', 'r']
}

/// What a user-defined type consists of, read off its description: the
/// labels of an enumeration, the base of a domain, the fields of a composite
/// in declaration order.
pub open spec fn content_of(table: Seq<EntryView>, kind: PgKindView) -> ContentView {
    match kind {
        PgKindView::Domain(base) => ContentView::Domain(
            part(inner_name(), find(table, base.schema, base.name).unwrap()),
        ),
        PgKindView::Composite(fields) => ContentView::Composite(
            Seq::new(fields.len(), |k: int| part(fields[k].name, field_index(table, fields[k]))),
        ),
        PgKindView::Enum(labels) => ContentView::Enum(labels),
        _ => ContentView::Enum(Seq::empty()),
    }
}

/// The definition to generate for a registered type: one for every
/// user-defined type, none for any other.
pub open spec fn prepare_type_spec(table: Seq<EntryView>, name: Seq<char>, ty: TypeView) -> Option<
    PreparedTypeView,
> {
    match ty {
        TypeView::Custom { pg_ty, struct_name, is_copy, is_params } => Some(
            PreparedTypeView {
                name,
                struct_name,
                content: content_of(table, pg_ty.kind),
                is_copy,
                is_params,
            },
        ),
        _ => None,
    }
}

/// A user-defined type is an enumeration, a domain or a composite, and what
/// it is built from is registered.
pub open spec fn type_ready(table: Seq<EntryView>, ty: TypeView) -> bool {
    ty matches TypeView::Custom { pg_ty, .. } ==> match pg_ty.kind {
        PgKindView::Enum(_) => true,
        PgKindView::Domain(base) => find(table, base.schema, base.name).is_some(),
        PgKindView::Composite(fields) => fields_registered(table, fields, fields.len() as int),
        _ => false,
    }
}

/// Every entry of a well-formed table is ready.
pub proof fn lemma_entries_ready(table: Seq<EntryView>, i: int)
    requires
        table_wf(table),
        0 <= i < table.len(),
    ensures
        type_ready(table, table[i].ty),
{
    assert(entry_wf(table, i));
    if let TypeView::Custom { pg_ty, .. } = table[i].ty {
        match pg_ty.kind {
            PgKindView::Domain(base) => {
                lemma_find_take(table, i, base.schema, base.name);
            },
            PgKindView::Composite(fields) => {
                assert forall|k: int| 0 <= k < fields.len() implies (#[trigger] find(
                    table,
                    fields[k].ty.schema,
                    fields[k].ty.name,
                )).is_some() by {
                    assert(find(table.take(i), fields[k].ty.schema, fields[k].ty.name).is_some());
                    lemma_find_take(table, i, fields[k].ty.schema, fields[k].ty.name);
                }
            },
            _ => {},
        }
    }
}

/// Prepares the definition of a registered type (see [`prepare_type_spec`]).
pub fn prepare_type(registrar: &TypeRegistrar, name: &String, ty: &CornucopiaType) -> (r: Option<
    PreparedType,
>)
    requires
        type_ready(registrar@, ty@),
    ensures
        match r {
            Some(prepared) => prepare_type_spec(registrar@, name@, ty@) == Some(prepared@),
            None => prepare_type_spec(registrar@, name@, ty@).is_none(),
        },
{
    if let CornucopiaType::Custom { pg_ty, struct_name, is_copy, is_params } = ty {
        let content = match &pg_ty.kind {
            PgKind::Enum(labels) => PreparedContent::Enum(clone_strings(labels)),
            PgKind::Domain(base) => {
                proof {
                    reveal_strlit("inner");
                    assert("inner"@ =~= inner_name());
                }
                PreparedContent::Domain(
                    PreparedField {
                        name: "inner".to_owned(),
                        ty: registrar.ref_of(base),
                        is_nullable: false,
                        is_inner_nullable: false,
                    },
                )
            },
            PgKind::Composite(fields) => {
                let ghost models = pg_ty@.kind->Composite_0;
                let mut parts: Vec<PreparedField> = Vec::new();
                let mut k: usize = 0;
                while k < fields.len()
                    invariant
                        k <= fields.len(),
                        models.len() == fields.len(),
                        forall|j: int| 0 <= j < fields.len() ==> models[j] == fields[j]@,
                        fields_registered(registrar@, models, models.len() as int),
                        parts.len() == k,
                        forall|j: int|
                            0 <= j < k ==> parts[j]@ == part(
                                models[j].name,
                                field_index(registrar@, models[j]),
                            ),
                    decreases fields.len() - k,
                {
                    assert(find(
                        registrar@,
                        models[k as int].ty.schema,
                        models[k as int].ty.name,
                    ).is_some());
                    parts.push(
                        PreparedField {
                            name: fields[k].name.clone(),
                            ty: registrar.ref_of(&fields[k].ty),
                            is_nullable: false,
                            is_inner_nullable: false,
                        },
                    );
                    k += 1;
                }
                assert(views(parts@) =~= content_of(registrar@, pg_ty@.kind)->Composite_0);
                PreparedContent::Composite(parts)
            },
            _ => {
                proof {
                    assert(false);
                }
                PreparedContent::Enum(Vec::new())
            },
        };
        Some(
            PreparedType {
                name: name.clone(),
                struct_name: struct_name.clone(),
                content,
                is_copy: *is_copy,
                is_params: *is_params,
            },
        )
    } else {
        None
    }
}

/// The user-defined types of one schema.
pub struct SchemaView {
    pub schema: Seq<char>,
    pub types: Seq<PreparedTypeView>,
}

/// The name of a schema, as the key of its types.
pub open spec fn schema_key() -> spec_fn(SchemaView) -> Seq<char> {
    |bucket: SchemaView| bucket.schema
}

/// The types by schema that a table of them holds.
pub open spec fn schema_views(table: &NamedTable<Vec<PreparedType>>) -> Seq<SchemaView> {
    Seq::new(
        table.values().len(),
        |i: int| SchemaView { schema: table.names()[i], types: views(table.values()[i]@) },
    )
}

/// Everything that the emitter consumes.
#[derive(Debug)]
pub struct Preparation {
    /// The modules, in the order of their names.
    pub modules: Vec<PreparedModule>,
    /// The user-defined types by schema; schemas and types in the order in
    /// which they were first registered.
    pub types: NamedTable<Vec<PreparedType>>,
    /// The table that the type handles of all fields point into.
    pub registrar: TypeRegistrar,
}

/// Mathematical model of a [`Preparation`].
pub struct PreparationView {
    pub modules: Seq<ModuleView>,
    pub types: Seq<SchemaView>,
    pub registrar: Seq<EntryView>,
}

impl View for Preparation {
    type V = PreparationView;

    open spec fn view(&self) -> PreparationView {
        PreparationView {
            modules: views(self.modules@),
            types: schema_views(&self.types),
            registrar: self.registrar@,
        }
    }
}

/// The types by schema with one more type: at the end of its schema's types
/// if the schema is there, else as the first type of a new schema at the end.
pub open spec fn with_type(buckets: Seq<SchemaView>, schema: Seq<char>, ty: PreparedTypeView) -> Seq<
    SchemaView,
> {
    match index_of_name(buckets, schema_key(), schema) {
        Some(i) => buckets.update(i, SchemaView { schema, types: buckets[i].types.push(ty) }),
        None => buckets.push(SchemaView { schema, types: seq![ty] }),
    }
}

/// The user-defined types among the first `n` entries of the table, by
/// schema, in registration order.
pub open spec fn collect_types(table: Seq<EntryView>, n: nat) -> Seq<SchemaView>
    decreases n,
{
    if n == 0 || n > table.len() {
        Seq::empty()
    } else {
        let before = collect_types(table, (n - 1) as nat);
        match prepare_type_spec(table, table[n - 1].name, table[n - 1].ty) {
            Some(ty) => with_type(before, table[n - 1].schema, ty),
            None => before,
        }
    }
}

/// The table after the first `n` modules are prepared in the order given,
/// the modules, and the failures of their queries in that order.
pub open spec fn prepare_modules_spec(
    modules: Seq<ParsedModuleView>,
    outcomes: Seq<Seq<OutcomeView>>,
    table: Seq<EntryView>,
    n: nat,
) -> (Seq<EntryView>, Seq<ModuleView>, Seq<ErrorView>)
    decreases n,
{
    if n == 0 {
        (table, Seq::empty(), Seq::empty())
    } else {
        let before = prepare_modules_spec(modules, outcomes, table, (n - 1) as nat);
        let this = prepare_module_spec(modules[n - 1], outcomes[n - 1], before.0);
        (this.2, before.1.push(this.0), before.2 + this.1)
    }
}

/// The whole preparation: the modules are prepared in the order given, with
/// one table of types for all of them, and then laid out in the order of
/// their names; the user-defined types are collected from the table. With
/// it come the failures: one for each query that could not be prepared, by
/// module in the order given and by query in file order. A query that
/// failed is in no module.
pub open spec fn prepare_spec(
    modules: Seq<ParsedModuleView>,
    outcomes: Seq<Seq<OutcomeView>>,
) -> (PreparationView, Seq<ErrorView>) {
    let done = prepare_modules_spec(modules, outcomes, Seq::empty(), modules.len());
    (
        PreparationView {
            modules: sort_by_name(done.1, key_of::<PreparedModule>()),
            types: collect_types(done.0, done.0.len()),
            registrar: done.0,
        },
        done.2,
    )
}

/// Looking a schema up in the table gives the first of its buckets.
proof fn lemma_schema_position(table: &NamedTable<Vec<PreparedType>>, schema: Seq<char>)
    requires
        table.wf(),
    ensures
        table.position(schema) == index_of_name(schema_views(table), schema_key(), schema),
{
    let buckets = schema_views(table);
    lemma_index_of_name(buckets, schema_key(), schema);
    assert forall|j: int| 0 <= j < buckets.len() implies schema_key()(buckets[j])
        == table.names()[j] by {}
    match index_of_name(buckets, schema_key(), schema) {
        Some(i) => {
            assert(table.names()[i] == schema);
            assert(table.names().contains(schema));
        },
        None => {
            if table.names().contains(schema) {
                let j = table.names().index_of(schema);
                assert(schema_key()(buckets[j]) == schema);
            }
        },
    }
}

/// Collects the user-defined types of a table by schema (see
/// [`collect_types`]).
pub fn prepare_types(registrar: &TypeRegistrar) -> (r: NamedTable<Vec<PreparedType>>)
    requires
        registrar.wf(),
    ensures
        r.wf(),
        schema_views(&r) == collect_types(registrar@, registrar@.len()),
{
    let mut types: NamedTable<Vec<PreparedType>> = NamedTable::new();
    let mut i: usize = 0;
    assert(schema_views(&types) =~= collect_types(registrar@, 0));
    while i < registrar.types.len()
        invariant
            i <= registrar.types.len(),
            registrar.wf(),
            types.wf(),
            schema_views(&types) == collect_types(registrar@, i as nat),
        decreases registrar.types.len() - i,
    {
        let entry = &registrar.types[i];
        proof {
            lemma_entries_ready(registrar@, i as int);
            lemma_schema_position(&types, entry.schema@);
        }
        if let Some(ty) = prepare_type(registrar, &entry.name, &entry.ty) {
            let ghost before = schema_views(&types);
            match types.index_of(&entry.schema) {
                Some(at) => {
                    let bucket = types.get_mut(at);
                    let ghost old_bucket = bucket@;
                    bucket.push(ty);
                    proof {
                        lemma_views_push(old_bucket, ty);
                        assert(schema_views(&types) =~= with_type(before, entry.schema@, ty@));
                    }
                },
                None => {
                    let mut bucket: Vec<PreparedType> = Vec::new();
                    bucket.push(ty);
                    proof {
                        assert(views(bucket@) =~= seq![ty@]);
                    }
                    types.insert_full(entry.schema.clone(), bucket);
                    proof {
                        assert(schema_views(&types) =~= with_type(before, entry.schema@, ty@));
                    }
                },
            }
        }
        i += 1;
    }
    types
}

/// Prepares all modules and assembles the result (see [`prepare_spec`]).
/// `outcomes` holds, for each module and each of its queries in the same
/// order, what the database made of the query's SQL text. What comes back
/// is the preparation of every query that could be prepared, and the
/// failures of the others; the preparation is complete exactly if there is
/// no failure.
pub fn prepare(modules: Vec<ValidatedModule>, outcomes: Vec<Vec<Result<Statement, DbError>>>) -> (r: (
    Preparation,
    Vec<Error>,
))
    requires
        outcomes.len() == modules.len(),
        forall|i: int| 0 <= i < modules.len() ==> outcomes[i].len() == modules[i].queries.len(),
    ensures
        (r.0@, views(r.1@)) == prepare_spec(views(modules@), all_outcome_views(outcomes@)),
        r.0.registrar.wf(),
        r.0.types.wf(),
        forall|i: int| 0 <= i < r.0.modules.len() ==> r.0.modules[i].wf(),
{
    let mut registrar = TypeRegistrar::new();
    let ghost all_modules = views(modules@);
    let ghost all_outcomes = all_outcome_views(outcomes@);
    let count = modules.len();
    let mut pending = crate::names::reversed(modules);
    let mut answers = crate::names::reversed(outcomes);
    let mut prepared: Vec<PreparedModule> = Vec::new();
    let mut errors: Vec<Error> = Vec::new();
    let mut i: usize = 0;
    proof {
        assert(views(prepared@) =~= Seq::<ModuleView>::empty());
        assert(views(errors@) =~= Seq::<ErrorView>::empty());
    }
    while i < count
        invariant
            i <= count,
            count == all_modules.len(),
            count == all_outcomes.len(),
            pending.len() == count - i,
            answers.len() == count - i,
            forall|k: int|
                0 <= k < count - i ==> (#[trigger] pending[k])@ == all_modules[count - 1 - k],
            forall|k: int|
                0 <= k < count - i ==> outcome_views((#[trigger] answers[k])@) == all_outcomes[count
                    - 1 - k],
            forall|k: int|
                0 <= k < count - i ==> (#[trigger] answers[k]).len() == pending[k].queries.len(),
            registrar.wf(),
            forall|k: int| 0 <= k < prepared.len() ==> prepared[k].wf(),
            prepare_modules_spec(all_modules, all_outcomes, Seq::empty(), i as nat) == (
                registrar@,
                views(prepared@),
                views(errors@),
            ),
        decreases count - i,
    {
        let module = pending.pop().unwrap();
        let outcomes_of_module = answers.pop().unwrap();
        let (done, mut failed) = prepare_module(module, outcomes_of_module, &mut registrar);
        proof {
            lemma_views_push(prepared@, done);
            assert(views(errors@ + failed@) =~= views(errors@) + views(failed@));
        }
        prepared.push(done);
        errors.append(&mut failed);
        i += 1;
    }
    let sorted = sort_vec_by_name(prepared);
    let types = prepare_types(&registrar);
    (Preparation { modules: sorted, types, registrar }, errors)
}

} // verus!
