//! The type universe of one run: every database type that a query mentions,
//! normalised and kept under its schema and name.
//!
//! The table is an arena. An entry is never moved or removed, so the position
//! at which a type was registered is its handle, and an entry only ever refers
//! to entries registered before it. A type is found by its schema and name
//! along the table, which holds one entry for each type that the queries
//! mention.

use crate::pg::{PgFieldView, PgKind, PgKindView, PgType, PgTypeView};
use heck::ToUpperCamelCase;
use vstd::prelude::*;

verus! {

/// What `heck` makes of a name in upper camel case.
pub uninterp spec fn upper_camel_case(name: Seq<char>) -> Seq<char>;

/// `heck::ToUpperCamelCase::to_upper_camel_case` on a string slice: the
/// conversion depends on the characters of the name alone.
#[verifier::external_body]
pub(crate) fn to_upper_camel_case(name: &str) -> (r: String)
    ensures
        r@ == upper_camel_case(name@),
{
    name.to_upper_camel_case()
}

/// A registered type, named by its position in the registrar's table.
#[derive(Clone, Copy, Debug, PartialEq, Eq, Structural)]
pub struct TypeHandle {
    pub index: usize,
}

/// A database type as the generated code will see it.
#[derive(Debug)]
pub enum CornucopiaType {
    /// A built-in scalar.
    Simple { name: String, oid: u32, is_copy: bool },
    /// An array of another registered type.
    Array { inner: TypeHandle },
    /// A domain over another registered type.
    Domain { inner: TypeHandle },
    /// A user-defined type that gets a definition of its own.
    Custom { pg_ty: PgType, struct_name: String, is_copy: bool, is_params: bool },
}

/// One entry of the table: the key and what is registered under it.
#[derive(Debug)]
pub struct RegisteredType {
    pub schema: String,
    pub name: String,
    pub ty: CornucopiaType,
}

/// Mathematical model of a [`CornucopiaType`].
pub enum TypeView {
    Simple { name: Seq<char>, oid: u32, is_copy: bool },
    Array { inner: int },
    Domain { inner: int },
    Custom { pg_ty: PgTypeView, struct_name: Seq<char>, is_copy: bool, is_params: bool },
}

/// Mathematical model of a [`RegisteredType`].
pub struct EntryView {
    pub schema: Seq<char>,
    pub name: Seq<char>,
    pub ty: TypeView,
}

impl View for CornucopiaType {
    type V = TypeView;

    open spec fn view(&self) -> TypeView {
        match *self {
            CornucopiaType::Simple { name, oid, is_copy } => TypeView::Simple {
                name: name@,
                oid,
                is_copy,
            },
            CornucopiaType::Array { inner } => TypeView::Array { inner: inner.index as int },
            CornucopiaType::Domain { inner } => TypeView::Domain { inner: inner.index as int },
            CornucopiaType::Custom { pg_ty, struct_name, is_copy, is_params } => TypeView::Custom {
                pg_ty: pg_ty@,
                struct_name: struct_name@,
                is_copy,
                is_params,
            },
        }
    }
}

impl View for RegisteredType {
    type V = EntryView;

    open spec fn view(&self) -> EntryView {
        EntryView { schema: self.schema@, name: self.name@, ty: self.ty@ }
    }
}

/// The wire OID of `bool`.
pub const BOOL: u32 = 16;

/// The wire OID of `bytea`.
pub const BYTEA: u32 = 17;

/// The wire OID of `"char"`.
pub const CHAR: u32 = 18;

/// The wire OID of `int8`.
pub const INT8: u32 = 20;

/// The wire OID of `int2`.
pub const INT2: u32 = 21;

/// The wire OID of `int4`.
pub const INT4: u32 = 23;

/// The wire OID of `text`.
pub const TEXT: u32 = 25;

/// The wire OID of `json`.
pub const JSON: u32 = 114;

/// The wire OID of `float4`.
pub const FLOAT4: u32 = 700;

/// The wire OID of `float8`.
pub const FLOAT8: u32 = 701;

/// The wire OID of `macaddr`.
pub const MACADDR: u32 = 829;

/// The wire OID of `inet`.
pub const INET: u32 = 869;

/// The wire OID of `varchar`.
pub const VARCHAR: u32 = 1043;

/// The wire OID of `date`.
pub const DATE: u32 = 1082;

/// The wire OID of `time`.
pub const TIME: u32 = 1083;

/// The wire OID of `timestamp`.
pub const TIMESTAMP: u32 = 1114;

/// The wire OID of `timestamptz`.
pub const TIMESTAMPTZ: u32 = 1184;

/// The wire OID of `uuid`.
pub const UUID: u32 = 2950;

/// The wire OID of `jsonb`.
pub const JSONB: u32 = 3802;

/// Whether the values of a built-in scalar are plain copies; `None` for a
/// scalar outside the supported set.
pub open spec fn scalar_is_copy(oid: u32) -> Option<bool> {
    if oid == BOOL || oid == CHAR || oid == INT2 || oid == INT4 || oid == INT8 || oid == FLOAT4
        || oid == FLOAT8 || oid == TIMESTAMP || oid == TIMESTAMPTZ || oid == DATE || oid == TIME
        || oid == UUID || oid == INET || oid == MACADDR {
        Some(true)
    } else if oid == TEXT || oid == VARCHAR || oid == BYTEA || oid == JSON || oid == JSONB {
        Some(false)
    } else {
        None
    }
}

/// Text and varchar: the scalars that have a borrowed form though they are no
/// plain copies.
pub open spec fn scalar_is_string(oid: u32) -> bool {
    oid == TEXT || oid == VARCHAR
}

/// The position of the entry registered under `(schema, name)`, if there is one.
pub open spec fn find(table: Seq<EntryView>, schema: Seq<char>, name: Seq<char>) -> Option<int>
    decreases table.len(),
{
    if table.len() == 0 {
        None
    } else {
        match find(table.drop_last(), schema, name) {
            Some(i) => Some(i),
            None => if table.last().schema == schema && table.last().name == name {
                Some(table.len() - 1)
            } else {
                None
            },
        }
    }
}

/// Whether values of the type at position `index` are plain copies: a domain
/// is what its base is, an array never is.
pub open spec fn is_copy_at(table: Seq<EntryView>, index: int) -> bool
    decreases index,
{
    if 0 <= index < table.len() {
        match table[index].ty {
            TypeView::Simple { is_copy, .. } => is_copy,
            TypeView::Array { .. } => false,
            TypeView::Domain { inner } => 0 <= inner < index && is_copy_at(table, inner),
            TypeView::Custom { is_copy, .. } => is_copy,
        }
    } else {
        false
    }
}

/// Whether the type at position `index` can stand in a composite that is
/// passed as a parameter: copies, strings, and custom types that can
/// themselves; a domain is what its base is.
pub open spec fn is_params_at(table: Seq<EntryView>, index: int) -> bool
    decreases index,
{
    if 0 <= index < table.len() {
        match table[index].ty {
            TypeView::Simple { oid, is_copy, .. } => is_copy || scalar_is_string(oid),
            TypeView::Array { .. } => false,
            TypeView::Domain { inner } => 0 <= inner < index && is_params_at(table, inner),
            TypeView::Custom { is_params, .. } => is_params,
        }
    } else {
        false
    }
}

/// The kinds of database type that cannot be registered.
#[derive(Clone, Copy, Debug, PartialEq, Eq, Structural)]
pub enum UnsupportedKind {
    /// A built-in scalar outside the supported set.
    Scalar,
    /// A pseudo type.
    Pseudo,
    /// A range type.
    Range,
    /// A multirange type.
    Multirange,
}

/// Why registration failed.
#[derive(Debug)]
pub enum Error {
    UnsupportedPostgresType { schema: String, name: String, kind: UnsupportedKind },
}

/// Mathematical model of an [`Error`].
pub struct ErrorView {
    pub schema: Seq<char>,
    pub name: Seq<char>,
    pub kind: UnsupportedKind,
}

impl View for Error {
    type V = ErrorView;

    open spec fn view(&self) -> ErrorView {
        match *self {
            Error::UnsupportedPostgresType { schema, name, kind } => ErrorView {
                schema: schema@,
                name: name@,
                kind,
            },
        }
    }
}

/// Puts `ty` under `(schema, name)` at the end of the table, unless the key
/// is taken; gives the table and the position of the key.
pub open spec fn intern(table: Seq<EntryView>, schema: Seq<char>, name: Seq<char>, ty: TypeView) -> (
    Seq<EntryView>,
    int,
) {
    match find(table, schema, name) {
        Some(i) => (table, i),
        None => (table.push(EntryView { schema, name, ty }), table.len() as int),
    }
}

/// The table after registering `ty`, and the position of `ty` or the reason
/// why it has none. A type whose key is in the table is left alone. Otherwise what
/// it is built from is registered first, depth first and in declaration
/// order, and then the type itself; what was registered before a failure
/// stays.
pub open spec fn register_spec(table: Seq<EntryView>, ty: PgTypeView) -> (
    Seq<EntryView>,
    Result<int, ErrorView>,
)
    decreases ty, 0nat,
{
    match find(table, ty.schema, ty.name) {
        Some(i) => (table, Ok(i)),
        None => match ty.kind {
            PgKindView::Simple => match scalar_is_copy(ty.oid) {
                Some(is_copy) => {
                    let done = intern(
                        table,
                        ty.schema,
                        ty.name,
                        TypeView::Simple { name: ty.name, oid: ty.oid, is_copy },
                    );
                    (done.0, Ok(done.1))
                },
                None => (table, Err(unsupported(ty, UnsupportedKind::Scalar))),
            },
            PgKindView::Pseudo => (table, Err(unsupported(ty, UnsupportedKind::Pseudo))),
            PgKindView::Range(_) => (table, Err(unsupported(ty, UnsupportedKind::Range))),
            PgKindView::Multirange(_) => (
                table,
                Err(unsupported(ty, UnsupportedKind::Multirange)),
            ),
            PgKindView::Enum(_) => {
                let done = intern(table, ty.schema, ty.name, custom(ty, true, true));
                (done.0, Ok(done.1))
            },
            PgKindView::Array(element) => {
                let below = register_spec(table, *element);
                match below.1 {
                    Err(e) => (below.0, Err(e)),
                    Ok(inner) => {
                        let done = intern(below.0, ty.schema, ty.name, TypeView::Array { inner });
                        (done.0, Ok(done.1))
                    },
                }
            },
            PgKindView::Domain(base) => {
                let below = register_spec(table, *base);
                match below.1 {
                    Err(e) => (below.0, Err(e)),
                    Ok(inner) => {
                        let done = intern(below.0, ty.schema, ty.name, TypeView::Domain { inner });
                        (done.0, Ok(done.1))
                    },
                }
            },
            PgKindView::Composite(fields) => {
                let below = register_fields(table, fields, fields.len());
                match below.1 {
                    Err(e) => (below.0, Err(e)),
                    Ok(flags) => {
                        let done = intern(
                            below.0,
                            ty.schema,
                            ty.name,
                            custom(ty, flags.0, flags.1),
                        );
                        (done.0, Ok(done.1))
                    },
                }
            },
        },
    }
}

/// The table after registering the types of the first `n` fields in order,
/// and whether all of them are copies and whether all of them can stand in a
/// parameter; or the first failure.
pub open spec fn register_fields(table: Seq<EntryView>, fields: Seq<PgFieldView>, n: nat) -> (
    Seq<EntryView>,
    Result<(bool, bool), ErrorView>,
)
    decreases fields, n,
{
    if n == 0 || n > fields.len() {
        (table, Ok((true, true)))
    } else {
        let before = register_fields(table, fields, (n - 1) as nat);
        match before.1 {
            Err(e) => (before.0, Err(e)),
            Ok(flags) => {
                let this = register_spec(before.0, fields[n - 1].ty);
                match this.1 {
                    Err(e) => (this.0, Err(e)),
                    Ok(h) => (
                        this.0,
                        Ok((flags.0 && is_copy_at(this.0, h), flags.1 && is_params_at(this.0, h))),
                    ),
                }
            },
        }
    }
}

/// The failure that names `ty`.
pub open spec fn unsupported(ty: PgTypeView, kind: UnsupportedKind) -> ErrorView {
    ErrorView { schema: ty.schema, name: ty.name, kind }
}

/// The entry of a user-defined type.
pub open spec fn custom(ty: PgTypeView, is_copy: bool, is_params: bool) -> TypeView {
    TypeView::Custom { pg_ty: ty, struct_name: upper_camel_case(ty.name), is_copy, is_params }
}

/// The word for a kind that is refused.
pub open spec fn kind_text(kind: UnsupportedKind) -> Seq<char> {
    match kind {
        UnsupportedKind::Scalar => "scalar"@,
        UnsupportedKind::Pseudo => "pseudo type"@,
        UnsupportedKind::Range => "range"@,
        UnsupportedKind::Multirange => "multirange"@,
    }
}

/// The text of a refusal.
pub open spec fn message_of(error: ErrorView) -> Seq<char> {
    "Couldn't register SQL type `"@ + error.schema + "."@ + error.name + "`: unsupported "@
        + kind_text(error.kind)
}

impl Error {
    /// The diagnostic as text.
    pub fn message(&self) -> (r: String)
        ensures
            r@ == message_of(self@),
    {
        match self {
            Error::UnsupportedPostgresType { schema, name, kind } => {
                let mut text = "Couldn't register SQL type `".to_owned();
                text.append(schema.as_str());
                text.append(".");
                text.append(name.as_str());
                text.append("`: unsupported ");
                match kind {
                    UnsupportedKind::Scalar => text.append("scalar"),
                    UnsupportedKind::Pseudo => text.append("pseudo type"),
                    UnsupportedKind::Range => text.append("range"),
                    UnsupportedKind::Multirange => text.append("multirange"),
                }
                text
            },
        }
    }
}

/// The position of the type of `field` in the table; meaningful where the
/// type is registered.
pub open spec fn field_index(table: Seq<EntryView>, field: PgFieldView) -> int {
    find(table, field.ty.schema, field.ty.name).unwrap()
}

/// The types of the first `n` fields are registered.
pub open spec fn fields_registered(table: Seq<EntryView>, fields: Seq<PgFieldView>, n: int) -> bool {
    forall|k: int|
        0 <= k < n ==> (#[trigger] find(table, fields[k].ty.schema, fields[k].ty.name)).is_some()
}

/// The types of the first `n` fields are all copies.
pub open spec fn all_copy(table: Seq<EntryView>, fields: Seq<PgFieldView>, n: int) -> bool {
    forall|k: int| 0 <= k < n ==> is_copy_at(table, #[trigger] field_index(table, fields[k]))
}

/// The types of the first `n` fields can all stand in a parameter.
pub open spec fn all_params(table: Seq<EntryView>, fields: Seq<PgFieldView>, n: int) -> bool {
    forall|k: int| 0 <= k < n ==> is_params_at(table, #[trigger] field_index(table, fields[k]))
}

/// What holds of the entry at position `i` of a well-formed table.
pub open spec fn entry_wf(table: Seq<EntryView>, i: int) -> bool {
    let entry = table[i];
    &&& find(table, entry.schema, entry.name) == Some(i)
    &&& match entry.ty {
        TypeView::Simple { .. } => true,
        TypeView::Array { inner } => 0 <= inner < i,
        TypeView::Domain { inner } => 0 <= inner < i,
        TypeView::Custom { pg_ty, is_copy, is_params, .. } => {
            &&& pg_ty.schema == entry.schema
            &&& pg_ty.name == entry.name
            &&& match pg_ty.kind {
                PgKindView::Enum(_) => is_copy && is_params,
                PgKindView::Domain(base) => {
                    &&& find(table.take(i), base.schema, base.name) matches Some(at)
                    &&& is_copy == is_copy_at(table.take(i), at)
                    &&& is_params == is_params_at(table.take(i), at)
                },
                PgKindView::Composite(fields) => {
                    &&& fields_registered(table.take(i), fields, fields.len() as int)
                    &&& is_copy == all_copy(table.take(i), fields, fields.len() as int)
                    &&& is_params == all_params(table.take(i), fields, fields.len() as int)
                },
                _ => false,
            }
        },
    }
}

/// A well-formed table: no key occurs twice; an array or a domain refers to an
/// earlier entry; a user-defined type is an enumeration, a domain or a
/// composite whose parts were registered before it; an enumeration is a copy
/// and can stand in a parameter; a user-defined type over a domain is what
/// its base is; a composite is a copy exactly if all of its fields are, and
/// can stand in a parameter exactly if all of them can.
pub open spec fn table_wf(table: Seq<EntryView>) -> bool {
    forall|i: int| 0 <= i < table.len() ==> #[trigger] entry_wf(table, i)
}

/// The entry at position `j` is registered under `(schema, name)`.
pub open spec fn has_key(table: Seq<EntryView>, j: int, schema: Seq<char>, name: Seq<char>) -> bool {
    table[j].schema == schema && table[j].name == name
}

/// `find` gives the first position that holds the key, and `None` only if no
/// position does.
pub proof fn lemma_find(table: Seq<EntryView>, schema: Seq<char>, name: Seq<char>)
    ensures
        match find(table, schema, name) {
            Some(i) => {
                &&& 0 <= i < table.len()
                &&& has_key(table, i, schema, name)
                &&& forall|j: int| 0 <= j < i ==> !#[trigger] has_key(table, j, schema, name)
            },
            None => forall|j: int|
                0 <= j < table.len() ==> !#[trigger] has_key(table, j, schema, name),
        },
    decreases table.len(),
{
    if table.len() > 0 {
        let front = table.drop_last();
        lemma_find(front, schema, name);
        assert forall|j: int| 0 <= j < front.len() implies has_key(table, j, schema, name)
            == has_key(front, j, schema, name) by {}
        match find(front, schema, name) {
            Some(i) => {
                assert(has_key(front, i, schema, name));
                assert forall|j: int| 0 <= j < i implies !#[trigger] has_key(
                    table,
                    j,
                    schema,
                    name,
                ) by {
                    assert(!has_key(front, j, schema, name));
                }
            },
            None => {
                assert forall|j: int| 0 <= j < front.len() implies !#[trigger] has_key(
                    table,
                    j,
                    schema,
                    name,
                ) by {
                    assert(!has_key(front, j, schema, name));
                }
            },
        }
    }
}

/// The first position that holds a key is what `find` gives.
pub proof fn lemma_find_first(table: Seq<EntryView>, schema: Seq<char>, name: Seq<char>, i: int)
    requires
        0 <= i < table.len(),
        has_key(table, i, schema, name),
        forall|j: int| 0 <= j < i ==> !#[trigger] has_key(table, j, schema, name),
    ensures
        find(table, schema, name) == Some(i),
{
    lemma_find(table, schema, name);
    match find(table, schema, name) {
        Some(k) => {
            if k < i {
                assert(!has_key(table, k, schema, name));
            }
            if i < k {
                assert(!has_key(table, i, schema, name));
            }
        },
        None => {
            assert(!has_key(table, i, schema, name));
        },
    }
}

/// A new key goes to the end of the table.
pub proof fn lemma_find_push(table: Seq<EntryView>, entry: EntryView)
    requires
        find(table, entry.schema, entry.name).is_none(),
    ensures
        find(table.push(entry), entry.schema, entry.name) == Some(table.len() as int),
{
    assert(table.push(entry).drop_last() =~= table);
}

/// A key that is found keeps its position when the table grows.
pub proof fn lemma_find_extend(
    table: Seq<EntryView>,
    longer: Seq<EntryView>,
    schema: Seq<char>,
    name: Seq<char>,
)
    requires
        table.is_prefix_of(longer),
        find(table, schema, name).is_some(),
    ensures
        find(longer, schema, name) == find(table, schema, name),
{
    lemma_find(table, schema, name);
    let i = find(table, schema, name).unwrap();
    assert(has_key(longer, i, schema, name));
    assert forall|j: int| 0 <= j < i implies !#[trigger] has_key(longer, j, schema, name) by {
        assert(!has_key(table, j, schema, name));
    }
    lemma_find_first(longer, schema, name, i);
}

/// A key found in the first `n` entries is found in the table, where it was.
pub proof fn lemma_find_take(table: Seq<EntryView>, n: int, schema: Seq<char>, name: Seq<char>)
    requires
        0 <= n <= table.len(),
    ensures
        find(table.take(n), schema, name).is_some() ==> find(table, schema, name) == find(
            table.take(n),
            schema,
            name,
        ),
        find(table.take(n), schema, name) matches Some(i) ==> i < n,
{
    lemma_find(table.take(n), schema, name);
    if find(table.take(n), schema, name).is_some() {
        lemma_find_extend(table.take(n), table, schema, name);
    }
}

/// Whether an entry is a copy, and whether it can stand in a parameter, does
/// not change when the table grows.
pub proof fn lemma_flags_extend(table: Seq<EntryView>, longer: Seq<EntryView>, index: int)
    requires
        table.is_prefix_of(longer),
        0 <= index < table.len(),
    ensures
        is_copy_at(longer, index) == is_copy_at(table, index),
        is_params_at(longer, index) == is_params_at(table, index),
    decreases index,
{
    match table[index].ty {
        TypeView::Domain { inner } => {
            if 0 <= inner < index {
                lemma_flags_extend(table, longer, inner);
            }
        },
        _ => {},
    }
}

/// Whether the types of fields are registered, are all copies, and can all
/// stand in a parameter does not change when the table grows.
pub proof fn lemma_fields_extend(
    table: Seq<EntryView>,
    longer: Seq<EntryView>,
    fields: Seq<PgFieldView>,
    n: int,
)
    requires
        table.is_prefix_of(longer),
        fields_registered(table, fields, n),
    ensures
        fields_registered(longer, fields, n),
        all_copy(longer, fields, n) == all_copy(table, fields, n),
        all_params(longer, fields, n) == all_params(table, fields, n),
{
    assert forall|k: int| 0 <= k < n implies {
        &&& (#[trigger] find(longer, fields[k].ty.schema, fields[k].ty.name)).is_some()
        &&& field_index(longer, fields[k]) == field_index(table, fields[k])
        &&& is_copy_at(longer, field_index(longer, fields[k])) == is_copy_at(
            table,
            field_index(table, fields[k]),
        )
        &&& is_params_at(longer, field_index(longer, fields[k])) == is_params_at(
            table,
            field_index(table, fields[k]),
        )
    } by {
        assert(find(table, fields[k].ty.schema, fields[k].ty.name).is_some());
        lemma_find(table, fields[k].ty.schema, fields[k].ty.name);
        lemma_find_extend(table, longer, fields[k].ty.schema, fields[k].ty.name);
        lemma_flags_extend(table, longer, field_index(table, fields[k]));
    }
    if all_copy(table, fields, n) {
        assert forall|k: int| 0 <= k < n implies is_copy_at(
            longer,
            #[trigger] field_index(longer, fields[k]),
        ) by {
            assert(find(longer, fields[k].ty.schema, fields[k].ty.name).is_some());
            assert(is_copy_at(table, field_index(table, fields[k])));
        }
    }
    if all_copy(longer, fields, n) {
        assert forall|k: int| 0 <= k < n implies is_copy_at(
            table,
            #[trigger] field_index(table, fields[k]),
        ) by {
            assert(find(longer, fields[k].ty.schema, fields[k].ty.name).is_some());
            assert(is_copy_at(longer, field_index(longer, fields[k])));
        }
    }
    if all_params(table, fields, n) {
        assert forall|k: int| 0 <= k < n implies is_params_at(
            longer,
            #[trigger] field_index(longer, fields[k]),
        ) by {
            assert(find(longer, fields[k].ty.schema, fields[k].ty.name).is_some());
            assert(is_params_at(table, field_index(table, fields[k])));
        }
    }
    if all_params(longer, fields, n) {
        assert forall|k: int| 0 <= k < n implies is_params_at(
            table,
            #[trigger] field_index(table, fields[k]),
        ) by {
            assert(find(longer, fields[k].ty.schema, fields[k].ty.name).is_some());
            assert(is_params_at(longer, field_index(longer, fields[k])));
        }
    }
}

/// The entries of a well-formed table stay well formed when the table grows.
proof fn lemma_entry_extend(table: Seq<EntryView>, longer: Seq<EntryView>, i: int)
    requires
        table.is_prefix_of(longer),
        0 <= i < table.len(),
        entry_wf(table, i),
    ensures
        entry_wf(longer, i),
{
    lemma_find_extend(table, longer, table[i].schema, table[i].name);
    assert(longer.take(i) =~= table.take(i));
}

/// Adding an entry under a new key keeps a table well formed if the entry
/// itself is in order.
proof fn lemma_push_wf(table: Seq<EntryView>, entry: EntryView)
    requires
        table_wf(table),
        find(table, entry.schema, entry.name).is_none(),
        entry_wf(table.push(entry), table.len() as int) || {
            &&& !(entry.ty is Custom)
            &&& entry.ty matches TypeView::Array { inner } ==> 0 <= inner < table.len()
            &&& entry.ty matches TypeView::Domain { inner } ==> 0 <= inner < table.len()
        },
    ensures
        table_wf(table.push(entry)),
{
    let longer = table.push(entry);
    lemma_find_push(table, entry);
    assert forall|i: int| 0 <= i < longer.len() implies #[trigger] entry_wf(longer, i) by {
        if i < table.len() {
            assert(entry_wf(table, i));
            lemma_entry_extend(table, longer, i);
        }
    }
}

/// Registration only adds to the table, keeps it well formed, and on success
/// leaves the type registered at the position it reports.
pub proof fn lemma_register(table: Seq<EntryView>, ty: PgTypeView)
    requires
        table_wf(table),
    ensures
        table.is_prefix_of(register_spec(table, ty).0),
        table_wf(register_spec(table, ty).0),
        register_spec(table, ty).1 matches Ok(h) ==> find(
            register_spec(table, ty).0,
            ty.schema,
            ty.name,
        ) == Some(h),
    decreases ty, 0nat,
{
    lemma_find(table, ty.schema, ty.name);
    if find(table, ty.schema, ty.name).is_none() {
        match ty.kind {
            PgKindView::Simple => {
                if let Some(is_copy) = scalar_is_copy(ty.oid) {
                    lemma_intern(
                        table,
                        ty.schema,
                        ty.name,
                        TypeView::Simple { name: ty.name, oid: ty.oid, is_copy },
                    );
                }
            },
            PgKindView::Pseudo => {},
            PgKindView::Range(_) => {},
            PgKindView::Multirange(_) => {},
            PgKindView::Enum(_) => {
                let entry = EntryView { schema: ty.schema, name: ty.name, ty: custom(ty, true, true) };
                lemma_find_push(table, entry);
                lemma_intern(table, ty.schema, ty.name, custom(ty, true, true));
            },
            PgKindView::Array(element) => {
                lemma_register(table, *element);
                let below = register_spec(table, *element);
                if let Ok(inner) = below.1 {
                    lemma_find(below.0, element.schema, element.name);
                    lemma_intern(below.0, ty.schema, ty.name, TypeView::Array { inner });
                }
            },
            PgKindView::Domain(base) => {
                lemma_register(table, *base);
                let below = register_spec(table, *base);
                if let Ok(inner) = below.1 {
                    lemma_find(below.0, base.schema, base.name);
                    lemma_intern(below.0, ty.schema, ty.name, TypeView::Domain { inner });
                }
            },
            PgKindView::Composite(fields) => {
                lemma_register_fields(table, fields, fields.len());
                let below = register_fields(table, fields, fields.len());
                if let Ok(flags) = below.1 {
                    let middle = below.0;
                    let entry = EntryView {
                        schema: ty.schema,
                        name: ty.name,
                        ty: custom(ty, flags.0, flags.1),
                    };
                    if find(middle, ty.schema, ty.name).is_none() {
                        let longer = middle.push(entry);
                        assert(longer.take(middle.len() as int) =~= middle);
                        lemma_find_push(middle, entry);
                    }
                    lemma_intern(middle, ty.schema, ty.name, custom(ty, flags.0, flags.1));
                }
            },
        }
    }
}

/// What `lemma_register` says, for the fields of a composite.
pub proof fn lemma_register_fields(table: Seq<EntryView>, fields: Seq<PgFieldView>, n: nat)
    requires
        table_wf(table),
        n <= fields.len(),
    ensures
        table.is_prefix_of(register_fields(table, fields, n).0),
        table_wf(register_fields(table, fields, n).0),
        register_fields(table, fields, n).1 matches Ok(flags) ==> {
            &&& fields_registered(register_fields(table, fields, n).0, fields, n as int)
            &&& flags.0 == all_copy(register_fields(table, fields, n).0, fields, n as int)
            &&& flags.1 == all_params(register_fields(table, fields, n).0, fields, n as int)
        },
    decreases fields, n,
{
    if n > 0 {
        lemma_register_fields(table, fields, (n - 1) as nat);
        let before = register_fields(table, fields, (n - 1) as nat);
        if let Ok(flags) = before.1 {
            lemma_register(before.0, fields[n - 1].ty);
            let this = register_spec(before.0, fields[n - 1].ty);
            if let Ok(h) = this.1 {
                lemma_fields_extend(before.0, this.0, fields, n - 1);
                assert(field_index(this.0, fields[n - 1]) == h);
                assert(fields_registered(this.0, fields, n as int));
                if all_copy(this.0, fields, n - 1) && is_copy_at(this.0, h) {
                    assert(all_copy(this.0, fields, n as int));
                }
                if all_copy(this.0, fields, n as int) {
                    assert(is_copy_at(this.0, field_index(this.0, fields[n - 1])));
                    assert(all_copy(this.0, fields, n - 1));
                }
                if all_params(this.0, fields, n - 1) && is_params_at(this.0, h) {
                    assert(all_params(this.0, fields, n as int));
                }
                if all_params(this.0, fields, n as int) {
                    assert(is_params_at(this.0, field_index(this.0, fields[n - 1])));
                    assert(all_params(this.0, fields, n - 1));
                }
            }
        }
    }
}

/// Interning an entry that is in order keeps the table well formed and leaves
/// the key at the position reported.
proof fn lemma_intern(table: Seq<EntryView>, schema: Seq<char>, name: Seq<char>, ty: TypeView)
    requires
        table_wf(table),
        find(table, schema, name).is_none() ==> {
            ||| entry_wf(table.push(EntryView { schema, name, ty }), table.len() as int)
            ||| {
                &&& !(ty is Custom)
                &&& ty matches TypeView::Array { inner } ==> 0 <= inner < table.len()
                &&& ty matches TypeView::Domain { inner } ==> 0 <= inner < table.len()
            }
        },
    ensures
        table.is_prefix_of(intern(table, schema, name, ty).0),
        table_wf(intern(table, schema, name, ty).0),
        find(intern(table, schema, name, ty).0, schema, name) == Some(
            intern(table, schema, name, ty).1,
        ),
{
    if find(table, schema, name).is_none() {
        let entry = EntryView { schema, name, ty };
        lemma_find_push(table, entry);
        lemma_push_wf(table, entry);
    }
}

/// Once the fields have failed, they fail the same way however many of them
/// are counted.
proof fn lemma_fields_failure_stays(
    table: Seq<EntryView>,
    fields: Seq<PgFieldView>,
    k: nat,
    n: nat,
)
    requires
        k <= n <= fields.len(),
        register_fields(table, fields, k).1 is Err,
    ensures
        register_fields(table, fields, n) == register_fields(table, fields, k),
    decreases n - k,
{
    if k < n {
        lemma_fields_failure_stays(table, fields, k, (n - 1) as nat);
    }
}

/// The table of all types registered so far, in registration order.
#[derive(Debug)]
pub struct TypeRegistrar {
    pub types: Vec<RegisteredType>,
}

impl View for TypeRegistrar {
    type V = Seq<EntryView>;

    open spec fn view(&self) -> Seq<EntryView> {
        self.types@.map_values(|entry: RegisteredType| entry@)
    }
}

/// Decides `scalar_is_copy`.
pub fn scalar_copy(oid: u32) -> (r: Option<bool>)
    ensures
        r == scalar_is_copy(oid),
{
    if oid == BOOL || oid == CHAR || oid == INT2 || oid == INT4 || oid == INT8 || oid == FLOAT4
        || oid == FLOAT8 || oid == TIMESTAMP || oid == TIMESTAMPTZ || oid == DATE || oid == TIME
        || oid == UUID || oid == INET || oid == MACADDR {
        Some(true)
    } else if oid == TEXT || oid == VARCHAR || oid == BYTEA || oid == JSON || oid == JSONB {
        Some(false)
    } else {
        None
    }
}

impl Default for TypeRegistrar {
    fn default() -> (r: Self)
        ensures
            r@ == Seq::<EntryView>::empty(),
            r.wf(),
    {
        TypeRegistrar::new()
    }
}

impl TypeRegistrar {
    /// The table is well formed (see [`table_wf`]).
    pub open spec fn wf(&self) -> bool {
        table_wf(self@)
    }

    /// A registrar that knows no type yet.
    pub fn new() -> (r: Self)
        ensures
            r@ == Seq::<EntryView>::empty(),
            r.wf(),
    {
        let r = TypeRegistrar { types: Vec::new() };
        assert(r@ =~= Seq::<EntryView>::empty());
        r
    }

    /// The number of registered types.
    pub fn len(&self) -> (r: usize)
        ensures
            r == self@.len(),
    {
        self.types.len()
    }

    /// The entry that a handle stands for.
    pub fn get(&self, handle: TypeHandle) -> (r: &RegisteredType)
        requires
            handle.index < self@.len(),
        ensures
            r@ == self@[handle.index as int],
    {
        &self.types[handle.index]
    }

    /// The handle of the type registered under `(schema, name)`.
    pub fn find(&self, schema: &String, name: &String) -> (r: Option<TypeHandle>)
        ensures
            match r {
                Some(h) => find(self@, schema@, name@) == Some(h.index as int),
                None => find(self@, schema@, name@).is_none(),
            },
    {
        let mut i: usize = 0;
        while i < self.types.len()
            invariant
                i <= self.types.len(),
                forall|j: int| 0 <= j < i ==> !#[trigger] has_key(self@, j, schema@, name@),
            decreases self.types.len() - i,
        {
            let entry = &self.types[i];
            if entry.schema == *schema && entry.name == *name {
                proof {
                    assert(has_key(self@, i as int, schema@, name@));
                    lemma_find_first(self@, schema@, name@, i as int);
                }
                return Some(TypeHandle { index: i });
            }
            assert(!has_key(self@, i as int, schema@, name@));
            i += 1;
        }
        proof {
            lemma_find(self@, schema@, name@);
            if let Some(k) = find(self@, schema@, name@) {
                assert(!has_key(self@, k, schema@, name@));
            }
        }
        None
    }

    /// The handle of a type that is registered.
    pub fn ref_of(&self, ty: &PgType) -> (r: TypeHandle)
        requires
            find(self@, ty@.schema, ty@.name).is_some(),
        ensures
            find(self@, ty@.schema, ty@.name) == Some(r.index as int),
    {
        match self.find(&ty.schema, &ty.name) {
            Some(h) => h,
            None => {
                proof {
                    assert(false);
                }
                TypeHandle { index: 0 }
            },
        }
    }

    /// Whether values of the type are plain copies.
    pub fn is_copy(&self, handle: TypeHandle) -> (r: bool)
        ensures
            r == is_copy_at(self@, handle.index as int),
        decreases handle.index,
    {
        if handle.index >= self.types.len() {
            return false;
        }
        match &self.types[handle.index].ty {
            CornucopiaType::Simple { is_copy, .. } => *is_copy,
            CornucopiaType::Array { .. } => false,
            CornucopiaType::Domain { inner } => inner.index < handle.index && self.is_copy(*inner),
            CornucopiaType::Custom { is_copy, .. } => *is_copy,
        }
    }

    /// Whether the type can stand in a composite that is passed as a parameter.
    pub fn is_params(&self, handle: TypeHandle) -> (r: bool)
        ensures
            r == is_params_at(self@, handle.index as int),
        decreases handle.index,
    {
        if handle.index >= self.types.len() {
            return false;
        }
        match &self.types[handle.index].ty {
            CornucopiaType::Simple { oid, is_copy, .. } => *is_copy || *oid == TEXT || *oid == VARCHAR,
            CornucopiaType::Array { .. } => false,
            CornucopiaType::Domain { inner } => inner.index < handle.index && self.is_params(
                *inner,
            ),
            CornucopiaType::Custom { is_params, .. } => *is_params,
        }
    }

    /// Puts `ty` under the key of `pg_ty` unless the key is taken, and gives
    /// the handle of the key.
    fn insert(&mut self, pg_ty: &PgType, ty: CornucopiaType) -> (r: TypeHandle)
        ensures
            (final(self)@, r.index as int) == intern(old(self)@, pg_ty@.schema, pg_ty@.name, ty@),
    {
        match self.find(&pg_ty.schema, &pg_ty.name) {
            Some(h) => h,
            None => {
                let index = self.types.len();
                let entry = RegisteredType {
                    schema: pg_ty.schema.clone(),
                    name: pg_ty.name.clone(),
                    ty,
                };
                self.types.push(entry);
                assert(self@ =~= old(self)@.push(entry@));
                TypeHandle { index }
            },
        }
    }

    /// Registers a type and everything it is built from, and gives its
    /// handle. A type that is registered already keeps its handle and the
    /// table stays as it is. A range, a multirange, a pseudo type, or a
    /// built-in scalar outside the supported set is refused, wherever below
    /// `ty` it stands;
    /// what was registered before it stays.
    pub fn register(&mut self, ty: &PgType) -> (r: Result<TypeHandle, Error>)
        ensures
            final(self)@ == register_spec(old(self)@, ty@).0,
            match r {
                Ok(h) => register_spec(old(self)@, ty@).1 == Ok::<int, ErrorView>(h.index as int),
                Err(e) => register_spec(old(self)@, ty@).1 == Err::<int, ErrorView>(e@),
            },
            old(self).wf() ==> final(self).wf(),
            old(self)@.is_prefix_of(final(self)@),
        decreases ty,
    {
        proof {
            if old(self).wf() {
                lemma_register(old(self)@, ty@);
            }
            lemma_register_grows(old(self)@, ty@);
        }
        if let Some(h) = self.find(&ty.schema, &ty.name) {
            return Ok(h);
        }
        match &ty.kind {
            PgKind::Simple => match scalar_copy(ty.oid) {
                Some(is_copy) => {
                    let entry = CornucopiaType::Simple { name: ty.name.clone(), oid: ty.oid, is_copy };
                    Ok(self.insert(ty, entry))
                },
                None => Err(refuse(ty, UnsupportedKind::Scalar)),
            },
            PgKind::Pseudo => Err(refuse(ty, UnsupportedKind::Pseudo)),
            PgKind::Range(_) => Err(refuse(ty, UnsupportedKind::Range)),
            PgKind::Multirange(_) => Err(refuse(ty, UnsupportedKind::Multirange)),
            PgKind::Enum(_) => {
                let entry = new_custom(ty, true, true);
                Ok(self.insert(ty, entry))
            },
            PgKind::Array(element) => {
                let inner = self.register(element)?;
                Ok(self.insert(ty, CornucopiaType::Array { inner }))
            },
            PgKind::Domain(base) => {
                let inner = self.register(base)?;
                Ok(self.insert(ty, CornucopiaType::Domain { inner }))
            },
            PgKind::Composite(fields) => {
                let ghost start = self@;
                let ghost views = ty@.kind->Composite_0;
                let mut is_copy = true;
                let mut is_params = true;
                let mut i: usize = 0;
                while i < fields.len()
                    invariant
                        i <= fields.len(),
                        ty.kind is Composite,
                        ty.kind->Composite_0 == *fields,
                        views == ty@.kind->Composite_0,
                        views.len() == fields.len(),
                        start == old(self)@,
                        find(start, ty@.schema, ty@.name).is_none(),
                        old(self).wf() ==> table_wf(register_spec(start, ty@).0),
                        start.is_prefix_of(register_spec(start, ty@).0),
                        register_fields(start, views, i as nat) == (
                            self@,
                            Ok::<(bool, bool), ErrorView>((is_copy, is_params)),
                        ),
                    decreases fields.len() - i,
                {
                    proof {
                        vstd::std_specs::vec::axiom_vec_index_decreases(
                            ty.kind->Composite_0,
                            i as int,
                        );
                        assert(views[i as int].ty == fields[i as int].ty@);
                    }
                    match self.register(&fields[i].ty) {
                        Ok(h) => {
                            is_copy = is_copy && self.is_copy(h);
                            is_params = is_params && self.is_params(h);
                        },
                        Err(e) => {
                            proof {
                                assert(register_fields(start, views, (i + 1) as nat) == (
                                    self@,
                                    Err::<(bool, bool), ErrorView>(e@),
                                ));
                                lemma_fields_failure_stays(
                                    start,
                                    views,
                                    (i + 1) as nat,
                                    views.len(),
                                );
                            }
                            return Err(e);
                        },
                    }
                    i += 1;
                }
                let entry = new_custom(ty, is_copy, is_params);
                Ok(self.insert(ty, entry))
            },
        }
    }
}

/// Registration only ever adds to the table.
pub proof fn lemma_register_grows(table: Seq<EntryView>, ty: PgTypeView)
    ensures
        table.is_prefix_of(register_spec(table, ty).0),
    decreases ty, 0nat,
{
    if find(table, ty.schema, ty.name).is_none() {
        match ty.kind {
            PgKindView::Array(element) => {
                lemma_register_grows(table, *element);
            },
            PgKindView::Domain(base) => {
                lemma_register_grows(table, *base);
            },
            PgKindView::Composite(fields) => {
                lemma_register_fields_grow(table, fields, fields.len());
            },
            _ => {},
        }
    }
}

/// What `lemma_register_grows` says, for the fields of a composite.
pub proof fn lemma_register_fields_grow(table: Seq<EntryView>, fields: Seq<PgFieldView>, n: nat)
    requires
        n <= fields.len(),
    ensures
        table.is_prefix_of(register_fields(table, fields, n).0),
    decreases fields, n,
{
    if n > 0 {
        lemma_register_fields_grow(table, fields, (n - 1) as nat);
        let before = register_fields(table, fields, (n - 1) as nat);
        if before.1 is Ok {
            lemma_register_grows(before.0, fields[n - 1].ty);
        }
    }
}

/// The refusal that names `ty`.
fn refuse(ty: &PgType, kind: UnsupportedKind) -> (e: Error)
    ensures
        e@ == unsupported(ty@, kind),
{
    Error::UnsupportedPostgresType { schema: ty.schema.clone(), name: ty.name.clone(), kind }
}

/// The entry of a user-defined type: its description, and its name in upper
/// camel case for the definition that will be generated.
fn new_custom(ty: &PgType, is_copy: bool, is_params: bool) -> (r: CornucopiaType)
    ensures
        r@ == custom(ty@, is_copy, is_params),
{
    CornucopiaType::Custom {
        pg_ty: ty.deep_clone(),
        struct_name: to_upper_camel_case(ty.name.as_str()),
        is_copy,
        is_params,
    }
}

} // verus!
