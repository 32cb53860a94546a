//! What a coordinator's replies give: the rows of a query, the fields of a table, and the columns
//! and record batches of a result.

use crate::cells::{
    is_first_member, lemma_fields_follow_the_columns, lemma_members_are_found_by_name,
};
use crate::json::{value_member, JsonView};
use crate::number::integer_text;
use crate::rows::conversion;
use crate::schema::{trino_type, TypeReading};
use crate::trinoconn::{
    array_rows, chunk, chunks, column_reading, is_http_url, is_success, leaves_out,
    lemma_type_names_read_back, page_rows, page_state, page_step, query_run, table_of,
    table_reading, trino_name, wanted_columns, ErrorView, PageStep, QueryRun, TableReading,
    UnsupportedTypeAction,
};
use crate::types::{FieldView, TimeUnit, TypeView};
use vstd::prelude::*;

verus! {

/// Only an object has members: the first with a name is the one that has it.
pub proof fn lemma_values_have_members(
    v: JsonView,
    members: Seq<(Seq<char>, JsonView)>,
    name: Seq<char>,
    k: int,
)
    ensures
        v !is Object ==> value_member(v, name) is None,
        is_first_member(members, name, k) ==> value_member(JsonView::Object(members), name) == Some(
            members[k].1,
        ),
        (forall|l: int| 0 <= l < members.len() ==> (#[trigger] members[l]).0 != name)
            ==> value_member(JsonView::Object(members), name) is None,
{
    lemma_members_are_found_by_name(members, name, k);
}

/// The rows of some items and of others behind them are the rows of the first and then the rows of
/// the others. One item that is an array is a row, with all its values; one that is none is no row.
pub proof fn lemma_rows_are_the_arrays(a: Seq<JsonView>, b: Seq<JsonView>, item: JsonView)
    ensures
        array_rows(seq![]) == Seq::<Seq<JsonView>>::empty(),
        array_rows(a + b) == array_rows(a) + array_rows(b),
        item matches JsonView::Array(row) ==> array_rows(seq![item]) == seq![row],
        item !is Array ==> array_rows(seq![item]) == Seq::<Seq<JsonView>>::empty(),
    decreases b.len(),
{
    let one = seq![item];
    assert(one.drop_last() =~= seq![]);
    assert(array_rows(one.drop_last()) =~= Seq::<Seq<JsonView>>::empty());
    if item is Array {
        assert(array_rows(one) =~= seq![item->Array_0]);
    }
    if b.len() == 0 {
        assert(a + b =~= a);
        assert(array_rows(a) + array_rows(b) =~= array_rows(a));
    } else {
        assert((a + b).drop_last() =~= a + b.drop_last());
        lemma_rows_are_the_arrays(a, b.drop_last(), item);
        assert(array_rows(a + b) =~= array_rows(a) + array_rows(b));
    }
}

proof fn lemma_whole_rows(items: Seq<JsonView>)
    requires
        forall|j: int| 0 <= j < items.len() ==> (#[trigger] items[j]) is Array,
    ensures
        array_rows(items).len() == items.len(),
        forall|j: int|
            0 <= j < items.len() ==> items[j] == JsonView::Array(#[trigger] array_rows(items)[j]),
    decreases items.len(),
{
    if items.len() > 0 {
        let before = items.drop_last();
        assert forall|j: int| 0 <= j < before.len() implies (#[trigger] before[j]) is Array by {
            assert(before[j] == items[j]);
        }
        lemma_whole_rows(before);
        assert(items[items.len() - 1] is Array);
        assert forall|j: int| 0 <= j < items.len() implies items[j] == JsonView::Array(
            #[trigger] array_rows(items)[j],
        ) by {
            if j < before.len() {
                assert(array_rows(items)[j] == array_rows(before)[j]);
                assert(before[j] == items[j]);
            }
        }
    }
}

/// Where every item of a page's data is an array, the page has a row for each item, in their
/// order: the array itself, with every one of its values. A page whose data is no array, or that
/// has none, has no rows.
pub proof fn lemma_pages_have_whole_rows(page: JsonView)
    ensures
        match value_member(page, "data"@) {
            Some(JsonView::Array(items)) => (forall|j: int|
                0 <= j < items.len() ==> (#[trigger] items[j]) is Array) ==> {
                &&& page_rows(page).len() == items.len()
                &&& forall|j: int|
                    0 <= j < items.len() ==> items[j] == JsonView::Array(
                        #[trigger] page_rows(page)[j],
                    )
            },
            _ => page_rows(page).len() == 0,
        },
{
    match value_member(page, "data"@) {
        Some(JsonView::Array(items)) => {
            if forall|j: int| 0 <= j < items.len() ==> (#[trigger] items[j]) is Array {
                lemma_whole_rows(items);
            }
        },
        _ => {},
    }
}

/// Each row of a page is one of the arrays of its data, as it stands there.
pub proof fn lemma_every_row_is_an_array_of_the_page(items: Seq<JsonView>, k: int)
    requires
        0 <= k < array_rows(items).len(),
    ensures
        exists|j: int|
            k <= j < items.len() && (#[trigger] items[j]) == JsonView::Array(array_rows(items)[k]),
    decreases items.len(),
{
    if items.len() > 0 {
        let before = items.drop_last();
        if k < array_rows(before).len() {
            lemma_every_row_is_an_array_of_the_page(before, k);
            let j = choose|j: int|
                k <= j < before.len() && (#[trigger] before[j]) == JsonView::Array(
                    array_rows(before)[k],
                );
            assert(items[j] == before[j]);
        } else {
            lemma_rows_no_more(before);
            assert(items[items.len() - 1] == JsonView::Array(array_rows(items)[k]));
        }
    }
}

proof fn lemma_rows_no_more(items: Seq<JsonView>)
    ensures
        array_rows(items).len() <= items.len(),
    decreases items.len(),
{
    if items.len() > 0 {
        lemma_rows_no_more(items.drop_last());
    }
}

/// The state of a query is the text `state` of the object `stats` of a page. Without it there is
/// none.
pub proof fn lemma_states_are_read(page: JsonView, stats: JsonView, state: Seq<char>)
    ensures
        value_member(page, "stats"@) == Some(stats) && value_member(stats, "state"@) == Some(
            JsonView::Text(state),
        ) ==> page_state(page) == state,
        value_member(page, "stats"@) == Some(stats) && !(value_member(stats, "state"@) matches Some(
            JsonView::Text(_),
        )) ==> page_state(page).len() == 0,
        value_member(page, "stats"@) is None ==> page_state(page).len() == 0,
{
}

/// A query has finished with the page that says `FINISHED`, and only with that. It has failed with
/// a page that says `FAILED` or `CANCELED`, and with one that says anything else and names no next
/// page. After any other page the next one is at the URL that the page names, as it stands there.
pub proof fn lemma_pages_say_what_follows(page: JsonView)
    ensures
        page_state(page) == "FINISHED"@ <==> page_step(page) is Finished,
        page_state(page) == "FAILED"@ ==> page_step(page) == PageStep::Failed(
            ErrorView::TrinoServerError(500, "Query failed"@),
        ),
        page_state(page) == "CANCELED"@ ==> page_step(page) == PageStep::Failed(
            ErrorView::TrinoServerError(499, "Query was canceled"@),
        ),
        page_state(page) != "FINISHED"@ && page_state(page) != "FAILED"@ && page_state(page)
            != "CANCELED"@ ==> match value_member(page, "nextUri"@) {
            Some(JsonView::Text(uri)) => page_step(page) == PageStep::Poll(uri),
            _ => page_step(page) == PageStep::Failed(
                ErrorView::TrinoServerError(500, "Query stuck in state: "@ + page_state(page)),
            ),
        },
{
    reveal_strlit("FINISHED");
    reveal_strlit("FAILED");
    reveal_strlit("CANCELED");
    assert("FINISHED"@.len() == 8 && "FAILED"@.len() == 6 && "CANCELED"@.len() == 8);
    assert("FINISHED"@[0] == 'F' && "CANCELED"@[0] == 'C');
}

/// A query begins without rows. A page that asks for the next one, or that ends the query, puts its
/// rows behind those of the pages before it; a page that fails ends the query with its error. After
/// its end nothing changes.
pub proof fn lemma_pages_add_their_rows(pages: Seq<JsonView>, page: JsonView)
    ensures
        query_run(seq![]) == QueryRun::Open(seq![]),
        query_run(pages) matches QueryRun::Open(rows) ==> match page_step(page) {
            PageStep::Finished => query_run(pages.push(page)) == QueryRun::Finished(
                rows + page_rows(page),
            ),
            PageStep::Poll(_) => query_run(pages.push(page)) == QueryRun::Open(
                rows + page_rows(page),
            ),
            PageStep::Failed(e) => query_run(pages.push(page)) == QueryRun::Failed(e),
        },
        query_run(pages) !is Open ==> query_run(pages.push(page)) == query_run(pages),
{
    assert(pages.push(page).drop_last() =~= pages);
}

/// A query whose first page finishes it has just the rows of that page: as many as its data has
/// arrays, each with all its values.
pub proof fn lemma_one_page_is_a_result(page: JsonView, items: Seq<JsonView>)
    requires
        page_state(page) == "FINISHED"@,
        value_member(page, "data"@) == Some(JsonView::Array(items)),
        forall|j: int| 0 <= j < items.len() ==> (#[trigger] items[j]) is Array,
    ensures
        query_run(seq![page]) matches QueryRun::Finished(rows) && rows.len() == items.len()
            && forall|j: int|
            0 <= j < items.len() ==> items[j] == JsonView::Array(#[trigger] rows[j]),
{
    let none = Seq::<JsonView>::empty();
    assert(none.push(page) =~= seq![page]);
    lemma_pages_add_their_rows(none, page);
    lemma_pages_say_what_follows(page);
    lemma_pages_have_whole_rows(page);
    assert(Seq::<Seq<JsonView>>::empty() + page_rows(page) =~= page_rows(page));
}

/// The statuses from 200 to 299 tell of success.
pub proof fn lemma_statuses_of_success(status: u16)
    ensures
        is_success(status) <==> status / 100 == 2,
{
}

/// Columns whose types have no counterpart are left out where they are to be ignored or warned of,
/// and refused otherwise.
pub proof fn lemma_columns_left_out()
    ensures
        leaves_out(UnsupportedTypeAction::Ignore),
        leaves_out(UnsupportedTypeAction::Warn),
        !leaves_out(UnsupportedTypeAction::Error),
        !leaves_out(UnsupportedTypeAction::AsText),
{
}

/// A coordinator is reached by a URL that begins with `http://` or `https://`, and by no other.
pub proof fn lemma_urls_by_their_schemes(url: Seq<char>, rest: Seq<char>)
    ensures
        is_http_url("http://"@ + rest),
        is_http_url("https://"@ + rest),
        is_http_url(url) ==> url == "http://"@ + url.skip(7) || url == "https://"@ + url.skip(8),
{
    reveal_strlit("http://");
    reveal_strlit("https://");
    assert(("http://"@ + rest).subrange(0, 7) =~= "http://"@);
    assert(("https://"@ + rest).subrange(0, 8) =~= "https://"@);
    if "http://"@.is_prefix_of(url) {
        assert(url =~= "http://"@ + url.skip(7));
    } else if "https://"@.is_prefix_of(url) {
        assert(url =~= "https://"@ + url.skip(8));
    }
}

proof fn lemma_table_by_first_rows(
    a: Seq<Seq<JsonView>>,
    b: Seq<Seq<JsonView>>,
    action: UnsupportedTypeAction,
    k: nat,
)
    requires
        k <= a.len(),
        k <= b.len(),
        forall|j: int| 0 <= j < k ==> a[j] == b[j],
    ensures
        table_reading(a, action, k) == table_reading(b, action, k),
    decreases k,
{
    if k > 0 {
        lemma_table_by_first_rows(a, b, action, (k - 1) as nat);
        assert(a[k - 1] == b[k - 1]);
    }
}

/// Whether the `row` of a description names a column and its type, both as texts.
pub open spec fn describes(row: Seq<JsonView>, name: Seq<char>, named_type: Seq<char>) -> bool {
    row.len() >= 2 && row[0] == JsonView::Text(name) && row[1] == JsonView::Text(named_type)
}

/// One more row of a description adds one more field, where its first value is a name, and its
/// second is a type name that is supported: the field has that name and that type, and it takes
/// nulls unless the third value is the text `false`. A row of fewer than two values adds nothing.
/// A type that is not supported adds nothing where such columns are left out, and is refused
/// otherwise, with the names of the column and the type. A row whose first or second value is no
/// text is refused. The fields of the rows before stay as they are.
pub proof fn lemma_rows_describe_fields(
    rows: Seq<Seq<JsonView>>,
    row: Seq<JsonView>,
    action: UnsupportedTypeAction,
    name: Seq<char>,
    named_type: Seq<char>,
)
    ensures
        table_of(seq![], action) == TableReading::Fields(seq![]),
        table_of(rows, action) !is Fields ==> table_of(rows.push(row), action) == table_of(
            rows,
            action,
        ),
        table_of(rows, action) matches TableReading::Fields(before) ==> {
            let now = table_of(rows.push(row), action);
            &&& row.len() < 2 ==> now == TableReading::Fields(before)
            &&& row.len() >= 2 && row[0] !is Text ==> now == TableReading::Failed(
                ErrorView::MissingField("column_name"@),
            )
            &&& row.len() >= 2 && row[0] is Text && row[1] !is Text ==> now == TableReading::Failed(
                ErrorView::MissingField("data_type"@),
            )
            &&& describes(row, name, named_type) ==> match trino_type(named_type) {
                TypeReading::Type(t) => now matches TableReading::Fields(fields) && fields.len()
                    == before.len() + 1 && fields.drop_last() == before && fields.last().name
                    == name && fields.last().data_type == t && (fields.last().nullable
                    <==> row.len() == 2 || row[2] != JsonView::Text("false"@)),
                TypeReading::Unsupported(_) => now == (if action == UnsupportedTypeAction::Warn
                    || action == UnsupportedTypeAction::Ignore {
                    TableReading::Fields(before)
                } else {
                    TableReading::Failed(ErrorView::UnsupportedDataTypeError(name, named_type))
                }),
                TypeReading::Malformed => now is Malformed,
            }
        },
{
    let all = rows.push(row);
    lemma_table_by_first_rows(all, rows, action, rows.len());
    assert(all[rows.len() as int] == row);
    match table_of(rows, action) {
        TableReading::Fields(before) => {
            match column_reading(before, row, action) {
                TableReading::Fields(fields) => {
                    if describes(row, name, named_type) && trino_type(named_type) is Type {
                        assert(fields.drop_last() =~= before);
                    }
                },
                _ => {},
            }
        },
        _ => {},
    }
}

/// A description whose rows all name a column and a type that is supported gives a field for each
/// row, in their order, with that name and that type. A field takes nulls, unless its row has a
/// third value and that is the text `false`: with any other text, such as `true`, it takes them.
pub proof fn lemma_tables_have_the_described_fields(
    rows: Seq<Seq<JsonView>>,
    action: UnsupportedTypeAction,
)
    requires
        forall|j: int|
            0 <= j < rows.len() ==> (#[trigger] rows[j]).len() >= 2 && rows[j][0] is Text
                && rows[j][1] is Text && trino_type(rows[j][1]->Text_0) is Type,
    ensures
        table_of(rows, action) matches TableReading::Fields(fields) && fields.len() == rows.len()
            && forall|j: int|
            #![trigger fields[j]]
            0 <= j < rows.len() ==> {
                &&& rows[j][0] == JsonView::Text(fields[j].name)
                &&& trino_type(rows[j][1]->Text_0) == TypeReading::Type(fields[j].data_type)
                &&& rows[j].len() == 2 ==> fields[j].nullable
                &&& rows[j].len() > 2 ==> fields[j].nullable == (rows[j][2] != JsonView::Text(
                    "false"@,
                ))
            },
    decreases rows.len(),
{
    if rows.len() > 0 {
        let first = rows.drop_last();
        let row = rows.last();
        assert(first.push(row) =~= rows);
        assert forall|j: int| 0 <= j < first.len() implies (#[trigger] first[j]).len() >= 2
            && first[j][0] is Text && first[j][1] is Text && trino_type(
            first[j][1]->Text_0,
        ) is Type by {
            assert(first[j] == rows[j]);
        }
        assert(rows[rows.len() - 1].len() >= 2);
        lemma_tables_have_the_described_fields(first, action);
        lemma_rows_describe_fields(first, row, action, row[0]->Text_0, row[1]->Text_0);
        let before = table_of(first, action)->Fields_0;
        let fields = table_of(rows, action)->Fields_0;
        assert forall|j: int| #![trigger fields[j]] 0 <= j < rows.len() implies {
            &&& rows[j][0] == JsonView::Text(fields[j].name)
            &&& trino_type(rows[j][1]->Text_0) == TypeReading::Type(fields[j].data_type)
            &&& rows[j].len() == 2 ==> fields[j].nullable
            &&& rows[j].len() > 2 ==> fields[j].nullable == (rows[j][2] != JsonView::Text("false"@))
        } by {
            if j < first.len() {
                assert(fields.drop_last()[j] == fields[j]);
                assert(before[j] == fields[j]);
                assert(first[j] == rows[j]);
            }
        }
    }
}

/// The types are named as Trino names them. A decimal type is named with its precision and its
/// scale. Whatever has no name of its own is text.
pub proof fn lemma_types_have_their_names(precision: u8, scale: i8, zone: Seq<char>, t: TypeView)
    ensures
        trino_name(TypeView::Boolean) == "boolean"@,
        trino_name(TypeView::Int8) == "tinyint"@,
        trino_name(TypeView::Int16) == "smallint"@,
        trino_name(TypeView::Int32) == "integer"@,
        trino_name(TypeView::Int64) == "bigint"@,
        trino_name(TypeView::Float32) == "real"@,
        trino_name(TypeView::Float64) == "double"@,
        trino_name(TypeView::Utf8) == "varchar"@,
        trino_name(TypeView::LargeUtf8) == "varchar"@,
        trino_name(TypeView::Binary) == "varbinary"@,
        trino_name(TypeView::Date32) == "date"@,
        trino_name(TypeView::Time64(TimeUnit::Nanosecond)) == "time"@,
        trino_name(TypeView::Timestamp(TimeUnit::Microsecond, None)) == "timestamp"@,
        trino_name(TypeView::Timestamp(TimeUnit::Microsecond, Some(zone)))
            == "timestamp with time zone"@,
        trino_name(TypeView::Decimal128(precision, scale)) == "decimal("@ + integer_text(
            precision as int,
        ) + ","@ + integer_text(scale as int) + ")"@,
        trino_name(TypeView::Decimal256(precision, scale)) == "decimal("@ + integer_text(
            precision as int,
        ) + ","@ + integer_text(scale as int) + ")"@,
        t is Null || t is List || t is Struct || t is MapOf || t == TypeView::Time64(
            TimeUnit::Microsecond,
        ) || (t matches TypeView::Timestamp(TimeUnit::Nanosecond, _)) ==> trino_name(t)
            == "varchar"@,
{
}

/// Whether the type name that a column is given says the column's own type: a timestamp has no time
/// zone but UTC, a decimal type has 128 bits up to a precision of 38, and there are no JSON texts,
/// nulls, lists, structs or maps.
pub open spec fn keeps_type(t: TypeView) -> bool {
    match t {
        TypeView::Timestamp(unit, zone) => unit is Microsecond && (zone is None || zone == Some(
            "UTC"@,
        )),
        TypeView::Time64(unit) => unit is Nanosecond,
        TypeView::Decimal128(precision, _) => precision <= 38,
        TypeView::Decimal256(precision, _) => precision > 38,
        TypeView::Null | TypeView::LargeUtf8 | TypeView::List(_) | TypeView::Struct(_)
        | TypeView::MapOf(_, _) => false,
        _ => true,
    }
}

/// A result has a column for each field that is wanted of it, in their order: the `i`-th has the
/// name of the `i`-th field, and its type name says the type of that field.
pub proof fn lemma_columns_follow_the_wanted_fields(fields: Seq<FieldView>, i: int)
    requires
        0 <= i < fields.len(),
    ensures
        wanted_columns(fields).len() == fields.len(),
        wanted_columns(fields)[i].name == fields[i].name,
        wanted_columns(fields)[i].trino_type == trino_name(fields[i].data_type),
        keeps_type(fields[i].data_type) ==> trino_type(wanted_columns(fields)[i].trino_type)
            == TypeReading::Type(fields[i].data_type),
        !keeps_type(fields[i].data_type) && !(fields[i].data_type is Decimal128)
            && !(fields[i].data_type is Decimal256) && !(fields[i].data_type is Timestamp)
            ==> trino_type(wanted_columns(fields)[i].trino_type) == TypeReading::Type(
            TypeView::Utf8,
        ),
{
    if keeps_type(fields[i].data_type) {
        lemma_type_names_read_back(fields[i].data_type);
    } else {
        lemma_type_names_read_back(TypeView::Utf8);
    }
}

/// The record batch of a result has the fields that are wanted of it, in their order, with their
/// names and their types.
pub proof fn lemma_results_have_the_wanted_fields(
    rows: Seq<Seq<JsonView>>,
    fields: Seq<FieldView>,
    i: int,
)
    requires
        0 <= i < fields.len(),
        keeps_type(fields[i].data_type),
        conversion(rows, wanted_columns(fields)) is Batch,
    ensures
        ({
            let made = conversion(rows, wanted_columns(fields))->Batch_0;
            &&& made.len() == fields.len()
            &&& made[i].name == fields[i].name
            &&& made[i].data_type == fields[i].data_type
        }),
{
    lemma_columns_follow_the_wanted_fields(fields, i);
    lemma_fields_follow_the_columns(rows, wanted_columns(fields), i);
}

/// The record batches of a result have 4000 rows each, but for the last one, which has the rest:
/// the `k`-th row of the `i`-th is the row of the result in that place. There is no batch without
/// rows.
pub proof fn lemma_chunks_are_full<A>(rows: Seq<A>, i: int, k: int)
    requires
        0 <= i < chunks(rows.len() as int),
    ensures
        4000 * (chunks(rows.len() as int) - 1) < rows.len() <= 4000 * chunks(rows.len() as int),
        i < chunks(rows.len() as int) - 1 ==> chunk(rows, i).len() == 4000,
        i == chunks(rows.len() as int) - 1 ==> chunk(rows, i).len() == rows.len() - 4000 * i,
        0 <= k < chunk(rows, i).len() ==> chunk(rows, i)[k] == rows[4000 * i + k],
        chunks(0) == 0,
{
}

} // verus!
