//! A connection to a Trino coordinator: what is asked of it, and what its replies say.

use crate::builder::Batch;
use crate::json::{json_items, lemma_array_view, value_member, JsonValue, JsonView};
use crate::number::{
    decimal_text, integer_text, lemma_decimal_text_reads_back, parse_signed, parse_unsigned,
    text_of_i8, text_of_unsigned,
};
use crate::rows::{came_out, conversion, convert_rows, rows_view};
use crate::schema::{
    decimal_of, decimal_precision, decimal_scale, first_brackets, read_type, simple_type, split_on,
    trino_type, type_reading, Brackets, TypeFault, TypeReading,
};
use crate::text::{
    find, folded, is_white_space, lemma_find, same_text, starts_with, to_lowercase, trim,
};
use crate::types::{
    columns_view, fields_view, ColumnView, DataType, Field, FieldView, TimeUnit, TrinoColumn,
    TypeView,
};
use crate::values::Halt;
use reqwest::Client;
use reqwest::Error as RequestError;
use serde_json::Error as JsonError;
use std::sync::Arc;
use vstd::prelude::*;
use vstd::slice::slice_subrange;
use vstd::utf8::is_ascii_chars;

verus! {

#[verifier::external_type_specification]
#[verifier::external_body]
pub struct ExClient(Client);

#[verifier::external_type_specification]
#[verifier::external_body]
pub struct ExRequestError(RequestError);

#[derive(Debug)]
pub enum Error {
    QueryError { source: RequestError },
    ConversionError { source: crate::trino::Error },
    AuthenticationFailedError,
    TrinoServerError { status_code: u16, message: String },
    ResponseParseError { source: JsonError },
    UnsupportedDataTypeError { column_name: String, data_type: String },
    MissingField { field: String },
    InvalidUrl { url: String },
}

/// The mathematical value of an `Error`: its kind and what it holds.
pub enum ErrorView {
    QueryError(RequestError),
    ConversionError(crate::trino::ErrorView),
    AuthenticationFailedError,
    TrinoServerError(u16, Seq<char>),
    ResponseParseError(JsonError),
    UnsupportedDataTypeError(Seq<char>, Seq<char>),
    MissingField(Seq<char>),
    InvalidUrl(Seq<char>),
}

impl View for Error {
    type V = ErrorView;

    open spec fn view(&self) -> ErrorView {
        match self {
            Error::QueryError { source } => ErrorView::QueryError(*source),
            Error::ConversionError { source } => ErrorView::ConversionError(source@),
            Error::AuthenticationFailedError => ErrorView::AuthenticationFailedError,
            Error::TrinoServerError { status_code, message } => ErrorView::TrinoServerError(
                *status_code,
                message@,
            ),
            Error::ResponseParseError { source } => ErrorView::ResponseParseError(*source),
            Error::UnsupportedDataTypeError { column_name, data_type } =>
                ErrorView::UnsupportedDataTypeError(column_name@, data_type@),
            Error::MissingField { field } => ErrorView::MissingField(field@),
            Error::InvalidUrl { url } => ErrorView::InvalidUrl(url@),
        }
    }
}

/// What to do about a column whose type has no counterpart.
#[derive(Debug, Clone, Copy, PartialEq, Eq, Structural)]
pub enum UnsupportedTypeAction {
    /// Refuse the table.
    Error,
    /// Leave the column out, with a warning.
    Warn,
    /// Leave the column out.
    Ignore,
    /// Take the column as text, which is not done here: refuse the table.
    AsText,
}

impl Default for UnsupportedTypeAction {
    fn default() -> (r: UnsupportedTypeAction)
        ensures
            r == UnsupportedTypeAction::Error,
    {
        UnsupportedTypeAction::Error
    }
}

/// Whether a column whose type has no counterpart is left out.
pub open spec fn leaves_out(action: UnsupportedTypeAction) -> bool {
    action == UnsupportedTypeAction::Warn || action == UnsupportedTypeAction::Ignore
}

/// The error of a column whose type has no counterpart, unless such columns are left out.
pub fn handle_unsupported_type_error(action: UnsupportedTypeAction, error: Error) -> (r: Result<
    (),
    Error,
>)
    ensures
        match r {
            Ok(()) => leaves_out(action),
            Err(e) => !leaves_out(action) && e == error,
        },
{
    match action {
        UnsupportedTypeAction::Error => Err(error),
        UnsupportedTypeAction::Warn => Ok(()),
        UnsupportedTypeAction::Ignore => Ok(()),
        UnsupportedTypeAction::AsText => Err(error),
    }
}

/// A connection to a Trino coordinator.
pub struct TrinoConnection {
    pub client: Arc<Client>,
    pub base_url: String,
    pub unsupported_type_action: UnsupportedTypeAction,
}

/// Whether a URL is one that a coordinator can be reached by.
pub open spec fn is_http_url(url: Seq<char>) -> bool {
    "http://"@.is_prefix_of(url) || "https://"@.is_prefix_of(url)
}

/// Whether a URL is one that a coordinator can be reached by.
pub fn http_url(url: &str) -> (r: bool)
    ensures
        r == is_http_url(url@),
{
    starts_with(url, "http://") || starts_with(url, "https://")
}

impl TrinoConnection {
    /// A connection that knows no coordinator.
    pub fn new(client: Arc<Client>) -> (r: TrinoConnection)
        ensures
            r.client == client,
            r.base_url@ == Seq::<char>::empty(),
            r.unsupported_type_action == UnsupportedTypeAction::Error,
    {
        TrinoConnection {
            client,
            base_url: String::new(),
            unsupported_type_action: UnsupportedTypeAction::default(),
        }
    }

    /// A connection to the coordinator at a URL.
    pub fn new_with_config(client: Arc<Client>, base_url: String) -> (r: Result<
        TrinoConnection,
        Error,
    >)
        ensures
            match r {
                Ok(c) => is_http_url(base_url@) && c.client == client && c.base_url@ == base_url@
                    && c.unsupported_type_action == UnsupportedTypeAction::Error,
                Err(e) => !is_http_url(base_url@) && e@ == ErrorView::InvalidUrl(base_url@),
            },
    {
        if !http_url(base_url.as_str()) {
            return Err(Error::InvalidUrl { url: base_url });
        }
        Ok(
            TrinoConnection {
                client,
                base_url,
                unsupported_type_action: UnsupportedTypeAction::default(),
            },
        )
    }

    #[must_use]
    pub fn with_unsupported_type_action(self, action: UnsupportedTypeAction) -> (r: TrinoConnection)
        ensures
            r.client == self.client,
            r.base_url == self.base_url,
            r.unsupported_type_action == action,
    {
        let mut connection = self;
        connection.unsupported_type_action = action;
        connection
    }

    /// How many rows a statement has changed. No statement is sent.
    pub fn execute(&self, _query: &str) -> (r: Result<u64, Error>)
        ensures
            r == Ok::<u64, Error>(100),
    {
        Ok(100)
    }

    /// Where statements are sent.
    pub fn statement_url(&self) -> (r: String)
        ensures
            r@ == self.base_url@ + "/v1/statement"@,
    {
        let mut url = self.base_url.clone();
        url.append("/v1/statement");
        url
    }
}

/// The statement that describes a table.
pub fn describe_statement(table: &str) -> (r: String)
    ensures
        r@ == "DESCRIBE "@ + table@,
{
    let mut sql = "DESCRIBE ".to_owned();
    sql.append(table);
    sql
}

/// The items of an array that are arrays themselves.
pub open spec fn array_rows(items: Seq<JsonView>) -> Seq<Seq<JsonView>>
    decreases items.len(),
{
    if items.len() == 0 {
        seq![]
    } else {
        let before = array_rows(items.drop_last());
        match items.last() {
            JsonView::Array(row) => before.push(row),
            _ => before,
        }
    }
}

/// The rows that a page of a result has.
pub open spec fn page_rows(page: JsonView) -> Seq<Seq<JsonView>> {
    match value_member(page, "data"@) {
        Some(JsonView::Array(items)) => array_rows(items),
        _ => seq![],
    }
}

/// The state of the query that a page tells of.
pub open spec fn page_state(page: JsonView) -> Seq<char> {
    match value_member(page, "stats"@) {
        Some(stats) => match value_member(stats, "state"@) {
            Some(JsonView::Text(state)) => state,
            _ => Seq::empty(),
        },
        None => Seq::empty(),
    }
}

/// What follows a page: nothing, as the query has finished; an error; or another page, to be
/// asked for at a URL.
pub enum PageStep {
    Finished,
    Failed(ErrorView),
    Poll(Seq<char>),
}

/// What follows a page.
pub open spec fn page_step(page: JsonView) -> PageStep {
    let state = page_state(page);
    if state == "FINISHED"@ {
        PageStep::Finished
    } else if state == "FAILED"@ {
        PageStep::Failed(ErrorView::TrinoServerError(500, "Query failed"@))
    } else if state == "CANCELED"@ {
        PageStep::Failed(ErrorView::TrinoServerError(499, "Query was canceled"@))
    } else {
        match value_member(page, "nextUri"@) {
            Some(JsonView::Text(uri)) => PageStep::Poll(uri),
            _ => PageStep::Failed(
                ErrorView::TrinoServerError(500, "Query stuck in state: "@ + state),
            ),
        }
    }
}

/// Where a query stands: it has given all its rows; it has failed; or it has given some rows, and
/// more may come.
pub enum QueryRun {
    Finished(Seq<Seq<JsonView>>),
    Failed(ErrorView),
    Open(Seq<Seq<JsonView>>),
}

/// Where a query stands after some pages.
pub open spec fn query_run(pages: Seq<JsonView>) -> QueryRun
    decreases pages.len(),
{
    if pages.len() == 0 {
        QueryRun::Open(seq![])
    } else {
        match query_run(pages.drop_last()) {
            QueryRun::Open(rows) => match page_step(pages.last()) {
                PageStep::Finished => QueryRun::Finished(rows + page_rows(pages.last())),
                PageStep::Failed(e) => QueryRun::Failed(e),
                PageStep::Poll(_) => QueryRun::Open(rows + page_rows(pages.last())),
            },
            other => other,
        }
    }
}

/// The rows of several pages, one page after the other.
pub open spec fn all_page_rows(pages: Seq<JsonView>) -> Seq<Seq<JsonView>>
    decreases pages.len(),
{
    if pages.len() == 0 {
        seq![]
    } else {
        all_page_rows(pages.drop_last()) + page_rows(pages.last())
    }
}

proof fn lemma_open_query(pages: Seq<JsonView>)
    requires
        forall|i: int| 0 <= i < pages.len() ==> page_step(#[trigger] pages[i]) is Poll,
    ensures
        query_run(pages) == QueryRun::Open(all_page_rows(pages)),
    decreases pages.len(),
{
    if pages.len() > 0 {
        assert forall|i: int| 0 <= i < pages.drop_last().len() implies page_step(
            #[trigger] pages.drop_last()[i],
        ) is Poll by {
            assert(pages.drop_last()[i] == pages[i]);
        }
        lemma_open_query(pages.drop_last());
        assert(page_step(pages[pages.len() - 1]) is Poll);
    }
}

/// A query that finishes has the rows of all its pages, in the order of the pages.
pub proof fn lemma_finished_query_has_all_rows(pages: Seq<JsonView>)
    requires
        pages.len() > 0,
        forall|i: int| 0 <= i < pages.len() - 1 ==> page_step(#[trigger] pages[i]) is Poll,
        page_step(pages.last()) is Finished,
    ensures
        query_run(pages) == QueryRun::Finished(all_page_rows(pages)),
{
    assert forall|i: int| 0 <= i < pages.drop_last().len() implies page_step(
        #[trigger] pages.drop_last()[i],
    ) is Poll by {
        assert(pages.drop_last()[i] == pages[i]);
    }
    lemma_open_query(pages.drop_last());
}

/// Nothing after a query's end changes what came of it.
pub proof fn lemma_ended_query_stays(pages: Seq<JsonView>, page: JsonView)
    requires
        query_run(pages) !is Open,
    ensures
        query_run(pages.push(page)) == query_run(pages),
{
    assert(pages.push(page).drop_last() =~= pages);
}

/// What to do after a page.
pub enum Next {
    /// The query has given all its rows.
    Finish,
    /// Wait, then ask for the page at a URL.
    Poll(String),
}

/// How long to wait before another page is asked for, in milliseconds.
pub const POLL_MILLIS: u64 = 50;

/// A query whose pages come one after the other.
pub struct Query {
    rows: Vec<Vec<JsonValue>>,
    pages: Ghost<Seq<JsonView>>,
}

impl Query {
    /// The pages so far.
    pub closed spec fn pages(&self) -> Seq<JsonView> {
        self.pages@
    }

    /// The rows so far.
    pub closed spec fn rows(&self) -> Seq<Seq<JsonView>> {
        rows_view(self.rows@)
    }

    /// More pages may come.
    pub open spec fn is_open(&self) -> bool {
        query_run(self.pages()) == QueryRun::Open(self.rows())
    }

    /// A query without pages.
    pub fn new() -> (r: Query)
        ensures
            r.pages() == Seq::<JsonView>::empty(),
            r.is_open(),
    {
        let r = Query { rows: Vec::new(), pages: Ghost(Seq::empty()) };
        assert(r.rows() =~= seq![]);
        r
    }

    /// Takes the rows of a page, and says what follows.
    pub fn take_page(&mut self, page: &JsonValue) -> (r: Result<Next, Error>)
        requires
            old(self).is_open(),
        ensures
            final(self).pages() == old(self).pages().push(page@),
            match query_run(final(self).pages()) {
                QueryRun::Finished(rows) => r matches Ok(Next::Finish) && final(self).rows()
                    == rows,
                QueryRun::Failed(e) => r matches Err(error) && error@ == e,
                QueryRun::Open(rows) => (r matches Ok(Next::Poll(uri)) && page_step(page@)
                    == PageStep::Poll(uri@)) && final(self).is_open(),
            },
    {
        self.take_rows(page);
        self.pages = Ghost(self.pages@.push(page@));
        assert(self.pages().drop_last() =~= old(self).pages());
        let empty = String::new();
        let state = match page.get("stats") {
            Some(stats) => match stats.get("state") {
                Some(state) => match state.as_text() {
                    Some(state) => state,
                    None => &empty,
                },
                None => &empty,
            },
            None => &empty,
        };
        assert(state@ =~= page_state(page@));
        if same_text(state.as_str(), "FINISHED") {
            return Ok(Next::Finish);
        } else if same_text(state.as_str(), "FAILED") {
            return Err(
                Error::TrinoServerError { status_code: 500, message: "Query failed".to_owned() },
            );
        } else if same_text(state.as_str(), "CANCELED") {
            return Err(
                Error::TrinoServerError {
                    status_code: 499,
                    message: "Query was canceled".to_owned(),
                },
            );
        }
        if let Some(uri) = page.get("nextUri") {
            if let Some(uri) = uri.as_text() {
                return Ok(Next::Poll(uri.clone()));
            }
        }
        let mut message = "Query stuck in state: ".to_owned();
        message.append(state.as_str());
        Err(Error::TrinoServerError { status_code: 500, message })
    }

    fn take_rows(&mut self, page: &JsonValue)
        ensures
            final(self).pages() == old(self).pages(),
            final(self).rows() == old(self).rows() + page_rows(page@),
    {
        let ghost before = self.rows();
        assert(before + Seq::<Seq<JsonView>>::empty() =~= before);
        if let Some(JsonValue::Array(items)) = page.get("data") {
            let ghost views = json_items(items@);
            proof {
                lemma_array_view(*items);
                assert(array_rows(views.take(0)) =~= seq![]);
            }
            for i in 0..items.len()
                invariant
                    views == json_items(items@),
                    self.pages() == old(self).pages(),
                    self.rows() == before + array_rows(views.take(i as int)),
            {
                proof {
                    assert(views.take(i + 1).drop_last() =~= views.take(i as int));
                    assert(views.take(i + 1).last() == items@[i as int]@);
                }
                let ghost now = self.rows();
                if let JsonValue::Array(cells) = &items[i] {
                    let mut row: Vec<JsonValue> = Vec::new();
                    for j in 0..cells.len()
                        invariant
                            row@.len() == j,
                            forall|k: int| 0 <= k < j ==> (#[trigger] row@[k])@ == cells@[k]@,
                    {
                        row.push(cells[j].duplicate());
                    }
                    self.rows.push(row);
                    proof {
                        lemma_array_view(*cells);
                        assert(json_items(row@) =~= json_items(cells@));
                        assert(self.rows() =~= now.push(json_items(cells@)));
                        assert(now.push(json_items(cells@)) =~= before + array_rows(
                            views.take(i as int),
                        ).push(json_items(cells@)));
                    }
                }
            }
            assert(views.take(items@.len() as int) =~= views);
        }
    }

    /// The rows.
    pub fn into_rows(self) -> (r: Vec<Vec<JsonValue>>)
        ensures
            rows_view(r@) == self.rows(),
    {
        self.rows
    }
}

/// Whether an HTTP status tells of success.
pub open spec fn is_success(status: u16) -> bool {
    200 <= status < 300
}

/// Why the reply to a statement is refused, by its status and its text.
pub open spec fn submission_fault(status_code: u16, message: Seq<char>) -> Option<ErrorView> {
    if is_success(status_code) {
        None
    } else if status_code == 401 {
        Some(ErrorView::AuthenticationFailedError)
    } else {
        Some(ErrorView::TrinoServerError(status_code, message))
    }
}

/// Why the reply with a later page is refused, by its status and its text.
pub open spec fn poll_fault(status_code: u16, message: Seq<char>) -> Option<ErrorView> {
    if is_success(status_code) {
        None
    } else {
        Some(ErrorView::TrinoServerError(status_code, message))
    }
}

/// What the status of the reply to a statement says. `message` is the reply's text.
pub fn check_submission(status_code: u16, message: String) -> (r: Result<(), Error>)
    ensures
        match r {
            Ok(()) => is_success(status_code),
            Err(e) => !is_success(status_code) && e@ == (if status_code == 401 {
                ErrorView::AuthenticationFailedError
            } else {
                ErrorView::TrinoServerError(status_code, message@)
            }),
        },
        submission_fault(status_code, message@) == (match r {
            Ok(()) => None,
            Err(e) => Some(e@),
        }),
{
    if 200 <= status_code && status_code < 300 {
        Ok(())
    } else if status_code == 401 {
        Err(Error::AuthenticationFailedError)
    } else {
        Err(Error::TrinoServerError { status_code, message })
    }
}

/// What the status of a later page says. `message` is the reply's text.
pub fn check_poll(status_code: u16, message: String) -> (r: Result<(), Error>)
    ensures
        match r {
            Ok(()) => is_success(status_code),
            Err(e) => !is_success(status_code) && e@ == ErrorView::TrinoServerError(
                status_code,
                message@,
            ),
        },
        poll_fault(status_code, message@) == (match r {
            Ok(()) => None,
            Err(e) => Some(e@),
        }),
{
    if 200 <= status_code && status_code < 300 {
        Ok(())
    } else {
        Err(Error::TrinoServerError { status_code, message })
    }
}

/// What the rows that describe a table say: its fields, an error, or a type name whose
/// parentheses close before they open.
pub enum TableReading {
    Fields(Seq<FieldView>),
    Failed(ErrorView),
    Malformed,
}

/// Whether a column takes nulls, by its description: unless the third value is the text `false`.
pub open spec fn row_nullable(row: Seq<JsonView>) -> bool {
    row.len() > 2 ==> row[2] != JsonView::Text("false"@)
}

/// What one more row of a description says.
pub open spec fn column_reading(
    before: Seq<FieldView>,
    row: Seq<JsonView>,
    action: UnsupportedTypeAction,
) -> TableReading {
    if row.len() < 2 {
        TableReading::Fields(before)
    } else {
        match (row[0], row[1]) {
            (JsonView::Text(name), JsonView::Text(data_type)) => match trino_type(data_type) {
                TypeReading::Type(t) => TableReading::Fields(
                    before.push(FieldView { name, data_type: t, nullable: row_nullable(row) }),
                ),
                TypeReading::Unsupported(_) => if leaves_out(action) {
                    TableReading::Fields(before)
                } else {
                    TableReading::Failed(ErrorView::UnsupportedDataTypeError(name, data_type))
                },
                TypeReading::Malformed => TableReading::Malformed,
            },
            (JsonView::Text(_), _) => TableReading::Failed(ErrorView::MissingField("data_type"@)),
            _ => TableReading::Failed(ErrorView::MissingField("column_name"@)),
        }
    }
}

/// What the first `k` rows of a description say. A row of fewer than two values is passed over.
pub open spec fn table_reading(
    rows: Seq<Seq<JsonView>>,
    action: UnsupportedTypeAction,
    k: nat,
) -> TableReading
    decreases k,
{
    if k == 0 {
        TableReading::Fields(seq![])
    } else {
        match table_reading(rows, action, (k - 1) as nat) {
            TableReading::Fields(before) => column_reading(before, rows[k - 1], action),
            other => other,
        }
    }
}

/// What a description says.
pub open spec fn table_of(rows: Seq<Seq<JsonView>>, action: UnsupportedTypeAction) -> TableReading {
    table_reading(rows, action, rows.len())
}

proof fn lemma_table_stuck(
    rows: Seq<Seq<JsonView>>,
    action: UnsupportedTypeAction,
    k: nat,
    n: nat,
)
    requires
        k <= n,
    ensures
        table_reading(rows, action, k) !is Fields ==> table_reading(rows, action, n)
            == table_reading(rows, action, k),
    decreases n - k,
{
    if k < n {
        lemma_table_stuck(rows, action, k, (n - 1) as nat);
    }
}

/// Why a description gives no fields.
pub enum TableFault {
    Failed(Error),
    Malformed,
}

/// Reads the rows that describe a table.
pub fn read_table(rows: &Vec<Vec<JsonValue>>, action: UnsupportedTypeAction) -> (r: Result<
    Vec<Field>,
    TableFault,
>)
    ensures
        match r {
            Ok(fields) => table_of(rows_view(rows@), action) == TableReading::Fields(
                fields_view(fields@),
            ),
            Err(TableFault::Failed(e)) => table_of(rows_view(rows@), action)
                == TableReading::Failed(e@),
            Err(TableFault::Malformed) => table_of(rows_view(rows@), action) is Malformed,
        },
{
    let ghost views = rows_view(rows@);
    let mut fields: Vec<Field> = Vec::new();
    assert(fields_view(fields@) =~= seq![]);
    for i in 0..rows.len()
        invariant
            views == rows_view(rows@),
            table_reading(views, action, i as nat) == TableReading::Fields(fields_view(fields@)),
    {
        proof {
            lemma_table_stuck(views, action, (i + 1) as nat, views.len());
            assert(views[i as int] == json_items(rows@[i as int]@));
        }
        let row = &rows[i];
        if row.len() >= 2 {
            let column_name = match row[0].as_text() {
                Some(name) => name,
                None => return Err(
                    TableFault::Failed(Error::MissingField { field: "column_name".to_owned() }),
                ),
            };
            let data_type = match row[1].as_text() {
                Some(data_type) => data_type,
                None => return Err(
                    TableFault::Failed(Error::MissingField { field: "data_type".to_owned() }),
                ),
            };
            let nullable = if row.len() > 2 {
                match row[2].as_text() {
                    Some(text) => !same_text(text.as_str(), "false"),
                    None => true,
                }
            } else {
                true
            };
            let normalized_type = to_lowercase(data_type.as_str());
            match read_type(normalized_type.as_str(), data_type.as_str()) {
                Ok(arrow_type) => {
                    let ghost before = fields_view(fields@);
                    fields.push(Field::new(column_name.as_str(), arrow_type, nullable));
                    assert(fields_view(fields@) =~= before.push(fields@.last()@));
                },
                Err(TypeFault::Unsupported(_)) => {
                    let error = Error::UnsupportedDataTypeError {
                        column_name: column_name.clone(),
                        data_type: data_type.clone(),
                    };
                    match handle_unsupported_type_error(action, error) {
                        Ok(()) => {},
                        Err(e) => return Err(TableFault::Failed(e)),
                    }
                },
                Err(TypeFault::Malformed) => return Err(TableFault::Malformed),
            }
        }
    }
    Ok(fields)
}

impl TrinoConnection {
    /// The fields of a table, from the rows that describe it.
    pub fn get_schema(&self, data_rows: &Vec<Vec<JsonValue>>) -> (r: Result<Vec<Field>, Error>)
        requires
            !(table_of(rows_view(data_rows@), self.unsupported_type_action) is Malformed),
        ensures
            match r {
                Ok(fields) => table_of(rows_view(data_rows@), self.unsupported_type_action)
                    == TableReading::Fields(fields_view(fields@)),
                Err(e) => table_of(rows_view(data_rows@), self.unsupported_type_action)
                    == TableReading::Failed(e@),
            },
    {
        match read_table(data_rows, self.unsupported_type_action) {
            Ok(fields) => Ok(fields),
            Err(TableFault::Failed(e)) => Err(e),
            Err(TableFault::Malformed) => vstd::pervasive::unreached(),
        }
    }

    /// The fields of a table, whatever the rows: `None` where a type name's parentheses close
    /// before they open.
    pub fn try_get_schema(&self, data_rows: &Vec<Vec<JsonValue>>) -> (r: Option<
        Result<Vec<Field>, Error>,
    >)
        ensures
            match r {
                Some(Ok(fields)) => table_of(rows_view(data_rows@), self.unsupported_type_action)
                    == TableReading::Fields(fields_view(fields@)),
                Some(Err(e)) => table_of(rows_view(data_rows@), self.unsupported_type_action)
                    == TableReading::Failed(e@),
                None => table_of(rows_view(data_rows@), self.unsupported_type_action) is Malformed,
            },
    {
        match read_table(data_rows, self.unsupported_type_action) {
            Err(TableFault::Malformed) => None,
            _ => Some(self.get_schema(data_rows)),
        }
    }
}

/// The name of a decimal type.
pub open spec fn decimal_name(precision: u8, scale: i8) -> Seq<char> {
    "decimal("@ + integer_text(precision as int) + ","@ + integer_text(scale as int) + ")"@
}

/// The Trino type that the values of a column are read as. Whatever has no type of its own is
/// read as text.
pub open spec fn trino_name(t: TypeView) -> Seq<char> {
    match t {
        TypeView::Boolean => "boolean"@,
        TypeView::Int8 => "tinyint"@,
        TypeView::Int16 => "smallint"@,
        TypeView::Int32 => "integer"@,
        TypeView::Int64 => "bigint"@,
        TypeView::Float32 => "real"@,
        TypeView::Float64 => "double"@,
        TypeView::Binary => "varbinary"@,
        TypeView::Date32 => "date"@,
        TypeView::Time64(TimeUnit::Nanosecond) => "time"@,
        TypeView::Timestamp(TimeUnit::Microsecond, None) => "timestamp"@,
        TypeView::Timestamp(TimeUnit::Microsecond, Some(_)) => "timestamp with time zone"@,
        TypeView::Decimal128(precision, scale) => decimal_name(precision, scale),
        TypeView::Decimal256(precision, scale) => decimal_name(precision, scale),
        _ => "varchar"@,
    }
}

fn decimal_type_string(precision: u8, scale: i8) -> (r: String)
    ensures
        r@ == decimal_name(precision, scale),
{
    let mut name = "decimal(".to_owned();
    name.append(text_of_unsigned(precision as u64).as_str());
    name.append(",");
    name.append(text_of_i8(scale).as_str());
    name.append(")");
    name
}

/// The Trino type that the values of a column are read as.
pub fn arrow_type_to_trino_type_string(data_type: &DataType) -> (r: String)
    ensures
        r@ == trino_name(data_type@),
{
    match data_type {
        DataType::Boolean => "boolean".to_owned(),
        DataType::Int8 => "tinyint".to_owned(),
        DataType::Int16 => "smallint".to_owned(),
        DataType::Int32 => "integer".to_owned(),
        DataType::Int64 => "bigint".to_owned(),
        DataType::Float32 => "real".to_owned(),
        DataType::Float64 => "double".to_owned(),
        DataType::Utf8 => "varchar".to_owned(),
        DataType::LargeUtf8 => "varchar".to_owned(),
        DataType::Binary => "varbinary".to_owned(),
        DataType::Date32 => "date".to_owned(),
        DataType::Time64(TimeUnit::Nanosecond) => "time".to_owned(),
        DataType::Timestamp(TimeUnit::Microsecond, None) => "timestamp".to_owned(),
        DataType::Timestamp(TimeUnit::Microsecond, Some(_)) =>
            "timestamp with time zone".to_owned(),
        DataType::Decimal128(precision, scale) => decimal_type_string(*precision, *scale),
        DataType::Decimal256(precision, scale) => decimal_type_string(*precision, *scale),
        _ => "varchar".to_owned(),
    }
}

/// The columns of a query's result, by the fields that are wanted of it. Without wanted fields
/// there are none.
pub open spec fn wanted_columns(fields: Seq<FieldView>) -> Seq<ColumnView> {
    Seq::new(
        fields.len(),
        |i: int| ColumnView { name: fields[i].name, trino_type: trino_name(fields[i].data_type) },
    )
}

/// The columns of a query's result, by the fields that are wanted of it.
pub fn projected_columns(fields: &Vec<Field>) -> (r: Vec<TrinoColumn>)
    ensures
        columns_view(r@) == wanted_columns(fields_view(fields@)),
{
    let mut columns: Vec<TrinoColumn> = Vec::new();
    for i in 0..fields.len()
        invariant
            columns@.len() == i,
            forall|j: int|
                0 <= j < i ==> (#[trigger] columns@[j])@ == (ColumnView {
                    name: fields@[j].name@,
                    trino_type: trino_name(fields@[j].data_type@),
                }),
    {
        let field = &fields[i];
        columns.push(
            TrinoColumn {
                name: field.name.clone(),
                trino_type: arrow_type_to_trino_type_string(&field.data_type),
            },
        );
    }
    assert(columns_view(columns@) =~= wanted_columns(fields_view(fields@)));
    columns
}

/// How many rows a record batch takes at most.
pub const CHUNK_SIZE: usize = 4_000;

/// The rows of the `i`-th record batch.
pub open spec fn chunk<A>(rows: Seq<A>, i: int) -> Seq<A> {
    let end = if (i + 1) * CHUNK_SIZE < rows.len() {
        (i + 1) * CHUNK_SIZE
    } else {
        rows.len() as int
    };
    rows.subrange(i * CHUNK_SIZE, end)
}

/// How many record batches so many rows take.
pub open spec fn chunks(n: int) -> int {
    (n + CHUNK_SIZE - 1) / CHUNK_SIZE as int
}

/// How many record batches so many rows take.
pub fn chunk_count(n: usize) -> (r: usize)
    ensures
        r == chunks(n as int),
{
    if n % CHUNK_SIZE == 0 {
        n / CHUNK_SIZE
    } else {
        n / CHUNK_SIZE + 1
    }
}

/// The `i`-th record batch of a query's result.
pub fn convert_chunk(rows: &[Vec<JsonValue>], columns: &Vec<TrinoColumn>, i: usize) -> (r: Result<
    Batch,
    Halt,
>)
    requires
        i < chunks(rows@.len() as int),
    ensures
        came_out(conversion(chunk(rows_view(rows@), i as int), columns_view(columns@)), r),
{
    let n: usize = rows.len();
    let start: usize = i * CHUNK_SIZE;
    let end: usize = if n - start > CHUNK_SIZE {
        start + CHUNK_SIZE
    } else {
        n
    };
    let part = slice_subrange(rows, start, end);
    assert(rows_view(part@) =~= chunk(rows_view(rows@), i as int));
    convert_rows(part, columns)
}

/// The first `k` chunks, one after the other.
pub open spec fn chunks_joined<A>(rows: Seq<A>, k: nat) -> Seq<A>
    decreases k,
{
    if k == 0 {
        seq![]
    } else {
        chunks_joined(rows, (k - 1) as nat) + chunk(rows, k - 1)
    }
}

proof fn lemma_chunks_joined<A>(rows: Seq<A>, k: nat)
    requires
        k <= chunks(rows.len() as int),
    ensures
        chunks_joined(rows, k) == rows.take(
            if k * CHUNK_SIZE < rows.len() {
                k * CHUNK_SIZE
            } else {
                rows.len() as int
            },
        ),
    decreases k,
{
    if k > 0 {
        lemma_chunks_joined(rows, (k - 1) as nat);
        assert(chunks_joined(rows, k) =~= rows.take(
            if k * CHUNK_SIZE < rows.len() {
                k * CHUNK_SIZE
            } else {
                rows.len() as int
            },
        ));
    } else {
        assert(chunks_joined(rows, 0) =~= rows.take(0));
    }
}

/// The chunks of some rows, one after the other, are the rows: none is left out, none comes
/// twice.
pub proof fn lemma_chunks_cover<A>(rows: Seq<A>)
    ensures
        chunks_joined(rows, chunks(rows.len() as int) as nat) == rows,
        forall|i: int|
            0 <= i < chunks(rows.len() as int) ==> 0 < (#[trigger] chunk(rows, i)).len()
                <= CHUNK_SIZE,
{
    let n = chunks(rows.len() as int);
    lemma_chunks_joined(rows, n as nat);
    assert(rows.take(rows.len() as int) =~= rows);
}

/// Whether a type is one that Trino has a name of its own for.
pub open spec fn has_trino_name(t: TypeView) -> bool {
    match t {
        TypeView::Boolean | TypeView::Int8 | TypeView::Int16 | TypeView::Int32 | TypeView::Int64
        | TypeView::Float32 | TypeView::Float64 | TypeView::Utf8 | TypeView::Binary
        | TypeView::Date32 => true,
        TypeView::Time64(TimeUnit::Nanosecond) => true,
        TypeView::Timestamp(TimeUnit::Microsecond, None) => true,
        TypeView::Timestamp(TimeUnit::Microsecond, Some(zone)) => zone == "UTC"@,
        TypeView::Decimal128(precision, _) => precision <= 38,
        TypeView::Decimal256(precision, _) => precision > 38,
        _ => false,
    }
}

/// How long the names of types are, and how they begin. No two are alike in both.
proof fn lemma_simple_names()
    ensures
        "null"@.len() == 4 && "null"@[0] == 'n',
        "boolean"@.len() == 7 && "boolean"@[0] == 'b',
        "tinyint"@.len() == 7 && "tinyint"@[0] == 't',
        "smallint"@.len() == 8 && "smallint"@[0] == 's',
        "integer"@.len() == 7 && "integer"@[0] == 'i',
        "bigint"@.len() == 6 && "bigint"@[0] == 'b',
        "real"@.len() == 4 && "real"@[0] == 'r',
        "double"@.len() == 6 && "double"@[0] == 'd',
        "varchar"@.len() == 7 && "varchar"@[0] == 'v',
        "char"@.len() == 4 && "char"@[0] == 'c',
        "varbinary"@.len() == 9 && "varbinary"@[0] == 'v',
        "json"@.len() == 4 && "json"@[0] == 'j',
        "date"@.len() == 4 && "date"@[0] == 'd',
        "time"@.len() == 4 && "time"@[0] == 't',
        "timestamp"@.len() == 9 && "timestamp"@[0] == 't',
        "timestamp with time zone"@.len() == 24 && "timestamp with time zone"@[0] == 't',
{
    reveal_strlit("null");
    reveal_strlit("boolean");
    reveal_strlit("tinyint");
    reveal_strlit("smallint");
    reveal_strlit("integer");
    reveal_strlit("bigint");
    reveal_strlit("real");
    reveal_strlit("double");
    reveal_strlit("varchar");
    reveal_strlit("char");
    reveal_strlit("varbinary");
    reveal_strlit("json");
    reveal_strlit("date");
    reveal_strlit("time");
    reveal_strlit("timestamp");
    reveal_strlit("timestamp with time zone");
}

proof fn lemma_simple_names_read_back(t: TypeView)
    requires
        has_trino_name(t),
        t !is Decimal128,
        t !is Decimal256,
    ensures
        simple_type(trino_name(t)) == Some(t),
{
    lemma_simple_names();
}

proof fn lemma_trim_plain(s: Seq<char>)
    requires
        s.len() > 0,
        !is_white_space(s[0]),
        !is_white_space(s.last()),
    ensures
        trim(s) == s,
{
}

/// The text of an integer has digits and a sign only, and reads back as the integer.
proof fn lemma_integer_text(n: int)
    ensures
        integer_text(n).len() > 0,
        forall|i: int|
            0 <= i < integer_text(n).len() ==> ('0' <= #[trigger] integer_text(n)[i] <= '9'
                || integer_text(n)[i] == '-'),
        trim(integer_text(n)) == integer_text(n),
        -128 <= n <= 127 ==> parse_signed(integer_text(n), -128, 127) == Some(n),
        0 <= n <= 255 ==> parse_unsigned(integer_text(n), 255) == Some(n as nat),
{
    let s = integer_text(n);
    if n < 0 {
        let digits = decimal_text((-n) as nat);
        lemma_decimal_text_reads_back((-n) as nat);
        assert(s.drop_first() =~= digits);
        assert forall|i: int| 0 <= i < s.len() implies ('0' <= #[trigger] s[i] <= '9' || s[i]
            == '-') by {
            if i > 0 {
                assert(s[i] == digits[i - 1]);
            }
        }
        assert(s.last() == digits.last());
    } else {
        lemma_decimal_text_reads_back(n as nat);
        assert('0' <= s[0] <= '9');
        assert('0' <= s[s.len() - 1] <= '9');
    }
    assert('0' <= s[0] <= '9' || s[0] == '-');
    assert('0' <= s[s.len() - 1] <= '9' || s[s.len() - 1] == '-');
    lemma_trim_plain(s);
}

proof fn lemma_decimal_params(precision: u8, scale: i8)
    ensures
        ({
            let params = integer_text(precision as int) + ","@ + integer_text(scale as int);
            &&& params.len() >= 3
            &&& forall|i: int|
                0 <= i < params.len() ==> (#[trigger] params[i]) != '(' && params[i] != ')'
            &&& decimal_precision(params) == precision
            &&& decimal_scale(params) == scale
        }),
{
    let p = integer_text(precision as int);
    let c = integer_text(scale as int);
    let params = p + ","@ + c;
    lemma_integer_text(precision as int);
    lemma_integer_text(scale as int);
    reveal_strlit(",");
    assert forall|i: int| 0 <= i < params.len() implies (#[trigger] params[i]) != '(' && params[i]
        != ')' by {
        if i < p.len() {
            assert(params[i] == p[i]);
        } else if i > p.len() {
            assert(params[i] == c[i - p.len() - 1]);
        }
    }
    assert forall|i: int| 0 <= i < p.len() implies params[i] != ',' by {
        assert(params[i] == p[i]);
    }
    lemma_find(params, ',');
    assert(params[p.len() as int] == ',');
    assert(find(params, ',') == Some(p.len() as int));
    assert(params.take(p.len() as int) =~= p);
    assert(params.skip(p.len() as int + 1) =~= c);
    lemma_find(c, ',');
    assert(find(c, ',') is None);
    let parts = split_on(params, ',');
    assert(split_on(c, ',') == seq![c]);
    assert(parts == seq![p] + seq![c]);
    assert(parts[0] == p && parts[1] == c && parts.len() == 2);
}

proof fn lemma_decimal_name_reads_back(precision: u8, scale: i8, shown: Seq<char>)
    ensures
        type_reading(decimal_name(precision, scale), shown) == TypeReading::Type(
            decimal_of(precision, scale),
        ),
{
    let n = decimal_name(precision, scale);
    let params = integer_text(precision as int) + ","@ + integer_text(scale as int);
    lemma_decimal_params(precision, scale);
    reveal_strlit("decimal(");
    reveal_strlit("decimal");
    reveal_strlit(")");
    let m = 8 + params.len();
    assert(n =~= "decimal("@ + params + ")"@);
    assert(n.len() == m + 1);
    assert(n[0] == 'd');
    assert(simple_type(n) is None) by {
        lemma_simple_names();
    }
    assert("decimal"@.is_prefix_of(n)) by {
        assert("decimal"@ =~= n.subrange(0, 7));
    }
    assert(n.subrange(8, m as int) =~= params);
    assert(n[7] == '(');
    assert(n[m as int] == ')');
    assert forall|i: int| 0 <= i < m implies n[i] != ')' by {
        if i >= 8 {
            assert(n[i] == params[i - 8]);
        }
    }
    lemma_find(n, '(');
    lemma_find(n, ')');
    assert(find(n, '(') == Some(7int));
    assert(find(n, ')') == Some(m as int));
    assert(first_brackets(n) == Brackets::Inside(params));
}

/// Whether a text is ASCII text without upper case letters.
spec fn is_lower(s: Seq<char>) -> bool {
    forall|i: int| 0 <= i < s.len() ==> is_lower_char(#[trigger] s[i])
}

spec fn is_lower_char(c: char) -> bool {
    '\0' <= c <= '\u{7f}' && !('A' <= c <= 'Z')
}

proof fn lemma_names_are_lower(t: TypeView)
    ensures
        is_lower(trino_name(t)),
{
    reveal_strlit("boolean");
    reveal_strlit("tinyint");
    reveal_strlit("smallint");
    reveal_strlit("integer");
    reveal_strlit("bigint");
    reveal_strlit("real");
    reveal_strlit("double");
    reveal_strlit("varchar");
    reveal_strlit("varbinary");
    reveal_strlit("date");
    reveal_strlit("time");
    reveal_strlit("timestamp");
    reveal_strlit("timestamp with time zone");
    match t {
        TypeView::Decimal128(precision, scale) => {
            lemma_decimal_name_is_lower(precision, scale);
        },
        TypeView::Decimal256(precision, scale) => {
            lemma_decimal_name_is_lower(precision, scale);
        },
        _ => {},
    }
}

proof fn lemma_decimal_name_is_lower(precision: u8, scale: i8)
    ensures
        is_lower(decimal_name(precision, scale)),
{
    reveal_strlit("decimal(");
    reveal_strlit(",");
    reveal_strlit(")");
    lemma_integer_text(precision as int);
    lemma_integer_text(scale as int);
    let p = integer_text(precision as int);
    let c = integer_text(scale as int);
    assert(is_lower(p)) by {
        assert forall|i: int| 0 <= i < p.len() implies is_lower_char(#[trigger] p[i]) by {
            assert('0' <= integer_text(precision as int)[i] <= '9' || p[i] == '-');
        }
    }
    assert(is_lower(c)) by {
        assert forall|i: int| 0 <= i < c.len() implies is_lower_char(#[trigger] c[i]) by {
            assert('0' <= integer_text(scale as int)[i] <= '9' || c[i] == '-');
        }
    }
    lemma_lower_sum("decimal("@, p);
    lemma_lower_sum("decimal("@ + p, ","@);
    lemma_lower_sum("decimal("@ + p + ","@, c);
    lemma_lower_sum("decimal("@ + p + ","@ + c, ")"@);
}

proof fn lemma_lower_sum(a: Seq<char>, b: Seq<char>)
    requires
        is_lower(a),
        is_lower(b),
    ensures
        is_lower(a + b),
{
    assert forall|i: int| 0 <= i < (a + b).len() implies is_lower_char(#[trigger] (a + b)[i]) by {
        if i < a.len() {
            assert((a + b)[i] == a[i]);
        } else {
            assert((a + b)[i] == b[i - a.len()]);
        }
    }
}

/// The name of a type that has one reads back as the type.
pub proof fn lemma_type_names_read_back(t: TypeView)
    requires
        has_trino_name(t),
    ensures
        trino_type(trino_name(t)) == TypeReading::Type(t),
{
    let shown = trino_name(t);
    lemma_names_are_lower(t);
    assert(is_ascii_chars(shown)) by {
        assert forall|i: int| 0 <= i < shown.len() implies '\0' <= #[trigger] shown[i]
            <= '\u{7f}' by {
            assert(is_lower_char(shown[i]));
        }
    }
    assert(folded(shown) =~= shown);
    match t {
        TypeView::Decimal128(precision, scale) => {
            lemma_decimal_name_reads_back(precision, scale, shown);
        },
        TypeView::Decimal256(precision, scale) => {
            lemma_decimal_name_reads_back(precision, scale, shown);
        },
        _ => {
            lemma_simple_names_read_back(t);
        },
    }
}

} // verus!
