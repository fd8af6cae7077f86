//! The parts of a test plan.

use vstd::prelude::*;
use vstd::string::StringExecFns;
use uuid::Uuid;
use crate::assertions::AssertionRule;
use crate::extractors::ExtractorRule;
use crate::outside::fresh_id;
use crate::string_map::StringMap;
use crate::text::{chars_of, join2, substring, trim_bounds, trimmed};

verus! {

/// The method of an HTTP request.
#[derive(Debug, Clone, Copy, PartialEq, Eq, Structural)]
pub enum HttpMethod {
    Get,
    Post,
    Put,
    Delete,
    Patch,
    Head,
    Options,
}

impl HttpMethod {
    /// The method as it is written in a request.
    pub open spec fn text(self) -> Seq<char> {
        match self {
            HttpMethod::Get => "GET"@,
            HttpMethod::Post => "POST"@,
            HttpMethod::Put => "PUT"@,
            HttpMethod::Delete => "DELETE"@,
            HttpMethod::Patch => "PATCH"@,
            HttpMethod::Head => "HEAD"@,
            HttpMethod::Options => "OPTIONS"@,
        }
    }

    /// The method as it is written in a request.
    pub fn as_str(&self) -> (s: &'static str)
        ensures
            s@ == self.text(),
    {
        match self {
            HttpMethod::Get => "GET",
            HttpMethod::Post => "POST",
            HttpMethod::Put => "PUT",
            HttpMethod::Delete => "DELETE",
            HttpMethod::Patch => "PATCH",
            HttpMethod::Head => "HEAD",
            HttpMethod::Options => "OPTIONS",
        }
    }

    /// The method as it is written in a request, as a string of its own.
    pub fn to_string(&self) -> (s: String)
        ensures
            s@ == self.text(),
    {
        String::from_str(self.as_str())
    }
}

/// The body of a request.
#[derive(Debug, Clone)]
pub enum RequestBody {
    /// JSON, held as its text.
    Json(String),
    /// Form fields, sent URL-encoded, in their order.
    FormData(Vec<(String, String)>),
    /// Text sent as it is.
    Raw(String),
    /// XML, held as its text.
    Xml(String),
}

/// How long a virtual user goes on.
#[derive(Debug, Clone, Copy, PartialEq, Eq, Structural)]
pub enum LoopCount {
    /// The request sequence runs `count` times.
    Finite { count: u64 },
    /// The request sequence runs again while fewer than `seconds` seconds
    /// have gone by.
    Duration { seconds: u64 },
    /// The request sequence runs until the run is cancelled.
    Infinite,
}

impl Default for LoopCount {
    fn default() -> (policy: Self)
        ensures
            policy == (LoopCount::Finite { count: 1 }),
    {
        LoopCount::Finite { count: 1 }
    }
}

/// A rule that a response is held against, as a plan names it. The rule is
/// held decoded; where it could not be decoded, the reason is held in its
/// place.
#[derive(Debug)]
pub struct Assertion {
    pub id: Uuid,
    pub name: String,
    pub rule: Result<AssertionRule, String>,
}

/// A rule that takes a value out of a response into the variable `variable`.
/// The rule is held decoded; where it could not be decoded, the reason is
/// held in its place.
#[derive(Debug)]
pub struct Extractor {
    pub id: Uuid,
    pub name: String,
    pub variable: String,
    pub expression: Result<ExtractorRule, String>,
}

/// One request of a plan. The URL, the headers and the body may hold
/// placeholders.
#[derive(Debug)]
pub struct HttpRequest {
    pub id: Uuid,
    pub name: String,
    pub method: HttpMethod,
    pub url: String,
    pub headers: StringMap,
    pub body: Option<RequestBody>,
    pub assertions: Vec<Assertion>,
    pub extractors: Vec<Extractor>,
    pub enabled: bool,
}

/// What a part of a plan is where the plan does not say: enabled.
pub fn default_true() -> (enabled: bool)
    ensures
        enabled,
{
    true
}

/// One step of a WebSocket scenario.
#[derive(Debug, Clone)]
pub enum WebSocketStep {
    /// Connect to a server.
    Connect { url: String, headers: StringMap },
    /// Send a text frame.
    SendText { message: String },
    /// Send a binary frame; `data` is its bytes in base64.
    SendBinary { data: String },
    /// Wait for the next message, at most `timeout_ms` milliseconds.
    Receive { timeout_ms: u64 },
    /// Pause for `duration_ms` milliseconds.
    Delay { duration_ms: u64 },
    /// Close the connection.
    Close,
}

/// A WebSocket scenario: a URL to connect to and the steps to take.
#[derive(Debug, Clone)]
pub struct WebSocketRequest {
    pub id: Uuid,
    pub name: String,
    pub url: String,
    pub headers: StringMap,
    pub steps: Vec<WebSocketStep>,
    pub enabled: bool,
}

/// Whom a variable is meant for. The engine keeps one store for all.
#[derive(Debug, Clone, Copy, PartialEq, Eq, Structural)]
pub enum VariableScope {
    Global,
    Plan,
    ThreadGroup,
}

impl Default for VariableScope {
    fn default() -> (scope: Self)
        ensures
            scope == VariableScope::Plan,
    {
        VariableScope::Plan
    }
}

/// A variable of a plan with the value it starts with.
#[derive(Debug, Clone)]
pub struct Variable {
    pub id: Uuid,
    pub name: String,
    pub value: String,
    pub scope: VariableScope,
}

/// How the rows of a data source are meant to be shared among users.
#[derive(Debug, Clone, Copy, PartialEq, Eq, Structural)]
pub enum CsvSharingMode {
    /// All users draw from one counter.
    AllThreads,
    /// Each user is meant to have a counter of its own.
    PerThread,
}

impl Default for CsvSharingMode {
    fn default() -> (mode: Self)
        ensures
            mode == CsvSharingMode::AllThreads,
    {
        CsvSharingMode::AllThreads
    }
}

/// Rows of data that feed variables: each column's name is a variable, each
/// iteration takes the next row.
#[derive(Debug, Clone)]
pub struct CsvDataSource {
    pub id: Uuid,
    pub name: String,
    pub columns: Vec<String>,
    pub rows: Vec<Vec<String>>,
    pub sharing_mode: CsvSharingMode,
    pub recycle: bool,
}

/// A group of virtual users that run one sequence of requests.
#[derive(Debug)]
pub struct ThreadGroup {
    pub id: Uuid,
    pub name: String,
    pub num_threads: u32,
    pub ramp_up_seconds: u32,
    pub loop_count: LoopCount,
    pub requests: Vec<HttpRequest>,
    pub enabled: bool,
}

/// A test plan.
#[derive(Debug)]
pub struct TestPlan {
    pub id: Uuid,
    pub name: String,
    pub description: String,
    pub thread_groups: Vec<ThreadGroup>,
    pub variables: Vec<Variable>,
    pub csv_data_sources: Vec<CsvDataSource>,
    pub format_version: u32,
}

/// The format version of a plan that names none.
pub fn default_format_version() -> (version: u32)
    ensures
        version == 1,
{
    1
}

impl TestPlan {
    /// An empty plan named `name`, with an identifier of its own.
    pub fn new(name: String) -> (plan: Self)
        ensures
            plan.name == name,
            plan.description@.len() == 0,
            plan.thread_groups@.len() == 0,
            plan.variables@.len() == 0,
            plan.csv_data_sources@.len() == 0,
            plan.format_version == 1,
    {
        TestPlan {
            id: fresh_id(),
            name,
            description: String::new(),
            thread_groups: Vec::new(),
            variables: Vec::new(),
            csv_data_sources: Vec::new(),
            format_version: 1,
        }
    }
}


/// What the `csv` crate reads from a text: the first record as headers and
/// the records after it as rows, or the message of the error that stopped it.
#[derive(Debug, Clone)]
pub enum CsvRead {
    /// The headers could not be read.
    HeaderError(String),
    /// A row could not be read; the headers could.
    RowError { headers: Vec<String>, message: String },
    /// All was read.
    Table { headers: Vec<String>, rows: Vec<Vec<String>> },
}

/// What the `csv` crate reads from `content` with `delimiter` between the
/// fields, where rows may differ in length.
pub uninterp spec fn csv_read(content: Seq<char>, delimiter: u8) -> CsvRead;

/// A reader of the `csv` crate, built by `ReaderBuilder` with the delimiter,
/// with headers and with rows of any length, then `Reader::headers` and
/// `Reader::records`: the first record and those after it, field by field,
/// or the message of the first error. The result depends on the text and
/// the delimiter alone.
#[verifier::external_body]
fn read_csv(content: &str, delimiter: u8) -> (read: CsvRead)
    ensures
        read == csv_read(content@, delimiter),
{
    let mut reader = csv::ReaderBuilder::new().delimiter(delimiter).has_headers(true).flexible(
        true,
    ).from_reader(content.as_bytes());
    let headers: Vec<String> = match reader.headers() {
        Ok(h) => h.iter().map(|f| f.to_string()).collect(),
        Err(e) => return CsvRead::HeaderError(e.to_string()),
    };
    let mut rows = Vec::new();
    for record in reader.records() {
        match record {
            Ok(r) => rows.push(r.iter().map(|f| f.to_string()).collect()),
            Err(e) => return CsvRead::RowError { headers, message: e.to_string() },
        }
    }
    CsvRead::Table { headers, rows }
}

/// The columns and rows of a data source.
pub struct Table {
    pub columns: Seq<Seq<char>>,
    pub rows: Seq<Seq<Seq<char>>>,
}

/// The table that a data source is made of, given what was read: the
/// headers without the white space around them as columns, and the rows as
/// they are. There must be a column and a row; an error of reading is
/// passed on.
pub open spec fn table_of(read: CsvRead) -> Result<Table, Seq<char>> {
    match read {
        CsvRead::HeaderError(e) => Err("Failed to read CSV headers: "@ + e@),
        CsvRead::RowError { headers, message } => if headers@.len() == 0 {
            Err("CSV has no columns"@)
        } else {
            Err("Failed to read CSV row: "@ + message@)
        },
        CsvRead::Table { headers, rows } => if headers@.len() == 0 {
            Err("CSV has no columns"@)
        } else if rows@.len() == 0 {
            Err("CSV has no data rows"@)
        } else {
            Ok(
                Table {
                    columns: Seq::new(headers@.len(), |i: int| trimmed(headers@[i]@)),
                    rows: rows.deep_view(),
                },
            )
        },
    }
}

/// A data source is the one made of what was read.
pub open spec fn source_fits(
    made: Result<CsvDataSource, String>,
    name: String,
    read: CsvRead,
) -> bool {
    match table_of(read) {
        Ok(table) => made matches Ok(source) && {
            &&& source.name == name
            &&& source.columns.deep_view() == table.columns
            &&& source.rows.deep_view() == table.rows
            &&& source.sharing_mode == CsvSharingMode::AllThreads
            &&& source.recycle
        },
        Err(reason) => made matches Err(e) && e@ == reason,
    }
}

fn trim_headers(headers: &Vec<String>) -> (columns: Vec<String>)
    ensures
        columns.deep_view() == Seq::new(headers@.len(), |i: int| trimmed(headers@[i]@)),
{
    let mut columns: Vec<String> = Vec::new();
    let mut i: usize = 0;
    while i < headers.len()
        invariant
            i <= headers@.len(),
            columns@.len() == i,
            forall|k: int| 0 <= k < i ==> (#[trigger] columns@[k])@ == trimmed(headers@[k]@),
        decreases headers@.len() - i,
    {
        let chars = chars_of(headers[i].as_str());
        let (start, end) = trim_bounds(&chars);
        columns.push(substring(&chars, start, end));
        i += 1;
    }
    assert(columns.deep_view() =~= Seq::new(headers@.len(), |i: int| trimmed(headers@[i]@)));
    columns
}

impl CsvDataSource {
    /// Makes a data source named `name` of what was read from a CSV text:
    /// it recycles its rows and shares one counter among all users.
    pub fn from_csv_read(name: String, read: CsvRead) -> (made: Result<Self, String>)
        ensures
            source_fits(made, name, read),
    {
        match read {
            CsvRead::HeaderError(e) => Err(join2("Failed to read CSV headers: ", e.as_str())),
            CsvRead::RowError { headers, message } => {
                if headers.len() == 0 {
                    Err(String::from_str("CSV has no columns"))
                } else {
                    Err(join2("Failed to read CSV row: ", message.as_str()))
                }
            },
            CsvRead::Table { headers, rows } => {
                if headers.len() == 0 {
                    Err(String::from_str("CSV has no columns"))
                } else if rows.len() == 0 {
                    Err(String::from_str("CSV has no data rows"))
                } else {
                    Ok(
                        CsvDataSource {
                            id: fresh_id(),
                            name,
                            columns: trim_headers(&headers),
                            rows,
                            sharing_mode: CsvSharingMode::AllThreads,
                            recycle: true,
                        },
                    )
                }
            },
        }
    }

    /// Reads a CSV text, whose first line names the columns, into a data
    /// source named `name`.
    pub fn from_csv_content(name: String, content: &str, delimiter: u8) -> (made: Result<
        Self,
        String,
    >)
        ensures
            source_fits(made, name, csv_read(content@, delimiter)),
    {
        CsvDataSource::from_csv_read(name, read_csv(content, delimiter))
    }
}

} // verus!
