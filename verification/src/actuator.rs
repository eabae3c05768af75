//! What the server tells about itself: health, metrics and scheduled tasks.
use vstd::prelude::*;

use crate::error::{status_error, ApiError};
use crate::text::{parse_i64, split_at, split_words, text_eq};

verus! {

// ---- metrics ----

/// What a gauge of the server's contents counts.
#[derive(Clone, Copy, Debug, PartialEq, Eq, Structural)]
pub enum Gauge {
    Libraries,
    Series,
    Books,
    BooksFileSize,
    Collections,
    ReadLists,
    Sidecars,
}

/// A metric.
#[derive(Clone, Copy, Debug, PartialEq, Eq, Structural)]
pub enum Metric {
    MemoryUsed,
    StartTime,
    Uptime,
    CpuUsage,
    Contents(Gauge),
}

/// The name of a gauge.
pub open spec fn gauge_name(g: Gauge) -> Seq<char> {
    match g {
        Gauge::Libraries => "komga.libraries"@,
        Gauge::Series => "komga.series"@,
        Gauge::Books => "komga.books"@,
        Gauge::BooksFileSize => "komga.books.filesize"@,
        Gauge::Collections => "komga.collections"@,
        Gauge::ReadLists => "komga.readlists"@,
        Gauge::Sidecars => "komga.sidecars"@,
    }
}

/// The description of a gauge.
pub open spec fn gauge_description(g: Gauge) -> Seq<char> {
    match g {
        Gauge::Libraries => "Number of libraries"@,
        Gauge::Series => "Number of series"@,
        Gauge::Books => "Number of books"@,
        Gauge::BooksFileSize => "Total file size of all books"@,
        Gauge::Collections => "Number of collections"@,
        Gauge::ReadLists => "Number of read lists"@,
        Gauge::Sidecars => "Number of sidecars"@,
    }
}

/// What a gauge counts in.
pub open spec fn gauge_unit(g: Gauge) -> Seq<char> {
    match g {
        Gauge::Libraries => "libraries"@,
        Gauge::Series => "series"@,
        Gauge::Books => "books"@,
        Gauge::BooksFileSize => "bytes"@,
        Gauge::Collections => "collections"@,
        Gauge::ReadLists => "read lists"@,
        Gauge::Sidecars => "sidecars"@,
    }
}

/// The name of a metric.
pub open spec fn metric_name(m: Metric) -> Seq<char> {
    match m {
        Metric::MemoryUsed => "jvm.memory.used"@,
        Metric::StartTime => "process.start.time"@,
        Metric::Uptime => "process.uptime"@,
        Metric::CpuUsage => "process.cpu.usage"@,
        Metric::Contents(g) => gauge_name(g),
    }
}

/// The description of a metric.
pub open spec fn metric_description(m: Metric) -> Seq<char> {
    match m {
        Metric::MemoryUsed => "The amount of used memory"@,
        Metric::StartTime => "Start time of the process"@,
        Metric::Uptime => "The uptime of the Java virtual machine"@,
        Metric::CpuUsage => "The \"recent cpu usage\" for the Java Virtual Machine process"@,
        Metric::Contents(g) => gauge_description(g),
    }
}

/// What a metric is measured in.
pub open spec fn metric_unit(m: Metric) -> Seq<char> {
    match m {
        Metric::MemoryUsed => "bytes"@,
        Metric::StartTime => "milliseconds"@,
        Metric::Uptime => "seconds"@,
        Metric::CpuUsage => "percent"@,
        Metric::Contents(g) => gauge_unit(g),
    }
}

/// A metric that counts is measured in what it counts, one of sizes in bytes and one of times in a unit
/// of time.
pub proof fn metrics_are_measured_in_their_units(g: Gauge)
    ensures
        metric_unit(Metric::MemoryUsed) == metric_unit(Metric::Contents(Gauge::BooksFileSize)),
        metric_unit(Metric::MemoryUsed) == "bytes"@,
        metric_unit(Metric::StartTime) == "milliseconds"@,
        metric_unit(Metric::Uptime) == "seconds"@,
        metric_unit(Metric::CpuUsage) == "percent"@,
        g != Gauge::BooksFileSize ==> metric_description(Metric::Contents(g)) == "Number of "@
            + metric_unit(Metric::Contents(g)),
        g != Gauge::BooksFileSize && g != Gauge::ReadLists ==> metric_name(Metric::Contents(g))
            == "komga."@ + metric_unit(Metric::Contents(g)),
{
    reveal_strlit("Number of ");
    reveal_strlit("komga.");
    reveal_strlit("libraries");
    reveal_strlit("series");
    reveal_strlit("books");
    reveal_strlit("collections");
    reveal_strlit("read lists");
    reveal_strlit("sidecars");
    reveal_strlit("Number of libraries");
    reveal_strlit("Number of series");
    reveal_strlit("Number of books");
    reveal_strlit("Number of collections");
    reveal_strlit("Number of read lists");
    reveal_strlit("Number of sidecars");
    reveal_strlit("komga.libraries");
    reveal_strlit("komga.series");
    reveal_strlit("komga.books");
    reveal_strlit("komga.collections");
    reveal_strlit("komga.sidecars");
    match g {
        Gauge::Libraries => {
            assert(gauge_description(g) =~= "Number of "@ + gauge_unit(g));
            assert(gauge_name(g) =~= "komga."@ + gauge_unit(g));
        },
        Gauge::Series => {
            assert(gauge_description(g) =~= "Number of "@ + gauge_unit(g));
            assert(gauge_name(g) =~= "komga."@ + gauge_unit(g));
        },
        Gauge::Books => {
            assert(gauge_description(g) =~= "Number of "@ + gauge_unit(g));
            assert(gauge_name(g) =~= "komga."@ + gauge_unit(g));
        },
        Gauge::BooksFileSize => {},
        Gauge::Collections => {
            assert(gauge_description(g) =~= "Number of "@ + gauge_unit(g));
            assert(gauge_name(g) =~= "komga."@ + gauge_unit(g));
        },
        Gauge::ReadLists => {
            assert(gauge_description(g) =~= "Number of "@ + gauge_unit(g));
        },
        Gauge::Sidecars => {
            assert(gauge_description(g) =~= "Number of "@ + gauge_unit(g));
            assert(gauge_name(g) =~= "komga."@ + gauge_unit(g));
        },
    }
}

fn gauge_named(name: &str) -> (r: Option<Gauge>)
    ensures
        match r {
            Some(g) => gauge_name(g) == name@,
            None => forall|g: Gauge| gauge_name(g) != name@,
        },
{
    if text_eq(name, "komga.libraries") {
        Some(Gauge::Libraries)
    } else if text_eq(name, "komga.series") {
        Some(Gauge::Series)
    } else if text_eq(name, "komga.books") {
        Some(Gauge::Books)
    } else if text_eq(name, "komga.books.filesize") {
        Some(Gauge::BooksFileSize)
    } else if text_eq(name, "komga.collections") {
        Some(Gauge::Collections)
    } else if text_eq(name, "komga.readlists") {
        Some(Gauge::ReadLists)
    } else if text_eq(name, "komga.sidecars") {
        Some(Gauge::Sidecars)
    } else {
        None
    }
}

/// Finds the metric with this name; any other name is not found.
pub fn find_metric(name: &str) -> (r: Result<Metric, ApiError>)
    ensures
        match r {
            Ok(m) => metric_name(m) == name@,
            Err(e) => e.deep_view() == status_error(404, ""@) && forall|m: Metric|
                metric_name(m) != name@,
        },
{
    if text_eq(name, "jvm.memory.used") {
        Ok(Metric::MemoryUsed)
    } else if text_eq(name, "process.start.time") {
        Ok(Metric::StartTime)
    } else if text_eq(name, "process.uptime") {
        Ok(Metric::Uptime)
    } else if text_eq(name, "process.cpu.usage") {
        Ok(Metric::CpuUsage)
    } else {
        match gauge_named(name) {
            Some(g) => Ok(Metric::Contents(g)),
            None => {
                assert forall|m: Metric| metric_name(m) != name@ by {
                    match m {
                        Metric::Contents(g) => {
                            assert(gauge_name(g) != name@);
                        },
                        _ => {},
                    }
                }
                Err(ApiError::not_found(""))
            },
        }
    }
}

/// The name of a gauge, as a constant.
pub fn name_static(name: &str) -> (r: &'static str)
    requires
        exists|g: Gauge| gauge_name(g) == name@,
    ensures
        r@ == name@,
{
    match gauge_named(name) {
        Some(Gauge::Libraries) => "komga.libraries",
        Some(Gauge::Series) => "komga.series",
        Some(Gauge::Books) => "komga.books",
        Some(Gauge::BooksFileSize) => "komga.books.filesize",
        Some(Gauge::Collections) => "komga.collections",
        Some(Gauge::ReadLists) => "komga.readlists",
        Some(Gauge::Sidecars) => "komga.sidecars",
        None => "",
    }
}

/// The description of a gauge, as a constant.
pub fn description_static(s: &str) -> (r: &'static str)
    requires
        exists|g: Gauge| gauge_description(g) == s@,
    ensures
        r@ == s@,
{
    if text_eq(s, "Number of libraries") {
        "Number of libraries"
    } else if text_eq(s, "Number of series") {
        "Number of series"
    } else if text_eq(s, "Number of books") {
        "Number of books"
    } else if text_eq(s, "Total file size of all books") {
        "Total file size of all books"
    } else if text_eq(s, "Number of collections") {
        "Number of collections"
    } else if text_eq(s, "Number of read lists") {
        "Number of read lists"
    } else {
        "Number of sidecars"
    }
}

/// The unit of a gauge, as a constant.
pub fn base_unit_static(s: &str) -> (r: &'static str)
    requires
        exists|g: Gauge| gauge_unit(g) == s@,
    ensures
        r@ == s@,
{
    if text_eq(s, "libraries") {
        "libraries"
    } else if text_eq(s, "series") {
        "series"
    } else if text_eq(s, "books") {
        "books"
    } else if text_eq(s, "bytes") {
        "bytes"
    } else if text_eq(s, "collections") {
        "collections"
    } else if text_eq(s, "read lists") {
        "read lists"
    } else {
        "sidecars"
    }
}

/// What a metric is called and measured in.
#[derive(Debug, PartialEq, Eq)]
pub struct MetricInfo {
    pub name: &'static str,
    pub description: &'static str,
    pub base_unit: &'static str,
}

fn gauge_info(g: Gauge) -> (r: MetricInfo)
    ensures
        r.name@ == gauge_name(g),
        r.description@ == gauge_description(g),
        r.base_unit@ == gauge_unit(g),
{
    let (name, description, base_unit): (&'static str, &'static str, &'static str) = match g {
        Gauge::Libraries => ("komga.libraries", "Number of libraries", "libraries"),
        Gauge::Series => ("komga.series", "Number of series", "series"),
        Gauge::Books => ("komga.books", "Number of books", "books"),
        Gauge::BooksFileSize => ("komga.books.filesize", "Total file size of all books", "bytes"),
        Gauge::Collections => ("komga.collections", "Number of collections", "collections"),
        Gauge::ReadLists => ("komga.readlists", "Number of read lists", "read lists"),
        Gauge::Sidecars => ("komga.sidecars", "Number of sidecars", "sidecars"),
    };
    MetricInfo { name, description, base_unit }
}

/// Tells what a metric is called and measured in.
pub fn metric_info(m: Metric) -> (r: MetricInfo)
    ensures
        r.name@ == metric_name(m),
        r.description@ == metric_description(m),
        r.base_unit@ == metric_unit(m),
{
    match m {
        Metric::MemoryUsed => MetricInfo {
            name: "jvm.memory.used",
            description: "The amount of used memory",
            base_unit: "bytes",
        },
        Metric::StartTime => MetricInfo {
            name: "process.start.time",
            description: "Start time of the process",
            base_unit: "milliseconds",
        },
        Metric::Uptime => MetricInfo {
            name: "process.uptime",
            description: "The uptime of the Java virtual machine",
            base_unit: "seconds",
        },
        Metric::CpuUsage => MetricInfo {
            name: "process.cpu.usage",
            description: "The \"recent cpu usage\" for the Java Virtual Machine process",
            base_unit: "percent",
        },
        Metric::Contents(g) => gauge_info(g),
    }
}

/// All metrics, in the order of their names.
pub open spec fn all_metrics() -> Seq<Metric> {
    seq![
        Metric::MemoryUsed,
        Metric::Contents(Gauge::Books),
        Metric::Contents(Gauge::BooksFileSize),
        Metric::Contents(Gauge::Collections),
        Metric::Contents(Gauge::Libraries),
        Metric::Contents(Gauge::ReadLists),
        Metric::Contents(Gauge::Series),
        Metric::Contents(Gauge::Sidecars),
        Metric::CpuUsage,
        Metric::StartTime,
        Metric::Uptime,
    ]
}

/// The names of all metrics.
pub fn metric_names() -> (r: Vec<&'static str>)
    ensures
        r@.len() == all_metrics().len(),
        forall|i: int| 0 <= i < r@.len() ==> (#[trigger] r@[i])@ == metric_name(all_metrics()[i]),
{
    let mut r: Vec<&'static str> = Vec::new();
    r.push("jvm.memory.used");
    r.push("komga.books");
    r.push("komga.books.filesize");
    r.push("komga.collections");
    r.push("komga.libraries");
    r.push("komga.readlists");
    r.push("komga.series");
    r.push("komga.sidecars");
    r.push("process.cpu.usage");
    r.push("process.start.time");
    r.push("process.uptime");
    r
}

/// Every metric is listed.
pub proof fn every_metric_is_listed(m: Metric)
    ensures
        all_metrics().contains(m),
{
    let all = all_metrics();
    match m {
        Metric::MemoryUsed => {
            assert(all[0] == m);
        },
        Metric::Contents(Gauge::Books) => {
            assert(all[1] == m);
        },
        Metric::Contents(Gauge::BooksFileSize) => {
            assert(all[2] == m);
        },
        Metric::Contents(Gauge::Collections) => {
            assert(all[3] == m);
        },
        Metric::Contents(Gauge::Libraries) => {
            assert(all[4] == m);
        },
        Metric::Contents(Gauge::ReadLists) => {
            assert(all[5] == m);
        },
        Metric::Contents(Gauge::Series) => {
            assert(all[6] == m);
        },
        Metric::Contents(Gauge::Sidecars) => {
            assert(all[7] == m);
        },
        Metric::CpuUsage => {
            assert(all[8] == m);
        },
        Metric::StartTime => {
            assert(all[9] == m);
        },
        Metric::Uptime => {
            assert(all[10] == m);
        },
    }
}

/// A name tells which metric is meant.
pub proof fn metrics_have_names_of_their_own(a: Metric, b: Metric)
    requires
        metric_name(a) == metric_name(b),
    ensures
        a == b,
{
    reveal_strlit("jvm.memory.used");
    reveal_strlit("komga.books");
    reveal_strlit("komga.books.filesize");
    reveal_strlit("komga.collections");
    reveal_strlit("komga.libraries");
    reveal_strlit("komga.readlists");
    reveal_strlit("komga.series");
    reveal_strlit("komga.sidecars");
    reveal_strlit("process.cpu.usage");
    reveal_strlit("process.start.time");
    reveal_strlit("process.uptime");
    let (s, t) = (metric_name(a), metric_name(b));
    assert(s.len() == t.len() && s[0] == t[0] && s[6] == t[6] && s[8] == t[8]);
    match a {
        Metric::Contents(_) => {},
        _ => {
            match b {
                Metric::Contents(h) => {
                    assert(gauge_name(h)[0] == 'k');
                },
                _ => {},
            }
        },
    }
}

/// Whether a name is one of those that are listed.
pub open spec fn is_listed(name: Seq<char>) -> bool {
    exists|i: int| 0 <= i < all_metrics().len() && metric_name(#[trigger] all_metrics()[i]) == name
}

/// One measurement of a metric. Measured values are of type `V`.
#[derive(Debug, PartialEq, Eq)]
pub struct MetricMeasurement<V> {
    pub statistic: &'static str,
    pub value: V,
}

/// What is told of a metric.
#[derive(Debug, PartialEq, Eq)]
pub struct MetricBody<V> {
    pub name: &'static str,
    pub description: &'static str,
    pub base_unit: &'static str,
    pub measurements: Vec<MetricMeasurement<V>>,
    pub available_tags: Vec<String>,
}

/// Whether this is what is told of a metric: what it is, its one value, and no tags.
pub open spec fn is_metric_body<V>(body: MetricBody<V>, m: Metric, value: V) -> bool {
    &&& body.name@ == metric_name(m)
    &&& body.description@ == metric_description(m)
    &&& body.base_unit@ == metric_unit(m)
    &&& body.measurements@.len() == 1
    &&& body.measurements@[0].statistic@ == "VALUE"@
    &&& body.measurements@[0].value == value
    &&& body.available_tags@.len() == 0
}

/// A metric is told under its own name, with its one value and nothing more.
pub proof fn metric_is_told_with_its_value<V>(body: MetricBody<V>, m: Metric, value: V)
    requires
        is_metric_body(body, m, value),
    ensures
        body.name@ == metric_name(m),
        body.description@ == metric_description(m),
        body.base_unit@ == metric_unit(m),
        body.measurements@.len() == 1,
        body.measurements@[0].value == value,
        body.measurements@[0].statistic@ == "VALUE"@,
        body.available_tags@.len() == 0,
{
}

/// Tells of a metric that it has this value.
pub fn metric_body<V>(m: Metric, value: V) -> (r: MetricBody<V>)
    ensures
        is_metric_body(r, m, value),
{
    let info: MetricInfo = match m {
        Metric::Contents(g) => {
            let gauge: MetricInfo = gauge_info(g);
            MetricInfo {
                name: name_static(gauge.name),
                description: description_static(gauge.description),
                base_unit: base_unit_static(gauge.base_unit),
            }
        },
        _ => metric_info(m),
    };
    let mut measurements: Vec<MetricMeasurement<V>> = Vec::new();
    measurements.push(MetricMeasurement { statistic: "VALUE", value });
    MetricBody {
        name: info.name,
        description: info.description,
        base_unit: info.base_unit,
        measurements,
        available_tags: Vec::new(),
    }
}

/// Tells of the metric with this name what `measure` finds. A name that is not listed is not found.
pub fn get_metric<V, M: Fn(Metric) -> V>(name: &str, measure: M) -> (r: Result<MetricBody<V>, ApiError>)
    requires
        forall|m: Metric| call_requires(measure, (m,)),
    ensures
        r is Ok <==> is_listed(name@),
        match r {
            Ok(body) => body.name@ == name@ && exists|m: Metric, value: V| #[trigger]
                call_ensures(measure, (m,), value) && is_metric_body(body, m, value),
            Err(e) => e.deep_view() == status_error(404, ""@),
        },
{
    match find_metric(name) {
        Ok(m) => {
            proof {
                every_metric_is_listed(m);
                let i = choose|i: int| 0 <= i < all_metrics().len() && all_metrics()[i] == m;
                assert(metric_name(all_metrics()[i]) == name@);
            }
            Ok(metric_body(m, measure(m)))
        },
        Err(e) => Err(e),
    }
}

// ---- health ----

/// Whether a part of the server works.
pub open spec fn up_or_down(up: bool) -> Seq<char> {
    if up {
        "UP"@
    } else {
        "DOWN"@
    }
}

/// The status of a database, given what it answered a query for the number one: any other answer, or
/// none, means that it is down.
pub fn database_status(answer: Option<i64>) -> (r: &'static str)
    ensures
        r@ == up_or_down(answer == Some(1i64)),
{
    match answer {
        Some(1) => "UP",
        _ => "DOWN",
    }
}

/// Details are for administrators only.
pub fn shows_details(signed_in: bool, admin: bool) -> (r: bool)
    ensures
        r == (signed_in && admin),
{
    signed_in && admin
}

/// What is told of a database that works.
#[derive(Debug, PartialEq, Eq)]
pub struct DatabaseDetails {
    pub database: &'static str,
    pub validation_query: &'static str,
}

/// The health of one access to a database.
#[derive(Debug, PartialEq, Eq)]
pub struct DataSourceHealth {
    pub name: &'static str,
    pub status: &'static str,
    pub details: Option<DatabaseDetails>,
}

/// The health of the volume that the server keeps its configuration on, in bytes.
#[derive(Debug, PartialEq, Eq)]
pub struct DiskHealth {
    pub status: &'static str,
    pub total: i64,
    pub free: i64,
    pub threshold: i64,
    pub exists: bool,
}

/// The health of the parts of the server.
#[derive(Debug, PartialEq, Eq)]
pub struct HealthComponents {
    pub db_status: &'static str,
    pub data_sources: Vec<DataSourceHealth>,
    pub disk_space: DiskHealth,
}

/// The health of the server, with that of its parts for those who are shown it.
#[derive(Debug, PartialEq, Eq)]
pub struct Health {
    pub status: &'static str,
    pub components: Option<HealthComponents>,
}

/// The free space, in bytes, below which a volume counts as full.
pub const DISK_THRESHOLD: i64 = 10_485_760;

/// The names of the accesses to the databases: two to the main one, then two to that of the tasks.
pub open spec fn data_source_names() -> Seq<Seq<char>> {
    seq![
        "sqliteDataSourceRO"@,
        "sqliteDataSourceRW"@,
        "tasksDataSourceRO"@,
        "tasksDataSourceRW"@,
    ]
}

/// Whether this is the health of an access to a database that gave this answer.
pub open spec fn is_source_health(h: DataSourceHealth, name: Seq<char>, answer: Option<i64>) -> bool {
    &&& h.name@ == name
    &&& h.status@ == up_or_down(answer == Some(1i64))
    &&& match h.details {
        Some(d) => answer == Some(1i64) && d.database@ == "SQLite"@ && d.validation_query@
            == "isValid()"@,
        None => answer != Some(1i64),
    }
}

/// A database is told to be up, with what it is, exactly if it answered the query with its number.
pub proof fn database_is_up_iff_it_answers(
    h: DataSourceHealth,
    name: Seq<char>,
    answer: Option<i64>,
)
    requires
        is_source_health(h, name, answer),
    ensures
        h.name@ == name,
        answer == Some(1i64) ==> h.status@ == "UP"@ && h.details is Some
            && h.details->0.database@ == "SQLite"@ && h.details->0.validation_query@ == "isValid()"@,
        answer != Some(1i64) ==> h.status@ == "DOWN"@ && h.details is None,
{
}

fn source_health(name: &'static str, answer: Option<i64>) -> (r: DataSourceHealth)
    ensures
        is_source_health(r, name@, answer),
{
    let up: bool = match answer {
        Some(1) => true,
        _ => false,
    };
    DataSourceHealth {
        name,
        status: database_status(answer),
        details: if up {
            Some(DatabaseDetails { database: "SQLite", validation_query: "isValid()" })
        } else {
            None
        },
    }
}

/// Tells how the server is, given what its main database and that of its tasks answered a query for
/// the number one, and the total and the free bytes of its volume. The parts are for administrators
/// only. What is wrong with a part does not count for the whole.
pub fn health(
    signed_in: bool,
    admin: bool,
    main: Option<i64>,
    tasks: Option<i64>,
    total: i64,
    free: i64,
) -> (r: Health)
    ensures
        r.status@ == "UP"@,
        r.components is Some <==> signed_in && admin,
        r.components is Some ==> {
            let c = r.components->0;
            &&& c.db_status@ == "UP"@
            &&& c.data_sources@.len() == 4
            &&& forall|i: int|
                0 <= i < 4 ==> is_source_health(
                    #[trigger] c.data_sources@[i],
                    data_source_names()[i],
                    if i < 2 {
                        main
                    } else {
                        tasks
                    },
                )
            &&& c.disk_space.status@ == "UP"@
            &&& c.disk_space.total == total
            &&& c.disk_space.free == free
            &&& c.disk_space.threshold == DISK_THRESHOLD
            &&& c.disk_space.exists
        },
{
    if !shows_details(signed_in, admin) {
        return Health { status: "UP", components: None };
    }
    let mut data_sources: Vec<DataSourceHealth> = Vec::new();
    data_sources.push(source_health("sqliteDataSourceRO", main));
    data_sources.push(source_health("sqliteDataSourceRW", main));
    data_sources.push(source_health("tasksDataSourceRO", tasks));
    data_sources.push(source_health("tasksDataSourceRW", tasks));
    let disk_space: DiskHealth = DiskHealth {
        status: "UP",
        total,
        free,
        threshold: DISK_THRESHOLD,
        exists: true,
    };
    Health {
        status: "UP",
        components: Some(HealthComponents { db_status: "UP", data_sources, disk_space }),
    }
}

/// The total and the free blocks of 1024 bytes in the second line of a listing: its second and its
/// fourth word, if both are numbers.
pub open spec fn disk_blocks(listing: Seq<char>) -> Option<(i64, i64)> {
    let lines = crate::text::split(listing, '\n');
    let fields = crate::text::words(lines[1]);
    if lines.len() < 2 || fields.len() < 4 {
        None
    } else {
        match (crate::text::parsed_i64(fields[1]), crate::text::parsed_i64(fields[3])) {
            (Some(total), Some(free)) => Some((total, free)),
            _ => None,
        }
    }
}

/// Whether this is a word: something without white space.
pub open spec fn is_word(s: Seq<char>) -> bool {
    s.len() > 0 && forall|k: int| 0 <= k < s.len() ==> !crate::text::is_space(#[trigger] s[k])
}

/// A line with these words first.
pub open spec fn word_line(a: Seq<char>, b: Seq<char>, c: Seq<char>, d: Seq<char>, rest: Seq<char>) -> Seq<
    char,
> {
    a + seq![' '] + (b + seq![' '] + (c + seq![' '] + (d + seq![' '] + rest)))
}

/// Below the line with its headings, a listing tells the total blocks of a volume second and the free
/// ones fourth.
pub proof fn listing_tells_total_and_free_blocks(
    headings: Seq<char>,
    volume: Seq<char>,
    total: Seq<char>,
    used: Seq<char>,
    free: Seq<char>,
    rest: Seq<char>,
)
    requires
        !headings.contains('\n'),
        !word_line(volume, total, used, free, rest).contains('\n'),
        is_word(volume),
        is_word(total),
        is_word(used),
        is_word(free),
    ensures
        disk_blocks(headings) is None,
        disk_blocks(headings + seq!['\n'] + word_line(volume, total, used, free, rest)) is Some
            <==> crate::text::parsed_i64(total) is Some && crate::text::parsed_i64(free) is Some,
        crate::text::parsed_i64(total) is Some && crate::text::parsed_i64(free) is Some ==> disk_blocks(
            headings + seq!['\n'] + word_line(volume, total, used, free, rest),
        ) == Some((crate::text::parsed_i64(total)->0, crate::text::parsed_i64(free)->0)),
{
    let line = word_line(volume, total, used, free, rest);
    crate::text::parts_stand_between_separators(headings, '\n', line);
    crate::text::parts_stand_between_separators(line, '\n', Seq::empty());
    let lines = crate::text::split(headings + seq!['\n'] + line, '\n');
    assert(lines[1] == line);
    let d = free + seq![' '] + rest;
    let c = used + seq![' '] + d;
    let b = total + seq![' '] + c;
    crate::text::words_stand_between_spaces(volume, ' ', b);
    crate::text::words_stand_between_spaces(total, ' ', c);
    crate::text::words_stand_between_spaces(used, ' ', d);
    crate::text::words_stand_between_spaces(free, ' ', rest);
    let fields = crate::text::words(line);
    assert(fields[1] == total);
    assert(fields[3] == free);
}

/// Reads the total and the free blocks from a listing of a volume.
pub fn parse_disk_blocks(listing: &str) -> (r: Option<(i64, i64)>)
    ensures
        r == disk_blocks(listing@),
{
    let lines: Vec<String> = split_at(listing, '\n');
    assert(lines.deep_view().len() == lines.len());
    if lines.len() < 2 {
        return None;
    }
    assert(lines.deep_view()[1] == lines@[1]@);
    let fields: Vec<String> = split_words(lines[1].as_str());
    assert(fields.deep_view().len() == fields.len());
    if fields.len() < 4 {
        return None;
    }
    assert(fields.deep_view()[1] == fields@[1]@);
    assert(fields.deep_view()[3] == fields@[3]@);
    match (parse_i64(fields[1].as_str()), parse_i64(fields[3].as_str())) {
        (Some(total), Some(free)) => Some((total, free)),
        _ => None,
    }
}

/// The size of blocks in bytes.
pub fn block_bytes(blocks: i64) -> (r: i64)
    requires
        i64::MIN <= blocks * 1024 <= i64::MAX,
    ensures
        r == blocks * 1024,
{
    blocks * 1024
}

// ---- the platform ----

/// The name of an operating system.
pub fn os_display_name(os: &str) -> (r: String)
    ensures
        r@ == (if os@ == "macos"@ {
            "Mac OS X"@
        } else if os@ == "linux"@ {
            "Linux"@
        } else if os@ == "windows"@ {
            "Windows"@
        } else {
            os@
        }),
{
    if text_eq(os, "macos") {
        "Mac OS X".to_owned()
    } else if text_eq(os, "linux") {
        "Linux".to_owned()
    } else if text_eq(os, "windows") {
        "Windows".to_owned()
    } else {
        os.to_owned()
    }
}

/// The name of a processor architecture.
pub fn os_arch(arch: &str) -> (r: String)
    ensures
        r@ == (if arch@ == "x86_64"@ {
            "amd64"@
        } else {
            arch@
        }),
{
    if text_eq(arch, "x86_64") {
        "amd64".to_owned()
    } else {
        arch.to_owned()
    }
}

// ---- scheduled tasks ----

/// A library that is scanned at an interval.
#[derive(Debug, PartialEq, Eq)]
pub struct ScanRegistration {
    pub library_name: String,
    pub period_millis: u64,
}

/// A task that runs at an interval, the first time after one interval.
#[derive(Debug, PartialEq, Eq)]
pub struct ScheduledTask {
    pub target: String,
    pub initial_delay: u64,
    pub interval: u64,
}

/// A [`ScheduledTask`] by its texts.
#[verifier::ext_equal]
pub struct TaskView {
    pub target: Seq<char>,
    pub initial_delay: u64,
    pub interval: u64,
}

impl DeepView for ScheduledTask {
    type V = TaskView;

    open spec fn deep_view(&self) -> TaskView {
        TaskView {
            target: self.target@,
            initial_delay: self.initial_delay,
            interval: self.interval,
        }
    }
}

/// A task that runs every so many milliseconds.
pub open spec fn every(target: Seq<char>, millis: u64) -> TaskView {
    TaskView { target, initial_delay: millis, interval: millis }
}

/// The scan of a library as a task.
pub open spec fn scan_task(r: ScanRegistration) -> TaskView {
    every("ScanScheduler for library '"@ + r.library_name@ + "'"@, r.period_millis)
}

/// The tasks that every server has.
pub open spec fn standing_tasks() -> Seq<TaskView> {
    seq![
        every("SseController.heartbeat"@, 15_000),
        every("SseController.taskCount"@, 10_000),
        every("AuthenticationActivityCleanupController.cleanup"@, 86_400_000),
    ]
}

/// All tasks of a server that scans these libraries at an interval.
pub open spec fn tasks_of(scans: Seq<ScanRegistration>) -> Seq<TaskView> {
    Seq::new(scans.len(), |i: int| scan_task(scans[i])) + standing_tasks()
}

/// Every library is scanned at its own interval, the first time after one interval, in the order of the
/// libraries; and every server sends a heartbeat and the number of its tasks, and forgets old sign-ins
/// once a day.
pub proof fn libraries_are_scanned_at_their_intervals(scans: Seq<ScanRegistration>, i: int)
    requires
        0 <= i < scans.len(),
    ensures
        tasks_of(scans).len() == scans.len() + 3,
        tasks_of(scans)[i].interval == scans[i].period_millis,
        tasks_of(scans)[i].initial_delay == scans[i].period_millis,
        tasks_of(scans)[i].target == "ScanScheduler for library '"@ + scans[i].library_name@ + "'"@,
        forall|k: int|
            scans.len() <= k < tasks_of(scans).len() ==> (#[trigger] tasks_of(scans)[k]).initial_delay
                == tasks_of(scans)[k].interval,
        tasks_of(scans).contains(
            TaskView {
                target: "SseController.heartbeat"@,
                initial_delay: 15_000,
                interval: 15_000,
            },
        ),
        tasks_of(scans).contains(
            TaskView {
                target: "SseController.taskCount"@,
                initial_delay: 10_000,
                interval: 10_000,
            },
        ),
        tasks_of(scans).contains(
            TaskView {
                target: "AuthenticationActivityCleanupController.cleanup"@,
                initial_delay: 86_400_000,
                interval: 86_400_000,
            },
        ),
{
    let n = scans.len() as int;
    let t = tasks_of(scans);
    assert(t[n] == standing_tasks()[0]);
    assert(t[n + 1] == standing_tasks()[1]);
    assert(t[n + 2] == standing_tasks()[2]);
}

fn task(target: String, millis: u64) -> (r: ScheduledTask)
    ensures
        r.deep_view() == every(target@, millis),
{
    ScheduledTask { target, initial_delay: millis, interval: millis }
}

/// All tasks that run at an interval: the scans of libraries, then the standing ones.
pub fn scheduled_tasks(scans: &Vec<ScanRegistration>) -> (r: Vec<ScheduledTask>)
    ensures
        r.deep_view() == tasks_of(scans@),
{
    let ghost all = Seq::new(scans@.len(), |i: int| scan_task(scans@[i]));
    let mut r: Vec<ScheduledTask> = Vec::new();
    let mut i: usize = 0;
    assert(r.deep_view() =~= all.take(0));
    while i < scans.len()
        invariant
            i <= scans.len(),
            all == Seq::new(scans@.len(), |i: int| scan_task(scans@[i])),
            r.deep_view() == all.take(i as int),
        decreases scans.len() - i,
    {
        let mut target: String = "ScanScheduler for library '".to_owned();
        target.append(scans[i].library_name.as_str());
        target.append("'");
        let t: ScheduledTask = task(target, scans[i].period_millis);
        let ghost before = r.deep_view();
        r.push(t);
        assert(r.deep_view() =~= before.push(t.deep_view()));
        assert(r.deep_view() =~= all.take(i as int + 1));
        i += 1;
    }
    assert(all.take(all.len() as int) =~= all);
    r.push(task("SseController.heartbeat".to_owned(), 15_000));
    r.push(task("SseController.taskCount".to_owned(), 10_000));
    r.push(task("AuthenticationActivityCleanupController.cleanup".to_owned(), 86_400_000));
    assert(r.deep_view() =~= all + standing_tasks());
    r
}

} // verus!
