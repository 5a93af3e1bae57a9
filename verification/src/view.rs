//! Snapshot -> page model: the palette, the chart and table contents and the
//! status line, shared by the live dashboard and the offscreen self-check.
//! The colours are plain `(r, g, b)` triples, so the self-check can count
//! them in a rendered buffer.

use vstd::prelude::*;
use crate::agh::{rows_view, Snapshot};
use crate::text::{decimal, decimal_string, push_str};

verus! {

/// The palette: page background, card background, table grid, cell text,
/// muted and error status text, and the protection badge on and off.
pub const PAGE: (u8, u8, u8) = (0x0F, 0x14, 0x19);
pub const CARD: (u8, u8, u8) = (0x19, 0x21, 0x2A);
pub const GRID: (u8, u8, u8) = (0x2B, 0x36, 0x44);
pub const TEXT: (u8, u8, u8) = (0xE6, 0xED, 0xF3);
pub const MUTED: (u8, u8, u8) = (0x8B, 0x98, 0xA5);
pub const BAD: (u8, u8, u8) = (0xE5, 0x53, 0x4B);
pub const PROT_ON: (u8, u8, u8) = (0x2F, 0x9E, 0x63);
pub const PROT_OFF: (u8, u8, u8) = (0xD5, 0x47, 0x3F);

/// The bar colour of each chart card, in the order the row shows them.
pub const SERIES: [(u8, u8, u8); 4] = [
    (0x4F, 0xA3, 0xE3),
    (0xE8, 0x84, 0x3C),
    (0xA8, 0x6F, 0xE0),
    (0x4F, 0xD1, 0xA5),
];

/// The header's status text and its colour.
#[derive(Debug)]
pub struct StatusLine {
    pub color: (u8, u8, u8),
    pub text: String,
}

/// One two-column table row.
#[derive(Debug)]
pub struct RowData {
    pub label: String,
    pub value: String,
}

/// A headed table.
#[derive(Debug)]
pub struct TableData {
    pub title: String,
    pub col0: String,
    pub col1: String,
    pub rows: Vec<RowData>,
}

/// One chart card: title, running total, colour and the charted buckets with
/// their maximum (the bars are the values relative to it).
#[derive(Debug)]
pub struct ChartData {
    pub title: String,
    pub total: String,
    pub color: (u8, u8, u8),
    pub values: Vec<u32>,
    pub max: u32,
    /// Nothing to draw: every bucket is zero (or there are none).
    pub empty: bool,
}

/// Everything the page shows of one snapshot.
#[derive(Debug)]
pub struct Page {
    pub footer_source: String,
    pub footer_version: String,
    pub protection_known: bool,
    pub protection_on: bool,
    pub protection_text: String,
    pub charts: Vec<ChartData>,
    pub general: TableData,
    pub top_clients: TableData,
    pub top_queried: TableData,
    pub top_blocked: TableData,
    pub status: StatusLine,
}

/// Show an error in the status line, in the error colour.
pub fn set_error(status: &mut StatusLine, text: &str)
    ensures
        final(status).color == BAD,
        final(status).text@ == text@,
{
    status.color = BAD;
    status.text = String::from_str(text);
}

/// Report the age of the data: `stale` in the error colour once it is too
/// old, else `updated <n>s ago` in the muted colour.
pub fn set_age(status: &mut StatusLine, stale: bool, age_secs: u64)
    ensures
        stale ==> final(status).color == BAD && final(status).text@ == "stale"@,
        !stale ==> final(status).color == MUTED && final(status).text@ == "updated "@ + decimal(
            age_secs as nat,
        ) + "s ago"@,
{
    if stale {
        set_error(status, "stale");
    } else {
        let mut text = String::new();
        push_str(&mut text, "updated ");
        let n = decimal_string(age_secs);
        push_str(&mut text, n.as_str());
        push_str(&mut text, "s ago");
        status.color = MUTED;
        status.text = text;
    }
}

/// The largest value, zero for none.
pub open spec fn seq_max(s: Seq<u32>) -> u32
    decreases s.len(),
{
    if s.len() == 0 {
        0
    } else {
        let m = seq_max(s.drop_last());
        if s.last() > m {
            s.last()
        } else {
            m
        }
    }
}

fn max_of(values: &Vec<u32>) -> (res: u32)
    ensures
        res == seq_max(values@),
{
    let mut m: u32 = 0;
    let mut i: usize = 0;
    while i < values.len()
        invariant
            i <= values@.len(),
            m == seq_max(values@.take(i as int)),
        decreases values@.len() - i,
    {
        assert(values@.take(i + 1).drop_last() =~= values@.take(i as int));
        if values[i] > m {
            m = values[i];
        }
        i = i + 1;
    }
    assert(values@.take(values@.len() as int) =~= values@);
    m
}

/// A row as its label and value characters.
pub open spec fn row_pair(r: RowData) -> (Seq<char>, Seq<char>) {
    (r.label@, r.value@)
}

/// The rows of a table as character pairs.
pub open spec fn table_rows(t: TableData) -> Seq<(Seq<char>, Seq<char>)> {
    t.rows@.map_values(|r: RowData| row_pair(r))
}

/// The table's title, column heads and rows, as character sequences.
pub open spec fn table_is(
    t: TableData,
    title: Seq<char>,
    col0: Seq<char>,
    col1: Seq<char>,
    rows: Seq<(Seq<char>, Seq<char>)>,
) -> bool {
    t.title@ == title && t.col0@ == col0 && t.col1@ == col1 && table_rows(t) == rows
}

/// A two-column row.
pub fn row(label: &str, value: &str) -> (res: RowData)
    ensures
        res.label@ == label@,
        res.value@ == value@,
{
    RowData { label: String::from_str(label), value: String::from_str(value) }
}

/// A headed table of the given rows.
pub fn table(title: &str, col0: &str, col1: &str, rows: Vec<RowData>) -> (res: TableData)
    ensures
        res.title@ == title@,
        res.col0@ == col0@,
        res.col1@ == col1@,
        res.rows@ == rows@,
{
    TableData {
        title: String::from_str(title),
        col0: String::from_str(col0),
        col1: String::from_str(col1),
        rows,
    }
}

/// The rows of a top list: the label, and the count in decimal.
pub open spec fn list_rows(entries: Seq<(Seq<char>, u64)>) -> Seq<(Seq<char>, Seq<char>)> {
    entries.map_values(|e: (Seq<char>, u64)| (e.0, decimal(e.1 as nat)))
}

/// A table of top-list entries.
pub fn list(title: &str, col0: &str, col1: &str, entries: &Vec<(String, u64)>) -> (res: TableData)
    ensures
        table_is(res, title@, col0@, col1@, list_rows(rows_view(entries@))),
{
    let mut rows: Vec<RowData> = Vec::new();
    let mut i: usize = 0;
    while i < entries.len()
        invariant
            i <= entries@.len(),
            rows@.map_values(|r: RowData| row_pair(r)) == list_rows(
                rows_view(entries@.take(i as int)),
            ),
        decreases entries@.len() - i,
    {
        let count = decimal_string(entries[i].1);
        let r = row(entries[i].0.as_str(), count.as_str());
        let ghost before = rows@;
        rows.push(r);
        proof {
            let prev = rows_view(entries@.take(i as int));
            let next = rows_view(entries@.take(i + 1));
            assert(next =~= prev.push((entries@[i as int].0@, entries@[i as int].1)));
            assert(list_rows(next) =~= list_rows(prev).push(
                (entries@[i as int].0@, decimal(entries@[i as int].1 as nat)),
            ));
            assert(rows@.map_values(|r: RowData| row_pair(r)) =~= before.map_values(
                |r: RowData| row_pair(r),
            ).push(row_pair(r)));
        }
        i = i + 1;
    }
    assert(entries@.take(entries@.len() as int) =~= entries@);
    table(title, col0, col1, rows)
}

/// The chart titles, in card order.
pub open spec fn chart_title(index: int) -> Seq<char> {
    if index == 0 {
        "DNS queries"@
    } else if index == 1 {
        "Blocked by filters"@
    } else if index == 2 {
        "Blocked malware / phishing"@
    } else {
        "Blocked adult websites"@
    }
}

fn chart_title_exec(index: usize) -> (res: &'static str)
    requires
        index < 4,
    ensures
        res@ == chart_title(index as int),
{
    if index == 0 {
        "DNS queries"
    } else if index == 1 {
        "Blocked by filters"
    } else if index == 2 {
        "Blocked malware / phishing"
    } else {
        "Blocked adult websites"
    }
}

/// The running counter shown as a chart's total (what the general table
/// shows), not the sum of the charted window.
pub open spec fn chart_total(snapshot: Snapshot, index: int) -> u64 {
    if index == 0 {
        snapshot.queries
    } else if index == 1 {
        snapshot.blocked_filtering
    } else if index == 2 {
        snapshot.safebrowsing
    } else {
        snapshot.parental
    }
}

/// The chart card of one series.
pub open spec fn chart_is(c: ChartData, snapshot: Snapshot, index: int) -> bool {
    &&& c.title@ == chart_title(index)
    &&& c.total@ == decimal(chart_total(snapshot, index) as nat)
    &&& c.color == SERIES[index]
    &&& c.values@ == snapshot.series[index]@
    &&& c.max == seq_max(snapshot.series[index]@)
    &&& c.empty == (seq_max(snapshot.series[index]@) == 0)
}

/// The rows of the general statistics table; the blocked share and the
/// average processing time come formatted (one decimal) from the caller.
pub open spec fn general_rows(snapshot: Snapshot, percent: Seq<char>, avg_ms: Seq<char>) -> Seq<
    (Seq<char>, Seq<char>),
> {
    seq![
        ("DNS queries"@, decimal(snapshot.queries as nat)),
        ("Blocked by filters"@, decimal(snapshot.blocked_filtering as nat)),
        ("Blocked malware / phishing"@, decimal(snapshot.safebrowsing as nat)),
        ("Blocked adult websites"@, decimal(snapshot.parental as nat)),
        ("Blocked safe search"@, decimal(snapshot.safesearch as nat)),
        (
            "Blocked total"@,
            decimal((snapshot.blocked_filtering + snapshot.safebrowsing + snapshot.parental) as nat)
                + " ("@ + percent + "%)"@,
        ),
        ("Average processing time"@, avg_ms + " ms"@),
    ]
}

/// The protection badge's text.
pub open spec fn protection_text(p: Option<bool>) -> Seq<char> {
    match p {
        Some(true) => "Protection: enabled"@,
        Some(false) => "Protection: disabled"@,
        None => "Protection: unknown"@,
    }
}

fn chart(snapshot: &Snapshot, index: usize) -> (res: ChartData)
    requires
        index < 4,
    ensures
        chart_is(res, *snapshot, index as int),
{
    let total = if index == 0 {
        snapshot.queries
    } else if index == 1 {
        snapshot.blocked_filtering
    } else if index == 2 {
        snapshot.safebrowsing
    } else {
        snapshot.parental
    };
    let values = snapshot.series[index].clone();
    let max = max_of(&values);
    ChartData {
        title: String::from_str(chart_title_exec(index)),
        total: decimal_string(total),
        color: SERIES[index],
        values,
        max,
        empty: max == 0,
    }
}

fn value_row(label: &str, n: u64) -> (res: RowData)
    ensures
        row_pair(res) == (label@, decimal(n as nat)),
{
    let v = decimal_string(n);
    row(label, v.as_str())
}

/// The general table names each counter: its first rows are DNS queries,
/// blocked by filters, blocked malware/phishing (the safebrowsing counter),
/// blocked adult websites (the parental counter) and blocked safe search, each
/// in decimal; and each of the first four rows is the title and total of the
/// chart card in the same position.
pub proof fn law_general_rows_match_charts(snapshot: Snapshot, percent: Seq<char>, avg_ms: Seq<char>)
    ensures
        general_rows(snapshot, percent, avg_ms)[0] == ("DNS queries"@, decimal(
            snapshot.queries as nat,
        )),
        general_rows(snapshot, percent, avg_ms)[1] == ("Blocked by filters"@, decimal(
            snapshot.blocked_filtering as nat,
        )),
        general_rows(snapshot, percent, avg_ms)[2] == ("Blocked malware / phishing"@, decimal(
            snapshot.safebrowsing as nat,
        )),
        general_rows(snapshot, percent, avg_ms)[3] == ("Blocked adult websites"@, decimal(
            snapshot.parental as nat,
        )),
        general_rows(snapshot, percent, avg_ms)[4] == ("Blocked safe search"@, decimal(
            snapshot.safesearch as nat,
        )),
        forall|i: int|
            0 <= i < 4 ==> #[trigger] general_rows(snapshot, percent, avg_ms)[i] == (
                chart_title(i),
                decimal(chart_total(snapshot, i) as nat),
            ),
{
}

/// Push a snapshot into a page: charts, tables, badge, footer, and the status
/// line reset to `updated 0s ago`.
pub fn fill(snapshot: &Snapshot, source: &str, percent: &str, avg_ms: &str) -> (res: Page)
    requires
        snapshot.blocked_fits(),
    ensures
        res.footer_source@ == source@,
        res.footer_version@ == "AdGuard Home "@ + if snapshot.version@.len() == 0 {
            "version unknown"@
        } else {
            snapshot.version@
        },
        res.protection_known == snapshot.protection is Some,
        res.protection_on == (snapshot.protection == Some(true)),
        res.protection_text@ == protection_text(snapshot.protection),
        res.charts@.len() == 4,
        forall|i: int| 0 <= i < 4 ==> chart_is(#[trigger] res.charts@[i], *snapshot, i),
        table_is(
            res.general,
            "General statistics"@,
            "Metric"@,
            "Value"@,
            general_rows(*snapshot, percent@, avg_ms@),
        ),
        table_is(
            res.top_clients,
            "Top clients"@,
            "Client"@,
            "Requests"@,
            list_rows(rows_view(snapshot.top_clients@)),
        ),
        table_is(
            res.top_queried,
            "Top queried domains"@,
            "Domain"@,
            "Requests"@,
            list_rows(rows_view(snapshot.top_queried@)),
        ),
        table_is(
            res.top_blocked,
            "Top blocked domains"@,
            "Domain"@,
            "Requests"@,
            list_rows(rows_view(snapshot.top_blocked@)),
        ),
        res.status.color == MUTED,
        res.status.text@ == "updated 0s ago"@,
        table_rows(res.general)[0] == ("DNS queries"@, decimal(snapshot.queries as nat)),
        table_rows(res.general)[1] == ("Blocked by filters"@, decimal(
            snapshot.blocked_filtering as nat,
        )),
        table_rows(res.general)[2] == ("Blocked malware / phishing"@, decimal(
            snapshot.safebrowsing as nat,
        )),
        table_rows(res.general)[3] == ("Blocked adult websites"@, decimal(snapshot.parental as nat)),
        table_rows(res.general)[4] == ("Blocked safe search"@, decimal(snapshot.safesearch as nat)),
        forall|i: int|
            0 <= i < 4 ==> #[trigger] table_rows(res.general)[i] == (
                res.charts@[i].title@,
                res.charts@[i].total@,
            ),
{
    proof {
        law_general_rows_match_charts(*snapshot, percent@, avg_ms@);
    }
    let mut version = String::new();
    push_str(&mut version, "AdGuard Home ");
    if snapshot.version.as_str().unicode_len() == 0 {
        push_str(&mut version, "version unknown");
    } else {
        push_str(&mut version, snapshot.version.as_str());
    }
    let protection_text = match snapshot.protection {
        Some(true) => "Protection: enabled",
        Some(false) => "Protection: disabled",
        None => "Protection: unknown",
    };

    let mut charts: Vec<ChartData> = Vec::new();
    let mut i: usize = 0;
    while i < 4
        invariant
            i <= 4,
            charts@.len() == i,
            forall|k: int| 0 <= k < i ==> chart_is(#[trigger] charts@[k], *snapshot, k),
        decreases 4 - i,
    {
        charts.push(chart(snapshot, i));
        i = i + 1;
    }

    let total = snapshot.blocked_total();
    let mut total_text = decimal_string(total);
    push_str(&mut total_text, " (");
    push_str(&mut total_text, percent);
    push_str(&mut total_text, "%)");
    let mut avg_text = String::from_str(avg_ms);
    push_str(&mut avg_text, " ms");

    let mut rows: Vec<RowData> = Vec::new();
    rows.push(value_row("DNS queries", snapshot.queries));
    rows.push(value_row("Blocked by filters", snapshot.blocked_filtering));
    rows.push(value_row("Blocked malware / phishing", snapshot.safebrowsing));
    rows.push(value_row("Blocked adult websites", snapshot.parental));
    rows.push(value_row("Blocked safe search", snapshot.safesearch));
    rows.push(row("Blocked total", total_text.as_str()));
    rows.push(row("Average processing time", avg_text.as_str()));
    let general = table("General statistics", "Metric", "Value", rows);
    assert(table_rows(general) =~= general_rows(*snapshot, percent@, avg_ms@));

    Page {
        footer_source: String::from_str(source),
        footer_version: version,
        protection_known: snapshot.protection.is_some(),
        protection_on: match snapshot.protection {
            Some(b) => b,
            None => false,
        },
        protection_text: String::from_str(protection_text),
        charts,
        general,
        top_clients: list("Top clients", "Client", "Requests", &snapshot.top_clients),
        top_queried: list("Top queried domains", "Domain", "Requests", &snapshot.top_queried),
        top_blocked: list("Top blocked domains", "Domain", "Requests", &snapshot.top_blocked),
        status: StatusLine { color: MUTED, text: String::from_str("updated 0s ago") },
    }
}

} // verus!
