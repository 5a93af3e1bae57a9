//! AdGuard Home statistics: the model of `/control/stats` and
//! `/control/status`, and the rules that turn them into a dashboard snapshot.
//!
//! * the per-bucket series arrays cover the server's whole statistics
//!   interval, oldest first, so only the newest `CHART_BUCKETS` are charted;
//! * the three top lists arrive as single-key objects (`{"pass.proton.me": 23}`)
//!   or, from older builds, with explicit fields; an unrecognised entry yields
//!   no row;
//! * a failed refresh never produces a snapshot (see `dashboard`).

use vstd::prelude::*;
use base64::Engine;
use crate::text::{chars_of, decimal, decimal_string, parse_int, parse_unsigned, push_str, slice_chars, str_eq, string_from};

verus! {

/// Buckets charted per series (the newest ones).
pub const CHART_BUCKETS: usize = 24;

/// Rows shown per top-list table.
pub const TOP_ROWS: usize = 9;

/// A value inside a top-list entry, as far as the row logic reads it.
#[derive(Debug)]
pub enum JsonField {
    Null,
    Bool(bool),
    /// A number that is a non-negative integer fitting in `u64`.
    UInt(u64),
    /// Any other number (negative or fractional).
    OtherNumber,
    Str(String),
    Array,
    Object,
}

/// One element of a top list: an object with its fields in key order, or
/// anything else.
#[derive(Debug)]
pub enum JsonEntry {
    Object(Vec<(String, JsonField)>),
    Other,
}

/// The counters, series and top lists of `/control/stats` that the dashboard
/// shows (absent fields are zero or empty).
#[derive(Debug)]
pub struct Stats {
    pub num_dns_queries: u64,
    pub num_blocked_filtering: u64,
    pub num_replaced_safebrowsing: u64,
    pub num_replaced_parental: u64,
    pub num_replaced_safesearch: u64,
    pub dns_queries: Vec<u32>,
    pub blocked_filtering: Vec<u32>,
    pub replaced_safebrowsing: Vec<u32>,
    pub replaced_parental: Vec<u32>,
    pub top_queried_domains: Vec<JsonEntry>,
    pub top_blocked_domains: Vec<JsonEntry>,
    pub top_clients: Vec<JsonEntry>,
}

/// `/control/status`: the server version and whether protection is on.
#[derive(Debug)]
pub struct Status {
    pub version: String,
    pub protection_enabled: Option<bool>,
}

impl Status {
    /// The status used when the endpoint failed: unknown version, unknown
    /// protection.
    pub fn unknown() -> (res: Status)
        ensures
            res.version@ == Seq::<char>::empty(),
            res.protection_enabled is None,
    {
        Status { version: String::new(), protection_enabled: None }
    }
}

/// What the dashboard shows of one refresh.
#[derive(Debug)]
pub struct Snapshot {
    pub queries: u64,
    pub blocked_filtering: u64,
    pub safebrowsing: u64,
    pub parental: u64,
    pub safesearch: u64,
    /// DNS queries, blocked by filters, blocked malware/phishing, blocked
    /// adult websites: the newest buckets of each.
    pub series: [Vec<u32>; 4],
    pub top_clients: Vec<(String, u64)>,
    pub top_queried: Vec<(String, u64)>,
    pub top_blocked: Vec<(String, u64)>,
    pub protection: Option<bool>,
    pub version: String,
}

impl Snapshot {
    /// Whether the three blocked counters add up without overflowing.
    pub open spec fn blocked_fits(&self) -> bool {
        self.blocked_filtering + self.safebrowsing + self.parental <= u64::MAX
    }

    /// Everything blocked: by filters, as malware/phishing and as adult sites.
    pub fn blocked_total(&self) -> (res: u64)
        requires
            self.blocked_fits(),
        ensures
            res == self.blocked_filtering + self.safebrowsing + self.parental,
    {
        self.blocked_filtering + self.safebrowsing + self.parental
    }

    /// No data at all: zero counters, empty series and lists, unknown
    /// protection and version.
    pub open spec fn no_data(&self) -> bool {
        &&& self.queries == 0 && self.blocked_filtering == 0 && self.safebrowsing == 0
        &&& self.parental == 0 && self.safesearch == 0
        &&& forall|i: int| 0 <= i < 4 ==> (#[trigger] self.series[i])@.len() == 0
        &&& self.top_clients@.len() == 0
        &&& self.top_queried@.len() == 0
        &&& self.top_blocked@.len() == 0
        &&& self.protection is None
        &&& self.version@.len() == 0
    }

    /// A snapshot with no data: zero counters, empty series and lists,
    /// unknown protection and version.
    pub fn empty() -> (res: Snapshot)
        ensures
            res.no_data(),
            res.queries == 0 && res.blocked_filtering == 0 && res.safebrowsing == 0,
            res.parental == 0 && res.safesearch == 0,
            forall|i: int| 0 <= i < 4 ==> (#[trigger] res.series[i])@.len() == 0,
            res.top_clients@.len() == 0,
            res.top_queried@.len() == 0,
            res.top_blocked@.len() == 0,
            res.protection is None,
            res.version@.len() == 0,
    {
        Snapshot {
            queries: 0,
            blocked_filtering: 0,
            safebrowsing: 0,
            parental: 0,
            safesearch: 0,
            series: [Vec::new(), Vec::new(), Vec::new(), Vec::new()],
            top_clients: Vec::new(),
            top_queried: Vec::new(),
            top_blocked: Vec::new(),
            protection: None,
            version: String::new(),
        }
    }
}

/// The newest `CHART_BUCKETS` values of a series that arrives oldest-first:
/// its last `min(len, CHART_BUCKETS)` values, in order.
pub open spec fn spec_newest(values: Seq<u32>) -> Seq<u32> {
    if values.len() <= CHART_BUCKETS {
        values
    } else {
        values.skip(values.len() - CHART_BUCKETS)
    }
}

/// The newest `CHART_BUCKETS` values of a series that arrives oldest-first.
pub fn newest(values: &[u32]) -> (res: Vec<u32>)
    ensures
        res@ == spec_newest(values@),
{
    let n = values.len();
    let start = if n > CHART_BUCKETS { n - CHART_BUCKETS } else { 0 };
    let mut res: Vec<u32> = Vec::new();
    let mut i = start;
    while i < n
        invariant
            n == values@.len(),
            start <= i <= n,
            res@ == values@.subrange(start as int, i as int),
        decreases n - i,
    {
        res.push(values[i]);
        i = i + 1;
        assert(res@ =~= values@.subrange(start as int, i as int));
    }
    assert(res@ =~= spec_newest(values@));
    res
}

/// The first field of an object with the given key.
pub open spec fn lookup(fields: Seq<(String, JsonField)>, key: Seq<char>) -> Option<JsonField>
    decreases fields.len(),
{
    if fields.len() == 0 {
        None
    } else if fields[0].0@ == key {
        Some(fields[0].1)
    } else {
        lookup(fields.drop_first(), key)
    }
}

/// A count: a non-negative integer, or a string holding one in decimal.
pub open spec fn spec_as_count(value: JsonField) -> Option<u64> {
    match value {
        JsonField::UInt(n) => Some(n),
        JsonField::Str(s) => match parse_int(s@, 0, u64::MAX as int) {
            Ok(n) => Some(n as u64),
            Err(_) => None,
        },
        _ => None,
    }
}

/// A count written as a decimal string reads as the same count as the number
/// itself.
pub proof fn law_string_count_is_the_number(text: String, n: u64)
    requires
        text@ == decimal(n as nat),
    ensures
        spec_as_count(JsonField::Str(text)) == Some(n),
        spec_as_count(JsonField::UInt(n)) == Some(n),
{
    crate::text::lemma_parse_decimal(n as nat, 0, u64::MAX as int);
}

/// The string value of the field under `key`, when there is one.
pub open spec fn str_field(fields: Seq<(String, JsonField)>, key: Seq<char>) -> Option<Seq<char>> {
    match lookup(fields, key) {
        Some(JsonField::Str(s)) => Some(s@),
        _ => None,
    }
}

/// The label of an explicit-field entry: the first of `domain`, `name`, `ip`
/// that holds a string.
pub open spec fn explicit_label(fields: Seq<(String, JsonField)>) -> Option<Seq<char>> {
    if str_field(fields, "domain"@) is Some {
        str_field(fields, "domain"@)
    } else if str_field(fields, "name"@) is Some {
        str_field(fields, "name"@)
    } else {
        str_field(fields, "ip"@)
    }
}

/// The table row of one top-list entry, if it has one. A single-key object
/// whose value is a count is `(key, count)`; otherwise the label comes from
/// `explicit_label` (an empty label gives no row) and the count from the
/// `count` field (zero when it is missing or not a count).
pub open spec fn spec_entry_row(entry: JsonEntry) -> Option<(Seq<char>, u64)> {
    match entry {
        JsonEntry::Other => None,
        JsonEntry::Object(fields) => {
            let f = fields@;
            if f.len() == 1 && spec_as_count(f[0].1) is Some {
                Some((f[0].0@, spec_as_count(f[0].1)->0))
            } else {
                match explicit_label(f) {
                    None => None,
                    Some(label) => if label.len() == 0 {
                        None
                    } else {
                        Some(
                            (
                                label,
                                match lookup(f, "count"@) {
                                    Some(v) => match spec_as_count(v) {
                                        Some(n) => n,
                                        None => 0,
                                    },
                                    None => 0,
                                },
                            ),
                        )
                    },
                }
            }
        },
    }
}

/// The rows of every entry that has one, in list order.
pub open spec fn all_rows(list: Seq<JsonEntry>) -> Seq<(Seq<char>, u64)>
    decreases list.len(),
{
    if list.len() == 0 {
        Seq::empty()
    } else {
        let before = all_rows(list.drop_last());
        match spec_entry_row(list.last()) {
            Some(row) => before.push(row),
            None => before,
        }
    }
}

/// At most the first `TOP_ROWS` elements.
pub open spec fn first_rows(rows: Seq<(Seq<char>, u64)>) -> Seq<(Seq<char>, u64)> {
    if rows.len() <= TOP_ROWS {
        rows
    } else {
        rows.take(TOP_ROWS as int)
    }
}

/// A table row with its label as characters.
pub open spec fn row_view(row: (String, u64)) -> (Seq<char>, u64) {
    (row.0@, row.1)
}

/// Table rows with their labels as characters.
pub open spec fn rows_view(rows: Seq<(String, u64)>) -> Seq<(Seq<char>, u64)> {
    rows.map_values(|r: (String, u64)| row_view(r))
}

/// A count: a non-negative integer, or a string holding one in decimal.
pub fn as_count(value: &JsonField) -> (res: Option<u64>)
    ensures
        res == spec_as_count(*value),
{
    match value {
        JsonField::UInt(n) => Some(*n),
        JsonField::Str(s) => match parse_unsigned(s.as_str(), u64::MAX) {
            Ok(n) => Some(n),
            Err(_) => None,
        },
        _ => None,
    }
}

fn lookup_exec(fields: &Vec<(String, JsonField)>, key: &str) -> (res: Option<usize>)
    ensures
        match res {
            Some(i) => i < fields@.len() && lookup(fields@, key@) == Some(fields@[i as int].1),
            None => lookup(fields@, key@) is None,
        },
{
    let mut i: usize = 0;
    assert(fields@.skip(0) =~= fields@);
    while i < fields.len()
        invariant
            i <= fields@.len(),
            lookup(fields@, key@) == lookup(fields@.skip(i as int), key@),
        decreases fields@.len() - i,
    {
        assert(fields@.skip(i as int)[0] == fields@[i as int]);
        assert(fields@.skip(i as int).drop_first() =~= fields@.skip(i + 1));
        if str_eq(fields[i].0.as_str(), key) {
            return Some(i);
        }
        i = i + 1;
    }
    None
}

fn str_field_exec(fields: &Vec<(String, JsonField)>, key: &str) -> (res: Option<String>)
    ensures
        match res {
            Some(s) => str_field(fields@, key@) == Some(s@),
            None => str_field(fields@, key@) is None,
        },
{
    match lookup_exec(fields, key) {
        Some(i) => match &fields[i].1 {
            JsonField::Str(s) => Some(s.clone()),
            _ => None,
        },
        None => None,
    }
}

/// The table row of one top-list entry, as `spec_entry_row` describes it.
pub fn entry_row(entry: &JsonEntry) -> (res: Option<(String, u64)>)
    ensures
        match res {
            Some(row) => spec_entry_row(*entry) == Some(row_view(row)),
            None => spec_entry_row(*entry) is None,
        },
{
    let fields = match entry {
        JsonEntry::Object(fields) => fields,
        JsonEntry::Other => return None,
    };
    if fields.len() == 1 {
        if let Some(count) = as_count(&fields[0].1) {
            return Some((fields[0].0.clone(), count));
        }
    }
    let label = match str_field_exec(fields, "domain") {
        Some(l) => l,
        None => match str_field_exec(fields, "name") {
            Some(l) => l,
            None => match str_field_exec(fields, "ip") {
                Some(l) => l,
                None => return None,
            },
        },
    };
    if label.as_str().unicode_len() == 0 {
        return None;
    }
    let count = match lookup_exec(fields, "count") {
        Some(i) => match as_count(&fields[i].1) {
            Some(n) => n,
            None => 0,
        },
        None => 0,
    };
    Some((label, count))
}

/// Top-list rows for the tables: the rows of the entries that have one, in
/// list order, at most `TOP_ROWS` of them.
pub fn entries(list: &[JsonEntry]) -> (res: Vec<(String, u64)>)
    ensures
        rows_view(res@) == first_rows(all_rows(list@)),
{
    let mut res: Vec<(String, u64)> = Vec::new();
    let mut i: usize = 0;
    assert(list@.take(0) =~= Seq::<JsonEntry>::empty());
    while i < list.len()
        invariant
            i <= list@.len(),
            rows_view(res@) == first_rows(all_rows(list@.take(i as int))),
        decreases list@.len() - i,
    {
        let row = entry_row(&list[i]);
        assert(list@.take(i + 1).drop_last() =~= list@.take(i as int));
        assert(list@.take(i + 1).last() == list@[i as int]);
        if res.len() < TOP_ROWS {
            if let Some(r) = row {
                let ghost old_res = res@;
                res.push(r);
                assert(rows_view(res@) =~= rows_view(old_res).push(row_view(r)));
            }
        } else {
            let ghost before = all_rows(list@.take(i as int));
            assert(all_rows(list@.take(i + 1)).take(TOP_ROWS as int) =~= before.take(
                TOP_ROWS as int,
            ));
        }
        i = i + 1;
    }
    assert(list@.take(list@.len() as int) =~= list@);
    res
}

/// The characters `s` with every trailing `c` removed (`trim_end_matches`).
pub open spec fn trim_end_char(s: Seq<char>, c: char) -> Seq<char>
    decreases s.len(),
{
    if s.len() > 0 && s.last() == c {
        trim_end_char(s.drop_last(), c)
    } else {
        s
    }
}

/// The URL of an API path: the base without trailing slashes, then the path.
pub fn endpoint(base_url: &str, path: &str) -> (res: String)
    ensures
        res@ == trim_end_char(base_url@, '/') + path@,
{
    let v = chars_of(base_url);
    let mut hi = v.len();
    assert(v@.subrange(0, hi as int) =~= v@);
    while hi > 0 && v[hi - 1] == '/'
        invariant
            hi <= v@.len(),
            trim_end_char(v@, '/') == trim_end_char(v@.subrange(0, hi as int), '/'),
        decreases hi,
    {
        assert(v@.subrange(0, hi as int).drop_last() =~= v@.subrange(0, hi - 1));
        hi = hi - 1;
    }
    let kept = slice_chars(&v, 0, hi);
    let mut res = string_from(&kept);
    push_str(&mut res, path);
    res
}

/// A base64 digit (standard alphabet).
pub open spec fn b64_char(v: int) -> char {
    if v < 26 {
        (('A' as int) + v) as char
    } else if v < 52 {
        (('a' as int) + v - 26) as char
    } else if v < 62 {
        (('0' as int) + v - 52) as char
    } else if v == 62 {
        '+'
    } else {
        '/'
    }
}

/// Base64 with the standard alphabet and `=` padding (RFC 4648, section 4).
pub open spec fn base64_standard(s: Seq<u8>) -> Seq<char>
    decreases s.len(),
{
    if s.len() == 0 {
        Seq::empty()
    } else if s.len() == 1 {
        let a = s[0] as int;
        seq![b64_char(a / 4), b64_char((a % 4) * 16), '=', '=']
    } else if s.len() == 2 {
        let a = s[0] as int;
        let b = s[1] as int;
        seq![b64_char(a / 4), b64_char((a % 4) * 16 + b / 16), b64_char((b % 16) * 4), '=']
    } else {
        let a = s[0] as int;
        let b = s[1] as int;
        let c = s[2] as int;
        seq![
            b64_char(a / 4),
            b64_char((a % 4) * 16 + b / 16),
            b64_char((b % 16) * 4 + c / 64),
            b64_char(c % 64),
        ] + base64_standard(s.skip(3))
    }
}

/// `base64::engine::general_purpose::STANDARD.encode`: the contract claims
/// that the result is the padded standard-alphabet encoding of the bytes, and
/// leaves out the inputs whose encoded length would overflow `usize` (the
/// crate panics there).
#[verifier::external_body]
fn base64_encode(bytes: &[u8]) -> (res: String)
    requires
        (bytes@.len() + 2) / 3 * 4 <= usize::MAX,
    ensures
        res@ == base64_standard(bytes@),
{
    base64::engine::general_purpose::STANDARD.encode(bytes)
}

/// The `Authorization` header of HTTP basic auth: `Basic ` and the base64 of
/// the UTF-8 bytes of `username:password`.
pub fn basic_auth(username: &str, password: &str) -> (res: String)
    requires
        (vstd::utf8::encode_utf8(username@ + ":"@ + password@).len() + 2) / 3 * 4 <= usize::MAX,
    ensures
        res@ == "Basic "@ + base64_standard(vstd::utf8::encode_utf8(username@ + ":"@ + password@)),
{
    let mut credentials = String::new();
    push_str(&mut credentials, username);
    push_str(&mut credentials, ":");
    push_str(&mut credentials, password);
    let bytes = credentials.as_str().as_bytes();
    proof {
        reveal_strlit(":");
    }
    let encoded = base64_encode(bytes);
    let mut res = String::new();
    push_str(&mut res, "Basic ");
    push_str(&mut res, encoded.as_str());
    res
}

/// How one HTTP request ended, as the transport reported it.
#[derive(Debug)]
pub enum HttpReply {
    /// A success status and the body.
    Body(String),
    /// A success status, but the body could not be read (the error's text).
    BodyUnreadable(String),
    /// An error status code.
    Status(u16),
    /// No response at all (the transport error's text).
    Transport(String),
}

/// Why a request did not give a body.
#[derive(Debug)]
pub enum Outcome {
    /// HTTP 401: the credentials were rejected.
    Credentials,
    Other(String),
}

/// The body of a reply, or why there is none: 401 is a credentials
/// problem, other statuses read `HTTP <code>`, an unreadable body reads
/// `reading body: <error>`, a transport error reads as itself.
pub fn classify(reply: HttpReply) -> (res: Result<String, Outcome>)
    ensures
        match reply {
            HttpReply::Body(body) => res matches Ok(b) && b@ == body@,
            HttpReply::BodyUnreadable(err) => res matches Err(Outcome::Other(m)) && m@
                == "reading body: "@ + err@,
            HttpReply::Status(code) => if code == 401 {
                res matches Err(Outcome::Credentials)
            } else {
                res matches Err(Outcome::Other(m)) && m@ == "HTTP "@ + decimal(code as nat)
            },
            HttpReply::Transport(err) => res matches Err(Outcome::Other(m)) && m@ == err@,
        },
{
    match reply {
        HttpReply::Body(body) => Ok(body),
        HttpReply::BodyUnreadable(err) => {
            let mut m = String::new();
            push_str(&mut m, "reading body: ");
            push_str(&mut m, err.as_str());
            Err(Outcome::Other(m))
        },
        HttpReply::Status(code) => {
            if code == 401 {
                Err(Outcome::Credentials)
            } else {
                let mut m = String::new();
                push_str(&mut m, "HTTP ");
                let d = decimal_string(code as u64);
                push_str(&mut m, d.as_str());
                Err(Outcome::Other(m))
            }
        },
        HttpReply::Transport(err) => Err(Outcome::Other(err)),
    }
}

/// One endpoint's answer after the request and the JSON parse.
#[derive(Debug)]
pub enum Fetched<T> {
    /// HTTP 401.
    Rejected,
    /// The request failed (the message of `classify`).
    Failed(String),
    /// The body did not parse (the parser's message).
    Unparsable(String),
    Parsed(T),
}

/// Why a refresh attempt ended the way it did; the UI shows this in the header.
#[derive(Debug)]
pub enum FetchOutcome {
    /// The refresh worked: the new snapshot.
    Refreshed(Snapshot),
    /// HTTP 401: the credentials in the config are wrong.
    CredentialsRejected,
    Failed(String),
}

/// The snapshot of a parsed `/control/stats` and `/control/status`.
pub open spec fn snapshot_matches(snap: Snapshot, stats: Stats, status: Status) -> bool {
    &&& snap.queries == stats.num_dns_queries
    &&& snap.blocked_filtering == stats.num_blocked_filtering
    &&& snap.safebrowsing == stats.num_replaced_safebrowsing
    &&& snap.parental == stats.num_replaced_parental
    &&& snap.safesearch == stats.num_replaced_safesearch
    &&& snap.series[0]@ == spec_newest(stats.dns_queries@)
    &&& snap.series[1]@ == spec_newest(stats.blocked_filtering@)
    &&& snap.series[2]@ == spec_newest(stats.replaced_safebrowsing@)
    &&& snap.series[3]@ == spec_newest(stats.replaced_parental@)
    &&& rows_view(snap.top_clients@) == first_rows(all_rows(stats.top_clients@))
    &&& rows_view(snap.top_queried@) == first_rows(all_rows(stats.top_queried_domains@))
    &&& rows_view(snap.top_blocked@) == first_rows(all_rows(stats.top_blocked_domains@))
    &&& snap.protection == status.protection_enabled
    &&& snap.version@ == status.version@
}

/// Each counter of a snapshot is the stats counter of the same name: DNS
/// queries, blocked by filters, malware/phishing (safebrowsing), adult sites
/// (parental) and safe search are never exchanged, and protection and version
/// come from the status.
pub proof fn law_snapshot_counters(snap: Snapshot, stats: Stats, status: Status)
    requires
        snapshot_matches(snap, stats, status),
    ensures
        snap.queries == stats.num_dns_queries,
        snap.blocked_filtering == stats.num_blocked_filtering,
        snap.safebrowsing == stats.num_replaced_safebrowsing,
        snap.parental == stats.num_replaced_parental,
        snap.safesearch == stats.num_replaced_safesearch,
        snap.protection == status.protection_enabled,
        snap.version@ == status.version@,
{
}

/// Build the snapshot of a parsed `/control/stats` and `/control/status`.
pub fn snapshot_from(stats: &Stats, status: &Status) -> (res: Snapshot)
    ensures
        snapshot_matches(res, *stats, *status),
        res.queries == stats.num_dns_queries,
        res.blocked_filtering == stats.num_blocked_filtering,
        res.safebrowsing == stats.num_replaced_safebrowsing,
        res.parental == stats.num_replaced_parental,
        res.safesearch == stats.num_replaced_safesearch,
        res.protection == status.protection_enabled,
        res.version@ == status.version@,
{
    Snapshot {
        queries: stats.num_dns_queries,
        blocked_filtering: stats.num_blocked_filtering,
        safebrowsing: stats.num_replaced_safebrowsing,
        parental: stats.num_replaced_parental,
        safesearch: stats.num_replaced_safesearch,
        series: [
            newest(stats.dns_queries.as_slice()),
            newest(stats.blocked_filtering.as_slice()),
            newest(stats.replaced_safebrowsing.as_slice()),
            newest(stats.replaced_parental.as_slice()),
        ],
        top_clients: entries(stats.top_clients.as_slice()),
        top_queried: entries(stats.top_queried_domains.as_slice()),
        top_blocked: entries(stats.top_blocked_domains.as_slice()),
        protection: stats_protection(status),
        version: status.version.clone(),
    }
}

fn stats_protection(status: &Status) -> (res: Option<bool>)
    ensures
        res == status.protection_enabled,
{
    match status.protection_enabled {
        Some(b) => Some(b),
        None => None,
    }
}

/// The outcome of one refresh. A stats request that failed decides it alone
/// (the status endpoint is then never asked, so `status` is `None`); the
/// status endpoint is secondary: a rejected one rejects the refresh, any
/// other failure only leaves version and protection unknown.
pub fn fetch_outcome(stats: Fetched<Stats>, status: Option<Fetched<Status>>) -> (res: FetchOutcome)
    ensures
        match stats {
            Fetched::Rejected => res is CredentialsRejected,
            Fetched::Failed(m) => res matches FetchOutcome::Failed(t) && t@ == "/control/stats: "@
                + m@,
            Fetched::Unparsable(e) => res matches FetchOutcome::Failed(t) && t@
                == "parsing /control/stats: "@ + e@,
            Fetched::Parsed(st) => match status {
                Some(Fetched::Rejected) => res is CredentialsRejected,
                Some(Fetched::Parsed(s)) => res matches FetchOutcome::Refreshed(snap) && snapshot_matches(
                    snap,
                    st,
                    s,
                ),
                _ => res matches FetchOutcome::Refreshed(snap) && snapshot_matches(
                    snap,
                    st,
                    Status { version: snap.version, protection_enabled: None },
                ) && snap.version@.len() == 0,
            },
        },
{
    match stats {
        Fetched::Rejected => FetchOutcome::CredentialsRejected,
        Fetched::Failed(m) => {
            let mut t = String::new();
            push_str(&mut t, "/control/stats: ");
            push_str(&mut t, m.as_str());
            FetchOutcome::Failed(t)
        },
        Fetched::Unparsable(e) => {
            let mut t = String::new();
            push_str(&mut t, "parsing /control/stats: ");
            push_str(&mut t, e.as_str());
            FetchOutcome::Failed(t)
        },
        Fetched::Parsed(st) => match status {
            Some(Fetched::Rejected) => FetchOutcome::CredentialsRejected,
            Some(Fetched::Parsed(s)) => FetchOutcome::Refreshed(snapshot_from(&st, &s)),
            _ => {
                let unknown = Status::unknown();
                let snap = snapshot_from(&st, &unknown);
                FetchOutcome::Refreshed(snap)
            },
        },
    }
}

} // verus!
