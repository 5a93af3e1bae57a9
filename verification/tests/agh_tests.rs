use sgc_demos::agh::{
    as_count, basic_auth, classify, endpoint, entries, entry_row, fetch_outcome, newest,
    snapshot_from, FetchOutcome, Fetched, HttpReply, JsonEntry, JsonField, Outcome, Snapshot,
    Stats, Status, CHART_BUCKETS, TOP_ROWS,
};

fn s(text: &str) -> String {
    text.to_string()
}

fn single(key: &str, value: JsonField) -> JsonEntry {
    JsonEntry::Object(vec![(s(key), value)])
}

fn empty_stats() -> Stats {
    Stats {
        num_dns_queries: 0,
        num_blocked_filtering: 0,
        num_replaced_safebrowsing: 0,
        num_replaced_parental: 0,
        num_replaced_safesearch: 0,
        dns_queries: Vec::new(),
        blocked_filtering: Vec::new(),
        replaced_safebrowsing: Vec::new(),
        replaced_parental: Vec::new(),
        top_queried_domains: Vec::new(),
        top_blocked_domains: Vec::new(),
        top_clients: Vec::new(),
    }
}

#[test]
fn newest_keeps_the_tail() {
    let values: Vec<u32> = (1..=30).collect();
    let kept = newest(&values);
    assert_eq!(kept.len(), CHART_BUCKETS);
    assert_eq!(kept.last().copied(), Some(30));
    assert_eq!(kept.first().copied(), Some(7));
    assert!(newest(&[]).is_empty());
}

#[test]
fn newest_keeps_a_short_series_whole() {
    let values: Vec<u32> = vec![5, 0, 9];
    assert_eq!(newest(&values), vec![5, 0, 9]);
    let exact: Vec<u32> = (0..24).collect();
    assert_eq!(newest(&exact), exact);
    let week: Vec<u32> = (0..168).collect();
    let kept = newest(&week);
    assert_eq!(kept.len(), 24);
    assert_eq!(kept[0], 144);
    assert_eq!(kept[23], 167);
}

#[test]
fn as_count_reads_numbers_and_numeric_strings() {
    assert_eq!(as_count(&JsonField::UInt(23)), Some(23));
    assert_eq!(as_count(&JsonField::Str(s("42"))), Some(42));
    assert_eq!(as_count(&JsonField::Str(s("+7"))), Some(7));
    assert_eq!(as_count(&JsonField::Str(s("18446744073709551615"))), Some(u64::MAX));
    assert_eq!(as_count(&JsonField::Str(s("18446744073709551616"))), None);
    assert_eq!(as_count(&JsonField::Str(s("-1"))), None);
    assert_eq!(as_count(&JsonField::Str(s(""))), None);
    assert_eq!(as_count(&JsonField::Str(s("12a"))), None);
    assert_eq!(as_count(&JsonField::OtherNumber), None);
    assert_eq!(as_count(&JsonField::Bool(true)), None);
    assert_eq!(as_count(&JsonField::Null), None);
}

#[test]
fn entry_row_reads_single_key_objects() {
    let row = entry_row(&single("pass.proton.me", JsonField::UInt(23)));
    assert_eq!(row, Some((s("pass.proton.me"), 23)));
    let row = entry_row(&single("10.0.0.2", JsonField::Str(s("5"))));
    assert_eq!(row, Some((s("10.0.0.2"), 5)));
}

#[test]
fn entry_row_reads_explicit_fields() {
    let entry = JsonEntry::Object(vec![
        (s("domain"), JsonField::Str(s("example.org"))),
        (s("count"), JsonField::UInt(4)),
    ]);
    assert_eq!(entry_row(&entry), Some((s("example.org"), 4)));
    let entry = JsonEntry::Object(vec![
        (s("count"), JsonField::Str(s("8"))),
        (s("name"), JsonField::Str(s("laptop"))),
    ]);
    assert_eq!(entry_row(&entry), Some((s("laptop"), 8)));
    // `domain` wins over `name`, which wins over `ip`.
    let entry = JsonEntry::Object(vec![
        (s("ip"), JsonField::Str(s("10.0.0.9"))),
        (s("name"), JsonField::Str(s("tv"))),
    ]);
    assert_eq!(entry_row(&entry), Some((s("tv"), 0)));
    let entry = JsonEntry::Object(vec![
        (s("ip"), JsonField::Str(s("10.0.0.9"))),
        (s("count"), JsonField::Bool(true)),
    ]);
    assert_eq!(entry_row(&entry), Some((s("10.0.0.9"), 0)));
}

#[test]
fn entry_row_refuses_unrecognised_entries() {
    assert_eq!(entry_row(&JsonEntry::Other), None);
    assert_eq!(entry_row(&JsonEntry::Object(Vec::new())), None);
    assert_eq!(entry_row(&single("x", JsonField::Null)), None);
    // A label that is empty gives no row.
    let entry = JsonEntry::Object(vec![
        (s("domain"), JsonField::Str(s(""))),
        (s("count"), JsonField::UInt(3)),
    ]);
    assert_eq!(entry_row(&entry), None);
    // A non-string domain does not count as a label.
    let entry = JsonEntry::Object(vec![
        (s("domain"), JsonField::UInt(1)),
        (s("count"), JsonField::UInt(3)),
    ]);
    assert_eq!(entry_row(&entry), None);
    // A single key whose value is not a count falls through to the fields.
    assert_eq!(entry_row(&single("domain", JsonField::Str(s("a.b")))), Some((s("a.b"), 0)));
}

#[test]
fn entries_skip_rowless_entries_and_keep_nine() {
    let mut list = vec![JsonEntry::Other];
    for i in 0..12u64 {
        list.push(single(&format!("host{i}"), JsonField::UInt(100 - i)));
        list.push(single("bad", JsonField::Null));
    }
    let rows = entries(&list);
    assert_eq!(rows.len(), TOP_ROWS);
    assert_eq!(rows[0], (s("host0"), 100));
    assert_eq!(rows[8], (s("host8"), 92));
    assert!(entries(&[]).is_empty());
}

#[test]
fn endpoint_drops_trailing_slashes() {
    assert_eq!(endpoint("http://127.0.0.1:8080", "/control/stats"), "http://127.0.0.1:8080/control/stats");
    assert_eq!(endpoint("http://h:3000///", "/control/status"), "http://h:3000/control/status");
    assert_eq!(endpoint("", "/x"), "/x");
    assert_eq!(endpoint("/", "/x"), "/x");
}

#[test]
fn basic_auth_is_base64_of_user_colon_password() {
    assert_eq!(basic_auth("admin", "secret"), "Basic YWRtaW46c2VjcmV0");
    assert_eq!(basic_auth("a", ""), "Basic YTo=");
    assert_eq!(basic_auth("ü", "x"), "Basic w7w6eA==");
}

#[test]
fn classify_maps_every_reply() {
    assert!(matches!(classify(HttpReply::Body(s("{}"))), Ok(b) if b == "{}"));
    assert!(matches!(classify(HttpReply::Status(401)), Err(Outcome::Credentials)));
    assert!(matches!(classify(HttpReply::Status(503)), Err(Outcome::Other(m)) if m == "HTTP 503"));
    assert!(matches!(
        classify(HttpReply::BodyUnreadable(s("eof"))),
        Err(Outcome::Other(m)) if m == "reading body: eof"
    ));
    assert!(matches!(
        classify(HttpReply::Transport(s("connection refused"))),
        Err(Outcome::Other(m)) if m == "connection refused"
    ));
}

fn sample_stats() -> Stats {
    let mut stats = empty_stats();
    stats.num_dns_queries = 1000;
    stats.num_blocked_filtering = 100;
    stats.num_replaced_safebrowsing = 5;
    stats.num_replaced_parental = 2;
    stats.num_replaced_safesearch = 1;
    stats.dns_queries = (1..=30).collect();
    stats.blocked_filtering = vec![1, 2];
    stats.top_clients = vec![single("10.0.0.2", JsonField::UInt(7))];
    stats.top_queried_domains = vec![single("a.example", JsonField::UInt(9)), JsonEntry::Other];
    stats
}

#[test]
fn snapshot_from_copies_counters_and_cuts_series() {
    let status = Status { version: s("v0.107.0"), protection_enabled: Some(true) };
    let snap = snapshot_from(&sample_stats(), &status);
    assert_eq!(snap.queries, 1000);
    assert_eq!(snap.blocked_total(), 107);
    assert_eq!(snap.safesearch, 1);
    assert_eq!(snap.series[0].len(), 24);
    assert_eq!(snap.series[0][0], 7);
    assert_eq!(snap.series[1], vec![1, 2]);
    assert!(snap.series[2].is_empty());
    assert_eq!(snap.top_clients, vec![(s("10.0.0.2"), 7)]);
    assert_eq!(snap.top_queried, vec![(s("a.example"), 9)]);
    assert!(snap.top_blocked.is_empty());
    assert_eq!(snap.protection, Some(true));
    assert_eq!(snap.version, "v0.107.0");
}

#[test]
fn fetch_outcome_stats_failures_decide_alone() {
    assert!(matches!(fetch_outcome(Fetched::Rejected, None), FetchOutcome::CredentialsRejected));
    assert!(matches!(
        fetch_outcome(Fetched::Failed(s("HTTP 500")), None),
        FetchOutcome::Failed(m) if m == "/control/stats: HTTP 500"
    ));
    assert!(matches!(
        fetch_outcome(Fetched::Unparsable(s("expected value")), None),
        FetchOutcome::Failed(m) if m == "parsing /control/stats: expected value"
    ));
}

#[test]
fn fetch_outcome_status_is_secondary() {
    let rejected = fetch_outcome(Fetched::Parsed(sample_stats()), Some(Fetched::Rejected));
    assert!(matches!(rejected, FetchOutcome::CredentialsRejected));

    let failed = fetch_outcome(Fetched::Parsed(sample_stats()), Some(Fetched::Failed(s("HTTP 502"))));
    match failed {
        FetchOutcome::Refreshed(snap) => {
            assert_eq!(snap.queries, 1000);
            assert_eq!(snap.protection, None);
            assert_eq!(snap.version, "");
        }
        other => panic!("expected a refresh, got {other:?}"),
    }

    let unparsable =
        fetch_outcome(Fetched::Parsed(sample_stats()), Some(Fetched::Unparsable(s("bad"))));
    assert!(matches!(unparsable, FetchOutcome::Refreshed(snap) if snap.version.is_empty()));

    let status = Status { version: s("v1"), protection_enabled: Some(false) };
    match fetch_outcome(Fetched::Parsed(sample_stats()), Some(Fetched::Parsed(status))) {
        FetchOutcome::Refreshed(snap) => {
            assert_eq!(snap.version, "v1");
            assert_eq!(snap.protection, Some(false));
        }
        other => panic!("expected a refresh, got {other:?}"),
    }
}

#[test]
fn empty_snapshot_and_unknown_status() {
    let snap = Snapshot::empty();
    assert_eq!(snap.queries, 0);
    assert_eq!(snap.blocked_total(), 0);
    assert!(snap.series.iter().all(|series| series.is_empty()));
    assert_eq!(snap.protection, None);
    let status = Status::unknown();
    assert_eq!(status.version, "");
    assert_eq!(status.protection_enabled, None);
}

#[test]
fn a_count_in_a_string_is_the_count() {
    for n in [0u64, 7, 10, 23, 1_000_000, u64::MAX] {
        assert_eq!(as_count(&JsonField::Str(n.to_string())), Some(n));
        assert_eq!(as_count(&JsonField::UInt(n)), Some(n));
    }
}
