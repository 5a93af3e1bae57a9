use sgc_demos::agh::{FetchOutcome, Snapshot};
use sgc_demos::config::{
    default_base_url, default_refresh_secs, default_timeout_ms, default_username, path_from_args,
    warn_when_world_readable, Config, ConfigError, DEFAULT_PATH,
};
use sgc_demos::dashboard::{apply_outcome, UiUpdate};
use sgc_demos::view::{fill, list, row, set_age, set_error, table, StatusLine, BAD, MUTED, SERIES};

fn s(text: &str) -> String {
    text.to_string()
}

fn args(list: &[&str]) -> Vec<String> {
    list.iter().map(|a| a.to_string()).collect()
}

fn config(password: &str, refresh_secs: u64) -> Config {
    Config {
        base_url: default_base_url(),
        username: default_username(),
        password: s(password),
        refresh_secs,
        timeout_ms: default_timeout_ms(),
    }
}

#[test]
fn config_defaults() {
    assert_eq!(default_base_url(), "http://127.0.0.1:8080");
    assert_eq!(default_username(), "admin");
    assert_eq!(default_refresh_secs(), 5);
    assert_eq!(default_timeout_ms(), 10_000);
    assert_eq!(DEFAULT_PATH, "/etc/agh-dash/config.toml");
}

#[test]
fn resolve_refuses_a_config_without_password() {
    let refused = config("", 5).resolve(None);
    assert_eq!(refused.unwrap_err(), ConfigError::NoPassword);
    let refused = config("secret", 5).resolve(Some(s("")));
    assert_eq!(refused.unwrap_err(), ConfigError::NoPassword);
}

#[test]
fn resolve_applies_the_environment_password_and_default_interval() {
    let cfg = config("", 0).resolve(Some(s("from-env"))).unwrap();
    assert_eq!(cfg.password, "from-env");
    assert_eq!(cfg.refresh_secs, 5);
    let cfg = config("file", 30).resolve(None).unwrap();
    assert_eq!(cfg.password, "file");
    assert_eq!(cfg.refresh_secs, 30);
    assert_eq!(cfg.timeout_ms, 10_000);
    assert_eq!(cfg.base_url, "http://127.0.0.1:8080");
}

#[test]
fn world_readable_warning_names_the_mode() {
    assert_eq!(warn_when_world_readable("/etc/agh-dash/config.toml", 0o100600), None);
    assert_eq!(warn_when_world_readable("/x", 0o700), None);
    assert_eq!(
        warn_when_world_readable("/etc/agh-dash/config.toml", 0o100644).as_deref(),
        Some(
            "[agh-slint] warning: /etc/agh-dash/config.toml is readable by group/other (mode 0644); it holds the AdGuard credentials"
        )
    );
    assert_eq!(
        warn_when_world_readable("c", 0o007).as_deref(),
        Some("[agh-slint] warning: c is readable by group/other (mode 0007); it holds the AdGuard credentials")
    );
}

#[test]
fn path_from_args_takes_the_value_after_config() {
    assert_eq!(path_from_args(&args(&["app", "--config", "/tmp/c.toml"])), "/tmp/c.toml");
    assert_eq!(path_from_args(&args(&["app"])), DEFAULT_PATH);
    assert_eq!(path_from_args(&args(&["app", "--config"])), DEFAULT_PATH);
    assert_eq!(path_from_args(&args(&["--self-check", "--config", "a", "--config", "b"])), "a");
    assert_eq!(path_from_args(&[]), DEFAULT_PATH);
}

#[test]
fn status_line_errors_and_age() {
    let mut status = StatusLine { color: MUTED, text: s("") };
    set_error(&mut status, "credentials rejected");
    assert_eq!(status.color, BAD);
    assert_eq!(status.text, "credentials rejected");
    set_age(&mut status, false, 12);
    assert_eq!(status.color, MUTED);
    assert_eq!(status.text, "updated 12s ago");
    set_age(&mut status, true, 99);
    assert_eq!(status.color, BAD);
    assert_eq!(status.text, "stale");
}

#[test]
fn tables_and_lists() {
    let r = row("DNS queries", "12");
    assert_eq!((r.label.as_str(), r.value.as_str()), ("DNS queries", "12"));
    let t = table("T", "A", "B", vec![row("x", "1")]);
    assert_eq!((t.title.as_str(), t.col0.as_str(), t.col1.as_str()), ("T", "A", "B"));
    assert_eq!(t.rows.len(), 1);
    let l = list("Top clients", "Client", "Requests", &vec![(s("10.0.0.2"), 1234), (s("tv"), 0)]);
    assert_eq!(l.rows.len(), 2);
    assert_eq!(l.rows[0].label, "10.0.0.2");
    assert_eq!(l.rows[0].value, "1234");
    assert_eq!(l.rows[1].value, "0");
}

fn sample_snapshot() -> Snapshot {
    let mut snap = Snapshot::empty();
    snap.queries = 1000;
    snap.blocked_filtering = 100;
    snap.safebrowsing = 5;
    snap.parental = 2;
    snap.safesearch = 1;
    snap.series[0] = vec![3, 9, 4];
    snap.series[1] = vec![0, 0];
    snap.top_blocked = vec![(s("ads.example"), 42)];
    snap.protection = Some(true);
    snap
}

#[test]
fn fill_builds_the_page() {
    let page = fill(&sample_snapshot(), "http://127.0.0.1:8080", "10.7", "1.5");
    assert_eq!(page.footer_source, "http://127.0.0.1:8080");
    assert_eq!(page.footer_version, "AdGuard Home version unknown");
    assert!(page.protection_known);
    assert!(page.protection_on);
    assert_eq!(page.protection_text, "Protection: enabled");
    assert_eq!(page.charts.len(), 4);
    assert_eq!(page.charts[0].title, "DNS queries");
    assert_eq!(page.charts[0].total, "1000");
    assert_eq!(page.charts[0].max, 9);
    assert!(!page.charts[0].empty);
    assert_eq!(page.charts[0].color, SERIES[0]);
    assert_eq!(page.charts[1].title, "Blocked by filters");
    assert!(page.charts[1].empty);
    assert_eq!(page.charts[3].title, "Blocked adult websites");
    assert_eq!(page.charts[3].total, "2");
    assert!(page.charts[3].empty);
    assert_eq!(page.general.title, "General statistics");
    assert_eq!(page.general.rows.len(), 7);
    assert_eq!(page.general.rows[5].label, "Blocked total");
    assert_eq!(page.general.rows[5].value, "107 (10.7%)");
    assert_eq!(page.general.rows[6].value, "1.5 ms");
    assert_eq!(page.top_blocked.title, "Top blocked domains");
    assert_eq!(page.top_blocked.rows[0].value, "42");
    assert!(page.top_clients.rows.is_empty());
    assert_eq!(page.status.color, MUTED);
    assert_eq!(page.status.text, "updated 0s ago");
}

#[test]
fn fill_reports_version_and_unknown_protection() {
    let mut snap = sample_snapshot();
    snap.version = s("v0.107.52");
    snap.protection = None;
    let page = fill(&snap, "src", "0.0", "0.0");
    assert_eq!(page.footer_version, "AdGuard Home v0.107.52");
    assert!(!page.protection_known);
    assert!(!page.protection_on);
    assert_eq!(page.protection_text, "Protection: unknown");
    snap.protection = Some(false);
    let page = fill(&snap, "src", "0.0", "0.0");
    assert!(page.protection_known);
    assert!(!page.protection_on);
    assert_eq!(page.protection_text, "Protection: disabled");
}

#[test]
fn a_failed_refresh_keeps_the_snapshot() {
    let mut latest: Option<Snapshot> = None;
    let update = apply_outcome(&mut latest, FetchOutcome::Refreshed(sample_snapshot()));
    assert_eq!(update, UiUpdate::Fill);
    assert_eq!(latest.as_ref().map(|snap| snap.queries), Some(1000));

    let update = apply_outcome(&mut latest, FetchOutcome::Failed(s("/control/stats: HTTP 500")));
    assert_eq!(update, UiUpdate::Error(s("stale")));
    assert_eq!(latest.as_ref().map(|snap| snap.queries), Some(1000));

    let update = apply_outcome(&mut latest, FetchOutcome::CredentialsRejected);
    assert_eq!(update, UiUpdate::Error(s("credentials rejected")));
    assert_eq!(latest.as_ref().map(|snap| snap.queries), Some(1000));

    let mut newer = sample_snapshot();
    newer.queries = 2000;
    apply_outcome(&mut latest, FetchOutcome::Refreshed(newer));
    assert_eq!(latest.as_ref().map(|snap| snap.queries), Some(2000));
}

#[test]
fn a_failed_first_refresh_leaves_nothing_on_screen() {
    let mut latest: Option<Snapshot> = None;
    let update = apply_outcome(&mut latest, FetchOutcome::Failed(s("x")));
    assert_eq!(update, UiUpdate::Error(s("stale")));
    assert!(latest.is_none());
}
