use sgc_demos::selfcheck::{
    card_rows, check_panel, content_box, count_colors, first_of, is_color, labels_parsed_empty,
    position_of, row_rhythm, sizes_from_args, verdict, CheckProblem, ColorCounts, Pixel,
    SizeErrorKind,
};
use sgc_demos::agh::{FetchOutcome, Snapshot};
use sgc_demos::selfcheck::{selfcheck_snapshot, DataProblem};
use sgc_demos::text::IntErrorKind;
use sgc_demos::view::{CARD, GRID, PAGE, PROT_OFF, PROT_ON, SERIES, TEXT};

fn px(c: (u8, u8, u8)) -> Pixel {
    Pixel::from_rgb(c.0, c.1, c.2)
}

fn args(list: &[&str]) -> Vec<String> {
    list.iter().map(|a| a.to_string()).collect()
}

fn page(width: usize, height: usize) -> Vec<Pixel> {
    vec![px(PAGE); width * height]
}

fn paint(buf: &mut [Pixel], width: usize, x: usize, y: usize, c: (u8, u8, u8)) {
    buf[y * width + x] = px(c);
}

#[test]
fn blend_is_premultiplied_over_opaque() {
    let mut p = Pixel::from_rgb(100, 100, 100);
    p.blend(50, 60, 70, 128);
    assert_eq!((p.r, p.g, p.b), (99, 109, 119));
    let mut p = Pixel::from_rgb(1, 2, 3);
    p.blend(9, 8, 7, 255);
    assert_eq!((p.r, p.g, p.b), (9, 8, 7));
    let mut p = Pixel::from_rgb(1, 2, 3);
    p.blend(0, 0, 0, 0);
    assert_eq!((p.r, p.g, p.b), (1, 2, 3));
}

#[test]
fn first_of_and_empty_labels() {
    assert_eq!(first_of(&Vec::new()), "(none)");
    assert_eq!(first_of(&vec![("10.0.0.2".to_string(), 17), ("b".to_string(), 1)]), "\"10.0.0.2\"=17");
    assert!(!labels_parsed_empty(&Vec::new()));
    assert!(labels_parsed_empty(&vec![(String::new(), 3), (String::new(), 1)]));
    assert!(!labels_parsed_empty(&vec![(String::new(), 3), ("x".to_string(), 1)]));
}

#[test]
fn sizes_default_when_nothing_is_asked() {
    let sizes = sizes_from_args(&args(&["app", "--self-check"]), None).unwrap();
    assert_eq!(sizes, vec![(1366, 768), (1720, 1440), (1920, 1080)]);
}

#[test]
fn sizes_from_the_argument_or_the_environment() {
    let sizes = sizes_from_args(&args(&["app", "--size", "800x600, 1024X768"]), None).unwrap();
    assert_eq!(sizes, vec![(800, 600), (1024, 768)]);
    let sizes = sizes_from_args(&args(&["app"]), Some(" 640 x 480 ".to_string())).unwrap();
    assert_eq!(sizes, vec![(640, 480)]);
    // The argument wins over the environment.
    let sizes =
        sizes_from_args(&args(&["--size", "1280x720"]), Some("640x480".to_string())).unwrap();
    assert_eq!(sizes, vec![(1280, 720)]);
    // `--size` with nothing after it falls back to the environment.
    let sizes = sizes_from_args(&args(&["app", "--size"]), Some("640x480".to_string())).unwrap();
    assert_eq!(sizes, vec![(640, 480)]);
    let sizes = sizes_from_args(&args(&["app", "--size"]), None).unwrap();
    assert_eq!(sizes.len(), 3);
}

#[test]
fn sizes_report_the_part_that_is_wrong() {
    let err = sizes_from_args(&args(&["--size", "800"]), None).unwrap_err();
    assert_eq!(err.kind, SizeErrorKind::ExpectedWxH);
    assert_eq!(err.part, "800");
    let err = sizes_from_args(&args(&["--size", "800x600, abcx600"]), None).unwrap_err();
    assert_eq!(err.kind, SizeErrorKind::Width(IntErrorKind::InvalidDigit));
    assert_eq!(err.part, "abcx600");
    let err = sizes_from_args(&args(&["--size", "800x"]), None).unwrap_err();
    assert_eq!(err.kind, SizeErrorKind::Height(IntErrorKind::Empty));
    let err = sizes_from_args(&args(&["--size", "300x600"]), None).unwrap_err();
    assert_eq!(err.kind, SizeErrorKind::TooSmall);
    assert_eq!(err.part, "300x600");
    let err = sizes_from_args(&args(&["--size", "800x239"]), None).unwrap_err();
    assert_eq!(err.kind, SizeErrorKind::TooSmall);
    let err = sizes_from_args(&args(&["--size", "99999999999x600"]), None).unwrap_err();
    assert_eq!(err.kind, SizeErrorKind::Width(IntErrorKind::PosOverflow));
    let err = sizes_from_args(&args(&["--size", ""]), None).unwrap_err();
    assert_eq!(err.kind, SizeErrorKind::ExpectedWxH);
    assert_eq!(err.part, "");
}

#[test]
fn position_of_finds_the_first_match() {
    let a = args(&["a", "--size", "b", "--size"]);
    assert_eq!(position_of(&a, "--size"), Some(1));
    assert_eq!(position_of(&a, "--config"), None);
}

#[test]
fn row_rhythm_measures_text_bands_and_separators() {
    let (w, h) = (6usize, 6usize);
    let mut buf = page(w, h);
    paint(&mut buf, w, 1, 1, TEXT);
    paint(&mut buf, w, 2, 2, TEXT);
    paint(&mut buf, w, 0, 3, GRID);
    paint(&mut buf, w, 3, 4, TEXT);
    // Outside the column: ignored.
    paint(&mut buf, w, 5, 5, TEXT);
    let (bands, separators) = row_rhythm(&buf, w as u32, h as u32, 0, 4);
    assert_eq!(bands, vec![(1, 2), (4, 4)]);
    assert_eq!(separators, vec![3]);
    // A column end past the row is cut to the row.
    let (bands, _) = row_rhythm(&buf, w as u32, h as u32, 0, 640);
    assert_eq!(bands, vec![(1, 2), (4, 5)]);
}

#[test]
fn row_rhythm_keeps_twenty() {
    let (w, h) = (2usize, 50usize);
    let mut buf = page(w, h);
    for y in (0..h).step_by(2) {
        paint(&mut buf, w, 0, y, TEXT);
        paint(&mut buf, w, 1, y, GRID);
    }
    let (bands, separators) = row_rhythm(&buf, w as u32, h as u32, 0, 2);
    assert_eq!(bands.len(), 20);
    assert_eq!(bands[19], (38, 38));
    assert_eq!(separators.len(), 20);
}

#[test]
fn card_rows_find_each_card() {
    let (w, h) = (10usize, 7usize);
    let mut buf = page(w, h);
    for y in 1..3 {
        for x in (1..4).chain(5..9) {
            paint(&mut buf, w, x, y, CARD);
        }
    }
    for y in 4..7 {
        for x in 0..10 {
            paint(&mut buf, w, x, y, CARD);
        }
    }
    let rows = card_rows(&buf, w as u32, h as u32);
    assert_eq!(rows, vec![vec![(1, 3, 1, 2), (5, 8, 1, 2)], vec![(0, 9, 4, 6)]]);
    assert!(card_rows(&page(4, 4), 4, 4).is_empty());
}

#[test]
fn count_colors_counts_every_known_colour() {
    let mut buf = page(4, 2);
    buf[0] = px(CARD);
    buf[1] = px(GRID);
    buf[2] = px(PROT_ON);
    buf[3] = px(PROT_OFF);
    buf[4] = px(SERIES[2]);
    buf[5] = px(TEXT);
    let counts = count_colors(&buf);
    assert_eq!((counts.page, counts.card, counts.grid, counts.badge), (2, 1, 1, 2));
    assert_eq!(counts.bars, [0, 0, 1, 0]);
    assert!(is_color(buf[0], CARD));
    assert!(!is_color(buf[0], PAGE));
}

#[test]
fn content_box_bounds_everything_but_the_page() {
    let (w, h) = (8usize, 5usize);
    assert_eq!(content_box(&page(w, h), w as u32, h as u32), (8, 0, 5, 0));
    let mut buf = page(w, h);
    paint(&mut buf, w, 2, 1, CARD);
    paint(&mut buf, w, 5, 3, TEXT);
    assert_eq!(content_box(&buf, w as u32, h as u32), (2, 5, 1, 3));
}

fn good_rows() -> Vec<Vec<(u32, u32, u32, u32)>> {
    vec![
        vec![(10, 109, 10, 59), (120, 219, 10, 59), (230, 330, 10, 59), (340, 439, 10, 59)],
        vec![(10, 219, 70, 199), (230, 439, 70, 199)],
        vec![(10, 219, 210, 299), (230, 439, 210, 299)],
    ]
}

fn counts(card: u64, bars: [u64; 4]) -> ColorCounts {
    ColorCounts { page: 10, card, grid: 0, badge: 0, bars }
}

#[test]
fn verdict_accepts_a_good_panel() {
    assert_eq!(verdict(&good_rows(), &counts(5, [0, 1, 0, 0]), 450, 310, 800, 480, true), Ok(()));
    assert_eq!(verdict(&good_rows(), &counts(5, [0, 0, 0, 0]), 450, 310, 800, 480, false), Ok(()));
}

#[test]
fn verdict_names_the_first_problem() {
    let mut rows = good_rows();
    rows[0][2].3 = 60;
    assert_eq!(
        verdict(&rows, &counts(5, [1, 0, 0, 0]), 450, 310, 800, 480, true),
        Err(CheckProblem::HeightsDiffer(0))
    );
    let mut rows = good_rows();
    rows[1][1].1 = 441;
    assert_eq!(
        verdict(&rows, &counts(5, [1, 0, 0, 0]), 450, 310, 800, 480, true),
        Err(CheckProblem::WidthsDiffer(1))
    );
    let mut rows = good_rows();
    rows.pop();
    assert_eq!(
        verdict(&rows, &counts(5, [1, 0, 0, 0]), 450, 310, 800, 480, true),
        Err(CheckProblem::CardCount)
    );
    assert_eq!(
        verdict(&good_rows(), &counts(5, [1, 0, 0, 0]), 796, 310, 800, 480, true),
        Err(CheckProblem::PageTooLarge)
    );
    assert_eq!(
        verdict(&good_rows(), &counts(5, [1, 0, 0, 0]), 795, 475, 800, 480, true),
        Ok(())
    );
    assert_eq!(
        verdict(&good_rows(), &counts(5, [1, 0, 0, 0]), 795, 476, 800, 480, true),
        Err(CheckProblem::PageTooLarge)
    );
    assert_eq!(
        verdict(&good_rows(), &counts(0, [1, 0, 0, 0]), 450, 310, 800, 480, true),
        Err(CheckProblem::NoCards)
    );
    assert_eq!(
        verdict(&good_rows(), &counts(5, [0, 0, 0, 0]), 450, 310, 800, 480, true),
        Err(CheckProblem::NoBars)
    );
}

fn fill_box(buf: &mut [Pixel], width: usize, x0: usize, x1: usize, y0: usize, y1: usize, c: (u8, u8, u8)) {
    for y in y0..=y1 {
        for x in x0..=x1 {
            paint(buf, width, x, y, c);
        }
    }
}

fn dashboard_panel(with_bars: bool) -> Vec<Pixel> {
    let (w, h) = (100usize, 60usize);
    let mut buf = page(w, h);
    for (x0, x1) in [(5, 24), (27, 46), (49, 68), (71, 90)] {
        fill_box(&mut buf, w, x0, x1, 5, 14, CARD);
    }
    for (y0, y1) in [(20, 34), (40, 54)] {
        for (x0, x1) in [(5, 46), (49, 90)] {
            fill_box(&mut buf, w, x0, x1, y0, y1, CARD);
        }
    }
    paint(&mut buf, w, 30, 22, TEXT);
    paint(&mut buf, w, 31, 23, TEXT);
    paint(&mut buf, w, 40, 36, GRID);
    if with_bars {
        paint(&mut buf, w, 10, 12, SERIES[0]);
    }
    buf
}

#[test]
fn check_panel_measures_and_judges_a_page() {
    let report = check_panel(&dashboard_panel(true), 100, 60, true);
    assert_eq!(report.bands, vec![(22, 23)]);
    assert_eq!(report.separators, vec![36]);
    assert_eq!(
        report.rows,
        vec![
            vec![(5, 24, 5, 14), (27, 46, 5, 14), (49, 68, 5, 14), (71, 90, 5, 14)],
            vec![(5, 46, 20, 34), (49, 90, 20, 34)],
            vec![(5, 46, 40, 54), (49, 90, 40, 54)],
        ]
    );
    assert_eq!(report.content, (5, 90, 5, 54));
    assert_eq!(report.counts.bars, [1, 0, 0, 0]);
    assert_eq!(report.verdict, Ok(()));

    let report = check_panel(&dashboard_panel(false), 100, 60, true);
    assert_eq!(report.verdict, Err(CheckProblem::NoBars));
    let report = check_panel(&dashboard_panel(false), 100, 60, false);
    assert_eq!(report.verdict, Ok(()));
}

#[test]
fn check_panel_catches_a_page_larger_than_the_panel() {
    let mut buf = dashboard_panel(true);
    paint(&mut buf, 100, 96, 30, TEXT);
    let report = check_panel(&buf, 100, 60, true);
    assert_eq!(report.content.1, 96);
    assert_eq!(report.verdict, Err(CheckProblem::PageTooLarge));
    let report = check_panel(&page(100, 60), 100, 60, false);
    assert_eq!(report.verdict, Err(CheckProblem::CardCount));
    assert_eq!(report.content, (100, 0, 60, 0));
}

#[test]
fn selfcheck_data_stage_decides_what_to_render() {
    assert_eq!(
        selfcheck_snapshot(FetchOutcome::CredentialsRejected).unwrap_err(),
        DataProblem::CredentialsRejected
    );
    let empty = selfcheck_snapshot(FetchOutcome::Failed("HTTP 500".to_string())).unwrap();
    assert_eq!(empty.queries, 0);
    assert!(empty.top_clients.is_empty());
    assert_eq!(empty.version, "");

    let mut snap = Snapshot::empty();
    snap.queries = 12;
    snap.top_clients = vec![(String::new(), 3), (String::new(), 1)];
    assert_eq!(
        selfcheck_snapshot(FetchOutcome::Refreshed(snap)).unwrap_err(),
        DataProblem::LabelsParsedEmpty
    );

    let mut snap = Snapshot::empty();
    snap.queries = 12;
    snap.top_clients = vec![(String::new(), 3), ("10.0.0.2".to_string(), 1)];
    let kept = selfcheck_snapshot(FetchOutcome::Refreshed(snap)).unwrap();
    assert_eq!(kept.queries, 12);
    assert_eq!(kept.top_clients.len(), 2);

    let kept = selfcheck_snapshot(FetchOutcome::Refreshed(Snapshot::empty())).unwrap();
    assert!(kept.top_clients.is_empty());
}

#[test]
fn an_empty_panel_is_a_card_count_problem() {
    let report = check_panel(&[], 0, 0, true);
    assert!(report.bands.is_empty());
    assert!(report.rows.is_empty());
    assert_eq!(report.verdict, Err(CheckProblem::CardCount));
    let report = check_panel(&[], 10, 0, false);
    assert_eq!(report.verdict, Err(CheckProblem::CardCount));
    assert_eq!(verdict(&Vec::new(), &counts(0, [0, 0, 0, 0]), 0, 0, 0, 0, false), Err(CheckProblem::CardCount));
}
