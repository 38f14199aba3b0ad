use croxy::metrics::{RequestRecord, RoutingMethod};
use croxy::tui::{
    average_duration, chart_ceiling, chart_total, format_time_ago, status_label, summarize, time_axis_labels, App, ExitMode,
    GroupSummary, KeyCode, KeyEvent, Tab,
};

fn make_app() -> App {
    App::new(false)
}

fn make_attached_app() -> App {
    App::new(true)
}

fn key(code: KeyCode) -> KeyEvent {
    KeyEvent { code, control: false }
}

fn ctrl_c() -> KeyEvent {
    KeyEvent { code: KeyCode::Char('c'), control: true }
}

fn assert_tab_cycle(nav_key: KeyCode, expected: &[Tab]) {
    let mut app = make_app();
    for &tab in expected {
        app.handle_key(key(nav_key));
        assert_eq!(app.active_tab, tab);
    }
}

fn assert_nav_resets_scroll(nav_key: KeyCode) {
    let mut app = make_app();
    app.handle_key(key(KeyCode::Char('j')));
    app.handle_key(key(KeyCode::Char('j')));
    assert_eq!(app.scroll_offset, 2);
    app.handle_key(key(nav_key));
    assert_eq!(app.scroll_offset, 0);
}

#[test]
fn ctrl_c_quits() {
    let mut app = make_app();
    app.handle_key(ctrl_c());
    assert_eq!(app.exit_mode, Some(ExitMode::Quit));
}

#[test]
fn q_quits() {
    let mut app = make_app();
    app.handle_key(key(KeyCode::Char('q')));
    assert_eq!(app.exit_mode, Some(ExitMode::Quit));
}

#[test]
fn plain_c_does_not_quit() {
    let mut app = make_app();
    app.handle_key(key(KeyCode::Char('c')));
    assert!(app.exit_mode.is_none());
}

#[test]
fn number_keys_switch_tabs() {
    let mut app = make_app();
    for (ch, tab) in [
        ('2', Tab::Models),
        ('3', Tab::Backends),
        ('4', Tab::Errors),
        ('1', Tab::Overview),
    ] {
        app.handle_key(key(KeyCode::Char(ch)));
        assert_eq!(app.active_tab, tab);
    }
}

#[test]
fn tab_cycles_through_tabs() {
    assert_tab_cycle(
        KeyCode::Tab,
        &[Tab::Models, Tab::Backends, Tab::Errors, Tab::Overview],
    );
}

#[test]
fn scroll_j_k() {
    let mut app = make_app();
    assert_eq!(app.scroll_offset, 0);
    app.handle_key(key(KeyCode::Char('j')));
    assert_eq!(app.scroll_offset, 1);
    app.handle_key(key(KeyCode::Char('j')));
    assert_eq!(app.scroll_offset, 2);
    app.handle_key(key(KeyCode::Char('k')));
    assert_eq!(app.scroll_offset, 1);
    app.handle_key(key(KeyCode::Char('k')));
    assert_eq!(app.scroll_offset, 0);
    app.handle_key(key(KeyCode::Char('k')));
    assert_eq!(app.scroll_offset, 0);
}

#[test]
fn scroll_with_arrows_stops_at_both_ends() {
    let mut app = make_app();
    app.handle_key(key(KeyCode::Down));
    assert_eq!(app.scroll_offset, 1);
    app.handle_key(key(KeyCode::Up));
    app.handle_key(key(KeyCode::Up));
    assert_eq!(app.scroll_offset, 0);
    app.scroll_offset = usize::MAX;
    app.handle_key(key(KeyCode::Down));
    assert_eq!(app.scroll_offset, usize::MAX);
    app.handle_key(key(KeyCode::Other));
    app.handle_key(key(KeyCode::Char('x')));
    assert_eq!(app, App { scroll_offset: usize::MAX, ..make_app() });
}

#[test]
fn tab_resets_scroll() {
    assert_nav_resets_scroll(KeyCode::Tab);
}

#[test]
fn right_arrow_cycles_forward() {
    assert_tab_cycle(
        KeyCode::Right,
        &[Tab::Models, Tab::Backends, Tab::Errors, Tab::Overview],
    );
}

#[test]
fn left_arrow_cycles_backward() {
    assert_tab_cycle(
        KeyCode::Left,
        &[Tab::Errors, Tab::Backends, Tab::Models, Tab::Overview],
    );
}

#[test]
fn h_l_navigate_tabs() {
    let mut app = make_app();
    app.handle_key(key(KeyCode::Char('l')));
    assert_eq!(app.active_tab, Tab::Models);
    app.handle_key(key(KeyCode::Char('h')));
    assert_eq!(app.active_tab, Tab::Overview);
}

#[test]
fn left_right_resets_scroll() {
    assert_nav_resets_scroll(KeyCode::Right);
    assert_nav_resets_scroll(KeyCode::Left);
}

#[test]
fn d_detaches_in_foreground() {
    let mut app = make_app();
    app.handle_key(key(KeyCode::Char('d')));
    assert_eq!(app.exit_mode, Some(ExitMode::Detach));
}

#[test]
fn d_ignored_in_attached() {
    let mut app = make_attached_app();
    app.handle_key(key(KeyCode::Char('d')));
    assert!(app.exit_mode.is_none());
}

#[test]
fn footer_shows_detach_in_foreground() {
    let app = make_app();
    assert!(!app.attached);
}

#[test]
fn footer_hides_detach_in_attached() {
    let app = make_attached_app();
    assert!(app.attached);
}

#[test]
fn tab_titles_and_positions() {
    assert_eq!(
        Tab::titles(),
        vec!["Overview [1]", "Models [2]", "Backends [3]", "Errors [4]"]
    );
    assert_eq!(Tab::Overview.index(), 0);
    assert_eq!(Tab::Models.index(), 1);
    assert_eq!(Tab::Backends.index(), 2);
    assert_eq!(Tab::Errors.index(), 3);
}

#[test]
fn format_time_ago_seconds() {
    assert_eq!(format_time_ago(0), "0s ago");
    assert_eq!(format_time_ago(30), "30s ago");
    assert_eq!(format_time_ago(59), "59s ago");
}

#[test]
fn format_time_ago_minutes() {
    assert_eq!(format_time_ago(60), "1m ago");
    assert_eq!(format_time_ago(90), "1m ago");
    assert_eq!(format_time_ago(3599), "59m ago");
}

#[test]
fn format_time_ago_hours() {
    assert_eq!(format_time_ago(3600), "1h ago");
    assert_eq!(format_time_ago(7200), "2h ago");
    assert_eq!(format_time_ago(86399), "23h ago");
}

#[test]
fn format_time_ago_days() {
    assert_eq!(format_time_ago(86400), "1d ago");
    assert_eq!(format_time_ago(172800), "2d ago");
    assert_eq!(format_time_ago(u64::MAX), "213503982334601d ago");
}

#[test]
fn status_labels() {
    assert_eq!(status_label(200), Some("200 OK"));
    assert_eq!(status_label(429), Some("429 Rate Limited"));
    assert_eq!(status_label(529), Some("529 Overloaded"));
    assert_eq!(status_label(502), Some("502 Bad Gateway"));
    assert_eq!(status_label(418), None);
}

#[test]
fn time_axis_runs_from_the_window_to_now() {
    assert_eq!(time_axis_labels(60), vec!["-60m", "-45m", "-30m", "-15m", "now"]);
    assert_eq!(time_axis_labels(1), vec!["-1m", "-0m", "-0m", "-0m", "now"]);
    assert_eq!(time_axis_labels(7), vec!["-7m", "-5m", "-3m", "-1m", "now"]);
}

#[test]
fn chart_ceiling_rounds_the_peak_up() {
    assert_eq!(chart_ceiling(&[], 10, 5), 10);
    assert_eq!(chart_ceiling(&[3, 11, 7], 10, 5), 15);
    assert_eq!(chart_ceiling(&[3, 15, 7], 10, 5), 15);
    assert_eq!(chart_ceiling(&[0], 0, 7), 0);
    assert_eq!(chart_ceiling(&[], 0, 100), 100);
    assert_eq!(chart_ceiling(&[250, 101], 100, 100), 300);
    assert_eq!(chart_ceiling(&[u64::MAX], 100, 100), u64::MAX);
}

fn request(status: u16, duration: u64, input: u64, output: u64, method: RoutingMethod) -> RequestRecord {
    RequestRecord {
        id: 0,
        mono_ts: 0,
        wall_ts: 0,
        model: "m".to_string(),
        provider: "p".to_string(),
        routing_method: method,
        status,
        duration,
        input_tokens: input,
        output_tokens: output,
        error_body: None,
    }
}

#[test]
fn summary_of_a_group() {
    let records = vec![
        request(200, 300, 10, 20, RoutingMethod::Default),
        request(500, 100, 1, 2, RoutingMethod::Pattern),
        request(404, 200, 5, 6, RoutingMethod::Default),
    ];
    assert_eq!(
        summarize(&records),
        GroupSummary {
            requests: 3,
            input_tokens: 16,
            output_tokens: 28,
            tokens_per_request: 14,
            p50: 200,
            p95: 300,
            errors: 2,
            rerouted: true,
        }
    );
    assert_eq!(
        summarize(&[]),
        GroupSummary {
            requests: 0,
            input_tokens: 0,
            output_tokens: 0,
            tokens_per_request: 0,
            p50: 0,
            p95: 0,
            errors: 0,
            rerouted: false,
        }
    );
    let large = vec![
        request(200, 1, u64::MAX, u64::MAX, RoutingMethod::Default),
        request(200, 1, 1, 0, RoutingMethod::Default),
    ];
    let summary = summarize(&large);
    assert_eq!(summary.input_tokens, u64::MAX);
    assert_eq!(summary.output_tokens, u64::MAX);
    assert_eq!(summary.tokens_per_request, u64::MAX);
    assert!(!summary.rerouted);
}

#[test]
fn totals_and_means() {
    assert_eq!(chart_total(&[]), 0);
    assert_eq!(chart_total(&[1, 2, 3]), 6);
    assert_eq!(chart_total(&[u64::MAX, 1]), u64::MAX);
    assert_eq!(average_duration(&[]), 0);
    assert_eq!(average_duration(&[10, 11]), 10);
    assert_eq!(average_duration(&[u64::MAX, u64::MAX, u64::MAX]), u64::MAX);
    assert_eq!(average_duration(&[0, 0, 5]), 1);
}
