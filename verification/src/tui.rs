//! The state of the dashboard and the texts it shows. Drawing and reading
//! the keyboard are the caller's.

use vstd::prelude::*;
use vstd::string::StringExecFns;

use crate::metrics::{capped, is_percentile, MetricsStore, RequestRecord, RoutingMethod};
use crate::text::{decimal, decimal_text};

verus! {

/// The tabs of the dashboard.
#[derive(Clone, Copy, Debug, PartialEq, Eq, Structural)]
pub enum Tab {
    Overview,
    Models,
    Backends,
    Errors,
}

impl Tab {
    /// The titles of the tabs, in their order.
    pub fn titles() -> (titles: Vec<&'static str>)
        ensures
            titles@.len() == 4,
            titles@[0]@ == "Overview [1]"@,
            titles@[1]@ == "Models [2]"@,
            titles@[2]@ == "Backends [3]"@,
            titles@[3]@ == "Errors [4]"@,
    {
        let mut titles: Vec<&'static str> = Vec::new();
        titles.push("Overview [1]");
        titles.push("Models [2]");
        titles.push("Backends [3]");
        titles.push("Errors [4]");
        titles
    }

    /// The position of the tab.
    pub open spec fn position(self) -> int {
        match self {
            Tab::Overview => 0,
            Tab::Models => 1,
            Tab::Backends => 2,
            Tab::Errors => 3,
        }
    }

    /// The position of the tab.
    pub fn index(self) -> (index: usize)
        ensures
            index == self.position(),
    {
        match self {
            Tab::Overview => 0,
            Tab::Models => 1,
            Tab::Backends => 2,
            Tab::Errors => 3,
        }
    }

    /// The tab to the right, round the end.
    pub open spec fn next(self) -> Tab {
        match self {
            Tab::Overview => Tab::Models,
            Tab::Models => Tab::Backends,
            Tab::Backends => Tab::Errors,
            Tab::Errors => Tab::Overview,
        }
    }

    /// The tab to the left, round the end.
    pub open spec fn previous(self) -> Tab {
        match self {
            Tab::Overview => Tab::Errors,
            Tab::Models => Tab::Overview,
            Tab::Backends => Tab::Models,
            Tab::Errors => Tab::Backends,
        }
    }
}

/// Going right and then left, or left and then right, comes back to the
/// same tab; going right moves one position on, round the end.
pub proof fn lemma_tabs_cycle(tab: Tab)
    ensures
        tab.next().previous() == tab,
        tab.previous().next() == tab,
        tab.next().position() == (tab.position() + 1) % 4,
        tab.next().next().next().next() == tab,
{
}

/// How the dashboard was left: the proxy stops, or goes on detached.
#[derive(Clone, Copy, Debug, PartialEq, Eq, Structural)]
pub enum ExitMode {
    Quit,
    Detach,
}

/// The keys that the dashboard tells apart.
#[derive(Clone, Copy, Debug, PartialEq, Eq, Structural)]
pub enum KeyCode {
    Char(char),
    Tab,
    Left,
    Right,
    Up,
    Down,
    Other,
}

/// A key press: the key, and whether Control was held.
#[derive(Clone, Copy, Debug, PartialEq, Eq, Structural)]
pub struct KeyEvent {
    pub code: KeyCode,
    pub control: bool,
}

/// The state of the dashboard.
#[derive(Clone, Copy, Debug, PartialEq, Eq, Structural)]
pub struct App {
    pub active_tab: Tab,
    pub scroll_offset: usize,
    pub exit_mode: Option<ExitMode>,
    pub attached: bool,
}

impl App {
    /// The state after a key press.
    pub open spec fn after_key(self, key: KeyEvent) -> App {
        if key.control && key.code == KeyCode::Char('c') {
            App { exit_mode: Some(ExitMode::Quit), ..self }
        } else {
            match key.code {
                KeyCode::Char(c) => if c == 'q' {
                    App { exit_mode: Some(ExitMode::Quit), ..self }
                } else if c == 'd' && !self.attached {
                    App { exit_mode: Some(ExitMode::Detach), ..self }
                } else if c == '1' {
                    App { active_tab: Tab::Overview, ..self }
                } else if c == '2' {
                    App { active_tab: Tab::Models, ..self }
                } else if c == '3' {
                    App { active_tab: Tab::Backends, ..self }
                } else if c == '4' {
                    App { active_tab: Tab::Errors, ..self }
                } else if c == 'l' {
                    App { active_tab: self.active_tab.next(), scroll_offset: 0, ..self }
                } else if c == 'h' {
                    App { active_tab: self.active_tab.previous(), scroll_offset: 0, ..self }
                } else if c == 'j' {
                    App { scroll_offset: self.scrolled_down(), ..self }
                } else if c == 'k' {
                    App { scroll_offset: self.scrolled_up(), ..self }
                } else {
                    self
                },
                KeyCode::Tab | KeyCode::Right => App {
                    active_tab: self.active_tab.next(),
                    scroll_offset: 0,
                    ..self
                },
                KeyCode::Left => App {
                    active_tab: self.active_tab.previous(),
                    scroll_offset: 0,
                    ..self
                },
                KeyCode::Down => App { scroll_offset: self.scrolled_down(), ..self },
                KeyCode::Up => App { scroll_offset: self.scrolled_up(), ..self },
                KeyCode::Other => self,
            }
        }
    }

    /// The offset one line further down, as far as `usize` goes.
    pub open spec fn scrolled_down(self) -> usize {
        if self.scroll_offset < usize::MAX {
            (self.scroll_offset + 1) as usize
        } else {
            self.scroll_offset
        }
    }

    /// The offset one line further up, not above the top.
    pub open spec fn scrolled_up(self) -> usize {
        if self.scroll_offset > 0 {
            (self.scroll_offset - 1) as usize
        } else {
            0
        }
    }

    /// The dashboard at its start: on the overview, at the top.
    pub fn new(attached: bool) -> (app: Self)
        ensures
            app == (App {
                active_tab: Tab::Overview,
                scroll_offset: 0,
                exit_mode: None,
                attached,
            }),
    {
        App { active_tab: Tab::Overview, scroll_offset: 0, exit_mode: None, attached }
    }

    fn scroll_down(&mut self)
        ensures
            *final(self) == (App { scroll_offset: old(self).scrolled_down(), ..*old(self) }),
    {
        if self.scroll_offset < usize::MAX {
            self.scroll_offset = self.scroll_offset + 1;
        }
    }

    fn scroll_up(&mut self)
        ensures
            *final(self) == (App { scroll_offset: old(self).scrolled_up(), ..*old(self) }),
    {
        if self.scroll_offset > 0 {
            self.scroll_offset = self.scroll_offset - 1;
        }
    }

    fn go_right(&mut self)
        ensures
            *final(self) == (App {
                active_tab: old(self).active_tab.next(),
                scroll_offset: 0,
                ..*old(self)
            }),
    {
        self.active_tab = match self.active_tab {
            Tab::Overview => Tab::Models,
            Tab::Models => Tab::Backends,
            Tab::Backends => Tab::Errors,
            Tab::Errors => Tab::Overview,
        };
        self.scroll_offset = 0;
    }

    fn go_left(&mut self)
        ensures
            *final(self) == (App {
                active_tab: old(self).active_tab.previous(),
                scroll_offset: 0,
                ..*old(self)
            }),
    {
        self.active_tab = match self.active_tab {
            Tab::Overview => Tab::Errors,
            Tab::Models => Tab::Overview,
            Tab::Backends => Tab::Models,
            Tab::Errors => Tab::Backends,
        };
        self.scroll_offset = 0;
    }

    /// Takes a key press: Control-C and `q` quit, `d` detaches unless the
    /// dashboard is attached, the digits pick a tab, Tab, the arrows and
    /// `h`/`l` move between tabs and scroll back to the top, `j`/`k` and the
    /// arrows scroll.
    pub fn handle_key(&mut self, key: KeyEvent)
        ensures
            *final(self) == old(self).after_key(key),
    {
        if key.control && key.code == KeyCode::Char('c') {
            self.exit_mode = Some(ExitMode::Quit);
            return;
        }
        match key.code {
            KeyCode::Char(c) => {
                if c == 'q' {
                    self.exit_mode = Some(ExitMode::Quit);
                } else if c == 'd' && !self.attached {
                    self.exit_mode = Some(ExitMode::Detach);
                } else if c == '1' {
                    self.active_tab = Tab::Overview;
                } else if c == '2' {
                    self.active_tab = Tab::Models;
                } else if c == '3' {
                    self.active_tab = Tab::Backends;
                } else if c == '4' {
                    self.active_tab = Tab::Errors;
                } else if c == 'l' {
                    self.go_right();
                } else if c == 'h' {
                    self.go_left();
                } else if c == 'j' {
                    self.scroll_down();
                } else if c == 'k' {
                    self.scroll_up();
                }
            },
            KeyCode::Tab => {
                self.go_right();
            },
            KeyCode::Right => {
                self.go_right();
            },
            KeyCode::Left => {
                self.go_left();
            },
            KeyCode::Down => {
                self.scroll_down();
            },
            KeyCode::Up => {
                self.scroll_up();
            },
            KeyCode::Other => {},
        }
    }
}

/// How long ago, in the largest unit that is full: seconds below a minute,
/// minutes below an hour, hours below a day, else days.
pub open spec fn time_ago_text(secs: u64) -> Seq<char> {
    if secs < 60 {
        decimal_text(secs as nat) + "s ago"@
    } else if secs < 3600 {
        decimal_text((secs / 60) as nat) + "m ago"@
    } else if secs < 86400 {
        decimal_text((secs / 3600) as nat) + "h ago"@
    } else {
        decimal_text((secs / 86400) as nat) + "d ago"@
    }
}

/// Formats an age of `secs` seconds.
pub fn format_time_ago(secs: u64) -> (text: String)
    ensures
        text@ == time_ago_text(secs),
{
    if secs < 60 {
        let mut text = decimal(secs);
        text.append("s ago");
        text
    } else if secs < 3600 {
        let mut text = decimal(secs / 60);
        text.append("m ago");
        text
    } else if secs < 86400 {
        let mut text = decimal(secs / 3600);
        text.append("h ago");
        text
    } else {
        let mut text = decimal(secs / 86400);
        text.append("d ago");
        text
    }
}

/// The label of a status that the dashboard knows by name.
pub fn status_label(code: u16) -> (label: Option<&'static str>)
    ensures
        label.is_some() == (code == 200 || code == 201 || code == 204 || code == 400 || code == 401
            || code == 403 || code == 404 || code == 429 || code == 500 || code == 502 || code
            == 503 || code == 529),
        code == 200 ==> label.unwrap()@ == "200 OK"@,
        code == 201 ==> label.unwrap()@ == "201 Created"@,
        code == 204 ==> label.unwrap()@ == "204 No Content"@,
        code == 400 ==> label.unwrap()@ == "400 Bad Request"@,
        code == 401 ==> label.unwrap()@ == "401 Unauthorized"@,
        code == 403 ==> label.unwrap()@ == "403 Forbidden"@,
        code == 404 ==> label.unwrap()@ == "404 Not Found"@,
        code == 429 ==> label.unwrap()@ == "429 Rate Limited"@,
        code == 500 ==> label.unwrap()@ == "500 Internal Error"@,
        code == 502 ==> label.unwrap()@ == "502 Bad Gateway"@,
        code == 503 ==> label.unwrap()@ == "503 Unavailable"@,
        code == 529 ==> label.unwrap()@ == "529 Overloaded"@,
{
    if code == 200 {
        Some("200 OK")
    } else if code == 201 {
        Some("201 Created")
    } else if code == 204 {
        Some("204 No Content")
    } else if code == 400 {
        Some("400 Bad Request")
    } else if code == 401 {
        Some("401 Unauthorized")
    } else if code == 403 {
        Some("403 Forbidden")
    } else if code == 404 {
        Some("404 Not Found")
    } else if code == 429 {
        Some("429 Rate Limited")
    } else if code == 500 {
        Some("500 Internal Error")
    } else if code == 502 {
        Some("502 Bad Gateway")
    } else if code == 503 {
        Some("503 Unavailable")
    } else if code == 529 {
        Some("529 Overloaded")
    } else {
        None
    }
}

/// The labels along the time axis of a chart over `num_buckets` minutes: the
/// whole span, three quarters, half and a quarter of it, and now.
pub fn time_axis_labels(num_buckets: usize) -> (labels: Vec<String>)
    ensures
        labels@.len() == 5,
        labels@[0]@ == "-"@ + decimal_text(num_buckets as nat) + "m"@,
        labels@[1]@ == "-"@ + decimal_text((num_buckets * 3 / 4) as nat) + "m"@,
        labels@[2]@ == "-"@ + decimal_text((num_buckets / 2) as nat) + "m"@,
        labels@[3]@ == "-"@ + decimal_text((num_buckets / 4) as nat) + "m"@,
        labels@[4]@ == "now"@,
{
    let three_quarters: u64 = (((num_buckets as u128) * 3) / 4) as u64;
    let mut labels: Vec<String> = Vec::new();
    labels.push(minutes_back(num_buckets as u64));
    labels.push(minutes_back(three_quarters));
    labels.push(minutes_back((num_buckets / 2) as u64));
    labels.push(minutes_back((num_buckets / 4) as u64));
    labels.push("now".to_owned());
    labels
}

fn minutes_back(minutes: u64) -> (label: String)
    ensures
        label@ == "-"@ + decimal_text(minutes as nat) + "m"@,
{
    let mut label = "-".to_owned();
    label.append(decimal(minutes).as_str());
    label.append("m");
    label
}

/// The largest of the values; one where there are none.
pub open spec fn peak(values: Seq<u64>) -> u64
    decreases values.len(),
{
    if values.len() == 0 {
        1
    } else if values.len() == 1 {
        values[0]
    } else if values.last() > peak(values.drop_last()) {
        values.last()
    } else {
        peak(values.drop_last())
    }
}

/// The upper end of a chart's value axis: the peak of the values, at least
/// `floor`, rounded up to a multiple of `step` and kept within `u64`.
pub open spec fn ceiling_of(values: Seq<u64>, floor: u64, step: u64) -> u64 {
    let top = if peak(values) > floor {
        peak(values)
    } else {
        floor
    };
    capped((((top + step - 1) / (step as int)) * step) as nat)
}

/// Computes the upper end of a chart's value axis.
pub fn chart_ceiling(values: &[u64], floor: u64, step: u64) -> (ceiling: u64)
    requires
        step > 0,
    ensures
        ceiling == ceiling_of(values@, floor, step),
{
    let mut top: u64 = 1;
    let mut at: usize = 0;
    proof {
        assert(values@.take(0) =~= Seq::<u64>::empty());
    }
    while at < values.len()
        invariant
            at <= values.len(),
            top == peak(values@.take(at as int)),
        decreases values.len() - at,
    {
        proof {
            let next = values@.take(at + 1);
            assert(next.drop_last() =~= values@.take(at as int));
            assert(next.last() == values@[at as int]);
        }
        if at == 0 || values[at] > top {
            top = values[at];
        }
        at = at + 1;
    }
    proof {
        assert(values@.take(values@.len() as int) =~= values@);
    }
    if floor > top {
        top = floor;
    }
    let steps: u128 = (top as u128 + step as u128 - 1) / (step as u128);
    assert(steps * (step as u128) <= top + step - 1) by (nonlinear_arith)
        requires
            steps == (top + step - 1) / (step as int),
            step > 0,
    ;
    let rounded: u128 = steps * (step as u128);
    if rounded > u64::MAX as u128 {
        u64::MAX
    } else {
        rounded as u64
    }
}

/// The input tokens of the records, summed.
pub open spec fn input_total(records: Seq<RequestRecord>) -> nat
    decreases records.len(),
{
    if records.len() == 0 {
        0
    } else {
        input_total(records.drop_last()) + records.last().input_tokens as nat
    }
}

/// The output tokens of the records, summed.
pub open spec fn output_total(records: Seq<RequestRecord>) -> nat
    decreases records.len(),
{
    if records.len() == 0 {
        0
    } else {
        output_total(records.drop_last()) + records.last().output_tokens as nat
    }
}

/// The predicate "was answered with an error".
pub open spec fn failed() -> spec_fn(RequestRecord) -> bool {
    |r: RequestRecord| r.status >= 400
}

/// The predicate "was not routed to the default provider".
pub open spec fn rerouted() -> spec_fn(RequestRecord) -> bool {
    |r: RequestRecord| r.routing_method != RoutingMethod::Default
}

/// The durations of the records, in their order.
pub open spec fn durations_of(records: Seq<RequestRecord>) -> Seq<u64> {
    records.map_values(|r: RequestRecord| r.duration)
}

/// One row of a table of models or providers.
#[derive(Clone, Copy, Debug, PartialEq, Eq, Structural)]
pub struct GroupSummary {
    pub requests: u64,
    pub input_tokens: u64,
    pub output_tokens: u64,
    pub tokens_per_request: u64,
    pub p50: u64,
    pub p95: u64,
    pub errors: u64,
    pub rerouted: bool,
}

/// Sums up the records of one group: how many, their tokens (each sum kept
/// within `u64`), the tokens per request, the median and the 95th percentile
/// of their durations, how many failed, and whether any was rerouted.
pub fn summarize(records: &[RequestRecord]) -> (summary: GroupSummary)
    ensures
        summary.requests == records@.len(),
        summary.input_tokens == capped(input_total(records@)),
        summary.output_tokens == capped(output_total(records@)),
        summary.tokens_per_request == capped(
            (input_total(records@) + output_total(records@)) / (if records@.len() == 0 {
                1nat
            } else {
                records@.len()
            }),
        ),
        is_percentile(durations_of(records@), 50, summary.p50),
        is_percentile(durations_of(records@), 95, summary.p95),
        summary.errors == records@.filter(failed()).len(),
        summary.rerouted == (records@.filter(rerouted()).len() > 0),
{
    let mut input: u128 = 0;
    let mut output: u128 = 0;
    let mut errors: u64 = 0;
    let mut any_rerouted = false;
    let mut durations: Vec<u64> = Vec::new();
    let mut at: usize = 0;
    proof {
        reveal(Seq::filter);
        assert(records@.take(0) =~= Seq::<RequestRecord>::empty());
        assert(durations@ =~= durations_of(records@.take(0)));
    }
    while at < records.len()
        invariant
            at <= records.len(),
            input == input_total(records@.take(at as int)),
            output == output_total(records@.take(at as int)),
            input <= at * 0xFFFF_FFFF_FFFF_FFFF,
            output <= at * 0xFFFF_FFFF_FFFF_FFFF,
            errors == records@.take(at as int).filter(failed()).len(),
            errors <= at,
            any_rerouted == (records@.take(at as int).filter(rerouted()).len() > 0),
            durations@ == durations_of(records@.take(at as int)),
        decreases records.len() - at,
    {
        let record = &records[at];
        proof {
            let seen = records@.take(at as int);
            let next = records@.take(at + 1);
            assert(next =~= seen.push(*record));
            assert(next.drop_last() =~= seen);
            seen.lemma_filter_push(*record, failed());
            seen.lemma_filter_push(*record, rerouted());
            assert(durations_of(next) =~= durations_of(seen).push(record.duration));
        }
        input = input + record.input_tokens as u128;
        output = output + record.output_tokens as u128;
        if record.status >= 400 {
            errors = errors + 1;
        }
        match record.routing_method {
            RoutingMethod::Default => {},
            _ => {
                any_rerouted = true;
            },
        }
        durations.push(record.duration);
        at = at + 1;
    }
    proof {
        assert(records@.take(records@.len() as int) =~= records@);
    }
    let count: u128 = if records.len() == 0 {
        1
    } else {
        records.len() as u128
    };
    let per_request: u128 = if input > u128::MAX - output {
        proof {
            let total = input_total(records@) + output_total(records@);
            assert(total / (count as nat) > 0xFFFF_FFFF_FFFF_FFFF) by (nonlinear_arith)
                requires
                    total >= 0x1_0000_0000_0000_0000_0000_0000_0000_0000,
                    0 < count <= 0xFFFF_FFFF_FFFF_FFFF,
            ;
        }
        u128::MAX
    } else {
        (input + output) / count
    };
    let p50 = MetricsStore::duration_percentile(durations.as_slice(), 50);
    let p95 = MetricsStore::duration_percentile(durations.as_slice(), 95);
    GroupSummary {
        requests: records.len() as u64,
        input_tokens: cap(input),
        output_tokens: cap(output),
        tokens_per_request: cap(per_request),
        p50,
        p95,
        errors,
        rerouted: any_rerouted,
    }
}

fn cap(total: u128) -> (kept: u64)
    ensures
        kept == capped(total as nat),
{
    if total > u64::MAX as u128 {
        u64::MAX
    } else {
        total as u64
    }
}

/// The values, summed.
pub open spec fn total_of(values: Seq<u64>) -> nat
    decreases values.len(),
{
    if values.len() == 0 {
        0
    } else {
        total_of(values.drop_last()) + values.last() as nat
    }
}

fn wide_total(values: &[u64]) -> (total: u128)
    ensures
        total == total_of(values@),
        total <= values@.len() * 0xFFFF_FFFF_FFFF_FFFF,
{
    let mut total: u128 = 0;
    let mut at: usize = 0;
    proof {
        assert(values@.take(0) =~= Seq::<u64>::empty());
    }
    while at < values.len()
        invariant
            at <= values.len(),
            total == total_of(values@.take(at as int)),
            total <= at * 0xFFFF_FFFF_FFFF_FFFF,
        decreases values.len() - at,
    {
        proof {
            let next = values@.take(at + 1);
            assert(next.drop_last() =~= values@.take(at as int));
            assert(next.last() == values@[at as int]);
        }
        total = total + values[at] as u128;
        at = at + 1;
    }
    proof {
        assert(values@.take(values@.len() as int) =~= values@);
    }
    total
}

/// The sum of the values, kept within `u64`: the total under a chart.
pub fn chart_total(values: &[u64]) -> (total: u64)
    ensures
        total == capped(total_of(values@)),
{
    cap(wide_total(values))
}

/// The mean of the durations, rounded down; zero where there are none.
pub fn average_duration(durations: &[u64]) -> (mean: u64)
    ensures
        mean == if durations@.len() == 0 {
            0
        } else {
            total_of(durations@) / durations@.len()
        },
{
    if durations.len() == 0 {
        return 0;
    }
    let total = wide_total(durations);
    let count = durations.len() as u128;
    let mean = total / count;
    proof {
        assert(total / count <= 0xFFFF_FFFF_FFFF_FFFF) by (nonlinear_arith)
            requires
                total <= count * 0xFFFF_FFFF_FFFF_FFFF,
                count > 0,
        ;
    }
    mean as u64
}

} // verus!
