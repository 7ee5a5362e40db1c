//! Key handling of the dashboard: text entry in the input modes, and the command keys.
use crate::app::{
    ConnectionStateFilter, Effect, EffectView, LogLevelFilter, LogSourceFilter, ProcessViewMode,
    RowCounts, Scrolls, ServiceCommand, Tab, UiState, UiStateView, effect_views, entry_effects,
    logs_bottom, next_connection_filter, next_level, next_scan_depth, next_service_state,
    next_sort, next_source, next_view, push_effect, push_entry_effects, scroll_bottom_state, scroll_down_state,
    scroll_top_state, scroll_up_state, selection_effects, selection_effects_always, tab_at,
    tab_index,
};
use crate::logview::navigate_state;
use crate::text::{chars_of, spec_trim, string_of, trim};
use vstd::prelude::*;

verus! {

/// A key press, as far as the dashboard tells keys apart.
#[derive(Clone, Copy, Debug, PartialEq, Eq, Structural)]
pub enum Key {
    Char(char),
    Left,
    Right,
    Up,
    Down,
    Enter,
    Esc,
    Backspace,
    Other,
}

/// Text after an edit key: backspace drops the last character, a character is appended.
pub open spec fn edited(t: Seq<char>, key: Key) -> Seq<char> {
    match key {
        Key::Backspace => if t.len() > 0 {
            t.drop_last()
        } else {
            t
        },
        Key::Char(c) => t.push(c),
        _ => t,
    }
}

pub open spec fn is_ascii_digit(c: char) -> bool {
    '0' <= c && c <= '9'
}

/// Text of the CPU-core field after a key: only digits are typed.
pub open spec fn pin_edited(t: Seq<char>, key: Key) -> Seq<char> {
    match key {
        Key::Char(c) => if is_ascii_digit(c) {
            t.push(c)
        } else {
            t
        },
        _ => edited(t, key),
    }
}

/// Text of the nice-value field after a key: digits, and a minus sign as first character.
pub open spec fn renice_edited(t: Seq<char>, key: Key) -> Seq<char> {
    match key {
        Key::Char(c) => if is_ascii_digit(c) || (c == '-' && t.len() == 0) {
            t.push(c)
        } else {
            t
        },
        _ => edited(t, key),
    }
}

/// Drops the last character of a string, if any (`String::pop`).
pub fn pop_char(s: &mut String)
    ensures
        final(s)@ == (if old(s)@.len() > 0 {
            old(s)@.drop_last()
        } else {
            old(s)@
        }),
{
    let cs = chars_of(s.as_str());
    if cs.len() > 0 {
        let mut v: Vec<char> = Vec::new();
        let mut i: usize = 0;
        while i + 1 < cs.len()
            invariant
                i + 1 <= cs@.len(),
                v@ == cs@.take(i as int),
            decreases cs.len() - i,
        {
            v.push(cs[i]);
            assert(cs@.take(i + 1) =~= cs@.take(i as int).push(cs@[i as int]));
            i = i + 1;
        }
        assert(v@ =~= cs@.drop_last());
        *s = string_of(&v);
    }
}

/// Appends one character to a string.
pub fn push_text_char(s: &mut String, c: char)
    ensures
        final(s)@ == old(s)@.push(c),
{
    let mut cs = chars_of(s.as_str());
    cs.push(c);
    *s = string_of(&cs);
}

/// A text field after an edit key (backspace or a character).
fn edit(s: &String, key: Key) -> (r: String)
    ensures
        r@ == edited(s@, key),
{
    let mut t = string_of(&chars_of(s.as_str()));
    match key {
        Key::Backspace => pop_char(&mut t),
        Key::Char(c) => push_text_char(&mut t, c),
        _ => {},
    }
    t
}

/// A text field with one more character.
fn with_char(s: &String, c: char) -> (r: String)
    ensures
        r@ == s@.push(c),
{
    let mut t = string_of(&chars_of(s.as_str()));
    push_text_char(&mut t, c);
    t
}

/// Whether a key closes a text input (Esc or Enter).
pub open spec fn closes(key: Key) -> bool {
    key == Key::Esc || key == Key::Enter
}

fn closes_input(key: Key) -> (b: bool)
    ensures
        b == closes(key),
{
    match key {
        Key::Esc => true,
        Key::Enter => true,
        _ => false,
    }
}

/// State after a key in the log-search input: Esc also drops the query.
pub open spec fn regex_input_state(s: UiStateView, key: Key) -> UiStateView {
    UiStateView {
        logs_regex_input: if closes(key) {
            false
        } else {
            s.logs_regex_input
        },
        logs_query: if key == Key::Esc {
            Seq::empty()
        } else if key == Key::Enter {
            s.logs_query
        } else {
            edited(s.logs_query, key)
        },
        ..s
    }
}

/// State after a key in the network-tools target input; Enter with an empty target
/// reports it.
pub open spec fn network_input_state(s: UiStateView, key: Key) -> UiStateView {
    UiStateView {
        network_tool_input: if closes(key) {
            false
        } else {
            s.network_tool_input
        },
        network_tool_value: if closes(key) {
            Seq::empty()
        } else {
            edited(s.network_tool_value, key)
        },
        status_line: if key == Key::Enter && spec_trim(s.network_tool_value).len() == 0 {
            "Network tools target is empty"@
        } else {
            s.status_line
        },
        ..s
    }
}

/// Work asked for by a key in the network-tools input: Enter runs the tools on the trimmed
/// target when it is not empty.
pub open spec fn network_input_effect(s: UiStateView, key: Key) -> Option<EffectView> {
    if key == Key::Enter && spec_trim(s.network_tool_value).len() > 0 {
        Some(EffectView::RunNetworkTools(spec_trim(s.network_tool_value)))
    } else {
        None
    }
}

/// State after a key in the CPU-core input.
pub open spec fn pin_input_state(s: UiStateView, key: Key) -> UiStateView {
    UiStateView {
        pin_input: if closes(key) {
            false
        } else {
            s.pin_input
        },
        pin_core_value: if closes(key) {
            Seq::empty()
        } else {
            pin_edited(s.pin_core_value, key)
        },
        ..s
    }
}

/// Work asked for by a key in the CPU-core input: Enter pins the selected process to the
/// typed core.
pub open spec fn pin_input_effect(s: UiStateView, key: Key) -> Option<EffectView> {
    if key == Key::Enter {
        Some(EffectView::ApplyPin(s.pin_core_value))
    } else {
        None
    }
}

/// State after a key in the nice-value input.
pub open spec fn renice_input_state(s: UiStateView, key: Key) -> UiStateView {
    UiStateView {
        renice_input: if closes(key) {
            false
        } else {
            s.renice_input
        },
        renice_value: if closes(key) {
            Seq::empty()
        } else {
            renice_edited(s.renice_value, key)
        },
        ..s
    }
}

/// Work asked for by a key in the nice-value input: Enter renices the selected process.
pub open spec fn renice_input_effect(s: UiStateView, key: Key) -> Option<EffectView> {
    if key == Key::Enter {
        Some(EffectView::ApplyRenice(s.renice_value))
    } else {
        None
    }
}

pub open spec fn opt_effect_view(e: Option<Effect>) -> Option<EffectView> {
    match e {
        Some(x) => Some(x@),
        None => None,
    }
}

/// State after a key in the process-filter input (Esc keeps the typed filter).
pub open spec fn filter_input_state(s: UiStateView, key: Key) -> UiStateView {
    UiStateView {
        filter_input: if closes(key) {
            false
        } else {
            s.filter_input
        },
        process_filter: if closes(key) {
            s.process_filter
        } else {
            edited(s.process_filter, key)
        },
        ..s
    }
}

fn pin_edit(s: &String, key: Key) -> (r: String)
    ensures
        r@ == pin_edited(s@, key),
{
    match key {
        Key::Char(c) => if '0' <= c && c <= '9' {
            with_char(s, c)
        } else {
            string_of(&chars_of(s.as_str()))
        },
        _ => edit(s, key),
    }
}

fn renice_edit(s: &String, key: Key) -> (r: String)
    ensures
        r@ == renice_edited(s@, key),
{
    match key {
        Key::Char(c) => {
            let empty = chars_of(s.as_str()).len() == 0;
            if ('0' <= c && c <= '9') || (c == '-' && empty) {
                with_char(s, c)
            } else {
                string_of(&chars_of(s.as_str()))
            }
        },
        _ => edit(s, key),
    }
}

impl UiState {
    #[verifier::spinoff_prover]
    fn key_in_regex_input(&mut self, key: Key)
        ensures
            final(self)@ == regex_input_state(old(self)@, key),
    {
        let c = closes_input(key);
        let q = match key {
            Key::Esc => String::new(),
            Key::Enter => string_of(&chars_of(self.logs_query.as_str())),
            _ => edit(&self.logs_query, key),
        };
        self.logs_query = q;
        if c {
            self.logs_regex_input = false;
        }
    }

    #[verifier::spinoff_prover]
    fn key_in_network_input(&mut self, key: Key) -> (e: Option<Effect>)
        ensures
            final(self)@ == network_input_state(old(self)@, key),
            opt_effect_view(e) == network_input_effect(old(self)@, key),
    {
        let c = closes_input(key);
        let t = trim(&chars_of(self.network_tool_value.as_str()));
        let enter = match key {
            Key::Enter => true,
            _ => false,
        };
        let v = if c {
            String::new()
        } else {
            edit(&self.network_tool_value, key)
        };
        let open = if c {
            false
        } else {
            self.network_tool_input
        };
        let status = if enter && t.len() == 0 {
            string_of(&chars_of("Network tools target is empty"))
        } else {
            string_of(&chars_of(self.status_line.as_str()))
        };
        let e = if enter && t.len() > 0 {
            Some(Effect::RunNetworkTools(string_of(&t)))
        } else {
            None
        };
        self.network_tool_value = v;
        self.network_tool_input = open;
        self.status_line = status;
        e
    }

    #[verifier::spinoff_prover]
    fn key_in_pin_input(&mut self, key: Key) -> (e: Option<Effect>)
        ensures
            final(self)@ == pin_input_state(old(self)@, key),
            opt_effect_view(e) == pin_input_effect(old(self)@, key),
    {
        let c = closes_input(key);
        let e = match key {
            Key::Enter => Some(Effect::ApplyPin(string_of(&chars_of(self.pin_core_value.as_str())))),
            _ => None,
        };
        let v = if c {
            String::new()
        } else {
            pin_edit(&self.pin_core_value, key)
        };
        self.pin_core_value = v;
        if c {
            self.pin_input = false;
        }
        e
    }

    #[verifier::spinoff_prover]
    fn key_in_renice_input(&mut self, key: Key) -> (e: Option<Effect>)
        ensures
            final(self)@ == renice_input_state(old(self)@, key),
            opt_effect_view(e) == renice_input_effect(old(self)@, key),
    {
        let c = closes_input(key);
        let e = match key {
            Key::Enter => Some(Effect::ApplyRenice(string_of(&chars_of(self.renice_value.as_str())))),
            _ => None,
        };
        let v = if c {
            String::new()
        } else {
            renice_edit(&self.renice_value, key)
        };
        self.renice_value = v;
        if c {
            self.renice_input = false;
        }
        e
    }

    #[verifier::spinoff_prover]
    fn key_in_filter_input(&mut self, key: Key)
        ensures
            final(self)@ == filter_input_state(old(self)@, key),
    {
        let c = closes_input(key);
        let v = if c {
            string_of(&chars_of(self.process_filter.as_str()))
        } else {
            edit(&self.process_filter, key)
        };
        self.process_filter = v;
        if c {
            self.filter_input = false;
        }
    }
}


/// The tab a digit key (or `?`) selects.
pub open spec fn digit_tab(ch: char) -> Option<Tab> {
    if ch == '1' {
        Some(Tab::Overview)
    } else if ch == '2' {
        Some(Tab::Cpu)
    } else if ch == '3' {
        Some(Tab::Memory)
    } else if ch == '4' {
        Some(Tab::Processes)
    } else if ch == '5' {
        Some(Tab::Network)
    } else if ch == '6' {
        Some(Tab::Disk)
    } else if ch == '7' {
        Some(Tab::Gpu)
    } else if ch == '8' {
        Some(Tab::Services)
    } else if ch == '9' {
        Some(Tab::Logs)
    } else if ch == '0' {
        Some(Tab::Hardware)
    } else if ch == '?' {
        Some(Tab::Help)
    } else {
        None
    }
}

fn digit_tab_of(ch: char) -> (r: Option<Tab>)
    ensures
        r == digit_tab(ch),
{
    match ch {
        '1' => Some(Tab::Overview),
        '2' => Some(Tab::Cpu),
        '3' => Some(Tab::Memory),
        '4' => Some(Tab::Processes),
        '5' => Some(Tab::Network),
        '6' => Some(Tab::Disk),
        '7' => Some(Tab::Gpu),
        '8' => Some(Tab::Services),
        '9' => Some(Tab::Logs),
        '0' => Some(Tab::Hardware),
        '?' => Some(Tab::Help),
        _ => None,
    }
}

pub open spec fn next_tab_state(s: UiStateView) -> UiStateView {
    UiStateView {
        active_tab: tab_at(tab_index(s.active_tab) + 1),
        tab_transition: Some((s.active_tab, s.animation_frame)),
        ..s
    }
}

pub open spec fn previous_tab_state(s: UiStateView) -> UiStateView {
    UiStateView {
        active_tab: tab_at(tab_index(s.active_tab) + 11),
        tab_transition: Some((s.active_tab, s.animation_frame)),
        ..s
    }
}

/// Whether a character key moves between tabs (`h`, `l`, the digits and `?`).
pub open spec fn is_tab_char(ch: char) -> bool {
    ch == 'h' || ch == 'l' || digit_tab(ch) is Some
}

/// State after a tab key: `h` and `l` slide to the previous and next tab, a digit or `?`
/// jumps to its tab.
pub open spec fn tab_key_state(s: UiStateView, ch: char) -> UiStateView {
    if ch == 'h' {
        previous_tab_state(s)
    } else if ch == 'l' {
        next_tab_state(s)
    } else {
        match digit_tab(ch) {
            Some(t) => UiStateView { active_tab: t, ..s },
            None => s,
        }
    }
}

/// Work asked for by a tab key: the slide animation for `h` and `l`, and what entering
/// the new tab asks for.
pub open spec fn tab_key_effects(s: UiStateView, ch: char) -> Seq<EffectView> {
    if ch == 'h' {
        seq![EffectView::StartTabAnimation] + entry_effects(tab_at(tab_index(s.active_tab) + 11))
    } else if ch == 'l' {
        seq![EffectView::StartTabAnimation] + entry_effects(tab_at(tab_index(s.active_tab) + 1))
    } else {
        match digit_tab(ch) {
            Some(t) => entry_effects(t),
            None => Seq::empty(),
        }
    }
}

/// Whether a character key scrolls (`j`, `k`, `g`, `G`).
pub open spec fn is_scroll_char(ch: char) -> bool {
    ch == 'j' || ch == 'k' || ch == 'g' || ch == 'G'
}

/// State after `g`: a second `g` jumps to the first row, a first one waits for it.
pub open spec fn g_key_state(s: UiStateView) -> UiStateView {
    if s.pending_g {
        UiStateView { scroll: scroll_top_state(s.active_tab, s.scroll), pending_g: false, ..s }
    } else {
        UiStateView { pending_g: true, ..s }
    }
}

/// State after `G`: the last row.
pub open spec fn bottom_key_state(s: UiStateView, c: RowCounts) -> UiStateView {
    UiStateView { scroll: scroll_bottom_state(s.active_tab, s.scroll, c), pending_g: false, ..s }
}

/// State after a scroll key: `j` and `k` move one row, `gg` jumps to the top, `G` to the
/// bottom.
pub open spec fn scroll_key_state(s: UiStateView, ch: char, c: RowCounts) -> UiStateView {
    if ch == 'j' {
        UiStateView { scroll: scroll_down_state(s.active_tab, s.scroll, c), ..s }
    } else if ch == 'k' {
        UiStateView { scroll: scroll_up_state(s.active_tab, s.scroll), ..s }
    } else if ch == 'g' {
        g_key_state(s)
    } else if ch == 'G' {
        bottom_key_state(s, c)
    } else {
        s
    }
}

/// Work asked for by a scroll key: details of the newly selected process or service.
pub open spec fn scroll_key_effects(s: UiStateView, ch: char, c: RowCounts) -> Seq<EffectView> {
    if ch == 'j' || ch == 'G' {
        selection_effects(s.active_tab, c)
    } else if ch == 'k' || (ch == 'g' && s.pending_g) {
        selection_effects_always(s.active_tab)
    } else {
        Seq::empty()
    }
}

/// Whether a character key opens an input or searches (`/`, `n`, `N`, `a`, `t`).
pub open spec fn is_mode_char(ch: char) -> bool {
    ch == '/' || ch == 'n' || ch == 'N' || ch == 'a' || ch == 't'
}

/// State after `/`: opens the process filter or the log search.
pub open spec fn slash_key_state(s: UiStateView) -> UiStateView {
    if s.active_tab == Tab::Processes {
        UiStateView { pin_input: false, renice_input: false, filter_input: true, ..s }
    } else if s.active_tab == Tab::Logs {
        UiStateView {
            filter_input: false,
            renice_input: false,
            pin_input: false,
            network_tool_input: false,
            logs_regex_input: true,
            ..s
        }
    } else {
        s
    }
}

/// State after `n`: opens the nice-value input, or searches forward in the logs.
pub open spec fn n_key_state(s: UiStateView) -> UiStateView {
    if s.active_tab == Tab::Processes {
        UiStateView { filter_input: false, pin_input: false, renice_input: true, renice_value: Seq::empty(), ..s }
    } else if s.active_tab == Tab::Logs {
        navigate_state(s, true)
    } else {
        s
    }
}

/// State after `N`: searches backward in the logs.
pub open spec fn shift_n_key_state(s: UiStateView) -> UiStateView {
    if s.active_tab == Tab::Logs {
        navigate_state(s, false)
    } else {
        s
    }
}

/// State after `a`: opens the CPU-core input, or toggles log autoscroll.
pub open spec fn a_key_state(s: UiStateView) -> UiStateView {
    if s.active_tab == Tab::Processes {
        UiStateView { filter_input: false, renice_input: false, pin_input: true, pin_core_value: Seq::empty(), ..s }
    } else if s.active_tab == Tab::Logs {
        UiStateView {
            scroll: Scrolls {
                logs_autoscroll: !s.scroll.logs_autoscroll,
                logs: if !s.scroll.logs_autoscroll {
                    logs_bottom()
                } else {
                    s.scroll.logs
                },
                ..s.scroll
            },
            ..s
        }
    } else {
        s
    }
}

/// State after `t`: opens the network tools target input.
pub open spec fn t_key_state(s: UiStateView) -> UiStateView {
    if s.active_tab == Tab::Network {
        UiStateView {
            filter_input: false,
            renice_input: false,
            pin_input: false,
            network_tool_input: true,
            network_tool_value: Seq::empty(),
            ..s
        }
    } else {
        s
    }
}

/// State after a mode key, which depends on the tab. Opening an input closes the others.
pub open spec fn mode_key_state(s: UiStateView, ch: char) -> UiStateView {
    if ch == '/' {
        slash_key_state(s)
    } else if ch == 'n' {
        n_key_state(s)
    } else if ch == 'N' {
        shift_n_key_state(s)
    } else if ch == 'a' {
        a_key_state(s)
    } else if ch == 't' {
        t_key_state(s)
    } else {
        s
    }
}

/// State after Esc outside the inputs: it clears the process filter or the log query.
pub open spec fn esc_state(s: UiStateView) -> UiStateView {
    if s.active_tab == Tab::Processes {
        UiStateView { process_filter: Seq::empty(), ..s }
    } else if s.active_tab == Tab::Logs {
        UiStateView { logs_query: Seq::empty(), ..s }
    } else {
        s
    }
}

/// The service verb an action key runs on the services tab.
pub open spec fn service_key(ch: char) -> Option<ServiceCommand> {
    if ch == 'o' {
        Some(ServiceCommand::Restart)
    } else if ch == 'u' {
        Some(ServiceCommand::Start)
    } else if ch == 'i' {
        Some(ServiceCommand::Stop)
    } else if ch == 'e' {
        Some(ServiceCommand::Enable)
    } else if ch == 'd' {
        Some(ServiceCommand::Disable)
    } else if ch == 'w' {
        Some(ServiceCommand::Mask)
    } else if ch == 'W' {
        Some(ServiceCommand::Unmask)
    } else {
        None
    }
}

fn service_key_of(ch: char) -> (r: Option<ServiceCommand>)
    ensures
        r == service_key(ch),
{
    match ch {
        'o' => Some(ServiceCommand::Restart),
        'u' => Some(ServiceCommand::Start),
        'i' => Some(ServiceCommand::Stop),
        'e' => Some(ServiceCommand::Enable),
        'd' => Some(ServiceCommand::Disable),
        'w' => Some(ServiceCommand::Mask),
        'W' => Some(ServiceCommand::Unmask),
        _ => None,
    }
}

/// State after an action key: `s` cycles the process sort or the service state filter,
/// `p` the process view, `m` the disk scan depth, `v` the log level filter, `o` (logs
/// tab) the log source filter, `c` the connection state filter.
pub open spec fn action_key_state(s: UiStateView, ch: char) -> UiStateView {
    let t = s.active_tab;
    if ch == 's' && t == Tab::Processes {
        UiStateView { process_sort: next_sort(s.process_sort), ..s }
    } else if ch == 's' && t == Tab::Services {
        UiStateView {
            service_state_filter: next_service_state(s.service_state_filter),
            scroll: Scrolls { service: 0, ..s.scroll },
            ..s
        }
    } else if ch == 'p' && t == Tab::Processes {
        UiStateView { process_view: next_view(s.process_view), scroll: Scrolls { process: 0, ..s.scroll }, ..s }
    } else if ch == 'm' && t == Tab::Disk {
        UiStateView { dir_scan_depth: next_scan_depth(s.dir_scan_depth), ..s }
    } else if ch == 'v' && t == Tab::Logs {
        UiStateView { logs_level_filter: next_level(s.logs_level_filter), scroll: Scrolls { logs: 0, ..s.scroll }, ..s }
    } else if ch == 'o' && t == Tab::Logs {
        UiStateView {
            logs_source_filter: next_source(s.logs_source_filter),
            scroll: Scrolls { logs: 0, ..s.scroll },
            ..s
        }
    } else if ch == 'c' && t == Tab::Network {
        UiStateView {
            connection_state_filter: next_connection_filter(s.connection_state_filter),
            scroll: Scrolls { connection: 0, ..s.scroll },
            ..s
        }
    } else {
        s
    }
}

/// Work asked for by an action key.
pub open spec fn action_key_effects(s: UiStateView, ch: char) -> Seq<EffectView> {
    let t = s.active_tab;
    if ch == 'r' {
        seq![EffectView::Refresh]
    } else if ch == 's' && t == Tab::Processes {
        seq![EffectView::Refresh]
    } else if ch == 's' && t == Tab::Services {
        seq![EffectView::Refresh, EffectView::RefreshServiceDetails]
    } else if ch == 'p' && t == Tab::Processes {
        seq![EffectView::RefreshProcessDetails]
    } else if ch == 'x' && t == Tab::Processes {
        seq![EffectView::KillProcess(false)]
    } else if ch == 'x' && t == Tab::Network {
        seq![EffectView::KillConnection]
    } else if ch == 'z' && t == Tab::Processes {
        seq![EffectView::KillProcess(true)]
    } else if (ch == 'f' || ch == 'm') && t == Tab::Disk {
        seq![EffectView::ScanDiskDirs]
    } else if ch == 'b' && t == Tab::Network {
        seq![EffectView::BlockRemoteIp]
    } else if t == Tab::Services && service_key(ch) is Some {
        seq![EffectView::ServiceAction(service_key(ch)->0)]
    } else {
        Seq::empty()
    }
}

impl UiState {
    #[verifier::spinoff_prover]
    fn tab_key(&mut self, ch: char, effects: &mut Vec<Effect>)
        ensures
            final(self)@ == tab_key_state(old(self)@, ch),
            effect_views(final(effects)@) == effect_views(old(effects)@) + tab_key_effects(old(self)@, ch),
    {
        if ch == 'h' {
            self.previous_tab(effects);
        } else if ch == 'l' {
            self.next_tab(effects);
        } else {
            match digit_tab_of(ch) {
                Some(t) => {
                    self.active_tab = t;
                    push_entry_effects(t, effects);
                },
                None => {
                    assert(effect_views(effects@) =~= effect_views(old(effects)@) + Seq::<EffectView>::empty());
                },
            }
        }
    }

    #[verifier::spinoff_prover]
    fn g_key(&mut self, effects: &mut Vec<Effect>)
        ensures
            final(self)@ == g_key_state(old(self)@),
            effect_views(final(effects)@) == effect_views(old(effects)@) + (if old(self).pending_g {
                selection_effects_always(old(self).active_tab)
            } else {
                Seq::empty()
            }),
    {
        if self.pending_g {
            self.scroll_top(effects);
            self.pending_g = false;
        } else {
            self.pending_g = true;
            assert(effect_views(effects@) =~= effect_views(old(effects)@) + Seq::<EffectView>::empty());
        }
    }

    #[verifier::spinoff_prover]
    fn bottom_key(&mut self, c: RowCounts, effects: &mut Vec<Effect>)
        ensures
            final(self)@ == bottom_key_state(old(self)@, c),
            effect_views(final(effects)@) == effect_views(old(effects)@) + selection_effects(old(self).active_tab, c),
    {
        self.scroll_bottom(c, effects);
        self.pending_g = false;
    }

    #[verifier::spinoff_prover]
    fn scroll_key(&mut self, ch: char, c: RowCounts, effects: &mut Vec<Effect>)
        ensures
            final(self)@ == scroll_key_state(old(self)@, ch, c),
            effect_views(final(effects)@) == effect_views(old(effects)@) + scroll_key_effects(old(self)@, ch, c),
    {
        if ch == 'j' {
            self.scroll_down(c, effects);
        } else if ch == 'k' {
            self.scroll_up(effects);
        } else if ch == 'g' {
            self.g_key(effects);
        } else if ch == 'G' {
            self.bottom_key(c, effects);
        } else {
            assert(effect_views(effects@) =~= effect_views(old(effects)@) + Seq::<EffectView>::empty());
        }
    }

    #[verifier::spinoff_prover]
    fn slash_key(&mut self)
        ensures
            final(self)@ == slash_key_state(old(self)@),
    {
        if self.active_tab == Tab::Processes {
            self.pin_input = false;
            self.renice_input = false;
            self.filter_input = true;
        } else if self.active_tab == Tab::Logs {
            self.filter_input = false;
            self.renice_input = false;
            self.pin_input = false;
            self.network_tool_input = false;
            self.logs_regex_input = true;
        }
    }

    #[verifier::spinoff_prover]
    fn n_key(&mut self)
        ensures
            final(self)@ == n_key_state(old(self)@),
    {
        if self.active_tab == Tab::Processes {
            self.filter_input = false;
            self.pin_input = false;
            self.renice_input = true;
            self.renice_value = String::new();
        } else if self.active_tab == Tab::Logs {
            self.navigate_logs_match(true);
        }
    }

    #[verifier::spinoff_prover]
    fn shift_n_key(&mut self)
        ensures
            final(self)@ == shift_n_key_state(old(self)@),
    {
        if self.active_tab == Tab::Logs {
            self.navigate_logs_match(false);
        }
    }

    #[verifier::spinoff_prover]
    fn a_key(&mut self)
        ensures
            final(self)@ == a_key_state(old(self)@),
    {
        if self.active_tab == Tab::Processes {
            self.filter_input = false;
            self.renice_input = false;
            self.pin_input = true;
            self.pin_core_value = String::new();
        } else if self.active_tab == Tab::Logs {
            self.toggle_logs_autoscroll();
        }
    }

    #[verifier::spinoff_prover]
    fn t_key(&mut self)
        ensures
            final(self)@ == t_key_state(old(self)@),
    {
        if self.active_tab == Tab::Network {
            self.filter_input = false;
            self.renice_input = false;
            self.pin_input = false;
            self.network_tool_input = true;
            self.network_tool_value = String::new();
        }
    }

    #[verifier::spinoff_prover]
    fn mode_key(&mut self, ch: char)
        ensures
            final(self)@ == mode_key_state(old(self)@, ch),
    {
        if ch == '/' {
            self.slash_key();
        } else if ch == 'n' {
            self.n_key();
        } else if ch == 'N' {
            self.shift_n_key();
        } else if ch == 'a' {
            self.a_key();
        } else if ch == 't' {
            self.t_key();
        }
    }

    #[verifier::spinoff_prover]
    fn esc_key(&mut self)
        ensures
            final(self)@ == esc_state(old(self)@),
    {
        if self.active_tab == Tab::Processes {
            self.process_filter = String::new();
        } else if self.active_tab == Tab::Logs {
            self.logs_query = String::new();
        }
    }

    #[verifier::spinoff_prover]
    fn action_key(&mut self, ch: char, effects: &mut Vec<Effect>)
        ensures
            final(self)@ == action_key_state(old(self)@, ch),
            effect_views(final(effects)@) == effect_views(old(effects)@) + action_key_effects(old(self)@, ch),
    {
        let t = self.active_tab;
        if ch == 'r' {
            push_effect(effects, Effect::Refresh);
        } else if ch == 's' && t == Tab::Processes {
            self.cycle_process_sort();
            push_effect(effects, Effect::Refresh);
        } else if ch == 's' && t == Tab::Services {
            self.cycle_service_state_filter(effects);
        } else if ch == 'p' && t == Tab::Processes {
            self.cycle_process_view(effects);
        } else if ch == 'x' && t == Tab::Processes {
            push_effect(effects, Effect::KillProcess(false));
        } else if ch == 'x' && t == Tab::Network {
            push_effect(effects, Effect::KillConnection);
        } else if ch == 'z' && t == Tab::Processes {
            push_effect(effects, Effect::KillProcess(true));
        } else if ch == 'f' && t == Tab::Disk {
            push_effect(effects, Effect::ScanDiskDirs);
        } else if ch == 'm' && t == Tab::Disk {
            self.cycle_disk_scan_depth(effects);
        } else if ch == 'b' && t == Tab::Network {
            push_effect(effects, Effect::BlockRemoteIp);
        } else if ch == 'v' && t == Tab::Logs {
            self.cycle_logs_level_filter();
            assert(effect_views(effects@) =~= effect_views(old(effects)@) + Seq::<EffectView>::empty());
        } else if ch == 'o' && t == Tab::Logs {
            self.cycle_logs_source_filter();
            assert(effect_views(effects@) =~= effect_views(old(effects)@) + Seq::<EffectView>::empty());
        } else if ch == 'c' && t == Tab::Network {
            self.cycle_connection_state_filter();
            assert(effect_views(effects@) =~= effect_views(old(effects)@) + Seq::<EffectView>::empty());
        } else if t == Tab::Services {
            match service_key_of(ch) {
                Some(cmd) => push_effect(effects, Effect::ServiceAction(cmd)),
                None => {
                    assert(effect_views(effects@) =~= effect_views(old(effects)@) + Seq::<EffectView>::empty());
                },
            }
        } else {
            assert(effect_views(effects@) =~= effect_views(old(effects)@) + Seq::<EffectView>::empty());
        }
    }
}


/// State after a character key outside the inputs.
pub open spec fn char_key_state(s: UiStateView, ch: char, c: RowCounts) -> UiStateView {
    if is_tab_char(ch) {
        tab_key_state(s, ch)
    } else if is_scroll_char(ch) {
        scroll_key_state(s, ch, c)
    } else if is_mode_char(ch) {
        mode_key_state(s, ch)
    } else {
        action_key_state(s, ch)
    }
}

/// Work asked for by a character key outside the inputs.
pub open spec fn char_key_effects(s: UiStateView, ch: char, c: RowCounts) -> Seq<EffectView> {
    if is_tab_char(ch) {
        tab_key_effects(s, ch)
    } else if is_scroll_char(ch) {
        scroll_key_effects(s, ch, c)
    } else if is_mode_char(ch) {
        Seq::empty()
    } else {
        action_key_effects(s, ch)
    }
}

/// State after a key outside the inputs: the arrows act as `h`, `l`, `j` and `k`.
pub open spec fn command_state(s: UiStateView, key: Key, c: RowCounts) -> UiStateView {
    match key {
        Key::Left => tab_key_state(s, 'h'),
        Key::Right => tab_key_state(s, 'l'),
        Key::Down => scroll_key_state(s, 'j', c),
        Key::Up => scroll_key_state(s, 'k', c),
        Key::Esc => esc_state(s),
        Key::Char(ch) => char_key_state(s, ch, c),
        _ => s,
    }
}

/// Work asked for by a key outside the inputs.
pub open spec fn command_effects(s: UiStateView, key: Key, c: RowCounts) -> Seq<EffectView> {
    match key {
        Key::Left => tab_key_effects(s, 'h'),
        Key::Right => tab_key_effects(s, 'l'),
        Key::Down => scroll_key_effects(s, 'j', c),
        Key::Up => scroll_key_effects(s, 'k', c),
        Key::Char(ch) => char_key_effects(s, ch, c),
        _ => Seq::empty(),
    }
}

/// Whether a text input has the keyboard.
pub open spec fn in_input(s: UiStateView) -> bool {
    s.logs_regex_input || s.network_tool_input || s.pin_input || s.renice_input || s.filter_input
}

pub open spec fn opt_seq(e: Option<EffectView>) -> Seq<EffectView> {
    match e {
        Some(x) => seq![x],
        None => Seq::empty(),
    }
}

/// State after a key press. An open input takes the key (log search first, then network
/// target, CPU core, nice value, process filter); otherwise it is a command, and any key but
/// `g` ends a pending `gg`.
pub open spec fn key_state(s: UiStateView, key: Key, c: RowCounts) -> UiStateView {
    if s.logs_regex_input {
        regex_input_state(s, key)
    } else if s.network_tool_input {
        network_input_state(s, key)
    } else if s.pin_input {
        pin_input_state(s, key)
    } else if s.renice_input {
        renice_input_state(s, key)
    } else if s.filter_input {
        filter_input_state(s, key)
    } else if key == Key::Char('g') {
        command_state(s, key, c)
    } else {
        UiStateView { pending_g: false, ..command_state(s, key, c) }
    }
}

/// Work asked for by a key press, in order.
pub open spec fn key_effects(s: UiStateView, key: Key, c: RowCounts) -> Seq<EffectView> {
    if s.logs_regex_input {
        Seq::empty()
    } else if s.network_tool_input {
        opt_seq(network_input_effect(s, key))
    } else if s.pin_input {
        opt_seq(pin_input_effect(s, key))
    } else if s.renice_input {
        opt_seq(renice_input_effect(s, key))
    } else if s.filter_input {
        Seq::empty()
    } else {
        command_effects(s, key, c)
    }
}

/// Whether a key press quits: `q` outside the inputs.
pub open spec fn key_quits(s: UiStateView, key: Key) -> bool {
    !in_input(s) && key == Key::Char('q')
}

fn push_opt(effects: &mut Vec<Effect>, e: Option<Effect>)
    ensures
        effect_views(final(effects)@) == effect_views(old(effects)@) + opt_seq(opt_effect_view(e)),
{
    match e {
        Some(x) => {
            let ghost v = x@;
            push_effect(effects, x);
            assert(effect_views(effects@) =~= effect_views(old(effects)@) + seq![v]);
        },
        None => {
            assert(effect_views(effects@) =~= effect_views(old(effects)@) + Seq::<EffectView>::empty());
        },
    }
}

impl UiState {
    #[verifier::spinoff_prover]
    fn char_key(&mut self, ch: char, c: RowCounts, effects: &mut Vec<Effect>)
        ensures
            final(self)@ == char_key_state(old(self)@, ch, c),
            effect_views(final(effects)@) == effect_views(old(effects)@) + char_key_effects(old(self)@, ch, c),
    {
        let is_tab = ch == 'h' || ch == 'l' || digit_tab_of(ch).is_some();
        if is_tab {
            self.tab_key(ch, effects);
        } else if ch == 'j' || ch == 'k' || ch == 'g' || ch == 'G' {
            self.scroll_key(ch, c, effects);
        } else if ch == '/' || ch == 'n' || ch == 'N' || ch == 'a' || ch == 't' {
            self.mode_key(ch);
            assert(effect_views(effects@) =~= effect_views(old(effects)@) + Seq::<EffectView>::empty());
        } else {
            self.action_key(ch, effects);
        }
    }

    #[verifier::spinoff_prover]
    fn command_key(&mut self, key: Key, c: RowCounts, effects: &mut Vec<Effect>)
        ensures
            final(self)@ == command_state(old(self)@, key, c),
            effect_views(final(effects)@) == effect_views(old(effects)@) + command_effects(old(self)@, key, c),
    {
        match key {
            Key::Left => self.tab_key('h', effects),
            Key::Right => self.tab_key('l', effects),
            Key::Down => self.scroll_key('j', c, effects),
            Key::Up => self.scroll_key('k', c, effects),
            Key::Esc => {
                self.esc_key();
                assert(effect_views(effects@) =~= effect_views(old(effects)@) + Seq::<EffectView>::empty());
            },
            Key::Char(ch) => self.char_key(ch, c, effects),
            _ => {
                assert(effect_views(effects@) =~= effect_views(old(effects)@) + Seq::<EffectView>::empty());
            },
        }
    }

    /// Handles a key press: updates the state, appends the work it asks for to `effects`,
    /// and returns whether the dashboard should quit.
    #[verifier::spinoff_prover]
    pub fn handle_key(&mut self, key: Key, c: RowCounts, effects: &mut Vec<Effect>) -> (quit: bool)
        ensures
            final(self)@ == key_state(old(self)@, key, c),
            effect_views(final(effects)@) == effect_views(old(effects)@) + key_effects(old(self)@, key, c),
            quit == key_quits(old(self)@, key),
    {
        if self.logs_regex_input {
            self.key_in_regex_input(key);
            assert(effect_views(effects@) =~= effect_views(old(effects)@) + Seq::<EffectView>::empty());
            return false;
        }
        if self.network_tool_input {
            let e = self.key_in_network_input(key);
            push_opt(effects, e);
            return false;
        }
        if self.pin_input {
            let e = self.key_in_pin_input(key);
            push_opt(effects, e);
            return false;
        }
        if self.renice_input {
            let e = self.key_in_renice_input(key);
            push_opt(effects, e);
            return false;
        }
        if self.filter_input {
            self.key_in_filter_input(key);
            assert(effect_views(effects@) =~= effect_views(old(effects)@) + Seq::<EffectView>::empty());
            return false;
        }
        let quit = match key {
            Key::Char(ch) => ch == 'q',
            _ => false,
        };
        let is_g = match key {
            Key::Char(ch) => ch == 'g',
            _ => false,
        };
        self.command_key(key, c, effects);
        if !is_g {
            self.pending_g = false;
        }
        quit
    }
}

} // verus!
