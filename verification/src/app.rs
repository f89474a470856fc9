//! The viewer's state: received entries, the service filter, the table
//! selection and the screen shown, and how each user or network action
//! changes them.

use vstd::prelude::*;
use crate::common::{LogEntry, NetworkPacket};
use crate::screen;

verus! {

/// The keys the viewer reacts to; every other key is `Other`.
#[derive(Clone, Copy, PartialEq, Eq, Structural, Debug)]
pub enum KeyCode {
    Char(char),
    Esc,
    Backspace,
    Up,
    Down,
    Tab,
    Other,
}

/// What can happen to the viewer.
pub enum Action {
    Network(NetworkPacket),
    Input(KeyCode),
    Tick,
    Quit,
}

/// The selected row of the log table (an index into the visible rows).
pub struct TableState {
    pub selected: Option<usize>,
}

impl TableState {
    /// No row selected.
    pub fn new() -> (t: TableState)
        ensures
            t.selected is None,
    {
        TableState { selected: None }
    }

    /// The selected row.
    pub fn selected(&self) -> (r: Option<usize>)
        ensures
            r == self.selected,
    {
        self.selected
    }

    /// Selects a row (or none).
    pub fn select(&mut self, row: Option<usize>)
        ensures
            final(self).selected == row,
    {
        self.selected = row;
    }
}

/// Whether `e` passes the service filter `filter` (`None`: every entry).
pub open spec fn entry_visible(e: LogEntry, filter: Option<Seq<char>>) -> bool {
    match filter {
        None => true,
        Some(s) => e.service@ == s,
    }
}

/// Indices of the entries of `logs` that pass `filter`, in arrival order.
pub open spec fn visible_indices(logs: Seq<LogEntry>, filter: Option<Seq<char>>) -> Seq<int>
    decreases logs.len(),
{
    if logs.len() == 0 {
        Seq::empty()
    } else {
        let rest = visible_indices(logs.drop_last(), filter);
        if entry_visible(logs.last(), filter) {
            rest.push(logs.len() - 1)
        } else {
            rest
        }
    }
}

/// `known` extended by the services of `entries` not yet in it, in order of
/// first appearance.
pub open spec fn add_services(known: Seq<Seq<char>>, entries: Seq<LogEntry>) -> Seq<Seq<char>>
    decreases entries.len(),
{
    if entries.len() == 0 {
        known
    } else {
        let before = add_services(known, entries.drop_last());
        let s = entries.last().service@;
        if before.contains(s) {
            before
        } else {
            before.push(s)
        }
    }
}

/// The distinct services of `logs`, in order of first appearance.
pub open spec fn services_of(logs: Seq<LogEntry>) -> Seq<Seq<char>> {
    add_services(Seq::empty(), logs)
}

/// The visible indices are in range, strictly increasing, each passes the
/// filter, and every entry that passes the filter is among them.
pub proof fn lemma_visible_indices(logs: Seq<LogEntry>, filter: Option<Seq<char>>)
    ensures
        visible_indices(logs, filter).len() <= logs.len(),
        forall|k: int|
            0 <= k < visible_indices(logs, filter).len() ==> {
                let i = #[trigger] visible_indices(logs, filter)[k];
                &&& 0 <= i < logs.len()
                &&& entry_visible(logs[i], filter)
            },
        forall|k1: int, k2: int|
            0 <= k1 < k2 < visible_indices(logs, filter).len() ==> #[trigger] visible_indices(
                logs,
                filter,
            )[k1] < #[trigger] visible_indices(logs, filter)[k2],
        forall|i: int|
            0 <= i < logs.len() && entry_visible(#[trigger] logs[i], filter) ==> visible_indices(
                logs,
                filter,
            ).contains(i),
    decreases logs.len(),
{
    if logs.len() > 0 {
        let rest = logs.drop_last();
        lemma_visible_indices(rest, filter);
        let v = visible_indices(logs, filter);
        let vr = visible_indices(rest, filter);
        assert forall|i: int| 0 <= i < logs.len() && entry_visible(#[trigger] logs[i], filter)
            implies v.contains(i) by {
            if i < logs.len() - 1 {
                assert(rest[i] == logs[i]);
                assert(vr.contains(i));
                let k = choose|k: int| 0 <= k < vr.len() && vr[k] == i;
                assert(v[k] == i);
            } else {
                assert(v[v.len() - 1] == i);
            }
        }
    }
}

/// What `add_services` keeps and adds.
pub proof fn lemma_add_services(known: Seq<Seq<char>>, entries: Seq<LogEntry>)
    ensures
        known.is_prefix_of(add_services(known, entries)),
        add_services(known, entries).len() <= known.len() + entries.len(),
        forall|s: Seq<char>|
            #[trigger] add_services(known, entries).contains(s) <==> (known.contains(s) || exists|
                i: int,
            | 0 <= i < entries.len() && (#[trigger] entries[i]).service@ == s),
        known.no_duplicates() ==> add_services(known, entries).no_duplicates(),
    decreases entries.len(),
{
    if entries.len() > 0 {
        let rest = entries.drop_last();
        lemma_add_services(known, rest);
        let before = add_services(known, rest);
        let last = entries.last();
        assert forall|s: Seq<char>|
            #[trigger] add_services(known, entries).contains(s) <==> (known.contains(s) || exists|
                i: int,
            | 0 <= i < entries.len() && (#[trigger] entries[i]).service@ == s) by {
            if add_services(known, entries).contains(s) {
                if before.contains(s) {
                    if !known.contains(s) {
                        let i = choose|i: int| 0 <= i < rest.len() && (#[trigger] rest[i]).service@ == s;
                        assert(entries[i] == rest[i]);
                    }
                } else {
                    let k = choose|k: int| 0 <= k < add_services(known, entries).len() && add_services(known, entries)[k] == s;
                    assert(k == before.len());
                    assert(entries[entries.len() - 1] == last);
                }
            }
            if known.contains(s) {
                let k = choose|k: int| 0 <= k < known.len() && known[k] == s;
                assert(before[k] == s);
                assert(add_services(known, entries)[k] == s);
            } else if exists|i: int| 0 <= i < entries.len() && (#[trigger] entries[i]).service@ == s {
                let i = choose|i: int| 0 <= i < entries.len() && (#[trigger] entries[i]).service@ == s;
                if i < entries.len() - 1 {
                    assert(rest[i] == entries[i]);
                    assert(before.contains(s));
                    let k = choose|k: int| 0 <= k < before.len() && before[k] == s;
                    assert(add_services(known, entries)[k] == s);
                } else {
                    if !before.contains(s) {
                        assert(add_services(known, entries)[before.len() as int] == s);
                    }
                }
            }
        }
    }
}

/// Registering the services of `a + b` is registering those of `a`, then
/// those of `b`.
pub proof fn lemma_add_services_concat(
    known: Seq<Seq<char>>,
    a: Seq<LogEntry>,
    b: Seq<LogEntry>,
)
    ensures
        add_services(known, a + b) == add_services(add_services(known, a), b),
    decreases b.len(),
{
    if b.len() == 0 {
        assert(a + b =~= a);
    } else {
        lemma_add_services_concat(known, a, b.drop_last());
        assert((a + b).drop_last() =~= a + b.drop_last());
        assert((a + b).last() == b.last());
    }
}

/// The state of the viewer, as a mathematical value.
pub struct AppModel {
    pub logs: Seq<LogEntry>,
    pub selected: Option<int>,
    pub should_quit: bool,
    pub known_services: Seq<Seq<char>>,
    pub active_filter: int,
    pub follow: bool,
    pub view: screen::View,
}

impl AppModel {
    /// The filter is a known service (or all), and the known services are
    /// the distinct services of the entries.
    pub open spec fn wf_core(self) -> bool {
        &&& 0 <= self.active_filter <= self.known_services.len()
        &&& self.known_services == services_of(self.logs)
    }

    /// The invariant every reachable state keeps: besides `wf_core`, a
    /// selected row is a visible row, follow mode means the newest visible
    /// row is selected (when there is one), and the detail screen is only
    /// shown with a row selected.
    pub open spec fn wf(self) -> bool {
        &&& self.wf_core()
        &&& self.selected matches Some(i) ==> 0 <= i < self.visible_len()
        &&& self.follow ==> (self.visible_len() == 0 || self.selected == Some(self.visible_len() - 1))
        &&& self.view == screen::View::Detail ==> self.selected is Some
    }

    /// A state from which jumping to the newest row gives a state that
    /// keeps the invariant.
    pub open spec fn jump_ready(self) -> bool {
        &&& self.wf_core()
        &&& self.visible_len() == 0 ==> self.selected is None
        &&& self.view == screen::View::Detail ==> self.selected is Some
    }

    /// The service the table is restricted to (`None`: all services).
    pub open spec fn filter(self) -> Option<Seq<char>> {
        if self.active_filter == 0 {
            None
        } else {
            Some(self.known_services[self.active_filter - 1])
        }
    }

    /// The name of the active filter: `All`, or the service.
    pub open spec fn filter_name(self) -> Seq<char> {
        match self.filter() {
            None => "All"@,
            Some(s) => s,
        }
    }

    /// Indices into `logs` of the rows the table shows.
    pub open spec fn visible(self) -> Seq<int> {
        visible_indices(self.logs, self.filter())
    }

    /// Number of rows the table shows.
    pub open spec fn visible_len(self) -> int {
        self.visible().len() as int
    }

    /// Down arrow: select the next row (staying on the last one); follow
    /// mode is on exactly when the last row is selected.
    pub open spec fn after_next(self) -> AppModel {
        let len = self.visible_len();
        if len == 0 {
            self
        } else {
            let i = match self.selected {
                Some(i) => if i + 1 < len - 1 { i + 1 } else { len - 1 },
                None => 0,
            };
            AppModel { selected: Some(i), follow: i >= len - 1, ..self }
        }
    }

    /// Up arrow: select the previous row (staying on the first one) and
    /// leave follow mode.
    pub open spec fn after_previous(self) -> AppModel {
        let len = self.visible_len();
        if len == 0 {
            self
        } else {
            let i = match self.selected {
                Some(i) => if i > 0 { i - 1 } else { 0 },
                None => 0,
            };
            AppModel { selected: Some(i), follow: false, ..self }
        }
    }

    /// Select the newest visible row, if any, and enter follow mode.
    pub open spec fn after_jump_to_latest(self) -> AppModel {
        let len = self.visible_len();
        AppModel {
            selected: if len > 0 { Some(len - 1) } else { self.selected },
            follow: true,
            ..self
        }
    }

    /// The next filter in the cycle all, first service, second service,
    /// ..., all.
    pub open spec fn with_next_filter(self) -> AppModel {
        let total: int = self.known_services.len() as int + 1;
        AppModel { active_filter: (self.active_filter + 1) % total, ..self }
    }

    /// Tab: the next filter, then jump to the newest visible row.
    pub open spec fn after_cycle_filter(self) -> AppModel {
        self.with_next_filter().after_jump_to_latest()
    }

    /// `batch` appended to the entries and its new services registered.
    pub open spec fn with_batch(self, batch: Seq<LogEntry>) -> AppModel {
        AppModel {
            logs: self.logs + batch,
            known_services: add_services(self.known_services, batch),
            ..self
        }
    }

    /// A batch of entries arrives: they are appended in order, their new
    /// services are registered, and in follow mode the newest row is selected.
    pub open spec fn after_batch(self, batch: Seq<LogEntry>) -> AppModel {
        if self.follow {
            self.with_batch(batch).after_jump_to_latest()
        } else {
            self.with_batch(batch)
        }
    }

    /// A key press.
    pub open spec fn after_key(self, key: KeyCode) -> AppModel {
        let in_table = self.view == screen::View::Table;
        match key {
            KeyCode::Char('q') => AppModel { should_quit: true, ..self },
            KeyCode::Esc | KeyCode::Backspace => AppModel { view: screen::View::Table, ..self },
            KeyCode::Char('e') => if in_table && self.selected is Some {
                AppModel { view: screen::View::Detail, ..self }
            } else {
                self
            },
            KeyCode::Down => if in_table { self.after_next() } else { self },
            KeyCode::Up => if in_table { self.after_previous() } else { self },
            KeyCode::Char(' ') => if in_table { self.after_jump_to_latest() } else { self },
            KeyCode::Tab => if in_table { self.after_cycle_filter() } else { self },
            _ => self,
        }
    }

    /// Any action.
    pub open spec fn step(self, action: Action) -> AppModel {
        match action {
            Action::Network(NetworkPacket::Batch(batch)) => self.after_batch(batch@),
            Action::Network(_) => self,
            Action::Input(key) => self.after_key(key),
            Action::Tick => self,
            Action::Quit => AppModel { should_quit: true, ..self },
        }
    }
}

/// Without a filter every entry is a visible row.
pub proof fn lemma_visible_unfiltered(logs: Seq<LogEntry>)
    ensures
        visible_indices(logs, None).len() == logs.len(),
    decreases logs.len(),
{
    if logs.len() > 0 {
        lemma_visible_unfiltered(logs.drop_last());
    }
}

/// Appending entries keeps the earlier visible rows, in place.
pub proof fn lemma_visible_prefix(logs: Seq<LogEntry>, batch: Seq<LogEntry>, filter: Option<Seq<char>>)
    ensures
        visible_indices(logs, filter).is_prefix_of(visible_indices(logs + batch, filter)),
    decreases batch.len(),
{
    if batch.len() == 0 {
        assert(logs + batch =~= logs);
    } else {
        lemma_visible_prefix(logs, batch.drop_last(), filter);
        assert((logs + batch).drop_last() =~= logs + batch.drop_last());
        let v = visible_indices(logs, filter);
        let w = visible_indices(logs + batch.drop_last(), filter);
        let u = visible_indices(logs + batch, filter);
        assert(forall|k: int| 0 <= k < v.len() ==> w[k] == v[k]);
        assert(forall|k: int| 0 <= k < w.len() ==> u[k] == w[k]);
        assert(v =~= u.subrange(0, v.len() as int));
    }
}

/// A known service chosen as the filter has at least one visible row.
proof fn lemma_known_service_visible(m: AppModel)
    requires
        m.wf_core(),
        m.active_filter > 0,
    ensures
        m.visible_len() > 0,
{
    lemma_add_services(Seq::empty(), m.logs);
    let s = m.known_services[m.active_filter - 1];
    assert(m.known_services.contains(s));
    let i = choose|i: int| 0 <= i < m.logs.len() && (#[trigger] m.logs[i]).service@ == s;
    lemma_visible_indices(m.logs, m.filter());
    assert(entry_visible(m.logs[i], m.filter()));
    assert(m.visible().contains(i));
}

/// Jumping to the newest row from a `jump_ready` state keeps the invariant.
proof fn lemma_jump_wf(m: AppModel)
    requires
        m.jump_ready(),
    ensures
        m.after_jump_to_latest().wf(),
{
}

/// The state with the next filter is `jump_ready`.
proof fn lemma_next_filter_jump_ready(m: AppModel)
    requires
        m.wf(),
    ensures
        m.with_next_filter().jump_ready(),
{
    let c = m.with_next_filter();
    if c.active_filter > 0 {
        lemma_known_service_visible(c);
    } else {
        lemma_visible_unfiltered(m.logs);
        lemma_visible_indices(m.logs, m.filter());
    }
}

/// Appending a batch keeps the filter and the earlier rows; the result is
/// `jump_ready`, and keeps the invariant outside follow mode.
proof fn lemma_with_batch(m: AppModel, batch: Seq<LogEntry>)
    requires
        m.wf(),
    ensures
        m.with_batch(batch).wf_core(),
        m.with_batch(batch).filter() == m.filter(),
        m.visible().is_prefix_of(m.with_batch(batch).visible()),
        m.with_batch(batch).jump_ready(),
        !m.follow ==> m.with_batch(batch).wf(),
{
    lemma_add_services_concat(Seq::empty(), m.logs, batch);
    lemma_add_services(m.known_services, batch);
    let g = m.with_batch(batch);
    if m.active_filter > 0 {
        assert(g.known_services[m.active_filter - 1] == m.known_services[m.active_filter - 1]);
    }
    assert(g.filter() == m.filter());
    lemma_visible_prefix(m.logs, batch, m.filter());
}

/// Every action keeps the invariant.
pub proof fn lemma_step_keeps_wf(m: AppModel, action: Action)
    requires
        m.wf(),
    ensures
        m.step(action).wf(),
{
    match action {
        Action::Network(NetworkPacket::Batch(batch)) => {
            lemma_after_batch_wf(m, batch@);
        },
        Action::Input(key) => {
            lemma_after_key_wf(m, key);
        },
        _ => {},
    }
}

proof fn lemma_after_batch_wf(m: AppModel, batch: Seq<LogEntry>)
    requires
        m.wf(),
    ensures
        m.after_batch(batch).wf(),
{
    lemma_with_batch(m, batch);
    if m.follow {
        lemma_jump_wf(m.with_batch(batch));
    }
}

proof fn lemma_after_key_wf(m: AppModel, key: KeyCode)
    requires
        m.wf(),
    ensures
        m.after_key(key).wf(),
{
    lemma_jump_wf(m);
    lemma_next_filter_jump_ready(m);
    lemma_jump_wf(m.with_next_filter());
}

/// The state of a new viewer: no entries, no selection, all services,
/// following the newest entry, table screen.
pub open spec fn initial_model() -> AppModel {
    AppModel {
        logs: Seq::empty(),
        selected: None,
        should_quit: false,
        known_services: Seq::empty(),
        active_filter: 0,
        follow: true,
        view: screen::View::Table,
    }
}

/// The state after the actions `actions`, in order, starting from `m`.
pub open spec fn run(m: AppModel, actions: Seq<Action>) -> AppModel
    decreases actions.len(),
{
    if actions.len() == 0 {
        m
    } else {
        run(m, actions.drop_last()).step(actions.last())
    }
}

/// The viewer.
pub struct App {
    pub logs: Vec<LogEntry>,
    pub table_state: TableState,
    pub should_quit: bool,
    pub known_services: Vec<String>,
    pub active_filter: usize,
    pub follow: bool,
    pub view: screen::View,
}

/// The views of a list of strings.
pub open spec fn string_views(v: Seq<String>) -> Seq<Seq<char>> {
    v.map_values(|s: String| s@)
}

impl App {
    /// The state as a mathematical value.
    pub open spec fn model(self) -> AppModel {
        AppModel {
            logs: self.logs@,
            selected: match self.table_state.selected {
                Some(i) => Some(i as int),
                None => None,
            },
            should_quit: self.should_quit,
            known_services: string_views(self.known_services@),
            active_filter: self.active_filter as int,
            follow: self.follow,
            view: self.view,
        }
    }

    /// The invariant of the viewer; the entry count stays below `usize::MAX`
    /// so that row numbers and filter counts fit.
    pub open spec fn wf(self) -> bool {
        &&& self.model().wf()
        &&& self.logs@.len() < usize::MAX
    }

    /// What the queries of the viewer need: the filter names a known
    /// service (or all) and the entry count leaves room for row numbers.
    pub open spec fn readable(self) -> bool {
        &&& self.active_filter <= self.known_services@.len()
        &&& self.logs@.len() < usize::MAX
    }

    /// An empty viewer: no entries, no selection, all services, following
    /// the newest entry, table screen.
    pub fn new() -> (app: App)
        ensures
            app.wf(),
            app.model() == initial_model(),
    {
        let app = App {
            logs: Vec::new(),
            table_state: TableState::new(),
            should_quit: false,
            known_services: Vec::new(),
            active_filter: 0,
            follow: true,
            view: screen::View::Table,
        };
        assert(string_views(app.known_services@) =~= Seq::empty());
        assert(services_of(Seq::<LogEntry>::empty()) =~= Seq::empty());
        app
    }

    /// The service filter as an executable value.
    fn filter_service(&self) -> (r: Option<&String>)
        requires
            self.readable(),
        ensures
            match r {
                None => self.model().filter() is None,
                Some(s) => self.model().filter() == Some(s@),
            },
    {
        if self.active_filter == 0 {
            None
        } else {
            Some(&self.known_services[self.active_filter - 1])
        }
    }

    /// Number of rows the table shows.
    pub fn filtered_len(&self) -> (n: usize)
        requires
            self.readable(),
        ensures
            n == self.model().visible_len(),
    {
        let filter = self.filter_service();
        let ghost f = self.model().filter();
        let n = self.logs.len();
        let mut count: usize = 0;
        let mut i: usize = 0;
        while i < n
            invariant
                n == self.logs@.len(),
                i <= n,
                count <= i,
                count == visible_indices(self.logs@.take(i as int), f).len(),
                match filter {
                    None => f is None,
                    Some(s) => f == Some(s@),
                },
            decreases n - i,
        {
            let keep = match filter {
                None => true,
                Some(s) => self.logs[i].service == *s,
            };
            assert(self.logs@.take(i + 1).drop_last() =~= self.logs@.take(i as int));
            if keep {
                count = count + 1;
            }
            i = i + 1;
        }
        assert(self.logs@.take(n as int) =~= self.logs@);
        count
    }

    /// The rows the table shows: each with its arrival number (1-based
    /// position among all received entries) and the entry.
    pub fn filtered_logs(&self) -> (rows: Vec<(usize, &LogEntry)>)
        requires
            self.readable(),
        ensures
            rows@.len() == self.model().visible_len(),
            forall|k: int|
                0 <= k < rows@.len() ==> {
                    &&& (#[trigger] rows@[k]).0 == self.model().visible()[k] + 1
                    &&& *rows@[k].1 == self.logs@[self.model().visible()[k]]
                },
    {
        let filter = self.filter_service();
        let ghost f = self.model().filter();
        let n = self.logs.len();
        let mut rows: Vec<(usize, &LogEntry)> = Vec::new();
        let mut i: usize = 0;
        while i < n
            invariant
                n == self.logs@.len(),
                n < usize::MAX,
                i <= n,
                rows@.len() == visible_indices(self.logs@.take(i as int), f).len(),
                forall|k: int|
                    0 <= k < rows@.len() ==> {
                        &&& (#[trigger] rows@[k]).0 == visible_indices(
                            self.logs@.take(i as int),
                            f,
                        )[k] + 1
                        &&& *rows@[k].1 == self.logs@[visible_indices(
                            self.logs@.take(i as int),
                            f,
                        )[k]]
                    },
                match filter {
                    None => f is None,
                    Some(s) => f == Some(s@),
                },
            decreases n - i,
        {
            let keep = match filter {
                None => true,
                Some(s) => self.logs[i].service == *s,
            };
            assert(self.logs@.take(i + 1).drop_last() =~= self.logs@.take(i as int));
            if keep {
                rows.push((i + 1, &self.logs[i]));
            }
            i = i + 1;
        }
        assert(self.logs@.take(n as int) =~= self.logs@);
        rows
    }
}

/// Whether `s` is among `list`.
fn contains_service(list: &Vec<String>, s: &String) -> (r: bool)
    ensures
        r == string_views(list@).contains(s@),
{
    let n = list.len();
    let mut i: usize = 0;
    while i < n
        invariant
            n == list@.len(),
            i <= n,
            forall|j: int| 0 <= j < i ==> list@[j]@ != s@,
        decreases n - i,
    {
        if list[i] == *s {
            assert(string_views(list@)[i as int] == s@);
            return true;
        }
        i = i + 1;
    }
    proof {
        if string_views(list@).contains(s@) {
            let k = choose|k: int| 0 <= k < string_views(list@).len() && string_views(list@)[k] == s@;
            assert(list@[k]@ == s@);
        }
    }
    false
}

impl App {
    /// The name of the active filter: `All`, or the service.
    pub fn filter_name(&self) -> (r: &str)
        requires
            self.readable(),
        ensures
            r@ == self.model().filter_name(),
    {
        if self.active_filter == 0 {
            "All"
        } else {
            self.known_services[self.active_filter - 1].as_str()
        }
    }

    /// The entry of the selected row, if a row is selected and it is
    /// among the visible rows.
    pub fn selected_log(&self) -> (r: Option<LogEntry>)
        requires
            self.readable(),
        ensures
            r == match self.model().selected {
                Some(i) => if i < self.model().visible_len() {
                    Some(self.logs@[self.model().visible()[i]])
                } else {
                    None
                },
                None => None,
            },
    {
        let idx = match self.table_state.selected() {
            Some(i) => i,
            None => return None,
        };
        let rows = self.filtered_logs();
        if idx < rows.len() {
            Some(rows[idx].1.duplicate())
        } else {
            None
        }
    }

    fn next(&mut self)
        requires
            old(self).wf(),
        ensures
            final(self).wf(),
            final(self).model() == old(self).model().after_next(),
    {
        proof {
            lemma_visible_indices(self.model().logs, self.model().filter());
        }
        let len = self.filtered_len();
        if len == 0 {
            return;
        }
        let i = match self.table_state.selected() {
            Some(i) => if i + 1 < len - 1 { i + 1 } else { len - 1 },
            None => 0,
        };
        self.table_state.select(Some(i));
        self.follow = i >= len - 1;
    }

    fn previous(&mut self)
        requires
            old(self).wf(),
        ensures
            final(self).wf(),
            final(self).model() == old(self).model().after_previous(),
    {
        proof {
            lemma_visible_indices(self.model().logs, self.model().filter());
        }
        let len = self.filtered_len();
        if len == 0 {
            return;
        }
        let i = match self.table_state.selected() {
            Some(i) => i.saturating_sub(1),
            None => 0,
        };
        self.table_state.select(Some(i));
        self.follow = false;
    }

    fn jump_to_latest(&mut self)
        requires
            old(self).model().jump_ready(),
            old(self).logs@.len() < usize::MAX,
        ensures
            final(self).wf(),
            final(self).model() == old(self).model().after_jump_to_latest(),
    {
        proof {
            lemma_jump_wf(self.model());
        }
        let len = self.filtered_len();
        if len > 0 {
            self.table_state.select(Some(len - 1));
        }
        self.follow = true;
    }

    fn cycle_filter(&mut self)
        requires
            old(self).wf(),
        ensures
            final(self).wf(),
            final(self).model() == old(self).model().after_cycle_filter(),
    {
        proof {
            lemma_next_filter_jump_ready(self.model());
            lemma_add_services(Seq::empty(), self.model().logs);
            lemma_visible_indices(self.model().logs, self.model().filter());
        }
        let total = self.known_services.len() + 1;
        self.active_filter = (self.active_filter + 1) % total;
        assert(self.model() == old(self).model().with_next_filter());
        self.jump_to_latest();
    }

    /// Registers the new services of `batch` and appends its entries.
    fn receive_batch(&mut self, mut batch: Vec<LogEntry>)
        requires
            old(self).wf(),
            old(self).logs@.len() + batch@.len() < usize::MAX,
        ensures
            final(self).wf(),
            final(self).model() == old(self).model().after_batch(batch@),
    {
        let ghost old_model = self.model();
        let ghost entries = batch@;
        proof {
            lemma_after_batch_wf(old_model, entries);
            lemma_with_batch(old_model, entries);
        }
        let n = batch.len();
        let mut j: usize = 0;
        while j < n
            invariant
                n == batch@.len(),
                batch@ == entries,
                j <= n,
                self.logs@ == old_model.logs,
                self.table_state.selected == old(self).table_state.selected,
                self.should_quit == old_model.should_quit,
                self.active_filter == old_model.active_filter,
                self.follow == old_model.follow,
                self.view == old_model.view,
                string_views(self.known_services@) == add_services(
                    old_model.known_services,
                    entries.take(j as int),
                ),
            decreases n - j,
        {
            assert(entries.take(j + 1).drop_last() =~= entries.take(j as int));
            if !contains_service(&self.known_services, &batch[j].service) {
                let ghost before = self.known_services@;
                self.known_services.push(batch[j].service.clone());
                assert(string_views(self.known_services@) =~= string_views(before).push(
                    entries[j as int].service@,
                ));
            }
            j = j + 1;
        }
        assert(entries.take(n as int) =~= entries);
        self.logs.append(&mut batch);
        assert(self.model() == old_model.with_batch(entries));
        if self.follow {
            self.jump_to_latest();
        }
    }

    /// Applies one action: a network packet (only batches change the
    /// state), a key press, a timer tick (no change) or a quit request.
    pub fn update(&mut self, action: Action)
        requires
            old(self).wf(),
            action matches Action::Network(NetworkPacket::Batch(b)) ==> old(self).logs@.len()
                + b@.len() < usize::MAX,
        ensures
            final(self).wf(),
            final(self).model() == old(self).model().step(action),
    {
        match action {
            Action::Network(packet) => {
                if let NetworkPacket::Batch(new_logs) = packet {
                    self.receive_batch(new_logs);
                }
            },
            Action::Input(key) => match key {
                KeyCode::Char('q') => self.should_quit = true,
                KeyCode::Esc | KeyCode::Backspace => {
                    if self.view == screen::View::Detail {
                        self.view = screen::View::Table;
                    }
                },
                KeyCode::Char('e') => {
                    if self.view == screen::View::Table && self.table_state.selected().is_some() {
                        self.view = screen::View::Detail;
                    }
                },
                KeyCode::Down => {
                    if self.view == screen::View::Table {
                        self.next();
                    }
                },
                KeyCode::Up => {
                    if self.view == screen::View::Table {
                        self.previous();
                    }
                },
                KeyCode::Char(' ') => {
                    if self.view == screen::View::Table {
                        self.jump_to_latest();
                    }
                },
                KeyCode::Tab => {
                    if self.view == screen::View::Table {
                        self.cycle_filter();
                    }
                },
                _ => {},
            },
            Action::Quit => self.should_quit = true,
            _ => {},
        }
    }
}

/// The known services are the distinct services of the received entries:
/// none twice, and a service is known exactly when some received entry
/// belongs to it.
pub proof fn law_known_services_are_distinct_services(m: AppModel)
    requires
        m.wf(),
    ensures
        m.known_services.no_duplicates(),
        m.known_services.len() <= m.logs.len(),
        forall|s: Seq<char>|
            #[trigger] m.known_services.contains(s) <==> exists|i: int|
                0 <= i < m.logs.len() && (#[trigger] m.logs[i]).service@ == s,
{
    lemma_add_services(Seq::empty(), m.logs);
}

/// The table shows exactly the received entries that pass the active
/// filter, in arrival order.
pub proof fn law_rows_are_filtered_entries_in_order(m: AppModel)
    ensures
        forall|k: int|
            0 <= k < m.visible_len() ==> {
                let i = #[trigger] m.visible()[k];
                &&& 0 <= i < m.logs.len()
                &&& entry_visible(m.logs[i], m.filter())
            },
        forall|k1: int, k2: int|
            0 <= k1 < k2 < m.visible_len() ==> #[trigger] m.visible()[k1] < #[trigger] m.visible()[k2],
        forall|i: int|
            0 <= i < m.logs.len() && entry_visible(#[trigger] m.logs[i], m.filter())
                ==> m.visible().contains(i),
{
    lemma_visible_indices(m.logs, m.filter());
}

/// No action loses or reorders received entries or known services: those
/// before an action are a prefix of those after it.
pub proof fn law_entries_are_kept(m: AppModel, action: Action)
    ensures
        m.logs.is_prefix_of(m.step(action).logs),
        m.known_services.is_prefix_of(m.step(action).known_services),
{
    match action {
        Action::Network(NetworkPacket::Batch(batch)) => {
            assert(m.logs.is_prefix_of(m.logs + batch@));
            lemma_add_services(m.known_services, batch@);
        },
        _ => {},
    }
}

/// Every state reached from a new viewer by any sequence of actions keeps
/// the invariant: the filter is a known service or all (so naming it and
/// listing its rows cannot fail), the known services are the distinct
/// services of the entries in order of first appearance, a selected row is
/// a visible row, follow mode means the newest visible row is selected,
/// and the detail screen always has a selected visible row to show.
pub proof fn law_reachable_states_are_wf(actions: Seq<Action>)
    ensures
        run(initial_model(), actions).wf(),
        run(initial_model(), actions).active_filter <= run(initial_model(), actions).known_services.len(),
        run(initial_model(), actions).known_services == services_of(run(initial_model(), actions).logs),
        run(initial_model(), actions).selected matches Some(i) ==> 0 <= i < run(
            initial_model(),
            actions,
        ).visible_len(),
        run(initial_model(), actions).follow ==> (run(initial_model(), actions).visible_len() == 0
            || run(initial_model(), actions).selected == Some(run(initial_model(), actions).visible_len() - 1)),
        run(initial_model(), actions).view == screen::View::Detail ==> (run(initial_model(), actions).selected matches Some(i)
            && 0 <= i < run(initial_model(), actions).visible_len()),
    decreases actions.len(),
{
    if actions.len() == 0 {
        assert(services_of(Seq::<LogEntry>::empty()) =~= Seq::empty());
    } else {
        law_reachable_states_are_wf(actions.drop_last());
        lemma_step_keeps_wf(run(initial_model(), actions.drop_last()), actions.last());
    }
}

/// Once the viewer is asked to quit, it stays asked to quit.
pub proof fn law_quit_is_final(m: AppModel, action: Action)
    requires
        m.should_quit,
    ensures
        m.step(action).should_quit,
{
}

/// In follow mode, a batch leaves the newest visible row selected.
pub proof fn law_follow_selects_newest(m: AppModel, batch: Seq<LogEntry>)
    requires
        m.follow,
        m.after_batch(batch).visible_len() > 0,
    ensures
        m.after_batch(batch).selected == Some(m.after_batch(batch).visible_len() - 1),
        m.after_batch(batch).follow,
{
}

/// Down selects a visible row; follow mode is on exactly when it is the
/// last one.
pub proof fn law_next_selects_visible_row(m: AppModel)
    requires
        m.wf(),
        m.visible_len() > 0,
    ensures
        m.after_next().selected matches Some(i) && 0 <= i < m.visible_len() && (m.after_next().follow
            <==> i == m.visible_len() - 1),
{
}

/// One filter change: the filter moves to the next one in the cycle (back
/// to all after the last service, and staying on all when no service is
/// known), follow mode is on, and the newest visible row is selected.
pub proof fn law_cycle_filter_step(m: AppModel)
    requires
        m.wf(),
    ensures
        m.after_cycle_filter().active_filter == (m.active_filter + 1) % (m.known_services.len() as int + 1),
        m.known_services.len() == 0 ==> m.after_cycle_filter().active_filter == 0,
        m.after_cycle_filter().follow,
        m.after_cycle_filter().visible_len() > 0 ==> m.after_cycle_filter().selected == Some(
            m.after_cycle_filter().visible_len() - 1,
        ),
        m.after_cycle_filter().wf(),
{
    lemma_next_filter_jump_ready(m);
    lemma_jump_wf(m.with_next_filter());
}

/// The state after `n` filter changes.
pub open spec fn after_cycles(m: AppModel, n: nat) -> AppModel
    decreases n,
{
    if n == 0 {
        m
    } else {
        after_cycles(m, (n - 1) as nat).after_cycle_filter()
    }
}

proof fn lemma_after_cycles(m: AppModel, n: nat)
    requires
        m.wf(),
    ensures
        after_cycles(m, n).wf(),
        after_cycles(m, n).known_services == m.known_services,
        after_cycles(m, n).logs == m.logs,
        after_cycles(m, n).view == m.view,
        after_cycles(m, n).active_filter == (m.active_filter + n) % (m.known_services.len() as int + 1),
    decreases n,
{
    let t = m.known_services.len() as int + 1;
    if n == 0 {
        vstd::arithmetic::div_mod::lemma_small_mod(m.active_filter as nat, t as nat);
    } else {
        lemma_after_cycles(m, (n - 1) as nat);
        law_cycle_filter_step(after_cycles(m, (n - 1) as nat));
        vstd::arithmetic::div_mod::lemma_add_mod_noop_right(1, m.active_filter + n - 1, t);
    }
}

/// One filter change more than there are known services brings the filter
/// back to where it was.
pub proof fn law_cycles_restore_filter(m: AppModel)
    requires
        m.wf(),
    ensures
        after_cycles(m, (m.known_services.len() + 1) as nat).active_filter == m.active_filter,
{
    let t = m.known_services.len() as int + 1;
    lemma_after_cycles(m, t as nat);
    vstd::arithmetic::div_mod::lemma_add_mod_noop(m.active_filter, t, t);
    vstd::arithmetic::div_mod::lemma_small_mod(m.active_filter as nat, t as nat);
    vstd::arithmetic::div_mod::lemma_mod_self_0(t);
}

/// The state after `n` Tab presses.
pub open spec fn after_tabs(m: AppModel, n: nat) -> AppModel
    decreases n,
{
    if n == 0 {
        m
    } else {
        after_tabs(m, (n - 1) as nat).after_key(KeyCode::Tab)
    }
}

proof fn lemma_after_tabs(m: AppModel, n: nat)
    requires
        m.wf(),
        m.view == screen::View::Table,
    ensures
        after_tabs(m, n).wf(),
        after_tabs(m, n).view == screen::View::Table,
        after_tabs(m, n).known_services == m.known_services,
        after_tabs(m, n).logs == m.logs,
        after_tabs(m, n).active_filter == (m.active_filter + n) % (m.known_services.len() as int + 1),
    decreases n,
{
    let t = m.known_services.len() as int + 1;
    if n == 0 {
        vstd::arithmetic::div_mod::lemma_small_mod(m.active_filter as nat, t as nat);
    } else {
        lemma_after_tabs(m, (n - 1) as nat);
        lemma_after_key_wf(after_tabs(m, (n - 1) as nat), KeyCode::Tab);
        vstd::arithmetic::div_mod::lemma_add_mod_noop_right(1, m.active_filter + n - 1, t);
    }
}

/// Tab cycles through "all services" and each known service in turn: on
/// the table screen, one Tab more than there are known services brings
/// the filter back to where it was.
pub proof fn law_tab_cycles_filters(m: AppModel)
    requires
        m.wf(),
        m.view == screen::View::Table,
    ensures
        after_tabs(m, (m.known_services.len() + 1) as nat).active_filter == m.active_filter,
{
    let t = m.known_services.len() as int + 1;
    lemma_after_tabs(m, t as nat);
    vstd::arithmetic::div_mod::lemma_add_mod_noop(m.active_filter, t, t);
    vstd::arithmetic::div_mod::lemma_small_mod(m.active_filter as nat, t as nat);
    vstd::arithmetic::div_mod::lemma_mod_self_0(t);
}

/// Only `q` (and the quit action) make the viewer quit: every other key
/// leaves the quit request as it was.
pub proof fn law_only_q_quits(m: AppModel, key: KeyCode)
    requires
        key != KeyCode::Char('q'),
    ensures
        m.step(Action::Input(key)).should_quit == m.should_quit,
{
}

/// `q` and the quit action request quitting and change nothing else.
pub proof fn law_quit_changes_nothing_else(m: AppModel)
    ensures
        m.step(Action::Input(KeyCode::Char('q'))) == (AppModel { should_quit: true, ..m }),
        m.step(Action::Quit) == (AppModel { should_quit: true, ..m }),
{
}

/// Esc and Backspace leave the detail screen for the table and change
/// nothing else; on the table screen they change nothing at all.
pub proof fn law_back_keys(m: AppModel, key: KeyCode)
    requires
        key == KeyCode::Esc || key == KeyCode::Backspace,
    ensures
        m.view == screen::View::Table ==> m.step(Action::Input(key)) == m,
        m.view == screen::View::Detail ==> m.step(Action::Input(key)) == (AppModel {
            view: screen::View::Table,
            ..m
        }),
{
}

/// `e` opens the detail screen from the table when a row is selected, and
/// changes nothing else; otherwise it changes nothing.
pub proof fn law_detail_key(m: AppModel)
    ensures
        (m.view == screen::View::Table && m.selected is Some) ==> m.step(
            Action::Input(KeyCode::Char('e')),
        ) == (AppModel { view: screen::View::Detail, ..m }),
        !(m.view == screen::View::Table && m.selected is Some) ==> m.step(
            Action::Input(KeyCode::Char('e')),
        ) == m,
{
}

/// On the detail screen the table keys (arrows, space, Tab) change nothing.
pub proof fn law_table_keys_ignored_on_detail(m: AppModel, key: KeyCode)
    requires
        m.view == screen::View::Detail,
        key == KeyCode::Up || key == KeyCode::Down || key == KeyCode::Char(' ') || key
            == KeyCode::Tab,
    ensures
        m.step(Action::Input(key)) == m,
{
}

/// Keys the viewer does not use, ticks and packets other than batches
/// change nothing.
pub proof fn law_unused_inputs_change_nothing(m: AppModel, key: KeyCode, packet: NetworkPacket)
    requires
        key != KeyCode::Char('q') && key != KeyCode::Char('e') && key != KeyCode::Char(' ')
            && key != KeyCode::Esc && key != KeyCode::Backspace && key != KeyCode::Up && key
            != KeyCode::Down && key != KeyCode::Tab,
        !(packet is Batch),
    ensures
        m.step(Action::Input(key)) == m,
        m.step(Action::Tick) == m,
        m.step(Action::Network(packet)) == m,
{
}

/// Down on the table moves the selection one row further, staying on the
/// last row; with no selection it selects the first row. Follow mode is on
/// exactly when the last row ends up selected. Nothing else changes.
pub proof fn law_down_moves_one_row(m: AppModel)
    requires
        m.view == screen::View::Table,
        m.visible_len() > 0,
    ensures
        ({
            let r = m.step(Action::Input(KeyCode::Down));
            let len = m.visible_len();
            &&& m.selected matches Some(i) ==> (i + 1 < len ==> r.selected == Some(i + 1))
            &&& m.selected matches Some(i) ==> (i + 1 >= len ==> r.selected == Some(len - 1))
            &&& m.selected is None ==> r.selected == Some(0int)
            &&& r.follow == (r.selected == Some(len - 1))
            &&& r == AppModel { selected: r.selected, follow: r.follow, ..m }
        }),
{
}

/// Up on the table moves the selection one row back, staying on the first
/// row; with no selection it selects the first row. Follow mode is off.
/// Nothing else changes.
pub proof fn law_up_moves_one_row(m: AppModel)
    requires
        m.view == screen::View::Table,
        m.visible_len() > 0,
    ensures
        ({
            let r = m.step(Action::Input(KeyCode::Up));
            &&& m.selected matches Some(i) ==> (i >= 1 ==> r.selected == Some(i - 1))
            &&& m.selected matches Some(i) ==> (i <= 0 ==> r.selected == Some(0int))
            &&& m.selected is None ==> r.selected == Some(0int)
            &&& !r.follow
            &&& r == AppModel { selected: r.selected, follow: r.follow, ..m }
        }),
{
}

/// Arrow keys on an empty table change nothing.
pub proof fn law_arrows_on_empty_table(m: AppModel, key: KeyCode)
    requires
        m.visible_len() == 0,
        key == KeyCode::Up || key == KeyCode::Down,
    ensures
        m.step(Action::Input(key)) == m,
{
}

/// Space on the table selects the last visible row (if there is one) and
/// turns follow mode on; nothing else changes.
pub proof fn law_space_selects_last_row(m: AppModel)
    requires
        m.view == screen::View::Table,
    ensures
        ({
            let r = m.step(Action::Input(KeyCode::Char(' ')));
            &&& r.follow
            &&& m.visible_len() > 0 ==> r.selected == Some(m.visible_len() - 1)
            &&& m.visible_len() == 0 ==> r.selected == m.selected
            &&& r == AppModel { selected: r.selected, follow: true, ..m }
        }),
{
}

/// A batch appends its entries, in order, after the received ones; the
/// known services grow by the batch's new services only, none twice; out
/// of follow mode nothing else changes, and in follow mode the newest
/// visible row is selected.
pub proof fn law_batch_appends_entries(m: AppModel, batch: Seq<LogEntry>)
    requires
        m.wf(),
    ensures
        ({
            let r = m.after_batch(batch);
            &&& r.logs.len() == m.logs.len() + batch.len()
            &&& forall|i: int| 0 <= i < m.logs.len() ==> r.logs[i] == m.logs[i]
            &&& forall|j: int| 0 <= j < batch.len() ==> r.logs[m.logs.len() + j] == batch[j]
            &&& m.known_services.is_prefix_of(r.known_services)
            &&& r.known_services.no_duplicates()
            &&& forall|s: Seq<char>|
                #[trigger] r.known_services.contains(s) <==> (m.known_services.contains(s) || exists|
                    j: int,
                | 0 <= j < batch.len() && (#[trigger] batch[j]).service@ == s)
            &&& r.active_filter == m.active_filter && r.view == m.view && r.should_quit
                == m.should_quit && r.follow == m.follow
            &&& r.filter() == m.filter()
            &&& !m.follow ==> r.selected == m.selected
            &&& (m.follow && r.visible_len() > 0) ==> r.selected == Some(r.visible_len() - 1)
        }),
{
    lemma_with_batch(m, batch);
    lemma_add_services(m.known_services, batch);
    lemma_add_services(Seq::empty(), m.logs);
    lemma_add_services_concat(Seq::empty(), m.logs, batch);
    lemma_add_services(Seq::empty(), m.logs + batch);
}

} // verus!
