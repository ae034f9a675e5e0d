use vstd::prelude::*;
use crate::protocol::{AppSnapshot, ServiceSnapshot};
use crate::text::{trim, trim_end, trim_end_spec, trim_spec};
use vstd::utf8::encode_utf8;
use vstd::string::StringSliceAdditionalSpecFns;

verus! {

/// Lines a page key scrolls by.
pub const PAGE_SIZE: usize = 15;

/// Columns a sideways scroll moves by.
pub const SIDE_STEP: u16 = 5;

/// A rectangle of terminal cells.
#[derive(Debug, Clone, Copy, PartialEq, Eq, Structural)]
pub struct Rect {
    pub x: u16,
    pub y: u16,
    pub width: u16,
    pub height: u16,
}

pub open spec fn inside(col: u16, row: u16, r: Rect) -> bool {
    r.x <= col && (col as int) < r.x + r.width && r.y <= row && (row as int) < r.y + r.height
}

impl Rect {
    pub fn zero() -> (r: Rect)
        ensures
            r == (Rect { x: 0, y: 0, width: 0, height: 0 }),
    {
        Rect { x: 0, y: 0, width: 0, height: 0 }
    }
}

/// The state of the dashboard: the last status snapshot, what is selected,
/// the log view's scrolling, the panels' places on screen and a text
/// selection made with the mouse.
#[derive(Debug)]
pub struct TuiApp {
    pub apps: Vec<AppSnapshot>,
    pub selected_app: usize,
    pub selected_service: usize,
    pub logs: Vec<String>,
    /// As `ServiceMetrics::cpu_bits`.
    pub system_cpu_bits: u32,
    pub system_memory_used: u64,
    pub system_memory_total: u64,
    pub scroll: usize,
    pub scroll_x: u16,
    pub autoscroll: bool,
    pub app_tab_area: Rect,
    pub service_tab_area: Rect,
    pub log_area: Rect,
    pub status_area: Rect,
    pub help_area: Rect,
    /// The text of the screen after the last draw, one string per row.
    pub screen_buffer: Vec<String>,
    /// The panel the current selection is kept in.
    pub selection_panel: Option<Rect>,
    /// Where the selection began, as (row, column).
    pub selection_anchor: Option<(u16, u16)>,
    /// Where the selection ends, as (row, column).
    pub selection_end: Option<(u16, u16)>,
    /// A drag is in progress.
    pub selecting: bool,
}

/// Where the tab `i` of tabs of widths `w` starts: tabs are laid side by
/// side with one column between them.
pub open spec fn tab_start(w: Seq<nat>, i: int) -> nat
    decreases i,
{
    if i <= 0 {
        0
    } else {
        tab_start(w, i - 1) + w[i - 1] + 1
    }
}

/// A tab is as wide as its title in bytes, plus a column on each side.
pub open spec fn tab_widths(names: Seq<String>) -> Seq<nat> {
    names.map_values(|n: String| (encode_utf8(n@).len() as usize) as nat + 2)
}

/// The tab under relative column `x`: the first whose right end lies beyond
/// `x` (a column between two tabs goes to the right one).
pub open spec fn tab_at(w: Seq<nat>, x: nat, i: int) -> bool {
    &&& 0 <= i < w.len()
    &&& x < tab_start(w, i) + w[i]
    &&& forall|k: int| 0 <= k < i ==> x >= #[trigger] tab_start(w, k) + w[k]
}

/// The selection in reading order: (start row, start column, end row, end
/// column); none when it is empty.
pub open spec fn ordered_range(a: Option<(u16, u16)>, e: Option<(u16, u16)>) -> Option<(u16, u16, u16, u16)> {
    match (a, e) {
        (Some((sr, sc)), Some((er, ec))) => if sr == er && sc == ec {
            None
        } else if sr < er || (sr == er && sc <= ec) {
            Some((sr, sc, er, ec))
        } else {
            Some((er, ec, sr, sc))
        },
        _ => None,
    }
}

/// The part of one screen row that a selection covers, by characters,
/// before trailing white space is removed.
pub open spec fn row_part(line: Seq<char>, row: int, sr: int, sc: int, er: int, ec: int) -> Seq<char> {
    let n = line.len() as int;
    let s = if sc < n { sc } else { n };
    let e = if ec < n { ec } else { n };
    if sr == er {
        if s <= e { line.subrange(s, e) } else { Seq::empty() }
    } else if row == sr {
        line.subrange(s, n)
    } else if row == er {
        line.subrange(0, e)
    } else {
        line
    }
}

/// Selected rows joined by newlines.
pub open spec fn joined_rows(rows: Seq<Seq<char>>) -> Seq<char>
    decreases rows.len(),
{
    if rows.len() == 0 {
        Seq::empty()
    } else if rows.len() == 1 {
        rows[0]
    } else {
        joined_rows(rows.drop_last()) + "\n"@ + rows.last()
    }
}

/// The rows a selection covers on a screen of `screen` rows, each cut and
/// trimmed at its end.
pub open spec fn selected_rows(screen: Seq<Seq<char>>, sr: int, sc: int, er: int, ec: int) -> Seq<Seq<char>> {
    let last = if er < screen.len() { er } else { screen.len() - 1 };
    Seq::new(
        if last >= sr { (last - sr + 1) as nat } else { 0 },
        |k: int| trim_end_spec(row_part(screen[sr + k], sr + k, sr, sc, er, ec)),
    )
}

impl TuiApp {
    pub open spec fn apps_len(&self) -> int {
        self.apps@.len() as int
    }

    /// The number of services of the selected app, or none.
    pub open spec fn service_count(&self) -> int {
        if self.selected_app < self.apps@.len() {
            self.apps@[self.selected_app as int].services@.len() as int
        } else {
            0
        }
    }

    pub fn new() -> (r: TuiApp)
        ensures
            r.apps@.len() == 0,
            r.selected_app == 0,
            r.selected_service == 0,
            r.logs@.len() == 0,
            r.scroll == 0,
            r.scroll_x == 0,
            r.autoscroll,
            r.selection_anchor is None,
            r.selection_end is None,
            r.selection_panel is None,
            !r.selecting,
    {
        TuiApp {
            apps: Vec::new(),
            selected_app: 0,
            selected_service: 0,
            logs: Vec::new(),
            system_cpu_bits: 0,
            system_memory_used: 0,
            system_memory_total: 0,
            scroll: 0,
            scroll_x: 0,
            autoscroll: true,
            app_tab_area: Rect::zero(),
            service_tab_area: Rect::zero(),
            log_area: Rect::zero(),
            status_area: Rect::zero(),
            help_area: Rect::zero(),
            screen_buffer: Vec::new(),
            selection_panel: None,
            selection_anchor: None,
            selection_end: None,
            selecting: false,
        }
    }

    /// Takes a new status snapshot and keeps the selection within it.
    pub fn update_snapshot(&mut self, snapshot: Vec<AppSnapshot>, cpu_bits: u32, used: u64, total: u64)
        ensures
            final(self).apps@ == snapshot@,
            final(self).system_cpu_bits == cpu_bits,
            final(self).system_memory_used == used,
            final(self).system_memory_total == total,
            final(self).selected_app == if old(self).selected_app < snapshot@.len() {
                old(self).selected_app as int
            } else if snapshot@.len() > 0 {
                snapshot@.len() - 1
            } else {
                0
            },
            final(self).selected_app < snapshot@.len() ==> final(self).selected_service == ({
                let n = snapshot@[final(self).selected_app as int].services@.len();
                if old(self).selected_service < n {
                    old(self).selected_service as int
                } else if n > 0 {
                    n - 1
                } else {
                    0
                }
            }),
            final(self).selected_app >= snapshot@.len() ==> final(self).selected_service == 0,
            final(self).logs == old(self).logs,
            final(self).scroll == old(self).scroll,
            final(self).autoscroll == old(self).autoscroll,
    {
        self.apps = snapshot;
        self.system_cpu_bits = cpu_bits;
        self.system_memory_used = used;
        self.system_memory_total = total;
        let n = self.apps.len();
        if self.selected_app >= n {
            self.selected_app = if n > 0 { n - 1 } else { 0 };
        }
        if self.selected_app < n {
            let m = self.apps[self.selected_app].services.len();
            if self.selected_service >= m {
                self.selected_service = if m > 0 { m - 1 } else { 0 };
            }
        } else {
            self.selected_service = 0;
        }
    }

    fn reset_scroll(&mut self)
        ensures
            *final(self) == (TuiApp { scroll: 0, autoscroll: true, ..*old(self) }),
    {
        self.scroll = 0;
        self.autoscroll = true;
    }

    /// Selects the next app, round the end, and its first service.
    pub fn next_app(&mut self)
        ensures
            old(self).apps@.len() == 0 ==> *final(self) == *old(self),
            old(self).apps@.len() > 0 ==> *final(self) == (TuiApp {
                selected_app: ((old(self).selected_app + 1) % (old(self).apps@.len() as int)) as usize,
                selected_service: 0,
                scroll: 0,
                autoscroll: true,
                ..*old(self)
            }),
    {
        let n = self.apps.len();
        if n > 0 {
            let next = if self.selected_app < n { (self.selected_app + 1) % n } else { (self.selected_app % n + 1) % n };
            proof {
                if self.selected_app >= n {
                    let a = self.selected_app as int;
                    let m = n as int;
                    assert((a % m + 1) % m == (a + 1) % m) by (nonlinear_arith)
                        requires m > 0, a >= m;
                }
            }
            self.selected_app = next;
            self.selected_service = 0;
            self.reset_scroll();
        }
    }

    /// Selects the previous app, round the start, and its first service.
    pub fn prev_app(&mut self)
        ensures
            old(self).apps@.len() == 0 ==> *final(self) == *old(self),
            old(self).apps@.len() > 0 ==> *final(self) == (TuiApp {
                selected_app: if old(self).selected_app == 0 {
                    (old(self).apps@.len() - 1) as usize
                } else {
                    (old(self).selected_app - 1) as usize
                },
                selected_service: 0,
                scroll: 0,
                autoscroll: true,
                ..*old(self)
            }),
    {
        let n = self.apps.len();
        if n > 0 {
            if self.selected_app == 0 {
                self.selected_app = n - 1;
            } else {
                self.selected_app = self.selected_app - 1;
            }
            self.selected_service = 0;
            self.reset_scroll();
        }
    }

    /// Selects the next service of the selected app, round the end.
    pub fn next_service(&mut self)
        ensures
            old(self).service_count() == 0 ==> *final(self) == *old(self),
            old(self).service_count() > 0 ==> *final(self) == (TuiApp {
                selected_service: ((old(self).selected_service + 1) % old(self).service_count()) as usize,
                scroll: 0,
                autoscroll: true,
                ..*old(self)
            }),
    {
        if self.selected_app < self.apps.len() {
            let n = self.apps[self.selected_app].services.len();
            if n > 0 {
                let next = if self.selected_service < n {
                    (self.selected_service + 1) % n
                } else {
                    (self.selected_service % n + 1) % n
                };
                proof {
                    if self.selected_service >= n {
                        let a = self.selected_service as int;
                        let m = n as int;
                        assert((a % m + 1) % m == (a + 1) % m) by (nonlinear_arith)
                            requires m > 0, a >= m;
                    }
                }
                self.selected_service = next;
                self.reset_scroll();
            }
        }
    }

    /// Selects the previous service of the selected app, round the start.
    pub fn prev_service(&mut self)
        ensures
            old(self).service_count() == 0 ==> *final(self) == *old(self),
            old(self).service_count() > 0 ==> *final(self) == (TuiApp {
                selected_service: if old(self).selected_service == 0 {
                    (old(self).service_count() - 1) as usize
                } else {
                    (old(self).selected_service - 1) as usize
                },
                scroll: 0,
                autoscroll: true,
                ..*old(self)
            }),
    {
        if self.selected_app < self.apps.len() {
            let n = self.apps[self.selected_app].services.len();
            if n > 0 {
                if self.selected_service == 0 {
                    self.selected_service = n - 1;
                } else {
                    self.selected_service = self.selected_service - 1;
                }
                self.reset_scroll();
            }
        }
    }

    pub fn selected_app_name(&self) -> (r: Option<String>)
        ensures
            self.selected_app < self.apps@.len() ==> r == Some(self.apps@[self.selected_app as int].app_name),
            self.selected_app >= self.apps@.len() ==> r is None,
    {
        if self.selected_app < self.apps.len() {
            Some(self.apps[self.selected_app].app_name.clone())
        } else {
            None
        }
    }

    pub fn selected_service_name(&self) -> (r: Option<String>)
        ensures
            self.selected_service < self.service_count() ==> r == Some(
                self.apps@[self.selected_app as int].services@[self.selected_service as int].name,
            ),
            self.selected_service >= self.service_count() ==> r is None,
    {
        if self.selected_app < self.apps.len() && self.selected_service
            < self.apps[self.selected_app].services.len() {
            Some(self.apps[self.selected_app].services[self.selected_service].name.clone())
        } else {
            None
        }
    }

    pub fn selected_service(&self) -> (r: Option<ServiceSnapshot>)
        ensures
            self.selected_service < self.service_count() ==> r == Some(
                self.apps@[self.selected_app as int].services@[self.selected_service as int],
            ),
            self.selected_service >= self.service_count() ==> r is None,
    {
        if self.selected_app < self.apps.len() && self.selected_service
            < self.apps[self.selected_app].services.len() {
            Some(self.apps[self.selected_app].services[self.selected_service].duplicate())
        } else {
            None
        }
    }

    /// Scrolls the log view up a line; the first scroll leaves following
    /// the end and starts from the last line.
    pub fn scroll_up(&mut self)
        ensures
            old(self).autoscroll ==> *final(self) == (TuiApp {
                autoscroll: false,
                scroll: if old(self).logs@.len() > 0 { (old(self).logs@.len() - 1) as usize } else { 0 },
                ..*old(self)
            }),
            !old(self).autoscroll ==> *final(self) == (TuiApp {
                scroll: if old(self).scroll > 0 { (old(self).scroll - 1) as usize } else { 0 },
                ..*old(self)
            }),
    {
        if self.autoscroll {
            self.autoscroll = false;
            let n = self.logs.len();
            self.scroll = if n > 0 { n - 1 } else { 0 };
        } else if self.scroll > 0 {
            self.scroll = self.scroll - 1;
        }
    }

    /// Scrolls the log view down a line; reaching the end follows it again.
    pub fn scroll_down(&mut self)
        ensures
            old(self).autoscroll ==> *final(self) == *old(self),
            !old(self).autoscroll && old(self).scroll < usize::MAX ==> {
                let s = old(self).scroll + 1;
                *final(self) == (TuiApp { scroll: s as usize, autoscroll: s >= old(self).logs@.len(), ..*old(self) })
            },
    {
        if !self.autoscroll {
            if self.scroll < usize::MAX {
                self.scroll = self.scroll + 1;
            }
            if self.scroll >= self.logs.len() {
                self.autoscroll = true;
            }
        }
    }

    pub fn scroll_left(&mut self)
        ensures
            *final(self) == (TuiApp {
                scroll_x: if old(self).scroll_x >= SIDE_STEP { (old(self).scroll_x - SIDE_STEP) as u16 } else { 0 },
                ..*old(self)
            }),
    {
        self.scroll_x = if self.scroll_x >= SIDE_STEP { self.scroll_x - SIDE_STEP } else { 0 };
    }

    pub fn scroll_right(&mut self)
        ensures
            *final(self) == (TuiApp {
                scroll_x: if old(self).scroll_x + SIDE_STEP <= u16::MAX { (old(self).scroll_x + SIDE_STEP) as u16 } else { u16::MAX },
                ..*old(self)
            }),
    {
        self.scroll_x = if self.scroll_x <= u16::MAX - SIDE_STEP { self.scroll_x + SIDE_STEP } else { u16::MAX };
    }

    /// Scrolls up a page.
    pub fn page_up(&mut self)
        ensures
            old(self).autoscroll ==> *final(self) == (TuiApp {
                autoscroll: false,
                scroll: if old(self).logs@.len() >= PAGE_SIZE { (old(self).logs@.len() - PAGE_SIZE) as usize } else { 0 },
                ..*old(self)
            }),
            !old(self).autoscroll ==> *final(self) == (TuiApp {
                scroll: if old(self).scroll >= PAGE_SIZE { (old(self).scroll - PAGE_SIZE) as usize } else { 0 },
                ..*old(self)
            }),
    {
        if self.autoscroll {
            self.autoscroll = false;
            let n = self.logs.len();
            self.scroll = if n >= PAGE_SIZE { n - PAGE_SIZE } else { 0 };
        } else {
            self.scroll = if self.scroll >= PAGE_SIZE { self.scroll - PAGE_SIZE } else { 0 };
        }
    }

    /// Scrolls down a page; reaching the end follows it again.
    pub fn page_down(&mut self)
        ensures
            old(self).autoscroll ==> *final(self) == *old(self),
            !old(self).autoscroll && old(self).scroll + PAGE_SIZE <= usize::MAX ==> {
                let s = old(self).scroll + PAGE_SIZE;
                *final(self) == (TuiApp { scroll: s as usize, autoscroll: s >= old(self).logs@.len(), ..*old(self) })
            },
    {
        if !self.autoscroll {
            self.scroll = if self.scroll <= usize::MAX - PAGE_SIZE { self.scroll + PAGE_SIZE } else { usize::MAX };
            if self.scroll >= self.logs.len() {
                self.autoscroll = true;
            }
        }
    }

    pub fn scroll_to_top(&mut self)
        ensures
            *final(self) == (TuiApp { scroll: 0, autoscroll: false, ..*old(self) }),
    {
        self.scroll = 0;
        self.autoscroll = false;
    }

    pub fn scroll_to_bottom(&mut self)
        ensures
            *final(self) == (TuiApp { autoscroll: true, ..*old(self) }),
    {
        self.autoscroll = true;
    }
}

} // verus!

verus! {

/// The column of `column` within the tabs of `area`, whose first column is
/// the border.
pub open spec fn rel_column(column: u16, area: Rect) -> nat {
    if column as int >= area.x + 1 {
        (column - area.x - 1) as nat
    } else {
        0
    }
}

/// Keeps `v` within `[lo, hi]`.
pub open spec fn clamp_spec(v: u16, lo: u16, hi: u16) -> u16 {
    if v < lo {
        lo
    } else if v > hi {
        hi
    } else {
        v
    }
}

/// The last column (or row) of a span, or its first when it is empty.
pub open spec fn span_end(start: u16, len: u16) -> u16 {
    if len == 0 {
        start
    } else if start + len - 1 > u16::MAX {
        u16::MAX
    } else {
        (start + len - 1) as u16
    }
}

fn span_last(start: u16, len: u16) -> (r: u16)
    ensures
        r == span_end(start, len),
{
    if len == 0 {
        start
    } else {
        let e: u32 = start as u32 + len as u32 - 1;
        if e > 65535 {
            65535
        } else {
            e as u16
        }
    }
}

pub fn point_in_rect(col: u16, row: u16, r: Rect) -> (b: bool)
    ensures
        b == inside(col, row, r),
{
    col >= r.x && (col as u32) < r.x as u32 + r.width as u32 && row >= r.y && (row as u32) < r.y as u32
        + r.height as u32
}

/// Keeps a point within a panel.
pub fn clamp_to_panel(col: u16, row: u16, panel: Rect) -> (r: (u16, u16))
    ensures
        r == (clamp_spec(col, panel.x, span_end(panel.x, panel.width)), clamp_spec(
            row,
            panel.y,
            span_end(panel.y, panel.height),
        )),
{
    let max_x = span_last(panel.x, panel.width);
    let max_y = span_last(panel.y, panel.height);
    let c = if col < panel.x {
        panel.x
    } else if col > max_x {
        max_x
    } else {
        col
    };
    let r = if row < panel.y {
        panel.y
    } else if row > max_y {
        max_y
    } else {
        row
    };
    (c, r)
}

/// The tab under `column`, for tabs titled `names` drawn in `area`.
pub fn tab_index_at(column: u16, area: Rect, names: &Vec<String>) -> (r: Option<usize>)
    ensures
        r matches Some(i) ==> tab_at(tab_widths(names@), rel_column(column, area), i as int),
        r is None ==> forall|i: int| !tab_at(tab_widths(names@), rel_column(column, area), i),
{
    let ghost w = tab_widths(names@);
    let x: usize = if column as u32 >= area.x as u32 + 1 {
        (column as u32 - area.x as u32 - 1) as usize
    } else {
        0
    };
    let mut pos: usize = 0;
    let mut i: usize = 0;
    while i < names.len()
        invariant
            w == tab_widths(names@),
            x == rel_column(column, area),
            x <= 65535,
            i <= names@.len(),
            pos == tab_start(w, i as int),
            pos <= x + 1,
            forall|k: int| 0 <= k < i ==> x >= #[trigger] tab_start(w, k) + w[k],
        decreases names@.len() - i,
    {
        let name = names[i].as_str();
        let len = name.len();
        proof {
            assert(name@ == names@[i as int]@);
            assert(len == name.spec_bytes().len() as usize);
            assert(w[i as int] == (encode_utf8(names@[i as int]@).len() as usize) as nat + 2);
            assert(w[i as int] == len + 2);
            assert(tab_start(w, i + 1) == tab_start(w, i as int) + w[i as int] + 1);
        }
        if len >= x || x < pos + len + 2 {
            return Some(i);
        }
        pos = pos + len + 2 + 1;
        i = i + 1;
    }
    proof {
        assert forall|j: int| !tab_at(w, x as nat, j) by {
            if 0 <= j < w.len() {
                assert(x >= tab_start(w, j) + w[j]);
            }
        }
    }
    None
}

/// The first panel, of the tab bars, the log view, the status and the
/// help line, that holds the point.
pub open spec fn panel_spec(app: TuiApp, col: u16, row: u16) -> Option<Rect> {
    if inside(col, row, app.app_tab_area) {
        Some(app.app_tab_area)
    } else if inside(col, row, app.service_tab_area) {
        Some(app.service_tab_area)
    } else if inside(col, row, app.log_area) {
        Some(app.log_area)
    } else if inside(col, row, app.status_area) {
        Some(app.status_area)
    } else if inside(col, row, app.help_area) {
        Some(app.help_area)
    } else {
        None
    }
}

pub open spec fn app_titles(apps: Seq<AppSnapshot>) -> Seq<String> {
    apps.map_values(|a: AppSnapshot| a.app_name)
}

pub open spec fn service_titles(app: AppSnapshot) -> Seq<String> {
    app.services@.map_values(|s: ServiceSnapshot| s.name)
}

impl TuiApp {
    /// A click on the app tabs selects the app under it, with its first
    /// service. Tells whether the selection changed.
    pub fn click_app_tab(&mut self, column: u16, row: u16) -> (r: bool)
        ensures
            r <==> (inside(column, row, old(self).app_tab_area) && exists|i: int|
                tab_at(tab_widths(app_titles(old(self).apps@)), rel_column(column, old(self).app_tab_area), i)
                    && i != old(self).selected_app),
            !r ==> *final(self) == *old(self),
            r ==> tab_at(
                tab_widths(app_titles(old(self).apps@)),
                rel_column(column, old(self).app_tab_area),
                final(self).selected_app as int,
            ) && *final(self) == (TuiApp {
                selected_app: final(self).selected_app,
                selected_service: 0,
                scroll: 0,
                autoscroll: true,
                ..*old(self)
            }),
    {
        let area = self.app_tab_area;
        if !point_in_rect(column, row, area) {
            return false;
        }
        let mut names: Vec<String> = Vec::new();
        let mut k: usize = 0;
        while k < self.apps.len()
            invariant
                k <= self.apps@.len(),
                names@ == app_titles(self.apps@).subrange(0, k as int),
            decreases self.apps@.len() - k,
        {
            names.push(self.apps[k].app_name.clone());
            k = k + 1;
            proof {
                assert(names@ =~= app_titles(self.apps@).subrange(0, k as int));
            }
        }
        proof {
            assert(names@ =~= app_titles(self.apps@));
        }
        match tab_index_at(column, area, &names) {
            Some(idx) => {
                if idx < self.apps.len() && idx != self.selected_app {
                    self.selected_app = idx;
                    self.selected_service = 0;
                    self.reset_scroll();
                    return true;
                }
                proof {
                    assert forall|i: int|
                        tab_at(tab_widths(names@), rel_column(column, area), i) implies i == idx by {
                        if i < idx {
                            assert(rel_column(column, area) >= tab_start(tab_widths(names@), i) + tab_widths(names@)[i]);
                        } else if i > idx {
                            assert(rel_column(column, area) >= tab_start(tab_widths(names@), idx as int) + tab_widths(names@)[idx as int]);
                        }
                    }
                }
                false
            },
            None => false,
        }
    }

    /// A click on the service tabs selects the service under it. Tells
    /// whether the selection changed.
    pub fn click_service_tab(&mut self, column: u16, row: u16) -> (r: bool)
        ensures
            !r ==> *final(self) == *old(self),
            r ==> inside(column, row, old(self).service_tab_area) && old(self).selected_app < old(self).apps@.len()
                && final(self).selected_service != old(self).selected_service && tab_at(
                tab_widths(service_titles(old(self).apps@[old(self).selected_app as int])),
                rel_column(column, old(self).service_tab_area),
                final(self).selected_service as int,
            ) && *final(self) == (TuiApp {
                selected_service: final(self).selected_service,
                scroll: 0,
                autoscroll: true,
                ..*old(self)
            }),
            old(self).selected_app < old(self).apps@.len() && inside(column, row, old(self).service_tab_area)
                && (exists|i: int|
                tab_at(
                    tab_widths(service_titles(old(self).apps@[old(self).selected_app as int])),
                    rel_column(column, old(self).service_tab_area),
                    i,
                ) && i != old(self).selected_service) ==> r,
    {
        let area = self.service_tab_area;
        if !point_in_rect(column, row, area) {
            return false;
        }
        if self.selected_app >= self.apps.len() {
            return false;
        }
        let app = &self.apps[self.selected_app];
        let mut names: Vec<String> = Vec::new();
        let mut k: usize = 0;
        while k < app.services.len()
            invariant
                k <= app.services@.len(),
                names@ == service_titles(*app).subrange(0, k as int),
            decreases app.services@.len() - k,
        {
            names.push(app.services[k].name.clone());
            k = k + 1;
            proof {
                assert(names@ =~= service_titles(*app).subrange(0, k as int));
            }
        }
        proof {
            assert(names@ =~= service_titles(*app));
        }
        match tab_index_at(column, area, &names) {
            Some(idx) => {
                if idx < names.len() && idx != self.selected_service {
                    self.selected_service = idx;
                    self.reset_scroll();
                    return true;
                }
                proof {
                    assert forall|i: int|
                        tab_at(tab_widths(names@), rel_column(column, area), i) implies i == idx by {
                        if i < idx {
                            assert(rel_column(column, area) >= tab_start(tab_widths(names@), i) + tab_widths(names@)[i]);
                        } else if i > idx {
                            assert(rel_column(column, area) >= tab_start(tab_widths(names@), idx as int) + tab_widths(names@)[idx as int]);
                        }
                    }
                }
                false
            },
            None => false,
        }
    }

    /// The panel that holds a point.
    pub fn panel_at(&self, col: u16, row: u16) -> (r: Option<Rect>)
        ensures
            r == panel_spec(*self, col, row),
    {
        if point_in_rect(col, row, self.app_tab_area) {
            Some(self.app_tab_area)
        } else if point_in_rect(col, row, self.service_tab_area) {
            Some(self.service_tab_area)
        } else if point_in_rect(col, row, self.log_area) {
            Some(self.log_area)
        } else if point_in_rect(col, row, self.status_area) {
            Some(self.status_area)
        } else if point_in_rect(col, row, self.help_area) {
            Some(self.help_area)
        } else {
            None
        }
    }

    /// Begins a text selection at a point, kept to the panel it is in.
    pub fn start_selection(&mut self, column: u16, row: u16)
        ensures
            panel_spec(*old(self), column, row) is None ==> *final(self) == *old(self),
            panel_spec(*old(self), column, row) matches Some(p) ==> *final(self) == (TuiApp {
                selection_panel: Some(p),
                selection_anchor: Some((row, column)),
                selection_end: Some((row, column)),
                selecting: true,
                ..*old(self)
            }),
    {
        if let Some(panel) = self.panel_at(column, row) {
            self.selection_panel = Some(panel);
            self.selection_anchor = Some((row, column));
            self.selection_end = Some((row, column));
            self.selecting = true;
        }
    }

    /// Moves the end of a selection being dragged, kept to its panel.
    pub fn update_selection(&mut self, column: u16, row: u16)
        ensures
            !old(self).selecting || old(self).selection_panel is None ==> *final(self) == *old(self),
            old(self).selecting ==> (old(self).selection_panel matches Some(p) ==> *final(self) == (TuiApp {
                selection_end: Some(
                    (
                        clamp_spec(row, p.y, span_end(p.y, p.height)),
                        clamp_spec(column, p.x, span_end(p.x, p.width)),
                    ),
                ),
                ..*old(self)
            })),
    {
        if !self.selecting {
            return;
        }
        if let Some(panel) = self.selection_panel {
            let (c, r) = clamp_to_panel(column, row, panel);
            self.selection_end = Some((r, c));
        }
    }

    pub fn finish_selection(&mut self)
        ensures
            *final(self) == (TuiApp { selecting: false, ..*old(self) }),
    {
        self.selecting = false;
    }

    pub fn clear_selection(&mut self)
        ensures
            *final(self) == (TuiApp {
                selection_panel: None,
                selection_anchor: None,
                selection_end: None,
                selecting: false,
                ..*old(self)
            }),
    {
        self.selection_panel = None;
        self.selection_anchor = None;
        self.selection_end = None;
        self.selecting = false;
    }

    /// The selection in reading order, if it is not empty.
    pub fn selection_range(&self) -> (r: Option<(u16, u16, u16, u16)>)
        ensures
            r == ordered_range(self.selection_anchor, self.selection_end),
    {
        match (self.selection_anchor, self.selection_end) {
            (Some((sr, sc)), Some((er, ec))) => {
                if sr == er && sc == ec {
                    None
                } else if sr < er || (sr == er && sc <= ec) {
                    Some((sr, sc, er, ec))
                } else {
                    Some((er, ec, sr, sc))
                }
            },
            _ => None,
        }
    }

    /// The selected text: the covered part of each selected row, trailing
    /// white space removed, rows joined by newlines; none when the selection
    /// is empty or holds only white space.
    pub fn get_selected_text(&self) -> (r: Option<String>)
        ensures
            ordered_range(self.selection_anchor, self.selection_end) is None ==> r is None,
            ordered_range(self.selection_anchor, self.selection_end) matches Some((sr, sc, er, ec)) ==> {
                let t = joined_rows(
                    selected_rows(
                        crate::compose::str_views(self.screen_buffer@),
                        sr as int,
                        sc as int,
                        er as int,
                        ec as int,
                    ),
                );
                &&& trim_spec(t).len() == 0 ==> r is None
                &&& trim_spec(t).len() > 0 ==> (r matches Some(x) && x@ == t)
            },
    {
        let (sr, sc, er, ec) = match self.selection_range() {
            Some(range) => range,
            None => {
                return None;
            },
        };
        let ghost screen = crate::compose::str_views(self.screen_buffer@);
        let ghost rows = selected_rows(screen, sr as int, sc as int, er as int, ec as int);
        let n = self.screen_buffer.len();
        let mut result = String::new();
        let mut row: usize = sr as usize;
        let mut count: usize = 0;
        proof {
            assert(sr < er || (sr == er && sc <= ec));
        }
        while row <= er as usize && row < n
            invariant
                sr as usize <= row,
                row == sr as usize + count,
                n == self.screen_buffer@.len(),
                screen == crate::compose::str_views(self.screen_buffer@),
                rows == selected_rows(screen, sr as int, sc as int, er as int, ec as int),
                sr < er || (sr == er && sc <= ec),
                count <= rows.len(),
                row <= er as usize + 1,
                count < rows.len() ==> row <= er as usize && row < n,
                count == rows.len() ==> !(row <= er as usize && row < n),
                result@ == joined_rows(rows.subrange(0, count as int)),
            decreases n - row,
        {
            let line = self.screen_buffer[row].as_str();
            let len = line.unicode_len();
            let s: usize = if (sc as usize) < len { sc as usize } else { len };
            let e: usize = if (ec as usize) < len { ec as usize } else { len };
            let part = if sr == er {
                line.substring_char(s, e)
            } else if row == sr as usize {
                line.substring_char(s, len)
            } else if row == er as usize {
                line.substring_char(0, e)
            } else {
                line
            };
            let cut = trim_end(part);
            proof {
                assert(screen[row as int] == line@);
                assert(cut@ == rows[count as int]);
            }
            if count > 0 {
                result.append("\n");
            }
            result.append(cut.as_str());
            proof {
                let next = rows.subrange(0, count + 1);
                assert(next.drop_last() =~= rows.subrange(0, count as int));
                assert(next.last() == rows[count as int]);
                if count == 0 {
                    assert(result@ =~= rows[0]);
                }
            }
            row = row + 1;
            count = count + 1;
        }
        proof {
            assert(rows.subrange(0, rows.len() as int) =~= rows);
        }
        let t = trim(result.as_str());
        if t.as_str().is_empty() {
            None
        } else {
            Some(result)
        }
    }
}

} // verus!
