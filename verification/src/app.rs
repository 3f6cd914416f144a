//! Decisions of the monitor's main loop: when it stops, how long it waits
//! for input between samples, how it counts ticks.
use vstd::prelude::*;

verus! {

/// What a key event is.
#[derive(Debug, Clone, Copy, PartialEq, Eq)]
pub enum KeyKind {
    Press,
    Repeat,
    Release,
}

/// Which key an event is about.
#[derive(Debug, Clone, Copy, PartialEq, Eq)]
pub enum KeyCode {
    Char(char),
    Esc,
    Up,
    Down,
    Other,
}

/// A key event.
#[derive(Debug, Clone, Copy, PartialEq, Eq)]
pub struct KeyInput {
    pub kind: KeyKind,
    pub code: KeyCode,
}

/// The column the process table is sorted by, in the table's order.
#[derive(Debug, Clone, Copy, PartialEq, Eq, Structural)]
pub enum SortColumn {
    Pid,
    Command,
    Gtt,
    Rcs,
    Vcs,
    Ccs,
    Bcs,
    Vecs,
}

/// The column after `c`, back to the first after the last.
pub open spec fn next_column(c: SortColumn) -> SortColumn {
    match c {
        SortColumn::Pid => SortColumn::Command,
        SortColumn::Command => SortColumn::Gtt,
        SortColumn::Gtt => SortColumn::Rcs,
        SortColumn::Rcs => SortColumn::Vcs,
        SortColumn::Vcs => SortColumn::Ccs,
        SortColumn::Ccs => SortColumn::Bcs,
        SortColumn::Bcs => SortColumn::Vecs,
        SortColumn::Vecs => SortColumn::Pid,
    }
}

impl SortColumn {
    /// The column after this one, back to the first after the last.
    pub fn next(self) -> (r: SortColumn)
        ensures
            r == next_column(self),
    {
        match self {
            SortColumn::Pid => SortColumn::Command,
            SortColumn::Command => SortColumn::Gtt,
            SortColumn::Gtt => SortColumn::Rcs,
            SortColumn::Rcs => SortColumn::Vcs,
            SortColumn::Vcs => SortColumn::Ccs,
            SortColumn::Ccs => SortColumn::Bcs,
            SortColumn::Bcs => SortColumn::Vecs,
            SortColumn::Vecs => SortColumn::Pid,
        }
    }
}

/// The key event asks the monitor to quit: a press of `q` or Esc.
pub open spec fn quits(key: KeyInput) -> bool {
    key.kind is Press && (key.code == KeyCode::Char('q') || key.code is Esc)
}

/// A press of `?`: show or hide the help.
pub open spec fn toggles_help(key: KeyInput) -> bool {
    key.kind is Press && key.code == KeyCode::Char('?')
}

/// A press of `s`: sort by the next column.
pub open spec fn cycles_sort(key: KeyInput) -> bool {
    key.kind is Press && key.code == KeyCode::Char('s')
}

/// A press of `r`: reverse the sort order.
pub open spec fn reverses_sort(key: KeyInput) -> bool {
    key.kind is Press && key.code == KeyCode::Char('r')
}

/// A press of Up or `k`: move the selection up.
pub open spec fn moves_up(key: KeyInput) -> bool {
    key.kind is Press && (key.code is Up || key.code == KeyCode::Char('k'))
}

/// A press of Down or `j`: move the selection down.
pub open spec fn moves_down(key: KeyInput) -> bool {
    key.kind is Press && (key.code is Down || key.code == KeyCode::Char('j'))
}

/// The selected row after a key, in a table of `rows` rows: one up (not
/// above the first), one down (not below the last), or where it was.
pub open spec fn selection_after(selected: nat, key: KeyInput, rows: nat) -> nat {
    if moves_up(key) {
        if selected > 0 {
            (selected - 1) as nat
        } else {
            0
        }
    } else if moves_down(key) && selected + 1 < rows {
        selected + 1
    } else {
        selected
    }
}

/// How long to wait for input between two samples taken `interval_ms`
/// apart: 10 ms less than the interval, or 50 ms when the interval is
/// shorter than 10 ms.
pub fn event_timeout_ms(interval_ms: u64) -> (r: u64)
    ensures
        r == if interval_ms >= 10 {
            (interval_ms - 10) as u64
        } else {
            50
        },
{
    if interval_ms >= 10 {
        interval_ms - 10
    } else {
        50
    }
}

/// The state of the main loop: whether it runs on, how many samples it has
/// taken, whether the help shows, how the process table is sorted and
/// which row is selected.
pub struct LoopState {
    running: bool,
    tick_count: u64,
    show_help: bool,
    sort_column: SortColumn,
    sort_reverse: bool,
    selected: usize,
}

/// Mathematical model of the loop's state.
pub struct LoopView {
    pub running: bool,
    pub ticks: u64,
    pub show_help: bool,
    pub sort_column: SortColumn,
    pub sort_reverse: bool,
    pub selected: nat,
}

/// The state after a key event in a table of `rows` rows.
pub open spec fn after_key(v: LoopView, key: KeyInput, rows: nat) -> LoopView {
    LoopView {
        running: v.running && !quits(key),
        ticks: v.ticks,
        show_help: if toggles_help(key) {
            !v.show_help
        } else {
            v.show_help
        },
        sort_column: if cycles_sort(key) {
            next_column(v.sort_column)
        } else {
            v.sort_column
        },
        sort_reverse: if reverses_sort(key) {
            !v.sort_reverse
        } else {
            v.sort_reverse
        },
        selected: selection_after(v.selected, key, rows),
    }
}

impl View for LoopState {
    type V = LoopView;

    closed spec fn view(&self) -> LoopView {
        LoopView {
            running: self.running,
            ticks: self.tick_count,
            show_help: self.show_help,
            sort_column: self.sort_column,
            sort_reverse: self.sort_reverse,
            selected: self.selected as nat,
        }
    }
}

impl LoopState {
    /// A loop that runs and has taken no sample; the help is hidden and the
    /// table is sorted by PID, ascending, with the first row selected.
    pub fn new() -> (r: Self)
        ensures
            r@ == (LoopView {
                running: true,
                ticks: 0,
                show_help: false,
                sort_column: SortColumn::Pid,
                sort_reverse: false,
                selected: 0,
            }),
    {
        LoopState {
            running: true,
            tick_count: 0,
            show_help: false,
            sort_column: SortColumn::Pid,
            sort_reverse: false,
            selected: 0,
        }
    }

    /// Whether the main loop runs on.
    pub fn running(&self) -> (r: bool)
        ensures
            r == self@.running,
    {
        self.running
    }

    /// Number of samples taken.
    pub fn tick_count(&self) -> (r: u64)
        ensures
            r == self@.ticks,
    {
        self.tick_count
    }

    /// Whether the help shows.
    pub fn show_help(&self) -> (r: bool)
        ensures
            r == self@.show_help,
    {
        self.show_help
    }

    /// The column the process table is sorted by.
    pub fn sort_column(&self) -> (r: SortColumn)
        ensures
            r == self@.sort_column,
    {
        self.sort_column
    }

    /// Whether the sort order is reversed.
    pub fn sort_reverse(&self) -> (r: bool)
        ensures
            r == self@.sort_reverse,
    {
        self.sort_reverse
    }

    /// The selected row.
    pub fn selected(&self) -> (r: usize)
        ensures
            r == self@.selected,
    {
        self.selected
    }

    /// Count a sample.
    pub fn tick(&mut self)
        requires
            old(self)@.ticks < u64::MAX,
        ensures
            final(self)@ == (LoopView { ticks: (old(self)@.ticks + 1) as u64, ..old(self)@ }),
    {
        self.tick_count = self.tick_count + 1;
    }

    /// Keep the selection inside a table of `rows` rows: on the last row
    /// when it was below it, on the first when the table is empty.
    pub fn clamp_selection(&mut self, rows: usize)
        ensures
            final(self)@ == (LoopView {
                selected: if old(self)@.selected < rows {
                    old(self)@.selected
                } else if rows > 0 {
                    (rows - 1) as nat
                } else {
                    0
                },
                ..old(self)@
            }),
    {
        if self.selected >= rows {
            self.selected = if rows > 0 {
                rows - 1
            } else {
                0
            };
        }
    }

    /// Take a key event in a table of `rows` rows. A press of `q` or Esc
    /// stops the loop, `?` shows or hides the help, `s` sorts by the next
    /// column, `r` reverses the order, Up or `k` and Down or `j` move the
    /// selection; any other event changes nothing.
    pub fn handle_key(&mut self, key: KeyInput, rows: usize)
        ensures
            final(self)@ == after_key(old(self)@, key, rows as nat),
    {
        match key.kind {
            KeyKind::Press => match key.code {
                KeyCode::Char(c) => {
                    if c == 'q' {
                        self.running = false;
                    } else if c == '?' {
                        self.show_help = !self.show_help;
                    } else if c == 's' {
                        self.sort_column = self.sort_column.next();
                    } else if c == 'r' {
                        self.sort_reverse = !self.sort_reverse;
                    } else if c == 'k' {
                        self.move_up();
                    } else if c == 'j' {
                        self.move_down(rows);
                    }
                },
                KeyCode::Esc => {
                    self.running = false;
                },
                KeyCode::Up => {
                    self.move_up();
                },
                KeyCode::Down => {
                    self.move_down(rows);
                },
                KeyCode::Other => {},
            },
            _ => {},
        }
    }

    fn move_up(&mut self)
        ensures
            final(self)@ == (LoopView {
                selected: if old(self)@.selected > 0 {
                    (old(self)@.selected - 1) as nat
                } else {
                    0
                },
                ..old(self)@
            }),
    {
        if self.selected > 0 {
            self.selected = self.selected - 1;
        }
    }

    fn move_down(&mut self, rows: usize)
        ensures
            final(self)@ == (LoopView {
                selected: if old(self)@.selected + 1 < rows {
                    old(self)@.selected + 1
                } else {
                    old(self)@.selected
                },
                ..old(self)@
            }),
    {
        if rows > 0 && self.selected < rows - 1 {
            self.selected = self.selected + 1;
        }
    }
}

/// Pressing `?` twice leaves the loop as it was.
pub proof fn help_toggle_twice_restores(v: LoopView, key: KeyInput, rows: nat)
    requires
        toggles_help(key),
    ensures
        after_key(after_key(v, key, rows), key, rows) == v,
{
}

/// Pressing `s` once per column comes back to the column the table was
/// sorted by.
pub proof fn sort_cycle_restores(c: SortColumn)
    ensures
        next_column(next_column(next_column(next_column(next_column(next_column(next_column(
            next_column(c),
        ))))))) == c,
{
}

} // verus!
