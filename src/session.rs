use crate::codec::{
    encode_key, key_bytes, mouse_report, mouse_report_bytes, Key, Modifiers, MouseEncoding, MouseKind, MouseMode,
};
use crate::layout::{
    compute_pane_areas, navigate_index, navigate_target, pane_areas_spec, Direction, Rect, GRID_CELLS,
};
use crate::watchdog::{attention_sources, attention_spec, compiling, prompt_sources, Watchdog};
use vstd::prelude::*;

verus! {

/// Rows taken by the header above the grid.
pub const HEADER_ROWS: u16 = 7;

/// The registry of panes and the focus state around them. `P` is whatever
/// owns a session's process; the registry only orders, selects and flags.
pub struct App<P> {
    pub panes: Vec<P>,
    pub selected: usize,
    pub zoomed: bool,
    pub mouse_capture_enabled: bool,
    pub watchdog: Watchdog,
    pub attention: Vec<bool>,
    pub tick: u64,
    pub scroll_offset: u16,
}

/// The cell size inside a bordered box, at least one by one.
pub open spec fn inner_size_spec(area: Rect) -> (u16, u16) {
    (
        if area.height > 2 { (area.height - 2) as u16 } else { 1 },
        if area.width > 2 { (area.width - 2) as u16 } else { 1 },
    )
}

/// The part of a `term_h` by `term_w` screen below the header.
pub open spec fn grid_area_spec(term_h: u16, term_w: u16) -> Rect {
    Rect {
        x: 0,
        y: HEADER_ROWS,
        width: term_w,
        height: if term_h > HEADER_ROWS { (term_h - HEADER_ROWS) as u16 } else { 0 },
    }
}

pub fn grid_area(term_h: u16, term_w: u16) -> (r: Rect)
    ensures
        r == grid_area_spec(term_h, term_w),
{
    Rect { x: 0, y: HEADER_ROWS, width: term_w, height: if term_h > HEADER_ROWS { term_h - HEADER_ROWS } else { 0 } }
}

pub fn inner_size(area: Rect) -> (r: (u16, u16))
    ensures
        r == inner_size_spec(area),
{
    (
        if area.height > 2 { area.height - 2 } else { 1 },
        if area.width > 2 { area.width - 2 } else { 1 },
    )
}

/// The colour role of a pane's border in the grid.
#[derive(Clone, Copy, PartialEq, Eq, Structural, Debug)]
pub enum Border {
    Alert,
    AlertDim,
    Selected,
    Plain,
}

/// A pane that needs attention blinks: alert colour in the on phase, its
/// selected or dimmed alert colour in the off phase.
pub open spec fn border_spec(needs_attention: bool, is_selected: bool, blink_on: bool) -> Border {
    if needs_attention && blink_on {
        Border::Alert
    } else if needs_attention && is_selected {
        Border::Selected
    } else if needs_attention {
        Border::AlertDim
    } else if is_selected {
        Border::Selected
    } else {
        Border::Plain
    }
}

pub fn pane_border(needs_attention: bool, is_selected: bool, blink_on: bool) -> (r: Border)
    ensures
        r == border_spec(needs_attention, is_selected, blink_on),
{
    if needs_attention && is_selected {
        if blink_on {
            Border::Alert
        } else {
            Border::Selected
        }
    } else if needs_attention {
        if blink_on {
            Border::Alert
        } else {
            Border::AlertDim
        }
    } else if is_selected {
        Border::Selected
    } else {
        Border::Plain
    }
}

/// Terminal size for each pane of its cell in `areas`: the cell less its
/// border, saturating at zero.
pub fn grid_cell_sizes(areas: &Vec<Rect>) -> (r: Vec<(u16, u16)>)
    ensures
        r@.len() == areas@.len(),
        forall|i: int|
            0 <= i < areas@.len() ==> #[trigger] r@[i] == (
                (if areas@[i].height >= 2 { areas@[i].height - 2 } else { 0 }) as u16,
                (if areas@[i].width >= 2 { areas@[i].width - 2 } else { 0 }) as u16,
            ),
{
    let mut sizes: Vec<(u16, u16)> = Vec::new();
    let mut i: usize = 0;
    while i < areas.len()
        invariant
            i <= areas.len(),
            sizes@.len() == i,
            forall|j: int|
                0 <= j < i ==> #[trigger] sizes@[j] == (
                    (if areas@[j].height >= 2 { areas@[j].height - 2 } else { 0 }) as u16,
                    (if areas@[j].width >= 2 { areas@[j].width - 2 } else { 0 }) as u16,
                ),
        decreases areas.len() - i,
    {
        let a = areas[i];
        sizes.push((
            if a.height >= 2 { a.height - 2 } else { 0 },
            if a.width >= 2 { a.width - 2 } else { 0 },
        ));
        i = i + 1;
    }
    sizes
}

/// What a key press asks of the multiplexer.
#[derive(Clone, Copy, PartialEq, Eq, Structural, Debug)]
pub enum Command {
    Quit,
    Spawn,
    CloseSelected,
    RestartSelected,
    /// Show pane `i` (zero-based) full-screen.
    ZoomTo(usize),
    ZoomSelected,
    Unzoom,
    Navigate(Direction),
    ToggleMouseCapture,
    /// Send the key to the full-screen pane.
    Forward(Key, bool),
    Ignore,
}

/// F2 toggles mouse capture in either view. Full-screen, Ctrl+Space goes
/// back to the grid and every other key goes to the pane. In the grid, keys
/// are commands: q quits, n spawns while there is room, x closes, r
/// restarts, 1 to 9 zoom to that pane, arrows move the selection and Enter
/// zooms to it. New panes stop at a full grid.
pub open spec fn command_spec(zoomed: bool, pane_count: nat, key: Key, control: bool) -> Command {
    if key == Key::F(2) {
        Command::ToggleMouseCapture
    } else if zoomed {
        if key == Key::Char(' ') && control {
            Command::Unzoom
        } else {
            Command::Forward(key, control)
        }
    } else {
        match key {
            Key::Char(c) => if c == 'q' {
                Command::Quit
            } else if c == 'n' {
                if pane_count < GRID_CELLS {
                    Command::Spawn
                } else {
                    Command::Ignore
                }
            } else if c == 'x' {
                Command::CloseSelected
            } else if c == 'r' {
                Command::RestartSelected
            } else if '1' <= c <= '9' {
                Command::ZoomTo((c as u32 - '1' as u32) as usize)
            } else {
                Command::Ignore
            },
            Key::Up => Command::Navigate(Direction::Up),
            Key::Down => Command::Navigate(Direction::Down),
            Key::Left => Command::Navigate(Direction::Left),
            Key::Right => Command::Navigate(Direction::Right),
            Key::Enter => Command::ZoomSelected,
            _ => Command::Ignore,
        }
    }
}

pub fn command_for_key(zoomed: bool, pane_count: usize, key: Key, control: bool) -> (r: Command)
    ensures
        r == command_spec(zoomed, pane_count as nat, key, control),
{
    if key == Key::F(2) {
        return Command::ToggleMouseCapture;
    }
    if zoomed {
        return if key == Key::Char(' ') && control {
            Command::Unzoom
        } else {
            Command::Forward(key, control)
        };
    }
    match key {
        Key::Char(c) => if c == 'q' {
            Command::Quit
        } else if c == 'n' {
            if pane_count < GRID_CELLS {
                Command::Spawn
            } else {
                Command::Ignore
            }
        } else if c == 'x' {
            Command::CloseSelected
        } else if c == 'r' {
            Command::RestartSelected
        } else if '1' <= c && c <= '9' {
            Command::ZoomTo((c as u32 - '1' as u32) as usize)
        } else {
            Command::Ignore
        },
        Key::Up => Command::Navigate(Direction::Up),
        Key::Down => Command::Navigate(Direction::Down),
        Key::Left => Command::Navigate(Direction::Left),
        Key::Right => Command::Navigate(Direction::Right),
        Key::Enter => Command::ZoomSelected,
        _ => Command::Ignore,
    }
}

impl<P> App<P> {
    /// Attention flags run parallel to the panes; the selection is a pane
    /// when there is one; with no pane the selection is 0 and nothing is
    /// zoomed.
    pub open spec fn wf(&self) -> bool {
        &&& self.attention@.len() == self.panes@.len()
        &&& self.panes@.len() > 0 ==> self.selected < self.panes@.len()
        &&& self.panes@.len() == 0 ==> self.selected == 0 && !self.zoomed
    }

    /// An empty registry in grid view, with mouse capture on.
    pub fn new() -> (r: Self)
        ensures
            r.wf(),
            r.panes@.len() == 0,
            r.selected == 0,
            !r.zoomed,
            r.mouse_capture_enabled,
            r.tick == 0,
            r.scroll_offset == 0,
            r.watchdog.attention_patterns() == compiling(attention_sources()),
            r.watchdog.prompt_patterns() == compiling(prompt_sources()),
    {
        App {
            panes: Vec::new(),
            selected: 0,
            zoomed: false,
            mouse_capture_enabled: true,
            watchdog: Watchdog::new(),
            attention: Vec::new(),
            tick: 0,
            scroll_offset: 0,
        }
    }

    /// Appends a freshly spawned pane, not flagged, and selects it.
    pub fn add_pane(&mut self, pane: P)
        requires
            old(self).wf(),
        ensures
            final(self).wf(),
            final(self).panes@ == old(self).panes@.push(pane),
            final(self).attention@ == old(self).attention@.push(false),
            final(self).selected == old(self).panes@.len(),
            final(self).zoomed == old(self).zoomed,
            final(self).scroll_offset == old(self).scroll_offset,
            final(self).tick == old(self).tick,
            final(self).mouse_capture_enabled == old(self).mouse_capture_enabled,
    {
        self.panes.push(pane);
        self.attention.push(false);
        self.selected = self.panes.len() - 1;
    }

    /// Removes the selected pane and its flag and hands the pane back, to be
    /// terminated. The selection stays in range; when no pane is left the
    /// view falls back to the grid with the scroll offset reset.
    pub fn close_selected_pane(&mut self) -> (r: Option<P>)
        requires
            old(self).wf(),
        ensures
            final(self).wf(),
            old(self).panes@.len() == 0 ==> r is None && *final(self) == *old(self),
            old(self).panes@.len() > 0 ==> {
                let n = (old(self).panes@.len() - 1) as int;
                &&& r == Some(old(self).panes@[old(self).selected as int])
                &&& final(self).panes@ == old(self).panes@.remove(old(self).selected as int)
                &&& final(self).attention@ == old(self).attention@.remove(old(self).selected as int)
                &&& n == 0 ==> final(self).selected == 0 && !final(self).zoomed && final(self).scroll_offset == 0
                &&& n > 0 ==> final(self).selected == (if old(self).selected >= n {
                    n - 1
                } else {
                    old(self).selected as int
                }) && final(self).zoomed == old(self).zoomed && final(self).scroll_offset
                    == old(self).scroll_offset
            },
            final(self).tick == old(self).tick,
            final(self).mouse_capture_enabled == old(self).mouse_capture_enabled,
    {
        if self.panes.len() == 0 {
            return None;
        }
        let pane = self.panes.remove(self.selected);
        self.attention.remove(self.selected);
        if self.panes.len() == 0 {
            self.selected = 0;
            self.zoomed = false;
            self.scroll_offset = 0;
        } else if self.selected >= self.panes.len() {
            self.selected = self.panes.len() - 1;
        }
        Some(pane)
    }

    /// Puts `pane` in the selected slot in place of the pane there, which is
    /// handed back to be terminated, and clears that slot's flag. Selection,
    /// zoom and every other slot stay as they were.
    pub fn restart_selected_pane(&mut self, pane: P) -> (r: P)
        requires
            old(self).wf(),
            old(self).panes@.len() > 0,
        ensures
            final(self).wf(),
            r == old(self).panes@[old(self).selected as int],
            final(self).panes@ == old(self).panes@.update(old(self).selected as int, pane),
            final(self).attention@ == old(self).attention@.update(old(self).selected as int, false),
            final(self).selected == old(self).selected,
            final(self).zoomed == old(self).zoomed,
            final(self).scroll_offset == old(self).scroll_offset,
            final(self).tick == old(self).tick,
            final(self).mouse_capture_enabled == old(self).mouse_capture_enabled,
    {
        let idx = self.selected;
        let previous = self.panes.remove(idx);
        self.panes.insert(idx, pane);
        self.attention.set(idx, false);
        proof {
            assert(self.panes@ =~= old(self).panes@.update(idx as int, pane));
        }
        previous
    }

    /// Moves the selection one step in `direction` across the grid.
    pub fn navigate(&mut self, direction: Direction)
        requires
            old(self).wf(),
        ensures
            final(self).wf(),
            old(self).panes@.len() == 0 ==> final(self).selected == old(self).selected,
            old(self).panes@.len() > 0 ==> final(self).selected == navigate_target(
                old(self).selected as int,
                old(self).panes@.len() as int,
                direction,
            ),
            final(self).panes@ == old(self).panes@,
            final(self).attention@ == old(self).attention@,
            final(self).zoomed == old(self).zoomed,
            final(self).scroll_offset == old(self).scroll_offset,
            final(self).tick == old(self).tick,
    {
        if self.panes.len() == 0 {
            return;
        }
        self.selected = navigate_index(self.selected, self.panes.len(), direction);
    }

    /// Selects pane `idx` and shows it full-screen; does nothing when there
    /// is no such pane. Returns whether it did.
    pub fn zoom_to(&mut self, idx: usize) -> (r: bool)
        requires
            old(self).wf(),
        ensures
            final(self).wf(),
            r == (idx < old(self).panes@.len()),
            r ==> final(self).selected == idx && final(self).zoomed && final(self).scroll_offset == 0,
            !r ==> final(self).selected == old(self).selected && final(self).zoomed == old(self).zoomed
                && final(self).scroll_offset == old(self).scroll_offset,
            final(self).panes@ == old(self).panes@,
            final(self).attention@ == old(self).attention@,
    {
        if idx < self.panes.len() {
            self.selected = idx;
            self.zoomed = true;
            self.scroll_offset = 0;
            true
        } else {
            false
        }
    }

    /// Shows the selected pane full-screen, when there is one.
    pub fn zoom_selected(&mut self) -> (r: bool)
        requires
            old(self).wf(),
        ensures
            final(self).wf(),
            r == (old(self).panes@.len() > 0),
            r ==> final(self).zoomed && final(self).scroll_offset == 0,
            !r ==> final(self).zoomed == old(self).zoomed && final(self).scroll_offset == old(self).scroll_offset,
            final(self).selected == old(self).selected,
            final(self).panes@ == old(self).panes@,
            final(self).attention@ == old(self).attention@,
    {
        if self.panes.len() > 0 {
            self.zoomed = true;
            self.scroll_offset = 0;
            true
        } else {
            false
        }
    }

    /// Leaves full-screen view for the grid, resetting the scroll offset.
    pub fn unzoom(&mut self)
        requires
            old(self).wf(),
        ensures
            final(self).wf(),
            !final(self).zoomed,
            final(self).scroll_offset == 0,
            final(self).selected == old(self).selected,
            final(self).panes@ == old(self).panes@,
            final(self).attention@ == old(self).attention@,
    {
        self.zoomed = false;
        self.scroll_offset = 0;
    }

    pub fn toggle_mouse_capture(&mut self)
        requires
            old(self).wf(),
        ensures
            final(self).wf(),
            final(self).mouse_capture_enabled == !old(self).mouse_capture_enabled,
            final(self).panes@ == old(self).panes@,
            final(self).attention@ == old(self).attention@,
            final(self).selected == old(self).selected,
            final(self).zoomed == old(self).zoomed,
    {
        self.mouse_capture_enabled = !self.mouse_capture_enabled;
    }

    /// Advances the frame counter, wrapping on overflow.
    pub fn advance_tick(&mut self)
        requires
            old(self).wf(),
        ensures
            final(self).wf(),
            final(self).tick == (if old(self).tick == u64::MAX { 0 } else { old(self).tick + 1 }),
            final(self).panes@ == old(self).panes@,
            final(self).attention@ == old(self).attention@,
            final(self).selected == old(self).selected,
            final(self).zoomed == old(self).zoomed,
    {
        self.tick = if self.tick == u64::MAX { 0 } else { self.tick + 1 };
    }

    /// The blink phase: on for five frames, off for five.
    pub fn blink_on(&self) -> (r: bool)
        ensures
            r == ((self.tick / 5) % 2 == 0),
    {
        (self.tick / 5) % 2 == 0
    }

    /// Reclassifies pane `i` from the text at its cursor.
    pub fn classify(&mut self, i: usize, cursor_line: &str, nearby_text: &str)
        requires
            old(self).wf(),
            i < old(self).panes@.len(),
        ensures
            final(self).wf(),
            final(self).attention@ == old(self).attention@.update(
                i as int,
                attention_spec(
                    old(self).watchdog.attention_patterns(),
                    old(self).watchdog.prompt_patterns(),
                    cursor_line@,
                    nearby_text@,
                ),
            ),
            final(self).panes@ == old(self).panes@,
            final(self).selected == old(self).selected,
            final(self).zoomed == old(self).zoomed,
            final(self).watchdog == old(self).watchdog,
    {
        let flag = self.watchdog.needs_attention(cursor_line, nearby_text);
        self.attention.set(i, flag);
    }

    /// Reclassifies every pane from the text at its cursor: `texts[i]` holds
    /// pane `i`'s cursor line and the text near it. While a pane is shown
    /// full-screen the flags are left as they are.
    pub fn refresh_attention(&mut self, texts: &Vec<(String, String)>)
        requires
            old(self).wf(),
            texts@.len() == old(self).panes@.len(),
        ensures
            final(self).wf(),
            old(self).zoomed ==> final(self).attention@ == old(self).attention@,
            !old(self).zoomed ==> final(self).attention@.len() == old(self).attention@.len() && forall|i: int|
                0 <= i < texts@.len() ==> #[trigger] final(self).attention@[i] == attention_spec(
                    old(self).watchdog.attention_patterns(),
                    old(self).watchdog.prompt_patterns(),
                    texts@[i].0@,
                    texts@[i].1@,
                ),
            final(self).panes@ == old(self).panes@,
            final(self).selected == old(self).selected,
            final(self).zoomed == old(self).zoomed,
            final(self).watchdog == old(self).watchdog,
    {
        if self.zoomed {
            return;
        }
        let mut i: usize = 0;
        while i < texts.len()
            invariant
                self.wf(),
                !self.zoomed,
                texts@.len() == self.panes@.len(),
                i <= texts@.len(),
                self.panes@ == old(self).panes@,
                self.selected == old(self).selected,
                self.watchdog == old(self).watchdog,
                self.attention@.len() == old(self).attention@.len(),
                forall|j: int|
                    0 <= j < i ==> #[trigger] self.attention@[j] == attention_spec(
                        old(self).watchdog.attention_patterns(),
                        old(self).watchdog.prompt_patterns(),
                        texts@[j].0@,
                        texts@[j].1@,
                    ),
            decreases texts@.len() - i,
        {
            self.classify(i, texts[i].0.as_str(), texts[i].1.as_str());
            i = i + 1;
        }
    }

    /// The bytes a key press sends to the selected pane: keys reach a pane
    /// only while it is shown full-screen.
    pub fn key_for_selected(&self, key: Key, control: bool) -> (r: Option<Vec<u8>>)
        requires
            self.wf(),
        ensures
            (self.panes@.len() == 0 || !self.zoomed) ==> r is None,
            (self.panes@.len() > 0 && self.zoomed) ==> (r is None <==> key_bytes(key, control) is None)
                && (r matches Some(b) ==> key_bytes(key, control) == Some(b@)),
    {
        if self.panes.len() == 0 || !self.zoomed {
            return None;
        }
        encode_key(key, control)
    }

    /// The report a pointer event sends to the selected pane: only while
    /// that pane is full-screen and mouse capture is on, and then as the
    /// session's mode and encoding ask.
    pub fn mouse_for_selected(
        &self,
        mode: MouseMode,
        encoding: MouseEncoding,
        kind: MouseKind,
        mods: Modifiers,
        column: u16,
        row: u16,
        width: u16,
        height: u16,
    ) -> (r: Option<Vec<u8>>)
        requires
            self.wf(),
        ensures
            !(self.panes@.len() > 0 && self.zoomed && self.mouse_capture_enabled) ==> r is None,
            (self.panes@.len() > 0 && self.zoomed && self.mouse_capture_enabled) ==> (r is None
                <==> mouse_report_bytes(mode, encoding, kind, mods, column, row, width, height) is None)
                && (r matches Some(b) ==> mouse_report_bytes(mode, encoding, kind, mods, column, row, width, height)
                == Some(b@)),
    {
        if self.panes.len() == 0 || !self.zoomed || !self.mouse_capture_enabled {
            return None;
        }
        mouse_report(mode, encoding, kind, mods, column, row, width, height)
    }

    /// The interior size the selected pane has in the grid, or 24 by 80
    /// when there is no pane.
    pub fn selected_grid_inner_size(&self, term_h: u16, term_w: u16) -> (r: (u16, u16))
        requires
            self.wf(),
            self.panes@.len() <= u32::MAX,
        ensures
            self.panes@.len() == 0 ==> r == (24u16, 80u16),
            r.0 >= 1 && r.1 >= 1,
            0 < self.panes@.len() <= GRID_CELLS ==> r == inner_size_spec(
                pane_areas_spec(grid_area_spec(term_h, term_w), self.panes@.len() as int)[self.selected as int],
            ),
    {
        if self.panes.len() == 0 {
            return (24, 80);
        }
        let areas = compute_pane_areas(grid_area(term_h, term_w), self.panes.len());
        inner_size(areas[self.selected])
    }
}

} // verus!
