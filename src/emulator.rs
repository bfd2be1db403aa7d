use crate::codec::{dsr_count, dsr_reply, dsr_reply_bytes, scan_dsr, tail3, MouseEncoding, MouseMode};
use crate::screen::{cursor_line, cursor_line_spec, lines_near_cursor, lines_near_spec};
use vstd::prelude::*;

verus! {

#[verifier::external_type_specification]
#[verifier::external_body]
pub struct ExParser(vt100::Parser);

#[verifier::external_type_specification]
#[verifier::external_body]
pub struct ExScreen(vt100::Screen);

/// Lines of scrollback each session keeps.
pub const SCROLLBACK_LEN: usize = 1000;

/// Relies on `vt100::Parser::new`. Placing a double-width character
/// subtracts two from the column count, and wrapping it to the next row
/// subtracts the rows scrolled from the row it left, which on a one-row
/// screen is row zero; so it needs at least two rows and two columns.
#[verifier::external_body]
fn new_parser(rows: u16, cols: u16, scrollback_len: usize) -> (r: vt100::Parser)
    requires
        rows >= 2,
        cols >= 2,
{
    vt100::Parser::new(rows, cols, scrollback_len)
}

/// Relies on `vt100::Parser::process`: feeds output bytes to the emulator.
/// It cannot fail on a screen of at least two rows and two columns, which
/// `new_parser` and `set_size` keep to.
#[verifier::external_body]
fn process(parser: &mut vt100::Parser, bytes: &[u8]) {
    parser.process(bytes)
}

/// Relies on `vt100::Parser::set_size`; like `new` it needs at least two
/// rows and two columns.
#[verifier::external_body]
fn set_size(parser: &mut vt100::Parser, rows: u16, cols: u16)
    requires
        rows >= 2,
        cols >= 2,
{
    parser.set_size(rows, cols)
}

/// Relies on `vt100::Parser::screen`: the emulator's screen state.
#[verifier::external_body]
fn screen_of(parser: &vt100::Parser) -> (r: &vt100::Screen) {
    parser.screen()
}

/// Relies on `vt100::Screen::cursor_position`: zero-based (row, column).
#[verifier::external_body]
fn cursor_of(screen: &vt100::Screen) -> (r: (u16, u16)) {
    screen.cursor_position()
}

/// Relies on `vt100::Screen::contents`: the visible rows as plain text,
/// joined by line feeds.
#[verifier::external_body]
fn contents_of(screen: &vt100::Screen) -> (r: String) {
    screen.contents()
}

/// Relies on `vt100::Screen::mouse_protocol_mode`, variant for variant.
#[verifier::external_body]
fn mouse_mode_of(screen: &vt100::Screen) -> (r: MouseMode) {
    match screen.mouse_protocol_mode() {
        vt100::MouseProtocolMode::None => MouseMode::Off,
        vt100::MouseProtocolMode::Press => MouseMode::Press,
        vt100::MouseProtocolMode::PressRelease => MouseMode::PressRelease,
        vt100::MouseProtocolMode::ButtonMotion => MouseMode::ButtonMotion,
        vt100::MouseProtocolMode::AnyMotion => MouseMode::AnyMotion,
    }
}

/// Relies on `vt100::Screen::mouse_protocol_encoding`, variant for variant.
#[verifier::external_body]
fn mouse_encoding_of(screen: &vt100::Screen) -> (r: MouseEncoding) {
    match screen.mouse_protocol_encoding() {
        vt100::MouseProtocolEncoding::Default => MouseEncoding::Default,
        vt100::MouseProtocolEncoding::Utf8 => MouseEncoding::Utf8,
        vt100::MouseProtocolEncoding::Sgr => MouseEncoding::Sgr,
    }
}

/// A session's terminal emulator, with the last bytes of its output kept
/// back to find a cursor-position request split between two chunks.
pub struct Emulator {
    parser: vt100::Parser,
    dsr_tail: Vec<u8>,
    size: Ghost<(u16, u16)>,
    fed: Ghost<Seq<u8>>,
}

impl Emulator {
    /// The bytes carried over from the last chunk.
    pub closed spec fn carried(&self) -> Seq<u8> {
        self.dsr_tail@
    }

    /// The (rows, columns) the emulated screen was last given.
    pub closed spec fn size(&self) -> (u16, u16) {
        self.size@
    }

    /// All output fed to the emulator so far, in order.
    pub closed spec fn fed(&self) -> Seq<u8> {
        self.fed@
    }

    /// The emulated screen is at least two rows by two columns.
    pub open spec fn wf(&self) -> bool {
        self.size().0 >= 2 && self.size().1 >= 2
    }

    /// An emulator of `rows` by `cols` cells with nothing carried over.
    pub fn new(rows: u16, cols: u16) -> (r: Self)
        requires
            rows >= 2,
            cols >= 2,
        ensures
            r.wf(),
            r.size() == (rows, cols),
            r.fed() == Seq::<u8>::empty(),
            r.carried() == Seq::<u8>::empty(),
    {
        Emulator {
            parser: new_parser(rows, cols, SCROLLBACK_LEN),
            dsr_tail: Vec::new(),
            size: Ghost((rows, cols)),
            fed: Ghost(Seq::empty()),
        }
    }

    /// Feeds one chunk of output to the emulator and returns the number of
    /// cursor-position requests it completes, counting one that began in
    /// the previous chunk.
    pub fn feed(&mut self, chunk: &Vec<u8>) -> (count: usize)
        requires
            old(self).wf(),
        ensures
            final(self).wf(),
            count == dsr_count(old(self).carried() + chunk@),
            final(self).carried() == tail3(old(self).carried() + chunk@),
            final(self).fed() == old(self).fed() + chunk@,
            final(self).size() == old(self).size(),
    {
        let (count, tail) = scan_dsr(&self.dsr_tail, chunk);
        self.dsr_tail = tail;
        process(&mut self.parser, chunk.as_slice());
        self.fed = Ghost(self.fed@ + chunk@);
        count
    }

    /// Zero-based (row, column) of the cursor.
    pub fn cursor_position(&self) -> (u16, u16) {
        cursor_of(screen_of(&self.parser))
    }

    /// The reply to a cursor-position request, for the cursor as it stands.
    pub fn cursor_report(&self) -> (r: Vec<u8>)
        ensures
            exists|row: u16, col: u16| r@ == #[trigger] dsr_reply_bytes(row, col),
    {
        let (row, col) = self.cursor_position();
        dsr_reply(row, col)
    }

    /// The text of the cursor's row.
    pub fn cursor_line(&self) -> (r: String)
        ensures
            exists|contents: Seq<char>, row: u16| r@ == #[trigger] cursor_line_spec(contents, row as int),
    {
        let screen = screen_of(&self.parser);
        let (row, _col) = cursor_of(screen);
        let contents = contents_of(screen);
        cursor_line(contents.as_str(), row as usize)
    }

    /// The cursor's row and up to five rows above it.
    pub fn lines_near_cursor(&self) -> (r: String)
        ensures
            exists|contents: Seq<char>, row: u16| r@ == #[trigger] lines_near_spec(contents, row as int),
    {
        let screen = screen_of(&self.parser);
        let (row, _col) = cursor_of(screen);
        let contents = contents_of(screen);
        lines_near_cursor(contents.as_str(), row as usize)
    }

    /// Resizes the emulated screen.
    pub fn resize(&mut self, rows: u16, cols: u16)
        requires
            rows >= 2,
            cols >= 2,
        ensures
            final(self).wf(),
            final(self).size() == (rows, cols),
            final(self).carried() == old(self).carried(),
            final(self).fed() == old(self).fed(),
    {
        set_size(&mut self.parser, rows, cols);
        self.size = Ghost((rows, cols));
    }

    /// Which pointer events the session has asked for.
    pub fn mouse_mode(&self) -> MouseMode {
        mouse_mode_of(screen_of(&self.parser))
    }

    /// The format the session has asked pointer reports in.
    pub fn mouse_encoding(&self) -> MouseEncoding {
        mouse_encoding_of(screen_of(&self.parser))
    }

    /// The emulated screen, for drawing.
    pub fn screen(&self) -> &vt100::Screen {
        screen_of(&self.parser)
    }
}

} // verus!
