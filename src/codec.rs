use vstd::prelude::*;
use vstd::utf8::{encode_scalar, encode_utf8};

verus! {

/// A logical key, as far as the sessions are concerned.
#[derive(Clone, Copy, PartialEq, Eq, Structural, Debug)]
pub enum Key {
    Char(char),
    Enter,
    Backspace,
    Tab,
    Up,
    Down,
    Right,
    Left,
    Esc,
    PageUp,
    PageDown,
    Home,
    End,
    Delete,
    /// A function key, by number.
    F(u8),
    /// Any other key.
    Other,
}

/// The bytes a session receives for `key`, `None` where the key is dropped.
/// With Control a character becomes its control code, the low five bits of
/// its code point; without it, its UTF-8 encoding.
pub open spec fn key_bytes(key: Key, control: bool) -> Option<Seq<u8>> {
    match key {
        Key::Char(c) => if control {
            Some(seq![((c as u32) % 32) as u8])
        } else {
            Some(encode_utf8(seq![c]))
        },
        Key::Enter => Some(seq![13u8]),
        Key::Backspace => Some(seq![127u8]),
        Key::Tab => Some(seq![9u8]),
        Key::Up => Some(seq![27u8, 91, 65]),
        Key::Down => Some(seq![27u8, 91, 66]),
        Key::Right => Some(seq![27u8, 91, 67]),
        Key::Left => Some(seq![27u8, 91, 68]),
        Key::Esc => Some(seq![27u8]),
        Key::PageUp => Some(seq![27u8, 91, 53, 126]),
        Key::PageDown => Some(seq![27u8, 91, 54, 126]),
        Key::Home => Some(seq![27u8, 91, 72]),
        Key::End => Some(seq![27u8, 91, 70]),
        Key::Delete => Some(seq![27u8, 91, 51, 126]),
        Key::F(_) => None,
        Key::Other => None,
    }
}

/// The UTF-8 encoding of one character.
pub fn encode_char(c: char) -> (r: Vec<u8>)
    ensures
        r@ == encode_utf8(seq![c]),
{
    let v = c as u32;
    let r = if v <= 0x7F {
        vec![(v & 0x7F) as u8]
    } else if v <= 0x7FF {
        vec![0xC0 | ((v >> 6) & 0x1F) as u8, 0x80 | (v & 0x3F) as u8]
    } else if v <= 0xFFFF && !(0xD800 <= v && v <= 0xDFFF) {
        vec![
            0xE0 | ((v >> 12) & 0x0F) as u8,
            0x80 | ((v >> 6) & 0x3F) as u8,
            0x80 | (v & 0x3F) as u8,
        ]
    } else {
        vec![
            0xF0 | ((v >> 18) & 0x7) as u8,
            0x80 | ((v >> 12) & 0x3F) as u8,
            0x80 | ((v >> 6) & 0x3F) as u8,
            0x80 | (v & 0x3F) as u8,
        ]
    };
    proof {
        assert(seq![c].drop_first() =~= Seq::<char>::empty());
        assert(encode_utf8(seq![c]) =~= encode_scalar(v) + encode_utf8(Seq::<char>::empty()));
        assert(r@ =~= encode_scalar(v));
    }
    r
}

/// The bytes to send to a session for a key press.
pub fn encode_key(key: Key, control: bool) -> (r: Option<Vec<u8>>)
    ensures
        r matches Some(b) ==> key_bytes(key, control) == Some(b@),
        r is None <==> key_bytes(key, control) is None,
{
    match key {
        Key::Char(c) => if control {
            Some(vec![((c as u32) % 32) as u8])
        } else {
            Some(encode_char(c))
        },
        Key::Enter => Some(vec![13u8]),
        Key::Backspace => Some(vec![127u8]),
        Key::Tab => Some(vec![9u8]),
        Key::Up => Some(vec![27u8, 91, 65]),
        Key::Down => Some(vec![27u8, 91, 66]),
        Key::Right => Some(vec![27u8, 91, 67]),
        Key::Left => Some(vec![27u8, 91, 68]),
        Key::Esc => Some(vec![27u8]),
        Key::PageUp => Some(vec![27u8, 91, 53, 126]),
        Key::PageDown => Some(vec![27u8, 91, 54, 126]),
        Key::Home => Some(vec![27u8, 91, 72]),
        Key::End => Some(vec![27u8, 91, 70]),
        Key::Delete => Some(vec![27u8, 91, 51, 126]),
        Key::F(_) => None,
        Key::Other => None,
    }
}

/// The ASCII decimal digits of `n`, most significant first.
pub open spec fn decimal(n: nat) -> Seq<u8>
    decreases n,
{
    if n < 10 {
        seq![(48 + n) as u8]
    } else {
        decimal(n / 10) + seq![(48 + n % 10) as u8]
    }
}

/// Appends the decimal digits of `n` to `out`.
pub fn push_decimal(out: &mut Vec<u8>, n: u32)
    ensures
        final(out)@ == old(out)@ + decimal(n as nat),
    decreases n,
{
    if n >= 10 {
        push_decimal(out, n / 10);
    }
    out.push((48 + n % 10) as u8);
    proof {
        assert(final(out)@ =~= old(out)@ + decimal(n as nat));
    }
}


/// Which pointer events a session has asked to receive.
#[derive(Clone, Copy, PartialEq, Eq, Structural, Debug)]
pub enum MouseMode {
    /// No pointer events are reported.
    Off,
    Press,
    PressRelease,
    ButtonMotion,
    AnyMotion,
}

/// The byte format a session has asked pointer reports in.
#[derive(Clone, Copy, PartialEq, Eq, Structural, Debug)]
pub enum MouseEncoding {
    Default,
    Utf8,
    Sgr,
}

#[derive(Clone, Copy, PartialEq, Eq, Structural, Debug)]
pub enum MouseButton {
    Left,
    Middle,
    Right,
}

/// A physical pointer event.
#[derive(Clone, Copy, PartialEq, Eq, Structural, Debug)]
pub enum MouseKind {
    Down(MouseButton),
    Up(MouseButton),
    Drag(MouseButton),
    Moved,
    ScrollDown,
    ScrollUp,
    ScrollLeft,
    ScrollRight,
}

/// Modifier keys held during an event.
#[derive(Clone, Copy, PartialEq, Eq, Structural, Debug)]
pub struct Modifiers {
    pub shift: bool,
    pub alt: bool,
    pub control: bool,
}

/// Shift adds 4, Alt 8 and Control 16 to a pointer report's button code.
pub open spec fn modifier_bits(m: Modifiers) -> u8 {
    ((if m.shift { 4int } else { 0 }) + (if m.alt { 8int } else { 0 }) + (if m.control { 16int } else { 0 })) as u8
}

pub fn mouse_modifier_bits(m: Modifiers) -> (r: u8)
    ensures
        r == modifier_bits(m),
{
    let mut bits: u8 = 0;
    if m.shift {
        bits = bits + 4;
    }
    if m.alt {
        bits = bits + 8;
    }
    if m.control {
        bits = bits + 16;
    }
    bits
}

pub open spec fn button_code(b: MouseButton) -> u8 {
    match b {
        MouseButton::Left => 0,
        MouseButton::Middle => 1,
        MouseButton::Right => 2,
    }
}

/// The report's button code and whether it is a release, or `None` where
/// `mode` does not report the event.
pub open spec fn mouse_event_code(mode: MouseMode, kind: MouseKind, mods: u8) -> Option<(u8, bool)> {
    match kind {
        MouseKind::Down(b) => Some((button_code(b) | mods, false)),
        MouseKind::Up(_) => Some((3u8 | mods, true)),
        MouseKind::Drag(b) => if mode is ButtonMotion || mode is AnyMotion {
            Some((button_code(b) | 32u8 | mods, false))
        } else {
            None
        },
        MouseKind::Moved => if mode is AnyMotion {
            Some((35u8 | mods, false))
        } else {
            None
        },
        MouseKind::ScrollUp => Some((64u8 | mods, false)),
        MouseKind::ScrollDown => Some((65u8 | mods, false)),
        MouseKind::ScrollLeft => Some((66u8 | mods, false)),
        MouseKind::ScrollRight => Some((67u8 | mods, false)),
    }
}

fn encode_button(b: MouseButton) -> (r: u8)
    ensures
        r == button_code(b),
{
    match b {
        MouseButton::Left => 0,
        MouseButton::Middle => 1,
        MouseButton::Right => 2,
    }
}

pub fn mouse_event(mode: MouseMode, kind: MouseKind, mods: u8) -> (r: Option<(u8, bool)>)
    ensures
        r == mouse_event_code(mode, kind, mods),
{
    match kind {
        MouseKind::Down(b) => Some((encode_button(b) | mods, false)),
        MouseKind::Up(_) => Some((3u8 | mods, true)),
        MouseKind::Drag(b) => match mode {
            MouseMode::ButtonMotion | MouseMode::AnyMotion => Some((encode_button(b) | 32u8 | mods, false)),
            _ => None,
        },
        MouseKind::Moved => match mode {
            MouseMode::AnyMotion => Some((35u8 | mods, false)),
            _ => None,
        },
        MouseKind::ScrollUp => Some((64u8 | mods, false)),
        MouseKind::ScrollDown => Some((65u8 | mods, false)),
        MouseKind::ScrollLeft => Some((66u8 | mods, false)),
        MouseKind::ScrollRight => Some((67u8 | mods, false)),
    }
}

/// A pointer report: `ESC [ < cb ; x ; y` then `M`, or `m` for a release, in
/// SGR; otherwise `ESC [ M` and the three values each plus 32, or `None`
/// where one of them would not fit in a byte.
pub open spec fn xterm_mouse_bytes(encoding: MouseEncoding, cb: u8, x: u16, y: u16, release: bool) -> Option<Seq<u8>> {
    match encoding {
        MouseEncoding::Sgr => Some(
            seq![27u8, 91, 60] + decimal(cb as nat) + seq![59u8] + decimal(x as nat) + seq![59u8]
                + decimal(y as nat) + seq![if release { 109u8 } else { 77u8 }],
        ),
        _ => if cb + 32 <= 255 && x + 32 <= 255 && y + 32 <= 255 {
            Some(seq![27u8, 91, 77, (cb + 32) as u8, (x + 32) as u8, (y + 32) as u8])
        } else {
            None
        },
    }
}

pub fn encode_xterm_mouse(encoding: MouseEncoding, cb: u8, x: u16, y: u16, release: bool) -> (r: Option<Vec<u8>>)
    ensures
        r matches Some(b) ==> xterm_mouse_bytes(encoding, cb, x, y, release) == Some(b@),
        r is None <==> xterm_mouse_bytes(encoding, cb, x, y, release) is None,
{
    match encoding {
        MouseEncoding::Sgr => {
            let mut out: Vec<u8> = vec![27u8, 91, 60];
            push_decimal(&mut out, cb as u32);
            out.push(59u8);
            push_decimal(&mut out, x as u32);
            out.push(59u8);
            push_decimal(&mut out, y as u32);
            out.push(if release { 109u8 } else { 77u8 });
            proof {
                assert(out@ =~= seq![27u8, 91, 60] + decimal(cb as nat) + seq![59u8] + decimal(x as nat)
                    + seq![59u8] + decimal(y as nat) + seq![if release { 109u8 } else { 77u8 }]);
            }
            Some(out)
        },
        _ => {
            if cb <= 223 && x <= 223 && y <= 223 {
                let out = vec![27u8, 91, 77, cb + 32, (x + 32) as u8, (y + 32) as u8];
                proof {
                    assert(out@ =~= seq![27u8, 91, 77, (cb + 32) as u8, (x + 32) as u8, (y + 32) as u8]);
                }
                Some(out)
            } else {
                None
            }
        },
    }
}

/// The legacy and UTF-8 encodings drop an event whose column or row is past
/// 223, the largest that still fits in a byte after the offset of 32.
pub proof fn lemma_legacy_refuses_wide_coordinates(encoding: MouseEncoding, cb: u8, x: u16, y: u16, release: bool)
    requires
        !(encoding is Sgr),
        x > 223 || y > 223,
    ensures
        xterm_mouse_bytes(encoding, cb, x, y, release) is None,
{
}

/// What a session in `mode` and `encoding` receives for a pointer event at
/// (`column`, `row`) of a full-screen pane `width` by `height` cells with a
/// one-cell border: nothing when it asked for no pointer events, on the
/// border, or when the event is not reported or not representable.
pub open spec fn mouse_report_bytes(
    mode: MouseMode,
    encoding: MouseEncoding,
    kind: MouseKind,
    mods: Modifiers,
    column: u16,
    row: u16,
    width: u16,
    height: u16,
) -> Option<Seq<u8>> {
    if mode is Off || width <= 2 || height <= 2 {
        None
    } else if column == 0 || row == 0 || column >= width - 1 || row >= height - 1 {
        None
    } else {
        match mouse_event_code(mode, kind, modifier_bits(mods)) {
            Some((cb, release)) => xterm_mouse_bytes(encoding, cb, column, row, release),
            None => None,
        }
    }
}

pub fn mouse_report(
    mode: MouseMode,
    encoding: MouseEncoding,
    kind: MouseKind,
    mods: Modifiers,
    column: u16,
    row: u16,
    width: u16,
    height: u16,
) -> (r: Option<Vec<u8>>)
    ensures
        r matches Some(b) ==> mouse_report_bytes(mode, encoding, kind, mods, column, row, width, height) == Some(b@),
        r is None <==> mouse_report_bytes(mode, encoding, kind, mods, column, row, width, height) is None,
{
    if mode == MouseMode::Off || width <= 2 || height <= 2 {
        return None;
    }
    if column == 0 || row == 0 || column >= width - 1 || row >= height - 1 {
        return None;
    }
    match mouse_event(mode, kind, mouse_modifier_bits(mods)) {
        Some((cb, release)) => encode_xterm_mouse(encoding, cb, column, row, release),
        None => None,
    }
}


/// `s` holds a cursor-position request, `ESC [ 6 n`, starting at `i`.
pub open spec fn dsr_at(s: Seq<u8>, i: int) -> bool {
    &&& 0 <= i
    &&& i + 4 <= s.len()
    &&& s[i] == 27u8
    &&& s[i + 1] == 91u8
    &&& s[i + 2] == 54u8
    &&& s[i + 3] == 110u8
}

/// The number of requests in `s` that start before position `n`.
pub open spec fn dsr_count_before(s: Seq<u8>, n: int) -> nat
    decreases n,
{
    if n <= 0 {
        0
    } else {
        dsr_count_before(s, n - 1) + if dsr_at(s, n - 1) { 1nat } else { 0nat }
    }
}

/// The number of requests in `s`.
pub open spec fn dsr_count(s: Seq<u8>) -> nat {
    dsr_count_before(s, s.len() as int)
}

/// The last three bytes of `s`, or all of it when shorter: too short to hold
/// a request, long enough to hold the start of one.
pub open spec fn tail3(s: Seq<u8>) -> Seq<u8> {
    if s.len() <= 3 {
        s
    } else {
        s.subrange(s.len() - 3, s.len() as int)
    }
}

/// Counts the requests in `tail` followed by `chunk`, and returns that count
/// with the bytes to carry over to the next chunk.
pub fn scan_dsr(tail: &Vec<u8>, chunk: &Vec<u8>) -> (r: (usize, Vec<u8>))
    ensures
        r.0 == dsr_count(tail@ + chunk@),
        r.1@ == tail3(tail@ + chunk@),
{
    let mut check: Vec<u8> = Vec::new();
    let mut i: usize = 0;
    while i < tail.len()
        invariant
            i <= tail.len(),
            check@ == tail@.subrange(0, i as int),
        decreases tail.len() - i,
    {
        check.push(tail[i]);
        i = i + 1;
        proof {
            assert(check@ =~= tail@.subrange(0, i as int));
        }
    }
    let mut j: usize = 0;
    while j < chunk.len()
        invariant
            j <= chunk.len(),
            check@ == tail@ + chunk@.subrange(0, j as int),
        decreases chunk.len() - j,
    {
        check.push(chunk[j]);
        j = j + 1;
        proof {
            assert(check@ =~= tail@ + chunk@.subrange(0, j as int));
        }
    }
    proof {
        assert(tail@.subrange(0, tail@.len() as int) =~= tail@);
        assert(chunk@.subrange(0, chunk@.len() as int) =~= chunk@);
    }
    let ghost s = check@;
    let len = check.len();
    let mut count: usize = 0;
    let mut k: usize = 0;
    while k < len
        invariant
            s == check@,
            len == s.len(),
            k <= len,
            count == dsr_count_before(s, k as int),
            count <= k,
        decreases len - k,
    {
        if len - k >= 4 && check[k] == 27u8 && check[k + 1] == 91u8 && check[k + 2] == 54u8
            && check[k + 3] == 110u8 {
            count = count + 1;
        }
        k = k + 1;
    }
    let start: usize = if len > 3 { len - 3 } else { 0 };
    let mut rest: Vec<u8> = Vec::new();
    let mut m: usize = start;
    while m < len
        invariant
            s == check@,
            len == s.len(),
            start <= m <= len,
            rest@ == s.subrange(start as int, m as int),
        decreases len - m,
    {
        rest.push(check[m]);
        m = m + 1;
        proof {
            assert(rest@ =~= s.subrange(start as int, m as int));
        }
    }
    proof {
        if len <= 3 {
            assert(s.subrange(0, len as int) =~= s);
        }
    }
    (count, rest)
}

proof fn lemma_count_prefix(s: Seq<u8>, b: Seq<u8>, n: int)
    requires
        0 <= n,
        n + 3 <= s.len(),
    ensures
        dsr_count_before(s + b, n) == dsr_count_before(s, n),
    decreases n,
{
    if n > 0 {
        lemma_count_prefix(s, b, n - 1);
        assert(dsr_at(s + b, n - 1) == dsr_at(s, n - 1));
    }
}

proof fn lemma_count_no_more(s: Seq<u8>, n: int)
    requires
        0 <= n,
        s.len() <= n + 3,
    ensures
        dsr_count_before(s, n) == dsr_count(s),
    decreases s.len() - n,
{
    if n < s.len() {
        lemma_count_no_more(s, n + 1);
    } else if n > s.len() {
        lemma_count_no_more_down(s, n);
    }
}

proof fn lemma_count_no_more_down(s: Seq<u8>, n: int)
    requires
        s.len() <= n,
    ensures
        dsr_count_before(s, n) == dsr_count(s),
    decreases n - s.len(),
{
    if n > s.len() {
        lemma_count_no_more_down(s, n - 1);
    }
}

proof fn lemma_count_shift(u: Seq<u8>, k: int, n: int)
    requires
        0 <= k <= n,
        k <= u.len(),
    ensures
        dsr_count_before(u, n) == dsr_count_before(u, k) + dsr_count_before(
            u.subrange(k, u.len() as int),
            n - k,
        ),
    decreases n - k,
{
    if n > k {
        lemma_count_shift(u, k, n - 1);
        assert(dsr_at(u, n - 1) == dsr_at(u.subrange(k, u.len() as int), n - 1 - k));
    }
}

/// Carrying the last three bytes of what was scanned over to the next chunk
/// counts every request exactly once, also one split between the chunks:
/// the counts of `s` and of its carried tail followed by `b` add up to the
/// count of `s` followed by `b`.
pub proof fn lemma_dsr_split_counted_once(s: Seq<u8>, b: Seq<u8>)
    ensures
        dsr_count(s) + dsr_count(tail3(s) + b) == dsr_count(s + b),
{
    let u = s + b;
    let k = s.len() - tail3(s).len();
    assert(u.subrange(k, u.len() as int) =~= tail3(s) + b);
    lemma_count_shift(u, k, u.len() as int);
    if k > 0 {
        lemma_count_prefix(s, b, k);
    }
    lemma_count_no_more(s, k);
}

/// The reply to a cursor-position request: `ESC [ row ; col R`, one-based.
pub open spec fn dsr_reply_bytes(row: u16, col: u16) -> Seq<u8> {
    seq![27u8, 91] + decimal(row as nat + 1) + seq![59u8] + decimal(col as nat + 1) + seq![82u8]
}

/// The reply to a cursor-position request for the zero-based cursor (`row`, `col`).
pub fn dsr_reply(row: u16, col: u16) -> (r: Vec<u8>)
    ensures
        r@ == dsr_reply_bytes(row, col),
{
    let mut out: Vec<u8> = vec![27u8, 91];
    push_decimal(&mut out, row as u32 + 1);
    out.push(59u8);
    push_decimal(&mut out, col as u32 + 1);
    out.push(82u8);
    proof {
        assert(out@ =~= dsr_reply_bytes(row, col));
    }
    out
}

} // verus!
