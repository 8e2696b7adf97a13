//! The dashboard: a history of recent readings per quantity, and the integer
//! geometry of the screen it is drawn on.
use vstd::prelude::*;
use crate::decimal::{
    all_digits, digits_value, lemma_zero_padded_width, pow10, push_zero_padded, zero_padded,
};

verus! {

/// Number of readings a history keeps.
pub const HISTORY_LEN: usize = 60;

/// The last `HISTORY_LEN` values of `seen`, oldest first.
pub open spec fn last_readings<T>(seen: Seq<T>) -> Seq<T> {
    if seen.len() > HISTORY_LEN {
        seen.subrange(seen.len() - HISTORY_LEN, seen.len() as int)
    } else {
        seen
    }
}

/// A history after a push: the value is appended and, once `HISTORY_LEN`
/// values are held, the oldest is dropped.
pub open spec fn pushed<T>(h: Seq<T>, value: T) -> Seq<T> {
    if h.len() < HISTORY_LEN {
        h.push(value)
    } else {
        h.drop_first().push(value)
    }
}

/// Where a ring stands: how many readings it holds, and the slot the next
/// reading is written to.
#[derive(Clone, Copy)]
struct RingCursor {
    len: usize,
    head: usize,
}

/// A ring buffer of the latest `HISTORY_LEN` readings.
pub struct History<T> {
    buf: Vec<T>,
    at: RingCursor,
}

impl<T> History<T> {
    /// The ring's shape: a full buffer, a count of readings held, and the slot
    /// of the next write, which while filling up follows the last reading.
    #[verifier::type_invariant]
    spec fn ring_shape(&self) -> bool {
        &&& self.buf.len() == HISTORY_LEN
        &&& self.at.len <= HISTORY_LEN
        &&& self.at.head < HISTORY_LEN
        &&& self.at.len < HISTORY_LEN ==> self.at.head == self.at.len
    }

    closed spec fn start(&self) -> int {
        if self.at.len < HISTORY_LEN { 0 } else { self.at.head as int }
    }

    /// Number of readings the ring holds.
    pub closed spec fn ring_len(&self) -> int {
        self.at.len as int
    }

    /// Slot of the ring that the next reading is written to.
    pub closed spec fn ring_head(&self) -> int {
        self.at.head as int
    }

    /// Slot `i` of the ring.
    pub closed spec fn ring_slot(&self, i: int) -> T {
        self.buf@[i]
    }
}

impl<T> View for History<T> {
    type V = Seq<T>;

    /// The readings held, oldest first.
    closed spec fn view(&self) -> Seq<T> {
        Seq::new(self.at.len as nat, |i: int| self.buf@[(self.start() + i) % (HISTORY_LEN as int)])
    }
}

impl<T: Copy> History<T> {
    /// An empty history; `fill` only occupies the unused slots.
    pub fn new(fill: T) -> (h: History<T>)
        ensures
            h@ == Seq::<T>::empty(),
            h.ring_len() == 0,
            h.ring_head() == 0,
    {
        let mut buf: Vec<T> = Vec::new();
        let mut i: usize = 0;
        while i < HISTORY_LEN
            invariant
                i <= HISTORY_LEN,
                buf@.len() == i,
            decreases HISTORY_LEN - i,
        {
            buf.push(fill);
            i = i + 1;
        }
        let h = History { buf, at: RingCursor { len: 0, head: 0 } };
        assert(h@ =~= Seq::<T>::empty());
        h
    }

    /// Appends a reading, dropping the oldest once the history is full.
    pub fn push(&mut self, value: T)
        ensures
            final(self)@ == pushed(old(self)@, value),
            final(self).ring_len() == (if old(self).ring_len() < HISTORY_LEN {
                old(self).ring_len() + 1
            } else {
                HISTORY_LEN as int
            }),
            final(self).ring_head() == (old(self).ring_head() + 1) % (HISTORY_LEN as int),
            final(self).ring_len() <= HISTORY_LEN,
            final(self).ring_head() < HISTORY_LEN,
            final(self).ring_len() < HISTORY_LEN ==> final(self).ring_head() == final(self).ring_len(),
            final(self).ring_slot(old(self).ring_head()) == value,
            forall|i: int|
                0 <= i < HISTORY_LEN && i != old(self).ring_head() ==> #[trigger] final(self).ring_slot(i)
                    == old(self).ring_slot(i),
    {
        proof {
            use_type_invariant(&*self);
        }
        let ghost before = self@;
        let ghost old_start = self.start();
        let head = self.at.head;
        let len = self.at.len;
        self.buf[head] = value;
        let next_len = if len < HISTORY_LEN { len + 1 } else { len };
        self.at = RingCursor { len: next_len, head: (head + 1) % HISTORY_LEN };
        proof {
            let n = HISTORY_LEN as int;
            if before.len() < HISTORY_LEN {
                assert forall|i: int| 0 <= i < self.at.len implies #[trigger] self@[i] == before.push(
                    value,
                )[i] by {
                    assert((self.start() + i) % n == i);
                }
                assert(self@ =~= before.push(value));
            } else {
                assert forall|i: int| 0 <= i < self.at.len implies #[trigger] self@[i]
                    == before.drop_first().push(value)[i] by {
                    if i < n - 1 {
                        assert((self.start() + i) % n == (old_start + (i + 1)) % n);
                        assert((old_start + (i + 1)) % n != old_start);
                    } else {
                        assert((self.start() + i) % n == old_start);
                    }
                }
                assert(self@ =~= before.drop_first().push(value));
            }
        }
    }

    /// Number of readings held.
    pub fn len(&self) -> (n: usize)
        ensures
            n == self@.len(),
            n <= HISTORY_LEN,
    {
        proof {
            use_type_invariant(self);
        }
        self.at.len
    }

    /// The readings held, oldest first.
    pub fn values_in_order(&self) -> (v: Vec<T>)
        ensures
            v@ == self@,
    {
        proof {
            use_type_invariant(self);
        }
        let len = self.at.len;
        let start = if len < HISTORY_LEN { 0 } else { self.at.head };
        let mut out: Vec<T> = Vec::new();
        let mut i: usize = 0;
        while i < len
            invariant
                self.buf.len() == HISTORY_LEN,
                len == self.at.len,
                len <= HISTORY_LEN,
                self.at.head < HISTORY_LEN,
                i <= len,
                start == self.start(),
                out@ == self@.subrange(0, i as int),
            decreases len - i,
        {
            out.push(self.buf[(start + i) % HISTORY_LEN]);
            i = i + 1;
            assert(out@ =~= self@.subrange(0, i as int));
        }
        assert(out@ =~= self@);
        out
    }
}

/// A history holds exactly the latest `HISTORY_LEN` readings pushed into it:
/// pushing into the latest readings of `seen` gives the latest readings of
/// `seen` followed by the new one.
pub proof fn lemma_history_keeps_latest<T>(seen: Seq<T>, value: T)
    ensures
        pushed(last_readings(seen), value) == last_readings(seen.push(value)),
        last_readings(seen).len() <= HISTORY_LEN,
{
    let n = HISTORY_LEN as int;
    let s2 = seen.push(value);
    if seen.len() < n {
        assert(pushed(last_readings(seen), value) =~= last_readings(s2));
    } else if seen.len() == n {
        assert(last_readings(seen) =~= seen);
        assert(pushed(last_readings(seen), value) =~= last_readings(s2));
    } else {
        assert(pushed(last_readings(seen), value) =~= last_readings(s2));
    }
}

/// A history after pushing `values` one by one into one holding `h`.
pub open spec fn pushed_all<T>(h: Seq<T>, values: Seq<T>) -> Seq<T>
    decreases values.len(),
{
    if values.len() == 0 {
        h
    } else {
        pushed(pushed_all(h, values.drop_last()), values.last())
    }
}

/// Pushing readings one by one into an empty history leaves the latest
/// `HISTORY_LEN` of them, oldest first; so after a new dashboard and `k`
/// updates, each of its histories holds the last `min(k, 60)` readings given.
pub proof fn lemma_history_after_pushes<T>(values: Seq<T>)
    ensures
        pushed_all(Seq::<T>::empty(), values) == last_readings(values),
    decreases values.len(),
{
    if values.len() > 0 {
        let pre = values.drop_last();
        lemma_history_after_pushes(pre);
        lemma_history_keeps_latest(pre, values.last());
        assert(pre.push(values.last()) =~= values);
    }
}

/// The dashboard's state: one history per quantity shown.
pub struct Dashboard<T> {
    pub temp_history: History<T>,
    pub humidity_history: History<T>,
    pub pressure_history: History<T>,
}

impl<T: Copy> Dashboard<T> {
    /// A dashboard with empty histories.
    pub fn new(fill: T) -> (d: Dashboard<T>)
        ensures
            d.temp_history@ == Seq::<T>::empty(),
            d.humidity_history@ == Seq::<T>::empty(),
            d.pressure_history@ == Seq::<T>::empty(),
            d.temp_history.ring_len() == 0 && d.temp_history.ring_head() == 0,
            d.humidity_history.ring_len() == 0 && d.humidity_history.ring_head() == 0,
            d.pressure_history.ring_len() == 0 && d.pressure_history.ring_head() == 0,
    {
        Dashboard {
            temp_history: History::new(fill),
            humidity_history: History::new(fill),
            pressure_history: History::new(fill),
        }
    }

    /// Records one reading of each quantity; the screen is then redrawn from
    /// the histories.
    pub fn update(&mut self, temp_c: T, humidity_pct: T, pressure_hpa: T)
        ensures
            final(self).temp_history@ == pushed(old(self).temp_history@, temp_c),
            final(self).humidity_history@ == pushed(old(self).humidity_history@, humidity_pct),
            final(self).pressure_history@ == pushed(old(self).pressure_history@, pressure_hpa),
    {
        self.temp_history.push(temp_c);
        self.humidity_history.push(humidity_pct);
        self.pressure_history.push(pressure_hpa);
    }
}


/// Width of the screen in landscape orientation, in pixels.
pub const SCREEN_WIDTH: i32 = 320;

/// Height of the header bar.
pub const HEADER_HEIGHT: i32 = 24;

/// Height of each of the three rows that share the 216 pixels below the header.
pub const ROW_HEIGHT: i32 = 72;

/// A pixel position.
#[derive(Clone, Copy, Debug, PartialEq, Eq, Structural)]
pub struct Point {
    pub x: i32,
    pub y: i32,
}

/// A rectangle by its top-left corner and size.
#[derive(Clone, Copy, Debug, PartialEq, Eq, Structural)]
pub struct Rect {
    pub x: i32,
    pub y: i32,
    pub width: u32,
    pub height: u32,
}

/// The state of the Wi-Fi link, as the header shows it.
#[derive(Clone, Copy, Debug, PartialEq, Eq, Structural)]
pub enum WifiLink {
    Off,
    Connecting,
    Connected,
}

/// Whether the Wi-Fi icon is drawn at animation frame `anim_frame`: always
/// once connected, on even frames while connecting (it blinks), never when off.
pub fn wifi_icon_shown(link: WifiLink, anim_frame: usize) -> (shown: bool)
    ensures
        shown == (link == WifiLink::Connected || (link == WifiLink::Connecting && anim_frame % 2 == 0)),
{
    match link {
        WifiLink::Connected => true,
        WifiLink::Connecting => anim_frame % 2 == 0,
        WifiLink::Off => false,
    }
}

/// The icon at the start of a row.
#[derive(Clone, Copy, Debug, PartialEq, Eq, Structural)]
pub enum IconKind {
    Thermometer,
    Droplet,
    Pressure,
}

/// Where the parts of a row go.
#[derive(Clone, Copy, Debug, PartialEq, Eq, Structural)]
pub struct RowLayout {
    /// Top-left corner of the icon.
    pub icon: Point,
    /// Origin of the big number, drawn at twice the font size.
    pub number: Point,
    /// Frame of the sparkline graph.
    pub graph: Rect,
}

/// Top edge of row `row` (0, 1 or 2) below the header.
pub fn row_top(row: i32) -> (y: i32)
    requires
        i32::MIN <= row * ROW_HEIGHT <= i32::MAX - HEADER_HEIGHT,
    ensures
        y == HEADER_HEIGHT + row * ROW_HEIGHT,
{
    HEADER_HEIGHT + row * ROW_HEIGHT
}

/// The layout of a row whose top edge is `row_top`.
pub fn row_layout(row_top: i32, icon: IconKind) -> (r: RowLayout)
    requires
        row_top <= i32::MAX - 34,
    ensures
        r.icon.x == 6,
        r.icon.y == row_top + match icon {
            IconKind::Thermometer => 24int,
            IconKind::Droplet => 26int,
            IconKind::Pressure => 34int,
        },
        r.number.x == 54,
        r.number.y == row_top + (ROW_HEIGHT - 40) / 2 + 10,
        r.graph.x == 198,
        r.graph.y == row_top + 8,
        r.graph.width == 116,
        r.graph.height == ROW_HEIGHT - 16,
{
    let icon_dy: i32 = match icon {
        IconKind::Thermometer => 24,
        IconKind::Droplet => 26,
        IconKind::Pressure => 34,
    };
    RowLayout {
        icon: Point { x: 6, y: row_top + icon_dy },
        number: Point { x: 54, y: row_top + (ROW_HEIGHT - 40) / 2 + 10 },
        graph: Rect { x: 198, y: row_top + 8, width: 116, height: (ROW_HEIGHT - 16) as u32 },
    }
}

/// The plot area of a sparkline: the frame inset by 2 pixels on each side
/// (a frame narrower than 4 pixels leaves an empty area).
pub fn sparkline_inner(outer: Rect) -> (r: Rect)
    requires
        outer.x <= i32::MAX - 2,
        outer.y <= i32::MAX - 2,
    ensures
        r.x == outer.x + 2,
        r.y == outer.y + 2,
        r.width == (if outer.width >= 4 { outer.width - 4 } else { 0 }),
        r.height == (if outer.height >= 4 { outer.height - 4 } else { 0 }),
{
    Rect {
        x: outer.x + 2,
        y: outer.y + 2,
        width: outer.width.saturating_sub(4),
        height: outer.height.saturating_sub(4),
    }
}

/// Integer division rounding toward zero, as `i32` division does.
pub open spec fn div_toward_zero(a: int, b: int) -> int {
    if a >= 0 { a / b } else { -((-a) / b) }
}

/// Number of gaps between `n` sparkline points (at least one).
pub open spec fn sparkline_gaps(n: int) -> int {
    if n - 1 > 1 { n - 1 } else { 1 }
}

/// Horizontal position of point `i` of `n` in a sparkline: the points are
/// spread evenly from the left edge to the right edge of the plot area (whose
/// width is taken as an `i32`).
pub open spec fn sparkline_x_spec(inner: Rect, i: int, n: int) -> int {
    inner.x + div_toward_zero(i * (inner.width as i32), sparkline_gaps(n))
}

/// The horizontal position of point `i` of `n` (`i < n <= HISTORY_LEN`).
pub fn sparkline_x(inner: Rect, i: usize, n: usize) -> (x: i32)
    requires
        i < n <= HISTORY_LEN,
        i32::MIN <= i * (inner.width as i32) <= i32::MAX,
        i32::MIN <= sparkline_x_spec(inner, i as int, n as int) <= i32::MAX,
    ensures
        x == sparkline_x_spec(inner, i as int, n as int),
{
    let w = inner.width as i32;
    let last = n as i32 - 1;
    let gaps = if last > 1 { last } else { 1 };
    inner.x + (i as i32 * w) / gaps
}

/// Vertical position of a sparkline point that lies `dy` pixels above the
/// middle of the plot area, held inside the area.
pub open spec fn sparkline_y_spec(inner: Rect, dy: int) -> int {
    let h = (inner.height as i32) as int;
    let top = inner.y as int;
    let y = top + h / 2 - dy;
    if y < top {
        top
    } else if y > top + h {
        top + h
    } else {
        y
    }
}

/// The vertical position of a point `dy` pixels above the middle line.
pub fn sparkline_y(inner: Rect, dy: i32) -> (y: i32)
    requires
        0 <= (inner.height as i32),
        inner.y + (inner.height as i32) <= i32::MAX,
        i32::MIN <= inner.y + (inner.height as i32) / 2 - dy <= i32::MAX,
    ensures
        y == sparkline_y_spec(inner, dy as int),
        inner.y <= y <= inner.y + (inner.height as i32),
{
    let h = inner.height as i32;
    let mid_y = inner.y + h / 2;
    let y = mid_y - dy;
    let top = inner.y;
    let bottom = inner.y + h;
    if y < top {
        top
    } else if y > bottom {
        bottom
    } else {
        y
    }
}

/// The uptime clock of the header, "HH:MM": hours modulo 100 and minutes.
pub open spec fn header_clock_text(uptime_secs: u64) -> Seq<u8> {
    zero_padded(((uptime_secs / 3600) % 100) as nat, 2) + seq![58u8] + zero_padded(
        ((uptime_secs % 3600) / 60) as nat,
        2,
    )
}

/// The header clock reads back as the uptime's whole hours modulo 100 and
/// the minutes within the hour: five bytes, two digits, ':', two digits.
pub proof fn lemma_header_clock_reads_back(uptime_secs: u64)
    ensures
        ({
            let text = header_clock_text(uptime_secs);
            &&& text.len() == 5
            &&& text[2] == 58u8
            &&& all_digits(text.subrange(0, 2))
            &&& all_digits(text.subrange(3, 5))
            &&& digits_value(text.subrange(0, 2)) == (uptime_secs / 3600) % 100
            &&& digits_value(text.subrange(3, 5)) == (uptime_secs % 3600) / 60
        }),
{
    let h = ((uptime_secs / 3600) % 100) as nat;
    let m = ((uptime_secs % 3600) / 60) as nat;
    reveal_with_fuel(pow10, 3);
    lemma_zero_padded_width(h, 2);
    lemma_zero_padded_width(m, 2);
    let text = header_clock_text(uptime_secs);
    assert(text.subrange(0, 2) =~= zero_padded(h, 2));
    assert(text.subrange(3, 5) =~= zero_padded(m, 2));
}

/// Formats the header's uptime clock.
pub fn format_header_clock(uptime_secs: u64) -> (text: Vec<u8>)
    ensures
        text@ == header_clock_text(uptime_secs),
        text@.len() == 5,
        text@[2] == 58u8,
        all_digits(text@.subrange(0, 2)),
        all_digits(text@.subrange(3, 5)),
        digits_value(text@.subrange(0, 2)) == (uptime_secs / 3600) % 100,
        digits_value(text@.subrange(3, 5)) == (uptime_secs % 3600) / 60,
{
    proof {
        lemma_header_clock_reads_back(uptime_secs);
    }
    let h = (uptime_secs / 3600) % 100;
    let m = (uptime_secs % 3600) / 60;
    let mut out: Vec<u8> = Vec::new();
    push_zero_padded(&mut out, h, 2);
    out.push(58u8);
    push_zero_padded(&mut out, m, 2);
    assert(out@ =~= header_clock_text(uptime_secs));
    out
}

/// The block of the screen that pixel `pos` of a text drawn `scale` times
/// larger covers, when the text's origin is `offset`.
pub fn scaled_block(offset: Point, pos: Point, scale: i32) -> (r: Rect)
    requires
        i32::MIN <= pos.x * scale <= i32::MAX,
        i32::MIN <= pos.y * scale <= i32::MAX,
        i32::MIN <= offset.x + pos.x * scale <= i32::MAX,
        i32::MIN <= offset.y + pos.y * scale <= i32::MAX,
    ensures
        r.x == offset.x + pos.x * scale,
        r.y == offset.y + pos.y * scale,
        r.width == scale as u32,
        r.height == scale as u32,
{
    let x = offset.x + pos.x * scale;
    let y = offset.y + pos.y * scale;
    Rect { x, y, width: scale as u32, height: scale as u32 }
}

/// Width of bar `i` of the pressure icon: 24, 18 and 12 pixels.
pub open spec fn pressure_bar_width(i: int) -> int {
    if i == 0 { 24 } else if i == 1 { 18 } else { 12 }
}

/// Bar `i` (0, 1 or 2) of the pressure icon: bars of falling width, centred,
/// 10 pixels apart; its left and right end points.
pub fn pressure_bar(top_left: Point, i: usize) -> (r: (Point, Point))
    requires
        i < 3,
        top_left.x + (24 - pressure_bar_width(i as int)) / 2 + pressure_bar_width(i as int) <= i32::MAX,
        top_left.y + 10 * i <= i32::MAX,
    ensures
        ({
            let w = pressure_bar_width(i as int);
            &&& r.0.x == top_left.x + (24 - w) / 2
            &&& r.0.y == top_left.y + 10 * i
            &&& r.1.x == top_left.x + ((24 - w) / 2 + w)
            &&& r.1.y == top_left.y + 10 * i
        }),
{
    let w: i32 = if i == 0 { 24 } else if i == 1 { 18 } else { 12 };
    let y = i as i32 * 10;
    let x_offset = (24 - w) / 2;
    (
        Point { x: top_left.x + x_offset, y: top_left.y + y },
        Point { x: top_left.x + (x_offset + w), y: top_left.y + y },
    )
}

/// Diameter of arc `i` of the Wi-Fi icon: 6, 12 and 18 pixels.
pub open spec fn wifi_arc_diameter(i: int) -> int {
    if i == 0 { 6 } else if i == 1 { 12 } else { 18 }
}

/// Arc `i` (0, 1 or 2) of the Wi-Fi icon: growing arcs, centred horizontally
/// and stacked upwards; the top-left corner of its bounding box and its diameter.
pub fn wifi_arc(top_left: Point, i: usize) -> (r: (Point, u32))
    requires
        i < 3,
        top_left.x + (18 - wifi_arc_diameter(i as int)) / 2 <= i32::MAX,
        i32::MIN <= top_left.y + (18 - wifi_arc_diameter(i as int) - 2 * i) <= i32::MAX,
    ensures
        ({
            let d = wifi_arc_diameter(i as int);
            &&& r.0.x == top_left.x + (18 - d) / 2
            &&& r.0.y == top_left.y + (18 - d - 2 * i)
            &&& r.1 == d
        }),
{
    let d: i32 = if i == 0 { 6 } else if i == 1 { 12 } else { 18 };
    let inset = (18 - d) / 2;
    (Point { x: top_left.x + inset, y: top_left.y + (18 - d - 2 * i as i32) }, d as u32)
}

} // verus!
