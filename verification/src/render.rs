use vstd::prelude::*;
use vstd::string::StringExecFns;

verus! {

/// Where the pixel of row `y`, column `c` sits in a row-major buffer of
/// `width` columns.
pub open spec fn pixel_index(width: int, y: int, c: int) -> int {
    y * width + c
}

/// A pixel index of a `width` × `rows` buffer lies inside it.
pub proof fn lemma_pixel_index_bounds(width: int, rows: int, y: int, c: int)
    requires
        0 <= y < rows,
        0 <= c < width,
    ensures
        0 <= pixel_index(width, y, c) < width * rows,
        pixel_index(width, y, c) < (y + 1) * width,
{
    assert(0 <= y * width) by (nonlinear_arith)
        requires
            0 <= y,
            0 <= c < width,
    ;
    assert(y * width + c < (y + 1) * width) by (nonlinear_arith)
        requires
            c < width,
    ;
    assert((y + 1) * width <= width * rows) by (nonlinear_arith)
        requires
            y + 1 <= rows,
            0 <= width,
    ;
}

/// Distinct cells of a buffer `width` columns wide have distinct indices.
pub proof fn lemma_pixel_index_unique(width: int, y1: int, c1: int, y2: int, c2: int)
    requires
        0 <= y1,
        0 <= y2,
        0 <= c1 < width,
        0 <= c2 < width,
    ensures
        (pixel_index(width, y1, c1) == pixel_index(width, y2, c2)) == (y1 == y2 && c1 == c2),
{
    if y1 < y2 {
        assert(y1 * width + c1 < y2 * width + c2) by (nonlinear_arith)
            requires
                y1 + 1 <= y2,
                0 <= c1 < width,
                0 <= c2,
        ;
    } else if y2 < y1 {
        assert(y2 * width + c2 < y1 * width + c1) by (nonlinear_arith)
            requires
                y2 + 1 <= y1,
                0 <= c2 < width,
                0 <= c1,
        ;
    }
}

/// The colour of row `y` of a traced column whose wall covers the rows from
/// `start` up to `end`: the ceiling gradient above the wall, indexed by the
/// distance to the wall's top, and the floor gradient below it, indexed by the
/// distance to its bottom.
pub open spec fn column_pixel(
    y: int,
    start: int,
    end: int,
    wall: u8,
    ceiling: Seq<u8>,
    floor: Seq<u8>,
) -> u8 {
    if y >= end {
        floor[y - end]
    } else if y >= start {
        wall
    } else {
        ceiling[start - y]
    }
}

/// The decimal digit `d` as a character.
pub open spec fn digit_char(d: int) -> char {
    (48 + d) as char
}

/// The decimal notation of `n`, without leading zeros.
pub open spec fn decimal(n: u8) -> Seq<char> {
    let v = n as int;
    if v >= 100 {
        seq![digit_char(v / 100), digit_char((v / 10) % 10), digit_char(v % 10)]
    } else if v >= 10 {
        seq![digit_char(v / 10), digit_char(v % 10)]
    } else {
        seq![digit_char(v)]
    }
}

/// `String::push` from std: appends one character.
#[verifier::external_body]
fn push_char(s: &mut String, c: char)
    ensures
        final(s)@ == old(s)@.push(c),
{
    s.push(c);
}

/// `String::clear` from std: removes every character.
#[verifier::external_body]
fn clear_string(s: &mut String)
    ensures
        final(s)@ == Seq::<char>::empty(),
{
    s.clear();
}

/// `String::capacity` from std. What the allocator gave is left unsaid.
#[verifier::external_body]
fn string_capacity(s: &String) -> (cap: usize) {
    s.capacity()
}

/// `String::reserve` from std: makes room, and leaves the characters as they
/// are. It panics when the new capacity would pass `isize::MAX` bytes, which
/// an empty string and `additional <= isize::MAX` rule out.
#[verifier::external_body]
fn reserve_string(s: &mut String, additional: usize)
    requires
        old(s)@.len() == 0,
        additional <= isize::MAX,
    ensures
        final(s)@ == old(s)@,
{
    s.reserve(additional);
}

fn digit(d: u8) -> (c: char)
    requires
        d < 10,
    ensures
        c == digit_char(d as int),
{
    let c = (48u8 + d) as char;
    c
}

/// Appends the decimal notation of `n`.
fn push_decimal(s: &mut String, n: u8)
    ensures
        final(s)@ == old(s)@ + decimal(n),
{
    if n >= 100 {
        push_char(s, digit(n / 100));
        push_char(s, digit((n / 10) % 10));
        push_char(s, digit(n % 10));
    } else if n >= 10 {
        push_char(s, digit(n / 10));
        push_char(s, digit(n % 10));
    } else {
        push_char(s, digit(n));
    }
    assert(final(s)@ =~= old(s)@ + decimal(n));
}

/// `a * b`, or `usize::MAX` where that does not fit.
fn saturating_mul(a: usize, b: usize) -> (r: usize)
    ensures
        r == if a * b <= usize::MAX {
            a * b
        } else {
            usize::MAX as int
        },
{
    match a.checked_mul(b) {
        Some(v) => v,
        None => usize::MAX,
    }
}

/// The colour of the upper half of terminal cell (`x`, `y`): pixel row `2y`.
pub open spec fn upper_pixel(pixels: Seq<u8>, width: int, y: int, x: int) -> u8 {
    pixels[pixel_index(width, 2 * y, x)]
}

/// The colour of the lower half of terminal cell (`x`, `y`): pixel row `2y + 1`.
pub open spec fn lower_pixel(pixels: Seq<u8>, width: int, y: int, x: int) -> u8 {
    pixels[pixel_index(width, 2 * y + 1, x)]
}

/// The (foreground, background) pair that terminal cell (`x`, `y`) shows.
pub open spec fn cell_colors(pixels: Seq<u8>, width: int, y: int, x: int) -> (u8, u8) {
    (upper_pixel(pixels, width, y, x), lower_pixel(pixels, width, y, x))
}

/// The colours the encoder has set before cell (`x`, `y`): those of the cell
/// to its left, or none at the start of a row, which follows a colour reset.
pub open spec fn colors_before(pixels: Seq<u8>, width: int, y: int, x: int) -> Option<(u8, u8)> {
    if x == 0 {
        None
    } else {
        Some(cell_colors(pixels, width, y, x - 1))
    }
}

/// Whether the encoder emits a colour change at cell (`x`, `y`): at the start
/// of every row, and wherever the colours differ from the cell to the left.
pub open spec fn sets_colors(pixels: Seq<u8>, width: int, y: int, x: int) -> bool {
    colors_before(pixels, width, y, x) != Some(cell_colors(pixels, width, y, x))
}

/// The escape sequence that sets 256-colour foreground `fg` and background `bg`.
pub open spec fn color_sequence(fg: u8, bg: u8) -> Seq<char> {
    "\x1b[38;5;"@ + decimal(fg) + "m\x1b[48;5;"@ + decimal(bg) + "m"@
}

/// The text of one cell: a colour change where one is needed, then `▀`.
pub open spec fn cell_text(pixels: Seq<u8>, width: int, y: int, x: int) -> Seq<char> {
    let (fg, bg) = cell_colors(pixels, width, y, x);
    (if sets_colors(pixels, width, y, x) {
        color_sequence(fg, bg)
    } else {
        Seq::empty()
    }) + seq!['\u{2580}']
}

/// The text of the first `n` cells of terminal row `y`.
pub open spec fn row_text(pixels: Seq<u8>, width: int, y: int, n: nat) -> Seq<char>
    decreases n,
{
    if n == 0 {
        Seq::empty()
    } else {
        row_text(pixels, width, y, (n - 1) as nat) + cell_text(pixels, width, y, n - 1)
    }
}

/// What ends one terminal row and starts the next: reset colours, new line.
pub open spec fn row_break() -> Seq<char> {
    "\x1b[0m\r\n"@
}

/// The text of the first `k` terminal rows, `width` cells each, separated by
/// row breaks.
pub open spec fn rows_text(pixels: Seq<u8>, width: int, k: nat) -> Seq<char>
    decreases k,
{
    if k == 0 {
        Seq::empty()
    } else {
        rows_text(pixels, width, (k - 1) as nat) + (if k > 1 {
            row_break()
        } else {
            Seq::empty()
        }) + row_text(pixels, width, k - 1, width as nat)
    }
}

/// A whole frame of `height` terminal rows: cursor home, the rows, and a final
/// colour reset.
pub open spec fn frame_text(pixels: Seq<u8>, width: int, height: nat) -> Seq<char> {
    "\x1b[H"@ + rows_text(pixels, width, height) + "\x1b[0m"@
}

/// A traced column paints, from the top: the ceiling gradient down to the
/// wall's top, indexed by each row's distance to that top (so the index drops
/// by one per row going down), the wall colour from `start` up to `end`, and
/// the floor gradient from `end` down, indexed by the distance to `end`.
pub proof fn lemma_column_rows(
    y: int,
    start: int,
    end: int,
    wall: u8,
    ceiling: Seq<u8>,
    floor: Seq<u8>,
)
    requires
        0 <= y,
    ensures
        y < start && y < end ==> column_pixel(y, start, end, wall, ceiling, floor) == ceiling[start
            - y],
        y + 1 < start && y + 1 < end ==> column_pixel(y + 1, start, end, wall, ceiling, floor)
            == ceiling[(start - y) - 1],
        start <= y < end ==> column_pixel(y, start, end, wall, ceiling, floor) == wall,
        end <= y ==> column_pixel(y, start, end, wall, ceiling, floor) == floor[y - end],
{
}

/// What a [`Renderer`] holds: the pixel buffer (row-major, two pixel rows per
/// terminal row), the last encoded frame, the terminal size seen last, and
/// whether the screen must be cleared before the next frame.
pub struct RendererView {
    pub pixels: Seq<u8>,
    pub output: Seq<char>,
    pub last_size: (u16, u16),
    pub dirty: bool,
}

impl RendererView {
    /// Whether a frame of terminal size `size` must start by clearing the
    /// screen: when asked for, or when the size changed since the last frame.
    pub open spec fn needs_clear(self, size: (u16, u16)) -> bool {
        self.dirty || self.last_size != size
    }

    /// The state once a frame of terminal size `size` has been started.
    pub open spec fn sized(self, size: (u16, u16)) -> RendererView {
        RendererView { last_size: size, dirty: false, ..self }
    }

    /// The state once a clear of the screen has been asked for.
    pub open spec fn invalidated(self) -> RendererView {
        RendererView { dirty: true, ..self }
    }
}

/// Turns a pixel buffer into one ANSI frame of half-block characters.
#[derive(Debug)]
pub struct Renderer {
    pixels: Vec<u8>,
    output: String,
    last_size: (u16, u16),
    dirty: bool,
}

impl View for Renderer {
    type V = RendererView;

    closed spec fn view(&self) -> RendererView {
        RendererView {
            pixels: self.pixels@,
            output: self.output@,
            last_size: self.last_size,
            dirty: self.dirty,
        }
    }
}

impl Renderer {
    /// An empty renderer whose first frame clears the screen.
    pub fn new() -> (r: Self)
        ensures
            r@ == (RendererView {
                pixels: Seq::empty(),
                output: Seq::empty(),
                last_size: (0u16, 0u16),
                dirty: true,
            }),
    {
        Renderer { pixels: Vec::new(), output: String::new(), last_size: (0, 0), dirty: true }
    }

    /// Asks for the screen to be cleared before the next frame.
    pub fn invalidate(&mut self)
        ensures
            final(self)@ == old(self)@.invalidated(),
    {
        self.dirty = true;
    }

    /// Whether a frame of terminal size `size` must start by clearing the screen.
    pub fn needs_clear(&self, size: (u16, u16)) -> (clear: bool)
        ensures
            clear == self@.needs_clear(size),
    {
        self.dirty || self.last_size.0 != size.0 || self.last_size.1 != size.1
    }

    /// Records the terminal size of the frame about to be drawn. Returns whether
    /// the screen must be cleared first: when asked for, or when the size changed.
    pub fn note_size(&mut self, size: (u16, u16)) -> (clear: bool)
        ensures
            clear == old(self)@.needs_clear(size),
            final(self)@ == old(self)@.sized(size),
    {
        if self.dirty || self.last_size.0 != size.0 || self.last_size.1 != size.1 {
            self.last_size = size;
            self.dirty = false;
            true
        } else {
            false
        }
    }

    /// Sizes the pixel buffer for `width` columns of `double_height` pixels: the
    /// pixels already there keep their places and new ones are 0.
    pub fn resize_pixels(&mut self, width: usize, double_height: usize)
        requires
            width * double_height <= usize::MAX,
        ensures
            final(self)@.pixels.len() == width * double_height,
            forall|i: int|
                0 <= i < width * double_height ==> #[trigger] final(self)@.pixels[i] == if i
                    < old(self)@.pixels.len() {
                    old(self)@.pixels[i]
                } else {
                    0u8
                },
            final(self)@.output == old(self)@.output,
            final(self)@.last_size == old(self)@.last_size,
            final(self)@.dirty == old(self)@.dirty,
    {
        let len = width * double_height;
        self.pixels.resize(len, 0);
        proof {
            assert forall|i: int| 0 <= i < len implies #[trigger] self.pixels@[i] == if i
                < old(self)@.pixels.len() {
                old(self)@.pixels[i]
            } else {
                0u8
            } by {
                if i < old(self)@.pixels.len() {
                    if len > old(self)@.pixels.len() {
                        assert(self.pixels@.subrange(0, old(self)@.pixels.len() as int)[i]
                            == self.pixels@[i]);
                    }
                }
            }
        }
    }

    /// Sizes the pixel buffer for a terminal of `size` = (columns, rows), two
    /// pixel rows per terminal row, and returns (columns, pixel rows); returns
    /// `None` and changes nothing when the terminal has no cells.
    pub fn fit_pixels(&mut self, size: (u16, u16)) -> (dims: Option<(usize, usize)>)
        requires
            size.0 * (2 * size.1) <= usize::MAX,
        ensures
            size.0 == 0 || size.1 == 0 ==> dims is None && final(self)@ == old(self)@,
            size.0 != 0 && size.1 != 0 ==> {
                &&& dims == Some((size.0 as usize, (2 * size.1) as usize))
                &&& final(self)@.pixels.len() == size.0 * (2 * size.1)
                &&& forall|i: int|
                    0 <= i < size.0 * (2 * size.1) ==> #[trigger] final(self)@.pixels[i] == if i
                        < old(self)@.pixels.len() {
                        old(self)@.pixels[i]
                    } else {
                        0u8
                    }
                &&& final(self)@.output == old(self)@.output
                &&& final(self)@.last_size == old(self)@.last_size
                &&& final(self)@.dirty == old(self)@.dirty
            },
    {
        let width = size.0 as usize;
        let height = size.1 as usize;
        if width == 0 || height == 0 {
            return None;
        }
        let double_height = height * 2;
        self.resize_pixels(width, double_height);
        Some((width, double_height))
    }

    /// Paints column `x` of a `width` × `double_height` pixel buffer: the
    /// ceiling gradient above row `start`, the wall colour from `start` up to
    /// `end`, the floor gradient from `end` down.
    pub fn paint_column(
        &mut self,
        width: usize,
        double_height: usize,
        x: usize,
        start: usize,
        end: usize,
        wall: u8,
        ceiling: &[u8],
        floor: &[u8],
    )
        requires
            old(self)@.pixels.len() >= width * double_height,
            x < width,
            start <= double_height,
            end <= double_height,
            start < ceiling@.len(),
            double_height <= end + floor@.len(),
        ensures
            final(self)@.pixels.len() == old(self)@.pixels.len(),
            forall|i: int|
                width * double_height <= i < old(self)@.pixels.len() ==> #[trigger] final(self)@.pixels[i]
                    == old(self)@.pixels[i],
            forall|y: int, c: int|
                0 <= y < double_height && 0 <= c < width ==> #[trigger] final(self)@.pixels[pixel_index(
                    width as int,
                    y,
                    c,
                )] == if c == x {
                    column_pixel(y, start as int, end as int, wall, ceiling@, floor@)
                } else {
                    old(self)@.pixels[pixel_index(width as int, y, c)]
                },
            forall|y: int|
                0 <= y && y < start && y < end ==> #[trigger] final(self)@.pixels[pixel_index(
                    width as int,
                    y,
                    x as int,
                )] == ceiling@[start - y],
            forall|y: int|
                start <= y < end ==> #[trigger] final(self)@.pixels[pixel_index(
                    width as int,
                    y,
                    x as int,
                )] == wall,
            forall|y: int|
                end <= y < double_height ==> #[trigger] final(self)@.pixels[pixel_index(
                    width as int,
                    y,
                    x as int,
                )] == floor@[y - end],
            final(self)@.output == old(self)@.output,
            final(self)@.last_size == old(self)@.last_size,
            final(self)@.dirty == old(self)@.dirty,
    {
        let ghost w = width as int;
        let ghost before = self.pixels@;
        let mut y: usize = 0;
        while y < start
            invariant
                y <= start <= double_height,
                x < width,
                w == width,
                before.len() >= width * double_height,
                forall|i: int|
                    width * double_height <= i < before.len() ==> #[trigger] self.pixels@[i]
                        == before[i],
                self.pixels@.len() == before.len(),
                self.output@ == old(self)@.output,
                self.last_size == old(self)@.last_size,
                self.dirty == old(self)@.dirty,
                start < ceiling@.len(),
                forall|r: int, c: int|
                    0 <= r < double_height && 0 <= c < width ==> #[trigger] self.pixels@[pixel_index(w, r, c)]
                        == if c == x && r < y {
                        ceiling@[start - r]
                    } else {
                        before[pixel_index(w, r, c)]
                    },
            decreases start - y,
        {
            proof {
                lemma_pixel_index_bounds(w, double_height as int, y as int, x as int);
            }
            let len = self.pixels.len();
            assert(y * width + x < len);
            let idx = y * width + x;
            let ghost prev = self.pixels@;
            self.pixels.set(idx, ceiling[start - y]);
            proof {
                assert forall|r: int, c: int|
                    0 <= r < double_height && 0 <= c < width implies #[trigger] self.pixels@[pixel_index(w, r, c)]
                        == if c == x && r < y + 1 {
                        ceiling@[start - r]
                    } else {
                        before[pixel_index(w, r, c)]
                    } by {
                    lemma_pixel_index_unique(w, r, c, y as int, x as int);
                    lemma_pixel_index_bounds(w, double_height as int, r, c);
                    assert(idx == pixel_index(w, y as int, x as int));
                    assert(prev[pixel_index(w, r, c)] == if c == x && r < y {
                        ceiling@[start - r]
                    } else {
                        before[pixel_index(w, r, c)]
                    });
                }
            }
            y += 1;
        }
        let mut y: usize = start;
        while y < end
            invariant
                start <= y,
                y <= end || y == start,
                end <= double_height,
                start <= double_height,
                x < width,
                w == width,
                before.len() >= width * double_height,
                forall|i: int|
                    width * double_height <= i < before.len() ==> #[trigger] self.pixels@[i]
                        == before[i],
                self.pixels@.len() == before.len(),
                self.output@ == old(self)@.output,
                self.last_size == old(self)@.last_size,
                self.dirty == old(self)@.dirty,
                start < ceiling@.len(),
                forall|r: int, c: int|
                    0 <= r < double_height && 0 <= c < width ==> #[trigger] self.pixels@[pixel_index(w, r, c)]
                        == if c == x && start <= r < y {
                        wall
                    } else if c == x && r < start {
                        ceiling@[start - r]
                    } else {
                        before[pixel_index(w, r, c)]
                    },
            decreases end - y,
        {
            proof {
                lemma_pixel_index_bounds(w, double_height as int, y as int, x as int);
            }
            let len = self.pixels.len();
            assert(y * width + x < len);
            let idx = y * width + x;
            let ghost prev = self.pixels@;
            self.pixels.set(idx, wall);
            proof {
                assert forall|r: int, c: int|
                    0 <= r < double_height && 0 <= c < width implies #[trigger] self.pixels@[pixel_index(w, r, c)]
                        == if c == x && start <= r < y + 1 {
                        wall
                    } else if c == x && r < start {
                        ceiling@[start - r]
                    } else {
                        before[pixel_index(w, r, c)]
                    } by {
                    lemma_pixel_index_unique(w, r, c, y as int, x as int);
                    lemma_pixel_index_bounds(w, double_height as int, r, c);
                    assert(idx == pixel_index(w, y as int, x as int));
                    assert(prev[pixel_index(w, r, c)] == if c == x && start <= r < y {
                        wall
                    } else if c == x && r < start {
                        ceiling@[start - r]
                    } else {
                        before[pixel_index(w, r, c)]
                    });
                }
            }
            y += 1;
        }
        let ghost top = if start <= end { end as int } else { start as int };
        assert(y == top);
        let mut y: usize = end;
        while y < double_height
            invariant
                end <= y <= double_height,
                start <= double_height,
                x < width,
                w == width,
                before.len() >= width * double_height,
                forall|i: int|
                    width * double_height <= i < before.len() ==> #[trigger] self.pixels@[i]
                        == before[i],
                self.pixels@.len() == before.len(),
                self.output@ == old(self)@.output,
                self.last_size == old(self)@.last_size,
                self.dirty == old(self)@.dirty,
                start < ceiling@.len(),
                double_height <= end + floor@.len(),
                forall|r: int, c: int|
                    0 <= r < double_height && 0 <= c < width ==> #[trigger] self.pixels@[pixel_index(w, r, c)]
                        == if c == x && end <= r < y {
                        floor@[r - end]
                    } else if c == x && start <= r < top {
                        wall
                    } else if c == x && r < start {
                        ceiling@[start - r]
                    } else {
                        before[pixel_index(w, r, c)]
                    },
            decreases double_height - y,
        {
            proof {
                lemma_pixel_index_bounds(w, double_height as int, y as int, x as int);
            }
            let len = self.pixels.len();
            assert(y * width + x < len);
            let idx = y * width + x;
            let ghost prev = self.pixels@;
            self.pixels.set(idx, floor[y - end]);
            proof {
                assert forall|r: int, c: int|
                    0 <= r < double_height && 0 <= c < width implies #[trigger] self.pixels@[pixel_index(w, r, c)]
                        == if c == x && end <= r < y + 1 {
                        floor@[r - end]
                    } else if c == x && start <= r < top {
                        wall
                    } else if c == x && r < start {
                        ceiling@[start - r]
                    } else {
                        before[pixel_index(w, r, c)]
                    } by {
                    lemma_pixel_index_unique(w, r, c, y as int, x as int);
                    lemma_pixel_index_bounds(w, double_height as int, r, c);
                    assert(idx == pixel_index(w, y as int, x as int));
                    assert(prev[pixel_index(w, r, c)] == if c == x && end <= r < y {
                        floor@[r - end]
                    } else if c == x && start <= r < top {
                        wall
                    } else if c == x && r < start {
                        ceiling@[start - r]
                    } else {
                        before[pixel_index(w, r, c)]
                    });
                }
            }
            y += 1;
        }
        proof {
            assert forall|r: int| 0 <= r < double_height implies #[trigger] self.pixels@[pixel_index(w, r, x as int)]
                == column_pixel(r, start as int, end as int, wall, ceiling@, floor@) by {
                lemma_column_rows(r, start as int, end as int, wall, ceiling@, floor@);
            }
        }
    }

    /// The last encoded frame.
    pub fn output(&self) -> (text: &str)
        ensures
            text@ == self@.output,
    {
        self.output.as_str()
    }

    /// Encodes the pixel buffer, `height` terminal rows of `width` cells, as one
    /// ANSI frame of `▀` half-blocks: each cell's foreground is its upper pixel,
    /// its background the lower one. Colours are sent for the first cell of each
    /// row and then only where they change. Only the first `width * 2 * height`
    /// pixels are read.
    pub fn encode_half_blocks(&mut self, width: usize, height: usize)
        requires
            old(self)@.pixels.len() >= width * (2 * height),
            2 * height <= usize::MAX,
            width * height * 24 <= isize::MAX,
        ensures
            final(self)@ == (RendererView {
                output: frame_text(old(self)@.pixels, width as int, height as nat),
                ..old(self)@
            }),
    {
        clear_string(&mut self.output);
        let cap = saturating_mul(saturating_mul(width, height), 24);
        let cap = if cap < 16 {
            16
        } else {
            cap
        };
        assert(cap <= isize::MAX) by {
            assert(width * height * 24 == (width * height) * 24);
        }
        let capacity = string_capacity(&self.output);
        if capacity < cap {
            reserve_string(&mut self.output, cap - capacity);
        }
        self.output.append("\x1b[H");

        let ghost p = self.pixels@;
        let ghost w = width as int;
        let ghost home = "\x1b[H"@;
        let mut current: Option<(u8, u8)> = None;
        let mut y: usize = 0;
        while y < height
            invariant
                y <= height,
                2 * height <= usize::MAX,
                p == self.pixels@,
                w == width,
                p.len() >= width * (2 * height),
                home == "\x1b[H"@,
                y < height ==> current is None,
                self.output@ == home + rows_text(p, w, y as nat) + (if 0 < y < height {
                    row_break()
                } else {
                    Seq::empty()
                }),
                self.last_size == old(self)@.last_size,
                self.dirty == old(self)@.dirty,
            decreases height - y,
        {
            let ghost row_start = self.output@;
            let len = self.pixels.len();
            proof {
                assert(y * 2 * width <= (y * 2 + 1) * width <= width * (2 * height)) by (nonlinear_arith)
                    requires
                        y < height,
                ;
            }
            let upper_row = y * 2 * width;
            let lower_row = (y * 2 + 1) * width;
            let mut x: usize = 0;
            while x < width
                invariant
                    x <= width,
                    y < height,
                    len == p.len(),
                    p == self.pixels@,
                    w == width,
                    p.len() >= width * (2 * height),
                    upper_row == pixel_index(w, 2 * y, 0),
                    lower_row == pixel_index(w, 2 * y + 1, 0),
                    current == colors_before(p, w, y as int, x as int),
                    self.output@ == row_start + row_text(p, w, y as int, x as nat),
                    self.last_size == old(self)@.last_size,
                    self.dirty == old(self)@.dirty,
                decreases width - x,
            {
                proof {
                    lemma_pixel_index_bounds(w, 2 * height, 2 * y, x as int);
                    lemma_pixel_index_bounds(w, 2 * height, 2 * y + 1, x as int);
                }
                assert(lower_row + x < p.len());
                let upper = self.pixels[upper_row + x];
                let lower = self.pixels[lower_row + x];
                let ghost before_cell = self.output@;
                let changes = match current {
                    Some((fg, bg)) => upper != fg || lower != bg,
                    None => true,
                };
                if changes {
                    self.output.append("\x1b[38;5;");
                    push_decimal(&mut self.output, upper);
                    self.output.append("m\x1b[48;5;");
                    push_decimal(&mut self.output, lower);
                    self.output.append("m");
                }
                current = Some((upper, lower));
                push_char(&mut self.output, '\u{2580}');
                proof {
                    assert(self.output@ =~= before_cell + cell_text(p, w, y as int, x as int));
                    assert(self.output@ =~= row_start + row_text(p, w, y as int, (x + 1) as nat));
                }
                x += 1;
            }
            proof {
                assert(self.output@ =~= home + rows_text(p, w, (y + 1) as nat));
            }
            if y + 1 < height {
                self.output.append("\x1b[0m\r\n");
                current = None;
            }
            y += 1;
        }
        self.output.append("\x1b[0m");
        proof {
            assert(self.output@ =~= frame_text(p, w, height as nat));
        }
    }
}

/// The screen is cleared once per change: after a frame of some size has
/// been started, another frame of the same size needs no clear, until a clear
/// is asked for; a frame of another size always needs one.
pub proof fn lemma_clear_once_per_change(v: RendererView, size: (u16, u16), next: (u16, u16))
    ensures
        !v.sized(size).needs_clear(size),
        v.sized(size).invalidated().needs_clear(next),
        next != size ==> v.sized(size).needs_clear(next),
{
}

/// The colours in effect once the first `n` cells of terminal row `y` are
/// written: those of the last colour change among them, or the terminal's
/// default (`None`) when none of them changed colours (each row starts right
/// after a colour reset).
pub open spec fn colors_in_effect(pixels: Seq<u8>, width: int, y: int, n: nat) -> Option<(u8, u8)>
    decreases n,
{
    if n == 0 {
        None
    } else if sets_colors(pixels, width, y, n - 1) {
        Some(cell_colors(pixels, width, y, n - 1))
    } else {
        colors_in_effect(pixels, width, y, (n - 1) as nat)
    }
}

/// Each terminal cell shows its own two pixels: once cell (`x`, `y`) is
/// written, the colours in effect are its upper and lower pixel.
pub proof fn lemma_cells_show_their_pixels(pixels: Seq<u8>, width: int, y: int, x: nat)
    ensures
        colors_in_effect(pixels, width, y, x + 1) == Some(cell_colors(pixels, width, y, x as int)),
    decreases x,
{
    if !sets_colors(pixels, width, y, x as int) {
        // no colour change: the cell repeats the colours of its left neighbour
        assert(x > 0);
        lemma_cells_show_their_pixels(pixels, width, y, (x - 1) as nat);
    }
}

/// The upper-half-block character that draws each cell.
pub open spec fn is_half_block(c: char) -> bool {
    c == '\u{2580}'
}

/// The number of half-block characters in `text`.
pub open spec fn half_block_count(text: Seq<char>) -> nat {
    text.filter(|c: char| is_half_block(c)).len()
}

proof fn lemma_count_add(a: Seq<char>, b: Seq<char>)
    ensures
        half_block_count(a + b) == half_block_count(a) + half_block_count(b),
{
    Seq::filter_distributes_over_add(a, b, |c: char| is_half_block(c));
}

proof fn lemma_count_none(a: Seq<char>)
    requires
        forall|i: int| 0 <= i < a.len() ==> !is_half_block(#[trigger] a[i]),
    ensures
        half_block_count(a) == 0,
{
    let pred = |c: char| is_half_block(c);
    assert(a.all(|x: char| !pred(x)));
    a.lemma_all_neg_filter_empty(pred);
}

proof fn lemma_count_decimal(n: u8)
    ensures
        half_block_count(decimal(n)) == 0,
{
    let d = decimal(n);
    assert forall|i: int| 0 <= i < d.len() implies !is_half_block(#[trigger] d[i]) by {
        let v = n as int;
        assert(0 <= v / 100 < 10 && 0 <= (v / 10) % 10 < 10 && 0 <= v % 10 < 10 && 0 <= v / 10 < 10
            || v >= 100);
    }
    lemma_count_none(d);
}

proof fn lemma_count_cell(pixels: Seq<u8>, width: int, y: int, x: int)
    ensures
        half_block_count(cell_text(pixels, width, y, x)) == 1,
{
    reveal_strlit("\x1b[38;5;");
    reveal_strlit("m\x1b[48;5;");
    reveal_strlit("m");
    let (fg, bg) = cell_colors(pixels, width, y, x);
    let prefix = if sets_colors(pixels, width, y, x) {
        color_sequence(fg, bg)
    } else {
        Seq::empty()
    };
    lemma_count_none("\x1b[38;5;"@);
    lemma_count_none("m\x1b[48;5;"@);
    lemma_count_none("m"@);
    lemma_count_decimal(fg);
    lemma_count_decimal(bg);
    lemma_count_add("\x1b[38;5;"@, decimal(fg));
    lemma_count_add("\x1b[38;5;"@ + decimal(fg), "m\x1b[48;5;"@);
    lemma_count_add("\x1b[38;5;"@ + decimal(fg) + "m\x1b[48;5;"@, decimal(bg));
    lemma_count_add("\x1b[38;5;"@ + decimal(fg) + "m\x1b[48;5;"@ + decimal(bg), "m"@);
    lemma_count_none(Seq::<char>::empty());
    lemma_count_add(prefix, seq!['\u{2580}']);
    let g = seq!['\u{2580}'];
    assert(g.filter(|c: char| is_half_block(c)) =~= g) by {
        reveal(Seq::filter);
        assert(g.drop_last() =~= Seq::<char>::empty());
        assert(Seq::<char>::empty().filter(|c: char| is_half_block(c)) =~= Seq::<char>::empty());
    }
}

proof fn lemma_count_row(pixels: Seq<u8>, width: int, y: int, n: nat)
    ensures
        half_block_count(row_text(pixels, width, y, n)) == n,
    decreases n,
{
    if n == 0 {
        lemma_count_none(Seq::<char>::empty());
    } else {
        lemma_count_row(pixels, width, y, (n - 1) as nat);
        lemma_count_cell(pixels, width, y, n - 1);
        lemma_count_add(row_text(pixels, width, y, (n - 1) as nat), cell_text(pixels, width, y, n - 1));
    }
}

proof fn lemma_count_rows(pixels: Seq<u8>, width: nat, k: nat)
    ensures
        half_block_count(rows_text(pixels, width as int, k)) == k * width,
    decreases k,
{
    reveal_strlit("\x1b[0m\r\n");
    if k == 0 {
        lemma_count_none(Seq::<char>::empty());
    } else {
        lemma_count_rows(pixels, width, (k - 1) as nat);
        lemma_count_row(pixels, width as int, k - 1, width);
        let before = rows_text(pixels, width as int, (k - 1) as nat);
        let sep = if k > 1 {
            row_break()
        } else {
            Seq::empty()
        };
        lemma_count_none(row_break());
        lemma_count_none(Seq::<char>::empty());
        lemma_count_add(before, sep);
        lemma_count_add(before + sep, row_text(pixels, width as int, k - 1, width));
        assert((k - 1) * width + width == k * width) by (nonlinear_arith);
    }
}

/// A frame holds exactly one half-block character per terminal cell: its
/// `width` × `height` cells each show two stacked pixels.
pub proof fn lemma_one_half_block_per_cell(pixels: Seq<u8>, width: nat, height: nat)
    ensures
        half_block_count(frame_text(pixels, width as int, height)) == width * height,
{
    reveal_strlit("\x1b[H");
    reveal_strlit("\x1b[0m");
    lemma_count_none("\x1b[H"@);
    lemma_count_none("\x1b[0m"@);
    lemma_count_rows(pixels, width, height);
    lemma_count_add("\x1b[H"@, rows_text(pixels, width as int, height));
    lemma_count_add("\x1b[H"@ + rows_text(pixels, width as int, height), "\x1b[0m"@);
    assert(height * width == width * height) by (nonlinear_arith);
}

} // verus!
