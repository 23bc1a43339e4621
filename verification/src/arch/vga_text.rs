//! Text output on a VGA text screen: characters go on the bottom row, and the screen scrolls
//! up by a row at a newline or when the bottom row is full.
use vstd::prelude::*;

verus! {

/// Characters per row.
pub const VGA_WIDTH: usize = 80;

/// Rows on the screen.
pub const VGA_HEIGHT: usize = 25;

/// Cells on the screen, row after row.
pub const VGA_CELLS: usize = 2000;

/// Light grey on black.
pub const DEFAULT_COLOR: u8 = 0x07;

/// Represents a character on the screen.
#[derive(Debug, Clone, Copy, PartialEq, Eq, Structural)]
pub struct ScreenChar {
    pub char: u8,
    pub color: u8,
}

impl ScreenChar {
    /// Creates a new screen character in the default colour.
    pub fn new(char: u8) -> (r: Self)
        ensures
            r == (ScreenChar { char, color: DEFAULT_COLOR }),
    {
        ScreenChar { char, color: DEFAULT_COLOR }
    }
}

/// A blank cell.
pub open spec fn blank_char() -> ScreenChar {
    ScreenChar { char: 32, color: DEFAULT_COLOR }
}

/// The screen after moving every row up by one and blanking the bottom row.
pub open spec fn scrolled(screen: Seq<ScreenChar>) -> Seq<ScreenChar> {
    Seq::new(VGA_CELLS as nat, |i: int| if i < VGA_CELLS - VGA_WIDTH { screen[i + VGA_WIDTH] } else { blank_char() })
}

/// The screen and the column after writing the byte `c` at column `x`.
pub open spec fn put_char(screen: Seq<ScreenChar>, x: int, c: u8) -> (Seq<ScreenChar>, int) {
    if c == 10 {
        (scrolled(screen), 0)
    } else {
        let (s1, x1) = if x == VGA_WIDTH { (scrolled(screen), 0int) } else { (screen, x) };
        (s1.update((VGA_HEIGHT - 1) * VGA_WIDTH + x1, ScreenChar { char: c, color: DEFAULT_COLOR }), x1 + 1)
    }
}

/// The screen and the column after writing the bytes `s` in turn from column `x`.
pub open spec fn put_str(screen: Seq<ScreenChar>, x: int, s: Seq<u8>) -> (Seq<ScreenChar>, int)
    decreases s.len(),
{
    if s.len() == 0 {
        (screen, x)
    } else {
        let (s1, x1) = put_char(screen, x, s[0]);
        put_str(s1, x1, s.drop_first())
    }
}

/// Text without a newline that fits in what is left of the bottom row lands there, from the
/// column on, and nothing else on the screen changes.
pub proof fn lemma_put_str_in_row(screen: Seq<ScreenChar>, x: int, s: Seq<u8>)
    requires
        screen.len() == VGA_CELLS,
        0 <= x,
        x + s.len() <= VGA_WIDTH,
        forall|i: int| 0 <= i < s.len() ==> s[i] != 10,
    ensures
        put_str(screen, x, s).1 == x + s.len(),
        put_str(screen, x, s).0 == Seq::new(VGA_CELLS as nat, |i: int|
            if (VGA_HEIGHT - 1) * VGA_WIDTH + x <= i < (VGA_HEIGHT - 1) * VGA_WIDTH + x + s.len() {
                ScreenChar { char: s[i - (VGA_HEIGHT - 1) * VGA_WIDTH - x], color: DEFAULT_COLOR }
            } else {
                screen[i]
            }),
    decreases s.len(),
{
    let row = (VGA_HEIGHT - 1) * VGA_WIDTH;
    let expected = Seq::new(VGA_CELLS as nat, |i: int|
        if row + x <= i < row + x + s.len() {
            ScreenChar { char: s[i - row - x], color: DEFAULT_COLOR }
        } else {
            screen[i]
        });
    if s.len() == 0 {
        assert(expected =~= screen);
    } else {
        let s1 = screen.update(row + x, ScreenChar { char: s[0], color: DEFAULT_COLOR });
        assert(put_char(screen, x, s[0]) == (s1, x + 1));
        let rest = s.drop_first();
        assert forall|i: int| 0 <= i < rest.len() implies rest[i] != 10 by {
            assert(rest[i] == s[i + 1]);
        }
        lemma_put_str_in_row(s1, x + 1, rest);
        assert(put_str(s1, x + 1, rest).0 =~= expected);
    }
}

/// A scroll moves every row up by exactly one: each cell above the bottom row takes the cell
/// one row below it, the top row is lost, and only the bottom row becomes blank.
pub proof fn lemma_scroll_moves_rows_up(screen: Seq<ScreenChar>)
    requires
        screen.len() == VGA_CELLS,
    ensures
        scrolled(screen).len() == VGA_CELLS,
        forall|i: int| 0 <= i < VGA_CELLS - VGA_WIDTH ==> #[trigger] scrolled(screen)[i] == screen[i + VGA_WIDTH],
        forall|i: int| VGA_CELLS - VGA_WIDTH <= i < VGA_CELLS ==> #[trigger] scrolled(screen)[i] == (ScreenChar {
            char: 32,
            color: DEFAULT_COLOR,
        }),
{
}

/// A newline written at any column moves every row up by one, blanks the bottom row and goes
/// back to its start; a byte written at a full row does the same first, then lands at the
/// start of the bottom row.
pub proof fn lemma_put_char_scrolls(screen: Seq<ScreenChar>, x: int, c: u8)
    requires
        screen.len() == VGA_CELLS,
        c == 10 || x == VGA_WIDTH,
    ensures
        put_char(screen, x, c).0.len() == VGA_CELLS,
        forall|i: int| 0 <= i < VGA_CELLS - VGA_WIDTH ==> #[trigger] put_char(screen, x, c).0[i] == screen[i + VGA_WIDTH],
        c == 10 ==> put_char(screen, x, c).1 == 0,
        c == 10 ==> forall|i: int| VGA_CELLS - VGA_WIDTH <= i < VGA_CELLS ==> #[trigger] put_char(screen, x, c).0[i]
            == (ScreenChar { char: 32, color: DEFAULT_COLOR }),
        c != 10 ==> put_char(screen, x, c).1 == 1,
        c != 10 ==> put_char(screen, x, c).0[VGA_CELLS - VGA_WIDTH] == (ScreenChar { char: c, color: DEFAULT_COLOR }),
        c != 10 ==> forall|i: int| VGA_CELLS - VGA_WIDTH < i < VGA_CELLS ==> #[trigger] put_char(screen, x, c).0[i]
            == (ScreenChar { char: 32, color: DEFAULT_COLOR }),
{
    lemma_scroll_moves_rows_up(screen);
}

/// Writes text at the bottom of a screen, kept as its cells row after row.
pub struct Writer {
    x: usize,
}

impl Writer {
    /// The column where the next character goes.
    pub closed spec fn spec_x(&self) -> int {
        self.x as int
    }

    /// The column never passes the end of the row.
    pub closed spec fn wf(&self) -> bool {
        self.x <= VGA_WIDTH
    }

    /// A writer at the start of the bottom row.
    pub fn new() -> (r: Self)
        ensures
            r.wf(),
            r.spec_x() == 0,
    {
        Writer { x: 0 }
    }

    /// The column where the next character goes.
    pub fn column(&self) -> (r: usize)
        ensures
            r == self.spec_x(),
    {
        self.x
    }

    /// Writes a byte: a newline scrolls the screen; another byte goes at the column on the
    /// bottom row, after a scroll if that row is full.
    pub fn write_char(&mut self, buffer: &mut [ScreenChar], c: u8)
        requires
            old(self).wf(),
            old(buffer)@.len() == VGA_CELLS,
        ensures
            final(self).wf(),
            final(buffer)@.len() == VGA_CELLS,
            (final(buffer)@, final(self).spec_x()) == put_char(old(buffer)@, old(self).spec_x(), c),
    {
        if c == 10 {
            self.new_line(buffer);
        } else {
            if self.x == VGA_WIDTH {
                self.new_line(buffer);
            }
            let y = VGA_HEIGHT - 1;
            let x = self.x;
            buffer[y * VGA_WIDTH + x] = ScreenChar::new(c);
            self.x = self.x + 1;
        }
    }

    /// Moves every row up by one, blanks the bottom row and goes back to its start.
    pub fn new_line(&mut self, buffer: &mut [ScreenChar])
        requires
            old(buffer)@.len() == VGA_CELLS,
        ensures
            final(self).wf(),
            final(self).spec_x() == 0,
            final(buffer)@ == scrolled(old(buffer)@),
            final(buffer)@.len() == VGA_CELLS,
            forall|i: int| 0 <= i < VGA_CELLS - VGA_WIDTH ==> #[trigger] final(buffer)@[i] == old(buffer)@[i + VGA_WIDTH],
            forall|i: int| VGA_CELLS - VGA_WIDTH <= i < VGA_CELLS ==> #[trigger] final(buffer)@[i] == (ScreenChar {
                char: 32,
                color: DEFAULT_COLOR,
            }),
    {
        let ghost b0 = buffer@;
        // Move up
        let mut y: usize = 1;
        while y < VGA_HEIGHT
            invariant
                1 <= y <= VGA_HEIGHT,
                buffer@.len() == VGA_CELLS,
                forall|i: int| 0 <= i < (y - 1) * VGA_WIDTH ==> buffer@[i] == b0[i + VGA_WIDTH],
                forall|i: int| (y - 1) * VGA_WIDTH <= i < VGA_CELLS ==> buffer@[i] == b0[i],
            decreases VGA_HEIGHT - y,
        {
            let mut x: usize = 0;
            while x < VGA_WIDTH
                invariant
                    1 <= y < VGA_HEIGHT,
                    x <= VGA_WIDTH,
                    buffer@.len() == VGA_CELLS,
                    forall|i: int| 0 <= i < (y - 1) * VGA_WIDTH + x ==> buffer@[i] == b0[i + VGA_WIDTH],
                    forall|i: int| (y - 1) * VGA_WIDTH + x <= i < VGA_CELLS ==> buffer@[i] == b0[i],
                decreases VGA_WIDTH - x,
            {
                let c = buffer[y * VGA_WIDTH + x];
                buffer[(y - 1) * VGA_WIDTH + x] = c;
                x = x + 1;
            }
            y = y + 1;
        }

        // Clear bottom row
        let blank = ScreenChar::new(32);
        let mut x: usize = 0;
        while x < VGA_WIDTH
            invariant
                x <= VGA_WIDTH,
                buffer@.len() == VGA_CELLS,
                blank == blank_char(),
                forall|i: int| 0 <= i < VGA_CELLS - VGA_WIDTH ==> buffer@[i] == b0[i + VGA_WIDTH],
                forall|i: int| VGA_CELLS - VGA_WIDTH <= i < VGA_CELLS - VGA_WIDTH + x ==> buffer@[i] == blank_char(),
            decreases VGA_WIDTH - x,
        {
            buffer[(VGA_HEIGHT - 1) * VGA_WIDTH + x] = blank;
            x = x + 1;
        }
        assert(buffer@ =~= scrolled(b0));

        // Reset
        self.x = 0;
    }

    /// Writes the bytes of `s` in turn.
    pub fn write_str(&mut self, buffer: &mut [ScreenChar], s: &[u8])
        requires
            old(self).wf(),
            old(buffer)@.len() == VGA_CELLS,
        ensures
            final(self).wf(),
            final(buffer)@.len() == VGA_CELLS,
            (final(buffer)@, final(self).spec_x()) == put_str(old(buffer)@, old(self).spec_x(), s@),
    {
        let ghost b0 = buffer@;
        let ghost x0 = self.x as int;
        assert(s@.subrange(0, s@.len() as int) =~= s@);
        let mut i: usize = 0;
        while i < s.len()
            invariant
                i <= s@.len(),
                self.wf(),
                buffer@.len() == VGA_CELLS,
                put_str(b0, x0, s@) == put_str(buffer@, self.spec_x(), s@.subrange(i as int, s@.len() as int)),
            decreases s@.len() - i,
        {
            self.write_char(buffer, s[i]);
            proof {
                let rest = s@.subrange(i as int, s@.len() as int);
                assert(rest[0] == s@[i as int]);
                assert(rest.drop_first() =~= s@.subrange(i + 1, s@.len() as int));
            }
            i = i + 1;
        }
        assert(s@.subrange(i as int, s@.len() as int) =~= Seq::<u8>::empty());
    }
}

} // verus!
