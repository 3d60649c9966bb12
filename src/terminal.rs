//! A double-buffered text screen that redraws only the cells that changed.

use vstd::prelude::*;

use crate::board::lemma_position_in_grid;
use crate::error::LengthMismatch;

verus! {

/// The mathematical model of a terminal: its size, the frame on screen and
/// the palette index of the foreground color.
pub struct Screen {
    pub width: nat,
    pub height: nat,
    pub buffer: Seq<char>,
    pub color: u8,
}

/// The character of a decimal digit.
pub open spec fn digit_char(d: int) -> char {
    (d + 48) as char
}

/// The decimal digits of `n`, most significant first, without leading zeros.
pub open spec fn decimal(n: nat) -> Seq<char>
    decreases n,
{
    if n < 10 {
        seq![digit_char(n as int)]
    } else {
        decimal(n / 10).push(digit_char((n % 10) as int))
    }
}

/// Moves the cursor to row `y`, column `x` and writes `c` there.
pub open spec fn cursor_write(x: nat, y: nat, c: char) -> Seq<char> {
    seq!['\u{1b}', '['] + decimal(y) + seq![';'] + decimal(x) + seq!['H', c]
}

/// Selects foreground color `color` of the 256-color palette, then a newline.
pub open spec fn color_prefix(color: u8) -> Seq<char> {
    seq!['\u{1b}', '[', '3', '8', ';', '5', ';'] + decimal(color as nat) + seq!['m', '\n']
}

/// The writes for the cells among the first `k`, in row-major order, where
/// `next` differs from `prev`; a screen `width` cells wide.
pub open spec fn frame_updates(prev: Seq<char>, next: Seq<char>, width: nat, k: nat) -> Seq<char>
    decreases k,
{
    if k == 0 {
        Seq::empty()
    } else {
        let i = k - 1;
        frame_updates(prev, next, width, i as nat) + if prev[i] == next[i] {
            Seq::empty()
        } else {
            cursor_write((i % (width as int)) as nat, (i / (width as int)) as nat, next[i])
        }
    }
}

/// What a board's cells look like on screen: a dot for a live cell, a space
/// for any other.
pub open spec fn glyphs(tiles: Seq<u8>) -> Seq<char> {
    tiles.map_values(|t: u8| if t == 1 { '\u{2022}' } else { ' ' })
}

impl Screen {
    pub open spec fn wf(self) -> bool {
        self.buffer.len() == self.width * self.height
    }

    /// What drawing `frame` writes: nothing when it is already on screen,
    /// else the color selection followed by a write for each changed cell.
    pub open spec fn output_for(self, frame: Seq<char>) -> Seq<char> {
        if self.buffer == frame {
            Seq::empty()
        } else {
            color_prefix(self.color) + frame_updates(self.buffer, frame, self.width, frame.len())
        }
    }

    /// The screen once `frame` has been drawn.
    pub open spec fn after(self, frame: Seq<char>) -> Screen {
        Screen { buffer: frame, ..self }
    }
}

/// Drawing a frame that is already on screen writes nothing; so drawing the
/// same frame twice in a row writes only the first time, and then only if it
/// differed from what was on screen.
pub proof fn lemma_redraw_is_silent(s: Screen, frame: Seq<char>)
    requires
        frame.len() == s.buffer.len(),
    ensures
        s.after(frame).output_for(frame) == Seq::<char>::empty(),
        s.buffer != frame ==> s.output_for(frame).len() > 0,
{
}

/// Appends the decimal digits of `n`.
fn push_decimal(out: &mut Vec<char>, n: usize)
    ensures
        final(out)@ == old(out)@ + decimal(n as nat),
    decreases n,
{
    if n >= 10 {
        push_decimal(out, n / 10);
    }
    let d = (n % 10) as u8;
    out.push((d + 48) as char);
    assert(out@ =~= old(out)@ + decimal(n as nat));
}

/// Appends the write of `c` at row `y`, column `x`.
fn push_cursor_write(out: &mut Vec<char>, x: usize, y: usize, c: char)
    ensures
        final(out)@ == old(out)@ + cursor_write(x as nat, y as nat, c),
{
    out.push('\u{1b}');
    out.push('[');
    push_decimal(out, y);
    out.push(';');
    push_decimal(out, x);
    out.push('H');
    out.push(c);
    assert(out@ =~= old(out)@ + cursor_write(x as nat, y as nat, c));
}

/// Appends the selection of foreground color `color`.
fn push_color_prefix(out: &mut Vec<char>, color: u8)
    ensures
        final(out)@ == old(out)@ + color_prefix(color),
{
    let mut head = vec!['\u{1b}', '[', '3', '8', ';', '5', ';'];
    out.append(&mut head);
    push_decimal(out, color as usize);
    out.push('m');
    out.push('\n');
    assert(out@ =~= old(out)@ + color_prefix(color));
}

/// A text terminal of fixed size that remembers the frame on screen.
pub struct Terminal {
    width: usize,
    height: usize,
    buffer: Vec<char>,
    color: u8,
}

impl View for Terminal {
    type V = Screen;

    closed spec fn view(&self) -> Screen {
        Screen {
            width: self.width as nat,
            height: self.height as nat,
            buffer: self.buffer@,
            color: self.color,
        }
    }
}

impl Terminal {
    /// A `width` by `height` terminal showing only spaces, drawing in `color`.
    pub fn new(width: usize, height: usize, color: u8) -> (t: Terminal)
        requires
            width * height <= usize::MAX,
        ensures
            t@.wf(),
            t@ == (Screen {
                width: width as nat,
                height: height as nat,
                buffer: Seq::new((width * height) as nat, |i: int| ' '),
                color: color,
            }),
    {
        let v = vec![' '; width * height];
        let t = Terminal { width: width, height: height, buffer: v, color: color };
        assert(t@.buffer =~= Seq::new((width * height) as nat, |i: int| ' '));
        t
    }

    /// Draws `data` over the frame on screen and returns what to write to the
    /// terminal: nothing when no cell changed, else the color selection and,
    /// in row-major order, a cursor move and the new character for each
    /// changed cell. `data` then becomes the frame on screen. A frame of
    /// another size is refused and nothing changes.
    pub fn draw_buffer(&mut self, data: &Vec<char>) -> (r: Result<Vec<char>, LengthMismatch>)
        requires
            old(self)@.wf(),
        ensures
            final(self)@.wf(),
            r is Ok <==> data@.len() == old(self)@.buffer.len(),
            r matches Ok(out) ==> out@ == old(self)@.output_for(data@) && final(self)@ == old(
                self,
            )@.after(data@),
            r matches Err(e) ==> final(self)@ == old(self)@ && e.expected == old(self)@.buffer.len()
                && e.found == data@.len(),
    {
        if data.len() != self.buffer.len() {
            return Err(LengthMismatch { expected: self.buffer.len(), found: data.len() });
        }
        let n = data.len();
        let w = self.width;
        let mut updates: Vec<char> = Vec::new();
        let mut changed = false;
        let mut idx: usize = 0;
        while idx < n
            invariant
                self@ == old(self)@,
                self@.wf(),
                n == data@.len(),
                n == self@.buffer.len(),
                w == self@.width,
                idx <= n,
                updates@ == frame_updates(self@.buffer, data@, w as nat, idx as nat),
                changed <==> exists|j: int| 0 <= j < idx && self@.buffer[j] != data@[j],
            decreases n - idx,
        {
            if self.buffer[idx] != data[idx] {
                proof {
                    lemma_position_in_grid(idx as int, w as int, self@.height as int);
                }
                push_cursor_write(&mut updates, idx % w, idx / w, data[idx]);
                changed = true;
            }
            idx += 1;
        }
        if !changed {
            assert(self@.buffer =~= data@);
            return Ok(Vec::new());
        }
        let mut out: Vec<char> = Vec::new();
        push_color_prefix(&mut out, self.color);
        out.append(&mut updates);
        self.buffer = data.clone();
        assert(self.buffer@ =~= data@);
        Ok(out)
    }

    /// Draws a board's cells, a dot for each live cell and a space for any
    /// other, as `draw_buffer` does.
    pub fn print_tiles(&mut self, tiles: &Vec<u8>) -> (r: Result<Vec<char>, LengthMismatch>)
        requires
            old(self)@.wf(),
        ensures
            final(self)@.wf(),
            r is Ok <==> tiles@.len() == old(self)@.buffer.len(),
            r matches Ok(out) ==> out@ == old(self)@.output_for(glyphs(tiles@)) && final(self)@
                == old(self)@.after(glyphs(tiles@)),
            r matches Err(e) ==> final(self)@ == old(self)@ && e.expected == old(self)@.buffer.len()
                && e.found == tiles@.len(),
    {
        let mut data: Vec<char> = Vec::new();
        let mut i: usize = 0;
        while i < tiles.len()
            invariant
                i <= tiles@.len(),
                data@ == glyphs(tiles@.subrange(0, i as int)),
            decreases tiles@.len() - i,
        {
            let c = if tiles[i] == 1 {
                '\u{2022}'
            } else {
                ' '
            };
            data.push(c);
            i += 1;
            assert(data@ =~= glyphs(tiles@.subrange(0, i as int)));
        }
        assert(tiles@.subrange(0, i as int) =~= tiles@);
        self.draw_buffer(&data)
    }
}

/// What restores the terminal on exit: reset the text style, show the cursor,
/// and move to the start of row `height`.
pub fn close_terminal(height: usize) -> (r: Vec<char>)
    ensures
        r@ == seq!['\u{1b}', '[', '0', 'm', '\n', '\u{1b}', '[', '?', '2', '5', 'h', '\n', '\u{1b}', '[']
            + decimal(height as nat) + seq![';', '0', 'H', ' '],
{
    let mut out = vec!['\u{1b}', '[', '0', 'm', '\n', '\u{1b}', '[', '?', '2', '5', 'h', '\n', '\u{1b}', '['];
    push_decimal(&mut out, height);
    let mut tail = vec![';', '0', 'H', ' '];
    out.append(&mut tail);
    out
}

/// What prepares the terminal for drawing: clear the screen and hide the cursor.
pub fn clear_terminal() -> (r: Vec<char>)
    ensures
        r@ == seq!['\u{1b}', '[', '2', 'J', '\n', '\u{1b}', '[', '?', '2', '5', 'l', '\n'],
{
    vec!['\u{1b}', '[', '2', 'J', '\n', '\u{1b}', '[', '?', '2', '5', 'l', '\n']
}

} // verus!
