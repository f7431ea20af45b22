//! The 1-bit canvas: rows of 384 pixels, packed eight to a byte.

use vstd::prelude::*;

verus! {

/// Width of the paper in pixels.
pub const WIDTH: usize = 384;

/// Bytes of one packed row.
pub const BYTES_PER_ROW: usize = 48;

/// Whether bit `i` of `b` is set, counting from the least significant.
pub open spec fn bit(b: u8, i: u8) -> bool {
    (b >> i) & 1 == 1
}

/// The pixels of a packed row: the most significant bit of a byte is its leftmost pixel.
pub open spec fn unpacked(row: Seq<u8>) -> Seq<bool> {
    Seq::new(WIDTH as nat, |x: int| bit(row[x / 8], (7 - x % 8) as u8))
}

/// A row without ink.
pub open spec fn blank_row() -> Seq<bool> {
    Seq::new(WIDTH as nat, |x: int| false)
}

/// `n` rows without ink.
pub open spec fn blank_rows(n: nat) -> Seq<Seq<bool>> {
    Seq::new(n, |y: int| blank_row())
}

/// The rows whose black pixels are those `(x, y)` for which `ink(x, y)` holds.
pub open spec fn painted(height: nat, ink: spec_fn(int, int) -> bool) -> Seq<Seq<bool>> {
    Seq::new(height, |y: int| Seq::new(WIDTH as nat, |x: int| ink(x, y)))
}

/// A 1-bit image, [`WIDTH`] pixels wide. Its view is the sequence of its rows, `true` for black.
#[derive(Debug)]
pub struct Bitmap {
    rows: Vec<[u8; 48]>,
}

impl View for Bitmap {
    type V = Seq<Seq<bool>>;

    closed spec fn view(&self) -> Seq<Seq<bool>> {
        Seq::new(self.rows@.len(), |y: int| unpacked(self.rows@[y]@))
    }
}

proof fn lemma_bit_set(b: u8, i: u8, j: u8)
    requires
        i < 8,
        j < 8,
    ensures
        bit(b | (1u8 << i), j) == (bit(b, j) || i == j),
        bit(b & !(1u8 << i), j) == (bit(b, j) && i != j),
        bit(0, j) == false,
{
    assert(((b | (1u8 << i)) >> j) & 1 == 1 <==> ((b >> j) & 1 == 1 || i == j)) by (bit_vector)
        requires
            i < 8,
            j < 8,
    ;
    assert(((b & !(1u8 << i)) >> j) & 1 == 1 <==> ((b >> j) & 1 == 1 && i != j)) by (bit_vector)
        requires
            i < 8,
            j < 8,
    ;
    assert((0u8 >> j) & 1 == 0) by (bit_vector);
}

proof fn lemma_zero_row_is_blank(row: Seq<u8>)
    requires
        row.len() == 48,
        forall|i: int| 0 <= i < 48 ==> row[i] == 0,
    ensures
        unpacked(row) == blank_row(),
{
    assert forall|x: int| 0 <= x < WIDTH implies unpacked(row)[x] == false by {
        lemma_bit_set(0, 0, (7 - x % 8) as u8);
    }
    assert(unpacked(row) =~= blank_row());
}

impl Bitmap {
    /// The packed bytes of each row.
    pub closed spec fn packed(&self) -> Seq<Seq<u8>> {
        Seq::new(self.rows@.len(), |y: int| self.rows@[y]@)
    }

    /// What the packed bytes have to do with the pixels: every row is 48 bytes and unpacks to the
    /// row of the view, which is 384 pixels.
    pub proof fn lemma_packed(&self)
        ensures
            self.packed().len() == self@.len(),
            forall|y: int|
                0 <= y < self@.len() ==> #[trigger] self.packed()[y].len() == 48 && unpacked(
                    self.packed()[y],
                ) == self@[y],
            forall|y: int| 0 <= y < self@.len() ==> (#[trigger] self@[y]).len() == WIDTH,
    {
    }

    /// An all-white image of the given height.
    pub fn new(height: usize) -> (r: Bitmap)
        ensures
            r@ == blank_rows(height as nat),
    {
        let mut out = Bitmap { rows: Vec::new() };
        assert(out@ =~= blank_rows(0));
        out.push_blank(height);
        assert(out@ =~= blank_rows(height as nat));
        out
    }

    /// Appends `n` white rows.
    pub fn push_blank(&mut self, n: usize)
        ensures
            final(self)@ == old(self)@ + blank_rows(n as nat),
    {
        let zero: [u8; 48] = [0u8; 48];
        proof {
            lemma_zero_row_is_blank(zero@);
        }
        let mut i: usize = 0;
        while i < n
            invariant
                i <= n,
                unpacked(zero@) == blank_row(),
                self.rows@.len() == old(self).rows@.len() + i,
                forall|y: int| 0 <= y < old(self).rows@.len() ==> self.rows@[y] == old(self).rows@[y],
                forall|y: int|
                    old(self).rows@.len() <= y < self.rows@.len() ==> self.rows@[y]@ == zero@,
            decreases n - i,
        {
            self.rows.push(zero);
            i += 1;
        }
        assert(self@ =~= old(self)@ + blank_rows(n as nat));
    }

    /// Height in pixels.
    pub fn height(&self) -> (r: usize)
        ensures
            r == self@.len(),
    {
        self.rows.len()
    }

    /// Whether the pixel at `(x, y)` is black.
    pub fn get(&self, x: usize, y: usize) -> (r: bool)
        requires
            x < WIDTH,
            y < self@.len(),
        ensures
            r == self@[y as int][x as int],
    {
        let shift: u8 = 7 - (x % 8) as u8;
        (self.rows[y][x / 8] >> shift) & 1 == 1
    }

    /// Paints the pixel at `(x, y)` black or white.
    pub fn set(&mut self, x: usize, y: usize, black: bool)
        requires
            x < WIDTH,
            y < old(self)@.len(),
        ensures
            final(self)@ == old(self)@.update(
                y as int,
                old(self)@[y as int].update(x as int, black),
            ),
    {
        let shift: u8 = 7 - (x % 8) as u8;
        let mut row: [u8; 48] = self.rows[y];
        let ghost before = row@;
        let byte: u8 = row[x / 8];
        let changed: u8 = if black {
            byte | (1u8 << shift)
        } else {
            byte & !(1u8 << shift)
        };
        row[x / 8] = changed;
        assert forall|k: int| 0 <= k < WIDTH implies unpacked(row@)[k] == unpacked(before).update(
            x as int,
            black,
        )[k] by {
            lemma_bit_set(byte, shift, (7 - k % 8) as u8);
        }
        assert(unpacked(row@) =~= unpacked(before).update(x as int, black));
        self.rows.set(y, row);
        assert(self@ =~= old(self)@.update(y as int, old(self)@[y as int].update(x as int, black)));
    }

    /// The packed bytes of row `y`.
    pub fn row(&self, y: usize) -> (r: &[u8; 48])
        requires
            y < self@.len(),
        ensures
            r@ == self.packed()[y as int],
            unpacked(r@) == self@[y as int],
    {
        &self.rows[y]
    }

    /// Appends the rows of `other`.
    pub fn append(&mut self, other: &Bitmap)
        ensures
            final(self)@ == old(self)@ + other@,
    {
        let mut i: usize = 0;
        while i < other.rows.len()
            invariant
                i <= other.rows.len(),
                self.rows@.len() == old(self).rows@.len() + i,
                forall|y: int| 0 <= y < old(self).rows@.len() ==> self.rows@[y] == old(self).rows@[y],
                forall|y: int|
                    0 <= y < i ==> self.rows@[old(self).rows@.len() + y] == #[trigger] other.rows@[y],
            decreases other.rows.len() - i,
        {
            self.rows.push(other.rows[i]);
            i += 1;
        }
        assert forall|y: int| 0 <= y < self@.len() implies self@[y] == (old(self)@ + other@)[y] by {
            if y >= old(self)@.len() {
                assert(self.rows@[old(self).rows@.len() + (y - old(self)@.len())]
                    == other.rows@[y - old(self)@.len()]);
            }
        }
        assert(self@ =~= old(self)@ + other@);
    }
}

impl Clone for Bitmap {
    fn clone(&self) -> (r: Bitmap)
        ensures
            r@ == self@,
    {
        let mut out = Bitmap::new(0);
        out.append(self);
        assert(out@ =~= self@);
        out
    }
}

/// The rows of a rendering, or its error.
pub open spec fn rows_view<E>(r: Result<Bitmap, E>) -> Result<Seq<Seq<bool>>, E> {
    match r {
        Ok(bitmap) => Ok(bitmap@),
        Err(e) => Err(e),
    }
}

/// A pixel of some rows.
pub open spec fn pixel(rows: Seq<Seq<bool>>, x: int, y: int) -> bool {
    rows[y][x]
}

/// Whether `rows` are 384 pixels wide each.
pub open spec fn rectangular(rows: Seq<Seq<bool>>) -> bool {
    forall|y: int| 0 <= y < rows.len() ==> (#[trigger] rows[y]).len() == WIDTH
}

/// Blackens a pixel, if it is on the paper.
pub fn ink(bitmap: &mut Bitmap, x: i128, y: i128)
    ensures
        rectangular(final(bitmap)@),
        final(bitmap)@.len() == old(bitmap)@.len(),
        forall|i: int, j: int|
            0 <= i < WIDTH && 0 <= j < old(bitmap)@.len() ==> #[trigger] pixel(final(bitmap)@, i, j)
                == (pixel(old(bitmap)@, i, j) || (i == x && j == y)),
{
    proof {
        bitmap.lemma_packed();
    }
    if 0 <= x && x < WIDTH as i128 && 0 <= y && y < bitmap.height() as i128 {
        bitmap.set(x as usize, y as usize, true);
    }
}

/// Pixels are packed from left to right, eight to a byte, the leftmost in the highest bit.
pub proof fn law_pixels_are_packed(row: Seq<u8>, x: int)
    requires
        0 <= x < 384,
    ensures
        unpacked(row).len() == 384,
        unpacked(row)[x] == ((row[x / 8] >> ((7 - x % 8) as u8)) & 1 == 1),
        blank_row().len() == 384,
        !blank_row()[x],
{
}

/// Painted rows are black exactly where they were told to be.
pub proof fn law_painted(height: nat, black: spec_fn(int, int) -> bool, x: int, y: int)
    requires
        0 <= x < 384,
        0 <= y < height,
    ensures
        painted(height, black).len() == height,
        painted(height, black)[y].len() == 384,
        painted(height, black)[y][x] == black(x, y),
        blank_rows(height).len() == height,
        blank_rows(height)[y] == blank_row(),
{
}

} // verus!
