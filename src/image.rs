use vstd::prelude::*;

verus! {

/// One finished row of the picture, as handed back by the worker that rendered it.
#[derive(Debug)]
pub struct Scanline {
    /// Index of the row; row 0 is the bottom of the picture.
    pub row: usize,
    /// `3 * width` bytes: the R, G, B values of each column in turn.
    pub bytes: Vec<u8>,
}

/// An RGB image of 8-bit channels in row-major order, bottom row first.
#[derive(Debug)]
pub struct PixelBuffer {
    pub width: usize,
    pub height: usize,
    pub bytes: Vec<u8>,
}

/// Byte offset of the red channel of pixel `(i, j)`.
pub open spec fn pixel_index(width: nat, i: nat, j: nat) -> nat {
    3 * (j * width + i)
}

/// Byte offset of the first pixel of row `j`.
pub open spec fn row_start(width: nat, j: nat) -> nat {
    3 * width * j
}

/// `px` with the bytes from `start` on replaced by `part`.
pub open spec fn spliced(px: Seq<u8>, start: int, part: Seq<u8>) -> Seq<u8> {
    Seq::new(
        px.len(),
        |k: int|
            if start <= k < start + part.len() {
                part[k - start]
            } else {
                px[k]
            },
    )
}

/// A black image of `width * height` pixels.
pub open spec fn black_image(width: nat, height: nat) -> Seq<u8> {
    Seq::new(width * height * 3, |k: int| 0u8)
}

/// Every scanline names a row of the picture and holds a full row of pixels.
pub open spec fn scanlines_fit(width: nat, height: nat, lines: Seq<Scanline>) -> bool {
    forall|p: int|
        0 <= p < lines.len() ==> (#[trigger] lines[p]).row < height && lines[p].bytes@.len() == 3
            * width
}

/// No two scanlines name the same row.
pub open spec fn rows_distinct(lines: Seq<Scanline>) -> bool {
    forall|p: int, q: int|
        0 <= p < lines.len() && 0 <= q < lines.len() && p != q ==> (#[trigger] lines[p]).row
            != (#[trigger] lines[q]).row
}

/// The picture obtained by writing each scanline, in the given order, into a black image.
pub open spec fn assembled(width: nat, height: nat, lines: Seq<Scanline>) -> Seq<u8>
    decreases lines.len(),
{
    if lines.len() == 0 {
        black_image(width, height)
    } else {
        let last = lines.last();
        spliced(
            assembled(width, height, lines.drop_last()),
            row_start(width, last.row as nat) as int,
            last.bytes@,
        )
    }
}

proof fn lemma_pixel_in_bounds(width: nat, height: nat, i: nat, j: nat)
    requires
        i < width,
        j < height,
    ensures
        pixel_index(width, i, j) + 3 <= width * height * 3,
{
    assert(j * width + i + 1 <= width * height) by (nonlinear_arith)
        requires
            i < width,
            j < height,
    ;
}

proof fn lemma_row_in_bounds(width: nat, height: nat, j: nat)
    requires
        j < height,
    ensures
        row_start(width, j) + 3 * width <= width * height * 3,
{
    assert(3 * width * j + 3 * width <= width * height * 3) by (nonlinear_arith)
        requires
            j < height,
    ;
}

proof fn lemma_assembled_len(width: nat, height: nat, lines: Seq<Scanline>)
    ensures
        assembled(width, height, lines).len() == width * height * 3,
    decreases lines.len(),
{
    if lines.len() > 0 {
        lemma_assembled_len(width, height, lines.drop_last());
    }
}

/// Row of the picture that byte `k` belongs to, and its place within the row.
proof fn lemma_row_of_byte(width: nat, k: nat, j: nat)
    requires
        width > 0,
    ensures
        (row_start(width, j) <= k < row_start(width, j) + 3 * width) <==> k / (3 * width) == j,
{
    let w3 = 3 * width;
    assert(3 * width * j == w3 * j) by (nonlinear_arith)
        requires
            w3 == 3 * width,
    ;
    if w3 * j <= k && k < w3 * j + w3 {
        vstd::arithmetic::div_mod::lemma_fundamental_div_mod(k as int, w3 as int);
        assert(k / w3 == j) by (nonlinear_arith)
            requires
                w3 * j <= k,
                k < w3 * j + w3,
                w3 > 0,
                k == w3 * (k / w3) + k % w3,
                0 <= k % w3 < w3,
        ;
    }
    if k / w3 == j {
        vstd::arithmetic::div_mod::lemma_fundamental_div_mod(k as int, w3 as int);
        assert(w3 * j <= k && k < w3 * j + w3) by (nonlinear_arith)
            requires
                k / w3 == j,
                w3 > 0,
                k == w3 * (k / w3) + k % w3,
                0 <= k % w3 < w3,
        ;
    }
}

/// Byte `k` of an assembled picture comes from the scanline of its row, or is
/// black when no scanline has that row.
pub proof fn lemma_assembled_byte(width: nat, height: nat, lines: Seq<Scanline>, k: nat)
    requires
        width > 0,
        scanlines_fit(width, height, lines),
        rows_distinct(lines),
        k < width * height * 3,
    ensures
        forall|p: int|
            0 <= p < lines.len() && (#[trigger] lines[p]).row == k / (3 * width) ==> assembled(
                width,
                height,
                lines,
            )[k as int] == lines[p].bytes@[k - row_start(width, lines[p].row as nat)],
        (forall|p: int| 0 <= p < lines.len() ==> (#[trigger] lines[p]).row != k / (3 * width))
            ==> assembled(width, height, lines)[k as int] == 0,
    decreases lines.len(),
{
    if lines.len() > 0 {
        let rest = lines.drop_last();
        let last = lines.last();
        assert forall|p: int| 0 <= p < rest.len() implies (#[trigger] rest[p]).row < height
            && rest[p].bytes@.len() == 3 * width by {
            assert(rest[p] == lines[p]);
        }
        assert forall|p: int, q: int|
            0 <= p < rest.len() && 0 <= q < rest.len() && p != q implies (#[trigger] rest[p]).row
            != (#[trigger] rest[q]).row by {
            assert(rest[p] == lines[p]);
            assert(rest[q] == lines[q]);
        }
        lemma_assembled_byte(width, height, rest, k);
        lemma_assembled_len(width, height, rest);
        lemma_row_of_byte(width, k, last.row as nat);
        assert forall|p: int|
            0 <= p < lines.len() && (#[trigger] lines[p]).row == k / (3 * width) implies assembled(
            width,
            height,
            lines,
        )[k as int] == lines[p].bytes@[k - row_start(width, lines[p].row as nat)] by {
            if p < lines.len() - 1 {
                assert(rest[p] == lines[p]);
                assert(lines[p].row != last.row);
            }
        }
        assert((forall|p: int| 0 <= p < lines.len() ==> (#[trigger] lines[p]).row != k / (3
            * width)) ==> assembled(width, height, lines)[k as int] == 0) by {
            if forall|p: int| 0 <= p < lines.len() ==> (#[trigger] lines[p]).row != k / (3 * width) {
                assert forall|p: int| 0 <= p < rest.len() implies (#[trigger] rest[p]).row != k / (3
                    * width) by {
                    assert(rest[p] == lines[p]);
                }
                assert(lines[lines.len() - 1].row != k / (3 * width));
            }
        }
    }
}

/// Workers may finish in any order: assembling the same scanlines, each row
/// rendered once, in any order gives the same picture.
pub proof fn lemma_assembly_order_irrelevant(
    width: nat,
    height: nat,
    first: Seq<Scanline>,
    second: Seq<Scanline>,
)
    requires
        scanlines_fit(width, height, first),
        rows_distinct(first),
        rows_distinct(second),
        first.to_multiset() == second.to_multiset(),
    ensures
        assembled(width, height, first) == assembled(width, height, second),
{
    broadcast use vstd::seq_lib::to_multiset_contains;

    lemma_assembled_len(width, height, first);
    lemma_assembled_len(width, height, second);
    if width > 0 {
        assert forall|p: int| 0 <= p < second.len() implies (#[trigger] second[p]).row < height
            && second[p].bytes@.len() == 3 * width by {
            assert(second.to_multiset().count(second[p]) > 0);
            assert(first.contains(second[p]));
        }
        let a = assembled(width, height, first);
        let b = assembled(width, height, second);
        assert forall|k: int| 0 <= k < a.len() implies a[k] == b[k] by {
            let r = k as nat / (3 * width);
            lemma_assembled_byte(width, height, first, k as nat);
            lemma_assembled_byte(width, height, second, k as nat);
            if exists|p: int| 0 <= p < first.len() && (#[trigger] first[p]).row == r {
                let p = choose|p: int| 0 <= p < first.len() && (#[trigger] first[p]).row == r;
                assert(first.to_multiset().count(first[p]) > 0);
                assert(second.contains(first[p]));
                let q = choose|q: int| 0 <= q < second.len() && second[q] == first[p];
                assert(second[q].row == r);
            } else {
                assert forall|q: int| 0 <= q < second.len() implies (#[trigger] second[q]).row
                    != r by {
                    assert(second.to_multiset().count(second[q]) > 0);
                    assert(first.contains(second[q]));
                }
            }
        }
        assert(a =~= b);
    } else {
        assert(width * height * 3 == 0) by (nonlinear_arith)
            requires
                width == 0,
        ;
        assert(assembled(width, height, first) =~= assembled(width, height, second));
    }
}

impl Scanline {
    /// A row of `width` black pixels.
    pub fn black(row: usize, width: usize) -> (r: Scanline)
        requires
            3 * width <= usize::MAX,
        ensures
            r.row == row,
            r.bytes@ == Seq::new(3 * width as nat, |k: int| 0u8),
    {
        let n: usize = 3 * width;
        let mut bytes: Vec<u8> = Vec::with_capacity(n);
        let mut k: usize = 0;
        while k < n
            invariant
                k <= n,
                bytes@ == Seq::new(k as nat, |x: int| 0u8),
            decreases n - k,
        {
            bytes.push(0u8);
            k = k + 1;
            assert(bytes@ =~= Seq::new(k as nat, |x: int| 0u8));
        }
        Scanline { row, bytes }
    }

    /// Stores the color of column `i`.
    pub fn set_pixel(&mut self, i: usize, rgb: (u8, u8, u8))
        requires
            3 * i + 3 <= old(self).bytes@.len(),
        ensures
            final(self).row == old(self).row,
            final(self).bytes@ == old(self).bytes@.update(3 * i as int, rgb.0).update(
                3 * i + 1,
                rgb.1,
            ).update(3 * i + 2, rgb.2),
    {
        let n = self.bytes.len();
        assert(3 * i + 3 <= n);
        self.bytes.set(3 * i, rgb.0);
        self.bytes.set(3 * i + 1, rgb.1);
        self.bytes.set(3 * i + 2, rgb.2);
    }
}

impl PixelBuffer {
    /// The byte count matches the dimensions.
    pub open spec fn wf(&self) -> bool {
        &&& self.bytes@.len() == self.width * self.height * 3
        &&& self.width * self.height * 3 <= usize::MAX
    }

    /// A black image.
    pub fn new(width: usize, height: usize) -> (r: PixelBuffer)
        requires
            width * height * 3 <= usize::MAX,
        ensures
            r.wf(),
            r.width == width,
            r.height == height,
            r.bytes@ == black_image(width as nat, height as nat),
    {
        let n: usize = width * height * 3;
        let mut bytes: Vec<u8> = Vec::with_capacity(n);
        let mut k: usize = 0;
        while k < n
            invariant
                k <= n,
                n == width * height * 3,
                bytes@ == Seq::new(k as nat, |x: int| 0u8),
            decreases n - k,
        {
            bytes.push(0u8);
            k = k + 1;
            assert(bytes@ =~= Seq::new(k as nat, |x: int| 0u8));
        }
        assert(bytes@ =~= black_image(width as nat, height as nat));
        PixelBuffer { width, height, bytes }
    }

    /// Byte offset of the red channel of pixel `(i, j)`.
    pub fn pixel_offset(&self, i: usize, j: usize) -> (r: usize)
        requires
            self.wf(),
            i < self.width,
            j < self.height,
        ensures
            r == pixel_index(self.width as nat, i as nat, j as nat),
            r + 3 <= self.bytes@.len(),
    {
        proof {
            lemma_pixel_in_bounds(self.width as nat, self.height as nat, i as nat, j as nat);
        }
        3 * (j * self.width + i)
    }

    /// The color stored for pixel `(i, j)`.
    pub fn pixel(&self, i: usize, j: usize) -> (r: (u8, u8, u8))
        requires
            self.wf(),
            i < self.width,
            j < self.height,
        ensures
            ({
                let o = pixel_index(self.width as nat, i as nat, j as nat) as int;
                r == (self.bytes@[o], self.bytes@[o + 1], self.bytes@[o + 2])
            }),
    {
        let o = self.pixel_offset(i, j);
        (self.bytes[o], self.bytes[o + 1], self.bytes[o + 2])
    }

    /// Stores the color of pixel `(i, j)`, leaving every other byte as it was.
    pub fn set_pixel(&mut self, i: usize, j: usize, rgb: (u8, u8, u8))
        requires
            old(self).wf(),
            i < old(self).width,
            j < old(self).height,
        ensures
            final(self).wf(),
            final(self).width == old(self).width,
            final(self).height == old(self).height,
            ({
                let o = pixel_index(old(self).width as nat, i as nat, j as nat) as int;
                final(self).bytes@ == old(self).bytes@.update(o, rgb.0).update(o + 1, rgb.1).update(
                    o + 2,
                    rgb.2,
                )
            }),
    {
        let o = self.pixel_offset(i, j);
        self.bytes.set(o, rgb.0);
        self.bytes.set(o + 1, rgb.1);
        self.bytes.set(o + 2, rgb.2);
    }

    /// Writes a finished scanline into its row, leaving the other rows as they were.
    pub fn set_scanline(&mut self, line: &Scanline)
        requires
            old(self).wf(),
            line.row < old(self).height,
            line.bytes@.len() == 3 * old(self).width,
        ensures
            final(self).wf(),
            final(self).width == old(self).width,
            final(self).height == old(self).height,
            final(self).bytes@ == spliced(
                old(self).bytes@,
                row_start(old(self).width as nat, line.row as nat) as int,
                line.bytes@,
            ),
    {
        proof {
            lemma_row_in_bounds(self.width as nat, self.height as nat, line.row as nat);
        }
        let start: usize = 3 * self.width * line.row;
        let n: usize = 3 * self.width;
        let ghost before = self.bytes@;
        let ghost width = self.width;
        let ghost height = self.height;
        let mut k: usize = 0;
        while k < n
            invariant
                k <= n,
                self.width == width,
                self.height == height,
                width * height * 3 <= usize::MAX,
                n == line.bytes@.len(),
                start + n <= before.len(),
                start == row_start(self.width as nat, line.row as nat),
                self.bytes@.len() == before.len(),
                self.width * self.height * 3 == before.len(),
                forall|x: int|
                    0 <= x < before.len() ==> #[trigger] self.bytes@[x] == if start <= x < start
                        + k {
                        line.bytes@[x - start]
                    } else {
                        before[x]
                    },
            decreases n - k,
        {
            self.bytes.set(start + k, line.bytes[k]);
            k = k + 1;
        }
        assert(self.bytes@ =~= spliced(before, start as int, line.bytes@));
    }

    /// Puts the scanlines that the workers returned, in the order given, into
    /// a black image of `width * height` pixels. Fails when the image would not
    /// fit in memory, or when a scanline names a row outside the picture or does
    /// not hold exactly `width` pixels.
    pub fn assemble(width: usize, height: usize, lines: &Vec<Scanline>) -> (r: Option<PixelBuffer>)
        ensures
            r is Some <==> (width * height * 3 <= usize::MAX && scanlines_fit(
                width as nat,
                height as nat,
                lines@,
            )),
            r matches Some(img) ==> img.wf() && img.width == width && img.height == height
                && img.bytes@ == assembled(width as nat, height as nat, lines@),
    {
        if height > 0 && width > usize::MAX / 3 / height {
            proof {
                assert(width * height * 3 > usize::MAX) by (nonlinear_arith)
                    requires
                        height > 0,
                        width > usize::MAX / 3 / height,
                ;
            }
            return None;
        }
        proof {
            assert(width * height * 3 <= usize::MAX) by (nonlinear_arith)
                requires
                    height == 0 || width <= usize::MAX / 3 / height,
            ;
        }
        let mut img = PixelBuffer::new(width, height);
        let mut p: usize = 0;
        while p < lines.len()
            invariant
                p <= lines@.len(),
                img.wf(),
                img.width == width,
                img.height == height,
                scanlines_fit(width as nat, height as nat, lines@.subrange(0, p as int)),
                img.bytes@ == assembled(width as nat, height as nat, lines@.subrange(0, p as int)),
            decreases lines@.len() - p,
        {
            let line = &lines[p];
            if line.row < height {
                proof {
                    assert(3 * width <= width * height * 3) by (nonlinear_arith)
                        requires
                            line.row < height,
                    ;
                }
            }
            if line.row >= height || line.bytes.len() != 3 * width {
                proof {
                    assert(lines@[p as int].row >= height || lines@[p as int].bytes@.len() != 3
                        * width);
                }
                return None;
            }
            img.set_scanline(line);
            proof {
                let next = lines@.subrange(0, p + 1);
                assert(next.drop_last() =~= lines@.subrange(0, p as int));
                assert(next.last() == lines@[p as int]);
                assert forall|q: int| 0 <= q < next.len() implies (#[trigger] next[q]).row < height
                    && next[q].bytes@.len() == 3 * width by {
                    if q < p {
                        assert(next[q] == lines@.subrange(0, p as int)[q]);
                    }
                }
            }
            p = p + 1;
        }
        assert(lines@.subrange(0, p as int) =~= lines@);
        Some(img)
    }
}

} // verus!
