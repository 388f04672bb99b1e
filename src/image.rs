//! The finished picture: a flat buffer of 8-bit pixels and its text encoding.
use vstd::prelude::*;
use vstd::arithmetic::div_mod::{lemma_div_by_multiple, lemma_div_by_multiple_is_strongly_ordered};

verus! {

/// One pixel, one byte per channel.
#[derive(Clone, Copy, Debug, PartialEq, Eq, Structural)]
pub struct Rgb8 {
    pub r: u8,
    pub g: u8,
    pub b: u8,
}

/// A picture of `width` by `height` pixels. Pixels are addressed in camera
/// coordinates: column `i` from the left, row `j` from the bottom. The buffer
/// holds the rows from the top of the picture down, each from left to right.
pub struct Image {
    width: usize,
    height: usize,
    pixels: Vec<Rgb8>,
}

/// Mathematical model of an [`Image`].
pub struct ImageView {
    pub width: nat,
    pub height: nat,
    /// The pixels in emission order: top row first, each row left to right.
    pub pixels: Seq<Rgb8>,
}

/// Position in emission order of the pixel at column `i`, row `j` from the bottom.
pub open spec fn offset_of(width: nat, height: nat, i: int, j: int) -> int {
    (height - 1 - j) * width + i
}

impl View for Image {
    type V = ImageView;

    closed spec fn view(&self) -> ImageView {
        ImageView { width: self.width as nat, height: self.height as nat, pixels: self.pixels@ }
    }
}

impl ImageView {
    pub open spec fn wf(self) -> bool {
        self.pixels.len() == self.width * self.height
    }

    /// The pixel at column `i`, row `j` counted from the bottom.
    pub open spec fn at(self, i: int, j: int) -> Rgb8 {
        self.pixels[offset_of(self.width, self.height, i, j)]
    }
}

// ASCII codes of the characters that the pixmap text is made of.
pub const CHAR_P: u8 = 80;
pub const CHAR_2: u8 = 50;
pub const CHAR_3: u8 = 51;
pub const CHAR_5: u8 = 53;
pub const SPACE: u8 = 32;
pub const NEWLINE: u8 = 10;

/// The decimal digits of `n`, most significant first, as ASCII bytes.
pub open spec fn decimal(n: nat) -> Seq<u8>
    decreases n,
{
    if n < 10 {
        seq![(48 + n) as u8]
    } else {
        decimal(n / 10).push((48 + n % 10) as u8)
    }
}

/// The header of the text pixmap: its magic number, the size, and the largest
/// channel value, one per line.
pub open spec fn ppm_header(width: nat, height: nat) -> Seq<u8> {
    seq![CHAR_P, CHAR_3, NEWLINE] + decimal(width) + seq![SPACE] + decimal(height) + seq![
        NEWLINE,
        CHAR_2,
        CHAR_5,
        CHAR_5,
        NEWLINE,
    ]
}

/// One pixel's line: its three channels in decimal, separated by spaces.
pub open spec fn ppm_line(px: Rgb8) -> Seq<u8> {
    decimal(px.r as nat) + seq![SPACE] + decimal(px.g as nat) + seq![SPACE] + decimal(px.b as nat)
        + seq![NEWLINE]
}

/// The lines of the given pixels, in order.
pub open spec fn ppm_lines(pixels: Seq<Rgb8>) -> Seq<u8>
    decreases pixels.len(),
{
    if pixels.len() == 0 {
        Seq::empty()
    } else {
        ppm_lines(pixels.drop_last()) + ppm_line(pixels.last())
    }
}

/// The whole text pixmap of a picture: header, then one line per pixel in
/// emission order.
pub open spec fn ppm(img: ImageView) -> Seq<u8> {
    ppm_header(img.width, img.height) + ppm_lines(img.pixels)
}

/// Appends the decimal digits of `n`.
fn push_decimal(out: &mut Vec<u8>, n: u64)
    ensures
        final(out)@ == old(out)@ + decimal(n as nat),
    decreases n,
{
    if n >= 10 {
        push_decimal(out, n / 10);
    }
    out.push((48 + n % 10) as u8);
    proof {
        if n < 10 {
            assert(n % 10 == n);
        }
    }
    assert(final(out)@ =~= old(out)@ + decimal(n as nat));
}

/// Appends one pixel's line.
fn push_line(out: &mut Vec<u8>, px: Rgb8)
    ensures
        final(out)@ == old(out)@ + ppm_line(px),
{
    push_decimal(out, px.r as u64);
    out.push(SPACE);
    push_decimal(out, px.g as u64);
    out.push(SPACE);
    push_decimal(out, px.b as u64);
    out.push(NEWLINE);
    assert(final(out)@ =~= old(out)@ + ppm_line(px));
}

/// A black pixel.
pub open spec fn black() -> Rgb8 {
    Rgb8 { r: 0, g: 0, b: 0 }
}

proof fn lemma_offset_in_bounds(width: nat, height: nat, i: int, j: int)
    requires
        0 <= i < width,
        0 <= j < height,
    ensures
        0 <= offset_of(width, height, i, j) < width * height,
{
    let row = height - 1 - j;
    assert(0 <= row < height);
    assert(0 <= row * width) by (nonlinear_arith)
        requires
            0 <= row,
            0 <= width,
    ;
    assert(row * width + i < width * height) by (nonlinear_arith)
        requires
            0 <= row < height,
            0 <= i < width,
    ;
}

/// The test pattern's pixel at column `i`, row `j` from the bottom: red grows
/// from left to right, green from bottom to top, and blue stays at half.
pub open spec fn gradient_pixel(width: nat, height: nat, i: int, j: int) -> Rgb8 {
    Rgb8 { r: (256 * i / (width as int)) as u8, g: (256 * j / (height as int)) as u8, b: 128 }
}

/// `256 * k / n` for `k < n`, which fits in a byte.
fn scaled_byte(k: usize, n: usize) -> (b: u8)
    requires
        k < n,
    ensures
        b as int == 256 * k / (n as int),
{
    proof {
        lemma_div_by_multiple(256, n as int);
        lemma_div_by_multiple_is_strongly_ordered(256 * k, 256 * n, 256, n as int);
        assert(0 <= 256 * k / (n as int)) by (nonlinear_arith)
            requires
                0 <= k,
                0 < n,
        ;
    }
    ((256 * (k as u128)) / (n as u128)) as u8
}

/// Distinct pixels of a picture sit at distinct places in the buffer.
proof fn lemma_offset_injective(width: nat, height: nat, i1: int, j1: int, i2: int, j2: int)
    requires
        0 <= i1 < width,
        0 <= j1 < height,
        0 <= i2 < width,
        0 <= j2 < height,
        offset_of(width, height, i1, j1) == offset_of(width, height, i2, j2),
    ensures
        i1 == i2,
        j1 == j2,
{
    let a = height - 1 - j1;
    let b = height - 1 - j2;
    assert(a == b) by (nonlinear_arith)
        requires
            0 <= i1 < width,
            0 <= i2 < width,
            a * width + i1 == b * width + i2,
    {
        if a < b {
            assert(a * width + width <= b * width);
        } else if b < a {
            assert(b * width + width <= a * width);
        }
    }
}

impl Image {
    /// The buffer holds one pixel per place, and the picture fits in memory.
    pub open spec fn wf(&self) -> bool {
        &&& self@.wf()
        &&& self@.width * self@.height <= usize::MAX
    }

    /// Position in the buffer of the pixel at column `i`, row `j` from the bottom.
    fn offset(&self, i: usize, j: usize) -> (k: usize)
        requires
            self.wf(),
            i < self.width,
            j < self.height,
        ensures
            k == offset_of(self.width as nat, self.height as nat, i as int, j as int),
            k < self.pixels@.len(),
    {
        proof {
            lemma_offset_in_bounds(self.width as nat, self.height as nat, i as int, j as int);
        }
        let row = self.height - 1 - j;
        assert(row * self.width <= row * self.width + i);
        row * self.width + i
    }

    /// A black picture of the given size.
    pub fn new(width: usize, height: usize) -> (img: Image)
        requires
            width * height <= usize::MAX,
        ensures
            img.wf(),
            img@.width == width,
            img@.height == height,
            img@.pixels == Seq::new((width * height) as nat, |k: int| black()),
    {
        let n: usize = width * height;
        let mut pixels: Vec<Rgb8> = Vec::new();
        for k in 0..n
            invariant
                pixels@ == Seq::new(k as nat, |x: int| black()),
        {
            pixels.push(Rgb8 { r: 0, g: 0, b: 0 });
            assert(pixels@ =~= Seq::new((k + 1) as nat, |x: int| black()));
        }
        Image { width, height, pixels }
    }

    pub fn width(&self) -> (w: usize)
        ensures
            w == self@.width,
    {
        self.width
    }

    pub fn height(&self) -> (h: usize)
        ensures
            h == self@.height,
    {
        self.height
    }

    /// The pixel at column `i`, row `j` counted from the bottom.
    pub fn get(&self, i: usize, j: usize) -> (px: Rgb8)
        requires
            self.wf(),
            i < self@.width,
            j < self@.height,
        ensures
            px == self@.at(i as int, j as int),
    {
        let k = self.offset(i, j);
        self.pixels[k]
    }

    /// Sets the pixel at column `i`, row `j` counted from the bottom.
    pub fn set(&mut self, i: usize, j: usize, px: Rgb8)
        requires
            old(self).wf(),
            i < old(self)@.width,
            j < old(self)@.height,
        ensures
            final(self).wf(),
            final(self)@.width == old(self)@.width,
            final(self)@.height == old(self)@.height,
            final(self)@.pixels == old(self)@.pixels.update(
                offset_of(old(self)@.width, old(self)@.height, i as int, j as int),
                px,
            ),
            final(self)@.at(i as int, j as int) == px,
            forall|i2: int, j2: int|
                0 <= i2 < old(self)@.width && 0 <= j2 < old(self)@.height && (i2 != i || j2 != j)
                    ==> #[trigger] final(self)@.at(i2, j2) == old(self)@.at(i2, j2),
    {
        let k = self.offset(i, j);
        self.pixels.set(k, px);
        proof {
            let w = self.width as nat;
            let h = self.height as nat;
            assert forall|i2: int, j2: int|
                0 <= i2 < w && 0 <= j2 < h && (i2 != i || j2 != j) implies #[trigger] self@.at(
                i2,
                j2,
            ) == old(self)@.at(i2, j2) by {
                lemma_offset_in_bounds(w, h, i2, j2);
                if offset_of(w, h, i2, j2) == offset_of(w, h, i as int, j as int) {
                    lemma_offset_injective(w, h, i2, j2, i as int, j as int);
                }
            }
        }
    }

    /// The gradient test pattern of the given size.
    pub fn gradient(width: usize, height: usize) -> (img: Image)
        requires
            width * height <= usize::MAX,
        ensures
            img.wf(),
            img@.width == width,
            img@.height == height,
            forall|i: int, j: int|
                0 <= i < width && 0 <= j < height ==> #[trigger] img@.at(i, j) == gradient_pixel(
                    width as nat,
                    height as nat,
                    i,
                    j,
                ),
    {
        let mut img = Image::new(width, height);
        for j in 0..height
            invariant
                img.wf(),
                img@.width == width,
                img@.height == height,
                forall|i2: int, j2: int|
                    0 <= i2 < width && 0 <= j2 < j ==> #[trigger] img@.at(i2, j2) == gradient_pixel(
                        width as nat,
                        height as nat,
                        i2,
                        j2,
                    ),
        {
            for i in 0..width
                invariant
                    j < height,
                    img.wf(),
                    img@.width == width,
                    img@.height == height,
                    forall|i2: int, j2: int|
                        0 <= i2 < width && 0 <= j2 < j ==> #[trigger] img@.at(i2, j2)
                            == gradient_pixel(width as nat, height as nat, i2, j2),
                    forall|i2: int|
                        0 <= i2 < i ==> #[trigger] img@.at(i2, j as int) == gradient_pixel(
                            width as nat,
                            height as nat,
                            i2,
                            j as int,
                        ),
            {
                let px = Rgb8 { r: scaled_byte(i, width), g: scaled_byte(j, height), b: 128 };
                img.set(i, j, px);
            }
        }
        img
    }

    /// The picture as a plain-text pixmap.
    pub fn to_ppm(&self) -> (out: Vec<u8>)
        ensures
            out@ == ppm(self@),
    {
        let mut out: Vec<u8> = Vec::new();
        out.push(CHAR_P);
        out.push(CHAR_3);
        out.push(NEWLINE);
        push_decimal(&mut out, self.width as u64);
        out.push(SPACE);
        push_decimal(&mut out, self.height as u64);
        out.push(NEWLINE);
        out.push(CHAR_2);
        out.push(CHAR_5);
        out.push(CHAR_5);
        out.push(NEWLINE);
        let ghost header = out@;
        assert(header =~= ppm_header(self.width as nat, self.height as nat));
        let n = self.pixels.len();
        for k in 0..n
            invariant
                n == self.pixels@.len(),
                header == ppm_header(self.width as nat, self.height as nat),
                out@ == header + ppm_lines(self.pixels@.take(k as int)),
        {
            let ghost before = out@;
            push_line(&mut out, self.pixels[k]);
            assert(self.pixels@.take(k + 1).drop_last() =~= self.pixels@.take(k as int));
            assert(out@ =~= header + ppm_lines(self.pixels@.take(k + 1)));
        }
        assert(self.pixels@.take(n as int) =~= self.pixels@);
        out
    }
}

} // verus!
