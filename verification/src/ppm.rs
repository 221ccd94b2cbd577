//! The plain-text raster image: a short header, then one line per pixel, row
//! by row from the top, each row from the left.
use vstd::prelude::*;
use itertools::Itertools;
use crate::text::{
    contents, decimal, join, joined, lemma_decimal_is_one_line, lemma_joined_line_feeds,
    lemma_line_feeds_add, lemma_line_feeds_one, line_feeds, push_decimal, push_space,
};
use crate::types::{lemma_color_is_one_line, Color};

verus! {

/// The shape of an image: its size in pixels and the largest value a colour
/// channel may take.
#[derive(Clone, Copy, Debug, PartialEq, Eq, Structural)]
pub struct PPM {
    pub width: u32,
    pub height: u32,
    pub max_color: u8,
}

/// The cells of a grid of `height` rows and `width` columns as (row, column),
/// the rows from the top, each row from the left.
pub open spec fn row_major(height: u32, width: u32) -> Seq<(u32, u32)> {
    Seq::new(
        (height * width) as nat,
        |i: int| ((i / (width as int)) as u32, (i % (width as int)) as u32),
    )
}

/// The cells of the grid in row-major order, by `Itertools::cartesian_product`
/// of the itertools crate on the two ranges `0..height` and `0..width`. That
/// adaptor pairs every item of the first range, in order, with every item of
/// the second, in order; the contract says so through [`row_major`]. The
/// pairs are collected into one vector, so their number is bounded by what
/// one allocation can hold.
#[verifier::external_body]
fn grid(height: u32, width: u32) -> (cells: Vec<(u32, u32)>)
    requires
        height * width * 8 <= isize::MAX,
    ensures
        cells@ == row_major(height, width),
{
    (0..height).cartesian_product(0..width).collect()
}

impl PPM {
    /// The number of pixels.
    pub open spec fn area(self) -> nat {
        (self.width * self.height) as nat
    }

    /// The four lines before the pixels: the format's name, the width and
    /// the height, the largest channel value, and an empty line.
    pub open spec fn header(self) -> Seq<Seq<char>> {
        seq![
            seq!['P', '3'],
            decimal(self.width as nat) + seq![' '] + decimal(self.height as nat),
            decimal(self.max_color as nat),
            Seq::empty(),
        ]
    }

    /// The lines of the image that holds `pixels`: the header, then one line
    /// for each pixel, in order.
    pub open spec fn lines(self, pixels: Seq<Color>) -> Seq<Seq<char>> {
        Seq::new(
            4 + pixels.len(),
            |i: int|
                if i < 4 {
                    self.header()[i]
                } else {
                    pixels[i - 4].text()
                },
        )
    }

    /// The image that holds `pixels`, as text: its lines, each ended by a
    /// line feed.
    pub open spec fn image(self, pixels: Seq<Color>) -> Seq<char> {
        joined(self.lines(pixels), seq!['\n']) + seq!['\n']
    }

    /// Whether `pixels` is a grid of this shape coloured by `f`: one pixel
    /// for every cell, in row-major order, each a colour that `f` may return
    /// for the cell's column and row.
    pub open spec fn colored_by<F: Fn(u32, u32) -> Color>(self, f: F, pixels: Seq<Color>) -> bool {
        &&& pixels.len() == self.area()
        &&& forall|i: int|
            0 <= i < pixels.len() ==> call_ensures(
                f,
                ((i % (self.width as int)) as u32, (i / (self.width as int)) as u32),
                #[trigger] pixels[i],
            )
    }

    /// The shape with the given size and largest channel value.
    pub fn new(width: u32, height: u32, max_color: u8) -> (ppm: PPM)
        ensures
            ppm == (PPM { width, height, max_color }),
    {
        PPM { width, height, max_color }
    }

    /// Writes the image whose pixels `f` colours: `f` is called once for
    /// every cell, with the column and the row, the rows from the top and
    /// each row from the left, and the colours it returns are written in
    /// that order after the header.
    pub fn write_fn<F: Fn(u32, u32) -> Color>(self, f: F) -> (text: String)
        requires
            self.width * self.height * 8 <= isize::MAX,
            forall|x: u32, y: u32| x < self.width && y < self.height ==> call_requires(f, (x, y)),
        ensures
            exists|pixels: Seq<Color>| #[trigger]
                self.colored_by(f, pixels) && text@ == self.image(pixels),
    {
        assert(self.height * self.width == self.width * self.height) by (nonlinear_arith);
        let cells: Vec<(u32, u32)> = grid(self.height, self.width);
        let mut lines: Vec<String> = Vec::new();
        lines.push("P3".to_owned());
        let mut size: String = String::new();
        push_decimal(&mut size, self.width);
        push_space(&mut size);
        push_decimal(&mut size, self.height);
        lines.push(size);
        let mut depth: String = String::new();
        push_decimal(&mut depth, self.max_color as u32);
        lines.push(depth);
        lines.push(String::new());
        proof {
            reveal_strlit("P3");
            assert(lines@[0]@ =~= self.header()[0]);
            assert(lines@[1]@ =~= self.header()[1]);
            assert(lines@[2]@ =~= self.header()[2]);
            assert(lines@[3]@ =~= self.header()[3]);
        }
        let ghost mut pixels: Seq<Color> = Seq::empty();
        let mut i: usize = 0;
        while i < cells.len()
            invariant
                i <= cells.len(),
                cells@ == row_major(self.height, self.width),
                cells@.len() == self.area(),
                forall|x: u32, y: u32|
                    x < self.width && y < self.height ==> call_requires(f, (x, y)),
                pixels.len() == i,
                lines@.len() == 4 + i,
                forall|j: int| 0 <= j < 4 ==> (#[trigger] lines@[j])@ == self.header()[j],
                forall|j: int| 0 <= j < i ==> (#[trigger] lines@[4 + j])@ == pixels[j].text(),
                forall|j: int|
                    0 <= j < i ==> call_ensures(
                        f,
                        ((j % (self.width as int)) as u32, (j / (self.width as int)) as u32),
                        #[trigger] pixels[j],
                    ),
            decreases cells.len() - i,
        {
            let (row, column): (u32, u32) = cells[i];
            proof {
                lemma_cell_in_grid(self.height, self.width, i as int);
            }
            let color: Color = f(column, row);
            lines.push(color.write());
            proof {
                pixels = pixels.push(color);
            }
            i += 1;
        }
        proof {
            reveal_strlit("\n");
            assert forall|j: int| 0 <= j < lines@.len() implies contents(lines@)[j] == self.lines(
                pixels,
            )[j] by {
                if j >= 4 {
                    assert((lines@[4 + (j - 4)])@ == pixels[j - 4].text());
                }
            }
            assert(contents(lines@) =~= self.lines(pixels));
            assert("\n"@ =~= seq!['\n']);
        }
        let mut text: String = join(&lines, "\n");
        text.append("\n");
        assert(text@ =~= self.image(pixels));
        assert(self.colored_by(f, pixels));
        text
    }
}

/// Cell `i` of a grid lies inside the grid.
proof fn lemma_cell_in_grid(height: u32, width: u32, i: int)
    requires
        0 <= i < height * width,
    ensures
        0 <= i / (width as int) < height,
        0 <= i % (width as int) < width,
{
    assert(width > 0) by (nonlinear_arith)
        requires
            0 <= i < height * width,
    ;
    vstd::arithmetic::div_mod::lemma_fundamental_div_mod(i, width as int);
    assert(0 <= i / (width as int) < height) by (nonlinear_arith)
        requires
            0 <= i < height * width,
            width > 0,
            i == (width as int) * (i / (width as int)) + i % (width as int),
            0 <= i % (width as int) < width,
    ;
}

/// The pixel-count law: whatever colours the pixels, the image has its four
/// header lines and then exactly one line for each of its `width * height`
/// pixels, in their order, and its text holds one line feed for each of
/// these lines and no other.
pub proof fn lemma_one_line_per_pixel<F: Fn(u32, u32) -> Color>(ppm: PPM, f: F, pixels: Seq<Color>)
    requires
        ppm.colored_by(f, pixels),
    ensures
        ppm.lines(pixels).len() == 4 + ppm.width * ppm.height,
        forall|i: int|
            0 <= i < ppm.width * ppm.height ==> #[trigger] ppm.lines(pixels)[4 + i]
                == pixels[i].text(),
        line_feeds(ppm.image(pixels)) == 4 + ppm.width * ppm.height,
{
    let lines = ppm.lines(pixels);
    let space = seq![' '];
    let feed = seq!['\n'];
    assert forall|i: int| 0 <= i < lines.len() implies line_feeds(#[trigger] lines[i]) == 0 by {
        if i == 0 {
            lemma_line_feeds_one('P');
            lemma_line_feeds_one('3');
            lemma_line_feeds_add(seq!['P'], seq!['3']);
            assert(seq!['P', '3'] =~= seq!['P'] + seq!['3']);
        } else if i == 1 {
            lemma_decimal_is_one_line(ppm.width as nat);
            lemma_decimal_is_one_line(ppm.height as nat);
            lemma_line_feeds_one(' ');
            lemma_line_feeds_add(decimal(ppm.width as nat), space);
            lemma_line_feeds_add(decimal(ppm.width as nat) + space, decimal(ppm.height as nat));
        } else if i == 2 {
            lemma_decimal_is_one_line(ppm.max_color as nat);
        } else if i == 3 {
        } else {
            lemma_color_is_one_line(pixels[i - 4]);
        }
    }
    lemma_joined_line_feeds(lines);
    lemma_line_feeds_add(joined(lines, feed), feed);
    lemma_line_feeds_one('\n');
}

/// Every channel written lies within the image's largest channel value,
/// provided the colouring function returns no colour beyond it.
pub proof fn lemma_channels_in_range<F: Fn(u32, u32) -> Color>(ppm: PPM, f: F, pixels: Seq<Color>)
    requires
        ppm.colored_by(f, pixels),
        forall|x: u32, y: u32, color: Color|
            x < ppm.width && y < ppm.height && call_ensures(f, (x, y), color) ==> color.within(
                ppm.max_color as nat,
            ),
    ensures
        forall|i: int| 0 <= i < pixels.len() ==> (#[trigger] pixels[i]).within(ppm.max_color as nat),
{
    assert forall|i: int| 0 <= i < pixels.len() implies (#[trigger] pixels[i]).within(
        ppm.max_color as nat,
    ) by {
        assert(ppm.height * ppm.width == ppm.width * ppm.height) by (nonlinear_arith);
        lemma_cell_in_grid(ppm.height, ppm.width, i);
    }
}

/// The colours decide the image: two colouring functions that agree on
/// every pixel of the grid, each returning one colour only, give the same
/// pixels and the same text, character for character.
pub proof fn lemma_same_colors_same_image<F: Fn(u32, u32) -> Color, G: Fn(u32, u32) -> Color>(
    ppm: PPM,
    f: F,
    g: G,
    first: Seq<Color>,
    second: Seq<Color>,
)
    requires
        ppm.colored_by(f, first),
        ppm.colored_by(g, second),
        forall|x: u32, y: u32, a: Color, b: Color|
            x < ppm.width && y < ppm.height && call_ensures(f, (x, y), a) && call_ensures(
                g,
                (x, y),
                b,
            ) ==> a == b,
    ensures
        first == second,
        ppm.image(first) == ppm.image(second),
{
    assert forall|i: int| 0 <= i < first.len() implies first[i] == second[i] by {
        assert(ppm.height * ppm.width == ppm.width * ppm.height) by (nonlinear_arith);
        lemma_cell_in_grid(ppm.height, ppm.width, i);
    }
    assert(first =~= second);
}

} // verus!
