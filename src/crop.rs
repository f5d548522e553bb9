//! Finding the bounding box of an image's content and cropping to it.

use vstd::prelude::*;
use crate::grid::{
    is_content, lemma_bounds, lemma_crop_pixel, lemma_crop_whole, lemma_offset_in_bounds, GridView,
    PixelGrid,
};

verus! {

/// A pixel coordinate, `x` to the right and `y` down from the top-left corner.
#[derive(Clone, Copy, Debug, PartialEq, Eq, Structural)]
pub struct Point {
    pub x: u32,
    pub y: u32,
}

#[derive(Clone, Copy, Debug, PartialEq, Eq, Structural)]
pub enum CropError {
    /// The raw buffer does not hold exactly four bytes per pixel.
    Construct,
    /// No pixel of the image counts as content.
    NoContentFound,
}

/// Holds an image and crops it to its content.
pub struct ImageCrop {
    pub original: PixelGrid,
}

fn is_content_pixel(pixel: [u8; 4]) -> (r: bool)
    ensures
        r == is_content(pixel@),
{
    pixel[0] != 255 && pixel[1] != 255 && pixel[2] != 255 && pixel[3] != 0
}

impl ImageCrop {
    /// Takes `buffer` as a tightly packed RGBA8 image of `width` x `height`
    /// pixels; fails when its length is not `4 * width * height`.
    pub fn from_buffer(width: u32, height: u32, buffer: Vec<u8>) -> (r: Result<ImageCrop, CropError>)
        ensures
            match r {
                Ok(c) => buffer@.len() == 4 * width * height && c.original@ == (GridView {
                    width: width as nat,
                    height: height as nat,
                    bytes: buffer@,
                }),
                Err(e) => e == CropError::Construct && buffer@.len() != 4 * width * height,
            },
    {
        let len: usize = buffer.len();
        match (width as usize).checked_mul(height as usize) {
            Some(pixels) => match pixels.checked_mul(4) {
                Some(n) => {
                    assert(n == 4 * width * height) by (nonlinear_arith)
                        requires
                            pixels == width * height,
                            n == pixels * 4,
                    ;
                    if len == n {
                        Ok(ImageCrop { original: PixelGrid { width, height, data: buffer } })
                    } else {
                        Err(CropError::Construct)
                    }
                },
                None => {
                    assert(4 * width * height == pixels * 4) by (nonlinear_arith)
                        requires
                            pixels == width * height,
                    ;
                    Err(CropError::Construct)
                },
            },
            None => {
                assert(4 * width * height >= width * height) by (nonlinear_arith);
                Err(CropError::Construct)
            },
        }
    }

    /// The first column, scanning left to right, that holds a content pixel.
    pub fn top_left_corner_x(&self) -> (r: Option<u32>)
        requires
            self.original@.wf(),
        ensures
            match r {
                Some(x) => self.original@.is_left(x as int),
                None => !self.original@.has_content(),
            },
    {
        let mut x: u32 = 0;
        while x < self.original.width
            invariant
                self.original@.wf(),
                x <= self.original.width,
                forall|i: int| 0 <= i < x ==> !#[trigger] self.original@.column_has_content(i),
            decreases self.original.width - x,
        {
            let mut y: u32 = 0;
            while y < self.original.height
                invariant
                    self.original@.wf(),
                    x < self.original.width,
                    y <= self.original.height,
                    forall|i: int| 0 <= i < x ==> !#[trigger] self.original@.column_has_content(i),
                    forall|j: int| 0 <= j < y ==> !#[trigger] self.original@.is_content_at(x as int, j),
                decreases self.original.height - y,
            {
                if is_content_pixel(self.original.get_pixel(x, y)) {
                    assert(self.original@.is_content_at(x as int, y as int));
                    return Some(x);
                }
                y += 1;
            }
            x += 1;
        }
        proof {
            if self.original@.has_content() {
                let (i, j) = choose|i: int, j: int|
                    0 <= i < self.original@.width && 0 <= j < self.original@.height && #[trigger] self.original@.is_content_at(i, j);
                assert(self.original@.column_has_content(i));
            }
        }
        None
    }

    /// The first row, scanning top to bottom, that holds a content pixel.
    pub fn top_left_corner_y(&self) -> (r: Option<u32>)
        requires
            self.original@.wf(),
        ensures
            match r {
                Some(y) => self.original@.is_top(y as int),
                None => !self.original@.has_content(),
            },
    {
        let mut y: u32 = 0;
        while y < self.original.height
            invariant
                self.original@.wf(),
                y <= self.original.height,
                forall|j: int| 0 <= j < y ==> !#[trigger] self.original@.row_has_content(j),
            decreases self.original.height - y,
        {
            let mut x: u32 = 0;
            while x < self.original.width
                invariant
                    self.original@.wf(),
                    y < self.original.height,
                    x <= self.original.width,
                    forall|j: int| 0 <= j < y ==> !#[trigger] self.original@.row_has_content(j),
                    forall|i: int| 0 <= i < x ==> !#[trigger] self.original@.is_content_at(i, y as int),
                decreases self.original.width - x,
            {
                if is_content_pixel(self.original.get_pixel(x, y)) {
                    assert(self.original@.is_content_at(x as int, y as int));
                    return Some(y);
                }
                x += 1;
            }
            y += 1;
        }
        proof {
            if self.original@.has_content() {
                let (i, j) = choose|i: int, j: int|
                    0 <= i < self.original@.width && 0 <= j < self.original@.height && #[trigger] self.original@.is_content_at(i, j);
                assert(self.original@.row_has_content(j));
            }
        }
        None
    }

    /// One past the last column, scanning right to left, that holds a
    /// content pixel.
    pub fn bottom_right_corner_x(&self) -> (r: Option<u32>)
        requires
            self.original@.wf(),
        ensures
            match r {
                Some(x) => self.original@.is_right(x as int),
                None => !self.original@.has_content(),
            },
    {
        let mut x: u32 = self.original.width;
        while x > 0
            invariant
                self.original@.wf(),
                x <= self.original.width,
                forall|i: int| x <= i < self.original.width ==> !#[trigger] self.original@.column_has_content(i),
            decreases x,
        {
            let mut y: u32 = self.original.height;
            while y > 0
                invariant
                    self.original@.wf(),
                    0 < x <= self.original.width,
                    y <= self.original.height,
                    forall|i: int| x <= i < self.original.width ==> !#[trigger] self.original@.column_has_content(i),
                    forall|j: int| y <= j < self.original.height ==> !#[trigger] self.original@.is_content_at(x - 1, j),
                decreases y,
            {
                if is_content_pixel(self.original.get_pixel(x - 1, y - 1)) {
                    assert(self.original@.is_content_at(x - 1, y - 1));
                    return Some(x);
                }
                y -= 1;
            }
            x -= 1;
        }
        proof {
            if self.original@.has_content() {
                let (i, j) = choose|i: int, j: int|
                    0 <= i < self.original@.width && 0 <= j < self.original@.height && #[trigger] self.original@.is_content_at(i, j);
                assert(self.original@.column_has_content(i));
            }
        }
        None
    }

    /// One past the last row, scanning bottom to top, that holds a content
    /// pixel.
    pub fn bottom_right_corner_y(&self) -> (r: Option<u32>)
        requires
            self.original@.wf(),
        ensures
            match r {
                Some(y) => self.original@.is_bottom(y as int),
                None => !self.original@.has_content(),
            },
    {
        let mut y: u32 = self.original.height;
        while y > 0
            invariant
                self.original@.wf(),
                y <= self.original.height,
                forall|j: int| y <= j < self.original.height ==> !#[trigger] self.original@.row_has_content(j),
            decreases y,
        {
            let mut x: u32 = self.original.width;
            while x > 0
                invariant
                    self.original@.wf(),
                    0 < y <= self.original.height,
                    x <= self.original.width,
                    forall|j: int| y <= j < self.original.height ==> !#[trigger] self.original@.row_has_content(j),
                    forall|i: int| x <= i < self.original.width ==> !#[trigger] self.original@.is_content_at(i, y - 1),
                decreases x,
            {
                if is_content_pixel(self.original.get_pixel(x - 1, y - 1)) {
                    assert(self.original@.is_content_at(x - 1, y - 1));
                    return Some(y);
                }
                x -= 1;
            }
            y -= 1;
        }
        proof {
            if self.original@.has_content() {
                let (i, j) = choose|i: int, j: int|
                    0 <= i < self.original@.width && 0 <= j < self.original@.height && #[trigger] self.original@.is_content_at(i, j);
                assert(self.original@.row_has_content(j));
            }
        }
        None
    }

    /// The first column and the first row that hold content.
    pub fn top_left_corner(&self) -> (r: Result<Point, CropError>)
        requires
            self.original@.wf(),
        ensures
            match r {
                Ok(p) => {
                    &&& self.original@.has_content()
                    &&& p.x == self.original@.left()
                    &&& p.y == self.original@.top()
                },
                Err(e) => e == CropError::NoContentFound && !self.original@.has_content(),
            },
    {
        match (self.top_left_corner_x(), self.top_left_corner_y()) {
            (Some(x), Some(y)) => {
                proof {
                    lemma_bounds(self.original@);
                }
                Ok(Point { x, y })
            },
            _ => Err(CropError::NoContentFound),
        }
    }

    /// One past the last column and one past the last row that hold content.
    pub fn bottom_right_corner(&self) -> (r: Result<Point, CropError>)
        requires
            self.original@.wf(),
        ensures
            match r {
                Ok(p) => {
                    &&& self.original@.has_content()
                    &&& p.x == self.original@.right()
                    &&& p.y == self.original@.bottom()
                },
                Err(e) => e == CropError::NoContentFound && !self.original@.has_content(),
            },
    {
        match (self.bottom_right_corner_x(), self.bottom_right_corner_y()) {
            (Some(x), Some(y)) => {
                proof {
                    lemma_bounds(self.original@);
                }
                Ok(Point { x, y })
            },
            _ => Err(CropError::NoContentFound),
        }
    }

    /// The bounding box of the content: its top-left corner, and its
    /// bottom-right corner as an exclusive bound.
    pub fn calculate_corners(&self) -> (r: Result<(Point, Point), CropError>)
        requires
            self.original@.wf(),
        ensures
            match r {
                Ok((tl, br)) => {
                    &&& self.original@.has_content()
                    &&& tl.x == self.original@.left()
                    &&& tl.y == self.original@.top()
                    &&& br.x == self.original@.right()
                    &&& br.y == self.original@.bottom()
                },
                Err(e) => e == CropError::NoContentFound && !self.original@.has_content(),
            },
    {
        let top_left = self.top_left_corner()?;
        let bottom_right = self.bottom_right_corner()?;
        Ok((top_left, bottom_right))
    }

    /// Crops the image to the bounding box of its content; gives the width
    /// and height of the result beside it. The image held is left as it is.
    pub fn auto_crop(&mut self) -> (r: Result<(u32, u32, PixelGrid), CropError>)
        requires
            old(self).original@.wf(),
        ensures
            final(self).original@ == old(self).original@,
            match r {
                Ok((w, h, img)) => {
                    &&& old(self).original@.has_content()
                    &&& img@ == old(self).original@.auto_cropped()
                    &&& img@.wf()
                    &&& w == img.width
                    &&& h == img.height
                },
                Err(e) => e == CropError::NoContentFound && !old(self).original@.has_content(),
            },
    {
        let (top_left, bottom_right) = self.calculate_corners()?;
        proof {
            lemma_bounds(self.original@);
        }
        let img = self.original.crop(
            top_left.x,
            top_left.y,
            bottom_right.x - top_left.x,
            bottom_right.y - top_left.y,
        );
        Ok((img.width(), img.height(), img))
    }
}

/// Every content pixel lies inside the bounding box: its column is in
/// `[left, right)` and its row in `[top, bottom)`.
pub proof fn lemma_content_within_bounds(g: GridView, x: int, y: int)
    requires
        g.wf(),
        0 <= x < g.width,
        0 <= y < g.height,
        g.is_content_at(x, y),
    ensures
        g.has_content(),
        g.left() <= x < g.right(),
        g.top() <= y < g.bottom(),
{
    assert(g.column_has_content(x));
    assert(g.row_has_content(y));
    lemma_bounds(g);
}

/// The bounding box is tight on each side: the columns `left` and
/// `right - 1` and the rows `top` and `bottom - 1` hold content, and no
/// column or row outside the box does.
pub proof fn lemma_bounds_tight(g: GridView)
    requires
        g.wf(),
        g.has_content(),
    ensures
        0 <= g.left() < g.right() <= g.width,
        0 <= g.top() < g.bottom() <= g.height,
        g.column_has_content(g.left()),
        g.column_has_content(g.right() - 1),
        g.row_has_content(g.top()),
        g.row_has_content(g.bottom() - 1),
        forall|i: int|
            0 <= i < g.width && !(g.left() <= i < g.right()) ==> !#[trigger] g.column_has_content(i),
        forall|j: int|
            0 <= j < g.height && !(g.top() <= j < g.bottom()) ==> !#[trigger] g.row_has_content(j),
{
    lemma_bounds(g);
}

/// Reading back pixel (`x`, `y`) of a grid built from `bytes` gives the four
/// bytes at offset `4 * (y * width + x)`, all of them inside `bytes`.
pub proof fn lemma_buffer_round_trip(width: u32, height: u32, bytes: Seq<u8>, x: int, y: int, c: int)
    requires
        bytes.len() == 4 * width * height,
        0 <= x < width,
        0 <= y < height,
        0 <= c < 4,
    ensures
        0 <= 4 * (y * width + x) + c < bytes.len(),
        (GridView { width: width as nat, height: height as nat, bytes }).pixel(x, y)[c] == bytes[4 * (
        y * width + x) + c],
{
    let g = GridView { width: width as nat, height: height as nat, bytes };
    lemma_offset_in_bounds(g, x, y);
}

/// Auto-cropping is a fixed point: the result of auto-cropping an image
/// with content still has content, and auto-cropping it again changes
/// nothing.
pub proof fn lemma_auto_crop_idempotent(g: GridView)
    requires
        g.wf(),
        g.has_content(),
    ensures
        g.auto_cropped().wf(),
        g.auto_cropped().has_content(),
        g.auto_cropped().auto_cropped() == g.auto_cropped(),
{
    lemma_bounds(g);
    let (l, t, r, b) = (g.left(), g.top(), g.right(), g.bottom());
    let (w, h) = (r - l, b - t);
    let c = g.auto_cropped();
    // a content pixel in each outer column and row of the box, seen in the crop
    let y0 = choose|y: int| 0 <= y < g.height && #[trigger] g.is_content_at(l, y);
    let y1 = choose|y: int| 0 <= y < g.height && #[trigger] g.is_content_at(r - 1, y);
    let x0 = choose|x: int| 0 <= x < g.width && #[trigger] g.is_content_at(x, t);
    let x1 = choose|x: int| 0 <= x < g.width && #[trigger] g.is_content_at(x, b - 1);
    lemma_content_within_bounds(g, l, y0);
    lemma_content_within_bounds(g, r - 1, y1);
    lemma_content_within_bounds(g, x0, t);
    lemma_content_within_bounds(g, x1, b - 1);
    lemma_crop_pixel(g, l, t, w, h, 0, y0 - t);
    lemma_crop_pixel(g, l, t, w, h, w - 1, y1 - t);
    lemma_crop_pixel(g, l, t, w, h, x0 - l, 0);
    lemma_crop_pixel(g, l, t, w, h, x1 - l, h - 1);
    assert(c.is_content_at(0, y0 - t));
    assert(c.is_content_at(w - 1, y1 - t));
    assert(c.is_content_at(x0 - l, 0));
    assert(c.is_content_at(x1 - l, h - 1));
    assert(c.is_left(0));
    assert(c.is_right(w));
    assert(c.is_top(0));
    assert(c.is_bottom(h));
    lemma_bounds(c);
    lemma_crop_whole(c);
}

} // verus!
