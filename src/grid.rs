//! Row-major RGBA8 pixel grids, their mathematical model, and cropping.

use vstd::prelude::*;
use vstd::arithmetic::div_mod::{lemma_fundamental_div_mod, lemma_fundamental_div_mod_converse};

verus! {

/// What a pixel grid is: a width, a height, and four bytes per pixel,
/// row by row from the top-left corner.
pub struct GridView {
    pub width: nat,
    pub height: nat,
    pub bytes: Seq<u8>,
}

/// A pixel counts as content when none of its colour channels is saturated
/// and it is not fully transparent.
pub open spec fn is_content(p: Seq<u8>) -> bool {
    p[0] != 255 && p[1] != 255 && p[2] != 255 && p[3] != 0
}

/// The bytes of the `w` x `h` rectangle at (`x`, `y`) of a grid `width`
/// pixels wide, again row by row.
pub open spec fn crop_bytes(data: Seq<u8>, width: int, x: int, y: int, w: int, h: int) -> Seq<u8> {
    Seq::new(
        (4 * w * h) as nat,
        |k: int| data[4 * ((y + k / 4 / w) * width + x + (k / 4) % w) + k % 4],
    )
}

impl GridView {
    pub open spec fn wf(self) -> bool {
        self.bytes.len() == 4 * self.width * self.height
    }

    /// Index of the first byte of pixel (`x`, `y`).
    pub open spec fn offset(self, x: int, y: int) -> int {
        4 * (y * self.width + x)
    }

    pub open spec fn pixel(self, x: int, y: int) -> Seq<u8> {
        self.bytes.subrange(self.offset(x, y), self.offset(x, y) + 4)
    }

    pub open spec fn is_content_at(self, x: int, y: int) -> bool {
        is_content(self.pixel(x, y))
    }

    pub open spec fn column_has_content(self, x: int) -> bool {
        exists|y: int| 0 <= y < self.height && #[trigger] self.is_content_at(x, y)
    }

    pub open spec fn row_has_content(self, y: int) -> bool {
        exists|x: int| 0 <= x < self.width && #[trigger] self.is_content_at(x, y)
    }

    pub open spec fn has_content(self) -> bool {
        exists|x: int, y: int|
            0 <= x < self.width && 0 <= y < self.height && #[trigger] self.is_content_at(x, y)
    }

    /// `x` is the first column that holds content.
    pub open spec fn is_left(self, x: int) -> bool {
        &&& 0 <= x < self.width
        &&& self.column_has_content(x)
        &&& forall|i: int| 0 <= i < x ==> !#[trigger] self.column_has_content(i)
    }

    /// `y` is the first row that holds content.
    pub open spec fn is_top(self, y: int) -> bool {
        &&& 0 <= y < self.height
        &&& self.row_has_content(y)
        &&& forall|j: int| 0 <= j < y ==> !#[trigger] self.row_has_content(j)
    }

    /// `x` is one past the last column that holds content.
    pub open spec fn is_right(self, x: int) -> bool {
        &&& 0 < x <= self.width
        &&& self.column_has_content(x - 1)
        &&& forall|i: int| x <= i < self.width ==> !#[trigger] self.column_has_content(i)
    }

    /// `y` is one past the last row that holds content.
    pub open spec fn is_bottom(self, y: int) -> bool {
        &&& 0 < y <= self.height
        &&& self.row_has_content(y - 1)
        &&& forall|j: int| y <= j < self.height ==> !#[trigger] self.row_has_content(j)
    }

    pub open spec fn left(self) -> int {
        choose|x: int| self.is_left(x)
    }

    pub open spec fn top(self) -> int {
        choose|y: int| self.is_top(y)
    }

    pub open spec fn right(self) -> int {
        choose|x: int| self.is_right(x)
    }

    pub open spec fn bottom(self) -> int {
        choose|y: int| self.is_bottom(y)
    }

    /// The `w` x `h` rectangle whose top-left pixel is (`x`, `y`).
    pub open spec fn crop(self, x: int, y: int, w: int, h: int) -> GridView {
        GridView {
            width: w as nat,
            height: h as nat,
            bytes: crop_bytes(self.bytes, self.width as int, x, y, w, h),
        }
    }

    /// The grid cut down to the bounding box of its content.
    pub open spec fn auto_cropped(self) -> GridView {
        self.crop(self.left(), self.top(), self.right() - self.left(), self.bottom() - self.top())
    }
}

/// An RGBA8 image held as raw bytes, four per pixel, row by row.
pub struct PixelGrid {
    pub width: u32,
    pub height: u32,
    pub data: Vec<u8>,
}

impl View for PixelGrid {
    type V = GridView;

    open spec fn view(&self) -> GridView {
        GridView { width: self.width as nat, height: self.height as nat, bytes: self.data@ }
    }
}

/// Every pixel of a well-formed grid lies inside its byte buffer.
pub proof fn lemma_offset_in_bounds(g: GridView, x: int, y: int)
    requires
        g.wf(),
        0 <= x < g.width,
        0 <= y < g.height,
    ensures
        0 <= g.offset(x, y),
        g.offset(x, y) + 4 <= g.bytes.len(),
{
    assert(0 <= y * g.width) by (nonlinear_arith)
        requires
            0 <= y,
    ;
    assert(y * g.width + x < g.height * g.width) by (nonlinear_arith)
        requires
            0 <= x < g.width,
            0 <= y < g.height,
    ;
    assert(4 * (g.height * g.width) == 4 * g.width * g.height) by (nonlinear_arith);
}

/// Pixel (`i`, `j`) of a cropped grid is pixel (`x + i`, `y + j`) of the grid.
pub proof fn lemma_crop_pixel(g: GridView, x: int, y: int, w: int, h: int, i: int, j: int)
    requires
        g.wf(),
        0 <= x,
        0 <= y,
        x + w <= g.width,
        y + h <= g.height,
        0 <= i < w,
        0 <= j < h,
    ensures
        g.crop(x, y, w, h).wf(),
        g.crop(x, y, w, h).pixel(i, j) == g.pixel(x + i, y + j),
{
    let c = g.crop(x, y, w, h);
    lemma_offset_in_bounds(c, i, j);
    lemma_offset_in_bounds(g, x + i, y + j);
    let p = j * w + i;
    lemma_fundamental_div_mod_converse(p, w, j, i);
    assert forall|d: int| 0 <= d < 4 implies #[trigger] c.pixel(i, j)[d] == g.pixel(x + i, y + j)[d] by {
        lemma_fundamental_div_mod_converse(4 * p + d, 4, p, d);
    }
    assert(c.pixel(i, j) =~= g.pixel(x + i, y + j));
}

/// Cropping a grid to its full extent gives the grid back.
pub proof fn lemma_crop_whole(g: GridView)
    requires
        g.wf(),
    ensures
        g.crop(0, 0, g.width as int, g.height as int) == g,
{
    let c = g.crop(0, 0, g.width as int, g.height as int);
    assert forall|k: int| 0 <= k < c.bytes.len() implies c.bytes[k] == g.bytes[k] by {
        if g.width == 0 {
            assert(4 * g.width * g.height == 0) by (nonlinear_arith)
                requires
                    g.width == 0,
            ;
        }
        let w = g.width as int;
        let p = k / 4;
        lemma_fundamental_div_mod(k, 4);
        lemma_fundamental_div_mod(p, w);
        assert((p / w) * w == w * (p / w)) by (nonlinear_arith);
        assert(4 * ((0 + p / w) * w + 0 + p % w) + k % 4 == k);
    }
    assert(c.bytes =~= g.bytes);
}

/// A predicate that holds somewhere in `[0, n)` holds at a least index there.
proof fn lemma_least_exists(p: spec_fn(int) -> bool, n: int, k: int)
    requires
        0 <= k < n,
        p(k),
    ensures
        exists|m: int| 0 <= m < n && #[trigger] p(m) && forall|i: int| 0 <= i < m ==> !#[trigger] p(i),
    decreases k,
{
    if exists|i: int| 0 <= i < k && #[trigger] p(i) {
        let i = choose|i: int| 0 <= i < k && #[trigger] p(i);
        lemma_least_exists(p, n, i);
    } else {
        assert(0 <= k < n && p(k) && forall|i: int| 0 <= i < k ==> !#[trigger] p(i));
    }
}

/// A predicate that holds somewhere in `[0, n)` holds at a greatest index there.
proof fn lemma_greatest_exists(p: spec_fn(int) -> bool, n: int, k: int)
    requires
        0 <= k < n,
        p(k),
    ensures
        exists|m: int| 0 <= m < n && #[trigger] p(m) && forall|i: int| m < i < n ==> !#[trigger] p(i),
    decreases n - k,
{
    if exists|i: int| k < i < n && #[trigger] p(i) {
        let i = choose|i: int| k < i < n && #[trigger] p(i);
        lemma_greatest_exists(p, n, i);
    } else {
        assert(0 <= k < n && p(k) && forall|i: int| k < i < n ==> !#[trigger] p(i));
    }
}

/// Each bound of a grid with content is the unique value that meets its
/// description, and the bounds enclose a non-empty rectangle.
pub proof fn lemma_bounds(g: GridView)
    requires
        g.has_content(),
    ensures
        g.is_left(g.left()),
        g.is_top(g.top()),
        g.is_right(g.right()),
        g.is_bottom(g.bottom()),
        forall|x: int| #[trigger] g.is_left(x) ==> x == g.left(),
        forall|y: int| #[trigger] g.is_top(y) ==> y == g.top(),
        forall|x: int| #[trigger] g.is_right(x) ==> x == g.right(),
        forall|y: int| #[trigger] g.is_bottom(y) ==> y == g.bottom(),
        0 <= g.left() < g.right() <= g.width,
        0 <= g.top() < g.bottom() <= g.height,
{
    let (x, y) = choose|x: int, y: int|
        0 <= x < g.width && 0 <= y < g.height && #[trigger] g.is_content_at(x, y);
    assert(g.column_has_content(x));
    assert(g.row_has_content(y));
    let cols = |i: int| g.column_has_content(i);
    let rows = |j: int| g.row_has_content(j);
    lemma_least_exists(cols, g.width as int, x);
    lemma_least_exists(rows, g.height as int, y);
    lemma_greatest_exists(cols, g.width as int, x);
    lemma_greatest_exists(rows, g.height as int, y);
    let l = choose|m: int| 0 <= m < g.width && #[trigger] cols(m) && forall|i: int| 0 <= i < m ==> !#[trigger] cols(i);
    assert forall|i: int| 0 <= i < l implies !#[trigger] g.column_has_content(i) by {
        assert(!cols(i));
    }
    assert(g.is_left(l));
    let t = choose|m: int| 0 <= m < g.height && #[trigger] rows(m) && forall|j: int| 0 <= j < m ==> !#[trigger] rows(j);
    assert forall|j: int| 0 <= j < t implies !#[trigger] g.row_has_content(j) by {
        assert(!rows(j));
    }
    assert(g.is_top(t));
    let m = choose|m: int| 0 <= m < g.width && #[trigger] cols(m) && forall|i: int| m < i < g.width ==> !#[trigger] cols(i);
    assert forall|i: int| m + 1 <= i < g.width implies !#[trigger] g.column_has_content(i) by {
        assert(!cols(i));
    }
    assert(g.is_right(m + 1));
    let m = choose|m: int| 0 <= m < g.height && #[trigger] rows(m) && forall|j: int| m < j < g.height ==> !#[trigger] rows(j);
    assert forall|j: int| m + 1 <= j < g.height implies !#[trigger] g.row_has_content(j) by {
        assert(!rows(j));
    }
    assert(g.is_bottom(m + 1));
    assert(g.is_left(g.left()) && g.is_top(g.top()) && g.is_right(g.right()) && g.is_bottom(g.bottom()));
    assert forall|a: int| #[trigger] g.is_left(a) implies a == g.left() by {
        if a < g.left() {
            assert(!g.column_has_content(a));
        } else if a > g.left() {
            assert(!g.column_has_content(g.left()));
        }
    }
    assert forall|a: int| #[trigger] g.is_top(a) implies a == g.top() by {
        if a < g.top() {
            assert(!g.row_has_content(a));
        } else if a > g.top() {
            assert(!g.row_has_content(g.top()));
        }
    }
    assert forall|a: int| #[trigger] g.is_right(a) implies a == g.right() by {
        if a < g.right() {
            assert(!g.column_has_content(g.right() - 1));
        } else if a > g.right() {
            assert(!g.column_has_content(a - 1));
        }
    }
    assert forall|a: int| #[trigger] g.is_bottom(a) implies a == g.bottom() by {
        if a < g.bottom() {
            assert(!g.row_has_content(g.bottom() - 1));
        } else if a > g.bottom() {
            assert(!g.row_has_content(a - 1));
        }
    }
    if g.right() <= g.left() {
        assert(!g.column_has_content(g.left()));
    }
    if g.bottom() <= g.top() {
        assert(!g.row_has_content(g.top()));
    }
}

/// Relies on `image::ImageBuffer::from_raw` to take the bytes as an RGBA8
/// image (it accepts a buffer of at least 4 * width * height bytes, and
/// computes 4 * width first, so that product must fit in `usize`), on
/// `image::imageops::crop_imm` and `SubImage::to_image` to copy the
/// rectangle, which lies inside the image and so is not clamped, pixel by
/// pixel into a new buffer of its size, and on `ImageBuffer::into_raw` to
/// hand back that buffer's row-major bytes.
#[verifier::external_body]
fn crop_rgba8(width: u32, height: u32, data: &Vec<u8>, x: u32, y: u32, w: u32, h: u32) -> (r: Vec<u8>)
    requires
        data@.len() == 4 * width * height,
        4 * width <= usize::MAX,
        x + w <= width,
        y + h <= height,
    ensures
        r@ == crop_bytes(data@, width as int, x as int, y as int, w as int, h as int),
{
    let image: image::RgbaImage = image::ImageBuffer::from_raw(width, height, data.clone()).unwrap();
    image::imageops::crop_imm(&image, x, y, w, h).to_image().into_raw()
}

impl PixelGrid {
    pub fn width(&self) -> (r: u32)
        ensures
            r == self.width,
    {
        self.width
    }

    pub fn height(&self) -> (r: u32)
        ensures
            r == self.height,
    {
        self.height
    }

    /// The four bytes (red, green, blue, alpha) of pixel (`x`, `y`).
    pub fn get_pixel(&self, x: u32, y: u32) -> (r: [u8; 4])
        requires
            self@.wf(),
            x < self.width,
            y < self.height,
        ensures
            r@ == self@.pixel(x as int, y as int),
    {
        proof {
            lemma_offset_in_bounds(self@, x as int, y as int);
        }
        let n: usize = self.data.len();
        assert(y as int * self.width as int <= y as int * self.width as int + x as int);
        let i: usize = 4 * ((y as usize) * (self.width as usize) + (x as usize));
        let r = [self.data[i], self.data[i + 1], self.data[i + 2], self.data[i + 3]];
        assert(r@ =~= self@.pixel(x as int, y as int));
        r
    }

    /// The `w` x `h` rectangle whose top-left pixel is (`x`, `y`), as a new grid.
    pub fn crop(&self, x: u32, y: u32, w: u32, h: u32) -> (r: PixelGrid)
        requires
            self@.wf(),
            x + w <= self.width,
            y + h <= self.height,
        ensures
            r@ == self@.crop(x as int, y as int, w as int, h as int),
            r@.wf(),
    {
        if self.height == 0 {
            let r = PixelGrid { width: w, height: h, data: Vec::new() };
            assert(4 * w * h == 0) by (nonlinear_arith)
                requires
                    h == 0,
            ;
            assert(r@.bytes =~= self@.crop(x as int, y as int, w as int, h as int).bytes);
            return r;
        }
        let len: usize = self.data.len();
        assert(4 * self.width <= 4 * self.width * self.height) by (nonlinear_arith)
            requires
                self.height >= 1,
        ;
        let data = crop_rgba8(self.width, self.height, &self.data, x, y, w, h);
        PixelGrid { width: w, height: h, data }
    }
}

} // verus!
