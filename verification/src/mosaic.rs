//! The mosaic that stands for a collection without a picture of its own.
use vstd::prelude::*;

use crate::error::{ApiError, ErrorView};

verus! {

// ---- pictures ----

/// A picture: three bytes for each of its pixels, line by line.
#[derive(Debug, PartialEq, Eq)]
pub struct Picture {
    pub width: u32,
    pub height: u32,
    pub pixels: Vec<u8>,
}

/// The number of bytes of a picture.
pub open spec fn picture_bytes(width: int, height: int) -> int {
    width * height * 3
}

impl Picture {
    /// The picture has as many bytes as its size asks for.
    pub open spec fn is_whole(&self) -> bool {
        self.pixels@.len() == picture_bytes(self.width as int, self.height as int)
    }
}

/// What `image::load_from_memory` makes of bytes: the width and the height of the picture that they
/// hold, or the text of its error.
pub uninterp spec fn loaded(bytes: Seq<u8>) -> Result<(u32, u32), Seq<char>>;

/// Whether these pixels may be what `image::DynamicImage::to_rgb8` makes of the picture in these
/// bytes.
pub uninterp spec fn may_show(bytes: Seq<u8>, pixels: Seq<u8>) -> bool;

/// Whether a picture of this size and with these pixels may be what `image::DynamicImage::resize`
/// makes of the picture in these bytes for a square of this edge.
pub uninterp spec fn may_fit(bytes: Seq<u8>, edge: u32, width: u32, height: u32, pixels: Seq<u8>) -> bool;

/// `image::load_from_memory`, then `image::DynamicImage::to_rgb8`: the picture that bytes hold, or
/// the text of the error of the first. Which bytes hold a picture, how large it is, and what the
/// error says is left to a name. So is which colors come out: how some files are decoded rests on
/// what the machine can do, so that more than one picture may.
#[verifier::external_body]
fn read_picture(bytes: &Vec<u8>) -> (r: Result<Picture, String>)
    ensures
        match r {
            Ok(p) => loaded(bytes@) == Ok::<(u32, u32), Seq<char>>((p.width, p.height)) && may_show(
                bytes@,
                p.pixels@,
            ) && p.is_whole(),
            Err(m) => loaded(bytes@) == Err::<(u32, u32), Seq<char>>(m@),
        },
{
    let shown = image::load_from_memory(bytes.as_slice()).map_err(|e| e.to_string())?.to_rgb8();
    Ok(Picture { width: shown.width(), height: shown.height(), pixels: shown.into_raw() })
}

/// Whether a picture that is `width` wide and `height` high is `w` wide and `h` high once it fits a
/// square of this edge. It has a pixel at least where it was larger than the square, and no edge of
/// it is then longer than it was but for that pixel. Its longer edge is that of the square, and the
/// other keeps the proportions to the nearest pixel.
pub open spec fn is_fitted_size(width: int, height: int, edge: int, w: int, h: int) -> bool {
    &&& w <= edge || w == 1
    &&& h <= edge || h == 1
    &&& width > edge || height > edge ==> 1 <= w && (w <= width || w == 1) && 1 <= h && (h <= height
        || h == 1)
    &&& edge >= 1 && width >= height >= 1 ==> w == edge && -width <= h * width - height * edge <= width
    &&& edge >= 1 && height >= width >= 1 ==> h == edge && -height <= w * height - width * edge
        <= height
}

/// `image::load_from_memory`, then `image::DynamicImage::resize` with the Lanczos filter and
/// `to_rgb8`: the picture that bytes hold, made to fit a square of this edge with its proportions, or
/// the text of the error of the first. Which colors come out is left to a name: they rest on floating
/// point functions that a machine may round in its own way, so that more than one picture may.
#[verifier::external_body]
fn fit_picture(bytes: &Vec<u8>, edge: u32) -> (r: Result<Picture, String>)
    requires
        edge <= 0xffff,
    ensures
        match (r, loaded(bytes@)) {
            (Ok(p), Ok((width, height))) => may_fit(bytes@, edge, p.width, p.height, p.pixels@)
                && p.is_whole() && is_fitted_size(
                width as int,
                height as int,
                edge as int,
                p.width as int,
                p.height as int,
            ),
            (Err(m), Err(text)) => text == m@,
            _ => false,
        },
{
    let loaded = image::load_from_memory(bytes.as_slice()).map_err(|e| e.to_string())?;
    let fitted = loaded.resize(edge, edge, image::imageops::FilterType::Lanczos3).to_rgb8();
    Ok(Picture { width: fitted.width(), height: fitted.height(), pixels: fitted.into_raw() })
}

/// Whether a picture may be the one in these bytes in a square of this edge: as it is where it fits,
/// and else made to fit.
pub open spec fn may_be_in_square(p: Picture, bytes: Seq<u8>, edge: u32) -> bool {
    match loaded(bytes) {
        Ok((width, height)) => {
            &&& p.is_whole()
            &&& if width <= edge && height <= edge {
                p.width == width && p.height == height && may_show(bytes, p.pixels@)
            } else {
                may_fit(bytes, edge, p.width, p.height, p.pixels@) && is_fitted_size(
                    width as int,
                    height as int,
                    edge as int,
                    p.width as int,
                    p.height as int,
                )
            }
        },
        Err(_) => false,
    }
}

/// Takes the picture in bytes into a square of this edge. One that fits stays as it is: pictures are
/// made smaller, never larger.
fn square_picture(bytes: &Vec<u8>, edge: u32) -> (r: Result<Picture, String>)
    requires
        edge <= 0xffff,
    ensures
        match (r, loaded(bytes@)) {
            (Ok(p), Ok(_)) => may_be_in_square(p, bytes@, edge),
            (Err(m), Err(text)) => text == m@,
            _ => false,
        },
{
    match read_picture(bytes) {
        Ok(p) => if p.width <= edge && p.height <= edge {
            Ok(p)
        } else {
            fit_picture(bytes, edge)
        },
        Err(m) => Err(m),
    }
}

/// No picture is made larger: none of its edges gets longer, but for the pixel that it has at least.
pub proof fn pictures_are_never_enlarged(p: Picture, bytes: Seq<u8>, edge: u32)
    requires
        may_be_in_square(p, bytes, edge),
    ensures
        loaded(bytes) is Ok,
        p.width <= loaded(bytes)->Ok_0.0 || p.width == 1,
        p.height <= loaded(bytes)->Ok_0.1 || p.height == 1,
{
}

/// What `image::DynamicImage::write_to` makes of a picture as a JPEG, or the text of its error.
pub uninterp spec fn jpeg_of(width: u32, height: u32, pixels: Seq<u8>) -> Result<Seq<u8>, Seq<char>>;

/// Bytes and the text of an error by their views.
pub open spec fn bytes_or_text(r: Result<Vec<u8>, String>) -> Result<Seq<u8>, Seq<char>> {
    match r {
        Ok(bytes) => Ok(bytes@),
        Err(m) => Err(m@),
    }
}

/// `image::DynamicImage::write_to` with the JPEG format: the file that a picture makes, or the text
/// of the error. What is in the file is left to its name.
#[verifier::external_body]
fn write_jpeg(picture: Picture) -> (r: Result<Vec<u8>, String>)
    requires
        picture.is_whole(),
    ensures
        bytes_or_text(r) == jpeg_of(picture.width, picture.height, picture.pixels@),
{
    let mut out = std::io::Cursor::new(Vec::new());
    let rgb = image::RgbImage::from_raw(picture.width, picture.height, picture.pixels);
    let img = image::DynamicImage::ImageRgb8(rgb.unwrap_or_default());
    let written = img.write_to(&mut out, image::ImageFormat::Jpeg);
    written.map(|_| out.into_inner()).map_err(|e| e.to_string())
}

// ---- one picture on another ----

/// Whether the pixel at (`x`, `y`) is behind a picture whose corner is at (`left`, `top`).
pub open spec fn covers(p: Picture, left: int, top: int, x: int, y: int) -> bool {
    left <= x < left + p.width && top <= y < top + p.height
}

/// The byte of a picture at a place among those of a larger one.
pub open spec fn covering_byte(p: Picture, left: int, top: int, width: int, k: int) -> u8 {
    p.pixels@[((k / 3 / width - top) * p.width + (k / 3 % width - left)) * 3 + k % 3]
}

/// Bytes of a picture of this width, with another laid on them at (`left`, `top`). What would stand
/// out is cut off.
pub open spec fn laid_on(bottom: Seq<u8>, width: int, p: Picture, left: int, top: int) -> Seq<u8> {
    Seq::new(
        bottom.len(),
        |k: int|
            if covers(p, left, top, k / 3 % width, k / 3 / width) {
                covering_byte(p, left, top, width, k)
            } else {
                bottom[k]
            },
    )
}

proof fn lemma_covering_index(p: Picture, dx: int, dy: int, c: int)
    requires
        p.is_whole(),
        0 <= dx < p.width,
        0 <= dy < p.height,
        0 <= c < 3,
    ensures
        0 <= dy * p.width <= dy * p.width + dx < p.width * p.height,
        0 <= (dy * p.width + dx) * 3 + c < p.pixels@.len(),
{
    let w = p.width as int;
    let h = p.height as int;
    assert(0 <= dy * w && dy * w + w <= w * h) by (nonlinear_arith)
        requires
            0 <= dy < h,
            w >= 0,
    ;
}

fn lay_on(bottom: &Vec<u8>, width: u32, p: &Picture, left: u32, top: u32) -> (r: Vec<u8>)
    requires
        p.is_whole(),
        bottom.len() > 0 ==> width > 0,
    ensures
        r@ == laid_on(bottom@, width as int, *p, left as int, top as int),
{
    let mut r: Vec<u8> = Vec::new();
    let mut k: usize = 0;
    let ghost all = laid_on(bottom@, width as int, *p, left as int, top as int);
    while k < bottom.len()
        invariant
            k <= bottom.len(),
            p.is_whole(),
            bottom.len() > 0 ==> width > 0,
            all == laid_on(bottom@, width as int, *p, left as int, top as int),
            r@ == all.take(k as int),
        decreases bottom.len() - k,
    {
        let x: u64 = (k / 3) as u64 % width as u64;
        let y: u64 = (k / 3) as u64 / width as u64;
        let (l, t): (u64, u64) = (left as u64, top as u64);
        if x >= l && x - l < p.width as u64 && y >= t && y - t < p.height as u64 {
            proof {
                lemma_covering_index(*p, x - l, y - t, k as int % 3);
            }
            assert(p.pixels.len() == p.pixels@.len());
            let line: u64 = (y - t) * p.width as u64;
            let at: u64 = (line + (x - l)) * 3 + (k % 3) as u64;
            r.push(p.pixels[at as usize]);
        } else {
            r.push(bottom[k]);
        }
        assert(r@ =~= all.take(k as int + 1));
        k += 1;
    }
    assert(all.take(bottom@.len() as int) =~= all);
    r
}

// ---- the mosaic ----

/// The width of a mosaic: its height times 0.7066666667, rounded to the nearest number.
pub open spec fn mosaic_width(height: int) -> int {
    (height * 7066666667 + 5000000000) / 10000000000
}

/// Computes the width of a mosaic.
pub fn width_of(height: u32) -> (r: u32)
    ensures
        r == mosaic_width(height as int),
{
    ((height as u128 * 7066666667 + 5000000000) / 10000000000) as u32
}

/// The corner of one of the four cells of a mosaic.
pub open spec fn cell_corner(width: int, height: int, i: int) -> (int, int) {
    (
        if i % 2 == 0 {
            0
        } else {
            width / 2
        },
        if i < 2 {
            0
        } else {
            height / 2
        },
    )
}

/// The first `n` pictures in their cells, on black.
pub open spec fn mosaic_pixels(pictures: Seq<Picture>, width: int, height: int, n: int) -> Seq<u8>
    decreases n,
{
    if n <= 0 {
        Seq::new(picture_bytes(width, height) as nat, |k: int| 0u8)
    } else {
        let (left, top) = cell_corner(width, height, n - 1);
        laid_on(
            mosaic_pixels(pictures, width, height, n - 1),
            width,
            pictures[n - 1],
            left,
            top,
        )
    }
}

/// A mosaic of this height can be held in memory.
pub open spec fn can_be_held(height: int) -> bool {
    &&& height <= 0x1ffff
    &&& picture_bytes(mosaic_width(height), height) <= usize::MAX
}

/// Lays out four pictures at most, each at the top left of its cell.
pub fn lay_out(pictures: &Vec<Picture>, height: u32) -> (r: Picture)
    requires
        can_be_held(height as int),
        pictures.len() <= 4,
        forall|i: int| 0 <= i < pictures.len() ==> (#[trigger] pictures@[i]).is_whole(),
    ensures
        r.is_whole(),
        r.height == height,
        r.width == mosaic_width(height as int),
        r.pixels@ == mosaic_pixels(
            pictures@,
            r.width as int,
            height as int,
            pictures@.len() as int,
        ),
{
    let width: u32 = width_of(height);
    let ghost w = width as int;
    let ghost h = height as int;
    proof {
        assert(w * h >= 0) by (nonlinear_arith)
            requires
                w >= 0,
                h >= 0,
        ;
        assert(w <= 0x1ffff);
        assert(w * h <= 0x1ffff * 0x1ffff) by (nonlinear_arith)
            requires
                0 <= w <= 0x1ffff,
                0 <= h <= 0x1ffff,
        ;
    }
    let size: u64 = width as u64 * height as u64 * 3;
    let mut pixels: Vec<u8> = vec![0u8; size as usize];
    assert(pixels@ =~= mosaic_pixels(pictures@, w, h, 0));
    proof {
        assert(w * h * 3 > 0 ==> w > 0) by (nonlinear_arith)
            requires
                w >= 0,
                h >= 0,
        ;
    }
    let mut i: usize = 0;
    while i < pictures.len()
        invariant
            i <= pictures.len() <= 4,
            w == width,
            h == height,
            w * h * 3 > 0 ==> w > 0,
            pixels@.len() == w * h * 3,
            forall|i: int| 0 <= i < pictures.len() ==> (#[trigger] pictures@[i]).is_whole(),
            pixels@ == mosaic_pixels(pictures@, w, h, i as int),
        decreases pictures.len() - i,
    {
        let left: u32 = if i % 2 == 0 {
            0
        } else {
            width / 2
        };
        let top: u32 = if i < 2 {
            0
        } else {
            height / 2
        };
        pixels = lay_on(&pixels, width, &pictures[i], left, top);
        assert(mosaic_pixels(pictures@, w, h, i as int + 1) == laid_on(
            mosaic_pixels(pictures@, w, h, i as int),
            w,
            pictures@[i as int],
            left as int,
            top as int,
        ));
        i += 1;
    }
    Picture { width, height, pixels }
}

/// What is behind no picture stays black.
pub proof fn uncovered_is_black(pictures: Seq<Picture>, width: int, height: int, n: int, k: int)
    requires
        0 <= n <= pictures.len(),
        0 <= k < picture_bytes(width, height),
        forall|i: int|
            0 <= i < n ==> !covers(
                #[trigger] pictures[i],
                cell_corner(width, height, i).0,
                cell_corner(width, height, i).1,
                k / 3 % width,
                k / 3 / width,
            ),
    ensures
        mosaic_pixels(pictures, width, height, n).len() == picture_bytes(width, height),
        mosaic_pixels(pictures, width, height, n)[k] == 0,
    decreases n,
{
    if n > 0 {
        uncovered_is_black(pictures, width, height, n - 1, k);
        assert(!covers(
            pictures[n - 1],
            cell_corner(width, height, n - 1).0,
            cell_corner(width, height, n - 1).1,
            k / 3 % width,
            k / 3 / width,
        ));
    }
}

proof fn lemma_mosaic_bytes(pictures: Seq<Picture>, width: int, height: int, n: int)
    requires
        0 <= n <= pictures.len(),
        picture_bytes(width, height) >= 0,
    ensures
        mosaic_pixels(pictures, width, height, n).len() == picture_bytes(width, height),
    decreases n,
{
    if n > 0 {
        lemma_mosaic_bytes(pictures, width, height, n - 1);
    }
}

proof fn lemma_pixel_place(width: int, column: int, row: int, c: int)
    requires
        0 <= column < width,
        0 <= row,
        0 <= c < 3,
    ensures
        ((row * width + column) * 3 + c) / 3 == row * width + column,
        ((row * width + column) * 3 + c) % 3 == c,
        (row * width + column) / width == row,
        (row * width + column) % width == column,
{
    vstd::arithmetic::div_mod::lemma_fundamental_div_mod_converse(
        row * width + column,
        width,
        row,
        column,
    );
}

/// A picture covers as many columns and rows as it has, from its corner on.
pub proof fn picture_covers_its_own_size(p: Picture, left: int, top: int, x: int, y: int)
    ensures
        0 <= x < p.width && 0 <= y < p.height <==> covers(p, left, top, left + x, top + y),
{
}

/// A picture that fits into a square is shown as it is; only a larger one is made smaller.
pub proof fn fitting_picture_is_left_as_it_is(p: Picture, bytes: Seq<u8>, edge: u32)
    requires
        may_be_in_square(p, bytes, edge),
    ensures
        loaded(bytes) is Ok,
        loaded(bytes)->Ok_0.0 <= edge && loaded(bytes)->Ok_0.1 <= edge ==> p.width
            == loaded(bytes)->Ok_0.0 && p.height == loaded(bytes)->Ok_0.1 && may_show(bytes, p.pixels@),
        loaded(bytes)->Ok_0.0 > edge || loaded(bytes)->Ok_0.1 > edge ==> may_fit(
            bytes,
            edge,
            p.width,
            p.height,
            p.pixels@,
        ) && (p.width <= edge || p.width == 1) && (p.height <= edge || p.height == 1),
{
}

/// Each picture stands in its own corner, the first at the top left, the second at the top right, the
/// third at the bottom left, the fourth at the bottom right: the mosaic shows its pixel in column `x` and
/// row `y` there, unless a later picture covers it.
pub proof fn picture_stands_in_its_corner(
    pictures: Seq<Picture>,
    width: int,
    height: int,
    n: int,
    i: int,
    left: int,
    top: int,
    x: int,
    y: int,
    c: int,
)
    requires
        0 <= i < n <= pictures.len() <= 4,
        0 < width,
        0 < height,
        i == 0 ==> left == 0 && top == 0,
        i == 1 ==> left == width / 2 && top == 0,
        i == 2 ==> left == 0 && top == height / 2,
        i == 3 ==> left == width / 2 && top == height / 2,
        0 <= x < pictures[i].width,
        0 <= y < pictures[i].height,
        left + x < width,
        top + y < height,
        0 <= c < 3,
        forall|j: int|
            i < j < n ==> !covers(
                #[trigger] pictures[j],
                cell_corner(width, height, j).0,
                cell_corner(width, height, j).1,
                left + x,
                top + y,
            ),
    ensures
        mosaic_pixels(pictures, width, height, n)[((top + y) * width + (left + x)) * 3 + c]
            == pictures[i].pixels@[(y * pictures[i].width + x) * 3 + c],
    decreases n,
{
    let k = ((top + y) * width + (left + x)) * 3 + c;
    lemma_pixel_place(width, left + x, top + y, c);
    assert(0 <= k < picture_bytes(width, height)) by {
        assert(0 <= (top + y) * width <= (height - 1) * width) by (nonlinear_arith)
            requires
                0 <= top + y <= height - 1,
                0 < width,
        ;
        assert((height - 1) * width == width * height - width) by (nonlinear_arith);
    }
    lemma_mosaic_bytes(pictures, width, height, n - 1);
    if i < n - 1 {
        assert(!covers(
            pictures[n - 1],
            cell_corner(width, height, n - 1).0,
            cell_corner(width, height, n - 1).1,
            left + x,
            top + y,
        ));
        picture_stands_in_its_corner(pictures, width, height, n - 1, i, left, top, x, y, c);
    } else {
        assert(cell_corner(width, height, i) == (left, top));
        assert(covers(pictures[i], left, top, k / 3 % width, k / 3 / width));
    }
}

/// A mosaic is as wide as the nearest number of pixels to the width of a page of its height.
pub proof fn mosaic_has_the_shape_of_a_page(height: int)
    ensures
        -5000000000 <= mosaic_width(height) * 10000000000 - height * 7066666667 <= 5000000000,
{
}

/// A mosaic shows the first pictures, four at most, in their order.
pub proof fn mosaic_shows_the_first_four(images: Seq<Vec<u8>>, i: int)
    ensures
        images.len() <= 4 ==> first_four(images) == images,
        images.len() > 4 ==> first_four(images).len() == 4,
        0 <= i < first_four(images).len() ==> first_four(images)[i] == images[i],
{
}

/// Four of several, at most.
pub open spec fn first_four(images: Seq<Vec<u8>>) -> Seq<Vec<u8>> {
    if images.len() > 4 {
        images.take(4)
    } else {
        images
    }
}

/// The picture at `i` is the first that cannot be read.
pub open spec fn is_first_unreadable(images: Seq<Vec<u8>>, i: int) -> bool {
    &&& 0 <= i < images.len()
    &&& loaded(images[i]@) is Err
    &&& forall|j: int| 0 <= j < i ==> loaded(#[trigger] images[j]@) is Ok
}

/// Whether several pictures may be those in these bytes, each in a square of this edge.
pub open spec fn are_fitted(pictures: Seq<Picture>, images: Seq<Vec<u8>>, edge: u32) -> bool {
    &&& pictures.len() == images.len()
    &&& forall|i: int|
        0 <= i < pictures.len() ==> may_be_in_square(#[trigger] pictures[i], images[i]@, edge)
}

/// Whether a request for a mosaic is answered with its file, or with why there is none.
pub open spec fn is_mosaic_file(
    r: Result<Vec<u8>, ApiError>,
    written: Result<Seq<u8>, Seq<char>>,
) -> bool {
    match (r, written) {
        (Ok(bytes), Ok(w)) => bytes@ == w,
        (Err(e), Err(m)) => e.deep_view() == ErrorView::Internal("could not encode mosaic: "@ + m),
        _ => false,
    }
}

/// Takes the file of a finished mosaic, or reports why there is none.
pub fn mosaic_file(written: Result<Vec<u8>, String>) -> (r: Result<Vec<u8>, ApiError>)
    ensures
        is_mosaic_file(r, bytes_or_text(written)),
{
    match written {
        Ok(bytes) => Ok(bytes),
        Err(m) => {
            let mut text: String = "could not encode mosaic: ".to_owned();
            text.append(m.as_str());
            Err(ApiError::internal(text.as_str()))
        },
    }
}

/// The file that a mosaic of several pictures makes, or the text of the error.
pub open spec fn mosaic_jpeg(pictures: Seq<Picture>, height: u32) -> Result<Seq<u8>, Seq<char>> {
    let width = mosaic_width(height as int);
    jpeg_of(
        width as u32,
        height,
        mosaic_pixels(pictures, width, height as int, pictures.len() as int),
    )
}

/// Makes the mosaic of four pictures at most, as a JPEG: each that is larger than a square of half the
/// mosaic's height is made to fit it, and each is laid at the top left of its cell. A picture that
/// cannot be read is reported.
pub fn create_mosaic(images: &Vec<Vec<u8>>, max_edge: u32) -> (r: Result<Vec<u8>, ApiError>)
    requires
        can_be_held(max_edge as int),
    ensures
        (exists|i: int| is_first_unreadable(first_four(images@), i)) <==> (r is Err && exists|i: int|
            #[trigger] is_first_unreadable(first_four(images@), i) && r->Err_0.deep_view()
                == ErrorView::Internal(
                "could not decode mosaic image: "@ + loaded(first_four(images@)[i]@)->Err_0,
            )),
        (forall|i: int| !is_first_unreadable(first_four(images@), i)) ==> exists|pictures: Seq<
            Picture,
        >| #[trigger]
            are_fitted(pictures, first_four(images@), max_edge / 2) && is_mosaic_file(
                r,
                mosaic_jpeg(pictures, max_edge),
            ),
{
    let mut pictures: Vec<Picture> = Vec::new();
    let ghost used = first_four(images@);
    let n: usize = if images.len() > 4 {
        4
    } else {
        images.len()
    };
    let mut i: usize = 0;
    while i < n
        invariant
            i <= n <= images.len(),
            n <= 4,
            used == first_four(images@),
            used.len() == n,
            max_edge <= 0x1ffff,
            are_fitted(pictures@, used.take(i as int), max_edge / 2),
            forall|j: int| 0 <= j < i ==> loaded(#[trigger] used[j]@) is Ok,
        decreases n - i,
    {
        assert(used[i as int] == images@[i as int]);
        match square_picture(&images[i], max_edge / 2) {
            Ok(picture) => {
                pictures.push(picture);
            },
            Err(m) => {
                let mut text: String = "could not decode mosaic image: ".to_owned();
                text.append(m.as_str());
                assert(is_first_unreadable(used, i as int));
                return Err(ApiError::internal(text.as_str()));
            },
        }
        i += 1;
    }
    assert(used.take(n as int) =~= used);
    let mosaic: Picture = lay_out(&pictures, max_edge);
    mosaic_file(write_jpeg(mosaic))
}

} // verus!
