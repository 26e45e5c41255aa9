//! Paletted images: construction, decoding of the column-based patch format, and blitting.
use vstd::prelude::*;
use vstd::arithmetic::div_mod::lemma_fundamental_div_mod_converse;
use crate::types::WadTextureHeader;

verus! {

/// The largest width or height an image may have.
pub const MAX_IMAGE_SIZE: usize = 4096;

/// The pixel value that fresh images are filled with.
pub const BLANK_PIXEL: u16 = 0xff00;

/// The pixel value that marks a pixel not covered by any post of a decoded patch.
pub const TRANSPARENT_PIXEL: u16 = 0xffff;

/// Why an image could not be made or decoded.
#[derive(Clone, Copy, Debug, PartialEq, Eq, Structural)]
pub enum ImageError {
    /// Width or height above `MAX_IMAGE_SIZE`.
    TooLarge { width: usize, height: usize },
    /// The buffer ends before the width.
    MissingWidth,
    /// The buffer ends before the height.
    MissingHeight,
    /// The buffer ends before the horizontal offset.
    MissingXOffset,
    /// The buffer ends before the vertical offset.
    MissingYOffset,
    /// The buffer ends inside the offset table, at this column.
    UnfinishedColumnHeader(usize),
    /// A column's offset points at or past the end of the buffer.
    InvalidColumnOffset { column: usize, offset: usize, size: usize },
    /// The buffer ends where a post's start row was expected.
    UnfinishedColumn(usize),
    /// The buffer ends where a post's length was expected.
    MissingRunLength(usize),
    /// A post reaches below the image's last row.
    RunTooBig(usize),
    /// The buffer ends inside a post's pixels.
    MissingPixel(usize),
}

/// What an image is: its size, its offsets and its pixels, row after row.
#[verifier::ext_equal]
pub struct ImageView {
    pub width: nat,
    pub height: nat,
    pub x_offset: int,
    pub y_offset: int,
    pub pixels: Seq<u16>,
}

impl ImageView {
    /// The image's pixels fill exactly its rows and it is no larger than allowed.
    pub open spec fn wf(self) -> bool {
        &&& self.pixels.len() == self.width * self.height
        &&& self.width <= MAX_IMAGE_SIZE
        &&& self.height <= MAX_IMAGE_SIZE
    }
}

/// A paletted image with a drawing offset. Each pixel is a palette index in the low
/// byte; a pixel whose top bit is set is transparent.
pub struct Image {
    width: usize,
    height: usize,
    x_offset: isize,
    y_offset: isize,
    pixels: Vec<u16>,
}

impl View for Image {
    type V = ImageView;

    closed spec fn view(&self) -> ImageView {
        ImageView {
            width: self.width as nat,
            height: self.height as nat,
            x_offset: self.x_offset as int,
            y_offset: self.y_offset as int,
            pixels: self.pixels@,
        }
    }
}

/// Where copying starts along one axis of the source, for a destination offset `o`.
pub open spec fn blit_start(o: int) -> int {
    if o < 0 {
        -o
    } else {
        0
    }
}

/// Where copying ends along one axis of the source: the source's extent, cut at the
/// destination's edge.
pub open spec fn blit_end(dest: int, src: int, o: int) -> int {
    if dest > src + o {
        src
    } else {
        dest - o
    }
}

/// The source lands entirely right of or below the destination.
pub open spec fn blit_outside(d: ImageView, o: [isize; 2]) -> bool {
    o[0] >= d.width || o[1] >= d.height
}

/// The offsets for which blitting is defined: either nothing is drawn, or the copied
/// window is not empty in a negative direction and the offsets can be negated.
pub open spec fn blit_defined(d: ImageView, s: ImageView, o: [isize; 2]) -> bool {
    ||| blit_outside(d, o)
    ||| {
        &&& o[0] > isize::MIN
        &&& o[1] > isize::MIN
        &&& blit_start(o[0] as int) <= blit_end(d.width as int, s.width as int, o[0] as int)
        &&& blit_start(o[1] as int) <= blit_end(d.height as int, s.height as int, o[1] as int)
    }
}

/// The destination pixel at `(x, y)` after drawing `s` at offset `o` into `d`. A source
/// pixel with the top bit set leaves the destination pixel unless transparency is ignored.
pub open spec fn blit_pixel(d: ImageView, s: ImageView, o: [isize; 2], ignore: bool, x: int, y: int) -> u16 {
    let sx = x - o[0];
    let sy = y - o[1];
    let dp = d.pixels[y * d.width + x];
    if blit_start(o[0] as int) <= sx < blit_end(d.width as int, s.width as int, o[0] as int)
        && blit_start(o[1] as int) <= sy < blit_end(d.height as int, s.height as int, o[1] as int) {
        let sp = s.pixels[sy * s.width + sx];
        if ignore || sp < 0x8000 {
            sp
        } else {
            dp
        }
    } else {
        dp
    }
}

/// The pixel at index `i` of `d` after drawing `s` into it.
pub open spec fn blit_pixel_at(d: ImageView, s: ImageView, o: [isize; 2], ignore: bool, i: int) -> u16 {
    blit_pixel(d, s, o, ignore, i % (d.width as int), i / (d.width as int))
}


/// The unsigned 16-bit little-endian number at `b[i..i + 2]`.
pub open spec fn le_u16(b: Seq<u8>, i: int) -> int {
    b[i] as int + 256 * (b[i + 1] as int)
}

/// The signed (two's complement) 16-bit little-endian number at `b[i..i + 2]`.
pub open spec fn le_i16(b: Seq<u8>, i: int) -> int {
    if le_u16(b, i) >= 32768 {
        le_u16(b, i) - 65536
    } else {
        le_u16(b, i)
    }
}

/// The unsigned 32-bit little-endian number at `b[i..i + 4]`.
pub open spec fn le_u32(b: Seq<u8>, i: int) -> int {
    le_u16(b, i) + 65536 * le_u16(b, i + 2)
}

/// `px` with the `n` bytes at `buf[src..]` written down column `col` of a `w`-wide
/// image, from row `row` on.
pub open spec fn write_run(px: Seq<u16>, buf: Seq<u8>, src: int, row: int, n: int, w: int, col: int) -> Seq<u16>
    decreases n,
{
    if n <= 0 {
        px
    } else {
        write_run(px.update(row * w + col, buf[src] as u16), buf, src + 1, row + 1, n - 1, w, col)
    }
}

/// How many bytes of `buf` lie at or after `pos`.
pub open spec fn bytes_left(buf: Seq<u8>, pos: int) -> nat {
    if pos >= buf.len() {
        0
    } else {
        (buf.len() - pos) as nat
    }
}

/// Decoding the posts of column `col` that start at `buf[pos]` into the pixels `px` of a
/// `w` by `h` image. A post is a start row, a length, a padding byte, the pixels and a
/// padding byte; a start row of 255 ends the column.
pub open spec fn decode_posts(buf: Seq<u8>, col: int, pos: int, w: int, h: int, px: Seq<u16>) -> Result<Seq<u16>, ImageError>
    decreases bytes_left(buf, pos),
{
    if pos >= buf.len() {
        Err(ImageError::UnfinishedColumn(col as usize))
    } else if buf[pos] == 255 {
        Ok(px)
    } else if pos + 1 >= buf.len() {
        Err(ImageError::MissingRunLength(col as usize))
    } else if buf[pos] + buf[pos + 1] > h {
        Err(ImageError::RunTooBig(col as usize))
    } else if buf[pos + 1] > 0 && pos + 3 + buf[pos + 1] > buf.len() {
        Err(ImageError::MissingPixel(col as usize))
    } else {
        decode_posts(
            buf,
            col,
            pos + 4 + buf[pos + 1],
            w,
            h,
            write_run(px, buf, pos + 3, buf[pos] as int, buf[pos + 1] as int, w, col),
        )
    }
}

/// Decoding the columns `c..w` of a patch, each found through its entry in the offset
/// table that starts at byte 8.
pub open spec fn decode_columns(buf: Seq<u8>, c: int, w: int, h: int, px: Seq<u16>) -> Result<Seq<u16>, ImageError>
    decreases w - c,
{
    if c >= w {
        Ok(px)
    } else if buf.len() < 8 + 4 * c + 4 {
        Err(ImageError::UnfinishedColumnHeader(c as usize))
    } else if le_u32(buf, 8 + 4 * c) >= buf.len() {
        Err(
            ImageError::InvalidColumnOffset {
                column: c as usize,
                offset: le_u32(buf, 8 + 4 * c) as usize,
                size: buf.len() as usize,
            },
        )
    } else {
        match decode_posts(buf, c, le_u32(buf, 8 + 4 * c), w, h, px) {
            Ok(p2) => decode_columns(buf, c + 1, w, h, p2),
            Err(e) => Err(e),
        }
    }
}

/// What decoding a patch from `buf` gives: width, height, x and y offsets as 16-bit
/// little-endian numbers, then one 32-bit offset per column, then the columns' posts.
/// Pixels that no post covers are `TRANSPARENT_PIXEL`.
pub open spec fn spec_decode_image(buf: Seq<u8>) -> Result<ImageView, ImageError> {
    if buf.len() < 2 {
        Err(ImageError::MissingWidth)
    } else if buf.len() < 4 {
        Err(ImageError::MissingHeight)
    } else {
        let w = le_u16(buf, 0);
        let h = le_u16(buf, 2);
        if w > MAX_IMAGE_SIZE || h > MAX_IMAGE_SIZE {
            Err(ImageError::TooLarge { width: w as usize, height: h as usize })
        } else if buf.len() < 6 {
            Err(ImageError::MissingXOffset)
        } else if buf.len() < 8 {
            Err(ImageError::MissingYOffset)
        } else {
            match decode_columns(buf, 0, w, h, Seq::new((w * h) as nat, |i: int| TRANSPARENT_PIXEL)) {
                Ok(px) => Ok(
                    ImageView {
                        width: w as nat,
                        height: h as nat,
                        x_offset: le_i16(buf, 4),
                        y_offset: le_i16(buf, 6),
                        pixels: px,
                    },
                ),
                Err(e) => Err(e),
            }
        }
    }
}

/// An image result seen through the image's view.
pub open spec fn image_result_view(r: Result<Image, ImageError>) -> Result<ImageView, ImageError> {
    match r {
        Ok(img) => Ok(img@),
        Err(e) => Err(e),
    }
}

/// Reads the unsigned 16-bit little-endian number at `buf[pos..pos + 2]`.
pub fn read_u16_le(buf: &[u8], pos: usize) -> (r: u16)
    requires
        pos + 2 <= buf@.len(),
    ensures
        r == le_u16(buf@, pos as int),
{
    buf[pos] as u16 + (buf[pos + 1] as u16) * 256
}

/// Reads the signed 16-bit little-endian number at `buf[pos..pos + 2]`.
pub fn read_i16_le(buf: &[u8], pos: usize) -> (r: i16)
    requires
        pos + 2 <= buf@.len(),
    ensures
        r == le_i16(buf@, pos as int),
{
    let u = read_u16_le(buf, pos);
    if u >= 32768 {
        (u as i32 - 65536) as i16
    } else {
        u as i16
    }
}

/// Reads the unsigned 32-bit little-endian number at `buf[pos..pos + 4]`.
pub fn read_u32_le(buf: &[u8], pos: usize) -> (r: u32)
    requires
        pos + 4 <= buf@.len(),
    ensures
        r == le_u32(buf@, pos as int),
{
    let n = buf.len();
    let lo = read_u16_le(buf, pos);
    let pos2: usize = pos + 2;
    let hi = read_u16_le(buf, pos2);
    lo as u32 + (hi as u32) * 65536
}

proof fn lemma_index_split(i: int, w: int, x: int, y: int)
    requires
        0 < w,
        0 <= x < w,
        i == y * w + x,
    ensures
        i % w == x,
        i / w == y,
{
    lemma_fundamental_div_mod_converse(i, w, y, x);
}

proof fn lemma_index_bound(w: int, h: int, x: int, y: int)
    by (nonlinear_arith)
    requires
        0 <= x < w,
        0 <= y < h,
    ensures
        0 <= y * w + x < w * h,
{
}

proof fn lemma_row_of(i: int, w: int, h: int)
    requires
        0 <= w,
        0 <= h,
        0 <= i < w * h,
    ensures
        0 < w,
        0 <= i / w < h,
        0 <= i % w < w,
        i == (i / w) * w + i % w,
{
    if w == 0 {
        assert(w * h == 0);
    }
    vstd::arithmetic::div_mod::lemma_fundamental_div_mod(i, w);
    vstd::arithmetic::mul::lemma_mul_is_commutative(w, i / w);
    vstd::arithmetic::div_mod::lemma_div_pos_is_pos(i, w);
    vstd::arithmetic::div_mod::lemma_mod_pos_bound(i, w);
    if i / w >= h {
        assert(w * (i / w) >= w * h) by (nonlinear_arith)
            requires
                i / w >= h,
                w > 0,
        ;
    }
}

/// Blitting draws the whole overlap of source and destination, clipped at every edge:
/// the destination pixel at `(x, y)` becomes the source pixel at `(x - o[0], y - o[1])`
/// when that pixel exists and is opaque (or transparency is ignored), and keeps its
/// value otherwise.
pub proof fn law_blit_draws_overlap(d: ImageView, s: ImageView, o: [isize; 2], ignore: bool, x: int, y: int)
    requires
        0 <= x < d.width,
        0 <= y < d.height,
    ensures
        ({
            let sx = x - o[0];
            let sy = y - o[1];
            let dp = d.pixels[y * d.width + x];
            blit_pixel_at(d, s, o, ignore, y * d.width + x) == if 0 <= sx < s.width && 0 <= sy < s.height {
                let sp = s.pixels[sy * s.width + sx];
                if ignore || sp < 0x8000 { sp } else { dp }
            } else {
                dp
            }
        }),
{
    lemma_fundamental_div_mod_converse(y * d.width + x, d.width as int, y, x);
}

/// Drawing an image of the same size at offset zero with transparency ignored makes the
/// destination a copy of the source.
pub proof fn law_blit_same_size_copies(d: ImageView, s: ImageView, o: [isize; 2])
    requires
        d.wf(),
        s.wf(),
        d.width == s.width,
        d.height == s.height,
        o[0] == 0,
        o[1] == 0,
    ensures
        blit_defined(d, s, o),
        forall|i: int| 0 <= i < d.pixels.len() ==> #[trigger] blit_pixel_at(d, s, o, true, i) == s.pixels[i],
{
    assert forall|i: int| 0 <= i < d.pixels.len() implies #[trigger] blit_pixel_at(d, s, o, true, i) == s.pixels[i] by {
        lemma_row_of(i, d.width as int, d.height as int);
    }
}

/// Drawing a source whose pixels are all transparent, without ignoring transparency,
/// leaves every destination pixel as it was.
pub proof fn law_blit_transparent_source_keeps(d: ImageView, s: ImageView, o: [isize; 2])
    requires
        d.wf(),
        s.wf(),
        forall|i: int| 0 <= i < s.pixels.len() ==> #[trigger] s.pixels[i] >= 0x8000,
    ensures
        forall|i: int| 0 <= i < d.pixels.len() ==> #[trigger] blit_pixel_at(d, s, o, false, i) == d.pixels[i],
{
    assert forall|i: int| 0 <= i < d.pixels.len() implies #[trigger] blit_pixel_at(d, s, o, false, i) == d.pixels[i] by {
        lemma_row_of(i, d.width as int, d.height as int);
        let x = i % (d.width as int);
        let y = i / (d.width as int);
        let sx = x - o[0];
        let sy = y - o[1];
        if blit_start(o[0] as int) <= sx < blit_end(d.width as int, s.width as int, o[0] as int)
            && blit_start(o[1] as int) <= sy < blit_end(d.height as int, s.height as int, o[1] as int) {
            lemma_index_bound(s.width as int, s.height as int, sx, sy);
        }
    }
}

/// Every pixel is transparent or a palette index.
pub open spec fn pixels_are_indices(px: Seq<u16>) -> bool {
    forall|i: int| 0 <= i < px.len() ==> #[trigger] px[i] == TRANSPARENT_PIXEL || px[i] < 256
}

proof fn lemma_write_run(px: Seq<u16>, buf: Seq<u8>, src: int, row: int, n: int, w: int, h: int, col: int)
    requires
        px.len() == w * h,
        pixels_are_indices(px),
        0 <= row,
        row + n <= h,
        0 <= col < w,
    ensures
        write_run(px, buf, src, row, n, w, col).len() == w * h,
        pixels_are_indices(write_run(px, buf, src, row, n, w, col)),
    decreases n,
{
    if n > 0 {
        lemma_index_bound(w, h, col, row);
        let p2 = px.update(row * w + col, buf[src] as u16);
        assert(pixels_are_indices(p2));
        lemma_write_run(p2, buf, src + 1, row + 1, n - 1, w, h, col);
    }
}

proof fn lemma_decode_posts(buf: Seq<u8>, col: int, pos: int, w: int, h: int, px: Seq<u16>)
    requires
        px.len() == w * h,
        pixels_are_indices(px),
        0 <= col < w,
        0 <= h,
    ensures
        decode_posts(buf, col, pos, w, h, px) matches Ok(p2) ==> p2.len() == w * h && pixels_are_indices(p2),
    decreases bytes_left(buf, pos),
{
    if pos < buf.len() && buf[pos] != 255 && pos + 1 < buf.len() && buf[pos] + buf[pos + 1] <= h
        && !(buf[pos + 1] > 0 && pos + 3 + buf[pos + 1] > buf.len()) {
        lemma_write_run(px, buf, pos + 3, buf[pos] as int, buf[pos + 1] as int, w, h, col);
        lemma_decode_posts(buf, col, pos + 4 + buf[pos + 1], w, h,
            write_run(px, buf, pos + 3, buf[pos] as int, buf[pos + 1] as int, w, col));
    }
}

proof fn lemma_decode_columns(buf: Seq<u8>, c: int, w: int, h: int, px: Seq<u16>)
    requires
        px.len() == w * h,
        pixels_are_indices(px),
        0 <= c,
        0 <= h,
    ensures
        decode_columns(buf, c, w, h, px) matches Ok(p2) ==> p2.len() == w * h && pixels_are_indices(p2),
    decreases w - c,
{
    if c < w && buf.len() >= 8 + 4 * c + 4 && le_u32(buf, 8 + 4 * c) < buf.len() {
        let off = le_u32(buf, 8 + 4 * c);
        lemma_decode_posts(buf, c, off, w, h, px);
        if let Ok(p2) = decode_posts(buf, c, off, w, h, px) {
            lemma_decode_columns(buf, c + 1, w, h, p2);
        }
    }
}

/// A decoded patch is a well-formed image, and each of its pixels is either transparent
/// or a palette index.
pub proof fn law_decoded_image_is_indexed(buf: Seq<u8>)
    requires
        spec_decode_image(buf) is Ok,
    ensures
        spec_decode_image(buf)->Ok_0.wf(),
        pixels_are_indices(spec_decode_image(buf)->Ok_0.pixels),
{
    let w = le_u16(buf, 0);
    let h = le_u16(buf, 2);
    let init = Seq::new((w * h) as nat, |i: int| TRANSPARENT_PIXEL);
    assert(w * h >= 0) by (nonlinear_arith)
        requires
            w >= 0,
            h >= 0,
    ;
    lemma_decode_columns(buf, 0, w, h, init);
}

impl Image {
    #[verifier::type_invariant]
    closed spec fn inv(&self) -> bool {
        self@.wf()
    }

    /// A `width` by `height` image at offset zero, every pixel `BLANK_PIXEL`; an error when
    /// either side is above `MAX_IMAGE_SIZE`.
    pub fn new(width: usize, height: usize) -> (r: Result<Image, ImageError>)
        ensures
            (width > MAX_IMAGE_SIZE || height > MAX_IMAGE_SIZE) <==> r is Err,
            r matches Err(e) ==> e == (ImageError::TooLarge { width, height }),
            r matches Ok(img) ==> {
                &&& img@.width == width
                &&& img@.height == height
                &&& img@.x_offset == 0
                &&& img@.y_offset == 0
                &&& img@.pixels == Seq::new((width * height) as nat, |i: int| BLANK_PIXEL)
            },
    {
        if width > MAX_IMAGE_SIZE || height > MAX_IMAGE_SIZE {
            return Err(ImageError::TooLarge { width, height });
        }
        proof {
            assert(width * height <= 4096 * 4096) by (nonlinear_arith)
                requires
                    width <= 4096,
                    height <= 4096,
            ;
        }
        let n: usize = width * height;
        let pixels = filled(n, BLANK_PIXEL);
        Ok(Image { width, height, x_offset: 0, y_offset: 0, pixels })
    }

    /// An image of the size that a texture header gives.
    pub fn new_from_header(header: &WadTextureHeader) -> (r: Result<Image, ImageError>)
        ensures
            (header.width > MAX_IMAGE_SIZE || header.height > MAX_IMAGE_SIZE) <==> r is Err,
            r matches Err(e) ==> e == (ImageError::TooLarge {
                width: header.width as usize,
                height: header.height as usize,
            }),
            r matches Ok(img) ==> {
                &&& img@.width == header.width
                &&& img@.height == header.height
                &&& img@.x_offset == 0
                &&& img@.y_offset == 0
                &&& img@.pixels == Seq::new(
                    (header.width * header.height) as nat,
                    |i: int| BLANK_PIXEL,
                )
            },
    {
        Self::new(header.width as usize, header.height as usize)
    }

    /// Decodes a patch: width, height, x and y offsets as 16-bit little-endian numbers,
    /// one 32-bit offset per column, then each column's posts. Pixels that no post covers
    /// are `TRANSPARENT_PIXEL`.
    pub fn from_buffer(buffer: &[u8]) -> (r: Result<Image, ImageError>)
        ensures
            image_result_view(r) == spec_decode_image(buffer@),
    {
        let len = buffer.len();
        if len < 2 {
            return Err(ImageError::MissingWidth);
        }
        if len < 4 {
            return Err(ImageError::MissingHeight);
        }
        let width = read_u16_le(buffer, 0) as usize;
        let height = read_u16_le(buffer, 2) as usize;
        if width > MAX_IMAGE_SIZE || height > MAX_IMAGE_SIZE {
            return Err(ImageError::TooLarge { width, height });
        }
        if len < 6 {
            return Err(ImageError::MissingXOffset);
        }
        if len < 8 {
            return Err(ImageError::MissingYOffset);
        }
        let x_offset = read_i16_le(buffer, 4) as isize;
        let y_offset = read_i16_le(buffer, 6) as isize;
        proof {
            assert(width * height <= 4096 * 4096) by (nonlinear_arith)
                requires
                    width <= 4096,
                    height <= 4096,
            ;
        }
        let mut pixels = filled(width * height, TRANSPARENT_PIXEL);
        let ghost init = pixels@;
        let mut c: usize = 0;
        while c < width
            invariant
                len == buffer@.len(),
                len >= 8,
                width == le_u16(buffer@, 0),
                height == le_u16(buffer@, 2),
                width <= MAX_IMAGE_SIZE,
                height <= MAX_IMAGE_SIZE,
                0 <= c <= width,
                pixels@.len() == width * height,
                init == Seq::new((width * height) as nat, |i: int| TRANSPARENT_PIXEL),
                decode_columns(buffer@, c as int, width as int, height as int, pixels@)
                    == decode_columns(buffer@, 0, width as int, height as int, init),
            decreases width - c,
        {
            if len < 8 + 4 * c + 4 {
                return Err(ImageError::UnfinishedColumnHeader(c));
            }
            let offset = read_u32_le(buffer, 8 + 4 * c) as usize;
            if offset >= len {
                return Err(ImageError::InvalidColumnOffset { column: c, offset, size: len });
            }
            match decode_column_posts(buffer, c, offset, width, height, &mut pixels) {
                Ok(()) => {},
                Err(e) => {
                    return Err(e);
                },
            }
            c = c + 1;
        }
        let img = Image { width, height, x_offset, y_offset, pixels };
        assert(img@ =~= spec_decode_image(buffer@)->Ok_0);
        Ok(img)
    }

    /// Draws `source` into this image with its top-left corner at `offset`, clipped to this
    /// image. Source pixels with the top bit set are skipped unless `ignore_transparency`.
    /// Nothing is drawn when the offset is right of or below this image.
    pub fn blit(&mut self, source: &Image, offset: [isize; 2], ignore_transparency: bool)
        requires
            blit_defined(old(self)@, source@, offset),
        ensures
            final(self)@.width == old(self)@.width,
            final(self)@.height == old(self)@.height,
            final(self)@.x_offset == old(self)@.x_offset,
            final(self)@.y_offset == old(self)@.y_offset,
            final(self)@.pixels.len() == old(self)@.pixels.len(),
            blit_outside(old(self)@, offset) ==> final(self)@ == old(self)@,
            forall|i: int|
                0 <= i < old(self)@.pixels.len() ==> #[trigger] final(self)@.pixels[i]
                    == blit_pixel_at(old(self)@, source@, offset, ignore_transparency, i),
    {
        proof {
            use_type_invariant(&*self);
            use_type_invariant(source);
        }
        let ghost d = self@;
        let ghost s = source@;
        let w = self.width;
        let h = self.height;
        if offset[0] >= w as isize || offset[1] >= h as isize {
            proof {
                assert forall|i: int| 0 <= i < d.pixels.len() implies #[trigger] self@.pixels[i]
                    == blit_pixel_at(d, s, offset, ignore_transparency, i) by {
                    lemma_row_of(i, w as int, h as int);
                }
            }
            return;
        }
        let ox = offset[0];
        let oy = offset[1];
        let y_start: usize = if oy < 0 {
            (-oy) as usize
        } else {
            0
        };
        let x_start: usize = if ox < 0 {
            (-ox) as usize
        } else {
            0
        };
        let y_end: usize = if h as isize > source.height as isize + oy {
            source.height
        } else {
            (h as isize - oy) as usize
        };
        let x_end: usize = if w as isize > source.width as isize + ox {
            source.width
        } else {
            (w as isize - ox) as usize
        };
        let src_pitch = source.width;
        let src_len = source.pixels.len();
        let dest_len = self.pixels.len();
        let copy_width = x_end - x_start;
        let copy_height = y_end - y_start;
        let mut dy: usize = 0;
        proof {
            assert forall|i: int| 0 <= i < d.pixels.len() implies #[trigger] self.pixels@[i] == (
            if i / (w as int) - oy < y_start + dy {
                blit_pixel_at(d, s, offset, ignore_transparency, i)
            } else {
                d.pixels[i]
            }) by {
                lemma_row_of(i, w as int, h as int);
            }
        }
        while dy < copy_height
            invariant
                d == old(self)@,
                s == source@,
                d.wf(),
                s.wf(),
                w == d.width,
                h == d.height,
                src_pitch == s.width,
                src_len == s.pixels.len(),
                dest_len == d.pixels.len(),
                !blit_outside(d, offset),
                ox == offset[0],
                oy == offset[1],
                ox > isize::MIN,
                oy > isize::MIN,
                x_start == blit_start(ox as int),
                y_start == blit_start(oy as int),
                x_end == blit_end(w as int, s.width as int, ox as int),
                y_end == blit_end(h as int, s.height as int, oy as int),
                x_start <= x_end,
                y_start <= y_end,
                copy_width == x_end - x_start,
                copy_height == y_end - y_start,
                0 <= dy <= copy_height,
                self.width == d.width,
                self.height == d.height,
                self.x_offset == d.x_offset,
                self.y_offset == d.y_offset,
                self.pixels@.len() == d.pixels.len(),
                forall|i: int|
                    0 <= i < d.pixels.len() ==> #[trigger] self.pixels@[i] == (if i / (w as int)
                        - oy < y_start + dy {
                        blit_pixel_at(d, s, offset, ignore_transparency, i)
                    } else {
                        d.pixels[i]
                    }),
            decreases copy_height - dy,
        {
            let sy = y_start + dy;
            let dest_y = (sy as isize + oy) as usize;
            let dest_x = (x_start as isize + ox) as usize;
            let mut k: usize = 0;
            proof {
                assert forall|i: int| 0 <= i < d.pixels.len() implies #[trigger] self.pixels@[i]
                    == (if i / (w as int) - oy < y_start + dy || (i / (w as int) == dest_y && i
                    % (w as int) < dest_x + k) {
                    blit_pixel_at(d, s, offset, ignore_transparency, i)
                } else {
                    d.pixels[i]
                }) by {
                    lemma_row_of(i, w as int, h as int);
                }
            }
            while k < copy_width
                invariant
                    d == old(self)@,
                    s == source@,
                    d.wf(),
                    s.wf(),
                    w == d.width,
                    h == d.height,
                    src_pitch == s.width,
                    src_len == s.pixels.len(),
                    dest_len == d.pixels.len(),
                    ox == offset[0],
                    oy == offset[1],
                    x_start == blit_start(ox as int),
                    y_start == blit_start(oy as int),
                    x_end == blit_end(w as int, s.width as int, ox as int),
                    y_end == blit_end(h as int, s.height as int, oy as int),
                    x_start <= x_end,
                    y_start <= y_end,
                    copy_width == x_end - x_start,
                    copy_height == y_end - y_start,
                    0 <= dy < copy_height,
                    sy == y_start + dy,
                    dest_y == sy + oy,
                    dest_x == x_start + ox,
                    0 <= k <= copy_width,
                    self.width == d.width,
                    self.height == d.height,
                    self.x_offset == d.x_offset,
                    self.y_offset == d.y_offset,
                    self.pixels@.len() == d.pixels.len(),
                    forall|i: int|
                        0 <= i < d.pixels.len() ==> #[trigger] self.pixels@[i] == (if i / (w as int)
                            - oy < y_start + dy || (i / (w as int) == dest_y && i % (w as int)
                            < dest_x + k) {
                            blit_pixel_at(d, s, offset, ignore_transparency, i)
                        } else {
                            d.pixels[i]
                        }),
                decreases copy_width - k,
            {
                let sx = x_start + k;
                let dx = dest_x + k;
                proof {
                    lemma_index_bound(s.width as int, s.height as int, sx as int, sy as int);
                    lemma_index_bound(w as int, h as int, dx as int, dest_y as int);
                }
                let si = sy * src_pitch + sx;
                let di = dest_y * w + dx;
                let sp = source.pixels[si];
                let dp = self.pixels[di];
                let v = if ignore_transparency || sp < 0x8000 {
                    sp
                } else {
                    dp
                };
                proof {
                    lemma_index_split(di as int, w as int, dx as int, dest_y as int);
                    assert(dp == d.pixels[di as int]);
                    assert(v == blit_pixel_at(d, s, offset, ignore_transparency, di as int));
                }
                self.pixels[di] = v;
                k = k + 1;
                proof {
                    assert forall|i: int| 0 <= i < d.pixels.len() implies #[trigger] self.pixels@[i]
                        == (if i / (w as int) - oy < y_start + dy || (i / (w as int) == dest_y && i
                        % (w as int) < dest_x + k) {
                        blit_pixel_at(d, s, offset, ignore_transparency, i)
                    } else {
                        d.pixels[i]
                    }) by {
                        lemma_row_of(i, w as int, h as int);
                        if i != di {
                            if i / (w as int) == dest_y && i % (w as int) == dx {
                                assert(i == di);
                            }
                        }
                    }
                }
            }
            dy = dy + 1;
            proof {
                assert forall|i: int| 0 <= i < d.pixels.len() implies #[trigger] self.pixels@[i]
                    == (if i / (w as int) - oy < y_start + dy {
                    blit_pixel_at(d, s, offset, ignore_transparency, i)
                } else {
                    d.pixels[i]
                }) by {
                    lemma_row_of(i, w as int, h as int);
                }
            }
        }
        proof {
            assert forall|i: int| 0 <= i < d.pixels.len() implies #[trigger] self.pixels@[i]
                == blit_pixel_at(d, s, offset, ignore_transparency, i) by {
                lemma_row_of(i, w as int, h as int);
            }
        }
    }

    /// The horizontal drawing offset.
    pub fn x_offset(&self) -> (r: isize)
        ensures
            r == self@.x_offset,
    {
        self.x_offset
    }

    /// The vertical drawing offset.
    pub fn y_offset(&self) -> (r: isize)
        ensures
            r == self@.y_offset,
    {
        self.y_offset
    }

    /// The width in pixels.
    pub fn width(&self) -> (r: usize)
        ensures
            r == self@.width,
    {
        self.width
    }

    /// The height in pixels.
    pub fn height(&self) -> (r: usize)
        ensures
            r == self@.height,
    {
        self.height
    }

    /// Width and height.
    pub fn size(&self) -> (r: [usize; 2])
        ensures
            r[0] == self@.width,
            r[1] == self@.height,
    {
        [self.width, self.height]
    }

    /// The number of pixels, which is width times height.
    pub fn num_pixels(&self) -> (r: usize)
        ensures
            r == self@.pixels.len(),
            r == self@.width * self@.height,
    {
        proof {
            use_type_invariant(self);
        }
        self.pixels.len()
    }

    /// The pixels, row after row.
    pub fn pixels(&self) -> (r: &[u16])
        ensures
            r@ == self@.pixels,
    {
        self.pixels.as_slice()
    }

    /// The pixels, row after row, taken out of the image.
    pub fn into_pixels(self) -> (r: Vec<u16>)
        ensures
            r@ == self@.pixels,
    {
        self.pixels
    }
}

/// Decodes the posts of column `col` that start at `buf[start]` into `px`.
fn decode_column_posts(buf: &[u8], col: usize, start: usize, w: usize, h: usize, px: &mut Vec<u16>) -> (r: Result<(), ImageError>)
    requires
        old(px)@.len() == w * h,
        start < buf@.len(),
        col < w,
        w <= MAX_IMAGE_SIZE,
        h <= MAX_IMAGE_SIZE,
    ensures
        final(px)@.len() == w * h,
        r is Ok ==> decode_posts(buf@, col as int, start as int, w as int, h as int, old(px)@) == Ok::<Seq<u16>, ImageError>(final(px)@),
        r matches Err(e) ==> decode_posts(buf@, col as int, start as int, w as int, h as int, old(px)@) == Err::<Seq<u16>, ImageError>(e),
{
    let len = buf.len();
    let mut p: usize = start;
    let ghost result = decode_posts(buf@, col as int, start as int, w as int, h as int, old(px)@);
    loop
        invariant
            len == buf@.len(),
            p <= len,
            col < w,
            w <= MAX_IMAGE_SIZE,
            h <= MAX_IMAGE_SIZE,
            px@.len() == w * h,
            decode_posts(buf@, col as int, p as int, w as int, h as int, px@) == result,
            result == decode_posts(buf@, col as int, start as int, w as int, h as int, old(px)@),
        decreases len - p,
    {
        if p >= len {
            return Err(ImageError::UnfinishedColumn(col));
        }
        let row_start = buf[p] as usize;
        if row_start == 255 {
            return Ok(());
        }
        if p + 1 >= len {
            return Err(ImageError::MissingRunLength(col));
        }
        let run = buf[p + 1] as usize;
        if row_start + run > h {
            return Err(ImageError::RunTooBig(col));
        }
        if run > 0 && len - p < 3 + run {
            return Err(ImageError::MissingPixel(col));
        }
        let ghost px0 = px@;
        let mut j: usize = 0;
        while j < run
            invariant
                len == buf@.len(),
                p < len,
                run > 0 ==> len - p >= 3 + run,
                row_start + run <= h,
                col < w,
                w <= MAX_IMAGE_SIZE,
                h <= MAX_IMAGE_SIZE,
                0 <= j <= run,
                px@.len() == w * h,
                write_run(px@, buf@, p + 3 + j, row_start + j, run - j, w as int, col as int)
                    == write_run(px0, buf@, p + 3, row_start as int, run as int, w as int, col as int),
            decreases run - j,
        {
            proof {
                lemma_index_bound(w as int, h as int, col as int, (row_start + j) as int);
                assert(w * h <= 4096 * 4096) by (nonlinear_arith)
                    requires
                        w <= 4096,
                        h <= 4096,
                ;
            }
            let idx = (row_start + j) * w + col;
            px[idx] = buf[p + 3 + j] as u16;
            j = j + 1;
        }
        let ghost old_p = p;
        proof {
            assert(write_run(px@, buf@, p + 3 + run, row_start + run, 0, w as int, col as int) == px@);
            assert(decode_posts(buf@, col as int, old_p as int, w as int, h as int, px0)
                == decode_posts(buf@, col as int, old_p + 4 + run, w as int, h as int, px@));
        }
        p = if len - p >= 4 + run {
            p + 4 + run
        } else {
            len
        };
        proof {
            if p == len && old_p + 4 + run != len {
                assert(decode_posts(buf@, col as int, p as int, w as int, h as int, px@)
                    == decode_posts(buf@, col as int, old_p + 4 + run, w as int, h as int, px@));
            }
        }
    }
}

/// A vector of `n` copies of `value`.
fn filled(n: usize, value: u16) -> (r: Vec<u16>)
    ensures
        r@ == Seq::new(n as nat, |i: int| value),
{
    let mut v: Vec<u16> = Vec::new();
    let mut i: usize = 0;
    while i < n
        invariant
            0 <= i <= n,
            v@ == Seq::new(i as nat, |j: int| value),
        decreases n - i,
    {
        v.push(value);
        i = i + 1;
        assert(v@ =~= Seq::new(i as nat, |j: int| value));
    }
    v
}

} // verus!
