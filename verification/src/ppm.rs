//! The binary PPM (`P6`) image format, as the explorer reads it and the viewer
//! writes it: a `P6` line, a line with the width and the height, a `255` line,
//! then three bytes (red, green, blue) per pixel, row by row.

use vstd::prelude::*;
use vstd::slice::slice_subrange;
use crate::decimal::{
    decimal, is_digit, lemma_decimal, lemma_parse_decimal, parse_u32, read_u32, write_u32,
};

verus! {

/// The colour of one pixel.
#[derive(Clone, Copy, Debug, PartialEq, Eq, Structural)]
pub struct Pixel {
    pub red: u8,
    pub green: u8,
    pub blue: u8,
}

/// Why a byte string is not a PPM image that can be loaded.
#[derive(Clone, Copy, Debug, PartialEq, Eq, Structural)]
pub enum PpmError {
    /// The first line is not `P6`.
    NotP6,
    /// The second line does not hold exactly two fields separated by one space.
    DimensionCount,
    /// A field of the second line is not a number that fits in a `u32`.
    BadDimension,
    /// The third line is not `255`.
    BadMaxValue,
    /// The width times the height does not fit in a `u32`.
    TooLarge,
    /// Fewer bytes follow the header than three per pixel.
    Truncated,
}

// ---------------------------------------------------------------------------
// White space, as `str::trim` sees it, on UTF-8 bytes.

/// An ASCII white-space byte: tab, line feed, vertical tab, form feed,
/// carriage return or space.
pub open spec fn is_ascii_space(b: u8) -> bool {
    (9 <= b && b <= 13) || b == 32
}

/// The three-byte UTF-8 encodings of the white-space characters U+1680,
/// U+2000 to U+200A, U+2028, U+2029, U+202F, U+205F and U+3000.
pub open spec fn is_wide_space(a: u8, b: u8, c: u8) -> bool {
    ||| (a == 0xE1 && b == 0x9A && c == 0x80)
    ||| (a == 0xE2 && b == 0x80 && ((0x80 <= c && c <= 0x8A) || c == 0xA8 || c == 0xA9 || c
        == 0xAF))
    ||| (a == 0xE2 && b == 0x81 && c == 0x9F)
    ||| (a == 0xE3 && b == 0x80 && c == 0x80)
}

/// The two-byte UTF-8 encodings of the white-space characters U+0085 and U+00A0.
pub open spec fn is_latin_space(a: u8, b: u8) -> bool {
    a == 0xC2 && (b == 0x85 || b == 0xA0)
}

/// The length of the encoding of the white-space character that `s` starts
/// with, or 0 when it does not start with one.
pub open spec fn space_prefix_len(s: Seq<u8>) -> nat {
    if s.len() >= 1 && is_ascii_space(s[0]) {
        1
    } else if s.len() >= 2 && is_latin_space(s[0], s[1]) {
        2
    } else if s.len() >= 3 && is_wide_space(s[0], s[1], s[2]) {
        3
    } else {
        0
    }
}

/// The length of the encoding of the white-space character that `s` ends
/// with, or 0 when it does not end with one.
pub open spec fn space_suffix_len(s: Seq<u8>) -> nat {
    let n = s.len() as int;
    if n >= 1 && is_ascii_space(s[n - 1]) {
        1
    } else if n >= 2 && is_latin_space(s[n - 2], s[n - 1]) {
        2
    } else if n >= 3 && is_wide_space(s[n - 3], s[n - 2], s[n - 1]) {
        3
    } else {
        0
    }
}

/// `s` without its leading white space.
pub open spec fn trim_start(s: Seq<u8>) -> Seq<u8>
    decreases s.len(),
{
    if space_prefix_len(s) == 0 {
        s
    } else {
        trim_start(s.skip(space_prefix_len(s) as int))
    }
}

/// `s` without its trailing white space.
pub open spec fn trim_end(s: Seq<u8>) -> Seq<u8>
    decreases s.len(),
{
    if space_suffix_len(s) == 0 {
        s
    } else {
        trim_end(s.take(s.len() - space_suffix_len(s)))
    }
}

/// `s` without leading and trailing white space, as `str::trim` gives it.
pub open spec fn trim(s: Seq<u8>) -> Seq<u8> {
    trim_end(trim_start(s))
}

// ---------------------------------------------------------------------------
// Lines and fields.

/// The first index at or after `i` that holds `b`, or the length of `s` when
/// there is none.
pub open spec fn find_byte(s: Seq<u8>, b: u8, i: int) -> int
    decreases s.len() - i,
{
    if i >= s.len() {
        s.len() as int
    } else if s[i] == b {
        i
    } else {
        find_byte(s, b, i + 1)
    }
}

/// Where the line that starts at `i` ends, as `BufRead::read_line` reads it:
/// just after the next line feed, or at the end of the input.
pub open spec fn line_end(s: Seq<u8>, i: int) -> int {
    let j = find_byte(s, 10, i);
    if j < s.len() {
        j + 1
    } else {
        s.len() as int
    }
}

/// `P6`
pub open spec fn magic() -> Seq<u8> {
    seq![80u8, 54u8]
}

/// `255`
pub open spec fn max_value() -> Seq<u8> {
    seq![50u8, 53u8, 53u8]
}

/// The width and the height that the second line gives: it is split at spaces,
/// must have exactly two fields, and each field, trimmed, must read as a `u32`.
pub open spec fn dimensions(line: Seq<u8>) -> Result<(u32, u32), PpmError> {
    let k = find_byte(line, 32, 0);
    if k >= line.len() || find_byte(line, 32, k + 1) < line.len() {
        Err(PpmError::DimensionCount)
    } else {
        match (parse_u32(trim(line.take(k))), parse_u32(trim(line.skip(k + 1)))) {
            (Some(w), Some(h)) => Ok((w, h)),
            _ => Err(PpmError::BadDimension),
        }
    }
}

/// The pixels that `count` byte triples at the start of `body` give.
pub open spec fn pixels_from(body: Seq<u8>, count: nat) -> Seq<Pixel> {
    Seq::new(
        count,
        |i: int| Pixel { red: body[3 * i], green: body[3 * i + 1], blue: body[3 * i + 2] },
    )
}

/// What loading the bytes `s` as a PPM image gives: the width, the height and
/// the pixels in row-major order, or the first check that fails. Bytes after
/// the last pixel are ignored.
pub open spec fn decode_ppm(s: Seq<u8>) -> Result<(u32, u32, Seq<Pixel>), PpmError> {
    let e1 = line_end(s, 0);
    let e2 = line_end(s, e1);
    let e3 = line_end(s, e2);
    if trim(s.subrange(0, e1)) != magic() {
        Err(PpmError::NotP6)
    } else {
        match dimensions(s.subrange(e1, e2)) {
            Err(e) => Err(e),
            Ok((w, h)) => {
                if trim(s.subrange(e2, e3)) != max_value() {
                    Err(PpmError::BadMaxValue)
                } else if w * h > u32::MAX {
                    Err(PpmError::TooLarge)
                } else if s.len() - e3 < 3 * (w * h) {
                    Err(PpmError::Truncated)
                } else {
                    Ok((w, h, pixels_from(s.skip(e3), (w * h) as nat)))
                }
            },
        }
    }
}

/// The bytes of the pixels, three per pixel (red, green, blue), in order.
pub open spec fn pixel_bytes(p: Seq<Pixel>) -> Seq<u8>
    decreases p.len(),
{
    if p.len() == 0 {
        Seq::empty()
    } else {
        pixel_bytes(p.drop_last()) + seq![p.last().red, p.last().green, p.last().blue]
    }
}

/// The header of a PPM image of the given size: `P6`, then the width and the
/// height in decimal separated by a space, then `255`, each on a line of its own.
pub open spec fn ppm_header(width: u32, height: u32) -> Seq<u8> {
    seq![80u8, 54u8, 10u8] + decimal(width as nat) + seq![32u8] + decimal(height as nat) + seq![
        10u8,
        50u8,
        53u8,
        53u8,
        10u8,
    ]
}

/// The bytes of a PPM image of the given size and pixels (row by row), as the
/// viewer writes them.
pub open spec fn encode_ppm(width: u32, height: u32, pixels: Seq<Pixel>) -> Seq<u8> {
    ppm_header(width, height) + pixel_bytes(pixels)
}

/// Row `y` of a grid held as columns: the pixel at row `y` of each column, from
/// the first column to the last.
pub open spec fn grid_row(columns: Seq<Vec<Pixel>>, y: int) -> Seq<Pixel> {
    Seq::new(columns.len(), |x: int| columns[x]@[y])
}

/// The first `height` rows of a grid held as columns, one after the other.
pub open spec fn grid_rows(columns: Seq<Vec<Pixel>>, height: nat) -> Seq<Pixel>
    decreases height,
{
    if height == 0 {
        Seq::empty()
    } else {
        grid_rows(columns, (height - 1) as nat) + grid_row(columns, height - 1)
    }
}

// ---------------------------------------------------------------------------
// Executable scanning.

fn space_prefix_at(s: &[u8], lo: usize, hi: usize) -> (n: usize)
    requires
        lo <= hi <= s@.len(),
    ensures
        n == space_prefix_len(s@.subrange(lo as int, hi as int)),
        n <= hi - lo,
{
    if hi - lo >= 1 && ((9u8 <= s[lo] && s[lo] <= 13u8) || s[lo] == 32u8) {
        1
    } else if hi - lo >= 2 && s[lo] == 0xC2u8 && (s[lo + 1] == 0x85u8 || s[lo + 1] == 0xA0u8) {
        2
    } else if hi - lo >= 3 && ((s[lo] == 0xE1u8 && s[lo + 1] == 0x9Au8 && s[lo + 2] == 0x80u8)
        || (s[lo] == 0xE2u8 && s[lo + 1] == 0x80u8 && ((0x80u8 <= s[lo + 2] && s[lo + 2]
        <= 0x8Au8) || s[lo + 2] == 0xA8u8 || s[lo + 2] == 0xA9u8 || s[lo + 2] == 0xAFu8)) || (
    s[lo] == 0xE2u8 && s[lo + 1] == 0x81u8 && s[lo + 2] == 0x9Fu8) || (s[lo] == 0xE3u8 && s[lo
        + 1] == 0x80u8 && s[lo + 2] == 0x80u8)) {
        3
    } else {
        0
    }
}

fn space_suffix_at(s: &[u8], lo: usize, hi: usize) -> (n: usize)
    requires
        lo <= hi <= s@.len(),
    ensures
        n == space_suffix_len(s@.subrange(lo as int, hi as int)),
        n <= hi - lo,
{
    if hi - lo >= 1 && ((9u8 <= s[hi - 1] && s[hi - 1] <= 13u8) || s[hi - 1] == 32u8) {
        1
    } else if hi - lo >= 2 && s[hi - 2] == 0xC2u8 && (s[hi - 1] == 0x85u8 || s[hi - 1]
        == 0xA0u8) {
        2
    } else if hi - lo >= 3 && ((s[hi - 3] == 0xE1u8 && s[hi - 2] == 0x9Au8 && s[hi - 1]
        == 0x80u8) || (s[hi - 3] == 0xE2u8 && s[hi - 2] == 0x80u8 && ((0x80u8 <= s[hi - 1]
        && s[hi - 1] <= 0x8Au8) || s[hi - 1] == 0xA8u8 || s[hi - 1] == 0xA9u8 || s[hi - 1]
        == 0xAFu8)) || (s[hi - 3] == 0xE2u8 && s[hi - 2] == 0x81u8 && s[hi - 1] == 0x9Fu8) || (
    s[hi - 3] == 0xE3u8 && s[hi - 2] == 0x80u8 && s[hi - 1] == 0x80u8)) {
        3
    } else {
        0
    }
}

/// The bounds of `s` without its leading and trailing white space.
fn trim_bounds(s: &[u8]) -> (r: (usize, usize))
    ensures
        r.0 <= r.1 <= s@.len(),
        s@.subrange(r.0 as int, r.1 as int) == trim(s@),
{
    let len = s.len();
    let mut a: usize = 0;
    assert(s@.subrange(0, len as int) == s@);
    loop
        invariant
            a <= len == s@.len(),
            trim_start(s@.subrange(a as int, len as int)) == trim_start(s@),
        ensures
            a <= len == s@.len(),
            trim_start(s@) == s@.subrange(a as int, len as int),
        decreases len - a,
    {
        let n = space_prefix_at(s, a, len);
        if n == 0 {
            break;
        }
        assert(s@.subrange(a as int, len as int).skip(n as int) == s@.subrange(
            a + n,
            len as int,
        ));
        a = a + n;
    }
    let mut b: usize = len;
    loop
        invariant
            a <= b <= len == s@.len(),
            trim_start(s@) == s@.subrange(a as int, len as int),
            trim_end(s@.subrange(a as int, b as int)) == trim(s@),
        ensures
            a <= b <= len,
            s@.subrange(a as int, b as int) == trim(s@),
        decreases b,
    {
        let n = space_suffix_at(s, a, b);
        if n == 0 {
            break;
        }
        assert(s@.subrange(a as int, b as int).take(b - n - a) == s@.subrange(
            a as int,
            b - n,
        ));
        b = b - n;
    }
    (a, b)
}

/// The first index at or after `i` that holds `b`, or the length of `s`.
fn find_byte_from(s: &[u8], b: u8, i: usize) -> (j: usize)
    requires
        i <= s@.len(),
    ensures
        j == find_byte(s@, b, i as int),
{
    let mut j: usize = i;
    while j < s.len() && s[j] != b
        invariant
            i <= j <= s@.len(),
            find_byte(s@, b, j as int) == find_byte(s@, b, i as int),
        decreases s@.len() - j,
    {
        j = j + 1;
    }
    j
}

/// Where the line that starts at `i` ends.
fn line_end_from(s: &[u8], i: usize) -> (e: usize)
    requires
        i <= s@.len(),
    ensures
        e == line_end(s@, i as int),
        i <= e <= s@.len(),
{
    proof {
        lemma_find_byte_bounds(s@, 10, i as int);
    }
    let j = find_byte_from(s, 10u8, i);
    if j < s.len() {
        j + 1
    } else {
        s.len()
    }
}

/// Reads the width and the height from the second line.
fn read_dimensions(line: &[u8]) -> (r: Result<(u32, u32), PpmError>)
    ensures
        r == dimensions(line@),
{
    let k = find_byte_from(line, 32u8, 0);
    if k >= line.len() {
        return Err(PpmError::DimensionCount);
    }
    proof {
        lemma_find_byte_bounds(line@, 32, k + 1);
    }
    if find_byte_from(line, 32u8, k + 1) < line.len() {
        return Err(PpmError::DimensionCount);
    }
    let first = slice_subrange(line, 0, k);
    let second = slice_subrange(line, k + 1, line.len());
    assert(first@ == line@.take(k as int));
    assert(second@ == line@.skip(k + 1));
    let (a, b) = trim_bounds(first);
    let width = read_u32(slice_subrange(first, a, b));
    let (c, d) = trim_bounds(second);
    let height = read_u32(slice_subrange(second, c, d));
    match (width, height) {
        (Some(w), Some(h)) => Ok((w, h)),
        _ => Err(PpmError::BadDimension),
    }
}

// ---------------------------------------------------------------------------
// Images.

/// An image held as its pixels in row-major order.
pub struct Image {
    width: u32,
    height: u32,
    pixels: Vec<Pixel>,
}

impl View for Image {
    /// The width, the height and the pixels, row by row.
    type V = (u32, u32, Seq<Pixel>);

    closed spec fn view(&self) -> (u32, u32, Seq<Pixel>) {
        (self.width, self.height, self.pixels@)
    }
}

impl Image {
    /// There is one pixel per row and column, and their number fits in a `u32`.
    #[verifier::type_invariant]
    spec fn well_formed(self) -> bool {
        &&& self.width * self.height <= u32::MAX
        &&& self.pixels@.len() == self.width * self.height
    }

    /// The number of columns.
    pub fn width(&self) -> (w: u32)
        ensures
            w == self@.0,
    {
        self.width
    }

    /// The number of rows.
    pub fn height(&self) -> (h: u32)
        ensures
            h == self@.1,
    {
        self.height
    }

    /// The pixel in column `x` of row `y`.
    pub fn get_pixel(&self, x: u32, y: u32) -> (p: Pixel)
        requires
            x < self@.0,
            y < self@.1,
        ensures
            p == self@.2[y * self@.0 + x],
    {
        proof {
            use_type_invariant(self);
            lemma_row_major_index(self.width as int, self.height as int, x as int, y as int);
        }
        self.pixels[((y * self.width) + x) as usize]
    }

    /// Loads an image from the bytes of a PPM file (see [`decode_ppm`]); the
    /// bytes must be a PPM image that loads, which [`check_ppm`] tells.
    pub fn from_ppm(bytes: &[u8]) -> (image: Image)
        requires
            decode_ppm(bytes@) is Ok,
        ensures
            decode_ppm(bytes@) == Ok::<_, PpmError>(image@),
    {
        let (width, height, e3) = match read_header(bytes) {
            Ok(header) => header,
            Err(_) => {
                return Image { width: 0, height: 0, pixels: Vec::new() };
            },
        };
        let count: usize = (width as u64 * height as u64) as usize;
        let body = slice_subrange(bytes, e3, bytes.len());
        assert(body@ == bytes@.skip(e3 as int));
        let mut pixels: Vec<Pixel> = Vec::new();
        let mut i: usize = 0;
        while i < count
            invariant
                i <= count,
                3 * count <= body.len(),
                pixels@ == pixels_from(body@, i as nat),
            decreases count - i,
        {
            let p = Pixel { red: body[3 * i], green: body[3 * i + 1], blue: body[3 * i + 2] };
            pixels.push(p);
            assert(pixels@ == pixels_from(body@, (i + 1) as nat));
            i = i + 1;
        }
        Image { width, height, pixels }
    }
}

/// Whether the bytes of a PPM file load as an image (see [`decode_ppm`]), and
/// if not, the first check that fails.
pub fn check_ppm(bytes: &[u8]) -> (r: Result<(), PpmError>)
    ensures
        match r {
            Ok(()) => decode_ppm(bytes@) is Ok,
            Err(e) => decode_ppm(bytes@) == Err::<(u32, u32, Seq<Pixel>), _>(e),
        },
{
    match read_header(bytes) {
        Ok(_) => Ok(()),
        Err(e) => Err(e),
    }
}

/// The start of the pixel bytes: just after the third line.
pub open spec fn body_start(s: Seq<u8>) -> int {
    line_end(s, line_end(s, line_end(s, 0)))
}

/// Reads the header of a PPM file: the width, the height and where the pixel
/// bytes start, once it is known that enough of them follow.
fn read_header(bytes: &[u8]) -> (r: Result<(u32, u32, usize), PpmError>)
    ensures
        match r {
            Ok((w, h, start)) => {
                &&& start == body_start(bytes@)
                &&& w * h <= u32::MAX
                &&& start + 3 * (w * h) <= bytes@.len()
                &&& decode_ppm(bytes@) == Ok::<_, PpmError>(
                    (w, h, pixels_from(bytes@.skip(start as int), (w * h) as nat)),
                )
            },
            Err(e) => decode_ppm(bytes@) == Err::<(u32, u32, Seq<Pixel>), _>(e),
        },
{
    let e1 = line_end_from(bytes, 0);
    let e2 = line_end_from(bytes, e1);
    let e3 = line_end_from(bytes, e2);
    let first = slice_subrange(bytes, 0, e1);
    let (a, b) = trim_bounds(first);
    if !(b - a == 2 && first[a] == 80u8 && first[a + 1] == 54u8) {
        proof {
            if trim(first@) == magic() {
                let t = first@.subrange(a as int, b as int);
                assert(t.len() == 2);
                assert(t[0] == 80u8);
                assert(t[1] == 54u8);
                assert(first@[a as int] == 80u8);
                assert(false);
            }
        }
        return Err(PpmError::NotP6);
    }
    assert(trim(first@) == magic());
    let (width, height) = match read_dimensions(slice_subrange(bytes, e1, e2)) {
        Ok(d) => d,
        Err(e) => {
            return Err(e);
        },
    };
    let third = slice_subrange(bytes, e2, e3);
    let (c, d) = trim_bounds(third);
    if !(d - c == 3 && third[c] == 50u8 && third[c + 1] == 53u8 && third[c + 2] == 53u8) {
        proof {
            if trim(third@) == max_value() {
                let t = third@.subrange(c as int, d as int);
                assert(t.len() == 3);
                assert(t[0] == 50u8);
                assert(t[1] == 53u8);
                assert(t[2] == 53u8);
                assert(false);
            }
        }
        return Err(PpmError::BadMaxValue);
    }
    assert(trim(third@) == max_value());
    assert((width as u64) * (height as u64) <= 0xffff_fffe_0000_0001u64) by (nonlinear_arith)
        requires
            width <= 0xffff_ffffu32,
            height <= 0xffff_ffffu32,
    ;
    let count: u64 = width as u64 * height as u64;
    if count > 0xffff_ffffu64 {
        return Err(PpmError::TooLarge);
    }
    let available: usize = bytes.len() - e3;
    if (available as u64) < 3 * count {
        return Err(PpmError::Truncated);
    }
    Ok((width, height, e3))
}

/// The PPM bytes of a grid of pixels held as columns of equal height, as the
/// viewer writes them: the width is the number of columns, the height that of
/// each column, and the pixels go row by row.
pub fn ppm_from_columns(columns: &[Vec<Pixel>]) -> (bytes: Vec<u8>)
    requires
        0 < columns@.len() <= u32::MAX,
        columns@[0]@.len() <= u32::MAX,
        forall|x: int| 0 <= x < columns@.len() ==> #[trigger] columns@[x]@.len() == columns@[0]@.len(),
    ensures
        bytes@ == encode_ppm(
            columns@.len() as u32,
            columns@[0]@.len() as u32,
            grid_rows(columns@, columns@[0]@.len()),
        ),
{
    let width: usize = columns.len();
    let height: usize = columns[0].len();
    let mut out: Vec<u8> = Vec::new();
    out.push(80u8);
    out.push(54u8);
    out.push(10u8);
    write_u32(width as u32, &mut out);
    out.push(32u8);
    write_u32(height as u32, &mut out);
    out.push(10u8);
    out.push(50u8);
    out.push(53u8);
    out.push(53u8);
    out.push(10u8);
    let ghost header = ppm_header(width as u32, height as u32);
    assert(out@ =~= header);
    assert(header + pixel_bytes(grid_rows(columns@, 0)) =~= header);
    let mut y: usize = 0;
    while y < height
        invariant
            width == columns@.len(),
            height == columns@[0]@.len(),
            forall|x: int| 0 <= x < columns@.len() ==> #[trigger] columns@[x]@.len() == height,
            y <= height,
            out@ == header + pixel_bytes(grid_rows(columns@, y as nat)),
        decreases height - y,
    {
        let ghost row = grid_row(columns@, y as int);
        let ghost before = header + pixel_bytes(grid_rows(columns@, y as nat));
        assert(before + pixel_bytes(row.take(0)) =~= before);
        let mut x: usize = 0;
        while x < width
            invariant
                width == columns@.len(),
                height == columns@[0]@.len(),
                forall|k: int| 0 <= k < columns@.len() ==> #[trigger] columns@[k]@.len() == height,
                y < height,
                x <= width,
                row == grid_row(columns@, y as int),
                out@ == before + pixel_bytes(row.take(x as int)),
            decreases width - x,
        {
            let p: Pixel = columns[x][y];
            out.push(p.red);
            out.push(p.green);
            out.push(p.blue);
            proof {
                assert(row.take(x + 1).drop_last() =~= row.take(x as int));
                assert(row.take(x + 1).last() == p);
                assert(out@ =~= before + pixel_bytes(row.take(x + 1)));
            }
            x = x + 1;
        }
        proof {
            assert(row.take(width as int) =~= row);
            lemma_pixel_bytes_concat(grid_rows(columns@, y as nat), row);
            assert(grid_rows(columns@, (y + 1) as nat) == grid_rows(columns@, y as nat) + row);
            assert(out@ =~= header + pixel_bytes(grid_rows(columns@, (y + 1) as nat)));
        }
        y = y + 1;
    }
    out
}

// ---------------------------------------------------------------------------
// Laws.

/// The PPM bytes that the viewer writes for an image load back as that very
/// image: same width, same height, same pixels. (An image with more than
/// `u32::MAX` pixels is written but cannot be loaded: loading refuses it as
/// too large.)
pub proof fn ppm_round_trip(width: u32, height: u32, pixels: Seq<Pixel>)
    requires
        width * height <= u32::MAX,
        pixels.len() == width * height,
    ensures
        decode_ppm(encode_ppm(width, height, pixels)) == Ok::<_, PpmError>((width, height, pixels)),
{
    let d1 = decimal(width as nat);
    let d2 = decimal(height as nat);
    lemma_decimal(width as nat);
    lemma_decimal(height as nat);
    lemma_parse_decimal(width);
    lemma_parse_decimal(height);
    let l1 = d1.len() as int;
    let l2 = d2.len() as int;
    let body = pixel_bytes(pixels);
    let s = encode_ppm(width, height, pixels);
    let header = ppm_header(width, height);
    lemma_pixel_bytes(pixels);
    let e1: int = 3;
    let e2: int = 5 + l1 + l2;
    let e3: int = 9 + l1 + l2;
    assert(header.len() == e3);
    assert(s.skip(e3) =~= body);
    // The first line.
    assert(s.subrange(0, e1) =~= seq![80u8, 54u8, 10u8]);
    lemma_find_byte_at(s, 10, 0, 2);
    assert(line_end(s, 0) == e1);
    lemma_trim_with_newline(seq![80u8, 54u8]);
    assert(seq![80u8, 54u8].push(10u8) =~= seq![80u8, 54u8, 10u8]);
    // The second line.
    let line = d1 + seq![32u8] + d2 + seq![10u8];
    assert(s.subrange(e1, e2) =~= line);
    assert forall|m: int| 0 <= m < line.len() - 1 implies #[trigger] line[m] != 10u8 by {
        if m < l1 {
            assert(is_digit(d1[m]));
        } else if m > l1 {
            assert(is_digit(d2[m - l1 - 1]));
        }
    }
    assert forall|m: int| e1 <= m < e2 - 1 implies #[trigger] s[m] != 10u8 by {
        assert(s[m] == s.subrange(e1, e2)[m - e1]);
        assert(line[m - e1] != 10u8);
    }
    assert(s[e2 - 1] == s.subrange(e1, e2)[e2 - 1 - e1]);
    lemma_find_byte_at(s, 10, e1, e2 - 1);
    assert(line_end(s, e1) == e2);
    // Its fields.
    assert forall|m: int| 0 <= m < l1 implies #[trigger] line[m] != 32u8 by {
        assert(is_digit(d1[m]));
    }
    assert forall|m: int| l1 + 1 <= m < line.len() implies #[trigger] line[m] != 32u8 by {
        if m < line.len() - 1 {
            assert(is_digit(d2[m - l1 - 1]));
        }
    }
    lemma_find_byte_at(line, 32, 0, l1);
    lemma_find_byte_at(line, 32, l1 + 1, line.len() as int);
    assert(line.take(l1) =~= d1);
    assert(line.skip(l1 + 1) =~= d2.push(10u8));
    lemma_trim_digits(d1);
    assert(is_digit(d2[0]) && is_digit(d2.last()));
    lemma_trim_with_newline(d2);
    lemma_trim_digits(d2);
    assert(dimensions(line) == Ok::<_, PpmError>((width, height)));
    // The third line.
    assert(s.subrange(e2, e3) =~= seq![50u8, 53u8, 53u8, 10u8]);
    lemma_find_byte_at(s, 10, e2, e3 - 1);
    assert(line_end(s, e2) == e3);
    lemma_trim_with_newline(seq![50u8, 53u8, 53u8]);
    assert(seq![50u8, 53u8, 53u8].push(10u8) =~= seq![50u8, 53u8, 53u8, 10u8]);
    // The pixels.
    assert(pixels_from(body, pixels.len()) =~= pixels);
}

/// The image that the viewer writes for a grid of pixels held as columns loads
/// back, in the explorer, as an image with one column per grid column and one
/// row per cell of a column, whose pixel in column `x` of row `y` is cell `y`
/// of column `x`. (A grid of more than `u32::MAX` cells cannot be loaded.)
pub proof fn viewer_image_loads(columns: Seq<Vec<Pixel>>)
    requires
        0 < columns.len() <= u32::MAX,
        columns[0]@.len() <= u32::MAX,
        forall|x: int| 0 <= x < columns.len() ==> #[trigger] columns[x]@.len() == columns[0]@.len(),
        columns.len() * columns[0]@.len() <= u32::MAX,
    ensures
        ({
            let w = columns.len() as u32;
            let h = columns[0]@.len() as u32;
            let loaded = decode_ppm(encode_ppm(w, h, grid_rows(columns, h as nat)));
            &&& loaded is Ok
            &&& loaded->Ok_0.0 == w
            &&& loaded->Ok_0.1 == h
            &&& forall|x: int, y: int|
                0 <= x < w && 0 <= y < h ==> #[trigger] loaded->Ok_0.2[y * w + x] == columns[x]@[y]
        }),
{
    let w = columns.len() as u32;
    let h = columns[0]@.len() as u32;
    lemma_grid_rows(columns, h as nat);
    ppm_round_trip(w, h, grid_rows(columns, h as nat));
}

/// The rows of a grid of columns of equal height: `width * height` pixels, the
/// one at `y * width + x` being cell `y` of column `x`.
pub proof fn lemma_grid_rows(columns: Seq<Vec<Pixel>>, height: nat)
    requires
        forall|x: int| 0 <= x < columns.len() ==> #[trigger] columns[x]@.len() >= height,
    ensures
        grid_rows(columns, height).len() == height * columns.len(),
        forall|x: int, y: int|
            0 <= x < columns.len() && 0 <= y < height ==> #[trigger] grid_rows(columns, height)[y
                * columns.len() + x] == columns[x]@[y],
    decreases height,
{
    let w = columns.len() as int;
    if height > 0 {
        let h1 = (height - 1) as nat;
        lemma_grid_rows(columns, h1);
        assert(height * w == h1 * w + w) by (nonlinear_arith)
            requires
                h1 == height - 1,
        ;
        assert forall|x: int, y: int| 0 <= x < w && 0 <= y < height implies #[trigger] grid_rows(
            columns,
            height,
        )[y * w + x] == columns[x]@[y] by {
            lemma_row_major_index(w, height as int, x, y);
            if y < h1 {
                lemma_row_major_index(w, h1 as int, x, y);
            } else {
                assert(y * w == h1 * w);
            }
        }
    }
}

/// In a grid of `width` columns and `height` rows, the row-major index of
/// column `x` of row `y` lies before the end of its row, and rows follow each
/// other.
proof fn lemma_row_major_index(width: int, height: int, x: int, y: int)
    requires
        0 <= x < width,
        0 <= y < height,
    ensures
        0 <= y * width + x < height * width,
        y * width + width <= height * width,
        0 <= y * width,
{
    assert(y * width + width <= height * width && 0 <= y * width) by (nonlinear_arith)
        requires
            0 <= y < height,
            0 <= x < width,
    ;
}

/// The bytes of a sequence of pixels: three per pixel, the `i`-th triple being
/// the colour of the `i`-th pixel.
pub proof fn lemma_pixel_bytes(p: Seq<Pixel>)
    ensures
        pixel_bytes(p).len() == 3 * p.len(),
        forall|i: int|
            0 <= i < p.len() ==> {
                &&& #[trigger] pixel_bytes(p)[3 * i] == p[i].red
                &&& pixel_bytes(p)[3 * i + 1] == p[i].green
                &&& pixel_bytes(p)[3 * i + 2] == p[i].blue
            },
    decreases p.len(),
{
    if p.len() > 0 {
        lemma_pixel_bytes(p.drop_last());
        assert forall|i: int| 0 <= i < p.len() implies {
            &&& #[trigger] pixel_bytes(p)[3 * i] == p[i].red
            &&& pixel_bytes(p)[3 * i + 1] == p[i].green
            &&& pixel_bytes(p)[3 * i + 2] == p[i].blue
        } by {
            if i < p.len() - 1 {
                assert(p.drop_last()[i] == p[i]);
                assert(pixel_bytes(p.drop_last())[3 * i] == p[i].red);
            }
        }
    }
}

/// The bytes of two runs of pixels one after the other are the bytes of the
/// first run followed by those of the second.
pub proof fn lemma_pixel_bytes_concat(a: Seq<Pixel>, b: Seq<Pixel>)
    ensures
        pixel_bytes(a + b) == pixel_bytes(a) + pixel_bytes(b),
    decreases b.len(),
{
    if b.len() == 0 {
        assert(a + b =~= a);
        assert(pixel_bytes(a) + pixel_bytes(b) =~= pixel_bytes(a));
    } else {
        lemma_pixel_bytes_concat(a, b.drop_last());
        assert((a + b).drop_last() =~= a + b.drop_last());
        assert(pixel_bytes(a + b) =~= pixel_bytes(a) + pixel_bytes(b));
    }
}

/// `find_byte` from `i` stops at `j` when no byte in between is `b` and `j`
/// holds `b` or is the end.
proof fn lemma_find_byte_at(s: Seq<u8>, b: u8, i: int, j: int)
    requires
        0 <= i <= j <= s.len(),
        forall|m: int| i <= m < j ==> s[m] != b,
        j == s.len() || s[j] == b,
    ensures
        find_byte(s, b, i) == j,
    decreases j - i,
{
    if i < j {
        lemma_find_byte_at(s, b, i + 1, j);
    }
}

/// A string that starts and ends with a digit has no white space to trim.
proof fn lemma_trim_digits(s: Seq<u8>)
    requires
        s.len() > 0,
        is_digit(s[0]),
        is_digit(s.last()),
    ensures
        trim(s) == s,
{
}

/// A line that is a non-blank ASCII word followed by a line feed trims to that word.
proof fn lemma_trim_with_newline(s: Seq<u8>)
    requires
        s.len() > 0,
        0x21 <= s[0] < 0x7F,
        0x21 <= s.last() < 0x7F,
    ensures
        trim(s.push(10u8)) == s,
{
    let t = s.push(10u8);
    assert(t[0] == s[0]);
    assert(space_prefix_len(t) == 0);
    assert(trim_start(t) == t);
    assert(space_suffix_len(t) == 1);
    assert(t.take(s.len() as int) =~= s);
    assert(space_suffix_len(s) == 0);
    assert(trim_end(s) == s);
}

proof fn lemma_find_byte_bounds(s: Seq<u8>, b: u8, i: int)
    requires
        0 <= i <= s.len(),
    ensures
        i <= find_byte(s, b, i) <= s.len(),
        find_byte(s, b, i) < s.len() ==> s[find_byte(s, b, i)] == b,
    decreases s.len() - i,
{
    if i < s.len() && s[i] != b {
        lemma_find_byte_bounds(s, b, i + 1);
    }
}

} // verus!
