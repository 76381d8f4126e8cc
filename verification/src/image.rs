//! Binary PPM (`P6`) images, as textures read them.
//!
//! The header is the magic word `P6`, the width, the height and the largest
//! sample value, each ended by one whitespace byte; then, for each pixel, the
//! red, green and blue samples, one byte each when the largest value is at
//! most 255 and two big-endian bytes each otherwise.
use vstd::prelude::*;
use crate::numbers::{IntErrorKind, parse_unsigned, parse_unsigned_word, scan_digits, is_digit, digit_value};

verus! {

/// Why a PPM image could not be read.
#[derive(Clone, Copy, Debug, PartialEq, Eq, Structural)]
pub enum PpmError {
    /// The bytes ended before the header or the pixels did.
    UnexpectedEnd,
    /// The first word is not `P6`.
    NotP6,
    /// A header number is not an unsigned 32-bit decimal integer.
    BadNumber(IntErrorKind),
}

#[derive(Clone, Copy, Debug, PartialEq, Eq, Structural)]
pub struct PpmHeader {
    pub width: u32,
    pub height: u32,
    pub max_value: u32,
}

/// The three samples of a pixel, on the scale `0..=max_value` of its image.
#[derive(Clone, Copy, Debug, PartialEq, Eq, Structural)]
pub struct Rgb {
    pub r: u16,
    pub g: u16,
    pub b: u16,
}

/// An image: its size, its largest sample value and its pixels row by row.
pub struct Image {
    width: u32,
    height: u32,
    max_value: u32,
    pixels: Vec<Rgb>,
}

pub open spec fn is_ppm_space(b: u8) -> bool {
    b == 32 || b == 10 || b == 13 || b == 9
}

/// Index of the first whitespace byte at or after `pos`, or the length.
pub open spec fn token_end(s: Seq<u8>, pos: int) -> int
    decreases s.len() - pos,
{
    if pos < 0 || pos >= s.len() || is_ppm_space(s[pos]) {
        pos
    } else {
        token_end(s, pos + 1)
    }
}

/// The word at `pos` and the position after the whitespace byte that ends it.
pub open spec fn read_token(s: Seq<u8>, pos: int) -> Result<(Seq<u8>, int), PpmError> {
    let e = token_end(s, pos);
    if e >= s.len() {
        Err(PpmError::UnexpectedEnd)
    } else {
        Ok((s.subrange(pos, e), e + 1))
    }
}

/// The characters of a byte word, one per byte.
pub open spec fn latin1(w: Seq<u8>) -> Seq<char> {
    w.map_values(|b: u8| b as char)
}

/// The unsigned number at `pos` and the position after it.
pub open spec fn read_number(s: Seq<u8>, pos: int) -> Result<(u32, int), PpmError> {
    match read_token(s, pos) {
        Err(e) => Err(e),
        Ok((w, next)) => match parse_unsigned(latin1(w), u32::MAX as nat) {
            Err(k) => Err(PpmError::BadNumber(k)),
            Ok(v) => Ok((v as u32, next)),
        },
    }
}

/// The header and the position of the first pixel byte.
pub open spec fn ppm_header(s: Seq<u8>) -> Result<(PpmHeader, int), PpmError> {
    match read_token(s, 0) {
        Err(e) => Err(e),
        Ok((magic, p0)) => if magic != seq![80u8, 54u8] {
            Err(PpmError::NotP6)
        } else {
            match read_number(s, p0) {
                Err(e) => Err(e),
                Ok((width, p1)) => match read_number(s, p1) {
                    Err(e) => Err(e),
                    Ok((height, p2)) => match read_number(s, p2) {
                        Err(e) => Err(e),
                        Ok((max_value, p3)) => Ok((PpmHeader { width, height, max_value }, p3)),
                    },
                },
            }
        },
    }
}

pub open spec fn bytes_per_sample(max_value: u32) -> int {
    if max_value <= 255 {
        1
    } else {
        2
    }
}

pub open spec fn sample_at(s: Seq<u8>, at: int, bps: int) -> u16 {
    if bps == 1 {
        s[at] as u16
    } else {
        (s[at] * 256 + s[at + 1]) as u16
    }
}

pub open spec fn pixel_at(s: Seq<u8>, at: int, bps: int) -> Rgb {
    Rgb {
        r: sample_at(s, at, bps),
        g: sample_at(s, at + bps, bps),
        b: sample_at(s, at + 2 * bps, bps),
    }
}

/// The pixels of an image whose samples take `bps` bytes, from `start` on.
pub open spec fn ppm_pixels(s: Seq<u8>, start: int, count: nat, bps: int) -> Seq<Rgb> {
    Seq::new(count, |k: int| pixel_at(s, start + k * 3 * bps, bps))
}

/// Whether the image's pixel count fits in 32 bits (reading panics otherwise).
pub open spec fn ppm_size_fits(s: Seq<u8>) -> bool {
    match ppm_header(s) {
        Ok((h, _)) => h.width * h.height <= u32::MAX,
        Err(_) => true,
    }
}

impl Image {
    pub closed spec fn wf(&self) -> bool {
        &&& self.pixels@.len() == self.width * self.height
        &&& self.width * self.height <= u32::MAX
    }

    pub closed spec fn spec_width(&self) -> u32 {
        self.width
    }

    pub closed spec fn spec_height(&self) -> u32 {
        self.height
    }

    pub closed spec fn spec_max_value(&self) -> u32 {
        self.max_value
    }

    pub closed spec fn spec_pixels(&self) -> Seq<Rgb> {
        self.pixels@
    }

    /// The image that the bytes of a PPM file hold: the pixels that follow
    /// the header, read with the header's sample size, when the bytes hold
    /// that many; bytes after them are ignored.
    pub open spec fn from_ppm_spec(s: Seq<u8>) -> Result<(PpmHeader, Seq<Rgb>), PpmError> {
        match ppm_header(s) {
            Err(e) => Err(e),
            Ok((h, start)) => {
                let bps = bytes_per_sample(h.max_value);
                let count = (h.width * h.height) as nat;
                if start + count * 3 * bps > s.len() {
                    Err(PpmError::UnexpectedEnd)
                } else {
                    Ok((h, ppm_pixels(s, start, count, bps)))
                }
            },
        }
    }

    pub fn width(&self) -> (r: u32)
        ensures
            r == self.spec_width(),
    {
        self.width
    }

    pub fn height(&self) -> (r: u32)
        ensures
            r == self.spec_height(),
    {
        self.height
    }

    pub fn max_value(&self) -> (r: u32)
        ensures
            r == self.spec_max_value(),
    {
        self.max_value
    }

    /// Reads a PPM image from a file's bytes.
    pub fn from_ppm(bytes: &[u8]) -> (r: Result<Image, PpmError>)
        requires
            ppm_size_fits(bytes@),
        ensures
            match r {
                Ok(img) => img.wf() && Self::from_ppm_spec(bytes@) == Ok::<
                    (PpmHeader, Seq<Rgb>),
                    PpmError,
                >(
                    (
                        PpmHeader {
                            width: img.spec_width(),
                            height: img.spec_height(),
                            max_value: img.spec_max_value(),
                        },
                        img.spec_pixels(),
                    ),
                ),
                Err(e) => Self::from_ppm_spec(bytes@) == Err::<(PpmHeader, Seq<Rgb>), PpmError>(e),
            },
    {
        let (h, start) = match read_header(bytes) {
            Ok(x) => x,
            Err(e) => return Err(e),
        };
        let bps: usize = if h.max_value <= 255 {
            1
        } else {
            2
        };
        let count = h.width * h.height;
        proof {
            assert((count as u64) * 3 * (bps as u64) <= 6 * 0xFFFF_FFFFu64) by (nonlinear_arith)
                requires
                    count <= 0xFFFF_FFFFu64,
                    bps <= 2,
            ;
        }
        let need: u64 = (count as u64) * 3 * (bps as u64);
        if need > (bytes.len() - start) as u64 {
            return Err(PpmError::UnexpectedEnd);
        }
        let mut pixels: Vec<Rgb> = Vec::new();
        let mut k: u32 = 0;
        while k < count
            invariant
                k <= count,
                count == h.width * h.height,
                bps == bytes_per_sample(h.max_value),
                bps == 1 || bps == 2,
                start <= bytes@.len(),
                start + count * 3 * bps <= bytes@.len(),
                pixels@ == ppm_pixels(bytes@, start as int, count as nat, bps as int).take(k as int),
            decreases count - k,
        {
            proof {
                assert((k + 1) * 3 * bps <= count * 3 * bps) by (nonlinear_arith)
                    requires
                        k < count,
                ;
                assert(k * 3 * bps + 3 * bps == (k + 1) * 3 * bps) by (nonlinear_arith);
                assert(k * 3 <= (k + 1) * 3 * bps) by (nonlinear_arith)
                    requires
                        bps >= 1,
                ;
                assert(k * 3 * bps <= (k + 1) * 3 * bps) by (nonlinear_arith)
                    requires
                        bps >= 1,
                ;
            }
            assert(k * 3 <= count * 3 * bps);
            assert(bytes@.len() == bytes.len());
            assert(start + k * 3 * bps <= bytes@.len());
            let at: usize = start + (k as usize) * 3 * bps;
            let px = Rgb {
                r: sample(bytes, at, bps),
                g: sample(bytes, at + bps, bps),
                b: sample(bytes, at + 2 * bps, bps),
            };
            proof {
                assert(ppm_pixels(bytes@, start as int, count as nat, bps as int)[k as int] == px);
                assert(pixels@.push(px) =~= ppm_pixels(
                    bytes@,
                    start as int,
                    count as nat,
                    bps as int,
                ).take(k + 1));
            }
            pixels.push(px);
            k += 1;
        }
        proof {
            assert(ppm_pixels(bytes@, start as int, count as nat, bps as int).take(count as int)
                =~= ppm_pixels(bytes@, start as int, count as nat, bps as int));
        }
        Ok(Image { width: h.width, height: h.height, max_value: h.max_value, pixels })
    }

    /// The pixel at `(x, y)`, coordinates wrapping around the edges.
    pub fn get_xy(&self, x: u32, y: u32) -> (r: Rgb)
        requires
            self.wf(),
            self.spec_width() > 0,
            self.spec_height() > 0,
        ensures
            r == self.spec_pixels()[(y % self.spec_height()) * self.spec_width() + (x
                % self.spec_width())],
    {
        let w = self.width;
        let h = self.height;
        let row = y % h;
        let col = x % w;
        proof {
            assert(row * w + col < h * w) by (nonlinear_arith)
                requires
                    row < h,
                    col < w,
            ;
            assert(h * w == w * h) by (nonlinear_arith);
            assert(row * w <= h * w) by (nonlinear_arith)
                requires
                    row < h,
            ;
        }
        let index = row * w + col;
        self.pixels[index as usize]
    }

    /// The pixel at `(x, y)`, which lies inside the image.
    pub fn pixel(&self, x: u32, y: u32) -> (r: Rgb)
        requires
            self.wf(),
            x < self.spec_width(),
            y < self.spec_height(),
        ensures
            r == self.spec_pixels()[y * self.spec_width() + x],
    {
        proof {
            assert(y * self.width + x < self.height * self.width) by (nonlinear_arith)
                requires
                    y < self.height,
                    x < self.width,
            ;
            assert(self.height * self.width == self.width * self.height) by (nonlinear_arith);
            assert(y * self.width <= self.height * self.width) by (nonlinear_arith)
                requires
                    y < self.height,
            ;
        }
        self.pixels[(y * self.width + x) as usize]
    }
}

fn sample(bytes: &[u8], at: usize, bps: usize) -> (r: u16)
    requires
        bps == 1 || bps == 2,
        at + bps <= bytes@.len(),
    ensures
        r == sample_at(bytes@, at as int, bps as int),
{
    if bps == 1 {
        bytes[at] as u16
    } else {
        (bytes[at] as u16) * 256 + (bytes[at + 1] as u16)
    }
}

fn read_token_exec(bytes: &[u8], pos: usize) -> (r: Result<(Vec<char>, usize), PpmError>)
    requires
        pos <= bytes@.len(),
    ensures
        match r {
            Ok((w, next)) => read_token(bytes@, pos as int) matches Ok((t, n)) && w@ == latin1(t)
                && next == n,
            Err(e) => read_token(bytes@, pos as int) == Err::<(Seq<u8>, int), PpmError>(e),
        },
{
    let mut i = pos;
    let mut w: Vec<char> = Vec::new();
    while i < bytes.len() && !(bytes[i] == 32 || bytes[i] == 10 || bytes[i] == 13 || bytes[i] == 9)
        invariant
            pos <= i <= bytes@.len(),
            token_end(bytes@, pos as int) == token_end(bytes@, i as int),
            w@ == latin1(bytes@.subrange(pos as int, i as int)),
        decreases bytes@.len() - i,
    {
        proof {
            assert(latin1(bytes@.subrange(pos as int, i + 1)) =~= latin1(
                bytes@.subrange(pos as int, i as int),
            ).push(bytes@[i as int] as char));
        }
        w.push(bytes[i] as char);
        i += 1;
    }
    if i >= bytes.len() {
        return Err(PpmError::UnexpectedEnd);
    }
    Ok((w, i + 1))
}

fn read_number_exec(bytes: &[u8], pos: usize) -> (r: Result<(u32, usize), PpmError>)
    requires
        pos <= bytes@.len(),
    ensures
        match r {
            Ok((v, next)) => read_number(bytes@, pos as int) == Ok::<(u32, int), PpmError>(
                (v, next as int),
            ) && next <= bytes@.len(),
            Err(e) => read_number(bytes@, pos as int) == Err::<(u32, int), PpmError>(e),
        },
{
    let (w, next) = match read_token_exec(bytes, pos) {
        Ok(x) => x,
        Err(e) => return Err(e),
    };
    proof {
        assert(token_end(bytes@, pos as int) < bytes@.len());
    }
    match parse_unsigned_word(&w, 0xFFFF_FFFF) {
        Ok(v) => Ok((v as u32, next)),
        Err(k) => Err(PpmError::BadNumber(k)),
    }
}

proof fn lemma_token_end_bound(s: Seq<u8>, pos: int)
    requires
        0 <= pos <= s.len(),
    ensures
        pos <= token_end(s, pos) <= s.len(),
    decreases s.len() - pos,
{
    if pos < s.len() && !is_ppm_space(s[pos]) {
        lemma_token_end_bound(s, pos + 1);
    }
}

/// Reads the header of a PPM file and returns it with the position of the
/// first pixel byte.
pub fn read_header(bytes: &[u8]) -> (r: Result<(PpmHeader, usize), PpmError>)
    ensures
        match r {
            Ok((h, start)) => ppm_header(bytes@) == Ok::<(PpmHeader, int), PpmError>(
                (h, start as int),
            ) && start <= bytes@.len(),
            Err(e) => ppm_header(bytes@) == Err::<(PpmHeader, int), PpmError>(e),
        },
{
    let (magic, p0) = match read_token_exec(bytes, 0) {
        Ok(x) => x,
        Err(e) => return Err(e),
    };
    proof {
        lemma_token_end_bound(bytes@, 0);
    }
    let ghost t = bytes@.subrange(0, token_end(bytes@, 0));
    if !(magic.len() == 2 && magic[0] == 'P' && magic[1] == '6') {
        proof {
            if t =~= seq![80u8, 54u8] {
                assert(latin1(t)[0] == 'P');
                assert(latin1(t)[1] == '6');
            }
        }
        return Err(PpmError::NotP6);
    }
    proof {
        assert(t.len() == 2);
        assert(latin1(t)[0] == t[0] as char);
        assert(latin1(t)[1] == t[1] as char);
        let b0 = t[0];
        let b1 = t[1];
        assert(b0 == 80u8);
        assert(b1 == 54u8);
        assert(t =~= seq![80u8, 54u8]);
    }
    let (width, p1) = match read_number_exec(bytes, p0) {
        Ok(x) => x,
        Err(e) => return Err(e),
    };
    let (height, p2) = match read_number_exec(bytes, p1) {
        Ok(x) => x,
        Err(e) => return Err(e),
    };
    let (max_value, p3) = match read_number_exec(bytes, p2) {
        Ok(x) => x,
        Err(e) => return Err(e),
    };
    Ok((PpmHeader { width, height, max_value }, p3))
}

/// The two binary netpbm kinds that renders are written as.
#[derive(Clone, Copy, Debug, PartialEq, Eq, Structural)]
pub enum PpmKind {
    /// `P6`: three samples per pixel.
    Rgb,
    /// `P5`: one grey sample per pixel.
    Grey,
}

/// The ASCII decimal digits of a number.
pub open spec fn decimal(n: nat) -> Seq<u8>
    decreases n,
{
    if n < 10 {
        seq![(48 + n) as u8]
    } else {
        decimal(n / 10).push((48 + n % 10) as u8)
    }
}

/// The header of a netpbm file with samples up to 255:
/// `P6\n{width} {height}\n255\n` (`P5` for grey).
pub open spec fn encode_header(kind: PpmKind, width: u32, height: u32) -> Seq<u8> {
    let magic: Seq<u8> = match kind {
        PpmKind::Rgb => seq![80u8, 54u8],
        PpmKind::Grey => seq![80u8, 53u8],
    };
    magic + seq![10u8] + decimal(width as nat) + seq![32u8] + decimal(height as nat) + seq![
        10u8,
        50u8,
        53u8,
        53u8,
        10u8,
    ]
}

fn push_decimal(out: &mut Vec<u8>, n: u32)
    ensures
        final(out)@ == old(out)@ + decimal(n as nat),
    decreases n,
{
    if n >= 10 {
        push_decimal(out, n / 10);
        out.push(48 + (n % 10) as u8);
        assert(final(out)@ =~= old(out)@ + decimal(n as nat));
    } else {
        out.push(48 + n as u8);
        assert(final(out)@ =~= old(out)@ + decimal(n as nat));
    }
}

/// The header that a render of the given size is written with.
pub fn header_bytes(kind: PpmKind, width: u32, height: u32) -> (r: Vec<u8>)
    ensures
        r@ == encode_header(kind, width, height),
{
    let mut out: Vec<u8> = Vec::new();
    out.push(80);
    match kind {
        PpmKind::Rgb => out.push(54),
        PpmKind::Grey => out.push(53),
    }
    out.push(10);
    push_decimal(&mut out, width);
    out.push(32);
    push_decimal(&mut out, height);
    out.push(10);
    out.push(50);
    out.push(53);
    out.push(53);
    out.push(10);
    assert(out@ =~= encode_header(kind, width, height));
    out
}

/// The value of a sequence of decimal digit characters.
pub open spec fn digits_value(s: Seq<char>) -> nat
    decreases s.len(),
{
    if s.len() == 0 {
        0
    } else {
        digits_value(s.drop_last()) * 10 + digit_value(s.last())
    }
}

proof fn lemma_decimal(n: nat)
    ensures
        decimal(n).len() >= 1,
        forall|k: int| 0 <= k < decimal(n).len() ==> 48 <= #[trigger] decimal(n)[k] <= 57,
        digits_value(latin1(decimal(n))) == n,
    decreases n,
{
    if n >= 10 {
        lemma_decimal(n / 10);
        let d = decimal(n / 10);
        let c = (48 + n % 10) as u8;
        assert(latin1(d.push(c)) =~= latin1(d).push(c as char));
        assert(latin1(d.push(c)).drop_last() =~= latin1(d));
        assert(forall|k: int| 0 <= k < d.len() ==> d.push(c)[k] == d[k]);
        assert(c == 48 + n % 10);
        assert((c as char) as u32 == c as u32);
        assert(digit_value(c as char) == n % 10);
        assert((n / 10) * 10 + n % 10 == n);
        let l = latin1(decimal(n));
        assert(decimal(n) == d.push(c));
        assert(l =~= latin1(d).push(c as char));
        assert(l.last() == c as char);
        assert(l.drop_last() =~= latin1(d));
        assert(digits_value(l) == digits_value(latin1(d)) * 10 + digit_value(c as char));
    } else {
        let c = (48 + n) as u8;
        assert(latin1(seq![c]) =~= seq![c as char]);
        assert(seq![c as char].drop_last() =~= Seq::<char>::empty());
        assert((c as char) as u32 == c as u32);
        assert(digit_value(c as char) == n);
        let l = latin1(decimal(n));
        assert(decimal(n) == seq![c]);
        assert(l =~= seq![c as char]);
        assert(l.last() == c as char);
        assert(l.drop_last() =~= Seq::<char>::empty());
        assert(digits_value(l) == digits_value(l.drop_last()) * 10 + digit_value(c as char));
    }
}

proof fn lemma_digits_prefix_monotone(s: Seq<char>, i: int, j: int)
    requires
        0 <= i <= j <= s.len(),
    ensures
        digits_value(s.take(i)) <= digits_value(s.take(j)),
    decreases j - i,
{
    if i < j {
        lemma_digits_prefix_monotone(s, i, j - 1);
        assert(s.take(j).drop_last() =~= s.take(j - 1));
    }
}

proof fn lemma_scan_digit_string(s: Seq<char>, i: int, max: nat)
    requires
        0 <= i <= s.len(),
        forall|k: int| 0 <= k < s.len() ==> is_digit(#[trigger] s[k]),
        digits_value(s) <= max,
    ensures
        scan_digits(s, i, digits_value(s.take(i)), max) == Ok::<nat, IntErrorKind>(digits_value(s)),
    decreases s.len() - i,
{
    if i < s.len() {
        assert(s.take(i + 1).drop_last() =~= s.take(i));
        assert(s.take(i + 1).last() == s[i]);
        lemma_digits_prefix_monotone(s, i + 1, s.len() as int);
        assert(s.take(s.len() as int) =~= s);
        lemma_scan_digit_string(s, i + 1, max);
    } else {
        assert(s.take(i) =~= s);
    }
}

/// The number that the decimal digits of `n` are read back as.
proof fn lemma_read_decimal(n: nat, max: nat)
    requires
        n <= max,
    ensures
        parse_unsigned(latin1(decimal(n)), max) == Ok::<nat, IntErrorKind>(n),
{
    lemma_decimal(n);
    let s = latin1(decimal(n));
    assert forall|k: int| 0 <= k < s.len() implies is_digit(#[trigger] s[k]) by {
        let b = decimal(n)[k];
        assert(48 <= b <= 57);
        assert(s[k] == b as char);
    }
    assert(s.take(0) =~= Seq::<char>::empty());
    lemma_scan_digit_string(s, 0, max);
    let b0 = decimal(n)[0];
    assert(s[0] == b0 as char);
    assert(48 <= b0 <= 57);
}

proof fn lemma_token_end_at(s: Seq<u8>, i: int, j: int)
    requires
        0 <= i <= j < s.len(),
        forall|k: int| i <= k < j ==> !is_ppm_space(#[trigger] s[k]),
        is_ppm_space(s[j]),
    ensures
        token_end(s, i) == j,
    decreases j - i,
{
    if i < j {
        lemma_token_end_at(s, i + 1, j);
    }
}

/// A number's digits followed by a whitespace byte read back as the number.
proof fn lemma_read_number_back(s: Seq<u8>, pos: int, n: u32)
    requires
        0 <= pos,
        pos + decimal(n as nat).len() < s.len(),
        s.subrange(pos, pos + decimal(n as nat).len()) == decimal(n as nat),
        is_ppm_space(s[pos + decimal(n as nat).len()]),
    ensures
        read_number(s, pos) == Ok::<(u32, int), PpmError>((n, pos + decimal(n as nat).len() + 1)),
{
    let d = decimal(n as nat);
    lemma_decimal(n as nat);
    assert forall|k: int| pos <= k < pos + d.len() implies !is_ppm_space(#[trigger] s[k]) by {
        assert(s[k] == d[k - pos]);
    }
    lemma_token_end_at(s, pos, pos + d.len());
    lemma_read_decimal(n as nat, u32::MAX as nat);
}

/// A header written for a render reads back as the render's size with
/// samples up to 255, the pixels starting right after it.
pub proof fn law_header_reads_back(width: u32, height: u32, pixels: Seq<u8>)
    ensures
        ppm_header(encode_header(PpmKind::Rgb, width, height) + pixels) == Ok::<
            (PpmHeader, int),
            PpmError,
        >(
            (
                PpmHeader { width, height, max_value: 255 },
                encode_header(PpmKind::Rgb, width, height).len() as int,
            ),
        ),
{
    let dw = decimal(width as nat);
    let dh = decimal(height as nat);
    let e = encode_header(PpmKind::Rgb, width, height);
    let s = e + pixels;
    lemma_decimal(width as nat);
    lemma_decimal(height as nat);
    lemma_decimal(255);
    assert(decimal(255) =~= seq![50u8, 53u8, 53u8]) by {
        assert(decimal(25) =~= seq![50u8, 53u8]) by {
            assert(decimal(2) =~= seq![50u8]);
        }
    }
    // "P6" and its line feed
    lemma_token_end_at(s, 0, 2);
    assert(s.subrange(0, 2) =~= seq![80u8, 54u8]);
    // the width
    let p1 = 3;
    assert(s.subrange(p1, p1 + dw.len()) =~= dw);
    lemma_read_number_back(s, p1, width);
    // the height
    let p2 = p1 + dw.len() + 1;
    assert(s.subrange(p2, p2 + dh.len()) =~= dh);
    lemma_read_number_back(s, p2, height);
    // the largest sample value
    let p3 = p2 + dh.len() + 1;
    assert(s.subrange(p3, p3 + 3) =~= decimal(255));
    lemma_read_number_back(s, p3, 255);
    assert(p3 + 4 == e.len());
}

} // verus!
