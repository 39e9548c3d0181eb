//! The plain-text raster format in which the image is written.
//!
//! A file is a sequence of lines, each closed by a line feed: the magic word
//! `P3`, the width and height, the largest channel value 255, and then one line
//! of three channel values per pixel, in the order in which the pixels leave.

use vstd::prelude::*;
use crate::image::ImageSize;

verus! {

/// The line feed, which closes every line.
pub const NEWLINE: u8 = 10;

/// The space, which separates the numbers of a line.
pub const SPACE: u8 = 32;

/// The largest value of a channel, announced in the header.
pub const MAX_CHANNEL: u8 = 255;

/// A quantized colour.
#[derive(Clone, Copy, Debug, PartialEq, Eq, Structural)]
pub struct Pixel {
    pub red: u8,
    pub green: u8,
    pub blue: u8,
}

/// The ASCII digit for `d`, a value below ten.
pub open spec fn digit(d: nat) -> u8 {
    (48 + d) as u8
}

/// `n` written in decimal, without sign or leading zeros.
pub open spec fn decimal(n: nat) -> Seq<u8>
    decreases n,
{
    if n < 10 {
        seq![digit(n)]
    } else {
        decimal(n / 10).push(digit(n % 10))
    }
}

/// The number that a run of ASCII digits denotes.
pub open spec fn number(text: Seq<u8>) -> int
    decreases text.len(),
{
    if text.len() == 0 {
        0
    } else {
        number(text.drop_last()) * 10 + (text.last() - 48)
    }
}

/// The lines, each followed by a line feed.
pub open spec fn join_lines(lines: Seq<Seq<u8>>) -> Seq<u8>
    decreases lines.len(),
{
    if lines.len() == 0 {
        Seq::empty()
    } else {
        join_lines(lines.drop_last()) + lines.last() + seq![NEWLINE]
    }
}

/// Reading `text` byte by byte: the pieces that a `separator` has closed so far,
/// and the bytes after the last separator.
pub open spec fn scan(text: Seq<u8>, separator: u8) -> (Seq<Seq<u8>>, Seq<u8>)
    decreases text.len(),
{
    if text.len() == 0 {
        (Seq::empty(), Seq::empty())
    } else {
        let (closed, open) = scan(text.drop_last(), separator);
        if text.last() == separator {
            (closed.push(open), Seq::empty())
        } else {
            (closed, open.push(text.last()))
        }
    }
}

/// The lines of `text` that a line feed closes.
pub open spec fn split_lines(text: Seq<u8>) -> Seq<Seq<u8>> {
    scan(text, NEWLINE).0
}

/// What follows the last line feed of `text`.
pub open spec fn unfinished_line(text: Seq<u8>) -> Seq<u8> {
    scan(text, NEWLINE).1
}

/// The fields of a line, which single spaces separate.
pub open spec fn fields(line: Seq<u8>) -> Seq<Seq<u8>> {
    scan(line, SPACE).0.push(scan(line, SPACE).1)
}

/// The numbers that the fields of a line denote.
pub open spec fn numbers(line: Seq<u8>) -> Seq<int> {
    Seq::new(fields(line).len(), |i: int| number(fields(line)[i]))
}

/// Whether `byte` does not occur in `text`.
pub open spec fn free_of(text: Seq<u8>, byte: u8) -> bool {
    forall|i: int| 0 <= i < text.len() ==> text[i] != byte
}

/// The word that opens the file.
pub open spec fn magic() -> Seq<u8> {
    seq![80u8, 51u8]
}

/// The line that gives the dimensions.
pub open spec fn size_line(size: ImageSize) -> Seq<u8> {
    decimal(size.width() as nat) + seq![SPACE] + decimal(size.height() as nat)
}

/// The three lines of the header.
pub open spec fn header_lines(size: ImageSize) -> Seq<Seq<u8>> {
    seq![magic(), size_line(size), decimal(MAX_CHANNEL as nat)]
}

/// The line of one pixel: red, green and blue, a space between them.
pub open spec fn pixel_line(pixel: Pixel) -> Seq<u8> {
    decimal(pixel.red as nat) + seq![SPACE] + decimal(pixel.green as nat) + seq![SPACE] + decimal(
        pixel.blue as nat,
    )
}

/// The line of each pixel, in order.
pub open spec fn pixel_lines(pixels: Seq<Pixel>) -> Seq<Seq<u8>> {
    Seq::new(pixels.len(), |k: int| pixel_line(pixels[k]))
}

/// All lines of the file.
pub open spec fn ppm_lines(size: ImageSize, pixels: Seq<Pixel>) -> Seq<Seq<u8>> {
    header_lines(size) + pixel_lines(pixels)
}

/// The file, byte for byte.
pub open spec fn ppm_text(size: ImageSize, pixels: Seq<Pixel>) -> Seq<u8> {
    join_lines(ppm_lines(size, pixels))
}

fn push_decimal(out: &mut Vec<u8>, n: u32)
    ensures
        final(out)@ == old(out)@ + decimal(n as nat),
    decreases n,
{
    if n >= 10 {
        push_decimal(out, n / 10);
    }
    out.push(48 + (n % 10) as u8);
    assert(final(out)@ =~= old(out)@ + decimal(n as nat));
}

/// The header of an image of the given size.
pub fn header(size: &ImageSize) -> (bytes: Vec<u8>)
    ensures
        bytes@ == join_lines(header_lines(*size)),
{
    let mut out: Vec<u8> = Vec::new();
    out.push(80);
    out.push(51);
    out.push(NEWLINE);
    push_decimal(&mut out, size.width());
    out.push(SPACE);
    push_decimal(&mut out, size.height());
    out.push(NEWLINE);
    push_decimal(&mut out, 255);
    out.push(NEWLINE);
    proof {
        lemma_join_three(magic(), size_line(*size), decimal(MAX_CHANNEL as nat));
        assert(out@ =~= magic() + seq![NEWLINE] + size_line(*size) + seq![NEWLINE] + decimal(
            MAX_CHANNEL as nat,
        ) + seq![NEWLINE]);
    }
    out
}

/// Appends the line of one pixel to `out`.
pub fn write_color(out: &mut Vec<u8>, pixel: Pixel)
    ensures
        final(out)@ == old(out)@ + pixel_line(pixel) + seq![NEWLINE],
{
    push_decimal(out, pixel.red as u32);
    out.push(SPACE);
    push_decimal(out, pixel.green as u32);
    out.push(SPACE);
    push_decimal(out, pixel.blue as u32);
    out.push(NEWLINE);
    assert(final(out)@ =~= old(out)@ + pixel_line(pixel) + seq![NEWLINE]);
}

/// The whole file for `pixels`, given in the order in which they leave; `None`
/// unless there is exactly one pixel for every place of the image.
pub fn encode(size: &ImageSize, pixels: &Vec<Pixel>) -> (file: Option<Vec<u8>>)
    ensures
        file is Some <==> pixels@.len() == size.pixel_count(),
        file matches Some(bytes) ==> bytes@ == ppm_text(*size, pixels@),
{
    if pixels.len() as u64 != size.count() {
        return None;
    }
    let mut out = header(size);
    let mut k: usize = 0;
    proof {
        assert(pixel_lines(pixels@.take(0)) =~= Seq::<Seq<u8>>::empty());
        assert(ppm_lines(*size, pixels@.take(0)) =~= header_lines(*size));
    }
    while k < pixels.len()
        invariant
            k <= pixels.len(),
            out@ == ppm_text(*size, pixels@.take(k as int)),
        decreases pixels.len() - k,
    {
        write_color(&mut out, pixels[k]);
        proof {
            let before = ppm_lines(*size, pixels@.take(k as int));
            let after = ppm_lines(*size, pixels@.take(k + 1));
            assert(after =~= before.push(pixel_line(pixels@[k as int])));
            assert(after.drop_last() =~= before);
        }
        k += 1;
    }
    assert(pixels@.take(k as int) =~= pixels@);
    Some(out)
}

proof fn lemma_join_three(a: Seq<u8>, b: Seq<u8>, c: Seq<u8>)
    ensures
        join_lines(seq![a, b, c]) =~= a + seq![NEWLINE] + b + seq![NEWLINE] + c + seq![NEWLINE],
{
    let abc = seq![a, b, c];
    let ab = seq![a, b];
    let just_a = seq![a];
    assert(abc.drop_last() =~= ab);
    assert(ab.drop_last() =~= just_a);
    assert(just_a.drop_last() =~= Seq::<Seq<u8>>::empty());
    assert(join_lines(Seq::<Seq<u8>>::empty()) =~= Seq::<u8>::empty());
    assert(join_lines(just_a) =~= a + seq![NEWLINE]);
    assert(join_lines(ab) =~= a + seq![NEWLINE] + b + seq![NEWLINE]);
}

/// A decimal numeral is one or more ASCII digits, and starts with `0` only when
/// it is the numeral of zero.
pub proof fn lemma_decimal_digits(n: nat)
    ensures
        decimal(n).len() >= 1,
        forall|i: int| 0 <= i < decimal(n).len() ==> 48 <= #[trigger] decimal(n)[i] <= 57,
        n > 0 ==> decimal(n)[0] != 48,
        free_of(decimal(n), SPACE),
        free_of(decimal(n), NEWLINE),
    decreases n,
{
    if n >= 10 {
        lemma_decimal_digits(n / 10);
    }
}

/// Reading a decimal numeral gives back the number that was written.
pub proof fn lemma_decimal_round_trip(n: nat)
    ensures
        number(decimal(n)) == n,
    decreases n,
{
    let text = decimal(n);
    if n >= 10 {
        lemma_decimal_round_trip(n / 10);
        assert(text.drop_last() =~= decimal(n / 10));
        assert(text.last() == digit(n % 10));
        assert(number(text) == number(text.drop_last()) * 10 + (text.last() - 48));
    } else {
        assert(text.drop_last() =~= Seq::<u8>::empty());
        assert(number(text.drop_last()) == 0);
        assert(text.last() == digit(n));
        assert(number(text) == number(text.drop_last()) * 10 + (text.last() - 48));
    }
}

/// Bytes without a separator only lengthen the piece that is open.
pub proof fn lemma_scan_piece(text: Seq<u8>, piece: Seq<u8>, separator: u8)
    requires
        free_of(piece, separator),
    ensures
        scan(text + piece, separator) == (
            scan(text, separator).0,
            scan(text, separator).1 + piece,
        ),
    decreases piece.len(),
{
    if piece.len() == 0 {
        assert(text + piece =~= text);
        assert(scan(text, separator).1 + piece =~= scan(text, separator).1);
    } else {
        let shorter = piece.drop_last();
        lemma_scan_piece(text, shorter, separator);
        assert((text + piece).drop_last() =~= text + shorter);
        assert(scan(text, separator).1 + piece =~= (scan(text, separator).1 + shorter).push(
            piece.last(),
        ));
    }
}

/// A separator closes the piece that is open.
pub proof fn lemma_scan_separator(text: Seq<u8>, separator: u8)
    ensures
        scan(text + seq![separator], separator) == (
            scan(text, separator).0.push(scan(text, separator).1),
            Seq::<u8>::empty(),
        ),
{
    assert((text + seq![separator]).drop_last() =~= text);
}

/// Lines without a line feed, joined and split again, are the same lines, and
/// nothing is left after the last line feed.
pub proof fn lemma_split_join(lines: Seq<Seq<u8>>)
    requires
        forall|i: int| 0 <= i < lines.len() ==> free_of(#[trigger] lines[i], NEWLINE),
    ensures
        split_lines(join_lines(lines)) == lines,
        unfinished_line(join_lines(lines)) == Seq::<u8>::empty(),
    decreases lines.len(),
{
    if lines.len() > 0 {
        let before = lines.drop_last();
        lemma_split_join(before);
        lemma_scan_piece(join_lines(before), lines.last(), NEWLINE);
        lemma_scan_separator(join_lines(before) + lines.last(), NEWLINE);
        assert(Seq::<u8>::empty() + lines.last() =~= lines.last());
        assert(before.push(lines.last()) =~= lines);
    }
}

/// The fields of a line of two or three numerals are those numerals.
pub proof fn lemma_fields(a: nat, b: nat, c: nat)
    ensures
        fields(decimal(a) + seq![SPACE] + decimal(b)) == seq![decimal(a), decimal(b)],
        fields(decimal(a) + seq![SPACE] + decimal(b) + seq![SPACE] + decimal(c)) == seq![
            decimal(a),
            decimal(b),
            decimal(c),
        ],
{
    lemma_decimal_digits(a);
    lemma_decimal_digits(b);
    lemma_decimal_digits(c);
    let none = Seq::<u8>::empty();
    assert(scan(none, SPACE) == (Seq::<Seq<u8>>::empty(), none));
    lemma_scan_piece(none, decimal(a), SPACE);
    assert(none + decimal(a) =~= decimal(a));
    lemma_scan_separator(decimal(a), SPACE);
    let first = decimal(a) + seq![SPACE];
    assert(scan(first, SPACE).0 =~= seq![decimal(a)]);
    lemma_scan_piece(first, decimal(b), SPACE);
    assert(none + decimal(b) =~= decimal(b));
    let two = first + decimal(b);
    assert(fields(two) =~= seq![decimal(a), decimal(b)]);
    lemma_scan_separator(two, SPACE);
    let second = two + seq![SPACE];
    assert(scan(second, SPACE).0 =~= seq![decimal(a), decimal(b)]);
    lemma_scan_piece(second, decimal(c), SPACE);
    assert(none + decimal(c) =~= decimal(c));
    assert(fields(second + decimal(c)) =~= seq![decimal(a), decimal(b), decimal(c)]);
}

/// The line of a pixel reads back as its three channels, each between 0 and 255.
pub proof fn lemma_pixel_line_numbers(pixel: Pixel)
    ensures
        free_of(pixel_line(pixel), NEWLINE),
        numbers(pixel_line(pixel)) == seq![
            pixel.red as int,
            pixel.green as int,
            pixel.blue as int,
        ],
        forall|i: int|
            0 <= i < numbers(pixel_line(pixel)).len() ==> 0 <= #[trigger] numbers(
                pixel_line(pixel),
            )[i] <= MAX_CHANNEL,
{
    let (r, g, b) = (pixel.red as nat, pixel.green as nat, pixel.blue as nat);
    lemma_decimal_digits(r);
    lemma_decimal_digits(g);
    lemma_decimal_digits(b);
    lemma_decimal_round_trip(r);
    lemma_decimal_round_trip(g);
    lemma_decimal_round_trip(b);
    lemma_fields(r, g, b);
    assert(numbers(pixel_line(pixel)) =~= seq![
        pixel.red as int,
        pixel.green as int,
        pixel.blue as int,
    ]);
}

/// The line of the dimensions reads back as the width and the height.
pub proof fn lemma_size_line_numbers(size: ImageSize)
    ensures
        free_of(size_line(size), NEWLINE),
        numbers(size_line(size)) == seq![size.width() as int, size.height() as int],
{
    let (w, h) = (size.width() as nat, size.height() as nat);
    lemma_decimal_digits(w);
    lemma_decimal_digits(h);
    lemma_decimal_round_trip(w);
    lemma_decimal_round_trip(h);
    lemma_fields(w, h, 0);
    assert(numbers(size_line(size)) =~= seq![size.width() as int, size.height() as int]);
}

/// What a reader finds in the file: the lines `P3`, `<width> <height>` and
/// `255`, then one line for every pixel and no other, each holding the pixel's
/// three channel values, which lie between 0 and 255; nothing follows the last
/// line feed.
pub proof fn lemma_file_format(size: ImageSize, pixels: Seq<Pixel>)
    ensures
        split_lines(ppm_text(size, pixels)) == ppm_lines(size, pixels),
        unfinished_line(ppm_text(size, pixels)) == Seq::<u8>::empty(),
        ppm_lines(size, pixels).len() == 3 + pixels.len(),
        ppm_lines(size, pixels)[0] == seq![80u8, 51u8],
        ppm_lines(size, pixels)[1] == decimal(size.width() as nat) + seq![SPACE] + decimal(
            size.height() as nat,
        ),
        numbers(ppm_lines(size, pixels)[1]) == seq![size.width() as int, size.height() as int],
        ppm_lines(size, pixels)[2] == seq![50u8, 53u8, 53u8],
        forall|k: int|
            0 <= k < pixels.len() ==> numbers(#[trigger] ppm_lines(size, pixels)[3 + k]) == seq![
                pixels[k].red as int,
                pixels[k].green as int,
                pixels[k].blue as int,
            ],
        forall|k: int, i: int|
            0 <= k < pixels.len() && 0 <= i < 3 ==> 0 <= #[trigger] numbers(
                ppm_lines(size, pixels)[3 + k],
            )[i] <= 255,
{
    let lines = ppm_lines(size, pixels);
    lemma_size_line_numbers(size);
    lemma_decimal_digits(MAX_CHANNEL as nat);
    assert(decimal(255) =~= seq![50u8, 53u8, 53u8]) by {
        reveal_with_fuel(decimal, 3);
    }
    assert forall|i: int| 0 <= i < lines.len() implies free_of(#[trigger] lines[i], NEWLINE) by {
        if i >= 3 {
            lemma_pixel_line_numbers(pixels[i - 3]);
        }
    }
    lemma_split_join(lines);
    assert forall|k: int| 0 <= k < pixels.len() implies numbers(#[trigger] lines[3 + k]) == seq![
        pixels[k].red as int,
        pixels[k].green as int,
        pixels[k].blue as int,
    ] by {
        lemma_pixel_line_numbers(pixels[k]);
    }
}

/// An image that is written whole has exactly `width * height` pixel lines.
pub proof fn lemma_pixel_line_count(size: ImageSize, pixels: Seq<Pixel>)
    requires
        pixels.len() == size.pixel_count(),
    ensures
        split_lines(ppm_text(size, pixels)).len() == 3 + size.width() * size.height(),
{
    lemma_file_format(size, pixels);
}

} // verus!
