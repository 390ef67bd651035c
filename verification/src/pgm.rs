//! The encoder: an image as the bytes of a plain-text greyscale file.
//!
//! The file is ASCII throughout. It opens with three header lines, the tag
//! `P2`, the width and the height, and the largest sample value; then every
//! row of the image follows on a line of its own, each grey level as three
//! digits and a space.

use crate::assemble::{is_function, is_image, lemma_image_unique, rows_of};
use crate::escape::{is_deterministic, Recurrence};
use vstd::prelude::*;

verus! {

/// ASCII space, which ends every sample and parts the width from the height.
pub const SPACE: u8 = 32;

/// ASCII line feed, which ends every line.
pub const LINE_FEED: u8 = 10;

/// ASCII `0`; the other digits follow it in order.
pub const DIGIT_ZERO: u8 = 48;

/// The largest sample value, which the third header line declares.
pub const MAX_SAMPLE: usize = 255;

/// The ASCII digit for `d`, a number below ten.
pub open spec fn digit(d: nat) -> u8
    recommends
        d < 10,
{
    (DIGIT_ZERO + d) as u8
}

/// The decimal numeral of `n`, without padding: its ASCII digits, the most
/// significant first.
pub open spec fn decimal(n: nat) -> Seq<u8>
    decreases n,
{
    if n < 10 {
        seq![digit(n)]
    } else {
        decimal(n / 10).push(digit(n % 10))
    }
}

/// The text of one sample: the grey level as three decimal digits, padded
/// with zeros on the left, and a space.
pub open spec fn sample(level: u8) -> Seq<u8> {
    seq![
        digit(level as nat / 100),
        digit(level as nat / 10 % 10),
        digit(level as nat % 10),
        SPACE,
    ]
}

/// The samples of a row, from left to right.
pub open spec fn samples(row: Seq<u8>) -> Seq<u8> {
    row.flat_map(|level: u8| sample(level))
}

/// The text of one row: its samples, and a line feed.
pub open spec fn line(row: Seq<u8>) -> Seq<u8> {
    samples(row).push(LINE_FEED)
}

/// The text of the rows, from the top one down.
pub open spec fn lines(rows: Seq<Seq<u8>>) -> Seq<u8> {
    rows.flat_map(|row: Seq<u8>| line(row))
}

/// The tag of the plain greyscale format, `P2`.
pub open spec fn tag() -> Seq<u8> {
    seq![80u8, 50u8]
}

/// The three header lines: the tag, the width and the height with a space
/// between them, and the largest sample value.
pub open spec fn header(w: nat, h: nat) -> Seq<u8> {
    tag().push(LINE_FEED) + decimal(w).push(SPACE) + decimal(h).push(LINE_FEED) + decimal(
        MAX_SAMPLE as nat,
    ).push(LINE_FEED)
}

/// The whole file: the header for the declared dimensions, then the rows.
pub open spec fn pgm(rows: Seq<Seq<u8>>, w: nat, h: nat) -> Seq<u8> {
    header(w, h) + lines(rows)
}

/// The samples of a row that got one more grey level are those of the row,
/// then the sample of that level.
proof fn lemma_samples_push(row: Seq<u8>, level: u8)
    ensures
        samples(row.push(level)) == samples(row) + sample(level),
{
    let text = |level: u8| sample(level);
    assert(row.push(level).map_values(text) =~= row.map_values(text).push(sample(level)));
    row.map_values(text).lemma_flatten_push(sample(level));
}

/// The lines of rows that got one more row are those of the rows, then the
/// line of that row.
proof fn lemma_lines_push(rows: Seq<Seq<u8>>, row: Seq<u8>)
    ensures
        lines(rows.push(row)) == lines(rows) + line(row),
{
    let text = |row: Seq<u8>| line(row);
    assert(rows.push(row).map_values(text) =~= rows.map_values(text).push(line(row)));
    rows.map_values(text).lemma_flatten_push(line(row));
}

/// Appends the decimal numeral of `n` to `out`.
pub fn write_decimal(out: &mut Vec<u8>, n: usize)
    ensures
        final(out)@ == old(out)@ + decimal(n as nat),
    decreases n,
{
    if n >= 10 {
        write_decimal(out, n / 10);
    }
    let units: u8 = (n % 10) as u8;
    out.push(DIGIT_ZERO + units);
}

/// Appends the text of one sample to `out`.
pub fn write_sample(out: &mut Vec<u8>, level: u8)
    ensures
        final(out)@ == old(out)@ + sample(level),
{
    out.push(DIGIT_ZERO + level / 100);
    out.push(DIGIT_ZERO + level / 10 % 10);
    out.push(DIGIT_ZERO + level % 10);
    out.push(SPACE);
}

/// Encodes an image as a plain-text greyscale file, to the byte.
///
/// The header declares `w` and `h` as they are given; every row of `image`
/// is written out in full, whatever its length and however many there are.
#[allow(non_snake_case)]
pub fn genPgmImage(image: &Vec<Vec<u8>>, w: usize, h: usize) -> (bytes: Vec<u8>)
    ensures
        bytes@ == pgm(rows_of(image@), w as nat, h as nat),
{
    let mut bytes: Vec<u8> = Vec::new();
    bytes.push(80);
    bytes.push(50);
    bytes.push(LINE_FEED);
    write_decimal(&mut bytes, w);
    bytes.push(SPACE);
    write_decimal(&mut bytes, h);
    bytes.push(LINE_FEED);
    write_decimal(&mut bytes, MAX_SAMPLE);
    bytes.push(LINE_FEED);

    let ghost rows = rows_of(image@);
    let mut y: usize = 0;
    while y < image.len()
        invariant
            y <= image.len(),
            rows == rows_of(image@),
            bytes@ == header(w as nat, h as nat) + lines(rows.take(y as int)),
        decreases image.len() - y,
    {
        let row: &Vec<u8> = &image[y];
        let ghost above = bytes@;
        let mut x: usize = 0;
        while x < row.len()
            invariant
                x <= row.len(),
                bytes@ == above + samples(row@.take(x as int)),
            decreases row.len() - x,
        {
            write_sample(&mut bytes, row[x]);
            proof {
                lemma_samples_push(row@.take(x as int), row@[x as int]);
                assert(row@.take(x as int).push(row@[x as int]) =~= row@.take(x + 1));
            }
            x = x + 1;
        }
        bytes.push(LINE_FEED);
        proof {
            assert(row@.take(row.len() as int) =~= row@);
            lemma_lines_push(rows.take(y as int), row@);
            assert(rows.take(y as int).push(row@) =~= rows.take(y + 1));
        }
        y = y + 1;
    }
    proof {
        assert(rows.take(image.len() as int) =~= rows);
    }
    bytes
}

/// The whole pipeline is deterministic: under a mapper and a recurrence that
/// are functions of their arguments, any two images for the same dimensions
/// and cap are encoded to the same bytes.
pub proof fn lemma_output_unique<
    C,
    Z,
    M: Fn(usize, usize, usize, usize) -> C,
    S: Fn(Z, C) -> Z,
    B: Fn(Z) -> bool,
>(
    mapper: M,
    recurrence: Recurrence<Z, S, B>,
    w: usize,
    h: usize,
    max_iter: u32,
    first: Seq<Seq<u8>>,
    second: Seq<Seq<u8>>,
)
    requires
        is_function(mapper),
        is_deterministic::<C, Z, S, B>(recurrence),
        is_image(mapper, recurrence, w, h, max_iter, first),
        is_image(mapper, recurrence, w, h, max_iter, second),
    ensures
        pgm(first, w as nat, h as nat) == pgm(second, w as nat, h as nat),
{
    lemma_image_unique(mapper, recurrence, w, h, max_iter, first, second);
}

} // verus!
