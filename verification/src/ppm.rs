//! The plain-text pixel format: a three-line header, then one line of three
//! decimal channel values for each pixel, row by row.

use crate::canvas::Canvas;
use vstd::prelude::*;

verus! {

/// The ASCII code of the space that separates two numbers on a line.
pub const SPACE: u8 = 32;

/// The ASCII code of the line feed that ends every line.
pub const NEWLINE: u8 = 10;

/// The ASCII code of the digit zero; the other digits follow it in order.
pub const DIGIT_ZERO: u8 = 48;

/// The ASCII code of `P`, the first byte of the format's name.
pub const MAGIC_LETTER: u8 = 80;

/// The ASCII code of `3`, the second byte of the format's name.
pub const MAGIC_DIGIT: u8 = 51;

/// The largest value of a channel, announced in the header.
pub const MAX_CHANNEL: u32 = 255;

/// The decimal digits of `n`, most significant first, as ASCII bytes.
pub open spec fn decimal(n: nat) -> Seq<u8>
    decreases n,
{
    if n < 10 {
        seq![(DIGIT_ZERO + n) as u8]
    } else {
        decimal(n / 10).push((DIGIT_ZERO + n % 10) as u8)
    }
}

/// The header of a `width` by `height` image: the format's name, the two
/// extents, and the largest channel value, each on a line of its own.
pub open spec fn header(width: nat, height: nat) -> Seq<u8> {
    seq![MAGIC_LETTER, MAGIC_DIGIT, NEWLINE] + decimal(width) + seq![SPACE] + decimal(height)
        + seq![NEWLINE] + decimal(MAX_CHANNEL as nat) + seq![NEWLINE]
}

/// The line of one pixel: red, green and blue, separated by single spaces.
pub open spec fn color_line(color: [u8; 3]) -> Seq<u8> {
    decimal(color[0] as nat) + seq![SPACE] + decimal(color[1] as nat) + seq![SPACE] + decimal(
        color[2] as nat,
    ) + seq![NEWLINE]
}

/// The lines of `pixels`, in order.
pub open spec fn body(pixels: Seq<[u8; 3]>) -> Seq<u8>
    decreases pixels.len(),
{
    if pixels.len() == 0 {
        Seq::empty()
    } else {
        body(pixels.drop_last()) + color_line(pixels.last())
    }
}

/// A whole image: the header followed by the pixel lines.
pub open spec fn document(width: nat, height: nat, pixels: Seq<[u8; 3]>) -> Seq<u8> {
    header(width, height) + body(pixels)
}

/// Whether `byte` is the ASCII code of a decimal digit.
pub open spec fn is_digit(byte: u8) -> bool {
    DIGIT_ZERO <= byte <= DIGIT_ZERO + 9
}

/// The number that a run of decimal digits writes down.
pub open spec fn decimal_value(digits: Seq<u8>) -> nat
    decreases digits.len(),
{
    if digits.len() == 0 {
        0
    } else {
        (10 * decimal_value(digits.drop_last()) + (digits.last() - DIGIT_ZERO)) as nat
    }
}

/// The text of a number is a run of one or more digits, and it starts with a
/// zero only where the number is zero.
pub proof fn lemma_decimal_is_digits(n: nat)
    ensures
        decimal(n).len() >= 1,
        forall|i: int| 0 <= i < decimal(n).len() ==> is_digit(#[trigger] decimal(n)[i]),
        decimal(n)[0] == DIGIT_ZERO ==> n == 0,
    decreases n,
{
    if n >= 10 {
        lemma_decimal_is_digits(n / 10);
    }
}

/// The text of a number reads back as that number.
pub proof fn lemma_decimal_reads_back(n: nat)
    ensures
        decimal_value(decimal(n)) == n,
    decreases n,
{
    let text = decimal(n);
    assert(text.last() == DIGIT_ZERO + n % 10);
    if n < 10 {
        assert(text.drop_last() =~= Seq::<u8>::empty());
        assert(decimal_value(text.drop_last()) == 0);
    } else {
        lemma_decimal_reads_back(n / 10);
        assert(text.drop_last() =~= decimal(n / 10));
    }
    assert(decimal_value(text) == 10 * decimal_value(text.drop_last()) + n % 10);
}

/// The lines of two runs of pixels, one after the other, are the lines of the
/// first run followed by the lines of the second: an image may be written a
/// few pixels at a time.
pub proof fn lemma_body_concat(first: Seq<[u8; 3]>, second: Seq<[u8; 3]>)
    ensures
        body(first + second) == body(first) + body(second),
    decreases second.len(),
{
    if second.len() == 0 {
        assert(first + second =~= first);
        assert(body(first) + body(second) =~= body(first));
    } else {
        lemma_body_concat(first, second.drop_last());
        assert((first + second).drop_last() =~= first + second.drop_last());
        assert((first + second).last() == second.last());
        assert(body(first + second) =~= body(first) + body(second));
    }
}

/// The number of lines that end in `text`.
pub open spec fn line_count(text: Seq<u8>) -> nat
    decreases text.len(),
{
    if text.len() == 0 {
        0
    } else if text.last() == NEWLINE {
        line_count(text.drop_last()) + 1
    } else {
        line_count(text.drop_last())
    }
}

/// The lines of two texts, one after the other, are counted together.
pub proof fn lemma_line_count_concat(first: Seq<u8>, second: Seq<u8>)
    ensures
        line_count(first + second) == line_count(first) + line_count(second),
    decreases second.len(),
{
    if second.len() == 0 {
        assert(first + second =~= first);
    } else {
        lemma_line_count_concat(first, second.drop_last());
        assert((first + second).drop_last() =~= first + second.drop_last());
        assert((first + second).last() == second.last());
    }
}

/// No line ends inside the text of a number.
pub proof fn lemma_decimal_is_one_word(n: nat)
    ensures
        line_count(decimal(n)) == 0,
        forall|i: int| 0 <= i < decimal(n).len() ==> #[trigger] decimal(n)[i] != SPACE,
    decreases n,
{
    lemma_decimal_is_digits(n);
    if n < 10 {
        assert(decimal(n).drop_last() =~= Seq::<u8>::empty());
        assert(line_count(decimal(n).drop_last()) == 0);
    } else {
        lemma_decimal_is_one_word(n / 10);
        assert(decimal(n).drop_last() =~= decimal(n / 10));
    }
}

/// The line of a pixel is one line.
pub proof fn lemma_color_line_is_one_line(color: [u8; 3])
    ensures
        line_count(color_line(color)) == 1,
{
    let red = decimal(color[0] as nat);
    let green = decimal(color[1] as nat);
    let blue = decimal(color[2] as nat);
    lemma_decimal_is_one_word(color[0] as nat);
    lemma_decimal_is_one_word(color[1] as nat);
    lemma_decimal_is_one_word(color[2] as nat);
    lemma_line_count_concat(red, seq![SPACE]);
    lemma_line_count_concat(red + seq![SPACE], green);
    lemma_line_count_concat(red + seq![SPACE] + green, seq![SPACE]);
    lemma_line_count_concat(red + seq![SPACE] + green + seq![SPACE], blue);
    lemma_line_count_concat(red + seq![SPACE] + green + seq![SPACE] + blue, seq![NEWLINE]);
    lemma_line_count_single(SPACE);
    lemma_line_count_single(NEWLINE);
}

/// A text of one byte is one line where the byte ends a line, and none
/// otherwise.
proof fn lemma_line_count_single(byte: u8)
    ensures
        line_count(seq![byte]) == if byte == NEWLINE {
            1nat
        } else {
            0nat
        },
{
    assert(seq![byte].drop_last() =~= Seq::<u8>::empty());
    assert(line_count(seq![byte].drop_last()) == 0);
}

/// An image is written as three lines of header and one line for each pixel.
pub proof fn lemma_document_line_count(width: nat, height: nat, pixels: Seq<[u8; 3]>)
    ensures
        line_count(header(width, height)) == 3,
        line_count(body(pixels)) == pixels.len(),
        line_count(document(width, height, pixels)) == 3 + pixels.len(),
{
    lemma_header_line_count(width, height);
    lemma_body_line_count(pixels);
    lemma_line_count_concat(header(width, height), body(pixels));
}

/// The header is three lines.
proof fn lemma_header_line_count(width: nat, height: nat)
    ensures
        line_count(header(width, height)) == 3,
{
    let magic = seq![MAGIC_LETTER, MAGIC_DIGIT, NEWLINE];
    let columns = decimal(width);
    let rows = decimal(height);
    let limit = decimal(MAX_CHANNEL as nat);
    lemma_decimal_is_one_word(width);
    lemma_decimal_is_one_word(height);
    lemma_decimal_is_one_word(MAX_CHANNEL as nat);
    lemma_line_count_single(SPACE);
    lemma_line_count_single(NEWLINE);
    assert(line_count(magic) == 1) by {
        assert(magic =~= seq![MAGIC_LETTER] + seq![MAGIC_DIGIT] + seq![NEWLINE]);
        lemma_line_count_single(MAGIC_LETTER);
        lemma_line_count_single(MAGIC_DIGIT);
        lemma_line_count_concat(seq![MAGIC_LETTER], seq![MAGIC_DIGIT]);
        lemma_line_count_concat(seq![MAGIC_LETTER] + seq![MAGIC_DIGIT], seq![NEWLINE]);
    }
    lemma_line_count_concat(magic, columns);
    lemma_line_count_concat(magic + columns, seq![SPACE]);
    lemma_line_count_concat(magic + columns + seq![SPACE], rows);
    lemma_line_count_concat(magic + columns + seq![SPACE] + rows, seq![NEWLINE]);
    lemma_line_count_concat(magic + columns + seq![SPACE] + rows + seq![NEWLINE], limit);
    lemma_line_count_concat(
        magic + columns + seq![SPACE] + rows + seq![NEWLINE] + limit,
        seq![NEWLINE],
    );
}

/// The body is one line for each pixel.
proof fn lemma_body_line_count(pixels: Seq<[u8; 3]>)
    ensures
        line_count(body(pixels)) == pixels.len(),
    decreases pixels.len(),
{
    if pixels.len() > 0 {
        lemma_body_line_count(pixels.drop_last());
        lemma_color_line_is_one_line(pixels.last());
        lemma_line_count_concat(body(pixels.drop_last()), color_line(pixels.last()));
    }
}

/// Two numbers with the same text are the same number.
pub proof fn lemma_decimal_injective(m: nat, n: nat)
    requires
        decimal(m) == decimal(n),
    ensures
        m == n,
{
    lemma_decimal_reads_back(m);
    lemma_decimal_reads_back(n);
}

/// Where two texts start with a word and a separator, and the separator
/// occurs in neither word, equal texts have equal words and equal rests.
proof fn lemma_split_at_separator(
    word1: Seq<u8>,
    rest1: Seq<u8>,
    word2: Seq<u8>,
    rest2: Seq<u8>,
    separator: u8,
)
    requires
        forall|i: int| 0 <= i < word1.len() ==> word1[i] != separator,
        forall|i: int| 0 <= i < word2.len() ==> word2[i] != separator,
        word1 + seq![separator] + rest1 == word2 + seq![separator] + rest2,
    ensures
        word1 == word2,
        rest1 == rest2,
{
    let text1 = word1 + seq![separator] + rest1;
    let text2 = word2 + seq![separator] + rest2;
    assert(text1[word1.len() as int] == separator);
    assert(text2[word2.len() as int] == separator);
    if word1.len() < word2.len() {
        assert(text2[word1.len() as int] == word2[word1.len() as int]);
    }
    if word2.len() < word1.len() {
        assert(text1[word2.len() as int] == word1[word2.len() as int]);
    }
    assert(word1 =~= text1.take(word1.len() as int));
    assert(word2 =~= text2.take(word2.len() as int));
    assert(rest1 =~= text1.skip(word1.len() as int + 1));
    assert(rest2 =~= text2.skip(word2.len() as int + 1));
}

/// Where two texts start with the text of a number and a separator that is no
/// digit, equal texts have equal numbers and equal rests.
proof fn lemma_split_number(m: nat, rest1: Seq<u8>, n: nat, rest2: Seq<u8>, separator: u8)
    requires
        !is_digit(separator),
        decimal(m) + seq![separator] + rest1 == decimal(n) + seq![separator] + rest2,
    ensures
        m == n,
        rest1 == rest2,
{
    lemma_decimal_is_digits(m);
    lemma_decimal_is_digits(n);
    lemma_split_at_separator(decimal(m), rest1, decimal(n), rest2, separator);
    lemma_decimal_injective(m, n);
}

/// The line of a pixel followed by more text, with the pieces grouped from
/// the front.
proof fn lemma_color_line_grouping(color: [u8; 3], rest: Seq<u8>)
    ensures
        color_line(color) + rest == decimal(color[0] as nat) + seq![SPACE] + (decimal(
            color[1] as nat,
        ) + seq![SPACE] + (decimal(color[2] as nat) + seq![NEWLINE] + rest)),
{
    assert(color_line(color) + rest =~= decimal(color[0] as nat) + seq![SPACE] + (decimal(
        color[1] as nat,
    ) + seq![SPACE] + (decimal(color[2] as nat) + seq![NEWLINE] + rest)));
}

/// Where two texts start with the line of a pixel, equal texts have equal
/// pixels and equal rests.
proof fn lemma_split_color_line(
    color1: [u8; 3],
    rest1: Seq<u8>,
    color2: [u8; 3],
    rest2: Seq<u8>,
)
    requires
        color_line(color1) + rest1 == color_line(color2) + rest2,
    ensures
        color1 == color2,
        rest1 == rest2,
{
    lemma_color_line_grouping(color1, rest1);
    lemma_color_line_grouping(color2, rest2);
    let blue1 = decimal(color1[2] as nat) + seq![NEWLINE] + rest1;
    let blue2 = decimal(color2[2] as nat) + seq![NEWLINE] + rest2;
    let green1 = decimal(color1[1] as nat) + seq![SPACE] + blue1;
    let green2 = decimal(color2[1] as nat) + seq![SPACE] + blue2;
    lemma_split_number(color1[0] as nat, green1, color2[0] as nat, green2, SPACE);
    lemma_split_number(color1[1] as nat, blue1, color2[1] as nat, blue2, SPACE);
    lemma_split_number(color1[2] as nat, rest1, color2[2] as nat, rest2, NEWLINE);
    assert(color1 =~= color2);
}

/// The lines of a run of pixels are the line of the first pixel followed by
/// the lines of the others.
proof fn lemma_body_from_front(pixels: Seq<[u8; 3]>)
    requires
        pixels.len() > 0,
    ensures
        body(pixels) == color_line(pixels.first()) + body(pixels.drop_first()),
{
    let head = seq![pixels.first()];
    lemma_body_concat(head, pixels.drop_first());
    assert(head + pixels.drop_first() =~= pixels);
    assert(head.drop_last() =~= Seq::<[u8; 3]>::empty());
    assert(body(head.drop_last()) =~= Seq::<u8>::empty());
    assert(body(head) =~= color_line(pixels.first()));
}

/// Two runs of pixels with the same lines are the same run.
pub proof fn lemma_body_injective(first: Seq<[u8; 3]>, second: Seq<[u8; 3]>)
    requires
        body(first) == body(second),
    ensures
        first == second,
    decreases first.len(),
{
    lemma_document_line_count(0, 0, first);
    lemma_document_line_count(0, 0, second);
    if first.len() > 0 {
        lemma_body_from_front(first);
        lemma_body_from_front(second);
        lemma_split_color_line(
            first.first(),
            body(first.drop_first()),
            second.first(),
            body(second.drop_first()),
        );
        lemma_body_injective(first.drop_first(), second.drop_first());
        assert(first =~= seq![first.first()] + first.drop_first());
        assert(second =~= seq![second.first()] + second.drop_first());
    } else {
        assert(first =~= second);
    }
}

/// The text of an image determines the image: two images with the same text
/// have the same extent and the same pixels.
pub proof fn lemma_document_injective(
    width1: nat,
    height1: nat,
    pixels1: Seq<[u8; 3]>,
    width2: nat,
    height2: nat,
    pixels2: Seq<[u8; 3]>,
)
    requires
        document(width1, height1, pixels1) == document(width2, height2, pixels2),
    ensures
        width1 == width2,
        height1 == height2,
        pixels1 == pixels2,
{
    let magic = seq![MAGIC_LETTER, MAGIC_DIGIT, NEWLINE];
    let limit = decimal(MAX_CHANNEL as nat);
    let tail1 = limit + seq![NEWLINE] + body(pixels1);
    let tail2 = limit + seq![NEWLINE] + body(pixels2);
    let rows1 = decimal(height1) + seq![NEWLINE] + tail1;
    let rows2 = decimal(height2) + seq![NEWLINE] + tail2;
    let text1 = document(width1, height1, pixels1);
    let text2 = document(width2, height2, pixels2);
    assert(text1 =~= magic + (decimal(width1) + seq![SPACE] + rows1));
    assert(text2 =~= magic + (decimal(width2) + seq![SPACE] + rows2));
    assert(decimal(width1) + seq![SPACE] + rows1 =~= text1.skip(3));
    assert(decimal(width2) + seq![SPACE] + rows2 =~= text2.skip(3));
    lemma_split_number(width1, rows1, width2, rows2, SPACE);
    lemma_split_number(height1, tail1, height2, tail2, NEWLINE);
    lemma_split_number(MAX_CHANNEL as nat, body(pixels1), MAX_CHANNEL as nat, body(pixels2), NEWLINE);
    lemma_body_injective(pixels1, pixels2);
}

/// Appends the decimal digits of `n` to `out`.
fn write_decimal(n: u32, out: &mut Vec<u8>)
    ensures
        final(out)@ == old(out)@ + decimal(n as nat),
    decreases n,
{
    if n >= 10 {
        write_decimal(n / 10, out);
    }
    let digit: u8 = (n % 10) as u8;
    out.push(DIGIT_ZERO + digit);
    assert(out@ =~= old(out)@ + decimal(n as nat));
}

/// Appends the header of a `width` by `height` image to `out`.
pub fn write_header(width: u32, height: u32, out: &mut Vec<u8>)
    ensures
        final(out)@ == old(out)@ + header(width as nat, height as nat),
{
    out.push(MAGIC_LETTER);
    out.push(MAGIC_DIGIT);
    out.push(NEWLINE);
    write_decimal(width, out);
    out.push(SPACE);
    write_decimal(height, out);
    out.push(NEWLINE);
    write_decimal(MAX_CHANNEL, out);
    out.push(NEWLINE);
    assert(out@ =~= old(out)@ + header(width as nat, height as nat));
}

/// Appends the line of one pixel to `out`.
pub fn write_color(color: [u8; 3], out: &mut Vec<u8>)
    ensures
        final(out)@ == old(out)@ + color_line(color),
{
    write_decimal(color[0] as u32, out);
    out.push(SPACE);
    write_decimal(color[1] as u32, out);
    out.push(SPACE);
    write_decimal(color[2] as u32, out);
    out.push(NEWLINE);
    assert(out@ =~= old(out)@ + color_line(color));
}

impl Canvas<[u8; 3]> {
    /// Appends the image to `out` in the plain-text pixel format.
    pub fn write_ppm(&self, out: &mut Vec<u8>)
        ensures
            final(out)@ == old(out)@ + document(
                self.width() as nat,
                self.height() as nat,
                self@,
            ),
    {
        let pixels = self.pixels();
        write_header(self.width(), self.height(), out);
        let ghost start = out@;
        let mut i: usize = 0;
        while i < pixels.len()
            invariant
                i <= pixels@.len(),
                out@ == start + body(pixels@.take(i as int)),
            decreases pixels@.len() - i,
        {
            write_color(pixels[i], out);
            proof {
                let done = pixels@.take(i + 1);
                assert(done.drop_last() =~= pixels@.take(i as int));
                assert(done.last() == pixels@[i as int]);
                assert(out@ =~= start + body(done));
            }
            i += 1;
        }
        assert(pixels@.take(i as int) =~= pixels@);
        assert(out@ =~= old(out)@ + document(
            self.width() as nat,
            self.height() as nat,
            self@,
        ));
    }
}

} // verus!
