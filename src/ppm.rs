//! Plain-text PPM layout of a raster whose channels are already
//! quantised to levels 0..=255.
use vstd::prelude::*;

verus! {

/// The longest a line of pixel data may grow before it is broken.
pub const LINE_LIMIT: usize = 70;

/// The character of a decimal digit.
pub open spec fn digit(d: nat) -> char {
    seq!['0', '1', '2', '3', '4', '5', '6', '7', '8', '9'][(d % 10) as int]
}

/// `n` written in decimal, without leading zeros.
pub open spec fn decimal(n: nat) -> Seq<char>
    decreases n,
{
    if n < 10 {
        seq![digit(n)]
    } else {
        decimal(n / 10).push(digit(n % 10))
    }
}

/// The first `k` levels of a row, each written in decimal and followed by a
/// space, with a line break put before any level that would take its line
/// past `LINE_LIMIT` characters; with the length of the last line.
pub open spec fn wrap(levels: Seq<u8>, k: nat) -> (Seq<char>, nat)
    decreases k,
{
    if k == 0 || k > levels.len() {
        (Seq::empty(), 0)
    } else {
        let (text, used) = wrap(levels, (k - 1) as nat);
        let word = decimal(levels[k - 1] as nat);
        if used + word.len() + 1 > LINE_LIMIT {
            (text + seq!['\n'] + word + seq![' '], word.len() + 1)
        } else {
            (text + word + seq![' '], used + word.len() + 1)
        }
    }
}

/// One row of the raster: its levels laid out, then a line break.
pub open spec fn row_text(levels: Seq<u8>) -> Seq<char> {
    wrap(levels, levels.len()).0.push('\n')
}

/// The first `k` rows, one after the other.
pub open spec fn rows_text(rows: Seq<Seq<u8>>, k: nat) -> Seq<char>
    decreases k,
{
    if k == 0 || k > rows.len() {
        Seq::empty()
    } else {
        rows_text(rows, (k - 1) as nat) + row_text(rows[k - 1])
    }
}

/// The header: the magic number, the size, and the largest level.
pub open spec fn header(width: nat, height: nat) -> Seq<char> {
    seq!['P', '3', '\n'] + decimal(width) + seq![' '] + decimal(height) + seq![
        '\n',
        '2',
        '5',
        '5',
        '\n',
    ]
}

/// The whole file for a raster of `width` by `height` pixels.
pub open spec fn ppm(width: nat, height: nat, rows: Seq<Seq<u8>>) -> Seq<char> {
    header(width, height) + rows_text(rows, rows.len())
}

/// Relies on `String::push`: appends one character at the end.
#[verifier::external_body]
fn push_char(s: &mut String, c: char)
    ensures
        final(s)@ == old(s)@.push(c),
{
    s.push(c)
}

fn digit_char(d: usize) -> (c: char)
    requires
        d < 10,
    ensures
        c == digit(d as nat),
{
    let digits: [char; 10] = ['0', '1', '2', '3', '4', '5', '6', '7', '8', '9'];
    assert(digits@ =~= seq!['0', '1', '2', '3', '4', '5', '6', '7', '8', '9']);
    digits[d]
}

fn decimal_width(n: usize) -> (w: usize)
    ensures
        w == decimal(n as nat).len(),
    decreases n,
{
    if n < 10 {
        1
    } else {
        let w = decimal_width(n / 10);
        assert(w <= n / 10 + 1) by {
            lemma_decimal_len_linear((n / 10) as nat);
        }
        w + 1
    }
}

proof fn lemma_decimal_len_linear(n: nat)
    ensures
        decimal(n).len() <= n + 1,
    decreases n,
{
    if n >= 10 {
        lemma_decimal_len_linear(n / 10);
    }
}

proof fn lemma_decimal_len_log(n: nat, k: nat)
    requires
        k >= 1,
        n < pow10(k),
    ensures
        decimal(n).len() <= k,
    decreases n,
{
    if n >= 10 {
        assert(n / 10 < pow10((k - 1) as nat)) by (nonlinear_arith)
            requires
                n < pow10(k),
                pow10(k) == 10 * pow10((k - 1) as nat),
        ;
        assert(k - 1 >= 1) by {
            if k == 1 {
                assert(pow10(0) == 1);
            }
        }
        lemma_decimal_len_log(n / 10, (k - 1) as nat);
    }
}

spec fn pow10(k: nat) -> nat
    decreases k,
{
    if k == 0 {
        1
    } else {
        10 * pow10((k - 1) as nat)
    }
}

fn push_decimal(s: &mut String, n: usize)
    ensures
        final(s)@ == old(s)@ + decimal(n as nat),
    decreases n,
{
    if n < 10 {
        push_char(s, digit_char(n));
    } else {
        push_decimal(s, n / 10);
        push_char(s, digit_char(n % 10));
    }
}

fn push_row(s: &mut String, levels: &Vec<u8>)
    ensures
        final(s)@ == old(s)@ + row_text(levels@),
{
    let ghost start = s@;
    let mut used: usize = 0;
    let mut k: usize = 0;
    while k < levels.len()
        invariant
            k <= levels@.len(),
            wrap(levels@, k as nat).1 == used,
            used <= LINE_LIMIT + 4,
            s@ == start + wrap(levels@, k as nat).0,
        decreases levels.len() - k,
    {
        let n = levels[k] as usize;
        let w = decimal_width(n);
        proof {
            assert(pow10(3) == 1000) by {
                reveal_with_fuel(pow10, 4);
            }
            lemma_decimal_len_log(n as nat, 3);
        }
        if used + w + 1 > LINE_LIMIT {
            push_char(s, '\n');
            used = w + 1;
        } else {
            used = used + w + 1;
        }
        push_decimal(s, n);
        push_char(s, ' ');
        k = k + 1;
        proof {
            assert(s@ =~= start + wrap(levels@, k as nat).0);
        }
    }
    push_char(s, '\n');
    assert(s@ =~= start + row_text(levels@));
}

/// The raster written as a plain-text PPM file: the header with `width`,
/// `height` and the largest level 255, then each row of levels (red, green
/// and blue of each pixel in turn). Each level is written in decimal and
/// followed by a space; a line break goes before any level that would take
/// its line past `LINE_LIMIT` characters, and after the last level of a row.
pub fn ppm_text(width: usize, height: usize, rows: &Vec<Vec<u8>>) -> (r: String)
    ensures
        r@ == ppm(width as nat, height as nat, rows@.map_values(|row: Vec<u8>| row@)),
{
    let ghost view = rows@.map_values(|row: Vec<u8>| row@);
    let mut s = String::new();
    push_char(&mut s, 'P');
    push_char(&mut s, '3');
    push_char(&mut s, '\n');
    push_decimal(&mut s, width);
    push_char(&mut s, ' ');
    push_decimal(&mut s, height);
    push_char(&mut s, '\n');
    push_char(&mut s, '2');
    push_char(&mut s, '5');
    push_char(&mut s, '5');
    push_char(&mut s, '\n');
    assert(s@ =~= header(width as nat, height as nat));
    let mut k: usize = 0;
    while k < rows.len()
        invariant
            k <= rows@.len(),
            view == rows@.map_values(|row: Vec<u8>| row@),
            s@ == header(width as nat, height as nat) + rows_text(view, k as nat),
        decreases rows.len() - k,
    {
        push_row(&mut s, &rows[k]);
        k = k + 1;
        assert(s@ =~= header(width as nat, height as nat) + rows_text(view, k as nat));
    }
    s
}

} // verus!
