//! Renderer: turns a histogram into a fixed-width three-column ASCII table,
//! one row per bin in ascending bin order.

use vstd::prelude::*;
use crate::histogram::Histogram;

verus! {

pub open spec fn digit_char(d: int) -> char {
    if d == 0 {
        '0'
    } else if d == 1 {
        '1'
    } else if d == 2 {
        '2'
    } else if d == 3 {
        '3'
    } else if d == 4 {
        '4'
    } else if d == 5 {
        '5'
    } else if d == 6 {
        '6'
    } else if d == 7 {
        '7'
    } else if d == 8 {
        '8'
    } else {
        '9'
    }
}

/// The decimal digits of `n`, most significant first.
pub open spec fn dec_digits(n: int) -> Seq<char>
    decreases n,
{
    if n < 10 {
        seq![digit_char(n)]
    } else {
        dec_digits(n / 10).push(digit_char(n % 10))
    }
}

pub open spec fn spaces(n: int) -> Seq<char> {
    Seq::new(if n >= 0 { n as nat } else { 0 }, |i: int| ' ')
}

pub open spec fn dashes(n: int) -> Seq<char> {
    Seq::new(if n >= 0 { n as nat } else { 0 }, |i: int| '-')
}

/// Right-align into the fixed column width of 10; longer text overflows the
/// column unchanged.
pub open spec fn pad10(s: Seq<char>) -> Seq<char> {
    if s.len() >= 10 {
        s
    } else {
        spaces(10 - s.len()) + s
    }
}

pub open spec fn border_line() -> Seq<char> {
    seq!['+'] + dashes(10) + seq!['+'] + dashes(10) + seq!['+', '\n']
}

pub open spec fn header_line() -> Seq<char> {
    seq!['|'] + pad10(seq!['W', 'o', 'r', 'd', ' ', 'c', 'o', 'u', 'n', 't']) + seq!['|'] + pad10(
        seq!['F', 'r', 'e', 'q', 'u', 'e', 'n', 'c', 'y'],
    ) + seq!['|', '\n']
}

/// The row label: the raw bin index when bins hold one count value each,
/// otherwise the half-open range `<low>-<high>` the bin covers.
pub open spec fn row_label(bin: int, bin_size: int) -> Seq<char> {
    if bin_size == 1 {
        dec_digits(bin)
    } else {
        dec_digits(bin * bin_size) + seq!['-'] + dec_digits((bin + 1) * bin_size)
    }
}

pub open spec fn row_line(bin: int, freq: int, bin_size: int) -> Seq<char> {
    seq!['|'] + pad10(row_label(bin, bin_size)) + seq!['|'] + pad10(dec_digits(freq)) + seq![
        '|',
        '\n',
    ]
}

pub open spec fn rows_of(s: Seq<(usize, usize)>, bin_size: int) -> Seq<char>
    decreases s.len(),
{
    if s.len() == 0 {
        Seq::empty()
    } else {
        row_line(s[0].0 as int, s[0].1 as int, bin_size) + rows_of(s.drop_first(), bin_size)
    }
}

/// The whole table: border, header, border, one row per bin, border.
pub open spec fn spec_render(s: Seq<(usize, usize)>, bin_size: int) -> Seq<char> {
    border_line() + header_line() + border_line() + rows_of(s, bin_size) + border_line()
}

fn digit_to_char(d: u8) -> (c: char)
    requires
        d < 10,
    ensures
        c == digit_char(d as int),
{
    if d == 0 {
        '0'
    } else if d == 1 {
        '1'
    } else if d == 2 {
        '2'
    } else if d == 3 {
        '3'
    } else if d == 4 {
        '4'
    } else if d == 5 {
        '5'
    } else if d == 6 {
        '6'
    } else if d == 7 {
        '7'
    } else if d == 8 {
        '8'
    } else {
        '9'
    }
}

/// Appends the decimal rendering of `n`.
fn push_dec(out: &mut Vec<char>, n: u128)
    ensures
        final(out)@ == old(out)@ + dec_digits(n as int),
    decreases n,
{
    if n >= 10 {
        push_dec(out, n / 10);
    }
    let c = digit_to_char((n % 10) as u8);
    out.push(c);
    proof {
        assert(out@ =~= old(out)@ + dec_digits(n as int));
    }
}

/// Appends `piece` right-aligned in a 10-character column.
fn push_padded(out: &mut Vec<char>, piece: &Vec<char>)
    ensures
        final(out)@ == old(out)@ + pad10(piece@),
{
    let mut k = piece.len();
    while k < 10
        invariant
            piece@.len() <= k,
            k <= 10 || k == piece@.len(),
            out@ == old(out)@ + spaces(k - piece@.len()),
        decreases 10 - k,
    {
        out.push(' ');
        k += 1;
        proof {
            assert(spaces(k - piece@.len()) =~= spaces(k - 1 - piece@.len()).push(' '));
            assert(out@ =~= old(out)@ + spaces(k - piece@.len()));
        }
    }
    let ghost mid = out@;
    let mut j: usize = 0;
    while j < piece.len()
        invariant
            j <= piece@.len(),
            out@ == mid + piece@.take(j as int),
        decreases piece@.len() - j,
    {
        out.push(piece[j]);
        j += 1;
        proof {
            assert(piece@.take(j as int) =~= piece@.take(j - 1).push(piece@[j - 1]));
            assert(out@ =~= mid + piece@.take(j as int));
        }
    }
    proof {
        assert(piece@.take(piece@.len() as int) =~= piece@);
        if piece@.len() >= 10 {
            assert(spaces(0) =~= Seq::<char>::empty());
            assert(out@ =~= old(out)@ + pad10(piece@));
        } else {
            assert(out@ =~= old(out)@ + pad10(piece@));
        }
    }
}

/// Appends a border line.
fn push_border(out: &mut Vec<char>)
    ensures
        final(out)@ == old(out)@ + border_line(),
{
    out.push('+');
    let mut k: usize = 0;
    while k < 10
        invariant
            k <= 10,
            out@ == old(out)@ + seq!['+'] + dashes(k as int),
        decreases 10 - k,
    {
        out.push('-');
        k += 1;
        proof {
            assert(dashes(k as int) =~= dashes(k - 1).push('-'));
            assert(out@ =~= old(out)@ + seq!['+'] + dashes(k as int));
        }
    }
    out.push('+');
    let ghost mid = out@;
    let mut j: usize = 0;
    while j < 10
        invariant
            j <= 10,
            out@ == mid + dashes(j as int),
        decreases 10 - j,
    {
        out.push('-');
        j += 1;
        proof {
            assert(dashes(j as int) =~= dashes(j - 1).push('-'));
            assert(out@ =~= mid + dashes(j as int));
        }
    }
    out.push('+');
    out.push('\n');
    proof {
        assert(out@ =~= old(out)@ + border_line());
    }
}

/// Appends the header line.
fn push_header(out: &mut Vec<char>)
    ensures
        final(out)@ == old(out)@ + header_line(),
{
    out.push('|');
    out.push('W');
    out.push('o');
    out.push('r');
    out.push('d');
    out.push(' ');
    out.push('c');
    out.push('o');
    out.push('u');
    out.push('n');
    out.push('t');
    out.push('|');
    out.push(' ');
    out.push('F');
    out.push('r');
    out.push('e');
    out.push('q');
    out.push('u');
    out.push('e');
    out.push('n');
    out.push('c');
    out.push('y');
    out.push('|');
    out.push('\n');
    proof {
        assert(pad10(seq!['W', 'o', 'r', 'd', ' ', 'c', 'o', 'u', 'n', 't']) =~= seq![
            'W',
            'o',
            'r',
            'd',
            ' ',
            'c',
            'o',
            'u',
            'n',
            't',
        ]);
        assert(pad10(seq!['F', 'r', 'e', 'q', 'u', 'e', 'n', 'c', 'y']) =~= seq![
            ' ',
            'F',
            'r',
            'e',
            'q',
            'u',
            'e',
            'n',
            'c',
            'y',
        ]);
        assert(out@ =~= old(out)@ + header_line());
    }
}

/// Appends one table row for bin `bin` with frequency `freq`.
fn push_row(out: &mut Vec<char>, bin: usize, freq: usize, bin_size: usize)
    requires
        bin_size >= 1,
    ensures
        final(out)@ == old(out)@ + row_line(bin as int, freq as int, bin_size as int),
{
    out.push('|');
    let mut label: Vec<char> = Vec::new();
    if bin_size == 1 {
        push_dec(&mut label, bin as u128);
        proof {
            assert(label@ =~= row_label(bin as int, bin_size as int));
        }
    } else {
        proof {
            assert(0 <= (bin as int) * (bin_size as int) && (bin as int) * (bin_size as int)
                < u128::MAX as int && 0 <= (bin as int + 1) * (bin_size as int) && (bin as int + 1)
                * (bin_size as int) < u128::MAX as int) by (nonlinear_arith)
                requires
                    0 <= (bin as int) && (bin as int) < 0x10000000000000000,
                    0 <= (bin_size as int) && (bin_size as int) < 0x10000000000000000,
            {}
        }
        let lo = (bin as u128) * (bin_size as u128);
        let hi = (bin as u128 + 1) * (bin_size as u128);
        push_dec(&mut label, lo);
        label.push('-');
        push_dec(&mut label, hi);
        proof {
            assert(label@ =~= row_label(bin as int, bin_size as int));
        }
    }
    push_padded(out, &label);
    out.push('|');
    let mut fv: Vec<char> = Vec::new();
    push_dec(&mut fv, freq as u128);
    push_padded(out, &fv);
    out.push('|');
    out.push('\n');
    proof {
        assert(out@ =~= old(out)@ + row_line(bin as int, freq as int, bin_size as int));
    }
}

/// Relies on `String::push`: appends exactly the given character.
#[verifier::external_body]
fn push_char(s: &mut String, c: char)
    ensures
        final(s)@ == old(s)@.push(c),
{
    s.push(c);
}

/// Builds a `String` holding exactly the characters of `v`.
fn chars_to_string(v: &Vec<char>) -> (r: String)
    ensures
        r@ == v@,
{
    let mut r = String::new();
    let mut i: usize = 0;
    while i < v.len()
        invariant
            i <= v@.len(),
            r@ == v@.take(i as int),
        decreases v@.len() - i,
    {
        push_char(&mut r, v[i]);
        i += 1;
        proof {
            assert(v@.take(i as int) =~= v@.take(i - 1).push(v@[i - 1]));
        }
    }
    proof {
        assert(v@.take(v@.len() as int) =~= v@);
    }
    r
}

impl Histogram {
    /// Renders the histogram as a fixed-width ASCII table: a border, the
    /// header, a border, one row per stored bin in ascending order, and a
    /// final border.
    pub fn acsii_histogram(&self) -> (r: String)
        requires
            self.wf(),
        ensures
            r@ == spec_render(self.bins(), self.spec_bin_size()),
    {
        let mut out: Vec<char> = Vec::new();
        push_border(&mut out);
        push_header(&mut out);
        push_border(&mut out);
        let ghost pre = out@;
        let data = self.entries();
        let bin_size = self.bin_size();
        let mut i: usize = 0;
        proof {
            assert(pre =~= border_line() + header_line() + border_line());
        }
        while i < data.len()
            invariant
                i <= data@.len(),
                data@ == self.bins(),
                bin_size as int == self.spec_bin_size(),
                bin_size >= 1,
                out@ == pre + rows_of(data@.take(i as int), bin_size as int),
            decreases data@.len() - i,
        {
            let (b, f) = data[i];
            push_row(&mut out, b, f, bin_size);
            i += 1;
            proof {
                lemma_rows_of_snoc(data@, i - 1, bin_size as int);
                assert(out@ =~= pre + rows_of(data@.take(i as int), bin_size as int));
            }
        }
        push_border(&mut out);
        proof {
            assert(data@.take(data@.len() as int) =~= data@);
            assert(out@ =~= spec_render(self.bins(), self.spec_bin_size()));
        }
        chars_to_string(&out)
    }
}

/// Appending one entry appends one row.
proof fn lemma_rows_of_snoc(s: Seq<(usize, usize)>, i: int, bin_size: int)
    requires
        0 <= i < s.len(),
    ensures
        rows_of(s.take(i + 1), bin_size) == rows_of(s.take(i), bin_size) + row_line(
            s[i].0 as int,
            s[i].1 as int,
            bin_size,
        ),
    decreases i,
{
    if i == 0 {
        assert(s.take(1)[0] == s[0]);
        assert(s.take(1).drop_first() =~= Seq::<(usize, usize)>::empty());
        assert(s.take(0) =~= Seq::<(usize, usize)>::empty());
        assert(rows_of(s.take(1), bin_size) =~= rows_of(s.take(0), bin_size) + row_line(
            s[0].0 as int,
            s[0].1 as int,
            bin_size,
        ));
    } else {
        lemma_rows_of_snoc(s.drop_first(), i - 1, bin_size);
        assert(s.take(i + 1)[0] == s[0]);
        assert(s.take(i)[0] == s[0]);
        assert(s.take(i + 1).drop_first() =~= s.drop_first().take(i));
        assert(s.take(i).drop_first() =~= s.drop_first().take(i - 1));
        assert(s.drop_first()[i - 1] == s[i]);
        assert(rows_of(s.take(i + 1), bin_size) =~= rows_of(s.take(i), bin_size) + row_line(
            s[i].0 as int,
            s[i].1 as int,
            bin_size,
        ));
    }
}

} // verus!
