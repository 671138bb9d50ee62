use vstd::prelude::*;

verus! {

use vstd::string::StringExecFns;
use vstd::arithmetic::div_mod::{
    lemma_div_is_ordered,
    lemma_fundamental_div_mod,
    lemma_fundamental_div_mod_converse_div,
};
use crate::pixels::Rgba;

/// Width of the textual progress bar, in characters.
pub const BAR_WIDTH: u64 = 40;

/// The decimal digit character for `d` in `0..10`.
pub open spec fn digit_char(d: int) -> char
    recommends
        0 <= d < 10,
{
    if d == 0 {
        '0'
    } else if d == 1 {
        '1'
    } else if d == 2 {
        '2'
    } else if d == 3 {
        '3'
    } else if d == 4 {
        '4'
    } else if d == 5 {
        '5'
    } else if d == 6 {
        '6'
    } else if d == 7 {
        '7'
    } else if d == 8 {
        '8'
    } else {
        '9'
    }
}

/// The uppercase hexadecimal digit character for `d` in `0..16`.
pub open spec fn hex_char(d: int) -> char
    recommends
        0 <= d < 16,
{
    if d < 10 {
        digit_char(d)
    } else if d == 10 {
        'A'
    } else if d == 11 {
        'B'
    } else if d == 12 {
        'C'
    } else if d == 13 {
        'D'
    } else if d == 14 {
        'E'
    } else {
        'F'
    }
}

/// The decimal rendering of `n`, most significant digit first, with no
/// leading zeros (a single `'0'` for zero).
pub open spec fn dec_chars(n: int) -> Seq<char>
    recommends
        0 <= n,
    decreases n,
{
    if n <= 9 {
        seq![digit_char(n)]
    } else {
        dec_chars(n / 10) + seq![digit_char(n % 10)]
    }
}

/// The two uppercase hexadecimal digits of a byte.
pub open spec fn hex_byte_chars(b: int) -> Seq<char>
    recommends
        0 <= b < 256,
{
    seq![hex_char(b / 16), hex_char(b % 16)]
}

/// The `#RRGGBB` rendering of a color: a hash sign and six uppercase
/// hexadecimal digits; the alpha channel is ignored.
pub open spec fn hex_color_chars(c: Rgba) -> Seq<char> {
    seq!['#'] + hex_byte_chars(c.red as int) + hex_byte_chars(c.green as int) + hex_byte_chars(
        c.blue as int,
    )
}

/// `n` copies of the character `c`.
pub open spec fn repeat_char(c: char, n: int) -> Seq<char>
    recommends
        0 <= n,
{
    Seq::new(n as nat, |i: int| c)
}

/// `n / d` rounded to the nearest integer, halves rounding up.
pub open spec fn round_ratio(n: int, d: int) -> int
    recommends
        0 <= n,
        1 <= d,
{
    (2 * n + d) / (2 * d)
}

/// The percentage shown after `current` of `total` tiles are done.
pub open spec fn progress_percent(current: int, total: int) -> int
    recommends
        1 <= total,
        0 <= current <= total,
{
    round_ratio(100 * current, total)
}

/// How many of the bar's characters are filled after `current` of `total`
/// tiles are done.
pub open spec fn bar_filled(current: int, total: int) -> int
    recommends
        1 <= total,
        0 <= current <= total,
{
    round_ratio(BAR_WIDTH as int * current, total)
}

/// The full progress line: a carriage return so the previous line is
/// overwritten in place, the fixed-width bar, the rounded percentage and
/// the counts.
pub open spec fn progress_line_chars(current: int, total: int) -> Seq<char>
    recommends
        1 <= total,
        0 <= current <= total,
{
    "\rProgress: ["@ + repeat_char('#', bar_filled(current, total)) + repeat_char(
        ' ',
        BAR_WIDTH as int - bar_filled(current, total),
    ) + "] "@ + dec_chars(progress_percent(current, total)) + "% - "@ + dec_chars(current)
        + " of "@ + dec_chars(total) + " images saved"@
}

/// The deterministic output file name of the tile in grid cell
/// `(col, row)`.
pub open spec fn tile_name_chars(col: int, row: int) -> Seq<char>
    recommends
        0 <= col,
        0 <= row,
{
    "pixel_"@ + dec_chars(col) + "_"@ + dec_chars(row) + ".png"@
}

/// The ten characters a decimal rendering can contain.
pub open spec fn is_dec_digit(ch: char) -> bool {
    ch == '0' || ch == '1' || ch == '2' || ch == '3' || ch == '4' || ch == '5' || ch == '6' || ch
        == '7' || ch == '8' || ch == '9'
}

/// A decimal rendering is never empty and holds digit characters only.
pub proof fn lemma_dec_chars_digits(n: int)
    requires
        0 <= n,
    ensures
        dec_chars(n).len() >= 1,
        forall|i: int| 0 <= i < dec_chars(n).len() ==> is_dec_digit(#[trigger] dec_chars(n)[i]),
    decreases n,
{
    if n > 9 {
        lemma_dec_chars_digits(n / 10);
    }
}

/// Distinct numbers have distinct decimal renderings: the rendering has
/// no leading zeros, so it is injective.
pub proof fn lemma_dec_chars_injective(a: int, b: int)
    requires
        0 <= a,
        0 <= b,
        dec_chars(a) == dec_chars(b),
    ensures
        a == b,
    decreases a + b,
{
    lemma_dec_chars_digits(a);
    lemma_dec_chars_digits(b);
    if a <= 9 && b <= 9 {
        assert(dec_chars(a)[0] == digit_char(a));
        assert(dec_chars(b)[0] == digit_char(b));
        assert(dec_chars(a)[0] == dec_chars(b)[0]);
        assert(digit_char(a) == digit_char(b));
    } else if a <= 9 && b > 9 {
        lemma_dec_chars_digits(b / 10);
        assert(dec_chars(b).len() >= 2);
    } else if a > 9 && b <= 9 {
        lemma_dec_chars_digits(a / 10);
        assert(dec_chars(a).len() >= 2);
    } else {
        assert(dec_chars(a) == dec_chars(a / 10) + seq![digit_char(a % 10)]);
        assert(dec_chars(b) == dec_chars(b / 10) + seq![digit_char(b % 10)]);
        assert(dec_chars(a).len() == dec_chars(a / 10).len() + 1);
        assert(dec_chars(b).len() == dec_chars(b / 10).len() + 1);
        assert(dec_chars(a).last() == digit_char(a % 10));
        assert(dec_chars(b).last() == digit_char(b % 10));
        assert(dec_chars(a).last() == dec_chars(b).last());
        assert(digit_char(a % 10) == digit_char(b % 10));
        assert(a % 10 == b % 10);
        assert(dec_chars(a / 10) =~= dec_chars(b / 10)) by {
            assert forall|i: int| 0 <= i < dec_chars(a / 10).len() implies #[trigger] dec_chars(
                a / 10,
            )[i] == dec_chars(b / 10)[i] by {
                assert(dec_chars(a)[i] == dec_chars(a / 10)[i]);
                assert(dec_chars(b)[i] == dec_chars(b / 10)[i]);
                assert(dec_chars(a)[i] == dec_chars(b)[i]);
            }
        }
        lemma_dec_chars_injective(a / 10, b / 10);
        lemma_fundamental_div_mod(a, 10);
        lemma_fundamental_div_mod(b, 10);
    }
}

/// Distinct grid cells get distinct file names: the separator is not a
/// digit, so the column and row numbers parse back out unambiguously.
pub proof fn lemma_tile_name_chars_injective(c1: int, r1: int, c2: int, r2: int)
    requires
        0 <= c1,
        0 <= r1,
        0 <= c2,
        0 <= r2,
        c1 != c2 || r1 != r2,
    ensures
        tile_name_chars(c1, r1) != tile_name_chars(c2, r2),
{
    reveal_strlit("pixel_");
    reveal_strlit("_");
    reveal_strlit(".png");
    lemma_dec_chars_digits(c1);
    lemma_dec_chars_digits(r1);
    lemma_dec_chars_digits(c2);
    lemma_dec_chars_digits(r2);
    if tile_name_chars(c1, r1) == tile_name_chars(c2, r2) {
        let n1 = tile_name_chars(c1, r1);
        let n2 = tile_name_chars(c2, r2);
        let la = dec_chars(c1).len() as int;
        let lb = dec_chars(c2).len() as int;
        assert(("pixel_")@.len() == 6);
        assert(("_")@.len() == 1);
        assert((".png")@.len() == 4);
        assert(n1.len() == 6 + la + 1 + dec_chars(r1).len() + 4);
        assert(n2.len() == 6 + lb + 1 + dec_chars(r2).len() + 4);
        if la == lb {
            assert(dec_chars(c1) =~= dec_chars(c2)) by {
                assert forall|i: int| 0 <= i < la implies dec_chars(c1)[i] == dec_chars(c2)[i] by {
                    assert(n1[6 + i] == dec_chars(c1)[i]);
                    assert(n2[6 + i] == dec_chars(c2)[i]);
                }
            }
            lemma_dec_chars_injective(c1, c2);
            assert(dec_chars(r1).len() == dec_chars(r2).len());
            assert(dec_chars(r1) =~= dec_chars(r2)) by {
                assert forall|i: int| 0 <= i < dec_chars(r1).len() implies dec_chars(r1)[i]
                    == dec_chars(r2)[i] by {
                    assert(n1[6 + la + 1 + i] == dec_chars(r1)[i]);
                    assert(n2[6 + lb + 1 + i] == dec_chars(r2)[i]);
                }
            }
            lemma_dec_chars_injective(r1, r2);
        } else if la < lb {
            assert(n1[6 + la] == '_');
            assert(n2[6 + la] == dec_chars(c2)[la]);
            assert(is_dec_digit(dec_chars(c2)[la]));
        } else {
            assert(n2[6 + lb] == '_');
            assert(n1[6 + lb] == dec_chars(c1)[lb]);
            assert(is_dec_digit(dec_chars(c1)[lb]));
        }
    }
}

/// Append the single decimal digit `d` to `s`.
fn push_digit(s: &mut String, d: u64)
    requires
        d < 10,
    ensures
        final(s)@ == old(s)@ + seq![digit_char(d as int)],
{
    if d == 0 {
        s.append("0");
        proof {
            reveal_strlit("0");
            assert(("0")@ =~= seq![digit_char(0)]);
        }
    } else if d == 1 {
        s.append("1");
        proof {
            reveal_strlit("1");
            assert(("1")@ =~= seq![digit_char(1)]);
        }
    } else if d == 2 {
        s.append("2");
        proof {
            reveal_strlit("2");
            assert(("2")@ =~= seq![digit_char(2)]);
        }
    } else if d == 3 {
        s.append("3");
        proof {
            reveal_strlit("3");
            assert(("3")@ =~= seq![digit_char(3)]);
        }
    } else if d == 4 {
        s.append("4");
        proof {
            reveal_strlit("4");
            assert(("4")@ =~= seq![digit_char(4)]);
        }
    } else if d == 5 {
        s.append("5");
        proof {
            reveal_strlit("5");
            assert(("5")@ =~= seq![digit_char(5)]);
        }
    } else if d == 6 {
        s.append("6");
        proof {
            reveal_strlit("6");
            assert(("6")@ =~= seq![digit_char(6)]);
        }
    } else if d == 7 {
        s.append("7");
        proof {
            reveal_strlit("7");
            assert(("7")@ =~= seq![digit_char(7)]);
        }
    } else if d == 8 {
        s.append("8");
        proof {
            reveal_strlit("8");
            assert(("8")@ =~= seq![digit_char(8)]);
        }
    } else {
        s.append("9");
        proof {
            reveal_strlit("9");
            assert(("9")@ =~= seq![digit_char(9)]);
        }
    }
}

/// Append the single uppercase hexadecimal digit `d` to `s`.
fn push_hex_digit(s: &mut String, d: u64)
    requires
        d < 16,
    ensures
        final(s)@ == old(s)@ + seq![hex_char(d as int)],
{
    if d < 10 {
        push_digit(s, d);
    } else if d == 10 {
        s.append("A");
        proof {
            reveal_strlit("A");
            assert(("A")@ =~= seq![hex_char(10)]);
        }
    } else if d == 11 {
        s.append("B");
        proof {
            reveal_strlit("B");
            assert(("B")@ =~= seq![hex_char(11)]);
        }
    } else if d == 12 {
        s.append("C");
        proof {
            reveal_strlit("C");
            assert(("C")@ =~= seq![hex_char(12)]);
        }
    } else if d == 13 {
        s.append("D");
        proof {
            reveal_strlit("D");
            assert(("D")@ =~= seq![hex_char(13)]);
        }
    } else if d == 14 {
        s.append("E");
        proof {
            reveal_strlit("E");
            assert(("E")@ =~= seq![hex_char(14)]);
        }
    } else {
        s.append("F");
        proof {
            reveal_strlit("F");
            assert(("F")@ =~= seq![hex_char(15)]);
        }
    }
}

/// Append the decimal rendering of `n` to `s`.
pub fn append_dec(s: &mut String, n: u64)
    ensures
        final(s)@ == old(s)@ + dec_chars(n as int),
    decreases n,
{
    if n <= 9 {
        push_digit(s, n);
    } else {
        append_dec(s, n / 10);
        push_digit(s, n % 10);
        proof {
            assert(s@ =~= old(s)@ + dec_chars(n as int));
        }
    }
}

/// Append the two uppercase hexadecimal digits of `b` to `s`.
fn push_hex_byte(s: &mut String, b: u8)
    ensures
        final(s)@ == old(s)@ + hex_byte_chars(b as int),
{
    push_hex_digit(s, (b / 16) as u64);
    push_hex_digit(s, (b % 16) as u64);
    proof {
        assert(s@ =~= old(s)@ + hex_byte_chars(b as int));
    }
}

/// Render a color as a hash sign followed by six uppercase hexadecimal
/// digits, red then green then blue; the alpha channel is ignored.
pub fn rgba_to_hex(color: Rgba) -> (r: String)
    ensures
        r@ == hex_color_chars(color),
{
    let mut s = String::new();
    s.append("#");
    push_hex_byte(&mut s, color.red);
    push_hex_byte(&mut s, color.green);
    push_hex_byte(&mut s, color.blue);
    proof {
        reveal_strlit("#");
        assert(("#")@ =~= seq!['#']);
        assert(s@ =~= hex_color_chars(color));
    }
    s
}

/// The output file name of the tile in grid cell `(col, row)`.
pub fn tile_file_name(col: u32, row: u32) -> (r: String)
    ensures
        r@ == tile_name_chars(col as int, row as int),
{
    let mut s = String::new();
    s.append("pixel_");
    append_dec(&mut s, col as u64);
    s.append("_");
    append_dec(&mut s, row as u64);
    s.append(".png");
    proof {
        assert(s@ =~= tile_name_chars(col as int, row as int));
    }
    s
}

/// Append `count` copies of a bar character: `'#'` for the filled part of
/// the bar, a space for the rest.
fn append_bar_run(s: &mut String, count: u64, filled: bool)
    ensures
        final(s)@ == old(s)@ + repeat_char(if filled { '#' } else { ' ' }, count as int),
{
    let mut k: u64 = 0;
    while k < count
        invariant
            0 <= k <= count,
            s@ == old(s)@ + repeat_char(if filled { '#' } else { ' ' }, k as int),
        decreases count - k,
    {
        if filled {
            s.append("#");
            proof {
                reveal_strlit("#");
                assert(s@ =~= old(s)@ + repeat_char('#', k as int + 1));
            }
        } else {
            s.append(" ");
            proof {
                reveal_strlit(" ");
                assert(s@ =~= old(s)@ + repeat_char(' ', k as int + 1));
            }
        }
        k = k + 1;
    }
    proof {
        assert(s@ =~= old(s)@ + repeat_char(if filled { '#' } else { ' ' }, count as int));
    }
}

/// Render the progress line printed after `current` of `total` tiles have
/// been exported: the fixed-width bar, the rounded percentage and the
/// counts, led by a carriage return so each line overwrites the last.
pub fn render_progress(current: u64, total: u64) -> (r: String)
    requires
        1 <= total,
        current <= total,
    ensures
        r@ == progress_line_chars(current as int, total as int),
{
    let pct_wide = (200 * (current as u128) + (total as u128)) / (2 * (total as u128));
    let fill_wide = (80 * (current as u128) + (total as u128)) / (2 * (total as u128));
    proof {
        lemma_div_is_ordered(
            200 * (current as int) + total as int,
            201 * (total as int),
            2 * (total as int),
        );
        lemma_fundamental_div_mod_converse_div(
            201 * (total as int),
            2 * (total as int),
            100,
            total as int,
        );
        assert(pct_wide <= 100);
        lemma_div_is_ordered(
            80 * (current as int) + total as int,
            81 * (total as int),
            2 * (total as int),
        );
        lemma_fundamental_div_mod_converse_div(
            81 * (total as int),
            2 * (total as int),
            40,
            total as int,
        );
        assert(fill_wide <= 40);
    }
    let pct = pct_wide as u64;
    let filled = fill_wide as u64;
    proof {
        assert(pct as int == progress_percent(current as int, total as int));
        assert(filled as int == bar_filled(current as int, total as int));
    }
    let mut s = String::new();
    s.append("\rProgress: [");
    append_bar_run(&mut s, filled, true);
    append_bar_run(&mut s, BAR_WIDTH - filled, false);
    s.append("] ");
    append_dec(&mut s, pct);
    s.append("% - ");
    append_dec(&mut s, current);
    s.append(" of ");
    append_dec(&mut s, total);
    s.append(" images saved");
    proof {
        assert(s@ =~= progress_line_chars(current as int, total as int));
    }
    s
}

} // verus!
