//! Cell text of the per-process table.
use vstd::prelude::*;
use vstd::string::StringSliceAdditionalSpecFns;
use vstd::utf8::is_char_boundary;

use crate::app::SortColumn;
use crate::format::{decimal, digit_char, digit_str, push_decimal};

verus! {

broadcast use vstd::utf8::group_utf8_lib;

/// Kibibytes in a gibibyte.
pub const KIB_PER_GIB: u64 = 1_048_576;

/// `num / den` rounded to the nearest integer, ties to the even one.
pub open spec fn round_half_even(num: nat, den: nat) -> nat {
    let q = num / den;
    let r = num % den;
    if 2 * r < den {
        q
    } else if 2 * r > den {
        q + 1
    } else if q % 2 == 0 {
        q
    } else {
        q + 1
    }
}

/// Spacing of the `f64` values around `n`: 1 below 2^53, doubling with each
/// further power of two.
pub open spec fn f64_spacing(n: nat) -> nat {
    if n < 0x20_0000_0000_0000 {
        1
    } else if n < 0x40_0000_0000_0000 {
        2
    } else if n < 0x80_0000_0000_0000 {
        4
    } else if n < 0x100_0000_0000_0000 {
        8
    } else if n < 0x200_0000_0000_0000 {
        16
    } else if n < 0x400_0000_0000_0000 {
        32
    } else if n < 0x800_0000_0000_0000 {
        64
    } else if n < 0x1000_0000_0000_0000 {
        128
    } else if n < 0x2000_0000_0000_0000 {
        256
    } else if n < 0x4000_0000_0000_0000 {
        512
    } else if n < 0x8000_0000_0000_0000 {
        1024
    } else {
        2048
    }
}

/// The value of `n as f64` for `n < 2^64`: `n` rounded to the nearest
/// multiple of the spacing, ties to an even multiple.
pub open spec fn f64_of(n: nat) -> nat {
    round_half_even(n, f64_spacing(n)) * f64_spacing(n)
}

/// Tenths of a gibibyte in `kb` kibibytes, as `{:.1}` rounds
/// `kb as f64 / 1048576.0`: to the nearest tenth, ties to even.
pub open spec fn gib_tenths(kb: nat) -> nat {
    round_half_even(f64_of(kb) * 10, KIB_PER_GIB as nat)
}

/// The memory cell text for `kb` kibibytes: gibibytes with one decimal
/// from 1 GiB up, whole mebibytes from 1 MiB up, else kibibytes.
pub open spec fn memory_text(kb: nat) -> Seq<char> {
    if kb >= KIB_PER_GIB {
        decimal(gib_tenths(kb) / 10) + seq!['.', digit_char(gib_tenths(kb) % 10), 'G']
    } else if kb >= 1024 {
        decimal(kb / 1024) + seq!['M']
    } else {
        decimal(kb) + seq!['K']
    }
}

/// The GTT text of the single-sample summary: whole mebibytes from 1 MiB
/// up, else kibibytes.
pub open spec fn gtt_text(kb: nat) -> Seq<char> {
    if kb >= 1024 {
        decimal(kb / 1024) + seq!['M']
    } else {
        decimal(kb) + seq!['K']
    }
}

fn spacing(n: u64) -> (r: u64)
    ensures
        r as nat == f64_spacing(n as nat),
        1 <= r <= 2048,
{
    if n < 0x20_0000_0000_0000 {
        1
    } else if n < 0x40_0000_0000_0000 {
        2
    } else if n < 0x80_0000_0000_0000 {
        4
    } else if n < 0x100_0000_0000_0000 {
        8
    } else if n < 0x200_0000_0000_0000 {
        16
    } else if n < 0x400_0000_0000_0000 {
        32
    } else if n < 0x800_0000_0000_0000 {
        64
    } else if n < 0x1000_0000_0000_0000 {
        128
    } else if n < 0x2000_0000_0000_0000 {
        256
    } else if n < 0x4000_0000_0000_0000 {
        512
    } else if n < 0x8000_0000_0000_0000 {
        1024
    } else {
        2048
    }
}

fn round_even_div(num: u128, den: u128) -> (r: u128)
    requires
        0 < den <= 0x1_0000_0000_0000_0000,
        num < 0x1_0000_0000_0000_0000_0000_0000,
    ensures
        r as nat == round_half_even(num as nat, den as nat),
        r as nat <= num as nat / den as nat + 1,
{
    let q = num / den;
    let r = num % den;
    proof {
        assert(q <= num) by (nonlinear_arith)
            requires
                den > 0,
                q == num / den,
        ;
        assert(r < den) by (nonlinear_arith)
            requires
                den > 0,
                r == num % den,
        ;
    }
    if 2 * r < den {
        q
    } else if 2 * r > den {
        q + 1
    } else if q % 2 == 0 {
        q
    } else {
        q + 1
    }
}

/// The memory cell text for `kb` kibibytes, as `format!` gives it:
/// `{:.1}G` of the gibibytes from 1 GiB up, `{}M` of the whole mebibytes
/// from 1 MiB up, else `{}K`.
pub fn format_memory(kb: u64) -> (r: String)
    ensures
        r@ == memory_text(kb as nat),
{
    proof {
        reveal_strlit("");
        reveal_strlit(".");
        reveal_strlit("G");
        reveal_strlit("M");
        reveal_strlit("K");
    }
    let mut out = "".to_owned();
    if kb >= KIB_PER_GIB {
        let d = spacing(kb);
        let v = round_even_div(kb as u128, d as u128);
        proof {
            vstd::arithmetic::div_mod::lemma_fundamental_div_mod(kb as int, d as int);
            assert(v * d <= kb + d) by (nonlinear_arith)
                requires
                    v <= (kb as int) / (d as int) + 1,
                    d >= 1,
                    kb as int == d * ((kb as int) / (d as int)) + (kb as int) % (d as int),
                    (kb as int) % (d as int) >= 0,
            ;
        }
        let value: u128 = v * (d as u128);
        let tenths = round_even_div(value * 10, KIB_PER_GIB as u128);
        proof {
            assert(tenths <= 0x10_0000_0000_0000) by (nonlinear_arith)
                requires
                    tenths <= (value * 10) / 0x10_0000 + 1,
                    value <= 0x1_0000_0000_0000_0800,
            ;
        }
        let whole = tenths / 10;
        let frac = tenths % 10;
        push_decimal(&mut out, whole as u64);
        out.append(".");
        out.append(digit_str(frac as u64));
        out.append("G");
        assert(out@ =~= memory_text(kb as nat));
    } else if kb >= 1024 {
        push_decimal(&mut out, kb / 1024);
        out.append("M");
        assert(out@ =~= memory_text(kb as nat));
    } else {
        push_decimal(&mut out, kb);
        out.append("K");
        assert(out@ =~= memory_text(kb as nat));
    }
    out
}

/// The GTT text of the single-sample summary, as `format!` gives it: `{}M`
/// of the whole mebibytes from 1 MiB up, else `{}K`.
pub fn gtt_label(kb: u64) -> (r: String)
    ensures
        r@ == gtt_text(kb as nat),
{
    proof {
        reveal_strlit("");
        reveal_strlit("M");
        reveal_strlit("K");
    }
    let mut out = "".to_owned();
    if kb >= 1024 {
        push_decimal(&mut out, kb / 1024);
        out.append("M");
    } else {
        push_decimal(&mut out, kb);
        out.append("K");
    }
    assert(out@ =~= gtt_text(kb as nat));
    out
}

/// The header name of a column of the process table.
pub open spec fn column_name(c: SortColumn) -> Seq<char> {
    match c {
        SortColumn::Pid => seq!['P', 'I', 'D'],
        SortColumn::Command => seq!['C', 'O', 'M', 'M', 'A', 'N', 'D'],
        SortColumn::Gtt => seq!['G', 'T', 'T'],
        SortColumn::Rcs => seq!['R', 'C', 'S'],
        SortColumn::Vcs => seq!['V', 'C', 'S'],
        SortColumn::Ccs => seq!['C', 'C', 'S'],
        SortColumn::Bcs => seq!['B', 'C', 'S'],
        SortColumn::Vecs => seq!['V', 'E', 'C', 'S'],
    }
}

/// The header text of `column` when the table is sorted by `sorted_by`:
/// the column's name, followed on the sort column by `▲` (ascending) or `▼`
/// (reversed).
pub open spec fn header_text(column: SortColumn, sorted_by: SortColumn, reverse: bool) -> Seq<
    char,
> {
    if column == sorted_by {
        column_name(column) + if reverse {
            seq!['\u{25bc}']
        } else {
            seq!['\u{25b2}']
        }
    } else {
        column_name(column)
    }
}

/// The header of each column is its field or engine name in capitals:
/// `PID`, `COMMAND`, `GTT`, then the engines `RCS`, `VCS`, `CCS`, `BCS`,
/// `VECS`; a column that the table is not sorted by shows its name alone,
/// the sort column its name and the order's arrow.
pub proof fn column_headers_name_their_columns(sorted_by: SortColumn, reverse: bool)
    ensures
        column_name(SortColumn::Pid) == "PID"@,
        column_name(SortColumn::Command) == "COMMAND"@,
        column_name(SortColumn::Gtt) == "GTT"@,
        column_name(SortColumn::Rcs) == "RCS"@,
        column_name(SortColumn::Vcs) == "VCS"@,
        column_name(SortColumn::Ccs) == "CCS"@,
        column_name(SortColumn::Bcs) == "BCS"@,
        column_name(SortColumn::Vecs) == "VECS"@,
        forall|c: SortColumn|
            c != sorted_by ==> #[trigger] header_text(c, sorted_by, reverse) == column_name(c),
        header_text(sorted_by, sorted_by, reverse) == column_name(sorted_by) + (if reverse {
            "\u{25bc}"@
        } else {
            "\u{25b2}"@
        }),
{
    reveal_strlit("PID");
    reveal_strlit("COMMAND");
    reveal_strlit("GTT");
    reveal_strlit("RCS");
    reveal_strlit("VCS");
    reveal_strlit("CCS");
    reveal_strlit("BCS");
    reveal_strlit("VECS");
    reveal_strlit("\u{25bc}");
    reveal_strlit("\u{25b2}");
    assert(column_name(SortColumn::Pid) =~= "PID"@);
    assert(column_name(SortColumn::Command) =~= "COMMAND"@);
    assert(column_name(SortColumn::Gtt) =~= "GTT"@);
    assert(column_name(SortColumn::Rcs) =~= "RCS"@);
    assert(column_name(SortColumn::Vcs) =~= "VCS"@);
    assert(column_name(SortColumn::Ccs) =~= "CCS"@);
    assert(column_name(SortColumn::Bcs) =~= "BCS"@);
    assert(column_name(SortColumn::Vecs) =~= "VECS"@);
    if reverse {
        assert("\u{25bc}"@ =~= seq!['\u{25bc}']);
    } else {
        assert("\u{25b2}"@ =~= seq!['\u{25b2}']);
    }
}

fn column_str(c: SortColumn) -> (r: &'static str)
    ensures
        r@ == column_name(c),
{
    proof {
        reveal_strlit("PID");
        reveal_strlit("COMMAND");
        reveal_strlit("GTT");
        reveal_strlit("RCS");
        reveal_strlit("VCS");
        reveal_strlit("CCS");
        reveal_strlit("BCS");
        reveal_strlit("VECS");
    }
    match c {
        SortColumn::Pid => "PID",
        SortColumn::Command => "COMMAND",
        SortColumn::Gtt => "GTT",
        SortColumn::Rcs => "RCS",
        SortColumn::Vcs => "VCS",
        SortColumn::Ccs => "CCS",
        SortColumn::Bcs => "BCS",
        SortColumn::Vecs => "VECS",
    }
}

/// The header text of `column` in a table sorted by `sorted_by`, reversed
/// when `reverse`.
pub fn header_label(column: SortColumn, sorted_by: SortColumn, reverse: bool) -> (r: String)
    ensures
        r@ == header_text(column, sorted_by, reverse),
{
    proof {
        reveal_strlit("\u{25bc}");
        reveal_strlit("\u{25b2}");
    }
    let mut out = column_str(column).to_owned();
    if column == sorted_by {
        if reverse {
            out.append("\u{25bc}");
        } else {
            out.append("\u{25b2}");
        }
    }
    out
}

/// The title of the process table holding `count` processes.
pub open spec fn title_text(count: nat) -> Seq<char> {
    seq![' ', 'P', 'r', 'o', 'c', 'e', 's', 's', 'e', 's', ' ', '('] + decimal(count) + seq![
        ')',
        ' ',
        '[',
        's',
        ':',
        's',
        'o',
        'r',
        't',
        ' ',
        'r',
        ':',
        'r',
        'e',
        'v',
        'e',
        'r',
        's',
        'e',
        ']',
        ' ',
    ]
}

/// The title of the process table holding `count` processes, with the
/// sort keys.
pub fn table_title(count: usize) -> (r: String)
    ensures
        r@ == title_text(count as nat),
{
    proof {
        reveal_strlit(" Processes (");
        reveal_strlit(") [s:sort r:reverse] ");
    }
    let mut out = " Processes (".to_owned();
    push_decimal(&mut out, count as u64);
    out.append(") [s:sort r:reverse] ");
    out
}

/// Whether row `row` of the table is the selected one.
pub fn is_selected_row(row: usize, selected: usize) -> (r: bool)
    ensures
        r == (row == selected),
{
    row == selected
}

/// The largest character boundary of `b` at or below `e`.
pub open spec fn char_floor(b: Seq<u8>, e: int) -> int
    decreases e,
{
    if e <= 0 {
        0
    } else if is_char_boundary(b, e) {
        e
    } else {
        char_floor(b, e - 1)
    }
}

/// Byte length of `s` cut to at most `max` bytes on a character boundary.
pub open spec fn truncated_len(b: Seq<u8>, max: int) -> int {
    if b.len() <= max {
        b.len() as int
    } else {
        char_floor(b, max)
    }
}

/// `s` cut to at most `max` bytes, without splitting a character.
pub fn truncate(s: &str, max: usize) -> (r: &str)
    ensures
        r.spec_bytes() == s.spec_bytes().take(truncated_len(s.spec_bytes(), max as int)),
{
    let n = s.as_bytes().len();
    if n <= max {
        proof {
            assert(s.spec_bytes().take(s.spec_bytes().len() as int) =~= s.spec_bytes());
        }
        return s;
    }
    let mut end = max;
    while end > 0 && !s.is_char_boundary(end)
        invariant
            end <= max,
            max < s.spec_bytes().len(),
            char_floor(s.spec_bytes(), max as int) == char_floor(s.spec_bytes(), end as int),
        decreases end,
    {
        end = end - 1;
    }
    let (head, _) = s.split_at(end);
    proof {
        assert(head.spec_bytes() =~= s.spec_bytes().take(end as int));
    }
    head
}


proof fn lemma_char_floor(b: Seq<u8>, e: int)
    requires
        vstd::utf8::valid_utf8(b),
    ensures
        0 <= char_floor(b, e),
        e >= 0 ==> char_floor(b, e) <= e,
        is_char_boundary(b, char_floor(b, e)),
    decreases e,
{
    if e > 0 && !is_char_boundary(b, e) {
        lemma_char_floor(b, e - 1);
    }
}

/// Cutting the UTF-8 text of `chars` to `max` bytes keeps it whole when it
/// fits, and otherwise keeps at most `max` bytes and ends on a character
/// boundary.
pub proof fn truncation_never_splits_characters(chars: Seq<char>, max: nat)
    ensures
        ({
            let b = vstd::utf8::encode_utf8(chars);
            let n = truncated_len(b, max as int);
            &&& b.len() <= max ==> n == b.len()
            &&& n <= max
            &&& is_char_boundary(b, n)
        }),
{
    let b = vstd::utf8::encode_utf8(chars);
    vstd::utf8::encode_utf8_valid_utf8(chars);
    lemma_char_floor(b, max as int);
    vstd::utf8::is_char_boundary_start_end_of_seq(b);
}

} // verus!
