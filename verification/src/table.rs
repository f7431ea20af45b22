//! Markdown tables as monospace text: column widths, truncation, padding.
//!
//! Every width is a number of display columns: a full-width East-Asian character takes two.

use vstd::prelude::*;

use crate::text::{char_views, chars_of, join, join_from, text_of};

verus! {

/// Spaces between two table columns.
pub const TABLE_GUTTER: usize = 2;

/// Display columns that fit one 20 px monospace line.
pub const TABLE_MAX_WIDTH: usize = 32;

/// Smallest a column may shrink to when a table overflows the line.
pub const TABLE_MIN_COL: usize = 3;

/// Whether `c` is one of the assigned kana beyond the Basic Multilingual Plane: the hentaigana and
/// other historic letters, the small extensions, and the tone letters.
pub open spec fn is_rare_kana(c: char) -> bool {
    ||| '\u{1aff0}' <= c <= '\u{1aff3}'
    ||| '\u{1aff5}' <= c <= '\u{1affb}'
    ||| '\u{1affd}' <= c <= '\u{1affe}'
    ||| '\u{1b000}' <= c <= '\u{1b122}'
    ||| c == '\u{1b132}'
    ||| '\u{1b150}' <= c <= '\u{1b152}'
    ||| c == '\u{1b155}'
    ||| '\u{1b164}' <= c <= '\u{1b167}'
}

/// Whether `c` is kana: the basic blocks, the phonetic extensions, and the rare letters.
pub open spec fn is_kana(c: char) -> bool {
    ||| '\u{3040}' <= c <= '\u{30ff}'
    ||| '\u{31f0}' <= c <= '\u{31ff}'
    ||| is_rare_kana(c)
}

/// Whether `c` is one of the assigned CJK ideographs beyond the Basic Multilingual Plane, as of
/// Unicode 16: the extensions B to I, and the supplement of compatibility forms.
pub open spec fn is_rare_ideograph(c: char) -> bool {
    ||| '\u{20000}' <= c <= '\u{2a6df}'
    ||| '\u{2a700}' <= c <= '\u{2b739}'
    ||| '\u{2b740}' <= c <= '\u{2b81d}'
    ||| '\u{2b820}' <= c <= '\u{2cea1}'
    ||| '\u{2ceb0}' <= c <= '\u{2ebe0}'
    ||| '\u{2ebf0}' <= c <= '\u{2ee5d}'
    ||| '\u{2f800}' <= c <= '\u{2fa1d}'
    ||| '\u{30000}' <= c <= '\u{3134a}'
    ||| '\u{31350}' <= c <= '\u{323af}'
}

/// Whether `c` is a CJK ideograph: the unified block, its extensions, and the compatibility forms.
pub open spec fn is_ideograph(c: char) -> bool {
    ||| '\u{3400}' <= c <= '\u{4dbf}'
    ||| '\u{4e00}' <= c <= '\u{9fff}'
    ||| '\u{f900}' <= c <= '\u{faff}'
    ||| is_rare_ideograph(c)
}

/// Whether `c` is full-width: CJK punctuation, kana, CJK ideographs with their compatibility
/// forms, hangul syllables, and the fullwidth halves of Halfwidth and Fullwidth Forms.
pub open spec fn is_full_width(c: char) -> bool {
    ||| '\u{3000}' <= c <= '\u{303f}'
    ||| is_kana(c)
    ||| is_ideograph(c)
    ||| '\u{ac00}' <= c <= '\u{d7a3}'
    ||| '\u{ff00}' <= c <= '\u{ff60}'
    ||| '\u{ffe0}' <= c <= '\u{ffe6}'
}

/// Display columns of one character.
pub open spec fn char_width(c: char) -> nat {
    if is_full_width(c) {
        2
    } else {
        1
    }
}

/// Display columns of a text.
pub open spec fn width(s: Seq<char>) -> nat
    decreases s.len(),
{
    if s.len() == 0 {
        0
    } else {
        width(s.drop_last()) + char_width(s.last())
    }
}

fn rare_kana(c: char) -> (r: bool)
    ensures
        r == is_rare_kana(c),
{
    ('\u{1aff0}' <= c && c <= '\u{1aff3}') || ('\u{1aff5}' <= c && c <= '\u{1affb}') || (
    '\u{1affd}' <= c && c <= '\u{1affe}') || ('\u{1b000}' <= c && c <= '\u{1b122}') || c
        == '\u{1b132}' || ('\u{1b150}' <= c && c <= '\u{1b152}') || c == '\u{1b155}' || (
    '\u{1b164}' <= c && c <= '\u{1b167}')
}

fn rare_ideograph(c: char) -> (r: bool)
    ensures
        r == is_rare_ideograph(c),
{
    ('\u{20000}' <= c && c <= '\u{2a6df}') || ('\u{2a700}' <= c && c <= '\u{2b739}') || (
    '\u{2b740}' <= c && c <= '\u{2b81d}') || ('\u{2b820}' <= c && c <= '\u{2cea1}') || (
    '\u{2ceb0}' <= c && c <= '\u{2ebe0}') || ('\u{2ebf0}' <= c && c <= '\u{2ee5d}') || (
    '\u{2f800}' <= c && c <= '\u{2fa1d}') || ('\u{30000}' <= c && c <= '\u{3134a}') || (
    '\u{31350}' <= c && c <= '\u{323af}')
}

/// Display columns one character occupies on the monospace grid: 2 for East-Asian full-width
/// characters, 1 for everything else.
pub fn char_display_width(c: char) -> (r: usize)
    ensures
        r == char_width(c),
{
    let kana = ('\u{3040}' <= c && c <= '\u{30ff}') || ('\u{31f0}' <= c && c <= '\u{31ff}')
        || rare_kana(c);
    let ideograph = ('\u{3400}' <= c && c <= '\u{4dbf}') || ('\u{4e00}' <= c && c <= '\u{9fff}')
        || ('\u{f900}' <= c && c <= '\u{faff}') || rare_ideograph(c);
    let punctuation = '\u{3000}' <= c && c <= '\u{303f}';
    let hangul = '\u{ac00}' <= c && c <= '\u{d7a3}';
    let form = ('\u{ff00}' <= c && c <= '\u{ff60}') || ('\u{ffe0}' <= c && c <= '\u{ffe6}');
    if punctuation || kana || ideograph || hangul || form {
        2
    } else {
        1
    }
}

/// A longer prefix is no narrower.
proof fn lemma_width_take(s: Seq<char>, i: int, j: int)
    requires
        0 <= i <= j <= s.len(),
    ensures
        width(s.take(i)) + (j - i) <= width(s.take(j)),
    decreases j - i,
{
    if i < j {
        lemma_width_take(s, i, j - 1);
        assert(s.take(j).drop_last() =~= s.take(j - 1));
    }
}

proof fn lemma_width_add(a: Seq<char>, b: Seq<char>)
    ensures
        width(a + b) == width(a) + width(b),
    decreases b.len(),
{
    if b.len() == 0 {
        assert(a + b =~= a);
    } else {
        lemma_width_add(a, b.drop_last());
        assert((a + b).drop_last() =~= a + b.drop_last());
    }
}

/// A text takes no more columns than its UTF-8 encoding takes bytes.
proof fn lemma_width_fits_encoding(s: Seq<char>)
    ensures
        width(s) <= vstd::utf8::encode_utf8(s).len(),
    decreases s.len(),
{
    if s.len() > 0 {
        let rest = s.drop_first();
        lemma_width_fits_encoding(rest);
        lemma_width_add(seq![s[0]], rest);
        assert(seq![s[0]] + rest =~= s);
        assert(width(seq![s[0]]) == char_width(s[0])) by {
            reveal_with_fuel(width, 2);
        }
    }
}

/// Display columns a string occupies: the sum of its characters' widths.
pub fn display_width(s: &str) -> (r: usize)
    ensures
        r == width(s@),
{
    let size: usize = s.as_bytes().len();
    proof {
        lemma_width_fits_encoding(s@);
    }
    let chars = chars_of(s);
    let mut total: usize = 0;
    let mut i: usize = 0;
    while i < chars.len()
        invariant
            i <= chars.len(),
            chars@ == s@,
            width(s@) <= size,
            total == width(s@.take(i as int)),
        decreases chars.len() - i,
    {
        proof {
            lemma_width_take(s@, i + 1, s@.len() as int);
            assert(s@.take(s@.len() as int) =~= s@);
            assert(s@.take(i + 1).drop_last() =~= s@.take(i as int));
        }
        total += char_display_width(chars[i]);
        i += 1;
    }
    assert(s@.take(i as int) =~= s@);
    total
}

/// The longest prefix of `s` that takes at most `budget` columns.
pub open spec fn longest_prefix(s: Seq<char>, budget: nat) -> Seq<char>
    decreases s.len(),
{
    if width(s) <= budget || s.len() == 0 {
        s
    } else {
        longest_prefix(s.drop_last(), budget)
    }
}

/// A cell cut to `w` columns: too wide a text keeps the characters that fit whole beside an
/// ellipsis.
pub open spec fn fitted(s: Seq<char>, w: nat) -> Seq<char> {
    if width(s) <= w {
        s
    } else if w == 0 {
        Seq::empty()
    } else {
        longest_prefix(s, (w - 1) as nat).push('…')
    }
}

/// `n` copies of `c`.
pub open spec fn repeated(c: char, n: nat) -> Seq<char> {
    Seq::new(n, |i: int| c)
}

/// A text filled up with spaces to `w` columns.
pub open spec fn padded_to(s: Seq<char>, w: nat) -> Seq<char> {
    if width(s) < w {
        s + repeated(' ', (w - width(s)) as nat)
    } else {
        s
    }
}

proof fn lemma_longest_prefix(s: Seq<char>, budget: nat, n: int)
    requires
        0 <= n < s.len(),
        width(s.take(n)) <= budget,
        width(s.take(n + 1)) > budget,
    ensures
        longest_prefix(s, budget) == s.take(n),
    decreases s.len(),
{
    lemma_width_take(s, n + 1, s.len() as int);
    assert(s.take(s.len() as int) =~= s);
    if s.len() == n + 1 {
        reveal_with_fuel(longest_prefix, 2);
        assert(s.drop_last() =~= s.take(n));
    } else {
        let t = s.drop_last();
        assert(t.take(n) =~= s.take(n));
        assert(t.take(n + 1) =~= s.take(n + 1));
        lemma_longest_prefix(t, budget, n);
    }
}

/// Appends `n` copies of `c`.
fn push_repeated(out: &mut Vec<char>, c: char, n: usize)
    ensures
        final(out)@ == old(out)@ + repeated(c, n as nat),
{
    let mut i: usize = 0;
    while i < n
        invariant
            i <= n,
            out@ == old(out)@ + repeated(c, i as nat),
        decreases n - i,
    {
        out.push(c);
        i += 1;
        assert(out@ =~= old(out)@ + repeated(c, i as nat));
    }
}

/// A cell's text in a column `w` wide: cut where it is too wide, filled up where it is not.
fn fit_cell(text: &str, w: usize) -> (r: Vec<char>)
    ensures
        r@ == padded_to(fitted(text@, w as nat), w as nat),
{
    let used = display_width(text);
    if used <= w {
        let mut out = chars_of(text);
        push_repeated(&mut out, ' ', w - used);
        assert(repeated(' ', 0) =~= Seq::empty());
        assert(out@ =~= padded_to(fitted(text@, w as nat), w as nat));
        return out;
    }
    let mut out: Vec<char> = Vec::new();
    if w == 0 {
        assert(out@ =~= padded_to(fitted(text@, 0), 0));
        return out;
    }
    let budget: usize = w - 1;
    let chars = chars_of(text);
    let mut kept: usize = 0;
    let mut i: usize = 0;
    assert(text@.take(0) =~= Seq::empty());
    assert(text@.take(text@.len() as int) =~= text@);
    while i < chars.len() && char_display_width(chars[i]) <= budget - kept
        invariant
            i <= chars.len(),
            chars@ == text@,
            kept <= budget,
            budget < usize::MAX,
            kept == width(text@.take(i as int)),
            out@ == text@.take(i as int),
        decreases chars.len() - i,
    {
        assert(text@.take(i + 1).drop_last() =~= text@.take(i as int));
        out.push(chars[i]);
        kept += char_display_width(chars[i]);
        i += 1;
        assert(out@ =~= text@.take(i as int));
    }
    proof {
        if i == chars.len() {
            assert(text@.take(i as int) =~= text@);
            assert(false);
        }
        assert(text@.take(i + 1).drop_last() =~= text@.take(i as int));
        lemma_longest_prefix(text@, budget as nat, i as int);
    }
    out.push('…');
    let ghost cut = out@;
    assert(cut.drop_last() =~= text@.take(i as int));
    assert(width(cut) == kept + 1);
    push_repeated(&mut out, ' ', w - kept - 1);
    assert(repeated(' ', 0) =~= Seq::empty());
    assert(out@ =~= padded_to(fitted(text@, w as nat), w as nat));
    out
}

/// The character sequences of strings.
pub open spec fn string_views(s: Seq<String>) -> Seq<Seq<char>> {
    s.map_values(|x: String| x@)
}

/// The character sequences of rows of strings.
pub open spec fn row_views(rows: Seq<Vec<String>>) -> Seq<Seq<Seq<char>>> {
    rows.map_values(|r: Vec<String>| string_views(r@))
}

/// Cell `i` of a row, empty where the row is too short.
pub open spec fn cell(row: Seq<Seq<char>>, i: int) -> Seq<char> {
    if 0 <= i < row.len() {
        row[i]
    } else {
        Seq::empty()
    }
}

/// The widest cell of column `i` in `rows`.
pub open spec fn widest_cell(rows: Seq<Seq<Seq<char>>>, i: int) -> nat
    decreases rows.len(),
{
    if rows.len() == 0 {
        0
    } else {
        let above = widest_cell(rows.drop_last(), i);
        let here = width(cell(rows.last(), i));
        if here > above {
            here
        } else {
            above
        }
    }
}

/// The width of a column that its widest cell asks for, at least 1.
pub open spec fn natural_width(header: Seq<Seq<char>>, rows: Seq<Seq<Seq<char>>>, i: int) -> nat {
    let widest = widest_cell(seq![header] + rows, i);
    if widest > 0 {
        widest
    } else {
        1
    }
}

/// The columns' natural widths: there are as many columns as header cells.
pub open spec fn natural_widths(header: Seq<Seq<char>>, rows: Seq<Seq<Seq<char>>>) -> Seq<nat> {
    Seq::new(header.len(), |i: int| natural_width(header, rows, i))
}

/// The sum of the column widths.
pub open spec fn total(widths: Seq<nat>) -> nat
    decreases widths.len(),
{
    if widths.len() == 0 {
        0
    } else {
        total(widths.drop_last()) + widths.last()
    }
}

/// The width of a line: its columns and the gutters between them.
pub open spec fn line_width(widths: Seq<nat>) -> int {
    total(widths) + 2 * (widths.len() - 1)
}

/// The last of the widest columns.
pub open spec fn widest_column(widths: Seq<nat>) -> int
    decreases widths.len(),
{
    if widths.len() <= 1 {
        0
    } else {
        let before = widest_column(widths.drop_last());
        if widths.last() >= widths[before] {
            widths.len() - 1
        } else {
            before
        }
    }
}

/// The widest column is a column, and none is wider.
pub proof fn lemma_widest_column(widths: Seq<nat>)
    requires
        widths.len() > 0,
    ensures
        0 <= widest_column(widths) < widths.len(),
        forall|i: int|
            0 <= i < widths.len() ==> #[trigger] widths[i] <= widths[widest_column(widths)],
    decreases widths.len(),
{
    if widths.len() > 1 {
        let rest = widths.drop_last();
        lemma_widest_column(rest);
        assert forall|i: int| 0 <= i < widths.len() implies #[trigger] widths[i]
            <= widths[widest_column(widths)] by {
            if i < rest.len() {
                assert(rest[i] == widths[i]);
            }
        }
    }
}

/// Changing one column changes the sum by the difference.
pub proof fn lemma_total_update(widths: Seq<nat>, i: int, w: nat)
    requires
        0 <= i < widths.len(),
    ensures
        total(widths.update(i, w)) == total(widths) - widths[i] + w,
    decreases widths.len(),
{
    let changed = widths.update(i, w);
    if i == widths.len() - 1 {
        assert(changed.drop_last() =~= widths.drop_last());
    } else {
        lemma_total_update(widths.drop_last(), i, w);
        assert(changed.drop_last() =~= widths.drop_last().update(i, w));
    }
}

/// The widths after shrinking: while the line is too wide, the widest column gives up one column,
/// down to a floor.
pub open spec fn shrunk(widths: Seq<nat>) -> Seq<nat>
    decreases total(widths),
    when widths.len() > 0
{
    let i = widest_column(widths);
    if line_width(widths) > 32 && widths[i] > 3 {
        proof {
            lemma_widest_column(widths);
            lemma_total_update(widths, i, (widths[i] - 1) as nat);
        }
        shrunk(widths.update(i, (widths[i] - 1) as nat))
    } else {
        widths
    }
}

/// One row of the table: its cells in their columns, a gutter between neighbours.
pub open spec fn row_text(row: Seq<Seq<char>>, widths: Seq<nat>) -> Seq<char> {
    join(
        Seq::new(widths.len(), |i: int| padded_to(fitted(cell(row, i), widths[i]), widths[i])),
        "  "@,
    )
}

/// The dashed line under the header.
pub open spec fn separator(widths: Seq<nat>) -> Seq<char> {
    join(Seq::new(widths.len(), |i: int| repeated('-', widths[i])), "  "@)
}

/// The lines of a table: the header, the separator, then each row. No header, no lines.
pub open spec fn table_lines(header: Seq<Seq<char>>, rows: Seq<Seq<Seq<char>>>) -> Seq<Seq<char>> {
    if header.len() == 0 {
        Seq::empty()
    } else {
        let widths = shrunk(natural_widths(header, rows));
        seq![row_text(header, widths), separator(widths)] + rows.map_values(
            |row: Seq<Seq<char>>| row_text(row, widths),
        )
    }
}

/// The numbers a vector of `usize` holds.
pub open spec fn nats(v: Seq<usize>) -> Seq<nat> {
    v.map_values(|x: usize| x as nat)
}

proof fn lemma_total_take(widths: Seq<nat>, i: int, j: int)
    requires
        0 <= i <= j <= widths.len(),
    ensures
        total(widths.take(i)) <= total(widths.take(j)),
    decreases j - i,
{
    if i < j {
        lemma_total_take(widths, i, j - 1);
        assert(widths.take(j).drop_last() =~= widths.take(j - 1));
    }
}

/// Whether the columns do not fit the line.
fn overflows(widths: &Vec<usize>) -> (r: bool)
    requires
        widths@.len() > 0,
    ensures
        r == (line_width(nats(widths@)) > 32),
{
    let ghost w = nats(widths@);
    if widths.len() > TABLE_MAX_WIDTH {
        return true;
    }
    let mut sum: usize = TABLE_GUTTER * (widths.len() - 1);
    let mut i: usize = 0;
    while i < widths.len()
        invariant
            i <= widths.len() <= 32,
            w == nats(widths@),
            widths@.len() > 0,
            sum <= 62,
            i > 0 ==> sum <= 32,
            sum == total(w.take(i as int)) + 2 * (w.len() - 1),
        decreases widths.len() - i,
    {
        assert(w.take(i + 1).drop_last() =~= w.take(i as int));
        if widths[i] > TABLE_MAX_WIDTH {
            proof {
                lemma_total_take(w, i + 1, w.len() as int);
                assert(w.take(w.len() as int) =~= w);
            }
            return true;
        }
        sum += widths[i];
        i += 1;
        if sum > TABLE_MAX_WIDTH {
            proof {
                lemma_total_take(w, i as int, w.len() as int);
                assert(w.take(w.len() as int) =~= w);
            }
            return true;
        }
    }
    assert(w.take(i as int) =~= w);
    false
}

/// The last of the widest columns.
fn find_widest(widths: &Vec<usize>) -> (r: usize)
    requires
        widths@.len() > 0,
    ensures
        r == widest_column(nats(widths@)),
        r < widths@.len(),
{
    let ghost w = nats(widths@);
    let mut best: usize = 0;
    let mut i: usize = 1;
    while i < widths.len()
        invariant
            1 <= i <= widths.len(),
            w == nats(widths@),
            best < i,
            best == widest_column(w.take(i as int)),
        decreases widths.len() - i,
    {
        assert(w.take(i + 1).drop_last() =~= w.take(i as int));
        assert(w.take(i as int)[best as int] == widths@[best as int]);
        if widths[i] >= widths[best] {
            best = i;
        }
        i += 1;
    }
    assert(w.take(i as int) =~= w);
    best
}

/// Shrinks the widest columns until the line fits or all are at the floor.
fn shrink(widths: &mut Vec<usize>)
    requires
        old(widths)@.len() > 0,
    ensures
        nats(final(widths)@) == shrunk(nats(old(widths)@)),
{
    while overflows(widths)
        invariant
            widths@.len() > 0,
            shrunk(nats(widths@)) == shrunk(nats(old(widths)@)),
        ensures
            nats(widths@) == shrunk(nats(old(widths)@)),
        decreases total(nats(widths@)),
    {
        let i = find_widest(widths);
        let w = widths[i];
        if w <= TABLE_MIN_COL {
            break;
        }
        let ghost before = nats(widths@);
        widths.set(i, w - 1);
        proof {
            assert(nats(widths@) =~= before.update(i as int, (w - 1) as nat));
            lemma_total_update(before, i as int, (w - 1) as nat);
        }
    }
}

/// The natural width of column `i`.
fn column_width(header: &[String], rows: &[Vec<String>], i: usize) -> (r: usize)
    requires
        i < header@.len(),
    ensures
        r == natural_width(string_views(header@), row_views(rows@), i as int),
{
    let ghost h = string_views(header@);
    let ghost all = seq![h] + row_views(rows@);
    let mut widest = display_width(header[i].as_str());
    let mut j: usize = 0;
    assert(all.take(1).drop_last() =~= Seq::empty());
    assert(all.take(1).last() == h);
    assert(widest_cell(all.take(1), i as int) == widest) by {
        reveal_with_fuel(widest_cell, 2);
    }
    while j < rows.len()
        invariant
            j <= rows.len(),
            i < header@.len(),
            h == string_views(header@),
            all == seq![h] + row_views(rows@),
            widest == widest_cell(all.take(j + 1), i as int),
        decreases rows.len() - j,
    {
        assert(all.take(j + 2).drop_last() =~= all.take(j + 1));
        assert(all.take(j + 2).last() == string_views(rows@[j as int]@));
        if i < rows[j].len() {
            let here = display_width(rows[j][i].as_str());
            if here > widest {
                widest = here;
            }
        }
        j += 1;
    }
    assert(all.take(j + 1) =~= all);
    if widest > 0 {
        widest
    } else {
        1
    }
}

/// One row of the table as text.
fn render_row(row: &[String], widths: &Vec<usize>) -> (r: String)
    ensures
        r@ == row_text(string_views(row@), nats(widths@)),
{
    let ghost w = nats(widths@);
    let ghost cells = string_views(row@);
    let ghost wanted = Seq::new(
        w.len(),
        |i: int| padded_to(fitted(cell(cells, i), w[i]), w[i]),
    );
    let mut parts: Vec<Vec<char>> = Vec::new();
    let mut i: usize = 0;
    while i < widths.len()
        invariant
            i <= widths.len(),
            w == nats(widths@),
            cells == string_views(row@),
            wanted == Seq::new(
                w.len(),
                |i: int| padded_to(fitted(cell(cells, i), w[i]), w[i]),
            ),
            char_views(parts@) == wanted.take(i as int),
        decreases widths.len() - i,
    {
        let ghost before = parts@;
        let part = if i < row.len() {
            fit_cell(row[i].as_str(), widths[i])
        } else {
            assert(""@ =~= Seq::<char>::empty()) by {
                reveal_strlit("");
            }
            fit_cell("", widths[i])
        };
        parts.push(part);
        i += 1;
        assert(char_views(parts@) =~= char_views(before).push(part@));
        assert(char_views(parts@) =~= wanted.take(i as int));
    }
    assert(char_views(parts@).skip(0) =~= wanted);
    text_of(join_from(&parts, 0, "  ").as_slice())
}

/// The dashed line under the header.
fn render_separator(widths: &Vec<usize>) -> (r: String)
    ensures
        r@ == separator(nats(widths@)),
{
    let ghost w = nats(widths@);
    let ghost wanted = Seq::new(w.len(), |i: int| repeated('-', w[i]));
    let mut parts: Vec<Vec<char>> = Vec::new();
    let mut i: usize = 0;
    while i < widths.len()
        invariant
            i <= widths.len(),
            w == nats(widths@),
            wanted == Seq::new(w.len(), |i: int| repeated('-', w[i])),
            char_views(parts@) == wanted.take(i as int),
        decreases widths.len() - i,
    {
        let ghost before = parts@;
        let mut part: Vec<char> = Vec::new();
        push_repeated(&mut part, '-', widths[i]);
        assert(part@ =~= wanted[i as int]);
        parts.push(part);
        i += 1;
        assert(char_views(parts@) =~= char_views(before).push(wanted[i - 1]));
        assert(char_views(parts@) =~= wanted.take(i as int));
    }
    assert(char_views(parts@).skip(0) =~= wanted);
    text_of(join_from(&parts, 0, "  ").as_slice())
}

/// Lays a markdown table out as monospace text lines: the header, a dashed separator, then each
/// body row, all padded to the same width.
pub fn build_table_lines(header: &[String], rows: &[Vec<String>]) -> (r: Vec<String>)
    ensures
        string_views(r@) == table_lines(string_views(header@), row_views(rows@)),
{
    let ghost h = string_views(header@);
    let ghost body = row_views(rows@);
    let mut lines: Vec<String> = Vec::new();
    if header.len() == 0 {
        assert(string_views(lines@) =~= Seq::empty());
        return lines;
    }
    let mut widths: Vec<usize> = Vec::new();
    let mut i: usize = 0;
    while i < header.len()
        invariant
            i <= header.len(),
            h == string_views(header@),
            body == row_views(rows@),
            nats(widths@) == natural_widths(h, body).take(i as int),
        decreases header.len() - i,
    {
        let ghost before = widths@;
        let w = column_width(header, rows, i);
        widths.push(w);
        i += 1;
        assert(nats(widths@) =~= nats(before).push(w as nat));
        assert(nats(widths@) =~= natural_widths(h, body).take(i as int));
    }
    assert(nats(widths@) =~= natural_widths(h, body));
    assert(nats(widths@).len() == widths@.len());
    shrink(&mut widths);
    let ghost w = shrunk(natural_widths(h, body));
    let ghost wanted = table_lines(h, body);
    lines.push(render_row(header, &widths));
    lines.push(render_separator(&widths));
    assert(string_views(lines@) =~= wanted.take(2));
    let mut j: usize = 0;
    while j < rows.len()
        invariant
            j <= rows.len(),
            h.len() > 0,
            body == row_views(rows@),
            w == shrunk(natural_widths(h, body)),
            nats(widths@) == w,
            wanted == table_lines(h, body),
            string_views(lines@) == wanted.take(j + 2),
        decreases rows.len() - j,
    {
        let ghost before = lines@;
        let line = render_row(rows[j].as_slice(), &widths);
        lines.push(line);
        j += 1;
        assert(string_views(lines@) =~= string_views(before).push(line@));
        assert(wanted[j + 1] == row_text(body[j - 1], w));
        assert(string_views(lines@) =~= wanted.take(j + 2));
    }
    assert(string_views(lines@) =~= wanted);
    lines
}

proof fn lemma_longest_prefix_is_prefix(s: Seq<char>, budget: nat) -> (n: int)
    requires
        width(s) > budget,
    ensures
        0 <= n < s.len(),
        longest_prefix(s, budget) == s.take(n),
        width(s.take(n)) <= budget < width(s.take(n + 1)),
    decreases s.len(),
{
    let t = s.drop_last();
    if width(t) <= budget {
        assert(t =~= s.take(s.len() - 1));
        assert(s.take(s.len() as int) =~= s);
        reveal_with_fuel(longest_prefix, 2);
        s.len() - 1
    } else {
        let n = lemma_longest_prefix_is_prefix(t, budget);
        assert(t.take(n) =~= s.take(n));
        assert(t.take(n + 1) =~= s.take(n + 1));
        n
    }
}

/// Truncation never splits a character and never wastes a column it could use: a cell too wide for
/// its column becomes a prefix of whole characters and an ellipsis that together fit, and one more
/// character would not have fitted.
pub proof fn law_truncation_keeps_whole_characters(s: Seq<char>, w: nat)
    requires
        0 < w < width(s),
    ensures
        exists|n: int|
            0 <= n < s.len() && fitted(s, w) == (#[trigger] s.take(n)).push('…') && width(
                s.take(n),
            ) + 1 <= w < width(s.take(n + 1)) + 1,
{
    let n = lemma_longest_prefix_is_prefix(s, (w - 1) as nat);
    assert(fitted(s, w) == s.take(n).push('…'));
}

proof fn lemma_width_push(s: Seq<char>, c: char)
    ensures
        width(s.push(c)) == width(s) + char_width(c),
{
    assert(s.push(c).drop_last() =~= s);
}

proof fn lemma_width_repeated(c: char, n: nat)
    requires
        !is_full_width(c),
    ensures
        width(repeated(c, n)) == n,
    decreases n,
{
    if n > 0 {
        lemma_width_repeated(c, (n - 1) as nat);
        assert(repeated(c, n).drop_last() =~= repeated(c, (n - 1) as nat));
    }
}

proof fn lemma_width_in_column(s: Seq<char>, w: nat)
    ensures
        width(padded_to(fitted(s, w), w)) == w,
{
    let f = fitted(s, w);
    if width(s) > w && w > 0 {
        let n = lemma_longest_prefix_is_prefix(s, (w - 1) as nat);
        lemma_width_push(s.take(n), '…');
    }
    if width(f) < w {
        lemma_width_repeated(' ', (w - width(f)) as nat);
        lemma_width_add(f, repeated(' ', (w - width(f)) as nat));
    }
}

proof fn lemma_width_join(parts: Seq<Seq<char>>, widths: Seq<nat>)
    requires
        parts.len() == widths.len(),
        parts.len() > 0,
        forall|i: int| 0 <= i < parts.len() ==> width(#[trigger] parts[i]) == widths[i],
    ensures
        width(join(parts, "  "@)) == line_width(widths),
    decreases parts.len(),
{
    if parts.len() == 1 {
        reveal_with_fuel(total, 2);
    } else {
        let front = parts.drop_last();
        assert forall|i: int| 0 <= i < front.len() implies width(#[trigger] front[i])
            == widths.drop_last()[i] by {
            assert(front[i] == parts[i]);
        }
        lemma_width_join(front, widths.drop_last());
        reveal_strlit("  ");
        assert("  "@ =~= repeated(' ', 2));
        lemma_width_repeated(' ', 2);
        lemma_width_add(join(front, "  "@), "  "@);
        lemma_width_add(join(front, "  "@) + "  "@, parts.last());
        assert(parts[parts.len() - 1] == parts.last());
    }
}

proof fn lemma_row_text_width(row: Seq<Seq<char>>, widths: Seq<nat>)
    requires
        widths.len() > 0,
    ensures
        width(row_text(row, widths)) == line_width(widths),
{
    let parts = Seq::new(
        widths.len(),
        |i: int| padded_to(fitted(cell(row, i), widths[i]), widths[i]),
    );
    assert forall|i: int| 0 <= i < parts.len() implies width(#[trigger] parts[i])
        == widths[i] by {
        lemma_width_in_column(cell(row, i), widths[i]);
    }
    lemma_width_join(parts, widths);
}

proof fn lemma_shrunk(widths: Seq<nat>)
    requires
        widths.len() > 0,
    ensures
        shrunk(widths).len() == widths.len(),
        forall|i: int|
            0 <= i < widths.len() ==> #[trigger] shrunk(widths)[i] <= widths[i] && (shrunk(
                widths,
            )[i] >= 3 || shrunk(widths)[i] == widths[i]),
        line_width(shrunk(widths)) <= 32 || forall|i: int|
            0 <= i < widths.len() ==> #[trigger] shrunk(widths)[i] <= 3,
    decreases total(widths),
{
    lemma_widest_column(widths);
    let i = widest_column(widths);
    if line_width(widths) > 32 && widths[i] > 3 {
        lemma_total_update(widths, i, (widths[i] - 1) as nat);
        lemma_shrunk(widths.update(i, (widths[i] - 1) as nat));
    }
}

proof fn lemma_total_at_most(widths: Seq<nat>, bound: nat)
    requires
        forall|i: int| 0 <= i < widths.len() ==> #[trigger] widths[i] <= bound,
    ensures
        total(widths) <= widths.len() * bound,
    decreases widths.len(),
{
    if widths.len() > 0 {
        lemma_total_at_most(widths.drop_last(), bound);
        assert(widths.len() * bound == (widths.len() - 1) * bound + bound) by (nonlinear_arith)
            requires
                widths.len() > 0,
        ;
    }
}

/// Every line of a table, the separator too, takes the same number of columns.
pub proof fn law_table_lines_align(header: Seq<Seq<char>>, rows: Seq<Seq<Seq<char>>>)
    ensures
        forall|i: int|
            0 <= i < table_lines(header, rows).len() ==> width(#[trigger] table_lines(header, rows)[i])
                == line_width(shrunk(natural_widths(header, rows))),
{
    if header.len() > 0 {
        let widths = shrunk(natural_widths(header, rows));
        lemma_shrunk(natural_widths(header, rows));
        let lines = table_lines(header, rows);
        assert forall|i: int| 0 <= i < lines.len() implies width(#[trigger] lines[i])
            == line_width(widths) by {
            if i == 0 {
                lemma_row_text_width(header, widths);
            } else if i == 1 {
                let parts = Seq::new(widths.len(), |k: int| repeated('-', widths[k]));
                assert forall|k: int| 0 <= k < parts.len() implies width(#[trigger] parts[k])
                    == widths[k] by {
                    lemma_width_repeated('-', widths[k]);
                }
                lemma_width_join(parts, widths);
            } else {
                lemma_row_text_width(rows[i - 2], widths);
            }
        }
    }
}

/// A table of at most six columns fits the roll: none of its lines takes more than
/// [`TABLE_MAX_WIDTH`] columns.
pub proof fn law_six_columns_fit(header: Seq<Seq<char>>, rows: Seq<Seq<Seq<char>>>)
    requires
        header.len() <= 6,
    ensures
        forall|i: int|
            0 <= i < table_lines(header, rows).len() ==> width(#[trigger] table_lines(header, rows)[i])
                <= TABLE_MAX_WIDTH,
{
    law_table_lines_align(header, rows);
    if header.len() > 0 {
        let natural = natural_widths(header, rows);
        lemma_shrunk(natural);
        if line_width(shrunk(natural)) > 32 {
            lemma_total_at_most(shrunk(natural), 3);
        }
    }
}

proof fn lemma_widest_cell(rows: Seq<Seq<Seq<char>>>, i: int, r: int)
    requires
        0 <= r < rows.len(),
    ensures
        width(cell(rows[r], i)) <= widest_cell(rows, i),
    decreases rows.len(),
{
    if r < rows.len() - 1 {
        lemma_widest_cell(rows.drop_last(), i, r);
        assert(rows.drop_last()[r] == rows[r]);
    }
}

/// Nothing is cut from a table whose natural widths fit the line: every cell of every row is
/// printed whole.
pub proof fn law_fitting_table_is_not_truncated(
    header: Seq<Seq<char>>,
    rows: Seq<Seq<Seq<char>>>,
    i: int,
)
    requires
        0 <= i < header.len(),
        line_width(natural_widths(header, rows)) <= TABLE_MAX_WIDTH,
    ensures
        fitted(header[i], shrunk(natural_widths(header, rows))[i]) == header[i],
        forall|r: int|
            0 <= r < rows.len() ==> fitted(
                cell(#[trigger] rows[r], i),
                shrunk(natural_widths(header, rows))[i],
            ) == cell(rows[r], i),
{
    let all = seq![header] + rows;
    lemma_widest_cell(all, i, 0);
    assert forall|r: int| 0 <= r < rows.len() implies fitted(
        cell(#[trigger] rows[r], i),
        natural_widths(header, rows)[i],
    ) == cell(rows[r], i) by {
        lemma_widest_cell(all, i, r + 1);
        assert(all[r + 1] == rows[r]);
    }
}

proof fn lemma_total_at_least(widths: Seq<nat>, bound: nat)
    requires
        forall|i: int| 0 <= i < widths.len() ==> #[trigger] widths[i] >= bound,
    ensures
        total(widths) >= widths.len() * bound,
    decreases widths.len(),
{
    if widths.len() > 0 {
        lemma_total_at_least(widths.drop_last(), bound);
        assert(widths.len() * bound == (widths.len() - 1) * bound + bound) by (nonlinear_arith)
            requires
                widths.len() > 0,
        ;
    }
}

/// Seven or more columns that are all at least as wide as the floor overflow the line: no cell is
/// dropped, the renderer wraps the rows instead.
pub proof fn law_seven_columns_overflow(header: Seq<Seq<char>>, rows: Seq<Seq<Seq<char>>>)
    requires
        header.len() >= 7,
        forall|i: int| 0 <= i < header.len() ==> #[trigger] natural_widths(header, rows)[i] >= 3,
    ensures
        forall|i: int|
            0 <= i < table_lines(header, rows).len() ==> width(#[trigger] table_lines(header, rows)[i])
                > TABLE_MAX_WIDTH,
{
    law_table_lines_align(header, rows);
    let natural = natural_widths(header, rows);
    lemma_shrunk(natural);
    lemma_total_at_least(shrunk(natural), 3);
}

/// A table prints one line per row, one for its header and one for the separator; without a
/// header it prints nothing.
pub proof fn law_table_line_count(header: Seq<Seq<char>>, rows: Seq<Seq<Seq<char>>>)
    ensures
        table_lines(header, rows).len() == if header.len() == 0 {
            0
        } else {
            rows.len() + 2
        },
{
}

/// A character takes two display columns exactly where it is one of the East-Asian full-width
/// ones, by its code point, and one column everywhere else. A text takes what its parts take.
pub proof fn law_display_columns(c: char, a: Seq<char>, b: Seq<char>)
    ensures
        width(seq![c]) == if 0x3000 <= c as int <= 0x30ff || 0x31f0 <= c as int <= 0x31ff || 0x3400
            <= c as int <= 0x4dbf || 0x4e00 <= c as int <= 0x9fff || 0xac00 <= c as int <= 0xd7a3
            || 0xf900 <= c as int <= 0xfaff || 0xff00 <= c as int <= 0xff60 || 0xffe0 <= c as int
            <= 0xffe6 || (0x1aff0 <= c as int <= 0x1affe && c as int != 0x1aff4 && c as int
            != 0x1affc) || 0x1b000 <= c as int <= 0x1b122 || c as int == 0x1b132 || 0x1b150
            <= c as int <= 0x1b152 || c as int == 0x1b155 || 0x1b164 <= c as int <= 0x1b167
            || 0x20000 <= c as int <= 0x2a6df || 0x2a700 <= c as int <= 0x2b739 || 0x2b740
            <= c as int <= 0x2b81d || 0x2b820 <= c as int <= 0x2cea1 || 0x2ceb0 <= c as int
            <= 0x2ebe0 || 0x2ebf0 <= c as int <= 0x2ee5d || 0x2f800 <= c as int <= 0x2fa1d
            || 0x30000 <= c as int <= 0x3134a || 0x31350 <= c as int <= 0x323af {
            2nat
        } else {
            1
        },
        width(Seq::empty()) == 0,
        width(a + b) == width(a) + width(b),
{
    lemma_width_add(a, b);
    assert(seq![c].drop_last() =~= Seq::empty());
    assert(width(seq![c]) == width(Seq::<char>::empty()) + char_width(c));
}

/// A column is as wide as its widest cell, and at least 1: no cell of the header or of a row asks
/// for more, and one asks for just that.
pub proof fn law_natural_widths(header: Seq<Seq<char>>, rows: Seq<Seq<Seq<char>>>, i: int)
    requires
        0 <= i < header.len(),
    ensures
        ({
            let w = natural_widths(header, rows)[i];
            &&& natural_widths(header, rows).len() == header.len()
            &&& w >= 1
            &&& width(header[i]) <= w
            &&& forall|r: int|
                0 <= r < rows.len() && i < rows[r].len() ==> width(#[trigger] rows[r][i]) <= w
            &&& w == 1 || w == width(header[i]) || exists|r: int|
                0 <= r < rows.len() && i < rows[r].len() && w == width(#[trigger] rows[r][i])
        }),
{
    let all = seq![header] + rows;
    let w = natural_widths(header, rows)[i];
    lemma_widest_cell(all, i, 0);
    assert forall|r: int| 0 <= r < rows.len() && i < rows[r].len() implies width(
        #[trigger] rows[r][i],
    ) <= w by {
        lemma_widest_cell(all, i, r + 1);
        assert(all[r + 1] == rows[r]);
    }
    if w > 1 {
        let r = lemma_widest_is_attained(all, i);
        if r > 0 {
            assert(all[r] == rows[r - 1]);
            assert(width(Seq::<char>::empty()) == 0);
            assert(w == width(rows[r - 1][i]));
        }
    }
}

proof fn lemma_widest_is_attained(rows: Seq<Seq<Seq<char>>>, i: int) -> (r: int)
    requires
        widest_cell(rows, i) > 0,
    ensures
        0 <= r < rows.len(),
        width(cell(rows[r], i)) == widest_cell(rows, i),
    decreases rows.len(),
{
    let front = rows.drop_last();
    if width(cell(rows.last(), i)) > widest_cell(front, i) {
        rows.len() - 1
    } else {
        let r = lemma_widest_is_attained(front, i);
        assert(front[r] == rows[r]);
        r
    }
}

/// Shrinking stops as soon as the line fits: a line that fits is left alone, and one that does not
/// ends up exactly as wide as the paper, unless no column can give up any more. So no cell is cut
/// while paper is left over.
pub proof fn law_shrinking_uses_the_paper(widths: Seq<nat>)
    requires
        widths.len() > 0,
    ensures
        shrunk(widths).len() == widths.len(),
        total(widths) + 2 * (widths.len() - 1) <= 32 ==> shrunk(widths) == widths,
        total(widths) + 2 * (widths.len() - 1) > 32 ==> {
            ||| total(shrunk(widths)) + 2 * (widths.len() - 1) == 32
            ||| total(shrunk(widths)) + 2 * (widths.len() - 1) > 32 && forall|i: int|
                0 <= i < widths.len() ==> #[trigger] shrunk(widths)[i] <= 3
        },
    decreases total(widths),
{
    lemma_widest_column(widths);
    let i = widest_column(widths);
    if line_width(widths) > 32 && widths[i] > 3 {
        let less = widths.update(i, (widths[i] - 1) as nat);
        lemma_total_update(widths, i, (widths[i] - 1) as nat);
        law_shrinking_uses_the_paper(less);
    }
}

proof fn lemma_last_of_the_widest(widths: Seq<nat>, j: int)
    requires
        widths.len() > 0,
        widest_column(widths) < j < widths.len(),
    ensures
        widths[j] < widths[widest_column(widths)],
    decreases widths.len(),
{
    lemma_widest_column(widths);
    let rest = widths.drop_last();
    if widths.len() > 1 && j < widths.len() - 1 {
        lemma_widest_column(rest);
        if widest_column(rest) < j {
            lemma_last_of_the_widest(rest, j);
        }
        assert(rest[j] == widths[j]);
    }
}

/// The widest columns pay first: a column that gave up any of its width is down to the level of
/// the others, the later of two equal columns gives up first, and no column goes below the floor
/// of 3. A column that is not among the widest keeps its width.
pub proof fn law_widest_columns_pay_first(widths: Seq<nat>, i: int, j: int)
    requires
        0 <= i < widths.len(),
        0 <= j < widths.len(),
        shrunk(widths)[i] < widths[i],
    ensures
        shrunk(widths)[i] >= 3,
        shrunk(widths)[j] <= shrunk(widths)[i] + 1,
        i < j ==> shrunk(widths)[j] <= shrunk(widths)[i],
        widths[j] < shrunk(widths)[i] ==> shrunk(widths)[j] == widths[j],
    decreases total(widths),
{
    lemma_widest_column(widths);
    let k = widest_column(widths);
    if line_width(widths) > 32 && widths[k] > 3 {
        let less = widths.update(k, (widths[k] - 1) as nat);
        lemma_total_update(widths, k, (widths[k] - 1) as nat);
        lemma_shrunk(less);
        if k < j {
            lemma_last_of_the_widest(widths, j);
        }
        if shrunk(less)[i] < less[i] {
            law_widest_columns_pay_first(less, i, j);
        }
        if shrunk(less)[j] < less[j] {
            law_widest_columns_pay_first(less, j, i);
        }
    }
}

/// Whether `part` is what a column of width `w` shows of `text`: the text and spaces behind it
/// where it fits, else as many of its first characters as fit beside an ellipsis, and a space
/// where a wide character left one column over.
pub open spec fn shows(part: Seq<char>, text: Seq<char>, w: nat) -> bool {
    &&& width(part) == w
    &&& width(text) <= w ==> part.len() >= text.len() && part.take(text.len() as int) == text
        && forall|i: int| text.len() <= i < part.len() ==> #[trigger] part[i] == ' '
    &&& width(text) > w && w > 0 ==> exists|n: int|
        0 <= n < text.len() && n < part.len() && #[trigger] text.take(n) == part.take(n) && part[n]
            == '…' && width(text.take(n + 1)) > w - 1 && forall|i: int|
            n < i < part.len() ==> #[trigger] part[i] == ' '
}

proof fn lemma_shows(text: Seq<char>, w: nat)
    ensures
        shows(padded_to(fitted(text, w), w), text, w),
{
    let part = padded_to(fitted(text, w), w);
    lemma_width_in_column(text, w);
    if width(text) <= w {
        assert(part.take(text.len() as int) =~= text);
    } else if w > 0 {
        let n = lemma_longest_prefix_is_prefix(text, (w - 1) as nat);
        assert(fitted(text, w) == text.take(n).push('…'));
        assert(text.take(n) =~= part.take(n));
        assert(part[n] == '…');
    }
}

/// Where column `i` of a line begins, in display columns: behind the columns before it and a
/// gutter of two for each.
pub open spec fn column_start(widths: Seq<nat>, i: int) -> int {
    total(widths.take(i)) + 2 * i
}

/// Whether `line` shows `part` in the columns from `start` on, two spaces away from its neighbours.
pub open spec fn stands_at(line: Seq<char>, start: int, part: Seq<char>) -> bool {
    exists|before: Seq<char>, after: Seq<char>|
        #![trigger before + part + after]
        {
            &&& line == before + part + after
            &&& width(before) == start
            &&& before.len() > 0 ==> before.len() >= 2 && before[before.len() - 1] == ' '
                && before[before.len() - 2] == ' '
            &&& after.len() > 0 ==> after.len() >= 2 && after[0] == ' ' && after[1] == ' '
        }
}

proof fn lemma_join_at(parts: Seq<Seq<char>>, widths: Seq<nat>, i: int)
    requires
        parts.len() == widths.len(),
        0 <= i < parts.len(),
        forall|k: int| 0 <= k < parts.len() ==> width(#[trigger] parts[k]) == widths[k],
    ensures
        stands_at(join(parts, "  "@), column_start(widths, i), parts[i]),
    decreases parts.len(),
{
    reveal_strlit("  ");
    let line = join(parts, "  "@);
    let front = parts.drop_last();
    if i == parts.len() - 1 {
        assert(widths.take(i) =~= widths.drop_last());
        let nothing = Seq::<char>::empty();
        if i == 0 {
            assert(widths.take(0) =~= Seq::empty());
            assert(line =~= nothing + parts[i] + nothing);
        } else {
            assert forall|k: int| 0 <= k < front.len() implies width(#[trigger] front[k])
                == widths.drop_last()[k] by {
                assert(front[k] == parts[k]);
            }
            lemma_width_join(front, widths.drop_last());
            let before = join(front, "  "@) + "  "@;
            lemma_width_add(join(front, "  "@), "  "@);
            assert("  "@ =~= repeated(' ', 2));
            lemma_width_repeated(' ', 2);
            assert(line =~= before + parts[i] + nothing);
        }
    } else {
        assert forall|k: int| 0 <= k < front.len() implies width(#[trigger] front[k])
            == widths.drop_last()[k] by {
            assert(front[k] == parts[k]);
        }
        lemma_join_at(front, widths.drop_last(), i);
        assert(front[i] == parts[i]);
        assert(widths.drop_last().take(i) =~= widths.take(i));
        let (before, after): (Seq<char>, Seq<char>) = choose|before: Seq<char>, after: Seq<char>|
            #![trigger before + front[i] + after]
            {
                &&& join(front, "  "@) == before + front[i] + after
                &&& width(before) == column_start(widths.drop_last(), i)
                &&& before.len() > 0 ==> before.len() >= 2 && before[before.len() - 1] == ' '
                    && before[before.len() - 2] == ' '
                &&& after.len() > 0 ==> after.len() >= 2 && after[0] == ' ' && after[1] == ' '
            };
        let more = after + "  "@ + parts.last();
        assert(line =~= before + parts[i] + more);
    }
}

/// Every cell stands in its column: in the line of its row, in the columns that its place in the
/// row gives it, it is shown as far as the column's width lets it, and so is the header above, over
/// dashes as wide as the column. A cell that a row lacks is blank; one beyond the header is not
/// shown.
pub proof fn law_cells_stand_in_their_columns(
    header: Seq<Seq<char>>,
    rows: Seq<Seq<Seq<char>>>,
    r: int,
    i: int,
)
    requires
        0 <= i < header.len(),
        0 <= r < rows.len(),
    ensures
        ({
            let widths = shrunk(natural_widths(header, rows));
            let lines = table_lines(header, rows);
            let start = column_start(widths, i);
            let text = if i < rows[r].len() {
                rows[r][i]
            } else {
                Seq::empty()
            };
            &&& exists|part: Seq<char>| #[trigger]
                stands_at(lines[0], start, part) && shows(part, header[i], widths[i])
            &&& exists|part: Seq<char>| #[trigger]
                stands_at(lines[r + 2], start, part) && shows(part, text, widths[i])
            &&& exists|part: Seq<char>| #[trigger]
                stands_at(lines[1], start, part) && part.len() == widths[i] && forall|k: int|
                0 <= k < part.len() ==> #[trigger] part[k] == '-'
        }),
{
    let natural = natural_widths(header, rows);
    let widths = shrunk(natural);
    lemma_shrunk(natural);
    lemma_row_at(header, widths, i);
    lemma_row_at(rows[r], widths, i);
    let dashes = Seq::new(widths.len(), |k: int| repeated('-', widths[k]));
    assert forall|k: int| 0 <= k < dashes.len() implies width(#[trigger] dashes[k]) == widths[k] by {
        lemma_width_repeated('-', widths[k]);
    }
    lemma_join_at(dashes, widths, i);
    let lines = table_lines(header, rows);
    assert(lines[0] == row_text(header, widths));
    assert(lines[1] == separator(widths));
    assert(lines[r + 2] == row_text(rows[r], widths));
}

proof fn lemma_row_at(row: Seq<Seq<char>>, widths: Seq<nat>, i: int)
    requires
        0 <= i < widths.len(),
    ensures
        exists|part: Seq<char>| #[trigger]
            stands_at(row_text(row, widths), column_start(widths, i), part) && shows(
                part,
                cell(row, i),
                widths[i],
            ),
{
    let parts = Seq::new(
        widths.len(),
        |k: int| padded_to(fitted(cell(row, k), widths[k]), widths[k]),
    );
    assert forall|k: int| 0 <= k < parts.len() implies width(#[trigger] parts[k]) == widths[k] by {
        lemma_width_in_column(cell(row, k), widths[k]);
    }
    lemma_join_at(parts, widths, i);
    lemma_shows(cell(row, i), widths[i]);
    assert(row_text(row, widths) =~= join(parts, "  "@));
    assert(stands_at(row_text(row, widths), column_start(widths, i), parts[i]));
    assert(shows(parts[i], cell(row, i), widths[i]));
}

/// A table that had to be cut fills the paper: where its natural widths do not fit, every line
/// takes all 32 columns or more, and more only where every column is at the floor.
pub proof fn law_cut_tables_fill_the_paper(
    header: Seq<Seq<char>>,
    rows: Seq<Seq<Seq<char>>>,
    i: int,
)
    requires
        0 <= i < rows.len() + 2,
        header.len() > 0,
        total(natural_widths(header, rows)) + 2 * (header.len() - 1) > 32,
    ensures
        width(table_lines(header, rows)[i]) >= 32,
        width(table_lines(header, rows)[i]) == 32 || forall|k: int|
            0 <= k < header.len() ==> #[trigger] shrunk(natural_widths(header, rows))[k] <= 3,
{
    law_table_lines_align(header, rows);
    law_shrinking_uses_the_paper(natural_widths(header, rows));
    assert(table_lines(header, rows).len() == rows.len() + 2);
}

} // verus!
