//! Text as sequences of characters: trimming, splitting, number forms.

use vstd::prelude::*;

verus! {

/// `std::string::String::push` appends the character at the end of the text.
pub assume_specification[ String::push ](s: &mut String, c: char)
    ensures
        final(s)@ == old(s)@.push(c),
;

/// Unicode `White_Space` characters.
pub open spec fn is_space(c: char) -> bool {
    ||| '\u{9}' <= c <= '\u{d}'
    ||| c == ' '
    ||| c == '\u{85}'
    ||| c == '\u{a0}'
    ||| c == '\u{1680}'
    ||| '\u{2000}' <= c <= '\u{200a}'
    ||| c == '\u{2028}'
    ||| c == '\u{2029}'
    ||| c == '\u{202f}'
    ||| c == '\u{205f}'
    ||| c == '\u{3000}'
}

/// Whether `c` is a Unicode `White_Space` character.
pub fn is_whitespace(c: char) -> (r: bool)
    ensures
        r == is_space(c),
{
    ('\u{9}' <= c && c <= '\u{d}') || c == ' ' || c == '\u{85}' || c == '\u{a0}' || c == '\u{1680}'
        || ('\u{2000}' <= c && c <= '\u{200a}') || c == '\u{2028}' || c == '\u{2029}'
        || c == '\u{202f}' || c == '\u{205f}' || c == '\u{3000}'
}

/// The characters of `s`, in order.
pub fn chars_of(s: &str) -> (r: Vec<char>)
    ensures
        r@ == s@,
{
    let mut out: Vec<char> = Vec::new();
    for c in it: s.chars()
        invariant
            it.seq() == s@,
            out@ == s@.take(it.index()),
    {
        out.push(c);
        assert(out@ =~= s@.take(it.index() + 1));
    }
    assert(s@.take(s@.len() as int) =~= s@);
    out
}

/// The string made of `chars`.
pub fn text_of(chars: &[char]) -> (r: String)
    ensures
        r@ == chars@,
{
    let mut out = String::new();
    let mut i: usize = 0;
    while i < chars.len()
        invariant
            i <= chars.len(),
            out@ == chars@.take(i as int),
        decreases chars.len() - i,
    {
        out.push(chars[i]);
        i += 1;
        assert(out@ =~= chars@.take(i as int));
    }
    assert(chars@.take(i as int) =~= chars@);
    out
}

/// The characters of `a` followed by those of `b`.
pub fn append_chars(a: &mut Vec<char>, b: &[char])
    ensures
        final(a)@ == old(a)@ + b@,
{
    let mut i: usize = 0;
    while i < b.len()
        invariant
            i <= b.len(),
            a@ == old(a)@ + b@.take(i as int),
        decreases b.len() - i,
    {
        a.push(b[i]);
        i += 1;
        assert(a@ =~= old(a)@ + b@.take(i as int));
    }
    assert(b@.take(i as int) =~= b@);
}

/// Appends the characters of `s`.
pub fn push_text(out: &mut Vec<char>, s: &str)
    ensures
        final(out)@ == old(out)@ + s@,
{
    let chars = chars_of(s);
    append_chars(out, chars.as_slice());
}

/// Whether the two runs of characters are the same.
pub fn same_chars(a: &[char], b: &[char]) -> (r: bool)
    ensures
        r == (a@ == b@),
{
    if a.len() != b.len() {
        return false;
    }
    let mut i: usize = 0;
    while i < a.len()
        invariant
            i <= a.len(),
            a.len() == b.len(),
            forall|j: int| 0 <= j < i ==> a@[j] == b@[j],
        decreases a.len() - i,
    {
        if a[i] != b[i] {
            return false;
        }
        i += 1;
    }
    assert(a@ =~= b@);
    true
}

/// Whether `s` reads `literal`.
pub fn reads(s: &[char], literal: &str) -> (r: bool)
    ensures
        r == (s@ == literal@),
{
    let wanted = chars_of(literal);
    same_chars(s, wanted.as_slice())
}

/// Whether `s` begins with `prefix`.
pub open spec fn starts_with(s: Seq<char>, prefix: Seq<char>) -> bool {
    prefix.len() <= s.len() && s.take(prefix.len() as int) == prefix
}

/// Whether `s` begins with the characters of `literal`.
pub fn begins(s: &[char], literal: &str) -> (r: bool)
    ensures
        r == starts_with(s@, literal@),
{
    let wanted = chars_of(literal);
    if wanted.len() > s.len() {
        return false;
    }
    same_chars(&s[0..wanted.len()], wanted.as_slice())
}

/// Whether `c` occurs in `s`.
pub fn has_char(s: &[char], c: char) -> (r: bool)
    ensures
        r == s@.contains(c),
{
    let mut i: usize = 0;
    while i < s.len()
        invariant
            i <= s.len(),
            forall|j: int| 0 <= j < i ==> s@[j] != c,
        decreases s.len() - i,
    {
        if s[i] == c {
            assert(s@[i as int] == c);
            return true;
        }
        i += 1;
    }
    false
}

/// The index of the first `c` in `s`, the length of `s` where there is none.
pub open spec fn find(s: Seq<char>, c: char) -> nat
    decreases s.len(),
{
    if s.len() == 0 || s.first() == c {
        0
    } else {
        1 + find(s.drop_first(), c)
    }
}

/// The index of the first `c` in `s`, the length of `s` where there is none.
pub fn find_char(s: &[char], c: char) -> (r: usize)
    ensures
        r == find(s@, c),
        r <= s@.len(),
{
    let mut i: usize = 0;
    assert(s@.skip(0) =~= s@);
    while i < s.len() && s[i] != c
        invariant
            i <= s.len(),
            i + find(s@.skip(i as int), c) == find(s@, c),
        decreases s.len() - i,
    {
        assert(s@.skip(i as int).drop_first() =~= s@.skip(i + 1));
        i += 1;
    }
    i
}

/// `s` without its leading white space.
pub open spec fn trim_start(s: Seq<char>) -> Seq<char>
    decreases s.len(),
{
    if s.len() > 0 && is_space(s.first()) {
        trim_start(s.drop_first())
    } else {
        s
    }
}

/// `s` without its trailing white space.
pub open spec fn trim_end(s: Seq<char>) -> Seq<char>
    decreases s.len(),
{
    if s.len() > 0 && is_space(s.last()) {
        trim_end(s.drop_last())
    } else {
        s
    }
}

/// `s` without white space at either end.
pub open spec fn trim(s: Seq<char>) -> Seq<char> {
    trim_end(trim_start(s))
}

/// The part of `s` between its leading and trailing white space.
pub fn trimmed(s: &[char]) -> (r: &[char])
    ensures
        r@ == trim(s@),
{
    let mut lo: usize = 0;
    assert(s@.skip(0) =~= s@);
    while lo < s.len() && is_whitespace(s[lo])
        invariant
            lo <= s.len(),
            trim_start(s@) == trim_start(s@.skip(lo as int)),
        decreases s.len() - lo,
    {
        assert(s@.skip(lo as int).drop_first() =~= s@.skip(lo + 1));
        lo += 1;
    }
    let mut hi: usize = s.len();
    assert(s@.subrange(lo as int, hi as int) =~= s@.skip(lo as int));
    while lo < hi && is_whitespace(s[hi - 1])
        invariant
            lo <= hi <= s.len(),
            trim(s@) == trim_end(s@.subrange(lo as int, hi as int)),
        decreases hi - lo,
    {
        assert(s@.subrange(lo as int, hi as int).drop_last() =~= s@.subrange(lo as int, hi - 1));
        hi -= 1;
    }
    &s[lo..hi]
}

/// The ASCII lower case of `c`; other characters are kept.
pub open spec fn lower(c: char) -> char {
    if 'A' <= c <= 'Z' {
        ((c as u8) + 32) as u8 as char
    } else {
        c
    }
}

/// `s` in ASCII lower case.
pub open spec fn lowered(s: Seq<char>) -> Seq<char> {
    s.map_values(|c: char| lower(c))
}

/// `s` in ASCII lower case.
pub fn to_lower(s: &[char]) -> (r: Vec<char>)
    ensures
        r@ == lowered(s@),
{
    let mut out: Vec<char> = Vec::new();
    let mut i: usize = 0;
    while i < s.len()
        invariant
            i <= s.len(),
            out@ == lowered(s@.take(i as int)),
        decreases s.len() - i,
    {
        let c = s[i];
        if 'A' <= c && c <= 'Z' {
            out.push(((c as u8) + 32) as char);
        } else {
            out.push(c);
        }
        i += 1;
        assert(out@ =~= lowered(s@.take(i as int)));
    }
    assert(s@.take(i as int) =~= s@);
    out
}

/// The runs of non-space characters that `s` has completed, and the one it ends in.
pub open spec fn word_runs(s: Seq<char>) -> (Seq<Seq<char>>, Seq<char>)
    decreases s.len(),
{
    if s.len() == 0 {
        (Seq::empty(), Seq::empty())
    } else {
        let (done, run) = word_runs(s.drop_last());
        if !is_space(s.last()) {
            (done, run.push(s.last()))
        } else if run.len() > 0 {
            (done.push(run), Seq::empty())
        } else {
            (done, run)
        }
    }
}

/// The maximal runs of non-space characters in `s`.
pub open spec fn words(s: Seq<char>) -> Seq<Seq<char>> {
    let (done, run) = word_runs(s);
    if run.len() > 0 {
        done.push(run)
    } else {
        done
    }
}

/// The character sequences that `parts` hold.
pub open spec fn char_views(parts: Seq<Vec<char>>) -> Seq<Seq<char>> {
    parts.map_values(|p: Vec<char>| p@)
}

/// The words of `s`, which white space separates.
pub fn split_words(s: &[char]) -> (r: Vec<Vec<char>>)
    ensures
        char_views(r@) == words(s@),
{
    let mut done: Vec<Vec<char>> = Vec::new();
    let mut run: Vec<char> = Vec::new();
    let mut i: usize = 0;
    assert(char_views(done@) =~= Seq::empty());
    while i < s.len()
        invariant
            i <= s.len(),
            (char_views(done@), run@) == word_runs(s@.take(i as int)),
        decreases s.len() - i,
    {
        assert(s@.take(i + 1).drop_last() =~= s@.take(i as int));
        let ghost before = done@;
        if !is_whitespace(s[i]) {
            run.push(s[i]);
        } else if run.len() > 0 {
            let ghost closed = run@;
            done.push(run);
            assert(char_views(done@) =~= char_views(before).push(closed));
            run = Vec::new();
            assert(run@ =~= Seq::empty());
        }
        i += 1;
    }
    assert(s@.take(i as int) =~= s@);
    if run.len() > 0 {
        let ghost before = done@;
        let ghost closed = run@;
        done.push(run);
        assert(char_views(done@) =~= char_views(before).push(closed));
    }
    done
}

/// The pieces that `sep` has closed in `s`, and the open one.
pub open spec fn split_runs(s: Seq<char>, sep: char) -> (Seq<Seq<char>>, Seq<char>)
    decreases s.len(),
{
    if s.len() == 0 {
        (Seq::empty(), Seq::empty())
    } else {
        let (done, run) = split_runs(s.drop_last(), sep);
        if s.last() == sep {
            (done.push(run), Seq::empty())
        } else {
            (done, run.push(s.last()))
        }
    }
}

/// The pieces of `s` between the occurrences of `sep`: one more than there are of those.
pub open spec fn split(s: Seq<char>, sep: char) -> Seq<Seq<char>> {
    split_runs(s, sep).0.push(split_runs(s, sep).1)
}

/// The pieces of `s` between the occurrences of `sep`.
pub fn split_on(s: &[char], sep: char) -> (r: Vec<Vec<char>>)
    ensures
        char_views(r@) == split(s@, sep),
{
    let mut done: Vec<Vec<char>> = Vec::new();
    let mut run: Vec<char> = Vec::new();
    let mut i: usize = 0;
    assert(char_views(done@) =~= Seq::empty());
    while i < s.len()
        invariant
            i <= s.len(),
            (char_views(done@), run@) == split_runs(s@.take(i as int), sep),
        decreases s.len() - i,
    {
        assert(s@.take(i + 1).drop_last() =~= s@.take(i as int));
        let ghost before = done@;
        if s[i] == sep {
            let ghost closed = run@;
            done.push(run);
            assert(char_views(done@) =~= char_views(before).push(closed));
            run = Vec::new();
            assert(run@ =~= Seq::empty());
        } else {
            run.push(s[i]);
        }
        i += 1;
    }
    assert(s@.take(i as int) =~= s@);
    let ghost before = done@;
    let ghost closed = run@;
    done.push(run);
    assert(char_views(done@) =~= char_views(before).push(closed));
    done
}

/// A line without the carriage return before its line feed.
pub open spec fn strip_return(line: Seq<char>) -> Seq<char> {
    if line.len() > 0 && line.last() == '\r' {
        line.drop_last()
    } else {
        line
    }
}

/// The lines of `s`: each ends at a line feed, with the carriage return before it dropped; an
/// unterminated last line counts unless it is empty.
pub open spec fn lines(s: Seq<char>) -> Seq<Seq<char>> {
    let (done, open) = split_runs(s, '\n');
    let closed = done.map_values(|line: Seq<char>| strip_return(line));
    if open.len() > 0 {
        closed.push(open)
    } else {
        closed
    }
}

/// The lines of `s`.
pub fn split_lines(s: &[char]) -> (r: Vec<Vec<char>>)
    ensures
        char_views(r@) == lines(s@),
{
    let mut pieces = split_on(s, '\n');
    let ghost (done, open) = split_runs(s@, '\n');
    assert(char_views(pieces@).len() == pieces@.len());
    assert(char_views(pieces@)[pieces@.len() - 1] == open);
    let ghost all = pieces@;
    let last = pieces.pop();
    assert forall|j: int| 0 <= j < pieces@.len() implies char_views(pieces@)[j] == done[j] by {
        assert(char_views(all)[j] == done.push(open)[j]);
    }
    assert(char_views(pieces@) =~= done);
    let ghost pieces0 = pieces@;
    let mut i: usize = 0;
    while i < pieces.len()
        invariant
            i <= pieces.len(),
            pieces@.len() == pieces0.len(),
            char_views(pieces0) == done,
            forall|j: int| 0 <= j < i ==> (#[trigger] pieces@[j])@ == strip_return(done[j]),
            forall|j: int| i <= j < pieces.len() ==> (#[trigger] pieces@[j])@ == done[j],
        decreases pieces.len() - i,
    {
        let n = pieces[i].len();
        if n > 0 && pieces[i][n - 1] == '\r' {
            let line = slice_vec(pieces[i].as_slice(), n - 1);
            assert(line@ =~= strip_return(done[i as int]));
            pieces.set(i, line);
        }
        i += 1;
    }
    let ghost closed = done.map_values(|line: Seq<char>| strip_return(line));
    assert(char_views(pieces@) =~= closed);
    if let Some(line) = last {
        if line.len() > 0 {
            let ghost before = pieces@;
            pieces.push(line);
            assert(char_views(pieces@) =~= char_views(before).push(open));
        }
    }
    pieces
}

/// The first `n` characters of `s`.
pub fn slice_vec(s: &[char], n: usize) -> (r: Vec<char>)
    requires
        n <= s@.len(),
    ensures
        r@ == s@.take(n as int),
{
    let mut out: Vec<char> = Vec::new();
    append_chars(&mut out, &s[0..n]);
    assert(out@ =~= s@.take(n as int));
    out
}

/// `parts` with `sep` between neighbours.
pub open spec fn join(parts: Seq<Seq<char>>, sep: Seq<char>) -> Seq<char>
    decreases parts.len(),
{
    if parts.len() == 0 {
        Seq::empty()
    } else if parts.len() == 1 {
        parts[0]
    } else {
        join(parts.drop_last(), sep) + sep + parts.last()
    }
}

/// `parts` from index `from` on, with `sep` between neighbours.
pub fn join_from(parts: &Vec<Vec<char>>, from: usize, sep: &str) -> (r: Vec<char>)
    requires
        from <= parts@.len(),
    ensures
        r@ == join(char_views(parts@).skip(from as int), sep@),
{
    let glue = chars_of(sep);
    let mut out: Vec<char> = Vec::new();
    let mut i: usize = from;
    let ghost all = char_views(parts@).skip(from as int);
    assert(all.take(0) =~= Seq::empty());
    assert(out@ =~= join(all.take(0), sep@));
    while i < parts.len()
        invariant
            from <= i <= parts.len(),
            glue@ == sep@,
            all == char_views(parts@).skip(from as int),
            out@ == join(all.take(i - from), sep@),
        decreases parts.len() - i,
    {
        assert(all.take(i - from + 1).drop_last() =~= all.take(i - from));
        assert(all.take(i - from + 1).last() == parts@[i as int]@);
        if i > from {
            append_chars(&mut out, glue.as_slice());
        }
        append_chars(&mut out, parts[i].as_slice());
        i += 1;
        assert(out@ =~= join(all.take(i - from), sep@));
    }
    assert(all.take(i - from) =~= all);
    out
}

/// The decimal digit `d`.
pub open spec fn digit(d: int) -> char {
    (48 + d) as u8 as char
}

/// `n` in decimal.
pub open spec fn decimal(n: nat) -> Seq<char>
    decreases n,
{
    if n < 10 {
        seq![digit(n as int)]
    } else {
        decimal(n / 10).push(digit((n % 10) as int))
    }
}

/// `n` in decimal.
pub fn to_decimal(n: u64) -> (r: Vec<char>)
    ensures
        r@ == decimal(n as nat),
    decreases n,
{
    if n < 10 {
        let mut out: Vec<char> = Vec::new();
        out.push((48 + n as u8) as char);
        assert(out@ =~= decimal(n as nat));
        out
    } else {
        let mut out = to_decimal(n / 10);
        out.push((48 + (n % 10) as u8) as char);
        out
    }
}

/// Whether `c` is a decimal digit.
pub open spec fn is_digit(c: char) -> bool {
    '0' <= c <= '9'
}

/// Whether `s` holds decimal digits only.
pub open spec fn all_digits(s: Seq<char>) -> bool {
    forall|i: int| 0 <= i < s.len() ==> is_digit(#[trigger] s[i])
}

/// The number that a run of decimal digits writes.
pub open spec fn digits_value(s: Seq<char>) -> nat
    decreases s.len(),
{
    if s.len() == 0 {
        0
    } else {
        digits_value(s.drop_last()) * 10 + (s.last() as u32 - 48) as nat
    }
}

/// The digits of a number: a leading plus sign before at least one more character is dropped.
pub open spec fn unsigned_digits(s: Seq<char>) -> Seq<char> {
    if s.len() > 1 && s[0] == '+' {
        s.skip(1)
    } else {
        s
    }
}

/// The unsigned number of at most `max` that `s` writes: an optional plus sign, then only digits.
pub open spec fn unsigned(s: Seq<char>, max: nat) -> Option<nat> {
    let d = unsigned_digits(s);
    if d.len() > 0 && all_digits(d) && digits_value(d) <= max {
        Some(digits_value(d))
    } else {
        None
    }
}

proof fn lemma_digits_value_grows(s: Seq<char>, i: int, j: int)
    requires
        0 <= i <= j <= s.len(),
        all_digits(s),
    ensures
        digits_value(s.take(i)) <= digits_value(s.take(j)),
    decreases j - i,
{
    if i < j {
        lemma_digits_value_grows(s, i, j - 1);
        assert(s.take(j).drop_last() =~= s.take(j - 1));
        assert(is_digit(s[j - 1]));
    }
}

/// Reads an unsigned number of at most `max`.
pub fn parse_unsigned(s: &[char], max: u64) -> (r: Option<u64>)
    ensures
        match r {
            Some(n) => unsigned(s@, max as nat) == Some(n as nat),
            None => unsigned(s@, max as nat) is None,
        },
{
    let start: usize = if s.len() > 1 && s[0] == '+' { 1 } else { 0 };
    let digits = &s[start..s.len()];
    let ghost d = digits@;
    assert(d =~= unsigned_digits(s@));
    if digits.len() == 0 {
        return None;
    }
    let mut value: u64 = 0;
    let mut i: usize = 0;
    while i < digits.len()
        invariant
            i <= digits.len(),
            d == digits@,
            d == unsigned_digits(s@),
            value == digits_value(d.take(i as int)),
            value <= max,
            forall|j: int| 0 <= j < i ==> is_digit(d[j]),
        decreases digits.len() - i,
    {
        let c = digits[i];
        if !('0' <= c && c <= '9') {
            assert(!is_digit(d[i as int]));
            return None;
        }
        let x: u64 = (c as u32 - 48) as u64;
        assert(d.take(i + 1).drop_last() =~= d.take(i as int));
        let next: u128 = value as u128 * 10 + x as u128;
        if next > max as u128 {
            proof {
                if all_digits(d) {
                    lemma_digits_value_grows(d, i + 1, d.len() as int);
                    assert(d.take(d.len() as int) =~= d);
                }
            }
            return None;
        }
        value = next as u64;
        i += 1;
    }
    assert(d.take(i as int) =~= d);
    Some(value)
}

proof fn lemma_lowered_runs(s: Seq<char>)
    ensures
        word_runs(lowered(s)).0 == word_runs(s).0.map_values(|w: Seq<char>| lowered(w)),
        word_runs(lowered(s)).1 == lowered(word_runs(s).1),
    decreases s.len(),
{
    if s.len() > 0 {
        lemma_lowered_runs(s.drop_last());
        assert(lowered(s).drop_last() =~= lowered(s.drop_last()));
        let (done, run) = word_runs(s.drop_last());
        assert(is_space(lower(s.last())) == is_space(s.last()));
        if !is_space(s.last()) {
            assert(lowered(run.push(s.last())) =~= lowered(run).push(lower(s.last())));
        } else if run.len() > 0 {
            assert(done.push(run).map_values(|w: Seq<char>| lowered(w)) =~= done.map_values(
                |w: Seq<char>| lowered(w),
            ).push(lowered(run)));
            assert(lowered(Seq::<char>::empty()) =~= Seq::empty());
        } else {
            assert(lowered(run) =~= run);
        }
    }
    assert(word_runs(lowered(s)).0 =~= word_runs(s).0.map_values(|w: Seq<char>| lowered(w)));
    assert(word_runs(lowered(s)).1 =~= lowered(word_runs(s).1));
}

/// The words of a text in lower case are its words in lower case.
pub proof fn lemma_lowered_words(s: Seq<char>)
    ensures
        words(lowered(s)) == words(s).map_values(|w: Seq<char>| lowered(w)),
{
    lemma_lowered_runs(s);
    let (done, run) = word_runs(s);
    assert(done.push(run).map_values(|w: Seq<char>| lowered(w)) =~= done.map_values(
        |w: Seq<char>| lowered(w),
    ).push(lowered(run)));
}

/// Whether a text holds white space only.
pub open spec fn all_space(s: Seq<char>) -> bool {
    forall|i: int| 0 <= i < s.len() ==> is_space(#[trigger] s[i])
}

/// Trimming takes the white space off both ends and nothing else: what is left begins and ends with
/// other characters, or is nothing.
pub proof fn law_trim(s: Seq<char>) -> (ends: (Seq<char>, Seq<char>))
    ensures
        s == ends.0 + trim(s) + ends.1,
        all_space(ends.0),
        all_space(ends.1),
        trim(s).len() > 0 ==> !is_space(trim(s)[0]) && !is_space(trim(s).last()),
        trim(s).len() == 0 <==> all_space(s),
{
    let a = lemma_trim_start(s);
    let t = trim_start(s);
    let b = lemma_trim_end(t);
    assert(s =~= a + trim(s) + b);
    if trim(s).len() > 0 {
        assert(t[0] == trim(s)[0]);
        let k = a.len() as int;
        assert(s[k] == trim(s)[0]);
    } else {
        assert forall|i: int| 0 <= i < s.len() implies is_space(#[trigger] s[i]) by {
            if i < a.len() {
                assert(s[i] == a[i]);
            } else {
                assert(s[i] == b[i - a.len()]);
            }
        }
    }
    (a, b)
}

proof fn lemma_trim_start(s: Seq<char>) -> (before: Seq<char>)
    ensures
        s == before + trim_start(s),
        all_space(before),
        trim_start(s).len() > 0 ==> !is_space(trim_start(s)[0]),
    decreases s.len(),
{
    if s.len() > 0 && is_space(s.first()) {
        let rest = lemma_trim_start(s.drop_first());
        let before = seq![s[0]] + rest;
        assert(s =~= seq![s[0]] + s.drop_first());
        assert(before + trim_start(s) =~= seq![s[0]] + (rest + trim_start(s.drop_first())));
        before
    } else {
        assert(s =~= Seq::empty() + s);
        Seq::empty()
    }
}

proof fn lemma_trim_end(s: Seq<char>) -> (after: Seq<char>)
    ensures
        s == trim_end(s) + after,
        all_space(after),
        trim_end(s).len() > 0 ==> !is_space(trim_end(s).last()) && trim_end(s)[0] == s[0],
    decreases s.len(),
{
    if s.len() > 0 && is_space(s.last()) {
        let rest = lemma_trim_end(s.drop_last());
        let after = rest.push(s.last());
        assert(s =~= s.drop_last().push(s.last()));
        assert(trim_end(s) + after =~= (trim_end(s.drop_last()) + rest).push(s.last()));
        after
    } else {
        assert(s =~= s + Seq::empty());
        Seq::empty()
    }
}

/// Words are what white space separates: a text without any is one word, and white space between
/// two texts keeps their words apart, in order.
pub proof fn law_words(a: Seq<char>, c: char, b: Seq<char>)
    requires
        is_space(c),
    ensures
        words(Seq::empty()).len() == 0,
        words(a.push(c) + b) == words(a) + words(b),
        a.len() > 0 && (forall|i: int| 0 <= i < a.len() ==> !is_space(#[trigger] a[i])) ==> words(a)
            == seq![a],
{
    lemma_words_join(a.push(c), b);
    assert(a.push(c).drop_last() =~= a);
    assert(words(a.push(c)) =~= words(a));
    if a.len() > 0 && (forall|i: int| 0 <= i < a.len() ==> !is_space(#[trigger] a[i])) {
        lemma_one_word(a);
        assert(words(a) =~= seq![a]);
    }
}

proof fn lemma_one_word(a: Seq<char>)
    requires
        forall|i: int| 0 <= i < a.len() ==> !is_space(#[trigger] a[i]),
    ensures
        word_runs(a).0 == Seq::<Seq<char>>::empty(),
        word_runs(a).1 == a,
    decreases a.len(),
{
    if a.len() > 0 {
        let front = a.drop_last();
        assert forall|i: int| 0 <= i < front.len() implies !is_space(#[trigger] front[i]) by {
            assert(front[i] == a[i]);
        }
        lemma_one_word(front);
        assert(!is_space(a[a.len() - 1]));
        assert(word_runs(a).1 =~= a);
    } else {
        assert(word_runs(a).1 =~= a);
    }
}

proof fn lemma_words_join(a: Seq<char>, b: Seq<char>)
    requires
        a.len() > 0,
        is_space(a.last()),
    ensures
        word_runs(a).1.len() == 0,
        word_runs(a + b).0 == word_runs(a).0 + word_runs(b).0,
        word_runs(a + b).1 == word_runs(b).1,
        words(a + b) == words(a) + words(b),
    decreases b.len(),
{
    if b.len() == 0 {
        assert(a + b =~= a);
        assert(word_runs(a).1 =~= word_runs(b).1);
    } else {
        lemma_words_join(a, b.drop_last());
        assert((a + b).drop_last() =~= a + b.drop_last());
    }
    assert(word_runs(a + b).0 =~= word_runs(a).0 + word_runs(b).0);
    assert(words(a + b) =~= words(a) + words(b));
}

/// Splitting a text and joining the pieces again gives the text back, and no piece holds what the
/// text was split at.
pub proof fn law_split_and_join(s: Seq<char>, sep: char, k: int)
    ensures
        join(split(s, sep), seq![sep]) == s,
        0 <= k < split(s, sep).len() ==> !split(s, sep)[k].contains(sep),
        split(s, sep).len() >= 1,
    decreases s.len(),
{
    let (done, run) = split_runs(s, sep);
    let all = split(s, sep);
    assert(all.drop_last() =~= done);
    if s.len() == 0 {
        assert(join(all, seq![sep]) =~= s);
    } else {
        let front = s.drop_last();
        law_split_and_join(front, sep, k);
        let (done0, run0) = split_runs(front, sep);
        let all0 = split(front, sep);
        assert(all0.drop_last() =~= done0);
        assert(all0.last() == run0);
        if s.last() == sep {
            assert(done == all0);
            assert(join(all, seq![sep]) == join(all0, seq![sep]) + seq![sep] + run);
            assert(join(all, seq![sep]) =~= s);
            if k == all.len() - 1 {
                assert(all[k] == run);
            } else if 0 <= k < all.len() - 1 {
                assert(all[k] == all0[k]);
            }
        } else {
            assert(run == run0.push(s.last()));
            if done0.len() == 0 {
                assert(join(all0, seq![sep]) == run0);
                assert(all =~= seq![run]);
                assert(join(all, seq![sep]) == run);
                assert(run =~= s);
            } else {
                assert(join(all0, seq![sep]) == join(done0, seq![sep]) + seq![sep] + run0);
                assert(done == done0);
                assert(join(all, seq![sep]) == join(done0, seq![sep]) + seq![sep] + run);
                assert(join(all, seq![sep]) =~= front.push(s.last()));
                assert(front.push(s.last()) =~= s);
            }
            if k == all.len() - 1 {
                assert(all[k] == run);
                assert(all0[k] == run0);
                if run.contains(sep) {
                    let i = choose|i: int| 0 <= i < run.len() && run[i] == sep;
                    assert(run0[i] == sep);
                }
            } else if 0 <= k < all.len() - 1 {
                assert(all[k] == all0[k]);
            }
        }
    }
}

/// Joining puts the separator between neighbours and nowhere else.
pub proof fn law_join(parts: Seq<Seq<char>>, part: Seq<char>, sep: Seq<char>)
    ensures
        join(Seq::empty(), sep).len() == 0,
        join(seq![part], sep) == part,
        parts.len() > 0 ==> join(parts.push(part), sep) == join(parts, sep) + sep + part,
{
    assert(parts.push(part).drop_last() =~= parts);
}

/// Lines end at line feeds, of which each closes one; a carriage return before it goes with it.
/// What stands behind the last one is a line where there is anything.
pub proof fn law_lines(a: Seq<char>, b: Seq<char>)
    requires
        !a.contains('\n'),
    ensures
        lines(Seq::empty()).len() == 0,
        a.len() > 0 ==> lines(a) == seq![a],
        lines(a.push('\n') + b) == seq![
            if a.len() > 0 && a.last() == '\r' {
                a.drop_last()
            } else {
                a
            },
        ] + lines(b),
{
    lemma_no_separator(a);
    lemma_line_join(a.push('\n'), b);
    let first = a.push('\n');
    assert(first.drop_last() =~= a);
    assert(split_runs(first, '\n').0 =~= seq![a]);
    let closed = split_runs(b, '\n').0;
    let all = split_runs(first + b, '\n').0;
    assert(all =~= seq![a] + closed);
    assert(all.map_values(|line: Seq<char>| strip_return(line)) =~= seq![strip_return(a)]
        + closed.map_values(|line: Seq<char>| strip_return(line)));
    assert(lines(first + b) =~= seq![strip_return(a)] + lines(b));
    if a.len() > 0 {
        assert(lines(a) =~= seq![a]);
    }
}

proof fn lemma_no_separator(s: Seq<char>)
    requires
        !s.contains('\n'),
    ensures
        split_runs(s, '\n').0 == Seq::<Seq<char>>::empty(),
        split_runs(s, '\n').1 == s,
    decreases s.len(),
{
    if s.len() > 0 {
        let front = s.drop_last();
        assert(s.contains(s.last()));
        if front.contains('\n') {
            let i = choose|i: int| 0 <= i < front.len() && front[i] == '\n';
            assert(s[i] == '\n');
        }
        lemma_no_separator(front);
    }
    assert(split_runs(s, '\n').1 =~= s);
}

proof fn lemma_line_join(a: Seq<char>, b: Seq<char>)
    requires
        a.len() > 0,
        a.last() == '\n',
    ensures
        split_runs(a + b, '\n').0 == split_runs(a, '\n').0 + split_runs(b, '\n').0,
        split_runs(a + b, '\n').1 == split_runs(b, '\n').1,
    decreases b.len(),
{
    if b.len() == 0 {
        assert(a + b =~= a);
        assert(split_runs(a, '\n').1 =~= split_runs(b, '\n').1);
    } else {
        lemma_line_join(a, b.drop_last());
        assert((a + b).drop_last() =~= a + b.drop_last());
    }
    assert(split_runs(a + b, '\n').0 =~= split_runs(a, '\n').0 + split_runs(b, '\n').0);
}

/// Lower case moves the letters from A to Z by 32 and keeps every other character, one for one.
pub proof fn law_lower_case(s: Seq<char>, i: int)
    requires
        0 <= i < s.len(),
    ensures
        lowered(s).len() == s.len(),
        65 <= s[i] as int <= 90 ==> lowered(s)[i] as int == s[i] as int + 32,
        !(65 <= s[i] as int <= 90) ==> lowered(s)[i] == s[i],
{
}

/// What is found is the first of its kind, or there is none.
pub proof fn law_find(s: Seq<char>, c: char)
    ensures
        find(s, c) <= s.len(),
        find(s, c) < s.len() ==> s[find(s, c) as int] == c,
        forall|i: int| 0 <= i < find(s, c) ==> #[trigger] s[i] != c,
    decreases s.len(),
{
    if s.len() > 0 && s.first() != c {
        law_find(s.drop_first(), c);
        let k = find(s.drop_first(), c) as int;
        if k < s.len() - 1 {
            assert(s.drop_first()[k] == s[k + 1]);
        }
        assert forall|i: int| 0 <= i < find(s, c) implies #[trigger] s[i] != c by {
            if i > 0 {
                assert(s.drop_first()[i - 1] == s[i]);
            }
        }
    }
}

/// A number's decimal form reads as the number: it is made of digits, without a zero in front of
/// others, and what it writes is the number. Reading goes by place value, and stops at a limit.
pub proof fn law_numbers(n: nat, max: nat)
    ensures
        decimal(n).len() > 0,
        all_digits(decimal(n)),
        decimal(n).len() > 1 ==> decimal(n)[0] != '0',
        digits_value(decimal(n)) == n,
        unsigned(decimal(n), max) == if n <= max {
            Some(n)
        } else {
            None
        },
        unsigned(seq!['+'] + decimal(n), max) == unsigned(decimal(n), max),
{
    lemma_decimal(n);
    let d = decimal(n);
    assert(is_digit(d[0]));
    let plus = seq!['+'] + d;
    assert(plus.skip(1) =~= d);
}

proof fn lemma_decimal(n: nat)
    ensures
        decimal(n).len() > 0,
        all_digits(decimal(n)),
        n > 0 ==> decimal(n)[0] != '0',
        decimal(n).len() > 1 ==> n > 0,
        digits_value(decimal(n)) == n,
    decreases n,
{
    let d = decimal(n);
    if n < 10 {
        assert(d.drop_last() =~= Seq::empty());
        assert(digits_value(d.drop_last()) == 0);
        assert(d[0] as u32 == 48 + n);
    } else {
        lemma_decimal(n / 10);
        let front = decimal(n / 10);
        assert(d.drop_last() =~= front);
        assert(d.last() as u32 == 48 + n % 10);
        assert forall|i: int| 0 <= i < d.len() implies is_digit(#[trigger] d[i]) by {
            if i < front.len() {
                assert(is_digit(front[i]));
            }
        }
        assert(d[0] == front[0]);
    }
}

/// Only digits read as a number, behind at most one plus sign: each digit counts ten times as much
/// as the one behind it.
pub proof fn law_what_reads_as_a_number(s: Seq<char>, c: char, max: nat)
    ensures
        digits_value(Seq::empty()) == 0,
        '0' <= c <= '9' ==> digits_value(s.push(c)) == 10 * digits_value(s) + (c as int - 48),
        unsigned(s, max) matches Some(n) ==> n <= max && s.len() > 0 && forall|i: int|
            1 <= i < s.len() ==> '0' <= #[trigger] s[i] <= '9',
        s.len() > 0 && !('0' <= s[0] <= '9') && s[0] != '+' ==> unsigned(s, max) is None,
        unsigned(seq!['+'], max) is None,
        unsigned(Seq::empty(), max) is None,
{
    assert(s.push(c).drop_last() =~= s);
    let d = unsigned_digits(s);
    if unsigned(s, max) is Some {
        assert forall|i: int| 1 <= i < s.len() implies '0' <= #[trigger] s[i] <= '9' by {
            if d == s {
                assert(is_digit(d[i]));
            } else {
                assert(is_digit(d[i - 1]));
            }
        }
    }
    if s.len() > 0 && !('0' <= s[0] <= '9') && s[0] != '+' {
        assert(!is_digit(d[0]));
    }
    assert(!is_digit(seq!['+'][0]));
}

} // verus!
