//! Fence info strings, and the texts a document makes up for what it cannot show.

use vstd::prelude::*;

use crate::text::{
    append_chars, char_views, chars_of, has_char, is_space, join, join_from, law_words,
    lemma_lowered_words, lines, lowered, push_text, reads, split_lines, split_words, text_of,
    to_lower, trim, trimmed, words,
};

verus! {

/// Which renderer a code block's info string selects.
#[derive(Debug, Clone, Copy, PartialEq, Eq, Structural)]
pub enum Fence {
    /// Plain code text: indented blocks and every info string that is no fence name.
    Code,
    Qr,
    Barcode,
    Wagara,
}

/// The first word of an info string, or nothing.
pub open spec fn first_word(info: Seq<char>) -> Seq<char> {
    if words(info).len() > 0 {
        words(info)[0]
    } else {
        Seq::empty()
    }
}

/// The renderer that an info string's first word names; letter case does not count.
pub open spec fn fence_of(info: Seq<char>) -> Fence {
    let name = lowered(first_word(info));
    if name == "qr"@ {
        Fence::Qr
    } else if name == "barcode"@ {
        Fence::Barcode
    } else if name == "wagara"@ {
        Fence::Wagara
    } else {
        Fence::Code
    }
}

/// Classifies a fence info string by its first word.
pub fn fence_kind(info: &str) -> (r: Fence)
    ensures
        r == fence_of(info@),
{
    let parts = split_words(chars_of(info).as_slice());
    assert(char_views(parts@).len() == parts@.len());
    let name = if parts.len() > 0 {
        assert(char_views(parts@)[0] == parts@[0]@);
        to_lower(parts[0].as_slice())
    } else {
        let none: Vec<char> = Vec::new();
        to_lower(none.as_slice())
    };
    if reads(name.as_slice(), "qr") {
        Fence::Qr
    } else if reads(name.as_slice(), "barcode") {
        Fence::Barcode
    } else if reads(name.as_slice(), "wagara") {
        Fence::Wagara
    } else {
        Fence::Code
    }
}

/// The second word of an info string, or nothing.
pub open spec fn second_word(info: Seq<char>) -> Seq<char> {
    if words(info).len() > 1 {
        words(info)[1]
    } else {
        Seq::empty()
    }
}

/// The info string's second word: a wagara fence names its pattern there.
pub fn fence_arg(info: &str) -> (r: String)
    ensures
        r@ == second_word(info@),
{
    let parts = split_words(chars_of(info).as_slice());
    assert(char_views(parts@).len() == parts@.len());
    if parts.len() > 1 {
        assert(char_views(parts@)[1] == parts@[1]@);
        text_of(parts[1].as_slice())
    } else {
        String::new()
    }
}

/// The words of an info string after the first, a space between neighbours.
pub open spec fn later_words(info: Seq<char>) -> Seq<char> {
    if words(info).len() > 0 {
        join(words(info).skip(1), " "@)
    } else {
        Seq::empty()
    }
}

/// The info string's words after the first: a QR fence gives its options there.
pub fn fence_options(info: &str) -> (r: String)
    ensures
        r@ == later_words(info@),
{
    let parts = split_words(chars_of(info).as_slice());
    assert(char_views(parts@).len() == parts@.len());
    if parts.len() > 0 {
        text_of(join_from(&parts, 1, " ").as_slice())
    } else {
        String::new()
    }
}

/// The index of the first line that is not blank, the number of lines where all are.
pub open spec fn first_text(all: Seq<Seq<char>>) -> nat
    decreases all.len(),
{
    if all.len() == 0 || trim(all[0]).len() > 0 {
        0
    } else {
        1 + first_text(all.skip(1))
    }
}

/// The pattern name and the option lines of a wagara fence.
///
/// The name comes from the info string where it has one, else from the body's first line that is
/// not blank. A line with a colon is no name: it is an option, and so is the whole body then.
pub open spec fn wagara_parts(info_name: Seq<char>, body: Seq<char>) -> (Seq<char>, Seq<char>) {
    let all = lines(body);
    let k = first_text(all) as int;
    if info_name.len() > 0 {
        (info_name, body)
    } else if k >= all.len() {
        (Seq::empty(), Seq::empty())
    } else if trim(all[k]).contains(':') {
        (Seq::empty(), body)
    } else {
        (trim(all[k]), join(all.skip(k + 1), "\n"@))
    }
}

/// Splits a wagara fence into its pattern name and its option lines.
pub fn split_wagara(info_name: &str, body: &str) -> (r: (String, String))
    ensures
        (r.0@, r.1@) == wagara_parts(info_name@, body@),
{
    if !info_name.is_empty() {
        return (info_name.to_owned(), body.to_owned());
    }
    let parts = split_lines(chars_of(body).as_slice());
    let ghost all = lines(body@);
    assert(char_views(parts@).len() == parts@.len());
    assert(all.skip(0) =~= all);
    let mut k: usize = 0;
    while k < parts.len()
        invariant
            k <= parts.len(),
            info_name@.len() == 0,
            char_views(parts@) == all,
            all == lines(body@),
            all.len() == parts@.len(),
            k + first_text(all.skip(k as int)) == first_text(all),
        decreases parts.len() - k,
    {
        assert(all[k as int] == parts@[k as int]@);
        assert(all.skip(k as int).skip(1) =~= all.skip(k + 1));
        let line = trimmed(parts[k].as_slice());
        if line.len() > 0 {
            if has_char(line, ':') {
                return (String::new(), body.to_owned());
            }
            return (text_of(line), text_of(join_from(&parts, k + 1, "\n").as_slice()));
        }
        k += 1;
    }
    (String::new(), String::new())
}

/// The text in place of an image that was not supplied: its alt text, else its destination, else
/// a question mark.
pub open spec fn placeholder(alt: Seq<char>, dest: Seq<char>) -> Seq<char> {
    let what = if trim(alt).len() > 0 {
        trim(alt)
    } else if trim(dest).len() > 0 {
        trim(dest)
    } else {
        "?"@
    };
    "[image: "@ + what + "]"@
}

/// A missing image's placeholder text.
pub fn placeholder_text(alt: &str, dest: &str) -> (r: String)
    ensures
        r@ == placeholder(alt@, dest@),
{
    let alt_chars = chars_of(alt);
    let dest_chars = chars_of(dest);
    let shown_alt = trimmed(alt_chars.as_slice());
    let shown_dest = trimmed(dest_chars.as_slice());
    let mut out = chars_of("[image: ");
    if shown_alt.len() > 0 {
        append_chars(&mut out, shown_alt);
    } else if shown_dest.len() > 0 {
        append_chars(&mut out, shown_dest);
    } else {
        push_text(&mut out, "?");
    }
    push_text(&mut out, "]");
    text_of(out.as_slice())
}

/// A wagara fence without a name in its info string never takes an option for one: a name read
/// from the body holds no colon.
pub proof fn law_option_is_no_name(body: Seq<char>)
    ensures
        !wagara_parts(Seq::empty(), body).0.contains(':'),
{
}

/// Letter case does not count in a fence's name.
pub proof fn law_fence_names_ignore_case(a: Seq<char>, b: Seq<char>)
    requires
        lowered(a) == lowered(b),
    ensures
        fence_of(a) == fence_of(b),
{
    lemma_lowered_words(a);
    lemma_lowered_words(b);
    assert(words(lowered(a)).len() == words(a).len());
    assert(words(lowered(b)).len() == words(b).len());
    if words(a).len() > 0 {
        assert(words(lowered(a))[0] == lowered(words(a)[0]));
        assert(words(lowered(b))[0] == lowered(words(b)[0]));
    }
}

/// A fence goes by the first word of its info string, in any case: `qr`, `barcode` and `wagara`
/// are graphics, all others code. The words behind it are its options, the first of them its
/// argument.
pub proof fn law_fences_go_by_their_first_word(word: Seq<char>, c: char, rest: Seq<char>)
    requires
        word.len() > 0,
        forall|i: int| 0 <= i < word.len() ==> !is_space(#[trigger] word[i]),
        is_space(c),
    ensures
        ({
            let info = word.push(c) + rest;
            &&& fence_of(info) == Fence::Qr <==> lowered(word) == "qr"@
            &&& fence_of(info) == Fence::Barcode <==> lowered(word) == "barcode"@
            &&& fence_of(info) == Fence::Wagara <==> lowered(word) == "wagara"@
            &&& fence_of(word) == fence_of(info)
            &&& fence_of(Seq::empty()) == Fence::Code
            &&& later_words(info) == join(words(rest), " "@)
            &&& second_word(info) == if words(rest).len() > 0 {
                words(rest)[0]
            } else {
                Seq::empty()
            }
        }),
{
    let info = word.push(c) + rest;
    law_words(word, c, rest);
    assert(words(info).skip(1) =~= words(rest));
    assert(words(info)[0] == word);
    reveal_strlit("qr");
    reveal_strlit("barcode");
    reveal_strlit("wagara");
    assert("qr"@.len() == 2 && "barcode"@.len() == 7 && "wagara"@.len() == 6);
    let none = Seq::<char>::empty();
    assert(lowered(first_word(none)).len() == 0);
}

/// What stands for a picture that is not there: its alt text in brackets, else its destination,
/// else a question mark.
pub proof fn law_placeholders(alt: Seq<char>, dest: Seq<char>)
    ensures
        trim(alt).len() > 0 ==> placeholder(alt, dest) == "[image: "@ + trim(alt) + "]"@,
        trim(alt).len() == 0 && trim(dest).len() > 0 ==> placeholder(alt, dest) == "[image: "@
            + trim(dest) + "]"@,
        trim(alt).len() == 0 && trim(dest).len() == 0 ==> placeholder(alt, dest) == "[image: "@ + "?"@
            + "]"@,
{
}

/// Where a wagara fence has its name from: from its info string, and then its whole body are
/// options; else from the first line of its body that is not blank, and then the lines behind it
/// are options, unless that line is an option itself.
pub proof fn law_wagara_names(info_name: Seq<char>, body: Seq<char>, k: int)
    requires
        0 <= k < lines(body).len(),
        trim(lines(body)[k]).len() > 0,
        forall|i: int| 0 <= i < k ==> trim(#[trigger] lines(body)[i]).len() == 0,
    ensures
        info_name.len() > 0 ==> wagara_parts(info_name, body) == (info_name, body),
        info_name.len() == 0 && trim(lines(body)[k]).contains(':') ==> wagara_parts(info_name, body)
            == (Seq::<char>::empty(), body),
        info_name.len() == 0 && !trim(lines(body)[k]).contains(':') ==> wagara_parts(
            info_name,
            body,
        ) == (trim(lines(body)[k]), join(lines(body).skip(k + 1), "\n"@)),
{
    lemma_first_text(lines(body), k);
}

proof fn lemma_first_text(all: Seq<Seq<char>>, k: int)
    requires
        0 <= k < all.len(),
        trim(all[k]).len() > 0,
        forall|i: int| 0 <= i < k ==> trim(#[trigger] all[i]).len() == 0,
    ensures
        first_text(all) == k,
    decreases k,
{
    if k > 0 {
        assert(trim(all[0]).len() == 0);
        let rest = all.skip(1);
        assert forall|i: int| 0 <= i < k - 1 implies trim(#[trigger] rest[i]).len() == 0 by {
            assert(rest[i] == all[i + 1]);
        }
        lemma_first_text(rest, k - 1);
    }
}

} // verus!
