//! What alignment comments, breaks, fence names, images in table cells and the paragraphs of a
//! list item do in a whole document.

use vstd::prelude::*;

use crate::documents::{
    all_other, is_inline, lemma_one_more, lemma_other, lemma_replace, lemma_run, lemma_run_add,
    lemma_run_one, lemma_same_tail, run, same,
};
use crate::events::{MdEvent, MdTag, MdTagEnd, TablePart};
use crate::fences::{fence_of, first_word, placeholder};
use crate::lowering::{
    directive, flow_after, has_space, indent_of, lemma_code_text, lowered_blocks, start_flow, Flow,
};
use crate::rich::Alignment;
use crate::text::{lowered, trim, words};

verus! {

/// Whether a comment is read here: outside code, tables, lists, quotes and images.
pub open spec fn at_top_level(st: Flow) -> bool {
    !st.in_code && !st.in_table && st.lists.len() == 0 && st.quotes == 0 && st.images == 0
}

proof fn lemma_directive(st: Flow, html: Seq<char>, images: Map<Seq<char>, Seq<Seq<bool>>>)
    requires
        at_top_level(st),
        directive(html) is Some,
    ensures
        same(
            st.step(MdEvent::Html(html), images),
            Flow { alignment: directive(html)->0, ..st.flush_block() },
        ),
        at_top_level(st.step(MdEvent::Html(html), images)),
{
    reveal(Flow::step);
}

proof fn lemma_flush_twice(st: Flow, alignment: Alignment)
    ensures
        same(
            Flow { alignment, ..st.flush_block() }.flush_block(),
            Flow { alignment, ..st.flush_block() },
        ),
{
}

/// The last alignment comment wins: one that stands before it with nothing but markup between the
/// two changes nothing.
pub proof fn law_last_directive_wins(
    before: Seq<MdEvent<Seq<char>>>,
    a: Seq<char>,
    between: Seq<MdEvent<Seq<char>>>,
    b: Seq<char>,
    after: Seq<MdEvent<Seq<char>>>,
    images: Map<Seq<char>, Seq<Seq<bool>>>,
)
    requires
        at_top_level(flow_after(before, images)),
        directive(a) is Some,
        directive(b) is Some,
        all_other(between),
    ensures
        lowered_blocks(
            before + seq![MdEvent::Html(a)] + between + seq![MdEvent::Html(b)] + after,
            images,
        ) == lowered_blocks(before + seq![MdEvent::Html(b)] + after, images),
{
    let st = flow_after(before, images);
    let first = before + seq![MdEvent::Html(a)];
    lemma_one_more(before, MdEvent::Html(a), images);
    lemma_one_more(before, MdEvent::Html(b), images);
    lemma_other(first, between, images);
    lemma_one_more(first + between, MdEvent::Html(b), images);
    lemma_directive(st, a, images);
    lemma_directive(st, b, images);
    lemma_directive(flow_after(first, images), b, images);
    lemma_flush_twice(st, directive(a)->0);
    lemma_same_tail(
        first + between + seq![MdEvent::Html(b)],
        before + seq![MdEvent::Html(b)],
        after,
        images,
    );
}

proof fn lemma_no_directive(st: Flow, html: Seq<char>, images: Map<Seq<char>, Seq<Seq<bool>>>)
    requires
        directive(html) is None || !at_top_level(st),
    ensures
        same(st.step(MdEvent::Html(html), images), st),
{
    reveal(Flow::step);
}

/// A comment that names no alignment, or does not stand at the top level, changes nothing.
pub proof fn law_other_comments_change_nothing(
    before: Seq<MdEvent<Seq<char>>>,
    html: Seq<char>,
    after: Seq<MdEvent<Seq<char>>>,
    images: Map<Seq<char>, Seq<Seq<bool>>>,
)
    requires
        directive(html) is None || !at_top_level(flow_after(before, images)),
    ensures
        lowered_blocks(before + seq![MdEvent::Html(html)] + after, images) == lowered_blocks(
            before + after,
            images,
        ),
{
    lemma_one_more(before, MdEvent::Html(html), images);
    lemma_no_directive(flow_after(before, images), html, images);
    lemma_same_tail(before + seq![MdEvent::Html(html)], before, after, images);
}

/// A document that begins by asking for the left prints as one that asks for nothing.
pub proof fn law_left_is_the_default(
    before: Seq<MdEvent<Seq<char>>>,
    html: Seq<char>,
    after: Seq<MdEvent<Seq<char>>>,
    images: Map<Seq<char>, Seq<Seq<bool>>>,
)
    requires
        all_other(before),
        directive(html) == Some(Alignment::Left),
    ensures
        lowered_blocks(before + seq![MdEvent::Html(html)] + after, images) == lowered_blocks(
            before + after,
            images,
        ),
{
    let nothing = Seq::<MdEvent<Seq<char>>>::empty();
    lemma_other(nothing, before, images);
    assert(nothing + before =~= before);
    assert(flow_after(before, images) == start_flow());
    lemma_one_more(before, MdEvent::Html(html), images);
    lemma_directive(start_flow(), html, images);
    assert(start_flow().flush_block() == start_flow());
    lemma_same_tail(before + seq![MdEvent::Html(html)], before, after, images);
}

proof fn lemma_break(
    st: Flow,
    a: Seq<char>,
    b: Seq<char>,
    images: Map<Seq<char>, Seq<Seq<bool>>>,
)
    requires
        has_space(trim(a)) == has_space(trim(b)) || st.lists.len() > 0,
    ensures
        same(st.step(MdEvent::Rule(a), images), st.step(MdEvent::Rule(b), images)),
{
    reveal(Flow::step);
}

/// Of a thematic break only its inner white space counts: breaks that all have some, or all have
/// none, print the same, and in a list all breaks do.
pub proof fn law_breaks_go_by_white_space(
    before: Seq<MdEvent<Seq<char>>>,
    a: Seq<char>,
    b: Seq<char>,
    after: Seq<MdEvent<Seq<char>>>,
    images: Map<Seq<char>, Seq<Seq<bool>>>,
)
    requires
        has_space(trim(a)) == has_space(trim(b)) || flow_after(before, images).lists.len() > 0,
    ensures
        lowered_blocks(before + seq![MdEvent::Rule(a)] + after, images) == lowered_blocks(
            before + seq![MdEvent::Rule(b)] + after,
            images,
        ),
{
    lemma_one_more(before, MdEvent::Rule(a), images);
    lemma_one_more(before, MdEvent::Rule(b), images);
    lemma_break(flow_after(before, images), a, b, images);
    lemma_same_tail(
        before + seq![MdEvent::Rule(a)],
        before + seq![MdEvent::Rule(b)],
        after,
        images,
    );
}

proof fn lemma_quoted_break(
    st: Flow,
    source: Seq<char>,
    images: Map<Seq<char>, Seq<Seq<bool>>>,
)
    requires
        st.images == 0,
        st.lists.len() == 0,
    ensures
        same(
            st.step(MdEvent::Start(MdTag::BlockQuote), images).step(
                MdEvent::Rule(source),
                images,
            ).step(MdEvent::End(MdTagEnd::BlockQuote), images),
            st.step(MdEvent::Rule(source), images),
        ),
{
    reveal(Flow::step);
}

/// A break in a quote prints like one outside.
pub proof fn law_quoted_breaks_print_the_same(
    before: Seq<MdEvent<Seq<char>>>,
    source: Seq<char>,
    after: Seq<MdEvent<Seq<char>>>,
    images: Map<Seq<char>, Seq<Seq<bool>>>,
)
    requires
        flow_after(before, images).images == 0,
        flow_after(before, images).lists.len() == 0,
    ensures
        lowered_blocks(
            before + seq![MdEvent::Start(MdTag::BlockQuote)] + seq![MdEvent::Rule(source)] + seq![
                MdEvent::End(MdTagEnd::BlockQuote),
            ] + after,
            images,
        ) == lowered_blocks(before + seq![MdEvent::Rule(source)] + after, images),
{
    let open = before + seq![MdEvent::<Seq<char>>::Start(MdTag::BlockQuote)];
    let broken = open + seq![MdEvent::Rule(source)];
    lemma_one_more(before, MdEvent::Start(MdTag::BlockQuote), images);
    lemma_one_more(open, MdEvent::Rule(source), images);
    lemma_one_more(broken, MdEvent::End(MdTagEnd::BlockQuote), images);
    lemma_one_more(before, MdEvent::Rule(source), images);
    lemma_quoted_break(flow_after(before, images), source, images);
    lemma_same_tail(
        broken + seq![MdEvent::End(MdTagEnd::BlockQuote)],
        before + seq![MdEvent::Rule(source)],
        after,
        images,
    );
}

proof fn lemma_fence_start(
    st: Flow,
    a: Seq<char>,
    b: Seq<char>,
    images: Map<Seq<char>, Seq<Seq<bool>>>,
)
    requires
        lowered(first_word(a)) == lowered(first_word(b)),
        words(a).skip(1) == words(b).skip(1),
        words(a).len() > 0,
        words(b).len() > 0,
    ensures
        same(
            st.step(MdEvent::Start(MdTag::CodeBlock(Some(a))), images),
            st.step(MdEvent::Start(MdTag::CodeBlock(Some(b))), images),
        ),
{
    reveal(Flow::step);
    assert(fence_of(a) == fence_of(b));
    assert(words(a).len() > 1 ==> words(a)[1] == words(a).skip(1)[0]);
    assert(words(b).len() > 1 ==> words(b)[1] == words(b).skip(1)[0]);
    assert(words(a).len() > 0 ==> words(a).skip(1).len() == words(a).len() - 1);
    assert(words(b).len() > 0 ==> words(b).skip(1).len() == words(b).len() - 1);
}

/// Letter case does not count in a fence's name: with the same words after it, the fence prints
/// the same.
pub proof fn law_fence_case_changes_nothing(
    before: Seq<MdEvent<Seq<char>>>,
    a: Seq<char>,
    b: Seq<char>,
    after: Seq<MdEvent<Seq<char>>>,
    images: Map<Seq<char>, Seq<Seq<bool>>>,
)
    requires
        lowered(first_word(a)) == lowered(first_word(b)),
        words(a).skip(1) == words(b).skip(1),
        words(a).len() > 0,
        words(b).len() > 0,
    ensures
        lowered_blocks(
            before + seq![MdEvent::Start(MdTag::CodeBlock(Some(a)))] + after,
            images,
        ) == lowered_blocks(
            before + seq![MdEvent::Start(MdTag::CodeBlock(Some(b)))] + after,
            images,
        ),
{
    lemma_one_more(before, MdEvent::Start(MdTag::CodeBlock(Some(a))), images);
    lemma_one_more(before, MdEvent::Start(MdTag::CodeBlock(Some(b))), images);
    lemma_fence_start(flow_after(before, images), a, b, images);
    lemma_same_tail(
        before + seq![MdEvent::Start(MdTag::CodeBlock(Some(a)))],
        before + seq![MdEvent::Start(MdTag::CodeBlock(Some(b)))],
        after,
        images,
    );
}

/// Whether nothing is remembered of an image that has been closed.
pub open spec fn image_cleared(st: Flow) -> bool {
    st.images == 0 ==> st.image_dest == Seq::<char>::empty() && st.image_alt == Seq::<
        char,
    >::empty()
}

proof fn lemma_image_cleared_by_start(st: Flow, tag: MdTag<Seq<char>>)
    requires
        image_cleared(st),
        st.images == 0,
    ensures
        image_cleared(st.start(tag)),
{
}

proof fn lemma_image_cleared_by_end(st: Flow, tag: MdTagEnd)
    requires
        image_cleared(st),
        st.images == 0,
    ensures
        image_cleared(st.end(tag)),
{
}

proof fn lemma_image_cleared_step(
    st: Flow,
    event: MdEvent<Seq<char>>,
    images: Map<Seq<char>, Seq<Seq<bool>>>,
)
    requires
        image_cleared(st),
    ensures
        image_cleared(st.step(event, images)),
{
    reveal(Flow::step);
    if st.images == 0 {
        match event {
            MdEvent::Start(tag) => lemma_image_cleared_by_start(st, tag),
            MdEvent::End(tag) => lemma_image_cleared_by_end(st, tag),
            MdEvent::Text(text) => lemma_code_text(st, text),
            _ => {},
        }
    }
}

proof fn lemma_image_cleared(
    events: Seq<MdEvent<Seq<char>>>,
    images: Map<Seq<char>, Seq<Seq<bool>>>,
)
    ensures
        image_cleared(flow_after(events, images)),
    decreases events.len(),
{
    if events.len() > 0 {
        lemma_image_cleared(events.drop_last(), images);
        lemma_image_cleared_step(
            flow_after(events.drop_last(), images),
            events.last(),
            images,
        );
    }
}

/// The alt text that some events spell.
pub open spec fn alt_text(events: Seq<MdEvent<Seq<char>>>) -> Seq<char>
    decreases events.len(),
{
    if events.len() == 0 {
        Seq::empty()
    } else {
        let before = alt_text(events.drop_last());
        match events.last() {
            MdEvent::Text(text) => before + text,
            MdEvent::Code(text) => before + text,
            MdEvent::SoftBreak => before.push(' '),
            MdEvent::HardBreak => before.push(' '),
            _ => before,
        }
    }
}

/// Whether an event can stand in the alt text of an image without being one.
pub open spec fn in_alt_text(event: MdEvent<Seq<char>>) -> bool {
    match event {
        MdEvent::Rule(_) => false,
        MdEvent::Start(MdTag::Image(_)) => false,
        MdEvent::End(MdTagEnd::Image) => false,
        _ => true,
    }
}

/// The document with an image open.
pub open spec fn in_image(st: Flow, dest: Seq<char>, alt: Seq<char>) -> Flow {
    Flow { images: 1, image_dest: dest, image_alt: alt, ..st }
}

proof fn lemma_alt_step(
    st: Flow,
    dest: Seq<char>,
    alt: Seq<char>,
    event: MdEvent<Seq<char>>,
    images: Map<Seq<char>, Seq<Seq<bool>>>,
)
    requires
        in_alt_text(event),
    ensures
        same(
            in_image(st, dest, alt).step(event, images),
            in_image(
                st,
                dest,
                match event {
                    MdEvent::Text(text) => alt + text,
                    MdEvent::Code(text) => alt + text,
                    MdEvent::SoftBreak => alt.push(' '),
                    MdEvent::HardBreak => alt.push(' '),
                    _ => alt,
                },
            ),
        ),
{
    reveal(Flow::step);
}

proof fn lemma_alt_run(
    st: Flow,
    dest: Seq<char>,
    body: Seq<MdEvent<Seq<char>>>,
    images: Map<Seq<char>, Seq<Seq<bool>>>,
)
    requires
        forall|k: int| 0 <= k < body.len() ==> in_alt_text(#[trigger] body[k]),
    ensures
        same(
            run(in_image(st, dest, Seq::empty()), body, images),
            in_image(st, dest, alt_text(body)),
        ),
    decreases body.len(),
{
    if body.len() > 0 {
        lemma_alt_run(st, dest, body.drop_last(), images);
        lemma_alt_step(st, dest, alt_text(body.drop_last()), body.last(), images);
    }
}

proof fn lemma_cell_image(
    st: Flow,
    dest: Seq<char>,
    alt: Seq<char>,
    images: Map<Seq<char>, Seq<Seq<bool>>>,
)
    requires
        st.images == 0,
        st.in_table,
        image_cleared(st),
    ensures
        same(
            st.step(MdEvent::Start(MdTag::Image(dest)), images),
            in_image(st, dest, Seq::empty()),
        ),
        same(
            in_image(st, dest, alt).step(MdEvent::End(MdTagEnd::Image), images),
            st.step(MdEvent::Text(placeholder(alt, dest)), images),
        ),
{
    reveal(Flow::step);
}

/// An image in a table cell is its placeholder text, whether it was supplied or not: the table
/// prints as if the text stood in the cell.
pub proof fn law_cell_images_are_text(
    before: Seq<MdEvent<Seq<char>>>,
    dest: Seq<char>,
    body: Seq<MdEvent<Seq<char>>>,
    after: Seq<MdEvent<Seq<char>>>,
    images: Map<Seq<char>, Seq<Seq<bool>>>,
)
    requires
        flow_after(before, images).in_table,
        flow_after(before, images).images == 0,
        forall|k: int| 0 <= k < body.len() ==> in_alt_text(#[trigger] body[k]),
    ensures
        lowered_blocks(
            before + (seq![MdEvent::Start(MdTag::Image(dest))] + body + seq![
                MdEvent::End(MdTagEnd::Image),
            ]) + after,
            images,
        ) == lowered_blocks(
            before + seq![MdEvent::Text(placeholder(alt_text(body), dest))] + after,
            images,
        ),
{
    let st = flow_after(before, images);
    let open = MdEvent::<Seq<char>>::Start(MdTag::Image(dest));
    let close = MdEvent::<Seq<char>>::End(MdTagEnd::Image);
    let text = MdEvent::Text(placeholder(alt_text(body), dest));
    lemma_image_cleared(before, images);
    lemma_run_add(st, seq![open] + body, seq![close], images);
    lemma_run_add(st, seq![open], body, images);
    lemma_run_one(st, open, images);
    lemma_cell_image(st, dest, alt_text(body), images);
    lemma_alt_run(st, dest, body, images);
    lemma_run_one(in_image(st, dest, alt_text(body)), close, images);
    lemma_run_one(st, text, images);
    lemma_replace(before, seq![open] + body + seq![close], seq![text], after, images);
}

proof fn lemma_same_images_step(
    st: Flow,
    event: MdEvent<Seq<char>>,
    a: Map<Seq<char>, Seq<Seq<bool>>>,
    b: Map<Seq<char>, Seq<Seq<bool>>>,
)
    requires
        event == MdEvent::<Seq<char>>::End(MdTagEnd::Image) && st.images == 1 ==> st.in_table,
    ensures
        same(st.step(event, a), st.step(event, b)),
{
    reveal(Flow::step);
}

/// Where all images of a document end in table cells, supplying them makes no difference.
pub proof fn law_cells_ignore_supplied_images(
    events: Seq<MdEvent<Seq<char>>>,
    a: Map<Seq<char>, Seq<Seq<bool>>>,
    b: Map<Seq<char>, Seq<Seq<bool>>>,
)
    requires
        forall|k: int|
            0 <= k < events.len() && events[k] == MdEvent::<Seq<char>>::End(MdTagEnd::Image)
                && flow_after(#[trigger] events.take(k), a).images == 1 ==> flow_after(
                events.take(k),
                a,
            ).in_table,
    ensures
        flow_after(events, a) == flow_after(events, b),
        lowered_blocks(events, a) == lowered_blocks(events, b),
    decreases events.len(),
{
    if events.len() > 0 {
        let front = events.drop_last();
        assert(events.take(events.len() - 1) =~= front);
        assert forall|k: int|
            0 <= k < front.len() && front[k] == MdEvent::<Seq<char>>::End(MdTagEnd::Image)
                && flow_after(#[trigger] front.take(k), a).images == 1 implies flow_after(
            front.take(k),
            a,
        ).in_table by {
            assert(front.take(k) =~= events.take(k));
            assert(front[k] == events[k]);
        }
        law_cells_ignore_supplied_images(front, a, b);
        lemma_same_images_step(flow_after(front, a), events.last(), a, b);
    }
}

/// Whether an event sets text without leaving the paragraph's lines: inline, and no image.
pub open spec fn is_text(event: MdEvent<Seq<char>>) -> bool {
    &&& is_inline(event)
    &&& match event {
        MdEvent::Start(tag) => !(tag is Image),
        MdEvent::End(tag) => !(tag is Image),
        _ => true,
    }
}

/// Whether the lines from `n` on and the line that is being built have an indent.
pub open spec fn indented_from(st: Flow, n: nat, indent: u32) -> bool {
    &&& n <= st.lines.len()
    &&& st.current.indent == indent
    &&& forall|i: int| n <= i < st.lines.len() ==> (#[trigger] st.lines[i]).indent == indent
}

proof fn lemma_code_text_indent(st: Flow, text: Seq<char>, n: nat, indent: u32)
    requires
        indented_from(st, n, indent),
    ensures
        indented_from(st.push_code_text(text), n, indent),
    decreases text.len(),
{
    if text.len() > 0 {
        lemma_code_text_indent(st, text.drop_last(), n, indent);
    }
}

proof fn lemma_text_indent(
    st: Flow,
    event: MdEvent<Seq<char>>,
    images: Map<Seq<char>, Seq<Seq<bool>>>,
    n: nat,
    indent: u32,
)
    requires
        is_text(event),
        indented_from(st, n, indent),
    ensures
        indented_from(st.step(event, images), n, indent),
{
    reveal(Flow::step);
    if let MdEvent::Text(text) = event {
        lemma_code_text_indent(st, text, n, indent);
    }
}

proof fn lemma_text_run_indent(
    st: Flow,
    body: Seq<MdEvent<Seq<char>>>,
    images: Map<Seq<char>, Seq<Seq<bool>>>,
    n: nat,
    indent: u32,
)
    requires
        forall|k: int| 0 <= k < body.len() ==> is_text(#[trigger] body[k]),
        indented_from(st, n, indent),
    ensures
        indented_from(run(st, body, images), n, indent),
    decreases body.len(),
{
    if body.len() > 0 {
        lemma_text_run_indent(st, body.drop_last(), images, n, indent);
        lemma_text_indent(run(st, body.drop_last(), images), body.last(), images, n, indent);
    }
}

proof fn lemma_paragraph_start(st: Flow, images: Map<Seq<char>, Seq<Seq<bool>>>)
    requires
        st.images == 0,
    ensures
        indented_from(
            st.step(MdEvent::Start(MdTag::Paragraph), images),
            st.lines.len(),
            indent_of(st.depth()),
        ),
{
    reveal(Flow::step);
}

/// Every line of a paragraph is indented by a step for each list and quote it stands in, in the
/// first paragraph of a list item and in any later one, whatever stands before it.
pub proof fn law_paragraphs_keep_their_indent(
    before: Seq<MdEvent<Seq<char>>>,
    body: Seq<MdEvent<Seq<char>>>,
    images: Map<Seq<char>, Seq<Seq<bool>>>,
)
    requires
        flow_after(before, images).images == 0,
        forall|k: int| 0 <= k < body.len() ==> is_text(#[trigger] body[k]),
    ensures
        indented_from(
            flow_after(before + seq![MdEvent::Start(MdTag::Paragraph)] + body, images),
            flow_after(before, images).lines.len(),
            indent_of(flow_after(before, images).depth()),
        ),
{
    let st = flow_after(before, images);
    lemma_one_more(before, MdEvent::Start(MdTag::Paragraph), images);
    lemma_paragraph_start(st, images);
    lemma_text_run_indent(
        st.step(MdEvent::Start(MdTag::Paragraph), images),
        body,
        images,
        st.lines.len(),
        indent_of(st.depth()),
    );
    lemma_run(before + seq![MdEvent::Start(MdTag::Paragraph)], body, images);
}

proof fn lemma_block_end(
    st: Flow,
    tag: MdTagEnd,
    images: Map<Seq<char>, Seq<Seq<bool>>>,
)
    requires
        st.images == 0,
        tag is List || tag is Heading || tag is CodeBlock || tag is BlockQuote || tag
            == MdTagEnd::Table(TablePart::Table),
        st.step(MdEvent::End(tag), images).lists.len() > 0,
    ensures
        st.step(MdEvent::End(tag), images).current.indent == indent_of(
            st.step(MdEvent::End(tag), images).depth(),
        ),
{
    reveal(Flow::step);
}

/// After a list, heading, code block, table or quote inside a list item, the item's text goes on
/// at the item's indent.
pub proof fn law_items_go_on_at_their_indent(
    before: Seq<MdEvent<Seq<char>>>,
    tag: MdTagEnd,
    images: Map<Seq<char>, Seq<Seq<bool>>>,
)
    requires
        flow_after(before, images).images == 0,
        tag is List || tag is Heading || tag is CodeBlock || tag is BlockQuote || tag
            == MdTagEnd::Table(TablePart::Table),
        flow_after(before + seq![MdEvent::End(tag)], images).lists.len() > 0,
    ensures
        flow_after(before + seq![MdEvent::End(tag)], images).current.indent == indent_of(
            flow_after(before + seq![MdEvent::End(tag)], images).depth(),
        ),
{
    lemma_one_more(before, MdEvent::End(tag), images);
    lemma_block_end(flow_after(before, images), tag, images);
}

} // verus!
