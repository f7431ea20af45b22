//! What holds of whole documents: which ones print the same.
//!
//! A document is its sequence of events. Two that lower to the same blocks print the same pixels,
//! since a page is a function of its blocks.

use vstd::prelude::*;

use crate::events::{MdEvent, MdTag, MdTagEnd};
use crate::lowering::{
    flow_after, law_checkbox_replaces_prefix, lemma_code_text, lowered_blocks, Flow,
};

verus! {

pub proof fn lemma_one_more(
    events: Seq<MdEvent<Seq<char>>>,
    event: MdEvent<Seq<char>>,
    images: Map<Seq<char>, Seq<Seq<bool>>>,
)
    ensures
        flow_after(events + seq![event], images) == flow_after(events, images).step(event, images),
{
    assert((events + seq![event]).drop_last() =~= events);
    assert((events + seq![event]).last() == event);
}

pub proof fn lemma_same_tail(
    a: Seq<MdEvent<Seq<char>>>,
    b: Seq<MdEvent<Seq<char>>>,
    tail: Seq<MdEvent<Seq<char>>>,
    images: Map<Seq<char>, Seq<Seq<bool>>>,
)
    requires
        flow_after(a, images) == flow_after(b, images),
    ensures
        flow_after(a + tail, images) == flow_after(b + tail, images),
        lowered_blocks(a + tail, images) == lowered_blocks(b + tail, images),
    decreases tail.len(),
{
    if tail.len() == 0 {
        assert(a + tail =~= a);
        assert(b + tail =~= b);
    } else {
        lemma_same_tail(a, b, tail.drop_last(), images);
        assert((a + tail).drop_last() =~= a + tail.drop_last());
        assert((b + tail).drop_last() =~= b + tail.drop_last());
    }
}

/// The document after some more events.
pub open spec fn run(
    st: Flow,
    events: Seq<MdEvent<Seq<char>>>,
    images: Map<Seq<char>, Seq<Seq<bool>>>,
) -> Flow
    decreases events.len(),
{
    if events.len() == 0 {
        st
    } else {
        run(st, events.drop_last(), images).step(events.last(), images)
    }
}

pub proof fn lemma_run(
    before: Seq<MdEvent<Seq<char>>>,
    events: Seq<MdEvent<Seq<char>>>,
    images: Map<Seq<char>, Seq<Seq<bool>>>,
)
    ensures
        flow_after(before + events, images) == run(flow_after(before, images), events, images),
    decreases events.len(),
{
    if events.len() == 0 {
        assert(before + events =~= before);
    } else {
        lemma_run(before, events.drop_last(), images);
        lemma_one_more(before + events.drop_last(), events.last(), images);
        assert(before + events.drop_last() + seq![events.last()] =~= before + events);
    }
}

pub proof fn lemma_run_one(
    st: Flow,
    event: MdEvent<Seq<char>>,
    images: Map<Seq<char>, Seq<Seq<bool>>>,
)
    ensures
        run(st, seq![event], images) == st.step(event, images),
{
    assert(seq![event].drop_last() =~= Seq::empty());
    reveal_with_fuel(run, 2);
}

pub proof fn lemma_run_add(
    st: Flow,
    a: Seq<MdEvent<Seq<char>>>,
    b: Seq<MdEvent<Seq<char>>>,
    images: Map<Seq<char>, Seq<Seq<bool>>>,
)
    ensures
        run(st, a + b, images) == run(run(st, a, images), b, images),
    decreases b.len(),
{
    if b.len() == 0 {
        assert(a + b =~= a);
    } else {
        lemma_run_add(st, a, b.drop_last(), images);
        assert((a + b).drop_last() =~= a + b.drop_last());
    }
}

/// Where two stretches of a document lead to the same point, one can stand for the other.
pub proof fn lemma_replace(
    before: Seq<MdEvent<Seq<char>>>,
    a: Seq<MdEvent<Seq<char>>>,
    b: Seq<MdEvent<Seq<char>>>,
    after: Seq<MdEvent<Seq<char>>>,
    images: Map<Seq<char>, Seq<Seq<bool>>>,
)
    requires
        run(flow_after(before, images), a, images) == run(flow_after(before, images), b, images),
    ensures
        lowered_blocks(before + a + after, images) == lowered_blocks(before + b + after, images),
{
    lemma_run(before, a, images);
    lemma_run(before, b, images);
    lemma_same_tail(before + a, before + b, after, images);
}

/// Whether every event is one that changes nothing.
pub open spec fn all_other(events: Seq<MdEvent<Seq<char>>>) -> bool {
    forall|i: int| 0 <= i < events.len() ==> (#[trigger] events[i]) is Other
}

pub proof fn lemma_other(
    before: Seq<MdEvent<Seq<char>>>,
    between: Seq<MdEvent<Seq<char>>>,
    images: Map<Seq<char>, Seq<Seq<bool>>>,
)
    requires
        all_other(between),
    ensures
        flow_after(before + between, images) == flow_after(before, images),
    decreases between.len(),
{
    reveal(Flow::step);
    if between.len() == 0 {
        assert(before + between =~= before);
    } else {
        lemma_other(before, between.drop_last(), images);
        assert((before + between).drop_last() =~= before + between.drop_last());
        assert((before + between).last() == between[between.len() - 1]);
    }
}

/// Inline HTML, links and whatever else is no part of a page leave no trace in it: the document
/// prints as it would without them.
pub proof fn law_other_markup_leaves_no_trace(
    before: Seq<MdEvent<Seq<char>>>,
    between: Seq<MdEvent<Seq<char>>>,
    after: Seq<MdEvent<Seq<char>>>,
    images: Map<Seq<char>, Seq<Seq<bool>>>,
)
    requires
        all_other(between),
    ensures
        lowered_blocks(before + between + after, images) == lowered_blocks(before + after, images),
{
    lemma_other(before, between, images);
    lemma_same_tail(before + between, before, after, images);
}

/// Inline code prints like the same words without backticks.
pub proof fn law_inline_code_prints_as_text(
    before: Seq<MdEvent<Seq<char>>>,
    text: Seq<char>,
    after: Seq<MdEvent<Seq<char>>>,
    images: Map<Seq<char>, Seq<Seq<bool>>>,
)
    requires
        !flow_after(before, images).in_code,
    ensures
        lowered_blocks(before + seq![MdEvent::Code(text)] + after, images) == lowered_blocks(
            before + seq![MdEvent::Text(text)] + after,
            images,
        ),
{
    reveal(Flow::step);
    lemma_one_more(before, MdEvent::Code(text), images);
    lemma_one_more(before, MdEvent::Text(text), images);
    lemma_same_tail(
        before + seq![MdEvent::Code(text)],
        before + seq![MdEvent::Text(text)],
        after,
        images,
    );
}

proof fn lemma_item_paragraph(st: Flow, images: Map<Seq<char>, Seq<Seq<bool>>>)
    ensures
        st.step(MdEvent::Start(MdTag::Item), images).step(MdEvent::Start(MdTag::Paragraph), images)
            == st.step(MdEvent::Start(MdTag::Item), images),
{
    reveal(Flow::step);
    if st.images == 0 {
        let opened = st.start_item();
        assert(opened.depth() == st.depth());
        assert(opened.indented(opened.depth()) =~= opened);
    }
}

proof fn lemma_paragraph_item_end(st: Flow, images: Map<Seq<char>, Seq<Seq<bool>>>)
    requires
        st.lists.len() > 0 || st.images > 0,
    ensures
        st.step(MdEvent::End(MdTagEnd::Paragraph), images).step(
            MdEvent::End(MdTagEnd::Item),
            images,
        ) == st.step(MdEvent::End(MdTagEnd::Item), images),
{
    reveal(Flow::step);
    if st.images == 0 {
        assert(st.flush_line().flush_line() =~= st.flush_line());
    }
}

/// Loose and tight lists print the same: an item whose text is a paragraph of its own prints like
/// one that holds the text directly.
pub proof fn law_loose_lists_print_as_tight(
    before: Seq<MdEvent<Seq<char>>>,
    text: Seq<MdEvent<Seq<char>>>,
    after: Seq<MdEvent<Seq<char>>>,
    images: Map<Seq<char>, Seq<Seq<bool>>>,
)
    requires
        ({
            let open = flow_after(before + seq![MdEvent::Start(MdTag::Item)] + text, images);
            open.lists.len() > 0 || open.images > 0
        }),
    ensures
        lowered_blocks(
            before + seq![MdEvent::Start(MdTag::Item)] + seq![MdEvent::Start(MdTag::Paragraph)]
                + text + seq![MdEvent::End(MdTagEnd::Paragraph)] + seq![
                MdEvent::End(MdTagEnd::Item),
            ] + after,
            images,
        ) == lowered_blocks(
            before + seq![MdEvent::Start(MdTag::Item)] + text + seq![MdEvent::End(MdTagEnd::Item)]
                + after,
            images,
        ),
{
    let item = MdEvent::<Seq<char>>::Start(MdTag::Item);
    let para = MdEvent::<Seq<char>>::Start(MdTag::Paragraph);
    let end_item = MdEvent::<Seq<char>>::End(MdTagEnd::Item);
    let end_para = MdEvent::<Seq<char>>::End(MdTagEnd::Paragraph);
    let tight = before + seq![item];
    let loose = tight + seq![para];
    lemma_one_more(before, item, images);
    lemma_one_more(tight, para, images);
    lemma_item_paragraph(flow_after(before, images), images);
    lemma_same_tail(loose, tight, text, images);
    lemma_one_more(tight + text, end_item, images);
    lemma_one_more(loose + text, end_para, images);
    lemma_one_more(loose + text + seq![end_para], end_item, images);
    lemma_paragraph_item_end(flow_after(tight + text, images), images);
    lemma_same_tail(
        loose + text + seq![end_para] + seq![end_item],
        tight + text + seq![end_item],
        after,
        images,
    );
}

/// Whether an event sets text in a style that an open emphasis makes italic.
pub open spec fn shows_italic(st: Flow, event: MdEvent<Seq<char>>) -> bool {
    &&& st.images == 0
    &&& st.bold == 0 && st.quotes == 0 && st.heading is None
    &&& match event {
        MdEvent::Text(_) => !st.in_table && !st.in_code,
        MdEvent::Code(_) => !st.in_table,
        MdEvent::SoftBreak => !st.in_table,
        MdEvent::TaskListMarker(_) => true,
        MdEvent::Start(MdTag::Item) => true,
        _ => false,
    }
}

/// Whether an event opens or closes an emphasis.
pub open spec fn is_emphasis(event: MdEvent<Seq<char>>) -> bool {
    match event {
        MdEvent::Start(MdTag::Emphasis) => true,
        MdEvent::End(MdTagEnd::Emphasis) => true,
        _ => false,
    }
}

/// The document with another number of open emphases.
pub open spec fn with_italic(st: Flow, n: nat) -> Flow {
    Flow { italic: n, ..st }
}

/// Whether two documents stand at the same point.
pub open spec fn same(a: Flow, b: Flow) -> bool {
    a == b
}

/// Whether an event stands inside a paragraph: text, breaks, inline markup and images.
pub open spec fn is_inline(event: MdEvent<Seq<char>>) -> bool {
    match event {
        MdEvent::Text(_) | MdEvent::Code(_) | MdEvent::SoftBreak | MdEvent::HardBreak => true,
        MdEvent::Start(tag) => tag is Emphasis || tag is Strong || tag is Strikethrough
            || tag is Image || tag is Other,
        MdEvent::End(tag) => tag is Emphasis || tag is Strong || tag is Strikethrough
            || tag is Image || tag is Other,
        MdEvent::Other => true,
        _ => false,
    }
}

proof fn lemma_code_text_italic(st: Flow, text: Seq<char>, n: nat)
    ensures
        same(with_italic(st, n).push_code_text(text), with_italic(st.push_code_text(text), n)),
    decreases text.len(),
{
    if text.len() > 0 {
        lemma_code_text_italic(st, text.drop_last(), n);
    }
}

proof fn lemma_text_italic(st: Flow, text: Seq<char>, n: nat)
    requires
        st.in_table || st.in_code || st.bold > 0 || st.quotes > 0 || st.heading is Some,
    ensures
        same(with_italic(st, n).text(text), with_italic(st.text(text), n)),
{
    lemma_code_text_italic(st, text, n);
}

proof fn lemma_image_italic(
    st: Flow,
    event: MdEvent<Seq<char>>,
    images: Map<Seq<char>, Seq<Seq<bool>>>,
    n: nat,
)
    ensures
        same(
            with_italic(st, n).handle_in_image(event, images),
            with_italic(st.handle_in_image(event, images), n),
        ),
{
}

proof fn lemma_tag_italic(st: Flow, start: MdTag<Seq<char>>, end: MdTagEnd, n: nat)
    ensures
        start is Strong || start is Strikethrough || start is Image || start is Other ==> same(
            with_italic(st, n).start(start),
            with_italic(st.start(start), n),
        ),
        end is Strong || end is Strikethrough || end is Image || end is Other ==> same(
            with_italic(st, n).end(end),
            with_italic(st.end(end), n),
        ),
{
}

proof fn lemma_italic_step(
    st: Flow,
    event: MdEvent<Seq<char>>,
    images: Map<Seq<char>, Seq<Seq<bool>>>,
    n: nat,
)
    requires
        is_inline(event),
        !is_emphasis(event),
        !shows_italic(st, event),
    ensures
        same(with_italic(st, n).step(event, images), with_italic(st.step(event, images), n)),
{
    reveal(Flow::step);
    if st.images > 0 {
        lemma_image_italic(st, event, images, n);
    } else {
        match event {
            MdEvent::Start(tag) => lemma_tag_italic(st, tag, MdTagEnd::Other, n),
            MdEvent::End(tag) => lemma_tag_italic(st, MdTag::Other, tag, n),
            MdEvent::Text(text) => lemma_text_italic(st, text, n),
            _ => {},
        }
    }
}

proof fn lemma_italic_stays(
    st: Flow,
    event: MdEvent<Seq<char>>,
    images: Map<Seq<char>, Seq<Seq<bool>>>,
    n: nat,
)
    requires
        is_inline(event),
        !is_emphasis(event),
        !shows_italic(st, event),
    ensures
        same(with_italic(st, n).step(event, images), with_italic(st.step(event, images), n)),
        st.step(event, images).italic == st.italic,
{
    lemma_italic_step(st, event, images, n);
    lemma_italic_step(st, event, images, st.italic);
    assert(same(with_italic(st, st.italic), st));
}

proof fn lemma_italic_run(
    st: Flow,
    body: Seq<MdEvent<Seq<char>>>,
    images: Map<Seq<char>, Seq<Seq<bool>>>,
    n: nat,
)
    requires
        forall|k: int|
            0 <= k < body.len() ==> is_inline(#[trigger] body[k]) && !is_emphasis(body[k]),
        forall|k: int|
            0 <= k < body.len() ==> !shows_italic(run(st, #[trigger] body.take(k), images), body[k]),
    ensures
        same(run(with_italic(st, n), body, images), with_italic(run(st, body, images), n)),
        run(st, body, images).italic == st.italic,
    decreases body.len(),
{
    if body.len() > 0 {
        let front = body.drop_last();
        assert forall|k: int| 0 <= k < front.len() implies !shows_italic(
            run(st, #[trigger] front.take(k), images),
            front[k],
        ) by {
            assert(front.take(k) =~= body.take(k));
        }
        lemma_italic_run(st, front, images, n);
        assert(body.take(body.len() - 1) =~= front);
        lemma_italic_stays(run(st, front, images), body.last(), images, n);
    }
}

proof fn lemma_emphasis_tags(st: Flow, n: nat, images: Map<Seq<char>, Seq<Seq<bool>>>)
    requires
        st.images == 0,
        st.italic == n,
    ensures
        same(st.step(MdEvent::Start(MdTag::Emphasis), images), with_italic(st, n + 1)),
        same(with_italic(st, n + 1).step(MdEvent::End(MdTagEnd::Emphasis), images), st),
{
    reveal(Flow::step);
}

proof fn lemma_hidden_emphasis(
    st: Flow,
    body: Seq<MdEvent<Seq<char>>>,
    images: Map<Seq<char>, Seq<Seq<bool>>>,
)
    requires
        st.images == 0,
        run(st, body, images).images == 0,
        forall|k: int|
            0 <= k < body.len() ==> is_inline(#[trigger] body[k]) && !is_emphasis(body[k]),
        forall|k: int|
            0 <= k < body.len() ==> !shows_italic(run(st, #[trigger] body.take(k), images), body[k]),
    ensures
        run(
            st,
            seq![MdEvent::Start(MdTag::Emphasis)] + body + seq![MdEvent::End(MdTagEnd::Emphasis)],
            images,
        ) == run(st, body, images),
{
    let open = MdEvent::<Seq<char>>::Start(MdTag::Emphasis);
    let close = MdEvent::<Seq<char>>::End(MdTagEnd::Emphasis);
    lemma_run_add(st, seq![open] + body, seq![close], images);
    lemma_run_add(st, seq![open], body, images);
    lemma_run_one(st, open, images);
    lemma_italic_run(st, body, images, st.italic + 1);
    let done = run(st, body, images);
    lemma_run_one(with_italic(done, st.italic + 1), close, images);
    lemma_emphasis_tags(st, st.italic, images);
    lemma_emphasis_tags(done, st.italic, images);
}

/// An emphasis that cannot be seen changes nothing: where all its text is bold, in a heading, in a
/// quote or in a table, the document prints as it would without the emphasis.
pub proof fn law_hidden_emphasis_changes_nothing(
    before: Seq<MdEvent<Seq<char>>>,
    body: Seq<MdEvent<Seq<char>>>,
    after: Seq<MdEvent<Seq<char>>>,
    images: Map<Seq<char>, Seq<Seq<bool>>>,
)
    requires
        flow_after(before, images).images == 0,
        flow_after(before + body, images).images == 0,
        forall|k: int|
            0 <= k < body.len() ==> is_inline(#[trigger] body[k]) && !is_emphasis(body[k]),
        forall|k: int|
            0 <= k < body.len() ==> !shows_italic(
                flow_after(before + #[trigger] body.take(k), images),
                body[k],
            ),
    ensures
        lowered_blocks(
            before + (seq![MdEvent::Start(MdTag::Emphasis)] + body + seq![
                MdEvent::End(MdTagEnd::Emphasis),
            ]) + after,
            images,
        ) == lowered_blocks(before + body + after, images),
{
    let st = flow_after(before, images);
    assert forall|k: int| 0 <= k < body.len() implies !shows_italic(
        run(st, #[trigger] body.take(k), images),
        body[k],
    ) by {
        lemma_run(before, body.take(k), images);
    }
    lemma_run(before, body, images);
    lemma_hidden_emphasis(st, body, images);
    lemma_replace(
        before,
        seq![MdEvent::Start(MdTag::Emphasis)] + body + seq![MdEvent::End(MdTagEnd::Emphasis)],
        body,
        after,
        images,
    );
}

/// Whether an event belongs to a list of texts: inline events, paragraphs, items, checkboxes and
/// lists in lists.
pub open spec fn in_text_list(event: MdEvent<Seq<char>>) -> bool {
    match event {
        MdEvent::TaskListMarker(_) => true,
        MdEvent::Start(tag) => tag is List || tag is Item || tag is Paragraph || is_inline(event),
        MdEvent::End(tag) => tag is List || tag is Item || tag is Paragraph || is_inline(event),
        _ => is_inline(event),
    }
}

/// The document with other list numbers.
pub open spec fn with_lists(st: Flow, lists: Seq<Option<u64>>) -> Flow {
    Flow { lists, ..st }
}

/// Whether two documents stand at the same point but for the numbers of the lists that opened
/// after the first `d`.
pub open spec fn same_but_numbers(a: Flow, b: Flow, d: nat) -> bool {
    &&& same(a, with_lists(b, a.lists))
    &&& a.lists.len() == b.lists.len()
    &&& d <= a.lists.len()
    &&& a.lists.take(d as int) == b.lists.take(d as int)
}

proof fn lemma_code_text_lists(st: Flow, text: Seq<char>, lists: Seq<Option<u64>>)
    ensures
        same(with_lists(st, lists).push_code_text(text), with_lists(st.push_code_text(text), lists)),
    decreases text.len(),
{
    if text.len() > 0 {
        lemma_code_text_lists(st, text.drop_last(), lists);
    }
}

proof fn lemma_image_lists(
    st: Flow,
    event: MdEvent<Seq<char>>,
    images: Map<Seq<char>, Seq<Seq<bool>>>,
    lists: Seq<Option<u64>>,
)
    ensures
        same(
            with_lists(st, lists).handle_in_image(event, images),
            with_lists(st.handle_in_image(event, images), lists),
        ),
        st.handle_in_image(event, images).lists == st.lists,
{
}

proof fn lemma_start_lists(st: Flow, tag: MdTag<Seq<char>>, lists: Seq<Option<u64>>)
    requires
        lists.len() == st.lists.len(),
        is_inline(MdEvent::Start(tag)) || tag is Paragraph,
    ensures
        same(with_lists(st, lists).start(tag), with_lists(st.start(tag), lists)),
        st.start(tag).lists == st.lists,
{
}

proof fn lemma_paragraph_end_lists(st: Flow, lists: Seq<Option<u64>>)
    requires
        lists.len() == st.lists.len(),
    ensures
        same(
            with_lists(st, lists).end(MdTagEnd::Paragraph),
            with_lists(st.end(MdTagEnd::Paragraph), lists),
        ),
        st.end(MdTagEnd::Paragraph).lists == st.lists,
{
}

proof fn lemma_end_lists(st: Flow, tag: MdTagEnd, lists: Seq<Option<u64>>)
    requires
        lists.len() == st.lists.len(),
        is_inline(MdEvent::End(tag)) || tag is Item,
    ensures
        same(with_lists(st, lists).end(tag), with_lists(st.end(tag), lists)),
        st.end(tag).lists == st.lists,
{
}

proof fn lemma_list_tags(st: Flow, first: Option<u64>, lists: Seq<Option<u64>>)
    requires
        lists.len() == st.lists.len(),
    ensures
        same(
            with_lists(st, lists).start(MdTag::List(first)),
            with_lists(st.start(MdTag::List(first)), lists.push(first)),
        ),
        st.start(MdTag::List(first)).lists == st.lists.push(first),
        st.lists.len() > 0 ==> same(
            with_lists(st, lists).end(MdTagEnd::List),
            with_lists(st.end(MdTagEnd::List), lists.drop_last()),
        ) && st.end(MdTagEnd::List).lists == st.lists.drop_last(),
{
}

proof fn lemma_lists_step(
    a: Flow,
    b: Flow,
    event: MdEvent<Seq<char>>,
    images: Map<Seq<char>, Seq<Seq<bool>>>,
    d: nat,
)
    requires
        same_but_numbers(a, b, d),
        in_text_list(event),
        event != MdEvent::<Seq<char>>::Start(MdTag::Item),
        b.lists.len() > d,
    ensures
        same_but_numbers(a.step(event, images), b.step(event, images), d),
{
    reveal(Flow::step);
    if b.images > 0 {
        lemma_image_lists(b, event, images, a.lists);
    } else {
        match event {
            MdEvent::Start(MdTag::List(first)) => {
                lemma_list_tags(b, first, a.lists);
                assert(a.lists.push(first).take(d as int) =~= a.lists.take(d as int));
                assert(b.lists.push(first).take(d as int) =~= b.lists.take(d as int));
            },
            MdEvent::End(MdTagEnd::List) => {
                lemma_list_tags(b, None, a.lists);
                assert(a.lists.drop_last().take(d as int) =~= a.lists.take(d as int));
                assert(b.lists.drop_last().take(d as int) =~= b.lists.take(d as int));
            },
            MdEvent::Start(tag) => lemma_start_lists(b, tag, a.lists),
            MdEvent::End(MdTagEnd::Paragraph) => lemma_paragraph_end_lists(b, a.lists),
            MdEvent::End(tag) => lemma_end_lists(b, tag, a.lists),
            MdEvent::Text(text) => {
                lemma_code_text_lists(b, text, a.lists);
                lemma_code_text(b, text);
            },
            _ => {},
        }
    }
}

proof fn lemma_task_item(a: Flow, b: Flow, checked: bool, d: nat)
    requires
        same_but_numbers(a, b, d),
        b.lists.len() > d,
    ensures
        same_but_numbers(a.start_item().checkbox(checked), b.start_item().checkbox(checked), d),
{
    let x = a.start_item().checkbox(checked);
    let y = b.start_item().checkbox(checked);
    law_checkbox_replaces_prefix(a, checked);
    law_checkbox_replaces_prefix(b, checked);
    assert(x.current == y.current);
    assert(x.lists.take(d as int) =~= a.lists.take(d as int));
    assert(y.lists.take(d as int) =~= b.lists.take(d as int));
}

proof fn lemma_item_checkbox(
    st: Flow,
    checked: bool,
    images: Map<Seq<char>, Seq<Seq<bool>>>,
)
    ensures
        same(
            st.step(MdEvent::Start(MdTag::Item), images).step(
                MdEvent::TaskListMarker(checked),
                images,
            ),
            if st.images > 0 {
                st
            } else {
                st.start_item().checkbox(checked)
            },
        ),
{
    reveal(Flow::step);
}

proof fn lemma_task_step(
    a: Flow,
    b: Flow,
    checked: bool,
    images: Map<Seq<char>, Seq<Seq<bool>>>,
    d: nat,
)
    requires
        same_but_numbers(a, b, d),
        b.lists.len() > d,
    ensures
        same_but_numbers(
            a.step(MdEvent::Start(MdTag::Item), images).step(
                MdEvent::TaskListMarker(checked),
                images,
            ),
            b.step(MdEvent::Start(MdTag::Item), images).step(
                MdEvent::TaskListMarker(checked),
                images,
            ),
            d,
        ),
{
    lemma_item_checkbox(a, checked, images);
    lemma_item_checkbox(b, checked, images);
    lemma_task_item(a, b, checked, d);
}

/// Whether every item of some events begins with a checkbox.
pub open spec fn all_tasks(events: Seq<MdEvent<Seq<char>>>) -> bool {
    forall|k: int|
        0 <= k < events.len() && (#[trigger] events[k]) == MdEvent::<Seq<char>>::Start(MdTag::Item)
            ==> k + 1 < events.len() && events[k + 1] is TaskListMarker
}

proof fn lemma_tasks_run(
    a: Flow,
    b: Flow,
    body: Seq<MdEvent<Seq<char>>>,
    n: int,
    images: Map<Seq<char>, Seq<Seq<bool>>>,
    d: nat,
)
    requires
        0 <= n <= body.len(),
        n > 0 ==> body[n - 1] != MdEvent::<Seq<char>>::Start(MdTag::Item),
        same_but_numbers(a, b, d),
        all_tasks(body),
        forall|k: int| 0 <= k < body.len() ==> in_text_list(#[trigger] body[k]),
        forall|k: int|
            0 <= k < body.len() ==> run(b, #[trigger] body.take(k), images).lists.len() > d,
    ensures
        same_but_numbers(run(a, body.take(n), images), run(b, body.take(n), images), d),
    decreases n,
{
    let item = MdEvent::<Seq<char>>::Start(MdTag::Item);
    if n > 0 {
        assert(body.take(n).drop_last() =~= body.take(n - 1));
        assert(body.take(n).last() == body[n - 1]);
        if n > 1 && body[n - 2] == item {
            assert(body.take(n - 1).drop_last() =~= body.take(n - 2));
            assert(body.take(n - 1).last() == body[n - 2]);
            assert(n > 2 ==> body[n - 3] != item) by {
                if n > 2 && body[n - 3] == item {
                    assert(body[n - 3 + 1] is TaskListMarker);
                }
            }
            lemma_tasks_run(a, b, body, n - 2, images, d);
            let checked = body[n - 1]->TaskListMarker_0;
            lemma_task_step(
                run(a, body.take(n - 2), images),
                run(b, body.take(n - 2), images),
                checked,
                images,
                d,
            );
        } else {
            lemma_tasks_run(a, b, body, n - 1, images, d);
            lemma_lists_step(
                run(a, body.take(n - 1), images),
                run(b, body.take(n - 1), images),
                body[n - 1],
                images,
                d,
            );
        }
    }
}

proof fn lemma_list_open(
    st: Flow,
    x: Option<u64>,
    y: Option<u64>,
    images: Map<Seq<char>, Seq<Seq<bool>>>,
)
    requires
        st.images == 0,
    ensures
        same_but_numbers(
            st.step(MdEvent::Start(MdTag::List(x)), images),
            st.step(MdEvent::Start(MdTag::List(y)), images),
            st.lists.len(),
        ),
{
    reveal(Flow::step);
    assert(st.lists.push(x).take(st.lists.len() as int) =~= st.lists);
    assert(st.lists.push(y).take(st.lists.len() as int) =~= st.lists);
}

proof fn lemma_list_close(
    a: Flow,
    b: Flow,
    images: Map<Seq<char>, Seq<Seq<bool>>>,
    d: nat,
)
    requires
        same_but_numbers(a, b, d),
        b.images == 0,
        b.lists.len() == d + 1,
    ensures
        same(
            a.step(MdEvent::End(MdTagEnd::List), images),
            b.step(MdEvent::End(MdTagEnd::List), images),
        ),
{
    reveal(Flow::step);
    lemma_list_tags(b, None, a.lists);
    assert(a.lists.drop_last() =~= a.lists.take(d as int));
    assert(b.lists.drop_last() =~= b.lists.take(d as int));
}

proof fn lemma_task_list(
    st: Flow,
    x: Option<u64>,
    y: Option<u64>,
    body: Seq<MdEvent<Seq<char>>>,
    images: Map<Seq<char>, Seq<Seq<bool>>>,
)
    requires
        st.images == 0,
        all_tasks(body),
        forall|k: int| 0 <= k < body.len() ==> in_text_list(#[trigger] body[k]),
        forall|k: int|
            0 <= k < body.len() ==> run(
                st.step(MdEvent::Start(MdTag::List(y)), images),
                #[trigger] body.take(k),
                images,
            ).lists.len() > st.lists.len(),
        ({
            let done = run(st.step(MdEvent::Start(MdTag::List(y)), images), body, images);
            done.images == 0 && done.lists.len() == st.lists.len() + 1
        }),
    ensures
        same(
            run(
                st,
                seq![MdEvent::Start(MdTag::List(x))] + body + seq![MdEvent::End(MdTagEnd::List)],
                images,
            ),
            run(
                st,
                seq![MdEvent::Start(MdTag::List(y))] + body + seq![MdEvent::End(MdTagEnd::List)],
                images,
            ),
        ),
{
    let d = st.lists.len();
    let ox = MdEvent::<Seq<char>>::Start(MdTag::List(x));
    let oy = MdEvent::<Seq<char>>::Start(MdTag::List(y));
    let close = MdEvent::<Seq<char>>::End(MdTagEnd::List);
    lemma_run_add(st, seq![ox] + body, seq![close], images);
    lemma_run_add(st, seq![oy] + body, seq![close], images);
    lemma_run_add(st, seq![ox], body, images);
    lemma_run_add(st, seq![oy], body, images);
    lemma_run_one(st, ox, images);
    lemma_run_one(st, oy, images);
    let a = st.step(ox, images);
    let b = st.step(oy, images);
    lemma_list_open(st, x, y, images);
    if body.len() > 0 {
        let last = body[body.len() - 1];
        assert(last != MdEvent::<Seq<char>>::Start(MdTag::Item));
    }
    lemma_tasks_run(a, b, body, body.len() as int, images, d);
    assert(body.take(body.len() as int) =~= body);
    let p = run(a, body, images);
    let q = run(b, body, images);
    lemma_run_one(p, close, images);
    lemma_run_one(q, close, images);
    lemma_list_close(p, q, images, d);
}

/// A task list has no numbers: where every item begins with a checkbox, an ordered list prints
/// like a bullet list, wherever it starts to count.
pub proof fn law_task_lists_have_no_numbers(
    before: Seq<MdEvent<Seq<char>>>,
    x: Option<u64>,
    y: Option<u64>,
    body: Seq<MdEvent<Seq<char>>>,
    after: Seq<MdEvent<Seq<char>>>,
    images: Map<Seq<char>, Seq<Seq<bool>>>,
)
    requires
        flow_after(before, images).images == 0,
        all_tasks(body),
        forall|k: int| 0 <= k < body.len() ==> in_text_list(#[trigger] body[k]),
        forall|k: int|
            0 <= k < body.len() ==> flow_after(
                before + seq![MdEvent::Start(MdTag::List(y))] + #[trigger] body.take(k),
                images,
            ).lists.len() > flow_after(before, images).lists.len(),
        ({
            let done = flow_after(before + seq![MdEvent::Start(MdTag::List(y))] + body, images);
            done.images == 0 && done.lists.len() == flow_after(before, images).lists.len() + 1
        }),
    ensures
        lowered_blocks(
            before + (seq![MdEvent::Start(MdTag::List(x))] + body + seq![
                MdEvent::End(MdTagEnd::List),
            ]) + after,
            images,
        ) == lowered_blocks(
            before + (seq![MdEvent::Start(MdTag::List(y))] + body + seq![
                MdEvent::End(MdTagEnd::List),
            ]) + after,
            images,
        ),
{
    let st = flow_after(before, images);
    let open = before + seq![MdEvent::<Seq<char>>::Start(MdTag::List(y))];
    lemma_one_more(before, MdEvent::Start(MdTag::List(y)), images);
    assert forall|k: int| 0 <= k < body.len() implies run(
        st.step(MdEvent::Start(MdTag::List(y)), images),
        #[trigger] body.take(k),
        images,
    ).lists.len() > st.lists.len() by {
        lemma_run(open, body.take(k), images);
    }
    lemma_run(open, body, images);
    lemma_task_list(st, x, y, body, images);
    lemma_replace(
        before,
        seq![MdEvent::Start(MdTag::List(x))] + body + seq![MdEvent::End(MdTagEnd::List)],
        seq![MdEvent::Start(MdTag::List(y))] + body + seq![MdEvent::End(MdTagEnd::List)],
        after,
        images,
    );
}

} // verus!
