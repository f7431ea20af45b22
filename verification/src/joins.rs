//! Where a text is cut in two does not show: a page goes by its characters and their styles.

use vstd::prelude::*;

use crate::documents::{all_other, lemma_one_more, lemma_other};
use crate::events::{MdEvent, MdTag, MdTagEnd, TablePart};
use crate::fences::{placeholder, wagara_parts, Fence};
use crate::glyphs::{plain_style, FontStyle, SheetView, Style};
use crate::layout::{
    laid_out, largest_size, lay_line, normalized, styled, styled_chars, LineView, SpanView,
};
use crate::lowering::{
    code_line, flow_after, item_prefix, lemma_code_text, less, lowered_blocks,
    without_trailing_blanks, BlockView, Flow, BODY_SIZE,
};
use crate::markdown::{block_pages, block_rows, document_rows, ArtworkView};
use crate::rich::rich_rows;
use crate::table::table_lines;
use crate::text::trim;

verus! {

/// Whether a line break that spans `\r\n` is cut in two.
pub open spec fn cuts_break(a: Seq<char>, b: Seq<char>) -> bool {
    a.len() > 0 && b.len() > 0 && a.last() == '\r' && b[0] == '\n'
}

proof fn lemma_normalized_join(a: Seq<char>, b: Seq<char>)
    requires
        !cuts_break(a, b),
    ensures
        normalized(a + b) == normalized(a) + normalized(b),
    decreases b.len(),
{
    if b.len() == 0 {
        assert(a + b =~= a);
        assert(normalized(a) + normalized(b) =~= normalized(a));
    } else {
        lemma_normalized_join(a, b.drop_last());
        assert((a + b).drop_last() =~= a + b.drop_last());
        assert((a + b).last() == b.last());
        let s = a + b;
        if b.len() > 1 {
            assert(s[s.len() - 2] == b[b.len() - 2]);
        } else if a.len() > 0 {
            assert(s[s.len() - 2] == a.last());
        }
        assert(normalized(s) =~= normalized(a) + normalized(b));
    }
}

/// Whether two lines show the same: the same characters in the same styles at the same indent, and
/// the same height.
pub open spec fn reads_as(a: LineView, b: LineView) -> bool {
    &&& a.indent == b.indent
    &&& a.spans.len() == 0 <==> b.spans.len() == 0
    &&& styled_chars(a.spans) == styled_chars(b.spans)
    &&& largest_size(a.spans) == largest_size(b.spans)
}

/// Whether two texts show the same, line by line.
pub open spec fn lines_read_as(a: Seq<LineView>, b: Seq<LineView>) -> bool {
    &&& a.len() == b.len()
    &&& forall|i: int| #![trigger a[i]] #![trigger b[i]] 0 <= i < a.len() ==> reads_as(a[i], b[i])
}

/// Whether two blocks show the same.
pub open spec fn block_reads_as(a: BlockView, b: BlockView) -> bool {
    match (a, b) {
        (BlockView::Lines(x, s), BlockView::Lines(y, t)) => s == t && lines_read_as(x, y),
        _ => a == b,
    }
}

/// Whether two sequences of blocks show the same.
pub open spec fn blocks_read_as(a: Seq<BlockView>, b: Seq<BlockView>) -> bool {
    &&& a.len() == b.len()
    &&& forall|i: int|
        #![trigger a[i]]
        #![trigger b[i]]
        0 <= i < a.len() ==> block_reads_as(a[i], b[i])
}

/// Whether two documents stand at the same point but for where their texts are cut.
pub open spec fn alike(a: Flow, b: Flow) -> bool {
    &&& b == (Flow { blocks: b.blocks, lines: b.lines, current: b.current, ..a })
    &&& reads_as(a.current, b.current)
    &&& lines_read_as(a.lines, b.lines)
    &&& blocks_read_as(a.blocks, b.blocks)
}

proof fn lemma_cut_reads_as(line: LineView, a: Seq<char>, b: Seq<char>, style: Style)
    requires
        !cuts_break(a, b),
    ensures
        reads_as(
            LineView {
                spans: line.spans.push(SpanView { text: a, style }).push(
                    SpanView { text: b, style },
                ),
                indent: line.indent,
            },
            LineView {
                spans: line.spans.push(SpanView { text: a + b, style }),
                indent: line.indent,
            },
        ),
{
    let first = line.spans.push(SpanView { text: a, style });
    let cut = first.push(SpanView { text: b, style });
    let whole = line.spans.push(SpanView { text: a + b, style });
    lemma_normalized_join(a, b);
    assert(first.drop_last() =~= line.spans);
    assert(cut.drop_last() =~= first);
    assert(whole.drop_last() =~= line.spans);
    assert(styled(normalized(a + b), style) =~= styled(normalized(a), style) + styled(
        normalized(b),
        style,
    ));
    reveal_with_fuel(styled_chars, 3);
    reveal_with_fuel(largest_size, 3);
    assert(styled_chars(cut) =~= styled_chars(whole));
}

proof fn lemma_same_layout(a: Seq<LineView>, b: Seq<LineView>, sheet: SheetView)
    requires
        lines_read_as(a, b),
    ensures
        laid_out(a, sheet) == laid_out(b, sheet),
    decreases a.len(),
{
    if a.len() > 0 {
        assert(reads_as(a[a.len() - 1], b[b.len() - 1]));
        assert(lines_read_as(a.drop_last(), b.drop_last())) by {
            assert forall|i: int| 0 <= i < a.len() - 1 implies reads_as(
                #[trigger] a.drop_last()[i],
                b.drop_last()[i],
            ) by {
                assert(reads_as(a[i], b[i]));
            }
        }
        lemma_same_layout(a.drop_last(), b.drop_last(), sheet);
        let st = laid_out(a.drop_last(), sheet);
        assert(lay_line(st, a.last(), sheet) == lay_line(st, b.last(), sheet));
    }
}

/// Blocks that show the same are drawn with the same pixels.
pub proof fn law_pages_go_by_characters(
    a: Seq<BlockView>,
    b: Seq<BlockView>,
    art: ArtworkView,
)
    requires
        blocks_read_as(a, b),
    ensures
        block_pages(a, art) == block_pages(b, art),
{
    assert forall|i: int| 0 <= i < a.len() implies block_rows(#[trigger] a[i], art) == block_rows(
        b[i],
        art,
    ) by {
        assert(block_reads_as(a[i], b[i]));
        match (a[i], b[i]) {
            (BlockView::Lines(x, s), BlockView::Lines(y, t)) => {
                lemma_same_layout(x, y, art.sheet);
                assert(rich_rows(x, art.sheet, s) == rich_rows(y, art.sheet, t));
            },
            _ => {},
        }
    }
    assert(block_pages(a, art) =~= block_pages(b, art));
}

proof fn lemma_push_alike(a: Flow, b: Flow, text: Seq<char>, style: Style)
    requires
        alike(a, b),
    ensures
        alike(a.push_styled(text, style), b.push_styled(text, style)),
{
    let span = SpanView { text, style };
    assert(a.current.spans.push(span).drop_last() =~= a.current.spans);
    assert(b.current.spans.push(span).drop_last() =~= b.current.spans);
    if a.current.spans.len() == 0 {
        assert(a.current.spans =~= b.current.spans);
    }
}

proof fn lemma_flush_line_alike(a: Flow, b: Flow)
    requires
        alike(a, b),
    ensures
        alike(a.flush_line(), b.flush_line()),
        a.flush_line().current == b.flush_line().current,
{
    if a.current.spans.len() == 0 {
        assert(a.current.spans =~= b.current.spans);
    }
}

proof fn lemma_push_blank_alike(a: Flow, b: Flow)
    requires
        alike(a, b),
    ensures
        alike(a.push_blank(), b.push_blank()),
{
    if a.lines.len() > 0 {
        assert(reads_as(a.lines[a.lines.len() - 1], b.lines[b.lines.len() - 1]));
    }
}

proof fn lemma_trimmed_alike(a: Seq<LineView>, b: Seq<LineView>)
    requires
        lines_read_as(a, b),
    ensures
        lines_read_as(without_trailing_blanks(a), without_trailing_blanks(b)),
    decreases a.len(),
{
    if a.len() > 0 {
        assert(reads_as(a[a.len() - 1], b[b.len() - 1]));
        assert(lines_read_as(a.drop_last(), b.drop_last())) by {
            assert forall|i: int| 0 <= i < a.len() - 1 implies reads_as(
                #[trigger] a.drop_last()[i],
                b.drop_last()[i],
            ) by {
                assert(reads_as(a[i], b[i]));
            }
        }
        lemma_trimmed_alike(a.drop_last(), b.drop_last());
    }
}

proof fn lemma_flush_block_alike(a: Flow, b: Flow)
    requires
        alike(a, b),
    ensures
        alike(a.flush_block(), b.flush_block()),
{
    lemma_flush_line_alike(a, b);
    lemma_trimmed_alike(a.flush_line().lines, b.flush_line().lines);
}

proof fn lemma_stack_alike(a: Flow, b: Flow, block: BlockView)
    requires
        alike(a, b),
    ensures
        alike(a.stack(block), b.stack(block)),
{
    lemma_flush_block_alike(a, b);
    match block {
        BlockView::Lines(x, s) => {
            assert(lines_read_as(x, x));
        },
        _ => {},
    }
}

proof fn lemma_code_alike(a: Flow, b: Flow, text: Seq<char>)
    requires
        alike(a, b),
    ensures
        alike(a.push_code_text(text), b.push_code_text(text)),
    decreases text.len(),
{
    if text.len() > 0 {
        lemma_code_alike(a, b, text.drop_last());
    }
}

proof fn lemma_start_item_alike(a: Flow, b: Flow)
    requires
        alike(a, b),
    ensures
        alike(a.start_item(), b.start_item()),
        a.start_item().current == b.start_item().current,
{
    lemma_flush_line_alike(a, b);
    let list = if a.lists.len() > 0 {
        Some(a.lists.last())
    } else {
        None
    };
    let lists = a.start_item().lists;
    let x = Flow { lists, ..a.flush_line().indented(a.depth()) };
    let y = Flow { lists, ..b.flush_line().indented(b.depth()) };
    assert(alike(x, y));
    lemma_push_alike(x, y, item_prefix(list), x.style());
}

proof fn lemma_start_code_alike(a: Flow, b: Flow, info: Seq<char>)
    requires
        alike(a, b),
    ensures
        alike(a.start_code(info), b.start_code(info)),
{
    lemma_flush_line_alike(a, b);
}

proof fn lemma_start_table_alike(a: Flow, b: Flow, part: TablePart)
    requires
        alike(a, b),
    ensures
        alike(a.start_table(part), b.start_table(part)),
{
    lemma_flush_line_alike(a, b);
    lemma_push_blank_alike(a.flush_line(), b.flush_line());
}

proof fn lemma_start_heading_alike(a: Flow, b: Flow, level: u8)
    requires
        alike(a, b),
    ensures
        alike(a.start(MdTag::Heading(level)), b.start(MdTag::Heading(level))),
{
    lemma_flush_line_alike(a, b);
    lemma_push_blank_alike(a.flush_line(), b.flush_line());
}

proof fn lemma_start_alike(a: Flow, b: Flow, tag: MdTag<Seq<char>>)
    requires
        alike(a, b),
    ensures
        alike(a.start(tag), b.start(tag)),
        tag is Item ==> a.start(tag).current == b.start(tag).current,
        tag is Paragraph && a.current == b.current ==> a.start(tag).current
            == b.start(tag).current,
{
    match tag {
        MdTag::Heading(level) => lemma_start_heading_alike(a, b, level),
        MdTag::Item => lemma_start_item_alike(a, b),
        MdTag::CodeBlock(Some(info)) => lemma_start_code_alike(a, b, info),
        MdTag::CodeBlock(None) => lemma_start_code_alike(a, b, Seq::empty()),
        MdTag::Table(part) => lemma_start_table_alike(a, b, part),
        _ => {},
    }
}

proof fn lemma_end_code_alike(a: Flow, b: Flow)
    requires
        alike(a, b),
    ensures
        alike(a.end_code(), b.end_code()),
{
    let x = Flow { in_code: false, fence: Fence::Code, ..a };
    let y = Flow { in_code: false, fence: Fence::Code, ..b };
    assert(alike(x, y));
    if a.fence == Fence::Code {
        let (x, y) = if a.code.len() > 0 {
            (x.flush_code_line(), y.flush_code_line())
        } else {
            (x, y)
        };
        assert(alike(x, y));
        assert(alike(x.settled(), y.settled()));
        lemma_push_blank_alike(x.settled(), y.settled());
    } else {
        let block = match a.fence {
            Fence::Wagara => {
                let (name, options) = wagara_parts(a.fence_name, a.fence_body);
                BlockView::Wagara(name, options)
            },
            Fence::Barcode => BlockView::Barcode(trim(a.fence_body)),
            _ => BlockView::Qr(trim(a.fence_body), a.fence_name),
        };
        let x = Flow { fence_body: Seq::empty(), fence_name: Seq::empty(), ..x };
        let y = Flow { fence_body: Seq::empty(), fence_name: Seq::empty(), ..y };
        assert(alike(x, y));
        lemma_stack_alike(x, y, block);
    }
}

proof fn lemma_end_list_alike(a: Flow, b: Flow)
    requires
        alike(a, b),
    ensures
        alike(a.end(MdTagEnd::List), b.end(MdTagEnd::List)),
{
    let lists = if a.lists.len() > 0 {
        a.lists.drop_last()
    } else {
        a.lists
    };
    let x = Flow { lists, ..a };
    let y = Flow { lists, ..b };
    assert(alike(x, y));
    lemma_push_blank_alike(x, y);
}

proof fn lemma_end_table_alike(a: Flow, b: Flow)
    requires
        alike(a, b),
    ensures
        alike(a.end_table(TablePart::Table), b.end_table(TablePart::Table)),
{
    let more = table_lines(a.table_header, a.table_rows).map_values(
        |text: Seq<char>| code_line(text, 0),
    );
    let x = Flow {
        in_table: false,
        table_header: Seq::empty(),
        table_rows: Seq::empty(),
        lines: a.lines + more,
        ..a
    };
    let y = Flow {
        in_table: false,
        table_header: Seq::empty(),
        table_rows: Seq::empty(),
        lines: b.lines + more,
        ..b
    };
    assert(alike(x, y));
    lemma_push_blank_alike(x, y);
}

proof fn lemma_end_paragraph_alike(a: Flow, b: Flow, tag: MdTagEnd)
    requires
        alike(a, b),
        tag is Heading || tag is Paragraph || tag is Item || tag is BlockQuote,
    ensures
        alike(a.end(tag), b.end(tag)),
{
    lemma_flush_line_alike(a, b);
    lemma_push_blank_alike(a.flush_line(), b.flush_line());
}

proof fn lemma_end_alike(a: Flow, b: Flow, tag: MdTagEnd)
    requires
        alike(a, b),
    ensures
        alike(a.end(tag), b.end(tag)),
{
    match tag {
        MdTagEnd::Heading | MdTagEnd::Paragraph | MdTagEnd::Item | MdTagEnd::BlockQuote => {
            lemma_end_paragraph_alike(a, b, tag);
        },
        MdTagEnd::List => lemma_end_list_alike(a, b),
        MdTagEnd::CodeBlock => lemma_end_code_alike(a, b),
        MdTagEnd::Table(TablePart::Table) => lemma_end_table_alike(a, b),
        _ => {},
    }
}

proof fn lemma_image_alike(
    a: Flow,
    b: Flow,
    event: MdEvent<Seq<char>>,
    images: Map<Seq<char>, Seq<Seq<bool>>>,
)
    requires
        alike(a, b),
    ensures
        alike(a.handle_in_image(event, images), b.handle_in_image(event, images)),
{
    match event {
        MdEvent::End(MdTagEnd::Image) => {
            let n = less(a.images);
            let x = Flow { images: n, image_dest: Seq::empty(), image_alt: Seq::empty(), ..a };
            let y = Flow { images: n, image_dest: Seq::empty(), image_alt: Seq::empty(), ..b };
            assert(alike(x, y));
            if images.dom().contains(a.image_dest) {
                lemma_stack_alike(x, y, BlockView::Image(images[a.image_dest]));
            }
            lemma_push_alike(
                x,
                y,
                placeholder(a.image_alt, a.image_dest),
                plain_style(FontStyle::Italic, BODY_SIZE),
            );
        },
        _ => {},
    }
}

/// Whether an event is the start of an item or of a paragraph.
pub open spec fn opens_item_text(event: MdEvent<Seq<char>>) -> bool {
    event == MdEvent::<Seq<char>>::Start(MdTag::Item) || event == MdEvent::<Seq<char>>::Start(
        MdTag::Paragraph,
    )
}

proof fn lemma_step_alike(
    a: Flow,
    b: Flow,
    event: MdEvent<Seq<char>>,
    images: Map<Seq<char>, Seq<Seq<bool>>>,
)
    requires
        alike(a, b),
        event is TaskListMarker ==> a.images > 0 || a.current == b.current,
    ensures
        alike(a.step(event, images), b.step(event, images)),
        a.images == 0 && event == MdEvent::<Seq<char>>::Start(MdTag::Item) ==> a.step(
            event,
            images,
        ).current == b.step(event, images).current,
        a.images == 0 && a.current == b.current && event == MdEvent::<Seq<char>>::Start(
            MdTag::Paragraph,
        ) ==> a.step(event, images).current == b.step(event, images).current,
        opens_item_text(event) ==> a.step(event, images).images == a.images,
{
    reveal(Flow::step);
    if a.images > 0 && !(event is Rule) {
        lemma_image_alike(a, b, event, images);
    } else {
        match event {
            MdEvent::Html(html) => lemma_flush_block_alike(a, b),
            MdEvent::Start(tag) => lemma_start_alike(a, b, tag),
            MdEvent::End(tag) => lemma_end_alike(a, b, tag),
            MdEvent::Text(text) => {
                lemma_code_alike(a, b, text);
                lemma_push_alike(a, b, text, a.style());
            },
            MdEvent::Code(text) => lemma_push_alike(a, b, text, a.style()),
            MdEvent::SoftBreak => lemma_push_alike(a, b, " "@, a.style()),
            MdEvent::HardBreak => lemma_flush_line_alike(a, b),
            MdEvent::TaskListMarker(checked) => {},
            MdEvent::Rule(source) => {
                lemma_stack_alike(a, b, BlockView::Tear);
                lemma_stack_alike(a, b, BlockView::Rule);
            },
            MdEvent::Other => {},
        }
    }
}

/// Whether the last of some events opened an item, or the first paragraph of one.
pub open spec fn at_item_start(events: Seq<MdEvent<Seq<char>>>) -> bool {
    let item = MdEvent::<Seq<char>>::Start(MdTag::Item);
    let paragraph = MdEvent::<Seq<char>>::Start(MdTag::Paragraph);
    let n = events.len() as int;
    ||| n > 0 && events[n - 1] == item
    ||| n > 1 && events[n - 1] == paragraph && events[n - 2] == item
}

/// Whether every checkbox stands at the start of its item.
pub open spec fn checkboxes_in_place(events: Seq<MdEvent<Seq<char>>>) -> bool {
    forall|i: int|
        0 <= i < events.len() && (#[trigger] events[i]) is TaskListMarker ==> at_item_start(
            events.take(i),
        )
}

proof fn lemma_tail_alike(
    a: Seq<MdEvent<Seq<char>>>,
    b: Seq<MdEvent<Seq<char>>>,
    tail: Seq<MdEvent<Seq<char>>>,
    images: Map<Seq<char>, Seq<Seq<bool>>>,
)
    requires
        alike(flow_after(a, images), flow_after(b, images)),
        checkboxes_in_place(tail),
    ensures
        alike(flow_after(a + tail, images), flow_after(b + tail, images)),
        at_item_start(tail) && flow_after(a + tail, images).images == 0 ==> flow_after(
            a + tail,
            images,
        ).current == flow_after(b + tail, images).current,
    decreases tail.len(),
{
    if tail.len() == 0 {
        assert(a + tail =~= a);
        assert(b + tail =~= b);
    } else {
        let front = tail.drop_last();
        let event = tail.last();
        assert forall|i: int|
            0 <= i < front.len() && (#[trigger] front[i]) is TaskListMarker implies at_item_start(
            front.take(i),
        ) by {
            assert(tail[i] is TaskListMarker);
            assert(front.take(i) =~= tail.take(i));
        }
        lemma_tail_alike(a, b, front, images);
        assert(a + tail =~= (a + front) + seq![event]);
        assert(b + tail =~= (b + front) + seq![event]);
        lemma_one_more(a + front, event, images);
        lemma_one_more(b + front, event, images);
        if event is TaskListMarker {
            assert(tail[tail.len() - 1] is TaskListMarker);
            assert(tail.take(tail.len() - 1) =~= front);
        }
        lemma_step_alike(flow_after(a + front, images), flow_after(b + front, images), event, images);
        if at_item_start(tail) {
            assert(opens_item_text(event));
            if event == MdEvent::<Seq<char>>::Start(MdTag::Paragraph) {
                assert(front[front.len() - 1] == MdEvent::<Seq<char>>::Start(MdTag::Item));
                assert(at_item_start(front));
            }
        }
    }
}

proof fn lemma_alike_to_itself(st: Flow)
    ensures
        alike(st, st),
{
    assert forall|i: int| 0 <= i < st.blocks.len() implies block_reads_as(
        #[trigger] st.blocks[i],
        st.blocks[i],
    ) by {
        match st.blocks[i] {
            BlockView::Lines(x, s) => {
                assert(lines_read_as(x, x));
            },
            _ => {},
        }
    }
}

proof fn lemma_code_join(st: Flow, a: Seq<char>, b: Seq<char>)
    ensures
        st.push_code_text(a).push_code_text(b) == st.push_code_text(a + b),
    decreases b.len(),
{
    if b.len() == 0 {
        assert(a + b =~= a);
    } else {
        lemma_code_join(st, a, b.drop_last());
        assert((a + b).drop_last() =~= a + b.drop_last());
    }
}

proof fn lemma_cut_alike(
    st: Flow,
    a: Seq<char>,
    b: Seq<char>,
    images: Map<Seq<char>, Seq<Seq<bool>>>,
)
    requires
        !cuts_break(a, b),
    ensures
        alike(
            st.step(MdEvent::Text(a), images).step(MdEvent::Text(b), images),
            st.step(MdEvent::Text(a + b), images),
        ),
{
    reveal(Flow::step);
    let cut = st.step(MdEvent::Text(a), images).step(MdEvent::Text(b), images);
    let whole = st.step(MdEvent::Text(a + b), images);
    lemma_alike_to_itself(whole);
    lemma_alike_to_itself(st);
    if st.images > 0 {
        assert(st.image_alt + a + b =~= st.image_alt + (a + b));
    } else if st.in_table {
        assert(st.table_cell + a + b =~= st.table_cell + (a + b));
    } else if st.in_code {
        if st.fence == Fence::Code {
            lemma_code_text(st, a);
            lemma_code_join(st, a, b);
        } else {
            assert(st.fence_body + a + b =~= st.fence_body + (a + b));
        }
    } else {
        lemma_cut_reads_as(st.current, a, b, st.style());
    }
}

/// A text that is cut in two, by markup that is no part of the page or by nothing at all, prints
/// like the whole one. A line break must not be cut, and checkboxes stand at the start of their
/// items.
pub proof fn law_cuts_do_not_show(
    before: Seq<MdEvent<Seq<char>>>,
    a: Seq<char>,
    between: Seq<MdEvent<Seq<char>>>,
    b: Seq<char>,
    after: Seq<MdEvent<Seq<char>>>,
    images: Map<Seq<char>, Seq<Seq<bool>>>,
    art: ArtworkView,
)
    requires
        all_other(between),
        !cuts_break(a, b),
        checkboxes_in_place(after),
    ensures
        document_rows(
            before + seq![MdEvent::Text(a)] + between + seq![MdEvent::Text(b)] + after,
            images,
            art,
        ) == document_rows(before + seq![MdEvent::Text(a + b)] + after, images, art),
{
    let first = before + seq![MdEvent::Text(a)];
    let cut = first + between + seq![MdEvent::Text(b)];
    let whole = before + seq![MdEvent::Text(a + b)];
    lemma_one_more(before, MdEvent::Text(a), images);
    lemma_other(first, between, images);
    lemma_one_more(first + between, MdEvent::Text(b), images);
    lemma_one_more(before, MdEvent::Text(a + b), images);
    lemma_cut_alike(flow_after(before, images), a, b, images);
    lemma_tail_alike(cut, whole, after, images);
    lemma_flush_block_alike(flow_after(cut + after, images), flow_after(whole + after, images));
    law_pages_go_by_characters(
        lowered_blocks(cut + after, images),
        lowered_blocks(whole + after, images),
        art,
    );
}

} // verus!
