//! What each element of a document comes to: headings, paragraphs, items, code, fences, breaks,
//! pictures and tables, wherever they stand.

use vstd::prelude::*;

use crate::events::{MdEvent, MdTag, MdTagEnd, TablePart};
use crate::fences::{fence_of, placeholder, wagara_parts, Fence};
use crate::glyphs::{FontStyle, Style};
use crate::layout::{blank_line, LineView, SpanView};
use crate::lowering::{
    flow_after, lowered_blocks, start_flow, without_trailing_blanks, BlockView, Flow,
};
use crate::rich::Alignment;
use crate::table::table_lines;
use crate::text::{decimal, is_space, join, trim, words};

verus! {

/// Whether a document stands between two blocks, in plain text: nothing is open but lists and
/// quotes, and no line has been begun.
pub open spec fn between_blocks(st: Flow) -> bool {
    &&& st.images == 0
    &&& !st.in_table
    &&& !st.in_code
    &&& st.heading is None
    &&& st.current.spans.len() == 0
    &&& st.code.len() == 0
    &&& 24 * (st.quotes + st.lists.len()) + 16 <= u32::MAX
}

/// A line of some spans.
pub open spec fn line_of(spans: Seq<SpanView>, indent: nat) -> LineView {
    LineView { spans, indent: indent as u32 }
}

/// A span of text in a style.
pub open spec fn span_of(text: Seq<char>, font: FontStyle, size: u32, strike: bool) -> SpanView {
    SpanView { text, style: Style { font, size, strike } }
}

/// The lines with a blank one behind them, unless they end in one or there are none.
pub open spec fn spaced(lines: Seq<LineView>) -> Seq<LineView> {
    if lines.len() > 0 && lines.last().spans.len() > 0 {
        lines.push(LineView { spans: Seq::empty(), indent: 0 })
    } else {
        lines
    }
}

/// The face of body text: bold where a strong tag is open, else italic where an emphasis or a quote
/// is, else regular.
pub open spec fn body_font(st: Flow) -> FontStyle {
    if st.bold > 0 {
        FontStyle::Bold
    } else if st.italic > 0 || st.quotes > 0 {
        FontStyle::Italic
    } else {
        FontStyle::Regular
    }
}

/// Outside images an event does what it is for.
proof fn lemma_handled(
    st: Flow,
    event: MdEvent<Seq<char>>,
    images: Map<Seq<char>, Seq<Seq<bool>>>,
)
    requires
        st.images == 0,
    ensures
        st.step(event, images) == st.handle(event),
{
    reveal(Flow::step);
}

/// A heading is one bold line, 36, 30 or 26 px by its level, at the indent of its quotes, with a
/// blank line above it, where there is text above, and one below.
pub proof fn law_headings(
    st: Flow,
    level: u8,
    text: Seq<char>,
    images: Map<Seq<char>, Seq<Seq<bool>>>,
)
    requires
        between_blocks(st),
    ensures
        ({
            let after = st.step(MdEvent::Start(MdTag::Heading(level)), images).step(
                MdEvent::Text(text),
                images,
            ).step(MdEvent::End(MdTagEnd::Heading), images);
            let size: u32 = if level == 1 {
                3600
            } else if level == 2 {
                3000
            } else {
                2600
            };
            let line = line_of(
                seq![span_of(text, FontStyle::Bold, size, st.strike > 0)],
                24 * st.quotes,
            );
            &&& after.lines == spaced(spaced(st.lines).push(line))
            &&& after.blocks == st.blocks
            &&& after.heading is None
            &&& after.current.spans.len() == 0
        }),
{
    reveal(Flow::step);
    assert(st.current.spans =~= Seq::empty());
    let open = st.start(MdTag::Heading(level));
    assert(open.lines =~= spaced(st.lines));
    let set = open.push_span(text);
    assert(set.current.spans =~= seq![
        span_of(
            text,
            FontStyle::Bold,
            if level == 1 {
                3600
            } else if level == 2 {
                3000
            } else {
                2600
            },
            st.strike > 0,
        ),
    ]);
}

/// A paragraph is one line of body text, 24 px, indented by 24 px for each list and quote around
/// it. Outside lists a blank line follows.
pub proof fn law_paragraphs(
    st: Flow,
    text: Seq<char>,
    images: Map<Seq<char>, Seq<Seq<bool>>>,
)
    requires
        between_blocks(st),
    ensures
        ({
            let after = st.step(MdEvent::Start(MdTag::Paragraph), images).step(
                MdEvent::Text(text),
                images,
            ).step(MdEvent::End(MdTagEnd::Paragraph), images);
            let line = line_of(
                seq![span_of(text, body_font(st), 2400, st.strike > 0)],
                24 * (st.quotes + st.lists.len()),
            );
            &&& after.blocks == st.blocks
            &&& after.current.spans.len() == 0
            &&& after.lines == if st.lists.len() == 0 {
                spaced(st.lines.push(line))
            } else {
                st.lines.push(line)
            }
        }),
{
    reveal(Flow::step);
    assert(st.current.spans =~= Seq::empty());
    let set = st.start(MdTag::Paragraph).push_span(text);
    assert(set.current.spans =~= seq![span_of(text, body_font(st), 2400, st.strike > 0)]);
    assert(set.current == line_of(
        seq![span_of(text, body_font(st), 2400, st.strike > 0)],
        24 * (st.quotes + st.lists.len()),
    ));
}

/// An item of a list is one line that begins with a bullet or its number, indented by 24 px for
/// each list and quote around it; a list counts on from item to item. A checkbox takes the place of
/// bullet and number.
pub proof fn law_items(
    st: Flow,
    text: Seq<char>,
    checked: bool,
    images: Map<Seq<char>, Seq<Seq<bool>>>,
)
    requires
        between_blocks(st),
        st.lists.len() > 0,
    ensures
        ({
            let open = st.step(MdEvent::Start(MdTag::Item), images);
            let after = open.step(MdEvent::Text(text), images).step(
                MdEvent::End(MdTagEnd::Item),
                images,
            );
            let task = open.step(MdEvent::TaskListMarker(checked), images).step(
                MdEvent::Text(text),
                images,
            ).step(MdEvent::End(MdTagEnd::Item), images);
            let font = body_font(st);
            let strike = st.strike > 0;
            let words = span_of(text, font, 2400, strike);
            let prefix = match st.lists.last() {
                Some(n) => decimal(n as nat) + ". "@,
                None => "• "@,
            };
            let marker = if checked {
                "[x] "@
            } else {
                "[ ] "@
            };
            let indent = 24 * (st.quotes + st.lists.len());
            &&& after.lines == st.lines.push(
                line_of(seq![span_of(prefix, font, 2400, strike), words], indent),
            )
            &&& task.lines == st.lines.push(
                line_of(seq![span_of(marker, font, 2400, strike), words], indent),
            )
            &&& after.blocks == st.blocks
            &&& task.blocks == st.blocks
            &&& after.lists == match st.lists.last() {
                Some(n) => st.lists.drop_last().push(
                    Some(
                        if n < u64::MAX {
                            (n + 1) as u64
                        } else {
                            n
                        },
                    ),
                ),
                None => st.lists,
            }
        }),
{
    reveal(Flow::step);
    assert(st.current.spans =~= Seq::empty());
    let open = st.start_item();
    let font = body_font(st);
    let strike = st.strike > 0;
    let prefix = match st.lists.last() {
        Some(n) => decimal(n as nat) + ". "@,
        None => "• "@,
    };
    let marker = if checked {
        "[x] "@
    } else {
        "[ ] "@
    };
    assert(open.current.spans =~= seq![span_of(prefix, font, 2400, strike)]);
    assert(open.push_span(text).current.spans =~= seq![
        span_of(prefix, font, 2400, strike),
        span_of(text, font, 2400, strike),
    ]);
    assert(open.checkbox(checked).current.spans =~= seq![span_of(marker, font, 2400, strike)]);
    assert(open.checkbox(checked).push_span(text).current.spans =~= seq![
        span_of(marker, font, 2400, strike),
        span_of(text, font, 2400, strike),
    ]);
    assert(match st.lists.last() {
        Some(n) => open.lists =~= st.lists.drop_last().push(
            Some(
                if n < u64::MAX {
                    (n + 1) as u64
                } else {
                    n
                },
            ),
        ),
        None => open.lists =~= st.lists,
    });
}

/// A line of a code block, or of an indented one, is regular text of 20 px, indented by 16 px and
/// 24 more for each quote, and stands as it is written; a blank line follows the block.
pub proof fn law_code_blocks(
    st: Flow,
    info: Option<Seq<char>>,
    text: Seq<char>,
    images: Map<Seq<char>, Seq<Seq<bool>>>,
)
    requires
        between_blocks(st),
        info matches Some(name) ==> fence_of(name) == Fence::Code,
        !text.contains('\n'),
    ensures
        ({
            let after = st.step(MdEvent::Start(MdTag::CodeBlock(info)), images).step(
                MdEvent::Text(text.push('\n')),
                images,
            ).step(MdEvent::End(MdTagEnd::CodeBlock), images);
            let line = line_of(
                seq![span_of(text, FontStyle::Regular, 2000, false)],
                24 * st.quotes + 16,
            );
            &&& after.lines == spaced(st.lines.push(line))
            &&& after.blocks == st.blocks
            &&& !after.in_code
        }),
{
    reveal(Flow::step);
    assert(st.current.spans =~= Seq::empty());
    let name = match info {
        Some(name) => name,
        None => Seq::empty(),
    };
    if info is None {
        let none = Seq::<char>::empty();
        reveal_strlit("qr");
        reveal_strlit("barcode");
        reveal_strlit("wagara");
        assert(words(none).len() == 0);
        assert(crate::text::lowered(none).len() == 0);
        assert(fence_of(none) == Fence::Code);
    }
    let open = st.start_code(name);
    lemma_plain_code(open, text);
    assert(text.push('\n').drop_last() =~= text);
    let set = open.push_code_text(text.push('\n'));
    assert(set == open.push_code_text(text).flush_code_line());
    assert(open.code + text =~= text);
    assert(set.lines =~= st.lines.push(
        line_of(seq![span_of(text, FontStyle::Regular, 2000, false)], 24 * st.quotes + 16),
    ));
}

proof fn lemma_plain_code(st: Flow, text: Seq<char>)
    requires
        !text.contains('\n'),
    ensures
        st.push_code_text(text) == (Flow { code: st.code + text, ..st }),
    decreases text.len(),
{
    if text.len() == 0 {
        assert(st.code + text =~= st.code);
    } else {
        let front = text.drop_last();
        assert(text.contains(text.last()));
        if front.contains('\n') {
            let i = choose|i: int| 0 <= i < front.len() && front[i] == '\n';
            assert(text[i] == '\n');
        }
        lemma_plain_code(st, front);
        assert(st.code + text =~= (st.code + front).push(text.last()));
    }
}

/// A graphic fence is a block of its own below the text so far: a code of its trimmed body, with
/// the words behind the name as its options; a barcode of its trimmed body; a band by its name.
pub proof fn law_graphic_fences(
    st: Flow,
    info: Seq<char>,
    body: Seq<char>,
    images: Map<Seq<char>, Seq<Seq<bool>>>,
)
    requires
        between_blocks(st),
        fence_of(info) != Fence::Code,
    ensures
        ({
            let after = st.step(MdEvent::Start(MdTag::CodeBlock(Some(info))), images).step(
                MdEvent::Text(body),
                images,
            ).step(MdEvent::End(MdTagEnd::CodeBlock), images);
            let named = if words(info).len() > 1 {
                words(info)[1]
            } else {
                Seq::empty()
            };
            let block = match fence_of(info) {
                Fence::Barcode => BlockView::Barcode(trim(body)),
                Fence::Wagara => {
                    let (name, options) = wagara_parts(named, body);
                    BlockView::Wagara(name, options)
                },
                _ => BlockView::Qr(
                    trim(body),
                    if words(info).len() > 0 {
                        join(words(info).skip(1), " "@)
                    } else {
                        Seq::empty()
                    },
                ),
            };
            &&& after.blocks == st.flush_block().blocks.push(block)
            &&& after.lines.len() == 0
            &&& !after.in_code
        }),
{
    reveal(Flow::step);
    assert(st.current.spans =~= Seq::empty());
    let empty = Seq::<char>::empty();
    assert(empty + body =~= body);
}

/// A thematic break is a block of its own below the text so far: a tear line where there is white
/// space inside its source and it stands in no list, else a rule.
pub proof fn law_breaks(st: Flow, source: Seq<char>, images: Map<Seq<char>, Seq<Seq<bool>>>)
    ensures
        ({
            let after = st.step(MdEvent::Rule(source), images);
            let spread = exists|i: int|
                0 <= i < trim(source).len() && is_space(#[trigger] trim(source)[i]);
            &&& after.blocks == st.flush_block().blocks.push(
                if spread && st.lists.len() == 0 {
                    BlockView::Tear
                } else {
                    BlockView::Rule
                },
            )
            &&& after.lines.len() == 0
        }),
{
    reveal(Flow::step);
}

/// The text so far becomes one block in the alignment in force, without the blank lines at its end;
/// lines that are all blank become none.
pub proof fn law_text_becomes_a_block(st: Flow, n: int)
    requires
        0 <= n <= st.lines.len(),
        st.current.spans.len() == 0,
        n > 0 ==> st.lines[n - 1].spans.len() > 0,
        forall|i: int| n <= i < st.lines.len() ==> (#[trigger] st.lines[i]).spans.len() == 0,
    ensures
        st.flush_block().blocks == if n > 0 {
            st.blocks.push(BlockView::Lines(st.lines.take(n), st.alignment))
        } else {
            st.blocks
        },
        st.flush_block().lines.len() == 0,
        st.flush_block().alignment == st.alignment,
{
    lemma_trailing(st.lines, n);
}

proof fn lemma_trailing(lines: Seq<LineView>, n: int)
    requires
        0 <= n <= lines.len(),
        n > 0 ==> lines[n - 1].spans.len() > 0,
        forall|i: int| n <= i < lines.len() ==> (#[trigger] lines[i]).spans.len() == 0,
    ensures
        without_trailing_blanks(lines) == lines.take(n),
    decreases lines.len(),
{
    if n == lines.len() {
        assert(lines.take(n) =~= lines);
        if n > 0 {
            assert(lines[n - 1] == lines.last());
        }
    } else {
        assert(lines[lines.len() - 1].spans.len() == 0);
        let front = lines.drop_last();
        assert forall|i: int| n <= i < front.len() implies (#[trigger] front[i]).spans.len() == 0 by {
            assert(front[i] == lines[i]);
        }
        lemma_trailing(front, n);
        assert(front.take(n) =~= lines.take(n));
    }
}

/// Text between strong tags is bold, on the line it stands on, and nothing behind it is changed.
pub proof fn law_strong_text(st: Flow, text: Seq<char>, images: Map<Seq<char>, Seq<Seq<bool>>>)
    requires
        st.images == 0,
        !st.in_table,
        !st.in_code,
        st.heading is None,
    ensures
        ({
            let after = st.step(MdEvent::Start(MdTag::Strong), images).step(
                MdEvent::Text(text),
                images,
            ).step(MdEvent::End(MdTagEnd::Strong), images);
            let font = FontStyle::Bold;
            &&& after.current.spans == st.current.spans.push(span_of(text, font, 2400, st.strike > 0))
            &&& after.current.indent == st.current.indent
            &&& after.bold == st.bold
            &&& after.lines == st.lines
            &&& after.blocks == st.blocks
        }),
{
    let open = MdEvent::Start(MdTag::Strong);
    lemma_handled(st, open, images);
    let st1 = st.handle(open);
    lemma_handled(st1, MdEvent::Text(text), images);
    lemma_handled(st1.push_span(text), MdEvent::End(MdTagEnd::Strong), images);
}

/// Emphasised text is italic, unless it is bold, and nothing behind it is changed.
pub proof fn law_emphasised_text(st: Flow, text: Seq<char>, images: Map<Seq<char>, Seq<Seq<bool>>>)
    requires
        st.images == 0,
        !st.in_table,
        !st.in_code,
        st.heading is None,
    ensures
        ({
            let after = st.step(MdEvent::Start(MdTag::Emphasis), images).step(
                MdEvent::Text(text),
                images,
            ).step(MdEvent::End(MdTagEnd::Emphasis), images);
            let font = if st.bold > 0 {
                FontStyle::Bold
            } else {
                FontStyle::Italic
            };
            &&& after.current.spans == st.current.spans.push(span_of(text, font, 2400, st.strike > 0))
            &&& after.current.indent == st.current.indent
            &&& after.italic == st.italic
            &&& after.lines == st.lines
            &&& after.blocks == st.blocks
        }),
{
    let open = MdEvent::Start(MdTag::Emphasis);
    lemma_handled(st, open, images);
    let st1 = st.handle(open);
    lemma_handled(st1, MdEvent::Text(text), images);
    lemma_handled(st1.push_span(text), MdEvent::End(MdTagEnd::Emphasis), images);
}

/// Struck text keeps its face, and nothing behind it is changed.
pub proof fn law_struck_text(st: Flow, text: Seq<char>, images: Map<Seq<char>, Seq<Seq<bool>>>)
    requires
        st.images == 0,
        !st.in_table,
        !st.in_code,
        st.heading is None,
    ensures
        ({
            let after = st.step(MdEvent::Start(MdTag::Strikethrough), images).step(
                MdEvent::Text(text),
                images,
            ).step(MdEvent::End(MdTagEnd::Strikethrough), images);
            let font = body_font(st);
            &&& after.current.spans == st.current.spans.push(span_of(text, font, 2400, true))
            &&& after.current.indent == st.current.indent
            &&& after.strike == st.strike
            &&& after.lines == st.lines
            &&& after.blocks == st.blocks
        }),
{
    let open = MdEvent::Start(MdTag::Strikethrough);
    lemma_handled(st, open, images);
    let st1 = st.handle(open);
    lemma_handled(st1, MdEvent::Text(text), images);
    lemma_handled(st1.push_span(text), MdEvent::End(MdTagEnd::Strikethrough), images);
}

/// A soft break is a space; a hard break ends the line, if it has text, and the next one keeps its
/// indent.
pub proof fn law_line_breaks(st: Flow, images: Map<Seq<char>, Seq<Seq<bool>>>)
    requires
        st.images == 0,
        !st.in_table,
        st.heading is None,
    ensures
        ({
            let soft = st.step(MdEvent::SoftBreak, images);
            let hard = st.step(MdEvent::HardBreak, images);
            let spans = st.current.spans;
            &&& soft.current.spans == spans.push(span_of(" "@, body_font(st), 2400, st.strike > 0))
            &&& soft.lines == st.lines
            &&& hard.current.spans.len() == 0
            &&& hard.current.indent == st.current.indent
            &&& hard.lines == if spans.len() > 0 {
                st.lines.push(st.current)
            } else {
                st.lines
            }
        }),
{
    lemma_handled(st, MdEvent::SoftBreak, images);
    lemma_handled(st, MdEvent::HardBreak, images);
}

/// A picture that was supplied is a block of its own below the text so far. One that was not is its
/// placeholder, italic text of 24 px on the line, unless it stands in a table cell, where its
/// placeholder is part of the cell's text.
pub proof fn law_pictures(
    st: Flow,
    dest: Seq<char>,
    alt: Seq<char>,
    images: Map<Seq<char>, Seq<Seq<bool>>>,
)
    requires
        st.images == 0,
    ensures
        ({
            let after = st.step(MdEvent::Start(MdTag::Image(dest)), images).step(
                MdEvent::Text(alt),
                images,
            ).step(MdEvent::End(MdTagEnd::Image), images);
            let words = placeholder(alt, dest);
            &&& after.images == 0
            &&& st.in_table ==> after.table_cell == st.table_cell + words && after.blocks
                == st.blocks
            &&& !st.in_table && images.dom().contains(dest) ==> after.blocks
                == st.flush_block().blocks.push(BlockView::Image(images[dest]))
                && after.lines.len() == 0
            &&& !st.in_table && !images.dom().contains(dest) ==> after.current.spans
                == st.current.spans.push(span_of(words, FontStyle::Italic, 2400, false))
                && after.lines == st.lines && after.blocks == st.blocks
        }),
{
    reveal(Flow::step);
    let none = Seq::<char>::empty();
    assert(none + alt =~= alt);
}

/// A table is read cell by cell and row by row: a cell joins its row, the first row is the header,
/// and each other row joins the rows.
pub proof fn law_table_rows(
    st: Flow,
    text: Seq<char>,
    images: Map<Seq<char>, Seq<Seq<bool>>>,
)
    requires
        st.images == 0,
        st.in_table,
    ensures
        ({
            let cell = st.step(MdEvent::Start(MdTag::Table(TablePart::Cell)), images).step(
                MdEvent::Text(text),
                images,
            ).step(MdEvent::End(MdTagEnd::Table(TablePart::Cell)), images);
            let head = st.step(MdEvent::End(MdTagEnd::Table(TablePart::Head)), images);
            let row = st.step(MdEvent::End(MdTagEnd::Table(TablePart::Row)), images);
            &&& cell.table_row == st.table_row.push(text)
            &&& cell.table_header == st.table_header
            &&& cell.table_rows == st.table_rows
            &&& head.table_header == st.table_row
            &&& head.table_row.len() == 0
            &&& row.table_rows == st.table_rows.push(st.table_row)
            &&& row.table_row.len() == 0
        }),
{
    let open = MdEvent::Start(MdTag::Table(TablePart::Cell));
    lemma_handled(st, open, images);
    let st1 = st.start_table(TablePart::Cell);
    lemma_handled(st1, MdEvent::Text(text), images);
    lemma_handled(
        st1.push_cell(text),
        MdEvent::End(MdTagEnd::Table(TablePart::Cell)),
        images,
    );
    lemma_handled(st, MdEvent::End(MdTagEnd::Table(TablePart::Head)), images);
    lemma_handled(st, MdEvent::End(MdTagEnd::Table(TablePart::Row)), images);
    let none = Seq::<char>::empty();
    assert(none + text =~= text);
}

/// A table is printed below the text so far, each of its lines regular text of 20 px without an
/// indent, with a blank line below.
pub proof fn law_tables(st: Flow, images: Map<Seq<char>, Seq<Seq<bool>>>, i: int)
    requires
        st.images == 0,
        st.in_table,
    ensures
        ({
            let after = st.step(MdEvent::End(MdTagEnd::Table(TablePart::Table)), images);
            let lines = table_lines(st.table_header, st.table_rows);
            let n = st.lines.len();
            &&& !after.in_table
            &&& after.blocks == st.blocks
            &&& lines.len() > 0 ==> after.lines.len() == n + lines.len() + 1 && after.lines.last()
                == blank_line()
            &&& after.lines.take(n as int) == st.lines
            &&& 0 <= i < lines.len() ==> after.lines[n + i] == line_of(
                seq![span_of(lines[i], FontStyle::Regular, 2000, false)],
                0,
            )
        }),
{
    lemma_handled(st, MdEvent::End(MdTagEnd::Table(TablePart::Table)), images);
    let after = st.end_table(TablePart::Table);
    let lines = table_lines(st.table_header, st.table_rows);
    let n = st.lines.len();
    let set = lines.map_values(|text: Seq<char>| crate::lowering::code_line(text, 0));
    let all = st.lines + set;
    if lines.len() > 0 {
        assert(all.last() == set[lines.len() - 1]);
        assert(after.lines =~= all.push(blank_line()));
    }
    assert(after.lines.take(n as int) =~= st.lines);
    if 0 <= i < lines.len() {
        assert(after.lines[n + i] == set[i]);
        assert(set[i].spans =~= seq![span_of(lines[i], FontStyle::Regular, 2000, false)]);
    }
}

/// Lists and quotes nest: each opens one level, which its end closes. A list that ends outside all
/// others leaves a blank line below.
pub proof fn law_nesting(
    st: Flow,
    first: Option<u64>,
    images: Map<Seq<char>, Seq<Seq<bool>>>,
)
    requires
        between_blocks(st),
    ensures
        ({
            let list = st.step(MdEvent::Start(MdTag::List(first)), images);
            let closed = list.step(MdEvent::End(MdTagEnd::List), images);
            let quote = st.step(MdEvent::Start(MdTag::BlockQuote), images);
            let unquoted = quote.step(MdEvent::End(MdTagEnd::BlockQuote), images);
            &&& list.lists == st.lists.push(first)
            &&& list.lines == st.lines
            &&& closed.lists == st.lists
            &&& closed.lines == if st.lists.len() == 0 {
                spaced(st.lines)
            } else {
                st.lines
            }
            &&& quote.quotes == st.quotes + 1
            &&& quote.lines == st.lines
            &&& unquoted.quotes == st.quotes
            &&& unquoted.lines == st.lines
        }),
{
    reveal(Flow::step);
    let list = st.start(MdTag::List(first));
    assert(list.lists.drop_last() =~= st.lists);
}

/// A comment of its own outside everything else that says `align: left`, `align: center` or
/// `align: right` sets the alignment of the text behind it, and ends the text before it; any other
/// HTML does nothing. A document begins left-aligned.
pub proof fn law_alignment_comments(
    st: Flow,
    html: Seq<char>,
    images: Map<Seq<char>, Seq<Seq<bool>>>,
)
    requires
        st.images == 0,
        !st.in_code,
        !st.in_table,
        st.lists.len() == 0,
        st.quotes == 0,
    ensures
        ({
            let after = st.step(MdEvent::Html(html), images);
            let left = trim(html) == "<!-- align: left -->"@;
            let center = trim(html) == "<!-- align: center -->"@;
            let right = trim(html) == "<!-- align: right -->"@;
            &&& left ==> after.alignment == Alignment::Left
            &&& center ==> after.alignment == Alignment::Center
            &&& right ==> after.alignment == Alignment::Right
            &&& left || center || right ==> after.blocks == st.flush_block().blocks
                && after.lines.len() == 0
            &&& !left && !center && !right ==> after == st
            &&& start_flow().alignment == Alignment::Left
            &&& start_flow().blocks.len() == 0
            &&& start_flow().lines.len() == 0
            &&& between_blocks(start_flow())
        }),
{
    reveal(Flow::step);
    reveal_strlit("<!-- align: left -->");
    reveal_strlit("<!-- align: center -->");
    reveal_strlit("<!-- align: right -->");
    assert("<!-- align: left -->"@.len() == 20 && "<!-- align: center -->"@.len() == 22
        && "<!-- align: right -->"@.len() == 21);
}

/// The text of an open picture goes to its alternative text, where a break is a space, and to
/// nothing else; a picture inside it is part of it.
pub proof fn law_alternative_text(
    st: Flow,
    text: Seq<char>,
    dest: Seq<char>,
    images: Map<Seq<char>, Seq<Seq<bool>>>,
)
    requires
        st.images > 0,
    ensures
        ({
            let plain = st.step(MdEvent::Text(text), images);
            let code = st.step(MdEvent::Code(text), images);
            let soft = st.step(MdEvent::SoftBreak, images);
            let hard = st.step(MdEvent::HardBreak, images);
            let inner = st.step(MdEvent::Start(MdTag::Image(dest)), images).step(
                MdEvent::End(MdTagEnd::Image),
                images,
            );
            &&& plain == (Flow { image_alt: st.image_alt + text, ..st })
            &&& code == plain
            &&& soft == (Flow { image_alt: st.image_alt + seq![' '], ..st })
            &&& hard == soft
            &&& inner == st
        }),
{
    reveal(Flow::step);
    assert(st.image_alt.push(' ') =~= st.image_alt + seq![' ']);
    let inner = st.step(MdEvent::Start(MdTag::Image(dest)), images).step(
        MdEvent::End(MdTagEnd::Image),
        images,
    );
    assert(inner.images == st.images);
}

/// A table begins below a blank line, with nothing read. In a cell, inline code is text and a
/// break is a space.
pub proof fn law_cells_hold_text(
    st: Flow,
    text: Seq<char>,
    images: Map<Seq<char>, Seq<Seq<bool>>>,
)
    requires
        st.images == 0,
    ensures
        ({
            let open = st.step(MdEvent::Start(MdTag::Table(TablePart::Table)), images);
            let before = if st.current.spans.len() > 0 {
                st.lines.push(st.current)
            } else {
                st.lines
            };
            &&& open.in_table
            &&& open.lines == spaced(before)
            &&& open.table_header.len() == 0
            &&& open.table_rows.len() == 0
            &&& open.table_row.len() == 0
            &&& open.table_cell.len() == 0
        }),
        st.in_table ==> ({
            &&& st.step(MdEvent::Code(text), images).table_cell == st.table_cell + text
            &&& st.step(MdEvent::SoftBreak, images).table_cell == st.table_cell + " "@
            &&& st.step(MdEvent::HardBreak, images).table_cell == st.table_cell + " "@
            &&& st.step(MdEvent::HardBreak, images).lines == st.lines
        }),
{
    reveal(Flow::step);
}

/// A document of one paragraph is one left-aligned block of one line of regular text, 24 px, and
/// one of one heading a block of one bold line.
pub proof fn law_documents_of_one_line(
    text: Seq<char>,
    level: u8,
    images: Map<Seq<char>, Seq<Seq<bool>>>,
)
    ensures
        lowered_blocks(
            seq![
                MdEvent::Start(MdTag::Paragraph),
                MdEvent::Text(text),
                MdEvent::End(MdTagEnd::Paragraph),
            ],
            images,
        ) == seq![
            BlockView::Lines(
                seq![line_of(seq![span_of(text, FontStyle::Regular, 2400, false)], 0)],
                Alignment::Left,
            ),
        ],
        lowered_blocks(
            seq![
                MdEvent::Start(MdTag::Heading(level)),
                MdEvent::Text(text),
                MdEvent::End(MdTagEnd::Heading),
            ],
            images,
        ) == seq![
            BlockView::Lines(
                seq![
                    line_of(
                        seq![
                            span_of(
                                text,
                                FontStyle::Bold,
                                if level == 1 {
                                    3600
                                } else if level == 2 {
                                    3000
                                } else {
                                    2600
                                },
                                false,
                            ),
                        ],
                        0,
                    ),
                ],
                Alignment::Left,
            ),
        ],
{
    let st = start_flow();
    assert(between_blocks(st));
    law_paragraphs(st, text, images);
    law_headings(st, level, text, images);
    lemma_three_events(
        MdEvent::Start(MdTag::Paragraph),
        MdEvent::Text(text),
        MdEvent::End(MdTagEnd::Paragraph),
        images,
    );
    lemma_three_events(
        MdEvent::Start(MdTag::Heading(level)),
        MdEvent::Text(text),
        MdEvent::End(MdTagEnd::Heading),
        images,
    );
    let set = st.step(MdEvent::Start(MdTag::Paragraph), images).step(
        MdEvent::Text(text),
        images,
    ).step(MdEvent::End(MdTagEnd::Paragraph), images);
    let head = st.step(MdEvent::Start(MdTag::Heading(level)), images).step(
        MdEvent::Text(text),
        images,
    ).step(MdEvent::End(MdTagEnd::Heading), images);
    assert(set.alignment == Alignment::Left && head.alignment == Alignment::Left) by {
        reveal(Flow::step);
    }
    law_text_becomes_a_block(set, 1);
    law_text_becomes_a_block(head, 1);
    assert(set.lines.take(1) =~= seq![set.lines[0]]);
    assert(head.lines.take(1) =~= seq![head.lines[0]]);
}

proof fn lemma_three_events(
    a: MdEvent<Seq<char>>,
    b: MdEvent<Seq<char>>,
    c: MdEvent<Seq<char>>,
    images: Map<Seq<char>, Seq<Seq<bool>>>,
)
    ensures
        flow_after(seq![a, b, c], images) == start_flow().step(a, images).step(b, images).step(
            c,
            images,
        ),
{
    reveal_with_fuel(flow_after, 4);
    assert(seq![a, b, c].drop_last() =~= seq![a, b]);
    assert(seq![a, b].drop_last() =~= seq![a]);
    assert(seq![a].drop_last() =~= Seq::<MdEvent<Seq<char>>>::empty());
}


} // verus!
