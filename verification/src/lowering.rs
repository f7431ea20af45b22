//! Markdown events to blocks: the state a document is in, and what each event does to it.

use vstd::prelude::*;

use crate::bitmap::Bitmap;
use crate::events::{
    event_views, is_blank, markdown_events, parse_markdown, MdEvent, MdTag, MdTagEnd, TablePart,
};
use crate::fences::{
    fence_arg, fence_kind, fence_of, fence_options, later_words, placeholder, placeholder_text,
    second_word, split_wagara, wagara_parts, Fence,
};
use crate::glyphs::{plain_style, FontStyle, Style};
use crate::images::ImageMap;
use crate::layout::{blank_line, line_views, span_views, LineView, RichLine, Span, SpanView};
use crate::rich::Alignment;
use crate::table::{build_table_lines, row_views, string_views, table_lines};
use crate::text::{
    chars_of, decimal, is_space, is_whitespace, push_text, reads, split_runs, text_of, to_decimal,
    trim, trimmed,
};

verus! {

/// Body text size, in hundredths of a pixel.
pub const BODY_SIZE: u32 = 2400;

/// Code block and table text size, in hundredths of a pixel.
pub const CODE_SIZE: u32 = 2000;

/// Indent per list-nesting or blockquote level, in pixels.
pub const INDENT_STEP: u32 = 24;

/// Extra indent of code blocks, in pixels.
pub const CODE_INDENT: u32 = 16;

/// A vertically stacked unit of a document.
#[derive(Debug)]
pub enum MdBlock {
    Lines(Vec<RichLine>, Alignment),
    Rule,
    /// A dashed tear-off line (`- - -` in the source).
    Tear,
    /// A QR fence: the payload and the info string's options.
    Qr(String, String),
    /// A barcode fence: the payload.
    Barcode(String),
    /// A wagara fence: the pattern name and the option lines.
    Wagara(String, String),
    /// A supplied image.
    Image(Bitmap),
}

/// What a [`MdBlock`] holds.
pub enum BlockView {
    Lines(Seq<LineView>, Alignment),
    Rule,
    Tear,
    Qr(Seq<char>, Seq<char>),
    Barcode(Seq<char>),
    Wagara(Seq<char>, Seq<char>),
    Image(Seq<Seq<bool>>),
}

impl View for MdBlock {
    type V = BlockView;

    open spec fn view(&self) -> BlockView {
        match *self {
            MdBlock::Lines(lines, alignment) => BlockView::Lines(line_views(lines@), alignment),
            MdBlock::Rule => BlockView::Rule,
            MdBlock::Tear => BlockView::Tear,
            MdBlock::Qr(data, options) => BlockView::Qr(data@, options@),
            MdBlock::Barcode(data) => BlockView::Barcode(data@),
            MdBlock::Wagara(name, options) => BlockView::Wagara(name@, options@),
            MdBlock::Image(image) => BlockView::Image(image@),
        }
    }
}

/// The blocks' views.
pub open spec fn block_views(blocks: Seq<MdBlock>) -> Seq<BlockView> {
    blocks.map_values(|b: MdBlock| b@)
}

/// The state of a document that is being lowered.
#[verifier::ext_equal]
pub struct Flow {
    /// The blocks that are complete.
    pub blocks: Seq<BlockView>,
    /// The lines of the text block that is being collected.
    pub lines: Seq<LineView>,
    /// The line that is being built.
    pub current: LineView,
    /// The alignment of the text blocks from here on.
    pub alignment: Alignment,
    /// How many strong, emphasis and strikethrough tags are open.
    pub bold: nat,
    pub italic: nat,
    pub strike: nat,
    /// How many blockquotes are open.
    pub quotes: nat,
    /// The size of the heading that is open.
    pub heading: Option<u32>,
    /// The lists that are open: the next number of an ordered one, `None` for bullets.
    pub lists: Seq<Option<u64>>,
    /// Whether a code block is open, and what it will be.
    pub in_code: bool,
    pub fence: Fence,
    /// The body and the info string's argument of a graphic fence.
    pub fence_body: Seq<char>,
    pub fence_name: Seq<char>,
    /// The code line that is being built.
    pub code: Seq<char>,
    /// How many images are open; only the outermost one counts.
    pub images: nat,
    /// The destination and the alt text of the open image.
    pub image_dest: Seq<char>,
    pub image_alt: Seq<char>,
    /// Whether a table is open, and what has been read of it.
    pub in_table: bool,
    pub table_header: Seq<Seq<char>>,
    pub table_rows: Seq<Seq<Seq<char>>>,
    pub table_row: Seq<Seq<char>>,
    pub table_cell: Seq<char>,
}

/// The start of a document.
pub open spec fn start_flow() -> Flow {
    Flow {
        blocks: Seq::empty(),
        lines: Seq::empty(),
        current: blank_line(),
        alignment: Alignment::Left,
        bold: 0,
        italic: 0,
        strike: 0,
        quotes: 0,
        heading: None,
        lists: Seq::empty(),
        in_code: false,
        fence: Fence::Code,
        fence_body: Seq::empty(),
        fence_name: Seq::empty(),
        code: Seq::empty(),
        images: 0,
        image_dest: Seq::empty(),
        image_alt: Seq::empty(),
        in_table: false,
        table_header: Seq::empty(),
        table_rows: Seq::empty(),
        table_row: Seq::empty(),
        table_cell: Seq::empty(),
    }
}

/// One less, but not below zero.
pub open spec fn less(n: nat) -> nat {
    if n > 0 {
        (n - 1) as nat
    } else {
        0
    }
}

/// An indent in pixels, at most what the layout can hold.
pub open spec fn indent_of(px: nat) -> u32 {
    if px > u32::MAX {
        u32::MAX
    } else {
        px as u32
    }
}

/// The lines without the blank ones at the end.
pub open spec fn without_trailing_blanks(lines: Seq<LineView>) -> Seq<LineView>
    decreases lines.len(),
{
    if lines.len() > 0 && lines.last().spans.len() == 0 {
        without_trailing_blanks(lines.drop_last())
    } else {
        lines
    }
}

/// A line of code text.
pub open spec fn code_line(text: Seq<char>, indent: u32) -> LineView {
    LineView {
        spans: seq![SpanView { text, style: plain_style(FontStyle::Regular, CODE_SIZE) }],
        indent,
    }
}

/// The size of a heading of a level.
pub open spec fn heading_size(level: u8) -> u32 {
    if level == 1 {
        3600
    } else if level == 2 {
        3000
    } else {
        2600
    }
}

/// The alignment that a comment asks for.
pub open spec fn directive(html: Seq<char>) -> Option<Alignment> {
    let text = trim(html);
    if text == "<!-- align: left -->"@ {
        Some(Alignment::Left)
    } else if text == "<!-- align: center -->"@ {
        Some(Alignment::Center)
    } else if text == "<!-- align: right -->"@ {
        Some(Alignment::Right)
    } else {
        None
    }
}

/// Whether there is white space inside a text.
pub open spec fn has_space(s: Seq<char>) -> bool {
    exists|i: int| 0 <= i < s.len() && is_space(#[trigger] s[i])
}

/// The prefix of a list item.
pub open spec fn item_prefix(list: Option<Option<u64>>) -> Seq<char> {
    match list {
        Some(Some(n)) => decimal(n as nat) + ". "@,
        _ => "• "@,
    }
}

impl Flow {
    /// The style of inline text: a heading is bold, then bold wins over italic, and a quote is
    /// italic. Strikethrough goes with any face.
    pub open spec fn style(self) -> Style {
        Style {
            font: if self.heading is Some || self.bold > 0 {
                FontStyle::Bold
            } else if self.italic > 0 || self.quotes > 0 {
                FontStyle::Italic
            } else {
                FontStyle::Regular
            },
            size: match self.heading {
                Some(size) => size,
                None => BODY_SIZE,
            },
            strike: self.strike > 0,
        }
    }

    /// The document with another indent for the line that is being built.
    pub open spec fn indented(self, px: nat) -> Flow {
        Flow {
            current: LineView { spans: self.current.spans, indent: indent_of(px) },
            ..self
        }
    }

    /// The indent of text in the open lists and quotes, in pixels: a step for each.
    pub open spec fn depth(self) -> nat {
        INDENT_STEP as nat * (self.quotes + self.lists.len())
    }

    /// The document between two blocks: inside a list the line goes back to its item's indent,
    /// outside to none.
    pub open spec fn settled(self) -> Flow {
        self.indented(
            if self.lists.len() > 0 {
                self.depth()
            } else {
                0
            },
        )
    }

    /// More text on the line, in a given style.
    pub open spec fn push_styled(self, text: Seq<char>, style: Style) -> Flow {
        Flow {
            current: LineView {
                spans: self.current.spans.push(SpanView { text, style }),
                indent: self.current.indent,
            },
            ..self
        }
    }

    /// More text on the line, in the current style.
    pub open spec fn push_span(self, text: Seq<char>) -> Flow {
        self.push_styled(text, self.style())
    }

    /// Ends the line, if it has text; the next one keeps its indent.
    pub open spec fn flush_line(self) -> Flow {
        if self.current.spans.len() > 0 {
            Flow {
                lines: self.lines.push(self.current),
                current: LineView { spans: Seq::empty(), indent: self.current.indent },
                ..self
            }
        } else {
            self
        }
    }

    /// A blank line, unless there is nothing above or a blank line already.
    pub open spec fn push_blank(self) -> Flow {
        if self.lines.len() > 0 && self.lines.last().spans.len() > 0 {
            Flow { lines: self.lines.push(blank_line()), ..self }
        } else {
            self
        }
    }

    /// Ends the text block, if it has lines, without the blank lines at its end.
    pub open spec fn flush_block(self) -> Flow {
        let st = self.flush_line();
        let lines = without_trailing_blanks(st.lines);
        Flow {
            blocks: if lines.len() > 0 {
                st.blocks.push(BlockView::Lines(lines, st.alignment))
            } else {
                st.blocks
            },
            lines: Seq::empty(),
            ..st
        }
    }

    /// Puts a block of its own below the text.
    pub open spec fn stack(self, block: BlockView) -> Flow {
        let st = self.flush_block();
        Flow { blocks: st.blocks.push(block), ..st }
    }

    /// Ends the code line.
    pub open spec fn flush_code_line(self) -> Flow {
        Flow {
            lines: self.lines.push(code_line(self.code, self.current.indent)),
            code: Seq::empty(),
            ..self
        }
    }

    /// Code text: each line feed ends a line.
    pub open spec fn push_code_text(self, text: Seq<char>) -> Flow
        decreases text.len(),
    {
        if text.len() == 0 {
            self
        } else {
            let st = self.push_code_text(text.drop_last());
            if text.last() == '\n' {
                st.flush_code_line()
            } else {
                Flow { code: st.code.push(text.last()), ..st }
            }
        }
    }

    /// Text in a table cell.
    pub open spec fn push_cell(self, text: Seq<char>) -> Flow {
        Flow { table_cell: self.table_cell + text, ..self }
    }

    /// The outermost image has ended: in a table its placeholder goes into the cell, else a
    /// supplied image becomes a block and a missing one an italic placeholder on the line.
    pub open spec fn finish_image(self, images: Map<Seq<char>, Seq<Seq<bool>>>) -> Flow {
        let text = placeholder(self.image_alt, self.image_dest);
        let st = Flow { image_dest: Seq::empty(), image_alt: Seq::empty(), ..self };
        if self.in_table {
            st.push_cell(text)
        } else if images.dom().contains(self.image_dest) {
            st.stack(BlockView::Image(images[self.image_dest]))
        } else {
            st.push_styled(text, plain_style(FontStyle::Italic, BODY_SIZE))
        }
    }

    /// An event inside an image: its text is alt text, nothing reaches the page.
    pub open spec fn handle_in_image(
        self,
        event: MdEvent<Seq<char>>,
        images: Map<Seq<char>, Seq<Seq<bool>>>,
    ) -> Flow {
        match event {
            MdEvent::Start(MdTag::Image(dest)) => Flow { images: self.images + 1, ..self },
            MdEvent::End(MdTagEnd::Image) => {
                let st = Flow { images: less(self.images), ..self };
                if st.images == 0 {
                    st.finish_image(images)
                } else {
                    st
                }
            },
            MdEvent::Text(text) => Flow { image_alt: self.image_alt + text, ..self },
            MdEvent::Code(text) => Flow { image_alt: self.image_alt + text, ..self },
            MdEvent::SoftBreak => Flow { image_alt: self.image_alt.push(' '), ..self },
            MdEvent::HardBreak => Flow { image_alt: self.image_alt.push(' '), ..self },
            _ => self,
        }
    }

    /// A comment at the top level may change the alignment; other HTML does nothing.
    pub open spec fn html(self, html: Seq<char>) -> Flow {
        if !self.in_code && !self.in_table && self.lists.len() == 0 && self.quotes == 0 {
            match directive(html) {
                Some(alignment) => Flow { alignment, ..self.flush_block() },
                None => self,
            }
        } else {
            self
        }
    }

    /// Text: of a table cell, of a code block, or of a paragraph.
    pub open spec fn text(self, text: Seq<char>) -> Flow {
        if self.in_table {
            self.push_cell(text)
        } else if self.in_code {
            if self.fence == Fence::Code {
                self.push_code_text(text)
            } else {
                Flow { fence_body: self.fence_body + text, ..self }
            }
        } else {
            self.push_span(text)
        }
    }

    /// A checkbox takes the place of the list prefix.
    pub open spec fn checkbox(self, checked: bool) -> Flow {
        let marker = if checked {
            "[x] "@
        } else {
            "[ ] "@
        };
        let spans = self.current.spans;
        if spans.len() > 0 {
            Flow {
                current: LineView {
                    spans: spans.update(
                        spans.len() - 1,
                        SpanView { text: marker, style: spans.last().style },
                    ),
                    indent: self.current.indent,
                },
                ..self
            }
        } else {
            self.push_span(marker)
        }
    }

    /// A thematic break: a tear line where its source has white space inside and it is in no
    /// list, else a rule.
    pub open spec fn rule(self, source: Seq<char>) -> Flow {
        self.stack(
            if has_space(trim(source)) && self.lists.len() == 0 {
                BlockView::Tear
            } else {
                BlockView::Rule
            },
        )
    }

    /// The start of a list item: a new line with the item's prefix.
    pub open spec fn start_item(self) -> Flow {
        let st = self.flush_line().indented(self.depth());
        let list = if self.lists.len() > 0 {
            Some(self.lists.last())
        } else {
            None
        };
        let lists = match list {
            Some(Some(n)) => self.lists.update(
                self.lists.len() - 1,
                Some(
                    if n < u64::MAX {
                        (n + 1) as u64
                    } else {
                        n
                    },
                ),
            ),
            _ => self.lists,
        };
        Flow { lists, ..st }.push_span(item_prefix(list))
    }

    /// The start of a code block or a graphic fence.
    pub open spec fn start_code(self, info: Seq<char>) -> Flow {
        let fence = fence_of(info);
        let st = Flow { in_code: true, fence, ..self.flush_line() };
        if fence == Fence::Code {
            st.indented(INDENT_STEP as nat * self.quotes + CODE_INDENT as nat)
        } else {
            Flow {
                fence_body: Seq::empty(),
                fence_name: if fence == Fence::Qr {
                    later_words(info)
                } else {
                    second_word(info)
                },
                ..st
            }
        }
    }

    /// The start of a part of a table.
    pub open spec fn start_table(self, part: TablePart) -> Flow {
        match part {
            TablePart::Table => Flow {
                in_table: true,
                table_header: Seq::empty(),
                table_rows: Seq::empty(),
                table_row: Seq::empty(),
                table_cell: Seq::empty(),
                ..self.flush_line().push_blank()
            },
            TablePart::Head => Flow { table_row: Seq::empty(), ..self },
            TablePart::Row => Flow { table_row: Seq::empty(), ..self },
            TablePart::Cell => Flow { table_cell: Seq::empty(), ..self },
        }
    }

    /// An opening tag.
    pub open spec fn start(self, tag: MdTag<Seq<char>>) -> Flow {
        match tag {
            MdTag::Heading(level) => Flow {
                heading: Some(heading_size(level)),
                ..self.flush_line().push_blank()
            }.indented(INDENT_STEP as nat * self.quotes),
            MdTag::Paragraph => self.indented(self.depth()),
            MdTag::BlockQuote => Flow { quotes: self.quotes + 1, ..self },
            MdTag::List(first) => Flow { lists: self.lists.push(first), ..self },
            MdTag::Item => self.start_item(),
            MdTag::CodeBlock(Some(info)) => self.start_code(info),
            MdTag::CodeBlock(None) => self.start_code(Seq::empty()),
            MdTag::Strong => Flow { bold: self.bold + 1, ..self },
            MdTag::Emphasis => Flow { italic: self.italic + 1, ..self },
            MdTag::Strikethrough => Flow { strike: self.strike + 1, ..self },
            MdTag::Table(part) => self.start_table(part),
            MdTag::Image(dest) => Flow {
                images: 1,
                image_dest: dest,
                image_alt: Seq::empty(),
                ..self
            },
            MdTag::Other => self,
        }
    }

    /// The end of a code block or a graphic fence.
    pub open spec fn end_code(self) -> Flow {
        let st = Flow { in_code: false, fence: Fence::Code, ..self };
        if self.fence == Fence::Code {
            let done = if self.code.len() > 0 {
                st.flush_code_line()
            } else {
                st
            };
            done.settled().push_blank()
        } else {
            let block = match self.fence {
                Fence::Wagara => {
                    let (name, options) = wagara_parts(self.fence_name, self.fence_body);
                    BlockView::Wagara(name, options)
                },
                Fence::Barcode => BlockView::Barcode(trim(self.fence_body)),
                _ => BlockView::Qr(trim(self.fence_body), self.fence_name),
            };
            Flow { fence_body: Seq::empty(), fence_name: Seq::empty(), ..st }.stack(block).settled()
        }
    }

    /// The end of a part of a table. A whole table becomes lines of code text.
    pub open spec fn end_table(self, part: TablePart) -> Flow {
        match part {
            TablePart::Cell => Flow {
                table_row: self.table_row.push(self.table_cell),
                table_cell: Seq::empty(),
                ..self
            },
            TablePart::Head => Flow {
                table_header: self.table_row,
                table_row: Seq::empty(),
                ..self
            },
            TablePart::Row => Flow {
                table_rows: self.table_rows.push(self.table_row),
                table_row: Seq::empty(),
                ..self
            },
            TablePart::Table => Flow {
                in_table: false,
                table_header: Seq::empty(),
                table_rows: Seq::empty(),
                lines: self.lines + table_lines(self.table_header, self.table_rows).map_values(
                    |text: Seq<char>| code_line(text, 0),
                ),
                ..self
            }.push_blank().settled(),
        }
    }

    /// A closing tag.
    pub open spec fn end(self, tag: MdTagEnd) -> Flow {
        match tag {
            MdTagEnd::Heading => Flow {
                heading: None,
                ..self.flush_line().push_blank()
            }.settled(),
            MdTagEnd::Paragraph => if self.lists.len() == 0 {
                self.flush_line().push_blank().settled()
            } else {
                self.flush_line()
            },
            MdTagEnd::BlockQuote => {
                let st = Flow { quotes: less(self.quotes), ..self };
                if self.lists.len() > 0 {
                    st.settled()
                } else {
                    st
                }
            },
            MdTagEnd::List => {
                let st = Flow {
                    lists: if self.lists.len() > 0 {
                        self.lists.drop_last()
                    } else {
                        self.lists
                    },
                    ..self
                };
                if st.lists.len() == 0 {
                    st.push_blank().settled()
                } else {
                    st.settled()
                }
            },
            MdTagEnd::Item => self.flush_line(),
            MdTagEnd::CodeBlock => self.end_code(),
            MdTagEnd::Strong => Flow { bold: less(self.bold), ..self },
            MdTagEnd::Emphasis => Flow { italic: less(self.italic), ..self },
            MdTagEnd::Strikethrough => Flow { strike: less(self.strike), ..self },
            MdTagEnd::Table(part) => self.end_table(part),
            MdTagEnd::Image => self,
            MdTagEnd::Other => self,
        }
    }

    /// An event outside images.
    pub open spec fn handle(self, event: MdEvent<Seq<char>>) -> Flow {
        match event {
            MdEvent::Html(html) => self.html(html),
            MdEvent::Start(tag) => self.start(tag),
            MdEvent::End(tag) => self.end(tag),
            MdEvent::Text(text) => self.text(text),
            MdEvent::Code(text) => if self.in_table {
                self.push_cell(text)
            } else {
                self.push_span(text)
            },
            MdEvent::SoftBreak => if self.in_table {
                self.push_cell(" "@)
            } else {
                self.push_span(" "@)
            },
            MdEvent::HardBreak => if self.in_table {
                self.push_cell(" "@)
            } else {
                self.flush_line()
            },
            MdEvent::TaskListMarker(checked) => self.checkbox(checked),
            MdEvent::Rule(source) => self.rule(source),
            MdEvent::Other => self,
        }
    }

    /// One more event.
    #[verifier::opaque]
    pub open spec fn step(
        self,
        event: MdEvent<Seq<char>>,
        images: Map<Seq<char>, Seq<Seq<bool>>>,
    ) -> Flow {
        if self.images > 0 && !(event is Rule) {
            self.handle_in_image(event, images)
        } else {
            self.handle(event)
        }
    }
}

/// The document after some events.
pub open spec fn flow_after(
    events: Seq<MdEvent<Seq<char>>>,
    images: Map<Seq<char>, Seq<Seq<bool>>>,
) -> Flow
    decreases events.len(),
{
    if events.len() == 0 {
        start_flow()
    } else {
        flow_after(events.drop_last(), images).step(events.last(), images)
    }
}

/// The blocks of a document.
pub open spec fn lowered_blocks(
    events: Seq<MdEvent<Seq<char>>>,
    images: Map<Seq<char>, Seq<Seq<bool>>>,
) -> Seq<BlockView> {
    flow_after(events, images).flush_block().blocks
}

/// The state of a document, as [`Flow`].
struct Lowering {
    blocks: Vec<MdBlock>,
    lines: Vec<RichLine>,
    current: RichLine,
    alignment: Alignment,
    bold: usize,
    italic: usize,
    strike: usize,
    quotes: usize,
    heading: Option<u32>,
    lists: Vec<Option<u64>>,
    in_code: bool,
    fence: Fence,
    fence_body: String,
    fence_name: String,
    code: String,
    images: usize,
    image_dest: String,
    image_alt: String,
    in_table: bool,
    table_header: Vec<String>,
    table_rows: Vec<Vec<String>>,
    table_row: Vec<String>,
    table_cell: String,
}

impl View for Lowering {
    type V = Flow;

    closed spec fn view(&self) -> Flow {
        Flow {
            blocks: block_views(self.blocks@),
            lines: line_views(self.lines@),
            current: self.current@,
            alignment: self.alignment,
            bold: self.bold as nat,
            italic: self.italic as nat,
            strike: self.strike as nat,
            quotes: self.quotes as nat,
            heading: self.heading,
            lists: self.lists@,
            in_code: self.in_code,
            fence: self.fence,
            fence_body: self.fence_body@,
            fence_name: self.fence_name@,
            code: self.code@,
            images: self.images as nat,
            image_dest: self.image_dest@,
            image_alt: self.image_alt@,
            in_table: self.in_table,
            table_header: string_views(self.table_header@),
            table_rows: row_views(self.table_rows@),
            table_row: string_views(self.table_row@),
            table_cell: self.table_cell@,
        }
    }
}

/// Takes a string out, leaving an empty one.
fn take_text(s: &mut String) -> (r: String)
    ensures
        r@ == old(s)@,
        final(s)@ == Seq::<char>::empty(),
{
    let mut out = String::new();
    std::mem::swap(&mut out, s);
    out
}

/// An indent in pixels, at most what the layout can hold.
fn clamp_indent(px: u128) -> (r: u32)
    ensures
        r == indent_of(px as nat),
{
    if px > u32::MAX as u128 {
        u32::MAX
    } else {
        px as u32
    }
}

impl Lowering {
    /// The style of inline text.
    fn style(&self) -> (r: Style)
        ensures
            r == self@.style(),
    {
        let font = if self.heading.is_some() || self.bold > 0 {
            FontStyle::Bold
        } else if self.italic > 0 || self.quotes > 0 {
            FontStyle::Italic
        } else {
            FontStyle::Regular
        };
        let size = match self.heading {
            Some(size) => size,
            None => BODY_SIZE,
        };
        Style { font, size, strike: self.strike > 0 }
    }

    /// Changes the indent of the line that is being built.
    fn indent(&mut self, px: u128)
        ensures
            final(self)@ == old(self)@.indented(px as nat),
    {
        self.current.indent = clamp_indent(px);
        assert(self@ =~= old(self)@.indented(px as nat));
    }

    /// Indents the line by a step for each open list and quote.
    fn indent_to_depth(&mut self)
        ensures
            final(self)@ == old(self)@.indented(old(self)@.depth()),
    {
        self.indent(INDENT_STEP as u128 * (self.quotes as u128 + self.lists.len() as u128));
    }

    /// Goes back to the item's indent inside a list, to none outside.
    fn settle(&mut self)
        ensures
            final(self)@ == old(self)@.settled(),
    {
        if self.lists.len() > 0 {
            self.indent_to_depth();
        } else {
            self.indent(0);
        }
    }

    /// More text on the line, in a given style.
    fn push_styled(&mut self, text: String, style: Style)
        ensures
            final(self)@ == old(self)@.push_styled(text@, style),
    {
        self.current.spans.push(Span { text, style });
        assert(span_views(self.current.spans@) =~= old(self)@.push_styled(
            text@,
            style,
        ).current.spans);
        assert(self@ =~= old(self)@.push_styled(text@, style));
    }

    /// More text on the line, in the current style.
    fn push_span(&mut self, text: String)
        ensures
            final(self)@ == old(self)@.push_span(text@),
    {
        let style = self.style();
        self.push_styled(text, style);
    }

    /// Ends the line, if it has text; the next one keeps its indent.
    fn flush_line(&mut self)
        ensures
            final(self)@ == old(self)@.flush_line(),
    {
        if self.current.spans.len() > 0 {
            let mut line = RichLine { spans: Vec::new(), indent: self.current.indent };
            assert(span_views(line.spans@) =~= Seq::empty());
            std::mem::swap(&mut line, &mut self.current);
            self.lines.push(line);
            assert(line_views(self.lines@) =~= line_views(old(self).lines@).push(line@));
            assert(self@ =~= old(self)@.flush_line());
        }
    }

    /// A blank line, unless there is nothing above or a blank line already.
    fn push_blank(&mut self)
        ensures
            final(self)@ == old(self)@.push_blank(),
    {
        let n: usize = self.lines.len();
        if n > 0 && self.lines[n - 1].spans.len() > 0 {
            self.lines.push(RichLine::default());
            assert(line_views(self.lines@) =~= line_views(old(self).lines@).push(blank_line()));
            assert(self@ =~= old(self)@.push_blank());
        }
    }

    /// Drops the blank lines at the end.
    fn trim_trailing_blanks(&mut self)
        ensures
            final(self)@ == (Flow {
                lines: without_trailing_blanks(old(self)@.lines),
                ..old(self)@
            }),
    {
        let ghost start = self@;
        while self.lines.len() > 0 && self.lines[self.lines.len() - 1].spans.len() == 0
            invariant
                self@ == (Flow { lines: self@.lines, ..start }),
                without_trailing_blanks(self@.lines) == without_trailing_blanks(start.lines),
            decreases self.lines@.len(),
        {
            let ghost before = self@;
            assert(before.lines.last() == self.lines@.last()@);
            let _ = self.lines.pop();
            assert(line_views(self.lines@) =~= before.lines.drop_last());
            assert(self@ =~= (Flow { lines: self@.lines, ..start }));
        }
        assert(self@.lines.len() == self.lines@.len());
        assert(self@.lines.len() > 0 ==> self@.lines.last() == self.lines@.last()@);
    }

    /// Ends the text block, if it has lines, without the blank lines at its end.
    fn flush_block(&mut self)
        ensures
            final(self)@ == old(self)@.flush_block(),
    {
        self.flush_line();
        self.trim_trailing_blanks();
        assert(self@.lines.len() == self.lines@.len());
        if self.lines.len() > 0 {
            let mut lines: Vec<RichLine> = Vec::new();
            assert(line_views(lines@) =~= Seq::empty());
            std::mem::swap(&mut lines, &mut self.lines);
            let ghost before = self.blocks@;
            let block = MdBlock::Lines(lines, self.alignment);
            self.blocks.push(block);
            assert(block_views(self.blocks@) =~= block_views(before).push(block@));
        } else {
            assert(line_views(self.lines@) =~= Seq::empty());
        }
        assert(self@ =~= old(self)@.flush_block());
    }

    /// Puts a block of its own below the text.
    fn stack(&mut self, block: MdBlock)
        ensures
            final(self)@ == old(self)@.stack(block@),
    {
        self.flush_block();
        let ghost before = self.blocks@;
        self.blocks.push(block);
        assert(block_views(self.blocks@) =~= block_views(before).push(block@));
        assert(self@ =~= old(self)@.stack(block@));
    }

    /// Ends the code line.
    fn flush_code_line(&mut self)
        ensures
            final(self)@ == old(self)@.flush_code_line(),
    {
        let text = take_text(&mut self.code);
        let line = single_line(text, self.current.indent);
        self.lines.push(line);
        assert(line_views(self.lines@) =~= line_views(old(self).lines@).push(line@));
        assert(self@ =~= old(self)@.flush_code_line());
    }

    /// Code text: each line feed ends a line.
    fn push_code_text(&mut self, text: &str)
        ensures
            final(self)@ == old(self)@.push_code_text(text@),
    {
        let chars = chars_of(text);
        let ghost start = self@;
        let mut i: usize = 0;
        assert(text@.take(0) =~= Seq::empty());
        while i < chars.len()
            invariant
                i <= chars.len(),
                chars@ == text@,
                self@ == start.push_code_text(text@.take(i as int)),
            decreases chars.len() - i,
        {
            assert(text@.take(i + 1).drop_last() =~= text@.take(i as int));
            let ghost before = self@;
            let c = chars[i];
            if c == '\n' {
                self.flush_code_line();
            } else {
                self.code.push(c);
                assert(self@ =~= (Flow { code: before.code.push(c), ..before }));
            }
            i += 1;
        }
        assert(text@.take(i as int) =~= text@);
    }

    /// Text in a table cell.
    fn push_cell(&mut self, text: &str)
        ensures
            final(self)@ == old(self)@.push_cell(text@),
    {
        self.table_cell.append(text);
        assert(self@ =~= old(self)@.push_cell(text@));
    }
}

/// A line of code text.
pub fn single_line(text: String, indent: u32) -> (r: RichLine)
    ensures
        r@ == code_line(text@, indent),
{
    let mut spans: Vec<Span> = Vec::new();
    spans.push(Span { text, style: Style::new(FontStyle::Regular, CODE_SIZE) });
    let line = RichLine { spans, indent };
    assert(line@.spans =~= code_line(text@, indent).spans);
    line
}

/// The alignment that a comment asks for.
fn read_directive(html: &str) -> (r: Option<Alignment>)
    ensures
        r == directive(html@),
{
    let chars = chars_of(html);
    let text = trimmed(chars.as_slice());
    if reads(text, "<!-- align: left -->") {
        Some(Alignment::Left)
    } else if reads(text, "<!-- align: center -->") {
        Some(Alignment::Center)
    } else if reads(text, "<!-- align: right -->") {
        Some(Alignment::Right)
    } else {
        None
    }
}

/// Whether there is white space inside a text.
fn contains_space(s: &[char]) -> (r: bool)
    ensures
        r == has_space(s@),
{
    let mut i: usize = 0;
    while i < s.len()
        invariant
            i <= s.len(),
            forall|j: int| 0 <= j < i ==> !is_space(#[trigger] s@[j]),
        decreases s.len() - i,
    {
        if is_whitespace(s[i]) {
            assert(is_space(s@[i as int]));
            return true;
        }
        i += 1;
    }
    false
}

/// `s` without white space at either end.
fn trim_text(s: &str) -> (r: String)
    ensures
        r@ == trim(s@),
{
    let chars = chars_of(s);
    text_of(trimmed(chars.as_slice()))
}

impl Lowering {
    /// The outermost image has ended.
    fn finish_image(&mut self, images: &ImageMap)
        ensures
            final(self)@ == old(self)@.finish_image(images@),
    {
        let dest = take_text(&mut self.image_dest);
        let alt = take_text(&mut self.image_alt);
        let text = placeholder_text(alt.as_str(), dest.as_str());
        assert(self@ =~= (Flow {
            image_dest: Seq::empty(),
            image_alt: Seq::empty(),
            ..old(self)@
        }));
        if self.in_table {
            self.push_cell(text.as_str());
            return;
        }
        match images.get(dest.as_str()) {
            Some(image) => self.stack(MdBlock::Image(image.clone())),
            None => self.push_styled(text, Style::new(FontStyle::Italic, BODY_SIZE)),
        }
    }

    /// An event inside an image.
    fn handle_in_image(&mut self, event: MdEvent<String>, images: &ImageMap)
        requires
            old(self)@.images < usize::MAX,
        ensures
            final(self)@ == old(self)@.handle_in_image(event@, images@),
    {
        match event {
            MdEvent::Start(MdTag::Image(_)) => {
                self.images = self.images + 1;
                assert(self@ =~= old(self)@.handle_in_image(event@, images@));
            },
            MdEvent::End(MdTagEnd::Image) => {
                if self.images > 0 {
                    self.images = self.images - 1;
                }
                assert(self@ =~= (Flow { images: less(old(self)@.images), ..old(self)@ }));
                if self.images == 0 {
                    self.finish_image(images);
                }
            },
            MdEvent::Text(text) => {
                self.image_alt.append(text.as_str());
                assert(self@ =~= old(self)@.handle_in_image(event@, images@));
            },
            MdEvent::Code(text) => {
                self.image_alt.append(text.as_str());
                assert(self@ =~= old(self)@.handle_in_image(event@, images@));
            },
            MdEvent::SoftBreak => {
                self.image_alt.push(' ');
                assert(self@ =~= old(self)@.handle_in_image(event@, images@));
            },
            MdEvent::HardBreak => {
                self.image_alt.push(' ');
                assert(self@ =~= old(self)@.handle_in_image(event@, images@));
            },
            _ => {},
        }
    }

    /// A comment at the top level may change the alignment.
    fn html(&mut self, html: &str)
        ensures
            final(self)@ == old(self)@.html(html@),
    {
        if !self.in_code && !self.in_table && self.lists.len() == 0 && self.quotes == 0 {
            if let Some(alignment) = read_directive(html) {
                self.flush_block();
                self.alignment = alignment;
                assert(self@ =~= old(self)@.html(html@));
            }
        }
    }

    /// Text: of a table cell, of a code block, or of a paragraph.
    fn text(&mut self, text: String)
        ensures
            final(self)@ == old(self)@.text(text@),
    {
        if self.in_table {
            self.push_cell(text.as_str());
        } else if self.in_code {
            if self.fence == Fence::Code {
                self.push_code_text(text.as_str());
            } else {
                self.fence_body.append(text.as_str());
                assert(self@ =~= old(self)@.text(text@));
            }
        } else {
            self.push_span(text);
        }
    }

    /// A checkbox takes the place of the list prefix.
    fn checkbox(&mut self, checked: bool)
        ensures
            final(self)@ == old(self)@.checkbox(checked),
    {
        let marker = if checked {
            "[x] ".to_owned()
        } else {
            "[ ] ".to_owned()
        };
        let n: usize = self.current.spans.len();
        if n > 0 {
            let style = self.current.spans[n - 1].style;
            self.current.spans.set(n - 1, Span { text: marker, style });
            assert(span_views(self.current.spans@) =~= old(self)@.checkbox(checked).current.spans);
            assert(self@ =~= old(self)@.checkbox(checked));
        } else {
            self.push_span(marker);
        }
    }

    /// A thematic break.
    fn rule(&mut self, source: &str)
        ensures
            final(self)@ == old(self)@.rule(source@),
    {
        let chars = chars_of(source);
        let tear = contains_space(trimmed(chars.as_slice())) && self.lists.len() == 0;
        self.stack(
            if tear {
                MdBlock::Tear
            } else {
                MdBlock::Rule
            },
        );
    }

    /// The start of a list item.
    fn start_item(&mut self)
        ensures
            final(self)@ == old(self)@.start_item(),
    {
        self.flush_line();
        self.indent_to_depth();
        let n: usize = self.lists.len();
        let mut prefix: Vec<char> = Vec::new();
        if n > 0 {
            if let Some(number) = self.lists[n - 1] {
                prefix = to_decimal(number);
                push_text(&mut prefix, ". ");
                let next: u64 = number.saturating_add(1);
                self.lists.set(n - 1, Some(next));
            } else {
                push_text(&mut prefix, "• ");
            }
        } else {
            push_text(&mut prefix, "• ");
        }
        let ghost list = if old(self)@.lists.len() > 0 {
            Some(old(self)@.lists.last())
        } else {
            None
        };
        assert(prefix@ =~= item_prefix(list));
        self.push_span(text_of(prefix.as_slice()));
        assert(self@ =~= old(self)@.start_item());
    }

    /// The start of a code block or a graphic fence.
    fn start_code(&mut self, info: &str)
        ensures
            final(self)@ == old(self)@.start_code(info@),
    {
        self.flush_line();
        self.in_code = true;
        self.fence = fence_kind(info);
        if self.fence == Fence::Code {
            self.indent(INDENT_STEP as u128 * self.quotes as u128 + CODE_INDENT as u128);
        } else {
            self.fence_body = String::new();
            self.fence_name = if self.fence == Fence::Qr {
                fence_options(info)
            } else {
                fence_arg(info)
            };
        }
        assert(self@ =~= old(self)@.start_code(info@));
    }

    /// The start of a part of a table.
    fn start_table(&mut self, part: TablePart)
        ensures
            final(self)@ == old(self)@.start_table(part),
    {
        match part {
            TablePart::Table => {
                self.flush_line();
                self.push_blank();
                self.in_table = true;
                self.table_header = Vec::new();
                self.table_rows = Vec::new();
                self.table_row = Vec::new();
                self.table_cell = String::new();
            },
            TablePart::Head => {
                self.table_row = Vec::new();
            },
            TablePart::Row => {
                self.table_row = Vec::new();
            },
            TablePart::Cell => {
                self.table_cell = String::new();
            },
        }
        assert(self@ =~= old(self)@.start_table(part));
    }

    /// An opening tag.
    fn start(&mut self, tag: MdTag<String>)
        requires
            old(self)@.bold < usize::MAX,
            old(self)@.italic < usize::MAX,
            old(self)@.strike < usize::MAX,
            old(self)@.quotes < usize::MAX,
        ensures
            final(self)@ == old(self)@.start(tag@),
    {
        match tag {
            MdTag::Heading(level) => {
                self.flush_line();
                self.push_blank();
                self.heading = Some(
                    if level == 1 {
                        3600
                    } else if level == 2 {
                        3000
                    } else {
                        2600
                    },
                );
                self.indent(INDENT_STEP as u128 * self.quotes as u128);
            },
            MdTag::Paragraph => self.indent_to_depth(),
            MdTag::BlockQuote => {
                self.quotes = self.quotes + 1;
            },
            MdTag::List(first) => {
                self.lists.push(first);
            },
            MdTag::Item => self.start_item(),
            MdTag::CodeBlock(Some(info)) => self.start_code(info.as_str()),
            MdTag::CodeBlock(None) => {
                assert(""@ =~= Seq::<char>::empty()) by {
                    reveal_strlit("");
                }
                self.start_code("");
            },
            MdTag::Strong => {
                self.bold = self.bold + 1;
            },
            MdTag::Emphasis => {
                self.italic = self.italic + 1;
            },
            MdTag::Strikethrough => {
                self.strike = self.strike + 1;
            },
            MdTag::Table(part) => self.start_table(part),
            MdTag::Image(dest) => {
                self.images = 1;
                self.image_dest = dest;
                self.image_alt = String::new();
            },
            MdTag::Other => {},
        }
        assert(self@ =~= old(self)@.start(tag@));
    }

    /// The end of a code block or a graphic fence.
    fn end_code(&mut self)
        ensures
            final(self)@ == old(self)@.end_code(),
    {
        let fence = self.fence;
        self.in_code = false;
        self.fence = Fence::Code;
        if fence == Fence::Code {
            assert(self@ =~= (Flow { in_code: false, fence: Fence::Code, ..old(self)@ }));
            if !self.code.as_str().is_empty() {
                self.flush_code_line();
            }
            self.settle();
            self.push_blank();
        } else {
            let body = take_text(&mut self.fence_body);
            let name = take_text(&mut self.fence_name);
            assert(self@ =~= (Flow {
                in_code: false,
                fence: Fence::Code,
                fence_body: Seq::empty(),
                fence_name: Seq::empty(),
                ..old(self)@
            }));
            let block = match fence {
                Fence::Wagara => {
                    let (name, options) = split_wagara(name.as_str(), body.as_str());
                    MdBlock::Wagara(name, options)
                },
                Fence::Barcode => MdBlock::Barcode(trim_text(body.as_str())),
                _ => MdBlock::Qr(trim_text(body.as_str()), name),
            };
            self.stack(block);
            self.settle();
        }
    }

    /// Appends the lines of a table as code text.
    fn push_table(&mut self, texts: Vec<String>)
        ensures
            final(self)@ == (Flow {
                lines: old(self)@.lines + string_views(texts@).map_values(
                    |text: Seq<char>| code_line(text, 0),
                ),
                ..old(self)@
            }),
    {
        let ghost start = self@;
        let ghost wanted = string_views(texts@).map_values(|text: Seq<char>| code_line(text, 0));
        let mut i: usize = 0;
        assert(wanted.take(0) =~= Seq::empty());
        assert(self@.lines =~= start.lines + wanted.take(0));
        while i < texts.len()
            invariant
                i <= texts.len(),
                wanted == string_views(texts@).map_values(|text: Seq<char>| code_line(text, 0)),
                self@ == (Flow { lines: start.lines + wanted.take(i as int), ..start }),
            decreases texts.len() - i,
        {
            let ghost before = self.lines@;
            let line = single_line(texts[i].clone(), 0);
            self.lines.push(line);
            i += 1;
            assert(line_views(self.lines@) =~= line_views(before).push(line@));
            assert(wanted[i - 1] == line@);
            assert(line_views(self.lines@) =~= start.lines + wanted.take(i as int));
            assert(self@ =~= (Flow { lines: start.lines + wanted.take(i as int), ..start }));
        }
        assert(wanted.take(i as int) =~= wanted);
    }

    /// The end of a part of a table.
    fn end_table(&mut self, part: TablePart)
        ensures
            final(self)@ == old(self)@.end_table(part),
    {
        match part {
            TablePart::Cell => {
                let cell = take_text(&mut self.table_cell);
                self.table_row.push(cell);
                assert(string_views(self.table_row@) =~= string_views(old(self).table_row@).push(
                    cell@,
                ));
                assert(self@ =~= old(self)@.end_table(part));
            },
            TablePart::Head => {
                let mut row: Vec<String> = Vec::new();
                assert(string_views(row@) =~= Seq::empty());
                std::mem::swap(&mut row, &mut self.table_row);
                self.table_header = row;
                assert(self@ =~= old(self)@.end_table(part));
            },
            TablePart::Row => {
                let mut row: Vec<String> = Vec::new();
                assert(string_views(row@) =~= Seq::empty());
                std::mem::swap(&mut row, &mut self.table_row);
                self.table_rows.push(row);
                assert(row_views(self.table_rows@) =~= row_views(old(self).table_rows@).push(
                    string_views(row@),
                ));
                assert(self@ =~= old(self)@.end_table(part));
            },
            TablePart::Table => {
                let mut header: Vec<String> = Vec::new();
                let mut rows: Vec<Vec<String>> = Vec::new();
                assert(string_views(header@) =~= Seq::empty());
                assert(row_views(rows@) =~= Seq::empty());
                std::mem::swap(&mut header, &mut self.table_header);
                std::mem::swap(&mut rows, &mut self.table_rows);
                self.in_table = false;
                assert(self@ =~= (Flow {
                    in_table: false,
                    table_header: Seq::empty(),
                    table_rows: Seq::empty(),
                    ..old(self)@
                }));
                self.push_table(build_table_lines(header.as_slice(), rows.as_slice()));
                self.push_blank();
                self.settle();
            },
        }
    }

    /// A closing tag.
    fn end(&mut self, tag: MdTagEnd)
        ensures
            final(self)@ == old(self)@.end(tag),
    {
        match tag {
            MdTagEnd::Heading => {
                self.flush_line();
                self.push_blank();
                self.heading = None;
                self.settle();
            },
            MdTagEnd::Paragraph => {
                self.flush_line();
                if self.lists.len() == 0 {
                    self.push_blank();
                    self.settle();
                }
            },
            MdTagEnd::BlockQuote => {
                if self.quotes > 0 {
                    self.quotes = self.quotes - 1;
                }
                if self.lists.len() > 0 {
                    self.settle();
                }
            },
            MdTagEnd::List => {
                let _ = self.lists.pop();
                assert(self@ =~= (Flow {
                    lists: if old(self)@.lists.len() > 0 {
                        old(self)@.lists.drop_last()
                    } else {
                        old(self)@.lists
                    },
                    ..old(self)@
                }));
                if self.lists.len() == 0 {
                    self.push_blank();
                }
                self.settle();
            },
            MdTagEnd::Item => self.flush_line(),
            MdTagEnd::CodeBlock => self.end_code(),
            MdTagEnd::Strong => {
                if self.bold > 0 {
                    self.bold = self.bold - 1;
                }
            },
            MdTagEnd::Emphasis => {
                if self.italic > 0 {
                    self.italic = self.italic - 1;
                }
            },
            MdTagEnd::Strikethrough => {
                if self.strike > 0 {
                    self.strike = self.strike - 1;
                }
            },
            MdTagEnd::Table(part) => self.end_table(part),
            MdTagEnd::Image => {},
            MdTagEnd::Other => {},
        }
        assert(self@ =~= old(self)@.end(tag));
    }

    /// An event outside images.
    fn handle(&mut self, event: MdEvent<String>)
        requires
            old(self)@.bold < usize::MAX,
            old(self)@.italic < usize::MAX,
            old(self)@.strike < usize::MAX,
            old(self)@.quotes < usize::MAX,
        ensures
            final(self)@ == old(self)@.handle(event@),
    {
        match event {
            MdEvent::Html(html) => self.html(html.as_str()),
            MdEvent::Start(tag) => self.start(tag),
            MdEvent::End(tag) => self.end(tag),
            MdEvent::Text(text) => self.text(text),
            MdEvent::Code(text) => {
                if self.in_table {
                    self.push_cell(text.as_str());
                } else {
                    self.push_span(text);
                }
            },
            MdEvent::SoftBreak => {
                if self.in_table {
                    self.push_cell(" ");
                } else {
                    self.push_span(" ".to_owned());
                }
            },
            MdEvent::HardBreak => {
                if self.in_table {
                    self.push_cell(" ");
                } else {
                    self.flush_line();
                }
            },
            MdEvent::TaskListMarker(checked) => self.checkbox(checked),
            MdEvent::Rule(source) => self.rule(source.as_str()),
            MdEvent::Other => {},
        }
    }
}

impl Flow {
    /// Whether no nesting is deeper than `n`.
    pub open spec fn within(self, n: nat) -> bool {
        self.bold <= n && self.italic <= n && self.strike <= n && self.quotes <= n && self.images
            <= n
    }
}

/// Code text touches nothing but the lines and the code line.
pub proof fn lemma_code_text(st: Flow, text: Seq<char>)
    ensures
        st.push_code_text(text) == (Flow {
            lines: st.push_code_text(text).lines,
            code: st.push_code_text(text).code,
            ..st
        }),
    decreases text.len(),
{
    if text.len() > 0 {
        lemma_code_text(st, text.drop_last());
    }
}

proof fn lemma_start_depth(st: Flow, tag: MdTag<Seq<char>>, n: nat)
    requires
        st.within(n),
    ensures
        st.start(tag).within(n + 1),
{
}

proof fn lemma_end_depth(st: Flow, tag: MdTagEnd, n: nat)
    requires
        st.within(n),
    ensures
        st.end(tag).within(n),
{
}

proof fn lemma_image_depth(
    st: Flow,
    event: MdEvent<Seq<char>>,
    images: Map<Seq<char>, Seq<Seq<bool>>>,
    n: nat,
)
    requires
        st.within(n),
    ensures
        st.handle_in_image(event, images).within(n + 1),
{
}

proof fn lemma_depth(
    st: Flow,
    event: MdEvent<Seq<char>>,
    images: Map<Seq<char>, Seq<Seq<bool>>>,
    n: nat,
)
    requires
        st.within(n),
    ensures
        st.step(event, images).within(n + 1),
{
    reveal(Flow::step);
    if st.images > 0 && !(event is Rule) {
        lemma_image_depth(st, event, images, n);
    } else {
        match event {
            MdEvent::Start(tag) => lemma_start_depth(st, tag, n),
            MdEvent::End(tag) => lemma_end_depth(st, tag, n),
            MdEvent::Text(text) => lemma_code_text(st, text),
            _ => {},
        }
    }
}

impl Lowering {
    /// One more event.
    fn step(&mut self, event: MdEvent<String>, images: &ImageMap)
        requires
            old(self)@.within((usize::MAX - 1) as nat),
        ensures
            final(self)@ == old(self)@.step(event@, images@),
    {
        reveal(Flow::step);
        let at_rule = match &event {
            MdEvent::Rule(_) => true,
            _ => false,
        };
        if self.images > 0 && !at_rule {
            self.handle_in_image(event, images);
        } else {
            self.handle(event);
        }
    }

    /// The start of a document.
    fn new() -> (r: Lowering)
        ensures
            r@ == start_flow(),
    {
        let st = Lowering {
            blocks: Vec::new(),
            lines: Vec::new(),
            current: RichLine::default(),
            alignment: Alignment::Left,
            bold: 0,
            italic: 0,
            strike: 0,
            quotes: 0,
            heading: None,
            lists: Vec::new(),
            in_code: false,
            fence: Fence::Code,
            fence_body: String::new(),
            fence_name: String::new(),
            code: String::new(),
            images: 0,
            image_dest: String::new(),
            image_alt: String::new(),
            in_table: false,
            table_header: Vec::new(),
            table_rows: Vec::new(),
            table_row: Vec::new(),
            table_cell: String::new(),
        };
        assert(st@ =~= start_flow());
        st
    }

    /// The blocks of the finished document.
    fn finish(self) -> (r: Vec<MdBlock>)
        ensures
            block_views(r@) == self@.flush_block().blocks,
    {
        let mut st = self;
        st.flush_block();
        st.blocks
    }
}

/// Lowers markdown events to blocks. Image destinations that `images` lacks become placeholders.
pub fn lower_events(events: Vec<MdEvent<String>>, images: &ImageMap) -> (r: Vec<MdBlock>)
    ensures
        block_views(r@) == lowered_blocks(event_views(events@), images@),
{
    let ghost views = event_views(events@);
    let mut st = Lowering::new();
    let count: usize = events.len();
    assert(views.take(0) =~= Seq::empty());
    for event in it: events
        invariant
            views == event_views(it.seq()),
            it.seq().len() == count,
            st@ == flow_after(views.take(it.index()), images@),
            st@.within(it.index() as nat),
    {
        let ghost i = it.index();
        assert(views.take(i + 1).drop_last() =~= views.take(i));
        proof {
            lemma_depth(st@, event@, images@, i as nat);
        }
        st.step(event, images);
    }
    assert(views.take(count as int) =~= views);
    st.finish()
}

/// Lowers a markdown document to blocks.
pub fn lower(md: &str, images: &ImageMap) -> (r: Vec<MdBlock>)
    ensures
        block_views(r@) == lowered_blocks(markdown_events(md@), images@),
        is_blank(md@) ==> r@.len() == 0,
{
    let events = parse_markdown(md);
    let blocks = lower_events(events, images);
    proof {
        assert(block_views(blocks@).len() == blocks@.len());
        if is_blank(md@) {
            assert(event_views(events@) =~= Seq::empty());
        }
    }
    blocks
}

/// Whether text lines are set as a page wants them: no blank line first, and no two in a row.
pub open spec fn tidy(lines: Seq<LineView>) -> bool {
    &&& lines.len() > 0 ==> lines[0].spans.len() > 0
    &&& forall|i: int|
        0 < i < lines.len() && lines[i - 1].spans.len() == 0 ==> (#[trigger] lines[i]).spans.len()
            > 0
}

/// Whether a block, if it is text, is tidy, not empty, and does not end in a blank line.
pub open spec fn tidy_block(block: BlockView) -> bool {
    block matches BlockView::Lines(lines, alignment) ==> tidy(lines) && lines.len() > 0
        && lines.last().spans.len() > 0
}

impl Flow {
    /// Whether the blocks and the lines collected so far are tidy.
    pub open spec fn is_tidy(self) -> bool {
        &&& tidy(self.lines)
        &&& forall|i: int| 0 <= i < self.blocks.len() ==> tidy_block(#[trigger] self.blocks[i])
    }
}

proof fn lemma_tidy_push(lines: Seq<LineView>, line: LineView)
    requires
        tidy(lines),
        line.spans.len() > 0,
    ensures
        tidy(lines.push(line)),
{
}

proof fn lemma_without_trailing_blanks(lines: Seq<LineView>)
    requires
        tidy(lines),
    ensures
        tidy(without_trailing_blanks(lines)),
        without_trailing_blanks(lines).len() > 0 ==> without_trailing_blanks(
            lines,
        ).last().spans.len() > 0,
        without_trailing_blanks(lines).len() == 0 ==> lines.len() == 0,
    decreases lines.len(),
{
    if lines.len() > 0 && lines.last().spans.len() == 0 {
        let front = lines.drop_last();
        assert(lines[lines.len() - 1].spans.len() == 0);
        assert(tidy(front)) by {
            assert forall|i: int| 0 < i < front.len() && front[i - 1].spans.len() == 0 implies (
            #[trigger] front[i]).spans.len() > 0 by {
                assert(lines[i] == front[i]);
                assert(lines[i - 1] == front[i - 1]);
            }
        }
        lemma_without_trailing_blanks(front);
    }
}

proof fn lemma_flush_keeps_tidy(st: Flow)
    requires
        st.is_tidy(),
    ensures
        st.flush_line().is_tidy(),
        st.push_blank().is_tidy(),
        st.flush_line().push_blank().is_tidy(),
        st.flush_block().is_tidy(),
{
    let flushed = st.flush_line();
    if st.current.spans.len() > 0 {
        lemma_tidy_push(st.lines, st.current);
    }
    assert(flushed.is_tidy());
    assert(flushed.push_blank().is_tidy());
    lemma_without_trailing_blanks(flushed.lines);
    let done = st.flush_block();
    assert forall|i: int| 0 <= i < done.blocks.len() implies tidy_block(
        #[trigger] done.blocks[i],
    ) by {
        if i < flushed.blocks.len() {
            assert(done.blocks[i] == flushed.blocks[i]);
        }
    }
}

proof fn lemma_stack_keeps_tidy(st: Flow, block: BlockView)
    requires
        st.is_tidy(),
        !(block is Lines),
    ensures
        st.stack(block).is_tidy(),
{
    lemma_flush_keeps_tidy(st);
    let flushed = st.flush_block();
    let done = st.stack(block);
    assert forall|i: int| 0 <= i < done.blocks.len() implies tidy_block(
        #[trigger] done.blocks[i],
    ) by {
        if i < flushed.blocks.len() {
            assert(done.blocks[i] == flushed.blocks[i]);
        }
    }
}

proof fn lemma_code_keeps_tidy(st: Flow, text: Seq<char>)
    requires
        st.is_tidy(),
    ensures
        st.push_code_text(text).is_tidy(),
        st.flush_code_line().is_tidy(),
    decreases text.len(),
{
    lemma_tidy_push(st.lines, code_line(st.code, st.current.indent));
    if text.len() > 0 {
        lemma_code_keeps_tidy(st, text.drop_last());
        let before = st.push_code_text(text.drop_last());
        lemma_tidy_push(before.lines, code_line(before.code, before.current.indent));
    }
}

proof fn lemma_tidy_append(lines: Seq<LineView>, more: Seq<LineView>)
    requires
        tidy(lines),
        forall|i: int| 0 <= i < more.len() ==> (#[trigger] more[i]).spans.len() > 0,
    ensures
        tidy(lines + more),
{
    let all = lines + more;
    if all.len() > 0 {
        if lines.len() == 0 {
            assert(all[0] == more[0]);
        } else {
            assert(all[0] == lines[0]);
        }
    }
    assert forall|i: int| 0 < i < all.len() && all[i - 1].spans.len() == 0 implies (
    #[trigger] all[i]).spans.len() > 0 by {
        if i < lines.len() {
            assert(all[i] == lines[i]);
            assert(all[i - 1] == lines[i - 1]);
        } else {
            assert(all[i] == more[i - lines.len()]);
        }
    }
}

proof fn lemma_step_keeps_tidy(
    st: Flow,
    event: MdEvent<Seq<char>>,
    images: Map<Seq<char>, Seq<Seq<bool>>>,
)
    requires
        st.is_tidy(),
    ensures
        st.step(event, images).is_tidy(),
{
    reveal(Flow::step);
    lemma_flush_keeps_tidy(st);
    if st.images > 0 && !(event is Rule) {
        if event == MdEvent::<Seq<char>>::End(MdTagEnd::Image) {
            let closed = Flow {
                images: less(st.images),
                image_dest: Seq::empty(),
                image_alt: Seq::empty(),
                ..st
            };
            assert(closed.is_tidy());
            lemma_stack_keeps_tidy(closed, BlockView::Image(images[st.image_dest]));
        }
    } else {
        match event {
            MdEvent::Text(text) => {
                lemma_code_keeps_tidy(st, text);
            },
            MdEvent::Rule(source) => {
                lemma_stack_keeps_tidy(st, BlockView::Tear);
                lemma_stack_keeps_tidy(st, BlockView::Rule);
            },
            MdEvent::End(MdTagEnd::CodeBlock) => {
                let closed = Flow { in_code: false, fence: Fence::Code, ..st };
                assert(closed.is_tidy());
                lemma_code_keeps_tidy(closed, Seq::empty());
                lemma_flush_keeps_tidy(closed.flush_code_line().settled());
                lemma_flush_keeps_tidy(closed.settled());
                let emptied = Flow { fence_body: Seq::empty(), fence_name: Seq::empty(), ..closed };
                assert(emptied.is_tidy());
                let (name, options) = wagara_parts(st.fence_name, st.fence_body);
                lemma_stack_keeps_tidy(emptied, BlockView::Wagara(name, options));
                lemma_stack_keeps_tidy(emptied, BlockView::Barcode(trim(st.fence_body)));
                lemma_stack_keeps_tidy(emptied, BlockView::Qr(trim(st.fence_body), st.fence_name));
            },
            MdEvent::End(MdTagEnd::Table(TablePart::Table)) => {
                let texts = table_lines(st.table_header, st.table_rows);
                let more = texts.map_values(|text: Seq<char>| code_line(text, 0));
                lemma_tidy_append(st.lines, more);
                let closed = Flow {
                    in_table: false,
                    table_header: Seq::empty(),
                    table_rows: Seq::empty(),
                    lines: st.lines + more,
                    ..st
                };
                assert(closed.is_tidy());
                lemma_flush_keeps_tidy(closed);
            },
            _ => {},
        }
    }
}

/// No document prints a block of nothing: every text block has lines, begins and ends with one
/// that is not blank, and has no two blank lines in a row.
pub proof fn law_text_blocks_are_tidy(
    events: Seq<MdEvent<Seq<char>>>,
    images: Map<Seq<char>, Seq<Seq<bool>>>,
)
    ensures
        flow_after(events, images).is_tidy(),
        forall|i: int|
            0 <= i < lowered_blocks(events, images).len() ==> tidy_block(
                #[trigger] lowered_blocks(events, images)[i],
            ),
    decreases events.len(),
{
    if events.len() > 0 {
        law_text_blocks_are_tidy(events.drop_last(), images);
        lemma_step_keeps_tidy(flow_after(events.drop_last(), images), events.last(), images);
    }
    lemma_flush_keeps_tidy(flow_after(events, images));
}

/// Code keeps its line breaks exactly: each line feed closes one code line at the block's indent,
/// and what follows the last one stays open.
pub proof fn law_code_lines_are_exact(st: Flow, text: Seq<char>)
    requires
        st.code.len() == 0,
    ensures
        st.push_code_text(text).lines == st.lines + split_runs(text, '\n').0.map_values(
            |line: Seq<char>| code_line(line, st.current.indent),
        ),
        st.push_code_text(text).code == split_runs(text, '\n').1,
        st.push_code_text(text).current == st.current,
    decreases text.len(),
{
    let wanted = st.lines + split_runs(text, '\n').0.map_values(
        |line: Seq<char>| code_line(line, st.current.indent),
    );
    if text.len() > 0 {
        law_code_lines_are_exact(st, text.drop_last());
    }
    assert(st.push_code_text(text).lines =~= wanted);
    assert(st.push_code_text(text).code =~= split_runs(text, '\n').1);
}

/// A span has one face: a heading or bold text is bold whatever else is open, and what is only
/// italic or only in a quote is italic.
pub proof fn law_emphasis_order(st: Flow)
    ensures
        st.heading is Some || st.bold > 0 ==> st.style().font == FontStyle::Bold,
        st.heading is None && st.bold == 0 && (st.italic > 0 || st.quotes > 0) ==> st.style().font
            == FontStyle::Italic,
        st.heading is None && st.bold == 0 && st.italic == 0 && st.quotes == 0 ==> st.style().font
            == FontStyle::Regular,
        st.style().strike == (st.strike > 0),
{
}

/// Bold text in an emphasis prints as bold text alone: the two do not compose.
pub proof fn law_bold_italic_is_bold(st: Flow, text: Seq<char>)
    ensures
        st.start(MdTag::Emphasis).start(MdTag::Strong).push_span(text).current == st.start(
            MdTag::Strong,
        ).push_span(text).current,
{
}

/// Inline code is set like the text around it.
pub proof fn law_inline_code_is_text(st: Flow, text: Seq<char>)
    requires
        !st.in_code,
    ensures
        st.handle(MdEvent::Code(text)) == st.handle(MdEvent::Text(text)),
{
}

/// A checkbox replaces the list prefix: the item's line then holds the marker alone, in a bullet
/// list and in an ordered one.
pub proof fn law_checkbox_replaces_prefix(st: Flow, checked: bool)
    requires
        st.lists.len() > 0,
    ensures
        st.start_item().checkbox(checked).current.spans =~= seq![
            SpanView {
                text: if checked {
                    "[x] "@
                } else {
                    "[ ] "@
                },
                style: st.style(),
            },
        ],
        st.start_item().checkbox(checked).current.indent == indent_of(st.depth()),
{
}

/// Alignment comments work at the top level only, and only those that name an alignment.
pub proof fn law_directives_only_at_top_level(st: Flow, html: Seq<char>)
    requires
        st.in_code || st.in_table || st.lists.len() > 0 || st.quotes > 0 || directive(html) is None,
    ensures
        st.html(html) == st,
{
}

/// A picture in a table cell prints as its placeholder, whether it was supplied or not.
pub proof fn law_table_cells_hold_placeholders(
    st: Flow,
    images: Map<Seq<char>, Seq<Seq<bool>>>,
)
    requires
        st.in_table,
    ensures
        st.finish_image(images).table_cell == st.table_cell + placeholder(
            st.image_alt,
            st.image_dest,
        ),
        st.finish_image(images).blocks == st.blocks,
        st.finish_image(images).lines == st.lines,
{
}

/// A document starts left-aligned, and only a comment changes that.
pub proof fn law_only_comments_align(
    st: Flow,
    event: MdEvent<Seq<char>>,
    images: Map<Seq<char>, Seq<Seq<bool>>>,
)
    requires
        !(event is Html),
    ensures
        start_flow().alignment == Alignment::Left,
        st.step(event, images).alignment == st.alignment,
{
    reveal(Flow::step);
    if let MdEvent::Text(text) = event {
        lemma_code_text(st, text);
    }
}

/// An ordered list counts up from its first number, one per item, and bullets stay bullets.
pub proof fn law_items_count_up(st: Flow, n: u64)
    requires
        st.lists.len() > 0,
        n < u64::MAX,
    ensures
        st.lists.last() == Some(n) ==> st.start_item().lists == st.lists.drop_last().push(
            Some((n + 1) as u64),
        ) && st.start_item().current.spans == seq![
            SpanView { text: decimal(n as nat) + ". "@, style: st.style() },
        ],
        st.lists.last() is None ==> st.start_item().lists == st.lists
            && st.start_item().current.spans == seq![SpanView { text: "• "@, style: st.style() }],
{
    if st.lists.last() == Some(n) {
        assert(st.start_item().lists =~= st.lists.drop_last().push(Some((n + 1) as u64)));
    }
    assert(st.start_item().current.spans =~= seq![
        SpanView { text: item_prefix(Some(st.lists.last())), style: st.style() },
    ]);
}

} // verus!
