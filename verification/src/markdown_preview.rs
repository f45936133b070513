//! The markdown preview's layout: a document is parsed into events by
//! pulldown-cmark, and the events are laid out as the blocks the preview
//! draws, in order. Drawing stays with the caller.

use vstd::prelude::*;
use pulldown_cmark::{CodeBlockKind, Event, Options, Parser, Tag, TagEnd};
use crate::text::{fmt_u64, owned, push_char, push_str};

verus! {

/// The start of a markdown element, as far as the preview tells elements
/// apart.
#[derive(Debug, Clone, PartialEq, Eq)]
pub enum MdTag {
    Paragraph,
    /// A heading of level 1 to 6.
    Heading(u32),
    BlockQuote,
    /// A code block with its language (empty when none is given).
    CodeBlock(String),
    /// A list, numbered from the given number when it is ordered.
    List(Option<u64>),
    Item,
    Table,
    TableHead,
    TableRow,
    TableCell,
    /// An image with its destination.
    Image(String),
    /// Emphasis, links and the other elements laid out as their text.
    Other,
}

/// The end of a markdown element.
#[derive(Debug, Clone, Copy, PartialEq, Eq, Structural)]
pub enum MdTagEnd {
    Paragraph,
    Heading,
    BlockQuote,
    CodeBlock,
    List,
    Item,
    Table,
    TableHead,
    TableRow,
    TableCell,
    Link,
    Other,
}

/// An event of a markdown parser.
#[derive(Debug, Clone, PartialEq, Eq)]
pub enum MdEvent {
    Start(MdTag),
    End(MdTagEnd),
    Text(String),
    /// Inline code.
    Code(String),
    SoftBreak,
    HardBreak,
    Rule,
    TaskListMarker(bool),
    /// HTML and footnote references, which the preview leaves out.
    Other,
}

/// What the preview draws, top to bottom.
#[derive(Debug, Clone, PartialEq, Eq)]
pub enum MdBlock {
    /// A paragraph, set off as a quotation when `quoted`.
    Paragraph { text: String, quoted: bool },
    Heading { level: u32, text: String },
    CodeBlock { lang: String, code: String },
    /// A list item indented by `indent` levels, after its bullet.
    ListItem { indent: usize, bullet: String, text: String },
    /// A table of `columns` columns; the first row is the header.
    Table { rows: Vec<Vec<String>>, columns: usize },
    InlineCode(String),
    Link(String),
    Image(String),
    Checkbox(bool),
    Rule,
    /// Vertical space, in points.
    Space(u32),
}

// ─── Model ──────────────────────────────────────────────────────────────────

/// A tag as plain values.
pub enum TagModel {
    Paragraph,
    Heading(u32),
    BlockQuote,
    CodeBlock(Seq<char>),
    List(Option<u64>),
    Item,
    Table,
    TableHead,
    TableRow,
    TableCell,
    Image(Seq<char>),
    Other,
}

/// An event as plain values.
pub enum EventModel {
    Start(TagModel),
    End(MdTagEnd),
    Text(Seq<char>),
    Code(Seq<char>),
    SoftBreak,
    HardBreak,
    Rule,
    TaskListMarker(bool),
    Other,
}

/// A block as plain values.
pub enum BlockModel {
    Paragraph(Seq<char>, bool),
    Heading(u32, Seq<char>),
    CodeBlock(Seq<char>, Seq<char>),
    ListItem(nat, Seq<char>, Seq<char>),
    Table(Seq<Seq<Seq<char>>>, nat),
    InlineCode(Seq<char>),
    Link(Seq<char>),
    Image(Seq<char>),
    Checkbox(bool),
    Rule,
    Space(nat),
}

pub open spec fn tag_model(t: MdTag) -> TagModel {
    match t {
        MdTag::Paragraph => TagModel::Paragraph,
        MdTag::Heading(l) => TagModel::Heading(l),
        MdTag::BlockQuote => TagModel::BlockQuote,
        MdTag::CodeBlock(s) => TagModel::CodeBlock(s@),
        MdTag::List(n) => TagModel::List(n),
        MdTag::Item => TagModel::Item,
        MdTag::Table => TagModel::Table,
        MdTag::TableHead => TagModel::TableHead,
        MdTag::TableRow => TagModel::TableRow,
        MdTag::TableCell => TagModel::TableCell,
        MdTag::Image(s) => TagModel::Image(s@),
        MdTag::Other => TagModel::Other,
    }
}

pub open spec fn event_model(e: MdEvent) -> EventModel {
    match e {
        MdEvent::Start(t) => EventModel::Start(tag_model(t)),
        MdEvent::End(t) => EventModel::End(t),
        MdEvent::Text(s) => EventModel::Text(s@),
        MdEvent::Code(s) => EventModel::Code(s@),
        MdEvent::SoftBreak => EventModel::SoftBreak,
        MdEvent::HardBreak => EventModel::HardBreak,
        MdEvent::Rule => EventModel::Rule,
        MdEvent::TaskListMarker(b) => EventModel::TaskListMarker(b),
        MdEvent::Other => EventModel::Other,
    }
}

pub open spec fn events_model(s: Seq<MdEvent>) -> Seq<EventModel> {
    s.map_values(|e: MdEvent| event_model(e))
}

pub open spec fn block_model(b: MdBlock) -> BlockModel {
    match b {
        MdBlock::Paragraph { text, quoted } => BlockModel::Paragraph(text@, quoted),
        MdBlock::Heading { level, text } => BlockModel::Heading(level, text@),
        MdBlock::CodeBlock { lang, code } => BlockModel::CodeBlock(lang@, code@),
        MdBlock::ListItem { indent, bullet, text } => BlockModel::ListItem(indent as nat, bullet@, text@),
        MdBlock::Table { rows, columns } => BlockModel::Table(rows.deep_view(), columns as nat),
        MdBlock::InlineCode(s) => BlockModel::InlineCode(s@),
        MdBlock::Link(s) => BlockModel::Link(s@),
        MdBlock::Image(s) => BlockModel::Image(s@),
        MdBlock::Checkbox(b) => BlockModel::Checkbox(b),
        MdBlock::Rule => BlockModel::Rule,
        MdBlock::Space(n) => BlockModel::Space(n as nat),
    }
}

pub open spec fn blocks_model(s: Seq<MdBlock>) -> Seq<BlockModel> {
    s.map_values(|b: MdBlock| block_model(b))
}

/// Where the layout stands between events.
pub struct Layout {
    pub list_depth: nat,
    /// For each open list, the next number when it is ordered.
    pub list_counter: Seq<Option<u64>>,
    pub in_blockquote: bool,
    pub in_code_block: bool,
    pub code_lang: Seq<char>,
    pub code: Seq<char>,
    pub paragraph: Seq<char>,
    pub heading_level: u32,
    pub heading: Seq<char>,
    pub in_table: bool,
    pub table_header: bool,
    pub table_rows: Seq<Seq<Seq<char>>>,
    pub current_row: Seq<Seq<char>>,
    pub current_cell: Seq<char>,
}

/// Nothing laid out yet.
pub open spec fn layout_start() -> Layout {
    Layout {
        list_depth: 0,
        list_counter: Seq::empty(),
        in_blockquote: false,
        in_code_block: false,
        code_lang: Seq::empty(),
        code: Seq::empty(),
        paragraph: Seq::empty(),
        heading_level: 0,
        heading: Seq::empty(),
        in_table: false,
        table_header: false,
        table_rows: Seq::empty(),
        current_row: Seq::empty(),
        current_cell: Seq::empty(),
    }
}

/// The pending paragraph is drawn, if it has text.
pub open spec fn flush_paragraph(m: Layout) -> (Layout, Seq<BlockModel>) {
    if m.paragraph.len() == 0 {
        (m, Seq::empty())
    } else {
        (Layout { paragraph: Seq::empty(), ..m }, seq![BlockModel::Paragraph(m.paragraph, m.in_blockquote)])
    }
}

/// The pending heading is drawn, if it has text; the heading ends.
pub open spec fn flush_heading(m: Layout) -> (Layout, Seq<BlockModel>) {
    let n = Layout { heading: Seq::empty(), heading_level: 0, ..m };
    if m.heading.len() == 0 {
        (n, Seq::empty())
    } else {
        (n, seq![BlockModel::Heading(m.heading_level, m.heading)])
    }
}

/// The pending code block is drawn, if it has code.
pub open spec fn flush_code(m: Layout) -> (Layout, Seq<BlockModel>) {
    if m.code.len() == 0 {
        (m, Seq::empty())
    } else {
        (Layout { code: Seq::empty(), code_lang: Seq::empty(), ..m }, seq![BlockModel::CodeBlock(m.code_lang, m.code)])
    }
}

/// The most cells in a row.
pub open spec fn max_columns(rows: Seq<Seq<Seq<char>>>) -> nat
    decreases rows.len(),
{
    if rows.len() == 0 {
        0
    } else {
        let k = max_columns(rows.drop_last());
        if rows.last().len() > k { rows.last().len() } else { k }
    }
}

/// The collected table is drawn, when it has a cell, then a space.
pub open spec fn flush_table(m: Layout) -> (Layout, Seq<BlockModel>) {
    if m.table_rows.len() == 0 {
        (m, Seq::empty())
    } else {
        let n = Layout { table_rows: Seq::empty(), ..m };
        let c = max_columns(m.table_rows);
        if c == 0 {
            (n, Seq::empty())
        } else {
            (n, seq![BlockModel::Table(m.table_rows, c), BlockModel::Space(8)])
        }
    }
}

/// The bullet of a list item in the innermost list: its number and a dot
/// when that list is ordered, else a bullet point.
pub open spec fn bullet_of(counter: Seq<Option<u64>>) -> Seq<char> {
    if counter.len() > 0 && counter.last() is Some {
        crate::text::decimal(counter.last()->0 as nat) + "."@
    } else {
        "\u{2022}"@
    }
}

/// The number after `n`, wrapping.
pub open spec fn next_number(n: u64) -> u64 {
    if n == u64::MAX { 0 } else { (n + 1) as u64 }
}

/// What a start tag does.
pub open spec fn on_start(m: Layout, t: TagModel) -> (Layout, Seq<BlockModel>) {
    match t {
        TagModel::Heading(l) => {
            let f = flush_paragraph(m);
            (Layout { heading_level: l, heading: Seq::empty(), ..f.0 }, f.1)
        },
        TagModel::Paragraph => (Layout { paragraph: Seq::empty(), ..m }, Seq::empty()),
        TagModel::BlockQuote => {
            let f = flush_paragraph(m);
            (Layout { in_blockquote: true, ..f.0 }, f.1)
        },
        TagModel::CodeBlock(lang) => {
            let f = flush_paragraph(m);
            (Layout { in_code_block: true, code: Seq::empty(), code_lang: lang, ..f.0 }, f.1)
        },
        TagModel::List(start) => {
            let f = flush_paragraph(m);
            (Layout { list_depth: f.0.list_depth + 1, list_counter: f.0.list_counter.push(start), ..f.0 }, f.1)
        },
        TagModel::Item => (Layout { paragraph: Seq::empty(), ..m }, Seq::empty()),
        TagModel::Table => {
            let f = flush_paragraph(m);
            (Layout { in_table: true, table_rows: Seq::empty(), ..f.0 }, f.1)
        },
        TagModel::TableHead => (Layout { table_header: true, ..m }, Seq::empty()),
        TagModel::TableRow => (Layout { current_row: Seq::empty(), ..m }, Seq::empty()),
        TagModel::TableCell => (Layout { current_cell: Seq::empty(), ..m }, Seq::empty()),
        TagModel::Image(url) => {
            let f = flush_paragraph(m);
            (f.0, f.1.push(BlockModel::Image(url)))
        },
        TagModel::Other => (m, Seq::empty()),
    }
}

/// What the end of a list item does: its text, when it has any, is drawn
/// after its bullet, and an ordered list counts on.
pub open spec fn on_item_end(m: Layout) -> (Layout, Seq<BlockModel>) {
    let text = m.paragraph;
    let n = Layout { paragraph: Seq::empty(), ..m };
    if text.len() == 0 {
        (n, Seq::empty())
    } else {
        let indent = if m.list_depth > 0 { (m.list_depth - 1) as nat } else { 0 };
        let bullet = bullet_of(m.list_counter);
        let counter = if m.list_counter.len() > 0 && m.list_counter.last() is Some {
            m.list_counter.drop_last().push(Some(next_number(m.list_counter.last()->0)))
        } else {
            m.list_counter
        };
        (Layout { list_counter: counter, ..n }, seq![BlockModel::ListItem(indent, bullet, text)])
    }
}

/// What an end tag does.
pub open spec fn on_end(m: Layout, t: MdTagEnd) -> (Layout, Seq<BlockModel>) {
    match t {
        MdTagEnd::Heading => {
            let f = flush_heading(m);
            (f.0, f.1.push(BlockModel::Space(4)))
        },
        MdTagEnd::Paragraph => {
            let f = flush_paragraph(m);
            (f.0, f.1.push(BlockModel::Space(8)))
        },
        MdTagEnd::BlockQuote => {
            let f = flush_paragraph(m);
            (Layout { in_blockquote: false, ..f.0 }, f.1.push(BlockModel::Space(4)))
        },
        MdTagEnd::CodeBlock => {
            let f = flush_code(m);
            (Layout { in_code_block: false, ..f.0 }, f.1.push(BlockModel::Space(4)))
        },
        MdTagEnd::List => {
            let d = if m.list_depth > 0 { (m.list_depth - 1) as nat } else { 0 };
            let c = if m.list_counter.len() > 0 { m.list_counter.drop_last() } else { m.list_counter };
            (Layout { list_depth: d, list_counter: c, ..m }, seq![BlockModel::Space(4)])
        },
        MdTagEnd::Item => on_item_end(m),
        MdTagEnd::Table => {
            let f = flush_table(m);
            (Layout { in_table: false, ..f.0 }, f.1)
        },
        MdTagEnd::TableHead => (
            Layout { table_rows: m.table_rows.push(m.current_row), table_header: false, ..m },
            Seq::empty(),
        ),
        MdTagEnd::TableRow => if !m.table_header {
            (Layout { table_rows: m.table_rows.push(m.current_row), ..m }, Seq::empty())
        } else {
            (m, Seq::empty())
        },
        MdTagEnd::TableCell => (
            Layout { current_row: m.current_row.push(m.current_cell), current_cell: Seq::empty(), ..m },
            Seq::empty(),
        ),
        MdTagEnd::Link => if m.paragraph.len() == 0 {
            (m, Seq::empty())
        } else {
            (Layout { paragraph: Seq::empty(), ..m }, seq![BlockModel::Link(m.paragraph)])
        },
        MdTagEnd::Other => (m, Seq::empty()),
    }
}

/// Where text goes: into the code block, the heading, the table cell or
/// the paragraph, the first that is open.
pub open spec fn on_text(m: Layout, s: Seq<char>) -> Layout {
    if m.in_code_block {
        Layout { code: m.code + s, ..m }
    } else if m.heading_level > 0 {
        Layout { heading: m.heading + s, ..m }
    } else if m.in_table {
        Layout { current_cell: m.current_cell + s, ..m }
    } else {
        Layout { paragraph: m.paragraph + s, ..m }
    }
}

/// What one event does to the layout, and the blocks it draws.
pub open spec fn md_step(m: Layout, e: EventModel) -> (Layout, Seq<BlockModel>) {
    match e {
        EventModel::Start(t) => on_start(m, t),
        EventModel::End(t) => on_end(m, t),
        EventModel::Text(s) => (on_text(m, s), Seq::empty()),
        EventModel::Code(s) => if m.in_code_block {
            (Layout { code: m.code + s, ..m }, Seq::empty())
        } else {
            (m, seq![BlockModel::InlineCode(s)])
        },
        EventModel::SoftBreak => if !m.in_code_block {
            (Layout { paragraph: m.paragraph.push(' '), ..m }, Seq::empty())
        } else {
            (m, Seq::empty())
        },
        EventModel::HardBreak => if !m.in_code_block {
            flush_paragraph(m)
        } else {
            (m, Seq::empty())
        },
        EventModel::Rule => {
            let f = flush_paragraph(m);
            (f.0, f.1 + seq![BlockModel::Space(4), BlockModel::Rule, BlockModel::Space(4)])
        },
        EventModel::TaskListMarker(b) => (m, seq![BlockModel::Checkbox(b)]),
        EventModel::Other => (m, Seq::empty()),
    }
}

/// The layout after `events`, and the blocks drawn on the way.
pub open spec fn md_run(events: Seq<EventModel>) -> (Layout, Seq<BlockModel>)
    decreases events.len(),
{
    if events.len() == 0 {
        (layout_start(), Seq::empty())
    } else {
        let r = md_run(events.drop_last());
        let s = md_step(r.0, events.last());
        (s.0, r.1 + s.1)
    }
}

/// The blocks of a document: those the events draw, then the paragraph
/// still pending at the end.
pub open spec fn md_blocks(events: Seq<EventModel>) -> Seq<BlockModel> {
    let r = md_run(events);
    r.1 + flush_paragraph(r.0).1
}

// ─── Layout ─────────────────────────────────────────────────────────────────

/// Where the layout stands between events.
#[derive(Debug)]
pub struct MdLayout {
    list_depth: usize,
    list_counter: Vec<Option<u64>>,
    in_blockquote: bool,
    in_code_block: bool,
    code_lang: String,
    code: String,
    paragraph: String,
    heading_level: u32,
    heading: String,
    in_table: bool,
    table_header: bool,
    table_rows: Vec<Vec<String>>,
    current_row: Vec<String>,
    current_cell: String,
}

fn copy_row(v: &Vec<String>) -> (r: Vec<String>)
    ensures
        r@ == v@,
{
    let mut out: Vec<String> = Vec::new();
    let mut i: usize = 0;
    while i < v.len()
        invariant
            i <= v@.len(),
            out@ == v@.take(i as int),
        decreases v@.len() - i,
    {
        out.push(v[i].clone());
        assert(v@.take(i + 1) == v@.take(i as int).push(v@[i as int]));
        i = i + 1;
    }
    assert(v@.take(v@.len() as int) == v@);
    out
}

proof fn lemma_blocks_push(a: Seq<MdBlock>, b: MdBlock)
    ensures
        blocks_model(a.push(b)) == blocks_model(a).push(block_model(b)),
{
    assert(blocks_model(a.push(b)) =~= blocks_model(a).push(block_model(b)));
}

impl MdLayout {
    /// The layout as plain values.
    pub closed spec fn model(&self) -> Layout {
        Layout {
            list_depth: self.list_depth as nat,
            list_counter: self.list_counter@,
            in_blockquote: self.in_blockquote,
            in_code_block: self.in_code_block,
            code_lang: self.code_lang@,
            code: self.code@,
            paragraph: self.paragraph@,
            heading_level: self.heading_level,
            heading: self.heading@,
            in_table: self.in_table,
            table_header: self.table_header,
            table_rows: self.table_rows.deep_view(),
            current_row: self.current_row.deep_view(),
            current_cell: self.current_cell@,
        }
    }

    /// How deep the lists open now are nested.
    pub closed spec fn depth(&self) -> nat {
        self.list_depth as nat
    }

    /// Nothing laid out yet.
    pub fn new() -> (r: Self)
        ensures
            r.model() == layout_start(),
            r.depth() == 0,
    {
        let r = MdLayout {
            list_depth: 0,
            list_counter: Vec::new(),
            in_blockquote: false,
            in_code_block: false,
            code_lang: String::new(),
            code: String::new(),
            paragraph: String::new(),
            heading_level: 0,
            heading: String::new(),
            in_table: false,
            table_header: false,
            table_rows: Vec::new(),
            current_row: Vec::new(),
            current_cell: String::new(),
        };
        assert(r.table_rows.deep_view() =~= Seq::<Seq<Seq<char>>>::empty());
        assert(r.current_row.deep_view() =~= Seq::<Seq<char>>::empty());
        r
    }

    fn flush_paragraph(&mut self, out: &mut Vec<MdBlock>)
        ensures
            final(self).model() == flush_paragraph(old(self).model()).0,
            blocks_model(final(out)@) == blocks_model(old(out)@) + flush_paragraph(old(self).model()).1,
            final(self).depth() == old(self).depth(),
    {
        if self.paragraph.as_str().is_empty() {
            assert(blocks_model(out@) + Seq::<BlockModel>::empty() =~= blocks_model(out@));
            return;
        }
        let mut text = String::new();
        std::mem::swap(&mut text, &mut self.paragraph);
        proof {
            lemma_blocks_push(out@, MdBlock::Paragraph { text, quoted: self.in_blockquote });
        }
        out.push(MdBlock::Paragraph { text, quoted: self.in_blockquote });
        assert(blocks_model(out@) =~= blocks_model(old(out)@) + flush_paragraph(old(self).model()).1);
    }

    fn flush_heading(&mut self, out: &mut Vec<MdBlock>)
        ensures
            final(self).model() == flush_heading(old(self).model()).0,
            blocks_model(final(out)@) == blocks_model(old(out)@) + flush_heading(old(self).model()).1,
            final(self).depth() == old(self).depth(),
    {
        let mut text = String::new();
        std::mem::swap(&mut text, &mut self.heading);
        let level = self.heading_level;
        self.heading_level = 0;
        if text.as_str().is_empty() {
            assert(blocks_model(out@) + Seq::<BlockModel>::empty() =~= blocks_model(out@));
            return;
        }
        proof {
            lemma_blocks_push(out@, MdBlock::Heading { level, text });
        }
        out.push(MdBlock::Heading { level, text });
        assert(blocks_model(out@) =~= blocks_model(old(out)@) + flush_heading(old(self).model()).1);
    }

    fn flush_code(&mut self, out: &mut Vec<MdBlock>)
        ensures
            final(self).model() == flush_code(old(self).model()).0,
            blocks_model(final(out)@) == blocks_model(old(out)@) + flush_code(old(self).model()).1,
            final(self).depth() == old(self).depth(),
    {
        if self.code.as_str().is_empty() {
            assert(blocks_model(out@) + Seq::<BlockModel>::empty() =~= blocks_model(out@));
            return;
        }
        let mut code = String::new();
        std::mem::swap(&mut code, &mut self.code);
        let mut lang = String::new();
        std::mem::swap(&mut lang, &mut self.code_lang);
        proof {
            lemma_blocks_push(out@, MdBlock::CodeBlock { lang, code });
        }
        out.push(MdBlock::CodeBlock { lang, code });
        assert(blocks_model(out@) =~= blocks_model(old(out)@) + flush_code(old(self).model()).1);
    }

    fn columns(&self) -> (r: usize)
        ensures
            r == max_columns(self.model().table_rows),
    {
        let ghost rows = self.table_rows.deep_view();
        let mut best: usize = 0;
        let mut i: usize = 0;
        while i < self.table_rows.len()
            invariant
                i <= self.table_rows@.len(),
                rows == self.table_rows.deep_view(),
                best == max_columns(rows.take(i as int)),
            decreases self.table_rows@.len() - i,
        {
            assert(rows.take(i + 1).drop_last() =~= rows.take(i as int));
            assert(rows[i as int].len() == self.table_rows@[i as int]@.len());
            if self.table_rows[i].len() > best {
                best = self.table_rows[i].len();
            }
            i = i + 1;
        }
        assert(rows.take(i as int) =~= rows);
        best
    }

    fn flush_table(&mut self, out: &mut Vec<MdBlock>)
        ensures
            final(self).model() == flush_table(old(self).model()).0,
            blocks_model(final(out)@) == blocks_model(old(out)@) + flush_table(old(self).model()).1,
            final(self).depth() == old(self).depth(),
    {
        if self.table_rows.len() == 0 {
            assert(blocks_model(out@) + Seq::<BlockModel>::empty() =~= blocks_model(out@));
            return;
        }
        let columns = self.columns();
        let mut rows = Vec::new();
        std::mem::swap(&mut rows, &mut self.table_rows);
        assert(self.table_rows.deep_view() =~= Seq::<Seq<Seq<char>>>::empty());
        if columns == 0 {
            assert(blocks_model(out@) + Seq::<BlockModel>::empty() =~= blocks_model(out@));
            return;
        }
        proof {
            lemma_blocks_push(out@, MdBlock::Table { rows, columns });
        }
        out.push(MdBlock::Table { rows, columns });
        proof {
            lemma_blocks_push(out@, MdBlock::Space(8));
        }
        out.push(MdBlock::Space(8));
        assert(blocks_model(out@) =~= blocks_model(old(out)@) + flush_table(old(self).model()).1);
    }

    fn on_start(&mut self, tag: &MdTag, out: &mut Vec<MdBlock>)
        requires
            old(self).depth() < usize::MAX,
        ensures
            final(self).model() == on_start(old(self).model(), tag_model(*tag)).0,
            blocks_model(final(out)@) == blocks_model(old(out)@) + on_start(old(self).model(), tag_model(*tag)).1,
            final(self).depth() <= old(self).depth() + 1,
    {
        match tag {
            MdTag::Heading(level) => {
                self.flush_paragraph(out);
                self.heading_level = *level;
                self.heading = String::new();
            },
            MdTag::Paragraph => {
                self.paragraph = String::new();
                assert(blocks_model(out@) + Seq::<BlockModel>::empty() =~= blocks_model(out@));
            },
            MdTag::BlockQuote => {
                self.flush_paragraph(out);
                self.in_blockquote = true;
            },
            MdTag::CodeBlock(lang) => {
                self.flush_paragraph(out);
                self.in_code_block = true;
                self.code = String::new();
                self.code_lang = lang.clone();
            },
            MdTag::List(start) => {
                self.flush_paragraph(out);
                self.list_depth = self.list_depth + 1;
                self.list_counter.push(*start);
            },
            MdTag::Item => {
                self.paragraph = String::new();
                assert(blocks_model(out@) + Seq::<BlockModel>::empty() =~= blocks_model(out@));
            },
            MdTag::Table => {
                self.flush_paragraph(out);
                self.in_table = true;
                self.table_rows = Vec::new();
                assert(self.table_rows.deep_view() =~= Seq::<Seq<Seq<char>>>::empty());
            },
            MdTag::TableHead => {
                self.table_header = true;
                assert(blocks_model(out@) + Seq::<BlockModel>::empty() =~= blocks_model(out@));
            },
            MdTag::TableRow => {
                self.current_row = Vec::new();
                assert(self.current_row.deep_view() =~= Seq::<Seq<char>>::empty());
                assert(blocks_model(out@) + Seq::<BlockModel>::empty() =~= blocks_model(out@));
            },
            MdTag::TableCell => {
                self.current_cell = String::new();
                assert(blocks_model(out@) + Seq::<BlockModel>::empty() =~= blocks_model(out@));
            },
            MdTag::Image(url) => {
                self.flush_paragraph(out);
                let ghost mid = out@;
                let image = MdBlock::Image(url.clone());
                proof {
                    lemma_blocks_push(out@, image);
                }
                out.push(image);
                assert(blocks_model(out@) =~= blocks_model(old(out)@) + on_start(
                    old(self).model(),
                    tag_model(*tag),
                ).1);
            },
            MdTag::Other => {
                assert(blocks_model(out@) + Seq::<BlockModel>::empty() =~= blocks_model(out@));
            },
        }
    }

    fn on_item_end(&mut self, out: &mut Vec<MdBlock>)
        ensures
            final(self).model() == on_item_end(old(self).model()).0,
            blocks_model(final(out)@) == blocks_model(old(out)@) + on_item_end(old(self).model()).1,
            final(self).depth() == old(self).depth(),
    {
        let mut text = String::new();
        std::mem::swap(&mut text, &mut self.paragraph);
        if text.as_str().is_empty() {
            assert(blocks_model(out@) + Seq::<BlockModel>::empty() =~= blocks_model(out@));
            return;
        }
        let indent = if self.list_depth > 0 { self.list_depth - 1 } else { 0 };
        let n = self.list_counter.len();
        let ordered = if n > 0 {
            match self.list_counter[n - 1] {
                Some(_) => true,
                None => false,
            }
        } else {
            false
        };
        let bullet = if ordered {
            let k = self.list_counter[n - 1].unwrap();
            let mut b = fmt_u64(k);
            push_char(&mut b, '.');
            let next = if k == u64::MAX { 0 } else { k + 1 };
            self.list_counter.set(n - 1, Some(next));
            assert(self.list_counter@ =~= old(self).list_counter@.drop_last().push(Some(next_number(k))));
            b
        } else {
            owned("\u{2022}")
        };
        proof {
            reveal_strlit(".");
            assert(bullet@ == bullet_of(old(self).list_counter@));
            assert(indent as nat == (if old(self).list_depth > 0 { (old(self).list_depth - 1) as nat } else { 0 }));
            assert(text@ == old(self).paragraph@);
            lemma_blocks_push(out@, MdBlock::ListItem { indent, bullet, text });
        }
        out.push(MdBlock::ListItem { indent, bullet, text });
        assert(blocks_model(out@) =~= blocks_model(old(out)@) + on_item_end(old(self).model()).1);
    }

    fn on_end(&mut self, tag: MdTagEnd, out: &mut Vec<MdBlock>)
        ensures
            final(self).model() == on_end(old(self).model(), tag).0,
            blocks_model(final(out)@) == blocks_model(old(out)@) + on_end(old(self).model(), tag).1,
            final(self).depth() <= old(self).depth(),
    {
        match tag {
            MdTagEnd::Heading => {
                self.flush_heading(out);
                proof {
                    lemma_blocks_push(out@, MdBlock::Space(4));
                }
                out.push(MdBlock::Space(4));
            },
            MdTagEnd::Paragraph => {
                self.flush_paragraph(out);
                proof {
                    lemma_blocks_push(out@, MdBlock::Space(8));
                }
                out.push(MdBlock::Space(8));
            },
            MdTagEnd::BlockQuote => {
                self.flush_paragraph(out);
                self.in_blockquote = false;
                proof {
                    lemma_blocks_push(out@, MdBlock::Space(4));
                }
                out.push(MdBlock::Space(4));
            },
            MdTagEnd::CodeBlock => {
                self.flush_code(out);
                self.in_code_block = false;
                proof {
                    lemma_blocks_push(out@, MdBlock::Space(4));
                }
                out.push(MdBlock::Space(4));
            },
            MdTagEnd::List => {
                if self.list_depth > 0 {
                    self.list_depth = self.list_depth - 1;
                }
                if self.list_counter.len() > 0 {
                    let _ = self.list_counter.pop();
                }
                proof {
                    lemma_blocks_push(out@, MdBlock::Space(4));
                }
                out.push(MdBlock::Space(4));
            },
            MdTagEnd::Item => self.on_item_end(out),
            MdTagEnd::Table => {
                self.flush_table(out);
                self.in_table = false;
            },
            MdTagEnd::TableHead => {
                let row = copy_row(&self.current_row);
                let ghost before = self.table_rows.deep_view();
                self.table_rows.push(row);
                assert(self.table_rows.deep_view() =~= before.push(self.current_row.deep_view()));
                self.table_header = false;
                assert(blocks_model(out@) + Seq::<BlockModel>::empty() =~= blocks_model(out@));
            },
            MdTagEnd::TableRow => {
                if !self.table_header {
                    let row = copy_row(&self.current_row);
                    let ghost before = self.table_rows.deep_view();
                    self.table_rows.push(row);
                    assert(self.table_rows.deep_view() =~= before.push(self.current_row.deep_view()));
                }
                assert(blocks_model(out@) + Seq::<BlockModel>::empty() =~= blocks_model(out@));
            },
            MdTagEnd::TableCell => {
                let mut cell = String::new();
                std::mem::swap(&mut cell, &mut self.current_cell);
                let ghost before = self.current_row.deep_view();
                self.current_row.push(cell);
                assert(self.current_row.deep_view() =~= before.push(cell@));
                assert(blocks_model(out@) + Seq::<BlockModel>::empty() =~= blocks_model(out@));
            },
            MdTagEnd::Link => {
                if self.paragraph.as_str().is_empty() {
                    assert(blocks_model(out@) + Seq::<BlockModel>::empty() =~= blocks_model(out@));
                } else {
                    let mut text = String::new();
                    std::mem::swap(&mut text, &mut self.paragraph);
                    proof {
                        lemma_blocks_push(out@, MdBlock::Link(text));
                    }
                    out.push(MdBlock::Link(text));
                }
            },
            MdTagEnd::Other => {
                assert(blocks_model(out@) + Seq::<BlockModel>::empty() =~= blocks_model(out@));
            },
        }
        assert(blocks_model(out@) =~= blocks_model(old(out)@) + on_end(old(self).model(), tag).1);
    }

    /// Takes in one event, as `md_step`, adding the blocks it draws to
    /// `out`.
    pub fn step(&mut self, event: &MdEvent, out: &mut Vec<MdBlock>)
        requires
            old(self).depth() < usize::MAX,
        ensures
            final(self).model() == md_step(old(self).model(), event_model(*event)).0,
            blocks_model(final(out)@) == blocks_model(old(out)@) + md_step(
                old(self).model(),
                event_model(*event),
            ).1,
            final(self).depth() <= old(self).depth() + 1,
    {
        match event {
            MdEvent::Start(tag) => self.on_start(tag, out),
            MdEvent::End(tag) => self.on_end(*tag, out),
            MdEvent::Text(t) => {
                if self.in_code_block {
                    push_str(&mut self.code, t.as_str());
                } else if self.heading_level > 0 {
                    push_str(&mut self.heading, t.as_str());
                } else if self.in_table {
                    push_str(&mut self.current_cell, t.as_str());
                } else {
                    push_str(&mut self.paragraph, t.as_str());
                }
                assert(blocks_model(out@) + Seq::<BlockModel>::empty() =~= blocks_model(out@));
            },
            MdEvent::Code(t) => {
                if self.in_code_block {
                    push_str(&mut self.code, t.as_str());
                    assert(blocks_model(out@) + Seq::<BlockModel>::empty() =~= blocks_model(out@));
                } else {
                    let code = MdBlock::InlineCode(t.clone());
                    proof {
                        lemma_blocks_push(out@, code);
                    }
                    out.push(code);
                    assert(blocks_model(out@) =~= blocks_model(old(out)@) + seq![BlockModel::InlineCode(t@)]);
                }
            },
            MdEvent::SoftBreak => {
                if !self.in_code_block {
                    push_char(&mut self.paragraph, ' ');
                }
                assert(blocks_model(out@) + Seq::<BlockModel>::empty() =~= blocks_model(out@));
            },
            MdEvent::HardBreak => {
                if !self.in_code_block {
                    self.flush_paragraph(out);
                } else {
                    assert(blocks_model(out@) + Seq::<BlockModel>::empty() =~= blocks_model(out@));
                }
            },
            MdEvent::Rule => {
                self.flush_paragraph(out);
                let ghost mid = out@;
                proof {
                    lemma_blocks_push(out@, MdBlock::Space(4));
                }
                out.push(MdBlock::Space(4));
                proof {
                    lemma_blocks_push(out@, MdBlock::Rule);
                }
                out.push(MdBlock::Rule);
                proof {
                    lemma_blocks_push(out@, MdBlock::Space(4));
                }
                out.push(MdBlock::Space(4));
                assert(blocks_model(out@) =~= blocks_model(mid) + seq![
                    BlockModel::Space(4),
                    BlockModel::Rule,
                    BlockModel::Space(4),
                ]);
                assert(blocks_model(out@) =~= blocks_model(old(out)@) + md_step(
                    old(self).model(),
                    event_model(*event),
                ).1);
            },
            MdEvent::TaskListMarker(b) => {
                proof {
                    lemma_blocks_push(out@, MdBlock::Checkbox(*b));
                }
                out.push(MdBlock::Checkbox(*b));
                assert(blocks_model(out@) =~= blocks_model(old(out)@) + seq![BlockModel::Checkbox(*b)]);
            },
            MdEvent::Other => {
                assert(blocks_model(out@) + Seq::<BlockModel>::empty() =~= blocks_model(out@));
            },
        }
    }
}

/// The blocks the preview draws for a document's events, as `md_blocks`.
pub fn layout_markdown(events: &[MdEvent]) -> (r: Vec<MdBlock>)
    ensures
        blocks_model(r@) == md_blocks(events_model(events@)),
{
    let ghost evs = events_model(events@);
    let mut layout = MdLayout::new();
    let mut out: Vec<MdBlock> = Vec::new();
    let mut i: usize = 0;
    assert(blocks_model(out@) =~= Seq::<BlockModel>::empty());
    assert(evs.take(0) =~= Seq::<EventModel>::empty());
    while i < events.len()
        invariant
            i <= events@.len(),
            evs == events_model(events@),
            layout.depth() <= i,
            (layout.model(), blocks_model(out@)) == md_run(evs.take(i as int)),
        decreases events@.len() - i,
    {
        assert(evs.take(i + 1).drop_last() =~= evs.take(i as int));
        assert(evs.take(i + 1).last() == event_model(events@[i as int]));
        layout.step(&events[i], &mut out);
        i = i + 1;
    }
    assert(evs.take(i as int) =~= evs);
    layout.flush_paragraph(&mut out);
    out
}

/// Whether an image is fetched from the network rather than read from a
/// file next to the document.
pub fn is_remote_image(url: &str) -> (r: bool)
    ensures
        r == (crate::text::is_prefix("http://"@, url@) || crate::text::is_prefix("https://"@, url@)),
{
    let u = crate::text::str_chars(url);
    let http = crate::text::str_chars("http://");
    let https = crate::text::str_chars("https://");
    crate::text::starts_with_chars(u.as_slice(), http.as_slice()) || crate::text::starts_with_chars(
        u.as_slice(),
        https.as_slice(),
    )
}

/// The events pulldown-cmark reads from a document (all extensions on), as
/// plain values.
pub uninterp spec fn parsed_events(content: Seq<char>) -> Seq<EventModel>;

#[verifier::external_type_specification]
#[verifier::external_body]
pub struct ExMarkdownEvent<'a>(pulldown_cmark::Event<'a>);

#[verifier::external_type_specification]
#[verifier::external_body]
pub struct ExMarkdownTag<'a>(pulldown_cmark::Tag<'a>);

#[verifier::external_type_specification]
#[verifier::external_body]
pub struct ExMarkdownTagEnd(pulldown_cmark::TagEnd);

#[verifier::external_type_specification]
#[verifier::external_body]
pub struct ExMarkdownCodeBlockKind<'a>(pulldown_cmark::CodeBlockKind<'a>);

/// The language of a `pulldown_cmark::CodeBlockKind`: a fenced block's
/// info string, empty for an indented block. Nothing is stated of it: the
/// value it converts is opaque here.
#[verifier::external_body]
fn code_block_lang(k: CodeBlockKind<'_>) -> String {
    match k {
        CodeBlockKind::Fenced(info) => info.to_string(),
        CodeBlockKind::Indented => String::new(),
    }
}

/// A `pulldown_cmark::Tag` as the preview tells tags apart, variant for
/// variant; the others are `Other`. Nothing is stated of it: the value it
/// converts is opaque here.
#[verifier::external_body]
fn tag_of(t: Tag<'_>) -> MdTag {
    match t {
        Tag::Paragraph => MdTag::Paragraph,
        Tag::Heading { level, .. } => MdTag::Heading(level as u32),
        Tag::BlockQuote => MdTag::BlockQuote,
        Tag::Item => MdTag::Item,
        Tag::List(first) => MdTag::List(first),
        Tag::CodeBlock(kind) => MdTag::CodeBlock(code_block_lang(kind)),
        Tag::Table(_) => MdTag::Table,
        Tag::TableHead => MdTag::TableHead,
        Tag::TableRow => MdTag::TableRow,
        Tag::TableCell => MdTag::TableCell,
        Tag::Image { dest_url, .. } => MdTag::Image(dest_url.to_string()),
        _ => MdTag::Other,
    }
}

/// A `pulldown_cmark::TagEnd` as the preview tells them apart, variant for
/// variant; the others are `Other`. Nothing is stated of it: the value it
/// converts is opaque here.
#[verifier::external_body]
fn tag_end_of(t: TagEnd) -> MdTagEnd {
    match t {
        TagEnd::Paragraph => MdTagEnd::Paragraph,
        TagEnd::Heading(_) => MdTagEnd::Heading,
        TagEnd::BlockQuote => MdTagEnd::BlockQuote,
        TagEnd::CodeBlock => MdTagEnd::CodeBlock,
        TagEnd::List(_) => MdTagEnd::List,
        TagEnd::Item => MdTagEnd::Item,
        TagEnd::Table => MdTagEnd::Table,
        TagEnd::TableHead => MdTagEnd::TableHead,
        TagEnd::TableRow => MdTagEnd::TableRow,
        TagEnd::TableCell => MdTagEnd::TableCell,
        TagEnd::Link => MdTagEnd::Link,
        _ => MdTagEnd::Other,
    }
}

/// A `pulldown_cmark::Event` as the preview tells events apart, variant for
/// variant; HTML, footnotes and math are `Other`. Nothing is stated of it:
/// the value it converts is opaque here.
#[verifier::external_body]
fn event_of(e: Event<'_>) -> MdEvent {
    match e {
        Event::Start(t) => MdEvent::Start(tag_of(t)),
        Event::End(t) => MdEvent::End(tag_end_of(t)),
        Event::Text(s) => MdEvent::Text(s.to_string()),
        Event::Code(s) => MdEvent::Code(s.to_string()),
        Event::SoftBreak => MdEvent::SoftBreak,
        Event::HardBreak => MdEvent::HardBreak,
        Event::Rule => MdEvent::Rule,
        Event::TaskListMarker(checked) => MdEvent::TaskListMarker(checked),
        _ => MdEvent::Other,
    }
}

/// `pulldown_cmark::Parser::new_ext` with `Options::all()`: the events of a
/// markdown document, each turned into the library's event one for one.
/// The contract names the result; what the parser reads is not restated.
#[verifier::external_body]
pub fn markdown_events(content: &str) -> (r: Vec<MdEvent>)
    ensures
        events_model(r@) == parsed_events(content@),
{
    let mut events = Vec::new();
    for e in Parser::new_ext(content, Options::all()) {
        events.push(event_of(e));
    }
    events
}

/// The blocks the preview draws for a markdown document: its parsed events
/// laid out, as `md_blocks`.
pub fn markdown_blocks(content: &str) -> (r: Vec<MdBlock>)
    ensures
        blocks_model(r@) == md_blocks(parsed_events(content@)),
{
    let events = markdown_events(content);
    layout_markdown(events.as_slice())
}

} // verus!
