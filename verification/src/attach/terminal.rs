//! The layout of the terminal, and what is written to it.

use vstd::prelude::*;

use crate::attach::service_names::{ServiceNames, ServiceNamesView};
use crate::attach::status::{
    footer, format_log_prefix_segments, law_footer_fits,
    law_log_prefix_segments_read_as_the_prefix, line_text, listed, log_prefix, log_prefix_segments,
    prompt_text, render_command_prompt, rows_for, service_rows_for, shown_in, status_lines,
    truncate_ascii, Color, SegmentView, StatusSegment, COMMAND_ROW_HEIGHT,
};
use crate::ipc::{LogEntry, LogEntryView, ServiceSnapshot};
use crate::name_map::NameMap;
use crate::numbers::{decimal, decimal_of};
use crate::text::{
    byte_len, byte_len_of, chars_of, joined, lemma_byte_len_take, lemma_encode_concat,
    lemma_len_at_most_bytes, lemma_views_push, views,
};

verus! {

/// The fewest rows that leave room for a line of output, a service and the prompt.
pub const MIN_ATTACH_ROWS: u16 = 3;

/// One thing to write to the terminal.
#[derive(Debug)]
pub enum TermOp {
    MoveTo { column: u16, row: u16 },
    ClearLine,
    ClearDown,
    SetColor(Color),
    ResetColor,
    Print(String),
    HideCursor,
    ShowCursor,
    Flush,
}

/// What is written to the terminal, as a value.
pub enum TermOpView {
    MoveTo { column: int, row: int },
    ClearLine,
    ClearDown,
    SetColor(Color),
    ResetColor,
    Print(Seq<char>),
    HideCursor,
    ShowCursor,
    Flush,
}

impl View for TermOp {
    type V = TermOpView;

    open spec fn view(&self) -> TermOpView {
        match *self {
            TermOp::MoveTo { column, row } => TermOpView::MoveTo {
                column: column as int,
                row: row as int,
            },
            TermOp::ClearLine => TermOpView::ClearLine,
            TermOp::ClearDown => TermOpView::ClearDown,
            TermOp::SetColor(color) => TermOpView::SetColor(color),
            TermOp::ResetColor => TermOpView::ResetColor,
            TermOp::Print(text) => TermOpView::Print(text@),
            TermOp::HideCursor => TermOpView::HideCursor,
            TermOp::ShowCursor => TermOpView::ShowCursor,
            TermOp::Flush => TermOpView::Flush,
        }
    }
}

/// Why the terminal cannot be used.
#[derive(Debug, Clone, Copy, PartialEq, Eq, Structural)]
pub enum TerminalError {
    UnknownSize,
    TooFewRows,
}

impl TerminalError {
    /// The error in words, as a value.
    pub open spec fn text(self) -> Seq<char> {
        match self {
            TerminalError::UnknownSize => "failed to read terminal size"@,
            TerminalError::TooFewRows => "attach requires a terminal with at least three rows"@,
        }
    }

    /// The error in words.
    pub fn message(self) -> (r: String)
        ensures
            r@ == self.text(),
    {
        match self {
            TerminalError::UnknownSize => "failed to read terminal size".to_owned(),
            TerminalError::TooFewRows => {
                "attach requires a terminal with at least three rows".to_owned()
            },
        }
    }
}

/// What to write, and whether the terminal could be used. What is to be written is to be written
/// in both cases.
#[derive(Debug)]
pub struct Drawing {
    pub ops: Vec<TermOp>,
    pub result: Result<(), TerminalError>,
}

/// A terminal: lines of output above, the services and the prompt below.
#[derive(Debug)]
pub struct AttachTerminal {
    pub columns: u16,
    pub rows: u16,
    pub max_name_width: usize,
    pub service_count: usize,
    pub service_rows: u16,
    pub restored: bool,
}

/// What is wrong with a size that was read.
pub open spec fn size_fault(size: Option<(u16, u16)>) -> Option<TerminalError> {
    match size {
        None => Some(TerminalError::UnknownSize),
        Some((columns, rows)) => if rows < MIN_ATTACH_ROWS {
            Some(TerminalError::TooFewRows)
        } else {
            None
        },
    }
}

/// A piece of a line, in its color.
pub open spec fn segment_ops(segment: SegmentView) -> Seq<TermOpView> {
    match segment.color {
        Some(color) => seq![
            TermOpView::SetColor(color),
            TermOpView::Print(segment.text),
            TermOpView::ResetColor,
        ],
        None => seq![TermOpView::Print(segment.text)],
    }
}

/// The pieces of a line.
pub open spec fn segments_ops(segments: Seq<SegmentView>) -> Seq<TermOpView>
    decreases segments.len(),
{
    if segments.len() == 0 {
        Seq::empty()
    } else {
        segments_ops(segments.drop_last()) + segment_ops(segments.last())
    }
}

/// The text as far as it fits in so many columns.
pub open spec fn clip(text: Seq<char>, columns: nat) -> Seq<char> {
    if text.len() < columns {
        text
    } else {
        text.take(columns as int)
    }
}

/// What is left of the columns once the text is written, of which each byte counts.
pub open spec fn left_after(columns: nat, text: Seq<char>) -> nat {
    if byte_len(text) < columns {
        (columns - byte_len(text)) as nat
    } else {
        0
    }
}

/// The pieces of a line as far as they fit in so many columns.
pub open spec fn clipped_ops(segments: Seq<SegmentView>, columns: nat) -> Seq<TermOpView>
    decreases segments.len(),
{
    if segments.len() == 0 || columns == 0 {
        Seq::empty()
    } else {
        let first = segments.first();
        let text = clip(first.text, columns);
        if text.len() == 0 {
            clipped_ops(segments.drop_first(), columns)
        } else {
            segment_ops(SegmentView { text, color: first.color }) + clipped_ops(
                segments.drop_first(),
                left_after(columns, text),
            )
        }
    }
}

/// The first `k` lines, one below the other.
pub open spec fn lines_ops(lines: Seq<Seq<SegmentView>>, start: int, columns: nat, k: nat) -> Seq<
    TermOpView,
>
    decreases k,
{
    if k == 0 {
        Seq::empty()
    } else {
        lines_ops(lines, start, columns, (k - 1) as nat) + seq![
            TermOpView::MoveTo { column: 0, row: start + k - 1 },
        ] + clipped_ops(lines[k - 1], columns)
    }
}

/// Empties the rows from one up to another.
pub open spec fn clear_ops(from: int, to: int) -> Seq<TermOpView>
    decreases to - from,
{
    if to <= from {
        Seq::empty()
    } else {
        clear_ops(from, to - 1) + seq![
            TermOpView::MoveTo { column: 0, row: to - 1 },
            TermOpView::ClearLine,
        ]
    }
}

/// The command line in the row of the prompt, with the cursor behind it; without a command line
/// there is no cursor.
pub open spec fn prompt_ops(prompt: Option<Seq<char>>, columns: nat, row: int) -> Seq<TermOpView> {
    match prompt {
        Some(buffer) => seq![
            TermOpView::MoveTo { column: 0, row },
            TermOpView::SetColor(Color::White),
            TermOpView::Print(prompt_text(buffer, columns)),
            TermOpView::ResetColor,
            TermOpView::MoveTo { column: prompt_text(buffer, columns).len() as int, row },
            TermOpView::ShowCursor,
        ],
        None => seq![TermOpView::HideCursor],
    }
}

impl AttachTerminal {
    /// The rows of the services are those that the size and the number of services give.
    pub open spec fn wf(&self) -> bool {
        &&& self.rows >= MIN_ATTACH_ROWS
        &&& self.service_rows == rows_for(self.rows as int, self.service_count as int)
    }

    /// The first row of the services.
    pub open spec fn status_start(&self) -> int {
        self.rows - self.service_rows - COMMAND_ROW_HEIGHT
    }

    /// The row into which output is written, from which it scrolls up.
    pub open spec fn log_bottom(&self) -> int {
        self.status_start() - 1
    }

    /// The row of the prompt.
    pub open spec fn prompt_row(&self) -> int {
        self.rows - COMMAND_ROW_HEIGHT
    }

    /// Lets only the rows above the services scroll, and empties those below.
    pub open spec fn scroll_ops(&self) -> Seq<TermOpView> {
        seq![
            TermOpView::Print("\x1b[1;"@ + decimal(self.status_start() as nat) + "r"@),
            TermOpView::MoveTo { column: 0, row: self.status_start() },
            TermOpView::ClearDown,
            TermOpView::Flush,
        ]
    }

    /// The terminal with another number of services.
    pub open spec fn with_count(self, count: usize) -> AttachTerminal {
        AttachTerminal {
            service_count: count,
            service_rows: rows_for(self.rows as int, count as int) as u16,
            ..self
        }
    }

    /// What is written when the number of services is known anew.
    pub open spec fn count_ops(self, count: usize) -> Seq<TermOpView> {
        if self.service_count == count {
            Seq::empty()
        } else {
            self.with_count(count).scroll_ops()
        }
    }

    /// The terminal with another size, if it is one that can be used.
    pub open spec fn with_size(self, size: Option<(u16, u16)>) -> AttachTerminal {
        match size {
            Some((columns, rows)) => if rows >= MIN_ATTACH_ROWS && (columns != self.columns || rows
                != self.rows) {
                AttachTerminal {
                    columns,
                    rows,
                    service_rows: rows_for(rows as int, self.service_count as int) as u16,
                    ..self
                }
            } else {
                self
            },
            None => self,
        }
    }

    /// What is written when the size is read anew.
    pub open spec fn size_ops(self, size: Option<(u16, u16)>) -> Seq<TermOpView> {
        if self.with_size(size).columns != self.columns || self.with_size(size).rows != self.rows {
            self.with_size(size).scroll_ops()
        } else {
            Seq::empty()
        }
    }

    /// What is written when the terminal is taken over.
    pub open spec fn opening_ops(&self) -> Seq<TermOpView> {
        seq![TermOpView::HideCursor, TermOpView::Flush] + self.scroll_ops()
    }

    /// What is written when the terminal is given back.
    pub open spec fn restore_ops(&self) -> Seq<TermOpView> {
        seq![
            TermOpView::Print("\x1b[r"@),
            TermOpView::MoveTo { column: 0, row: self.status_start() },
            TermOpView::ClearDown,
            TermOpView::ShowCursor,
            TermOpView::Flush,
            TermOpView::Print("\n"@),
            TermOpView::Flush,
        ]
    }

    /// A line of a service, at the bottom of the output.
    pub open spec fn log_ops(&self, entry: LogEntryView, names: ServiceNamesView) -> Seq<
        TermOpView,
    > {
        seq![TermOpView::MoveTo { column: 0, row: self.log_bottom() }, TermOpView::ClearLine]
            + segments_ops(
            log_prefix_segments(
                entry.service,
                names.short_name(entry.service),
                self.max_name_width as nat,
            ),
        ) + seq![TermOpView::Print(entry.line), TermOpView::Print("\n"@), TermOpView::Flush]
    }

    /// The services and the prompt.
    pub open spec fn footer_ops(
        &self,
        lines: Seq<Seq<SegmentView>>,
        prompt: Option<Seq<char>>,
    ) -> Seq<TermOpView> {
        clear_ops(self.status_start(), self.rows as int) + lines_ops(
            lines,
            self.status_start(),
            self.columns as nat,
            lines.len(),
        ) + prompt_ops(prompt, self.columns as nat, self.prompt_row()) + seq![TermOpView::Flush]
    }

    /// The lines of the footer in a terminal of this size.
    pub open spec fn footer_lines(
        &self,
        services: &NameMap<ServiceSnapshot>,
        names: ServiceNamesView,
    ) -> Seq<Seq<SegmentView>> {
        footer(listed(services), names, self.service_rows as nat, self.max_name_width as nat)
    }
}

/// A terminal of the size that was read, if it is one that can be used.
pub open spec fn terminal_of(
    size: Option<(u16, u16)>,
    max_name_width: usize,
    service_count: usize,
) -> Result<AttachTerminal, TerminalError> {
    match size {
        None => Err(TerminalError::UnknownSize),
        Some((columns, rows)) => if rows < MIN_ATTACH_ROWS {
            Err(TerminalError::TooFewRows)
        } else {
            Ok(
                AttachTerminal {
                    columns,
                    rows,
                    max_name_width,
                    service_count,
                    service_rows: rows_for(rows as int, service_count as int) as u16,
                    restored: false,
                },
            )
        },
    }
}

/// A terminal with three rows or more can be used, whatever its width, and is used in its whole
/// size; one with fewer cannot, nor one whose size is not known.
pub proof fn law_three_rows_are_enough(
    size: Option<(u16, u16)>,
    max_name_width: usize,
    service_count: usize,
)
    ensures
        ({
            let made = terminal_of(size, max_name_width, service_count);
            &&& made is Ok <==> (size matches Some((_, rows)) && rows >= 3)
            &&& made == Err::<AttachTerminal, TerminalError>(TerminalError::UnknownSize)
                <==> size is None
            &&& made matches Ok(terminal) ==> {
                &&& size == Some((terminal.columns, terminal.rows))
                &&& terminal.wf() && !terminal.restored
                &&& terminal.max_name_width == max_name_width
                &&& terminal.service_count == service_count
            }
        }),
{
}

/// A prompt as a value.
pub open spec fn prompt_view(prompt: Option<&str>) -> Option<Seq<char>> {
    match prompt {
        Some(buffer) => Some(buffer@),
        None => None,
    }
}

/// The output, the services and the prompt have rows of their own: at least one row of output,
/// below it those of the services, and below them, as the last, that of the prompt.
pub proof fn law_rows_do_not_overlap(terminal: AttachTerminal)
    requires
        terminal.wf(),
    ensures
        0 <= terminal.log_bottom() < terminal.status_start(),
        1 <= terminal.service_rows,
        terminal.status_start() + terminal.service_rows == terminal.prompt_row(),
        terminal.prompt_row() == terminal.rows - 1,
{
}

/// Whether something written moves the cursor only to rows from one up to another, and to columns
/// that the terminal has.
pub open spec fn stays_within(op: TermOpView, columns: int, from: int, to: int) -> bool {
    match op {
        TermOpView::MoveTo { column, row } => from <= row < to && (column == 0 || 0 <= column
            < columns),
        _ => true,
    }
}

/// Whether that holds of all that is written.
pub open spec fn all_within(ops: Seq<TermOpView>, columns: int, from: int, to: int) -> bool {
    forall|i: int| 0 <= i < ops.len() ==> stays_within(#[trigger] ops[i], columns, from, to)
}

proof fn lemma_within_concat(
    a: Seq<TermOpView>,
    b: Seq<TermOpView>,
    columns: int,
    from: int,
    to: int,
)
    requires
        all_within(a, columns, from, to),
        all_within(b, columns, from, to),
    ensures
        all_within(a + b, columns, from, to),
{
    assert forall|i: int| 0 <= i < (a + b).len() implies stays_within(
        #[trigger] (a + b)[i],
        columns,
        from,
        to,
    ) by {
        if i < a.len() {
            assert((a + b)[i] == a[i]);
        } else {
            assert((a + b)[i] == b[i - a.len()]);
        }
    }
}

proof fn lemma_clear_within(start: int, k: int, columns: int, from: int, to: int)
    requires
        from <= start,
        k <= to,
    ensures
        all_within(clear_ops(start, k), columns, from, to),
    decreases k - start,
{
    if k > start {
        lemma_clear_within(start, k - 1, columns, from, to);
        let last = seq![TermOpView::MoveTo { column: 0, row: k - 1 }, TermOpView::ClearLine];
        lemma_within_concat(clear_ops(start, k - 1), last, columns, from, to);
    }
}

proof fn lemma_clipped_within(
    segments: Seq<SegmentView>,
    room: nat,
    columns: int,
    from: int,
    to: int,
)
    ensures
        all_within(clipped_ops(segments, room), columns, from, to),
    decreases segments.len(),
{
    if segments.len() > 0 && room > 0 {
        let first = segments.first();
        let text = clip(first.text, room);
        let rest = segments.drop_first();
        lemma_clipped_within(rest, room, columns, from, to);
        lemma_clipped_within(rest, left_after(room, text), columns, from, to);
        lemma_within_concat(
            segment_ops(SegmentView { text, color: first.color }),
            clipped_ops(rest, left_after(room, text)),
            columns,
            from,
            to,
        );
    }
}

proof fn lemma_lines_within(
    lines: Seq<Seq<SegmentView>>,
    start: int,
    room: nat,
    k: nat,
    columns: int,
    from: int,
    to: int,
)
    requires
        from <= start,
        start + k <= to,
    ensures
        all_within(lines_ops(lines, start, room, k), columns, from, to),
    decreases k,
{
    if k > 0 {
        let before = lines_ops(lines, start, room, (k - 1) as nat);
        let step = seq![TermOpView::MoveTo { column: 0, row: start + k - 1 }];
        lemma_lines_within(lines, start, room, (k - 1) as nat, columns, from, to);
        lemma_within_concat(before, step, columns, from, to);
        lemma_clipped_within(lines[k - 1], room, columns, from, to);
        lemma_within_concat(before + step, clipped_ops(lines[k - 1], room), columns, from, to);
    }
}

/// Drawing the footer touches none of the rows of the output.
pub proof fn law_footer_stays_below_the_output(
    terminal: AttachTerminal,
    services: &NameMap<ServiceSnapshot>,
    names: ServiceNamesView,
    prompt: Option<Seq<char>>,
)
    requires
        terminal.wf(),
    ensures
        all_within(
            terminal.footer_ops(terminal.footer_lines(services, names), prompt),
            terminal.columns as int,
            terminal.status_start(),
            terminal.rows as int,
        ),
{
    let lines = terminal.footer_lines(services, names);
    let columns = terminal.columns as int;
    let start = terminal.status_start();
    let rows = terminal.rows as int;
    let room = terminal.columns as nat;
    law_footer_fits(
        listed(services),
        names,
        terminal.service_rows as nat,
        terminal.max_name_width as nat,
    );
    let a = clear_ops(start, rows);
    let b = lines_ops(lines, start, room, lines.len());
    let c = prompt_ops(prompt, room, terminal.prompt_row());
    lemma_clear_within(start, rows, columns, start, rows);
    lemma_lines_within(lines, start, room, lines.len(), columns, start, rows);
    lemma_within_concat(a, b, columns, start, rows);
    lemma_within_concat(a + b, c, columns, start, rows);
    lemma_within_concat(a + b + c, seq![TermOpView::Flush], columns, start, rows);
}

proof fn lemma_segments_within(segments: Seq<SegmentView>, columns: int, from: int, to: int)
    ensures
        all_within(segments_ops(segments), columns, from, to),
    decreases segments.len(),
{
    if segments.len() > 0 {
        lemma_segments_within(segments.drop_last(), columns, from, to);
        lemma_within_concat(
            segments_ops(segments.drop_last()),
            segment_ops(segments.last()),
            columns,
            from,
            to,
        );
    }
}

/// A line of output is written to a row above the footer.
pub proof fn law_output_stays_above_the_footer(
    terminal: AttachTerminal,
    entry: LogEntryView,
    names: ServiceNamesView,
)
    requires
        terminal.wf(),
    ensures
        all_within(
            terminal.log_ops(entry, names),
            terminal.columns as int,
            0,
            terminal.status_start(),
        ),
{
    let columns = terminal.columns as int;
    let to = terminal.status_start();
    let segments = log_prefix_segments(
        entry.service,
        names.short_name(entry.service),
        terminal.max_name_width as nat,
    );
    let head = seq![
        TermOpView::MoveTo { column: 0, row: terminal.log_bottom() },
        TermOpView::ClearLine,
    ];
    lemma_segments_within(segments, columns, 0, to);
    lemma_within_concat(head, segments_ops(segments), columns, 0, to);
    lemma_within_concat(
        head + segments_ops(segments),
        seq![TermOpView::Print(entry.line), TermOpView::Print("\n"@), TermOpView::Flush],
        columns,
        0,
        to,
    );
}

/// How many characters are printed.
pub open spec fn printed(ops: Seq<TermOpView>) -> nat
    decreases ops.len(),
{
    if ops.len() == 0 {
        0
    } else {
        printed(ops.drop_last()) + match ops.last() {
            TermOpView::Print(text) => text.len(),
            _ => 0,
        }
    }
}

proof fn lemma_printed_concat(a: Seq<TermOpView>, b: Seq<TermOpView>)
    ensures
        printed(a + b) == printed(a) + printed(b),
    decreases b.len(),
{
    if b.len() == 0 {
        assert(a + b =~= a);
    } else {
        lemma_printed_concat(a, b.drop_last());
        assert((a + b).drop_last() =~= a + b.drop_last());
    }
}

/// A line of the footer is no longer than the terminal is wide.
pub proof fn law_footer_line_fits_the_width(segments: Seq<SegmentView>, columns: nat)
    ensures
        printed(clipped_ops(segments, columns)) <= columns,
    decreases segments.len(),
{
    if segments.len() > 0 && columns > 0 {
        let first = segments.first();
        let text = clip(first.text, columns);
        let rest = segments.drop_first();
        law_footer_line_fits_the_width(rest, columns);
        if text.len() > 0 {
            let own = segment_ops(SegmentView { text, color: first.color });
            law_footer_line_fits_the_width(rest, left_after(columns, text));
            lemma_printed_concat(own, clipped_ops(rest, left_after(columns, text)));
            reveal_with_fuel(printed, 4);
            assert(printed(own) == text.len());
            lemma_len_at_most_bytes(text);
        }
    }
}

/// The text that is printed.
pub open spec fn print_text(ops: Seq<TermOpView>) -> Seq<char>
    decreases ops.len(),
{
    if ops.len() == 0 {
        Seq::empty()
    } else {
        print_text(ops.drop_last()) + match ops.last() {
            TermOpView::Print(text) => text,
            _ => Seq::empty(),
        }
    }
}

proof fn lemma_print_text_concat(a: Seq<TermOpView>, b: Seq<TermOpView>)
    ensures
        print_text(a + b) == print_text(a) + print_text(b),
    decreases b.len(),
{
    if b.len() == 0 {
        assert(a + b =~= a);
        assert(print_text(a) + print_text(b) =~= print_text(a));
    } else {
        lemma_print_text_concat(a, b.drop_last());
        assert((a + b).drop_last() =~= a + b.drop_last());
        assert(print_text(a + b) =~= print_text(a) + print_text(b));
    }
}

proof fn lemma_print_text_of_segment(segment: SegmentView)
    ensures
        print_text(segment_ops(segment)) == segment.text,
{
    reveal_with_fuel(print_text, 4);
    let ops = segment_ops(segment);
    assert(print_text(ops) =~= segment.text);
}

proof fn lemma_print_text_of_segments(segments: Seq<SegmentView>)
    ensures
        print_text(segments_ops(segments)) == line_text(segments),
    decreases segments.len(),
{
    let texts = segments.map_values(|s: SegmentView| s.text);
    if segments.len() > 0 {
        let front = segments.drop_last();
        lemma_print_text_of_segments(front);
        lemma_print_text_concat(segments_ops(front), segment_ops(segments.last()));
        lemma_print_text_of_segment(segments.last());
        assert(texts.drop_last() =~= front.map_values(|s: SegmentView| s.text));
    } else {
        assert(texts.len() == 0);
    }
}

/// A line of a service is printed with the service's name before it, and with nothing lost or
/// added: at the bottom of the output, into a row that was emptied, which then scrolls up.
pub proof fn law_lines_are_printed_as_they_came(
    terminal: AttachTerminal,
    entry: LogEntryView,
    names: ServiceNamesView,
)
    requires
        terminal.wf(),
    ensures
        ({
            let ops = terminal.log_ops(entry, names);
            &&& print_text(ops) == log_prefix(entry.service, terminal.max_name_width as nat)
                + entry.line + seq!['\n']
            &&& ops.len() >= 3
            &&& ops[0] == (TermOpView::MoveTo {
                column: 0,
                row: terminal.rows - terminal.service_rows - 2,
            })
            &&& ops[1] is ClearLine
            &&& ops.last() is Flush
            &&& ops[ops.len() - 2] is Print
        }),
{
    reveal_strlit("\n");
    assert("\n"@ =~= seq!['\n']);
    let short = names.short_name(entry.service);
    let width = terminal.max_name_width as nat;
    let segments = log_prefix_segments(entry.service, short, width);
    let head = seq![
        TermOpView::MoveTo { column: 0, row: terminal.log_bottom() },
        TermOpView::ClearLine,
    ];
    let tail = seq![TermOpView::Print(entry.line), TermOpView::Print("\n"@), TermOpView::Flush];
    lemma_print_text_of_segments(segments);
    law_log_prefix_segments_read_as_the_prefix(entry.service, short, width);
    lemma_print_text_concat(head, segments_ops(segments));
    lemma_print_text_concat(head + segments_ops(segments), tail);
    lemma_nothing_printed(terminal.log_bottom());
    lemma_line_printed(entry.line);
    assert(print_text(terminal.log_ops(entry, names)) =~= log_prefix(entry.service, width)
        + entry.line + seq!['\n']);
}

proof fn lemma_nothing_printed(row: int)
    ensures
        print_text(seq![TermOpView::MoveTo { column: 0, row }, TermOpView::ClearLine]) == Seq::<
            char,
        >::empty(),
{
    let empty = Seq::<TermOpView>::empty();
    let a = empty.push(TermOpView::MoveTo { column: 0, row });
    lemma_print_text_push(empty, TermOpView::MoveTo { column: 0, row });
    lemma_print_text_push(a, TermOpView::ClearLine);
    assert(seq![TermOpView::MoveTo { column: 0, row }, TermOpView::ClearLine] =~= a.push(
        TermOpView::ClearLine,
    ));
}

proof fn lemma_line_printed(line: Seq<char>)
    ensures
        print_text(
            seq![TermOpView::Print(line), TermOpView::Print("\n"@), TermOpView::Flush],
        ) == line + "\n"@,
{
    let empty = Seq::<TermOpView>::empty();
    let a = empty.push(TermOpView::Print(line));
    let b = a.push(TermOpView::Print("\n"@));
    lemma_print_text_push(empty, TermOpView::Print(line));
    lemma_print_text_push(a, TermOpView::Print("\n"@));
    lemma_print_text_push(b, TermOpView::Flush);
    assert(seq![TermOpView::Print(line), TermOpView::Print("\n"@), TermOpView::Flush] =~= b.push(
        TermOpView::Flush,
    ));
    assert(print_text(b) =~= line + "\n"@);
}

proof fn lemma_line_text_first(segments: Seq<SegmentView>)
    requires
        segments.len() > 0,
    ensures
        line_text(segments) == segments.first().text + line_text(segments.drop_first()),
    decreases segments.len(),
{
    let texts = segments.map_values(|s: SegmentView| s.text);
    let rest = segments.drop_first();
    let rest_texts = rest.map_values(|s: SegmentView| s.text);
    if segments.len() == 1 {
        assert(joined(texts.drop_last()) =~= Seq::<char>::empty());
        assert(joined(rest_texts) =~= Seq::<char>::empty());
        assert(line_text(segments) =~= segments.first().text + line_text(rest));
    } else {
        let front = segments.drop_last();
        lemma_line_text_first(front);
        assert(front.drop_first() =~= rest.drop_last());
        assert(texts.drop_last() =~= front.map_values(|s: SegmentView| s.text));
        assert(rest_texts.drop_last() =~= rest.drop_last().map_values(|s: SegmentView| s.text));
        assert(line_text(segments) =~= segments.first().text + line_text(rest));
    }
}

/// What is shown of a line of the footer is its beginning, in its order, and all of it where the
/// terminal is wide enough; where it is not, the terminal is filled.
pub proof fn law_lines_are_shown_as_far_as_they_fit(segments: Seq<SegmentView>, columns: nat)
    ensures
        print_text(clipped_ops(segments, columns)).is_prefix_of(line_text(segments)),
        byte_len(line_text(segments)) <= columns ==> print_text(clipped_ops(segments, columns))
            == line_text(segments),
        byte_len(print_text(clipped_ops(segments, columns))) < columns ==> print_text(
            clipped_ops(segments, columns),
        ) == line_text(segments),
    decreases segments.len(),
{
    let shown = print_text(clipped_ops(segments, columns));
    let all = line_text(segments);
    if segments.len() == 0 {
        assert(all =~= Seq::<char>::empty());
        assert(shown =~= all);
    } else if columns == 0 {
        assert(shown =~= Seq::<char>::empty());
        assert(all.take(0) =~= shown);
        lemma_len_at_most_bytes(all);
        if byte_len(all) == 0 {
            assert(all =~= shown);
        }
    } else {
        let first = segments.first();
        let text = clip(first.text, columns);
        let rest = segments.drop_first();
        lemma_line_text_first(segments);
        if text.len() == 0 {
            assert(first.text =~= Seq::<char>::empty());
            assert(all =~= line_text(rest));
            law_lines_are_shown_as_far_as_they_fit(rest, columns);
        } else {
            let left = left_after(columns, text);
            law_lines_are_shown_as_far_as_they_fit(rest, left);
            let own = segment_ops(SegmentView { text, color: first.color });
            lemma_print_text_concat(own, clipped_ops(rest, left));
            lemma_print_text_of_segment(SegmentView { text, color: first.color });
            let more = print_text(clipped_ops(rest, left));
            assert(shown == text + more);
            lemma_encode_concat(text, more);
            lemma_encode_concat(first.text, line_text(rest));
            lemma_len_at_most_bytes(text);
            lemma_len_at_most_bytes(more);
            if text.len() < first.text.len() {
                assert(text.len() == columns);
                assert(left == 0);
                assert(more =~= Seq::<char>::empty());
                assert(shown =~= text);
                lemma_byte_len_take(first.text, columns as int, first.text.len() as int);
                assert(first.text.take(first.text.len() as int) =~= first.text);
                assert(shown =~= all.take(shown.len() as int));
            } else {
                assert(text =~= first.text);
                assert(more =~= line_text(rest).take(more.len() as int));
                assert(shown =~= all.take(shown.len() as int));
                if left == 0 && byte_len(all) <= columns {
                    assert(byte_len(line_text(rest)) == 0);
                }
            }
        }
    }
}

/// The rows that are emptied are each emptied, from the first to the last, and no others.
pub proof fn law_each_row_is_emptied(from: int, to: int, row: int)
    requires
        from <= row < to,
    ensures
        clear_ops(from, to).len() == 2 * (to - from),
        clear_ops(from, to)[2 * (row - from)] == (TermOpView::MoveTo { column: 0, row }),
        clear_ops(from, to)[2 * (row - from) + 1] is ClearLine,
    decreases to - from,
{
    if row < to - 1 {
        law_each_row_is_emptied(from, to - 1, row);
    } else if from < to - 1 {
        law_each_row_is_emptied(from, to - 1, to - 2);
    } else {
        assert(clear_ops(from, to - 1).len() == 0);
    }
}

/// Each line of the footer stands in a row of its own, below the line before it.
pub proof fn law_lines_stand_below_each_other(
    lines: Seq<Seq<SegmentView>>,
    start: int,
    columns: nat,
    k: nat,
    i: nat,
)
    requires
        i < k,
    ensures
        ({
            let above = lines_ops(lines, start, columns, i);
            let all = lines_ops(lines, start, columns, k);
            (above + seq![TermOpView::MoveTo { column: 0, row: start + i }] + clipped_ops(
                lines[i as int],
                columns,
            )).is_prefix_of(all)
        }),
    decreases k,
{
    let above = lines_ops(lines, start, columns, i);
    let all = lines_ops(lines, start, columns, k);
    let own = above + seq![TermOpView::MoveTo { column: 0, row: start + i }] + clipped_ops(
        lines[i as int],
        columns,
    );
    if i == k - 1 {
        assert(all =~= own);
        assert(own =~= all.take(own.len() as int));
    } else {
        let before = lines_ops(lines, start, columns, (k - 1) as nat);
        law_lines_stand_below_each_other(lines, start, columns, (k - 1) as nat, i);
        assert(own =~= before.take(own.len() as int));
        assert(own =~= all.take(own.len() as int));
    }
}

/// Nothing is printed where nothing is written but moves and emptied rows.
proof fn lemma_clearing_prints_nothing(from: int, to: int)
    ensures
        print_text(clear_ops(from, to)) == Seq::<char>::empty(),
    decreases to - from,
{
    if from < to {
        lemma_clearing_prints_nothing(from, to - 1);
        let last = seq![TermOpView::MoveTo { column: 0, row: to - 1 }, TermOpView::ClearLine];
        lemma_print_text_concat(clear_ops(from, to - 1), last);
        reveal_with_fuel(print_text, 3);
        assert(print_text(last) =~= Seq::<char>::empty());
    }
}

proof fn lemma_prompt_prints(prompt: Option<Seq<char>>, columns: nat, row: int)
    ensures
        print_text(prompt_ops(prompt, columns, row)) == match prompt {
            Some(buffer) => prompt_text(buffer, columns),
            None => Seq::empty(),
        },
        print_text(seq![TermOpView::Flush]) == Seq::<char>::empty(),
{
    let empty = Seq::<TermOpView>::empty();
    assert(seq![TermOpView::Flush] =~= empty.push(TermOpView::Flush));
    lemma_print_text_push(empty, TermOpView::Flush);
    match prompt {
        Some(buffer) => {
            let text = prompt_text(buffer, columns);
            let a = empty.push(TermOpView::MoveTo { column: 0, row });
            let b = a.push(TermOpView::SetColor(Color::White));
            let c = b.push(TermOpView::Print(text));
            let d = c.push(TermOpView::ResetColor);
            let e = d.push(TermOpView::MoveTo { column: text.len() as int, row });
            let f = e.push(TermOpView::ShowCursor);
            lemma_print_text_push(empty, TermOpView::MoveTo { column: 0, row });
            lemma_print_text_push(a, TermOpView::SetColor(Color::White));
            lemma_print_text_push(b, TermOpView::Print(text));
            lemma_print_text_push(c, TermOpView::ResetColor);
            lemma_print_text_push(d, TermOpView::MoveTo { column: text.len() as int, row });
            lemma_print_text_push(e, TermOpView::ShowCursor);
            assert(prompt_ops(prompt, columns, row) =~= f);
            assert(print_text(f) =~= text);
        },
        None => {
            lemma_print_text_push(empty, TermOpView::HideCursor);
            assert(prompt_ops(prompt, columns, row) =~= empty.push(TermOpView::HideCursor));
        },
    }
}

proof fn lemma_print_text_push(ops: Seq<TermOpView>, op: TermOpView)
    ensures
        op matches TermOpView::Print(text) ==> print_text(ops.push(op)) == print_text(ops) + text,
        op !is Print ==> print_text(ops.push(op)) == print_text(ops),
{
    assert(ops.push(op).drop_last() =~= ops);
    if op !is Print {
        assert(print_text(ops.push(op)) =~= print_text(ops));
    }
}

proof fn lemma_footer_prints(
    cleared: Seq<TermOpView>,
    drawn_lines: Seq<TermOpView>,
    prompt: Option<Seq<char>>,
    columns: nat,
    row: int,
)
    ensures
        ({
            let ops = cleared + drawn_lines + prompt_ops(prompt, columns, row) + seq![
                TermOpView::Flush,
            ];
            &&& (cleared + drawn_lines).is_prefix_of(ops)
            &&& print_text(ops) == print_text(cleared) + print_text(drawn_lines) + match prompt {
                Some(buffer) => prompt_text(buffer, columns),
                None => Seq::empty(),
            }
        }),
{
    let typed = prompt_ops(prompt, columns, row);
    let end = seq![TermOpView::Flush];
    let ops = cleared + drawn_lines + typed + end;
    assert((cleared + drawn_lines) =~= ops.take((cleared + drawn_lines).len() as int));
    lemma_print_text_concat(cleared, drawn_lines);
    lemma_print_text_concat(cleared + drawn_lines, typed);
    lemma_print_text_concat(cleared + drawn_lines + typed, end);
    lemma_prompt_prints(prompt, columns, row);
    assert(print_text(ops) =~= print_text(cleared) + print_text(drawn_lines) + print_text(typed));
}

/// The footer is drawn anew: its rows are emptied first, then its lines are drawn in them from the
/// first on, and then the prompt, in the last row. The cursor is shown behind what is typed where
/// something is, and nowhere else; nothing is left unwritten.
pub proof fn law_footers_are_drawn_anew(
    terminal: AttachTerminal,
    lines: Seq<Seq<SegmentView>>,
    prompt: Option<Seq<char>>,
)
    requires
        terminal.wf(),
    ensures
        ({
            let ops = terminal.footer_ops(lines, prompt);
            let start = terminal.rows - terminal.service_rows - 1;
            let cleared = clear_ops(start, terminal.rows as int);
            let drawn_lines = lines_ops(lines, start, terminal.columns as nat, lines.len());
            &&& (cleared + drawn_lines).is_prefix_of(ops)
            &&& print_text(ops) == print_text(drawn_lines) + match prompt {
                Some(buffer) => prompt_text(buffer, terminal.columns as nat),
                None => Seq::empty(),
            }
            &&& ops.last() is Flush
            &&& prompt is None ==> ops.len() == cleared.len() + drawn_lines.len() + 2 && ops[ops.len()
                - 2] is HideCursor
            &&& prompt matches Some(buffer) ==> {
                &&& ops[ops.len() - 2] is ShowCursor
                &&& ops[ops.len() - 3] == (TermOpView::MoveTo {
                    column: prompt_text(buffer, terminal.columns as nat).len() as int,
                    row: terminal.rows - 1,
                })
                &&& ops[ops.len() - 7] == (TermOpView::MoveTo { column: 0, row: terminal.rows - 1 })
            }
        }),
{
    let ops = terminal.footer_ops(lines, prompt);
    let start = terminal.rows - terminal.service_rows - 1;
    let columns = terminal.columns as nat;
    let cleared = clear_ops(start, terminal.rows as int);
    let drawn_lines = lines_ops(lines, start, columns, lines.len());
    let typed = prompt_ops(prompt, columns, terminal.prompt_row());
    lemma_footer_prints(cleared, drawn_lines, prompt, columns, terminal.prompt_row());
    lemma_clearing_prints_nothing(start, terminal.rows as int);
    assert(Seq::<char>::empty() + print_text(drawn_lines) =~= print_text(drawn_lines));
    assert(ops == cleared + drawn_lines + typed + seq![TermOpView::Flush]);
}

/// The rows that scroll are those of the output: all rows above the services, as many as are left
/// for it. What stands below is emptied when that changes.
pub proof fn law_only_the_output_scrolls(terminal: AttachTerminal)
    requires
        terminal.wf(),
    ensures
        ({
            let ops = terminal.scroll_ops();
            let rows = terminal.rows - terminal.service_rows - 1;
            &&& rows == terminal.log_bottom() + 1
            &&& ops == seq![
                TermOpView::Print("\x1b[1;"@ + decimal(rows as nat) + "r"@),
                TermOpView::MoveTo { column: 0, row: rows },
                TermOpView::ClearDown,
                TermOpView::Flush,
            ]
        }),
{
}

/// A size that was read is taken over where it leaves three rows, and otherwise refused; the rows
/// are laid out anew exactly where the size is another. Nothing else of the terminal changes.
pub proof fn law_usable_sizes_are_taken_over(terminal: AttachTerminal, size: Option<(u16, u16)>)
    requires
        terminal.wf(),
    ensures
        ({
            let after = terminal.with_size(size);
            &&& size is None ==> size_fault(size) == Some(TerminalError::UnknownSize)
            &&& size matches Some((columns, rows)) ==> {
                &&& rows < 3 <==> size_fault(size) == Some(TerminalError::TooFewRows)
                &&& rows >= 3 <==> size_fault(size) is None
                &&& rows >= 3 ==> after.columns == columns && after.rows == rows
            }
            &&& size_fault(size) is Some ==> after == terminal && terminal.size_ops(size).len() == 0
            &&& after.wf()
            &&& after.service_count == terminal.service_count
            &&& after.max_name_width == terminal.max_name_width
            &&& after.restored == terminal.restored
            &&& terminal.size_ops(size).len() > 0 <==> after.columns != terminal.columns || after.rows
                != terminal.rows
            &&& terminal.size_ops(size).len() > 0 ==> terminal.size_ops(size) == after.scroll_ops()
        }),
{
}

/// A number of services that is told is taken over; the rows are laid out anew exactly where the
/// number is another. Nothing else of the terminal changes.
pub proof fn law_counts_are_taken_over(terminal: AttachTerminal, count: usize)
    requires
        terminal.wf(),
    ensures
        ({
            let after = terminal.with_count(count);
            &&& after.wf()
            &&& after.service_count == count
            &&& after.columns == terminal.columns && after.rows == terminal.rows
            &&& after.max_name_width == terminal.max_name_width
            &&& after.restored == terminal.restored
            &&& terminal.count_ops(count).len() > 0 <==> count != terminal.service_count
            &&& terminal.count_ops(count).len() > 0 ==> terminal.count_ops(count)
                == after.scroll_ops()
        }),
{
}

/// Whether something written is among what is written.
pub open spec fn writes(ops: Seq<TermOpView>, op: TermOpView) -> bool {
    exists|i: int| 0 <= i < ops.len() && #[trigger] ops[i] == op
}

/// A terminal is given back as it was taken: the cursor, hidden when it is taken over, is shown
/// again, all rows scroll again, the rows of the footer are empty, and what follows begins in a
/// row of its own. All of it is written at once.
pub proof fn law_terminals_are_given_back(terminal: AttachTerminal)
    requires
        terminal.wf(),
    ensures
        writes(terminal.opening_ops(), TermOpView::HideCursor),
        !writes(terminal.opening_ops(), TermOpView::ShowCursor),
        terminal.scroll_ops().is_suffix_of(terminal.opening_ops()),
        terminal.opening_ops().last() is Flush,
        ({
            let ops = terminal.restore_ops();
            let start = terminal.rows - terminal.service_rows - 1;
            &&& writes(ops, TermOpView::ShowCursor) && !writes(ops, TermOpView::HideCursor)
            &&& print_text(ops) == "\x1b[r"@ + seq!['\n']
            &&& ops[0] == TermOpView::Print("\x1b[r"@)
            &&& ops[1] == (TermOpView::MoveTo { column: 0, row: start })
            &&& ops[2] is ClearDown
            &&& ops.last() is Flush && ops.len() == 7 && ops[5] == TermOpView::Print(seq!['\n'])
        }),
{
    reveal_strlit("\n");
    assert("\n"@ =~= seq!['\n']);
    let opening = terminal.opening_ops();
    assert(opening[0] == TermOpView::HideCursor);
    assert(terminal.scroll_ops() =~= opening.subrange(2, opening.len() as int));
    let ops = terminal.restore_ops();
    assert(ops[3] == TermOpView::ShowCursor);
    let empty = Seq::<TermOpView>::empty();
    let a = empty.push(ops[0]);
    let b = a.push(ops[1]);
    let c = b.push(ops[2]);
    let d = c.push(ops[3]);
    let e = d.push(ops[4]);
    let f = e.push(ops[5]);
    let g = f.push(ops[6]);
    lemma_print_text_push(empty, ops[0]);
    lemma_print_text_push(a, ops[1]);
    lemma_print_text_push(b, ops[2]);
    lemma_print_text_push(c, ops[3]);
    lemma_print_text_push(d, ops[4]);
    lemma_print_text_push(e, ops[5]);
    lemma_print_text_push(f, ops[6]);
    assert(ops =~= g);
    assert(print_text(ops) =~= "\x1b[r"@ + seq!['\n']);
}

/// The color in which text is printed behind what was written; none where none was set.
pub open spec fn color_after(ops: Seq<TermOpView>) -> Option<Color>
    decreases ops.len(),
{
    if ops.len() == 0 {
        None
    } else {
        match ops.last() {
            TermOpView::SetColor(color) => Some(color),
            TermOpView::ResetColor => None,
            _ => color_after(ops.drop_last()),
        }
    }
}

/// The text that is printed in a color.
pub open spec fn printed_in(ops: Seq<TermOpView>, color: Color) -> Seq<char>
    decreases ops.len(),
{
    if ops.len() == 0 {
        Seq::empty()
    } else {
        let before = printed_in(ops.drop_last(), color);
        match ops.last() {
            TermOpView::Print(text) => if color_after(ops.drop_last()) == Some(color) {
                before + text
            } else {
                before
            },
            _ => before,
        }
    }
}

/// Each piece of a line is printed in its own color, and no color is left set behind the line.
pub proof fn law_pieces_are_printed_in_their_color(segments: Seq<SegmentView>, color: Color)
    ensures
        printed_in(segments_ops(segments), color) == shown_in(segments, color),
        color_after(segments_ops(segments)) is None,
    decreases segments.len(),
{
    if segments.len() > 0 {
        let front = segments_ops(segments.drop_last());
        let last = segments.last();
        law_pieces_are_printed_in_their_color(segments.drop_last(), color);
        match last.color {
            Some(own) => {
                let a = front.push(TermOpView::SetColor(own));
                let b = a.push(TermOpView::Print(last.text));
                let c = b.push(TermOpView::ResetColor);
                assert(a.drop_last() =~= front);
                assert(b.drop_last() =~= a);
                assert(c.drop_last() =~= b);
                assert(color_after(a) == Some(own));
                assert(printed_in(a, color) == printed_in(front, color));
                assert(printed_in(b, color) == if own == color {
                    printed_in(front, color) + last.text
                } else {
                    printed_in(front, color)
                });
                assert(printed_in(c, color) == printed_in(b, color));
                assert(segments_ops(segments) =~= c);
            },
            None => {
                let a = front.push(TermOpView::Print(last.text));
                assert(a.drop_last() =~= front);
                assert(segments_ops(segments) =~= a);
            },
        }
    }
}

/// Why the terminal cannot be used is said in words.
pub proof fn law_terminal_errors_in_words()
    ensures
        TerminalError::UnknownSize.text() == "failed to read terminal size"@,
        TerminalError::TooFewRows.text() == "attach requires a terminal with at least three rows"@,
        MIN_ATTACH_ROWS == 3,
{
}

/// Appends one thing to write.
fn put(ops: &mut Vec<TermOp>, op: TermOp)
    ensures
        views(final(ops)@) == views(old(ops)@) + seq![op@],
{
    proof {
        lemma_views_push(ops@, op);
    }
    ops.push(op);
    assert(views(ops@) =~= views(old(ops)@) + seq![op@]);
}

/// Appends a piece of a line, in its color.
fn put_segment(ops: &mut Vec<TermOp>, text: String, color: Option<Color>)
    ensures
        views(final(ops)@) == views(old(ops)@) + segment_ops(SegmentView { text: text@, color }),
{
    match color {
        Some(color) => {
            put(ops, TermOp::SetColor(color));
            put(ops, TermOp::Print(text));
            put(ops, TermOp::ResetColor);
        },
        None => {
            put(ops, TermOp::Print(text));
        },
    }
    assert(views(ops@) =~= views(old(ops)@) + segment_ops(SegmentView { text: text@, color }));
}

/// Appends the pieces of a line as far as they fit in so many columns.
fn put_clipped(ops: &mut Vec<TermOp>, segments: &Vec<StatusSegment>, columns: usize)
    ensures
        views(final(ops)@) == views(old(ops)@) + clipped_ops(views(segments@), columns as nat),
{
    let count = segments.len();
    let ghost all = views(segments@);
    let ghost start = views(ops@);
    let ghost wanted = clipped_ops(all, columns as nat);
    let mut remaining = columns;
    assert(all.skip(0) =~= all);
    assert(start + wanted == views(ops@) + clipped_ops(all.skip(0), remaining as nat));
    for i in 0..count
        invariant
            count == segments@.len(),
            all == views(segments@),
            start + wanted == views(ops@) + clipped_ops(all.skip(i as int), remaining as nat),
    {
        let ghost rest = all.skip(i as int);
        let ghost before = views(ops@);
        assert(rest.drop_first() =~= all.skip(i + 1));
        assert(rest.first() == segments@[i as int]@);
        if remaining > 0 {
            let text = truncate_ascii(segments[i].text.as_str(), remaining);
            let len = byte_len_of(text.as_str());
            proof {
                lemma_len_at_most_bytes(text@);
            }
            if chars_of(text.as_str()).len() > 0 {
                put_segment(ops, text, segments[i].color);
                let ghost left = left_after(remaining as nat, text@);
                remaining = if len < remaining {
                    remaining - len
                } else {
                    0
                };
                assert(before + (segment_ops(
                    SegmentView { text: text@, color: segments@[i as int].color },
                ) + clipped_ops(all.skip(i + 1), left)) =~= views(ops@) + clipped_ops(
                    all.skip(i + 1),
                    left,
                ));
            }
        } else {
            assert(clipped_ops(all.skip(i + 1), 0) =~= clipped_ops(rest, 0));
        }
    }
    assert(all.skip(count as int).len() == 0);
    assert(views(ops@) =~= start + wanted);
}

impl AttachTerminal {
    /// A terminal of the size that was read.
    pub fn new(size: Option<(u16, u16)>, max_name_width: usize, service_count: usize) -> (r: Result<
        AttachTerminal,
        TerminalError,
    >)
        ensures
            match r {
                Ok(terminal) => {
                    &&& size_fault(size) is None
                    &&& terminal.wf()
                    &&& size == Some((terminal.columns, terminal.rows))
                    &&& terminal.max_name_width == max_name_width
                    &&& terminal.service_count == service_count
                    &&& !terminal.restored
                },
                Err(error) => size_fault(size) == Some(error),
            },
            r == terminal_of(size, max_name_width, service_count),
    {
        match size {
            None => Err(TerminalError::UnknownSize),
            Some((columns, rows)) => {
                if rows < MIN_ATTACH_ROWS {
                    return Err(TerminalError::TooFewRows);
                }
                Ok(
                    AttachTerminal {
                        columns,
                        rows,
                        max_name_width,
                        service_count,
                        service_rows: service_rows_for(rows, service_count),
                        restored: false,
                    },
                )
            },
        }
    }

    /// What to write when the terminal is taken over.
    pub fn opening(&self) -> (r: Vec<TermOp>)
        requires
            self.wf(),
        ensures
            views(r@) == seq![TermOpView::HideCursor, TermOpView::Flush] + self.scroll_ops(),
            views(r@) == self.opening_ops(),
    {
        let mut ops: Vec<TermOp> = Vec::new();
        put(&mut ops, TermOp::HideCursor);
        put(&mut ops, TermOp::Flush);
        self.configure_scroll_region(&mut ops);
        assert(views(ops@) =~= seq![TermOpView::HideCursor, TermOpView::Flush] + self.scroll_ops());
        ops
    }

    /// What to write when the terminal is given back, unless it was before.
    pub fn restore(&self) -> (r: Option<Vec<TermOp>>)
        requires
            self.wf(),
        ensures
            match r {
                None => self.restored,
                Some(ops) => !self.restored && views(ops@) == seq![
                    TermOpView::Print("\x1b[r"@),
                    TermOpView::MoveTo { column: 0, row: self.status_start() },
                    TermOpView::ClearDown,
                    TermOpView::ShowCursor,
                    TermOpView::Flush,
                    TermOpView::Print("\n"@),
                    TermOpView::Flush,
                ],
            },
            r matches Some(ops) ==> views(ops@) == self.restore_ops(),
    {
        if self.restored {
            return None;
        }
        let mut ops: Vec<TermOp> = Vec::new();
        put(&mut ops, TermOp::Print("\x1b[r".to_owned()));
        put(&mut ops, TermOp::MoveTo { column: 0, row: self.status_start_row() });
        put(&mut ops, TermOp::ClearDown);
        put(&mut ops, TermOp::ShowCursor);
        put(&mut ops, TermOp::Flush);
        put(&mut ops, TermOp::Print("\n".to_owned()));
        put(&mut ops, TermOp::Flush);
        assert(views(ops@) =~= seq![
            TermOpView::Print("\x1b[r"@),
            TermOpView::MoveTo { column: 0, row: self.status_start() },
            TermOpView::ClearDown,
            TermOpView::ShowCursor,
            TermOpView::Flush,
            TermOpView::Print("\n"@),
            TermOpView::Flush,
        ]);
        Some(ops)
    }

    /// Lets only the rows above the services scroll, and empties those below.
    pub fn configure_scroll_region(&self, ops: &mut Vec<TermOp>)
        requires
            self.wf(),
        ensures
            views(final(ops)@) == views(old(ops)@) + self.scroll_ops(),
    {
        let start = self.status_start_row();
        let mut region = "\x1b[1;".to_owned();
        region.append(decimal_of(start as u128).as_str());
        region.append("r");
        put(ops, TermOp::Print(region));
        put(ops, TermOp::MoveTo { column: 0, row: start });
        put(ops, TermOp::ClearDown);
        put(ops, TermOp::Flush);
        assert(views(ops@) =~= views(old(ops)@) + self.scroll_ops());
    }

    /// The row into which output is written.
    pub fn log_bottom_row(&self) -> (r: u16)
        requires
            self.wf(),
        ensures
            r == self.log_bottom(),
    {
        self.status_start_row() - 1
    }

    /// The first row of the services.
    pub fn status_start_row(&self) -> (r: u16)
        requires
            self.wf(),
        ensures
            r == self.status_start(),
    {
        self.rows - self.footer_height()
    }

    /// The row of the prompt.
    pub fn command_row(&self) -> (r: u16)
        requires
            self.wf(),
        ensures
            r == self.prompt_row(),
    {
        self.rows - COMMAND_ROW_HEIGHT
    }

    /// The number of rows below the output.
    pub fn footer_height(&self) -> (r: u16)
        requires
            self.wf(),
        ensures
            r == self.rows - self.status_start(),
    {
        self.service_rows + COMMAND_ROW_HEIGHT
    }

    /// Empties the rows below the output.
    pub fn clear_footer(&self, ops: &mut Vec<TermOp>)
        requires
            self.wf(),
        ensures
            views(final(ops)@) == views(old(ops)@) + clear_ops(
                self.status_start(),
                self.rows as int,
            ),
    {
        let start = self.status_start_row();
        let rows = self.rows;
        let ghost before = views(ops@);
        assert(before + clear_ops(start as int, start as int) =~= before);
        for row in start..rows
            invariant
                start <= row,
                views(ops@) == before + clear_ops(start as int, row as int),
        {
            put(ops, TermOp::MoveTo { column: 0, row });
            put(ops, TermOp::ClearLine);
            assert(views(ops@) =~= before + clear_ops(start as int, row + 1));
        }
    }

    /// Makes room for a number of services.
    pub fn update_service_count(&mut self, service_count: usize, ops: &mut Vec<TermOp>)
        requires
            old(self).wf(),
        ensures
            final(self).wf(),
            *final(self) == old(self).with_count(service_count),
            views(final(ops)@) == views(old(ops)@) + old(self).count_ops(service_count),
    {
        if self.service_count == service_count {
            assert(views(ops@) + old(self).count_ops(service_count) =~= views(ops@));
            return;
        }
        self.service_count = service_count;
        self.service_rows = service_rows_for(self.rows, service_count);
        self.configure_scroll_region(ops);
    }

    /// Takes over the size that was read.
    pub fn refresh_size(&mut self, size: Option<(u16, u16)>, ops: &mut Vec<TermOp>) -> (r: Result<
        (),
        TerminalError,
    >)
        requires
            old(self).wf(),
        ensures
            final(self).wf(),
            *final(self) == old(self).with_size(size),
            views(final(ops)@) == views(old(ops)@) + old(self).size_ops(size),
            match r {
                Ok(()) => size_fault(size) is None,
                Err(error) => size_fault(size) == Some(error),
            },
    {
        assert(views(ops@) + Seq::<TermOpView>::empty() =~= views(ops@));
        match size {
            None => Err(TerminalError::UnknownSize),
            Some((columns, rows)) => {
                if rows < MIN_ATTACH_ROWS {
                    return Err(TerminalError::TooFewRows);
                }
                if columns != self.columns || rows != self.rows {
                    self.columns = columns;
                    self.rows = rows;
                    self.service_rows = service_rows_for(rows, self.service_count);
                    self.configure_scroll_region(ops);
                }
                Ok(())
            },
        }
    }

    /// Writes a line of a service, in a terminal whose size was just read.
    pub fn print_log(
        &mut self,
        size: Option<(u16, u16)>,
        entry: &LogEntry,
        service_names: &ServiceNames,
    ) -> (r: Drawing)
        requires
            old(self).wf(),
            service_names.wf(),
        ensures
            final(self).wf(),
            *final(self) == old(self).with_size(size),
            match r.result {
                Ok(()) => size_fault(size) is None && views(r.ops@) == old(self).size_ops(size)
                    + final(self).log_ops(entry@, service_names@),
                Err(error) => size_fault(size) == Some(error) && views(r.ops@) == old(
                    self,
                ).size_ops(size),
            },
    {
        let mut ops: Vec<TermOp> = Vec::new();
        let result = self.refresh_size(size, &mut ops);
        let ghost start = views(ops@);
        assert(start =~= old(self).size_ops(size));
        if result.is_ok() {
            put(&mut ops, TermOp::MoveTo { column: 0, row: self.log_bottom_row() });
            put(&mut ops, TermOp::ClearLine);
            let ghost head = views(ops@);
            let segments = format_log_prefix_segments(
                entry.service.as_str(),
                service_names.short_name(entry.service.as_str()),
                self.max_name_width,
            );
            let count = segments.len();
            assert(head + segments_ops(views(segments@).take(0)) =~= head);
            for i in 0..count
                invariant
                    count == segments@.len(),
                    views(ops@) == head + segments_ops(views(segments@).take(i as int)),
            {
                put_segment(&mut ops, segments[i].text.clone(), segments[i].color);
                let ghost all = views(segments@);
                assert(all.take(i + 1).drop_last() =~= all.take(i as int));
                assert(all.take(i + 1).last() == segments@[i as int]@);
                assert(views(ops@) =~= head + segments_ops(all.take(i + 1)));
            }
            assert(views(segments@).take(count as int) =~= views(segments@));
            put(&mut ops, TermOp::Print(entry.line.clone()));
            put(&mut ops, TermOp::Print("\n".to_owned()));
            put(&mut ops, TermOp::Flush);
            assert(views(ops@) =~= start + self.log_ops(entry@, service_names@));
        }
        Drawing { ops, result }
    }

    /// Draws the services and hides the cursor.
    pub fn draw_status(
        &mut self,
        size: Option<(u16, u16)>,
        services: &NameMap<ServiceSnapshot>,
        service_names: &ServiceNames,
    ) -> (r: Drawing)
        requires
            old(self).wf(),
            services.wf(),
            service_names.wf(),
        ensures
            final(self).wf(),
            drawn(*old(self), *final(self), size, services, service_names@, None, r),
    {
        self.draw_footer(size, services, service_names, None)
    }

    /// Draws the services and the command line.
    pub fn draw_command_prompt(
        &mut self,
        size: Option<(u16, u16)>,
        services: &NameMap<ServiceSnapshot>,
        service_names: &ServiceNames,
        buffer: &str,
    ) -> (r: Drawing)
        requires
            old(self).wf(),
            services.wf(),
            service_names.wf(),
        ensures
            final(self).wf(),
            drawn(*old(self), *final(self), size, services, service_names@, Some(buffer@), r),
    {
        self.draw_footer(size, services, service_names, Some(buffer))
    }

    /// Draws the services and, where there is one, the command line, in a terminal whose size was
    /// just read.
    pub fn draw_footer(
        &mut self,
        size: Option<(u16, u16)>,
        services: &NameMap<ServiceSnapshot>,
        service_names: &ServiceNames,
        prompt: Option<&str>,
    ) -> (r: Drawing)
        requires
            old(self).wf(),
            services.wf(),
            service_names.wf(),
        ensures
            final(self).wf(),
            drawn(
                *old(self),
                *final(self),
                size,
                services,
                service_names@,
                prompt_view(prompt),
                r,
            ),
    {
        let mut ops: Vec<TermOp> = Vec::new();
        self.update_service_count(services.len(), &mut ops);
        let ghost counted = *self;
        let result = self.refresh_size(size, &mut ops);
        let ghost start = views(ops@);
        assert(start =~= old(self).count_ops(services.names().len() as usize) + counted.size_ops(
            size,
        ));
        if result.is_err() {
            return Drawing { ops, result };
        }
        let row = self.status_start_row();
        let lines = status_lines(
            services,
            service_names,
            self.service_rows as usize,
            self.max_name_width,
        );
        proof {
            law_footer_fits(
                listed(services),
                service_names@,
                self.service_rows as nat,
                self.max_name_width as nat,
            );
        }
        self.clear_footer(&mut ops);
        let ghost cleared = views(ops@);
        let count = lines.len();
        let columns = self.columns as usize;
        let ghost all = views(lines@);
        assert(all.len() == count);
        assert(cleared + lines_ops(all, row as int, columns as nat, 0) =~= cleared);
        for i in 0..count
            invariant
                count == lines@.len(),
                all == views(lines@),
                row + count <= u16::MAX,
                views(ops@) == cleared + lines_ops(all, row as int, columns as nat, i as nat),
        {
            let ghost before = lines_ops(all, row as int, columns as nat, i as nat);
            let step = TermOp::MoveTo { column: 0, row: row + i as u16 };
            put(&mut ops, step);
            put_clipped(&mut ops, &lines[i].segments, columns);
            assert(all[i as int] == lines@[i as int]@);
            assert(views(ops@) =~= cleared + (before + seq![step@] + clipped_ops(
                all[i as int],
                columns as nat,
            )));
        }
        let ghost lined = views(ops@);
        let ghost wanted = prompt_ops(prompt_view(prompt), columns as nat, self.prompt_row());
        match prompt {
            Some(buffer) => {
                let command_row = self.command_row();
                let (text, cursor) = render_command_prompt(buffer, columns);
                put(&mut ops, TermOp::MoveTo { column: 0, row: command_row });
                put(&mut ops, TermOp::SetColor(Color::White));
                put(&mut ops, TermOp::Print(text));
                put(&mut ops, TermOp::ResetColor);
                put(&mut ops, TermOp::MoveTo { column: cursor as u16, row: command_row });
                put(&mut ops, TermOp::ShowCursor);
            },
            None => {
                put(&mut ops, TermOp::HideCursor);
            },
        }
        assert(views(ops@) =~= lined + wanted);
        put(&mut ops, TermOp::Flush);
        assert(views(ops@) =~= start + self.footer_ops(all, prompt_view(prompt)));
        Drawing { ops, result }
    }
}

/// What drawing the footer does: it makes room for the services, takes over the size and, where
/// the terminal can be used, draws the lines and the prompt.
pub open spec fn drawn(
    before: AttachTerminal,
    after: AttachTerminal,
    size: Option<(u16, u16)>,
    services: &NameMap<ServiceSnapshot>,
    names: ServiceNamesView,
    prompt: Option<Seq<char>>,
    r: Drawing,
) -> bool {
    let count = services.names().len() as usize;
    let counted = before.with_count(count);
    let start = before.count_ops(count) + counted.size_ops(size);
    &&& after == counted.with_size(size)
    &&& match r.result {
        Ok(()) => {
            &&& size_fault(size) is None
            &&& views(r.ops@) == start + after.footer_ops(
                after.footer_lines(services, names),
                prompt,
            )
        },
        Err(error) => size_fault(size) == Some(error) && views(r.ops@) == start,
    }
}

} // verus!
