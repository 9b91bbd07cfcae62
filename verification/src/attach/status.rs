//! What the terminal shows of the services: the lines of the footer, the prefix of a log line and
//! the command prompt.

use vstd::prelude::*;

use crate::attach::highlight::{
    highlighted, highlighted_service_name_characters, law_marks_spell_the_short_name,
    lemma_highlighted_len, marked, placed,
};
use crate::attach::service_names::{ServiceNames, ServiceNamesView};
use crate::ipc::{ServiceSnapshot, ServiceState, SnapshotView};
use crate::name_map::NameMap;
use crate::numbers::{decimal, decimal_of, format_memory, memory_text, right_align, right_aligned};
use crate::text::{
    byte_len, byte_len_of, chars_of, cut, joined, lemma_byte_len_push, lemma_encode_concat,
    lemma_views_push, spaces, spaces_of, views,
};

verus! {

/// The rows below the services that hold the command prompt.
pub const COMMAND_ROW_HEIGHT: u16 = 1;

/// The colors that the terminal shows text in.
#[derive(Debug, Clone, Copy, PartialEq, Eq, Structural)]
pub enum Color {
    DarkGrey,
    Green,
    Magenta,
    Red,
    White,
    Yellow,
}

/// The color of a service's name.
pub const SERVICE_NAME_COLOR: Color = Color::DarkGrey;

/// The color of those characters of a name that make up the short name.
pub const SERVICE_SHORT_NAME_COLOR: Color = Color::Magenta;

/// A piece of a line in one color.
#[derive(Debug)]
pub struct StatusSegment {
    pub text: String,
    pub color: Option<Color>,
}

/// A piece of a line as a value.
pub struct SegmentView {
    pub text: Seq<char>,
    pub color: Option<Color>,
}

impl View for StatusSegment {
    type V = SegmentView;

    open spec fn view(&self) -> SegmentView {
        SegmentView { text: self.text@, color: self.color }
    }
}

/// A line of the footer.
#[derive(Debug)]
pub struct StatusLine {
    pub segments: Vec<StatusSegment>,
}

impl View for StatusLine {
    type V = Seq<SegmentView>;

    open spec fn view(&self) -> Seq<SegmentView> {
        views(self.segments@)
    }
}

/// A text in a color.
pub open spec fn colored(text: Seq<char>, color: Color) -> SegmentView {
    SegmentView { text, color: Some(color) }
}

/// A text in a color, if there is any text.
pub open spec fn colored_if_any(text: Seq<char>, color: Color) -> Seq<SegmentView> {
    if text.len() > 0 {
        seq![colored(text, color)]
    } else {
        Seq::empty()
    }
}

/// What the pieces read when they stand side by side.
pub open spec fn line_text(segments: Seq<SegmentView>) -> Seq<char> {
    joined(segments.map_values(|s: SegmentView| s.text))
}

/// What the pieces of one color read when they stand side by side.
pub open spec fn shown_in(segments: Seq<SegmentView>, color: Color) -> Seq<char>
    decreases segments.len(),
{
    if segments.len() == 0 {
        Seq::empty()
    } else if segments.last().color == Some(color) {
        shown_in(segments.drop_last(), color) + segments.last().text
    } else {
        shown_in(segments.drop_last(), color)
    }
}

/// How much smaller than `width` the number is.
pub open spec fn short_of(n: nat, width: nat) -> nat {
    if n < width {
        (width - n) as nat
    } else {
        0
    }
}

/// The color of a character of a name.
pub open spec fn mark_color(mark: bool) -> Color {
    if mark {
        SERVICE_SHORT_NAME_COLOR
    } else {
        SERVICE_NAME_COLOR
    }
}

/// The name in pieces, each as long as its characters have one color.
pub open spec fn mark_runs(name: Seq<char>, marks: Seq<bool>) -> Seq<SegmentView>
    decreases name.len(),
{
    if name.len() == 0 {
        Seq::empty()
    } else {
        let front = mark_runs(name.drop_last(), marks);
        let color = mark_color(marks[name.len() - 1]);
        if front.len() > 0 && front.last().color == Some(color) {
            front.drop_last().push(colored(front.last().text.push(name.last()), color))
        } else {
            front.push(colored(seq![name.last()], color))
        }
    }
}

/// The name with blanks on both sides and a suffix, its short name highlighted.
pub open spec fn name_segments(
    name: Seq<char>,
    short: Seq<char>,
    left: nat,
    right: nat,
    suffix: Seq<char>,
) -> Seq<SegmentView> {
    colored_if_any(spaces(left), SERVICE_NAME_COLOR) + mark_runs(name, highlighted(name, short))
        + colored_if_any(spaces(right), SERVICE_NAME_COLOR) + colored_if_any(
        suffix,
        SERVICE_NAME_COLOR,
    )
}

/// The name of a service before a line of its output, right aligned.
pub open spec fn log_prefix(name: Seq<char>, width: nat) -> Seq<char> {
    spaces(short_of(byte_len(name), width)) + name + ">  "@
}

/// The prefix of a log line in its colors.
pub open spec fn log_prefix_segments(name: Seq<char>, short: Seq<char>, width: nat) -> Seq<
    SegmentView,
> {
    name_segments(name, short, short_of(byte_len(name), width), 0, ">  "@)
}

/// What the footer calls a state.
pub open spec fn label_of(state: ServiceState) -> Seq<char> {
    match state {
        ServiceState::Starting => "starting"@,
        ServiceState::Running => "running"@,
        ServiceState::Stopped => "stopped"@,
        ServiceState::Exited => "exited"@,
    }
}

/// The color of a service's state.
pub open spec fn color_of(service: SnapshotView) -> Color {
    match service.state {
        ServiceState::Running => if service.ready {
            Color::Green
        } else {
            Color::Yellow
        },
        ServiceState::Starting => Color::Yellow,
        ServiceState::Stopped => Color::DarkGrey,
        ServiceState::Exited => Color::Red,
    }
}

/// The state of a service, filled up to the width of the longest, and a blank.
pub open spec fn label_column(state: ServiceState) -> Seq<char> {
    label_of(state) + spaces(short_of(label_of(state).len(), 8)) + " "@
}

/// What a service uses.
pub open spec fn usage(service: SnapshotView) -> Seq<char> {
    right_aligned(service.cpu_percent.text(), 5) + "% "@ + memory_text(service.memory_bytes as nat)
}

/// The line of a service.
pub open spec fn service_line(service: SnapshotView, short: Seq<char>, name_width: nat) -> Seq<
    SegmentView,
> {
    (seq![colored(label_column(service.state), color_of(service))] + name_segments(
        service.name,
        short,
        0,
        short_of(byte_len(service.name), name_width),
        " "@,
    )).push(colored(usage(service), Color::DarkGrey))
}

/// How many of the services get a line of their own: all, unless they are more than the lines,
/// of which the last then counts the rest. No limit is set by a number of zero lines.
pub open spec fn visible(count: nat, max_lines: nat) -> nat {
    if count > max_lines && max_lines > 0 {
        (max_lines - 1) as nat
    } else {
        count
    }
}

/// The line that counts the services without a line of their own.
pub open spec fn overflow_line(hidden: nat) -> Seq<SegmentView> {
    seq![colored("... "@ + decimal(hidden) + " more service(s)"@, Color::DarkGrey)]
}

/// The line that is shown where there are no services.
pub open spec fn empty_line() -> Seq<SegmentView> {
    seq![colored("no services"@, Color::DarkGrey)]
}

/// The lines of the footer.
pub open spec fn footer(
    services: Seq<SnapshotView>,
    names: ServiceNamesView,
    max_lines: nat,
    name_width: nat,
) -> Seq<Seq<SegmentView>> {
    let shown = visible(services.len(), max_lines);
    if services.len() == 0 {
        seq![empty_line()]
    } else {
        Seq::new(
            shown,
            |i: int| service_line(services[i], names.short_name(services[i].name), name_width),
        ) + (if services.len() > shown {
            seq![overflow_line((services.len() - shown) as nat)]
        } else {
            Seq::empty()
        })
    }
}

/// The services of a map, in the order of their names.
pub open spec fn listed(services: &NameMap<ServiceSnapshot>) -> Seq<SnapshotView> {
    services.names().map_values(|name: Seq<char>| services@[name]@)
}

/// The visible end of the command line, which leaves room for the cursor.
pub open spec fn prompt_text(buffer: Seq<char>, max_len: nat) -> Seq<char> {
    if max_len == 0 {
        Seq::empty()
    } else if buffer.len() < max_len {
        buffer
    } else {
        buffer.skip(buffer.len() - (max_len - 1))
    }
}

/// How many rows the services get: one each, but at least one row, and no more than leave a row
/// for the output and the rows of the prompt.
pub open spec fn rows_for(rows: int, count: int) -> int {
    let most = if rows - 2 > 1 {
        rows - 2
    } else {
        1
    };
    if count < 1 {
        1
    } else if count > most {
        most
    } else {
        count
    }
}

proof fn lemma_line_text_push(segments: Seq<SegmentView>, s: SegmentView)
    ensures
        line_text(segments.push(s)) == line_text(segments) + s.text,
{
    let texts = segments.push(s).map_values(|s: SegmentView| s.text);
    assert(texts.drop_last() =~= segments.map_values(|s: SegmentView| s.text));
}

proof fn lemma_line_text_concat(a: Seq<SegmentView>, b: Seq<SegmentView>)
    ensures
        line_text(a + b) == line_text(a) + line_text(b),
    decreases b.len(),
{
    if b.len() == 0 {
        assert(a + b =~= a);
        assert(line_text(a) + line_text(b) =~= line_text(a));
    } else {
        let front = b.drop_last();
        lemma_line_text_concat(a, front);
        assert(a + b =~= (a + front).push(b.last()));
        assert(b =~= front.push(b.last()));
        lemma_line_text_push(a + front, b.last());
        lemma_line_text_push(front, b.last());
        assert(line_text(a) + line_text(b) =~= line_text(a) + line_text(front) + b.last().text);
    }
}

proof fn lemma_line_text_if_any(text: Seq<char>, color: Color)
    ensures
        line_text(colored_if_any(text, color)) == text,
{
    if text.len() > 0 {
        let empty = Seq::<SegmentView>::empty();
        assert(colored_if_any(text, color) =~= empty.push(colored(text, color)));
        lemma_line_text_push(empty, colored(text, color));
        assert(line_text(empty) + text =~= text);
    } else {
        assert(line_text(colored_if_any(text, color)) =~= text);
    }
}

proof fn lemma_mark_runs(name: Seq<char>, marks: Seq<bool>)
    ensures
        name.len() > 0 ==> mark_runs(name, marks).len() > 0 && mark_runs(name, marks).last().color
            == Some(mark_color(marks[name.len() - 1])),
        line_text(mark_runs(name, marks)) == name,
        shown_in(mark_runs(name, marks), SERVICE_SHORT_NAME_COLOR) == marked(name, marks),
        forall|i: int|
            0 <= i < mark_runs(name, marks).len() ==> #[trigger] mark_runs(name, marks)[i].text.len()
                > 0,
        forall|i: int|
            0 <= i < mark_runs(name, marks).len() - 1 ==> (#[trigger] mark_runs(
                name,
                marks,
            )[i]).color != mark_runs(name, marks)[i + 1].color,
    decreases name.len(),
{
    let color = SERVICE_SHORT_NAME_COLOR;
    if name.len() > 0 {
        let c = name.last();
        let front = mark_runs(name.drop_last(), marks);
        let all = mark_runs(name, marks);
        lemma_mark_runs(name.drop_last(), marks);
        assert(name =~= name.drop_last().push(c));
        let own = mark_color(marks[name.len() - 1]);
        if front.len() > 0 && front.last().color == Some(own) {
            let rest = front.drop_last();
            assert(front =~= rest.push(front.last()));
            lemma_line_text_push(rest, front.last());
            lemma_line_text_push(rest, all.last());
            assert(line_text(all) =~= name);
            assert(all.drop_last() =~= rest);
            assert(shown_in(all, color) =~= marked(name, marks));
            assert forall|i: int| 0 <= i < all.len() - 1 implies (#[trigger] all[i]).color != all[i
                + 1].color by {
                assert(front[i].color != front[i + 1].color);
            }
            assert forall|i: int| 0 <= i < all.len() implies #[trigger] all[i].text.len() > 0 by {
                if i < all.len() - 1 {
                    assert(all[i] == front[i]);
                }
            }
        } else {
            lemma_line_text_push(front, all.last());
            assert(line_text(all) =~= name);
            assert(all.drop_last() =~= front);
            assert(shown_in(all, color) =~= marked(name, marks));
            assert forall|i: int| 0 <= i < all.len() - 1 implies (#[trigger] all[i]).color != all[i
                + 1].color by {
                if i < front.len() - 1 {
                    assert(front[i].color != front[i + 1].color);
                }
            }
            assert forall|i: int| 0 <= i < all.len() implies #[trigger] all[i].text.len() > 0 by {
                if i < all.len() - 1 {
                    assert(all[i] == front[i]);
                }
            }
        }
    } else {
        assert(line_text(mark_runs(name, marks)) =~= name);
    }
}

proof fn lemma_shown_in_concat(a: Seq<SegmentView>, b: Seq<SegmentView>, color: Color)
    ensures
        shown_in(a + b, color) == shown_in(a, color) + shown_in(b, color),
    decreases b.len(),
{
    if b.len() == 0 {
        assert(a + b =~= a);
        assert(shown_in(a, color) + shown_in(b, color) =~= shown_in(a, color));
    } else {
        lemma_shown_in_concat(a, b.drop_last(), color);
        assert((a + b).drop_last() =~= a + b.drop_last());
        assert(shown_in(a + b, color) =~= shown_in(a, color) + shown_in(b, color));
    }
}

/// Whatever is highlighted, the pieces of a name read as the name with its blanks and its suffix.
pub proof fn law_name_segments_read_as_the_name(
    name: Seq<char>,
    short: Seq<char>,
    left: nat,
    right: nat,
    suffix: Seq<char>,
)
    ensures
        line_text(name_segments(name, short, left, right, suffix)) == spaces(left) + name + spaces(
            right,
        ) + suffix,
{
    let a = colored_if_any(spaces(left), SERVICE_NAME_COLOR);
    let b = mark_runs(name, highlighted(name, short));
    let c = colored_if_any(spaces(right), SERVICE_NAME_COLOR);
    let d = colored_if_any(suffix, SERVICE_NAME_COLOR);
    lemma_line_text_concat(a, b);
    lemma_line_text_concat(a + b, c);
    lemma_line_text_concat(a + b + c, d);
    lemma_line_text_if_any(spaces(left), SERVICE_NAME_COLOR);
    lemma_line_text_if_any(spaces(right), SERVICE_NAME_COLOR);
    lemma_line_text_if_any(suffix, SERVICE_NAME_COLOR);
    lemma_mark_runs(name, highlighted(name, short));
}

/// What the pieces of a name show in the color of short names is the short name, where it can be
/// found in the name, and nothing where it cannot.
pub proof fn law_highlighted_text_is_the_short_name(
    name: Seq<char>,
    short: Seq<char>,
    left: nat,
    right: nat,
    suffix: Seq<char>,
)
    ensures
        shown_in(name_segments(name, short, left, right, suffix), SERVICE_SHORT_NAME_COLOR) == if placed(
            name,
            short,
        ) is Some {
            short
        } else {
            Seq::empty()
        },
{
    let color = SERVICE_SHORT_NAME_COLOR;
    let marks = highlighted(name, short);
    let a = colored_if_any(spaces(left), SERVICE_NAME_COLOR);
    let b = mark_runs(name, marks);
    let c = colored_if_any(spaces(right), SERVICE_NAME_COLOR);
    let d = colored_if_any(suffix, SERVICE_NAME_COLOR);
    lemma_shown_in_concat(a, b, color);
    lemma_shown_in_concat(a + b, c, color);
    lemma_shown_in_concat(a + b + c, d, color);
    lemma_not_shown(spaces(left));
    lemma_not_shown(spaces(right));
    lemma_not_shown(suffix);
    lemma_mark_runs(name, marks);
    if placed(name, short) is Some {
        law_marks_spell_the_short_name(name, short);
    } else {
        lemma_nothing_marked(name, marks);
    }
    assert(shown_in(a + b + c + d, color) =~= marked(name, marks));
}

proof fn lemma_not_shown(text: Seq<char>)
    ensures
        shown_in(colored_if_any(text, SERVICE_NAME_COLOR), SERVICE_SHORT_NAME_COLOR) == Seq::<
            char,
        >::empty(),
{
    reveal_with_fuel(shown_in, 2);
}

proof fn lemma_nothing_marked(name: Seq<char>, marks: Seq<bool>)
    requires
        forall|i: int| 0 <= i < name.len() ==> !marks[i],
    ensures
        marked(name, marks) == Seq::<char>::empty(),
    decreases name.len(),
{
    if name.len() > 0 {
        lemma_nothing_marked(name.drop_last(), marks);
    }
}

/// No piece of a name is empty, and neighbouring pieces differ in their color.
pub proof fn law_name_runs_alternate(name: Seq<char>, short: Seq<char>, i: int)
    requires
        0 <= i < mark_runs(name, highlighted(name, short)).len(),
    ensures
        mark_runs(name, highlighted(name, short))[i].text.len() > 0,
        i + 1 < mark_runs(name, highlighted(name, short)).len() ==> mark_runs(
            name,
            highlighted(name, short),
        )[i].color != mark_runs(name, highlighted(name, short))[i + 1].color,
{
    lemma_mark_runs(name, highlighted(name, short));
}

/// The prefix of a log line reads the same in its colors as without.
pub proof fn law_log_prefix_segments_read_as_the_prefix(
    name: Seq<char>,
    short: Seq<char>,
    width: nat,
)
    ensures
        line_text(log_prefix_segments(name, short, width)) == log_prefix(name, width),
{
    let left = short_of(byte_len(name), width);
    law_name_segments_read_as_the_name(name, short, left, 0, ">  "@);
    assert(spaces(left) + name + spaces(0) + ">  "@ =~= log_prefix(name, width));
}

/// The line of a service reads as its state, its name and what it uses, in columns.
pub proof fn law_service_line_reads_in_columns(
    service: SnapshotView,
    short: Seq<char>,
    name_width: nat,
)
    ensures
        line_text(service_line(service, short, name_width)) == label_column(service.state)
            + service.name + spaces(short_of(byte_len(service.name), name_width)) + " "@ + usage(
            service,
        ),
{
    let right = short_of(byte_len(service.name), name_width);
    let first = colored(label_column(service.state), color_of(service));
    let names = name_segments(service.name, short, 0, right, " "@);
    let empty = Seq::<SegmentView>::empty();
    lemma_line_text_push(seq![first] + names, colored(usage(service), Color::DarkGrey));
    lemma_line_text_concat(seq![first], names);
    assert(seq![first] =~= empty.push(first));
    lemma_line_text_push(empty, first);
    law_name_segments_read_as_the_name(service.name, short, 0, right, " "@);
    assert(line_text(service_line(service, short, name_width)) =~= label_column(service.state)
        + service.name + spaces(right) + " "@ + usage(service));
}

/// The footer fits the lines that it has.
pub proof fn law_footer_fits(
    services: Seq<SnapshotView>,
    names: ServiceNamesView,
    max_lines: nat,
    name_width: nat,
)
    requires
        max_lines > 0,
    ensures
        1 <= footer(services, names, max_lines, name_width).len() <= max_lines,
{
}

/// Where the lines are enough, each service has its own, in the order of the names.
pub proof fn law_one_line_per_service(
    services: Seq<SnapshotView>,
    names: ServiceNamesView,
    max_lines: nat,
    name_width: nat,
    i: int,
)
    requires
        0 <= i < services.len() <= max_lines,
    ensures
        footer(services, names, max_lines, name_width).len() == services.len(),
        footer(services, names, max_lines, name_width)[i] == service_line(
            services[i],
            names.short_name(services[i].name),
            name_width,
        ),
{
}

/// The cursor stands right behind the shown end of the command line, in a column that the
/// terminal has.
pub proof fn law_cursor_is_visible(buffer: Seq<char>, max_len: nat)
    requires
        max_len > 0,
    ensures
        prompt_text(buffer, max_len).len() < max_len,
        prompt_text(buffer, max_len).is_suffix_of(buffer),
{
    assert(prompt_text(buffer, max_len) =~= buffer.subrange(
        buffer.len() - prompt_text(buffer, max_len).len(),
        buffer.len() as int,
    ));
}

/// A blank takes one byte.
proof fn lemma_spaces_bytes(n: nat)
    ensures
        byte_len(spaces(n)) == n,
    decreases n,
{
    if n > 0 {
        let front = spaces((n - 1) as nat);
        lemma_spaces_bytes((n - 1) as nat);
        assert(spaces(n) =~= front.push(' '));
        lemma_byte_len_push(front, ' ');
        lemma_ascii_bytes(' ');
    } else {
        assert(spaces(n) =~= Seq::<char>::empty());
    }
}

/// A character of ASCII takes one byte.
proof fn lemma_ascii_bytes(c: char)
    requires
        c as u32 <= 127,
    ensures
        byte_len(seq![c]) == 1,
{
    assert(seq![c].drop_first() =~= Seq::<char>::empty());
    assert(vstd::utf8::encode_utf8(seq![c].drop_first()) =~= Seq::<u8>::empty());
    assert(vstd::utf8::encode_utf8(seq![c]) == vstd::utf8::encode_scalar(c as u32)
        + vstd::utf8::encode_utf8(seq![c].drop_first()));
}

/// The lines of all services begin in one column: whatever the service, its name stands right
/// before the mark that ends the prefix, with nothing but blanks before it, and the prefix is as
/// wide as the widest name and the mark.
pub proof fn law_log_lines_begin_in_one_column(name: Seq<char>, width: nat)
    ensures
        ({
            let prefix = log_prefix(name, width);
            let blanks = prefix.len() - name.len() - 3;
            &&& byte_len(prefix) == 3 + if byte_len(name) < width {
                width
            } else {
                byte_len(name)
            }
            &&& blanks >= 0
            &&& prefix.subrange(blanks, blanks + name.len()) == name
            &&& prefix.skip(blanks + name.len()) == seq!['>', ' ', ' ']
            &&& forall|i: int| 0 <= i < blanks ==> #[trigger] prefix[i] == ' '
        }),
{
    reveal_strlit(">  ");
    let n = short_of(byte_len(name), width);
    let prefix = log_prefix(name, width);
    lemma_spaces_bytes(n);
    lemma_encode_concat(spaces(n), name);
    lemma_encode_concat(spaces(n) + name, ">  "@);
    let empty = Seq::<char>::empty();
    assert(">  "@ =~= empty.push('>').push(' ').push(' '));
    lemma_byte_len_push(empty.push('>').push(' '), ' ');
    lemma_byte_len_push(empty.push('>'), ' ');
    lemma_byte_len_push(empty, '>');
    lemma_ascii_bytes(' ');
    lemma_ascii_bytes('>');
    assert(prefix.subrange(n as int, n as int + name.len()) =~= name);
    assert(prefix.skip(n as int + name.len()) =~= seq!['>', ' ', ' ']);
}

/// The states stand in a column of their own: each is shown by its name, and all take nine
/// characters. A state has one color, whatever the service: green where it is ready, red where it
/// ended by itself, grey where it was stopped, and yellow while it is not ready.
pub proof fn law_states_stand_in_their_column(service: SnapshotView)
    ensures
        label_column(service.state).len() == 9,
        service.state == ServiceState::Starting ==> label_column(service.state) == "starting "@,
        service.state == ServiceState::Running ==> label_column(service.state) == "running  "@,
        service.state == ServiceState::Stopped ==> label_column(service.state) == "stopped  "@,
        service.state == ServiceState::Exited ==> label_column(service.state) == "exited   "@,
        color_of(service) == Color::Green <==> service.state == ServiceState::Running
            && service.ready,
        color_of(service) == Color::Red <==> service.state == ServiceState::Exited,
        color_of(service) == Color::DarkGrey <==> service.state == ServiceState::Stopped,
        color_of(service) == Color::Yellow <==> service.state == ServiceState::Starting || (
        service.state == ServiceState::Running && !service.ready),
{
    reveal_strlit("starting");
    reveal_strlit("running");
    reveal_strlit("stopped");
    reveal_strlit("exited");
    reveal_strlit(" ");
    reveal_strlit("starting ");
    reveal_strlit("running  ");
    reveal_strlit("stopped  ");
    reveal_strlit("exited   ");
    let column = label_column(service.state);
    match service.state {
        ServiceState::Starting => {
            assert(column =~= "starting "@);
        },
        ServiceState::Running => {
            assert(column =~= "running  "@);
        },
        ServiceState::Stopped => {
            assert(column =~= "stopped  "@);
        },
        ServiceState::Exited => {
            assert(column =~= "exited   "@);
        },
    }
}

/// The line of a service shows its state first, in the color of the state, and ends with what it
/// uses; names that are no wider than the column leave what follows in one column.
pub proof fn law_service_lines_have_their_columns(
    service: SnapshotView,
    short: Seq<char>,
    name_width: nat,
)
    ensures
        ({
            let line = service_line(service, short, name_width);
            &&& line.len() >= 2
            &&& line[0] == (SegmentView {
                text: label_column(service.state),
                color: Some(color_of(service)),
            })
            &&& line.last().color == Some(Color::DarkGrey)
            &&& line.last().text == right_aligned(service.cpu_percent.text(), 5) + "% "@
                + memory_text(service.memory_bytes as nat)
            &&& byte_len(service.name) <= name_width ==> byte_len(
                line_text(line.drop_last()),
            ) == 9 + name_width + 1
            &&& line_text(line.drop_last()).subrange(9, 9int + service.name.len()) == service.name
        }),
{
    let line = service_line(service, short, name_width);
    let right = short_of(byte_len(service.name), name_width);
    let first = colored(label_column(service.state), color_of(service));
    let names = name_segments(service.name, short, 0, right, " "@);
    let empty = Seq::<SegmentView>::empty();
    assert(line.drop_last() =~= seq![first] + names);
    lemma_line_text_concat(seq![first], names);
    assert(seq![first] =~= empty.push(first));
    lemma_line_text_push(empty, first);
    law_name_segments_read_as_the_name(service.name, short, 0, right, " "@);
    let column = label_column(service.state);
    law_states_stand_in_their_column(service);
    let text = line_text(line.drop_last());
    assert(text =~= column + service.name + spaces(right) + " "@);
    assert(text.subrange(9, 9int + service.name.len()) =~= service.name);
    lemma_label_bytes(service.state);
    lemma_spaces_bytes(right);
    reveal_strlit(" ");
    assert(" "@ =~= seq![' ']);
    lemma_ascii_bytes(' ');
    lemma_encode_concat(column, service.name);
    lemma_encode_concat(column + service.name, spaces(right));
    lemma_encode_concat(column + service.name + spaces(right), " "@);
}

/// A text of ASCII takes a byte for each of its characters.
proof fn lemma_ascii_text_bytes(s: Seq<char>)
    requires
        forall|i: int| 0 <= i < s.len() ==> #[trigger] s[i] as u32 <= 127,
    ensures
        byte_len(s) == s.len(),
    decreases s.len(),
{
    if s.len() > 0 {
        let front = s.drop_last();
        assert forall|i: int| 0 <= i < front.len() implies #[trigger] front[i] as u32 <= 127 by {
            assert(front[i] == s[i]);
        }
        lemma_ascii_text_bytes(front);
        assert(s =~= front.push(s.last()));
        lemma_byte_len_push(front, s.last());
        assert(s[s.len() - 1] as u32 <= 127);
        lemma_ascii_bytes(s.last());
    }
}

proof fn lemma_label_bytes(state: ServiceState)
    ensures
        byte_len(label_column(state)) == label_column(state).len(),
{
    reveal_strlit("starting");
    reveal_strlit("running");
    reveal_strlit("stopped");
    reveal_strlit("exited");
    reveal_strlit(" ");
    lemma_ascii_text_bytes(label_column(state));
}

/// Where the lines are too few, all of them but the last show the first services, and the last
/// counts those that are not shown; where there are no services, the one line says so.
pub proof fn law_hidden_services_are_counted(
    services: Seq<SnapshotView>,
    names: ServiceNamesView,
    max_lines: nat,
    name_width: nat,
    i: int,
)
    requires
        max_lines > 0,
    ensures
        ({
            let lines = footer(services, names, max_lines, name_width);
            &&& services.len() > max_lines ==> {
                &&& lines.len() == max_lines
                &&& 0 <= i < max_lines - 1 ==> lines[i] == service_line(
                    services[i],
                    names.short_name(services[i].name),
                    name_width,
                )
                &&& lines.last() == seq![
                    SegmentView {
                        text: "... "@ + decimal((services.len() - (max_lines - 1)) as nat)
                            + " more service(s)"@,
                        color: Some(Color::DarkGrey),
                    },
                ]
            }
            &&& services.len() == 0 ==> lines == seq![
                seq![SegmentView { text: "no services"@, color: Some(Color::DarkGrey) }],
            ]
        }),
{
}

/// As much of the end of the command line is shown as leaves a column for the cursor.
pub proof fn law_the_end_of_the_line_is_shown(buffer: Seq<char>, max_len: nat)
    requires
        max_len > 0,
    ensures
        prompt_text(buffer, max_len).len() == if buffer.len() <= max_len - 1 {
            buffer.len() as int
        } else {
            max_len - 1
        },
        forall|i: int|
            0 <= i < prompt_text(buffer, max_len).len() ==> #[trigger] prompt_text(
                buffer,
                max_len,
            )[i] == buffer[buffer.len() - prompt_text(buffer, max_len).len() + i],
        prompt_text(buffer, 0).len() == 0,
{
}

/// The services get a row each as far as a row of output and one for the prompt are left, and one
/// row at least.
pub proof fn law_services_get_the_rows_there_are(rows: int, count: int)
    requires
        rows >= 3,
        count >= 0,
    ensures
        1 <= rows_for(rows, count) <= rows - 2,
        1 <= count <= rows - 2 ==> rows_for(rows, count) == count,
        count > rows - 2 ==> rows_for(rows, count) == rows - 2,
        count == 0 ==> rows_for(rows, count) == 1,
        COMMAND_ROW_HEIGHT == 1,
{
}

/// The characters of a name are grey, but for those that spell its short name, which stand out.
pub proof fn law_marked_characters_stand_out(name: Seq<char>, marks: Seq<bool>, i: int)
    requires
        0 <= i < mark_runs(name, marks).len(),
    ensures
        mark_runs(name, marks)[i].color == Some(Color::Magenta) || mark_runs(name, marks)[i].color
            == Some(Color::DarkGrey),
        mark_color(true) == Color::Magenta,
        mark_color(false) == Color::DarkGrey,
    decreases name.len(),
{
    if name.len() > 0 {
        let front = mark_runs(name.drop_last(), marks);
        if i < front.len() {
            law_marked_characters_stand_out(name.drop_last(), marks, i);
        }
    }
}

/// The services are listed by the order of their names, each once.
pub proof fn law_services_are_listed_by_name(services: &NameMap<ServiceSnapshot>, i: int)
    requires
        0 <= i < services.names().len(),
    ensures
        listed(services).len() == services.names().len(),
        listed(services)[i] == services@[services.names()[i]]@,
{
}

/// A piece of a line in a color.
fn segment(text: String, color: Color) -> (r: StatusSegment)
    ensures
        r@ == colored(text@, color),
{
    StatusSegment { text, color: Some(color) }
}

/// The width of the column of states: that of the longest label.
pub fn status_width() -> (r: usize)
    ensures
        r == 8,
        forall|state: ServiceState| (#[trigger] label_of(state)).len() <= r,
{
    proof {
        reveal_strlit("starting");
        reveal_strlit("running");
        reveal_strlit("stopped");
        reveal_strlit("exited");
    }
    8
}

/// What the footer calls the state of a service.
pub fn status_label(service: &ServiceSnapshot) -> (r: &'static str)
    ensures
        r@ == label_of(service.state),
{
    match service.state {
        ServiceState::Starting => "starting",
        ServiceState::Running => "running",
        ServiceState::Stopped => "stopped",
        ServiceState::Exited => "exited",
    }
}

/// The color of a service's state.
pub fn state_color(service: &ServiceSnapshot) -> (r: Color)
    ensures
        r == color_of(service@),
{
    match service.state {
        ServiceState::Running => if service.ready {
            Color::Green
        } else {
            Color::Yellow
        },
        ServiceState::Starting => Color::Yellow,
        ServiceState::Stopped => Color::DarkGrey,
        ServiceState::Exited => Color::Red,
    }
}

/// How many bytes the name is short of the width.
fn padding_for(name: &str, width: usize) -> (r: usize)
    ensures
        r == short_of(byte_len(name@), width as nat),
{
    let len = byte_len_of(name);
    if len < width {
        width - len
    } else {
        0
    }
}

/// The name of a service before a line of its output, right aligned.
pub fn format_log_prefix(service_name: &str, max_name_width: usize) -> (r: String)
    ensures
        r@ == log_prefix(service_name@, max_name_width as nat),
{
    let mut r = spaces_of(padding_for(service_name, max_name_width));
    r.append(service_name);
    r.append(">  ");
    r
}

/// The prefix of a log line in its colors.
pub fn format_log_prefix_segments(
    service_name: &str,
    short_name: &str,
    max_name_width: usize,
) -> (r: Vec<StatusSegment>)
    ensures
        views(r@) == log_prefix_segments(service_name@, short_name@, max_name_width as nat),
{
    service_name_segments(
        service_name,
        short_name,
        padding_for(service_name, max_name_width),
        0,
        ">  ",
    )
}

/// Appends the text in the color of names, if there is any.
fn push_if_any(segments: &mut Vec<StatusSegment>, text: String)
    ensures
        views(final(segments)@) == views(old(segments)@) + colored_if_any(text@, SERVICE_NAME_COLOR),
{
    let ghost before = segments@;
    if chars_of(text.as_str()).len() > 0 {
        let s = segment(text, SERVICE_NAME_COLOR);
        proof {
            lemma_views_push(before, s);
        }
        segments.push(s);
        assert(views(segments@) =~= views(before) + colored_if_any(text@, SERVICE_NAME_COLOR));
    } else {
        assert(views(before) + colored_if_any(text@, SERVICE_NAME_COLOR) =~= views(before));
    }
}

/// The name with blanks on both sides and a suffix, its short name highlighted.
pub fn service_name_segments(
    service_name: &str,
    short_name: &str,
    left_padding: usize,
    right_padding: usize,
    suffix: &str,
) -> (r: Vec<StatusSegment>)
    ensures
        views(r@) == name_segments(
            service_name@,
            short_name@,
            left_padding as nat,
            right_padding as nat,
            suffix@,
        ),
{
    let mut segments: Vec<StatusSegment> = Vec::new();
    push_if_any(&mut segments, spaces_of(left_padding));
    let ghost left = views(segments@);
    assert(left =~= colored_if_any(spaces(left_padding as nat), SERVICE_NAME_COLOR));

    let name = chars_of(service_name);
    let marks = highlighted_service_name_characters(service_name, short_name);
    let count = name.len();
    proof {
        lemma_highlighted_len(service_name@, short_name@);
    }
    let mut text = String::new();
    let mut color = SERVICE_NAME_COLOR;
    for i in 0..count
        invariant
            count == name@.len(),
            marks@.len() == count,
            i == 0 ==> text@.len() == 0 && views(segments@) == left,
            i > 0 ==> text@.len() > 0 && left + mark_runs(name@.take(i as int), marks@) == views(
                segments@,
            ).push(colored(text@, color)) && mark_runs(name@.take(i as int), marks@).len() > 0,
    {
        let ghost before = views(segments@);
        let ghost runs = mark_runs(name@.take(i as int), marks@);
        let own = if marks[i] {
            SERVICE_SHORT_NAME_COLOR
        } else {
            SERVICE_NAME_COLOR
        };
        proof {
            assert(name@.take(i + 1).drop_last() =~= name@.take(i as int));
            assert(name@.take(i + 1).last() == name@[i as int]);
            if i > 0 {
                assert((left + runs).last() == runs.last());
                assert((left + runs).last() == colored(text@, color));
            } else {
                assert(name@.take(0).len() == 0);
            }
        }
        let ghost old_text = text@;
        if i > 0 && own != color {
            let done = segment(text, color);
            proof {
                lemma_views_push(segments@, done);
            }
            segments.push(done);
            text = String::new();
        }
        color = own;
        text.push(name[i]);
        proof {
            let all = mark_runs(name@.take(i + 1), marks@);
            if i > 0 && runs.last().color == Some(own) {
                assert(all =~= runs.drop_last().push(colored(old_text.push(name@[i as int]), own)));
                assert(left + runs.drop_last() =~= (left + runs).drop_last());
                assert(before.push(colored(old_text, own)).drop_last() =~= before);
                assert(left + all =~= before.push(colored(text@, color)));
            } else {
                assert(text@ =~= seq![name@[i as int]]);
                assert(all =~= runs.push(colored(text@, own)));
                if i > 0 {
                    assert(left + all =~= (left + runs).push(colored(text@, color)));
                } else {
                    assert(left + all =~= left.push(colored(text@, color)));
                }
            }
        }
    }
    assert(name@.take(count as int) =~= name@);
    if count > 0 {
        let last = segment(text, color);
        proof {
            lemma_views_push(segments@, last);
        }
        segments.push(last);
    } else {
        assert(left + mark_runs(name@, marks@) =~= left);
    }
    push_if_any(&mut segments, spaces_of(right_padding));
    push_if_any(&mut segments, suffix.to_owned());
    segments
}

/// The first characters of a text.
pub fn truncate_ascii(value: &str, max_len: usize) -> (r: String)
    ensures
        r@ == if value@.len() < max_len {
            value@
        } else {
            value@.take(max_len as int)
        },
{
    let chars = chars_of(value);
    if chars.len() < max_len {
        assert(chars@.subrange(0, chars@.len() as int) =~= chars@);
        cut(&chars, 0, chars.len())
    } else {
        assert(chars@.subrange(0, max_len as int) =~= chars@.take(max_len as int));
        cut(&chars, 0, max_len)
    }
}

/// The visible end of the command line, and the column of the cursor.
pub fn render_command_prompt(buffer: &str, max_len: usize) -> (r: (String, usize))
    ensures
        r.0@ == prompt_text(buffer@, max_len as nat),
        r.1 == prompt_text(buffer@, max_len as nat).len(),
{
    if max_len == 0 {
        return (String::new(), 0);
    }
    let chars = chars_of(buffer);
    let visible_len = max_len - 1;
    if chars.len() <= visible_len {
        return (buffer.to_owned(), chars.len());
    }
    let start = chars.len() - visible_len;
    assert(chars@.subrange(start as int, chars@.len() as int) =~= chars@.skip(start as int));
    (cut(&chars, start, chars.len()), visible_len)
}

/// How many rows the services get in a terminal of so many rows.
pub fn service_rows_for(rows: u16, service_count: usize) -> (r: u16)
    ensures
        r == rows_for(rows as int, service_count as int),
{
    let most: u16 = if rows > 3 {
        rows - COMMAND_ROW_HEIGHT - 1
    } else {
        1
    };
    if service_count < 1 {
        1
    } else if service_count > most as usize {
        most
    } else {
        service_count as u16
    }
}

/// The line of a service.
fn line_of(service: &ServiceSnapshot, short_name: &str, name_width: usize) -> (r: StatusLine)
    ensures
        r@ == service_line(service@, short_name@, name_width as nat),
{
    let label = status_label(service);
    let width = status_width();
    let mut column = label.to_owned();
    let count = chars_of(label).len();
    column.append(spaces_of(width - count).as_str());
    column.append(" ");
    let mut segments: Vec<StatusSegment> = Vec::new();
    let first = segment(column, state_color(service));
    proof {
        lemma_views_push(segments@, first);
    }
    segments.push(first);
    let mut names = service_name_segments(
        service.name.as_str(),
        short_name,
        0,
        padding_for(service.name.as_str(), name_width),
        " ",
    );
    let ghost head = segments@;
    let ghost tail = names@;
    segments.append(&mut names);
    assert(views(segments@) =~= views(head) + views(tail));
    assert(views(head) =~= seq![colored(label_column(service.state), color_of(service@))]);
    let mut usage_text = right_align(service.cpu_percent.text_of().as_str(), 5);
    usage_text.append("% ");
    usage_text.append(format_memory(service.memory_bytes).as_str());
    let last = segment(usage_text, Color::DarkGrey);
    proof {
        lemma_views_push(segments@, last);
    }
    segments.push(last);
    StatusLine { segments }
}

/// A line in one color.
fn plain_line(text: String) -> (r: StatusLine)
    ensures
        r@ == seq![colored(text@, Color::DarkGrey)],
{
    let mut segments: Vec<StatusSegment> = Vec::new();
    segments.push(segment(text, Color::DarkGrey));
    let r = StatusLine { segments };
    assert(r@ =~= seq![colored(text@, Color::DarkGrey)]);
    r
}

/// The lines of the footer.
pub fn status_lines(
    services: &NameMap<ServiceSnapshot>,
    service_names: &ServiceNames,
    max_lines: usize,
    name_width: usize,
) -> (r: Vec<StatusLine>)
    requires
        services.wf(),
        service_names.wf(),
    ensures
        views(r@) == footer(listed(services), service_names@, max_lines as nat, name_width as nat),
{
    let mut lines: Vec<StatusLine> = Vec::new();
    let count = services.len();
    if count == 0 {
        lines.push(plain_line("no services".to_owned()));
        assert(views(lines@) =~= seq![empty_line()]);
        return lines;
    }
    let shown = if count > max_lines && max_lines > 0 {
        max_lines - 1
    } else {
        count
    };
    let ghost wanted = footer(listed(services), service_names@, max_lines as nat, name_width as nat);
    for i in 0..shown
        invariant
            services.wf(),
            service_names.wf(),
            count == services.names().len(),
            0 < count,
            shown == visible(count as nat, max_lines as nat),
            shown <= count,
            wanted == footer(
                listed(services),
                service_names@,
                max_lines as nat,
                name_width as nat,
            ),
            views(lines@) == wanted.take(i as int),
    {
        let service = services.value_at(i);
        let line = line_of(service, service_names.short_name(service.name.as_str()), name_width);
        proof {
            lemma_views_push(lines@, line);
            assert(listed(services)[i as int] == service@);
            assert(wanted[i as int] == line@);
            assert(wanted.take(i + 1) =~= wanted.take(i as int).push(line@));
        }
        lines.push(line);
    }
    if count > shown {
        let mut text = "... ".to_owned();
        text.append(decimal_of((count - shown) as u128).as_str());
        text.append(" more service(s)");
        let line = plain_line(text);
        proof {
            lemma_views_push(lines@, line);
            assert(line@ =~= overflow_line((count - shown) as nat));
        }
        lines.push(line);
    }
    assert(views(lines@) =~= wanted);
    lines
}

} // verus!
