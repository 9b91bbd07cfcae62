//! The completion of what is being typed.

use vstd::prelude::*;

use crate::attach::commands::{
    arg_kind, command_arg_kind, command_candidates, command_names,
    law_offered_commands_are_understood, SlashArgKind,
};
use crate::attach::service_names::{
    begins_with, law_candidates_resolve, lemma_filtered, ServiceNames, ServiceNamesView,
};
use crate::text::{
    all_dark, all_white, byte_len, byte_len_of, chars_of, common_prefix, common_prefix_of, cut,
    dark_run_of, is_dark, is_white, is_white_space, lemma_byte_len_take,
    lemma_common_prefix, lemma_run, lemma_run_is, run, same_text, views, white_run_of, white_space,
};

verus! {

/// What all the texts begin with, and nothing longer.
pub open spec fn shared_start(texts: Seq<Seq<char>>) -> Seq<char>
    decreases texts.len(),
{
    if texts.len() == 0 {
        Seq::empty()
    } else if texts.len() == 1 {
        texts[0]
    } else {
        let start = shared_start(texts.drop_last());
        start.take(common_prefix(start, texts.last()) as int)
    }
}

/// What the token can be completed to: the only candidate, or what all candidates begin with
/// where that is longer than the token.
pub open spec fn completion(token: Seq<char>, candidates: Seq<Seq<char>>) -> Option<Seq<char>> {
    if candidates.len() == 0 {
        None
    } else if candidates.len() == 1 {
        Some(candidates[0])
    } else if byte_len(shared_start(candidates)) > byte_len(token) {
        Some(shared_start(candidates))
    } else {
        None
    }
}

/// The commands that begin with the token.
pub open spec fn command_matches(token: Seq<char>) -> Seq<Seq<char>> {
    command_names().filter(begins_with(token))
}

/// What a line of a colon and the beginning of a command is completed to.
pub open spec fn completed_command(command: Seq<char>) -> Option<Seq<char>> {
    match arg_kind(command) {
        Some(SlashArgKind::Service) => Some(":"@ + command + " "@),
        Some(SlashArgKind::Nothing) => None,
        None => match completion(command, command_matches(command)) {
            None => None,
            Some(name) => {
                if name == command {
                    None
                } else if arg_kind(name) == Some(SlashArgKind::Service) {
                    Some(":"@ + name + " "@)
                } else {
                    Some(":"@ + name)
                }
            },
        },
    }
}

/// Whether nothing but the text itself is a candidate for it.
pub open spec fn is_settled(text: Seq<char>, names: ServiceNamesView) -> bool {
    forall|i: int|
        0 <= i < names.candidates(text).len() ==> #[trigger] names.candidates(text)[i] == text
}

/// What closes an argument: a blank once it is settled.
pub open spec fn closing(text: Seq<char>, names: ServiceNamesView) -> Seq<char> {
    if is_settled(text, names) {
        " "@
    } else {
        ""@
    }
}

/// Whether there is white space in the text.
pub open spec fn has_white(s: Seq<char>) -> bool {
    exists|i: int| 0 <= i < s.len() && white_space(#[trigger] s[i])
}

/// What a line with a command that takes a service is completed to; `rest` is what follows the
/// command.
pub open spec fn completed_argument(
    command: Seq<char>,
    rest: Seq<char>,
    names: ServiceNamesView,
) -> Option<Seq<char>> {
    let spacing = rest.take(run(rest, is_white()) as int);
    let argument = rest.skip(run(rest, is_white()) as int);
    if has_white(argument) {
        None
    } else {
        match completion(argument, names.candidates(argument)) {
            None => None,
            Some(name) => {
                if name == argument && (argument.len() == 0 || !is_settled(argument, names)) {
                    None
                } else {
                    Some(":"@ + command + spacing + name + closing(name, names))
                }
            },
        }
    }
}

/// The command of a line that begins with a colon.
pub open spec fn typed_command(buffer: Seq<char>) -> Seq<char> {
    let tail = buffer.drop_first();
    tail.take(run(tail, is_dark()) as int)
}

/// What follows the command of a line that begins with a colon.
pub open spec fn typed_rest(buffer: Seq<char>) -> Seq<char> {
    let tail = buffer.drop_first();
    tail.skip(run(tail, is_dark()) as int)
}

/// What a line is completed to.
pub open spec fn completed_line(buffer: Seq<char>, names: ServiceNamesView) -> Option<Seq<char>> {
    let command = typed_command(buffer);
    let rest = typed_rest(buffer);
    if buffer.len() == 0 || buffer[0] != ':' {
        None
    } else if rest.len() == 0 {
        completed_command(command)
    } else {
        match arg_kind(command) {
            Some(SlashArgKind::Nothing) => None,
            Some(SlashArgKind::Service) => completed_argument(command, rest, names),
            None => match completion(command, command_matches(command)) {
                None => None,
                Some(name) => {
                    if name == command || arg_kind(name) is None {
                        None
                    } else {
                        Some(":"@ + name + rest)
                    }
                },
            },
        }
    }
}

/// What the texts share begins each of them, and no longer text does.
pub proof fn law_shared_start_is_longest(texts: Seq<Seq<char>>, start: Seq<char>)
    requires
        texts.len() > 0,
    ensures
        forall|i: int| 0 <= i < texts.len() ==> shared_start(texts).is_prefix_of(#[trigger] texts[i]),
        (forall|i: int| 0 <= i < texts.len() ==> start.is_prefix_of(#[trigger] texts[i]))
            ==> start.is_prefix_of(shared_start(texts)),
    decreases texts.len(),
{
    if texts.len() == 1 {
        if forall|i: int| 0 <= i < texts.len() ==> start.is_prefix_of(#[trigger] texts[i]) {
            assert(start.is_prefix_of(texts[0]));
        }
    } else {
        let front = texts.drop_last();
        let last = texts.last();
        law_shared_start_is_longest(front, start);
        let before = shared_start(front);
        lemma_common_prefix(before, last);
        let n = common_prefix(before, last) as int;
        assert forall|i: int| 0 <= i < texts.len() implies shared_start(texts).is_prefix_of(
            #[trigger] texts[i],
        ) by {
            if i < front.len() {
                assert(front[i] == texts[i]);
                assert(before.is_prefix_of(front[i]));
                assert(before.take(n) =~= texts[i].take(n));
            }
        }
        if forall|i: int| 0 <= i < texts.len() ==> start.is_prefix_of(#[trigger] texts[i]) {
            assert forall|i: int| 0 <= i < front.len() implies start.is_prefix_of(
                #[trigger] front[i],
            ) by {
                assert(front[i] == texts[i]);
            }
            assert(texts[texts.len() - 1] == last);
            assert(start.is_prefix_of(before) && start.is_prefix_of(last));
            if start.len() > n {
                assert(start[n] == before[n] && start[n] == last[n]);
            }
            assert(start =~= before.take(n).take(start.len() as int));
        }
    }
}

/// A completion begins with the token where all candidates do.
proof fn lemma_completion_extends(token: Seq<char>, candidates: Seq<Seq<char>>)
    requires
        forall|i: int|
            0 <= i < candidates.len() ==> token.is_prefix_of(#[trigger] candidates[i]),
    ensures
        completion(token, candidates) is Some ==> token.is_prefix_of(
            completion(token, candidates)->0,
        ),
{
    if candidates.len() > 0 {
        law_shared_start_is_longest(candidates, token);
    }
}

/// The command and what follows it make up the line.
proof fn lemma_typed_parts(buffer: Seq<char>)
    requires
        buffer.len() > 0,
        buffer[0] == ':',
    ensures
        buffer == ":"@ + typed_command(buffer) + typed_rest(buffer),
{
    reveal_strlit(":");
    let tail = buffer.drop_first();
    lemma_run(tail, is_dark());
    assert(tail =~= typed_command(buffer) + typed_rest(buffer));
    assert(buffer =~= ":"@ + typed_command(buffer) + typed_rest(buffer));
}

/// Completion loses nothing of what was typed: the line grows at its end, or, where something
/// follows the beginning of a command, the command grows to one that there is and the rest stays.
pub proof fn law_completion_extends(buffer: Seq<char>, names: ServiceNamesView)
    requires
        names.wf(),
        completed_line(buffer, names) is Some,
    ensures
        buffer.is_prefix_of(completed_line(buffer, names)->0) || exists|name: Seq<char>|
            typed_rest(buffer).len() > 0 && typed_command(buffer).is_prefix_of(name) && #[trigger] arg_kind(
                name,
            ) is Some && completed_line(buffer, names)->0 == ":"@ + name + typed_rest(buffer),
{
    let command = typed_command(buffer);
    let rest = typed_rest(buffer);
    let line = completed_line(buffer, names)->0;
    lemma_typed_parts(buffer);
    lemma_filtered(command_names(), begins_with(command));
    lemma_completion_extends(command, command_matches(command));
    if rest.len() == 0 {
        assert(buffer =~= ":"@ + command);
        if arg_kind(command) is None {
            let name = completion(command, command_matches(command))->0;
            assert(command =~= name.take(command.len() as int));
            assert(buffer =~= line.take(buffer.len() as int));
        } else {
            assert(buffer =~= line.take(buffer.len() as int));
        }
    } else if arg_kind(command) is None {
        let name = completion(command, command_matches(command))->0;
        assert(arg_kind(name) is Some);
    } else {
        lemma_run(rest, is_white());
        let n = run(rest, is_white()) as int;
        let spacing = rest.take(n);
        let argument = rest.skip(n);
        assert(rest =~= spacing + argument);
        let candidates = names.candidates(argument);
        assert forall|i: int| 0 <= i < candidates.len() implies argument.is_prefix_of(
            #[trigger] candidates[i],
        ) by {
            law_candidates_resolve(names, argument, i);
        }
        lemma_completion_extends(argument, candidates);
        let name = completion(argument, candidates)->0;
        assert(argument =~= name.take(argument.len() as int));
        assert(buffer =~= line.take(buffer.len() as int));
    }
}

/// A completion of a typed name that is closed with a blank stands for a service.
pub proof fn law_settled_completion_resolves(argument: Seq<char>, names: ServiceNamesView)
    requires
        names.wf(),
        completion(argument, names.candidates(argument)) is Some,
        is_settled(completion(argument, names.candidates(argument))->0, names),
    ensures
        names.resolve(completion(argument, names.candidates(argument))->0) is Some,
{
    let candidates = names.candidates(argument);
    let name = completion(argument, candidates)->0;
    if candidates.len() == 1 {
        law_candidates_resolve(names, argument, 0);
    } else {
        law_shared_start_is_longest(candidates, name);
        let first = candidates[0];
        assert(name.is_prefix_of(first));
        let short = names.short.filter(begins_with(argument));
        let full = names.full.filter(begins_with(argument));
        lemma_filtered(names.short, begins_with(argument));
        lemma_filtered(names.full, begins_with(argument));
        lemma_filtered(names.short, begins_with(name));
        lemma_filtered(names.full, begins_with(name));
        assert(begins_with(name)(first));
        assert(names.candidates(name).len() > 0) by {
            if candidates == short {
                assert(short[0] == first);
                assert(names.short.contains(first));
                assert(names.short.filter(begins_with(name)).contains(first));
            } else {
                assert(full[0] == first);
                assert(names.full.contains(first));
                assert(names.full.filter(begins_with(name)).contains(first));
            }
        }
        assert(names.candidates(name)[0] == name);
        law_candidates_resolve(names, name, 0);
    }
}

/// Whether the word is the completion of the argument, with or without a blank behind it, in a line
/// that is otherwise as it was typed.
pub open spec fn completes(
    line: Seq<char>,
    buffer: Seq<char>,
    argument: Seq<char>,
    word: Seq<char>,
    blank: bool,
) -> bool {
    &&& argument.is_prefix_of(word)
    &&& line == buffer.take(buffer.len() - argument.len()) + word + (if blank {
        seq![' ']
    } else {
        Seq::empty()
    })
}

/// Tab behind a command that takes a service, where `argument` is the one word behind it, or
/// nothing yet. The line that comes of it is the typed one, with the argument grown to a word:
/// that is what all candidates begin with, and nothing longer is. A blank follows the word only
/// where it stands for a service and no candidate goes on behind it; where it can be typed on,
/// the line ends with the word itself.
pub proof fn law_completed_arguments_can_be_typed_on(
    buffer: Seq<char>,
    argument: Seq<char>,
    names: ServiceNamesView,
)
    requires
        names.wf(),
        is_argument_of(buffer, argument),
        completed_line(buffer, names) is Some,
    ensures
        ({
            let line = completed_line(buffer, names)->0;
            let candidates = names.candidates(argument);
            exists|word: Seq<char>, blank: bool|
                {
                    &&& #[trigger] completes(line, buffer, argument, word, blank)
                    &&& candidates.len() > 0
                    &&& forall|i: int|
                        0 <= i < candidates.len() ==> word.is_prefix_of(#[trigger] candidates[i])
                    &&& forall|longer: Seq<char>|
                        (forall|i: int|
                            0 <= i < candidates.len() ==> longer.is_prefix_of(
                                #[trigger] candidates[i],
                            )) ==> #[trigger] longer.is_prefix_of(word)
                    &&& blank ==> names.resolve(word) is Some
                    &&& blank ==> forall|i: int|
                        0 <= i < names.candidates(word).len() ==> #[trigger] names.candidates(
                            word,
                        )[i] == word
                    &&& !blank ==> exists|i: int|
                        0 <= i < names.candidates(word).len() && #[trigger] names.candidates(
                            word,
                        )[i] != word
                }
        }),
{
    reveal_strlit(":");
    reveal_strlit(" ");
    reveal_strlit("");
    let line = completed_line(buffer, names)->0;
    let command = typed_command(buffer);
    let rest = typed_rest(buffer);
    let candidates = names.candidates(argument);
    lemma_argument_parts(buffer, argument);
    let word = completion(argument, candidates)->0;
    let blank = is_settled(word, names);
    law_shared_start_is_longest(candidates, word);
    assert forall|i: int| 0 <= i < candidates.len() implies argument.is_prefix_of(
        #[trigger] candidates[i],
    ) by {
        law_candidates_resolve(names, argument, i);
    }
    lemma_completion_extends(argument, candidates);
    if candidates.len() == 1 {
        assert(shared_start(candidates) == candidates[0]);
    }
    assert(word == shared_start(candidates));
    assert forall|longer: Seq<char>|
        (forall|i: int| 0 <= i < candidates.len() ==> longer.is_prefix_of(#[trigger] candidates[i]))
            implies #[trigger] longer.is_prefix_of(word) by {
        law_shared_start_is_longest(candidates, longer);
    }
    if blank {
        law_settled_completion_resolves(argument, names);
    }
    let spacing = rest.take(run(rest, is_white()) as int);
    assert(buffer.take(buffer.len() - argument.len()) =~= ":"@ + command + spacing);
    assert(line =~= buffer.take(buffer.len() - argument.len()) + word + (if blank {
        seq![' ']
    } else {
        Seq::empty()
    }));
    assert(completes(line, buffer, argument, word, blank));
}

/// Whether the line is a command that takes a service, white space, and the argument, which holds
/// no white space.
pub open spec fn is_argument_of(buffer: Seq<char>, argument: Seq<char>) -> bool {
    exists|command: Seq<char>, spacing: Seq<char>|
        {
            &&& #[trigger] (seq![':'] + command + spacing) + argument == buffer
            &&& arg_kind(command) == Some(SlashArgKind::Service)
            &&& all_white(spacing)
            &&& spacing.len() > 0
            &&& all_dark(argument)
        }
}

/// The parts of such a line are those that completion takes it for.
proof fn lemma_argument_parts(buffer: Seq<char>, argument: Seq<char>)
    requires
        is_argument_of(buffer, argument),
    ensures
        buffer.len() > 0,
        buffer[0] == ':',
        arg_kind(typed_command(buffer)) == Some(SlashArgKind::Service),
        typed_rest(buffer).len() > 0,
        run(typed_rest(buffer), is_white()) <= typed_rest(buffer).len(),
        typed_rest(buffer).skip(run(typed_rest(buffer), is_white()) as int) == argument,
        buffer == seq![':'] + typed_command(buffer) + typed_rest(buffer),
        !has_white(argument),
{
    let (command, spacing) = choose|command: Seq<char>, spacing: Seq<char>|
        {
            &&& #[trigger] (seq![':'] + command + spacing) + argument == buffer
            &&& arg_kind(command) == Some(SlashArgKind::Service)
            &&& all_white(spacing)
            &&& spacing.len() > 0
            &&& all_dark(argument)
        };
    lemma_commands_are_dark(command);
    let tail = buffer.drop_first();
    assert(tail =~= command + spacing + argument);
    assert forall|i: int| 0 <= i < command.len() implies is_dark()(#[trigger] tail[i]) by {
        assert(tail[i] == command[i]);
    }
    assert(tail[command.len() as int] == spacing[0]);
    lemma_run_is(tail, is_dark(), command.len() as int);
    assert(typed_command(buffer) =~= command);
    let rest = typed_rest(buffer);
    assert(rest =~= spacing + argument);
    assert forall|i: int| 0 <= i < spacing.len() implies is_white()(#[trigger] rest[i]) by {
        assert(rest[i] == spacing[i]);
    }
    if argument.len() > 0 {
        assert(rest[spacing.len() as int] == argument[0]);
    }
    lemma_run_is(rest, is_white(), spacing.len() as int);
    assert(rest.skip(spacing.len() as int) =~= argument);
    assert(buffer =~= seq![':'] + command + rest);
}

/// No command holds white space.
proof fn lemma_commands_are_dark(command: Seq<char>)
    requires
        arg_kind(command) is Some,
    ensures
        all_dark(command),
{
    reveal_strlit("ra");
    reveal_strlit("restart-all");
    reveal_strlit("r");
    reveal_strlit("restart");
    reveal_strlit("stop-all");
    reveal_strlit("stop");
    reveal_strlit("start-all");
    reveal_strlit("start");
}

/// Tab completes an argument wherever something can be added: where one candidate is left, and
/// where all candidates go on in the same way.
pub proof fn law_arguments_are_completed_where_they_can_be(
    buffer: Seq<char>,
    argument: Seq<char>,
    names: ServiceNamesView,
    more: Seq<char>,
)
    requires
        names.wf(),
        is_argument_of(buffer, argument),
        names.candidates(argument).len() > 0,
        argument.is_prefix_of(more),
        more.len() > argument.len(),
        forall|i: int|
            0 <= i < names.candidates(argument).len() ==> more.is_prefix_of(
                #[trigger] names.candidates(argument)[i],
            ),
    ensures
        completed_line(buffer, names) is Some,
        (buffer.take(buffer.len() - argument.len()) + more).is_prefix_of(
            completed_line(buffer, names)->0,
        ),
{
    reveal_strlit(":");
    let candidates = names.candidates(argument);
    lemma_argument_parts(buffer, argument);
    law_shared_start_is_longest(candidates, more);
    let word = shared_start(candidates);
    assert(more.is_prefix_of(word));
    lemma_prefix_bytes(argument, word);
    if candidates.len() == 1 {
        assert(word == candidates[0]);
    }
    assert(completion(argument, candidates) == Some(word));
    let rest = typed_rest(buffer);
    let spacing = rest.take(run(rest, is_white()) as int);
    let line = completed_line(buffer, names)->0;
    assert(buffer.take(buffer.len() - argument.len()) =~= ":"@ + typed_command(buffer) + spacing);
    let start = buffer.take(buffer.len() - argument.len()) + more;
    assert(more =~= word.take(more.len() as int));
    assert(start =~= line.take(start.len() as int));
}

/// Tab completes nothing behind a command that takes no argument, and nothing behind the first
/// argument of one that does.
pub proof fn law_nothing_is_completed_behind_a_whole_line(
    command: Seq<char>,
    spacing: Seq<char>,
    more: Seq<char>,
    names: ServiceNamesView,
)
    requires
        all_white(spacing),
        spacing.len() > 0,
        arg_kind(command) == Some(SlashArgKind::Nothing) || arg_kind(command) == Some(
            SlashArgKind::Service,
        ) && more.len() > 0 && !white_space(more[0]) && has_white(more),
    ensures
        completed_line(seq![':'] + command + spacing + more, names) is None,
{
    let buffer = seq![':'] + command + spacing + more;
    lemma_commands_are_dark(command);
    let tail = buffer.drop_first();
    assert(tail =~= command + spacing + more);
    assert forall|i: int| 0 <= i < command.len() implies is_dark()(#[trigger] tail[i]) by {
        assert(tail[i] == command[i]);
    }
    assert(tail[command.len() as int] == spacing[0]);
    lemma_run_is(tail, is_dark(), command.len() as int);
    assert(typed_command(buffer) =~= command);
    let rest = typed_rest(buffer);
    assert(rest =~= spacing + more);
    if arg_kind(command) == Some(SlashArgKind::Service) {
        assert forall|i: int| 0 <= i < spacing.len() implies is_white()(#[trigger] rest[i]) by {
            assert(rest[i] == spacing[i]);
        }
        assert(rest[spacing.len() as int] == more[0]);
        lemma_run_is(rest, is_white(), spacing.len() as int);
        assert(rest.skip(spacing.len() as int) =~= more);
    }
}

/// A longer text takes more bytes.
proof fn lemma_prefix_bytes(a: Seq<char>, b: Seq<char>)
    requires
        a.is_prefix_of(b),
        a.len() < b.len(),
    ensures
        byte_len(a) < byte_len(b),
{
    assert(a =~= b.take(a.len() as int));
    lemma_byte_len_take(b, a.len() as int, b.len() as int);
    assert(b.take(b.len() as int) =~= b);
}

/// Tab behind a colon and the beginning of a word: the word grows to what all commands begin with
/// that begin so, and nothing longer is; a blank follows exactly where the word is a command that
/// takes a service.
pub proof fn law_completed_commands_can_be_typed_on(command: Seq<char>, names: ServiceNamesView)
    requires
        all_dark(command),
        completed_line(seq![':'] + command, names) is Some,
    ensures
        exists|word: Seq<char>|
            {
                &&& command.is_prefix_of(word)
                &&& completed_line(seq![':'] + command, names) == Some(
                    seq![':'] + word + (if #[trigger] arg_kind(word) == Some(SlashArgKind::Service) {
                        seq![' ']
                    } else {
                        Seq::empty()
                    }),
                )
                &&& arg_kind(command) is Some ==> word == command
                &&& arg_kind(command) is None ==> word != command && forall|other: Seq<char>|
                    #[trigger]
                    arg_kind(other) is Some && command.is_prefix_of(other) ==> word.is_prefix_of(
                        other,
                    )
                &&& arg_kind(command) is None ==> exists|other: Seq<char>| #[trigger]
                    arg_kind(other) is Some && word.is_prefix_of(other)
            },
{
    reveal_strlit(":");
    reveal_strlit(" ");
    let buffer = seq![':'] + command;
    let tail = buffer.drop_first();
    assert(tail =~= command);
    assert forall|i: int| 0 <= i < tail.len() implies is_dark()(#[trigger] tail[i]) by {
        assert(tail[i] == command[i]);
    }
    lemma_run_is(tail, is_dark(), tail.len() as int);
    assert(typed_command(buffer) =~= command);
    assert(typed_rest(buffer).len() == 0);
    let matches = command_matches(command);
    lemma_filtered(command_names(), begins_with(command));
    if arg_kind(command) is None {
        let word = completion(command, matches)->0;
        lemma_completion_extends(command, matches);
        law_shared_start_is_longest(matches, word);
        if matches.len() == 1 {
            assert(word == matches[0]);
        }
        assert(word == shared_start(matches));
        assert forall|other: Seq<char>| #[trigger]
            arg_kind(other) is Some && command.is_prefix_of(other) implies word.is_prefix_of(
            other,
        ) by {
            law_offered_commands_are_understood(other);
            assert(begins_with(command)(other));
            assert(command_names().contains(other));
            let i = matches.index_of(other);
            assert(word.is_prefix_of(matches[i]));
        }
        law_offered_commands_are_understood(matches[0]);
        assert(command_names().contains(matches[0]));
        assert(arg_kind(matches[0]) is Some && word.is_prefix_of(matches[0]));
        assert(completed_line(buffer, names)->0 =~= seq![':'] + word + (if arg_kind(word) == Some(
            SlashArgKind::Service,
        ) {
            seq![' ']
        } else {
            Seq::empty()
        }));
    } else {
        assert(completed_line(buffer, names)->0 =~= seq![':'] + command + seq![' ']);
        assert(arg_kind(command) == Some(SlashArgKind::Service));
    }
}

/// A colon, a word and what follows it, which begins with white space, are taken apart so.
proof fn lemma_typed_alone(command: Seq<char>, rest: Seq<char>)
    requires
        all_dark(command),
        rest.len() > 0 ==> white_space(rest[0]),
    ensures
        typed_command(seq![':'] + command + rest) == command,
        typed_rest(seq![':'] + command + rest) == rest,
{
    let buffer = seq![':'] + command + rest;
    let tail = buffer.drop_first();
    assert(tail =~= command + rest);
    assert forall|i: int| 0 <= i < command.len() implies is_dark()(#[trigger] tail[i]) by {
        assert(tail[i] == command[i]);
    }
    if rest.len() > 0 {
        assert(tail[command.len() as int] == rest[0]);
    }
    lemma_run_is(tail, is_dark(), command.len() as int);
    assert(typed_command(buffer) =~= command);
    assert(typed_rest(buffer) =~= rest);
}

/// The commands that begin so are those that completion looks at.
proof fn lemma_command_matches(command: Seq<char>)
    ensures
        forall|other: Seq<char>| #[trigger]
            command_matches(command).contains(other) <==> arg_kind(other) is Some
                && command.is_prefix_of(other),
{
    let matches = command_matches(command);
    lemma_filtered(command_names(), begins_with(command));
    assert forall|other: Seq<char>| #[trigger] matches.contains(other) <==> arg_kind(other) is Some
        && command.is_prefix_of(other) by {
        law_offered_commands_are_understood(other);
        if matches.contains(other) {
            let i = matches.index_of(other);
            assert(begins_with(command)(matches[i]));
            assert(command_names().contains(matches[i]));
        }
        if arg_kind(other) is Some && command.is_prefix_of(other) {
            assert(command_names().contains(other));
            assert(begins_with(command)(other));
        }
    }
}

/// Tab completes the beginning of a command wherever all commands that begin so go on in the same
/// way, as far as they do. A command that takes a service gets a blank, and one that takes nothing
/// stays as it is.
pub proof fn law_commands_are_completed_where_they_can_be(
    command: Seq<char>,
    names: ServiceNamesView,
    more: Seq<char>,
    found: Seq<char>,
)
    requires
        all_dark(command),
    ensures
        arg_kind(command) == Some(SlashArgKind::Service) ==> completed_line(
            seq![':'] + command,
            names,
        ) == Some(seq![':'] + command + seq![' ']),
        arg_kind(command) == Some(SlashArgKind::Nothing) ==> completed_line(
            seq![':'] + command,
            names,
        ) is None,
        arg_kind(command) is None && arg_kind(found) is Some && command.is_prefix_of(found)
            && command.is_prefix_of(more) && command.len() < more.len() && (forall|other: Seq<char>|
            #[trigger]
            arg_kind(other) is Some && command.is_prefix_of(other) ==> more.is_prefix_of(other))
            ==> completed_line(seq![':'] + command, names) is Some && (seq![':']
            + more).is_prefix_of(completed_line(seq![':'] + command, names)->0),
{
    reveal_strlit(":");
    reveal_strlit(" ");
    let buffer = seq![':'] + command;
    assert(buffer =~= seq![':'] + command + Seq::<char>::empty());
    lemma_typed_alone(command, Seq::empty());
    if arg_kind(command) == Some(SlashArgKind::Service) {
        assert(":"@ + command + " "@ =~= seq![':'] + command + seq![' ']);
    }
    if arg_kind(command) is None && arg_kind(found) is Some && command.is_prefix_of(found)
        && command.is_prefix_of(more) && command.len() < more.len() && (forall|other: Seq<char>|
        #[trigger]
        arg_kind(other) is Some && command.is_prefix_of(other) ==> more.is_prefix_of(other)) {
        lemma_command_matches(command);
        let matches = command_matches(command);
        assert(matches.contains(found));
        assert forall|i: int| 0 <= i < matches.len() implies more.is_prefix_of(
            #[trigger] matches[i],
        ) by {
            assert(matches.contains(matches[i]));
        }
        law_shared_start_is_longest(matches, more);
        let word = shared_start(matches);
        lemma_prefix_bytes(command, word);
        assert(completion(command, matches) == Some(word)) by {
            if matches.len() == 1 {
                assert(word == matches[0]);
            }
        }
        let line = completed_line(buffer, names)->0;
        assert(more =~= word.take(more.len() as int));
        assert(word != command);
        assert(seq![':'] + more =~= line.take(more.len() as int + 1));
    }
}

/// Where something follows the beginning of a command, tab completes the command to the one that
/// all others with this beginning begin with, and leaves what follows.
pub proof fn law_commands_are_completed_before_arguments(
    command: Seq<char>,
    rest: Seq<char>,
    names: ServiceNamesView,
    name: Seq<char>,
)
    requires
        all_dark(command),
        rest.len() > 0,
        white_space(rest[0]),
        arg_kind(command) is None,
        arg_kind(name) is Some,
        command.is_prefix_of(name),
        forall|other: Seq<char>| #[trigger]
            arg_kind(other) is Some && command.is_prefix_of(other) ==> name.is_prefix_of(other),
    ensures
        completed_line(seq![':'] + command + rest, names) == Some(seq![':'] + name + rest),
{
    reveal_strlit(":");
    let buffer = seq![':'] + command + rest;
    lemma_typed_alone(command, rest);
    lemma_command_matches(command);
    let matches = command_matches(command);
    assert(matches.contains(name));
    assert forall|i: int| 0 <= i < matches.len() implies name.is_prefix_of(#[trigger] matches[i]) by {
        assert(matches.contains(matches[i]));
    }
    law_shared_start_is_longest(matches, name);
    let word = shared_start(matches);
    let k = matches.index_of(name);
    assert(word.is_prefix_of(matches[k]));
    assert(word =~= name);
    assert(command != name);
    if command.len() == name.len() {
        assert(command =~= name);
    }
    lemma_prefix_bytes(command, name);
    assert(completion(command, matches) == Some(name)) by {
        if matches.len() == 1 {
            assert(word == matches[0]);
        }
    }
    assert(":"@ + name + rest =~= seq![':'] + name + rest);
}

/// A word that stands for a service and that nothing else begins with gets the blank that closes
/// it.
pub proof fn law_whole_arguments_are_closed(
    buffer: Seq<char>,
    argument: Seq<char>,
    names: ServiceNamesView,
)
    requires
        is_argument_of(buffer, argument),
        argument.len() > 0,
        names.candidates(argument) == seq![argument],
    ensures
        completed_line(buffer, names) == Some(buffer.push(' ')),
{
    reveal_strlit(":");
    reveal_strlit(" ");
    lemma_argument_parts(buffer, argument);
    let rest = typed_rest(buffer);
    let spacing = rest.take(run(rest, is_white()) as int);
    assert(rest =~= spacing + argument);
    assert(names.candidates(argument)[0] == argument);
    assert(":"@ + typed_command(buffer) + spacing + argument + " "@ =~= buffer.push(' '));
}

/// Completion never answers with what was typed: where nothing can be added, there is none.
pub proof fn law_completion_adds_something(buffer: Seq<char>, names: ServiceNamesView)
    ensures
        completed_line(buffer, names) != Some(buffer),
{
    reveal_strlit(":");
    reveal_strlit(" ");
    if completed_line(buffer, names) == Some(buffer) {
        let command = typed_command(buffer);
        let rest = typed_rest(buffer);
        lemma_typed_parts(buffer);
        assert(buffer =~= ":"@ + command + rest);
        if rest.len() == 0 {
            if arg_kind(command) is Some {
                assert(buffer.len() == 2 + command.len());
            } else {
                let name = completion(command, command_matches(command))->0;
                if arg_kind(name) == Some(SlashArgKind::Service) {
                    assert(buffer.len() == 2 + name.len());
                    lemma_command_matches(command);
                    lemma_commands_are_dark(name);
                    assert(buffer[buffer.len() - 1] == ' ');
                    assert(command[command.len() - 1] == ' ');
                    lemma_run(buffer.drop_first(), is_dark());
                    assert(is_dark()(buffer.drop_first()[command.len() - 1]));
                } else {
                    assert(buffer.len() == 1 + name.len());
                    assert(name =~= buffer.skip(1));
                    assert(command =~= buffer.skip(1));
                }
            }
        } else if arg_kind(command) is None {
            let name = completion(command, command_matches(command))->0;
            assert((":"@ + name + rest).len() == (":"@ + command + rest).len());
            assert(name =~= buffer.subrange(1, 1int + name.len()));
            assert(command =~= buffer.subrange(1, 1int + name.len()));
        } else {
            let spacing = rest.take(run(rest, is_white()) as int);
            let argument = rest.skip(run(rest, is_white()) as int);
            lemma_run(rest, is_white());
            assert(rest =~= spacing + argument);
            let name = completion(argument, names.candidates(argument))->0;
            let start = 1 + command.len() + spacing.len();
            let end = closing(name, names);
            assert(buffer.skip(start as int) =~= argument);
            assert(buffer.skip(start as int) =~= name + end);
            reveal_strlit("");
            assert(argument =~= name + end);
            if end.len() > 0 {
                assert(argument[argument.len() - 1] == ' ');
                assert(has_white(argument));
            } else {
                assert(name =~= argument);
            }
        }
    }
}

/// What all the texts begin with.
pub fn longest_common_prefix(candidates: &[&str]) -> (r: String)
    ensures
        r@ == shared_start(views(candidates@)),
{
    if candidates.len() == 0 {
        return String::new();
    }
    let ghost texts = views(candidates@);
    let mut start = chars_of(candidates[0]);
    assert(texts.take(1) == seq![texts[0]]);
    for i in 1..candidates.len()
        invariant
            texts == views(candidates@),
            start@ == shared_start(texts.take(i as int)),
    {
        let next = chars_of(candidates[i]);
        let n = common_prefix_of(&start, &next);
        proof {
            assert(texts.take(i + 1).drop_last() == texts.take(i as int));
            assert(texts.take(i + 1).last() == next@);
            lemma_common_prefix(start@, next@);
        }
        start.truncate(n);
    }
    assert(texts.take(texts.len() as int) == texts);
    crate::text::string_of(start.as_slice())
}

/// What the token can be completed to.
pub fn complete_token(token: &str, candidates: &Vec<&str>) -> (r: Option<String>)
    ensures
        match r {
            Some(text) => completion(token@, views(candidates@)) == Some(text@),
            None => completion(token@, views(candidates@)) is None,
        },
{
    assert(views(candidates@).len() == candidates@.len());
    if candidates.len() == 0 {
        return None;
    }
    if candidates.len() == 1 {
        return Some(candidates[0].to_owned());
    }
    let prefix = longest_common_prefix(candidates.as_slice());
    if byte_len_of(prefix.as_str()) > byte_len_of(token) {
        Some(prefix)
    } else {
        None
    }
}

/// A colon, the command and what follows it.
fn line_of(command: &str, rest: &str) -> (r: String)
    ensures
        r@ == ":"@ + command@ + rest@,
{
    let mut r = ":".to_owned();
    r.append(command);
    r.append(rest);
    r
}

/// What a line of a colon and the beginning of a command is completed to.
pub fn autocomplete_command_only(command: &str) -> (r: Option<String>)
    ensures
        match r {
            Some(text) => completed_command(command@) == Some(text@),
            None => completed_command(command@) is None,
        },
{
    match command_arg_kind(command) {
        Some(SlashArgKind::Service) => {
            return Some(line_of(command, " "));
        },
        Some(SlashArgKind::Nothing) => {
            return None;
        },
        None => {},
    }
    match complete_token(command, &command_candidates(command)) {
        None => None,
        Some(name) => {
            if same_text(name.as_str(), command) {
                None
            } else if command_arg_kind(name.as_str()) == Some(SlashArgKind::Service) {
                Some(line_of(name.as_str(), " "))
            } else {
                let mut r = ":".to_owned();
                r.append(name.as_str());
                Some(r)
            }
        },
    }
}

/// Whether nothing but the text itself is a candidate for it.
fn settled(text: &str, service_names: &ServiceNames) -> (r: bool)
    requires
        service_names.wf(),
    ensures
        r == is_settled(text@, service_names@),
{
    let candidates = service_names.candidates(text);
    let ghost texts = service_names@.candidates(text@);
    for i in 0..candidates.len()
        invariant
            texts == service_names@.candidates(text@),
            views(candidates@) == texts,
            forall|j: int| 0 <= j < i ==> #[trigger] texts[j] == text@,
    {
        assert(texts[i as int] == candidates@[i as int]@);
        if !same_text(candidates[i], text) {
            return false;
        }
    }
    true
}

/// What a line with a command that takes a service is completed to.
pub fn autocomplete_service_argument(
    command: &str,
    rest: &str,
    service_names: &ServiceNames,
) -> (r: Option<String>)
    requires
        service_names.wf(),
    ensures
        match r {
            Some(text) => completed_argument(command@, rest@, service_names@) == Some(text@),
            None => completed_argument(command@, rest@, service_names@) is None,
        },
{
    let chars = chars_of(rest);
    assert(chars@.skip(0) == chars@);
    let n = white_run_of(&chars, 0);
    let spacing = cut(&chars, 0, n);
    let argument = cut(&chars, n, chars.len());
    proof {
        assert(spacing@ == rest@.take(n as int));
        assert(argument@ == rest@.skip(n as int));
    }
    for i in n..chars.len()
        invariant
            n <= chars@.len(),
            argument@ == chars@.skip(n as int),
            forall|j: int| 0 <= j < i - n ==> !white_space(#[trigger] argument@[j]),
            has_white(argument@) ==> completed_argument(command@, rest@, service_names@) is None,
    {
        if is_white_space(chars[i]) {
            assert(white_space(argument@[i - n]));
            return None;
        }
    }
    match complete_token(argument.as_str(), &service_names.candidates(argument.as_str())) {
        None => None,
        Some(name) => {
            let is_settled = settled(name.as_str(), service_names);
            if same_text(name.as_str(), argument.as_str()) && (argument.as_str().is_empty()
                || !is_settled) {
                return None;
            }
            let mut r = line_of(command, spacing.as_str());
            r.append(name.as_str());
            if is_settled {
                r.append(" ");
            } else {
                r.append("");
            }
            Some(r)
        },
    }
}

/// What a line is completed to.
pub fn autocomplete_colon_input(buffer: &str, service_names: &ServiceNames) -> (r: Option<String>)
    requires
        service_names.wf(),
    ensures
        match r {
            Some(text) => completed_line(buffer@, service_names@) == Some(text@),
            None => completed_line(buffer@, service_names@) is None,
        },
{
    let line = chars_of(buffer);
    if line.len() == 0 || line[0] != ':' {
        return None;
    }
    assert(line@.skip(1) == buffer@.drop_first());
    let n = dark_run_of(&line, 1);
    let command = cut(&line, 1, 1 + n);
    let rest = cut(&line, 1 + n, line.len());
    proof {
        assert(command@ == typed_command(buffer@));
        assert(rest@ == typed_rest(buffer@));
    }
    if rest.as_str().is_empty() {
        return autocomplete_command_only(command.as_str());
    }
    match command_arg_kind(command.as_str()) {
        Some(SlashArgKind::Nothing) => None,
        Some(SlashArgKind::Service) => autocomplete_service_argument(
            command.as_str(),
            rest.as_str(),
            service_names,
        ),
        None => match complete_token(
            command.as_str(),
            &command_candidates(command.as_str()),
        ) {
            None => None,
            Some(name) => {
                if same_text(name.as_str(), command.as_str()) || command_arg_kind(
                    name.as_str(),
                ).is_none() {
                    None
                } else {
                    Some(line_of(name.as_str(), rest.as_str()))
                }
            },
        },
    }
}

} // verus!
