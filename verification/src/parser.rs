//! From a command line to the commands that it names.
use crate::text;
use vstd::prelude::*;

verus! {

/// Why a command line has no meaning.
#[derive(Debug, Clone, Copy, PartialEq, Eq, Structural)]
pub enum ParseError {
    /// A part of the line names no command.
    NoCommand,
}

impl ParseError {
    /// The error in words.
    pub fn text(&self) -> (r: &'static str)
        ensures
            r@ == "コマンドがありません"@,
    {
        match *self {
            ParseError::NoCommand => "コマンドがありません",
        }
    }
}

/// The commands of a line, each with its name and its arguments, or why there are none.
pub type CmdResult<'a> = Result<Vec<(&'a str, Vec<&'a str>)>, ParseError>;

/// The regular expression at whose matches a line falls into the parts of a pipeline.
const PIPE: &'static str = "(\\|)";

/// The word that sends a command's output to a file.
const REDIRECT: &'static str = ">";

/// A command: its name and its arguments.
pub type CommandView = (Seq<char>, Seq<Seq<char>>);

/// The texts of a command.
pub open spec fn command(c: (&str, Vec<&str>)) -> CommandView {
    (c.0@, text::texts(c.1@))
}

/// The texts of a list of commands.
pub open spec fn commands(cmds: Seq<(&str, Vec<&str>)>) -> Seq<CommandView> {
    cmds.map_values(|c: (&str, Vec<&str>)| command(c))
}

/// The words cut into runs: a new run begins at the first word and at every later `>`.
pub open spec fn runs(words: Seq<Seq<char>>) -> Seq<Seq<Seq<char>>>
    decreases words.len(),
{
    if words.len() <= 1 {
        seq![words]
    } else {
        let before = runs(words.drop_last());
        if words.last() == ">"@ {
            before.push(seq![words.last()])
        } else {
            before.drop_last().push(before.last().push(words.last()))
        }
    }
}

/// The command that a run of words stands for: named by the first word, with all the words
/// as its arguments.
pub open spec fn run_command(run: Seq<Seq<char>>) -> CommandView {
    (run.first(), run)
}

/// The words of one part of a pipeline.
pub open spec fn words(part: Seq<char>) -> Seq<Seq<char>> {
    text::pieces(text::trimmed(part), ' ')
}

/// The commands of one part of a pipeline. A word that stands alone is a command without
/// arguments, not even its own name; otherwise every run of words is a command.
pub open spec fn part_commands(part: Seq<char>) -> Seq<CommandView> {
    let words = words(part);
    if words.len() == 1 {
        seq![(words[0], Seq::empty())]
    } else {
        runs(words).map_values(|run: Seq<Seq<char>>| run_command(run))
    }
}

/// The commands of a line: those of the parts between its `|`, in order.
pub open spec fn line_commands(line: Seq<char>) -> Seq<CommandView> {
    text::pieces(line, '|').map_values(|part: Seq<char>| part_commands(part)).flatten()
}

/// `Regex::new` and `Regex::split` of the crate `regex`, for the one expression whose only
/// match is the character `|`. The expression compiles, and `split` hands out the pieces of
/// the line between the occurrences of that character, in order, the empty ones too.
#[verifier::external_body]
fn regex_split<'a>(pattern: &str, line: &'a str) -> (parts: Vec<&'a str>)
    requires
        pattern@ == "(\\|)"@,
    ensures
        text::texts(parts@) == text::pieces(line@, '|'),
{
    regex::Regex::new(pattern).unwrap().split(line).collect()
}

proof fn lemma_pieces_nonempty(s: Seq<char>, sep: char)
    ensures
        text::pieces(s, sep).len() >= 1,
{
}

proof fn lemma_runs_nonempty(words: Seq<Seq<char>>)
    requires
        words.len() >= 1,
    ensures
        runs(words).len() >= 1,
        runs(words).last().len() >= 1,
        forall|i: int| 0 <= i < runs(words).len() ==> (#[trigger] runs(words)[i]).len() >= 1,
    decreases words.len(),
{
    if words.len() > 1 {
        lemma_runs_nonempty(words.drop_last());
    }
}

/// Every line names at least one command.
pub proof fn lemma_line_commands_nonempty(line: Seq<char>)
    ensures
        line_commands(line).len() >= 1,
{
    let parts = text::pieces(line, '|');
    let each = parts.map_values(|part: Seq<char>| part_commands(part));
    lemma_pieces_nonempty(line, '|');
    let words = words(parts[0]);
    lemma_pieces_nonempty(text::trimmed(parts[0]), ' ');
    lemma_runs_nonempty(words);
    assert(each[0] == part_commands(parts[0]));
    assert(each[0].len() >= 1);
    assert(each.flatten() == each.first() + each.drop_first().flatten());
}

/// The commands of one part of a pipeline, behind those of the parts before it.
fn parse_part<'a>(part: &'a str, cmds: &mut Vec<(&'a str, Vec<&'a str>)>) -> (r: Result<
    (),
    ParseError,
>)
    ensures
        r is Ok,
        commands(final(cmds)@) == commands(old(cmds)@) + part_commands(part@),
{
    let words = text::split(text::trim(part), ' ');
    let ghost all = text::texts(words@);
    proof {
        lemma_pieces_nonempty(text::trimmed(part@), ' ');
        assert(all.len() == words@.len());
    }
    if words.len() == 0 {
        return Err(ParseError::NoCommand);
    }
    if words.len() == 1 {
        let only: (&'a str, Vec<&'a str>) = (words[0], Vec::new());
        assert(command(only).1 =~= Seq::<Seq<char>>::empty());
        assert(commands(cmds@.push(only)) =~= commands(cmds@) + seq![command(only)]);
        cmds.push(only);
        return Ok(());
    }
    let mut name: &'a str = words[0];
    let mut args: Vec<&'a str> = vec![name];
    let mut i: usize = 1;
    let ghost before = commands(cmds@);
    let ghost cut = |run: Seq<Seq<char>>| run_command(run);
    proof {
        assert(all.take(1) =~= seq![name@]);
        assert(text::texts(args@) =~= seq![name@]);
        assert(commands(cmds@) + seq![run_command(text::texts(args@))] =~= before + runs(
            all.take(1),
        ).map_values(cut));
    }
    while i < words.len()
        invariant
            1 <= i <= words.len(),
            all == text::texts(words@),
            cut == (|run: Seq<Seq<char>>| run_command(run)),
            args@.len() >= 1,
            name@ == text::texts(args@).first(),
            text::texts(args@) == runs(all.take(i as int)).last(),
            commands(cmds@) + seq![run_command(text::texts(args@))] == before + runs(
                all.take(i as int),
            ).map_values(cut),
        decreases words.len() - i,
    {
        let word: &'a str = words[i];
        let ghost now = all.take(i as int);
        let ghost next = all.take(i + 1);
        let ghost done = commands(cmds@);
        let ghost run = text::texts(args@);
        proof {
            assert(next.drop_last() =~= now);
            assert(next.last() == word@);
            lemma_runs_nonempty(now);
        }
        if text::same(word, REDIRECT) {
            let complete = (name, args);
            assert(commands(cmds@.push(complete)) =~= done + seq![run_command(run)]);
            cmds.push(complete);
            name = word;
            args = Vec::new();
            args.push(word);
            proof {
                assert(text::texts(args@) =~= seq![word@]);
                assert(runs(next).map_values(cut) =~= runs(now).map_values(cut).push(
                    run_command(seq![word@]),
                ));
                assert(commands(cmds@) + seq![run_command(seq![word@])] =~= before + runs(
                    next,
                ).map_values(cut));
            }
        } else {
            args.push(word);
            proof {
                assert(text::texts(args@) =~= run.push(word@));
                let longer = run_command(run.push(word@));
                assert(runs(next).map_values(cut) =~= runs(now).map_values(cut).drop_last().push(
                    longer,
                ));
                assert((done + seq![run_command(run)]).drop_last() =~= done);
                assert((before + runs(now).map_values(cut)).drop_last() =~= before + runs(
                    now,
                ).map_values(cut).drop_last());
                assert(done + seq![longer] =~= before + runs(next).map_values(cut));
            }
        }
        i = i + 1;
    }
    let last = (name, args);
    proof {
        assert(all.take(i as int) =~= all);
        assert(commands(cmds@.push(last)) =~= commands(cmds@) + seq![command(last)]);
    }
    cmds.push(last);
    Ok(())
}

/// The commands that a line names. Every line names some: a blank part of it names the
/// command with the empty name.
pub fn parse_cmd<'a>(line: &'a str) -> (r: CmdResult<'a>)
    ensures
        r is Ok,
        commands(r->Ok_0@) == line_commands(line@),
        r->Ok_0@.len() >= 1,
{
    let mut cmds: Vec<(&'a str, Vec<&'a str>)> = Vec::new();
    let parts = regex_split(PIPE, line);
    let ghost each = |part: Seq<char>| part_commands(part);
    let ghost all = text::texts(parts@).map_values(each);
    let mut i: usize = 0;
    proof {
        assert(all.take(0) =~= Seq::empty());
        assert(commands(cmds@) =~= all.take(0).flatten());
    }
    while i < parts.len()
        invariant
            i <= parts.len(),
            each == (|part: Seq<char>| part_commands(part)),
            all == text::texts(parts@).map_values(each),
            commands(cmds@) == all.take(i as int).flatten(),
        decreases parts.len() - i,
    {
        proof {
            let next = all.take(i + 1);
            assert(next.drop_last() =~= all.take(i as int));
            assert(next.last() == part_commands(parts@[i as int]@));
            next.lemma_flatten_and_flatten_alt_are_equivalent();
            all.take(i as int).lemma_flatten_and_flatten_alt_are_equivalent();
        }
        match parse_part(parts[i], &mut cmds) {
            Ok(()) => {},
            Err(e) => {
                return Err(e);
            },
        }
        i = i + 1;
    }
    proof {
        assert(all.take(i as int) =~= all);
        lemma_line_commands_nonempty(line@);
        assert(commands(cmds@).len() == cmds@.len());
    }
    Ok(cmds)
}

/// Cutting words into runs loses none of them: the runs one behind the other are the words.
/// Every run but the first begins with `>`, and `>` stands nowhere else in a run.
pub proof fn law_runs(words: Seq<Seq<char>>)
    requires
        words.len() >= 1,
    ensures
        runs(words).flatten() == words,
        runs(words).len() >= 1,
        forall|i: int| 0 <= i < runs(words).len() ==> (#[trigger] runs(words)[i]).len() >= 1,
        forall|i: int| 1 <= i < runs(words).len() ==> (#[trigger] runs(words)[i]).first() == ">"@,
        forall|i: int, j: int|
            0 <= i < runs(words).len() && 1 <= j < runs(words)[i].len()
                ==> #[trigger] runs(words)[i][j] != ">"@,
    decreases words.len(),
{
    let all = runs(words);
    all.lemma_flatten_and_flatten_alt_are_equivalent();
    if words.len() == 1 {
        let none = all.drop_last();
        assert(none.flatten_alt() =~= Seq::empty());
        assert(all.last() == words);
        assert(all.flatten_alt() =~= words);
    } else {
        let before = runs(words.drop_last());
        law_runs(words.drop_last());
        before.lemma_flatten_and_flatten_alt_are_equivalent();
        if words.last() == ">"@ {
            assert(all.drop_last() =~= before);
            assert(all.flatten_alt() =~= words);
        } else {
            let complete = before.drop_last();
            assert(all.drop_last() =~= complete);
            assert(all.last() == before.last().push(words.last()));
            assert(words.drop_last() == complete.flatten_alt() + before.last());
            assert(all.flatten_alt() == complete.flatten_alt() + before.last().push(words.last()));
            assert(all.flatten_alt() =~= words.drop_last().push(words.last()));
            assert(words.drop_last().push(words.last()) =~= words);
        }
        assert forall|i: int, j: int|
            0 <= i < all.len() && 1 <= j < all[i].len() implies #[trigger] all[i][j] != ">"@ by {
            if i < before.len() && j < before[i].len() {
                assert(all[i][j] == before[i][j]);
            }
        }
        assert forall|i: int| 1 <= i < all.len() implies (#[trigger] all[i]).first() == ">"@ by {
            if i < before.len() {
                assert(before[i].first() == ">"@);
                assert(all[i].first() == before[i].first());
            }
        }
    }
}

/// Words none of which but the first is `>` are one run.
pub proof fn law_one_run(words: Seq<Seq<char>>)
    requires
        words.len() >= 1,
        forall|i: int| 1 <= i < words.len() ==> #[trigger] words[i] != ">"@,
    ensures
        runs(words) == seq![words],
    decreases words.len(),
{
    if words.len() > 1 {
        let before = words.drop_last();
        assert forall|i: int| 1 <= i < before.len() implies #[trigger] before[i] != ">"@ by {
            assert(before[i] == words[i]);
        }
        law_one_run(before);
        assert(before.push(words.last()) =~= words);
        assert(runs(words) =~= seq![words]);
    }
}

/// A pipe joins two lines: what stands before a `|` and what stands behind it name their
/// commands each for itself, whatever they are.
pub proof fn law_pipe(a: Seq<char>, b: Seq<char>)
    ensures
        line_commands(a + seq!['|'] + b) == line_commands(a) + line_commands(b),
{
    let each = |part: Seq<char>| part_commands(part);
    let front = text::pieces(a, '|');
    let back = text::pieces(b, '|');
    text::law_pieces_concat(a, b, '|');
    assert((front + back).map_values(each) =~= front.map_values(each) + back.map_values(each));
    vstd::seq_lib::lemma_flatten_concat(front.map_values(each), back.map_values(each));
}

/// The commands of a line without `|`: a word that stands alone is a command without arguments.
/// Otherwise the arguments of the commands, one behind the other, are all the words of the
/// line; every command is named by the first of its arguments; and a new command begins at
/// every `>` behind the first word, and nowhere else.
pub proof fn law_words(line: Seq<char>)
    requires
        !line.contains('|'),
    ensures
        ({
            let words = text::pieces(text::trimmed(line), ' ');
            let cmds = line_commands(line);
            if words.len() == 1 {
                cmds == seq![(words[0], Seq::<Seq<char>>::empty())]
            } else {
                &&& cmds.len() >= 1
                &&& cmds.map_values(|cmd: CommandView| cmd.1).flatten() == words
                &&& forall|i: int|
                    0 <= i < cmds.len() ==> (#[trigger] cmds[i]).1.len() >= 1 && cmds[i].0
                        == cmds[i].1[0]
                &&& forall|i: int| 1 <= i < cmds.len() ==> (#[trigger] cmds[i]).0 == ">"@
                &&& forall|i: int, j: int|
                    0 <= i < cmds.len() && 1 <= j < cmds[i].1.len()
                        ==> #[trigger] cmds[i].1[j] != ">"@
            }
        }),
{
    let words = text::pieces(text::trimmed(line), ' ');
    let cmds = line_commands(line);
    lemma_one_part(line);
    lemma_pieces_nonempty(text::trimmed(line), ' ');
    if words.len() != 1 {
        let all = runs(words);
        law_runs(words);
        assert(cmds.len() == all.len());
        assert forall|i: int| 0 <= i < cmds.len() implies #[trigger] cmds[i] == (
            all[i].first(),
            all[i],
        ) by {}
        assert(cmds.map_values(|cmd: CommandView| cmd.1) =~= all);
        assert forall|i: int, j: int|
            0 <= i < cmds.len() && 1 <= j < cmds[i].1.len() implies #[trigger] cmds[i].1[j]
            != ">"@ by {
            assert(all[i][j] != ">"@);
        }
    }
}

/// A line without `|` is one part.
proof fn lemma_one_part(line: Seq<char>)
    requires
        !line.contains('|'),
    ensures
        line_commands(line) == part_commands(line),
{
    text::law_one_piece(line, '|');
    let parts = text::pieces(line, '|').map_values(|part: Seq<char>| part_commands(part));
    assert(parts =~= seq![part_commands(line)]);
    parts.lemma_flatten_one_element();
}

/// Whether words can be typed as they are: none of them holds a space or `|`, and there is no
/// white space at the two ends.
pub open spec fn is_typed(words: Seq<Seq<char>>) -> bool {
    &&& words.len() >= 1
    &&& forall|i: int|
        0 <= i < words.len() ==> !(#[trigger] words[i]).contains(' ') && !words[i].contains('|')
    &&& words[0].len() > 0 && !text::is_white_space_spec(words[0][0])
    &&& words.last().len() > 0 && !text::is_white_space_spec(words.last().last())
}

/// Words with one space between them are read as these words.
proof fn lemma_typed(words: Seq<Seq<char>>)
    requires
        is_typed(words),
    ensures
        !text::joined(words, seq![' ']).contains('|'),
        text::pieces(text::trimmed(text::joined(words, seq![' '])), ' ') == words,
{
    let line = text::joined(words, seq![' ']);
    lemma_joined_ends(words);
    text::law_trim_around(Seq::empty(), line, Seq::empty());
    assert(Seq::<char>::empty() + line + Seq::<char>::empty() =~= line);
    text::law_joined(words, ' ');
}

proof fn lemma_joined_ends(words: Seq<Seq<char>>)
    requires
        words.len() >= 1,
        forall|i: int| 0 <= i < words.len() ==> !(#[trigger] words[i]).contains('|'),
        words.last().len() > 0,
    ensures
        ({
            let line = text::joined(words, seq![' ']);
            &&& !line.contains('|')
            &&& line.len() >= 1
            &&& line.last() == words.last().last()
            &&& words[0].len() > 0 ==> line[0] == words[0][0]
        }),
    decreases words.len(),
{
    let line = text::joined(words, seq![' ']);
    if words.len() > 1 {
        let rest = words.drop_first();
        assert forall|i: int| 0 <= i < rest.len() implies !(#[trigger] rest[i]).contains('|') by {
            assert(rest[i] == words[i + 1]);
        }
        assert(rest.last() == words.last());
        lemma_joined_ends(rest);
        let tail = text::joined(rest, seq![' ']);
        assert(line == words[0] + seq![' '] + tail);
        assert(line.last() == tail.last());
        assert forall|i: int| 0 <= i < line.len() implies line[i] != '|' by {
            if i < words[0].len() {
                assert(words[0].contains(line[i]));
            } else if i > words[0].len() {
                assert(line[i] == tail[i - words[0].len() - 1]);
                assert(tail.contains(line[i]));
            }
        }
    }
}

/// A word alone is one command without arguments.
pub proof fn law_word(word: Seq<char>)
    requires
        is_typed(seq![word]),
    ensures
        line_commands(word) == seq![(word, Seq::<Seq<char>>::empty())],
{
    lemma_typed(seq![word]);
    assert(text::joined(seq![word], seq![' ']) == word);
    law_words(word);
}

/// Two words or more, none of them `>` but perhaps the first, are one command: its name is the
/// first word, and its arguments are all the words.
pub proof fn law_command(words: Seq<Seq<char>>)
    requires
        is_typed(words),
        words.len() >= 2,
        forall|i: int| 1 <= i < words.len() ==> #[trigger] words[i] != ">"@,
    ensures
        line_commands(text::joined(words, seq![' '])) == seq![(words[0], words)],
{
    let line = text::joined(words, seq![' ']);
    lemma_typed(words);
    lemma_one_part(line);
    law_one_run(words);
    assert(line_commands(line) =~= seq![(words[0], words)]);
}

/// Words with `>` and one more word behind them are two commands: the one that the words are,
/// which has all of them as its arguments, and the redirection to the file that the last word
/// names.
pub proof fn law_redirection(words: Seq<Seq<char>>, file: Seq<char>)
    requires
        is_typed(words.push(">"@).push(file)),
        words.len() >= 1,
        forall|i: int| 1 <= i < words.len() ==> #[trigger] words[i] != ">"@,
        file != ">"@,
    ensures
        line_commands(text::joined(words.push(">"@).push(file), seq![' '])) == seq![
            (words[0], words),
            (">"@, seq![">"@, file]),
        ],
{
    let opened = words.push(">"@);
    let all = opened.push(file);
    let line = text::joined(all, seq![' ']);
    lemma_typed(all);
    lemma_one_part(line);
    law_one_run(words);
    assert(opened.drop_last() =~= words);
    assert(runs(opened) =~= seq![words, seq![">"@]]);
    assert(all.drop_last() =~= opened);
    assert(runs(opened).drop_last() =~= seq![words]);
    assert(seq![">"@].push(file) =~= seq![">"@, file]);
    assert(runs(all) =~= seq![words, seq![">"@, file]]);
    assert(line_commands(line) =~= seq![(words[0], words), (">"@, seq![">"@, file])]);
}

/// The texts of commands are the characters of their names and arguments, one for each.
pub proof fn law_command_texts(cmds: Seq<(&str, Vec<&str>)>)
    ensures
        commands(cmds).len() == cmds.len(),
        forall|i: int|
            0 <= i < cmds.len() ==> (#[trigger] commands(cmds)[i]).0 == cmds[i].0@ && commands(
                cmds,
            )[i].1.len() == cmds[i].1@.len(),
        forall|i: int, j: int|
            0 <= i < cmds.len() && 0 <= j < cmds[i].1@.len() ==> #[trigger] commands(cmds)[i].1[j]
                == cmds[i].1@[j]@,
{
}

/// A command has no arguments at all, or its name as the first of them.
pub open spec fn is_named_first(cmd: CommandView) -> bool {
    cmd.1.len() == 0 || cmd.1.first() == cmd.0
}

/// Every command of a line has no arguments at all, or its name as the first of them.
pub proof fn law_named_first(line: Seq<char>)
    ensures
        forall|i: int|
            0 <= i < line_commands(line).len() ==> is_named_first(
                #[trigger] line_commands(line)[i],
            ),
{
    let parts = text::pieces(line, '|').map_values(|part: Seq<char>| part_commands(part));
    assert forall|k: int, i: int|
        0 <= k < parts.len() && 0 <= i < parts[k].len() implies is_named_first(
        #[trigger] parts[k][i],
    ) by {
        assert(parts[k] == part_commands(text::pieces(line, '|')[k]));
    }
    lemma_all_named_first(parts);
}

proof fn lemma_all_named_first(parts: Seq<Seq<CommandView>>)
    requires
        forall|k: int, i: int|
            0 <= k < parts.len() && 0 <= i < parts[k].len() ==> is_named_first(
                #[trigger] parts[k][i],
            ),
    ensures
        forall|i: int|
            0 <= i < parts.flatten().len() ==> is_named_first(#[trigger] parts.flatten()[i]),
    decreases parts.len(),
{
    if parts.len() > 0 {
        let rest = parts.drop_first();
        assert forall|k: int, i: int|
            0 <= k < rest.len() && 0 <= i < rest[k].len() implies is_named_first(
            #[trigger] rest[k][i],
        ) by {
            assert(rest[k][i] == parts[k + 1][i]);
        }
        lemma_all_named_first(rest);
        assert(parts.flatten() == parts.first() + rest.flatten());
        assert forall|i: int| 0 <= i < parts.flatten().len() implies is_named_first(
            #[trigger] parts.flatten()[i],
        ) by {
            if i < parts.first().len() {
                assert(parts.flatten()[i] == parts[0][i]);
            } else {
                assert(parts.flatten()[i] == rest.flatten()[i - parts.first().len()]);
            }
        }
    }
}

/// Whether a text is a word: not empty, and without white space and `|`.
pub open spec fn is_word(s: Seq<char>) -> bool {
    s.len() > 0 && forall|i: int|
        0 <= i < s.len() ==> !text::is_white_space_spec(#[trigger] s[i]) && s[i] != '|'
}

/// Whether a text is nothing but white space.
pub open spec fn is_blank(s: Seq<char>) -> bool {
    forall|i: int| 0 <= i < s.len() ==> text::is_white_space_spec(#[trigger] s[i])
}

/// A part of a pipeline as it is typed: its words, and the white space around them.
pub struct Part {
    pub before: Seq<char>,
    pub words: Seq<Seq<char>>,
    pub after: Seq<char>,
}

impl Part {
    /// One word or more, and nothing but white space around them.
    pub open spec fn wf(self) -> bool {
        &&& self.words.len() >= 1
        &&& forall|i: int| 0 <= i < self.words.len() ==> is_word(#[trigger] self.words[i])
        &&& is_blank(self.before)
        &&& is_blank(self.after)
    }

    /// The part in writing, with one space between its words.
    pub open spec fn text(self) -> Seq<char> {
        self.before + text::joined(self.words, seq![' ']) + self.after
    }

    /// The commands that the words stand for.
    pub open spec fn commands(self) -> Seq<CommandView> {
        if self.words.len() == 1 {
            seq![(self.words[0], Seq::empty())]
        } else {
            runs(self.words).map_values(|run: Seq<Seq<char>>| run_command(run))
        }
    }
}

/// What is typed is read: a line made of the parts of a pipeline, with `|` between them,
/// names the commands that the words of the parts stand for.
pub proof fn law_line_read_back(parts: Seq<Part>)
    requires
        parts.len() >= 1,
        forall|i: int| 0 <= i < parts.len() ==> (#[trigger] parts[i]).wf(),
    ensures
        line_commands(text::joined(parts.map_values(|part: Part| part.text()), seq!['|']))
            == parts.map_values(|part: Part| part.commands()).flatten(),
{
    let written = parts.map_values(|part: Part| part.text());
    let line = text::joined(written, seq!['|']);
    assert forall|i: int| 0 <= i < written.len() implies !(#[trigger] written[i]).contains('|') by {
        lemma_part(parts[i]);
        assert(written[i] == parts[i].text());
    }
    text::law_joined(written, '|');
    let read = text::pieces(line, '|').map_values(|part: Seq<char>| part_commands(part));
    let meant = parts.map_values(|part: Part| part.commands());
    assert forall|i: int| 0 <= i < read.len() implies read[i] == meant[i] by {
        lemma_part(parts[i]);
        assert(written[i] == parts[i].text());
    }
    assert(read =~= meant);
}

/// One part of a pipeline reads as its own words.
proof fn lemma_part(part: Part)
    requires
        part.wf(),
    ensures
        !part.text().contains('|'),
        part_commands(part.text()) == part.commands(),
{
    let core = text::joined(part.words, seq![' ']);
    let s = part.text();
    lemma_joined_words(part.words);
    assert forall|i: int| 0 <= i < s.len() implies s[i] != '|' by {
        if i < part.before.len() {
            assert(s[i] == part.before[i]);
        } else if i < part.before.len() + core.len() {
            assert(s[i] == core[i - part.before.len()]);
        } else {
            assert(s[i] == part.after[i - part.before.len() - core.len()]);
        }
    }
    assert(text::trimmed(s) == core) by {
        let from = part.before.len() as int;
        let rest = s.skip(from);
        assert forall|k: int| 0 <= k < from implies text::is_white_space_spec(s[k]) by {
            assert(s[k] == part.before[k]);
        }
        text::lemma_trim_front(s, from);
        assert(rest =~= core + part.after);
        assert(rest.first() == core.first());
        assert forall|k: int| core.len() <= k < rest.len() implies text::is_white_space_spec(
            rest[k],
        ) by {
            assert(rest[k] == part.after[k - core.len()]);
        }
        text::lemma_trim_back(rest, core.len() as int);
        assert(rest.take(core.len() as int) =~= core);
    }
    assert forall|i: int| 0 <= i < part.words.len() implies !(#[trigger] part.words[i]).contains(
        ' ',
    ) by {
        let word = part.words[i];
        assert(is_word(word));
        if word.contains(' ') {
            let k = choose|k: int| 0 <= k < word.len() && word[k] == ' ';
            assert(!text::is_white_space_spec(word[k]));
        }
    }
    text::law_joined(part.words, ' ');
}

/// Words with one space between them: no `|` in them, and no white space at the ends.
proof fn lemma_joined_words(words: Seq<Seq<char>>)
    requires
        words.len() >= 1,
        forall|i: int| 0 <= i < words.len() ==> is_word(#[trigger] words[i]),
    ensures
        text::joined(words, seq![' ']).len() >= 1,
        !text::is_white_space_spec(text::joined(words, seq![' ']).first()),
        !text::is_white_space_spec(text::joined(words, seq![' ']).last()),
        forall|i: int|
            0 <= i < text::joined(words, seq![' ']).len() ==> #[trigger] text::joined(
                words,
                seq![' '],
            )[i] != '|',
    decreases words.len(),
{
    let first = words[0];
    let all = text::joined(words, seq![' ']);
    assert(is_word(first));
    assert(!text::is_white_space_spec(first[0]));
    if words.len() == 1 {
        assert(!text::is_white_space_spec(first[first.len() - 1]));
    } else {
        let rest = words.drop_first();
        assert forall|i: int| 0 <= i < rest.len() implies is_word(#[trigger] rest[i]) by {
            assert(rest[i] == words[i + 1]);
        }
        lemma_joined_words(rest);
        let tail = text::joined(rest, seq![' ']);
        assert(all == first + seq![' '] + tail);
        assert(all.first() == first[0]);
        assert(all.last() == tail.last());
        assert forall|i: int| 0 <= i < all.len() implies #[trigger] all[i] != '|' by {
            if i < first.len() {
                assert(all[i] == first[i]);
            } else if i > first.len() {
                assert(all[i] == tail[i - first.len() - 1]);
            }
        }
    }
}

} // verus!
