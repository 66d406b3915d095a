//! Running an agent.

use crate::config::AgentConfig;
use crate::text::{
    begins, each_part_stands_in_the_join, join, joined, lemma_split_nonempty, occurs, pieces, split,
    to_chars, views,
};
use vstd::prelude::*;

verus! {

/// Whether a word of a command has to be quoted to stay one word.
pub open spec fn needs_quotes(word: Seq<char>) -> bool {
    word.len() == 0 || word.contains(' ') || word.contains('"') || word.contains('\'')
}

/// A word of a command as it is shown: quoted where it has to be. A quote in
/// it ends the quotes, stands by itself, and starts them again.
pub open spec fn shown_word(word: Seq<char>) -> Seq<char> {
    if needs_quotes(word) {
        "'"@ + join(split(word, '\''), "'\\''"@) + "'"@
    } else {
        word
    }
}

fn has_char(v: &Vec<char>, c: char) -> (r: bool)
    ensures
        r == v@.contains(c),
{
    let mut i: usize = 0;
    while i < v.len()
        invariant
            i <= v@.len(),
            forall|k: int| 0 <= k < i ==> v@[k] != c,
        decreases v.len() - i,
    {
        if v[i] == c {
            return true;
        }
        i += 1;
    }
    false
}

fn quoted(word: &str) -> (r: String)
    ensures
        r@ == shown_word(word@),
{
    let v = to_chars(word);
    if v.len() == 0 || has_char(&v, ' ') || has_char(&v, '"') || has_char(&v, '\'') {
        let parts = pieces(word, '\'');
        let inner = joined(&parts, "'\\''");
        let mut r = "'".to_owned();
        r.append(inner.as_str());
        r.append("'");
        r
    } else {
        word.to_owned()
    }
}

/// The words of a command: what is run, its arguments, and more of them.
pub open spec fn command_words(agent: AgentConfig, extra: Seq<Seq<char>>) -> Seq<Seq<char>> {
    seq![agent.command@] + views(agent.args@) + extra
}

/// Words as they are shown.
pub open spec fn shown_words(words: Seq<Seq<char>>) -> Seq<Seq<char>> {
    Seq::new(words.len(), |i: int| shown_word(words[i]))
}

fn push_words(out: &mut Vec<String>, words: &Vec<String>)
    ensures
        views(final(out)@) == views(old(out)@) + shown_words(views(words@)),
{
    let ghost was = views(out@);
    let ghost all = shown_words(views(words@));
    let mut i: usize = 0;
    assert(views(out@) =~= was + all.take(0));
    while i < words.len()
        invariant
            i <= words@.len(),
            all == shown_words(views(words@)),
            views(out@) == was + all.take(i as int),
        decreases words.len() - i,
    {
        let ghost before = views(out@);
        assert(views(words@)[i as int] == words@[i as int]@);
        out.push(quoted(words[i].as_str()));
        assert(views(out@) =~= before.push(all[i as int]));
        assert(views(out@) =~= was + all.take(i + 1));
        i += 1;
    }
    assert(all.take(all.len() as int) =~= all);
}

/// The command that would be run, on one line.
pub fn agent_command_line(agent: &AgentConfig, extra_args: &Vec<String>) -> (line: String)
    ensures
        line@ == join(shown_words(command_words(*agent, views(extra_args@))), " "@),
{
    let mut out: Vec<String> = Vec::new();
    out.push(quoted(agent.command.as_str()));
    assert(views(out@) =~= seq![shown_word(agent.command@)]);
    push_words(&mut out, &agent.args);
    push_words(&mut out, extra_args);
    assert(views(out@) =~= shown_words(command_words(*agent, views(extra_args@))));
    joined(&out, " ")
}

/// Where the shell is in a word.
#[derive(Clone, Copy, Debug, PartialEq, Eq, Structural)]
pub enum Reading {
    Bare,
    /// Between quotes.
    Quoted,
    /// Behind a backslash.
    Escaped,
}

/// What the shell has made of a text so far, and where it is. Between quotes
/// every character stands for itself, and so does one behind a backslash.
pub open spec fn shell_reads(s: Seq<char>) -> (Seq<char>, Reading)
    decreases s.len(),
{
    if s.len() == 0 {
        (Seq::empty(), Reading::Bare)
    } else {
        let before = shell_reads(s.drop_last());
        let c = s.last();
        match before.1 {
            Reading::Bare => if c == '\'' {
                (before.0, Reading::Quoted)
            } else if c == '\\' {
                (before.0, Reading::Escaped)
            } else {
                (before.0.push(c), Reading::Bare)
            },
            Reading::Quoted => if c == '\'' {
                (before.0, Reading::Bare)
            } else {
                (before.0.push(c), Reading::Quoted)
            },
            Reading::Escaped => (before.0.push(c), Reading::Bare),
        }
    }
}

proof fn lemma_join_split_step(word: Seq<char>, c: char, sep: Seq<char>)
    ensures
        join(split(word.push(c), '\''), sep) == (if c == '\'' {
            join(split(word, '\''), sep) + sep
        } else {
            join(split(word, '\''), sep).push(c)
        }),
{
    let longer = word.push(c);
    assert(longer.drop_last() =~= word);
    lemma_split_nonempty(word, '\'');
    let before = split(word, '\'');
    let after = split(longer, '\'');
    if c == '\'' {
        assert(after.drop_last() =~= before);
        assert(after.last() =~= Seq::<char>::empty());
        assert(join(after, sep) =~= join(before, sep) + sep);
    } else {
        assert(after.drop_last() =~= before.drop_last());
        assert(after.last() =~= before.last().push(c));
        if before.len() == 1 {
            assert(join(after, sep) =~= join(before, sep).push(c));
        } else {
            assert(join(after, sep) =~= join(before, sep).push(c));
        }
    }
}

proof fn lemma_reads_quoted(word: Seq<char>)
    ensures
        shell_reads("'"@ + join(split(word, '\''), "'\\''"@)) == (word, Reading::Quoted),
    decreases word.len(),
{
    reveal_strlit("'");
    reveal_strlit("'\\''");
    let sep = "'\\''"@;
    if word.len() == 0 {
        reveal_with_fuel(shell_reads, 2);
        assert(join(split(word, '\''), sep) =~= Seq::<char>::empty());
        let s = "'"@ + join(split(word, '\''), sep);
        assert(s =~= seq!['\'']);
        assert(s.drop_last() =~= Seq::<char>::empty());
        assert(shell_reads(s).0 =~= word);
    } else {
        let rest = word.drop_last();
        let c = word.last();
        assert(word =~= rest.push(c));
        lemma_reads_quoted(rest);
        lemma_join_split_step(rest, c, sep);
        let before = "'"@ + join(split(rest, '\''), sep);
        let after = "'"@ + join(split(word, '\''), sep);
        if c == '\'' {
            let one = before.push('\'');
            let two = one.push('\\');
            let three = two.push('\'');
            let four = three.push('\'');
            assert(after =~= four);
            assert(one.drop_last() =~= before);
            assert(two.drop_last() =~= one);
            assert(three.drop_last() =~= two);
            assert(four.drop_last() =~= three);
            assert(shell_reads(one) == (rest, Reading::Bare));
            assert(shell_reads(two) == (rest, Reading::Escaped));
            assert(shell_reads(three) == (rest.push('\''), Reading::Bare));
        } else {
            assert(after =~= before.push(c));
            assert(before.push(c).drop_last() =~= before);
        }
    }
}

proof fn lemma_reads_bare(word: Seq<char>)
    requires
        !word.contains('\''),
        !word.contains('\\'),
    ensures
        shell_reads(word) == (word, Reading::Bare),
    decreases word.len(),
{
    if word.len() > 0 {
        let rest = word.drop_last();
        assert forall|i: int| 0 <= i < rest.len() implies rest[i] != '\'' && rest[i] != '\\' by {
            assert(rest[i] == word[i]);
        }
        lemma_reads_bare(rest);
        assert(word[word.len() - 1] != '\'' && word[word.len() - 1] != '\\');
        assert(word =~= rest.push(word.last()));
    } else {
        assert(shell_reads(word).0 =~= word);
    }
}

/// The shell reads a word as it is shown as the word itself, and is then out of
/// quotes. A word that is shown without quotes must hold no backslash, which
/// the shell would take for its own.
pub proof fn a_shown_word_reads_back(word: Seq<char>)
    requires
        needs_quotes(word) || !word.contains('\\'),
    ensures
        shell_reads(shown_word(word)) == (word, Reading::Bare),
{
    if needs_quotes(word) {
        lemma_reads_quoted(word);
        reveal_strlit("'");
        let before = "'"@ + join(split(word, '\''), "'\\''"@);
        let whole = shown_word(word);
        assert(whole =~= before.push('\''));
        assert(before.push('\'').drop_last() =~= before);
    } else {
        lemma_reads_bare(word);
    }
}

/// A command has all of its words, in their order: what is run, the agent's
/// arguments, and those that are given with it. Each is shown on the line, a
/// space before every one but the first.
pub proof fn a_command_has_all_of_its_words(agent: AgentConfig, extra: Seq<Seq<char>>)
    ensures
        ({
            let words = command_words(agent, extra);
            let line = join(shown_words(words), " "@);
            &&& words.len() == 1 + agent.args@.len() + extra.len()
            &&& words[0] == agent.command@
            &&& begins(line, shown_word(agent.command@))
            &&& forall|i: int|
                0 <= i < agent.args@.len() ==> words[1 + i] == (#[trigger] agent.args@[i])@
                    && occurs(line, " "@ + shown_word(agent.args@[i]@))
            &&& forall|i: int|
                0 <= i < extra.len() ==> words[1 + agent.args@.len() + i] == #[trigger] extra[i]
                    && occurs(line, " "@ + shown_word(extra[i]))
        }),
{
    let words = command_words(agent, extra);
    let shown = shown_words(words);
    let line = join(shown, " "@);
    each_part_stands_in_the_join(shown, " "@, 0);
    assert forall|i: int| 0 <= i < agent.args@.len() implies words[1 + i] == (
    #[trigger] agent.args@[i])@ && occurs(line, " "@ + shown_word(agent.args@[i]@)) by {
        assert(views(agent.args@)[i] == agent.args@[i]@);
        each_part_stands_in_the_join(shown, " "@, 1 + i);
    }
    assert forall|i: int| 0 <= i < extra.len() implies words[1 + agent.args@.len() + i]
        == #[trigger] extra[i] && occurs(line, " "@ + shown_word(extra[i])) by {
        each_part_stands_in_the_join(shown, " "@, 1 + agent.args@.len() + i);
    }
}

/// A word is quoted exactly where it has to be: where it is empty, or holds a
/// space or a quote. Any other is shown as it is.
pub proof fn words_are_quoted_where_they_must_be(word: Seq<char>)
    ensures
        ({
            let must = word.len() == 0 || exists|i: int|
                0 <= i < word.len() && (#[trigger] word[i] == ' ' || word[i] == '"' || word[i]
                    == '\'');
            &&& must ==> shown_word(word).len() >= 2 && shown_word(word)[0] == '\''
                && shown_word(word).last() == '\''
            &&& !must ==> shown_word(word) == word
        }),
{
    reveal_strlit("'");
    if exists|i: int|
        0 <= i < word.len() && (#[trigger] word[i] == ' ' || word[i] == '"' || word[i] == '\'') {
        let i = choose|i: int|
            0 <= i < word.len() && (#[trigger] word[i] == ' ' || word[i] == '"' || word[i] == '\'');
        assert(word.contains(word[i]));
    }
    if needs_quotes(word) && word.len() > 0 {
        assert forall|c: char| #[trigger] word.contains(c) implies exists|i: int|
            0 <= i < word.len() && word[i] == c by {}
        if word.contains(' ') {
            let i = choose|i: int| 0 <= i < word.len() && word[i] == ' ';
            assert(word[i] == ' ');
        } else if word.contains('"') {
            let i = choose|i: int| 0 <= i < word.len() && word[i] == '"';
            assert(word[i] == '"');
        } else {
            let i = choose|i: int| 0 <= i < word.len() && word[i] == '\'';
            assert(word[i] == '\'');
        }
    }
}

} // verus!
