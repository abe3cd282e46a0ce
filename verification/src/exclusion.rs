//! Exclusion rules: what a rule file says, and which paths the rules
//! gathered so far leave out.
//!
//! Every line of a rule file that is neither empty nor a comment names one
//! path below the directory that holds the file. There are no patterns, no
//! negation and no directory markers: a path is left out when it is the path
//! that some rule names.

use vstd::prelude::*;
use crate::path::{
    is_within, joined, lemma_joined_is_within, same_characters, same_path_spec, SEPARATOR,
};
use crate::text::{characters, split, split_ranges, texts};

verus! {

/// The character that ends a line.
pub const NEWLINE: char = '\n';

/// The character that may stand before the end of a line.
pub const CARRIAGE_RETURN: char = '\r';

/// The character that begins a comment line.
pub const COMMENT: char = '#';

/// The name of the file that holds a directory's rules.
pub open spec fn rule_file_name() -> Seq<char> {
    ".gitignore"@
}

/// A line without the carriage return that ended it, if one did.
pub open spec fn without_return(line: Seq<char>) -> Seq<char> {
    if line.len() > 0 && line.last() == CARRIAGE_RETURN {
        line.drop_last()
    } else {
        line
    }
}

/// The lines of a text. A line ends at a newline, or at a carriage return
/// followed by one; what follows the last newline is a line if it is not
/// empty, and keeps a carriage return at its end.
pub open spec fn lines(text: Seq<char>) -> Seq<Seq<char>> {
    let pieces = split(text, NEWLINE);
    let ended = pieces.drop_last().map_values(|piece: Seq<char>| without_return(piece));
    if pieces.last().len() > 0 {
        ended.push(pieces.last())
    } else {
        ended
    }
}

/// Whether a line of a rule file states a rule.
pub open spec fn is_rule(line: Seq<char>) -> bool {
    line.len() > 0 && line[0] != COMMENT
}

/// The path that a rule line names in a rule file of `directory`: the line,
/// without a separator at its start, below the directory.
pub open spec fn rule_path(directory: Seq<char>, line: Seq<char>) -> Seq<char>
    recommends
        is_rule(line),
{
    joined(
        directory,
        if line[0] == SEPARATOR {
            line.drop_first()
        } else {
            line
        },
    )
}

/// The rules that the given lines state, in their order.
pub open spec fn rules_from(directory: Seq<char>, lines: Seq<Seq<char>>) -> Seq<Seq<char>>
    decreases lines.len(),
{
    if lines.len() == 0 {
        Seq::empty()
    } else if is_rule(lines.last()) {
        rules_from(directory, lines.drop_last()).push(rule_path(directory, lines.last()))
    } else {
        rules_from(directory, lines.drop_last())
    }
}

/// The rules of a rule file that lies in `directory` and reads `contents`.
pub open spec fn rules_of(directory: Seq<char>, contents: Seq<char>) -> Seq<Seq<char>> {
    rules_from(directory, lines(contents))
}

/// Whether some rule names `path`.
pub open spec fn excluded(path: Seq<char>, rules: Seq<Seq<char>>) -> bool {
    exists|i: int| 0 <= i < rules.len() && same_path_spec(#[trigger] rules[i], path)
}

/// A rule never reaches outside the directory of its rule file: every rule
/// names a path within that directory.
pub proof fn lemma_rules_stay_within(directory: Seq<char>, lines: Seq<Seq<char>>)
    requires
        directory.len() > 0,
    ensures
        forall|i: int|
            0 <= i < rules_from(directory, lines).len() ==> is_within(
                directory,
                #[trigger] rules_from(directory, lines)[i],
            ),
    decreases lines.len(),
{
    if lines.len() > 0 {
        lemma_rules_stay_within(directory, lines.drop_last());
        let line = lines.last();
        let before = rules_from(directory, lines.drop_last());
        if is_rule(line) {
            lemma_joined_is_within(
                directory,
                if line[0] == SEPARATOR {
                    line.drop_first()
                } else {
                    line
                },
            );
        }
        assert forall|i: int| 0 <= i < rules_from(directory, lines).len() implies is_within(
            directory,
            #[trigger] rules_from(directory, lines)[i],
        ) by {
            if i < before.len() {
                assert(rules_from(directory, lines)[i] == before[i]);
            }
        }
    }
}

/// The name of the file that holds a directory's rules.
pub fn rule_file() -> (name: String)
    ensures
        name@ == rule_file_name(),
{
    String::from_str(".gitignore")
}

/// Whether a file with the name `name` holds the rules of its directory.
pub fn is_rule_file(name: &str) -> (out: bool)
    ensures
        out == (name@ == rule_file_name()),
{
    crate::text::same_text(name, ".gitignore")
}

/// Adds to `rules` the rule of the line that spans `from..to` in `contents`,
/// if that line states one.
fn push_rule(
    rules: &mut Vec<String>,
    directory: &str,
    contents: &str,
    chars: &Vec<char>,
    from: usize,
    to: usize,
)
    requires
        chars@ == contents@,
        from <= to <= chars@.len(),
    ensures
        texts(final(rules)@) == (if is_rule(contents@.subrange(from as int, to as int)) {
            texts(old(rules)@).push(
                rule_path(directory@, contents@.subrange(from as int, to as int)),
            )
        } else {
            texts(old(rules)@)
        }),
{
    let ghost line = contents@.subrange(from as int, to as int);
    if from < to && chars[from] != COMMENT {
        let start = if chars[from] == SEPARATOR {
            from + 1
        } else {
            from
        };
        let mut rule = String::from_str(directory);
        rule.append("/");
        rule.append(contents.substring_char(start, to));
        proof {
            reveal_strlit("/");
            assert("/"@ =~= seq![SEPARATOR]);
            assert(line[0] == chars@[from as int]);
            if chars@[from as int] == SEPARATOR {
                assert(contents@.subrange(start as int, to as int) =~= line.drop_first());
            }
            assert(rule@ == rule_path(directory@, line));
        }
        rules.push(rule);
        assert(texts(rules@) =~= texts(old(rules)@).push(rule_path(directory@, line)));
    } else {
        proof {
            if from < to {
                assert(line[0] == chars@[from as int]);
            }
            assert(!is_rule(line));
        }
    }
}

/// The rules of a rule file that lies in `directory` and reads `contents`.
pub fn parse_gitignore(directory: &str, contents: &str) -> (rules: Vec<String>)
    ensures
        texts(rules@) == rules_of(directory@, contents@),
{
    let chars = characters(contents);
    let pieces = split_ranges(&chars, NEWLINE);
    let ghost all = split(contents@, NEWLINE);
    let ghost ended = all.drop_last().map_values(|piece: Seq<char>| without_return(piece));
    proof {
        crate::text::lemma_split_nonempty(contents@, NEWLINE);
    }
    let mut rules: Vec<String> = Vec::new();
    let last = pieces.len() - 1;
    let mut index: usize = 0;
    assert(texts(rules@) =~= rules_from(directory@, ended.take(0)));
    while index < last
        invariant
            index <= last,
            last + 1 == pieces@.len(),
            chars@ == contents@,
            all == split(contents@, NEWLINE),
            pieces@.len() == all.len(),
            ended == all.drop_last().map_values(|piece: Seq<char>| without_return(piece)),
            forall|i: int|
                #![trigger pieces@[i]]
                0 <= i < pieces@.len() ==> {
                    &&& pieces@[i].0 <= pieces@[i].1 <= chars@.len()
                    &&& all[i] == chars@.subrange(pieces@[i].0 as int, pieces@[i].1 as int)
                },
            texts(rules@) == rules_from(directory@, ended.take(index as int)),
        decreases last - index,
    {
        let (from, end) = pieces[index];
        let to = if from < end && chars[end - 1] == CARRIAGE_RETURN {
            end - 1
        } else {
            end
        };
        proof {
            let piece = all[index as int];
            assert(piece == chars@.subrange(from as int, end as int));
            assert(ended[index as int] == without_return(piece));
            if from < end {
                assert(piece.last() == chars@[end - 1]);
            }
            assert(without_return(piece) =~= contents@.subrange(from as int, to as int));
            assert(ended.take(index + 1).drop_last() =~= ended.take(index as int));
            assert(ended.take(index + 1).last() == ended[index as int]);
        }
        push_rule(&mut rules, directory, contents, &chars, from, to);
        index += 1;
    }
    proof {
        assert(ended.take(index as int) =~= ended);
    }
    let (from, to) = pieces[last];
    if from < to {
        proof {
            assert(all.last() == contents@.subrange(from as int, to as int));
            assert(lines(contents@) == ended.push(all.last()));
            assert(lines(contents@).drop_last() =~= ended);
        }
        push_rule(&mut rules, directory, contents, &chars, from, to);
    } else {
        proof {
            assert(all.last() == contents@.subrange(from as int, to as int));
            assert(all.last().len() == 0);
        }
    }
    rules
}

/// Whether some rule of `rules` names `path`.
pub fn is_excluded(path: &str, rules: &Vec<String>) -> (out: bool)
    ensures
        out == excluded(path@, texts(rules@)),
{
    let chars = characters(path);
    let mut index: usize = 0;
    while index < rules.len()
        invariant
            index <= rules@.len(),
            chars@ == path@,
            forall|i: int| 0 <= i < index ==> !same_path_spec(#[trigger] texts(rules@)[i], path@),
        decreases rules@.len() - index,
    {
        let rule = characters(rules[index].as_str());
        if same_characters(&rule, &chars) {
            assert(same_path_spec(texts(rules@)[index as int], path@));
            return true;
        }
        index += 1;
    }
    false
}

} // verus!
