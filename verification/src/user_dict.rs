//! The tokenizer's user dictionary: a text file with one entry per line, a
//! word followed by an optional frequency and an optional tag, separated by
//! white space. Blank lines and lines that start with `#` are kept as they
//! are. The functions here turn the file's text into its next text; reading
//! and writing the file is left to the caller.

use vstd::prelude::*;
use vstd::string::*;
use crate::text::{
    chars_of, contains_text, decimal, decimal_of, lemma_tokens_are_solid, parse_i32, parsed_i32,
    push_all, same_text, slice_of, split_tokens, string_of, texts, tokens,
};

verus! {

/// The frequency that a new entry gets when none is given.
pub const DEFAULT_FREQUENCY: i32 = 1000;

/// Where the first line of `s` ends: the position of its first line feed,
/// or its length when it has none.
pub open spec fn line_end(s: Seq<char>) -> nat
    decreases s.len(),
{
    if s.len() == 0 || s[0] == '\n' {
        0
    } else {
        1 + line_end(s.drop_first())
    }
}

/// A line without the carriage return at its end, if it has one.
pub open spec fn without_return(line: Seq<char>) -> Seq<char> {
    if line.len() > 0 && line.last() == '\r' {
        line.drop_last()
    } else {
        line
    }
}

/// The lines of a text. Each line feed ends a line, and a carriage return
/// right before it belongs to the line ending. What follows the last line
/// feed is a line of its own unless it is empty.
pub open spec fn lines_of(s: Seq<char>) -> Seq<Seq<char>>
    decreases s.len(),
{
    if s.len() == 0 {
        Seq::empty()
    } else {
        let end = line_end(s) as int;
        if end >= s.len() {
            seq![s]
        } else {
            seq![without_return(s.take(end))] + lines_of(s.skip(end + 1))
        }
    }
}

/// The text of a file that holds `lines`: each line followed by a line feed.
pub open spec fn rendered(lines: Seq<Seq<char>>) -> Seq<char>
    decreases lines.len(),
{
    if lines.len() == 0 {
        Seq::empty()
    } else {
        rendered(lines.drop_last()) + lines.last() + seq!['\n']
    }
}

/// The word that a line is an entry for; `None` for a blank line and for a
/// comment.
pub open spec fn entry_word(line: Seq<char>) -> Option<Seq<char>> {
    let parts = tokens(line);
    if parts.len() == 0 || parts[0][0] == '#' {
        None
    } else {
        Some(parts[0])
    }
}

/// The frequency that an entry line carries: its second token, if that is a
/// number.
pub open spec fn entry_frequency(line: Seq<char>) -> Option<i32> {
    let parts = tokens(line);
    if parts.len() > 1 {
        parsed_i32(parts[1])
    } else {
        None
    }
}

/// The tag that an entry line carries: its third token, or nothing.
pub open spec fn entry_tag(line: Seq<char>) -> Seq<char> {
    let parts = tokens(line);
    if parts.len() > 2 {
        parts[2]
    } else {
        Seq::empty()
    }
}

/// An entry as it is written: the word, then the frequency if there is one,
/// then the tag if it is not empty, with single spaces between them.
pub open spec fn entry_text(word: Seq<char>, frequency: Option<i32>, tag: Seq<char>) -> Seq<char> {
    let counted = match frequency {
        Some(f) => word + seq![' '] + decimal(f as int),
        None => word,
    };
    if tag.len() > 0 {
        counted + seq![' '] + tag
    } else {
        counted
    }
}

/// A line after an update of `word`. A line that is no entry for `word`
/// stays. An entry for it is written anew: with the frequency and the tag
/// that were given and, for what was not given, with what the line had.
pub open spec fn revised_line(
    line: Seq<char>,
    word: Seq<char>,
    frequency: Option<i32>,
    tag: Option<Seq<char>>,
) -> Seq<char> {
    if entry_word(line) == Some(word) {
        entry_text(
            word,
            if frequency is Some { frequency } else { entry_frequency(line) },
            match tag {
                Some(t) => t,
                None => entry_tag(line),
            },
        )
    } else {
        line
    }
}

/// The line of a new entry: a missing frequency becomes the default one, a
/// missing tag is left out.
pub open spec fn new_entry(word: Seq<char>, frequency: Option<i32>, tag: Option<Seq<char>>) -> Seq<
    char,
> {
    entry_text(
        word,
        Some(
            match frequency {
                Some(f) => f,
                None => DEFAULT_FREQUENCY,
            },
        ),
        match tag {
            Some(t) => t,
            None => Seq::empty(),
        },
    )
}

/// Whether one of `lines` is an entry for `word`.
pub open spec fn has_entry(lines: Seq<Seq<char>>, word: Seq<char>) -> bool {
    exists|i: int| 0 <= i < lines.len() && #[trigger] entry_word(lines[i]) == Some(word)
}

/// A line that starts like this ends where its first line feed stands.
pub proof fn lemma_line_end(s: Seq<char>, k: int)
    requires
        0 <= k <= s.len(),
        forall|j: int| 0 <= j < k ==> s[j] != '\n',
        k == s.len() || s[k] == '\n',
    ensures
        line_end(s) == k,
    decreases k,
{
    if k > 0 {
        let rest = s.drop_first();
        assert forall|j: int| 0 <= j < k - 1 implies rest[j] != '\n' by {
            assert(rest[j] == s[j + 1]);
        }
        lemma_line_end(rest, k - 1);
    }
}

/// Splits a text into its lines.
pub fn split_lines(content: &Vec<char>) -> (lines: Vec<Vec<char>>)
    ensures
        texts(lines@) == lines_of(content@),
{
    let n = content.len();
    let mut lines: Vec<Vec<char>> = Vec::new();
    let mut start: usize = 0;
    proof {
        assert(content@.skip(0) == content@);
        assert(texts(lines@) + lines_of(content@) =~= lines_of(content@));
    }
    while start < n
        invariant
            n == content.len(),
            start <= n,
            lines_of(content@) == texts(lines@) + lines_of(content@.skip(start as int)),
        decreases n - start,
    {
        let mut end: usize = start;
        while end < n && content[end] != '\n'
            invariant
                n == content.len(),
                start <= end <= n,
                forall|k: int| start <= k < end ==> content[k] != '\n',
            decreases n - end,
        {
            end += 1;
        }
        let ghost rest = content@.skip(start as int);
        let ghost earlier = texts(lines@);
        proof {
            assert forall|j: int| 0 <= j < end - start implies rest[j] != '\n' by {
                assert(rest[j] == content[start + j]);
            }
            lemma_line_end(rest, end - start);
        }
        if end == n {
            let line = slice_of(content, start, n);
            lines.push(line);
            proof {
                assert(line@ == rest);
                assert(content@.skip(n as int).len() == 0);
                assert(texts(lines@) =~= earlier.push(rest));
                assert(lines_of(content@) =~= texts(lines@) + lines_of(content@.skip(n as int)));
            }
            start = n;
        } else {
            let stop: usize = if end > start && content[end - 1] == '\r' {
                end - 1
            } else {
                end
            };
            let line = slice_of(content, start, stop);
            lines.push(line);
            proof {
                let raw = rest.take(end - start);
                assert(raw =~= content@.subrange(start as int, end as int));
                assert(line@ =~= without_return(raw));
                assert(rest.skip(end - start + 1) =~= content@.skip(end + 1));
                assert(texts(lines@) =~= earlier.push(line@));
                assert(lines_of(content@) =~= texts(lines@) + lines_of(content@.skip(end + 1)));
            }
            start = end + 1;
        }
    }
    proof {
        assert(content@.skip(n as int).len() == 0);
        assert(texts(lines@) + lines_of(content@.skip(n as int)) =~= texts(lines@));
    }
    lines
}

/// Writes `lines` as the text of a file, a line feed after each.
pub fn render_lines(lines: &Vec<Vec<char>>) -> (content: String)
    ensures
        content@ == rendered(texts(lines@)),
{
    let mut content = String::new();
    let mut i: usize = 0;
    while i < lines.len()
        invariant
            i <= lines.len(),
            content@ == rendered(texts(lines@).take(i as int)),
        decreases lines.len() - i,
    {
        let ghost before = content@;
        let line = &lines[i];
        let mut k: usize = 0;
        while k < line.len()
            invariant
                k <= line.len(),
                content@ == before + line@.take(k as int),
            decreases line.len() - k,
        {
            content.push(line[k]);
            proof {
                assert(line@.take(k + 1) =~= line@.take(k as int).push(line[k as int]));
                assert(content@ =~= before + line@.take(k + 1));
            }
            k += 1;
        }
        content.push('\n');
        proof {
            let upto = texts(lines@).take(i + 1);
            assert(upto.drop_last() =~= texts(lines@).take(i as int));
            assert(upto.last() == line@);
            assert(line@.take(line.len() as int) == line@);
            assert(content@ =~= rendered(upto));
        }
        i += 1;
    }
    proof {
        assert(texts(lines@).take(lines.len() as int) == texts(lines@));
    }
    content
}

/// What an update leaves to do.
#[derive(Debug, PartialEq, Eq)]
pub enum DictUpdate {
    /// The word has an entry and nothing was asked to change: the file stays.
    Unchanged,
    /// The word had an entry; `content` is the file's new text.
    Updated { content: String },
    /// The word had no entry and got one; `content` is the file's new text.
    Added { content: String },
}

/// What a deletion leaves to do.
#[derive(Debug, PartialEq, Eq)]
pub enum DictDeletion {
    /// No word was given.
    NothingRequested,
    /// None of the words has an entry: the file stays.
    NothingFound,
    /// `count` entries go; `content` is the file's new text.
    Deleted { count: usize, content: String },
}

/// The text of an optional string.
pub open spec fn optional_text(text: Option<&str>) -> Option<Seq<char>> {
    match text {
        Some(t) => Some(t@),
        None => None,
    }
}

/// The lines of a file after an update of `word`: each line revised.
pub open spec fn revised_lines(
    lines: Seq<Seq<char>>,
    word: Seq<char>,
    frequency: Option<i32>,
    tag: Option<Seq<char>>,
) -> Seq<Seq<char>> {
    Seq::new(lines.len(), |i: int| revised_line(lines[i], word, frequency, tag))
}

/// Whether `word` is among the words that were given; a missing word counts
/// for nothing.
pub open spec fn is_requested(words: Seq<Option<String>>, word: Seq<char>) -> bool {
    exists|k: int| 0 <= k < words.len() && (#[trigger] words[k]) is Some && words[k]->0@ == word
}

/// Whether a line goes in a deletion: it is an entry for one of the words.
pub open spec fn is_doomed(line: Seq<char>, words: Seq<Option<String>>) -> bool {
    match entry_word(line) {
        Some(word) => is_requested(words, word),
        None => false,
    }
}

/// The lines that a deletion keeps, in their order.
pub open spec fn surviving(lines: Seq<Seq<char>>, words: Seq<Option<String>>) -> Seq<Seq<char>>
    decreases lines.len(),
{
    if lines.len() == 0 {
        Seq::empty()
    } else if is_doomed(lines.last(), words) {
        surviving(lines.drop_last(), words)
    } else {
        surviving(lines.drop_last(), words).push(lines.last())
    }
}

/// Writes an entry: the word, the frequency if there is one, the tag if it
/// is not empty.
pub fn write_entry(word: &Vec<char>, frequency: Option<i32>, tag: &Vec<char>) -> (line: Vec<char>)
    ensures
        line@ == entry_text(word@, frequency, tag@),
{
    let mut line: Vec<char> = Vec::new();
    push_all(&mut line, word);
    match frequency {
        Some(f) => {
            line.push(' ');
            let digits = decimal_of(f as i128);
            push_all(&mut line, &digits);
            proof {
                assert(line@ =~= word@ + seq![' '] + decimal(f as int));
            }
        },
        None => {
            proof {
                assert(line@ =~= word@);
            }
        },
    }
    if tag.len() > 0 {
        let ghost counted = line@;
        line.push(' ');
        push_all(&mut line, tag);
        proof {
            assert(line@ =~= counted + seq![' '] + tag@);
        }
    }
    line
}

/// Revises one line for an update of `word`: the new line when the line is
/// an entry for the word, `None` when it is not and stays as it is.
pub fn revise_line(
    line: &Vec<char>,
    word: &Vec<char>,
    frequency: Option<i32>,
    tag: &Option<Vec<char>>,
) -> (revised: Option<Vec<char>>)
    ensures
        revised is Some <==> entry_word(line@) == Some(word@),
        revised is Some ==> revised->0@ == revised_line(
            line@,
            word@,
            frequency,
            match tag {
                Some(t) => Some(t@),
                None => None,
            },
        ),
{
    let parts = split_tokens(line);
    proof {
        lemma_tokens_are_solid(line@);
        if parts.len() > 0 {
            assert(texts(parts@)[0] == parts[0]@);
        }
        if parts.len() > 1 {
            assert(texts(parts@)[1] == parts[1]@);
        }
        if parts.len() > 2 {
            assert(texts(parts@)[2] == parts[2]@);
        }
    }
    if parts.len() == 0 || parts[0][0] == '#' || !same_text(&parts[0], word) {
        return None;
    }
    let kept_frequency = if parts.len() > 1 {
        parse_i32(&parts[1])
    } else {
        None
    };
    let new_frequency = if frequency.is_some() {
        frequency
    } else {
        kept_frequency
    };
    let empty: Vec<char> = Vec::new();
    let new_line = match tag {
        Some(t) => write_entry(word, new_frequency, t),
        None => if parts.len() > 2 {
            write_entry(word, new_frequency, &parts[2])
        } else {
            write_entry(word, new_frequency, &empty)
        },
    };
    Some(new_line)
}

/// Adds the word to the dictionary, or changes the entries that it has.
///
/// `content` is the file's text (empty when there is no file yet). With no
/// entry for `word` one is added at the end, with `frequency` or the default
/// frequency, and with `tag` if there is one. With an entry and neither a
/// frequency nor a tag given, nothing changes. Otherwise every entry for
/// the word is written anew: what was given replaces what the line had, what
/// was not given stays.
pub fn update_or_add_user_dict(
    content: &str,
    word: &str,
    frequency: Option<i32>,
    tag: Option<&str>,
) -> (outcome: DictUpdate)
    ensures
        ({
            let lines = lines_of(content@);
            let asked = frequency is Some || tag is Some;
            match outcome {
                DictUpdate::Unchanged => has_entry(lines, word@) && !asked,
                DictUpdate::Updated { content: text } => has_entry(lines, word@) && asked && text@
                    == rendered(revised_lines(lines, word@, frequency, optional_text(tag))),
                DictUpdate::Added { content: text } => !has_entry(lines, word@) && text@
                    == rendered(lines.push(new_entry(word@, frequency, optional_text(tag)))),
            }
        }),
{
    let lines = split_lines(&chars_of(content));
    let letters = chars_of(word);
    let label: Option<Vec<char>> = match tag {
        Some(t) => Some(chars_of(t)),
        None => None,
    };
    let ghost before = lines_of(content@);
    let ghost wanted = optional_text(tag);
    let mut revised: Vec<Vec<char>> = Vec::new();
    let mut found = false;
    let mut i: usize = 0;
    while i < lines.len()
        invariant
            i <= lines.len(),
            before == texts(lines@),
            before == lines_of(content@),
            letters@ == word@,
            wanted == optional_text(tag),
            wanted == match label {
                Some(t) => Some(t@),
                None => None,
            },
            revised.len() == i,
            forall|k: int|
                0 <= k < i ==> (#[trigger] revised[k])@ == revised_line(
                    before[k],
                    word@,
                    frequency,
                    wanted,
                ),
            found <==> has_entry(before.take(i as int), word@),
            found ==> frequency is Some || tag is Some,
        decreases lines.len() - i,
    {
        proof {
            assert(before[i as int] == lines[i as int]@);
        }
        let ghost seen = before.take(i as int);
        let ghost grown = before.take(i + 1);
        match revise_line(&lines[i], &letters, frequency, &label) {
            Some(line) => {
                if frequency.is_none() && tag.is_none() {
                    proof {
                        assert(entry_word(before[i as int]) == Some(word@));
                    }
                    return DictUpdate::Unchanged;
                }
                found = true;
                revised.push(line);
                proof {
                    assert(entry_word(grown[i as int]) == Some(word@));
                }
            },
            None => {
                let line = slice_of(&lines[i], 0, lines[i].len());
                proof {
                    assert(line@ =~= lines[i as int]@);
                    if has_entry(grown, word@) {
                        let k = choose|k: int|
                            0 <= k < grown.len() && #[trigger] entry_word(grown[k]) == Some(word@);
                        assert(grown[k] == seen[k]);
                    }
                    if has_entry(seen, word@) {
                        let k = choose|k: int|
                            0 <= k < seen.len() && #[trigger] entry_word(seen[k]) == Some(word@);
                        assert(grown[k] == seen[k]);
                    }
                }
                revised.push(line);
            },
        }
        i += 1;
    }
    proof {
        assert(before.take(lines.len() as int) == before);
    }
    if found {
        proof {
            assert(texts(revised@) =~= revised_lines(before, word@, frequency, wanted));
        }
        DictUpdate::Updated { content: render_lines(&revised) }
    } else {
        let empty: Vec<char> = Vec::new();
        let count = match frequency {
            Some(f) => f,
            None => DEFAULT_FREQUENCY,
        };
        let entry = match &label {
            Some(t) => write_entry(&letters, Some(count), t),
            None => write_entry(&letters, Some(count), &empty),
        };
        revised.push(entry);
        proof {
            assert forall|k: int| 0 <= k < before.len() implies revised[k]@ == before[k] by {
                assert(entry_word(before[k]) != Some(word@));
            }
            assert(texts(revised@) =~= before.push(new_entry(word@, frequency, wanted)));
        }
        DictUpdate::Added { content: render_lines(&revised) }
    }
}

/// One more of the given words asks for what the words before it asked for
/// and, unless it is missing, for itself.
pub proof fn lemma_requested_step(words: Seq<Option<String>>, n: int, word: Seq<char>)
    requires
        0 <= n < words.len(),
    ensures
        is_requested(words.take(n + 1), word) <==> is_requested(words.take(n), word) || (words[n]
            is Some && words[n]->0@ == word),
{
    let grown = words.take(n + 1);
    let seen = words.take(n);
    if is_requested(grown, word) {
        let k = choose|k: int|
            0 <= k < grown.len() && (#[trigger] grown[k]) is Some && grown[k]->0@ == word;
        if k < n {
            assert(seen[k] == grown[k]);
        }
    }
    if is_requested(seen, word) {
        let k = choose|k: int|
            0 <= k < seen.len() && (#[trigger] seen[k]) is Some && seen[k]->0@ == word;
        assert(grown[k] == seen[k]);
    }
    if words[n] is Some && words[n]->0@ == word {
        assert(grown[n] == words[n]);
    }
}

/// Whether a deletion was asked for no word at all.
pub fn nothing_requested(words: &Vec<Option<String>>) -> (none: bool)
    ensures
        none == forall|k: int| 0 <= k < words.len() ==> (#[trigger] words[k]) is None,
{
    let mut i: usize = 0;
    while i < words.len()
        invariant
            i <= words.len(),
            forall|k: int| 0 <= k < i ==> (#[trigger] words[k]) is None,
        decreases words.len() - i,
    {
        if words[i].is_some() {
            return false;
        }
        i += 1;
    }
    true
}

/// Takes the entries of the given words out of the dictionary.
///
/// `content` is the file's text; a missing word in `words` is passed over.
/// Blank lines and comments stay, and so does every entry for another word.
/// The new text holds the lines that stay, a line feed after each, and a
/// single line feed when none stays.
pub fn delete_from_user_dict(content: &str, words: &Vec<Option<String>>) -> (outcome: DictDeletion)
    ensures
        ({
            let lines = lines_of(content@);
            let kept = surviving(lines, words@);
            let requested = exists|k: int| 0 <= k < words.len() && (#[trigger] words[k]) is Some;
            match outcome {
                DictDeletion::NothingRequested => !requested,
                DictDeletion::NothingFound => requested && kept.len() == lines.len(),
                DictDeletion::Deleted { count, content: text } => {
                    &&& requested
                    &&& kept.len() < lines.len()
                    &&& count == lines.len() - kept.len()
                    &&& text@ == if kept.len() == 0 {
                        seq!['\n']
                    } else {
                        rendered(kept)
                    }
                },
            }
        }),
{
    if nothing_requested(words) {
        return DictDeletion::NothingRequested;
    }
    let mut wanted: Vec<Vec<char>> = Vec::new();
    let mut j: usize = 0;
    while j < words.len()
        invariant
            j <= words.len(),
            forall|w: Seq<char>| #[trigger]
                texts(wanted@).contains(w) <==> is_requested(words@.take(j as int), w),
        decreases words.len() - j,
    {
        let ghost listed = texts(wanted@);
        match &words[j] {
            Some(word) => {
                let letters = chars_of(word.as_str());
                wanted.push(letters);
                proof {
                    assert(texts(wanted@) =~= listed.push(word@));
                    assert forall|w: Seq<char>| #[trigger]
                        texts(wanted@).contains(w) <==> is_requested(
                            words@.take(j + 1),
                            w,
                        ) by {
                        vstd::seq_lib::lemma_seq_contains_after_push(listed, word@, w);
                        lemma_requested_step(words@, j as int, w);
                    }
                }
            },
            None => {
                proof {
                    assert forall|w: Seq<char>| #[trigger]
                        texts(wanted@).contains(w) <==> is_requested(
                            words@.take(j + 1),
                            w,
                        ) by {
                        lemma_requested_step(words@, j as int, w);
                    }
                }
            },
        }
        j += 1;
    }
    proof {
        assert(words@.take(words.len() as int) == words@);
    }
    let lines = split_lines(&chars_of(content));
    let ghost before = lines_of(content@);
    let mut kept: Vec<Vec<char>> = Vec::new();
    let mut i: usize = 0;
    while i < lines.len()
        invariant
            i <= lines.len(),
            before == texts(lines@),
            forall|w: Seq<char>| #[trigger]
                texts(wanted@).contains(w) <==> is_requested(words@, w),
            texts(kept@) == surviving(before.take(i as int), words@),
            kept.len() <= i,
        decreases lines.len() - i,
    {
        let line = &lines[i];
        let parts = split_tokens(line);
        proof {
            let grown = before.take(i + 1);
            assert(grown.drop_last() == before.take(i as int));
            assert(grown.last() == line@);
            lemma_tokens_are_solid(line@);
            if parts.len() > 0 {
                assert(texts(parts@)[0] == parts[0]@);
            }
        }
        let doomed = parts.len() > 0 && parts[0][0] != '#' && contains_text(&wanted, &parts[0]);
        if !doomed {
            let ghost earlier = texts(kept@);
            kept.push(slice_of(line, 0, line.len()));
            proof {
                assert(line@.subrange(0, line.len() as int) == line@);
                assert(texts(kept@) =~= earlier.push(line@));
            }
        }
        i += 1;
    }
    proof {
        assert(before.take(lines.len() as int) == before);
    }
    if kept.len() == lines.len() {
        return DictDeletion::NothingFound;
    }
    let count: usize = lines.len() - kept.len();
    if kept.len() == 0 {
        let mut text = String::new();
        text.push('\n');
        proof {
            assert(text@ =~= seq!['\n']);
        }
        DictDeletion::Deleted { count, content: text }
    } else {
        DictDeletion::Deleted { count, content: render_lines(&kept) }
    }
}

/// What the caller is told after an update of `word`.
pub fn update_message(word: &str, outcome: &DictUpdate) -> (message: String)
    ensures
        message@ == "词条 '"@ + word@ + match outcome {
            DictUpdate::Unchanged => "' 已存在且无需修改，无操作执行"@,
            DictUpdate::Updated { .. } => "' 已更新"@,
            DictUpdate::Added { .. } => "' 已添加"@,
        },
{
    let mut message = String::from_str("词条 '");
    message.append(word);
    match outcome {
        DictUpdate::Unchanged => message.append("' 已存在且无需修改，无操作执行"),
        DictUpdate::Updated { .. } => message.append("' 已更新"),
        DictUpdate::Added { .. } => message.append("' 已添加"),
    }
    message
}

/// What the caller is told after a deletion in the file at `path`.
pub fn deletion_message(outcome: &DictDeletion, path: &str) -> (message: String)
    ensures
        message@ == match outcome {
            DictDeletion::NothingRequested => "未提供要删除的词条"@,
            DictDeletion::NothingFound => "未找到匹配的词条，未进行删除"@,
            DictDeletion::Deleted { count, .. } => "成功删除 "@ + decimal(*count as int)
                + " 个词条并保存文件: "@ + path@,
        },
{
    match outcome {
        DictDeletion::NothingRequested => String::from_str("未提供要删除的词条"),
        DictDeletion::NothingFound => String::from_str("未找到匹配的词条，未进行删除"),
        DictDeletion::Deleted { count, .. } => {
            let mut message = String::from_str("成功删除 ");
            let digits = string_of(&decimal_of(*count as i128));
            message.append(digits.as_str());
            message.append(" 个词条并保存文件: ");
            message.append(path);
            message
        },
    }
}

} // verus!
