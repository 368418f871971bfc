//! The configuration file and the command line of the command sender.
//!
//! The configuration holds `key=value` lines; `#` starts a comment, blank
//! lines are skipped, and a later line for the same key wins.
use vstd::prelude::*;
use crate::text::{
    chars_of, decimal, decimal_string, decimal_u64, parse_u64, push_char, split_all,
    split_all_chars, split_once, split_once_chars, string_of, trim, trim_chars, u64_parse_error_text,
};

verus! {

/// The lines of `contents`, as `str::lines` gives them: split at `\n`, a
/// `\r` before the `\n` removed, and no empty line after a final `\n`.
pub open spec fn text_lines(contents: Seq<char>) -> Seq<Seq<char>> {
    let pieces = split_all(contents, '\n');
    let n = if pieces.last().len() == 0 {
        pieces.len() - 1
    } else {
        pieces.len() as int
    };
    Seq::new(
        n as nat,
        |k: int|
            if k < pieces.len() - 1 && pieces[k].len() > 0 && pieces[k].last() == '\r' {
                pieces[k].drop_last()
            } else {
                pieces[k]
            },
    )
}

/// The part of a line before its first `#`.
pub open spec fn before_comment(line: Seq<char>) -> Seq<char> {
    match split_once(line, '#') {
        Some((head, _)) => head,
        None => line,
    }
}

/// The message for a line of `path` numbered `number` that is not `key=value`.
pub open spec fn line_error(path: Seq<char>, number: nat) -> Seq<char> {
    path + ":"@ + decimal(number) + ": očekáváno key=value"@
}

/// The entries that the first `n` lines give, in order, or the message for
/// the first line that is not `key=value`.
pub open spec fn entries_of_lines(path: Seq<char>, lines: Seq<Seq<char>>, n: nat) -> Result<
    Seq<(Seq<char>, Seq<char>)>,
    Seq<char>,
>
    decreases n,
{
    if n == 0 {
        Ok(Seq::empty())
    } else {
        match entries_of_lines(path, lines, (n - 1) as nat) {
            Err(e) => Err(e),
            Ok(entries) => {
                let line = trim(before_comment(lines[n - 1]));
                if line.len() == 0 {
                    Ok(entries)
                } else {
                    match split_once(line, '=') {
                        None => Err(line_error(path, n)),
                        Some((key, value)) => Ok(entries.push((trim(key), trim(value)))),
                    }
                }
            },
        }
    }
}

proof fn lemma_error_persists(path: Seq<char>, lines: Seq<Seq<char>>, k: nat, n: nat)
    requires
        k <= n,
        entries_of_lines(path, lines, k) is Err,
    ensures
        entries_of_lines(path, lines, n) == entries_of_lines(path, lines, k),
    decreases n - k,
{
    if k < n {
        lemma_error_persists(path, lines, k, (n - 1) as nat);
    }
}

/// The entries of a configuration text read from `path`.
pub open spec fn config_entries(path: Seq<char>, contents: Seq<char>) -> Result<
    Seq<(Seq<char>, Seq<char>)>,
    Seq<char>,
> {
    entries_of_lines(path, text_lines(contents), text_lines(contents).len())
}

/// The value of the last entry for `key`, if there is one.
pub open spec fn lookup(entries: Seq<(Seq<char>, Seq<char>)>, key: Seq<char>) -> Option<Seq<char>>
    decreases entries.len(),
{
    if entries.len() == 0 {
        None
    } else if entries.last().0 == key {
        Some(entries.last().1)
    } else {
        lookup(entries.drop_last(), key)
    }
}

/// The parsed `key=value` entries of a configuration, in file order.
pub struct ConfigValues {
    entries: Vec<(String, String)>,
}

impl View for ConfigValues {
    type V = Seq<(Seq<char>, Seq<char>)>;

    closed spec fn view(&self) -> Seq<(Seq<char>, Seq<char>)> {
        self.entries.deep_view()
    }
}

fn string_equals(a: &String, b: &String) -> (r: bool)
    ensures
        r == (a@ == b@),
{
    (*a).eq(b)
}

impl ConfigValues {
    /// The value of the last entry for `key`.
    pub fn get(&self, key: &str) -> (value: Option<String>)
        ensures
            match value {
                Some(v) => lookup(self@, key@) == Some(v@),
                None => lookup(self@, key@) is None,
            },
    {
        let wanted = String::from_str(key);
        let mut i = self.entries.len();
        assert(self@.take(i as int) =~= self@);
        while i > 0
            invariant
                0 <= i <= self.entries@.len(),
                wanted@ == key@,
                lookup(self@, key@) == lookup(self@.take(i as int), key@),
            decreases i,
        {
            let ghost prefix = self@.take(i as int);
            assert(prefix.drop_last() =~= self@.take(i - 1));
            assert(prefix.last() == (self.entries@[i - 1].0@, self.entries@[i - 1].1@));
            if string_equals(&self.entries[i - 1].0, &wanted) {
                return Some(self.entries[i - 1].1.clone());
            }
            i = i - 1;
        }
        None
    }
}

/// Parses a configuration text read from `path` into its entries.
pub fn parse_config(path: &str, contents: &str) -> (res: Result<ConfigValues, String>)
    ensures
        match res {
            Ok(values) => config_entries(path@, contents@) == Ok::<
                Seq<(Seq<char>, Seq<char>)>,
                Seq<char>,
            >(values@),
            Err(m) => config_entries(path@, contents@) == Err::<
                Seq<(Seq<char>, Seq<char>)>,
                Seq<char>,
            >(m@),
        },
{
    let chars = chars_of(contents);
    let pieces = split_all_chars(&chars, '\n');
    let ghost lines = text_lines(contents@);
    let piece_count = pieces.len();
    assert(piece_count > 0);
    let last_empty = pieces[piece_count - 1].as_str().is_empty();
    let line_count = if last_empty {
        piece_count - 1
    } else {
        piece_count
    };
    let mut entries: Vec<(String, String)> = Vec::new();
    let mut k: usize = 0;
    assert(entries.deep_view() =~= Seq::<(Seq<char>, Seq<char>)>::empty());
    while k < line_count
        invariant
            0 <= k <= line_count,
            line_count == lines.len(),
            piece_count == pieces@.len(),
            pieces.deep_view() == split_all(contents@, '\n'),
            lines == text_lines(contents@),
            entries_of_lines(path@, lines, k as nat) == Ok::<
                Seq<(Seq<char>, Seq<char>)>,
                Seq<char>,
            >(entries.deep_view()),
        decreases line_count - k,
    {
        let mut line = chars_of(pieces[k].as_str());
        let n = line.len();
        if k + 1 < piece_count && n > 0 && line[n - 1] == '\r' {
            line.pop();
        }
        assert(line@ =~= lines[k as int]);
        let content = match split_once_chars(&line, '#') {
            Some((head, _)) => head,
            None => line,
        };
        let trimmed = trim_chars(&content);
        if trimmed.len() != 0 {
            match split_once_chars(&trimmed, '=') {
                None => {
                    let mut message = String::from_str(path);
                    message.append(":");
                    let number = decimal_string(k as u64 + 1);
                    message.append(number.as_str());
                    message.append(": očekáváno key=value");
                    proof {
                        lemma_error_persists(path@, lines, (k + 1) as nat, line_count as nat);
                    }
                    return Err(message);
                },
                Some((key, value)) => {
                    let key_text = string_of(trim_chars(&key).as_slice());
                    let value_text = string_of(trim_chars(&value).as_slice());
                    let ghost before = entries.deep_view();
                    entries.push((key_text, value_text));
                    assert(entries.deep_view() =~= before.push((trim(key@), trim(value@))));
                },
            }
        }
        k = k + 1;
    }
    Ok(ConfigValues { entries })
}

/// What looking up a required setting gives: its value when present and not
/// empty, or the message.
pub open spec fn required_value(entries: Seq<(Seq<char>, Seq<char>)>, key: Seq<char>) -> Result<
    Seq<char>,
    Seq<char>,
> {
    match lookup(entries, key) {
        Some(v) => if v.len() > 0 {
            Ok(v)
        } else {
            Err("chybí konfigurace "@ + key)
        },
        None => Err("chybí konfigurace "@ + key),
    }
}

/// The value of a required setting; a missing or empty one is an error.
pub fn required(values: &ConfigValues, key: &str) -> (res: Result<String, String>)
    ensures
        match res {
            Ok(v) => required_value(values@, key@) == Ok::<Seq<char>, Seq<char>>(v@),
            Err(m) => required_value(values@, key@) == Err::<Seq<char>, Seq<char>>(m@),
        },
{
    match values.get(key) {
        Some(v) => {
            if v.as_str().is_empty() {
                let mut message = String::from_str("chybí konfigurace ");
                message.append(key);
                Err(message)
            } else {
                Ok(v)
            }
        },
        None => {
            let mut message = String::from_str("chybí konfigurace ");
            message.append(key);
            Err(message)
        },
    }
}

/// What the connect timeout setting gives, in milliseconds: 5000 when it is
/// absent, an error when it is not a number or is zero.
pub open spec fn timeout_value(entries: Seq<(Seq<char>, Seq<char>)>) -> Result<u64, Seq<char>> {
    let parsed: Result<u64, Seq<char>> = match lookup(entries, "connect_timeout_ms"@) {
        None => Ok(5000u64),
        Some(v) => match decimal_u64(v) {
            Some(n) => Ok(n),
            None => Err("neplatný connect_timeout_ms: "@ + u64_parse_error_text(v)),
        },
    };
    match parsed {
        Ok(n) => if n == 0 {
            Err("connect_timeout_ms musí být větší než 0"@)
        } else {
            Ok(n)
        },
        Err(e) => Err(e),
    }
}

/// The connect timeout in milliseconds.
pub fn connect_timeout_ms(values: &ConfigValues) -> (res: Result<u64, String>)
    ensures
        match res {
            Ok(n) => timeout_value(values@) == Ok::<u64, Seq<char>>(n),
            Err(m) => timeout_value(values@) == Err::<u64, Seq<char>>(m@),
        },
{
    let timeout_ms = match values.get("connect_timeout_ms") {
        None => 5000u64,
        Some(v) => match parse_u64(v.as_str()) {
            Ok(n) => n,
            Err(e) => {
                let mut message = String::from_str("neplatný connect_timeout_ms: ");
                message.append(e.as_str());
                return Err(message);
            },
        },
    };
    if timeout_ms == 0 {
        return Err(String::from_str("connect_timeout_ms musí být větší než 0"));
    }
    Ok(timeout_ms)
}

/// `s` without trailing `\r`.
pub open spec fn trim_carriage_returns(s: Seq<char>) -> Seq<char>
    decreases s.len(),
{
    if s.len() > 0 && s.last() == '\r' {
        trim_carriage_returns(s.drop_last())
    } else {
        s
    }
}

/// The words joined with single spaces.
pub open spec fn joined(parts: Seq<Seq<char>>) -> Seq<char>
    decreases parts.len(),
{
    if parts.len() == 0 {
        Seq::empty()
    } else if parts.len() == 1 {
        parts[0]
    } else {
        joined(parts.drop_last()) + seq![' '] + parts.last()
    }
}

/// The text sent to the reader for the command words: the words joined with
/// spaces, trailing `\r` removed, and one `\r` appended.
pub fn command_text(parts: &Vec<String>) -> (command: String)
    ensures
        command@ == trim_carriage_returns(joined(parts.deep_view())) + seq!['\r'],
{
    let mut text: Vec<char> = Vec::new();
    let mut i: usize = 0;
    while i < parts.len()
        invariant
            0 <= i <= parts@.len(),
            text@ == joined(parts.deep_view().take(i as int)),
        decreases parts@.len() - i,
    {
        let ghost before = text@;
        if i > 0 {
            text.push(' ');
        }
        let word = chars_of(parts[i].as_str());
        let mut j: usize = 0;
        while j < word.len()
            invariant
                0 <= j <= word@.len(),
                text@ == (if i > 0 {
                    before + seq![' ']
                } else {
                    before
                }) + word@.take(j as int),
            decreases word@.len() - j,
        {
            text.push(word[j]);
            assert(text@ =~= (if i > 0 {
                before + seq![' ']
            } else {
                before
            }) + word@.take(j + 1));
            j = j + 1;
        }
        assert(word@.take(word@.len() as int) =~= word@);
        assert(parts.deep_view().take(i + 1).drop_last() =~= parts.deep_view().take(i as int));
        if i == 0 {
            assert(parts.deep_view().take(1) =~= seq![word@]);
            assert(text@ =~= word@);
        }
        i = i + 1;
    }
    assert(parts.deep_view().take(parts@.len() as int) =~= parts.deep_view());
    let ghost full = text@;
    while text.len() > 0 && text[text.len() - 1] == '\r'
        invariant
            trim_carriage_returns(full) == trim_carriage_returns(text@),
        decreases text@.len(),
    {
        let ghost before = text@;
        text.pop();
        assert(text@ =~= before.drop_last());
    }
    let mut command = string_of(text.as_slice());
    push_char(&mut command, '\r');
    command
}

proof fn lemma_no_trailing_carriage_return(s: Seq<char>)
    ensures
        trim_carriage_returns(s).len() > 0 ==> trim_carriage_returns(s).last() != '\r',
    decreases s.len(),
{
    if s.len() > 0 && s.last() == '\r' {
        lemma_no_trailing_carriage_return(s.drop_last());
    }
}

/// The command sent to the reader ends with exactly one carriage return.
pub proof fn law_command_ends_with_one_carriage_return(parts: Seq<Seq<char>>)
    ensures
        ({
            let command = trim_carriage_returns(joined(parts)) + seq!['\r'];
            &&& command.last() == '\r'
            &&& command.len() >= 2 ==> command[command.len() - 2] != '\r'
        }),
{
    let body = trim_carriage_returns(joined(parts));
    lemma_no_trailing_carriage_return(joined(parts));
    let command = body + seq!['\r'];
    if command.len() >= 2 {
        assert(command[command.len() - 2] == body.last());
    }
}

/// A later line for a key wins over earlier ones, and leaves the other keys
/// as they were.
pub proof fn law_later_line_wins(
    entries: Seq<(Seq<char>, Seq<char>)>,
    key: Seq<char>,
    value: Seq<char>,
    other: Seq<char>,
)
    requires
        other != key,
    ensures
        lookup(entries.push((key, value)), key) == Some(value),
        lookup(entries.push((key, value)), other) == lookup(entries, other),
{
    assert(entries.push((key, value)).drop_last() =~= entries);
}

} // verus!
