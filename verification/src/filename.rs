//! The SR-750 image names: `metadata|x1-y1_x2-y2_x3-y3_x4-y4.BMP`, where the
//! metadata is `readdata:matchinglevel`.
use vstd::prelude::*;
use crate::text::{
    chars_between, chars_of, push_char, split_all, split_all_chars, split_once, split_once_chars,
    string_of,
};

verus! {

/// Whether `part` is a contiguous piece of `whole`.
pub open spec fn is_infix_of(part: Seq<char>, whole: Seq<char>) -> bool {
    exists|i: int, j: int| 0 <= i <= j <= whole.len() && part == whole.subrange(i, j)
}

/// Whether `s` holds no path syntax of any platform: no slash, no backslash and no
/// drive prefix such as `C:`.
pub open spec fn plain_name(s: Seq<char>) -> bool {
    !s.contains('/') && !s.contains('\\') && !(s.len() >= 2 && s[1] == ':')
}

/// The text after the last `/` of `s`, or all of `s` when it has none.
pub open spec fn after_last_slash(s: Seq<char>) -> Seq<char>
    decreases s.len(),
{
    if s.len() == 0 {
        s
    } else if s.last() == '/' {
        Seq::empty()
    } else {
        after_last_slash(s.drop_last()).push(s.last())
    }
}

/// Whether `s` is a relative path separated by `/` only, whose last component
/// is an ordinary name: no backslash, no leading `/`, no drive prefix such as
/// `C:`, and a last component that is neither empty nor `.` nor `..`.
pub open spec fn relative_slash_path(s: Seq<char>) -> bool {
    let last = after_last_slash(s);
    &&& !s.contains('\\')
    &&& s.len() > 0 && s[0] != '/'
    &&& !(s.len() >= 2 && s[1] == ':')
    &&& last.len() > 0
    &&& last != seq!['.']
    &&& last != seq!['.', '.']
}

/// The last component of a path, as `Path::file_name` gives it in std, or the
/// whole text when there is none or it is not valid text. `/` separates
/// components on every platform, so for a relative `/`-separated path the
/// component is the text after the last `/`, and a plain name comes back
/// whole. Backslashes, drive and network prefixes are path syntax on Windows
/// only; for texts that hold them the contract states only that the result
/// is a contiguous piece of the argument.
#[verifier::external_body]
fn path_file_name(filename: &str) -> (name: &str)
    ensures
        is_infix_of(name@, filename@),
        plain_name(filename@) ==> name@ == filename@,
        relative_slash_path(filename@) ==> name@ == after_last_slash(filename@),
{
    match std::path::Path::new(filename).file_name() {
        Some(name) => match name.to_str() {
            Some(text) => text,
            None => filename,
        },
        None => filename,
    }
}

/// `s` with every `from` replaced by `to`.
pub open spec fn replace_char(s: Seq<char>, from: char, to: char) -> Seq<char> {
    s.map_values(|c: char| if c == from { to } else { c })
}

/// Whether `s` ends with `suffix`.
pub open spec fn has_suffix(s: Seq<char>, suffix: Seq<char>) -> bool {
    suffix.len() <= s.len() && s.subrange(s.len() - suffix.len(), s.len() as int) == suffix
}

/// `s` without a trailing `.BMP` or, failing that, `.bmp`.
pub open spec fn strip_bmp_suffix(s: Seq<char>) -> Seq<char> {
    if has_suffix(s, seq!['.', 'B', 'M', 'P']) || has_suffix(s, seq!['.', 'b', 'm', 'p']) {
        s.take(s.len() - 4)
    } else {
        s
    }
}

/// The name under which a processed image is logged, made from the file name
/// of the received image: the metadata before `|`, with `:` (reserved on
/// Windows) replaced by `_`, and the `.bmp` extension.
pub open spec fn output_name(file_name: Seq<char>) -> Result<Seq<char>, Seq<char>> {
    match split_once(file_name, '|') {
        None => Err("Filename does not contain '|': "@ + file_name),
        Some((metadata, _)) => if metadata.len() == 0 {
            Err("Filename metadata before '|' is empty"@)
        } else {
            Ok(replace_char(metadata, ':', '_') + seq!['.', 'b', 'm', 'p'])
        },
    }
}

/// The four coordinate tokens of a file name: the text after `|`, without the
/// `.BMP`/`.bmp` extension, split at `_`.
pub open spec fn coordinate_token_list(file_name: Seq<char>) -> Result<Seq<Seq<char>>, Seq<char>> {
    match split_once(file_name, '|') {
        None => Err("Filename does not contain '|': "@ + file_name),
        Some((_, coordinates)) => {
            let tokens = split_all(strip_bmp_suffix(coordinates), '_');
            if tokens.len() != 4 {
                Err("Expected 4 coordinate pairs: "@ + file_name)
            } else {
                Ok(tokens)
            }
        },
    }
}

/// The two numbers of a coordinate token `x-y`.
pub open spec fn coordinate_pair(token: Seq<char>) -> Result<(Seq<char>, Seq<char>), Seq<char>> {
    match split_once(token, '-') {
        Some(pair) => Ok(pair),
        None => Err("Invalid coordinate pair: "@ + token),
    }
}

/// The metadata that the viewer shows for an image name: the text before
/// the first `|`, or the whole name.
pub open spec fn viewer_metadata(source_name: Seq<char>) -> Seq<char> {
    match split_once(source_name, '|') {
        Some((metadata, _)) => metadata,
        None => source_name,
    }
}

/// The view of a text result.
pub open spec fn text_result(r: Result<String, String>) -> Result<Seq<char>, Seq<char>> {
    match r {
        Ok(s) => Ok(s@),
        Err(e) => Err(e@),
    }
}

/// The log name for a received image whose file name is `file_name`.
pub fn output_name_for(file_name: &str) -> (res: Result<String, String>)
    ensures
        text_result(res) == output_name(file_name@),
{
    let chars = chars_of(file_name);
    match split_once_chars(&chars, '|') {
        None => {
            let mut message = String::from_str("Filename does not contain '|': ");
            message.append(file_name);
            Err(message)
        },
        Some((metadata, _)) => {
            if metadata.len() == 0 {
                return Err(String::from_str("Filename metadata before '|' is empty"));
            }
            let mut name = String::new();
            let mut i: usize = 0;
            while i < metadata.len()
                invariant
                    0 <= i <= metadata@.len(),
                    name@ == replace_char(metadata@.take(i as int), ':', '_'),
                decreases metadata@.len() - i,
            {
                let c = metadata[i];
                push_char(&mut name, if c == ':' { '_' } else { c });
                assert(name@ =~= replace_char(metadata@.take(i + 1), ':', '_'));
                i = i + 1;
            }
            assert(metadata@.take(metadata@.len() as int) =~= metadata@);
            push_char(&mut name, '.');
            push_char(&mut name, 'b');
            push_char(&mut name, 'm');
            push_char(&mut name, 'p');
            assert(name@ =~= replace_char(metadata@, ':', '_') + seq!['.', 'b', 'm', 'p']);
            Ok(name)
        },
    }
}

/// The log name for a received image: the metadata before `|` of its file
/// name, with `:` replaced by `_`, and the `.bmp` extension.
pub fn output_filename(filename: &str) -> (res: Result<String, String>)
    ensures
        plain_name(filename@) ==> text_result(res) == output_name(filename@),
        relative_slash_path(filename@) ==> text_result(res) == output_name(
            after_last_slash(filename@),
        ),
        exists|i: int, j: int|
            0 <= i <= j <= filename@.len() && text_result(res) == output_name(
                #[trigger] filename@.subrange(i, j),
            ),
{
    let file_name = path_file_name(filename);
    output_name_for(file_name)
}

fn ends_with_four(chars: &Vec<char>, a: char, b: char, c: char, d: char) -> (r: bool)
    ensures
        r == has_suffix(chars@, seq![a, b, c, d]),
{
    let n = chars.len();
    if n < 4 {
        return false;
    }
    let r = chars[n - 4] == a && chars[n - 3] == b && chars[n - 2] == c && chars[n - 1] == d;
    assert(r == (chars@.subrange(n - 4, n as int) =~= seq![a, b, c, d]));
    r
}

/// The coordinate tokens of an image whose file name is `file_name`.
pub fn coordinate_tokens_for(file_name: &str) -> (res: Result<Vec<String>, String>)
    ensures
        match res {
            Ok(tokens) => coordinate_token_list(file_name@) == Ok::<Seq<Seq<char>>, Seq<char>>(
                tokens.deep_view(),
            ),
            Err(m) => coordinate_token_list(file_name@) == Err::<Seq<Seq<char>>, Seq<char>>(m@),
        },
{
    let chars = chars_of(file_name);
    match split_once_chars(&chars, '|') {
        None => {
            let mut message = String::from_str("Filename does not contain '|': ");
            message.append(file_name);
            Err(message)
        },
        Some((_, coordinates)) => {
            let stem = if ends_with_four(&coordinates, '.', 'B', 'M', 'P') || ends_with_four(
                &coordinates,
                '.',
                'b',
                'm',
                'p',
            ) {
                let cut = chars_between(&coordinates, 0, coordinates.len() - 4);
                assert(cut@ =~= coordinates@.take(coordinates@.len() - 4));
                cut
            } else {
                coordinates
            };
            let tokens = split_all_chars(&stem, '_');
            if tokens.len() != 4 {
                let mut message = String::from_str("Expected 4 coordinate pairs: ");
                message.append(file_name);
                return Err(message);
            }
            Ok(tokens)
        },
    }
}

/// The coordinate tokens of an image name `metadata|x1-y1_x2-y2_x3-y3_x4-y4.BMP`:
/// the four pieces of the text after `|`, without its extension, split at `_`.
pub fn coordinate_tokens(filename: &str) -> (res: Result<Vec<String>, String>)
    ensures
        plain_name(filename@) ==> match res {
            Ok(tokens) => coordinate_token_list(filename@) == Ok::<Seq<Seq<char>>, Seq<char>>(
                tokens.deep_view(),
            ),
            Err(m) => coordinate_token_list(filename@) == Err::<Seq<Seq<char>>, Seq<char>>(m@),
        },
        relative_slash_path(filename@) ==> match res {
            Ok(tokens) => coordinate_token_list(after_last_slash(filename@)) == Ok::<
                Seq<Seq<char>>,
                Seq<char>,
            >(tokens.deep_view()),
            Err(m) => coordinate_token_list(after_last_slash(filename@)) == Err::<
                Seq<Seq<char>>,
                Seq<char>,
            >(m@),
        },
        exists|i: int, j: int|
            0 <= i <= j <= filename@.len() && match res {
                Ok(tokens) => coordinate_token_list(#[trigger] filename@.subrange(i, j)) == Ok::<
                    Seq<Seq<char>>,
                    Seq<char>,
                >(tokens.deep_view()),
                Err(m) => coordinate_token_list(filename@.subrange(i, j)) == Err::<
                    Seq<Seq<char>>,
                    Seq<char>,
                >(m@),
            },
{
    let file_name = path_file_name(filename);
    coordinate_tokens_for(file_name)
}

/// Splits a coordinate token `x-y` at its first `-`.
pub fn split_coordinate_pair(token: &str) -> (res: Result<(String, String), String>)
    ensures
        match res {
            Ok((x, y)) => coordinate_pair(token@) == Ok::<(Seq<char>, Seq<char>), Seq<char>>(
                (x@, y@),
            ),
            Err(m) => coordinate_pair(token@) == Err::<(Seq<char>, Seq<char>), Seq<char>>(m@),
        },
{
    let chars = chars_of(token);
    match split_once_chars(&chars, '-') {
        Some((x, y)) => Ok((string_of(x.as_slice()), string_of(y.as_slice()))),
        None => {
            let mut message = String::from_str("Invalid coordinate pair: ");
            message.append(token);
            Err(message)
        },
    }
}

/// The metadata that the viewer shows for an image name: the text before the
/// first `|`, or the whole name.
pub fn gui_metadata(source_name: &str) -> (metadata: String)
    ensures
        metadata@ == viewer_metadata(source_name@),
{
    let chars = chars_of(source_name);
    match split_once_chars(&chars, '|') {
        Some((head, _)) => string_of(head.as_slice()),
        None => string_of(chars.as_slice()),
    }
}

/// A log name is safe on Windows: it holds no `:` and ends with `.bmp`; the
/// metadata keeps its length, so both of its values survive.
pub proof fn law_output_name_is_file_safe(file_name: Seq<char>)
    ensures
        output_name(file_name) matches Ok(name) ==> {
            &&& forall|i: int| 0 <= i < name.len() ==> #[trigger] name[i] != ':'
            &&& has_suffix(name, seq!['.', 'b', 'm', 'p'])
            &&& name.len() == split_once(file_name, '|').unwrap().0.len() + 4
        },
{
    if let Ok(name) = output_name(file_name) {
        let metadata = split_once(file_name, '|').unwrap().0;
        let safe = replace_char(metadata, ':', '_');
        assert(name == safe + seq!['.', 'b', 'm', 'p']);
        assert forall|i: int| 0 <= i < name.len() implies #[trigger] name[i] != ':' by {
            if i < safe.len() {
                assert(name[i] == safe[i]);
            }
        }
        assert(name.subrange(name.len() - 4, name.len() as int) =~= seq!['.', 'b', 'm', 'p']);
    }
}

/// The log name keeps the metadata in place: when the first `|` of the file
/// name stands at `k > 0`, the name has `k + 4` characters, character `i < k`
/// is the file name's character `i` unchanged, except that a `:` becomes `_`,
/// and `.bmp` follows; when the name starts with `|`, there is no log name.
pub proof fn law_output_name_keeps_metadata(file_name: Seq<char>, k: int)
    requires
        0 <= k < file_name.len(),
        file_name[k] == '|',
        forall|j: int| 0 <= j < k ==> file_name[j] != '|',
    ensures
        k == 0 ==> output_name(file_name) is Err,
        k > 0 ==> (output_name(file_name) matches Ok(name) && {
            &&& name.len() == k + 4
            &&& forall|i: int|
                0 <= i < k ==> #[trigger] name[i] == if file_name[i] == ':' {
                    '_'
                } else {
                    file_name[i]
                }
            &&& name[k] == '.' && name[k + 1] == 'b' && name[k + 2] == 'm' && name[k + 3] == 'p'
        }),
{
    crate::text::lemma_first_index_is(file_name, '|', k);
    if k > 0 {
        let metadata = file_name.take(k);
        let name = replace_char(metadata, ':', '_') + seq!['.', 'b', 'm', 'p'];
        assert(output_name(file_name) == Ok::<Seq<char>, Seq<char>>(name));
        assert forall|i: int| 0 <= i < k implies #[trigger] name[i] == if file_name[i] == ':' {
            '_'
        } else {
            file_name[i]
        } by {
            assert(metadata[i] == file_name[i]);
        }
    }
}

/// A file name without `|` gives no log name.
pub proof fn law_output_name_needs_bar(file_name: Seq<char>)
    requires
        forall|j: int| 0 <= j < file_name.len() ==> file_name[j] != '|',
    ensures
        output_name(file_name) is Err,
{
    crate::text::lemma_first_index_none(file_name, '|');
}

} // verus!
