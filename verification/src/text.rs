//! Decimal rendering of numbers, for the messages that the library builds.
use vstd::prelude::*;
use vstd::std_specs::iter::IteratorSpec;

verus! {

/// The character of a decimal digit.
pub open spec fn digit_char(d: nat) -> char {
    (48 + d) as char
}

/// The decimal digits of `n`, most significant first, without leading zeros.
pub open spec fn decimal(n: nat) -> Seq<char>
    decreases n,
{
    if n < 10 {
        seq![digit_char(n)]
    } else {
        decimal(n / 10) + seq![digit_char(n % 10)]
    }
}

fn digit_str(d: u64) -> (s: &'static str)
    requires
        d < 10,
    ensures
        s@ == seq![digit_char(d as nat)],
{
    match d {
        0 => {
            proof { reveal_strlit("0"); }
            "0"
        },
        1 => {
            proof { reveal_strlit("1"); }
            "1"
        },
        2 => {
            proof { reveal_strlit("2"); }
            "2"
        },
        3 => {
            proof { reveal_strlit("3"); }
            "3"
        },
        4 => {
            proof { reveal_strlit("4"); }
            "4"
        },
        5 => {
            proof { reveal_strlit("5"); }
            "5"
        },
        6 => {
            proof { reveal_strlit("6"); }
            "6"
        },
        7 => {
            proof { reveal_strlit("7"); }
            "7"
        },
        8 => {
            proof { reveal_strlit("8"); }
            "8"
        },
        _ => {
            proof { reveal_strlit("9"); }
            "9"
        },
    }
}

/// The decimal rendering of `n`, as `format!("{}", n)` gives it.
pub fn decimal_string(n: u64) -> (s: String)
    ensures
        s@ == decimal(n as nat),
    decreases n,
{
    if n < 10 {
        String::from_str(digit_str(n))
    } else {
        let mut s = decimal_string(n / 10);
        s.append(digit_str(n % 10));
        s
    }
}

/// Appends one character; `String::push` in std.
#[verifier::external_body]
pub fn push_char(s: &mut String, c: char)
    ensures
        final(s)@ == old(s)@.push(c),
{
    s.push(c)
}

/// The characters of `s`, in order.
pub fn chars_of(s: &str) -> (chars: Vec<char>)
    ensures
        chars@ == s@,
{
    broadcast use vstd::string::group_string_axioms;

    let mut it = s.chars();
    let mut chars: Vec<char> = Vec::new();
    loop
        invariant
            chars@ + IteratorSpec::remaining(&it) == s@,
            it.obeys_prophetic_iter_laws(),
            IteratorSpec::decrease(&it) is Some,
        ensures
            chars@ == s@,
        decreases IteratorSpec::decrease(&it)->0,
    {
        match it.next() {
            Some(c) => {
                chars.push(c);
                assert(chars@ + IteratorSpec::remaining(&it) =~= s@);
            },
            None => {
                assert(chars@ =~= s@);
                break;
            },
        }
    }
    chars
}

/// The text made of `chars`.
pub fn string_of(chars: &[char]) -> (s: String)
    ensures
        s@ == chars@,
{
    let mut s = String::new();
    let mut i: usize = 0;
    while i < chars.len()
        invariant
            0 <= i <= chars@.len(),
            s@ == chars@.take(i as int),
        decreases chars@.len() - i,
    {
        push_char(&mut s, chars[i]);
        assert(s@ =~= chars@.take(i + 1));
        i = i + 1;
    }
    assert(chars@.take(chars@.len() as int) =~= chars@);
    s
}

/// Whether `c` has the Unicode `White_Space` property (PropList.txt): the
/// 25 code points U+0009..U+000D, U+0020, U+0085, U+00A0, U+1680,
/// U+2000..U+200A, U+2028, U+2029, U+202F, U+205F and U+3000.
pub open spec fn white_space(c: char) -> bool {
    let v = c as u32;
    ||| 0x09 <= v <= 0x0d
    ||| v == 0x20
    ||| v == 0x85
    ||| v == 0xa0
    ||| v == 0x1680
    ||| 0x2000 <= v <= 0x200a
    ||| v == 0x2028
    ||| v == 0x2029
    ||| v == 0x202f
    ||| v == 0x205f
    ||| v == 0x3000
}

/// `char::is_whitespace` in std, which std documents as the Unicode
/// `White_Space` property; the contract states that property's code points.
#[verifier::external_body]
pub fn is_white_space(c: char) -> (b: bool)
    ensures
        b == white_space(c),
{
    c.is_whitespace()
}

/// `s` without leading white space.
pub open spec fn trim_start(s: Seq<char>) -> Seq<char>
    decreases s.len(),
{
    if s.len() > 0 && white_space(s[0]) {
        trim_start(s.drop_first())
    } else {
        s
    }
}

/// `s` without trailing white space.
pub open spec fn trim_end(s: Seq<char>) -> Seq<char>
    decreases s.len(),
{
    if s.len() > 0 && white_space(s.last()) {
        trim_end(s.drop_last())
    } else {
        s
    }
}

/// `s` without leading and trailing white space, as `str::trim` gives it.
pub open spec fn trim(s: Seq<char>) -> Seq<char> {
    trim_end(trim_start(s))
}

/// The characters of `chars` without leading and trailing white space.
pub fn trim_chars(chars: &Vec<char>) -> (t: Vec<char>)
    ensures
        t@ == trim(chars@),
{
    let n = chars.len();
    let mut start: usize = 0;
    assert(chars@.skip(0) =~= chars@);
    while start < n && is_white_space(chars[start])
        invariant
            n == chars@.len(),
            0 <= start <= n,
            trim_start(chars@) == trim_start(chars@.skip(start as int)),
        decreases n - start,
    {
        assert(chars@.skip(start as int).drop_first() =~= chars@.skip(start + 1));
        start = start + 1;
    }
    let ghost front = chars@.skip(start as int);
    assert(trim_start(chars@) == front);
    let mut end: usize = n;
    assert(front =~= chars@.subrange(start as int, n as int));
    while end > start && is_white_space(chars[end - 1])
        invariant
            n == chars@.len(),
            0 <= start <= end <= n,
            front == chars@.skip(start as int),
            trim_end(front) == trim_end(chars@.subrange(start as int, end as int)),
        decreases end - start,
    {
        assert(chars@.subrange(start as int, end as int).drop_last() =~= chars@.subrange(
            start as int,
            end - 1,
        ));
        end = end - 1;
    }
    assert(trim_end(chars@.subrange(start as int, end as int)) == chars@.subrange(start as int, end as int));
    let mut t: Vec<char> = Vec::new();
    let mut i = start;
    while i < end
        invariant
            start <= i <= end <= n,
            n == chars@.len(),
            t@ == chars@.subrange(start as int, i as int),
        decreases end - i,
    {
        t.push(chars[i]);
        assert(t@ =~= chars@.subrange(start as int, i + 1));
        i = i + 1;
    }
    proof {
        assert(front =~= chars@.subrange(start as int, n as int));
    }
    t
}

/// The value of a string of decimal digits.
pub open spec fn digits_value(s: Seq<char>) -> nat
    decreases s.len(),
{
    if s.len() == 0 {
        0
    } else {
        digits_value(s.drop_last()) * 10 + (s.last() as nat - 48) as nat
    }
}

/// Whether every character of `s` is a decimal digit.
pub open spec fn all_digits(s: Seq<char>) -> bool {
    forall|i: int| 0 <= i < s.len() ==> '0' <= #[trigger] s[i] <= '9'
}

/// The number that `u64::from_str` reads from `s`: an optional `+` followed
/// by at least one decimal digit, with a value that fits in a `u64`.
pub open spec fn decimal_u64(s: Seq<char>) -> Option<u64> {
    let digits = if s.len() > 0 && s[0] == '+' {
        s.drop_first()
    } else {
        s
    };
    if digits.len() > 0 && all_digits(digits) && digits_value(digits) <= u64::MAX {
        Some(digits_value(digits) as u64)
    } else {
        None
    }
}

/// The message of the error that `u64::from_str` gives for `s`.
pub uninterp spec fn u64_parse_error_text(s: Seq<char>) -> Seq<char>;

/// `u64::from_str` in std, with its error rendered as text. std documents
/// the accepted form: an optional `+` followed by decimal digits only, with a
/// value that fits; the wording of the error message is std's and is named.
#[verifier::external_body]
pub fn parse_u64(text: &str) -> (res: Result<u64, String>)
    ensures
        match res {
            Ok(n) => decimal_u64(text@) == Some(n),
            Err(m) => decimal_u64(text@) is None && m@ == u64_parse_error_text(text@),
        },
{
    match text.parse::<u64>() {
        Ok(n) => Ok(n),
        Err(e) => Err(e.to_string()),
    }
}

/// The text before the first `sep` and the text after it, if `sep` occurs.
pub open spec fn split_once(s: Seq<char>, sep: char) -> Option<(Seq<char>, Seq<char>)> {
    match s.index_of_first(sep) {
        Some(i) => Some((s.take(i), s.skip(i + 1))),
        None => None,
    }
}

/// The pieces of `s` between the occurrences of `sep`, as `str::split` gives them.
pub open spec fn split_all(s: Seq<char>, sep: char) -> Seq<Seq<char>>
    decreases s.len(),
{
    match s.index_of_first(sep) {
        Some(i) => {
            proof {
                s.index_of_first_ensures(sep);
            }
            seq![s.take(i)] + split_all(s.skip(i + 1), sep)
        },
        None => seq![s],
    }
}


pub proof fn lemma_first_index_is(s: Seq<char>, c: char, i: int)
    requires
        0 <= i < s.len(),
        s[i] == c,
        forall|j: int| 0 <= j < i ==> s[j] != c,
    ensures
        s.index_of_first(c) == Some(i),
{
    s.index_of_first_ensures(c);
    let k = s.index_of_first(c).unwrap();
    if k < i {
        assert(s[k] == c);
    }
    if k > i {
        assert(s[i] != c);
    }
}

pub proof fn lemma_first_index_none(s: Seq<char>, c: char)
    requires
        forall|j: int| 0 <= j < s.len() ==> s[j] != c,
    ensures
        s.index_of_first(c) is None,
{
    s.index_of_first_ensures(c);
    if s.index_of_first(c) is Some {
        let k = s.index_of_first(c).unwrap();
        assert(s[k] == c);
    }
}

/// Where `sep` first occurs in `chars`, if it does.
pub fn find_char(chars: &Vec<char>, sep: char) -> (pos: Option<usize>)
    ensures
        match pos {
            Some(i) => i < chars@.len() && chars@.index_of_first(sep) == Some(i as int),
            None => chars@.index_of_first(sep) is None,
        },
{
    let mut i: usize = 0;
    while i < chars.len()
        invariant
            0 <= i <= chars@.len(),
            forall|j: int| 0 <= j < i ==> chars@[j] != sep,
        decreases chars@.len() - i,
    {
        if chars[i] == sep {
            proof {
                lemma_first_index_is(chars@, sep, i as int);
            }
            return Some(i);
        }
        i = i + 1;
    }
    proof {
        lemma_first_index_none(chars@, sep);
    }
    None
}

/// The characters of `chars` from `start` to `end`.
pub fn chars_between(chars: &Vec<char>, start: usize, end: usize) -> (part: Vec<char>)
    requires
        start <= end <= chars@.len(),
    ensures
        part@ == chars@.subrange(start as int, end as int),
{
    let mut part: Vec<char> = Vec::new();
    let mut i = start;
    while i < end
        invariant
            start <= i <= end <= chars@.len(),
            part@ == chars@.subrange(start as int, i as int),
        decreases end - i,
    {
        part.push(chars[i]);
        assert(part@ =~= chars@.subrange(start as int, i + 1));
        i = i + 1;
    }
    part
}

/// Splits at the first `sep`.
pub fn split_once_chars(chars: &Vec<char>, sep: char) -> (parts: Option<(Vec<char>, Vec<char>)>)
    ensures
        match parts {
            Some((a, b)) => split_once(chars@, sep) == Some((a@, b@)),
            None => split_once(chars@, sep) is None,
        },
{
    let n = chars.len();
    match find_char(chars, sep) {
        Some(i) => {
            let head = chars_between(chars, 0, i);
            let tail = chars_between(chars, i + 1, n);
            assert(head@ =~= chars@.take(i as int));
            assert(tail@ =~= chars@.skip(i + 1));
            Some((head, tail))
        },
        None => None,
    }
}

/// Splits at every `sep`.
pub fn split_all_chars(chars: &Vec<char>, sep: char) -> (parts: Vec<String>)
    ensures
        parts.deep_view() == split_all(chars@, sep),
{
    let mut parts: Vec<String> = Vec::new();
    let mut current: Vec<char> = Vec::new();
    let mut i: usize = 0;
    assert(current@ + chars@.skip(0) =~= chars@);
    assert(parts.deep_view() + split_all(chars@, sep) =~= split_all(chars@, sep));
    while i < chars.len()
        invariant
            0 <= i <= chars@.len(),
            forall|j: int| 0 <= j < current@.len() ==> current@[j] != sep,
            split_all(chars@, sep) == parts.deep_view() + split_all(
                current@ + chars@.skip(i as int),
                sep,
            ),
        decreases chars@.len() - i,
    {
        let c = chars[i];
        let ghost rest = current@ + chars@.skip(i as int);
        if c == sep {
            proof {
                lemma_first_index_is(rest, sep, current@.len() as int);
                assert(rest.take(current@.len() as int) =~= current@);
                assert(rest.skip(current@.len() as int + 1) =~= Seq::<char>::empty() + chars@.skip(i + 1));
            }
            let piece = string_of(current.as_slice());
            let ghost before = parts.deep_view();
            parts.push(piece);
            assert(parts.deep_view() =~= before + seq![current@]);
            current = Vec::new();
            assert(split_all(chars@, sep) =~= parts.deep_view() + split_all(
                current@ + chars@.skip(i + 1),
                sep,
            ));
        } else {
            current.push(c);
            assert(current@ + chars@.skip(i + 1) =~= rest);
        }
        i = i + 1;
    }
    proof {
        assert(current@ + chars@.skip(i as int) =~= current@);
        lemma_first_index_none(current@, sep);
    }
    let piece = string_of(current.as_slice());
    let ghost before = parts.deep_view();
    parts.push(piece);
    assert(parts.deep_view() =~= before + seq![current@]);
    parts
}


} // verus!
