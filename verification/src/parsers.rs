//! The template syntax: its grammar, as functions from a text and a
//! position to what is read there and where reading ends, and the parser
//! that computes them.

use vstd::prelude::*;
use vstd::string::*;
use crate::pipes::{Pipe, PipeCall, pipe_calls};
use crate::template::{
    Access, ForGrouping, ForSortAndFilter, Grouping, Node, PipedPath, SortFilter,
    TemplateElement, TemplateValue, TemplateValueAccess, TemplateValueWithPipe, ValuePath,
    accesses_of, alternatives_of, groupings_of, lemma_access_view, lemma_node_view,
    lemma_path_view, nodes_of, paths_of, piped_paths_of,
};
use crate::text::{chars_of, decimal, decimal_text, same_text, text_of, texts};

verus! {

/// Whether `c` is a blank: a space, a tab or a line break.
pub open spec fn is_space(c: char) -> bool {
    c == ' ' || c == '\t' || c == '\n' || c == '\r'
}

/// Whether `c` is a decimal digit.
pub open spec fn is_digit(c: char) -> bool {
    48 <= c as u32 <= 57
}

/// Whether `c` can stand in a name: a letter, a digit, `_` or `-`.
pub open spec fn is_name_char(c: char) -> bool {
    let n = c as u32;
    (48 <= n <= 57) || (65 <= n <= 90) || (97 <= n <= 122) || n == 95 || n == 45
}

/// Whether `c` can stand in a file name or in a pipe's parameter: any
/// character but a blank and `|`, `$`, `%`, `{`, `}`, `)`, `,`.
pub open spec fn is_word_char(c: char) -> bool {
    !is_space(c) && c != '|' && c != '$' && c != '%' && c != '{' && c != '}' && c != ')' && c
        != ','
}

/// The first position at or after `i` that holds no blank.
pub open spec fn skip_spaces(s: Seq<char>, i: int) -> int
    decreases s.len() - i,
{
    if 0 <= i < s.len() && is_space(s[i]) {
        skip_spaces(s, i + 1)
    } else {
        i
    }
}

/// The first position at or after `i` that holds no name character.
pub open spec fn name_end(s: Seq<char>, i: int) -> int
    decreases s.len() - i,
{
    if 0 <= i < s.len() && is_name_char(s[i]) {
        name_end(s, i + 1)
    } else {
        i
    }
}

/// The first position at or after `i` that holds no word character.
pub open spec fn word_end(s: Seq<char>, i: int) -> int
    decreases s.len() - i,
{
    if 0 <= i < s.len() && is_word_char(s[i]) {
        word_end(s, i + 1)
    } else {
        i
    }
}

/// The number that the first `n` characters of `w` write in decimal
/// notation, or `None` where one of them is no digit.
pub open spec fn number_of(w: Seq<char>, n: int) -> Option<nat>
    decreases n,
{
    if n <= 0 {
        Some(0)
    } else {
        match number_of(w, n - 1) {
            None => None,
            Some(v) => if is_digit(w[n - 1]) {
                Some((v * 10 + (w[n - 1] as u32 - 48)) as nat)
            } else {
                None
            },
        }
    }
}

/// Whether `w` is a word that ends a pipe's parameters.
pub open spec fn is_reserved(w: Seq<char>) -> bool {
    w == "in"@ || w == "in-file"@ || w == "in-file-at"@ || w == "sort"@ || w == "sort-asc"@ || w
        == "sort-desc"@ || w == "include"@ || w == "exclude"@
}

fn is_space_char(c: char) -> (r: bool)
    ensures
        r == is_space(c),
{
    c == ' ' || c == '\t' || c == '\n' || c == '\r'
}

fn is_digit_char(c: char) -> (r: bool)
    ensures
        r == is_digit(c),
{
    let n: u32 = c as u32;
    48 <= n && n <= 57
}

fn is_name_character(c: char) -> (r: bool)
    ensures
        r == is_name_char(c),
{
    let n: u32 = c as u32;
    (48 <= n && n <= 57) || (65 <= n && n <= 90) || (97 <= n && n <= 122) || n == 95 || n == 45
}

fn is_word_character(c: char) -> (r: bool)
    ensures
        r == is_word_char(c),
{
    !is_space_char(c) && c != '|' && c != '$' && c != '%' && c != '{' && c != '}' && c != ')' && c
        != ','
}

fn spaces_end(s: &Vec<char>, i: usize) -> (j: usize)
    requires
        i <= s.len(),
    ensures
        j == skip_spaces(s@, i as int),
        i <= j <= s.len(),
{
    let mut j: usize = i;
    while j < s.len() && is_space_char(s[j])
        invariant
            i <= j <= s.len(),
            skip_spaces(s@, i as int) == skip_spaces(s@, j as int),
        decreases s.len() - j,
    {
        j += 1;
    }
    j
}

fn name_end_at(s: &Vec<char>, i: usize) -> (j: usize)
    requires
        i <= s.len(),
    ensures
        j == name_end(s@, i as int),
        i <= j <= s.len(),
{
    let mut j: usize = i;
    while j < s.len() && is_name_character(s[j])
        invariant
            i <= j <= s.len(),
            name_end(s@, i as int) == name_end(s@, j as int),
        decreases s.len() - j,
    {
        j += 1;
    }
    j
}

fn word_end_at(s: &Vec<char>, i: usize) -> (j: usize)
    requires
        i <= s.len(),
    ensures
        j == word_end(s@, i as int),
        i <= j <= s.len(),
{
    let mut j: usize = i;
    while j < s.len() && is_word_character(s[j])
        invariant
            i <= j <= s.len(),
            word_end(s@, i as int) == word_end(s@, j as int),
        decreases s.len() - j,
    {
        j += 1;
    }
    j
}

/// Whether the position `i` of `s` holds the character `c`.
pub open spec fn holds(s: Seq<char>, i: int, c: char) -> bool {
    0 <= i < s.len() && s[i] == c
}

fn holds_at(s: &Vec<char>, i: usize, c: char) -> (r: bool)
    ensures
        r == holds(s@, i as int, c),
{
    i < s.len() && s[i] == c
}

/// A number that grows by a digit does not get smaller.
proof fn lemma_number_grows(w: Seq<char>, m: int, n: int)
    requires
        0 <= m <= n,
        number_of(w, n) is Some,
    ensures
        number_of(w, m) is Some,
        number_of(w, m)->0 <= number_of(w, n)->0,
    decreases n - m,
{
    if m < n {
        lemma_number_grows(w, m, n - 1);
    }
}

/// What an index between brackets is read as.
pub enum IndexWord {
    /// All digits, and the number fits.
    Number(usize),
    /// All digits, and the number is too large.
    TooLarge,
    /// Not all digits.
    NoNumber,
}

/// What the characters from `a` to `b` are read as, as an index.
pub open spec fn index_word(s: Seq<char>, a: int, b: int) -> IndexWord {
    match number_of(s.subrange(a, b), b - a) {
        None => IndexWord::NoNumber,
        Some(n) => if n <= usize::MAX {
            IndexWord::Number(n as usize)
        } else {
            IndexWord::TooLarge
        },
    }
}

fn read_index_word(s: &Vec<char>, a: usize, b: usize) -> (r: IndexWord)
    requires
        a <= b <= s.len(),
    ensures
        r == index_word(s@, a as int, b as int),
{
    let ghost w = s@.subrange(a as int, b as int);
    let mut k: usize = a;
    while k < b
        invariant
            a <= k <= b <= s.len(),
            w == s@.subrange(a as int, b as int),
            number_of(w, k - a) is Some,
        decreases b - k,
    {
        if !is_digit_char(s[k]) {
            proof {
                assert(w[k - a] == s@[k as int]);
                assert(number_of(w, k - a + 1) is None);
                if number_of(w, b - a) is Some {
                    lemma_number_grows(w, k - a + 1, b - a);
                }
            }
            return IndexWord::NoNumber;
        }
        proof {
            assert(w[k - a] == s@[k as int]);
        }
        k += 1;
    }
    let mut v: usize = 0;
    let mut k: usize = a;
    while k < b
        invariant
            a <= k <= b <= s.len(),
            w == s@.subrange(a as int, b as int),
            number_of(w, b - a) is Some,
            number_of(w, k - a) == Some(v as nat),
        decreases b - k,
    {
        proof {
            assert(w[k - a] == s@[k as int]);
            lemma_number_grows(w, k - a + 1, b - a);
            lemma_number_grows(w, k - a, k - a + 1);
        }
        let d: usize = (s[k] as u32 - 48) as usize;
        if v > (usize::MAX - d) / 10 {
            proof {
                assert(v * 10 + d > usize::MAX);
            }
            return IndexWord::TooLarge;
        }
        v = v * 10 + d;
        k += 1;
    }
    IndexWord::Number(v)
}

/// The value path that starts at `i`, and where it ends.
pub open spec fn p_value(s: Seq<char>, i: int) -> Option<(ValuePath, int)>
    decreases s.len() - i, 1int,
{
    let j = name_end(s, i);
    if 0 <= i < j <= s.len() {
        match p_accesses(s, j, Seq::empty()) {
            Some((accesses, k)) => Some((ValuePath { base: s.subrange(i, j), accesses }, k)),
            None => None,
        }
    } else {
        None
    }
}

/// The accesses that start at `i`, after `acc`, and where they end.
pub open spec fn p_accesses(s: Seq<char>, i: int, acc: Seq<Access>) -> Option<(Seq<Access>, int)>
    decreases s.len() - i, 0int,
{
    if holds(s, i, '.') {
        let j = name_end(s, i + 1);
        if i + 1 < j <= s.len() {
            p_accesses(s, j, acc.push(Access::Field(s.subrange(i + 1, j))))
        } else {
            None
        }
    } else if holds(s, i, '[') {
        let a = skip_spaces(s, i + 1);
        let b = name_end(s, a);
        if !(i < a < b <= s.len()) {
            None
        } else {
            match index_word(s, a, b) {
                IndexWord::Number(n) => {
                    let c = skip_spaces(s, b);
                    if b <= c && holds(s, c, ']') {
                        p_accesses(s, c + 1, acc.push(Access::Index(n)))
                    } else {
                        None
                    }
                },
                IndexWord::TooLarge => None,
                IndexWord::NoNumber => match p_value(s, a) {
                    Some((inner, b2)) => {
                        let c = skip_spaces(s, b2);
                        if a < b2 <= c && holds(s, c, ']') {
                            p_accesses(s, c + 1, acc.push(Access::IndexAt(inner)))
                        } else {
                            None
                        }
                    },
                    None => None,
                },
            }
        }
    } else {
        Some((acc, i))
    }
}

/// The view of a value path that was read, with where it ends.
pub open spec fn value_read(r: Option<(TemplateValue, usize)>) -> Option<(ValuePath, int)> {
    match r {
        Some((v, k)) => Some((v@, k as int)),
        None => None,
    }
}

/// The view of accesses that were read, with where they end.
pub open spec fn accesses_read(r: Option<(Vec<TemplateValueAccess>, usize)>) -> Option<
    (Seq<Access>, int),
> {
    match r {
        Some((v, k)) => Some((accesses_of(v@), k as int)),
        None => None,
    }
}

fn parse_value(s: &Vec<char>, i: usize) -> (r: Option<(TemplateValue, usize)>)
    requires
        i <= s.len(),
    ensures
        value_read(r) == p_value(s@, i as int),
        r matches Some((_, k)) ==> i < k <= s.len(),
    decreases s.len() - i, 1int,
{
    let j = name_end_at(s, i);
    if i < j {
        match parse_accesses(s, j, Vec::new()) {
            Some((accesses, k)) => {
                let value = TemplateValue { base: text_of(s, i, j), accesses };
                proof {
                    lemma_path_view(value);
                    assert(accesses_of(Seq::<TemplateValueAccess>::empty()) =~= Seq::<
                        Access,
                    >::empty());
                }
                Some((value, k))
            },
            None => {
                proof {
                    assert(accesses_of(Seq::<TemplateValueAccess>::empty()) =~= Seq::<
                        Access,
                    >::empty());
                }
                None
            },
        }
    } else {
        None
    }
}

fn parse_accesses(s: &Vec<char>, i: usize, acc: Vec<TemplateValueAccess>) -> (r: Option<
    (Vec<TemplateValueAccess>, usize),
>)
    requires
        i <= s.len(),
    ensures
        accesses_read(r) == p_accesses(s@, i as int, accesses_of(acc@)),
        r matches Some((_, k)) ==> i <= k <= s.len(),
    decreases s.len() - i, 0int,
{
    let mut acc = acc;
    let ghost before = accesses_of(acc@);
    if holds_at(s, i, '.') {
        let j = name_end_at(s, i + 1);
        if i + 1 < j {
            let step = TemplateValueAccess::Field(text_of(s, i + 1, j));
            proof {
                lemma_access_view(step);
            }
            acc.push(step);
            assert(accesses_of(acc@) =~= before.push(step@));
            parse_accesses(s, j, acc)
        } else {
            None
        }
    } else if holds_at(s, i, '[') {
        let a = spaces_end(s, i + 1);
        let b = name_end_at(s, a);
        if !(a < b) {
            None
        } else {
            match read_index_word(s, a, b) {
                IndexWord::Number(n) => {
                    let c = spaces_end(s, b);
                    if holds_at(s, c, ']') {
                        let step = TemplateValueAccess::Index(n);
                        proof {
                            lemma_access_view(step);
                        }
                        acc.push(step);
                        assert(accesses_of(acc@) =~= before.push(step@));
                        parse_accesses(s, c + 1, acc)
                    } else {
                        None
                    }
                },
                IndexWord::TooLarge => None,
                IndexWord::NoNumber => match parse_value(s, a) {
                    Some((inner, b2)) => {
                        let c = spaces_end(s, b2);
                        if holds_at(s, c, ']') {
                            let step = TemplateValueAccess::IndexAt(inner);
                            proof {
                                lemma_access_view(step);
                            }
                            acc.push(step);
                            assert(accesses_of(acc@) =~= before.push(step@));
                            parse_accesses(s, c + 1, acc)
                        } else {
                            None
                        }
                    },
                    None => None,
                },
            }
        }
    } else {
        Some((acc, i))
    }
}

/// The parameters of a pipe that start at `i`, after `acc`, and where
/// they end: words set off by blanks, up to a reserved word.
pub open spec fn p_args(s: Seq<char>, i: int, acc: Seq<Seq<char>>) -> (Seq<Seq<char>>, int)
    decreases s.len() - i,
{
    let a = skip_spaces(s, i);
    let b = word_end(s, a);
    if 0 <= i < a < b <= s.len() && !is_reserved(s.subrange(a, b)) {
        p_args(s, b, acc.push(s.subrange(a, b)))
    } else {
        (acc, i)
    }
}

/// The pipes that start at `i`, after `acc`, and where they end.
pub open spec fn p_pipes(s: Seq<char>, i: int, acc: Seq<PipeCall>) -> Option<(Seq<PipeCall>, int)>
    decreases s.len() - i,
{
    let a = skip_spaces(s, i);
    if 0 <= i <= a && holds(s, a, '|') {
        let b = skip_spaces(s, a + 1);
        let c = name_end(s, b);
        if a < b < c <= s.len() {
            let (params, d) = p_args(s, c, Seq::empty());
            if c <= d <= s.len() {
                p_pipes(s, d, acc.push(PipeCall::Named { name: s.subrange(b, c), params }))
            } else {
                None
            }
        } else {
            None
        }
    } else if 0 <= i <= a && holds(s, a, '$') {
        p_pipes(s, a + 1, acc.push(PipeCall::Template))
    } else {
        Some((acc, i))
    }
}

/// The view of pipes that were read, with where they end.
pub open spec fn pipes_read(r: Option<(Vec<Pipe>, usize)>) -> Option<(Seq<PipeCall>, int)> {
    match r {
        Some((v, k)) => Some((pipe_calls(v@), k as int)),
        None => None,
    }
}

fn is_reserved_word(w: &str) -> (r: bool)
    ensures
        r == is_reserved(w@),
{
    same_text(w, "in") || same_text(w, "in-file") || same_text(w, "in-file-at") || same_text(
        w,
        "sort",
    ) || same_text(w, "sort-asc") || same_text(w, "sort-desc") || same_text(w, "include")
        || same_text(w, "exclude")
}

fn parse_args(s: &Vec<char>, i: usize) -> (r: (Vec<String>, usize))
    requires
        i <= s.len(),
    ensures
        (texts(r.0@), r.1 as int) == p_args(s@, i as int, Seq::empty()),
        i <= r.1 <= s.len(),
{
    let mut acc: Vec<String> = Vec::new();
    let mut at: usize = i;
    assert(texts(acc@) =~= Seq::<Seq<char>>::empty());
    loop
        invariant
            i <= at <= s.len(),
            p_args(s@, i as int, Seq::empty()) == p_args(s@, at as int, texts(acc@)),
        decreases s.len() - at,
    {
        let a = spaces_end(s, at);
        let b = word_end_at(s, a);
        if at < a && a < b {
            let word = text_of(s, a, b);
            if is_reserved_word(word.as_str()) {
                return (acc, at);
            }
            let ghost before = texts(acc@);
            acc.push(word);
            assert(texts(acc@) =~= before.push(s@.subrange(a as int, b as int)));
            at = b;
        } else {
            return (acc, at);
        }
    }
}

fn parse_pipes(s: &Vec<char>, i: usize) -> (r: Option<(Vec<Pipe>, usize)>)
    requires
        i <= s.len(),
    ensures
        pipes_read(r) == p_pipes(s@, i as int, Seq::empty()),
        r matches Some((_, k)) ==> i <= k <= s.len(),
{
    let mut acc: Vec<Pipe> = Vec::new();
    let mut at: usize = i;
    assert(pipe_calls(acc@) =~= Seq::<PipeCall>::empty());
    loop
        invariant
            i <= at <= s.len(),
            p_pipes(s@, i as int, Seq::empty()) == p_pipes(s@, at as int, pipe_calls(acc@)),
        decreases s.len() - at,
    {
        let a = spaces_end(s, at);
        let ghost before = pipe_calls(acc@);
        if holds_at(s, a, '|') {
            let b = spaces_end(s, a + 1);
            let c = name_end_at(s, b);
            if b < c {
                let (params, d) = parse_args(s, c);
                let pipe = Pipe::Named { name: text_of(s, b, c), params };
                acc.push(pipe);
                assert(pipe_calls(acc@) =~= before.push(pipe@));
                at = d;
            } else {
                return None;
            }
        } else if holds_at(s, a, '$') {
            acc.push(Pipe::Template);
            assert(pipe_calls(acc@) =~= before.push(PipeCall::Template));
            at = a + 1;
        } else {
            return Some((acc, at));
        }
    }
}

/// Whether a construct of the syntax opens at `i`: `{{`, `{%`, `{&}` or
/// `{?%}`.
pub open spec fn opens_at(s: Seq<char>, i: int) -> bool {
    holds(s, i, '{') && (holds(s, i + 1, '{') || holds(s, i + 1, '%') || (holds(s, i + 1, '&')
        && holds(s, i + 2, '}')) || (holds(s, i + 1, '?') && holds(s, i + 2, '%') && holds(
        s,
        i + 3,
        '}',
    )))
}

/// The first position at or after `i` where a construct opens, or the end.
pub open spec fn text_end(s: Seq<char>, i: int) -> int
    decreases s.len() - i,
{
    if 0 <= i < s.len() && !opens_at(s, i) {
        text_end(s, i + 1)
    } else {
        i
    }
}

/// Where the `%}` ends that closes a directive at `i`, after blanks.
pub open spec fn p_close(s: Seq<char>, i: int) -> Option<int> {
    let a = skip_spaces(s, i);
    if 0 <= i <= a && holds(s, a, '%') && holds(s, a + 1, '}') {
        Some(a + 2)
    } else {
        None
    }
}

/// Where the directive ends that stands at `i` and holds only `word`.
pub open spec fn p_tag(s: Seq<char>, i: int, word: Seq<char>) -> Option<int> {
    if holds(s, i, '{') && holds(s, i + 1, '%') {
        let a = skip_spaces(s, i + 2);
        let b = name_end(s, a);
        if i + 2 <= a <= b <= s.len() && s.subrange(a, b) == word {
            p_close(s, b)
        } else {
            None
        }
    } else {
        None
    }
}

/// The pipes at `i` and the end of the directive that they close.
pub open spec fn p_contents(s: Seq<char>, i: int) -> Option<(Seq<PipeCall>, int)> {
    match p_pipes(s, i, Seq::empty()) {
        None => None,
        Some((pipes, a)) => match p_close(s, a) {
            None => None,
            Some(b) => Some((pipes, b)),
        },
    }
}

/// The rest of a `file` or `snippet` directive, from `i` on.
pub open spec fn p_file(s: Seq<char>, i: int, snippet: bool) -> Option<(Node, int)> {
    let a = skip_spaces(s, i);
    if 0 <= i <= a && holds(s, a, '@') {
        let b = skip_spaces(s, a + 1);
        if holds(s, b, '(') {
            match p_value(s, skip_spaces(s, b + 1)) {
                None => None,
                Some((value, c)) => match p_pipes(s, c, Seq::empty()) {
                    None => None,
                    Some((value_pipe, d)) => {
                        let e = skip_spaces(s, d);
                        if holds(s, e, ')') {
                            match p_contents(s, e + 1) {
                                None => None,
                                Some((contents_pipe, f)) => Some(
                                    (Node::FileAt { snippet, value, value_pipe, contents_pipe }, f),
                                ),
                            }
                        } else {
                            None
                        }
                    },
                },
            }
        } else {
            match p_value(s, b) {
                None => None,
                Some((value, c)) => match p_contents(s, c) {
                    None => None,
                    Some((contents_pipe, f)) => Some(
                        (
                            Node::FileAt {
                                snippet,
                                value,
                                value_pipe: Seq::empty(),
                                contents_pipe,
                            },
                            f,
                        ),
                    ),
                },
            }
        }
    } else {
        let b = word_end(s, a);
        if 0 <= i <= a < b <= s.len() {
            match p_contents(s, b) {
                None => None,
                Some((pipe, f)) => Some((Node::File { snippet, filename: s.subrange(a, b), pipe }, f)),
            }
        } else {
            None
        }
    }
}

/// A list of value paths with pipes, set off by commas, from `i` on.
pub open spec fn p_piped_list(s: Seq<char>, i: int, acc: Seq<PipedPath>) -> Option<
    (Seq<PipedPath>, int),
>
    decreases s.len() - i,
{
    match p_value(s, i) {
        None => None,
        Some((value, a)) => match p_pipes(s, a, Seq::empty()) {
            None => None,
            Some((pipes, b)) => {
                let c = skip_spaces(s, b);
                let next = skip_spaces(s, c + 1);
                let item = PipedPath { value, pipes };
                if holds(s, c, ',') {
                    if 0 <= i < next <= s.len() {
                        p_piped_list(s, next, acc.push(item))
                    } else {
                        None
                    }
                } else {
                    Some((acc.push(item), b))
                }
            },
        },
    }
}

/// A list of value paths, set off by commas, from `i` on.
pub open spec fn p_path_list(s: Seq<char>, i: int, acc: Seq<ValuePath>) -> Option<
    (Seq<ValuePath>, int),
>
    decreases s.len() - i,
{
    match p_value(s, i) {
        None => None,
        Some((value, b)) => {
            let c = skip_spaces(s, b);
            let next = skip_spaces(s, c + 1);
            if holds(s, c, ',') {
                if 0 <= i < next <= s.len() {
                    p_path_list(s, next, acc.push(value))
                } else {
                    None
                }
            } else {
                Some((acc.push(value), b))
            }
        },
    }
}

/// A list of file names, set off by commas, from `i` on.
pub open spec fn p_name_list(s: Seq<char>, i: int, acc: Seq<Seq<char>>) -> Option<
    (Seq<Seq<char>>, int),
>
    decreases s.len() - i,
{
    let b = word_end(s, i);
    if 0 <= i < b <= s.len() {
        let c = skip_spaces(s, b);
        let next = skip_spaces(s, c + 1);
        if holds(s, c, ',') {
            if i < next <= s.len() {
                p_name_list(s, next, acc.push(s.subrange(i, b)))
            } else {
                None
            }
        } else {
            Some((acc.push(s.subrange(i, b)), b))
        }
    } else {
        None
    }
}

/// The clauses of a `for` directive from `i` on: what it runs over, how
/// it sorts and what it keeps. A clause given twice counts the last time.
pub open spec fn p_clauses(s: Seq<char>, i: int, g: Grouping, f: SortFilter) -> Option<
    (Grouping, SortFilter, int),
>
    decreases s.len() - i,
{
    let a = skip_spaces(s, i);
    let b = name_end(s, a);
    let w = s.subrange(a, b);
    let at = skip_spaces(s, b);
    if !(0 <= i <= a < b <= at <= s.len()) {
        Some((g, f, i))
    } else if w == "in"@ {
        match p_piped_list(s, at, Seq::empty()) {
            Some((values, c)) => if i < c <= s.len() {
                p_clauses(s, c, Grouping { values, ..g }, f)
            } else {
                None
            },
            None => None,
        }
    } else if w == "in-file"@ {
        match p_name_list(s, at, Seq::empty()) {
            Some((filenames, c)) => if i < c <= s.len() {
                p_clauses(s, c, Grouping { filenames, ..g }, f)
            } else {
                None
            },
            None => None,
        }
    } else if w == "in-file-at"@ {
        match p_path_list(s, at, Seq::empty()) {
            Some((files_at, c)) => if i < c <= s.len() {
                p_clauses(s, c, Grouping { files_at, ..g }, f)
            } else {
                None
            },
            None => None,
        }
    } else if w == "sort"@ || w == "sort-asc"@ || w == "sort-desc"@ {
        match p_value(s, at) {
            Some((key, c)) => if i < c <= s.len() {
                p_clauses(
                    s,
                    c,
                    g,
                    SortFilter { sort_key: Some(key), is_sort_ascending: w != "sort-desc"@, ..f },
                )
            } else {
                None
            },
            None => None,
        }
    } else if w == "include"@ {
        match p_value(s, at) {
            Some((key, c)) => if i < c <= s.len() {
                p_clauses(s, c, g, SortFilter { filter_includes: Some(key), ..f })
            } else {
                None
            },
            None => None,
        }
    } else if w == "exclude"@ {
        match p_value(s, at) {
            Some((key, c)) => if i < c <= s.len() {
                p_clauses(s, c, g, SortFilter { filter_excludes: Some(key), ..f })
            } else {
                None
            },
            None => None,
        }
    } else {
        None
    }
}

/// The nodes from `i` on, after `acc`, up to the first position where no
/// node stands, and that position.
pub open spec fn p_nodes(s: Seq<char>, i: int, acc: Seq<Node>) -> (Seq<Node>, int)
    decreases s.len() - i, 2int,
{
    match p_node(s, i) {
        Some((node, j)) => if 0 <= i < j <= s.len() {
            p_nodes(s, j, acc.push(node))
        } else {
            (acc, i)
        },
        None => (acc, i),
    }
}

/// The node that stands at `i`, and where it ends.
pub open spec fn p_node(s: Seq<char>, i: int) -> Option<(Node, int)>
    decreases s.len() - i, 1int,
{
    if holds(s, i, '{') && holds(s, i + 1, '{') {
        match p_value(s, skip_spaces(s, i + 2)) {
            None => None,
            Some((value, a)) => match p_pipes(s, a, Seq::empty()) {
                None => None,
                Some((pipe, b)) => {
                    let c = skip_spaces(s, b);
                    if holds(s, c, '}') && holds(s, c + 1, '}') {
                        Some((Node::Replace { value, pipe }, c + 2))
                    } else {
                        None
                    }
                },
            },
        }
    } else if holds(s, i, '{') && holds(s, i + 1, '%') && holds(s, i + 2, '?') && holds(
        s,
        i + 3,
        '}',
    ) {
        p_alternatives(s, i + 4, Seq::empty())
    } else if holds(s, i, '{') && holds(s, i + 1, '%') {
        let a = skip_spaces(s, i + 2);
        let b = name_end(s, a);
        let w = s.subrange(a, b);
        if !(i + 2 <= a <= b <= s.len()) {
            None
        } else if w == "file"@ {
            p_file(s, b, false)
        } else if w == "snippet"@ {
            p_file(s, b, true)
        } else if w == "if-exists"@ {
            p_if(s, b)
        } else if w == "for"@ {
            p_for(s, b)
        } else {
            None
        }
    } else if opens_at(s, i) {
        None
    } else {
        let j = text_end(s, i);
        if 0 <= i < j <= s.len() {
            Some((Node::PlainText(s.subrange(i, j)), j))
        } else {
            None
        }
    }
}

/// The rest of an `if-exists` construct, from `i` on, behind the word.
pub open spec fn p_if(s: Seq<char>, i: int) -> Option<(Node, int)>
    decreases s.len() - i, 3int,
{
    match p_value(s, skip_spaces(s, i)) {
        None => None,
        Some((value, a)) => match p_close(s, a) {
            None => None,
            Some(b) => if 0 <= i < b <= s.len() {
                let (when_true, c) = p_nodes(s, b, Seq::empty());
                match p_tag(s, c, "else"@) {
                    Some(d) => if i < d <= s.len() {
                        let (when_false, e) = p_nodes(s, d, Seq::empty());
                        match p_tag(s, e, "endif"@) {
                            Some(g) => Some((Node::IfExists { value, when_true, when_false }, g)),
                            None => None,
                        }
                    } else {
                        None
                    },
                    None => match p_tag(s, c, "endif"@) {
                        Some(g) => Some(
                            (Node::IfExists { value, when_true, when_false: Seq::empty() }, g),
                        ),
                        None => None,
                    },
                }
            } else {
                None
            },
        },
    }
}

/// The grouping of a loop that runs over nothing.
pub open spec fn no_grouping() -> Grouping {
    Grouping { values: Seq::empty(), filenames: Seq::empty(), files_at: Seq::empty() }
}

/// The order and filter of a loop that neither sorts nor filters.
pub open spec fn no_sort_filter() -> SortFilter {
    SortFilter {
        sort_key: None,
        is_sort_ascending: false,
        filter_includes: None,
        filter_excludes: None,
    }
}

/// The rest of a `for` construct, from `i` on, behind the word.
pub open spec fn p_for(s: Seq<char>, i: int) -> Option<(Node, int)>
    decreases s.len() - i, 3int,
{
    let a = skip_spaces(s, i);
    let b = name_end(s, a);
    if !(0 <= i <= a < b <= s.len()) {
        None
    } else {
        match p_clauses(s, b, no_grouping(), no_sort_filter()) {
            None => None,
            Some((grouping, sort_and_filter, c)) => match p_close(s, c) {
                None => None,
                Some(d) => if i < d <= s.len() {
                    let name = s.subrange(a, b);
                    let groupings = seq![grouping];
                    let (main, e) = p_nodes(s, d, Seq::empty());
                    match p_tag(s, e, "sep"@) {
                        Some(x) => if i < x <= s.len() {
                            let (separator, y) = p_nodes(s, x, Seq::empty());
                            match p_tag(s, y, "endfor"@) {
                                Some(z) => Some(
                                    (
                                        Node::For {
                                            name,
                                            main,
                                            groupings,
                                            separator,
                                            sort_and_filter,
                                        },
                                        z,
                                    ),
                                ),
                                None => None,
                            }
                        } else {
                            None
                        },
                        None => match p_tag(s, e, "endfor"@) {
                            Some(z) => Some(
                                (
                                    Node::For {
                                        name,
                                        main,
                                        groupings,
                                        separator: Seq::empty(),
                                        sort_and_filter,
                                    },
                                    z,
                                ),
                            ),
                            None => None,
                        },
                    }
                } else {
                    None
                },
            },
        }
    }
}

/// The alternatives of a lookup catcher from `i` on, after `acc`, up to
/// its end.
pub open spec fn p_alternatives(s: Seq<char>, i: int, acc: Seq<Seq<Node>>) -> Option<(Node, int)>
    decreases s.len() - i, 3int,
{
    let (nodes, b) = p_nodes(s, i, Seq::empty());
    if holds(s, b, '{') && holds(s, b + 1, '&') && holds(s, b + 2, '}') {
        if 0 <= i <= b {
            p_alternatives(s, b + 3, acc.push(nodes))
        } else {
            None
        }
    } else if holds(s, b, '{') && holds(s, b + 1, '?') && holds(s, b + 2, '%') && holds(
        s,
        b + 3,
        '}',
    ) {
        Some((Node::LookupCatcher(acc.push(nodes)), b + 4))
    } else {
        None
    }
}

/// The message for a template that cannot be read from `at` on.
pub open spec fn parse_message(at: nat) -> Seq<char> {
    "the template cannot be read from character "@ + decimal(at)
}

/// The template that `s` writes, or the position from which it cannot be
/// read.
pub open spec fn p_template(s: Seq<char>) -> Result<Seq<Node>, nat> {
    let (nodes, end) = p_nodes(s, 0, Seq::empty());
    if end == s.len() {
        Ok(nodes)
    } else {
        Err(end as nat)
    }
}

/// The value paths that `s` lists, set off by commas, or the position
/// from which it cannot be read.
pub open spec fn p_mapping(s: Seq<char>) -> Result<Seq<ValuePath>, nat> {
    let a = skip_spaces(s, 0);
    if a == s.len() {
        Ok(Seq::empty())
    } else {
        match p_path_list(s, a, Seq::empty()) {
            None => Err(a as nat),
            Some((values, b)) => {
                let c = skip_spaces(s, b);
                if c == s.len() {
                    Ok(values)
                } else {
                    Err(c as nat)
                }
            },
        }
    }
}

/// A text that is no template: the character from which it cannot be
/// read.
#[derive(Debug, PartialEq, Eq)]
pub struct ParseError {
    pub position: usize,
}

impl ParseError {
    /// The message that names the error.
    pub fn to_string(&self) -> (r: String)
        ensures
            r@ == parse_message(self.position as nat),
    {
        let mut r: String = "the template cannot be read from character ".to_owned();
        let digits = decimal_text(self.position as u128);
        r.append(digits.as_str());
        r
    }
}

fn opens(s: &Vec<char>, i: usize) -> (r: bool)
    requires
        i <= s.len(),
    ensures
        r == opens_at(s@, i as int),
{
    if !holds_at(s, i, '{') {
        return false;
    }
    if holds_at(s, i + 1, '{') || holds_at(s, i + 1, '%') {
        return true;
    }
    if holds_at(s, i + 1, '&') {
        return holds_at(s, i + 2, '}');
    }
    if holds_at(s, i + 1, '?') {
        return holds_at(s, i + 2, '%') && holds_at(s, i + 3, '}');
    }
    false
}

fn text_end_at(s: &Vec<char>, i: usize) -> (j: usize)
    requires
        i <= s.len(),
    ensures
        j == text_end(s@, i as int),
        i <= j <= s.len(),
{
    let mut j: usize = i;
    while j < s.len() && !opens(s, j)
        invariant
            i <= j <= s.len(),
            text_end(s@, i as int) == text_end(s@, j as int),
        decreases s.len() - j,
    {
        j += 1;
    }
    j
}

/// The view of a position that was found.
pub open spec fn position_read(r: Option<usize>) -> Option<int> {
    match r {
        Some(k) => Some(k as int),
        None => None,
    }
}

fn close_at(s: &Vec<char>, i: usize) -> (r: Option<usize>)
    requires
        i <= s.len(),
    ensures
        position_read(r) == p_close(s@, i as int),
        r matches Some(k) ==> i + 2 <= k <= s.len(),
{
    let a = spaces_end(s, i);
    if holds_at(s, a, '%') && holds_at(s, a + 1, '}') {
        Some(a + 2)
    } else {
        None
    }
}

fn tag_at(s: &Vec<char>, i: usize, word: &str) -> (r: Option<usize>)
    requires
        i <= s.len(),
    ensures
        position_read(r) == p_tag(s@, i as int, word@),
        r matches Some(k) ==> i + 4 <= k <= s.len(),
{
    if holds_at(s, i, '{') && holds_at(s, i + 1, '%') {
        let a = spaces_end(s, i + 2);
        let b = name_end_at(s, a);
        let found = text_of(s, a, b);
        if same_text(found.as_str(), word) {
            close_at(s, b)
        } else {
            None
        }
    } else {
        None
    }
}

fn parse_contents(s: &Vec<char>, i: usize) -> (r: Option<(Vec<Pipe>, usize)>)
    requires
        i <= s.len(),
    ensures
        pipes_read(r) == p_contents(s@, i as int),
        r matches Some((_, k)) ==> i + 2 <= k <= s.len(),
{
    match parse_pipes(s, i) {
        None => None,
        Some((pipes, a)) => match close_at(s, a) {
            None => None,
            Some(b) => Some((pipes, b)),
        },
    }
}

/// The view of a node that was read, with where it ends.
pub open spec fn node_read(r: Option<(TemplateElement, usize)>) -> Option<(Node, int)> {
    match r {
        Some((e, k)) => Some((e@, k as int)),
        None => None,
    }
}

fn parse_file(s: &Vec<char>, i: usize, snippet: bool) -> (r: Option<(TemplateElement, usize)>)
    requires
        i <= s.len(),
    ensures
        node_read(r) == p_file(s@, i as int, snippet),
        r matches Some((_, k)) ==> i < k <= s.len(),
{
    let a = spaces_end(s, i);
    if holds_at(s, a, '@') {
        let b = spaces_end(s, a + 1);
        if holds_at(s, b, '(') {
            let start = spaces_end(s, b + 1);
            match parse_value(s, start) {
                None => None,
                Some((value, c)) => match parse_pipes(s, c) {
                    None => None,
                    Some((value_pipe, d)) => {
                        let e = spaces_end(s, d);
                        if holds_at(s, e, ')') {
                            match parse_contents(s, e + 1) {
                                None => None,
                                Some((contents_pipe, f)) => {
                                    let element = TemplateElement::FileAt {
                                        snippet,
                                        value,
                                        value_pipe,
                                        contents_pipe,
                                    };
                                    proof {
                                        lemma_node_view(element);
                                    }
                                    Some((element, f))
                                },
                            }
                        } else {
                            None
                        }
                    },
                },
            }
        } else {
            match parse_value(s, b) {
                None => None,
                Some((value, c)) => match parse_contents(s, c) {
                    None => None,
                    Some((contents_pipe, f)) => {
                        let element = TemplateElement::FileAt {
                            snippet,
                            value,
                            value_pipe: Vec::new(),
                            contents_pipe,
                        };
                        proof {
                            lemma_node_view(element);
                            assert(pipe_calls(Seq::<Pipe>::empty()) =~= Seq::<PipeCall>::empty());
                        }
                        Some((element, f))
                    },
                },
            }
        }
    } else {
        let b = word_end_at(s, a);
        if a < b {
            match parse_contents(s, b) {
                None => None,
                Some((pipe, f)) => {
                    let element = TemplateElement::File { snippet, filename: text_of(s, a, b), pipe };
                    proof {
                        lemma_node_view(element);
                    }
                    Some((element, f))
                },
            }
        } else {
            None
        }
    }
}

/// The view of piped paths that were read, with where they end.
pub open spec fn piped_list_read(r: Option<(Vec<TemplateValueWithPipe>, usize)>) -> Option<
    (Seq<PipedPath>, int),
> {
    match r {
        Some((v, k)) => Some((piped_paths_of(v@), k as int)),
        None => None,
    }
}

/// The view of value paths that were read, with where they end.
pub open spec fn path_list_read(r: Option<(Vec<TemplateValue>, usize)>) -> Option<
    (Seq<ValuePath>, int),
> {
    match r {
        Some((v, k)) => Some((paths_of(v@), k as int)),
        None => None,
    }
}

/// The view of names that were read, with where they end.
pub open spec fn name_list_read(r: Option<(Vec<String>, usize)>) -> Option<(Seq<Seq<char>>, int)> {
    match r {
        Some((v, k)) => Some((texts(v@), k as int)),
        None => None,
    }
}

fn parse_piped_list(s: &Vec<char>, i: usize) -> (r: Option<(Vec<TemplateValueWithPipe>, usize)>)
    requires
        i <= s.len(),
    ensures
        piped_list_read(r) == p_piped_list(s@, i as int, Seq::empty()),
        r matches Some((_, k)) ==> i < k <= s.len(),
{
    let mut acc: Vec<TemplateValueWithPipe> = Vec::new();
    let mut at: usize = i;
    assert(piped_paths_of(acc@) =~= Seq::<PipedPath>::empty());
    loop
        invariant
            i <= at <= s.len(),
            p_piped_list(s@, i as int, Seq::empty()) == p_piped_list(
                s@,
                at as int,
                piped_paths_of(acc@),
            ),
        decreases s.len() - at,
    {
        match parse_value(s, at) {
            None => {
                return None;
            },
            Some((value, a)) => match parse_pipes(s, a) {
                None => {
                    return None;
                },
                Some((pipes, b)) => {
                    let c = spaces_end(s, b);
                    let item = TemplateValueWithPipe { value, pipes };
                    let ghost before = piped_paths_of(acc@);
                    acc.push(item);
                    assert(piped_paths_of(acc@) =~= before.push(item@));
                    if holds_at(s, c, ',') {
                        at = spaces_end(s, c + 1);
                    } else {
                        return Some((acc, b));
                    }
                },
            },
        }
    }
}

fn parse_path_list(s: &Vec<char>, i: usize) -> (r: Option<(Vec<TemplateValue>, usize)>)
    requires
        i <= s.len(),
    ensures
        path_list_read(r) == p_path_list(s@, i as int, Seq::empty()),
        r matches Some((_, k)) ==> i < k <= s.len(),
{
    let mut acc: Vec<TemplateValue> = Vec::new();
    let mut at: usize = i;
    assert(paths_of(acc@) =~= Seq::<ValuePath>::empty());
    loop
        invariant
            i <= at <= s.len(),
            p_path_list(s@, i as int, Seq::empty()) == p_path_list(s@, at as int, paths_of(acc@)),
        decreases s.len() - at,
    {
        match parse_value(s, at) {
            None => {
                return None;
            },
            Some((value, b)) => {
                let c = spaces_end(s, b);
                let ghost before = paths_of(acc@);
                let ghost path = value@;
                acc.push(value);
                assert(paths_of(acc@) =~= before.push(path));
                if holds_at(s, c, ',') {
                    at = spaces_end(s, c + 1);
                } else {
                    return Some((acc, b));
                }
            },
        }
    }
}

fn parse_name_list(s: &Vec<char>, i: usize) -> (r: Option<(Vec<String>, usize)>)
    requires
        i <= s.len(),
    ensures
        name_list_read(r) == p_name_list(s@, i as int, Seq::empty()),
        r matches Some((_, k)) ==> i < k <= s.len(),
{
    let mut acc: Vec<String> = Vec::new();
    let mut at: usize = i;
    assert(texts(acc@) =~= Seq::<Seq<char>>::empty());
    loop
        invariant
            i <= at <= s.len(),
            p_name_list(s@, i as int, Seq::empty()) == p_name_list(s@, at as int, texts(acc@)),
        decreases s.len() - at,
    {
        let b = word_end_at(s, at);
        if at < b {
            let c = spaces_end(s, b);
            let ghost before = texts(acc@);
            acc.push(text_of(s, at, b));
            assert(texts(acc@) =~= before.push(s@.subrange(at as int, b as int)));
            if holds_at(s, c, ',') {
                at = spaces_end(s, c + 1);
            } else {
                return Some((acc, b));
            }
        } else {
            return None;
        }
    }
}

/// The view of clauses that were read, with where they end.
pub open spec fn clauses_read(r: Option<(ForGrouping, ForSortAndFilter, usize)>) -> Option<
    (Grouping, SortFilter, int),
> {
    match r {
        Some((g, f, k)) => Some((g@, f@, k as int)),
        None => None,
    }
}

fn parse_clauses(s: &Vec<char>, i: usize) -> (r: Option<(ForGrouping, ForSortAndFilter, usize)>)
    requires
        i <= s.len(),
    ensures
        clauses_read(r) == p_clauses(s@, i as int, no_grouping(), no_sort_filter()),
        r matches Some((_, _, k)) ==> i <= k <= s.len(),
{
    let mut g = ForGrouping { values: Vec::new(), filenames: Vec::new(), files_at: Vec::new() };
    let mut f = ForSortAndFilter {
        sort_key: None,
        is_sort_ascending: false,
        filter_includes: None,
        filter_excludes: None,
    };
    let mut at: usize = i;
    proof {
        assert(piped_paths_of(g.values@) =~= Seq::<PipedPath>::empty());
        assert(texts(g.filenames@) =~= Seq::<Seq<char>>::empty());
        assert(paths_of(g.files_at@) =~= Seq::<ValuePath>::empty());
    }
    loop
        invariant
            i <= at <= s.len(),
            p_clauses(s@, i as int, no_grouping(), no_sort_filter()) == p_clauses(
                s@,
                at as int,
                g@,
                f@,
            ),
        decreases s.len() - at,
    {
        let a = spaces_end(s, at);
        let b = name_end_at(s, a);
        if !(a < b) {
            return Some((g, f, at));
        }
        let word = text_of(s, a, b);
        let w: &str = word.as_str();
        let start = spaces_end(s, b);
        if same_text(w, "in") {
            match parse_piped_list(s, start) {
                Some((values, c)) => {
                    g.values = values;
                    at = c;
                },
                None => {
                    return None;
                },
            }
        } else if same_text(w, "in-file") {
            match parse_name_list(s, start) {
                Some((filenames, c)) => {
                    g.filenames = filenames;
                    at = c;
                },
                None => {
                    return None;
                },
            }
        } else if same_text(w, "in-file-at") {
            match parse_path_list(s, start) {
                Some((files_at, c)) => {
                    g.files_at = files_at;
                    at = c;
                },
                None => {
                    return None;
                },
            }
        } else if same_text(w, "sort") || same_text(w, "sort-asc") || same_text(w, "sort-desc") {
            match parse_value(s, start) {
                Some((key, c)) => {
                    f.sort_key = Some(key);
                    f.is_sort_ascending = !same_text(w, "sort-desc");
                    at = c;
                },
                None => {
                    return None;
                },
            }
        } else if same_text(w, "include") {
            match parse_value(s, start) {
                Some((key, c)) => {
                    f.filter_includes = Some(key);
                    at = c;
                },
                None => {
                    return None;
                },
            }
        } else if same_text(w, "exclude") {
            match parse_value(s, start) {
                Some((key, c)) => {
                    f.filter_excludes = Some(key);
                    at = c;
                },
                None => {
                    return None;
                },
            }
        } else {
            return None;
        }
    }
}

/// The view of nodes that were read, with where they end.
pub open spec fn nodes_read(r: (Vec<TemplateElement>, usize)) -> (Seq<Node>, int) {
    (nodes_of(r.0@), r.1 as int)
}

fn parse_nodes(s: &Vec<char>, i: usize) -> (r: (Vec<TemplateElement>, usize))
    requires
        i <= s.len(),
    ensures
        nodes_read(r) == p_nodes(s@, i as int, Seq::empty()),
        i <= r.1 <= s.len(),
    decreases s.len() - i, 2int,
{
    let mut acc: Vec<TemplateElement> = Vec::new();
    let mut at: usize = i;
    assert(nodes_of(acc@) =~= Seq::<Node>::empty());
    loop
        invariant
            i <= at <= s.len(),
            p_nodes(s@, i as int, Seq::empty()) == p_nodes(s@, at as int, nodes_of(acc@)),
        decreases s.len() - at,
    {
        match parse_node(s, at) {
            Some((node, j)) => {
                if at < j {
                    let ghost before = nodes_of(acc@);
                    let ghost added = node@;
                    acc.push(node);
                    assert(nodes_of(acc@) =~= before.push(added));
                    at = j;
                } else {
                    return (acc, at);
                }
            },
            None => {
                return (acc, at);
            },
        }
    }
}

fn parse_node(s: &Vec<char>, i: usize) -> (r: Option<(TemplateElement, usize)>)
    requires
        i <= s.len(),
    ensures
        node_read(r) == p_node(s@, i as int),
        r matches Some((_, k)) ==> k <= s.len(),
    decreases s.len() - i, 1int,
{
    if holds_at(s, i, '{') && holds_at(s, i + 1, '{') {
        let start = spaces_end(s, i + 2);
        match parse_value(s, start) {
            None => None,
            Some((value, a)) => match parse_pipes(s, a) {
                None => None,
                Some((pipe, b)) => {
                    let c = spaces_end(s, b);
                    if holds_at(s, c, '}') && holds_at(s, c + 1, '}') {
                        let element = TemplateElement::Replace { value, pipe };
                        proof {
                            lemma_node_view(element);
                        }
                        Some((element, c + 2))
                    } else {
                        None
                    }
                },
            },
        }
    } else if holds_at(s, i, '{') && holds_at(s, i + 1, '%') && holds_at(s, i + 2, '?')
        && holds_at(s, i + 3, '}') {
        parse_alternatives(s, i + 4)
    } else if holds_at(s, i, '{') && holds_at(s, i + 1, '%') {
        let a = spaces_end(s, i + 2);
        let b = name_end_at(s, a);
        let word = text_of(s, a, b);
        let w: &str = word.as_str();
        if same_text(w, "file") {
            parse_file(s, b, false)
        } else if same_text(w, "snippet") {
            parse_file(s, b, true)
        } else if same_text(w, "if-exists") {
            parse_if(s, b)
        } else if same_text(w, "for") {
            parse_for(s, b)
        } else {
            None
        }
    } else if opens(s, i) {
        None
    } else {
        let j = text_end_at(s, i);
        if i < j {
            let element = TemplateElement::PlainText(text_of(s, i, j));
            proof {
                lemma_node_view(element);
            }
            Some((element, j))
        } else {
            None
        }
    }
}

fn parse_if(s: &Vec<char>, i: usize) -> (r: Option<(TemplateElement, usize)>)
    requires
        i <= s.len(),
    ensures
        node_read(r) == p_if(s@, i as int),
        r matches Some((_, k)) ==> k <= s.len(),
    decreases s.len() - i, 3int,
{
    let start = spaces_end(s, i);
    match parse_value(s, start) {
        None => None,
        Some((value, a)) => match close_at(s, a) {
            None => None,
            Some(b) => {
                let (when_true, c) = parse_nodes(s, b);
                match tag_at(s, c, "else") {
                    Some(d) => {
                        let (when_false, e) = parse_nodes(s, d);
                        match tag_at(s, e, "endif") {
                            Some(g) => {
                                let element = TemplateElement::IfExists {
                                    value,
                                    when_true,
                                    when_false,
                                };
                                proof {
                                    lemma_node_view(element);
                                }
                                Some((element, g))
                            },
                            None => None,
                        }
                    },
                    None => match tag_at(s, c, "endif") {
                        Some(g) => {
                            let element = TemplateElement::IfExists {
                                value,
                                when_true,
                                when_false: Vec::new(),
                            };
                            proof {
                                lemma_node_view(element);
                                assert(nodes_of(Seq::<TemplateElement>::empty()) =~= Seq::<
                                    Node,
                                >::empty());
                            }
                            Some((element, g))
                        },
                        None => None,
                    },
                }
            },
        },
    }
}

fn parse_for(s: &Vec<char>, i: usize) -> (r: Option<(TemplateElement, usize)>)
    requires
        i <= s.len(),
    ensures
        node_read(r) == p_for(s@, i as int),
        r matches Some((_, k)) ==> k <= s.len(),
    decreases s.len() - i, 3int,
{
    let a = spaces_end(s, i);
    let b = name_end_at(s, a);
    if !(a < b) {
        return None;
    }
    match parse_clauses(s, b) {
        None => None,
        Some((grouping, sort_and_filter, c)) => match close_at(s, c) {
            None => None,
            Some(d) => {
                let name = text_of(s, a, b);
                let ghost group = grouping@;
                let mut groupings: Vec<ForGrouping> = Vec::new();
                groupings.push(grouping);
                assert(groupings_of(groupings@) =~= seq![group]);
                let (main, e) = parse_nodes(s, d);
                match tag_at(s, e, "sep") {
                    Some(x) => {
                        let (separator, y) = parse_nodes(s, x);
                        match tag_at(s, y, "endfor") {
                            Some(z) => {
                                let element = TemplateElement::For {
                                    name,
                                    main,
                                    groupings,
                                    separator,
                                    sort_and_filter,
                                };
                                proof {
                                    lemma_node_view(element);
                                }
                                Some((element, z))
                            },
                            None => None,
                        }
                    },
                    None => match tag_at(s, e, "endfor") {
                        Some(z) => {
                            let element = TemplateElement::For {
                                name,
                                main,
                                groupings,
                                separator: Vec::new(),
                                sort_and_filter,
                            };
                            proof {
                                lemma_node_view(element);
                                assert(nodes_of(Seq::<TemplateElement>::empty()) =~= Seq::<
                                    Node,
                                >::empty());
                            }
                            Some((element, z))
                        },
                        None => None,
                    },
                }
            },
        },
    }
}

fn parse_alternatives(s: &Vec<char>, i: usize) -> (r: Option<(TemplateElement, usize)>)
    requires
        i <= s.len(),
    ensures
        node_read(r) == p_alternatives(s@, i as int, Seq::empty()),
        r matches Some((_, k)) ==> k <= s.len(),
    decreases s.len() - i, 3int,
{
    let mut acc: Vec<Vec<TemplateElement>> = Vec::new();
    let mut at: usize = i;
    assert(alternatives_of(acc@) =~= Seq::<Seq<Node>>::empty());
    loop
        invariant
            i <= at <= s.len(),
            p_alternatives(s@, i as int, Seq::empty()) == p_alternatives(
                s@,
                at as int,
                alternatives_of(acc@),
            ),
        decreases s.len() - at,
    {
        let (nodes, b) = parse_nodes(s, at);
        let ghost before = alternatives_of(acc@);
        let ghost added = nodes_of(nodes@);
        acc.push(nodes);
        assert(alternatives_of(acc@) =~= before.push(added));
        if holds_at(s, b, '{') && holds_at(s, b + 1, '&') && holds_at(s, b + 2, '}') {
            at = b + 3;
        } else if holds_at(s, b, '{') && holds_at(s, b + 1, '?') && holds_at(s, b + 2, '%')
            && holds_at(s, b + 3, '}') {
            let element = TemplateElement::LookupCatcher(acc);
            proof {
                lemma_node_view(element);
            }
            return Some((element, b + 4));
        } else {
            return None;
        }
    }
}

/// The view of a parsed template or its error.
pub open spec fn template_parsed(r: Result<Vec<TemplateElement>, ParseError>) -> Result<
    Seq<Node>,
    nat,
> {
    match r {
        Ok(nodes) => Ok(nodes_of(nodes@)),
        Err(e) => Err(e.position as nat),
    }
}

/// The view of a parsed list of value paths or its error.
pub open spec fn mapping_parsed(r: Result<Vec<TemplateValue>, ParseError>) -> Result<
    Seq<ValuePath>,
    nat,
> {
    match r {
        Ok(values) => Ok(paths_of(values@)),
        Err(e) => Err(e.position as nat),
    }
}

/// Reads `input` as a template.
pub fn parse_template_string(input: &str) -> (r: Result<Vec<TemplateElement>, ParseError>)
    ensures
        template_parsed(r) == p_template(input@),
{
    let s = chars_of(input);
    let (nodes, end) = parse_nodes(&s, 0);
    if end == s.len() {
        Ok(nodes)
    } else {
        Err(ParseError { position: end })
    }
}

/// Reads `input` as a list of value paths, set off by commas.
pub fn parse_mapping_string(input: &str) -> (r: Result<Vec<TemplateValue>, ParseError>)
    ensures
        mapping_parsed(r) == p_mapping(input@),
{
    let s = chars_of(input);
    let a = spaces_end(&s, 0);
    if a == s.len() {
        let values: Vec<TemplateValue> = Vec::new();
        assert(paths_of(values@) =~= Seq::<ValuePath>::empty());
        Ok(values)
    } else {
        match parse_path_list(&s, a) {
            None => Err(ParseError { position: a }),
            Some((values, b)) => {
                let c = spaces_end(&s, b);
                if c == s.len() {
                    Ok(values)
                } else {
                    Err(ParseError { position: c })
                }
            },
        }
    }
}

} // verus!
