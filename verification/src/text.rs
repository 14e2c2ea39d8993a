//! Character-level text primitives with exact specifications.
//!
//! Text is modelled by its sequence of Unicode scalar values (`s@`).

use vstd::prelude::*;

verus! {

/// `c` is a whitespace character in the sense of the Unicode `White_Space`
/// property (the set that `char::is_whitespace` accepts).
pub open spec fn is_ws(c: char) -> bool {
    let u = c as u32;
    ||| u == 0x20
    ||| (0x09 <= u && u <= 0x0d)
    ||| u == 0x85
    ||| u == 0xa0
    ||| u == 0x1680
    ||| (0x2000 <= u && u <= 0x200a)
    ||| u == 0x2028
    ||| u == 0x2029
    ||| u == 0x202f
    ||| u == 0x205f
    ||| u == 0x3000
}

/// Whitespace test on one character.
pub fn is_whitespace(c: char) -> (b: bool)
    ensures
        b == is_ws(c),
{
    let u = c as u32;
    u == 0x20 || (0x09 <= u && u <= 0x0d) || u == 0x85 || u == 0xa0 || u == 0x1680 || (0x2000
        <= u && u <= 0x200a) || u == 0x2028 || u == 0x2029 || u == 0x202f || u == 0x205f || u
        == 0x3000
}

/// `s` without its leading whitespace.
pub open spec fn trim_start(s: Seq<char>) -> Seq<char>
    decreases s.len(),
{
    if s.len() > 0 && is_ws(s[0]) {
        trim_start(s.drop_first())
    } else {
        s
    }
}

/// `s` without its trailing whitespace.
pub open spec fn trim_end(s: Seq<char>) -> Seq<char>
    decreases s.len(),
{
    if s.len() > 0 && is_ws(s.last()) {
        trim_end(s.drop_last())
    } else {
        s
    }
}

/// `s` without leading and trailing whitespace.
pub open spec fn trim(s: Seq<char>) -> Seq<char> {
    trim_end(trim_start(s))
}

/// `s` without any leading occurrences of `c`.
pub open spec fn trim_start_char(s: Seq<char>, c: char) -> Seq<char>
    decreases s.len(),
{
    if s.len() > 0 && s[0] == c {
        trim_start_char(s.drop_first(), c)
    } else {
        s
    }
}

/// The characters of `s`, in order.
pub fn chars_of(s: &str) -> (v: Vec<char>)
    ensures
        v@ == s@,
{
    let mut v: Vec<char> = Vec::new();
    for c in it: s.chars()
        invariant
            v@ == it.seq().take(it.index() as int),
            it.seq() == s@,
    {
        v.push(c);
    }
    v
}

/// Index of the first character of `v` that is not whitespace (or `v.len()`).
fn skip_ws_forward(v: &Vec<char>) -> (i: usize)
    ensures
        i <= v.len(),
        trim_start(v@) == v@.subrange(i as int, v.len() as int),
{
    let mut i: usize = 0;
    assert(v@.subrange(0, v.len() as int) =~= v@);
    while i < v.len() && is_whitespace(v[i])
        invariant
            i <= v.len(),
            trim_start(v@) == trim_start(v@.subrange(i as int, v.len() as int)),
        decreases v.len() - i,
    {
        assert(v@.subrange(i as int, v.len() as int).drop_first() =~= v@.subrange(
            i + 1,
            v.len() as int,
        ));
        i = i + 1;
    }
    i
}

/// `s` without leading and trailing whitespace.
pub fn trim_str(s: &str) -> (r: &str)
    ensures
        r@ == trim(s@),
{
    let v = chars_of(s);
    let i = skip_ws_forward(&v);
    let mut j: usize = v.len();
    while j > i && is_whitespace(v[j - 1])
        invariant
            i <= j <= v.len(),
            v@ == s@,
            trim_start(v@) == v@.subrange(i as int, v.len() as int),
            trim(v@) == trim_end(v@.subrange(i as int, j as int)),
        decreases j,
    {
        assert(v@.subrange(i as int, j as int).drop_last() =~= v@.subrange(i as int, j - 1));
        j = j - 1;
    }
    s.substring_char(i, j)
}

/// `s` without its leading whitespace.
pub fn trim_start_str(s: &str) -> (r: &str)
    ensures
        r@ == trim_start(s@),
{
    let v = chars_of(s);
    let i = skip_ws_forward(&v);
    s.substring_char(i, v.len())
}

/// `s` without any leading occurrences of `c`.
pub fn trim_start_matches_char(s: &str, c: char) -> (r: &str)
    ensures
        r@ == trim_start_char(s@, c),
{
    let v = chars_of(s);
    let mut i: usize = 0;
    assert(v@.subrange(0, v.len() as int) =~= v@);
    while i < v.len() && v[i] == c
        invariant
            i <= v.len(),
            v@ == s@,
            trim_start_char(v@, c) == trim_start_char(v@.subrange(i as int, v.len() as int), c),
        decreases v.len() - i,
    {
        assert(v@.subrange(i as int, v.len() as int).drop_first() =~= v@.subrange(
            i + 1,
            v.len() as int,
        ));
        i = i + 1;
    }
    s.substring_char(i, v.len())
}


/// The pieces of `s` between occurrences of `sep` (always at least one piece;
/// a trailing separator yields a final empty piece).
pub open spec fn pieces(s: Seq<char>, sep: char) -> Seq<Seq<char>>
    decreases s.len(),
{
    if s.len() == 0 {
        seq![Seq::<char>::empty()]
    } else {
        let p = pieces(s.drop_last(), sep);
        if s.last() == sep {
            p.push(Seq::<char>::empty())
        } else {
            p.update(p.len() - 1, p.last().push(s.last()))
        }
    }
}

proof fn lemma_pieces_nonempty(s: Seq<char>, sep: char)
    ensures
        pieces(s, sep).len() >= 1,
    decreases s.len(),
{
    if s.len() > 0 {
        lemma_pieces_nonempty(s.drop_last(), sep);
    }
}

/// `l` without one trailing carriage return.
pub open spec fn strip_cr(l: Seq<char>) -> Seq<char> {
    if l.len() > 0 && l.last() == '\r' {
        l.drop_last()
    } else {
        l
    }
}

/// The lines of `s`: pieces ended by `'\n'` lose that newline and one
/// carriage return before it; a final piece without newline is kept as it is
/// when it is not empty.
pub open spec fn lines(s: Seq<char>) -> Seq<Seq<char>> {
    let p = pieces(s, '\n');
    let ended = Seq::new((p.len() - 1) as nat, |k: int| strip_cr(p[k]));
    if p.last().len() == 0 {
        ended
    } else {
        ended.push(p.last())
    }
}

/// The views of a vector of strings.
pub open spec fn views(v: Seq<String>) -> Seq<Seq<char>> {
    v.map_values(|x: String| x@)
}

/// The lines of `s` (see `lines`).
pub fn lines_of(s: &str) -> (out: Vec<String>)
    ensures
        views(out@) == lines(s@),
{
    let v = chars_of(s);
    let mut out: Vec<String> = Vec::new();
    let mut start: usize = 0;
    let mut i: usize = 0;
    proof {
        lemma_pieces_nonempty(v@.take(0), '\n');
        assert(v@.take(0) =~= Seq::<char>::empty());
        assert(pieces(v@.take(0), '\n') =~= seq![Seq::<char>::empty()]);
    }
    while i < v.len()
        invariant
            v@ == s@,
            start <= i <= v.len(),
            pieces(v@.take(i as int), '\n').len() == out@.len() + 1,
            forall|k: int|
                0 <= k < out@.len() ==> #[trigger] out@[k]@ == strip_cr(
                    pieces(v@.take(i as int), '\n')[k],
                ),
            pieces(v@.take(i as int), '\n').last() == v@.subrange(start as int, i as int),
        decreases v.len() - i,
    {
        let ghost old_p = pieces(v@.take(i as int), '\n');
        assert(v@.take(i + 1).drop_last() =~= v@.take(i as int));
        assert(v@.take(i + 1).last() == v@[i as int]);
        if v[i] == '\n' {
            let end = if i > start && v[i - 1] == '\r' {
                i - 1
            } else {
                i
            };
            assert(strip_cr(v@.subrange(start as int, i as int)) =~= v@.subrange(
                start as int,
                end as int,
            ));
            let line = String::from_str(s.substring_char(start, end));
            out.push(line);
            start = i + 1;
        } else {
            assert(old_p.last().push(v@[i as int]) =~= v@.subrange(start as int, i + 1));
        }
        i = i + 1;
    }
    assert(v@.take(v.len() as int) =~= v@);
    if start < v.len() {
        let line = String::from_str(s.substring_char(start, v.len()));
        out.push(line);
    }
    assert(views(out@) =~= lines(s@));
    out
}


/// The maximal runs of non-whitespace characters of `s`, in order.
pub open spec fn words(s: Seq<char>) -> Seq<Seq<char>>
    decreases s.len(),
{
    if s.len() == 0 {
        Seq::empty()
    } else {
        let w = words(s.drop_last());
        let c = s.last();
        if is_ws(c) {
            w
        } else if s.len() >= 2 && !is_ws(s[s.len() - 2]) {
            w.update(w.len() - 1, w.last().push(c))
        } else {
            w.push(seq![c])
        }
    }
}

/// The whitespace-separated words of `s` (see `words`).
pub fn words_of(s: &str) -> (out: Vec<String>)
    ensures
        views(out@) == words(s@),
{
    let v = chars_of(s);
    let mut out: Vec<String> = Vec::new();
    let mut in_word = false;
    let mut start: usize = 0;
    let mut i: usize = 0;
    assert(v@.take(0) =~= Seq::<char>::empty());
    while i < v.len()
        invariant
            v@ == s@,
            start <= i <= v.len(),
            in_word ==> {
                &&& i > 0
                &&& !is_ws(v@[i - 1])
                &&& start < i
                &&& words(v@.take(i as int)) =~= views(out@).push(
                    v@.subrange(start as int, i as int),
                )
            },
            !in_word ==> {
                &&& (i == 0 || is_ws(v@[i - 1]))
                &&& words(v@.take(i as int)) =~= views(out@)
            },
        decreases v.len() - i,
    {
        assert(v@.take(i + 1).drop_last() =~= v@.take(i as int));
        assert(v@.take(i + 1).last() == v@[i as int]);
        if is_whitespace(v[i]) {
            if in_word {
                let word = String::from_str(s.substring_char(start, i));
                out.push(word);
                in_word = false;
            }
        } else {
            if !in_word {
                start = i;
                in_word = true;
                assert(v@.subrange(i as int, i + 1) =~= seq![v@[i as int]]);
            } else {
                assert(v@.subrange(start as int, i as int).push(v@[i as int]) =~= v@.subrange(
                    start as int,
                    i + 1,
                ));
            }
        }
        i = i + 1;
    }
    assert(v@.take(v.len() as int) =~= v@);
    if in_word {
        let word = String::from_str(s.substring_char(start, v.len()));
        out.push(word);
    }
    assert(views(out@) =~= words(s@));
    out
}

/// The number of whitespace characters in `s`.
pub open spec fn ws_count(s: Seq<char>) -> nat
    decreases s.len(),
{
    if s.len() == 0 {
        0
    } else {
        ws_count(s.drop_last()) + if is_ws(s.last()) {
            1nat
        } else {
            0nat
        }
    }
}

/// The number of whitespace characters in `s`.
pub fn count_ws(s: &str) -> (n: usize)
    ensures
        n == ws_count(s@),
{
    let v = chars_of(s);
    let mut n: usize = 0;
    let mut i: usize = 0;
    assert(v@.take(0) =~= Seq::<char>::empty());
    while i < v.len()
        invariant
            v@ == s@,
            i <= v.len(),
            n == ws_count(v@.take(i as int)),
            n <= i,
        decreases v.len() - i,
    {
        assert(v@.take(i + 1).drop_last() =~= v@.take(i as int));
        if is_whitespace(v[i]) {
            n = n + 1;
        }
        i = i + 1;
    }
    assert(v@.take(v.len() as int) =~= v@);
    n
}

/// The index of the first occurrence of `c` in `s`.
pub open spec fn first_index(s: Seq<char>, c: char) -> Option<int>
    decreases s.len(),
{
    if s.len() == 0 {
        None
    } else if s[0] == c {
        Some(0)
    } else {
        match first_index(s.drop_first(), c) {
            Some(k) => Some(k + 1),
            None => None,
        }
    }
}

/// The index of the first whitespace character in `s`.
pub open spec fn first_ws(s: Seq<char>) -> Option<int>
    decreases s.len(),
{
    if s.len() == 0 {
        None
    } else if is_ws(s[0]) {
        Some(0)
    } else {
        match first_ws(s.drop_first()) {
            Some(k) => Some(k + 1),
            None => None,
        }
    }
}

/// The index of the last occurrence of `c` in `s`.
pub open spec fn last_index(s: Seq<char>, c: char) -> Option<int>
    decreases s.len(),
{
    if s.len() == 0 {
        None
    } else if s.last() == c {
        Some(s.len() - 1)
    } else {
        last_index(s.drop_last(), c)
    }
}

/// The index of the first occurrence of `c` in `v`.
pub fn find_char(v: &Vec<char>, c: char) -> (r: Option<usize>)
    ensures
        match r {
            Some(i) => first_index(v@, c) == Some(i as int) && i < v.len(),
            None => first_index(v@, c) is None,
        },
{
    let mut i: usize = 0;
    assert(v@.subrange(0, v.len() as int) =~= v@);
    while i < v.len()
        invariant
            i <= v.len(),
            first_index(v@, c) == match first_index(v@.subrange(i as int, v.len() as int), c) {
                Some(k) => Some(k + i),
                None => None,
            },
        decreases v.len() - i,
    {
        if v[i] == c {
            return Some(i);
        }
        assert(v@.subrange(i as int, v.len() as int).drop_first() =~= v@.subrange(
            i + 1,
            v.len() as int,
        ));
        i = i + 1;
    }
    None
}

/// The index of the first whitespace character in `v`.
pub fn find_ws(v: &Vec<char>) -> (r: Option<usize>)
    ensures
        match r {
            Some(i) => first_ws(v@) == Some(i as int) && i < v.len(),
            None => first_ws(v@) is None,
        },
{
    let mut i: usize = 0;
    assert(v@.subrange(0, v.len() as int) =~= v@);
    while i < v.len()
        invariant
            i <= v.len(),
            first_ws(v@) == match first_ws(v@.subrange(i as int, v.len() as int)) {
                Some(k) => Some(k + i),
                None => None,
            },
        decreases v.len() - i,
    {
        if is_whitespace(v[i]) {
            return Some(i);
        }
        assert(v@.subrange(i as int, v.len() as int).drop_first() =~= v@.subrange(
            i + 1,
            v.len() as int,
        ));
        i = i + 1;
    }
    None
}

/// The index of the last occurrence of `c` in `v`.
pub fn rfind_char(v: &Vec<char>, c: char) -> (r: Option<usize>)
    ensures
        match r {
            Some(i) => last_index(v@, c) == Some(i as int) && i < v.len(),
            None => last_index(v@, c) is None,
        },
{
    let mut j: usize = v.len();
    assert(v@.take(v.len() as int) =~= v@);
    while j > 0
        invariant
            j <= v.len(),
            last_index(v@, c) == last_index(v@.take(j as int), c),
        decreases j,
    {
        if v[j - 1] == c {
            return Some(j - 1);
        }
        assert(v@.take(j as int).drop_last() =~= v@.take(j - 1));
        j = j - 1;
    }
    None
}


/// The index of the first occurrence of `pat` in `s`.
pub open spec fn find_sub(s: Seq<char>, pat: Seq<char>) -> Option<int>
    decreases s.len(),
{
    if pat.len() <= s.len() && s.take(pat.len() as int) == pat {
        Some(0)
    } else if s.len() == 0 {
        None
    } else {
        match find_sub(s.drop_first(), pat) {
            Some(k) => Some(k + 1),
            None => None,
        }
    }
}

/// Where `find_sub` finds `pat`, `pat` occurs in `s`.
pub proof fn lemma_find_sub_bounds(s: Seq<char>, pat: Seq<char>)
    ensures
        find_sub(s, pat) matches Some(i) ==> 0 <= i && i + pat.len() <= s.len() && s.subrange(
            i,
            i + pat.len(),
        ) == pat,
    decreases s.len(),
{
    if pat.len() <= s.len() && s.take(pat.len() as int) == pat {
    } else if s.len() > 0 {
        lemma_find_sub_bounds(s.drop_first(), pat);
        if let Some(k) = find_sub(s.drop_first(), pat) {
            assert(s.drop_first().subrange(k, k + pat.len()) =~= s.subrange(
                k + 1,
                k + 1 + pat.len(),
            ));
        }
    }
}

/// `s` contains `pat` as a contiguous part.
pub open spec fn contains_sub(s: Seq<char>, pat: Seq<char>) -> bool {
    find_sub(s, pat) is Some
}

/// `v[at..at + pat.len()] == pat`.
fn matches_at(v: &Vec<char>, pat: &Vec<char>, at: usize) -> (b: bool)
    requires
        at + pat.len() <= v.len(),
    ensures
        b == (v@.subrange(at as int, at + pat.len()) == pat@),
{
    let mut k: usize = 0;
    while k < pat.len()
        invariant
            at + pat.len() <= v.len(),
            k <= pat.len(),
            forall|j: int| 0 <= j < k ==> v@[at + j] == pat@[j],
        decreases pat.len() - k,
    {
        if v[at + k] != pat[k] {
            assert(v@.subrange(at as int, at + pat.len())[k as int] != pat@[k as int]);
            return false;
        }
        k = k + 1;
    }
    assert(v@.subrange(at as int, at + pat.len()) =~= pat@);
    true
}

/// The index of the first occurrence of `pat` in `v` at or after `from`.
pub fn find_sub_from(v: &Vec<char>, pat: &Vec<char>, from: usize) -> (r: Option<usize>)
    requires
        from <= v.len(),
    ensures
        match r {
            Some(i) => find_sub(v@.skip(from as int), pat@) == Some(i - from) && from <= i
                && i + pat.len() <= v.len(),
            None => find_sub(v@.skip(from as int), pat@) is None,
        },
{
    let mut i: usize = from;
    while i <= v.len()
        invariant
            from <= i <= v.len(),
            find_sub(v@.skip(from as int), pat@) == match find_sub(v@.skip(i as int), pat@) {
                Some(k) => Some(k + (i - from)),
                None => None,
            },
        decreases v.len() + 1 - i,
    {
        if pat.len() <= v.len() - i {
            assert(v@.skip(i as int).take(pat.len() as int) =~= v@.subrange(
                i as int,
                i + pat.len(),
            ));
            if matches_at(v, pat, i) {
                return Some(i);
            }
        }
        if i == v.len() {
            return None;
        }
        assert(v@.skip(i as int).drop_first() =~= v@.skip(i + 1));
        i = i + 1;
    }
    None
}

/// `s` with every occurrence of `pat` removed, scanning left to right
/// (the effect of replacing `pat` by the empty string).
pub open spec fn remove_all(s: Seq<char>, pat: Seq<char>) -> Seq<char>
    decreases s.len(),
{
    if pat.len() == 0 {
        s
    } else {
        match find_sub(s, pat) {
            None => s,
            Some(i) => {
                proof {
                    lemma_find_sub_bounds(s, pat);
                }
                s.take(i) + remove_all(s.skip(i + pat.len()), pat)
            },
        }
    }
}

/// `s` with every occurrence of the non-empty `pat` removed.
pub fn remove_all_str(s: &str, pat: &str) -> (r: String)
    ensures
        r@ == remove_all(s@, pat@),
{
    let v = chars_of(s);
    let p = chars_of(pat);
    if p.len() == 0 {
        return String::from_str(s);
    }
    let mut out = String::new();
    let mut pos: usize = 0;
    assert(v@.skip(0) =~= v@);
    while pos <= v.len()
        invariant
            v@ == s@,
            p@ == pat@,
            p.len() > 0,
            pos <= v.len(),
            remove_all(s@, pat@) == out@ + remove_all(v@.skip(pos as int), pat@),
        decreases v.len() + 1 - pos,
    {
        match find_sub_from(&v, &p, pos) {
            None => {
                out.append(s.substring_char(pos, v.len()));
                assert(v@.subrange(pos as int, v.len() as int) =~= v@.skip(pos as int));
                return out;
            },
            Some(i) => {
                proof {
                    lemma_find_sub_bounds(v@.skip(pos as int), p@);
                }
                out.append(s.substring_char(pos, i));
                assert(v@.subrange(pos as int, i as int) =~= v@.skip(pos as int).take(i - pos));
                assert(v@.skip(pos as int).skip(i - pos + p.len()) =~= v@.skip(i + p.len()));
                pos = i + p.len();
            },
        }
    }
    out
}

/// `s` contains `pat` as a contiguous part.
pub fn contains_str(s: &str, pat: &str) -> (b: bool)
    ensures
        b == contains_sub(s@, pat@),
{
    let v = chars_of(s);
    let p = chars_of(pat);
    assert(v@.skip(0) =~= v@);
    find_sub_from(&v, &p, 0).is_some()
}

/// The lowercase form of `s` as `str::to_lowercase` computes it (the Unicode
/// `Lowercase` mapping, with the context rule for final sigma).
pub uninterp spec fn lowercase(s: Seq<char>) -> Seq<char>;

/// Calls `str::to_lowercase`; its result depends on the characters of `s`
/// alone and is named `lowercase`.
#[verifier::external_body]
pub(crate) fn to_lowercase(s: &str) -> (r: String)
    ensures
        r@ == lowercase(s@),
{
    s.to_lowercase()
}


/// The value of `c` as a digit: `0`-`9`, then `a`-`z` and `A`-`Z` for 10 to
/// 35; any other character gets a value no radix accepts.
pub open spec fn digit_value(c: char) -> nat {
    let u = c as u32;
    if 0x30 <= u && u <= 0x39 {
        (u - 0x30) as nat
    } else if 0x61 <= u && u <= 0x7a {
        (u - 0x61 + 10) as nat
    } else if 0x41 <= u && u <= 0x5a {
        (u - 0x41 + 10) as nat
    } else {
        99
    }
}

/// The number that the digit string `s` denotes in base `radix`.
pub open spec fn digits_value(s: Seq<char>, radix: nat) -> nat
    decreases s.len(),
{
    if s.len() == 0 {
        0
    } else {
        digits_value(s.drop_last(), radix) * radix + digit_value(s.last())
    }
}

/// Every character of `s` is a digit of base `radix`.
pub open spec fn all_digits(s: Seq<char>, radix: nat) -> bool {
    forall|i: int| 0 <= i < s.len() ==> #[trigger] digit_value(s[i]) < radix
}

/// Unsigned integer syntax as the standard library's `from_str_radix` reads it
/// for unsigned types: an optional `+`, then at least one digit, and a value
/// no larger than `max`.
pub open spec fn parse_unsigned(s: Seq<char>, radix: nat, max: nat) -> Option<nat> {
    let d = if s.len() > 0 && s[0] == '+' {
        s.drop_first()
    } else {
        s
    };
    if d.len() == 0 || !all_digits(d, radix) || digits_value(d, radix) > max {
        None
    } else {
        Some(digits_value(d, radix))
    }
}

proof fn lemma_digits_value_step(s: Seq<char>, radix: nat)
    requires
        s.len() > 0,
        radix >= 1,
    ensures
        digits_value(s, radix) >= digits_value(s.drop_last(), radix),
{
    let a = digits_value(s.drop_last(), radix);
    assert(a * radix >= a) by (nonlinear_arith)
        requires
            radix >= 1,
    ;
}

proof fn lemma_digits_value_mono(s: Seq<char>, radix: nat, j: int)
    requires
        0 <= j <= s.len(),
        radix >= 1,
    ensures
        digits_value(s, radix) >= digits_value(s.take(j), radix),
    decreases s.len() - j,
{
    if j < s.len() {
        lemma_digits_value_mono(s, radix, j + 1);
        lemma_digits_value_step(s.take(j + 1), radix);
        assert(s.take(j + 1).drop_last() =~= s.take(j));
    } else {
        assert(s.take(j) =~= s);
    }
}

/// Parses `s` as an unsigned number in base `radix` (see `parse_unsigned`).
pub fn parse_unsigned_str(s: &str, radix: u32, max: u32) -> (r: Option<u32>)
    requires
        2 <= radix <= 36,
    ensures
        match r {
            Some(n) => parse_unsigned(s@, radix as nat, max as nat) == Some(n as nat),
            None => parse_unsigned(s@, radix as nat, max as nat) is None,
        },
{
    let v = chars_of(s);
    let start: usize = if v.len() > 0 && v[0] == '+' {
        1
    } else {
        0
    };
    let ghost d = if s@.len() > 0 && s@[0] == '+' {
        s@.drop_first()
    } else {
        s@
    };
    assert(d =~= v@.skip(start as int));
    if start == v.len() {
        return None;
    }
    let mut acc: u64 = 0;
    let mut i: usize = start;
    assert(d.take(0) =~= Seq::<char>::empty());
    while i < v.len()
        invariant
            2 <= radix <= 36,
            v@ == s@,
            d == v@.skip(start as int),
            d == (if s@.len() > 0 && s@[0] == '+' {
                s@.drop_first()
            } else {
                s@
            }),
            start <= i <= v.len(),
            acc <= max,
            acc == digits_value(d.take(i - start), radix as nat),
            all_digits(d.take(i - start), radix as nat),
        decreases v.len() - i,
    {
        let c = v[i];
        let u = c as u32;
        let dv: u32 = if 0x30 <= u && u <= 0x39 {
            u - 0x30
        } else if 0x61 <= u && u <= 0x7a {
            u - 0x61 + 10
        } else if 0x41 <= u && u <= 0x5a {
            u - 0x41 + 10
        } else {
            99
        };
        assert(d[i - start] == c);
        assert(dv == digit_value(c));
        if dv >= radix {
            assert(!all_digits(d, radix as nat)) by {
                assert(digit_value(d[i - start]) >= radix);
            }
            return None;
        }
        assert(acc * (radix as u64) <= 0xffff_ffffu64 * 36) by (nonlinear_arith)
            requires
                acc <= 0xffff_ffffu64,
                radix <= 36,
        ;
        assert(d.take(i - start + 1).drop_last() =~= d.take(i - start));
        assert(d.take(i - start + 1).last() == c);
        let next: u64 = acc * (radix as u64) + (dv as u64);
        proof {
            lemma_digits_value_mono(d, radix as nat, i - start + 1);
        }
        if next > max as u64 {
            return None;
        }
        acc = next;
        i = i + 1;
        assert(all_digits(d.take(i - start), radix as nat)) by {
            assert forall|k: int| 0 <= k < d.take(i - start).len() implies #[trigger] digit_value(
                d.take(i - start)[k],
            ) < radix by {
                if k < i - start - 1 {
                    assert(d.take(i - start)[k] == d.take(i - start - 1)[k]);
                }
            }
        }
    }
    assert(d.take(i - start) =~= d);
    Some(acc as u32)
}

/// The character of the decimal digit `d`.
pub open spec fn digit_char(d: nat) -> char {
    if d == 0 {
        '0'
    } else if d == 1 {
        '1'
    } else if d == 2 {
        '2'
    } else if d == 3 {
        '3'
    } else if d == 4 {
        '4'
    } else if d == 5 {
        '5'
    } else if d == 6 {
        '6'
    } else if d == 7 {
        '7'
    } else if d == 8 {
        '8'
    } else {
        '9'
    }
}

/// The decimal representation of `n`, without leading zeros.
pub open spec fn decimal(n: nat) -> Seq<char>
    decreases n,
{
    if n < 10 {
        seq![digit_char(n)]
    } else {
        decimal(n / 10).push(digit_char(n % 10))
    }
}

/// The decimal representation of the signed integer `n`.
pub open spec fn signed_decimal(n: int) -> Seq<char> {
    if n < 0 {
        seq!['-'] + decimal((-n) as nat)
    } else {
        decimal(n as nat)
    }
}

fn digit_str(d: u64) -> (r: &'static str)
    requires
        d < 10,
    ensures
        r@ == seq![digit_char(d as nat)],
{
    if d == 0 {
        proof {
            reveal_strlit("0");
        }
        "0"
    } else if d == 1 {
        proof {
            reveal_strlit("1");
        }
        "1"
    } else if d == 2 {
        proof {
            reveal_strlit("2");
        }
        "2"
    } else if d == 3 {
        proof {
            reveal_strlit("3");
        }
        "3"
    } else if d == 4 {
        proof {
            reveal_strlit("4");
        }
        "4"
    } else if d == 5 {
        proof {
            reveal_strlit("5");
        }
        "5"
    } else if d == 6 {
        proof {
            reveal_strlit("6");
        }
        "6"
    } else if d == 7 {
        proof {
            reveal_strlit("7");
        }
        "7"
    } else if d == 8 {
        proof {
            reveal_strlit("8");
        }
        "8"
    } else {
        proof {
            reveal_strlit("9");
        }
        "9"
    }
}

/// Appends the decimal representation of `n` to `out`.
pub fn push_decimal(out: &mut String, n: u64)
    ensures
        final(out)@ == old(out)@ + decimal(n as nat),
    decreases n,
{
    if n >= 10 {
        push_decimal(out, n / 10);
        out.append(digit_str(n % 10));
        assert(old(out)@ + decimal(n as nat) =~= old(out)@ + decimal((n / 10) as nat) + seq![
            digit_char((n % 10) as nat),
        ]);
    } else {
        out.append(digit_str(n));
    }
}

/// Appends the decimal representation of the signed `n` to `out`.
pub fn push_signed_decimal(out: &mut String, n: i64)
    ensures
        final(out)@ == old(out)@ + signed_decimal(n as int),
{
    if n < 0 {
        proof {
            reveal_strlit("-");
        }
        out.append("-");
        let m: u64 = (-(n as i128)) as u64;
        push_decimal(out, m);
        assert(old(out)@ + signed_decimal(n as int) =~= old(out)@ + seq!['-'] + decimal(
            m as nat,
        ));
    } else {
        push_decimal(out, n as u64);
    }
}

} // verus!
