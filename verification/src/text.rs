//! Splitting text at delimiters.
//!
//! Every function here works on characters, not bytes: an index counts
//! characters from the start of the text, and the mathematical model of a
//! piece of text is its `Seq<char>` view.

use vstd::prelude::*;
use vstd::string::StrSliceExecFns;

verus! {

/// `pat` stands in `s` at index `i`.
pub open spec fn occurs_at(s: Seq<char>, pat: Seq<char>, i: int) -> bool {
    0 <= i && i + pat.len() <= s.len() && s.subrange(i, i + pat.len()) == pat
}

/// The least index at or after `from` at which `pat` stands in `s`.
pub open spec fn find_from(s: Seq<char>, pat: Seq<char>, from: int) -> Option<int>
    decreases s.len() + 1 - from,
{
    if from < 0 || from + pat.len() > s.len() {
        None
    } else if occurs_at(s, pat, from) {
        Some(from)
    } else {
        find_from(s, pat, from + 1)
    }
}

/// The index of the first occurrence of `pat` in `s`.
pub open spec fn find(s: Seq<char>, pat: Seq<char>) -> Option<int> {
    find_from(s, pat, 0)
}

/// What stands before and after the first occurrence of `pat` in `s`.
pub open spec fn cut_once(s: Seq<char>, pat: Seq<char>) -> Option<(Seq<char>, Seq<char>)> {
    match find(s, pat) {
        Some(i) => Some((s.take(i), s.skip(i + pat.len()))),
        None => None,
    }
}

/// The pieces of `s` between the occurrences of `pat`, taken left to right
/// without overlap. Empty pieces are kept, so there is always one piece more
/// than there are delimiters. An empty `pat` splits nothing.
pub open spec fn cut_all(s: Seq<char>, pat: Seq<char>) -> Seq<Seq<char>>
    decreases s.len(),
{
    if pat.len() == 0 {
        seq![s]
    } else {
        match cut_once(s, pat) {
            Some((head, tail)) => {
                proof {
                    lemma_find_is_first(s, pat);
                }
                seq![head] + cut_all(tail, pat)
            },
            None => seq![s],
        }
    }
}

/// The characters with the Unicode property `White_Space`.
pub open spec fn whitespace(c: char) -> bool {
    let u: u32 = c as u32;
    ||| 0x09 <= u <= 0x0D
    ||| u == 0x20
    ||| u == 0x85
    ||| u == 0xA0
    ||| u == 0x1680
    ||| 0x2000 <= u <= 0x200A
    ||| u == 0x2028
    ||| u == 0x2029
    ||| u == 0x202F
    ||| u == 0x205F
    ||| u == 0x3000
}

/// The length of the longest prefix of `s` that holds no whitespace.
pub open spec fn word_len(s: Seq<char>) -> nat
    decreases s.len(),
{
    if s.len() == 0 || whitespace(s[0]) {
        0
    } else {
        1 + word_len(s.skip(1))
    }
}

/// The maximal runs of characters of `s` that are not whitespace, left to
/// right.
pub open spec fn words(s: Seq<char>) -> Seq<Seq<char>>
    decreases s.len(),
{
    if s.len() == 0 {
        seq![]
    } else if whitespace(s[0]) {
        words(s.skip(1))
    } else {
        proof {
            lemma_word_len_bounds(s);
        }
        seq![s.take(word_len(s) as int)] + words(s.skip(word_len(s) as int))
    }
}

/// The views of a list of string slices.
pub open spec fn views(v: Seq<&str>) -> Seq<Seq<char>> {
    Seq::new(v.len(), |i: int| v[i]@)
}

/// `find_from` returns an index at which `pat` stands, and `pat` stands
/// nowhere between `from` and that index; `None` means that `pat` stands
/// nowhere at or after `from`.
pub proof fn lemma_find_from_is_first(s: Seq<char>, pat: Seq<char>, from: int)
    requires
        0 <= from,
    ensures
        match find_from(s, pat, from) {
            Some(i) => from <= i && occurs_at(s, pat, i) && forall|j: int|
                from <= j < i ==> !occurs_at(s, pat, j),
            None => forall|j: int| from <= j ==> !occurs_at(s, pat, j),
        },
    decreases s.len() + 1 - from,
{
    if from + pat.len() > s.len() {
    } else if occurs_at(s, pat, from) {
    } else {
        lemma_find_from_is_first(s, pat, from + 1);
    }
}

/// `find` returns the first index at which `pat` stands in `s`, and `None`
/// exactly when it stands nowhere.
pub proof fn lemma_find_is_first(s: Seq<char>, pat: Seq<char>)
    ensures
        match find(s, pat) {
            Some(i) => occurs_at(s, pat, i) && forall|j: int| 0 <= j < i ==> !occurs_at(s, pat, j),
            None => forall|j: int| !occurs_at(s, pat, j),
        },
{
    lemma_find_from_is_first(s, pat, 0);
}

/// A text holds a character exactly where the character, as a delimiter of
/// length one, stands in it; so a text without the character is not cut.
pub proof fn lemma_cut_once_char(s: Seq<char>, c: char)
    ensures
        cut_once(s, seq![c]) is Some <==> s.contains(c),
{
    lemma_find_is_first(s, seq![c]);
    match find(s, seq![c]) {
        Some(i) => {
            assert(s.subrange(i, i + 1)[0] == c);
            assert(s[i] == c);
        },
        None => {
            if s.contains(c) {
                let i = choose|i: int| 0 <= i < s.len() && s[i] == c;
                assert(s.subrange(i, i + 1) =~= seq![c]);
                assert(occurs_at(s, seq![c], i));
            }
        },
    }
}

/// A word is never longer than the text it starts.
pub proof fn lemma_word_len_bounds(s: Seq<char>)
    ensures
        word_len(s) <= s.len(),
        s.len() > 0 && !whitespace(s[0]) ==> word_len(s) >= 1,
    decreases s.len(),
{
    if s.len() == 0 || whitespace(s[0]) {
    } else {
        lemma_word_len_bounds(s.skip(1));
    }
}

/// The characters of `s`, one element each.
pub fn chars_of(s: &str) -> (v: Vec<char>)
    ensures
        v@ == s@,
{
    let mut v: Vec<char> = Vec::new();
    for c in it: s.chars()
        invariant
            it.seq() == s@,
            v@ == s@.take(it.index()),
    {
        v.push(c);
    }
    v
}

/// Whether `c` is whitespace.
pub fn is_whitespace(c: char) -> (b: bool)
    ensures
        b == whitespace(c),
{
    let u: u32 = c as u32;
    (0x09 <= u && u <= 0x0D) || u == 0x20 || u == 0x85 || u == 0xA0 || u == 0x1680 || (0x2000 <= u
        && u <= 0x200A) || u == 0x2028 || u == 0x2029 || u == 0x202F || u == 0x205F || u == 0x3000
}

/// Whether `pat` stands in `text` at index `at`.
fn stands_at(text: &Vec<char>, pat: &Vec<char>, at: usize) -> (b: bool)
    requires
        at + pat.len() <= text.len(),
    ensures
        b == occurs_at(text@, pat@, at as int),
{
    let m: usize = pat.len();
    let mut k: usize = 0;
    while k < m
        invariant
            m == pat.len(),
            at + m <= text.len(),
            k <= m,
            forall|j: int| 0 <= j < k ==> text@[at + j] == pat@[j],
        decreases m - k,
    {
        if text[at + k] != pat[k] {
            assert(text@.subrange(at as int, at + m)[k as int] != pat@[k as int]);
            return false;
        }
        k = k + 1;
    }
    assert(text@.subrange(at as int, at + m) =~= pat@);
    true
}

/// The index of the first occurrence of `pat` in `text`.
fn find_in(text: &Vec<char>, pat: &Vec<char>) -> (r: Option<usize>)
    ensures
        match r {
            Some(i) => find(text@, pat@) == Some(i as int),
            None => find(text@, pat@) is None,
        },
{
    let n: usize = text.len();
    let m: usize = pat.len();
    if m > n {
        return None;
    }
    let last: usize = n - m;
    let mut i: usize = 0;
    loop
        invariant
            n == text.len(),
            m == pat.len(),
            last == n - m,
            i <= last,
            find(text@, pat@) == find_from(text@, pat@, i as int),
        decreases last - i,
    {
        if stands_at(text, pat, i) {
            return Some(i);
        }
        if i == last {
            assert(find_from(text@, pat@, i + 1) is None);
            return None;
        }
        i = i + 1;
    }
}

/// Whether `a` and `b` hold the same characters.
pub fn same_text(a: &str, b: &str) -> (r: bool)
    ensures
        r == (a@ == b@),
{
    let left = chars_of(a);
    let right = chars_of(b);
    let n: usize = left.len();
    if right.len() != n {
        return false;
    }
    let mut i: usize = 0;
    while i < n
        invariant
            left@ == a@,
            right@ == b@,
            n == left.len(),
            n == right.len(),
            i <= n,
            forall|j: int| 0 <= j < i ==> left@[j] == right@[j],
        decreases n - i,
    {
        if left[i] != right[i] {
            assert(a@[i as int] != b@[i as int]);
            return false;
        }
        i = i + 1;
    }
    assert(left@ =~= right@);
    true
}

/// Splits `s` at the first occurrence of `pat`: what stands before it and
/// what stands after it, or `None` where `pat` does not occur.
pub fn split_once<'a>(s: &'a str, pat: &str) -> (r: Option<(&'a str, &'a str)>)
    ensures
        match r {
            Some((head, tail)) => cut_once(s@, pat@) == Some((head@, tail@)),
            None => cut_once(s@, pat@) is None,
        },
{
    let text = chars_of(s);
    let delim = chars_of(pat);
    let n: usize = text.len();
    let m: usize = delim.len();
    match find_in(&text, &delim) {
        Some(i) => {
            proof {
                lemma_find_is_first(s@, pat@);
            }
            let head = s.substring_char(0, i);
            let tail = s.substring_char(i + m, n);
            Some((head, tail))
        },
        None => None,
    }
}

/// Splits `s` at every occurrence of `pat`, left to right, keeping empty
/// pieces. An empty `pat` leaves `s` in one piece.
pub fn split<'a>(s: &'a str, pat: &str) -> (pieces: Vec<&'a str>)
    ensures
        views(pieces@) == cut_all(s@, pat@),
{
    let mut pieces: Vec<&'a str> = Vec::new();
    if pat.unicode_len() == 0 {
        pieces.push(s);
        assert(views(pieces@) =~= seq![s@]);
        return pieces;
    }
    let mut rest: &'a str = s;
    loop
        invariant_except_break
            cut_all(s@, pat@) == views(pieces@) + cut_all(rest@, pat@),
        invariant
            pat@.len() > 0,
        ensures
            views(pieces@) == cut_all(s@, pat@),
        decreases rest@.len(),
    {
        let ghost before = views(pieces@);
        match split_once(rest, pat) {
            Some((head, tail)) => {
                proof {
                    lemma_find_is_first(rest@, pat@);
                }
                pieces.push(head);
                assert(views(pieces@) =~= before + seq![head@]);
                assert(cut_all(s@, pat@) =~= views(pieces@) + cut_all(tail@, pat@));
                rest = tail;
            },
            None => {
                pieces.push(rest);
                assert(views(pieces@) =~= before + seq![rest@]);
                break ;
            },
        }
    }
    pieces
}

/// Splits `s` at whitespace: the maximal runs of other characters, left to
/// right. No piece is empty.
pub fn split_whitespace<'a>(s: &'a str) -> (pieces: Vec<&'a str>)
    ensures
        views(pieces@) == words(s@),
{
    let text = chars_of(s);
    let n: usize = text.len();
    let mut pieces: Vec<&'a str> = Vec::new();
    let mut i: usize = 0;
    assert(s@.skip(0) =~= s@);
    assert(views(pieces@) =~= Seq::<Seq<char>>::empty());
    while i < n
        invariant
            text@ == s@,
            n == text.len(),
            i <= n,
            words(s@) == views(pieces@) + words(s@.skip(i as int)),
        decreases n - i,
    {
        if is_whitespace(text[i]) {
            assert(s@.skip(i as int).skip(1) =~= s@.skip(i + 1));
            i = i + 1;
        } else {
            let start: usize = i;
            let ghost from = s@.skip(start as int);
            assert(from.skip(0) =~= from);
            while i < n && !is_whitespace(text[i])
                invariant
                    text@ == s@,
                    n == text.len(),
                    start <= i <= n,
                    from == s@.skip(start as int),
                    word_len(from) == (i - start) + word_len(from.skip(i - start)),
                decreases n - i,
            {
                assert(from.skip(i - start).skip(1) =~= from.skip(i + 1 - start));
                i = i + 1;
            }
            assert(word_len(from) == i - start) by {
                if i < n {
                    assert(from.skip(i - start)[0] == s@[i as int]);
                }
            }
            let ghost before = views(pieces@);
            let word = s.substring_char(start, i);
            pieces.push(word);
            assert(word@ =~= from.take(word_len(from) as int));
            assert(views(pieces@) =~= before + seq![word@]);
            assert(from.skip(word_len(from) as int) =~= s@.skip(i as int));
        }
    }
    assert(words(s@.skip(n as int)) =~= Seq::<Seq<char>>::empty());
    pieces
}

} // verus!
