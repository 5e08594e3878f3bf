//! Character-sequence operations used by the extractor: searching,
//! trimming, splitting and joining, each with a specification over
//! `Seq<char>` and an executable version over `Vec<char>`.
use vstd::prelude::*;

verus! {

// ---------------------------------------------------------------------
// Conversions between strings and character vectors
// ---------------------------------------------------------------------

/// The characters of `s`, in order.
pub fn chars_of(s: &str) -> (r: Vec<char>)
    ensures
        r@ == s@,
{
    let mut r: Vec<char> = Vec::new();
    for c in it: s.chars()
        invariant
            r@.len() == it.index(),
            forall|k: int| 0 <= k < r@.len() ==> r@[k] == it.seq()[k],
    {
        r.push(c);
    }
    assert(r@ =~= s@);
    r
}

/// `String::push`: appends one character to the end of the string.
#[verifier::external_body]
fn push_char(s: &mut String, c: char)
    ensures
        final(s)@ == old(s)@.push(c),
{
    s.push(c);
}

/// A string holding exactly the characters of `v`.
pub fn string_of(v: &Vec<char>) -> (r: String)
    ensures
        r@ == v@,
{
    let mut r = String::new();
    let mut i: usize = 0;
    while i < v.len()
        invariant
            i <= v.len(),
            r@ == v@.take(i as int),
        decreases v.len() - i,
    {
        push_char(&mut r, v[i]);
        i = i + 1;
        assert(r@ =~= v@.take(i as int));
    }
    assert(v@.take(i as int) =~= v@);
    r
}

/// The characters of `v` between `lo` (inclusive) and `hi` (exclusive).
pub fn sub_chars(v: &Vec<char>, lo: usize, hi: usize) -> (r: Vec<char>)
    requires
        lo <= hi <= v.len(),
    ensures
        r@ == v@.subrange(lo as int, hi as int),
{
    let mut r: Vec<char> = Vec::new();
    let mut i: usize = lo;
    while i < hi
        invariant
            lo <= i <= hi,
            hi <= v.len(),
            r@ == v@.subrange(lo as int, i as int),
        decreases hi - i,
    {
        r.push(v[i]);
        i = i + 1;
        assert(r@ =~= v@.subrange(lo as int, i as int));
    }
    r
}

/// `a` followed by `b`.
pub fn concat_chars(a: &Vec<char>, b: &Vec<char>) -> (r: Vec<char>)
    ensures
        r@ == a@ + b@,
{
    let mut r = a.clone();
    let mut x = b.clone();
    assert(r@ =~= a@);
    assert(x@ =~= b@);
    r.append(&mut x);
    r
}

/// Whether two character vectors hold the same characters.
pub fn same_chars(a: &Vec<char>, b: &Vec<char>) -> (r: bool)
    ensures
        r == (a@ == b@),
{
    if a.len() != b.len() {
        return false;
    }
    let mut i: usize = 0;
    while i < a.len()
        invariant
            i <= a.len(),
            a.len() == b.len(),
            forall|k: int| 0 <= k < i ==> a@[k] == b@[k],
        decreases a.len() - i,
    {
        if a[i] != b[i] {
            return false;
        }
        i = i + 1;
    }
    assert(a@ =~= b@);
    true
}

// ---------------------------------------------------------------------
// Character classes
// ---------------------------------------------------------------------

/// The Unicode `White_Space` characters: those that `char::is_whitespace`
/// accepts and that `str::trim` removes.
pub open spec fn is_white_space(c: char) -> bool {
    ||| ('\u{9}' <= c && c <= '\u{d}')
    ||| c == ' '
    ||| c == '\u{85}'
    ||| c == '\u{a0}'
    ||| c == '\u{1680}'
    ||| ('\u{2000}' <= c && c <= '\u{200a}')
    ||| c == '\u{2028}'
    ||| c == '\u{2029}'
    ||| c == '\u{202f}'
    ||| c == '\u{205f}'
    ||| c == '\u{3000}'
}

pub fn white_space(c: char) -> (r: bool)
    ensures
        r == is_white_space(c),
{
    ('\u{9}' <= c && c <= '\u{d}') || c == ' ' || c == '\u{85}' || c == '\u{a0}' || c == '\u{1680}'
        || ('\u{2000}' <= c && c <= '\u{200a}') || c == '\u{2028}' || c == '\u{2029}' || c
        == '\u{202f}' || c == '\u{205f}' || c == '\u{3000}'
}

/// What `char::is_alphanumeric` answers for `c`: whether `c` has the
/// Unicode `Alphabetic` property or a numeric general category.
pub uninterp spec fn unicode_alphanumeric(c: char) -> bool;

pub open spec fn is_ascii_letter_or_digit(c: char) -> bool {
    ('a' <= c && c <= 'z') || ('A' <= c && c <= 'Z') || ('0' <= c && c <= '9')
}

/// `char::is_alphanumeric`. The answer is named by `unicode_alphanumeric`;
/// for ASCII characters the documentation makes it plain: exactly the
/// letters and the digits are alphanumeric. What it answers beyond ASCII
/// rests on Unicode tables and is not stated here.
#[verifier::external_body]
fn alphanumeric(c: char) -> (r: bool)
    ensures
        r == unicode_alphanumeric(c),
        c <= '\u{7f}' ==> (r == is_ascii_letter_or_digit(c)),
{
    c.is_alphanumeric()
}

/// What `char::is_alphanumeric` answers: for ASCII, the letters and the
/// digits; beyond ASCII, as named by `unicode_alphanumeric`.
pub open spec fn is_alphanumeric(c: char) -> bool {
    if c <= '\u{7f}' {
        is_ascii_letter_or_digit(c)
    } else {
        unicode_alphanumeric(c)
    }
}

/// The character classes that the scans of a supertype look for.
#[derive(Clone, Copy)]
pub enum CharClass {
    /// `>`, a space or `,`: where a mixin name written as `MixinWith<M...` ends.
    NameEnd,
    /// An alphanumeric character or `_`.
    Word,
    /// Neither alphanumeric nor `_`.
    NonWord,
    /// Not whitespace.
    NonSpace,
}

pub open spec fn in_class(k: CharClass, c: char) -> bool {
    match k {
        CharClass::NameEnd => c == '>' || c == ' ' || c == ',',
        CharClass::Word => is_alphanumeric(c) || c == '_',
        CharClass::NonWord => !is_alphanumeric(c) && c != '_',
        CharClass::NonSpace => !is_white_space(c),
    }
}

pub fn char_in_class(k: CharClass, c: char) -> (r: bool)
    ensures
        r == in_class(k, c),
{
    match k {
        CharClass::NameEnd => c == '>' || c == ' ' || c == ',',
        CharClass::Word => alphanumeric(c) || c == '_',
        CharClass::NonWord => !alphanumeric(c) && c != '_',
        CharClass::NonSpace => !white_space(c),
    }
}

/// The first index at or after `i` whose character is in class `k`.
pub open spec fn find_class_from(s: Seq<char>, k: CharClass, i: int) -> Option<int>
    decreases s.len() - i,
{
    if i < 0 || i >= s.len() {
        None
    } else if in_class(k, s[i]) {
        Some(i)
    } else {
        find_class_from(s, k, i + 1)
    }
}

pub open spec fn find_class(s: Seq<char>, k: CharClass) -> Option<int> {
    find_class_from(s, k, 0)
}

pub fn find_char_in_class(s: &Vec<char>, k: CharClass) -> (r: Option<usize>)
    ensures
        match r {
            Some(j) => find_class(s@, k) == Some(j as int),
            None => find_class(s@, k) is None,
        },
{
    let mut i: usize = 0;
    while i < s.len()
        invariant
            i <= s.len(),
            find_class_from(s@, k, 0) == find_class_from(s@, k, i as int),
        decreases s.len() - i,
    {
        if char_in_class(k, s[i]) {
            return Some(i);
        }
        i = i + 1;
    }
    None
}

pub proof fn lemma_find_class_from(s: Seq<char>, k: CharClass, i: int)
    requires
        0 <= i,
    ensures
        match find_class_from(s, k, i) {
            Some(j) => i <= j < s.len() && in_class(k, s[j]) && forall|m: int|
                i <= m < j ==> !in_class(k, #[trigger] s[m]),
            None => forall|m: int| i <= m < s.len() ==> !in_class(k, #[trigger] s[m]),
        },
    decreases s.len() - i,
{
    if i < s.len() && !in_class(k, s[i]) {
        lemma_find_class_from(s, k, i + 1);
    }
}

// ---------------------------------------------------------------------
// Searching for a pattern
// ---------------------------------------------------------------------

/// `pat` occurs in `s` starting at index `i`.
pub open spec fn occurs_at(s: Seq<char>, pat: Seq<char>, i: int) -> bool {
    0 <= i && i + pat.len() <= s.len() && s.subrange(i, i + pat.len()) == pat
}

/// The first index at or after `i` where `pat` occurs in `s`.
pub open spec fn find_from(s: Seq<char>, pat: Seq<char>, i: int) -> Option<int>
    decreases s.len() + 1 - i,
{
    if i < 0 || i > s.len() {
        None
    } else if occurs_at(s, pat, i) {
        Some(i)
    } else {
        find_from(s, pat, i + 1)
    }
}

/// The first index where `pat` occurs in `s` (what `str::find` answers).
pub open spec fn find(s: Seq<char>, pat: Seq<char>) -> Option<int> {
    find_from(s, pat, 0)
}

/// `pat` occurs somewhere in `s` (what `str::contains` answers).
pub open spec fn contains(s: Seq<char>, pat: Seq<char>) -> bool {
    find(s, pat) is Some
}

pub proof fn lemma_find_from(s: Seq<char>, pat: Seq<char>, i: int)
    requires
        0 <= i,
    ensures
        match find_from(s, pat, i) {
            Some(j) => i <= j && occurs_at(s, pat, j) && forall|m: int|
                i <= m < j ==> !occurs_at(s, pat, m),
            None => forall|m: int| i <= m ==> !occurs_at(s, pat, m),
        },
    decreases s.len() + 1 - i,
{
    if i <= s.len() && !occurs_at(s, pat, i) {
        lemma_find_from(s, pat, i + 1);
    }
}

/// `pat` occurs in `s` exactly when some index holds an occurrence.
pub proof fn lemma_contains(s: Seq<char>, pat: Seq<char>)
    ensures
        contains(s, pat) <==> exists|m: int| occurs_at(s, pat, m),
        match find(s, pat) {
            Some(j) => 0 <= j && j + pat.len() <= s.len(),
            None => true,
        },
{
    lemma_find_from(s, pat, 0);
    if contains(s, pat) {
        let j = find(s, pat)->0;
        assert(occurs_at(s, pat, j));
    }
}

fn occurs_here(s: &Vec<char>, pat: &Vec<char>, i: usize) -> (r: bool)
    requires
        i + pat.len() <= s.len(),
    ensures
        r == occurs_at(s@, pat@, i as int),
{
    let mut j: usize = 0;
    while j < pat.len()
        invariant
            j <= pat.len(),
            i + pat.len() <= s.len(),
            forall|m: int| 0 <= m < j ==> s@[i + m] == pat@[m],
        decreases pat.len() - j,
    {
        if s[i + j] != pat[j] {
            assert(s@.subrange(i as int, i + pat.len())[j as int] != pat@[j as int]);
            return false;
        }
        j = j + 1;
    }
    assert(s@.subrange(i as int, i + pat.len()) =~= pat@);
    true
}

/// `str::find`: the first index where `pat` occurs in `s`.
pub fn find_chars(s: &Vec<char>, pat: &Vec<char>) -> (r: Option<usize>)
    ensures
        match r {
            Some(j) => find(s@, pat@) == Some(j as int),
            None => find(s@, pat@) is None,
        },
{
    proof {
        lemma_find_from(s@, pat@, 0);
    }
    if pat.len() > s.len() {
        proof {
            if find(s@, pat@) is Some {
                let j = find(s@, pat@)->0;
                assert(occurs_at(s@, pat@, j));
            }
        }
        return None;
    }
    let last = s.len() - pat.len();
    let mut i: usize = 0;
    loop
        invariant
            i <= last,
            last + pat.len() == s.len(),
            find_from(s@, pat@, 0) == find_from(s@, pat@, i as int),
        decreases last - i,
    {
        if occurs_here(s, pat, i) {
            return Some(i);
        }
        if i == last {
            proof {
                lemma_find_from(s@, pat@, i + 1);
                if find_from(s@, pat@, i + 1) is Some {
                    let j = find_from(s@, pat@, i + 1)->0;
                    assert(occurs_at(s@, pat@, j));
                }
            }
            return None;
        }
        i = i + 1;
    }
}

/// `str::contains`.
pub fn contains_chars(s: &Vec<char>, pat: &Vec<char>) -> (r: bool)
    ensures
        r == contains(s@, pat@),
{
    find_chars(s, pat).is_some()
}

/// `str::contains` with a literal pattern.
pub fn contains_str(s: &Vec<char>, pat: &str) -> (r: bool)
    ensures
        r == contains(s@, pat@),
{
    let p = chars_of(pat);
    contains_chars(s, &p)
}

/// `==` between characters and a literal.
pub fn equals_str(s: &Vec<char>, lit: &str) -> (r: bool)
    ensures
        r == (s@ == lit@),
{
    let p = chars_of(lit);
    same_chars(s, &p)
}

// ---------------------------------------------------------------------
// Trimming
// ---------------------------------------------------------------------

/// `str::trim_start`.
pub open spec fn trim_start(s: Seq<char>) -> Seq<char>
    decreases s.len(),
{
    if s.len() > 0 && is_white_space(s[0]) {
        trim_start(s.drop_first())
    } else {
        s
    }
}

/// `str::trim_end`.
pub open spec fn trim_end(s: Seq<char>) -> Seq<char>
    decreases s.len(),
{
    if s.len() > 0 && is_white_space(s.last()) {
        trim_end(s.drop_last())
    } else {
        s
    }
}

/// `str::trim`: `s` without leading and trailing whitespace.
pub open spec fn trim(s: Seq<char>) -> Seq<char> {
    trim_end(trim_start(s))
}

pub fn trim_chars(s: &Vec<char>) -> (r: Vec<char>)
    ensures
        r@ == trim(s@),
{
    let mut lo: usize = 0;
    assert(s@.subrange(0, s.len() as int) =~= s@);
    while lo < s.len() && white_space(s[lo as usize])
        invariant
            lo <= s.len(),
            trim_start(s@) == trim_start(s@.subrange(lo as int, s.len() as int)),
        decreases s.len() - lo,
    {
        assert(s@.subrange(lo as int, s.len() as int).drop_first() =~= s@.subrange(
            lo + 1,
            s.len() as int,
        ));
        lo = lo + 1;
    }
    assert(trim_start(s@) == s@.subrange(lo as int, s.len() as int));
    let mut hi: usize = s.len();
    while hi > lo && white_space(s[hi - 1])
        invariant
            lo <= hi <= s.len(),
            trim(s@) == trim_end(s@.subrange(lo as int, hi as int)),
        decreases hi - lo,
    {
        assert(s@.subrange(lo as int, hi as int).drop_last() =~= s@.subrange(
            lo as int,
            hi - 1,
        ));
        hi = hi - 1;
    }
    sub_chars(s, lo, hi)
}

/// `str::trim_start_matches(c)`: `s` without its leading run of `c`.
pub open spec fn strip_leading(s: Seq<char>, c: char) -> Seq<char>
    decreases s.len(),
{
    if s.len() > 0 && s[0] == c {
        strip_leading(s.drop_first(), c)
    } else {
        s
    }
}

pub fn strip_leading_chars(s: &Vec<char>, c: char) -> (r: Vec<char>)
    ensures
        r@ == strip_leading(s@, c),
{
    let mut lo: usize = 0;
    assert(s@.subrange(0, s.len() as int) =~= s@);
    while lo < s.len() && s[lo] == c
        invariant
            lo <= s.len(),
            strip_leading(s@, c) == strip_leading(s@.subrange(lo as int, s.len() as int), c),
        decreases s.len() - lo,
    {
        assert(s@.subrange(lo as int, s.len() as int).drop_first() =~= s@.subrange(
            lo + 1,
            s.len() as int,
        ));
        lo = lo + 1;
    }
    sub_chars(s, lo, s.len())
}

/// `str::strip_suffix`: the part of `s` before `suffix`, if `s` ends with it.
pub open spec fn strip_suffix(s: Seq<char>, suffix: Seq<char>) -> Option<Seq<char>> {
    if suffix.len() <= s.len() && s.subrange(s.len() - suffix.len(), s.len() as int) == suffix {
        Some(s.subrange(0, s.len() - suffix.len()))
    } else {
        None
    }
}

pub fn strip_suffix_chars(s: &Vec<char>, suffix: &Vec<char>) -> (r: Option<Vec<char>>)
    ensures
        match r {
            Some(p) => strip_suffix(s@, suffix@) == Some(p@),
            None => strip_suffix(s@, suffix@) is None,
        },
{
    if suffix.len() > s.len() {
        return None;
    }
    let start = s.len() - suffix.len();
    let tail = sub_chars(s, start, s.len());
    if same_chars(&tail, suffix) {
        Some(sub_chars(s, 0, start))
    } else {
        None
    }
}

// ---------------------------------------------------------------------
// Splitting and joining
// ---------------------------------------------------------------------

/// `str::split(sep)`: the pieces of `s` between the occurrences of `sep`,
/// found from left to right without overlap.
pub open spec fn split(s: Seq<char>, sep: Seq<char>) -> Seq<Seq<char>>
    decreases s.len(),
{
    if sep.len() == 0 {
        seq![s]
    } else {
        match find(s, sep) {
            Some(i) => if 0 <= i && i + sep.len() <= s.len() {
                seq![s.subrange(0, i)] + split(s.subrange(i + sep.len(), s.len() as int), sep)
            } else {
                seq![s]
            },
            None => seq![s],
        }
    }
}

pub proof fn lemma_split_nonempty(s: Seq<char>, sep: Seq<char>)
    ensures
        split(s, sep).len() >= 1,
    decreases s.len(),
{
    if sep.len() != 0 {
        if let Some(i) = find(s, sep) {
            if 0 <= i && i + sep.len() <= s.len() {
                lemma_split_nonempty(s.subrange(i + sep.len(), s.len() as int), sep);
            }
        }
    }
}

pub fn split_chars(s: &Vec<char>, sep: &Vec<char>) -> (r: Vec<Vec<char>>)
    requires
        sep.len() > 0,
    ensures
        r@.len() == split(s@, sep@).len(),
        forall|k: int| 0 <= k < r@.len() ==> #[trigger] r@[k]@ == split(s@, sep@)[k],
{
    let mut r: Vec<Vec<char>> = Vec::new();
    let mut rest: Vec<char> = sub_chars(s, 0, s.len());
    assert(rest@ =~= s@);
    loop
        invariant
            sep.len() > 0,
            forall|k: int| 0 <= k < r@.len() ==> #[trigger] r@[k]@ == split(s@, sep@)[k],
            split(s@, sep@) =~= Seq::new(r@.len() as nat, |k: int| r@[k]@) + split(rest@, sep@),
        decreases rest@.len(),
    {
        let ghost old_rest = rest@;
        let ghost prefix = Seq::new(r@.len() as nat, |k: int| r@[k]@);
        match find_chars(&rest, sep) {
            Some(i) => {
                proof {
                    lemma_contains(rest@, sep@);
                    assert(i + sep@.len() <= rest@.len());
                }
                assert(i + sep.len() <= rest.len());
                let piece = sub_chars(&rest, 0, i);
                let next = sub_chars(&rest, i + sep.len(), rest.len());
                r.push(piece);
                rest = next;
                assert(Seq::new(r@.len() as nat, |k: int| r@[k]@) =~= prefix + seq![
                    old_rest.subrange(0, i as int),
                ]);
            },
            None => {
                r.push(rest);
                assert(Seq::new(r@.len() as nat, |k: int| r@[k]@) =~= prefix + seq![old_rest]);
                return r;
            },
        }
    }
}

/// `[T]::join(sep)`: the parts, with `sep` between each two of them.
pub open spec fn join(parts: Seq<Seq<char>>, sep: Seq<char>) -> Seq<char>
    decreases parts.len(),
{
    if parts.len() == 0 {
        Seq::empty()
    } else if parts.len() == 1 {
        parts[0]
    } else {
        join(parts.drop_last(), sep) + sep + parts.last()
    }
}

pub fn join_strings(parts: &Vec<String>, sep: &str) -> (r: String)
    ensures
        r@ == join(parts@.map_values(|p: String| p@), sep@),
{
    let ghost views = parts@.map_values(|p: String| p@);
    let mut r = String::new();
    let mut i: usize = 0;
    while i < parts.len()
        invariant
            i <= parts.len(),
            views == parts@.map_values(|p: String| p@),
            r@ == join(views.take(i as int), sep@),
        decreases parts.len() - i,
    {
        assert(views.take(i + 1).drop_last() =~= views.take(i as int));
        if i > 0 {
            r.append(sep);
        }
        r.append(parts[i].as_str());
        i = i + 1;
        assert(r@ =~= join(views.take(i as int), sep@));
    }
    assert(views.take(i as int) =~= views);
    r
}

} // verus!
