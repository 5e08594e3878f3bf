//! Naming a mixin instance from the supertype it is declared with: from
//! `<A<..> as MixinWith<M1>>::..` the name `A_M1`, a base class followed by
//! its mixins, joined with `_`.
use vstd::prelude::*;

use crate::info::option_view;
use crate::info::string_views;
use crate::text::{
    chars_of, contains, contains_str, find, find_char_in_class, find_chars, find_class,
    is_white_space, join, join_strings, lemma_contains, lemma_find_class_from, string_of,
    sub_chars, trim, trim_chars, CharClass,
};

verus! {

// ---------------------------------------------------------------------
// The first class name: the regex `<\s*([A-Za-z_][A-Za-z0-9_]*)`
// ---------------------------------------------------------------------

pub open spec fn is_ident_start(c: char) -> bool {
    ('A' <= c && c <= 'Z') || ('a' <= c && c <= 'z') || c == '_'
}

pub open spec fn is_ident_char(c: char) -> bool {
    is_ident_start(c) || ('0' <= c && c <= '9')
}

/// The end of the run of whitespace in `s` that starts at `i`.
pub open spec fn space_run_end(s: Seq<char>, i: int) -> int
    decreases s.len() - i,
{
    if 0 <= i < s.len() && is_white_space(s[i]) {
        space_run_end(s, i + 1)
    } else {
        i
    }
}

/// The end of the run of `[A-Za-z0-9_]` in `s` that starts at `i`.
pub open spec fn ident_run_end(s: Seq<char>, i: int) -> int
    decreases s.len() - i,
{
    if 0 <= i < s.len() && is_ident_char(s[i]) {
        ident_run_end(s, i + 1)
    } else {
        i
    }
}

/// `<`, then whitespace, then a character that can start an identifier,
/// starting at `i`.
pub open spec fn angle_ident_at(s: Seq<char>, i: int) -> bool {
    &&& 0 <= i < s.len()
    &&& s[i] == '<'
    &&& space_run_end(s, i + 1) < s.len()
    &&& is_ident_start(s[space_run_end(s, i + 1)])
}

/// The identifier after the `<` at `i`.
pub open spec fn angle_ident_group(s: Seq<char>, i: int) -> Seq<char> {
    let j = space_run_end(s, i + 1);
    s.subrange(j, ident_run_end(s, j))
}

pub open spec fn first_angle_ident_from(s: Seq<char>, i: int) -> Option<Seq<char>>
    decreases s.len() - i,
{
    if i < 0 || i >= s.len() {
        None
    } else if angle_ident_at(s, i) {
        Some(angle_ident_group(s, i))
    } else {
        first_angle_ident_from(s, i + 1)
    }
}

/// The group that the regex `<\s*([A-Za-z_][A-Za-z0-9_]*)` captures in `s`
/// when it matches: the leftmost `<` that whitespace and an identifier
/// follow, and that whole identifier.
pub open spec fn first_angle_ident(s: Seq<char>) -> Option<Seq<char>> {
    first_angle_ident_from(s, 0)
}

/// What capture group 1 of the first match of the regex `pattern` in
/// `haystack` holds (`None` when the pattern does not compile, does not
/// match, or the group does not take part in the match).
pub uninterp spec fn regex_group_one(pattern: Seq<char>, haystack: Seq<char>) -> Option<Seq<char>>;

/// `regex::Regex::new(pattern)`, then `Regex::captures(haystack)` and the
/// text of capture group 1. The result is named by `regex_group_one`. For
/// the pattern `<\s*([A-Za-z_][A-Za-z0-9_]*)` the crate's documentation
/// (leftmost-first matching, greedy repetition, `\s` as Unicode
/// `White_Space`) gives it: `first_angle_ident`.
#[verifier::external_body]
fn regex_first_capture(pattern: &str, haystack: &str) -> (r: Option<String>)
    ensures
        option_view(r) == regex_group_one(pattern@, haystack@),
        pattern@ == "<\\s*([A-Za-z_][A-Za-z0-9_]*)"@ ==> option_view(r) == first_angle_ident(
            haystack@,
        ),
{
    match regex::Regex::new(pattern) {
        Ok(re) => match re.captures(haystack) {
            Some(caps) => match caps.get(1) {
                Some(m) => Some(m.as_str().to_string()),
                None => None,
            },
            None => None,
        },
        Err(_) => None,
    }
}

// ---------------------------------------------------------------------
// The mixin names
// ---------------------------------------------------------------------

pub open spec fn nonempty_single(name: Seq<char>) -> Seq<Seq<char>> {
    if name.len() > 0 {
        seq![name]
    } else {
        Seq::empty()
    }
}

/// The names that follow each `marker` (`MixinWith<`), each up to the
/// next `>`, space or `,` and trimmed; empty names are skipped, and the scan
/// stops at a marker that no such character follows.
pub open spec fn marker_scan(s: Seq<char>, marker: Seq<char>) -> Seq<Seq<char>>
    decreases s.len(),
{
    if marker.len() == 0 {
        Seq::empty()
    } else {
        match find(s, marker) {
            Some(p) => if 0 <= p && p + marker.len() <= s.len() {
                let rest = s.subrange(p + marker.len(), s.len() as int);
                match find_class(rest, CharClass::NameEnd) {
                    Some(e) => if 0 <= e <= rest.len() {
                        nonempty_single(trim(rest.subrange(0, e))) + marker_scan(
                            rest.subrange(e, rest.len() as int),
                            marker,
                        )
                    } else {
                        Seq::empty()
                    },
                    None => Seq::empty(),
                }
            } else {
                Seq::empty()
            },
            None => Seq::empty(),
        }
    }
}

/// The names that follow each `marker` (`MixinWith <`): from the first
/// alphanumeric or `_` character after the marker (or right after it when
/// there is none) up to the next character that is neither; empty names
/// are skipped, and the scan stops where no such end follows.
pub open spec fn spaced_scan(s: Seq<char>, marker: Seq<char>) -> Seq<Seq<char>>
    decreases s.len(),
{
    if marker.len() == 0 {
        Seq::empty()
    } else {
        match find(s, marker) {
            Some(p) => if 0 <= p && p + marker.len() <= s.len() {
                let rem = s.subrange(p + marker.len(), s.len() as int);
                let ns = match find_class(rem, CharClass::Word) {
                    Some(k) => k,
                    None => 0,
                };
                if 0 <= ns <= rem.len() {
                    let name_str = rem.subrange(ns, rem.len() as int);
                    match find_class(name_str, CharClass::NonWord) {
                        Some(e) => if 0 <= e <= name_str.len() {
                            nonempty_single(trim(name_str.subrange(0, e))) + spaced_scan(
                                name_str.subrange(e, name_str.len() as int),
                                marker,
                            )
                        } else {
                            Seq::empty()
                        },
                        None => Seq::empty(),
                    }
                } else {
                    Seq::empty()
                }
            } else {
                Seq::empty()
            },
            None => Seq::empty(),
        }
    }
}

/// The parts of a composite name: the first class name, then the mixin
/// names written as `MixinWith<M`, or, when there is none of those, those
/// written as `MixinWith < M`.
pub open spec fn composite_parts(s: Seq<char>) -> Seq<Seq<char>> {
    let first = match first_angle_ident(s) {
        Some(c) => seq![c],
        None => Seq::empty(),
    };
    let mixins = if contains(s, "MixinWith"@) {
        let tight = marker_scan(s, "MixinWith<"@);
        if tight.len() > 0 {
            tight
        } else {
            spaced_scan(s, "MixinWith <"@)
        }
    } else {
        Seq::empty()
    };
    first + mixins
}

/// The composite name `A_M1_M2..` that a supertype declares, if any part
/// of it is found.
pub open spec fn composite_class_name(s: Seq<char>) -> Option<Seq<char>> {
    let parts = composite_parts(s);
    if parts.len() == 0 {
        None
    } else {
        Some(join(parts, "_"@))
    }
}

fn push_all(r: &mut Vec<String>, names: Vec<String>)
    ensures
        final(r)@ == old(r)@ + names@,
{
    let mut i: usize = 0;
    let ghost start = r@;
    while i < names.len()
        invariant
            i <= names.len(),
            r@ == start + names@.take(i as int),
        decreases names.len() - i,
    {
        r.push(names[i].clone());
        i = i + 1;
        assert(r@ =~= start + names@.take(i as int));
    }
    assert(names@.take(i as int) =~= names@);
}

fn scan_tight(s: &Vec<char>, marker: &str) -> (r: Vec<String>)
    ensures
        string_views(r@) == marker_scan(s@, marker@),
{
    let m = chars_of(marker);
    let mut r: Vec<String> = Vec::new();
    if m.len() == 0 {
        assert(string_views(r@) =~= Seq::<Seq<char>>::empty());
        return r;
    }
    let mut rest = sub_chars(s, 0, s.len());
    assert(rest@ =~= s@);
    assert(string_views(r@) + marker_scan(rest@, m@) =~= marker_scan(rest@, m@));
    loop
        invariant
            m@ == marker@,
            m.len() > 0,
            marker_scan(s@, m@) == string_views(r@) + marker_scan(rest@, m@),
        decreases rest@.len(),
    {
        let ghost before = string_views(r@);
        match find_chars(&rest, &m) {
            None => {
                assert(string_views(r@) + marker_scan(rest@, m@) =~= string_views(r@));
                return r;
            },
            Some(p) => {
                proof {
                    lemma_contains(rest@, m@);
                }
                assert(p + m.len() <= rest.len());
                let tail = sub_chars(&rest, p + m.len(), rest.len());
                match find_char_in_class(&tail, CharClass::NameEnd) {
                    None => {
                        assert(string_views(r@) + marker_scan(rest@, m@) =~= string_views(r@));
                        return r;
                    },
                    Some(e) => {
                        proof {
                            lemma_find_class_from(tail@, CharClass::NameEnd, 0);
                        }
                        let piece = sub_chars(&tail, 0, e);
                        let name = trim_chars(&piece);
                        if name.len() > 0 {
                            r.push(string_of(&name));
                        }
                        assert(string_views(r@) =~= before + nonempty_single(name@));
                        rest = sub_chars(&tail, e, tail.len());
                    },
                }
            },
        }
    }
}

fn scan_spaced(s: &Vec<char>, marker: &str) -> (r: Vec<String>)
    ensures
        string_views(r@) == spaced_scan(s@, marker@),
{
    let m = chars_of(marker);
    let mut r: Vec<String> = Vec::new();
    if m.len() == 0 {
        assert(string_views(r@) =~= Seq::<Seq<char>>::empty());
        return r;
    }
    let mut rest = sub_chars(s, 0, s.len());
    assert(rest@ =~= s@);
    assert(string_views(r@) + spaced_scan(rest@, m@) =~= spaced_scan(rest@, m@));
    loop
        invariant
            m@ == marker@,
            m.len() > 0,
            spaced_scan(s@, m@) == string_views(r@) + spaced_scan(rest@, m@),
        decreases rest@.len(),
    {
        let ghost before = string_views(r@);
        match find_chars(&rest, &m) {
            None => {
                assert(string_views(r@) + spaced_scan(rest@, m@) =~= string_views(r@));
                return r;
            },
            Some(p) => {
                proof {
                    lemma_contains(rest@, m@);
                }
                assert(p + m.len() <= rest.len());
                let rem = sub_chars(&rest, p + m.len(), rest.len());
                let ns = match find_char_in_class(&rem, CharClass::Word) {
                    Some(k) => k,
                    None => 0,
                };
                proof {
                    lemma_find_class_from(rem@, CharClass::Word, 0);
                }
                let name_str = sub_chars(&rem, ns, rem.len());
                match find_char_in_class(&name_str, CharClass::NonWord) {
                    None => {
                        assert(string_views(r@) + spaced_scan(rest@, m@) =~= string_views(r@));
                        return r;
                    },
                    Some(e) => {
                        proof {
                            lemma_find_class_from(name_str@, CharClass::NonWord, 0);
                        }
                        let piece = sub_chars(&name_str, 0, e);
                        let name = trim_chars(&piece);
                        if name.len() > 0 {
                            r.push(string_of(&name));
                        }
                        assert(string_views(r@) =~= before + nonempty_single(name@));
                        rest = sub_chars(&name_str, e, name_str.len());
                    },
                }
            },
        }
    }
}

/// The composite class name that the supertype `super_type` declares:
/// the class captured by `<\s*([A-Za-z_][A-Za-z0-9_]*)`, then each mixin
/// named after `MixinWith<` (or, failing those, after `MixinWith <`),
/// joined with `_`. `None` when no part is found.
pub fn extract_composite_class_name(super_type: &str) -> (r: Option<String>)
    ensures
        option_view(r) == composite_class_name(super_type@),
{
    let chars = chars_of(super_type);
    let mut parts: Vec<String> = Vec::new();
    match regex_first_capture("<\\s*([A-Za-z_][A-Za-z0-9_]*)", super_type) {
        Some(first) => parts.push(first),
        None => {},
    }
    let ghost first_parts = string_views(parts@);
    assert(first_parts =~= match first_angle_ident(super_type@) {
        Some(c) => seq![c],
        None => Seq::empty(),
    });
    if contains_str(&chars, "MixinWith") {
        let tight = scan_tight(&chars, "MixinWith<");
        if tight.len() > 0 {
            push_all(&mut parts, tight);
        } else {
            let spaced = scan_spaced(&chars, "MixinWith <");
            push_all(&mut parts, spaced);
        }
    }
    assert(string_views(parts@) =~= composite_parts(super_type@));
    if parts.len() == 0 {
        None
    } else {
        Some(join_strings(&parts, "_"))
    }
}

} // verus!
