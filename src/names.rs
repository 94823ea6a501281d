//! Deriving stable test names from a document path, a section and a line.
use vstd::prelude::*;
use crate::text::{is_ascii_alnum, is_digit, lemma_decimal_injective, lemma_decimal_value, decimal, push_all, push_decimal, string_of, chars_of};

verus! {

pub open spec fn ascii_lower(c: char) -> char {
    if 'A' <= c && c <= 'Z' {
        ((c as u8) + 32) as u8 as char
    } else {
        c
    }
}

/// Sanitizing `s` from left to right: the text so far, and whether a
/// separator is pending before the next word character.
pub open spec fn sanitize_scan(s: Seq<char>) -> (Seq<char>, bool)
    decreases s.len(),
{
    if s.len() == 0 {
        (Seq::empty(), false)
    } else {
        let (out, pending) = sanitize_scan(s.drop_last());
        let c = s.last();
        if is_ascii_alnum(c) {
            let joined = if pending && out.len() > 0 { out.push('_') } else { out };
            (joined.push(ascii_lower(c)), false)
        } else {
            (out, true)
        }
    }
}

/// The runs of ASCII letters and digits of `s`, lowercased and joined by
/// single underscores.
pub open spec fn sanitize_ident(s: Seq<char>) -> Seq<char> {
    sanitize_scan(s).0
}

pub open spec fn is_lower_word_char(c: char) -> bool {
    ('a' <= c && c <= 'z') || ('0' <= c && c <= '9')
}

/// Already in sanitized form: lowercase letters, digits and single
/// underscores between them.
pub open spec fn is_sanitized(t: Seq<char>) -> bool {
    &&& forall|i: int| 0 <= i < t.len() ==> is_lower_word_char(#[trigger] t[i]) || t[i] == '_'
    &&& forall|i: int| 0 <= i < t.len() - 1 ==> !(#[trigger] t[i] == '_' && t[i + 1] == '_')
    &&& t.len() > 0 ==> t[0] != '_' && t.last() != '_'
}

proof fn lemma_scan_sanitized(s: Seq<char>)
    ensures
        is_sanitized(sanitize_scan(s).0),
    decreases s.len(),
{
    if s.len() > 0 {
        lemma_scan_sanitized(s.drop_last());
        let (out, pending) = sanitize_scan(s.drop_last());
        let c = s.last();
        if is_ascii_alnum(c) {
            let joined = if pending && out.len() > 0 { out.push('_') } else { out };
            let r = joined.push(ascii_lower(c));
            assert(is_lower_word_char(ascii_lower(c)));
            assert forall|i: int| 0 <= i < r.len() - 1 implies !(#[trigger] r[i] == '_' && r[i + 1] == '_') by {
                if i + 1 == r.len() - 1 {
                } else if pending && out.len() > 0 && i + 1 == out.len() {
                    assert(r[i] == out.last());
                } else {
                    assert(r[i] == out[i] && r[i + 1] == out[i + 1]);
                }
            }
            assert forall|i: int| 0 <= i < r.len() implies is_lower_word_char(#[trigger] r[i]) || r[i] == '_' by {
                if i < out.len() {
                    assert(r[i] == out[i]);
                }
            }
            if out.len() > 0 {
                assert(r[0] == out[0]);
            }
        }
    }
}

proof fn lemma_sanitized_prefix(t: Seq<char>, k: int)
    requires
        is_sanitized(t),
        0 <= k <= t.len(),
    ensures
        sanitize_scan(t.take(k)) == (if k > 0 && t[k - 1] == '_' {
            (t.take(k - 1), true)
        } else {
            (t.take(k), false)
        }),
    decreases k,
{
    if k > 0 {
        lemma_sanitized_prefix(t, k - 1);
        assert(t.take(k).drop_last() == t.take(k - 1));
        assert(t.take(k).last() == t[k - 1]);
        let c = t[k - 1];
        if c == '_' {
            assert(k - 1 > 0);
            assert(t[k - 2] != '_');
        } else {
            assert(is_lower_word_char(c));
            assert(ascii_lower(c) == c);
            if k >= 2 && t[k - 2] == '_' {
                assert(k - 2 > 0);
                assert(t.take(k - 2).len() > 0);
                assert(t.take(k - 2).push('_').push(c) =~= t.take(k));
            } else {
                assert(t.take(k - 1).push(c) =~= t.take(k));
            }
        }
    } else {
        assert(t.take(0) =~= Seq::<char>::empty());
    }
}

/// Sanitizing is idempotent: a sanitized name is left as it is.
pub proof fn lemma_sanitize_idempotent(s: Seq<char>)
    ensures
        sanitize_ident(sanitize_ident(s)) == sanitize_ident(s),
{
    let t = sanitize_ident(s);
    lemma_scan_sanitized(s);
    lemma_sanitized_prefix(t, t.len() as int);
    assert(t.take(t.len() as int) == t);
}

/// Sanitizing a path is idempotent: a sanitized base has no extension left
/// to drop and nothing left to collapse.
pub proof fn lemma_sanitize_path_idempotent(path: Seq<char>)
    ensures
        sanitize_ident(strip_extension(sanitize_ident(strip_extension(path)))) == sanitize_ident(
            strip_extension(path),
        ),
{
    let t = sanitize_ident(strip_extension(path));
    lemma_scan_sanitized(strip_extension(path));
    if t.len() >= 3 {
        assert(is_lower_word_char(t[t.len() - 3]) || t[t.len() - 3] == '_');
    }
    assert(strip_extension(t) == t);
    lemma_sanitize_idempotent(strip_extension(path));
}

/// A section that was sanitized already, as extraction stores it, gives the
/// same name as the raw heading.
pub proof fn lemma_name_stable(path: Seq<char>, heading: Seq<char>, line: nat)
    ensures
        test_name(path, Some(sanitize_ident(heading)), line) == test_name(path, Some(heading), line),
{
    lemma_sanitize_idempotent(heading);
}

/// A name is made of lowercase ASCII letters, digits and underscores only,
/// and ends with `_line_` and the line number.
pub proof fn lemma_name_shape(path: Seq<char>, section: Option<Seq<char>>, line: nat)
    ensures
        forall|i: int|
            0 <= i < test_name(path, section, line).len() ==> is_lower_word_char(
                #[trigger] test_name(path, section, line)[i],
            ) || test_name(path, section, line)[i] == '_',
        test_name(path, section, line).len() >= line_marker().len() + decimal(line).len(),
        test_name(path, section, line).subrange(
            test_name(path, section, line).len() - line_marker().len() - decimal(line).len(),
            test_name(path, section, line).len() as int,
        ) == line_marker() + decimal(line),
{
    let base = sanitize_ident(strip_extension(path));
    lemma_scan_sanitized(strip_extension(path));
    lemma_decimal_value(line);
    let with_section = match section {
        Some(sect) => base + sect_marker() + sanitize_ident(sect),
        None => base,
    };
    assert forall|i: int| 0 <= i < with_section.len() implies is_lower_word_char(
        #[trigger] with_section[i],
    ) || with_section[i] == '_' by {
        match section {
            Some(sect) => {
                lemma_scan_sanitized(sect);
                if i < base.len() {
                    assert(with_section[i] == base[i]);
                } else if i < base.len() + 6 {
                    assert(with_section[i] == sect_marker()[i - base.len()]);
                } else {
                    assert(with_section[i] == sanitize_ident(sect)[i - base.len() - 6]);
                }
            },
            None => {},
        }
    }
    let n = test_name(path, section, line);
    let tail = line_marker() + decimal(line);
    assert(n == with_section + tail);
    assert forall|i: int| 0 <= i < n.len() implies is_lower_word_char(#[trigger] n[i]) || n[i] == '_' by {
        if i < with_section.len() {
            assert(n[i] == with_section[i]);
        } else if i < with_section.len() + 6 {
            assert(n[i] == line_marker()[i - with_section.len()]);
        } else {
            assert(n[i] == decimal(line)[i - with_section.len() - 6]);
        }
    }
    assert(n.subrange(with_section.len() as int, n.len() as int) =~= tail);
}

/// A path without its three-character extension (`.md`), if it has one.
pub open spec fn strip_extension(path: Seq<char>) -> Seq<char> {
    if path.len() >= 3 && path[path.len() - 3] == '.' {
        path.take(path.len() - 3)
    } else {
        path
    }
}

pub open spec fn opt_view(o: Option<String>) -> Option<Seq<char>> {
    match o {
        Some(s) => Some(s@),
        None => None,
    }
}

pub open spec fn sect_marker() -> Seq<char> {
    seq!['_', 's', 'e', 'c', 't', '_']
}

pub open spec fn line_marker() -> Seq<char> {
    seq!['_', 'l', 'i', 'n', 'e', '_']
}

/// The name of the test that starts at `line` of the document at `path`,
/// under `section` if there is one; path and section are sanitized.
pub open spec fn test_name(path: Seq<char>, section: Option<Seq<char>>, line: nat) -> Seq<char> {
    let base = sanitize_ident(strip_extension(path));
    let with_section = match section {
        Some(sect) => base + sect_marker() + sanitize_ident(sect),
        None => base,
    };
    with_section + line_marker() + decimal(line)
}

/// Two code blocks that start on different lines get different names,
/// whatever their documents and sections are.
pub proof fn lemma_names_differ_by_line(
    path1: Seq<char>,
    section1: Option<Seq<char>>,
    line1: nat,
    path2: Seq<char>,
    section2: Option<Seq<char>>,
    line2: nat,
)
    requires
        line1 != line2,
    ensures
        test_name(path1, section1, line1) != test_name(path2, section2, line2),
{
    if test_name(path1, section1, line1) == test_name(path2, section2, line2) {
        let n = test_name(path1, section1, line1);
        let d1 = decimal(line1);
        let d2 = decimal(line2);
        lemma_decimal_value(line1);
        lemma_decimal_value(line2);
        let len = n.len() as int;
        assert(n.subrange(len - d1.len(), len) == d1);
        assert(n.subrange(len - d2.len(), len) == d2);
        assert(n[len - d1.len() - 1] == '_');
        assert(test_name(path2, section2, line2)[len - d2.len() - 1] == '_');
        if d1.len() < d2.len() {
            let k = len - d1.len() - 1;
            assert(n[k] == d2[k - (len - d2.len())]);
            assert(is_digit(d2[k - (len - d2.len())]));
        } else if d2.len() < d1.len() {
            let k = len - d2.len() - 1;
            assert(n[k] == d1[k - (len - d1.len())]);
            assert(is_digit(d1[k - (len - d1.len())]));
        }
        assert(d1 == d2);
        lemma_decimal_injective(line1, line2);
    }
}

fn lower_word_char(c: char) -> (r: char)
    requires
        is_ascii_alnum(c),
    ensures
        r == ascii_lower(c),
{
    if 'A' <= c && c <= 'Z' {
        ((c as u8) + 32) as char
    } else {
        c
    }
}

/// Appends the sanitized form of `s` to `out`.
fn push_sanitized(out: &mut Vec<char>, s: &Vec<char>)
    ensures
        final(out)@ == old(out)@ + sanitize_ident(s@),
{
    let ghost start = out@;
    let mut word: Vec<char> = Vec::new();
    let mut pending = false;
    for i in 0..s.len()
        invariant
            (word@, pending) == sanitize_scan(s@.take(i as int)),
            out@ == start,
    {
        let c = s[i];
        assert(s@.take(i + 1).drop_last() == s@.take(i as int));
        if ('a' <= c && c <= 'z') || ('A' <= c && c <= 'Z') || ('0' <= c && c <= '9') {
            if pending && word.len() > 0 {
                word.push('_');
            }
            word.push(lower_word_char(c));
            pending = false;
        } else {
            pending = true;
        }
    }
    assert(s@.take(s.len() as int) == s@);
    push_all(out, &word);
}

fn without_extension(chars: &Vec<char>) -> (stem: Vec<char>)
    ensures
        stem@ == strip_extension(chars@),
{
    let len = chars.len();
    let n = if len >= 3 && chars[len - 3] == '.' { len - 3 } else { len };
    let mut stem: Vec<char> = Vec::new();
    for i in 0..n
        invariant
            n <= chars@.len(),
            stem@ == chars@.take(i as int),
    {
        stem.push(chars[i]);
        assert(chars@.take(i + 1) == chars@.take(i as int).push(chars@[i as int]));
    }
    assert(stem@ =~= strip_extension(chars@));
    stem
}

/// Sanitizes a heading into the section part of a test name.
pub fn sanitize_section(s: &str) -> (r: String)
    ensures
        r@ == sanitize_ident(s@),
{
    let chars = chars_of(s);
    let mut out: Vec<char> = Vec::new();
    push_sanitized(&mut out, &chars);
    string_of(&out)
}

/// Sanitizes a document path into the base of a test name: the extension
/// is dropped before the path is sanitized.
pub fn sanitize_test_name(s: &str) -> (r: String)
    ensures
        r@ == sanitize_ident(strip_extension(s@)),
{
    let chars = chars_of(s);
    let stem = without_extension(&chars);
    let mut out: Vec<char> = Vec::new();
    push_sanitized(&mut out, &stem);
    string_of(&out)
}

/// Builds the name of the test at `line` of `path`, under `section`.
pub fn derive_name(path: &str, section: &Option<String>, line: usize) -> (r: String)
    ensures
        r@ == test_name(path@, opt_view(*section), line as nat),
{
    let chars = chars_of(path);
    let stem = without_extension(&chars);
    let mut out: Vec<char> = Vec::new();
    push_sanitized(&mut out, &stem);
    match section {
        Some(sect) => {
            let marker = vec!['_', 's', 'e', 'c', 't', '_'];
            push_all(&mut out, &marker);
            let sc = chars_of(sect.as_str());
            push_sanitized(&mut out, &sc);
        },
        None => {},
    }
    let marker = vec!['_', 'l', 'i', 'n', 'e', '_'];
    push_all(&mut out, &marker);
    push_decimal(&mut out, line);
    proof {
        assert(marker@ == line_marker());
    }
    string_of(&out)
}

} // verus!
