//! Cleaning the lines of a code sample: hidden-line markers and blank lines.
use vstd::prelude::*;
use crate::text::{chars_of, is_whitespace, string_of, whitespace};

verus! {

/// `s` without its leading whitespace.
pub open spec fn trim_start(s: Seq<char>) -> Seq<char>
    decreases s.len(),
{
    if s.len() > 0 && whitespace(s[0]) {
        trim_start(s.drop_first())
    } else {
        s
    }
}

/// `s` without its trailing whitespace.
pub open spec fn trim_end(s: Seq<char>) -> Seq<char>
    decreases s.len(),
{
    if s.len() > 0 && whitespace(s.last()) {
        trim_end(s.drop_last())
    } else {
        s
    }
}

pub open spec fn trim(s: Seq<char>) -> Seq<char> {
    trim_end(trim_start(s))
}

pub open spec fn hidden_marker() -> Seq<char> {
    seq!['#', ' ']
}

/// A line without the carriage return that ends it, if any.
pub open spec fn without_cr(line: Seq<char>) -> Seq<char> {
    if line.len() > 0 && line.last() == '\r' {
        line.drop_last()
    } else {
        line
    }
}

/// What becomes of one line of a sample: a line that reads `# rest` once
/// trimmed keeps `rest`; a blank line and a bare `#` are dropped; any other
/// line is kept verbatim.
pub open spec fn clean_line(line: Seq<char>) -> Option<Seq<char>> {
    let t = trim(line);
    if t.len() >= 2 && t.take(2) == hidden_marker() {
        Some(t.skip(2))
    } else if t == seq!['#'] || t.len() == 0 {
        None
    } else {
        Some(line)
    }
}

/// The lines of `s`: the pieces between line feeds, empty pieces included,
/// each without the carriage return of a `\r\n` ending.
pub open spec fn pieces(s: Seq<char>) -> Seq<Seq<char>>
    decreases s.len(),
{
    if s.len() == 0 {
        seq![Seq::empty()]
    } else {
        let before = pieces(s.drop_last());
        let c = s.last();
        if c != '\n' {
            before.drop_last().push(before.last().push(c))
        } else {
            before.drop_last().push(without_cr(before.last())).push(Seq::empty())
        }
    }
}

/// The lines that survive cleaning, cleaned, in order.
pub open spec fn clean_all(lines: Seq<Seq<char>>) -> Seq<Seq<char>>
    decreases lines.len(),
{
    if lines.len() == 0 {
        Seq::empty()
    } else {
        let before = clean_all(lines.drop_last());
        match clean_line(lines.last()) {
            Some(l) => before.push(l),
            None => before,
        }
    }
}

/// The code lines that a text fragment of a sample contributes. The empty
/// piece after a final line feed is blank and dropped, so the lines are
/// those that `str::lines` reads.
pub open spec fn clean_fragment(text: Seq<char>) -> Seq<Seq<char>> {
    clean_all(pieces(text))
}

/// The lines of a block whose text came in `fragments`, in order.
pub open spec fn block_lines(fragments: Seq<Seq<char>>) -> Seq<Seq<char>>
    decreases fragments.len(),
{
    if fragments.len() == 0 {
        Seq::empty()
    } else {
        block_lines(fragments.drop_last()) + pieces(fragments.last())
    }
}

/// The body of a block whose text came in `fragments`: the cleaned lines
/// of each fragment, one fragment after the other.
pub open spec fn block_body(fragments: Seq<Seq<char>>) -> Seq<Seq<char>>
    decreases fragments.len(),
{
    if fragments.len() == 0 {
        Seq::empty()
    } else {
        block_body(fragments.drop_last()) + clean_fragment(fragments.last())
    }
}

pub open spec fn kept(line: Seq<char>) -> bool {
    clean_line(line) is Some
}

pub open spec fn cleaned(line: Seq<char>) -> Seq<char> {
    match clean_line(line) {
        Some(l) => l,
        None => line,
    }
}

pub open spec fn strings_view(v: Seq<String>) -> Seq<Seq<char>> {
    v.map_values(|s: String| s@)
}

/// Cleaning keeps exactly the lines that are neither blank nor a bare `#`
/// once trimmed, in their order, each with a leading `# ` taken off.
pub proof fn lemma_clean_all_filters(lines: Seq<Seq<char>>)
    ensures
        clean_all(lines) == lines.filter(|l: Seq<char>| kept(l)).map_values(
            |l: Seq<char>| cleaned(l),
        ),
        forall|l: Seq<char>|
            #![trigger clean_line(l)]
            (clean_line(l) is None <==> (trim(l).len() == 0 || trim(l) == seq!['#'])),
        forall|l: Seq<char>|
            #![trigger clean_line(l)]
            trim(l).len() >= 2 && trim(l).take(2) == hidden_marker() ==> clean_line(l) == Some(
                trim(l).skip(2),
            ),
    decreases lines.len(),
{
    let kf = |l: Seq<char>| kept(l);
    let cf = |l: Seq<char>| cleaned(l);
    assert forall|l: Seq<char>|
        #![trigger clean_line(l)]
        (clean_line(l) is None <==> (trim(l).len() == 0 || trim(l) == seq!['#'])) by {
        let t = trim(l);
        if t.len() >= 2 && t.take(2) == hidden_marker() {
            assert(t.len() != 0);
            assert(t[0] == '#' && t[1] == ' ');
            assert(t != seq!['#']);
        }
    }
    reveal(Seq::filter);
    if lines.len() > 0 {
        lemma_clean_all_filters(lines.drop_last());
        assert(lines.filter(kf) == {
            let sub = lines.drop_last().filter(kf);
            if kf(lines.last()) { sub.push(lines.last()) } else { sub }
        });
        let sub = lines.drop_last().filter(kf);
        if kf(lines.last()) {
            assert(sub.push(lines.last()).map_values(cf) =~= sub.map_values(cf).push(cf(lines.last())));
        }
    } else {
        assert(lines.filter(kf) =~= Seq::<Seq<char>>::empty());
        assert(lines.filter(kf).map_values(cf) =~= Seq::<Seq<char>>::empty());
    }
}

proof fn lemma_clean_all_append(a: Seq<Seq<char>>, b: Seq<Seq<char>>)
    ensures
        clean_all(a + b) == clean_all(a) + clean_all(b),
    decreases b.len(),
{
    if b.len() == 0 {
        assert(a + b =~= a);
        assert(clean_all(a) + clean_all(b) =~= clean_all(a));
    } else {
        lemma_clean_all_append(a, b.drop_last());
        assert((a + b).drop_last() =~= a + b.drop_last());
        assert((a + b).last() == b.last());
        match clean_line(b.last()) {
            Some(l) => {
                assert(clean_all(a) + clean_all(b.drop_last()).push(l) =~= (clean_all(a) + clean_all(
                    b.drop_last(),
                )).push(l));
            },
            None => {},
        }
    }
}

/// The body of a block is its lines, without those that are blank or a bare
/// `#` once trimmed, each with a leading `# ` taken off, in their order.
pub proof fn lemma_block_body_filters(fragments: Seq<Seq<char>>)
    ensures
        block_body(fragments) == block_lines(fragments).filter(|l: Seq<char>| kept(l)).map_values(
            |l: Seq<char>| cleaned(l),
        ),
    decreases fragments.len(),
{
    if fragments.len() > 0 {
        lemma_block_body_filters(fragments.drop_last());
        lemma_clean_all_append(block_lines(fragments.drop_last()), pieces(fragments.last()));
        lemma_clean_all_filters(block_lines(fragments));
        lemma_clean_all_filters(block_lines(fragments.drop_last()));
    } else {
        lemma_clean_all_filters(block_lines(fragments));
    }
}

/// Applies the hidden-line rule to `line`.
pub fn clean_chars(line: &Vec<char>) -> (r: Option<Vec<char>>)
    ensures
        match r {
            Some(v) => clean_line(line@) == Some(v@),
            None => clean_line(line@) is None,
        },
{
    let n = line.len();
    let mut a: usize = 0;
    assert(line@.skip(0) == line@);
    while a < n && is_whitespace(line[a])
        invariant
            n == line@.len(),
            a <= n,
            trim_start(line@) == trim_start(line@.skip(a as int)),
        decreases n - a,
    {
        assert(line@.skip(a as int).drop_first() == line@.skip(a + 1));
        a = a + 1;
    }
    assert(trim_start(line@) == line@.skip(a as int));
    let mut b: usize = n;
    while b > a && is_whitespace(line[b - 1])
        invariant
            n == line@.len(),
            a <= b <= n,
            trim(line@) == trim_end(line@.subrange(a as int, b as int)),
        decreases b,
    {
        assert(line@.subrange(a as int, b as int).drop_last() == line@.subrange(a as int, b - 1));
        b = b - 1;
    }
    let ghost t = line@.subrange(a as int, b as int);
    assert(trim(line@) == t);
    if b - a >= 2 && line[a] == '#' && line[a + 1] == ' ' {
        assert(t.take(2) =~= hidden_marker());
        let mut out: Vec<char> = Vec::new();
        let mut i: usize = a + 2;
        while i < b
            invariant
                a + 2 <= i <= b <= n,
                n == line@.len(),
                out@ == line@.subrange(a + 2, i as int),
            decreases b - i,
        {
            out.push(line[i]);
            assert(line@.subrange(a + 2, i + 1) == line@.subrange(a + 2, i as int).push(line@[i as int]));
            i = i + 1;
        }
        assert(out@ == t.skip(2));
        Some(out)
    } else if (b - a == 1 && line[a] == '#') || b == a {
        assert(b - a >= 2 ==> t.take(2) != hidden_marker()) by {
            if b - a >= 2 {
                assert(t.take(2)[0] == t[0] && t.take(2)[1] == t[1]);
            }
        }
        assert(b - a == 1 ==> t =~= seq!['#']);
        Option::None
    } else {
        assert(t.len() >= 2 ==> t.take(2) != hidden_marker()) by {
            if t.len() >= 2 {
                assert(t.take(2)[0] == t[0] && t.take(2)[1] == t[1]);
            }
        }
        assert(t != seq!['#']) by {
            if t.len() == 1 {
                assert(t[0] == line@[a as int]);
            }
        }
        let e: usize = n;
        let mut out: Vec<char> = Vec::new();
        let mut i: usize = 0;
        while i < e
            invariant
                i <= e <= n,
                n == line@.len(),
                out@ == line@.take(i as int),
            decreases e - i,
        {
            out.push(line[i]);
            assert(line@.take(i + 1) == line@.take(i as int).push(line@[i as int]));
            i = i + 1;
        }
        assert(out@ =~= line@);
        Some(out)
    }
}

/// Cleans one line of a sample: `Some` of what is kept, `None` for a line
/// that is dropped.
pub fn clean_code_line(line: &str) -> (r: Option<String>)
    ensures
        match r {
            Some(s) => clean_line(line@) == Some(s@),
            None => clean_line(line@) is None,
        },
{
    let chars = chars_of(line);
    match clean_chars(&chars) {
        Some(v) => Some(string_of(&v)),
        None => Option::None,
    }
}

/// Cleans `line` and appends what survives to `out`.
fn push_cleaned(out: &mut Vec<String>, line: &Vec<char>, Ghost(done): Ghost<Seq<Seq<char>>>)
    requires
        strings_view(old(out)@) == clean_all(done),
    ensures
        strings_view(final(out)@) == clean_all(done.push(line@)),
{
    assert(done.push(line@).drop_last() == done);
    match clean_chars(line) {
        Some(v) => {
            let ghost before = out@;
            out.push(string_of(&v));
            assert(strings_view(out@) =~= strings_view(before).push(v@));
        },
        None => {},
    }
}

/// Appends the cleaned lines of a text fragment of a sample to `out`.
pub fn push_fragment_lines(out: &mut Vec<String>, text: &str)
    ensures
        strings_view(final(out)@) == strings_view(old(out)@) + clean_fragment(text@),
{
    let chars = chars_of(text);
    let mut fresh: Vec<String> = Vec::new();
    let mut cur: Vec<char> = Vec::new();
    let ghost mut done: Seq<Seq<char>> = Seq::empty();
    assert(strings_view(fresh@) =~= clean_all(done));
    for i in 0..chars.len()
        invariant
            chars@ == text@,
            pieces(chars@.take(i as int)) == done.push(cur@),
            strings_view(fresh@) == clean_all(done),
    {
        let c = chars[i];
        assert(chars@.take(i + 1).drop_last() == chars@.take(i as int));
        if c != '\n' {
            cur.push(c);
        } else {
            let ghost whole = cur@;
            let k = cur.len();
            if k > 0 && cur[k - 1] == '\r' {
                cur.pop();
            }
            assert(cur@ =~= without_cr(whole));
            assert(done.push(whole).drop_last() == done);
            push_cleaned(&mut fresh, &cur, Ghost(done));
            proof {
                done = done.push(cur@);
            }
            cur = Vec::new();
        }
    }
    assert(chars@.take(chars.len() as int) == chars@);
    push_cleaned(&mut fresh, &cur, Ghost(done));
    let ghost before = out@;
    for j in 0..fresh.len()
        invariant
            strings_view(out@) == strings_view(before) + strings_view(fresh@.take(j as int)),
    {
        proof {
            assert(fresh@.take(j + 1) == fresh@.take(j as int).push(fresh@[j as int]));
            assert(strings_view(fresh@.take(j + 1)) =~= strings_view(fresh@.take(j as int)).push(fresh@[j as int]@));
        }
        let ghost mid = out@;
        out.push(fresh[j].clone());
        assert(strings_view(out@) =~= strings_view(mid).push(fresh@[j as int]@));
    }
    assert(fresh@.take(fresh.len() as int) == fresh@);
}

} // verus!
