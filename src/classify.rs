//! Classifying a fenced code block by the tokens of its info string.
use vstd::prelude::*;
use crate::text::{alphanumeric, chars_of, is_alphanumeric};

verus! {

/// What the info string of a fenced block says about the block.
#[derive(Clone, Copy, Debug, PartialEq, Eq)]
pub struct CodeBlockInfo {
    /// The block is a Rust sample to be tested.
    pub is_rust: bool,
    /// Running the sample is expected to fail.
    pub should_panic: bool,
    /// The sample is counted but never built.
    pub ignore: bool,
    /// The sample is built but not run.
    pub no_run: bool,
}

pub open spec fn is_token_char(c: char) -> bool {
    c == '_' || c == '-' || alphanumeric(c)
}

/// The pieces of `info` between separators, empty pieces included.
pub open spec fn tokens(info: Seq<char>) -> Seq<Seq<char>>
    decreases info.len(),
{
    if info.len() == 0 {
        seq![Seq::empty()]
    } else {
        let before = tokens(info.drop_last());
        let c = info.last();
        if is_token_char(c) {
            before.drop_last().push(before.last().push(c))
        } else {
            before.push(Seq::empty())
        }
    }
}

pub open spec fn word_rust() -> Seq<char> {
    seq!['r', 'u', 's', 't']
}

pub open spec fn word_should_panic() -> Seq<char> {
    seq!['s', 'h', 'o', 'u', 'l', 'd', '_', 'p', 'a', 'n', 'i', 'c']
}

pub open spec fn word_ignore() -> Seq<char> {
    seq!['i', 'g', 'n', 'o', 'r', 'e']
}

pub open spec fn word_no_run() -> Seq<char> {
    seq!['n', 'o', '_', 'r', 'u', 'n']
}

pub open spec fn is_recognized(t: Seq<char>) -> bool {
    t == word_rust() || t == word_should_panic() || t == word_ignore() || t == word_no_run()
}

pub open spec fn has_unrecognized(ts: Seq<Seq<char>>) -> bool {
    exists|j: int| 0 <= j < ts.len() && #[trigger] ts[j].len() > 0 && !is_recognized(ts[j])
}

pub open spec fn has_recognized(ts: Seq<Seq<char>>) -> bool {
    ts.contains(word_rust()) || ts.contains(word_should_panic()) || ts.contains(word_ignore())
        || ts.contains(word_no_run())
}

/// The classification of a fenced block whose info string is `info`.
pub open spec fn code_block_info(info: Seq<char>) -> CodeBlockInfo {
    let ts = tokens(info);
    CodeBlockInfo {
        is_rust: ts.contains(word_rust()) && (!has_unrecognized(ts) || has_recognized(ts)),
        should_panic: ts.contains(word_should_panic()),
        ignore: ts.contains(word_ignore()),
        no_run: ts.contains(word_no_run()),
    }
}

fn same_chars(a: &Vec<char>, b: &Vec<char>) -> (r: bool)
    ensures
        r == (a@ == b@),
{
    if a.len() != b.len() {
        return false;
    }
    for i in 0..a.len()
        invariant
            a@.len() == b@.len(),
            forall|j: int| 0 <= j < i ==> a@[j] == b@[j],
    {
        if a[i] != b[i] {
            return false;
        }
    }
    assert(a@ =~= b@);
    true
}

/// The flags that the tokens seen so far have set.
struct TokenFlags {
    rust: bool,
    should_panic: bool,
    ignore: bool,
    no_run: bool,
    other: bool,
}

impl TokenFlags {
    spec fn matches(&self, done: Seq<Seq<char>>) -> bool {
        &&& self.rust == done.contains(word_rust())
        &&& self.should_panic == done.contains(word_should_panic())
        &&& self.ignore == done.contains(word_ignore())
        &&& self.no_run == done.contains(word_no_run())
        &&& self.other == has_unrecognized(done)
    }

    fn take_token(&mut self, tok: &Vec<char>, Ghost(done): Ghost<Seq<Seq<char>>>)
        requires
            old(self).matches(done),
        ensures
            final(self).matches(done.push(tok@)),
    {
        let rust = vec!['r', 'u', 's', 't'];
        let should_panic = vec!['s', 'h', 'o', 'u', 'l', 'd', '_', 'p', 'a', 'n', 'i', 'c'];
        let ignore = vec!['i', 'g', 'n', 'o', 'r', 'e'];
        let no_run = vec!['n', 'o', '_', 'r', 'u', 'n'];
        assert(rust@ == word_rust());
        assert(should_panic@ == word_should_panic());
        assert(ignore@ == word_ignore());
        assert(no_run@ == word_no_run());
        let ghost next = done.push(tok@);
        assert(next[done.len() as int] == tok@);
        assert forall|w: Seq<char>| next.contains(w) == (done.contains(w) || w == tok@) by {
            if done.contains(w) {
                let j = choose|j: int| 0 <= j < done.len() && done[j] == w;
                assert(next[j] == w);
            }
            if next.contains(w) && w != tok@ {
                let j = choose|j: int| 0 <= j < next.len() && next[j] == w;
                assert(done[j] == w);
            }
        }
        let is_rust = same_chars(tok, &rust);
        let is_should_panic = same_chars(tok, &should_panic);
        let is_ignore = same_chars(tok, &ignore);
        let is_no_run = same_chars(tok, &no_run);
        if is_rust {
            self.rust = true;
        } else if is_should_panic {
            self.should_panic = true;
        } else if is_ignore {
            self.ignore = true;
        } else if is_no_run {
            self.no_run = true;
        } else if tok.len() > 0 {
            self.other = true;
        }
        assert(has_unrecognized(next) == (has_unrecognized(done) || (tok@.len() > 0
            && !is_recognized(tok@)))) by {
            if has_unrecognized(done) {
                let j = choose|j: int|
                    0 <= j < done.len() && #[trigger] done[j].len() > 0 && !is_recognized(done[j]);
                assert(next[j] == done[j]);
            }
            if has_unrecognized(next) && !(tok@.len() > 0 && !is_recognized(tok@)) {
                let j = choose|j: int|
                    0 <= j < next.len() && #[trigger] next[j].len() > 0 && !is_recognized(next[j]);
                assert(done[j] == next[j]);
            }
        }
    }
}

/// Classifies a fenced block by its info string: the string is cut at every
/// character that is neither alphanumeric, `_` nor `-`, and the tokens `rust`,
/// `should_panic`, `ignore` and `no_run` set the flags.
pub fn parse_code_block_info(info: &str) -> (r: CodeBlockInfo)
    ensures
        r == code_block_info(info@),
{
    let chars = chars_of(info);
    let mut flags = TokenFlags { rust: false, should_panic: false, ignore: false, no_run: false, other: false };
    let mut cur: Vec<char> = Vec::new();
    let ghost mut done: Seq<Seq<char>> = Seq::empty();
    assert(!has_unrecognized(done));
    for i in 0..chars.len()
        invariant
            chars@ == info@,
            tokens(chars@.take(i as int)) == done.push(cur@),
            flags.matches(done),
    {
        let c = chars[i];
        assert(chars@.take(i + 1).drop_last() == chars@.take(i as int));
        if c == '_' || c == '-' || is_alphanumeric(c) {
            cur.push(c);
        } else {
            flags.take_token(&cur, Ghost(done));
            proof {
                done = done.push(cur@);
            }
            cur = Vec::new();
        }
    }
    assert(chars@.take(chars.len() as int) == chars@);
    flags.take_token(&cur, Ghost(done));
    proof {
        done = done.push(cur@);
    }
    let recognized = flags.rust || flags.should_panic || flags.ignore || flags.no_run;
    CodeBlockInfo {
        is_rust: flags.rust && (!flags.other || recognized),
        should_panic: flags.should_panic,
        ignore: flags.ignore,
        no_run: flags.no_run,
    }
}

} // verus!
