//! Word-list handling and the pluggable word source.

use vstd::prelude::*;
use vstd::string::StrSliceExecFns;
use vstd::string::StringExecFns;

verus! {

/// The segments of `s` between newline characters, in order; mirrors
/// splitting on `'\n'` where every separator bounds a (possibly empty)
/// segment.
pub open spec fn split_lines(s: Seq<char>) -> Seq<Seq<char>>
    decreases s.len(),
{
    if s.len() == 0 {
        seq![Seq::<char>::empty()]
    } else if s[0] == '\n' {
        seq![Seq::<char>::empty()] + split_lines(s.drop_first())
    } else {
        let rest = split_lines(s.drop_first());
        seq![seq![s[0]] + rest[0]] + rest.drop_first()
    }
}

/// A sequence without newlines is one single segment.
pub proof fn lemma_split_lines_whole(s: Seq<char>)
    requires
        forall|k: int| 0 <= k < s.len() ==> s[k] != '\n',
    ensures
        split_lines(s) == seq![s],
    decreases s.len(),
{
    if s.len() == 0 {
        assert(s =~= Seq::<char>::empty());
        assert(split_lines(s) =~= seq![s]);
    } else {
        lemma_split_lines_whole(s.drop_first());
        let rest = split_lines(s.drop_first());
        assert(rest == seq![s.drop_first()]);
        assert(seq![s[0]] + rest[0] =~= s);
        assert(rest.drop_first() =~= Seq::<Seq<char>>::empty());
        assert(split_lines(s) =~= seq![s]);
    }
}

/// Splitting at the first newline: everything before it is the first
/// segment, the rest is split recursively.
pub proof fn lemma_split_lines_first(t: Seq<char>, j: int)
    requires
        0 <= j < t.len(),
        t[j] == '\n',
        forall|k: int| 0 <= k < j ==> t[k] != '\n',
    ensures
        split_lines(t) == seq![t.take(j)] + split_lines(t.skip(j + 1)),
    decreases j,
{
    if j == 0 {
        assert(t.take(0) =~= Seq::<char>::empty());
        assert(t.skip(1) =~= t.drop_first());
        assert(split_lines(t) =~= seq![t.take(0)] + split_lines(t.skip(1)));
    } else {
        let td = t.drop_first();
        assert(td[j - 1] == t[j]);
        lemma_split_lines_first(td, j - 1);
        let rest = split_lines(td);
        assert(rest == seq![td.take(j - 1)] + split_lines(td.skip(j)));
        assert(rest[0] == td.take(j - 1));
        assert(seq![t[0]] + td.take(j - 1) =~= t.take(j));
        assert(rest.drop_first() =~= split_lines(td.skip(j)));
        assert(td.skip(j) =~= t.skip(j + 1));
        assert(split_lines(t) =~= seq![t.take(j)] + split_lines(t.skip(j + 1)));
    }
}

/// Splits a word-list text into its lines.
pub fn get_words(all_words: &str) -> (words: Vec<String>)
    ensures
        words.deep_view() == split_lines(all_words@),
{
    let n = all_words.unicode_len();
    let mut words: Vec<String> = Vec::new();
    let mut start: usize = 0;
    let mut i: usize = 0;
    proof {
        assert(words.deep_view() =~= Seq::<Seq<char>>::empty());
        assert(all_words@.skip(0) =~= all_words@);
    }
    while i < n
        invariant
            n == all_words@.len(),
            start <= i <= n,
            forall|k: int| start <= k < i ==> all_words@[k] != '\n',
            words.deep_view() + split_lines(all_words@.skip(start as int))
                =~= split_lines(all_words@),
        decreases n - i,
    {
        let c = all_words.get_char(i);
        if c == '\n' {
            let seg = all_words.substring_char(start, i).to_owned();
            proof {
                let sk = all_words@.skip(start as int);
                assert(sk[i - start] == all_words@[i as int]);
                lemma_split_lines_first(sk, i - start);
                assert(sk.take(i - start) =~= all_words@.subrange(start as int, i as int));
                assert(sk.skip(i - start + 1) =~= all_words@.skip(i + 1));
                assert((words.deep_view().push(seg@)) + split_lines(all_words@.skip(i + 1))
                    =~= split_lines(all_words@));
            }
            let ghost old_words = words.deep_view();
            words.push(seg);
            proof {
                assert(words.deep_view() =~= old_words.push(seg@));
            }
            start = i + 1;
        }
        i += 1;
    }
    let seg = all_words.substring_char(start, n).to_owned();
    proof {
        let sk = all_words@.skip(start as int);
        lemma_split_lines_whole(sk);
        assert(sk =~= all_words@.subrange(start as int, n as int));
    }
    let ghost old_words = words.deep_view();
    words.push(seg);
    proof {
        assert(words.deep_view() =~= old_words.push(seg@));
        assert(words.deep_view() =~= split_lines(all_words@));
    }
    words
}

/// A pluggable source of round words.
pub trait WordGenerator: Sized {
    fn new() -> Self;

    fn get_random_word(&mut self) -> String;
}

/// Relies on `rand::random_range`: returns a value of the given non-empty
/// half-open range.
#[verifier::external_body]
fn random_index(n: usize) -> (r: usize)
    requires
        n > 0,
    ensures
        r < n,
{
    rand::random_range(0..n)
}

/// Picks uniformly from a fixed word list.
#[derive(Debug, Clone)]
pub struct RandomWordGenerator {
    pub words: Vec<String>,
}

impl RandomWordGenerator {
    pub fn from_words(words: Vec<String>) -> (g: RandomWordGenerator)
        ensures
            g.words == words,
    {
        RandomWordGenerator { words }
    }

    /// Some word of the list, or a fixed fallback when the list is empty.
    pub fn pick_word(&self) -> (w: String)
        ensures
            self.words@.len() > 0 ==> exists|i: int|
                0 <= i < self.words@.len() && w@ == self.words.deep_view()[i],
            self.words@.len() == 0 ==> w@ == "sana"@,
    {
        if self.words.len() == 0 {
            String::from_str("sana")
        } else {
            let i = random_index(self.words.len());
            let w = self.words[i].clone();
            proof {
                assert(w@ == self.words.deep_view()[i as int]);
            }
            w
        }
    }
}

impl WordGenerator for RandomWordGenerator {
    fn new() -> RandomWordGenerator {
        RandomWordGenerator { words: Vec::new() }
    }

    fn get_random_word(&mut self) -> String {
        self.pick_word()
    }
}

} // verus!
