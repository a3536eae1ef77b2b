use vstd::prelude::*;
use vstd::string::StrSliceExecFns;

verus! {

/// Whether `c` has the Unicode `White_Space` property; any run of such
/// characters separates two words of a word list.
pub open spec fn is_space(c: char) -> bool {
    let u = c as u32;
    ||| u == 0x20
    ||| (0x09 <= u && u <= 0x0d)
    ||| u == 0x85
    ||| u == 0xa0
    ||| u == 0x1680
    ||| (0x2000 <= u && u <= 0x200a)
    ||| u == 0x2028
    ||| u == 0x2029
    ||| u == 0x202f
    ||| u == 0x205f
    ||| u == 0x3000
}

fn is_space_char(c: char) -> (r: bool)
    ensures
        r == is_space(c),
{
    let u = c as u32;
    u == 0x20 || (0x09 <= u && u <= 0x0d) || u == 0x85 || u == 0xa0 || u == 0x1680 || (0x2000
        <= u && u <= 0x200a) || u == 0x2028 || u == 0x2029 || u == 0x202f || u == 0x205f || u
        == 0x3000
}

/// The words of `s`: the maximal runs of non-space characters, in order.
/// Defined by recursion on the last character, so that a parse that walks the
/// text left to right extends it one character at a time.
pub open spec fn words_of(s: Seq<char>) -> Seq<Seq<char>>
    decreases s.len(),
{
    if s.len() == 0 {
        Seq::empty()
    } else {
        let prefix = words_of(s.drop_last());
        let c = s.last();
        if is_space(c) {
            prefix
        } else if s.len() >= 2 && !is_space(s[s.len() - 2]) {
            prefix.update(prefix.len() - 1, prefix.last().push(c))
        } else {
            prefix.push(seq![c])
        }
    }
}

/// The character sequences that a list of `(offset, length)` spans cuts out
/// of `text`.
pub open spec fn spans_view(text: Seq<char>, spans: Seq<(usize, usize)>) -> Seq<Seq<char>> {
    spans.map(|_i: int, sp: (usize, usize)| text.subrange(sp.0 as int, sp.0 as int + sp.1 as int))
}

/// An immutable list of candidate words: the raw text and one
/// `(offset, length)` span per whitespace-delimited token, in insertion
/// order. Offsets and lengths count characters. A word list is never empty.
#[derive(Debug)]
pub struct WordList {
    text: String,
    words: Vec<(usize, usize)>,
}

impl Clone for WordList {
    /// A clone denotes the same list of words.
    fn clone(&self) -> (r: Self)
        ensures
            r@ == self@,
    {
        proof {
            use_type_invariant(self);
        }
        let mut spans: Vec<(usize, usize)> = Vec::new();
        let mut k: usize = 0;
        while k < self.words.len()
            invariant
                k <= self.words@.len(),
                spans@ == self.words@.take(k as int),
            decreases self.words@.len() - k,
        {
            spans.push(self.words[k]);
            proof {
                assert(self.words@.take(k + 1) =~= self.words@.take(k as int).push(
                    self.words@[k as int],
                ));
            }
            k = k + 1;
        }
        proof {
            assert(self.words@.take(self.words@.len() as int) =~= self.words@);
        }
        let r = WordList { text: self.text.clone(), words: spans };
        proof {
            assert(r@ =~= self@);
        }
        r
    }
}

impl View for WordList {
    type V = Seq<Seq<char>>;

    closed spec fn view(&self) -> Seq<Seq<char>> {
        spans_view(self.text@, self.words@)
    }
}

impl WordList {
    #[verifier::type_invariant]
    spec fn wf(&self) -> bool {
        &&& self.words@.len() >= 1
        &&& self.text@.len() <= usize::MAX
        &&& forall|k: int|
            0 <= k < self.words@.len() ==> (#[trigger] self.words@[k]).0 + self.words@[k].1
                <= self.text@.len()
    }

    /// Splits `text` on whitespace runs and records one span per token.
    /// Fails exactly when no token results.
    pub fn new(text: String) -> (r: Option<WordList>)
        ensures
            match r {
                Some(wl) => wl@ == words_of(text@) && words_of(text@).len() > 0,
                None => words_of(text@).len() == 0,
            },
    {
        let ghost s = text@;
        let n = text.as_str().unicode_len();
        let mut words: Vec<(usize, usize)> = Vec::new();
        let mut i: usize = 0;
        while i < n
            invariant
                text@ == s,
                n == s.len(),
                i <= n,
                spans_view(s, words@) == words_of(s.take(i as int)),
                forall|k: int|
                    0 <= k < words@.len() ==> (#[trigger] words@[k]).0 + words@[k].1 <= i,
                i < n ==> (i == 0 || is_space(s[i as int - 1]) || is_space(s[i as int])),
            decreases n - i,
        {
            let c = text.as_str().get_char(i);
            if is_space_char(c) {
                proof {
                    assert(s.take(i + 1).drop_last() =~= s.take(i as int));
                }
                i = i + 1;
            } else {
                let start = i;
                let ghost prev = words_of(s.take(start as int));
                proof {
                    assert(s.take(i + 1).drop_last() =~= s.take(i as int));
                    assert(s.subrange(start as int, i + 1) =~= seq![s[i as int]]);
                }
                i = i + 1;
                while i < n && !is_space_char(text.as_str().get_char(i))
                    invariant
                        text@ == s,
                        n == s.len(),
                        start < i <= n,
                        start == 0 || is_space(s[start as int - 1]),
                        forall|k: int| start <= k < i ==> !is_space(s[k]),
                        words_of(s.take(i as int)) == prev.push(
                            s.subrange(start as int, i as int),
                        ),
                    decreases n - i,
                {
                    proof {
                        assert(s.take(i + 1).drop_last() =~= s.take(i as int));
                        assert(s.subrange(start as int, i + 1) =~= s.subrange(
                            start as int,
                            i as int,
                        ).push(s[i as int]));
                        let t = s.take(i + 1);
                        assert(t[t.len() - 2] == s[i as int - 1]);
                    }
                    i = i + 1;
                }
                words.push((start, i - start));
                proof {
                    assert(spans_view(s, words@) =~= prev.push(
                        s.subrange(start as int, i as int),
                    ));
                }
            }
        }
        proof {
            assert(s.take(n as int) =~= s);
        }
        if words.len() > 0 {
            Some(WordList { text, words })
        } else {
            None
        }
    }

    /// The number of words; at least one.
    pub fn word_count(&self) -> (r: usize)
        ensures
            r == self@.len(),
            r >= 1,
    {
        proof {
            use_type_invariant(self);
        }
        self.words.len()
    }

    /// The word at `idx`; the caller keeps `idx` in range.
    pub fn word<'a>(&'a self, idx: usize) -> (r: &'a str)
        requires
            idx < self@.len(),
        ensures
            r@ == self@[idx as int],
    {
        proof {
            use_type_invariant(self);
        }
        let sp = self.words[idx];
        self.text.as_str().substring_char(sp.0, sp.0 + sp.1)
    }
}

} // verus!
