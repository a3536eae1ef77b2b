use crate::hashing::secure_hash;
use crate::hashing::secure_hash_spec;
use crate::rng::chacha_below;
use crate::rng::chacha_draw;
use crate::rng::chacha_from_seed;
use crate::rng::chacha_next;
use crate::rng::chacha_seeded;
use crate::rng::chacha_state;
use crate::style::style_push;
use crate::style::Style;
use crate::style::StyleView;
use crate::wordlist::WordList;
use vstd::arithmetic::mul::lemma_mul_inequality;
use vstd::arithmetic::mul::lemma_mul_upper_bound;
use vstd::arithmetic::power::lemma_pow_increases;
use vstd::arithmetic::power::lemma_pow_positive;
use vstd::arithmetic::power::pow;
use vstd::prelude::*;
use vstd::slice::slice_subrange;

verus! {

/// The entropy target, in bits, that a fresh configuration aims at.
pub const DEFAULT_BITS: u32 = 48;

/// For bases `1 <= a <= b`, raising the larger base never yields less.
proof fn lemma_pow_base_grows(a: nat, b: nat, e: nat)
    requires
        1 <= a <= b,
    ensures
        pow(a as int, e) <= pow(b as int, e),
    decreases e,
{
    if e > 0 {
        let pa = pow(a as int, (e - 1) as nat);
        let pb = pow(b as int, (e - 1) as nat);
        lemma_pow_base_grows(a, b, (e - 1) as nat);
        lemma_pow_positive(a as int, (e - 1) as nat);
        lemma_pow_positive(b as int, (e - 1) as nat);
        lemma_pow_unfold(a as int, e);
        lemma_pow_unfold(b as int, e);
        lemma_mul_inequality(pa, pb, a as int);
        lemma_mul_inequality(a as int, b as int, pb);
        assert(pa * (a as int) == (a as int) * pa) by (nonlinear_arith);
        assert(pb * (a as int) == (a as int) * pb) by (nonlinear_arith);
        assert(pb * (b as int) == (b as int) * pb) by (nonlinear_arith);
    } else {
        vstd::arithmetic::power::lemma_pow0(a as int);
        vstd::arithmetic::power::lemma_pow0(b as int);
    }
}

/// One unfolding of `pow`: a positive exponent peels off one factor.
proof fn lemma_pow_unfold(b: int, e: nat)
    requires
        e >= 1,
    ensures
        pow(b, e) == b * pow(b, (e - 1) as nat),
{
    vstd::arithmetic::power::lemma_pow1(b);
    vstd::arithmetic::power::lemma_pow_adds(b, 1, (e - 1) as nat);
}

/// The number of words needed to reach `bits` bits of entropy from a list of
/// `n` words: the least count whose index space, `n` to that power, holds at
/// least two-to-the-`bits` values. This is `ceil(bits / log2(n))` in integer
/// form. A single-word list reaches no positive target, and the count
/// saturates.
pub fn word_count_for_bits(n: usize, bits: u32) -> (r: u32)
    requires
        n >= 1,
        1 <= bits <= 64,
    ensures
        n == 1 ==> r == u32::MAX,
        n >= 2 ==> pow(n as int, r as nat) >= pow(2, bits as nat),
        n >= 2 ==> forall|k: nat| k < r ==> pow(n as int, k) < pow(2, bits as nat),
        n >= 2 ==> r <= bits,
{
    if n <= 1 {
        return u32::MAX;
    }
    let mut target: u128 = 1;
    let mut j: u32 = 0;
    proof {
        vstd::arithmetic::power::lemma_pow0(2);
    }
    while j < bits
        invariant
            j <= bits <= 64,
            target == pow(2, j as nat),
        decreases bits - j,
    {
        proof {
            lemma_pow_increases(2, j as nat, 63);
            vstd::arithmetic::power2::lemma_pow2(j as nat);
            vstd::arithmetic::power2::lemma_pow2(63);
            vstd::arithmetic::power2::lemma2_to64_rest();
            lemma_pow_unfold(2, (j + 1) as nat);
        }
        target = target * 2;
        j = j + 1;
    }
    let mut acc: u128 = 1;
    let mut k: u32 = 0;
    proof {
        vstd::arithmetic::power::lemma_pow0(n as int);
        lemma_pow_increases(2, bits as nat, 64);
        vstd::arithmetic::power2::lemma_pow2(bits as nat);
        vstd::arithmetic::power2::lemma_pow2(64);
        vstd::arithmetic::power2::lemma2_to64_rest();
    }
    while acc < target
        invariant
            2 <= n,
            k <= bits <= 64,
            acc == pow(n as int, k as nat),
            target == pow(2, bits as nat),
            target <= 0x10000000000000000,
            k > 0 ==> pow(n as int, (k - 1) as nat) < pow(2, bits as nat),
        decreases bits - k,
    {
        proof {
            if k >= bits {
                lemma_pow_base_grows(2, n as nat, k as nat);
                lemma_pow_increases(2, bits as nat, k as nat);
            }
            lemma_pow_positive(n as int, k as nat);
            lemma_mul_upper_bound(acc as int, 0xffffffffffffffff, n as int, 0xffffffffffffffff);
            lemma_pow_unfold(n as int, (k + 1) as nat);
            assert(pow(n as int, k as nat) * (n as int) == (n as int) * pow(n as int, k as nat))
                by (nonlinear_arith);
        }
        acc = acc * (n as u128);
        k = k + 1;
    }
    proof {
        assert forall|q: nat| q < k implies pow(n as int, q) < pow(2, bits as nat) by {
            lemma_pow_increases(n as nat, q, (k - 1) as nat);
        }
    }
    k
}

/// The abstract generator state after `k` bounded draws from state `st`.
pub open spec fn state_after(st: int, bound: nat, k: nat) -> int
    decreases k,
{
    if k == 0 {
        st
    } else {
        chacha_next(state_after(st, bound, (k - 1) as nat), bound)
    }
}

/// The first `k` indices a generator draws below `bound`, starting from
/// state `st`.
pub open spec fn indices_drawn(st: int, bound: nat, k: nat) -> Seq<nat>
    decreases k,
{
    if k == 0 {
        Seq::empty()
    } else {
        indices_drawn(st, bound, (k - 1) as nat).push(
            chacha_draw(state_after(st, bound, (k - 1) as nat), bound),
        )
    }
}

/// The words that a list of drawn indices picks out of a word list.
pub open spec fn words_at(words: Seq<Seq<char>>, idxs: Seq<nat>) -> Seq<Seq<char>> {
    idxs.map(|_i: int, ix: nat| words[ix as int])
}

/// A list of words joined in a style, with the first-word flag set on the
/// word at index zero only.
pub open spec fn assembled(style: StyleView, words: Seq<Seq<char>>) -> Seq<char>
    decreases words.len(),
{
    if words.len() == 0 {
        Seq::empty()
    } else {
        assembled(style, words.drop_last()) + style_push(style, words.last(), words.len() == 1)
    }
}

/// The whole derivation: the digest of master and domain, its first 32 bytes
/// as the generator seed, one bounded draw per word, and the drawn words
/// joined in the configured style.
pub open spec fn gen_spec(
    words: Seq<Seq<char>>,
    count: u32,
    style: StyleView,
    master: Seq<u8>,
    domain: Seq<u8>,
) -> Seq<char> {
    let st0 = chacha_seeded(secure_hash_spec(master, domain).take(32));
    assembled(style, words_at(words, indices_drawn(st0, words.len(), count as nat)))
}

/// The configuration for one derivation: a borrowed word list, a word count,
/// and a join style.
#[derive(Debug, Clone)]
pub struct Config<'a> {
    word_list: &'a WordList,
    word_count: u32,
    style: Style,
}

impl<'a> Config<'a> {
    /// The words to draw from.
    pub closed spec fn spec_words(&self) -> Seq<Seq<char>> {
        self.word_list@
    }

    /// How many words a derived password holds.
    pub closed spec fn spec_word_count(&self) -> u32 {
        self.word_count
    }

    /// How the words are joined.
    pub closed spec fn spec_style(&self) -> StyleView {
        self.style@
    }

    /// A fresh configuration: Pascal style, and the word count that reaches
    /// the default entropy target.
    pub fn new(word_list: &WordList) -> (r: Config)
        ensures
            r.spec_words() == word_list@,
            r.spec_style() == StyleView::Pascal,
            word_list@.len() == 1 ==> r.spec_word_count() == u32::MAX,
            word_list@.len() >= 2 ==> pow(word_list@.len() as int, r.spec_word_count() as nat)
                >= pow(2, DEFAULT_BITS as nat),
            word_list@.len() >= 2 ==> forall|k: nat|
                k < r.spec_word_count() ==> pow(word_list@.len() as int, k) < pow(
                    2,
                    DEFAULT_BITS as nat,
                ),
    {
        let n = word_list.word_count();
        Config { word_count: word_count_for_bits(n, DEFAULT_BITS), style: Style::Pascal, word_list }
    }

    /// The same counts and style over another word list.
    pub fn with_word_list<'b>(self, word_list: &'b WordList) -> (r: Config<'b>)
        ensures
            r.spec_words() == word_list@,
            r.spec_word_count() == self.spec_word_count(),
            r.spec_style() == self.spec_style(),
    {
        Config { word_list, word_count: self.word_count, style: self.style }
    }

    /// The word list drawn from.
    pub fn word_list(&self) -> (r: &'a WordList)
        ensures
            r@ == self.spec_words(),
    {
        self.word_list
    }

    /// Sets the word count directly; the last setting wins.
    pub fn with_word_count(self, word_count: u32) -> (r: Self)
        ensures
            r.spec_words() == self.spec_words(),
            r.spec_word_count() == word_count,
            r.spec_style() == self.spec_style(),
    {
        Config { word_count, ..self }
    }

    /// The configured word count.
    pub fn word_count(&self) -> (r: u32)
        ensures
            r == self.spec_word_count(),
    {
        self.word_count
    }

    /// Sets the join style; the last setting wins.
    pub fn with_style(self, style: Style) -> (r: Self)
        ensures
            r.spec_words() == self.spec_words(),
            r.spec_word_count() == self.spec_word_count(),
            r.spec_style() == style@,
    {
        Config { style, ..self }
    }

    /// Capitalizes every word.
    pub fn with_style_pascal(self) -> (r: Self)
        ensures
            r.spec_words() == self.spec_words(),
            r.spec_word_count() == self.spec_word_count(),
            r.spec_style() == StyleView::Pascal,
    {
        self.with_style(Style::Pascal)
    }

    /// Capitalizes every word but the first.
    pub fn with_style_camel(self) -> (r: Self)
        ensures
            r.spec_words() == self.spec_words(),
            r.spec_word_count() == self.spec_word_count(),
            r.spec_style() == StyleView::Camel,
    {
        self.with_style(Style::Camel)
    }

    /// Joins the words with the given separator, unchanged.
    pub fn with_style_concat(self, separator: String) -> (r: Self)
        ensures
            r.spec_words() == self.spec_words(),
            r.spec_word_count() == self.spec_word_count(),
            r.spec_style() == StyleView::Concat(separator@),
    {
        self.with_style(Style::Concat(separator))
    }

    /// The configured join style.
    pub fn style(&self) -> (r: &Style)
        ensures
            r@ == self.spec_style(),
    {
        &self.style
    }

    /// Derives the password for a master password and a domain. Any byte
    /// sequences are accepted, the empty ones included, and the result is a
    /// function of the configuration and the two inputs alone.
    pub fn gen(&self, master: &[u8], domain: &[u8]) -> (r: String)
        ensures
            r@ == gen_spec(
                self.spec_words(),
                self.spec_word_count(),
                self.spec_style(),
                master@,
                domain@,
            ),
    {
        let hash = secure_hash(master, domain);
        let seed = slice_subrange(hash.as_slice(), 0, 32);
        let mut rng = chacha_from_seed(seed);
        let ghost st0 = chacha_seeded(secure_hash_spec(master@, domain@).take(32));
        proof {
            assert(hash@.subrange(0, 32) =~= secure_hash_spec(master@, domain@).take(32));
        }
        let n = self.word_list.word_count();
        let ghost bound = n as nat;
        let mut password = String::new();
        let mut i: u32 = 0;
        while i < self.word_count
            invariant
                i <= self.word_count,
                n >= 1,
                n == self.spec_words().len(),
                bound == n as nat,
                chacha_state(rng) == state_after(st0, bound, i as nat),
                password@ == assembled(
                    self.spec_style(),
                    words_at(self.spec_words(), indices_drawn(st0, bound, i as nat)),
                ),
            decreases self.word_count - i,
        {
            let ghost prev_picked = words_at(
                self.spec_words(),
                indices_drawn(st0, bound, i as nat),
            );
            let idx = chacha_below(&mut rng, n);
            let word = self.word_list.word(idx);
            self.style.push(word, &mut password, i == 0, i == self.word_count - 1);
            proof {
                let picked = words_at(
                    self.spec_words(),
                    indices_drawn(st0, bound, (i + 1) as nat),
                );
                assert(picked =~= prev_picked.push(self.spec_words()[idx as int]));
                assert(picked.drop_last() =~= prev_picked);
            }
            i = i + 1;
        }
        password
    }
}

/// The derivation is deterministic: two configurations that agree on the
/// word list, the word count and the style, however each was built, give the
/// same password for the same master and domain.
pub proof fn lemma_gen_deterministic<'a, 'b>(
    c1: &Config<'a>,
    c2: &Config<'b>,
    master: Seq<u8>,
    domain: Seq<u8>,
)
    requires
        c1.spec_words() == c2.spec_words(),
        c1.spec_word_count() == c2.spec_word_count(),
        c1.spec_style() == c2.spec_style(),
    ensures
        gen_spec(c1.spec_words(), c1.spec_word_count(), c1.spec_style(), master, domain)
            == gen_spec(c2.spec_words(), c2.spec_word_count(), c2.spec_style(), master, domain),
{
}

} // verus!
