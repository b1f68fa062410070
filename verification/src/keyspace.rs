//! The candidate keyspace: every string over a fixed alphabet whose length
//! lies in a closed range, laid out in one deterministic order.
//!
//! Within one length the strings are numbered like the numerals of a
//! positional system whose digits are the alphabet's symbols: the leftmost
//! symbol is the most significant, so the rightmost changes fastest. Shorter
//! strings come before longer ones.

use vstd::prelude::*;

verus! {

/// How many strings of length `len` exist over `radix` symbols.
pub open spec fn words(radix: nat, len: nat) -> nat
    decreases len,
{
    if len == 0 {
        1
    } else {
        radix * words(radix, (len - 1) as nat)
    }
}

/// How many strings have one of the `lens` lengths that start at `from`.
pub open spec fn words_in(radix: nat, from: nat, lens: nat) -> nat
    decreases lens,
{
    if lens == 0 {
        0
    } else {
        words(radix, from) + words_in(radix, from + 1, (lens - 1) as nat)
    }
}

/// The number that is left of `index` when its last digit is dropped.
pub open spec fn leading(index: nat, radix: nat) -> nat {
    (index as int / radix as int) as nat
}

/// The last digit of `index`.
pub open spec fn last_digit(index: nat, radix: nat) -> int {
    index as int % radix as int
}

/// The string of length `len` whose number is `index`.
pub open spec fn word_at(alphabet: Seq<u8>, len: nat, index: nat) -> Seq<u8>
    decreases len,
{
    if len == 0 {
        Seq::empty()
    } else {
        word_at(alphabet, (len - 1) as nat, leading(index, alphabet.len())).push(
            alphabet[last_digit(index, alphabet.len())],
        )
    }
}

/// Whether every symbol of `word` belongs to `alphabet`.
pub open spec fn over_alphabet(alphabet: Seq<u8>, word: Seq<u8>) -> bool {
    forall|k: int| 0 <= k < word.len() ==> alphabet.contains(#[trigger] word[k])
}

/// The number of `word` among the strings of its length.
pub open spec fn number_of(alphabet: Seq<u8>, word: Seq<u8>) -> nat
    decreases word.len(),
{
    if word.len() == 0 {
        0
    } else {
        number_of(alphabet, word.drop_last()) * alphabet.len() + alphabet.index_of(
            word.last(),
        ) as nat
    }
}

/// The strings of length `len` numbered `lo`, `lo + 1`, .. up to but not
/// including `hi`, in that order.
pub open spec fn segment(alphabet: Seq<u8>, len: nat, lo: nat, hi: nat) -> Seq<Seq<u8>> {
    Seq::new((hi - lo) as nat, |i: int| word_at(alphabet, len, (lo + i) as nat))
}

/// Every string of each of the `lens` lengths that start at `from`: shorter
/// strings first, and within one length by number.
pub open spec fn all_words(alphabet: Seq<u8>, from: nat, lens: nat) -> Seq<Seq<u8>>
    decreases lens,
{
    if lens == 0 {
        Seq::empty()
    } else {
        segment(alphabet, from, 0, words(alphabet.len(), from)) + all_words(
            alphabet,
            from + 1,
            (lens - 1) as nat,
        )
    }
}

/// How many lengths lie in `min_len ..= max_len`; none when `min_len` is
/// above `max_len`.
pub open spec fn lens_between(min_len: nat, max_len: nat) -> nat {
    if min_len <= max_len {
        (max_len - min_len + 1) as nat
    } else {
        0
    }
}

/// A keyspace as a mathematical value.
pub struct KeyspaceView {
    pub alphabet: Seq<u8>,
    pub min_len: nat,
    pub max_len: nat,
}

impl KeyspaceView {
    /// The number of symbols.
    pub open spec fn radix(self) -> nat {
        self.alphabet.len()
    }

    /// The number of lengths in the range.
    pub open spec fn lens(self) -> nat {
        lens_between(self.min_len, self.max_len)
    }

    /// The number of candidates.
    pub open spec fn size(self) -> nat {
        words_in(self.radix(), self.min_len, self.lens())
    }

    /// All candidates, in the order in which they are tried.
    pub open spec fn enumeration(self) -> Seq<Seq<u8>> {
        all_words(self.alphabet, self.min_len, self.lens())
    }

    /// Whether `word` is a candidate.
    pub open spec fn holds(self, word: Seq<u8>) -> bool {
        self.min_len <= word.len() <= self.max_len && over_alphabet(self.alphabet, word)
    }

    /// No symbol occurs twice, and the candidates can be counted in 64
    /// bits.
    pub open spec fn wf(self) -> bool {
        &&& self.alphabet.no_duplicates()
        &&& self.size() <= u64::MAX
    }
}

/// Over at least one symbol there is at least one string of every length.
pub proof fn lemma_words_positive(radix: nat, len: nat)
    requires
        radix > 0,
    ensures
        words(radix, len) > 0,
    decreases len,
{
    if len > 0 {
        lemma_words_positive(radix, (len - 1) as nat);
        assert(radix * words(radix, (len - 1) as nat) > 0) by (nonlinear_arith)
            requires
                radix > 0,
                words(radix, (len - 1) as nat) > 0,
        ;
    }
}

/// Without a symbol there is no string of a length above zero.
pub proof fn lemma_words_need_symbol(radix: nat, len: nat)
    requires
        len > 0,
    ensures
        radix == 0 ==> words(radix, len) == 0,
{
    if radix == 0 {
        assert(radix * words(radix, (len - 1) as nat) == 0) by (nonlinear_arith)
            requires
                radix == 0,
        ;
    }
}

/// Without a symbol a range of lengths holds the empty string, if zero is
/// among the lengths, and nothing else.
pub proof fn lemma_words_in_no_symbol(from: nat, lens: nat)
    ensures
        words_in(0, from, lens) == if from == 0 && lens > 0 {
            1nat
        } else {
            0nat
        },
    decreases lens,
{
    if lens > 0 {
        lemma_words_in_no_symbol(from + 1, (lens - 1) as nat);
        if from > 0 {
            lemma_words_need_symbol(0, from);
        }
    }
}

/// Without a symbol, no string of a length above zero is enumerated.
pub proof fn lemma_all_words_no_symbol(alphabet: Seq<u8>, from: nat, lens: nat)
    requires
        alphabet.len() == 0,
        from > 0,
    ensures
        all_words(alphabet, from, lens) =~= Seq::<Seq<u8>>::empty(),
    decreases lens,
{
    if lens > 0 {
        lemma_words_need_symbol(0, from);
        lemma_all_words_no_symbol(alphabet, from + 1, (lens - 1) as nat);
    }
}

/// Over at least one symbol, longer lengths have at least as many strings.
pub proof fn lemma_words_monotonic(radix: nat, shorter: nat, longer: nat)
    requires
        radix > 0,
        shorter <= longer,
    ensures
        words(radix, shorter) <= words(radix, longer),
    decreases longer,
{
    if shorter < longer {
        lemma_words_monotonic(radix, shorter, (longer - 1) as nat);
        assert(words(radix, (longer - 1) as nat) <= radix * words(radix, (longer - 1) as nat))
            by (nonlinear_arith)
            requires
                radix > 0,
        ;
    }
}

/// A range of lengths holds at least the strings of each of its lengths.
pub proof fn lemma_words_in_bounds(radix: nat, from: nat, lens: nat, k: nat)
    requires
        k < lens,
    ensures
        words_in(radix, from, k) + words(radix, from + k) <= words_in(radix, from, lens),
    decreases lens,
{
    if k > 0 {
        lemma_words_in_bounds(radix, from + 1, (lens - 1) as nat, (k - 1) as nat);
    }
}

/// Taking one more length adds the strings of that length.
pub proof fn lemma_words_in_extend(radix: nat, from: nat, lens: nat)
    ensures
        words_in(radix, from, lens + 1) == words_in(radix, from, lens) + words(radix, from + lens),
    decreases lens,
{
    if lens > 0 {
        lemma_words_in_extend(radix, from + 1, (lens - 1) as nat);
        assert(words_in(radix, from, lens + 1) == words(radix, from) + words_in(
            radix,
            from + 1,
            lens,
        ));
    } else {
        assert(words_in(radix, from + 1, 0) == 0);
        assert(words_in(radix, from, 1) == words(radix, from) + words_in(radix, from + 1, 0));
    }
}

/// A string has the length it was asked for, and is made of symbols of the
/// alphabet when its number is in range.
pub proof fn lemma_word_at_shape(alphabet: Seq<u8>, len: nat, index: nat)
    ensures
        word_at(alphabet, len, index).len() == len,
        index < words(alphabet.len(), len) ==> over_alphabet(
            alphabet,
            word_at(alphabet, len, index),
        ),
    decreases len,
{
    if len > 0 {
        let radix = alphabet.len();
        let shorter = word_at(alphabet, (len - 1) as nat, leading(index, radix));
        lemma_word_at_shape(alphabet, (len - 1) as nat, leading(index, radix));
        if index < words(radix, len) {
            lemma_words_need_symbol(radix, len);
            lemma_leading_in_range(index, radix, words(radix, (len - 1) as nat));
            let word = word_at(alphabet, len, index);
            assert forall|k: int| 0 <= k < word.len() implies alphabet.contains(
                #[trigger] word[k],
            ) by {
                if k < len - 1 {
                    assert(word[k] == shorter[k]);
                } else {
                    assert(word[k] == alphabet[last_digit(index, radix)]);
                }
            }
        }
    }
}

/// Numbering undoes naming: the number of the string numbered `index` is
/// `index`.
pub proof fn lemma_number_of_word_at(alphabet: Seq<u8>, len: nat, index: nat)
    requires
        alphabet.no_duplicates(),
        index < words(alphabet.len(), len),
    ensures
        number_of(alphabet, word_at(alphabet, len, index)) == index,
    decreases len,
{
    if len > 0 {
        let radix = alphabet.len();
        lemma_words_need_symbol(radix, len);
        lemma_leading_in_range(index, radix, words(radix, (len - 1) as nat));
        lemma_number_of_word_at(alphabet, (len - 1) as nat, leading(index, radix));
        lemma_word_at_shape(alphabet, len, index);
        let word = word_at(alphabet, len, index);
        let digit = last_digit(index, radix);
        assert(word.drop_last() =~= word_at(alphabet, (len - 1) as nat, leading(index, radix)));
        assert(word.last() == alphabet[digit]);
        lemma_index_of_symbol(alphabet, digit);
    }
}

/// Naming undoes numbering: a string over the alphabet is the string that
/// carries its number, and that number is in range.
pub proof fn lemma_word_at_number_of(alphabet: Seq<u8>, word: Seq<u8>)
    requires
        over_alphabet(alphabet, word),
    ensures
        number_of(alphabet, word) < words(alphabet.len(), word.len()),
        word_at(alphabet, word.len(), number_of(alphabet, word)) == word,
    decreases word.len(),
{
    if word.len() > 0 {
        let radix = alphabet.len();
        let len = word.len();
        let front = word.drop_last();
        assert forall|k: int| 0 <= k < front.len() implies alphabet.contains(
            #[trigger] front[k],
        ) by {
            assert(front[k] == word[k]);
        }
        lemma_word_at_number_of(alphabet, front);
        assert(alphabet.contains(word[len - 1]));
        let digit = alphabet.index_of(word.last());
        assert(0 <= digit < radix && alphabet[digit] == word.last());
        let high = number_of(alphabet, front);
        let index = number_of(alphabet, word);
        assert(index == high * radix + digit);
        assert(leading(index, radix) == high && last_digit(index, radix) == digit) by {
            let q = (index as int) / (radix as int);
            let r = (index as int) % (radix as int);
            assert(q == high && r == digit) by (nonlinear_arith)
                requires
                    index == high * radix + digit,
                    0 <= digit < radix,
                    high >= 0,
                    q == (index as int) / (radix as int),
                    r == (index as int) % (radix as int),
            ;
        }
        assert(index < radix * words(radix, (len - 1) as nat)) by (nonlinear_arith)
            requires
                index == high * radix + digit,
                0 <= digit < radix,
                high < words(radix, (len - 1) as nat),
        ;
        assert(word_at(alphabet, len, index) =~= word);
    }
}

/// Two strings of one length with different numbers differ.
pub proof fn lemma_word_at_injective(alphabet: Seq<u8>, len: nat, i: nat, j: nat)
    requires
        alphabet.no_duplicates(),
        i < words(alphabet.len(), len),
        j < words(alphabet.len(), len),
        i != j,
    ensures
        word_at(alphabet, len, i) != word_at(alphabet, len, j),
{
    lemma_number_of_word_at(alphabet, len, i);
    lemma_number_of_word_at(alphabet, len, j);
}

/// Whether `a` comes before `b` in the lexicographic order that the
/// alphabet gives: where the two first differ, the symbol of `a` stands
/// earlier in the alphabet.
pub open spec fn precedes(alphabet: Seq<u8>, a: Seq<u8>, b: Seq<u8>) -> bool {
    exists|k: int|
        0 <= k < a.len() && k < b.len() && #[trigger] a.take(k) == b.take(k) && alphabet.index_of(
            a[k],
        ) < alphabet.index_of(b[k])
}

/// The strings of one length are numbered in lexicographic order.
pub proof fn lemma_word_at_ordered(alphabet: Seq<u8>, len: nat, i: nat, j: nat)
    requires
        alphabet.no_duplicates(),
        i < j < words(alphabet.len(), len),
    ensures
        precedes(alphabet, word_at(alphabet, len, i), word_at(alphabet, len, j)),
    decreases len,
{
    let radix = alphabet.len();
    if len > 0 {
        lemma_words_need_symbol(radix, len);
        lemma_leading_in_range(i, radix, words(radix, (len - 1) as nat));
        lemma_leading_in_range(j, radix, words(radix, (len - 1) as nat));
        let a = word_at(alphabet, len, i);
        let b = word_at(alphabet, len, j);
        let front_a = word_at(alphabet, (len - 1) as nat, leading(i, radix));
        let front_b = word_at(alphabet, (len - 1) as nat, leading(j, radix));
        lemma_word_at_shape(alphabet, (len - 1) as nat, leading(i, radix));
        lemma_word_at_shape(alphabet, (len - 1) as nat, leading(j, radix));
        assert(a == front_a.push(alphabet[last_digit(i, radix)]));
        assert(b == front_b.push(alphabet[last_digit(j, radix)]));
        if leading(i, radix) == leading(j, radix) {
            let k = len - 1;
            assert(a.take(k) =~= front_a);
            assert(b.take(k) =~= front_b);
            lemma_index_of_symbol(alphabet, last_digit(i, radix));
            lemma_index_of_symbol(alphabet, last_digit(j, radix));
            assert(a.take(k) == b.take(k));
        } else {
            assert(leading(i, radix) < leading(j, radix)) by (nonlinear_arith)
                requires
                    i < j,
                    radix > 0,
                    leading(i, radix) * radix + last_digit(i, radix) == i,
                    leading(j, radix) * radix + last_digit(j, radix) == j,
                    0 <= last_digit(i, radix) < radix,
                    0 <= last_digit(j, radix) < radix,
                    leading(i, radix) != leading(j, radix),
            ;
            lemma_word_at_ordered(
                alphabet,
                (len - 1) as nat,
                leading(i, radix),
                leading(j, radix),
            );
            let k = choose|k: int|
                0 <= k < front_a.len() && k < front_b.len() && #[trigger] front_a.take(k)
                    == front_b.take(k) && alphabet.index_of(front_a[k]) < alphabet.index_of(
                    front_b[k],
                );
            assert(a.take(k) =~= front_a.take(k));
            assert(b.take(k) =~= front_b.take(k));
            assert(a[k] == front_a[k] && b[k] == front_b[k]);
            assert(a.take(k) == b.take(k));
        }
    }
}

/// In an alphabet without repetition a symbol is found where it stands.
pub proof fn lemma_index_of_symbol(alphabet: Seq<u8>, d: int)
    requires
        alphabet.no_duplicates(),
        0 <= d < alphabet.len(),
    ensures
        alphabet.index_of(alphabet[d]) == d,
{
    let found = alphabet.index_of(alphabet[d]);
    assert(alphabet.contains(alphabet[d]));
    assert(0 <= found < alphabet.len() && alphabet[found] == alphabet[d]);
}

/// Over a single symbol there is one string of every length.
pub proof fn lemma_words_unary(len: nat)
    ensures
        words(1, len) == 1,
    decreases len,
{
    if len > 0 {
        lemma_words_unary((len - 1) as nat);
    }
}

/// Over a single symbol a range of lengths holds one string per length.
pub proof fn lemma_words_in_unary(from: nat, lens: nat)
    ensures
        words_in(1, from, lens) == lens,
    decreases lens,
{
    if lens > 0 {
        lemma_words_unary(from);
        lemma_words_in_unary(from + 1, (lens - 1) as nat);
    }
}

/// Two adjacent runs of strings of one length make one run.
pub proof fn lemma_segment_concat(alphabet: Seq<u8>, len: nat, lo: nat, mid: nat, hi: nat)
    requires
        lo <= mid <= hi,
    ensures
        segment(alphabet, len, lo, mid) + segment(alphabet, len, mid, hi) =~= segment(
            alphabet,
            len,
            lo,
            hi,
        ),
{
}

/// The enumeration of a range of lengths has as many entries as the range
/// has strings.
pub proof fn lemma_all_words_len(alphabet: Seq<u8>, from: nat, lens: nat)
    ensures
        all_words(alphabet, from, lens).len() == words_in(alphabet.len(), from, lens),
    decreases lens,
{
    if lens > 0 {
        lemma_all_words_len(alphabet, from + 1, (lens - 1) as nat);
    }
}

/// Where the string numbered `index` of the `k`-th length stands in the
/// enumeration of a range of lengths.
pub proof fn lemma_all_words_index(alphabet: Seq<u8>, from: nat, lens: nat, k: nat, index: nat)
    requires
        k < lens,
        index < words(alphabet.len(), from + k),
    ensures
        words_in(alphabet.len(), from, k) + index < all_words(alphabet, from, lens).len(),
        all_words(alphabet, from, lens)[(words_in(alphabet.len(), from, k) + index) as int] == word_at(
            alphabet,
            from + k,
            index,
        ),
    decreases lens,
{
    let radix = alphabet.len();
    lemma_all_words_len(alphabet, from, lens);
    lemma_all_words_len(alphabet, from + 1, (lens - 1) as nat);
    if k > 0 {
        lemma_all_words_index(alphabet, from + 1, (lens - 1) as nat, (k - 1) as nat, index);
        assert(words_in(radix, from, k) == words(radix, from) + words_in(
            radix,
            from + 1,
            (k - 1) as nat,
        ));
    } else {
        assert(words_in(radix, from, 0) == 0);
    }
}

/// Every entry of the enumeration of a range of lengths is the string of
/// some length of the range and some number below that length's count.
pub proof fn lemma_all_words_locate(alphabet: Seq<u8>, from: nat, lens: nat, position: nat) -> (r:
    (nat, nat))
    requires
        position < all_words(alphabet, from, lens).len(),
    ensures
        r.0 < lens,
        r.1 < words(alphabet.len(), from + r.0),
        position == words_in(alphabet.len(), from, r.0) + r.1,
        all_words(alphabet, from, lens)[position as int] == word_at(alphabet, from + r.0, r.1),
    decreases lens,
{
    let radix = alphabet.len();
    lemma_all_words_len(alphabet, from, lens);
    lemma_all_words_len(alphabet, from + 1, (lens - 1) as nat);
    if position < words(radix, from) {
        assert(words_in(radix, from, 0) == 0);
        (0, position)
    } else {
        let rest = (position - words(radix, from)) as nat;
        let (k, index) = lemma_all_words_locate(alphabet, from + 1, (lens - 1) as nat, rest);
        assert(words_in(radix, from, k + 1) == words(radix, from) + words_in(radix, from + 1, k));
        (k + 1, index)
    }
}

/// The enumeration tries no candidate twice.
pub proof fn lemma_enumeration_distinct(space: KeyspaceView, p: nat, q: nat)
    requires
        space.alphabet.no_duplicates(),
        p < space.enumeration().len(),
        q < space.enumeration().len(),
        p != q,
    ensures
        space.enumeration()[p as int] != space.enumeration()[q as int],
{
    let (kp, ip) = lemma_all_words_locate(space.alphabet, space.min_len, space.lens(), p);
    let (kq, iq) = lemma_all_words_locate(space.alphabet, space.min_len, space.lens(), q);
    lemma_word_at_shape(space.alphabet, space.min_len + kp, ip);
    lemma_word_at_shape(space.alphabet, space.min_len + kq, iq);
    if kp == kq {
        lemma_word_at_injective(space.alphabet, space.min_len + kp, ip, iq);
    }
}

/// The enumeration has exactly as many entries as there are strings of the
/// lengths in range: the sum of `radix^len` over them.
pub proof fn lemma_enumeration_count(space: KeyspaceView)
    ensures
        space.enumeration().len() == space.size(),
        space.size() == words_in(space.radix(), space.min_len, space.lens()),
{
    lemma_all_words_len(space.alphabet, space.min_len, space.lens());
}

/// The enumeration leaves no candidate out, and tries nothing else: a string
/// is an entry exactly when its length is in range and its symbols are the
/// alphabet's.
pub proof fn lemma_enumeration_complete(space: KeyspaceView, word: Seq<u8>)
    ensures
        space.enumeration().contains(word) <==> space.holds(word),
{
    let alphabet = space.alphabet;
    let all = space.enumeration();
    if space.holds(word) {
        let k = (word.len() - space.min_len) as nat;
        lemma_word_at_number_of(alphabet, word);
        lemma_all_words_index(alphabet, space.min_len, space.lens(), k, number_of(alphabet, word));
        let position = words_in(alphabet.len(), space.min_len, k) + number_of(alphabet, word);
        assert(all[position as int] == word);
    }
    if all.contains(word) {
        let position = choose|i: int| 0 <= i < all.len() && all[i] == word;
        let (k, index) = lemma_all_words_locate(
            alphabet,
            space.min_len,
            space.lens(),
            position as nat,
        );
        lemma_word_at_shape(alphabet, space.min_len + k, index);
    }
}

/// A number is below `radix * bound` exactly when it is below `bound` once
/// its last digit is dropped.
pub proof fn lemma_leading_in_range(index: nat, radix: nat, bound: nat)
    requires
        radix > 0,
    ensures
        index < radix * bound <==> leading(index, radix) < bound,
        0 <= last_digit(index, radix) < radix,
        leading(index, radix) * radix + last_digit(index, radix) == index,
{
    let q = (index as int) / (radix as int);
    let r = (index as int) % (radix as int);
    assert(0 <= q && 0 <= r && r < radix && q * radix + r == index && ((index < radix * bound)
        <==> (q < bound))) by (nonlinear_arith)
        requires
            radix > 0,
            index >= 0,
            bound >= 0,
            q == (index as int) / (radix as int),
            r == (index as int) % (radix as int),
    ;
}

/// The number of a string is at least the number of each of its prefixes.
pub proof fn lemma_number_of_prefix(alphabet: Seq<u8>, word: Seq<u8>, k: nat)
    requires
        alphabet.len() > 0,
        k <= word.len(),
    ensures
        number_of(alphabet, word.take(k as int)) <= number_of(alphabet, word),
    decreases word.len(),
{
    if k < word.len() {
        let front = word.drop_last();
        lemma_number_of_prefix(alphabet, front, k);
        assert(front.take(k as int) =~= word.take(k as int));
        let high = number_of(alphabet, front);
        assert(high <= high * alphabet.len()) by (nonlinear_arith)
            requires
                alphabet.len() > 0,
                high >= 0,
        ;
    } else {
        assert(word.take(k as int) =~= word);
    }
}

/// Why an alphabet and a length range do not make a keyspace.
#[derive(Debug, Clone, Copy, PartialEq, Eq, Structural)]
pub enum ConfigError {
    /// Some symbol occurs twice in the alphabet.
    DuplicateSymbol,
    /// There are more candidates than 64 bits can count.
    TooLarge,
}

/// What `Keyspace::new` answers for an alphabet and a length range.
pub open spec fn checked(space: KeyspaceView) -> Result<KeyspaceView, ConfigError> {
    if !space.alphabet.no_duplicates() {
        Err(ConfigError::DuplicateSymbol)
    } else if space.size() > u64::MAX {
        Err(ConfigError::TooLarge)
    } else {
        Ok(space)
    }
}

/// An alphabet without repetition and a closed range of lengths, small
/// enough for its candidates to be counted in 64 bits.
pub struct Keyspace {
    alphabet: Vec<u8>,
    min_len: usize,
    max_len: usize,
    size: u64,
}

impl View for Keyspace {
    type V = KeyspaceView;

    closed spec fn view(&self) -> KeyspaceView {
        KeyspaceView {
            alphabet: self.alphabet@,
            min_len: self.min_len as nat,
            max_len: self.max_len as nat,
        }
    }
}

fn has_duplicate(alphabet: &Vec<u8>) -> (r: bool)
    ensures
        r == !alphabet@.no_duplicates(),
{
    let mut seen: Vec<bool> = vec![false; 256];
    let mut i: usize = 0;
    while i < alphabet.len()
        invariant
            i <= alphabet@.len(),
            seen@.len() == 256,
            forall|b: int|
                0 <= b < 256 ==> (#[trigger] seen@[b] <==> exists|j: int|
                    0 <= j < i && alphabet@[j] == b),
            forall|j: int, k: int| 0 <= j < k < i ==> alphabet@[j] != alphabet@[k],
        decreases alphabet@.len() - i,
    {
        let symbol = alphabet[i];
        if seen[symbol as usize] {
            proof {
                let j = choose|j: int| 0 <= j < i && alphabet@[j] == symbol as int;
                assert(alphabet@[j] == alphabet@[i as int]);
            }
            return true;
        }
        seen.set(symbol as usize, true);
        proof {
            assert forall|b: int| 0 <= b < 256 implies (#[trigger] seen@[b] <==> exists|j: int|
                0 <= j < i + 1 && alphabet@[j] == b) by {
                if b == symbol as int {
                    assert(alphabet@[i as int] == b);
                } else if seen@[b] {
                    let j = choose|j: int| 0 <= j < i && alphabet@[j] == b;
                    assert(0 <= j < i + 1 && alphabet@[j] == b);
                }
            }
        }
        i += 1;
    }
    false
}

/// `radix` to the power `len`, unless that is more than 64 bits hold.
fn power(radix: u64, len: usize) -> (r: Option<u64>)
    ensures
        match r {
            Some(v) => v == words(radix as nat, len as nat),
            None => words(radix as nat, len as nat) > u64::MAX,
        },
{
    if radix == 0 {
        if len == 0 {
            return Some(1);
        }
        proof {
            lemma_words_need_symbol(0, len as nat);
        }
        return Some(0);
    }
    if radix == 1 {
        proof {
            lemma_words_unary(len as nat);
        }
        return Some(1);
    }
    let mut acc: u64 = 1;
    let mut k: usize = 0;
    while k < len
        invariant
            radix >= 2,
            k <= len,
            acc == words(radix as nat, k as nat),
        decreases len - k,
    {
        assert(words(radix as nat, (k + 1) as nat) == acc * radix) by {
            assert(radix * acc == acc * radix) by (nonlinear_arith);
        }
        match acc.checked_mul(radix) {
            None => {
                proof {
                    lemma_words_monotonic(radix as nat, (k + 1) as nat, len as nat);
                }
                return None;
            },
            Some(next) => {
                acc = next;
            },
        }
        k += 1;
    }
    Some(acc)
}

/// The number of strings whose length is in `min_len ..= max_len`, unless
/// that is more than 64 bits hold.
fn count_all(radix: u64, min_len: usize, max_len: usize) -> (r: Option<u64>)
    ensures
        match r {
            Some(v) => v == words_in(
                radix as nat,
                min_len as nat,
                lens_between(min_len as nat, max_len as nat),
            ),
            None => words_in(
                radix as nat,
                min_len as nat,
                lens_between(min_len as nat, max_len as nat),
            ) > u64::MAX,
        },
{
    let ghost lens: nat = lens_between(min_len as nat, max_len as nat);
    if min_len > max_len {
        return Some(0);
    }
    if radix == 0 {
        proof {
            lemma_words_in_no_symbol(min_len as nat, lens);
        }
        return Some(if min_len == 0 {
            1
        } else {
            0
        });
    }
    if radix == 1 {
        proof {
            lemma_words_in_unary(min_len as nat, lens);
        }
        return ((max_len - min_len) as u64).checked_add(1);
    }
    let mut count: u64 = match power(radix, min_len) {
        None => {
            proof {
                lemma_words_in_bounds(radix as nat, min_len as nat, lens, 0);
            }
            return None;
        },
        Some(v) => v,
    };
    let mut sum: u64 = 0;
    let mut len: usize = min_len;
    loop
        invariant
            radix >= 2,
            min_len <= len <= max_len,
            lens == max_len - min_len + 1,
            count == words(radix as nat, len as nat),
            sum == words_in(radix as nat, min_len as nat, (len - min_len) as nat),
        decreases max_len - len,
    {
        proof {
            lemma_words_in_bounds(radix as nat, min_len as nat, lens, (len - min_len) as nat);
            lemma_words_in_extend(radix as nat, min_len as nat, (len - min_len) as nat);
        }
        sum = match sum.checked_add(count) {
            None => {
                return None;
            },
            Some(v) => v,
        };
        if len == max_len {
            return Some(sum);
        }
        proof {
            lemma_words_in_bounds(radix as nat, min_len as nat, lens, (len + 1 - min_len) as nat);
            assert(words(radix as nat, (len + 1) as nat) == count * radix) by {
                assert(radix * count == count * radix) by (nonlinear_arith);
            }
        }
        count = match count.checked_mul(radix) {
            None => {
                return None;
            },
            Some(v) => v,
        };
        len += 1;
    }
}

impl Keyspace {
    #[verifier::type_invariant]
    spec fn inv(self) -> bool {
        self@.wf() && self.size == self@.size()
    }

    /// Makes the keyspace of all strings over `alphabet` with a length from
    /// `min_len` to `max_len`, both included. A range with `min_len` above
    /// `max_len` is empty.
    pub fn new(alphabet: Vec<u8>, min_len: usize, max_len: usize) -> (r: Result<
        Keyspace,
        ConfigError,
    >)
        ensures
            ({
                let asked = KeyspaceView {
                    alphabet: alphabet@,
                    min_len: min_len as nat,
                    max_len: max_len as nat,
                };
                match r {
                    Ok(space) => checked(asked) == Ok::<KeyspaceView, ConfigError>(space@),
                    Err(e) => checked(asked) == Err::<KeyspaceView, ConfigError>(e),
                }
            }),
    {
        if has_duplicate(&alphabet) {
            return Err(ConfigError::DuplicateSymbol);
        }
        match count_all(alphabet.len() as u64, min_len, max_len) {
            None => Err(ConfigError::TooLarge),
            Some(size) => Ok(Keyspace { alphabet, min_len, max_len, size }),
        }
    }

    /// The symbols, in the order that ranks them.
    pub fn alphabet(&self) -> (r: &[u8])
        ensures
            r@ == self@.alphabet,
            self@.wf(),
    {
        proof {
            use_type_invariant(self);
        }
        self.alphabet.as_slice()
    }

    /// The shortest length.
    pub fn min_len(&self) -> (r: usize)
        ensures
            r == self@.min_len,
            self@.wf(),
    {
        proof {
            use_type_invariant(self);
        }
        self.min_len
    }

    /// The longest length.
    pub fn max_len(&self) -> (r: usize)
        ensures
            r == self@.max_len,
            self@.wf(),
    {
        proof {
            use_type_invariant(self);
        }
        self.max_len
    }

    /// The number of strings of length `len`, unless it is more than 64
    /// bits hold.
    pub fn words(&self, len: usize) -> (r: Option<u64>)
        ensures
            match r {
                Some(v) => v == words(self@.radix(), len as nat),
                None => words(self@.radix(), len as nat) > u64::MAX,
            },
            self@.wf(),
    {
        proof {
            use_type_invariant(self);
        }
        power(self.alphabet.len() as u64, len)
    }

    /// The place of `symbol` in the alphabet, if it is there.
    pub fn rank(&self, symbol: u8) -> (r: Option<usize>)
        ensures
            r is Some <==> self@.alphabet.contains(symbol),
            r matches Some(d) ==> d < self@.radix() && self@.alphabet[d as int] == symbol && d
                == self@.alphabet.index_of(symbol),
    {
        proof {
            use_type_invariant(self);
        }
        let mut d: usize = 0;
        while d < self.alphabet.len()
            invariant
                d <= self.alphabet@.len(),
                self.alphabet@.no_duplicates(),
                forall|j: int| 0 <= j < d ==> self.alphabet@[j] != symbol,
            decreases self.alphabet@.len() - d,
        {
            if self.alphabet[d] == symbol {
                proof {
                    let found = self.alphabet@.index_of(symbol);
                    assert(self.alphabet@.contains(symbol));
                    assert(0 <= found < self.alphabet@.len() && self.alphabet@[found] == symbol);
                }
                return Some(d);
            }
            d += 1;
        }
        None
    }

    /// Writes the string of length `len` numbered `index` over `out`, and
    /// tells whether the number is below the count of such strings. When it
    /// is not, `out` is left with `len` bytes that mean nothing.
    pub fn word_into(&self, len: usize, index: u64, out: &mut Vec<u8>) -> (in_range: bool)
        ensures
            in_range == (index < words(self@.radix(), len as nat)),
            final(out)@.len() == len,
            in_range ==> final(out)@ == word_at(self@.alphabet, len as nat, index as nat),
    {
        proof {
            use_type_invariant(self);
        }
        let symbols = self.alphabet.len();
        let radix = symbols as u64;
        out.clear();
        out.resize(len, 0u8);
        if symbols == 0 {
            proof {
                if len > 0 {
                    lemma_words_need_symbol(0, len as nat);
                }
            }
            return len == 0 && index == 0;
        }
        let mut rest: u64 = index;
        let mut k: usize = len;
        assert(out@.subrange(k as int, len as int) =~= Seq::<u8>::empty());
        while k > 0
            invariant
                radix == symbols == self.alphabet@.len(),
                radix > 0,
                k <= len,
                out@.len() == len,
                word_at(self.alphabet@, len as nat, index as nat) =~= word_at(
                    self.alphabet@,
                    k as nat,
                    rest as nat,
                ) + out@.subrange(k as int, len as int),
                index < words(radix as nat, len as nat) <==> rest < words(radix as nat, k as nat),
            decreases k,
        {
            proof {
                lemma_leading_in_range(rest as nat, radix as nat, words(radix as nat, (k - 1) as nat));
            }
            let ghost before = out@;
            let ghost shorter = word_at(
                self.alphabet@,
                (k - 1) as nat,
                leading(rest as nat, radix as nat),
            );
            assert(last_digit(rest as nat, radix as nat) == rest % radix);
            assert(leading(rest as nat, radix as nat) == rest / radix);
            let symbol = self.alphabet[(rest % radix) as usize];
            out.set(k - 1, symbol);
            assert(word_at(self.alphabet@, k as nat, rest as nat) == shorter.push(symbol));
            assert(shorter.push(symbol) + before.subrange(k as int, len as int) =~= shorter
                + out@.subrange(k - 1, len as int));
            rest = rest / radix;
            k -= 1;
        }
        rest == 0
    }

    /// The string of length `len` numbered `index`, if the number is below
    /// the count of such strings.
    pub fn word(&self, len: usize, index: u64) -> (r: Option<Vec<u8>>)
        ensures
            r is Some <==> index < words(self@.radix(), len as nat),
            r matches Some(w) ==> w@ == word_at(self@.alphabet, len as nat, index as nat),
    {
        let mut out: Vec<u8> = Vec::new();
        if self.word_into(len, index, &mut out) {
            Some(out)
        } else {
            None
        }
    }

    /// The number of `word` among the strings of its length, if it is made
    /// of the alphabet's symbols and 64 bits hold the number.
    pub fn number(&self, word: &[u8]) -> (r: Option<u64>)
        ensures
            r matches Some(index) ==> over_alphabet(self@.alphabet, word@) && index == number_of(
                self@.alphabet,
                word@,
            ),
            r is None ==> !over_alphabet(self@.alphabet, word@) || number_of(
                self@.alphabet,
                word@,
            ) > u64::MAX,
    {
        proof {
            use_type_invariant(self);
        }
        let radix = self.alphabet.len() as u64;
        let mut acc: u64 = 0;
        let mut k: usize = 0;
        assert(word@.take(0) =~= Seq::<u8>::empty());
        while k < word.len()
            invariant
                radix == self.alphabet@.len(),
                k <= word@.len(),
                over_alphabet(self.alphabet@, word@.take(k as int)),
                acc == number_of(self.alphabet@, word@.take(k as int)),
            decreases word@.len() - k,
        {
            let ghost longer = word@.take(k + 1);
            proof {
                assert(longer.drop_last() =~= word@.take(k as int));
                assert(longer.last() == word@[k as int]);
            }
            let digit = match self.rank(word[k]) {
                None => {
                    return None;
                },
                Some(d) => d as u64,
            };
            proof {
                assert forall|j: int| 0 <= j < longer.len() implies self.alphabet@.contains(
                    #[trigger] longer[j],
                ) by {
                    if j < k {
                        assert(longer[j] == word@.take(k as int)[j]);
                    }
                }
                if over_alphabet(self.alphabet@, word@) {
                    lemma_number_of_prefix(self.alphabet@, word@, (k + 1) as nat);
                }
            }
            let shifted = match acc.checked_mul(radix) {
                None => {
                    return None;
                },
                Some(v) => v,
            };
            acc = match shifted.checked_add(digit) {
                None => {
                    return None;
                },
                Some(v) => v,
            };
            k += 1;
        }
        assert(word@.take(k as int) =~= word@);
        Some(acc)
    }

    /// The number of candidates.
    pub fn size(&self) -> (r: u64)
        ensures
            r == self@.size(),
            self@.wf(),
    {
        proof {
            use_type_invariant(self);
        }
        self.size
    }
}

} // verus!
