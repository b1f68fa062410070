//! The candidate enumerator: a walk through a keyspace, or through one
//! shard of it, that hands out one candidate at a time.

use crate::keyspace::{
    all_words, lemma_all_words_no_symbol, lemma_words_in_bounds, lemma_words_positive, segment,
    words, Keyspace, KeyspaceView,
};
use crate::shard::Shard;
use vstd::prelude::*;

verus! {

/// A walk through candidates in order: all of a keyspace, or one shard.
#[derive(Clone, Copy)]
pub struct Enumerator<'a> {
    space: &'a Keyspace,
    len: usize,
    next: u64,
    end: u64,
    full: u64,
    last_len: usize,
    done: bool,
}

impl<'a> Enumerator<'a> {
    #[verifier::type_invariant]
    spec fn inv(self) -> bool {
        &&& self.space@.wf()
        &&& !self.done ==> {
            &&& self.space@.min_len <= self.len <= self.last_len <= self.space@.max_len
            &&& self.next <= self.end <= self.full
            &&& self.full == words(self.space@.radix(), self.len as nat)
        }
    }

    /// The keyspace that the candidates are drawn from.
    pub closed spec fn space(&self) -> KeyspaceView {
        self.space@
    }

    /// The candidates still to come, in order.
    pub closed spec fn remaining(&self) -> Seq<Seq<u8>> {
        if self.done {
            Seq::empty()
        } else {
            segment(self.space@.alphabet, self.len as nat, self.next as nat, self.end as nat)
                + all_words(
                self.space@.alphabet,
                (self.len + 1) as nat,
                (self.last_len - self.len) as nat,
            )
        }
    }

    /// A walk through every candidate of `space`.
    pub fn new(space: &'a Keyspace) -> (r: Self)
        ensures
            r.space() == space@,
            r.remaining() == space@.enumeration(),
    {
        if space.min_len() > space.max_len() {
            return Enumerator {
                space,
                len: 0,
                next: 0,
                end: 0,
                full: 0,
                last_len: 0,
                done: true,
            };
        }
        proof {
            lemma_words_in_bounds(space@.radix(), space@.min_len, space@.lens(), 0);
        }
        match space.words(space.min_len()) {
            None => Enumerator {
                space,
                len: 0,
                next: 0,
                end: 0,
                full: 0,
                last_len: 0,
                done: true,
            },
            Some(full) => Enumerator {
                space,
                len: space.min_len(),
                next: 0,
                end: full,
                full,
                last_len: space.max_len(),
                done: false,
            },
        }
    }

    /// A walk through the candidates of `shard`, if it lies within `space`.
    pub fn over(space: &'a Keyspace, shard: Shard) -> (r: Option<Self>)
        ensures
            r is Some <==> shard.within(space@),
            r matches Some(walk) ==> walk.space() == space@ && walk.remaining() == shard.words(
                space@.alphabet,
            ),
    {
        if shard.len < space.min_len() || shard.len > space.max_len() || shard.start > shard.end {
            return None;
        }
        proof {
            lemma_words_in_bounds(
                space@.radix(),
                space@.min_len,
                space@.lens(),
                (shard.len - space@.min_len) as nat,
            );
        }
        match space.words(shard.len) {
            None => None,
            Some(full) => {
                if shard.end > full {
                    return None;
                }
                let walk = Enumerator {
                    space,
                    len: shard.len,
                    next: shard.start,
                    end: shard.end,
                    full,
                    last_len: shard.len,
                    done: false,
                };
                assert(all_words(space@.alphabet, (shard.len + 1) as nat, 0) =~= Seq::<
                    Seq<u8>,
                >::empty());
                assert(walk.remaining() =~= shard.words(space@.alphabet));
                Some(walk)
            },
        }
    }

    /// Writes the next candidate over `out`, or leaves `out` alone and tells
    /// `false` once all have been handed out.
    pub fn next_into(&mut self, out: &mut Vec<u8>) -> (more: bool)
        ensures
            final(self).space() == old(self).space(),
            more == (old(self).remaining().len() > 0),
            more ==> final(out)@ == old(self).remaining()[0] && final(self).remaining() == old(
                self,
            ).remaining().drop_first(),
            !more ==> final(out)@ == old(out)@ && final(self).remaining().len() == 0,
    {
        proof {
            use_type_invariant(&*self);
        }
        if self.done {
            return false;
        }
        let ghost alphabet = self.space@.alphabet;
        let ghost start = self.remaining();
        if self.next == self.end {
            if self.len == self.last_len {
                proof {
                    assert(all_words(alphabet, (self.len + 1) as nat, 0) =~= Seq::<
                        Seq<u8>,
                    >::empty());
                    assert(start =~= Seq::<Seq<u8>>::empty());
                }
                *self = Enumerator { done: true, ..*self };
                return false;
            }
            proof {
                lemma_words_in_bounds(
                    self.space@.radix(),
                    self.space@.min_len,
                    self.space@.lens(),
                    (self.len + 1 - self.space@.min_len) as nat,
                );
                assert(words(self.space@.radix(), (self.len + 1) as nat) == self.full
                    * self.space@.radix()) by {
                    assert(self.space@.radix() * self.full == self.full * self.space@.radix())
                        by (nonlinear_arith);
                }
            }
            let full = self.full * (self.space.alphabet().len() as u64);
            if full == 0 {
                proof {
                    if self.space@.radix() > 0 {
                        lemma_words_positive(self.space@.radix(), (self.len + 1) as nat);
                    }
                    lemma_all_words_no_symbol(
                        alphabet,
                        (self.len + 1) as nat,
                        (self.last_len - self.len) as nat,
                    );
                    assert(start =~= Seq::<Seq<u8>>::empty());
                }
                *self = Enumerator { done: true, ..*self };
                return false;
            }
            *self = Enumerator { len: self.len + 1, next: 0, end: full, full, ..*self };
            proof {
                assert(self.remaining() =~= start);
            }
        }
        let in_range = self.space.word_into(self.len, self.next, out);
        assert(in_range);
        *self = Enumerator { next: self.next + 1, ..*self };
        proof {
            assert(start[0] == out@);
            assert(self.remaining() =~= start.drop_first());
        }
        true
    }

    /// Hands out the next candidate, or `None` once all have been handed
    /// out.
    pub fn next(&mut self) -> (r: Option<Vec<u8>>)
        ensures
            final(self).space() == old(self).space(),
            old(self).remaining().len() == 0 ==> r is None && final(self).remaining().len() == 0,
            old(self).remaining().len() > 0 ==> r is Some && r.unwrap()@ == old(
                self,
            ).remaining()[0] && final(self).remaining() == old(self).remaining().drop_first(),
    {
        let mut out: Vec<u8> = Vec::new();
        if self.next_into(&mut out) {
            Some(out)
        } else {
            None
        }
    }
}

} // verus!
