//! The word-list source: splits a supplied string on runs of whitespace
//! and yields each token once, in order, duplicates kept verbatim.

use vstd::prelude::*;
use vstd::string::StrSliceExecFns;
use crate::sources::VecCompletion;

verus! {

/// Whether a character has the Unicode whitespace property.
pub uninterp spec fn is_unicode_space(c: char) -> bool;

/// Relies on char::is_whitespace: whether the character has the Unicode
/// whitespace property, a function of the character alone.
#[verifier::external_body]
fn is_space(c: char) -> (r: bool)
    ensures
        r == is_unicode_space(c),
{
    c.is_whitespace()
}

/// The tokens of `s` from position `i` on, with `cur` the partial token
/// read so far: maximal runs of non-whitespace characters, in order.
pub open spec fn tokens_from(s: Seq<char>, i: int, cur: Seq<char>) -> Seq<Seq<char>>
    decreases s.len() - i,
{
    if i < 0 || i >= s.len() {
        if cur.len() > 0 {
            seq![cur]
        } else {
            Seq::empty()
        }
    } else if is_unicode_space(s[i]) {
        (if cur.len() > 0 {
            seq![cur]
        } else {
            Seq::empty()
        }) + tokens_from(s, i + 1, Seq::empty())
    } else {
        tokens_from(s, i + 1, cur.push(s[i]))
    }
}

/// The whitespace-separated tokens of `s`, in order, duplicates kept.
pub open spec fn split_words(s: Seq<char>) -> Seq<Seq<char>> {
    tokens_from(s, 0, Seq::empty())
}

/// A lazy source over the whitespace-separated tokens of a word list.
pub struct WordListCompletion {
    _inner: VecCompletion<String>,
}

impl WordListCompletion {
    /// The tokens not yet yielded.
    pub closed spec fn remaining(self) -> Seq<Seq<char>> {
        self._inner.remaining()
    }

    /// Splits `wordlist` on runs of whitespace, ready to yield each
    /// token in order.
    pub fn new(wordlist: &str) -> (r: WordListCompletion)
        ensures
            r.remaining() == split_words(wordlist@),
    {
        let ghost s = wordlist@;
        let len = wordlist.unicode_len();
        let mut elements: Vec<String> = Vec::new();
        let mut in_token = false;
        let mut start: usize = 0;
        let mut i: usize = 0;
        proof {
            assert(Seq::<char>::empty() =~= s.subrange(0, 0));
        }
        while i < len
            invariant
                s == wordlist@,
                len == s.len(),
                i <= len,
                in_token ==> start < i,
                elements.deep_view() + tokens_from(
                    s,
                    i as int,
                    if in_token {
                        s.subrange(start as int, i as int)
                    } else {
                        Seq::empty()
                    },
                ) =~= split_words(s),
            decreases len - i,
        {
            let ghost cur = if in_token {
                s.subrange(start as int, i as int)
            } else {
                Seq::<char>::empty()
            };
            let c = wordlist.get_char(i);
            if is_space(c) {
                if in_token {
                    let tok = wordlist.substring_char(start, i).to_owned();
                    let ghost dv0 = elements.deep_view();
                    elements.push(tok);
                    proof {
                        assert(elements.deep_view() =~= dv0.push(cur));
                        assert(tokens_from(s, i as int, cur) == seq![cur] + tokens_from(
                            s,
                            i + 1,
                            Seq::empty(),
                        ));
                        assert(dv0.push(cur) =~= dv0 + seq![cur]);
                        assert(elements.deep_view() + tokens_from(s, i + 1, Seq::empty())
                            =~= split_words(s));
                    }
                    in_token = false;
                } else {
                    proof {
                        assert(tokens_from(s, i as int, cur) == Seq::<Seq<char>>::empty()
                            + tokens_from(s, i + 1, Seq::empty()));
                        assert(Seq::<Seq<char>>::empty() + tokens_from(s, i + 1, Seq::empty())
                            =~= tokens_from(s, i + 1, Seq::empty()));
                    }
                }
            } else {
                if !in_token {
                    in_token = true;
                    start = i;
                }
                proof {
                    assert(cur.push(s[i as int]) =~= s.subrange(start as int, i + 1));
                    assert(tokens_from(s, i as int, cur) == tokens_from(
                        s,
                        i + 1,
                        cur.push(s[i as int]),
                    ));
                }
            }
            i += 1;
        }
        if in_token {
            let tok = wordlist.substring_char(start, len).to_owned();
            let ghost dv0 = elements.deep_view();
            let ghost cur = s.subrange(start as int, len as int);
            elements.push(tok);
            proof {
                assert(elements.deep_view() =~= dv0.push(cur));
                assert(tokens_from(s, len as int, cur) == seq![cur]);
                assert(dv0.push(cur) =~= dv0 + seq![cur]);
                assert(elements.deep_view() =~= split_words(s));
            }
        } else {
            proof {
                assert(tokens_from(s, len as int, Seq::<char>::empty()) =~= Seq::<
                    Seq<char>,
                >::empty());
                assert(elements.deep_view() + Seq::<Seq<char>>::empty() =~= elements.deep_view());
            }
        }
        let inner = VecCompletion::from_elements(elements);
        proof {
            assert(inner.remaining() =~= split_words(s));
        }
        WordListCompletion { _inner: inner }
    }

    /// Yields the next token, or `None` once the word list is exhausted.
    pub fn next(&mut self) -> (r: Option<String>)
        ensures
            old(self).remaining().len() == 0 ==> r is None && final(self).remaining().len() == 0,
            old(self).remaining().len() > 0 ==> {
                &&& r matches Some(s) && s@ == old(self).remaining()[0]
                &&& final(self).remaining() == old(self).remaining().drop_first()
            },
    {
        self._inner.next()
    }
}

} // verus!
