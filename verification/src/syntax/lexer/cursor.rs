//! A cursor over the characters of the source text, and a lookahead of two
//! items over any iterator.
use vstd::prelude::*;
use vstd::std_specs::iter::IteratorSpec;

use crate::text::{
    byte_len, byte_offset, char_width, chars_of, lemma_byte_offset_mono, lemma_byte_offset_step,
    lemma_encode_utf8_len,
};

verus! {

/// An iterator that can show its next two items before giving them.
pub struct Lookahead<I: Iterator> {
    iter: I,
    first: Option<I::Item>,
    second: Option<I::Item>,
}

/// The items of an optional item: none or one.
pub open spec fn opt_seq<T>(o: Option<T>) -> Seq<T> {
    match o {
        Some(x) => seq![x],
        None => Seq::empty(),
    }
}

/// The first item of `s`, if any.
pub open spec fn head<T>(s: Seq<T>) -> Option<T> {
    if s.len() > 0 {
        Some(s[0])
    } else {
        None
    }
}

impl<I: Iterator> Lookahead<I> {
    /// The next item, shown by `peek`.
    pub closed spec fn shown(&self) -> Option<I::Item> {
        self.first
    }

    /// The item after it, shown by `peek_2`.
    pub closed spec fn shown_2(&self) -> Option<I::Item> {
        self.second
    }

    /// The inner iterator, which holds the items after those shown.
    pub closed spec fn inner(&self) -> I {
        self.iter
    }

    /// Takes the first two items of `iter` to show.
    pub fn new(iter: I) -> (r: Self)
        ensures
            r.inner().obeys_prophetic_iter_laws() == iter.obeys_prophetic_iter_laws(),
            iter.obeys_prophetic_iter_laws() ==> opt_seq(r.shown()) + opt_seq(r.shown_2())
                + r.inner().remaining() == iter.remaining(),
            iter.obeys_prophetic_iter_laws() ==> r.shown() == head(iter.remaining()),
            iter.obeys_prophetic_iter_laws() ==> r.shown_2() == (if iter.remaining().len() > 1 {
                Some(iter.remaining()[1])
            } else {
                None
            }),
    {
        let mut iter = iter;
        let ghost rem = iter.remaining();
        let first = iter.next();
        let ghost rem1 = iter.remaining();
        let second = iter.next();
        proof {
            if iter.obeys_prophetic_iter_laws() && rem.len() > 0 {
                assert(rem1 =~= rem.drop_first());
            }
            if iter.obeys_prophetic_iter_laws() {
                assert(opt_seq(first) + opt_seq(second) + iter.remaining() =~= rem);
            }
        }
        Self { iter, first, second }
    }

    /// The next item, without giving it.
    pub fn peek(&self) -> (r: Option<&I::Item>)
        ensures
            r is Some <==> self.shown() is Some,
            r is Some ==> *r->0 == self.shown()->0,
    {
        self.first.as_ref()
    }

    /// The item after the next one, without giving either.
    pub fn peek_2(&self) -> (r: Option<&I::Item>)
        ensures
            r is Some <==> self.shown_2() is Some,
            r is Some ==> *r->0 == self.shown_2()->0,
    {
        self.second.as_ref()
    }

    /// Gives the next item, and shows the one after the one shown second.
    /// What was to come, with the item given in front, stays what it was.
    pub fn next(&mut self) -> (r: Option<I::Item>)
        ensures
            r == old(self).shown(),
            final(self).shown() == old(self).shown_2(),
            final(self).inner().obeys_prophetic_iter_laws() == old(
                self,
            ).inner().obeys_prophetic_iter_laws(),
            old(self).inner().obeys_prophetic_iter_laws() ==> final(self).shown_2() == head(
                old(self).inner().remaining(),
            ),
            old(self).inner().obeys_prophetic_iter_laws() ==> opt_seq(r) + opt_seq(
                final(self).shown(),
            ) + opt_seq(final(self).shown_2()) + final(self).inner().remaining() == opt_seq(
                old(self).shown(),
            ) + opt_seq(old(self).shown_2()) + old(self).inner().remaining(),
    {
        let ghost rem = self.iter.remaining();
        let out = self.first.take();
        self.first = self.second.take();
        self.second = self.iter.next();
        proof {
            if self.iter.obeys_prophetic_iter_laws() && rem.len() > 0 {
                assert(opt_seq(self.second) + self.iter.remaining() =~= rem);
            }
            if self.iter.obeys_prophetic_iter_laws() {
                assert(opt_seq(out) + opt_seq(self.first) + opt_seq(self.second)
                    + self.iter.remaining() =~= opt_seq(out) + opt_seq(self.first) + rem);
            }
        }
        out
    }
}

/// Reads the characters of a source text one at a time, keeping the byte
/// offset of the end of the last one read.
#[derive(Debug, Clone)]
pub struct SourceReader {
    chars: Vec<char>,
    idx: usize,
    pos: usize,
}

impl SourceReader {
    /// The source text.
    pub closed spec fn source(&self) -> Seq<char> {
        self.chars@
    }

    /// How many characters have been read.
    pub closed spec fn index(&self) -> int {
        self.idx as int
    }

    pub closed spec fn wf(&self) -> bool {
        &&& self.idx <= self.chars.len()
        &&& self.pos == byte_offset(self.chars@, self.idx as int)
        &&& byte_len(self.chars@) <= usize::MAX
    }

    /// A reader in the state its invariant allows has read at most all of
    /// its text.
    pub proof fn lemma_wf(&self)
        requires
            self.wf(),
        ensures
            0 <= self.index() <= self.source().len(),
            byte_len(self.source()) <= usize::MAX,
    {
    }

    pub fn new(input: &str) -> (r: Self)
        ensures
            r.wf(),
            r.source() == input@,
            r.index() == 0,
    {
        Self { chars: chars_of(input), idx: 0, pos: 0 }
    }

    /// Reads the next character, if there is one.
    pub fn next(&mut self) -> (r: Option<char>)
        requires
            old(self).wf(),
        ensures
            final(self).wf(),
            final(self).source() == old(self).source(),
            r == (if old(self).index() < old(self).source().len() {
                Some(old(self).source()[old(self).index()])
            } else {
                None
            }),
            final(self).index() == (if old(self).index() < old(self).source().len() {
                old(self).index() + 1
            } else {
                old(self).index()
            }),
    {
        if self.idx < self.chars.len() {
            let c = self.chars[self.idx];
            proof {
                lemma_byte_offset_step(self.chars@, self.idx as int);
                lemma_byte_offset_mono(self.chars@, self.idx + 1, self.chars@.len() as int);
            }
            self.pos = self.pos + char_width(c);
            self.idx = self.idx + 1;
            Some(c)
        } else {
            None
        }
    }

    /// The next character, without reading it.
    pub fn peek(&self) -> (r: Option<&char>)
        requires
            self.wf(),
        ensures
            r == (if self.index() < self.source().len() {
                Some(&self.source()[self.index()])
            } else {
                None
            }),
    {
        if self.idx < self.chars.len() {
            Some(&self.chars[self.idx])
        } else {
            None
        }
    }

    /// The character after the next one, without reading either.
    pub fn peek_2(&self) -> (r: Option<&char>)
        requires
            self.wf(),
        ensures
            r == (if self.index() + 1 < self.source().len() {
                Some(&self.source()[self.index() + 1])
            } else {
                None
            }),
    {
        if self.idx < self.chars.len() && self.idx + 1 < self.chars.len() {
            Some(&self.chars[self.idx + 1])
        } else {
            None
        }
    }

    /// Reads the rest of the text, calling `next` until it gives `None`: the
    /// characters it gives are, in order, those of the text from where the
    /// reader stood to its end, and the reader then stands at the end, where
    /// every further `next` gives `None` and changes nothing.
    pub fn read_to_end(&mut self) -> (v: Vec<char>)
        requires
            old(self).wf(),
        ensures
            final(self).wf(),
            final(self).source() == old(self).source(),
            final(self).index() == final(self).source().len(),
            v@ == old(self).source().subrange(old(self).index(), old(self).source().len() as int),
    {
        let ghost s = self.source();
        let ghost i0 = self.index();
        proof {
            self.lemma_wf();
        }
        let mut v: Vec<char> = Vec::new();
        loop
            invariant
                self.wf(),
                self.source() == s,
                0 <= i0 <= self.index() <= s.len(),
                v@ == s.subrange(i0, self.index()),
            ensures
                self.wf(),
                self.source() == s,
                self.index() == s.len(),
                v@ == s.subrange(i0, s.len() as int),
            decreases s.len() - self.index(),
        {
            let ghost before = self.index();
            match self.next() {
                Some(c) => {
                    assert(before < s.len() && c == s[before]);
                    v.push(c);
                    assert(v@ =~= s.subrange(i0, before).push(s[before]));
                    assert(s.subrange(i0, before).push(s[before]) =~= s.subrange(i0, before + 1));
                },
                None => {
                    break;
                },
            }
        }
        v
    }

    /// How many characters have been read.
    pub(crate) fn char_index(&self) -> (r: usize)
        ensures
            r == self.index(),
    {
        self.idx
    }

    /// The characters of the source text.
    pub(crate) fn text(&self) -> (r: &Vec<char>)
        ensures
            r@ == self.source(),
    {
        &self.chars
    }

    /// A reader in the same state.
    pub(crate) fn duplicate(&self) -> (r: SourceReader)
        ensures
            r.source() == self.source(),
            r.index() == self.index(),
            r.wf() == self.wf(),
    {
        let chars = self.chars.clone();
        assert(chars@ == self.chars@);
        SourceReader { chars, idx: self.idx, pos: self.pos }
    }

    /// The byte offset of the end of the last character read: the total
    /// UTF-8 width of the characters read.
    pub fn pos(&self) -> (r: usize)
        requires
            self.wf(),
        ensures
            r == byte_offset(self.source(), self.index()),
    {
        self.pos
    }
}

/// A reader made from `input` that has read all of it stands at byte
/// `input.len()`: the end of a text is its UTF-8 byte length.
pub proof fn lemma_end_is_byte_length(r: SourceReader, input: &str)
    requires
        r.wf(),
        r.source() == input@,
        r.index() == r.source().len(),
    ensures
        byte_offset(r.source(), r.index()) == input.len(),
{
    lemma_encode_utf8_len(input@);
}

} // verus!
