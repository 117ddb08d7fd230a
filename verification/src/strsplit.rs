//! Splits a text at each occurrence of a delimiter.
//!
//! Positions in a text are counted in bytes of its UTF-8 encoding, as `str`
//! counts them, and the contracts speak of the bytes of a text.

use crate::occurrence::{find_bytes, first_occurrence, occurs_at};
use crate::text::{char_as_text, cuts, encode_char, lemma_occurrence_on_boundaries};
use vstd::prelude::*;
use vstd::string::*;
use vstd::utf8::*;

verus! {

/// The byte range of a delimiter of `width` bytes found at `found`.
pub open spec fn delimited(found: Option<int>, width: nat) -> Option<(usize, usize)> {
    match found {
        Some(at) => Some((at as usize, (at + width) as usize)),
        None => None,
    }
}

/// A way to find the next delimiter in a text.
pub trait Delimiter {
    /// The byte range, start and end, of the next delimiter in a text with
    /// the bytes `haystack`; `None` if the text holds no delimiter.
    spec fn next_in(&self, haystack: Seq<u8>) -> Option<(usize, usize)>;

    /// Finds the next delimiter in `s`: the byte positions at which it
    /// starts and ends, both between two characters of `s`.
    fn find_next(&self, s: &str) -> (found: Option<(usize, usize)>)
        ensures
            found == self.next_in(s.spec_bytes()),
            found matches Some((start, end)) ==> cuts(s.spec_bytes(), start, end),
    ;
}

/// The byte range of the first occurrence of `needle` in `haystack`.
fn find_text(haystack: &str, needle: &[u8]) -> (found: Option<(usize, usize)>)
    requires
        valid_utf8(needle@),
    ensures
        found == delimited(first_occurrence(haystack.spec_bytes(), needle@), needle@.len()),
        found matches Some((start, end)) ==> cuts(haystack.spec_bytes(), start, end),
{
    let bytes = haystack.as_bytes();
    match find_bytes(bytes, needle) {
        Some(start) => {
            let len: usize = bytes.len();
            assert(start + needle@.len() <= len);
            proof {
                encode_utf8_valid_utf8(haystack@);
                if needle@.len() > 0 {
                    lemma_occurrence_on_boundaries(bytes@, needle@, start as int);
                } else {
                    assert(bytes@.subrange(0, 0) =~= needle@);
                    assert(occurs_at(bytes@, needle@, 0));
                }
            }
            Some((start, start + needle.len()))
        },
        None => None,
    }
}

impl Delimiter for &str {
    /// The first occurrence of this text.
    open spec fn next_in(&self, haystack: Seq<u8>) -> Option<(usize, usize)> {
        delimited(first_occurrence(haystack, self.spec_bytes()), self.spec_bytes().len())
    }

    fn find_next(&self, s: &str) -> (found: Option<(usize, usize)>) {
        proof {
            encode_utf8_valid_utf8(self@);
        }
        find_text(s, self.as_bytes())
    }
}

impl Delimiter for char {
    /// The first occurrence of this character.
    open spec fn next_in(&self, haystack: Seq<u8>) -> Option<(usize, usize)> {
        delimited(
            first_occurrence(haystack, encode_scalar(*self as u32)),
            encode_scalar(*self as u32).len(),
        )
    }

    fn find_next(&self, s: &str) -> (found: Option<(usize, usize)>) {
        let needle = encode_char(*self);
        proof {
            char_as_text(*self);
        }
        find_text(s, needle.as_slice())
    }
}

/// A character and the text that holds this character and no other delimit
/// alike.
pub proof fn char_delimits_as_its_text(c: char, text: &str, haystack: Seq<u8>)
    requires
        text@ == seq![c],
    ensures
        c.next_in(haystack) == text.next_in(haystack),
{
    char_as_text(c);
}

/// Hands out the pieces of a text that lie between its delimiters, one by
/// one. What follows the last delimiter is a piece too, empty or not.
#[derive(Debug)]
pub struct StrSplit<'haystack, D> {
    remainder: Option<&'haystack str>,
    delimiter: D,
}

impl<'haystack, D> StrSplit<'haystack, D> {
    /// The bytes of the part of the text that is still to be split; `None`
    /// once the last piece was handed out.
    pub closed spec fn remainder(&self) -> Option<Seq<u8>> {
        match self.remainder {
            Some(rest) => Some(rest.spec_bytes()),
            None => None,
        }
    }

    /// What the text is split at.
    pub closed spec fn delimiter(&self) -> D {
        self.delimiter
    }

    /// A splitter with all of `haystack` to split at `delimiter`.
    pub fn new(haystack: &'haystack str, delimiter: D) -> (split: Self)
        ensures
            split.remainder() == Some(haystack.spec_bytes()),
            split.delimiter() == delimiter,
    {
        Self { remainder: Some(haystack), delimiter }
    }
}

impl<'haystack, D: Delimiter> Iterator for StrSplit<'haystack, D> {
    type Item = &'haystack str;

    /// The next piece.
    ///
    /// With a delimiter in what is left, the piece is the text before it,
    /// and what follows the delimiter is left. Without one, the piece is all
    /// that is left, and it is the last. After the last piece, `None`.
    fn next(&mut self) -> (piece: Option<&'haystack str>)
        ensures
            final(self).delimiter() == old(self).delimiter(),
            match old(self).remainder() {
                Some(rest) => match old(self).delimiter().next_in(rest) {
                    Some((start, end)) => {
                        &&& cuts(rest, start, end)
                        &&& piece matches Some(text)
                        &&& text.spec_bytes() == rest.subrange(0, start as int)
                        &&& final(self).remainder() == Some(rest.subrange(end as int, rest.len() as int))
                    },
                    None => {
                        &&& piece matches Some(text)
                        &&& text.spec_bytes() == rest
                        &&& final(self).remainder() is None
                    },
                },
                None => piece is None && final(self).remainder() is None,
            },
    {
        if let Some(remainder) = self.remainder {
            if let Some((delim_start, delim_end)) = self.delimiter.find_next(remainder) {
                let until_delimiter = remainder.split_at(delim_start).0;
                self.remainder = Some(remainder.split_at(delim_end).1);
                Some(until_delimiter)
            } else {
                self.remainder.take()
            }
        } else {
            None
        }
    }
}

/// A splitter need not come to an end: an empty delimiter is found at the
/// start of what is left, again and again. So it does not claim the laws of
/// an iterator that ends; what each call does is stated at `next`.
impl<'haystack, D: Delimiter> vstd::std_specs::iter::IteratorSpecImpl for StrSplit<'haystack, D> {
    open spec fn obeys_prophetic_iter_laws(&self) -> bool {
        false
    }

    open spec fn remaining(&self) -> Seq<&'haystack str> {
        Seq::empty()
    }

    open spec fn will_return_none(&self) -> bool {
        false
    }

    open spec fn decrease(&self) -> Option<nat> {
        None
    }

    open spec fn initial_value_relation(&self, init: &Self) -> bool {
        self == init
    }

    open spec fn peek(&self, index: int) -> Option<&'haystack str> {
        None
    }
}

/// The part of `s` before the first `c`; all of `s` where it holds no `c`.
pub fn until_char(s: &str, c: char) -> (head: &str)
    ensures
        head.spec_bytes() == match c.next_in(s.spec_bytes()) {
            Some((start, _)) => s.spec_bytes().subrange(0, start as int),
            None => s.spec_bytes(),
        },
        c.next_in(s.spec_bytes()) matches Some((start, end)) ==> cuts(s.spec_bytes(), start, end),
{
    let mut split = StrSplit::new(s, c);
    split.next().unwrap()
}

} // verus!
