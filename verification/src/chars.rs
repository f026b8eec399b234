//! Characters as code points, and sets of them.
use std::collections::HashSet;
use vstd::prelude::*;

verus! {

broadcast use {vstd::std_specs::hash::group_hash_axioms, vstd::set::group_set_axioms};

/// A code point that is a Unicode scalar value, that is, one a `char` can hold.
pub open spec fn is_scalar(code: int) -> bool {
    0 <= code <= 0xD7FF || 0xE000 <= code <= 0x10FFFF
}

/// A code point that fits one UTF-16 unit.
pub open spec fn in_bmp(c: char) -> bool {
    c as int <= 0xFFFF
}

/// A character is its code point, which is a Unicode scalar value.
pub proof fn lemma_char_code(c: char)
    ensures
        c as u32 == c as int,
        is_scalar(c as int),
{
}

/// The set of a prefix grows by the next element.
proof fn lemma_take_one_more<A>(s: Seq<A>, i: int)
    requires
        0 <= i < s.len(),
    ensures
        s.take(i + 1).to_set() == s.take(i).to_set().insert(s[i]),
{
    let (shorter, longer) = (s.take(i), s.take(i + 1));
    assert forall|x: A| longer.to_set().contains(x) == #[trigger] shorter.to_set().insert(
        s[i],
    ).contains(x) by {
        if shorter.contains(x) {
            let k = choose|k: int| 0 <= k < i && shorter[k] == x;
            assert(longer[k] == x);
        }
        assert(longer[i] == s[i]);
    }
    assert(longer.to_set() =~= shorter.to_set().insert(s[i]));
}

/// `char::from_u32`: the character of a code point, and `None` exactly for the
/// numbers that are no Unicode scalar value.
pub assume_specification[ char::from_u32 ](i: u32) -> (c: Option<char>)
    ensures
        c == (if is_scalar(i as int) {
            Some(i as char)
        } else {
            None::<char>
        }),
;

/// `String::push`: appends the character to the end of the string.
pub assume_specification[ String::push ](s: &mut String, ch: char)
    ensures
        final(s)@ == old(s)@.push(ch),
;

/// A set of characters, held by code point.
#[derive(Debug)]
pub struct CharSet {
    codes: HashSet<u32>,
}

impl View for CharSet {
    type V = Set<char>;

    closed spec fn view(&self) -> Set<char> {
        Set::new(|c: char| self.codes@.contains(c as u32))
    }
}

impl CharSet {
    pub fn new() -> (set: Self)
        ensures
            set@ == Set::<char>::empty(),
    {
        let set = CharSet { codes: HashSet::new() };
        assert(set@ =~= Set::<char>::empty());
        set
    }

    /// Adds `c`; `true` when it was not there yet.
    pub fn insert(&mut self, c: char) -> (fresh: bool)
        ensures
            final(self)@ == old(self)@.insert(c),
            fresh == !old(self)@.contains(c),
    {
        let fresh = self.codes.insert(c as u32);
        assert(self@ =~= old(self)@.insert(c)) by {
            assert forall|x: char| #[trigger] self@.contains(x) == old(self)@.insert(c).contains(
                x,
            ) by {
                lemma_char_code(x);
            }
        }
        fresh
    }

    pub fn contains(&self, c: char) -> (found: bool)
        ensures
            found == self@.contains(c),
    {
        self.codes.contains(&(c as u32))
    }

    /// Adds every character of `text`.
    pub fn extend(&mut self, text: &str)
        ensures
            final(self)@ == old(self)@.union(text@.to_set()),
    {
        let ghost before = self@;
        assert(before.union(text@.take(0).to_set()) =~= before);
        for c in chars: text.chars()
            invariant
                chars.seq() == text@,
                self@ == before.union(text@.take(chars.index() as int).to_set()),
        {
            self.insert(c);
            proof {
                lemma_take_one_more(text@, chars.index() as int);
            }
        }
        assert(text@.take(text@.len() as int) =~= text@);
    }

    /// Adds every character of `other`.
    pub fn merge(&mut self, other: &CharSet)
        ensures
            final(self)@ == old(self)@.union(other@),
    {
        let ghost before = self.codes@;
        for code in codes: other.codes.iter()
            invariant
                codes.seq().unref().to_set() == other.codes@,
                self.codes@ == before.union(
                    codes.seq().unref().take(codes.index() as int).to_set(),
                ),
                codes.index() == codes.seq().len() ==> self.codes@ == before.union(other.codes@),
        {
            self.codes.insert(*code);
            proof {
                let all = codes.seq().unref();
                lemma_take_one_more(all, codes.index() as int);
                assert(all.take(all.len() as int) =~= all);
            }
        }
        assert(self@ =~= old(self)@.union(other@));
    }
}

/// The Unicode scalar values are what a character can be: a number is one exactly
/// where there is a character of that number.
pub proof fn law_scalar_values_are_the_characters(code: int, c: char)
    ensures
        is_scalar(code) <==> (code as char) as int == code,
        is_scalar(c as int),
{
}

} // verus!
