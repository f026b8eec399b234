//! The remap table and the rewriting of strings through it.
use crate::chars::is_scalar;
use vstd::prelude::*;

verus! {

broadcast use {vstd::map::group_map_axioms, vstd::set::group_set_axioms};

/// No two pairs have the same key.
pub open spec fn distinct_keys(pairs: Seq<(u16, u16)>) -> bool {
    forall|i: int, j: int|
        #![trigger pairs[i], pairs[j]]
        0 <= i < j < pairs.len() ==> pairs[i].0 != pairs[j].0
}

/// Both halves of every pair are characters.
pub open spec fn scalar_pairs(pairs: Seq<(u16, u16)>) -> bool {
    forall|i: int|
        #![trigger pairs[i]]
        0 <= i < pairs.len() ==> is_scalar(pairs[i].0 as int) && is_scalar(pairs[i].1 as int)
}

/// The keys rise from pair to pair.
pub open spec fn ascending(pairs: Seq<(u16, u16)>) -> bool {
    forall|i: int, j: int|
        #![trigger pairs[i], pairs[j]]
        0 <= i < j < pairs.len() ==> pairs[i].0 < pairs[j].0
}

/// What the pairs map each substitute character to.
pub open spec fn mapping(pairs: Seq<(u16, u16)>) -> Map<char, char>
    decreases pairs.len(),
{
    if pairs.len() == 0 {
        Map::empty()
    } else {
        mapping(pairs.drop_last()).insert(pairs.last().0 as char, pairs.last().1 as char)
    }
}

/// The character shown in place of `c`: its real one where `c` is a substitute,
/// `c` itself otherwise.
pub open spec fn rewritten(table: Map<char, char>, c: char) -> char {
    if table.contains_key(c) {
        table[c]
    } else {
        c
    }
}

/// `text` with every substitute rewritten.
pub open spec fn remapped(table: Map<char, char>, text: Seq<char>) -> Seq<char> {
    text.map_values(|c: char| rewritten(table, c))
}

/// What holds of the pairs holds of all but the last of them.
proof fn lemma_front(pairs: Seq<(u16, u16)>)
    requires
        pairs.len() > 0,
    ensures
        scalar_pairs(pairs) ==> scalar_pairs(pairs.drop_last()),
        distinct_keys(pairs) ==> distinct_keys(pairs.drop_last()),
        ascending(pairs) ==> ascending(pairs.drop_last()),
{
    let front = pairs.drop_last();
    assert(forall|i: int| 0 <= i < front.len() ==> #[trigger] front[i] == pairs[i]);
}

/// The substitutes of `pairs` are exactly the keys of its mapping.
pub proof fn lemma_mapping_keys(pairs: Seq<(u16, u16)>, c: char)
    requires
        scalar_pairs(pairs),
    ensures
        mapping(pairs).contains_key(c) <==> exists|i: int|
            #![trigger pairs[i]]
            0 <= i < pairs.len() && pairs[i].0 as int == c as int,
    decreases pairs.len(),
{
    if pairs.len() > 0 {
        let front = pairs.drop_last();
        lemma_front(pairs);
        lemma_mapping_keys(front, c);
        let last = pairs[pairs.len() - 1];
        if mapping(front).contains_key(c) {
            let i = choose|i: int|
                #![trigger front[i]]
                0 <= i < front.len() && front[i].0 as int == c as int;
            assert(pairs[i].0 as int == c as int);
        }
        if exists|i: int| #![trigger pairs[i]] 0 <= i < pairs.len() && pairs[i].0 as int == c as int {
            let i = choose|i: int|
                #![trigger pairs[i]]
                0 <= i < pairs.len() && pairs[i].0 as int == c as int;
            if i < pairs.len() - 1 {
                assert(front[i].0 as int == c as int);
            }
        }
    }
}

/// A pair's key is mapped to its target.
pub proof fn lemma_mapping_value(pairs: Seq<(u16, u16)>, i: int)
    requires
        scalar_pairs(pairs),
        distinct_keys(pairs),
        0 <= i < pairs.len(),
    ensures
        mapping(pairs).contains_key(pairs[i].0 as char),
        mapping(pairs)[pairs[i].0 as char] == pairs[i].1 as char,
    decreases pairs.len(),
{
    if i < pairs.len() - 1 {
        let front = pairs.drop_last();
        lemma_front(pairs);
        lemma_mapping_value(front, i);
        assert(pairs[i].0 != pairs[pairs.len() - 1].0);
    }
}

/// A mapping has one entry per pair.
pub proof fn lemma_mapping_size(pairs: Seq<(u16, u16)>)
    requires
        scalar_pairs(pairs),
        distinct_keys(pairs),
    ensures
        mapping(pairs).dom().finite(),
        mapping(pairs).dom().len() == pairs.len(),
    decreases pairs.len(),
{
    if pairs.len() > 0 {
        let front = pairs.drop_last();
        let last = pairs.last().0 as char;
        lemma_front(pairs);
        lemma_mapping_size(front);
        lemma_mapping_keys(front, last);
        if mapping(front).contains_key(last) {
            let i = choose|i: int|
                #![trigger front[i]]
                0 <= i < front.len() && front[i].0 as int == last as int;
            assert(pairs[i].0 == pairs[pairs.len() - 1].0);
        }
        assert(mapping(pairs).dom() =~= mapping(front).dom().insert(last));
    }
}

/// Pairs that hold the same entries in another order map the same.
proof fn lemma_mapping_reordered(a: Seq<(u16, u16)>, b: Seq<(u16, u16)>)
    requires
        scalar_pairs(a),
        distinct_keys(a),
        a.to_multiset() == b.to_multiset(),
    ensures
        scalar_pairs(b),
        distinct_keys(b),
        a.len() == b.len(),
        mapping(a) == mapping(b),
{
    broadcast use vstd::seq_lib::group_to_multiset_ensures;

    assert forall|i: int| 0 <= i < b.len() implies #[trigger] a.contains(b[i]) by {
        assert(b.contains(b[i]));
        assert(b.to_multiset().count(b[i]) > 0);
    }
    assert forall|i: int| 0 <= i < a.len() implies #[trigger] b.contains(a[i]) by {
        assert(a.contains(a[i]));
        assert(a.to_multiset().count(a[i]) > 0);
    }
    assert forall|i: int| #![trigger b[i]] 0 <= i < b.len() implies is_scalar(b[i].0 as int)
        && is_scalar(b[i].1 as int) by {
        assert(a.contains(b[i]));
    }
    assert(a.no_duplicates()) by {
        assert forall|i: int, j: int| 0 <= i < a.len() && 0 <= j < a.len() && i != j implies a[i]
            != a[j] by {}
    }
    a.lemma_multiset_has_no_duplicates();
    b.lemma_multiset_has_no_duplicates_conv();
    assert forall|i: int, j: int|
        #![trigger b[i], b[j]]
        0 <= i < j < b.len() implies b[i].0 != b[j].0 by {
        assert(a.contains(b[i]) && a.contains(b[j]));
        let k = choose|k: int| 0 <= k < a.len() && a[k] == b[i];
        let l = choose|l: int| 0 <= l < a.len() && a[l] == b[j];
        assert(b[i] != b[j]);
    }
    vstd::seq_lib::to_multiset_len(a);
    vstd::seq_lib::to_multiset_len(b);
    assert forall|c: char| #[trigger] mapping(a).dom().contains(c) implies mapping(b).contains_key(c)
        && mapping(a)[c] == mapping(b)[c] by {
        lemma_mapping_keys(a, c);
        let i = choose|i: int| #![trigger a[i]] 0 <= i < a.len() && a[i].0 as int == c as int;
        assert(b.contains(a[i]));
        let k = choose|k: int| 0 <= k < b.len() && b[k] == a[i];
        lemma_mapping_value(a, i);
        lemma_mapping_value(b, k);
        assert(a[i].0 as char == c);
    }
    assert forall|c: char| #[trigger] mapping(b).dom().contains(c) implies mapping(a).contains_key(
        c,
    ) by {
        lemma_mapping_keys(b, c);
        let i = choose|i: int| #![trigger b[i]] 0 <= i < b.len() && b[i].0 as int == c as int;
        assert(a.contains(b[i]));
        let k = choose|k: int| 0 <= k < a.len() && a[k] == b[i];
        lemma_mapping_value(a, k);
        assert(b[i].0 as char == c);
    }
    assert(mapping(a) =~= mapping(b));
}

/// `slice::sort_unstable_by_key` with the first half of a pair as the key: the
/// same pairs, in an order in which the keys never fall. In which order pairs
/// of one key come out is left open.
#[verifier::external_body]
fn sort_by_key(pairs: &mut Vec<(u16, u16)>)
    ensures
        final(pairs)@.to_multiset() == old(pairs)@.to_multiset(),
        forall|i: int, j: int|
            #![trigger final(pairs)@[i], final(pairs)@[j]]
            0 <= i < j < final(pairs)@.len() ==> final(pairs)@[i].0 <= final(pairs)@[j].0,
{
    pairs.sort_unstable_by_key(|&(key, _)| key);
}

/// A table of `(substitute, real)` characters, sorted by substitute for binary
/// search. It is never empty, and no substitute occurs twice.
///
/// The view is the mapping from substitute to real character.
#[derive(Debug)]
pub struct Codepage {
    pairs: Vec<(u16, u16)>,
}

impl View for Codepage {
    type V = Map<char, char>;

    closed spec fn view(&self) -> Map<char, char> {
        mapping(self.pairs@)
    }
}

impl Clone for Codepage {
    fn clone(&self) -> (copy: Self)
        ensures
            copy@ == self@,
    {
        proof {
            use_type_invariant(self);
        }
        let pairs = vstd::slice::slice_to_vec(self.pairs.as_slice());
        Codepage { pairs }
    }
}

impl Codepage {
    #[verifier::type_invariant]
    spec fn well_formed(self) -> bool {
        &&& self.pairs@.len() > 0
        &&& ascending(self.pairs@)
        &&& scalar_pairs(self.pairs@)
    }

    /// The table that holds `pairs`.
    pub(crate) fn from_pairs(pairs: Vec<(u16, u16)>) -> (table: Self)
        requires
            pairs@.len() > 0,
            distinct_keys(pairs@),
            scalar_pairs(pairs@),
        ensures
            table@ == mapping(pairs@),
    {
        let ghost given = pairs@;
        let mut pairs = pairs;
        sort_by_key(&mut pairs);
        proof {
            lemma_mapping_reordered(given, pairs@);
            assert(ascending(pairs@)) by {
                assert forall|i: int, j: int|
                    #![trigger pairs@[i], pairs@[j]]
                    0 <= i < j < pairs@.len() implies pairs@[i].0 < pairs@[j].0 by {
                    assert(pairs@[i].0 != pairs@[j].0);
                }
            }
        }
        Codepage { pairs }
    }

    /// The `(substitute, real)` pairs as UTF-16 units, by rising substitute.
    pub fn pairs(&self) -> (pairs: &Vec<(u16, u16)>)
        ensures
            pairs@.len() > 0,
            ascending(pairs@),
            scalar_pairs(pairs@),
            mapping(pairs@) == self@,
    {
        proof {
            use_type_invariant(self);
        }
        &self.pairs
    }

    /// The real character behind the substitute `c`, `None` when `c` is no
    /// substitute.
    pub fn lookup(&self, c: char) -> (shown: Option<char>)
        ensures
            shown == (if self@.contains_key(c) {
                Some(self@[c])
            } else {
                None::<char>
            }),
    {
        proof {
            use_type_invariant(self);
            lemma_mapping_keys(self.pairs@, c);
        }
        let code: u32 = c as u32;
        let mut low: usize = 0;
        let mut high: usize = self.pairs.len();
        while low < high
            invariant
                low <= high <= self.pairs@.len(),
                ascending(self.pairs@),
                scalar_pairs(self.pairs@),
                code == c as int,
                self@ == mapping(self.pairs@),
                forall|i: int| #![trigger self.pairs@[i]] 0 <= i < low ==> self.pairs@[i].0 < code,
                forall|i: int|
                    #![trigger self.pairs@[i]]
                    high <= i < self.pairs@.len() ==> self.pairs@[i].0 > code,
            decreases high - low,
        {
            let middle: usize = low + (high - low) / 2;
            let (key, target) = self.pairs[middle];
            if (key as u32) < code {
                low = middle + 1;
            } else if key as u32 > code {
                high = middle;
            } else {
                proof {
                    lemma_mapping_value(self.pairs@, middle as int);
                    assert(self.pairs@[middle as int].0 as char == c);
                }
                return char::from_u32(target as u32);
            }
        }
        None
    }

    /// Rewrites the substitute characters of a decoded script string.
    pub fn remap(&self, s: &str) -> (out: String)
        ensures
            out@ == remapped(self@, s@),
    {
        let mut any = false;
        for c in chars: s.chars()
            invariant
                chars.seq() == s@,
                any == exists|i: int| 0 <= i < chars.index() && self@.contains_key(#[trigger] s@[i]),
        {
            if self.lookup(c).is_some() {
                any = true;
                assert(self@.contains_key(s@[chars.index() as int]));
            }
        }
        if !any {
            assert(remapped(self@, s@) =~= s@);
            return s.to_owned();
        }
        let mut out = String::new();
        for c in chars: s.chars()
            invariant
                chars.seq() == s@,
                out@ =~= remapped(self@, s@.take(chars.index() as int)),
        {
            match self.lookup(c) {
                Some(shown) => out.push(shown),
                None => out.push(c),
            }
        }
        assert(s@.take(s@.len() as int) =~= s@);
        out
    }
}

/// A table's pairs are settled by what it maps: there is one way only to list a
/// mapping by rising substitute.
pub proof fn law_mapping_settles_pairs(a: Seq<(u16, u16)>, b: Seq<(u16, u16)>)
    requires
        ascending(a),
        ascending(b),
        scalar_pairs(a),
        scalar_pairs(b),
        mapping(a) == mapping(b),
    ensures
        a == b,
    decreases a.len(),
{
    lemma_mapping_size(a);
    lemma_mapping_size(b);
    if a.len() > 0 {
        let (front_a, front_b) = (a.drop_last(), b.drop_last());
        let (last_a, last_b) = (a[a.len() - 1], b[b.len() - 1]);
        let (c, d) = (last_a.0 as char, last_b.0 as char);
        lemma_mapping_value(a, a.len() - 1);
        lemma_mapping_value(b, b.len() - 1);
        lemma_mapping_keys(a, d);
        lemma_mapping_keys(b, c);
        let i = choose|i: int| #![trigger a[i]] 0 <= i < a.len() && a[i].0 as int == d as int;
        let j = choose|j: int| #![trigger b[j]] 0 <= j < b.len() && b[j].0 as int == c as int;
        assert(last_b.0 <= last_a.0);
        assert(last_a.0 <= last_b.0);
        assert(last_a == last_b);
        lemma_front(a);
        lemma_front(b);
        lemma_mapping_keys(front_a, c);
        lemma_mapping_keys(front_b, c);
        assert(mapping(front_a) =~= mapping(a).remove(c));
        assert(mapping(front_b) =~= mapping(b).remove(c));
        law_mapping_settles_pairs(front_a, front_b);
        assert(a =~= front_a.push(last_a));
        assert(b =~= front_b.push(last_b));
    } else {
        assert(a =~= b);
    }
}

/// Remapping keeps the number of characters, and leaves each character that is
/// no substitute where it stands.
pub proof fn law_remap_keeps_positions(table: Map<char, char>, text: Seq<char>)
    ensures
        remapped(table, text).len() == text.len(),
        forall|i: int|
            0 <= i < text.len() && !table.contains_key(text[i]) ==> #[trigger] remapped(
                table,
                text,
            )[i] == text[i],
{
}

/// A string without substitutes is untouched.
pub proof fn law_remap_leaves_other_text(table: Map<char, char>, text: Seq<char>)
    requires
        forall|i: int| 0 <= i < text.len() ==> !table.contains_key(#[trigger] text[i]),
    ensures
        remapped(table, text) == text,
{
    assert(remapped(table, text) =~= text);
}

/// Remapping a text piece by piece gives the pieces of the remapped text.
pub proof fn law_remap_concatenation(table: Map<char, char>, front: Seq<char>, back: Seq<char>)
    ensures
        remapped(table, front + back) == remapped(table, front) + remapped(table, back),
{
    assert(remapped(table, front + back) =~= remapped(table, front) + remapped(table, back));
}

/// Where no real character is itself a substitute, a remapped text holds no
/// substitutes any more, and remapping it again changes nothing.
pub proof fn law_remap_once_is_enough(table: Map<char, char>, text: Seq<char>)
    requires
        forall|c: char| table.contains_key(c) ==> !table.contains_key(#[trigger] table[c]),
    ensures
        forall|i: int| 0 <= i < text.len() ==> !table.contains_key(#[trigger] remapped(table, text)[i]),
        remapped(table, remapped(table, text)) == remapped(table, text),
{
    assert(remapped(table, remapped(table, text)) =~= remapped(table, text));
}

/// Every substitute is rewritten, wherever it stands: the character shown in its
/// place is the one that the table has for it.
pub proof fn law_remap_rewrites_every_substitute(table: Map<char, char>, text: Seq<char>)
    ensures
        forall|i: int|
            0 <= i < text.len() && table.contains_key(text[i]) ==> #[trigger] remapped(
                table,
                text,
            )[i] == table[text[i]],
{
}

/// Pairs with distinct keys map each key to its target, and nothing else.
pub proof fn law_pairs_are_mapped_one_by_one(pairs: Seq<(u16, u16)>)
    requires
        forall|i: int|
            #![trigger pairs[i]]
            0 <= i < pairs.len() ==> !(0xD800 <= pairs[i].0 <= 0xDFFF) && !(0xD800 <= pairs[i].1
                <= 0xDFFF),
        forall|i: int, j: int|
            #![trigger pairs[i], pairs[j]]
            0 <= i < j < pairs.len() ==> pairs[i].0 != pairs[j].0,
    ensures
        mapping(pairs).dom().len() == pairs.len(),
        forall|i: int|
            #![trigger pairs[i]]
            0 <= i < pairs.len() ==> mapping(pairs).contains_key(pairs[i].0 as char) && mapping(
                pairs,
            )[pairs[i].0 as char] == pairs[i].1 as char,
        forall|c: char| #[trigger]
            mapping(pairs).contains_key(c) ==> exists|i: int|
                #![trigger pairs[i]]
                0 <= i < pairs.len() && pairs[i].0 as int == c as int,
{
    lemma_mapping_size(pairs);
    assert forall|i: int| #![trigger pairs[i]] 0 <= i < pairs.len() implies mapping(
        pairs,
    ).contains_key(pairs[i].0 as char) && mapping(pairs)[pairs[i].0 as char] == pairs[i].1
        as char by {
        lemma_mapping_value(pairs, i);
    }
    assert forall|c: char| #[trigger] mapping(pairs).contains_key(c) implies exists|i: int|
        #![trigger pairs[i]]
        0 <= i < pairs.len() && pairs[i].0 as int == c as int by {
        lemma_mapping_keys(pairs, c);
    }
}

} // verus!
