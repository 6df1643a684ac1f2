//! The text form of a sequence: the text of each value, in order, each
//! behind a single space.

use core::fmt::Display;
use vstd::prelude::*;
use vstd::string::{to_string_from_display_ensures, StringExecFns};

verus! {

/// Whether `texts` holds, position by position, a text that `T` gives for
/// the value of `values` at that position.
pub open spec fn texts_of<T: Display>(values: Seq<T>, texts: Seq<String>) -> bool {
    &&& texts.len() == values.len()
    &&& forall|i: int|
        0 <= i < values.len() ==> to_string_from_display_ensures::<T>(
            &values[i],
            #[trigger] texts[i],
        )
}

/// The characters of each text of `texts`.
pub open spec fn characters(texts: Seq<String>) -> Seq<Seq<char>> {
    texts.map_values(|text: String| text@)
}

/// Every text of `texts`, in order, each behind one space: nothing for no
/// text, `" a b"` for the texts `a` and `b`.
pub open spec fn joined(texts: Seq<Seq<char>>) -> Seq<char>
    decreases texts.len(),
{
    if texts.len() == 0 {
        Seq::empty()
    } else {
        joined(texts.drop_last()) + seq![' '] + texts.last()
    }
}

/// The joined text reads from the first text on: a space, the first text,
/// then the joined text of the others.
pub proof fn law_joined_starts_with_first(first: Seq<char>, others: Seq<Seq<char>>)
    ensures
        joined(seq![first] + others) == seq![' '] + first + joined(others),
    decreases others.len(),
{
    let all = seq![first] + others;
    if others.len() == 0 {
        assert(all.drop_last() =~= Seq::<Seq<char>>::empty());
        assert(joined(all.drop_last()) =~= Seq::<char>::empty());
    } else {
        law_joined_starts_with_first(first, others.drop_last());
        assert(all.drop_last() =~= seq![first] + others.drop_last());
        assert(all.last() == others.last());
    }
}

/// Joins `texts` into one text, a space before each of them.
pub fn join_texts(texts: &Vec<String>) -> (text: String)
    ensures
        text@ == joined(characters(texts@)),
{
    let mut text: String = String::new();
    let mut i: usize = 0;
    while i < texts.len()
        invariant
            i <= texts.len(),
            text@ == joined(characters(texts@).take(i as int)),
        decreases texts.len() - i,
    {
        proof {
            let done = characters(texts@).take(i as int);
            let more = characters(texts@).take(i + 1);
            assert(more.drop_last() == done);
            assert(more.last() == texts@[i as int]@);
            reveal_strlit(" ");
        }
        text.append(" ");
        text.append(texts[i].as_str());
        i = i + 1;
    }
    proof {
        assert(characters(texts@).take(i as int) == characters(texts@));
    }
    text
}

} // verus!
