//! What a file name says about itself: whether it is hidden, which extensions
//! it carries, and whether a query candidate is negated.

use vstd::prelude::*;
use vstd::std_specs::iter::IteratorSpec;
use vstd::string::StrSliceExecFns;

verus! {

/// A name that starts with this character is hidden.
pub const HIDDEN_MARKER: char = '.';

/// Separates a name from its extensions.
pub const EXTENSION_SEPARATOR: char = '.';

/// A query candidate that starts with this character is negated.
pub const NEGATION_MARKER: char = '!';

/// True when `name` starts with `marker`.
pub open spec fn starts_with(name: Seq<char>, marker: char) -> bool {
    name.len() > 0 && name[0] == marker
}

/// True when `name` is the name of a hidden file.
pub open spec fn is_hidden(name: Seq<char>) -> bool {
    starts_with(name, HIDDEN_MARKER)
}

/// True when `candidate` carries the negation marker.
pub open spec fn is_negated(candidate: Seq<char>) -> bool {
    starts_with(candidate, NEGATION_MARKER)
}

/// What follows the first separator of `name`, if it has one.
pub open spec fn full_extension(name: Seq<char>) -> Option<Seq<char>>
    decreases name.len(),
{
    if name.len() == 0 {
        None
    } else if name[0] == EXTENSION_SEPARATOR {
        Some(name.drop_first())
    } else {
        full_extension(name.drop_first())
    }
}

/// What follows the last separator of `name`, if it has one.
pub open spec fn minimal_extension(name: Seq<char>) -> Option<Seq<char>>
    decreases name.len(),
{
    if name.len() == 0 {
        None
    } else if name.last() == EXTENSION_SEPARATOR {
        Some(Seq::empty())
    } else {
        match minimal_extension(name.drop_last()) {
            Some(tail) => Some(tail.push(name.last())),
            None => None,
        }
    }
}

/// The full extension starts behind the first separator: behind position
/// `dot`, where that is a separator and none stands before it. A name
/// without any separator, for which `dot` is its length, has none.
pub proof fn lemma_full_extension_at(name: Seq<char>, dot: int)
    requires
        0 <= dot <= name.len(),
        forall|j: int| 0 <= j < dot ==> name[j] != EXTENSION_SEPARATOR,
        dot < name.len() ==> name[dot] == EXTENSION_SEPARATOR,
    ensures
        full_extension(name) == if dot < name.len() {
            Some(name.skip(dot + 1))
        } else {
            None
        },
    decreases name.len(),
{
    if name.len() == 0 {
    } else if dot == 0 {
        assert(name.drop_first() =~= name.skip(1));
    } else {
        let rest = name.drop_first();
        assert forall|j: int| 0 <= j < dot - 1 implies rest[j] != EXTENSION_SEPARATOR by {
            assert(rest[j] == name[j + 1]);
        }
        lemma_full_extension_at(rest, dot - 1);
        if dot < name.len() {
            assert(rest.skip(dot) =~= name.skip(dot + 1));
        }
    }
}

/// The minimal extension starts behind the last separator: behind position
/// `dot`, where that is a separator and none stands behind it. A name
/// without any separator, for which `dot` is -1, has none.
pub proof fn lemma_minimal_extension_at(name: Seq<char>, dot: int)
    requires
        -1 <= dot < name.len(),
        forall|j: int| dot < j < name.len() ==> name[j] != EXTENSION_SEPARATOR,
        0 <= dot ==> name[dot] == EXTENSION_SEPARATOR,
    ensures
        minimal_extension(name) == if 0 <= dot {
            Some(name.skip(dot + 1))
        } else {
            None
        },
    decreases name.len(),
{
    if name.len() == 0 {
    } else if dot == name.len() - 1 {
        assert(name.skip(dot + 1) =~= Seq::<char>::empty());
    } else {
        let front = name.drop_last();
        lemma_minimal_extension_at(front, dot);
        if 0 <= dot {
            assert(front.skip(dot + 1).push(name.last()) =~= name.skip(dot + 1));
        }
    }
}

/// True when `name` starts with `marker`.
pub fn has_marker(name: &str, marker: char) -> (found: bool)
    ensures
        found == starts_with(name@, marker),
{
    if name.is_empty() {
        false
    } else {
        name.get_char(0) == marker
    }
}

/// The candidate without its negation marker, where it carries one.
pub fn strip_negation(candidate: &str) -> (rest: Option<&str>)
    ensures
        match rest {
            Some(name) => is_negated(candidate@) && name@ == candidate@.skip(1),
            None => !is_negated(candidate@),
        },
{
    if has_marker(candidate, NEGATION_MARKER) {
        let length = candidate.unicode_len();
        let name = candidate.substring_char(1, length);
        proof {
            assert(candidate@.subrange(1, length as int) =~= candidate@.skip(1));
        }
        Some(name)
    } else {
        None
    }
}

/// The positions of the first and of the last separator in `name`, and the
/// number of characters in it.
fn separator_positions(name: &str) -> (found: (Option<usize>, Option<usize>, usize))
    ensures
        found.2 == name@.len(),
        match found.0 {
            Some(first) => {
                &&& first < name@.len()
                &&& name@[first as int] == EXTENSION_SEPARATOR
                &&& forall|j: int| 0 <= j < first ==> name@[j] != EXTENSION_SEPARATOR
            },
            None => forall|j: int| 0 <= j < name@.len() ==> name@[j] != EXTENSION_SEPARATOR,
        },
        match found.1 {
            Some(last) => {
                &&& last < name@.len()
                &&& name@[last as int] == EXTENSION_SEPARATOR
                &&& forall|j: int| last < j < name@.len() ==> name@[j] != EXTENSION_SEPARATOR
            },
            None => forall|j: int| 0 <= j < name@.len() ==> name@[j] != EXTENSION_SEPARATOR,
        },
{
    let length = name.unicode_len();
    let mut chars = name.chars();
    let mut first: Option<usize> = None;
    let mut last: Option<usize> = None;
    let mut index: usize = 0;
    loop
        invariant
            length == name@.len(),
            index <= length,
            chars.obeys_prophetic_iter_laws(),
            chars.remaining() == name@.skip(index as int),
            match first {
                Some(at) => {
                    &&& at < index
                    &&& name@[at as int] == EXTENSION_SEPARATOR
                    &&& forall|j: int| 0 <= j < at ==> name@[j] != EXTENSION_SEPARATOR
                },
                None => forall|j: int| 0 <= j < index ==> name@[j] != EXTENSION_SEPARATOR,
            },
            match last {
                Some(at) => {
                    &&& at < index
                    &&& name@[at as int] == EXTENSION_SEPARATOR
                    &&& forall|j: int| at < j < index ==> name@[j] != EXTENSION_SEPARATOR
                },
                None => forall|j: int| 0 <= j < index ==> name@[j] != EXTENSION_SEPARATOR,
            },
        ensures
            index == length,
        decreases length - index,
    {
        let ghost before = chars.remaining();
        match chars.next() {
            Some(c) => {
                proof {
                    assert(before.len() > 0);
                    assert(c == name@[index as int]);
                    assert(name@.skip(index as int).drop_first() =~= name@.skip(index as int + 1));
                }
                if c == EXTENSION_SEPARATOR {
                    if first.is_none() {
                        first = Some(index);
                    }
                    last = Some(index);
                }
                index = index + 1;
            },
            None => {
                proof {
                    assert(before.len() == 0);
                }
                break ;
            },
        }
    }
    (first, last, length)
}

/// Both extensions of `name`: what follows its last separator and what
/// follows its first. A name has both or neither.
pub fn extensions_of(name: &str) -> (found: Option<(String, String)>)
    ensures
        match found {
            Some((minimal, full)) => {
                &&& minimal_extension(name@) == Some(minimal@)
                &&& full_extension(name@) == Some(full@)
            },
            None => minimal_extension(name@) is None && full_extension(name@) is None,
        },
{
    let (first, last, length) = separator_positions(name);
    match (first, last) {
        (Some(first_at), Some(last_at)) => {
            let minimal = name.substring_char(last_at + 1, length);
            let full = name.substring_char(first_at + 1, length);
            proof {
                lemma_full_extension_at(name@, first_at as int);
                lemma_minimal_extension_at(name@, last_at as int);
                assert(name@.subrange(last_at as int + 1, length as int) =~= name@.skip(
                    last_at as int + 1,
                ));
                assert(name@.subrange(first_at as int + 1, length as int) =~= name@.skip(
                    first_at as int + 1,
                ));
            }
            Some((minimal.to_owned(), full.to_owned()))
        },
        _ => {
            proof {
                lemma_full_extension_at(name@, name@.len() as int);
                lemma_minimal_extension_at(name@, -1);
            }
            None
        },
    }
}

} // verus!
