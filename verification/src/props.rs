//! The `KEY=VALUE` pairs of a rule's text, as a mapping from key to value.

use vstd::prelude::*;
use vstd::string::*;

use crate::error::{error_of, ParseError, ParseErrorKind, ParseErrorView};
use crate::property::{property_of, RRuleProperty};
use crate::text::{split, split_first, split_once_text, split_text};

verus! {

/// A mapping from keys to the raw text of their values. Setting a key again
/// replaces its value.
#[derive(Debug)]
pub struct Properties {
    entries: Vec<(RRuleProperty, String)>,
}

/// The mapping that a sequence of settings leaves, the later ones
/// overwriting the earlier.
pub open spec fn map_of(entries: Seq<(RRuleProperty, String)>) -> Map<RRuleProperty, Seq<char>>
    decreases entries.len(),
{
    if entries.len() == 0 {
        Map::empty()
    } else {
        map_of(entries.drop_last()).insert(entries.last().0, entries.last().1@)
    }
}

impl View for Properties {
    type V = Map<RRuleProperty, Seq<char>>;

    closed spec fn view(&self) -> Map<RRuleProperty, Seq<char>> {
        map_of(self.entries@)
    }
}

impl Properties {
    /// The empty mapping.
    pub fn new() -> (r: Properties)
        ensures
            r@ == Map::<RRuleProperty, Seq<char>>::empty(),
    {
        Properties { entries: Vec::new() }
    }

    /// Sets `key` to `value`, replacing any value it had.
    pub fn insert(&mut self, key: RRuleProperty, value: &str)
        ensures
            final(self)@ == old(self)@.insert(key, value@),
    {
        self.entries.push((key, value.to_owned()));
        proof {
            assert(self.entries@.drop_last() =~= old(self).entries@);
        }
    }

    /// The value of `key`, where it has one.
    pub fn get(&self, key: RRuleProperty) -> (r: Option<&str>)
        ensures
            match r {
                Some(v) => self@.dom().contains(key) && self@[key] == v@,
                None => !self@.dom().contains(key),
            },
    {
        let n = self.entries.len();
        let mut i: usize = n;
        proof {
            assert(self.entries@.take(n as int) =~= self.entries@);
        }
        while i > 0
            invariant
                i <= n,
                n == self.entries.len(),
                map_of(self.entries@).dom().contains(key) == map_of(
                    self.entries@.take(i as int),
                ).dom().contains(key),
                map_of(self.entries@).dom().contains(key) ==> map_of(self.entries@)[key] == map_of(
                    self.entries@.take(i as int),
                )[key],
            decreases i,
        {
            let ghost cur = self.entries@.take(i as int);
            proof {
                assert(cur.drop_last() =~= self.entries@.take(i - 1));
                assert(cur.last() == self.entries@[i - 1]);
            }
            if self.entries[i - 1].0 == key {
                return Some(self.entries[i - 1].1.as_str());
            }
            i -= 1;
        }
        proof {
            assert(self.entries@.take(0) =~= Seq::<(RRuleProperty, String)>::empty());
        }
        None
    }

    pub fn contains(&self, key: RRuleProperty) -> (r: bool)
        ensures
            r == self@.dom().contains(key),
    {
        self.get(key).is_some()
    }
}

/// The mapping after one more piece of a rule's text: an empty piece changes
/// nothing; any other must be `KEY=VALUE` with a known key.
pub open spec fn with_piece(m: Map<RRuleProperty, Seq<char>>, piece: Seq<char>) -> Result<
    Map<RRuleProperty, Seq<char>>,
    ParseErrorView,
> {
    if piece.len() == 0 {
        Ok(m)
    } else {
        match split_first(piece, '=') {
            None => Err(error_of(ParseErrorKind::InvalidParameterFormat, piece)),
            Some((k, v)) => match property_of(k) {
                Err(e) => Err(e),
                Ok(p) => Ok(m.insert(p, v)),
            },
        }
    }
}

/// The mapping that a run of pieces leaves, or the refusal of the first
/// piece that cannot be read.
pub open spec fn props_of_pieces(pieces: Seq<Seq<char>>) -> Result<
    Map<RRuleProperty, Seq<char>>,
    ParseErrorView,
>
    decreases pieces.len(),
{
    if pieces.len() == 0 {
        Ok(Map::empty())
    } else {
        match props_of_pieces(pieces.drop_last()) {
            Err(e) => Err(e),
            Ok(m) => with_piece(m, pieces.last()),
        }
    }
}

/// The mapping that the text `KEY=VALUE;KEY=VALUE;...` writes.
pub open spec fn props_of(value: Seq<char>) -> Result<Map<RRuleProperty, Seq<char>>, ParseErrorView> {
    props_of_pieces(split(value, ';'))
}

/// Reads the pairs of `KEY=VALUE;KEY=VALUE;...`. Keys are read in any letter
/// case; a key that repeats keeps its last value; empty pieces are passed
/// over. A piece without `=` is refused with `InvalidParameterFormat`, an
/// unknown key with `UnrecognizedParameter`.
pub fn parse_parameters(value: &str) -> (r: Result<Properties, ParseError>)
    ensures
        match r {
            Ok(p) => props_of(value@) == Ok::<Map<RRuleProperty, Seq<char>>, ParseErrorView>(p@),
            Err(e) => props_of(value@) == Err::<Map<RRuleProperty, Seq<char>>, ParseErrorView>(e@),
        },
{
    let pieces = split_text(value, ';');
    let ghost all = split(value@, ';');
    let mut props = Properties::new();
    let mut i: usize = 0;
    proof {
        assert(all.take(0) =~= Seq::<Seq<char>>::empty());
    }
    while i < pieces.len()
        invariant
            i <= pieces.len(),
            all == split(value@, ';'),
            pieces.len() == all.len(),
            forall|j: int| 0 <= j < pieces.len() ==> (#[trigger] pieces[j])@ == all[j],
            props_of_pieces(all.take(i as int)) == Ok::<
                Map<RRuleProperty, Seq<char>>,
                ParseErrorView,
            >(props@),
        decreases pieces.len() - i,
    {
        let piece: &str = pieces[i];
        proof {
            assert(all.take(i + 1).drop_last() =~= all.take(i as int));
            assert(all.take(i + 1).last() == all[i as int]);
            assert(piece@ == all[i as int]);
        }
        if piece.unicode_len() > 0 {
            match split_once_text(piece, '=') {
                None => {
                    proof {
                        lemma_first_failure(all, i + 1);
                    }
                    return Err(ParseError::InvalidParameterFormat(piece.to_owned()));
                },
                Some((k, v)) => {
                    match RRuleProperty::from_str(k) {
                        Err(e) => {
                            proof {
                                lemma_first_failure(all, i + 1);
                            }
                            return Err(e);
                        },
                        Ok(p) => {
                            props.insert(p, v);
                        },
                    }
                },
            }
        }
        i += 1;
    }
    proof {
        assert(all.take(i as int) =~= all);
    }
    Ok(props)
}

/// Once a start of the pieces is refused, the whole is refused the same way.
pub proof fn lemma_first_failure(pieces: Seq<Seq<char>>, k: int)
    requires
        0 <= k <= pieces.len(),
        props_of_pieces(pieces.take(k)) is Err,
    ensures
        props_of_pieces(pieces) == props_of_pieces(pieces.take(k)),
    decreases pieces.len() - k,
{
    if k == pieces.len() {
        assert(pieces.take(k) =~= pieces);
    } else {
        assert(pieces.take(k + 1).drop_last() =~= pieces.take(k));
        lemma_first_failure(pieces, k + 1);
    }
}

} // verus!
