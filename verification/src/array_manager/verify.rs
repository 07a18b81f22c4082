//! Validation of an array's light groups: every channel a group uses must
//! appear in the `all` group in the same role, and no channel may play two
//! roles in the same universe.

use vstd::prelude::*;

use super::error::ChannelUsage;
use crate::dmx::ChannelDefinition;
use crate::strutil::str_eq;

verus! {

/// The `(universe, channel) -> role` pairs one channel definition claims.
pub open spec fn spec_usage_pairs(u: Seq<char>, cd: ChannelDefinition) -> Seq<
    ((Seq<char>, u16), ChannelUsage),
> {
    match cd {
        ChannelDefinition::Single(c) => seq![((u, c), ChannelUsage::S)],
        ChannelDefinition::Rgb(a, b, c) => seq![
            ((u, a), ChannelUsage::R),
            ((u, b), ChannelUsage::G),
            ((u, c), ChannelUsage::B),
        ],
        ChannelDefinition::TriWhite(a, b, c) => seq![
            ((u, a), ChannelUsage::W1),
            ((u, b), ChannelUsage::W2),
            ((u, c), ChannelUsage::W3),
        ],
    }
}

/// The usage pairs of a whole flat expansion, in traversal order.
pub open spec fn spec_flat_usage_pairs(flat: Seq<(Seq<char>, ChannelDefinition)>) -> Seq<
    ((Seq<char>, u16), ChannelUsage),
>
    decreases flat.len(),
{
    if flat.len() == 0 {
        seq![]
    } else {
        spec_flat_usage_pairs(flat.drop_last()) + spec_usage_pairs(
            flat.last().0,
            flat.last().1,
        )
    }
}

/// Folds usage pairs into a role map; a pair whose channel already has a
/// different role stops the fold.
pub open spec fn spec_build_usage(
    pairs: Seq<((Seq<char>, u16), ChannelUsage)>,
    m: Map<(Seq<char>, u16), ChannelUsage>,
) -> Result<Map<(Seq<char>, u16), ChannelUsage>, ((Seq<char>, u16), ChannelUsage, ChannelUsage)>
    decreases pairs.len(),
{
    if pairs.len() == 0 {
        Ok(m)
    } else {
        let (k, usage) = pairs[0];
        if m.contains_key(k) {
            if m[k] != usage {
                Err((k, m[k], usage))
            } else {
                spec_build_usage(pairs.subrange(1, pairs.len() as int), m)
            }
        } else {
            spec_build_usage(pairs.subrange(1, pairs.len() as int), m.insert(k, usage))
        }
    }
}

/// How checking a group's usage pairs against the `all` map can fail.
pub enum UsageCheck {
    Fine,
    /// The channel plays a different role: key, existing role, new role.
    Mismatch((Seq<char>, u16), ChannelUsage, ChannelUsage),
    /// The channel is not in the `all` group: key, role.
    NotInAll((Seq<char>, u16), ChannelUsage),
}

/// Checks a group's usage pairs against the `all` map, without inserting.
pub open spec fn spec_check_usage(
    pairs: Seq<((Seq<char>, u16), ChannelUsage)>,
    m: Map<(Seq<char>, u16), ChannelUsage>,
) -> UsageCheck
    decreases pairs.len(),
{
    if pairs.len() == 0 {
        UsageCheck::Fine
    } else {
        let (k, usage) = pairs[0];
        if m.contains_key(k) {
            if m[k] != usage {
                UsageCheck::Mismatch(k, m[k], usage)
            } else {
                spec_check_usage(pairs.subrange(1, pairs.len() as int), m)
            }
        } else {
            UsageCheck::NotInAll(k, usage)
        }
    }
}

/// When the check passes, every pair of the group sits in the map with the
/// same role.
pub proof fn lemma_check_usage_ok(
    pairs: Seq<((Seq<char>, u16), ChannelUsage)>,
    m: Map<(Seq<char>, u16), ChannelUsage>,
)
    requires
        spec_check_usage(pairs, m) is Fine,
    ensures
        forall|p: int|
            0 <= p < pairs.len() ==> m.contains_key((#[trigger] pairs[p]).0) && m[pairs[p].0]
                == pairs[p].1,
    decreases pairs.len(),
{
    if pairs.len() > 0 {
        let tail = pairs.subrange(1, pairs.len() as int);
        lemma_check_usage_ok(tail, m);
        assert(forall|p: int| 0 <= p < tail.len() ==> #[trigger] tail[p] == pairs[p + 1]);
        assert forall|p: int| 0 <= p < pairs.len() implies m.contains_key(
            (#[trigger] pairs[p]).0,
        ) && m[pairs[p].0] == pairs[p].1 by {
            if p >= 1 {
                assert(tail[p - 1] == pairs[p]);
            }
        }
    }
}

/// The usage table: `(universe, channel) -> role`, as an entry list.
pub struct UsageTable {
    pub entries: Vec<(String, u16, ChannelUsage)>,
}

/// The map an entry list denotes; a later entry for the same key wins.
pub open spec fn usage_entries_map(s: Seq<(String, u16, ChannelUsage)>) -> Map<
    (Seq<char>, u16),
    ChannelUsage,
>
    decreases s.len(),
{
    if s.len() == 0 {
        Map::empty()
    } else {
        usage_entries_map(s.drop_last()).insert(
            (s.last().0@, s.last().1),
            s.last().2,
        )
    }
}

impl UsageTable {
    pub open spec fn view(&self) -> Map<(Seq<char>, u16), ChannelUsage> {
        usage_entries_map(self.entries@)
    }

    pub fn new() -> (r: UsageTable)
        ensures
            r@ == Map::<(Seq<char>, u16), ChannelUsage>::empty(),
    {
        UsageTable { entries: Vec::new() }
    }

    /// The role recorded for a `(universe, channel)` key, if any.
    pub fn get(&self, u: &str, ch: u16) -> (r: Option<ChannelUsage>)
        ensures
            match r {
                Some(usage) => self@.contains_key((u@, ch)) && self@[(u@, ch)] == usage,
                None => !self@.contains_key((u@, ch)),
            },
    {
        let mut i: usize = self.entries.len();
        proof {
            assert(self.entries@.subrange(0, self.entries@.len() as int) =~= self.entries@);
        }
        while i > 0
            invariant
                i <= self.entries@.len(),
                usage_entries_map(self.entries@.subrange(0, i as int)).contains_key((u@, ch))
                    == self@.contains_key((u@, ch)),
                self@.contains_key((u@, ch)) ==> usage_entries_map(
                    self.entries@.subrange(0, i as int),
                )[(u@, ch)] == self@[(u@, ch)],
            decreases i,
        {
            i = i - 1;
            let e = &self.entries[i];
            proof {
                assert(self.entries@.subrange(0, i + 1).drop_last() =~= self.entries@.subrange(
                    0,
                    i as int,
                ));
                assert(self.entries@.subrange(0, i + 1).last() == self.entries@[i as int]);
            }
            if e.1 == ch && str_eq(e.0.as_str(), u) {
                return Some(e.2);
            }
        }
        proof {
            assert(self.entries@.subrange(0, 0) =~= Seq::<(String, u16, ChannelUsage)>::empty());
        }
        None
    }

    /// Records a role for a `(universe, channel)` key.
    pub fn insert(&mut self, u: String, ch: u16, usage: ChannelUsage)
        ensures
            final(self)@ == old(self)@.insert((u@, ch), usage),
    {
        let ghost old_entries = self.entries@;
        self.entries.push((u, ch, usage));
        proof {
            assert(self.entries@.drop_last() =~= old_entries);
        }
    }
}

} // verus!
