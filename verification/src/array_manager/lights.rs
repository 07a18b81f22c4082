//! Light-group expansion: a lights expression is a comma-separated list of
//! channel definitions, `@group` references and `$universe` switches,
//! resolved to per-universe channel lists with a bounded expansion depth.

use vstd::prelude::*;

use super::error::DmxArrayError;
use crate::dmx::{
    spec_parse_channel_definition, ChannelDefinition, ChannelParse, UniverseChannelDefinitions,
};
use crate::strmap::StrMap;
use crate::strutil::{
    chars_of, spec_split, spec_trim, split_chars, string_from_chars, trim_range,
};

verus! {

/// The expansion depth bound: deeper nesting is reported as a circular
/// reference.
pub const MAX_EXPANSION_DEPTH: usize = 5;

/// What expanding a list of entries yields.
pub enum LightsOutcome {
    /// The `(universe id, channel definition)` pairs, in traversal order.
    Flat(Seq<(Seq<char>, ChannelDefinition)>),
    /// A `@name` reference to a group the array does not define:
    /// the stack at the reference, and the name.
    NotFound(Seq<Seq<char>>, Seq<char>),
    /// The depth bound was exceeded: the stack including the newly entered
    /// expression, that expression, and the entry that entered it.
    Circular(Seq<Seq<char>>, Seq<char>, Seq<char>),
    /// An entry that is no channel definition: the stack and the entry.
    BadChannel(Seq<Seq<char>>, Seq<char>),
}

/// The views of a stack of expressions.
pub open spec fn stack_views(stack: Seq<String>) -> Seq<Seq<char>> {
    stack.map_values(|s: String| s@)
}

/// The views of a flat list of universe/channel pairs.
pub open spec fn flat_views(flat: Seq<(String, ChannelDefinition)>) -> Seq<
    (Seq<char>, ChannelDefinition),
> {
    flat.map_values(|p: (String, ChannelDefinition)| (p.0@, p.1))
}

/// The depth left before the bound: drives termination of the expansion.
pub open spec fn depth_left(stack: Seq<Seq<char>>) -> int {
    if stack.len() <= MAX_EXPANSION_DEPTH + 1 {
        MAX_EXPANSION_DEPTH + 1 - stack.len()
    } else {
        0
    }
}

/// Expands the entries from position `idx` on, in the current universe,
/// with the given expansion stack.
pub open spec fn spec_expand_entries(
    lights: Map<Seq<char>, Seq<char>>,
    entries: Seq<Seq<char>>,
    idx: int,
    universe: Seq<char>,
    stack: Seq<Seq<char>>,
) -> LightsOutcome
    decreases depth_left(stack), entries.len() - idx,
{
    if idx < 0 || idx >= entries.len() {
        LightsOutcome::Flat(seq![])
    } else {
        let entry = spec_trim(entries[idx]);
        if entry.len() > 0 && entry[0] == '@' {
            let name = entry.subrange(1, entry.len() as int);
            if !lights.contains_key(name) {
                LightsOutcome::NotFound(stack, name)
            } else {
                let nested = lights[name];
                let stack2 = stack.push(nested);
                if stack2.len() > MAX_EXPANSION_DEPTH {
                    LightsOutcome::Circular(stack2, nested, entry)
                } else {
                    match spec_expand_entries(
                        lights,
                        spec_split(nested, ','),
                        0,
                        universe,
                        stack2,
                    ) {
                        LightsOutcome::Flat(flat1) => match spec_expand_entries(
                            lights,
                            entries,
                            idx + 1,
                            universe,
                            stack,
                        ) {
                            LightsOutcome::Flat(flat2) => LightsOutcome::Flat(flat1 + flat2),
                            other => other,
                        },
                        other => other,
                    }
                }
            }
        } else if entry.len() > 0 && entry[0] == '$' {
            spec_expand_entries(
                lights,
                entries,
                idx + 1,
                entry.subrange(1, entry.len() as int),
                stack,
            )
        } else {
            match spec_parse_channel_definition(entry) {
                ChannelParse::Value(cd) => match spec_expand_entries(
                    lights,
                    entries,
                    idx + 1,
                    universe,
                    stack,
                ) {
                    LightsOutcome::Flat(flat) => LightsOutcome::Flat(
                        seq![(universe, cd)] + flat,
                    ),
                    other => other,
                },
                _ => LightsOutcome::BadChannel(stack, entry),
            }
        }
    }
}

/// What expanding a whole lights expression yields: its entries expanded in
/// the array's default universe, with the expression itself at the bottom of
/// the stack.
pub open spec fn spec_expand_lights(
    lights: Map<Seq<char>, Seq<char>>,
    expr: Seq<char>,
    default_universe: Seq<char>,
) -> LightsOutcome {
    spec_expand_entries(lights, spec_split(expr, ','), 0, default_universe, seq![expr])
}

/// Once the expansion stack has reached the depth bound, the next group
/// reference is rejected as circular; together with the structural
/// termination of [`spec_expand_entries`], this bounds every expansion and
/// rejects every cyclic set of groups.
pub proof fn lemma_depth_bound_rejects(
    lights: Map<Seq<char>, Seq<char>>,
    entries: Seq<Seq<char>>,
    idx: int,
    universe: Seq<char>,
    stack: Seq<Seq<char>>,
)
    requires
        0 <= idx < entries.len(),
        stack.len() >= MAX_EXPANSION_DEPTH,
        spec_trim(entries[idx]).len() > 0,
        spec_trim(entries[idx])[0] == '@',
        lights.contains_key(
            spec_trim(entries[idx]).subrange(1, spec_trim(entries[idx]).len() as int),
        ),
    ensures
        spec_expand_entries(lights, entries, idx, universe, stack) is Circular,
{
}

/// The rendering of an expansion stack: the expressions joined by " -> ".
pub open spec fn spec_render_stack(stack: Seq<Seq<char>>) -> Seq<char>
    decreases stack.len(),
{
    if stack.len() == 0 {
        Seq::<char>::empty()
    } else if stack.len() == 1 {
        stack[0]
    } else {
        spec_render_stack(stack.drop_last()) + " -> "@ + stack.last()
    }
}

/// Renders an expansion stack for error messages.
pub fn render_stack(stack: &Vec<String>) -> (r: String)
    ensures
        r@ == spec_render_stack(stack_views(stack@)),
{
    let mut m = String::new();
    let mut i: usize = 0;
    while i < stack.len()
        invariant
            i <= stack@.len(),
            m@ == spec_render_stack(stack_views(stack@).subrange(0, i as int)),
        decreases stack@.len() - i,
    {
        if i > 0 {
            m.append(" -> ");
        }
        m.append(stack[i].as_str());
        i = i + 1;
        proof {
            let pre = stack_views(stack@).subrange(0, i as int);
            assert(pre.drop_last() =~= stack_views(stack@).subrange(0, i - 1));
            assert(pre.last() == stack@[i - 1]@);
        }
    }
    proof {
        assert(stack_views(stack@).subrange(0, stack@.len() as int) =~= stack_views(stack@));
    }
    m
}

/// Expands the entries of a lights expression from position `idx` on.
///
/// On success the flat `(universe id, channel)` list is returned; on failure
/// the error carries the array id, the rendered expansion stack and the
/// offending piece, exactly as the specification names them.
#[verifier::rlimit(100)]
#[verifier::spinoff_prover]
pub fn expand_entries(
    array_id: &str,
    lights: &StrMap<String>,
    entries: &Vec<Vec<char>>,
    idx: usize,
    universe: &String,
    stack: &mut Vec<String>,
) -> (r: Result<Vec<(String, ChannelDefinition)>, DmxArrayError>)
    requires
        lights.wf(),
        idx <= entries@.len(),
    ensures
        final(stack)@ == old(stack)@,
        ({
            let spec = spec_expand_entries(
                lights@.map_values(|v: String| v@),
                entries.deep_view(),
                idx as int,
                universe@,
                stack_views(old(stack)@),
            );
            match r {
                Ok(flat) => spec == LightsOutcome::Flat(flat_views(flat@)),
                Err(e) => match e {
                    DmxArrayError::ArrayLightsNotFound(a, s, n) => (spec matches
                        LightsOutcome::NotFound(st, sn) && a@ == array_id@ && s@
                        == spec_render_stack(st) && n@ == sn),
                    DmxArrayError::ArrayLightsCircularReference(a, s, l, en) => (spec matches
                        LightsOutcome::Circular(st, sl, sen) && a@ == array_id@ && s@
                        == spec_render_stack(st) && l@ == sl && en@ == sen),
                    DmxArrayError::ArrayLightsInvalidChannelDefinition(a, s, en) => (spec matches
                        LightsOutcome::BadChannel(st, sen) && a@ == array_id@ && s@
                        == spec_render_stack(st) && en@ == sen),
                    _ => false,
                },
            }
        }),
    decreases depth_left(stack_views(stack@)), entries@.len() - idx,
{
    let ghost lights_m = lights@.map_values(|v: String| v@);
    let ghost entry_views = entries.deep_view();
    if idx >= entries.len() {
        proof {
            assert(flat_views(Seq::<(String, ChannelDefinition)>::empty())
                =~= Seq::<(Seq<char>, ChannelDefinition)>::empty());
        }
        return Ok(Vec::new());
    }
    let piece = &entries[idx];
    let entry_chars = trim_range(piece, 0, piece.len());
    let entry = string_from_chars(&entry_chars);
    proof {
        assert(piece@.subrange(0, piece@.len() as int) =~= piece@);
        assert(entry_views[idx as int] == piece@);
        assert(entry@ == spec_trim(entry_views[idx as int]));
    }
    if entry_chars.len() > 0 && entry_chars[0] == '@' {
        let name_chars = crate::dmx::slice_range(&entry_chars, 1, entry_chars.len());
        let name = string_from_chars(&name_chars);
        proof {
            assert(name@ =~= entry@.subrange(1, entry@.len() as int));
        }
        match lights.get(name.as_str()) {
            None => {
                proof {
                    crate::array_manager::values::lemma_symbols_view(lights, name@);
                }
                Err(
                    DmxArrayError::ArrayLightsNotFound(
                        array_id.to_owned(),
                        render_stack(stack),
                        name,
                    ),
                )
            },
            Some(nested) => {
                proof {
                    crate::array_manager::values::lemma_symbols_view(lights, name@);
                }
                let nested = nested.clone();
                let ghost old_stack = stack@;
                stack.push(nested.clone());
                proof {
                    assert(stack_views(stack@) =~= stack_views(old_stack).push(nested@));
                }
                if stack.len() > MAX_EXPANSION_DEPTH {
                    let s = render_stack(stack);
                    let _ = stack.pop();
                    proof {
                        assert(stack@ =~= old_stack);
                    }
                    return Err(
                        DmxArrayError::ArrayLightsCircularReference(
                            array_id.to_owned(),
                            s,
                            nested,
                            entry,
                        ),
                    );
                }
                let nested_vec = chars_of(nested.as_str());
                let nested_entries = split_chars(&nested_vec, ',');
                proof {
                    assert(nested_entries.deep_view() =~= spec_split(nested@, ','));
                }
                let flat1 = match expand_entries(
                    array_id,
                    lights,
                    &nested_entries,
                    0,
                    universe,
                    stack,
                ) {
                    Ok(flat1) => flat1,
                    Err(e) => {
                        let _ = stack.pop();
                        proof {
                            assert(stack@ =~= old_stack);
                            assert(spec_expand_entries(
                                lights_m,
                                entry_views,
                                idx as int,
                                universe@,
                                stack_views(old_stack),
                            ) == spec_expand_entries(
                                lights_m,
                                spec_split(nested@, ','),
                                0,
                                universe@,
                                stack_views(old_stack).push(nested@),
                            ));
                        }
                        return Err(e);
                    },
                };
                let _ = stack.pop();
                proof {
                    assert(stack@ =~= old_stack);
                }
                match expand_entries(array_id, lights, entries, idx + 1, universe, stack) {
                    Ok(flat2) => {
                        let mut flat = flat1;
                        let ghost f1 = flat@;
                        let ghost f2 = flat2@;
                        let mut flat2 = flat2;
                        flat.append(&mut flat2);
                        proof {
                            assert(flat@ =~= f1 + f2);
                            assert(flat_views(f1 + f2) =~= flat_views(f1) + flat_views(f2));
                        }
                        Ok(flat)
                    },
                    Err(e) => Err(e),
                }
            },
        }
    } else if entry_chars.len() > 0 && entry_chars[0] == '$' {
        let uni_chars = crate::dmx::slice_range(&entry_chars, 1, entry_chars.len());
        let uni = string_from_chars(&uni_chars);
        proof {
            assert(uni@ =~= entry@.subrange(1, entry@.len() as int));
        }
        expand_entries(array_id, lights, entries, idx + 1, &uni, stack)
    } else {
        match ChannelDefinition::parse(entry.as_str()) {
            Ok(cd) => {
                match expand_entries(array_id, lights, entries, idx + 1, universe, stack) {
                    Ok(flat) => {
                        let mut out: Vec<(String, ChannelDefinition)> = Vec::new();
                        out.push((universe.clone(), cd));
                        let ghost one = out@;
                        let ghost f = flat@;
                        let mut flat = flat;
                        out.append(&mut flat);
                        proof {
                            assert(out@ =~= one + f);
                            assert(flat_views(one + f) =~= flat_views(one) + flat_views(f));
                            assert(flat_views(one) =~= seq![(universe@, cd)]);
                        }
                        Ok(out)
                    },
                    Err(e) => Err(e),
                }
            },
            Err(_) => {
                Err(
                    DmxArrayError::ArrayLightsInvalidChannelDefinition(
                        array_id.to_owned(),
                        render_stack(stack),
                        entry,
                    ),
                )
            },
        }
    }
}

/// The position of the bucket holding universe `u`, or `-1` when none does.
pub open spec fn spec_bucket_index(
    s: Seq<(Seq<char>, Seq<ChannelDefinition>)>,
    u: Seq<char>,
) -> int
    decreases s.len(),
{
    if s.len() == 0 {
        -1
    } else if s[0].0 == u {
        0
    } else {
        let r = spec_bucket_index(s.subrange(1, s.len() as int), u);
        if r < 0 {
            -1
        } else {
            r + 1
        }
    }
}

/// The bucket index is the first position with the universe, or `-1` when
/// the universe has no bucket.
pub proof fn lemma_bucket_index(s: Seq<(Seq<char>, Seq<ChannelDefinition>)>, u: Seq<char>)
    ensures
        spec_bucket_index(s, u) >= 0 ==> {
            let r = spec_bucket_index(s, u)
            ;
            r < s.len() && s[r].0 == u && (forall|q: int| 0 <= q < r ==> (#[trigger] s[q]).0 != u)
        },
        spec_bucket_index(s, u) < 0 ==> forall|q: int|
            0 <= q < s.len() ==> (#[trigger] s[q]).0 != u,
    decreases s.len(),
{
    if s.len() > 0 && s[0].0 != u {
        let tail = s.subrange(1, s.len() as int);
        lemma_bucket_index(tail, u);
        assert(forall|q: int| 0 <= q < tail.len() ==> #[trigger] tail[q] == s[q + 1]);
        let rt = spec_bucket_index(tail, u);
        if rt >= 0 {
            assert(spec_bucket_index(s, u) == rt + 1);
            assert(s[rt + 1] == tail[rt]);
            assert forall|q: int| 0 <= q < rt + 1 implies (#[trigger] s[q]).0 != u by {
                if q >= 1 {
                    assert(tail[q - 1] == s[q]);
                    assert(tail[q - 1].0 != u);
                }
            }
        } else {
            assert forall|q: int| 0 <= q < s.len() implies (#[trigger] s[q]).0 != u by {
                if q >= 1 {
                    assert(tail[q - 1] == s[q]);
                    assert(tail[q - 1].0 != u);
                }
            }
        }
    }
}

/// Groups a flat `(universe id, channel)` list into per-universe channel
/// lists: universes in order of first appearance, channels in flat order.
pub open spec fn spec_group_flat(flat: Seq<(Seq<char>, ChannelDefinition)>) -> Seq<
    (Seq<char>, Seq<ChannelDefinition>),
>
    decreases flat.len(),
{
    if flat.len() == 0 {
        seq![]
    } else {
        let rest = spec_group_flat(flat.drop_last());
        let (u, cd) = flat.last();
        let i = spec_bucket_index(rest, u);
        if i >= 0 {
            rest.update(i, (u, rest[i].1.push(cd)))
        } else {
            rest.push((u, seq![cd]))
        }
    }
}

/// The grouped universes are pairwise distinct.
pub proof fn lemma_group_flat_distinct(flat: Seq<(Seq<char>, ChannelDefinition)>)
    ensures
        forall|p: int, q: int|
            0 <= p < q < spec_group_flat(flat).len() ==> (#[trigger] spec_group_flat(flat)[p]).0
                != (#[trigger] spec_group_flat(flat)[q]).0,
    decreases flat.len(),
{
    if flat.len() > 0 {
        lemma_group_flat_distinct(flat.drop_last());
        let rest = spec_group_flat(flat.drop_last());
        let (u, cd) = flat.last();
        lemma_bucket_index(rest, u);
        let i = spec_bucket_index(rest, u);
        if i >= 0 {
            let updated = rest.update(i, (u, rest[i].1.push(cd)));
            assert(forall|p: int| 0 <= p < updated.len() ==> (#[trigger] updated[p]).0 == rest[p].0);
        }
    }
}

/// Groups the flat expansion into per-universe channel lists.
pub fn group_flat(flat: &Vec<(String, ChannelDefinition)>) -> (r: Vec<UniverseChannelDefinitions>)
    ensures
        r@.map_values(
            |u: UniverseChannelDefinitions| (u.universe_id@, u.channels@),
        ) == spec_group_flat(flat_views(flat@)),
{
    let mut r: Vec<UniverseChannelDefinitions> = Vec::new();
    let mut i: usize = 0;
    proof {
        assert(flat_views(flat@).subrange(0, 0) =~= Seq::<(Seq<char>, ChannelDefinition)>::empty());
        assert(r@.map_values(|u: UniverseChannelDefinitions| (u.universe_id@, u.channels@))
            =~= spec_group_flat(flat_views(flat@).subrange(0, 0)));
    }
    while i < flat.len()
        invariant
            i <= flat@.len(),
            r@.map_values(|u: UniverseChannelDefinitions| (u.universe_id@, u.channels@))
                == spec_group_flat(flat_views(flat@).subrange(0, i as int)),
        decreases flat@.len() - i,
    {
        let (uid, cd) = (&flat[i].0, flat[i].1);
        let ghost pre = spec_group_flat(flat_views(flat@).subrange(0, i as int));
        let mut found = false;
        let mut j: usize = 0;
        while j < r.len() && !found
            invariant
                j <= r@.len(),
                i < flat@.len(),
                uid == &flat@[i as int].0,
                found ==> j < r@.len() && r@[j as int].universe_id@ == uid@,
                forall|q: int| 0 <= q < j ==> (#[trigger] r@[q]).universe_id@ != uid@,
            decreases r@.len() - j + (if !found { 1int } else { 0int }),
        {
            if crate::strutil::str_eq(r[j].universe_id.as_str(), uid.as_str()) {
                found = true;
            } else {
                j = j + 1;
            }
        }
        let ghost old_r = r@;
        if found {
            let mut entry = r.remove(j);
            entry.channels.push(cd);
            r.insert(j, entry);
            proof {
                let ghost next = flat_views(flat@).subrange(0, i + 1);
                assert(next.drop_last() =~= flat_views(flat@).subrange(0, i as int));
                assert(spec_group_flat(next.drop_last()) == pre);
                assert(next.last() == (uid@, cd));
                let m = |u: UniverseChannelDefinitions| (u.universe_id@, u.channels@);
                assert(old_r.map_values(m) == pre);
                assert forall|q: int| 0 <= q < j implies (#[trigger] pre[q]).0 != uid@ by {
                    assert(pre[q] == old_r.map_values(m)[q]);
                }
                assert(pre[j as int].0 == uid@);
                lemma_bucket_index(pre, uid@);
                let wit = spec_bucket_index(pre, uid@);
                assert(wit >= 0) by {
                    if wit < 0 {
                        assert(pre[j as int].0 != uid@);
                    }
                }
                assert(wit == j) by {
                    if wit < j {
                        assert(pre[wit].0 != uid@);
                    }
                    if wit > j as int {
                        assert(pre[j as int].0 != uid@);
                    }
                }
                assert(spec_group_flat(next) == pre.update(
                    wit,
                    (uid@, pre[wit].1.push(cd)),
                ));
                assert(r@.map_values(m) =~= pre.update(j as int, (uid@, pre[j as int].1.push(cd))));
            }
        } else {
            r.push(
                UniverseChannelDefinitions {
                    universe_id: uid.clone(),
                    channels: {
                        let mut c: Vec<ChannelDefinition> = Vec::new();
                        c.push(cd);
                        c
                    },
                },
            );
            proof {
                assert(flat_views(flat@).subrange(0, i + 1).drop_last() =~= flat_views(
                    flat@,
                ).subrange(0, i as int));
                assert(flat_views(flat@).subrange(0, i + 1).last() == (uid@, cd));
                let m = |u: UniverseChannelDefinitions| (u.universe_id@, u.channels@);
                assert(old_r.map_values(m) == pre);
                assert forall|q: int| 0 <= q < pre.len() implies (#[trigger] pre[q]).0 != uid@ by {
                    assert(pre[q] == old_r.map_values(m)[q]);
                }
                lemma_bucket_index(pre, uid@);
                assert(spec_bucket_index(pre, uid@) < 0) by {
                    if spec_bucket_index(pre, uid@) >= 0 {
                        let w = spec_bucket_index(pre, uid@);
                        assert(pre[w].0 == uid@);
                        assert(pre[w].0 != uid@);
                    }
                }
                assert(r@.map_values(m) =~= pre.push((uid@, seq![cd])));
            }
        }
        i = i + 1;
    }
    proof {
        assert(flat_views(flat@).subrange(0, flat@.len() as int) =~= flat_views(flat@));
    }
    r
}

} // verus!
