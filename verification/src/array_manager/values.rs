//! Variable expansion: `` `name` `` and `` `name=default` `` references in
//! strings, resolved against the array's values and then the global values.

use vstd::prelude::*;

use crate::strutil::{
    append_chars, chars_of, find_char_from, first_index_of, lemma_index_of_first,
    string_from_chars,
};

verus! {

/// How variable expansion can fail.
pub enum ExpandOutcome {
    /// The fully expanded string.
    Done(Seq<char>),
    /// A name was looked up but the array does not exist.
    NoArray,
    /// A reference without binding or default; carries the name.
    Missing(Seq<char>),
    /// A backtick without its closing partner.
    Unterminated,
}

/// Expands every `` `name` `` or `` `name=default` `` reference in `s`:
/// a bound name takes its value from the array values, then the global
/// values; an unbound name with a default takes the default; an unbound name
/// without one fails. Values are inserted as they are, without re-expansion.
pub open spec fn spec_expand_values(
    has_array: bool,
    av: Map<Seq<char>, Seq<char>>,
    gv: Map<Seq<char>, Seq<char>>,
    s: Seq<char>,
) -> ExpandOutcome
    decreases s.len(),
    via spec_expand_values_decreases
{
    if !s.contains('`') {
        ExpandOutcome::Done(s)
    } else {
        let i = first_index_of(s, '`');
        let rest = s.subrange(i + 1, s.len() as int);
        if !rest.contains('`') {
            ExpandOutcome::Unterminated
        } else {
            let j = first_index_of(rest, '`');
            let expr = rest.subrange(0, j);
            let name = if expr.contains('=') {
                expr.subrange(0, first_index_of(expr, '='))
            } else {
                expr
            };
            let dflt = if expr.contains('=') {
                Some(expr.subrange(first_index_of(expr, '=') + 1, expr.len() as int))
            } else {
                None
            };
            if !has_array {
                ExpandOutcome::NoArray
            } else {
                let value = if av.contains_key(name) {
                    Some(av[name])
                } else if gv.contains_key(name) {
                    Some(gv[name])
                } else {
                    dflt
                };
                match value {
                    None => ExpandOutcome::Missing(name),
                    Some(v) => match spec_expand_values(
                        has_array,
                        av,
                        gv,
                        rest.subrange(j + 1, rest.len() as int),
                    ) {
                        ExpandOutcome::Done(r) => ExpandOutcome::Done(s.subrange(0, i) + v + r),
                        other => other,
                    },
                }
            }
        }
    }
}

#[via_fn]
proof fn spec_expand_values_decreases(
    has_array: bool,
    av: Map<Seq<char>, Seq<char>>,
    gv: Map<Seq<char>, Seq<char>>,
    s: Seq<char>,
) {
    if s.contains('`') {
        lemma_index_of_first(s, '`');
        let i = first_index_of(s, '`');
        let rest = s.subrange(i + 1, s.len() as int);
        if rest.contains('`') {
            lemma_index_of_first(rest, '`');
        }
    }
}

/// Strings without a backtick expand to themselves, so expansion is
/// idempotent on them.
pub proof fn lemma_expand_no_backticks(
    has_array: bool,
    av: Map<Seq<char>, Seq<char>>,
    gv: Map<Seq<char>, Seq<char>>,
    s: Seq<char>,
)
    requires
        !s.contains('`'),
    ensures
        spec_expand_values(has_array, av, gv, s) == ExpandOutcome::Done(s),
        spec_expand_values(has_array, av, gv, s) matches ExpandOutcome::Done(r) ==> spec_expand_values(
            has_array,
            av,
            gv,
            r,
        ) == ExpandOutcome::Done(r),
{
}

/// One expansion step over character vectors: used by the expansion loop.
/// Returns the result and, on failure, which failure, mirroring
/// [`spec_expand_values`] exactly.
#[verifier::rlimit(100)]
#[verifier::spinoff_prover]
pub fn expand_values_chars(
    has_array: bool,
    av: &crate::defs::SymbolTable,
    gv: &crate::defs::SymbolTable,
    s: &str,
) -> (r: Result<String, ExpandFailure>)
    requires
        av.wf(),
        gv.wf(),
    ensures
        ({
            let spec = spec_expand_values(has_array, symbols_view(av), symbols_view(gv), s@);
            match r {
                Ok(out) => spec == ExpandOutcome::Done(out@),
                Err(ExpandFailure::NoArray) => spec == ExpandOutcome::NoArray,
                Err(ExpandFailure::Missing(n)) => spec == ExpandOutcome::Missing(n@),
                Err(ExpandFailure::Unterminated) => spec == ExpandOutcome::Unterminated,
            }
        }),
{
    let v = chars_of(s);
    let mut result = String::new();
    let mut pos: usize = 0;
    let ghost av_m = symbols_view(av);
    let ghost gv_m = symbols_view(gv);
    proof {
        assert(v@.subrange(0, v@.len() as int) =~= v@);
    }
    while pos < v.len()
        invariant
            pos <= v@.len(),
            v@ == s@,
            av.wf(),
            gv.wf(),
            av_m == symbols_view(av),
            gv_m == symbols_view(gv),
            spec_expand_values(has_array, av_m, gv_m, s@) == (match spec_expand_values(
                has_array,
                av_m,
                gv_m,
                v@.subrange(pos as int, v@.len() as int),
            ) {
                ExpandOutcome::Done(r) => ExpandOutcome::Done(result@ + r),
                other => other,
            }),
        decreases v@.len() - pos,
    {
        let ghost remaining = v@.subrange(pos as int, v@.len() as int);
        let tick = find_char_from(&v, pos, '`');
        match tick {
            None => {
                proof {
                    assert(!remaining.contains('`')) by {
                        if remaining.contains('`') {
                            let w = choose|w: int|
                                0 <= w < remaining.len() && remaining[w] == '`';
                            assert(v@[pos + w] == '`');
                        }
                    }
                }
                let tail = crate::dmx::slice_range(&v, pos, v.len());
                proof {
                    assert(tail@ =~= remaining);
                }
                append_chars(&mut result, &tail);
                proof {
                    assert(spec_expand_values(has_array, av_m, gv_m, remaining)
                        == ExpandOutcome::Done(remaining));
                    assert(result@ == spec_expand_values(has_array, av_m, gv_m, s@)->Done_0);
                }
                return Ok(result);
            },
            Some(i) => {
                proof {
                    assert(remaining[i - pos] == '`');
                    assert(remaining.contains('`'));
                    lemma_index_of_first(remaining, '`');
                    assert forall|w: int| 0 <= w < i - pos implies remaining[w] != '`' by {
                        assert(remaining[w] == v@[pos + w]);
                    }
                    assert(first_index_of(remaining, '`') == i - pos);
                }
                let close = find_char_from(&v, i + 1, '`');
                let ghost rest = remaining.subrange(
                    i - pos + 1,
                    remaining.len() as int,
                );
                proof {
                    assert(rest =~= v@.subrange(i + 1, v@.len() as int));
                }
                match close {
                    None => {
                        proof {
                            assert(!rest.contains('`')) by {
                                if rest.contains('`') {
                                    let w = choose|w: int| 0 <= w < rest.len() && rest[w] == '`';
                                    assert(v@[i + 1 + w] == '`');
                                }
                            }
                        }
                        return Err(ExpandFailure::Unterminated);
                    },
                    Some(j) => {
                        proof {
                            assert(rest[j - (i + 1)] == '`');
                            assert(rest.contains('`'));
                            lemma_index_of_first(rest, '`');
                            assert forall|w: int| 0 <= w < j - (i + 1) implies rest[w] != '`' by {
                                assert(rest[w] == v@[i + 1 + w]);
                            }
                            assert(first_index_of(rest, '`') == j - (i + 1));
                        }
                        let ghost expr = rest.subrange(0, j - (i + 1));
                        proof {
                            assert(expr =~= v@.subrange(i + 1, j as int));
                        }
                        let eq = find_char_from(&v, i + 1, '=');
                        let (name_to, dflt): (usize, Option<(usize, usize)>) = match eq {
                            Some(e) if e < j => (e, Some((e + 1, j))),
                            _ => (j, None),
                        };
                        proof {
                            match eq {
                                Some(e) => {
                                    if e < j {
                                        assert(expr[e - (i + 1)] == '=');
                                        assert(expr.contains('='));
                                        lemma_index_of_first(expr, '=');
                                        assert forall|w: int|
                                            0 <= w < e - (i + 1) implies expr[w] != '=' by {
                                            assert(expr[w] == v@[i + 1 + w]);
                                        }
                                        assert(first_index_of(expr, '=') == e - (i + 1));
                                        assert(expr.subrange(0, e - (i + 1)) =~= v@.subrange(
                                            i + 1,
                                            e as int,
                                        ));
                                        assert(expr.subrange(
                                            e - (i + 1) + 1,
                                            expr.len() as int,
                                        ) =~= v@.subrange(e + 1, j as int));
                                    } else {
                                        assert(!expr.contains('=')) by {
                                            if expr.contains('=') {
                                                let w = choose|w: int|
                                                    0 <= w < expr.len() && expr[w] == '=';
                                                assert(v@[i + 1 + w] == '=');
                                            }
                                        }
                                    }
                                },
                                None => {
                                    assert(!expr.contains('=')) by {
                                        if expr.contains('=') {
                                            let w = choose|w: int|
                                                0 <= w < expr.len() && expr[w] == '=';
                                            assert(v@[i + 1 + w] == '=');
                                        }
                                    }
                                },
                            }
                        }
                        let name_chars = crate::dmx::slice_range(&v, i + 1, name_to);
                        let name = string_from_chars(&name_chars);
                        if !has_array {
                            return Err(ExpandFailure::NoArray);
                        }
                        let value: Option<String> = match av.get(name.as_str()) {
                            Some(val) => Some(val.clone()),
                            None => match gv.get(name.as_str()) {
                                Some(val) => Some(val.clone()),
                                None => match dflt {
                                    Some((from, to)) => Some(
                                        string_from_chars(&crate::dmx::slice_range(&v, from, to)),
                                    ),
                                    None => None,
                                },
                            },
                        };
                        proof {
                            lemma_symbols_view(av, name@);
                            lemma_symbols_view(gv, name@);
                        }
                        match value {
                            None => {
                                return Err(ExpandFailure::Missing(name));
                            },
                            Some(val) => {
                                let ghost old_pos = pos as int;
                                let ghost old_result = result@;
                                let prefix = crate::dmx::slice_range(&v, pos, i);
                                append_chars(&mut result, &prefix);
                                result.append(val.as_str());
                                pos = j + 1;
                                proof {
                                    assert(prefix@ =~= remaining.subrange(0, i - old_pos));
                                    let tail = rest.subrange(j - (i + 1) + 1, rest.len() as int);
                                    assert(tail =~= v@.subrange(pos as int, v@.len() as int));
                                    let tail_spec = spec_expand_values(has_array, av_m, gv_m, tail);
                                    assert(spec_expand_values(has_array, av_m, gv_m, remaining) == (
                                    match tail_spec {
                                        ExpandOutcome::Done(r2) => ExpandOutcome::Done(
                                            remaining.subrange(0, i - old_pos) + val@ + r2,
                                        ),
                                        other => other,
                                    }));
                                    if tail_spec is Done {
                                        let r2 = tail_spec->Done_0;
                                        assert(old_result + (remaining.subrange(0, i - old_pos)
                                            + val@ + r2) =~= result@ + r2);
                                    }
                                }
                            },
                        }
                    },
                }
            },
        }
    }
    proof {
        assert(v@.subrange(v@.len() as int, v@.len() as int) =~= Seq::<char>::empty());
        assert(!v@.subrange(v@.len() as int, v@.len() as int).contains('`'));
        assert(result@ + Seq::<char>::empty() =~= result@);
    }
    Ok(result)
}

/// The expansion failures, as exec values.
pub enum ExpandFailure {
    NoArray,
    Missing(String),
    Unterminated,
}

/// The mathematical view of a symbol table.
pub open spec fn symbols_view(t: &crate::defs::SymbolTable) -> Map<Seq<char>, Seq<char>> {
    t@.map_values(|v: String| v@)
}

/// Lookup in the viewed table agrees with lookup in the table.
pub proof fn lemma_symbols_view(t: &crate::defs::SymbolTable, k: Seq<char>)
    ensures
        symbols_view(t).contains_key(k) == t@.contains_key(k),
        t@.contains_key(k) ==> symbols_view(t)[k] == t@[k]@,
{
}

} // verus!
