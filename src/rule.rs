//! A rule body: its declarations, and the spells that its selectors and
//! declarations make together.

use crate::lexer::{lemma_next_lexeme, next_lexeme, next_lexeme_spec, CssToken, TokenView};
use crate::scan::{texts, ScanState};
use crate::spell_map::{
    lemma_merge_associative, lemma_merge_same_key, merged, SpellMap,
};
use crate::text::{remove_last_char, trim, trimmed, underscore_spaces, underscored, without_last};
use vstd::prelude::*;
use vstd::string::*;

verus! {

/// The canonical `component=target` form of a declaration, from the text up
/// to and including its colon and the text after the colon up to and
/// including its semicolon.
pub open spec fn declaration(before: Seq<char>, after: Seq<char>) -> Seq<char> {
    underscored(trimmed(without_last(before)) + seq!['='] + trimmed(without_last(after)))
}

/// The declarations of the rest `text` of a rule body. `since` is the text
/// read since the current declaration began; `split` holds, once a colon was
/// read, the text up to the last colon and the text after it.
pub open spec fn declarations_in(
    text: Seq<char>,
    since: Seq<char>,
    split: Option<(Seq<char>, Seq<char>)>,
) -> Seq<Seq<char>>
    decreases text.len(),
{
    match next_lexeme_spec(text) {
        None => Seq::empty(),
        Some((lx, rest)) => {
            proof {
                lemma_next_lexeme(text);
            }
            let piece = lx.head + lx.body;
            let read = since + piece;
            match lx.token {
                TokenView::Colon => declarations_in(rest, read, Some((read, Seq::empty()))),
                TokenView::Semicolon => match split {
                    Some((before, after)) => seq![declaration(before, after + piece)]
                        + declarations_in(rest, Seq::empty(), None),
                    None => declarations_in(rest, Seq::empty(), None),
                },
                _ => declarations_in(
                    rest,
                    read,
                    match split {
                        Some((before, after)) => Some((before, after + piece)),
                        None => None,
                    },
                ),
            }
        },
    }
}

/// The declarations of a rule body, in the order they are written. A
/// declaration without a colon before its semicolon, or without a
/// semicolon, makes none.
pub open spec fn body_declarations(body: Seq<char>) -> Seq<Seq<char>> {
    declarations_in(body, Seq::empty(), None)
}

/// The canonical form of one declaration.
pub fn declaration_text(before: &str, after: &str) -> (r: String)
    ensures
        r@ == declaration(before@, after@),
{
    let component = trim(remove_last_char(before));
    let target = trim(remove_last_char(after));
    let mut d = component.to_owned();
    d.append("=");
    d.append(target);
    proof {
        reveal_strlit("=");
        assert(d@ =~= trimmed(without_last(before@)) + seq!['='] + trimmed(without_last(after@)));
    }
    underscore_spaces(d.as_str())
}

pub open spec fn split_view(o: Option<(String, String)>) -> Option<(Seq<char>, Seq<char>)> {
    match o {
        Some((a, b)) => Some((a@, b@)),
        None => None,
    }
}

/// Reads the declarations of a rule body.
pub fn extract_declarations(body: &str) -> (r: Vec<String>)
    ensures
        texts(r@) == body_declarations(body@),
{
    let mut out: Vec<String> = Vec::new();
    let mut rest: &str = body;
    let mut since = String::new();
    let mut split: Option<(String, String)> = None;
    loop
        invariant
            texts(out@) + declarations_in(rest@, since@, split_view(split)) == body_declarations(
                body@,
            ),
        decreases rest@.len(),
    {
        match next_lexeme(rest) {
            None => {
                proof {
                    assert(texts(out@) + Seq::<Seq<char>>::empty() =~= texts(out@));
                }
                return out;
            },
            Some((token, head, bd, next)) => {
                proof {
                    lemma_next_lexeme(rest@);
                }
                let ghost piece = head@ + bd@;
                let ghost old_out = texts(out@);
                let ghost old_since = since@;
                let ghost old_split = split_view(split);
                let ghost lx = crate::lexer::LexemeView { token: token@, head: head@, body: bd@ };
                since.append(head);
                since.append(bd);
                proof {
                    assert(since@ =~= old_since + piece);
                    assert(next_lexeme_spec(rest@) == Some((lx, next@)));
                }
                match token {
                    CssToken::Colon => {
                        split = Some((since.clone(), String::new()));
                        proof {
                            assert(declarations_in(rest@, old_since, old_split) == declarations_in(
                                next@, since@, split_view(split)));
                        }
                    },
                    CssToken::Semicolon => {
                        match split {
                            Some((before, after)) => {
                                let mut a = after;
                                a.append(head);
                                a.append(bd);
                                let d = declaration_text(before.as_str(), a.as_str());
                                out.push(d);
                                proof {
                                    assert(a@ =~= after@ + piece);
                                    assert(declarations_in(rest@, old_since, old_split) == seq![d@]
                                        + declarations_in(next@, Seq::empty(), None));
                                    assert(texts(out@) =~= old_out.push(d@));
                                    assert(old_out.push(d@) + declarations_in(next@, Seq::empty(), None)
                                        =~= old_out + (seq![d@] + declarations_in(next@, Seq::empty(), None)));
                                }
                            },
                            None => {},
                        }
                        since = String::new();
                        split = None;
                    },
                    _ => {
                        split = match split {
                            Some((before, after)) => {
                                let ghost av = after@;
                                let mut a = after;
                                a.append(head);
                                a.append(bd);
                                proof {
                                    assert(a@ =~= av + piece);
                                }
                                Some((before, a))
                            },
                            None => None,
                        };
                        proof {
                            assert(declarations_in(rest@, old_since, old_split) == declarations_in(
                                next@, since@, split_view(split)));
                        }
                    },
                }
                rest = next;
            },
        }
    }
}

/// The spells of one raw prefix: the prefix followed by each declaration.
pub open spec fn row(prefix: Seq<char>, decls: Seq<Seq<char>>) -> Set<Seq<char>> {
    Set::new(|sp: Seq<char>| exists|j: int| 0 <= j < decls.len() && sp == prefix + decls[j])
}

/// The spells that raw prefixes and declarations make together: under each
/// selector name that has a raw prefix, every prefix of that name followed by
/// every declaration. Without declarations there are none.
pub open spec fn spells_of(raw: Seq<(Seq<char>, Seq<char>)>, decls: Seq<Seq<char>>) -> Map<
    Seq<char>,
    Set<Seq<char>>,
> {
    Map::new(
        |c: Seq<char>| decls.len() > 0 && exists|i: int| 0 <= i < raw.len() && raw[i].0 == c,
        |c: Seq<char>|
            Set::new(
                |sp: Seq<char>|
                    exists|i: int, j: int|
                        0 <= i < raw.len() && 0 <= j < decls.len() && raw[i].0 == c && sp == raw[i].1
                            + decls[j],
            ),
    )
}

proof fn lemma_row_push(prefix: Seq<char>, decls: Seq<Seq<char>>, j: int)
    requires
        0 <= j < decls.len(),
    ensures
        row(prefix, decls.subrange(0, j + 1)) == row(prefix, decls.subrange(0, j)).union(
            set![prefix + decls[j]],
        ),
{
    let a = decls.subrange(0, j + 1);
    let b = decls.subrange(0, j);
    assert forall|sp: Seq<char>| #[trigger] row(prefix, a).contains(sp) == row(prefix, b).union(set![prefix + decls[j]]).contains(sp) by {
        if row(prefix, a).contains(sp) {
            let w = choose|w: int| 0 <= w < a.len() && sp == prefix + a[w];
            if w < j {
                assert(sp == prefix + b[w]);
            }
        }
        if row(prefix, b).contains(sp) {
            let w = choose|w: int| 0 <= w < b.len() && sp == prefix + b[w];
            assert(sp == prefix + a[w]);
        }
        if sp == prefix + decls[j] {
            assert(sp == prefix + a[j]);
        }
    }
    assert(row(prefix, a) =~= row(prefix, b).union(set![prefix + decls[j]]));
}

proof fn lemma_spells_of_step(raw: Seq<(Seq<char>, Seq<char>)>, decls: Seq<Seq<char>>, i: int)
    requires
        0 <= i < raw.len(),
        decls.len() > 0,
    ensures
        spells_of(raw.subrange(0, i + 1), decls) == merged(
            spells_of(raw.subrange(0, i), decls),
            map![raw[i].0 => row(raw[i].1, decls)],
        ),
{
    let p = raw.subrange(0, i);
    let q = raw.subrange(0, i + 1);
    let l = spells_of(q, decls);
    let a = spells_of(p, decls);
    let c0 = raw[i].0;
    let r = merged(a, map![c0 => row(raw[i].1, decls)]);
    assert forall|c: Seq<char>| #[trigger] l.contains_key(c) == r.contains_key(c) by {
        if l.contains_key(c) {
            let w = choose|w: int| 0 <= w < q.len() && q[w].0 == c;
            if w < i {
                assert(p[w].0 == c);
            }
        }
        if a.contains_key(c) {
            let w = choose|w: int| 0 <= w < p.len() && p[w].0 == c;
            assert(q[w].0 == c);
        }
        if c == c0 {
            assert(q[i].0 == c);
        }
    }
    assert forall|c: Seq<char>| #[trigger] l.contains_key(c) implies l[c] == r[c] by {
        assert forall|sp: Seq<char>| #[trigger] l[c].contains(sp) == r[c].contains(sp) by {
            if l[c].contains(sp) {
                let (w, j) = choose|w: int, j: int|
                    0 <= w < q.len() && 0 <= j < decls.len() && q[w].0 == c && sp == q[w].1 + decls[j];
                if w < i {
                    assert(p[w].0 == c && sp == p[w].1 + decls[j]);
                    assert(a[c].contains(sp));
                } else {
                    assert(row(raw[i].1, decls).contains(sp));
                }
            }
            if a.contains_key(c) && a[c].contains(sp) {
                let (w, j) = choose|w: int, j: int|
                    0 <= w < p.len() && 0 <= j < decls.len() && p[w].0 == c && sp == p[w].1 + decls[j];
                assert(q[w].0 == c && sp == q[w].1 + decls[j]);
            }
            if c == c0 && row(raw[i].1, decls).contains(sp) {
                let j = choose|j: int| 0 <= j < decls.len() && sp == raw[i].1 + decls[j];
                assert(q[i].0 == c && sp == q[i].1 + decls[j]);
            }
        }
        assert(l[c] =~= r[c]);
    }
    assert(l =~= r);
}

/// The spells of the finished rule: for every selector name with raw
/// prefixes, each prefix followed by each declaration.
pub fn generate_spells_map(state: &ScanState) -> (r: SpellMap)
    ensures
        r.wf(),
        r@ == spells_of(state@.raw_prefixes, state@.declarations),
{
    let ghost raw = state@.raw_prefixes;
    let ghost decls = state@.declarations;
    let mut r = SpellMap::new();
    if state.declarations.len() == 0 {
        proof {
            assert(r@ =~= spells_of(raw, decls));
        }
        return r;
    }
    proof {
        assert(raw.subrange(0, 0) =~= Seq::empty());
        assert(spells_of(raw.subrange(0, 0), decls) =~= Map::empty());
    }
    let mut i: usize = 0;
    while i < state.raw_prefixes.len()
        invariant
            raw == state@.raw_prefixes,
            decls == state@.declarations,
            decls.len() > 0,
            i <= raw.len(),
            r.wf(),
            r@ == spells_of(raw.subrange(0, i as int), decls),
        decreases raw.len() - i,
    {
        let class_name = &state.raw_prefixes[i].class_name;
        let prefix = &state.raw_prefixes[i].prefix;
        let ghost done = spells_of(raw.subrange(0, i as int), decls);
        let mut j: usize = 0;
        while j < state.declarations.len()
            invariant
                raw == state@.raw_prefixes,
                decls == state@.declarations,
                i < raw.len(),
                class_name@ == raw[i as int].0,
                prefix@ == raw[i as int].1,
                j <= decls.len(),
                r.wf(),
                j == 0 ==> r@ == done,
                j > 0 ==> r@ == merged(done, map![raw[i as int].0 => row(raw[i as int].1, decls.subrange(0, j as int))]),
            decreases decls.len() - j,
        {
            let mut spell = prefix.clone();
            spell.append(state.declarations[j].as_str());
            let ghost before = r@;
            r.insert_spell(class_name, &spell);
            proof {
                let c = raw[i as int].0;
                let x = prefix@ + decls[j as int];
                assert(spell@ == x);
                lemma_row_push(prefix@, decls, j as int);
                if j == 0 {
                    assert(row(prefix@, decls.subrange(0, 0)) =~= Set::<Seq<char>>::empty());
                    assert(Set::<Seq<char>>::empty().union(set![x]) =~= set![x]);
                } else {
                    let t = row(prefix@, decls.subrange(0, j as int));
                    lemma_merge_associative(done, map![c => t], map![c => set![x]]);
                    lemma_merge_same_key(c, t, set![x]);
                }
            }
            j += 1;
        }
        proof {
            assert(decls.subrange(0, decls.len() as int) =~= decls);
            lemma_spells_of_step(raw, decls, i as int);
        }
        i += 1;
    }
    proof {
        assert(raw.subrange(0, raw.len() as int) =~= raw);
    }
    r
}

} // verus!
