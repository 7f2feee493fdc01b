//! The transmutation engine: scans a CSS text lexeme by lexeme, recurses into
//! `@media` blocks, and merges the spells of every rule into one map.

use crate::lexer::{lemma_next_lexeme, next_lexeme, next_lexeme_spec, CssToken};
use crate::rule::{body_declarations, extract_declarations, generate_spells_map, spells_of};
use crate::scan::{
    texts, flushed, fresh_state, media_area, media_area_text, rule_reset, selector_step, ScanState,
    ScanView,
};
use crate::spell_map::{merge_maps, merged, text_set, texts_distinct, SpellMap};
use crate::text::push_char;
use grimoire_css_lib::{GrimoireCssError, Spell};
use std::collections::HashSet;
use vstd::prelude::*;
use vstd::string::*;

verus! {

/// The error type of grimoire_css_lib, carried through unchanged.
#[verifier::external_type_specification]
#[verifier::external_body]
pub struct ExGrimoireCssError(GrimoireCssError);

/// What `Spell::new` says of a selector name: `Some(true)` when it already is
/// a spell, `Some(false)` when it is not, `None` when it is rejected.
pub uninterp spec fn spell_verdict(name: Seq<char>) -> Option<bool>;

/// Relies on grimoire_css_lib's `Spell::new`: with no shared spells, no
/// scrolls and no source file, it parses the name alone and returns
/// `Ok(Some(_))` for a spell, `Ok(None)` for anything else, or an error.
#[verifier::external_body]
fn recognize_spell(name: &String) -> (r: Result<bool, GrimoireCssError>)
    ensures
        r is Err <==> spell_verdict(name@) is None,
        r matches Ok(b) ==> spell_verdict(name@) == Some(b),
{
    match Spell::new(name, &HashSet::new(), &None, (0, 0), None) {
        Ok(Some(_)) => Ok(true),
        Ok(None) => Ok(false),
        Err(e) => Err(e),
    }
}

/// Spell maps in mathematical form.
pub type SpellsView = Map<Seq<char>, Set<Seq<char>>>;

/// Scanning the rest `text` from state `s` with the spells `acc` found so
/// far: the final spells and state, or `None` where the spell oracle rejects
/// a selector name.
///
/// A curly-bracket block after `@media` is scanned as a text of its own,
/// from a fresh state labelled with the media area, and its spells are merged
/// in. Any other curly-bracket block is a rule body: a selector that already is
/// a spell is skipped, otherwise the last alternative is recorded and the
/// rule's spells are merged in. Either way the rule's fields start over.
pub open spec fn scan_rest(text: Seq<char>, s: ScanView, acc: SpellsView) -> Option<
    (SpellsView, ScanView),
>
    decreases text.len(),
{
    match next_lexeme_spec(text) {
        None => Some((acc, s)),
        Some((lx, rest)) => {
            proof {
                lemma_next_lexeme(text);
            }
            if lx.token is CurlyBlock {
                match s.media_prelude {
                    Some(prelude) => match scan_rest(
                        lx.body,
                        fresh_state(Some(media_area(prelude + lx.head))),
                        Map::empty(),
                    ) {
                        None => None,
                        Some((inner, _)) => scan_rest(
                            rest,
                            ScanView { media_prelude: None, area: None, ..s },
                            merged(acc, inner),
                        ),
                    },
                    None => match spell_verdict(s.class_name) {
                        None => None,
                        Some(true) => scan_rest(rest, rule_reset(s), acc),
                        Some(false) => {
                            let f = flushed(s);
                            let t = ScanView {
                                declarations: f.declarations + body_declarations(lx.body),
                                ..f
                            };
                            scan_rest(
                                rest,
                                rule_reset(t),
                                merged(acc, spells_of(t.raw_prefixes, t.declarations)),
                            )
                        },
                    },
                }
            } else {
                scan_rest(rest, selector_step(s, lx), acc)
            }
        },
    }
}

/// A rule whose selector name the spell oracle already recognizes as a spell
/// is skipped without error: scanning goes on after its body with the
/// rule's fields started over and the spells found so far unchanged.
pub proof fn lemma_recognized_spell_skipped(text: Seq<char>, s: ScanView, acc: SpellsView)
    requires
        next_lexeme_spec(text) matches Some((lx, _)) && lx.token is CurlyBlock,
        s.media_prelude is None,
        spell_verdict(s.class_name) == Some(true),
    ensures
        scan_rest(text, s, acc) == scan_rest(next_lexeme_spec(text)->Some_0.1, rule_reset(s), acc),
{
}

/// The spells of a whole CSS text, scanned from a fresh state with the given
/// area label; `None` where the spell oracle rejects a selector name.
pub open spec fn transmuted(text: Seq<char>, area: Option<Seq<char>>) -> Option<SpellsView> {
    match scan_rest(text, fresh_state(area), Map::empty()) {
        Some((m, _)) => Some(m),
        None => None,
    }
}

/// Why a transmutation produced no result.
#[derive(Debug)]
pub enum TransmuteError {
    /// No selector with a name made any spell.
    InvalidInput(String),
    /// The spell oracle rejected a selector name.
    Spell(GrimoireCssError),
}

/// Scans `css_input` from `parser_state` and returns the spells it makes. On
/// success the state is the one that the scan ends in.
pub fn process_css_into_raw_spells(css_input: &str, parser_state: &mut ScanState) -> (r: Result<
    SpellMap,
    TransmuteError,
>)
    ensures
        match scan_rest(css_input@, old(parser_state)@, Map::empty()) {
            None => r matches Err(TransmuteError::Spell(_)),
            Some((m, s)) => r matches Ok(map) && map.wf() && map@ == m && final(parser_state)@ == s,
        },
    decreases css_input@.len(),
{
    let mut result = SpellMap::new();
    let mut rest: &str = css_input;
    loop
        invariant
            result.wf(),
            rest@.len() <= css_input@.len(),
            scan_rest(css_input@, old(parser_state)@, Map::empty()) == scan_rest(
                rest@,
                parser_state@,
                result@,
            ),
        decreases rest@.len(),
    {
        match next_lexeme(rest) {
            None => {
                return Ok(result);
            },
            Some((token, head, body, next)) => {
                proof {
                    lemma_next_lexeme(rest@);
                }
                let ghost s0 = parser_state@;
                match token {
                    CssToken::CurlyBlock => {
                        let nested = match &parser_state.media_prelude {
                            Some(prelude) => Some(media_area_text(prelude, head)),
                            None => None,
                        };
                        match nested {
                            Some(area) => {
                                let mut inner_state = ScanState::new(Some(area));
                                match process_css_into_raw_spells(body, &mut inner_state) {
                                    Ok(inner) => {
                                        merge_maps(&mut result, inner);
                                    },
                                    Err(e) => {
                                        return Err(e);
                                    },
                                }
                                parser_state.media_prelude = None;
                                parser_state.area = None;
                                proof {
                                    assert(parser_state@ =~= (ScanView {
                                        media_prelude: None,
                                        area: None,
                                        ..s0
                                    }));
                                }
                            },
                            None => {
                                match recognize_spell(&parser_state.class_name) {
                                    Err(e) => {
                                        return Err(TransmuteError::Spell(e));
                                    },
                                    Ok(true) => {
                                        parser_state.reset_rule();
                                    },
                                    Ok(false) => {
                                        parser_state.flush();
                                        let decls = extract_declarations(body);
                                        parser_state.add_declarations(decls);
                                        let spells = generate_spells_map(parser_state);
                                        merge_maps(&mut result, spells);
                                        parser_state.reset_rule();
                                    },
                                }
                            },
                        }
                    },
                    _ => {
                        parser_state.step(&token, head, body);
                    },
                }
                rest = next;
            },
        }
    }
}

/// One selector of the result: its name, its spells, and, when asked for,
/// the spells on one line separated by single spaces.
pub struct TransmutedClass {
    pub name: String,
    pub spells: Vec<String>,
    pub oneliner: Option<String>,
}

/// The texts separated by single spaces.
pub open spec fn spaced(v: Seq<Seq<char>>) -> Seq<char>
    decreases v.len(),
{
    if v.len() == 0 {
        Seq::empty()
    } else if v.len() == 1 {
        v[0]
    } else {
        spaced(v.drop_last()) + seq![' '] + v.last()
    }
}

/// Some selector with a non-empty name has an entry.
pub open spec fn has_named_entry(m: SpellsView) -> bool {
    exists|k: Seq<char>| m.contains_key(k) && k.len() > 0
}

/// `out` lists exactly the entries of `m` with non-empty names, each once,
/// with its spells once each, and a oneliner exactly when asked for.
pub open spec fn lists_entries(out: Seq<TransmutedClass>, m: SpellsView, include_oneliner: bool) -> bool {
    &&& forall|i: int, j: int| 0 <= i < j < out.len() ==> out[i].name@ != out[j].name@
    &&& forall|i: int|
        #![trigger out[i]]
        0 <= i < out.len() ==> {
            &&& out[i].name@.len() > 0
            &&& m.contains_key(out[i].name@)
            &&& text_set(out[i].spells@) == m[out[i].name@]
            &&& texts_distinct(out[i].spells@)
            &&& match out[i].oneliner {
                Some(line) => include_oneliner && line@ == spaced(texts(out[i].spells@)),
                None => !include_oneliner,
            }
        }
    &&& forall|k: Seq<char>|
        m.contains_key(k) && k.len() > 0 ==> exists|i: int| 0 <= i < out.len() && out[i].name@ == k
}

/// The spells joined by single spaces.
pub fn oneliner(spells: &Vec<String>) -> (r: String)
    ensures
        r@ == spaced(texts(spells@)),
{
    let mut r = String::new();
    let mut i: usize = 0;
    while i < spells.len()
        invariant
            i <= spells.len(),
            r@ == spaced(texts(spells@.subrange(0, i as int))),
        decreases spells.len() - i,
    {
        let ghost before = r@;
        if i > 0 {
            push_char(&mut r, ' ');
        }
        r.append(spells[i].as_str());
        proof {
            let a = texts(spells@.subrange(0, i + 1));
            assert(a.drop_last() =~= texts(spells@.subrange(0, i as int)));
            if i == 0 {
                assert(r@ =~= a[0]);
            }
        }
        i += 1;
    }
    proof {
        assert(spells@.subrange(0, spells@.len() as int) =~= spells@);
    }
    r
}

/// A copy of a list of strings.
fn copy_texts(v: &Vec<String>) -> (r: Vec<String>)
    ensures
        r@ == v@,
{
    let mut r: Vec<String> = Vec::new();
    let mut i: usize = 0;
    while i < v.len()
        invariant
            i <= v.len(),
            r@ == v@.subrange(0, i as int),
        decreases v.len() - i,
    {
        r.push(v[i].clone());
        proof {
            assert(r@ =~= v@.subrange(0, i + 1));
        }
        i += 1;
    }
    proof {
        assert(v@.subrange(0, v@.len() as int) =~= v@);
    }
    r
}

/// Transmutes a CSS text into its selectors with their spells. Fails with
/// `InvalidInput` where no selector with a name makes a spell, and with
/// `Spell` where the spell oracle rejects a selector name.
pub fn transmute_css(css: &str, include_oneliner: bool) -> (r: Result<
    Vec<TransmutedClass>,
    TransmuteError,
>)
    ensures
        match transmuted(css@, None) {
            None => r matches Err(TransmuteError::Spell(_)),
            Some(m) => if has_named_entry(m) {
                r matches Ok(out) && lists_entries(out@, m, include_oneliner)
            } else {
                r matches Err(TransmuteError::InvalidInput(_))
            },
        },
{
    let mut state = ScanState::new(None);
    let map = match process_css_into_raw_spells(css, &mut state) {
        Ok(map) => map,
        Err(e) => {
            return Err(e);
        },
    };
    let ghost m = map@;
    let mut out: Vec<TransmutedClass> = Vec::new();
    let ghost mut taken: Seq<int> = Seq::empty();
    let mut i: usize = 0;
    while i < map.entries.len()
        invariant
            map.wf(),
            m == map@,
            i <= map.entries.len(),
            taken.len() == out@.len(),
            forall|a: int| 0 <= a < out@.len() ==> 0 <= #[trigger] taken[a] < i && out@[a].name@
                == map.entries@[taken[a]].name@ && out@[a].spells@ == map.entries@[taken[a]].spells@,
            forall|a: int, b: int| 0 <= a < b < out@.len() ==> taken[a] < taken[b],
            forall|a: int|
                #![trigger out@[a]]
                0 <= a < out@.len() ==> {
                    &&& out@[a].name@.len() > 0
                    &&& match out@[a].oneliner {
                        Some(line) => include_oneliner && line@ == spaced(texts(out@[a].spells@)),
                        None => !include_oneliner,
                    }
                },
            forall|c: int|
                0 <= c < i && map.entries@[c].name@.len() > 0 ==> exists|a: int|
                    0 <= a < out@.len() && taken[a] == c,
        decreases map.entries.len() - i,
    {
        let entry = &map.entries[i];
        if entry.name.unicode_len() > 0 {
            let line = if include_oneliner {
                Some(oneliner(&entry.spells))
            } else {
                None
            };
            let item = TransmutedClass {
                name: entry.name.clone(),
                spells: copy_texts(&entry.spells),
                oneliner: line,
            };
            out.push(item);
            proof {
                let old_taken = taken;
                taken = taken.push(i as int);
                assert(out@[out@.len() - 1] == item);
                assert forall|c: int|
                    0 <= c < i + 1 && map.entries@[c].name@.len() > 0 implies exists|a: int|
                        0 <= a < out@.len() && taken[a] == c by {
                    if c == i {
                        assert(taken[out@.len() - 1] == c);
                    } else {
                        let a = choose|a: int| 0 <= a < old_taken.len() && old_taken[a] == c;
                        assert(taken[a] == c);
                    }
                }
            }
        }
        i += 1;
    }
    proof {
        assert forall|a: int| 0 <= a < out@.len() implies {
            &&& m.contains_key(#[trigger] out@[a].name@)
            &&& text_set(out@[a].spells@) == m[out@[a].name@]
            &&& texts_distinct(out@[a].spells@)
        } by {
            crate::spell_map::lemma_entry_in_view(map.entries@, taken[a]);
        }
        assert forall|a: int, b: int| 0 <= a < b < out@.len() implies out@[a].name@ != out@[b].name@ by {
            assert(taken[a] < taken[b]);
        }
        assert forall|k: Seq<char>| m.contains_key(k) && k.len() > 0 implies exists|a: int|
            0 <= a < out@.len() && out@[a].name@ == k by {
            let c = choose|c: int| 0 <= c < map.entries@.len() && map.entries@[c].name@ == k;
            let a = choose|a: int| 0 <= a < out@.len() && taken[a] == c;
            assert(out@[a].name@ == k);
        }
    }
    if out.len() == 0 {
        proof {
            if has_named_entry(m) {
                let k = choose|k: Seq<char>| m.contains_key(k) && k.len() > 0;
                let c = choose|c: int| 0 <= c < map.entries@.len() && map.entries@[c].name@ == k;
                assert(map.entries@[c].name@.len() > 0);
            }
        }
        return Err(TransmuteError::InvalidInput(String::from_str("There is nothing to transmute.")));
    }
    proof {
        let k = out@[0].name@;
        assert(m.contains_key(k) && k.len() > 0);
    }
    Ok(out)
}

} // verus!
