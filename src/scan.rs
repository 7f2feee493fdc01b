//! The selector accumulator: per-token state transitions that build, for the
//! rule being scanned, a selector name and the fragments that qualify it.

use crate::lexer::{CssToken, LexemeView, TokenView};
use crate::text::{push_char, trim, trimmed, underscore_spaces, underscored};
use vstd::prelude::*;
use vstd::string::*;

verus! {

/// The texts of a list of strings.
pub open spec fn texts(v: Seq<String>) -> Seq<Seq<char>> {
    v.map_values(|s: String| s@)
}

/// The text of an optional string.
pub open spec fn opt_text(o: Option<String>) -> Option<Seq<char>> {
    match o {
        Some(s) => Some(s@),
        None => None,
    }
}

/// The parts one after the other.
pub open spec fn concat_all(parts: Seq<Seq<char>>) -> Seq<char>
    decreases parts.len(),
{
    if parts.len() == 0 {
        Seq::empty()
    } else {
        concat_all(parts.drop_last()) + parts.last()
    }
}

/// `:` or `::` for a run of colons; a run of three or more counts as two.
pub open spec fn colons(n: nat) -> Seq<char> {
    if n == 0 {
        Seq::empty()
    } else if n == 1 {
        seq![':']
    } else {
        seq![':', ':']
    }
}

/// The at-keyword that opens a media condition.
pub open spec fn media_keyword() -> Seq<char> {
    seq!['m', 'e', 'd', 'i', 'a']
}

/// The scanner state in mathematical form.
pub struct ScanView {
    pub class_name: Seq<char>,
    pub focus: Seq<Seq<char>>,
    pub pending_combinator: Seq<char>,
    pub class_start_seen: bool,
    pub pseudo_pending: bool,
    pub colon_run: nat,
    pub effects: Seq<Seq<char>>,
    pub raw_prefixes: Seq<(Seq<char>, Seq<char>)>,
    pub declarations: Seq<Seq<char>>,
    pub media_prelude: Option<Seq<char>>,
    pub area: Option<Seq<char>>,
}

/// The state at the start of a level, labelled with `area` if any.
pub open spec fn fresh_state(area: Option<Seq<char>>) -> ScanView {
    ScanView {
        class_name: Seq::empty(),
        focus: Seq::empty(),
        pending_combinator: Seq::empty(),
        class_start_seen: false,
        pseudo_pending: false,
        colon_run: 0,
        effects: Seq::empty(),
        raw_prefixes: Seq::empty(),
        declarations: Seq::empty(),
        media_prelude: None,
        area,
    }
}

/// The qualifier string of the focus fragments: joined, trimmed, and with
/// spaces as underscores.
pub open spec fn qualifier(focus: Seq<Seq<char>>) -> Seq<char> {
    underscored(trimmed(concat_all(focus)))
}

/// The raw spell prefix of a selector alternative: `{qualifier}`, or nothing
/// for an empty qualifier, after `area__` when there is an area.
pub open spec fn raw_prefix(focus: Seq<Seq<char>>, area: Option<Seq<char>>) -> Seq<char> {
    let q = qualifier(focus);
    let framed = if q.len() == 0 {
        Seq::empty()
    } else {
        seq!['{'] + q + seq!['}']
    };
    match area {
        Some(a) => a + seq!['_', '_'] + framed,
        None => framed,
    }
}

/// Ends a selector alternative: its raw prefix is recorded under the class
/// name, and focus, effects and class name start over.
pub open spec fn flushed(s: ScanView) -> ScanView {
    ScanView {
        raw_prefixes: s.raw_prefixes.push((s.class_name, raw_prefix(s.focus, s.area))),
        focus: Seq::empty(),
        effects: Seq::empty(),
        class_name: Seq::empty(),
        ..s
    }
}

/// An identifier, by the first rule that applies: class name after `.`;
/// completion of a pending combinator; pseudo-class or element after colons
/// (and the selector name if there is none yet); a further part of the
/// selector; or the selector name itself.
pub open spec fn on_ident(s: ScanView, id: Seq<char>) -> ScanView {
    if s.class_start_seen && s.class_name.len() == 0 {
        ScanView { class_name: id, class_start_seen: false, ..s }
    } else if s.pending_combinator.len() > 0 {
        let sep = if s.focus.len() == 0 {
            Seq::empty()
        } else {
            seq!['_']
        };
        ScanView {
            focus: s.focus.push(sep + s.pending_combinator + seq!['_'] + id),
            pending_combinator: Seq::empty(),
            ..s
        }
    } else if s.pseudo_pending {
        let item = colons(s.colon_run) + id;
        ScanView {
            focus: s.focus.push(item),
            effects: s.effects.push(id),
            pseudo_pending: false,
            colon_run: 0,
            class_name: if s.class_name.len() == 0 {
                item
            } else {
                s.class_name
            },
            ..s
        }
    } else if s.class_name.len() > 0 {
        ScanView { focus: s.focus.push(seq!['_'] + id), ..s }
    } else {
        ScanView { class_name: id, ..s }
    }
}

/// A delimiter: `.` starts a class (ending the alternative before it when a
/// class name stands and no combinator is pending); `:`, `>`, `+`, `~` are
/// combinators; `*` is the universal selector where nothing qualifies the
/// selector yet, and a combinator otherwise.
pub open spec fn on_delim(s: ScanView, c: char) -> ScanView {
    if c == '.' {
        let t = if s.class_name.len() > 0 && s.pending_combinator.len() == 0 {
            flushed(s)
        } else {
            s
        };
        ScanView { class_start_seen: true, ..t }
    } else if c == ':' || c == '>' || c == '+' || c == '~' {
        ScanView { pending_combinator: seq![c], ..s }
    } else if c == '*' {
        if s.focus.len() == 0 {
            ScanView {
                focus: seq![seq!['*']],
                class_name: if s.class_name.len() == 0 {
                    seq!['*']
                } else {
                    s.class_name
                },
                ..s
            }
        } else {
            ScanView { pending_combinator: seq!['*'], ..s }
        }
    } else {
        s
    }
}

/// How one token other than a curly-bracket block changes the selector state.
pub open spec fn on_token(s: ScanView, lx: LexemeView) -> ScanView {
    match lx.token {
        TokenView::Ident(id) => on_ident(s, id),
        TokenView::Delim(c) => on_delim(s, c),
        TokenView::Colon => ScanView {
            pseudo_pending: true,
            colon_run: if s.colon_run < 2 {
                s.colon_run + 1
            } else {
                2
            },
            ..s
        },
        TokenView::Comma => ScanView {
            class_start_seen: false,
            pending_combinator: Seq::empty(),
            ..flushed(s)
        },
        TokenView::SquareBlock => ScanView { focus: s.focus.push(seq!['['] + lx.body), ..s },
        TokenView::Function(name) => if s.pseudo_pending {
            ScanView {
                focus: s.focus.push(colons(s.colon_run) + name + seq!['('] + lx.body),
                effects: s.effects.push(name),
                pseudo_pending: false,
                colon_run: 0,
                ..s
            }
        } else {
            s
        },
        _ => s,
    }
}

/// Keeps the text of a media condition: `@media` starts it, and while it is
/// open every token's text is added to it.
pub open spec fn track_media(s: ScanView, lx: LexemeView) -> ScanView {
    if lx.token == TokenView::AtKeyword(media_keyword()) {
        ScanView { media_prelude: Some(Seq::empty()), ..s }
    } else if s.media_prelude is Some {
        ScanView { media_prelude: Some(s.media_prelude->Some_0 + lx.head + lx.body), ..s }
    } else {
        s
    }
}

/// One step of the selector accumulator on a lexeme that is not a rule body.
pub open spec fn selector_step(s: ScanView, lx: LexemeView) -> ScanView {
    on_token(track_media(s, lx), lx)
}

/// One recorded raw spell prefix: a selector name and the prefix of one of its
/// comma-separated alternatives.
pub struct RawPrefix {
    pub class_name: String,
    pub prefix: String,
}

/// The state of one scanning level.
pub struct ScanState {
    pub class_name: String,
    pub focus: Vec<String>,
    pub pending_combinator: String,
    pub class_start_seen: bool,
    pub pseudo_pending: bool,
    pub colon_run: usize,
    pub effects: Vec<String>,
    pub raw_prefixes: Vec<RawPrefix>,
    pub declarations: Vec<String>,
    pub media_prelude: Option<String>,
    pub area: Option<String>,
}

impl View for ScanState {
    type V = ScanView;

    open spec fn view(&self) -> ScanView {
        ScanView {
            class_name: self.class_name@,
            focus: texts(self.focus@),
            pending_combinator: self.pending_combinator@,
            class_start_seen: self.class_start_seen,
            pseudo_pending: self.pseudo_pending,
            colon_run: self.colon_run as nat,
            effects: texts(self.effects@),
            raw_prefixes: self.raw_prefixes@.map_values(|r: RawPrefix| (r.class_name@, r.prefix@)),
            declarations: texts(self.declarations@),
            media_prelude: opt_text(self.media_prelude),
            area: opt_text(self.area),
        }
    }
}

/// A string holding the one character `c`.
fn char_text(c: char) -> (r: String)
    ensures
        r@ == seq![c],
{
    let mut r = String::new();
    push_char(&mut r, c);
    r
}

/// Appends `t` to `s`.
fn append(s: &mut String, t: &String)
    ensures
        final(s)@ == old(s)@ + t@,
{
    s.append(t.as_str());
}

/// All parts of `parts` one after the other.
pub fn join_all(parts: &Vec<String>) -> (r: String)
    ensures
        r@ == concat_all(texts(parts@)),
{
    let mut r = String::new();
    let mut i: usize = 0;
    while i < parts.len()
        invariant
            i <= parts.len(),
            r@ == concat_all(texts(parts@.subrange(0, i as int))),
        decreases parts.len() - i,
    {
        proof {
            let a = texts(parts@.subrange(0, i + 1));
            assert(a.drop_last() =~= texts(parts@.subrange(0, i as int)));
            assert(a.last() == parts@[i as int]@);
        }
        append(&mut r, &parts[i]);
        i += 1;
    }
    proof {
        assert(parts@.subrange(0, parts@.len() as int) =~= parts@);
    }
    r
}

/// Whether `k` is the keyword `media`.
fn is_media(k: &String) -> (r: bool)
    ensures
        r == (k@ == media_keyword()),
{
    let s = k.as_str();
    if s.unicode_len() != 5 {
        return false;
    }
    let r = s.get_char(0) == 'm' && s.get_char(1) == 'e' && s.get_char(2) == 'd' && s.get_char(3)
        == 'i' && s.get_char(4) == 'a';
    proof {
        if r {
            assert(k@ =~= media_keyword());
        }
    }
    r
}

impl ScanState {
    /// A fresh state, labelled with `area` if any.
    pub fn new(area: Option<String>) -> (r: ScanState)
        ensures
            r@ == fresh_state(opt_text(area)),
    {
        let r = ScanState {
            class_name: String::new(),
            focus: Vec::new(),
            pending_combinator: String::new(),
            class_start_seen: false,
            pseudo_pending: false,
            colon_run: 0,
            effects: Vec::new(),
            raw_prefixes: Vec::new(),
            declarations: Vec::new(),
            media_prelude: None,
            area,
        };
        proof {
            assert(texts(r.focus@) =~= Seq::empty());
            assert(texts(r.effects@) =~= Seq::empty());
            assert(texts(r.declarations@) =~= Seq::empty());
            assert(r@.raw_prefixes =~= Seq::empty());
        }
        r
    }

    /// The raw prefix of the current alternative.
    pub fn raw_prefix(&self) -> (r: String)
        ensures
            r@ == raw_prefix(self@.focus, self@.area),
    {
        let joined = join_all(&self.focus);
        let q = underscore_spaces(trim(joined.as_str()));
        let mut framed = String::new();
        if q.unicode_len() > 0 {
            push_char(&mut framed, '{');
            append(&mut framed, &q);
            push_char(&mut framed, '}');
        }
        match &self.area {
            Some(a) => {
                let mut r = a.clone();
                push_char(&mut r, '_');
                push_char(&mut r, '_');
                append(&mut r, &framed);
                proof {
                    assert(r@ =~= a@ + seq!['_', '_'] + framed@);
                }
                r
            },
            None => framed,
        }
    }

    /// Records the current alternative's raw prefix under the class name and
    /// starts the next alternative.
    pub fn flush(&mut self)
        ensures
            final(self)@ == flushed(old(self)@),
    {
        let prefix = self.raw_prefix();
        let entry = RawPrefix { class_name: self.class_name.clone(), prefix };
        self.raw_prefixes.push(entry);
        self.focus = Vec::new();
        self.effects = Vec::new();
        self.class_name = String::new();
        proof {
            assert(self@.raw_prefixes =~= flushed(old(self)@).raw_prefixes);
            assert(self@.focus =~= Seq::empty());
            assert(self@.effects =~= Seq::empty());
            assert(self@ =~= flushed(old(self)@));
        }
    }
}

/// `s` followed by the text of `t`.
fn joined(s: &String, t: &str) -> (r: String)
    ensures
        r@ == s@ + t@,
{
    let mut r = s.clone();
    r.append(t);
    r
}

/// The text `:` or `::` for a run of colons.
fn colon_text(n: usize) -> (r: String)
    ensures
        r@ == colons(n as nat),
{
    let mut r = String::new();
    if n >= 1 {
        push_char(&mut r, ':');
    }
    if n >= 2 {
        push_char(&mut r, ':');
    }
    proof {
        if n >= 2 {
            assert(r@ =~= seq![':', ':']);
        } else if n == 1 {
            assert(r@ =~= seq![':']);
        } else {
            assert(r@ =~= Seq::<char>::empty());
        }
    }
    r
}

impl ScanState {
    /// Adds one fragment to the focus.
    fn push_focus(&mut self, f: String)
        ensures
            final(self)@ == (ScanView { focus: old(self)@.focus.push(f@), ..old(self)@ }),
    {
        self.focus.push(f);
        proof {
            assert(texts(self.focus@) =~= texts(old(self).focus@).push(f@));
            assert(self@ =~= (ScanView { focus: old(self)@.focus.push(f@), ..old(self)@ }));
        }
    }

    /// Records one effect name.
    fn push_effect(&mut self, f: String)
        ensures
            final(self)@ == (ScanView { effects: old(self)@.effects.push(f@), ..old(self)@ }),
    {
        self.effects.push(f);
        proof {
            assert(texts(self.effects@) =~= texts(old(self).effects@).push(f@));
            assert(self@ =~= (ScanView { effects: old(self)@.effects.push(f@), ..old(self)@ }));
        }
    }

    fn on_ident(&mut self, id: &String)
        ensures
            final(self)@ == on_ident(old(self)@, id@),
    {
        if self.class_start_seen && self.class_name.unicode_len() == 0 {
            self.class_name = id.clone();
            self.class_start_seen = false;
        } else if self.pending_combinator.unicode_len() > 0 {
            let mut f = String::new();
            if self.focus.len() > 0 {
                push_char(&mut f, '_');
            }
            append(&mut f, &self.pending_combinator);
            push_char(&mut f, '_');
            append(&mut f, id);
            proof {
                let sep = if old(self)@.focus.len() == 0 {
                    Seq::<char>::empty()
                } else {
                    seq!['_']
                };
                assert(f@ =~= sep + old(self)@.pending_combinator + seq!['_'] + id@);
            }
            self.push_focus(f);
            self.pending_combinator = String::new();
            proof {
                assert(self@ =~= on_ident(old(self)@, id@));
            }
        } else if self.pseudo_pending {
            let item = joined(&colon_text(self.colon_run), id.as_str());
            if self.class_name.unicode_len() == 0 {
                self.class_name = item.clone();
            }
            self.push_focus(item);
            self.push_effect(id.clone());
            self.pseudo_pending = false;
            self.colon_run = 0;
            proof {
                assert(self@ =~= on_ident(old(self)@, id@));
            }
        } else if self.class_name.unicode_len() > 0 {
            let f = joined(&char_text('_'), id.as_str());
            self.push_focus(f);
        } else {
            self.class_name = id.clone();
        }
    }

    fn on_delim(&mut self, c: char)
        ensures
            final(self)@ == on_delim(old(self)@, c),
    {
        if c == '.' {
            if self.class_name.unicode_len() > 0 && self.pending_combinator.unicode_len() == 0 {
                self.flush();
            }
            self.class_start_seen = true;
        } else if c == ':' || c == '>' || c == '+' || c == '~' {
            self.pending_combinator = char_text(c);
        } else if c == '*' {
            if self.focus.len() == 0 {
                self.push_focus(char_text('*'));
                if self.class_name.unicode_len() == 0 {
                    self.class_name = char_text('*');
                }
                proof {
                    assert(self@.focus =~= seq![seq!['*']]);
                    assert(self@ =~= on_delim(old(self)@, c));
                }
            } else {
                self.pending_combinator = char_text('*');
            }
        }
    }

    /// Keeps the text of an open media condition.
    fn track_media(&mut self, token: &CssToken, head: &str, body: &str)
        ensures
            final(self)@ == track_media(
                old(self)@,
                LexemeView { token: token@, head: head@, body: body@ },
            ),
    {
        let starts = match token {
            CssToken::AtKeyword(k) => is_media(k),
            _ => false,
        };
        if starts {
            self.media_prelude = Some(String::new());
        } else {
            match &self.media_prelude {
                Some(p) => {
                    let q = joined(&joined(p, head), body);
                    self.media_prelude = Some(q);
                },
                None => {},
            }
        }
    }

    /// One step of the selector accumulator on a token that is not a rule
    /// body: `head` is the text up to the end of the token, `body` the block it
    /// opens, if any.
    pub fn step(&mut self, token: &CssToken, head: &str, body: &str)
        ensures
            final(self)@ == selector_step(
                old(self)@,
                LexemeView { token: token@, head: head@, body: body@ },
            ),
    {
        self.track_media(token, head, body);
        let ghost mid = self@;
        let ghost lx = LexemeView { token: token@, head: head@, body: body@ };
        match token {
            CssToken::Ident(id) => self.on_ident(id),
            CssToken::Delim(c) => self.on_delim(*c),
            CssToken::Colon => {
                self.pseudo_pending = true;
                if self.colon_run < 2 {
                    self.colon_run = self.colon_run + 1;
                } else {
                    self.colon_run = 2;
                }
                proof {
                    assert(self@ =~= on_token(mid, lx));
                }
            },
            CssToken::Comma => {
                self.flush();
                self.class_start_seen = false;
                self.pending_combinator = String::new();
                proof {
                    assert(self@ =~= on_token(mid, lx));
                }
            },
            CssToken::SquareBlock => {
                let f = joined(&char_text('['), body);
                self.push_focus(f);
            },
            CssToken::Function(name) => {
                if self.pseudo_pending {
                    let mut f = colon_text(self.colon_run);
                    append(&mut f, name);
                    push_char(&mut f, '(');
                    f.append(body);
                    self.push_focus(f);
                    self.push_effect(name.clone());
                    self.pseudo_pending = false;
                    self.colon_run = 0;
                    proof {
                        assert(f@ =~= colons(mid.colon_run) + name@ + seq!['('] + body@);
                        assert(self@ =~= on_token(mid, lx));
                    }
                }
            },
            _ => {},
        }
    }
}

/// After a rule body: the per-rule fields start over.
pub open spec fn rule_reset(s: ScanView) -> ScanView {
    ScanView {
        raw_prefixes: Seq::empty(),
        class_name: Seq::empty(),
        declarations: Seq::empty(),
        effects: Seq::empty(),
        focus: Seq::empty(),
        class_start_seen: false,
        pending_combinator: Seq::empty(),
        ..s
    }
}

/// The area label of a media condition: the text from after `@media` to the
/// block's opening bracket, without that bracket, trimmed, with spaces as
/// underscores.
pub open spec fn media_area(prelude: Seq<char>) -> Seq<char> {
    underscored(trimmed(crate::text::without_last(prelude)))
}

/// The area label of the media condition `prelude` followed by `head`.
pub fn media_area_text(prelude: &String, head: &str) -> (r: String)
    ensures
        r@ == media_area(prelude@ + head@),
{
    let whole = joined(prelude, head);
    underscore_spaces(trim(crate::text::remove_last_char(whole.as_str())))
}

impl ScanState {
    /// Starts over the per-rule fields.
    pub fn reset_rule(&mut self)
        ensures
            final(self)@ == rule_reset(old(self)@),
    {
        self.raw_prefixes = Vec::new();
        self.class_name = String::new();
        self.declarations = Vec::new();
        self.effects = Vec::new();
        self.focus = Vec::new();
        self.class_start_seen = false;
        self.pending_combinator = String::new();
        proof {
            assert(self@.raw_prefixes =~= Seq::empty());
            assert(self@.declarations =~= Seq::empty());
            assert(self@.effects =~= Seq::empty());
            assert(self@.focus =~= Seq::empty());
            assert(self@ =~= rule_reset(old(self)@));
        }
    }

    /// Adds declarations to the rule's set.
    pub fn add_declarations(&mut self, decls: Vec<String>)
        ensures
            final(self)@ == (ScanView {
                declarations: old(self)@.declarations + texts(decls@),
                ..old(self)@
            }),
    {
        let mut d = decls;
        self.declarations.append(&mut d);
        proof {
            assert(texts(self.declarations@) =~= texts(old(self).declarations@) + texts(decls@));
            assert(self@ =~= (ScanView {
                declarations: old(self)@.declarations + texts(decls@),
                ..old(self)@
            }));
        }
    }
}

} // verus!
