//! The scanner and the recursive-descent parsers for selectors, declarations
//! and whole stylesheets. Each parser is specified by a spec function over the
//! input characters and the position it starts at.
use vstd::prelude::*;
use crate::css::{
    Declaration, DeclarationView, Rule, RuleView, Selector, SelectorView, SimpleSelector,
    SimpleSelectorView, Stylesheet, Value, ValueView, declarations_view, opt_view,
    selectors_view, strings_view,
};
use crate::text::{
    chars_are, chars_of, is_space, is_whitespace, lemma_run_end, lower_of, lowercase, push_char, run_end,
};
use crate::values::{color_of, length_of, translate_color, translate_length};

verus! {

pub open spec fn is_ident_start(c: char) -> bool {
    ('A' <= c && c <= 'Z') || ('a' <= c && c <= 'z') || c >= '\u{80}' || c == '_'
}

pub open spec fn is_ident_char(c: char) -> bool {
    is_ident_start(c) || ('0' <= c && c <= '9') || c == '-'
}

pub open spec fn space_pred() -> spec_fn(char) -> bool {
    |c: char| is_space(c)
}

pub open spec fn ident_pred() -> spec_fn(char) -> bool {
    |c: char| is_ident_char(c)
}

pub open spec fn not_comma_brace() -> spec_fn(char) -> bool {
    |c: char| c != ',' && c != '{'
}

pub open spec fn not_colon() -> spec_fn(char) -> bool {
    |c: char| c != ':'
}

pub open spec fn not_value_end() -> spec_fn(char) -> bool {
    |c: char| c != ';' && c != '\n' && c != '}'
}

pub open spec fn skip_space(s: Seq<char>, i: int) -> int {
    run_end(s, i, space_pred())
}

/// Where an identifier at `i` ends; `i` itself where none starts there.
pub open spec fn ident_end(s: Seq<char>, i: int) -> int {
    if 0 <= i < s.len() && is_ident_start(s[i]) {
        run_end(s, i, ident_pred())
    } else {
        i
    }
}

/// The identifier at `i`, in lower case; empty where none starts there.
pub open spec fn ident_at(s: Seq<char>, i: int) -> Seq<char> {
    if ident_end(s, i) == i {
        Seq::empty()
    } else {
        lower_of(s.subrange(i, ident_end(s, i)))
    }
}

/// What a compound selector has seen of ids so far: no `#`, one `#` with
/// its name, one `#` with no name after it, or two or more `#`.
pub enum IdState {
    NoId,
    One(Seq<char>),
    Nameless,
    Conflicted,
}

pub struct SelState {
    pub tag: Option<Seq<char>>,
    pub id: IdState,
    pub classes: Seq<Seq<char>>,
}

impl SelState {
    /// A second `#` makes the id conflicted, which leaves the selector with
    /// no id at all.
    pub open spec fn simple(self) -> SimpleSelectorView {
        SimpleSelectorView {
            tag_name: self.tag,
            id: match self.id {
                IdState::One(n) => Some(n),
                _ => None,
            },
            classes: self.classes,
        }
    }
}

pub open spec fn sel_stop(c: char) -> bool {
    c == ',' || c == '{' || is_space(c)
}

/// One token of a compound selector at `i`: an id, a class, or a run of
/// tokens that are not modelled, which is skipped.
pub open spec fn sel_step(s: Seq<char>, i: int, st: SelState) -> (SelState, int) {
    if s[i] == '#' {
        match st.id {
            IdState::NoId => {
                let n = ident_at(s, i + 1);
                (
                    if n.len() > 0 {
                        SelState { id: IdState::One(n), ..st }
                    } else {
                        SelState { id: IdState::Nameless, ..st }
                    },
                    ident_end(s, i + 1),
                )
            },
            _ => (SelState { id: IdState::Conflicted, ..st }, i + 1),
        }
    } else if s[i] == '.' {
        let n = ident_at(s, i + 1);
        (
            if n.len() > 0 {
                SelState { classes: st.classes.push(n), ..st }
            } else {
                st
            },
            ident_end(s, i + 1),
        )
    } else {
        (st, run_end(s, i, not_comma_brace()))
    }
}

/// The ids, classes and skipped tokens of a compound selector from `i` on,
/// up to a `,`, `{` or white space.
pub open spec fn sel_loop(s: Seq<char>, i: int, st: SelState) -> (SelState, int)
    decreases s.len() - i,
{
    if i < 0 || i >= s.len() || sel_stop(s[i]) {
        (st, i)
    } else {
        let (next, j) = sel_step(s, i, st);
        if j <= i || j > s.len() {
            (next, j)
        } else {
            sel_loop(s, j, next)
        }
    }
}

/// The selector that starts at `i`, and where it ends.
pub open spec fn selector_at(s: Seq<char>, i: int) -> (SelectorView, int) {
    let i1 = skip_space(s, i);
    let tag = if i1 < s.len() && is_ident_start(s[i1]) {
        Some(ident_at(s, i1))
    } else {
        None
    };
    let (st, j) = sel_loop(
        s,
        ident_end(s, i1),
        SelState { tag, id: IdState::NoId, classes: Seq::empty() },
    );
    (
        SelectorView {
            simple: if st.simple().is_empty() {
                Seq::empty()
            } else {
                seq![st.simple()]
            },
            combinators: Seq::empty(),
        },
        j,
    )
}

/// The comma-separated selectors from `i` up to a `{`, empty ones left out.
pub open spec fn selectors_loop(s: Seq<char>, i: int, acc: Seq<SelectorView>) -> (
    Seq<SelectorView>,
    int,
)
    decreases s.len() - i,
{
    if i < 0 || i >= s.len() || s[i] == '{' {
        (acc, i)
    } else {
        let (sel, j) = selector_at(s, i);
        let acc2 = if sel.simple.len() == 0 {
            acc
        } else {
            acc.push(sel)
        };
        let k = skip_space(s, j);
        let m = if 0 <= k < s.len() && s[k] == ',' {
            k + 1
        } else {
            k
        };
        if m <= i || m > s.len() {
            (acc2, m)
        } else {
            selectors_loop(s, m, acc2)
        }
    }
}

/// The selectors from `i` and where they end, past the `{`.
pub open spec fn selectors_at(s: Seq<char>, i: int) -> (Seq<SelectorView>, int) {
    let (sels, j) = selectors_loop(s, i, Seq::empty());
    (
        sels,
        if j < s.len() {
            j + 1
        } else {
            j
        },
    )
}

pub open spec fn is_color_property(p: Seq<char>) -> bool {
    p == "background-color"@ || p == "border-color"@ || p == "color"@
}

pub open spec fn is_length_property(p: Seq<char>) -> bool {
    p == "margin-right"@ || p == "margin-bottom"@ || p == "margin-left"@ || p == "margin-top"@
        || p == "padding-right"@ || p == "padding-bottom"@ || p == "padding-left"@
        || p == "padding-top"@ || p == "border-right-width"@ || p == "border-bottom-width"@
        || p == "border-left-width"@ || p == "border-top-width"@ || p == "height"@
        || p == "width"@
}

/// The typed value of property `p` written as `raw`.
pub open spec fn value_for(p: Seq<char>, raw: Seq<char>) -> ValueView {
    if is_color_property(p) {
        ValueView::Color(color_of(raw))
    } else if is_length_property(p) {
        length_of(raw)
    } else {
        ValueView::Other(raw)
    }
}

/// Where the raw value of the `property: value` unit at `i` ends.
pub open spec fn value_end(s: Seq<char>, i: int) -> int {
    let i2 = run_end(s, skip_space(s, i), not_colon());
    let i3 = if i2 < s.len() {
        i2 + 1
    } else {
        i2
    };
    run_end(s, skip_space(s, i3), not_value_end())
}

/// The `property: value` unit at `i`: the name in lower case up to `:`, and
/// the value in lower case up to `;`, a newline or `}`.
pub open spec fn decl_unit(s: Seq<char>, i: int) -> DeclarationView {
    let i1 = skip_space(s, i);
    let i2 = run_end(s, i1, not_colon());
    let property = lower_of(s.subrange(i1, i2));
    let i3 = if i2 < s.len() {
        i2 + 1
    } else {
        i2
    };
    let i4 = skip_space(s, i3);
    let raw = lower_of(s.subrange(i4, value_end(s, i)));
    DeclarationView { property, value: value_for(property, raw) }
}

/// One `property: value` unit from `i` on: the declaration, where it is kept,
/// and where the next one starts. A unit that ends in neither `;` nor the
/// block's `}` is dropped.
pub open spec fn decl_step(s: Seq<char>, i: int) -> (Option<DeclarationView>, int) {
    let i5 = value_end(s, i);
    let d = decl_unit(s, i);
    if i5 < s.len() && s[i5] == ';' {
        (Some(d), skip_space(s, i5 + 1))
    } else {
        let k = skip_space(s, i5);
        (
            if 0 <= k < s.len() && s[k] == '}' {
                Some(d)
            } else {
                None
            },
            k,
        )
    }
}

/// The declarations from `i` up to a `}`; white space before each one, and
/// before the `}`, is skipped.
pub open spec fn decls_loop(s: Seq<char>, i: int, acc: Seq<DeclarationView>) -> (
    Seq<DeclarationView>,
    int,
)
    decreases s.len() - i,
{
    let i0 = skip_space(s, i);
    if i < 0 || i0 < i || i0 >= s.len() || s[i0] == '}' {
        (acc, i0)
    } else {
        let (d, j) = decl_step(s, i0);
        let acc2 = match d {
            Some(d) => acc.push(d),
            None => acc,
        };
        if j <= i0 || j > s.len() {
            (acc2, j)
        } else {
            decls_loop(s, j, acc2)
        }
    }
}

/// The declarations from `i` and where they end, past the `}`.
pub open spec fn declarations_at(s: Seq<char>, i: int) -> (Seq<DeclarationView>, int) {
    let (decls, j) = decls_loop(s, i, Seq::empty());
    (
        decls,
        if j < s.len() {
            j + 1
        } else {
            j
        },
    )
}

/// `acc`, then the declarations from `i` up to a `}` that are dropped.
pub open spec fn dropped_loop(s: Seq<char>, i: int, acc: Seq<DeclarationView>) -> Seq<
    DeclarationView,
>
    decreases s.len() - i,
{
    let i0 = skip_space(s, i);
    if i < 0 || i0 < i || i0 >= s.len() || s[i0] == '}' {
        acc
    } else {
        let (d, j) = decl_step(s, i0);
        let acc2 = if d is None {
            acc.push(decl_unit(s, i0))
        } else {
            acc
        };
        if j <= i0 || j > s.len() {
            acc2
        } else {
            dropped_loop(s, j, acc2)
        }
    }
}

/// The rule that starts at `i`, and where it ends.
pub open spec fn rule_at(s: Seq<char>, i: int) -> (RuleView, int) {
    let (selectors, j) = selectors_at(s, i);
    let (declarations, k) = declarations_at(s, j);
    (RuleView { selectors, declarations }, k)
}

/// The rules from `i` to the end of the input; white space before each
/// rule, and at the end, is skipped.
pub open spec fn rules_loop(s: Seq<char>, i: int, acc: Seq<RuleView>) -> Seq<RuleView>
    decreases s.len() - i,
{
    let i0 = skip_space(s, i);
    if i < 0 || i0 < i || i0 >= s.len() {
        acc
    } else {
        let (r, j) = rule_at(s, i0);
        if j <= i0 || j > s.len() {
            acc.push(r)
        } else {
            rules_loop(s, j, acc.push(r))
        }
    }
}

/// `acc`, then the declarations dropped from the rules from `i` to the end
/// of the input, in order.
pub open spec fn rules_dropped(s: Seq<char>, i: int, acc: Seq<DeclarationView>) -> Seq<
    DeclarationView,
>
    decreases s.len() - i,
{
    let i0 = skip_space(s, i);
    if i < 0 || i0 < i || i0 >= s.len() {
        acc
    } else {
        let j = rule_at(s, i0).1;
        let acc2 = dropped_loop(s, selectors_at(s, i0).1, acc);
        if j <= i0 || j > s.len() {
            acc2
        } else {
            rules_dropped(s, j, acc2)
        }
    }
}

/// The rules of the stylesheet written as `s`.
pub open spec fn stylesheet_of(s: Seq<char>) -> Seq<RuleView> {
    rules_loop(s, 0, Seq::empty())
}

/// Once a compound selector's id is conflicted, it stays conflicted.
pub proof fn lemma_conflict_is_final(s: Seq<char>, i: int, st: SelState)
    requires
        st.id is Conflicted,
    ensures
        sel_loop(s, i, st).0.id is Conflicted,
    decreases s.len() - i,
{
    if !(i < 0 || i >= s.len() || sel_stop(s[i])) {
        let (next, j) = sel_step(s, i, st);
        if j > i && j <= s.len() {
            lemma_conflict_is_final(s, j, next);
        }
    }
}

/// A `#` token met after any earlier `#` token of the same compound
/// selector, whether or not a name followed it, leaves the selector with no
/// id: ids are never merged.
pub proof fn lemma_second_id_drops_id(s: Seq<char>, i: int, st: SelState)
    requires
        0 <= i < s.len(),
        s[i] == '#',
        !(st.id is NoId),
    ensures
        sel_loop(s, i, st).0.simple().id is None,
{
    lemma_sel_step(s, i, st);
    lemma_conflict_is_final(s, i + 1, SelState { id: IdState::Conflicted, ..st });
}

pub proof fn lemma_run_end_at(s: Seq<char>, i: int, e: int, p: spec_fn(char) -> bool)
    requires
        0 <= i <= e <= s.len(),
        forall|k: int| i <= k < e ==> #[trigger] p(s[k]),
        e == s.len() || !p(s[e]),
    ensures
        run_end(s, i, p) == e,
    decreases e - i,
{
    if i < e {
        lemma_run_end_at(s, i + 1, e, p);
    }
}

proof fn lemma_ident_end(s: Seq<char>, i: int)
    requires
        0 <= i <= s.len(),
    ensures
        i <= ident_end(s, i) <= s.len(),
        i < s.len() && is_ident_start(s[i]) ==> ident_end(s, i) > i,
{
    lemma_run_end(s, i, ident_pred());
    if i < s.len() && is_ident_start(s[i]) {
        lemma_run_end(s, i + 1, ident_pred());
    }
}

pub(crate) proof fn lemma_sel_step(s: Seq<char>, i: int, st: SelState)
    requires
        0 <= i < s.len(),
        !sel_stop(s[i]),
    ensures
        i < sel_step(s, i, st).1 <= s.len(),
{
    lemma_ident_end(s, i + 1);
    lemma_run_end(s, i + 1, not_comma_brace());
}

proof fn lemma_sel_loop(s: Seq<char>, i: int, st: SelState)
    requires
        0 <= i <= s.len(),
    ensures
        i <= sel_loop(s, i, st).1 <= s.len(),
        i < s.len() && !sel_stop(s[i]) ==> i < sel_loop(s, i, st).1,
    decreases s.len() - i,
{
    if i < s.len() && !sel_stop(s[i]) {
        lemma_sel_step(s, i, st);
        let (next, j) = sel_step(s, i, st);
        lemma_sel_loop(s, j, next);
    }
}

/// A selector that does not start at a `,` or `{` takes at least one
/// character, and the separator after it is taken too.
pub(crate) proof fn lemma_selector_progress(s: Seq<char>, i: int)
    requires
        0 <= i < s.len(),
        s[i] != '{',
    ensures
        ({
            let k = skip_space(s, selector_at(s, i).1);
            let m = if 0 <= k < s.len() && s[k] == ',' {
                k + 1
            } else {
                k
            };
            i < m <= s.len()
        }),
{
    let i1 = skip_space(s, i);
    lemma_run_end(s, i, space_pred());
    lemma_ident_end(s, i1);
    let tag = if i1 < s.len() && is_ident_start(s[i1]) {
        Some(ident_at(s, i1))
    } else {
        None
    };
    let st0 = SelState { tag, id: IdState::NoId, classes: Seq::empty() };
    lemma_sel_loop(s, ident_end(s, i1), st0);
    let j = selector_at(s, i).1;
    lemma_run_end(s, j, space_pred());
    if is_space(s[i]) {
        lemma_run_end(s, i + 1, space_pred());
    }
}

proof fn lemma_decl_step(s: Seq<char>, i: int)
    requires
        0 <= i < s.len(),
        s[i] != '}',
    ensures
        i < decl_step(s, i).1 <= s.len(),
{
    let i1 = skip_space(s, i);
    lemma_run_end(s, i, space_pred());
    if is_space(s[i]) {
        lemma_run_end(s, i + 1, space_pred());
    }
    let i2 = run_end(s, i1, not_colon());
    lemma_run_end(s, i1, not_colon());
    if i1 < s.len() && s[i1] != ':' {
        lemma_run_end(s, i1 + 1, not_colon());
    }
    let i3 = if i2 < s.len() {
        i2 + 1
    } else {
        i2
    };
    lemma_run_end(s, i3, space_pred());
    let i4 = skip_space(s, i3);
    lemma_run_end(s, i4, not_value_end());
    let i5 = run_end(s, i4, not_value_end());
    lemma_run_end(s, i5, space_pred());
    if i5 < s.len() {
        lemma_run_end(s, i5 + 1, space_pred());
    }
}

/// What a compound selector being parsed has seen of ids.
enum IdSlot {
    NoId,
    One(String),
    Nameless,
    Conflicted,
}

impl IdSlot {
    spec fn view(&self) -> IdState {
        match self {
            IdSlot::NoId => IdState::NoId,
            IdSlot::One(n) => IdState::One(n@),
            IdSlot::Nameless => IdState::Nameless,
            IdSlot::Conflicted => IdState::Conflicted,
        }
    }
}

fn is_valid_ident(c: char) -> (r: bool)
    ensures
        r == is_ident_char(c),
{
    is_valid_start_ident(c) || ('0' <= c && c <= '9') || c == '-'
}

fn is_valid_start_ident(c: char) -> (r: bool)
    ensures
        r == is_ident_start(c),
{
    is_letter(c) || is_non_ascii(c) || c == '_'
}

fn is_letter(c: char) -> (r: bool)
    ensures
        r == (('A' <= c && c <= 'Z') || ('a' <= c && c <= 'z')),
{
    is_upper_letter(c) || is_lower_letter(c)
}

fn is_upper_letter(c: char) -> (r: bool)
    ensures
        r == ('A' <= c && c <= 'Z'),
{
    c >= 'A' && c <= 'Z'
}

fn is_lower_letter(c: char) -> (r: bool)
    ensures
        r == ('a' <= c && c <= 'z'),
{
    c >= 'a' && c <= 'z'
}

fn is_non_ascii(c: char) -> (r: bool)
    ensures
        r == (c >= '\u{80}'),
{
    c >= '\u{80}'
}

fn is_color_prop(p: &[char]) -> (r: bool)
    ensures
        r == is_color_property(p@),
{
    chars_are(p, "background-color") || chars_are(p, "border-color") || chars_are(p, "color")
}

fn is_length_prop(p: &[char]) -> (r: bool)
    ensures
        r == is_length_property(p@),
{
    chars_are(p, "margin-right") || chars_are(p, "margin-bottom") || chars_are(p, "margin-left")
        || chars_are(p, "margin-top") || chars_are(p, "padding-right") || chars_are(
        p,
        "padding-bottom",
    ) || chars_are(p, "padding-left") || chars_are(p, "padding-top") || chars_are(
        p,
        "border-right-width",
    ) || chars_are(p, "border-bottom-width") || chars_are(p, "border-left-width") || chars_are(
        p,
        "border-top-width",
    ) || chars_are(p, "height") || chars_are(p, "width")
}

/// The typed value of a property, from its name and raw value.
pub fn value_of(property: &String, raw: String) -> (r: Value)
    ensures
        r@ == value_for(property@, raw@),
{
    let p = chars_of(property.as_str());
    if is_color_prop(p.as_slice()) {
        Value::Color(translate_color(&raw))
    } else if is_length_prop(p.as_slice()) {
        translate_length(&raw)
    } else {
        Value::Other(raw)
    }
}

/// A cursor over the characters of a stylesheet, with one character of
/// lookahead.
pub struct CssParser {
    chars: Vec<char>,
    pos: usize,
}

impl CssParser {
    /// The characters being parsed.
    pub closed spec fn input(&self) -> Seq<char> {
        self.chars@
    }

    /// How many characters have been consumed.
    pub closed spec fn position(&self) -> int {
        self.pos as int
    }

    pub closed spec fn wf(&self) -> bool {
        self.pos <= self.chars@.len()
    }

    pub proof fn lemma_wf(&self)
        requires
            self.wf(),
        ensures
            0 <= self.position() <= self.input().len(),
    {
    }

    /// A parser at the start of `full_css`.
    pub fn new(full_css: &str) -> (p: Self)
        ensures
            p.wf(),
            p.input() == full_css@,
            p.position() == 0,
    {
        CssParser { chars: chars_of(full_css), pos: 0 }
    }

    /// The next character, if any is left.
    fn peek(&self) -> (r: Option<char>)
        requires
            self.wf(),
        ensures
            r == (if self.position() < self.input().len() {
                Some(self.input()[self.position()])
            } else {
                None
            }),
    {
        if self.pos < self.chars.len() {
            Some(self.chars[self.pos])
        } else {
            None
        }
    }

    /// Consumes the next character, if any is left.
    fn advance(&mut self)
        requires
            old(self).wf(),
        ensures
            final(self).wf(),
            final(self).input() == old(self).input(),
            final(self).position() == (if old(self).position() < old(self).input().len() {
                old(self).position() + 1
            } else {
                old(self).position()
            }),
    {
        if self.pos < self.chars.len() {
            self.pos = self.pos + 1;
        }
    }

    /// Consumes characters while `condition` holds of them, and returns them;
    /// stops at the first one it fails on, or at the end of the input.
    pub fn consume_while<F: Fn(char) -> bool>(&mut self, condition: F) -> (r: String)
        requires
            old(self).wf(),
            forall|c: char| condition.requires((c,)),
        ensures
            final(self).wf(),
            final(self).input() == old(self).input(),
            old(self).position() <= final(self).position(),
            r@ == old(self).input().subrange(old(self).position(), final(self).position()),
            forall|k: int|
                old(self).position() <= k < final(self).position() ==> condition.ensures(
                    (old(self).input()[k],),
                    true,
                ),
            final(self).position() < final(self).input().len() ==> condition.ensures(
                (old(self).input()[final(self).position()],),
                false,
            ),
    {
        let mut result = String::new();
        let start = self.pos;
        loop
            invariant
                start <= self.pos <= self.chars@.len(),
                self.chars@ == old(self).chars@,
                start == old(self).pos,
                forall|c: char| condition.requires((c,)),
                result@ == self.chars@.subrange(start as int, self.pos as int),
                forall|k: int|
                    start <= k < self.pos ==> condition.ensures((self.chars@[k],), true),
            ensures
                start <= self.pos <= self.chars@.len(),
                self.chars@ == old(self).chars@,
                result@ == self.chars@.subrange(start as int, self.pos as int),
                forall|k: int|
                    start <= k < self.pos ==> condition.ensures((self.chars@[k],), true),
                self.pos < self.chars@.len() ==> condition.ensures(
                    (self.chars@[self.pos as int],),
                    false,
                ),
            decreases self.chars@.len() - self.pos,
        {
            if self.pos >= self.chars.len() {
                break;
            }
            let c = self.chars[self.pos];
            if !condition(c) {
                break;
            }
            push_char(&mut result, c);
            self.pos = self.pos + 1;
            assert(result@ =~= self.chars@.subrange(start as int, self.pos as int));
        }
        result
    }

    /// `consume_while` with a condition that is the spec predicate `p`.
    fn consume_pred<F: Fn(char) -> bool>(&mut self, condition: F, Ghost(p): Ghost<
        spec_fn(char) -> bool,
    >) -> (r: String)
        requires
            old(self).wf(),
            forall|c: char| condition.requires((c,)),
            forall|c: char, b: bool| condition.ensures((c,), b) ==> b == p(c),
        ensures
            final(self).wf(),
            final(self).input() == old(self).input(),
            final(self).position() == run_end(old(self).input(), old(self).position(), p),
            r@ == old(self).input().subrange(old(self).position(), final(self).position()),
    {
        let ghost s = self.input();
        let ghost i = self.position();
        let r = self.consume_while(condition);
        proof {
            let e = self.position();
            assert forall|k: int| i <= k < e implies #[trigger] p(s[k]) by {
                assert(condition.ensures((s[k],), true));
            }
            lemma_run_end_at(s, i, e, p);
        }
        r
    }

    fn skip_whitespace(&mut self)
        requires
            old(self).wf(),
        ensures
            final(self).wf(),
            final(self).input() == old(self).input(),
            final(self).position() == skip_space(old(self).input(), old(self).position()),
    {
        self.consume_pred(
            (|c: char| -> (r: bool)
                ensures
                    r == is_space(c),
                { is_whitespace(c) }),
            Ghost(space_pred()),
        );
    }

    /// Consumes an identifier and returns it in lower case; where the next
    /// character cannot start one, returns an empty string and consumes
    /// nothing.
    pub fn parse_identifier(&mut self) -> (r: String)
        requires
            old(self).wf(),
        ensures
            final(self).wf(),
            final(self).input() == old(self).input(),
            final(self).position() == ident_end(old(self).input(), old(self).position()),
            r@ == ident_at(old(self).input(), old(self).position()),
            !(old(self).position() < old(self).input().len() && is_ident_start(
                old(self).input()[old(self).position()],
            )) ==> r@.len() == 0 && final(self).position() == old(self).position(),
    {
        let ghost s = self.input();
        let ghost i = self.position();
        match self.peek() {
            Some(c) => {
                if is_valid_start_ident(c) {
                    let raw = self.consume_pred(
                        (|c: char| -> (r: bool)
                            ensures
                                r == is_ident_char(c),
                            { is_valid_ident(c) }),
                        Ghost(ident_pred()),
                    );
                    proof {
                        lemma_ident_end(s, i);
                    }
                    return lowercase(&raw);
                }
            },
            None => {},
        }
        String::new()
    }

    /// Consumes an identifier; `None` where there is none.
    pub fn parse_id(&mut self) -> (r: Option<String>)
        requires
            old(self).wf(),
        ensures
            final(self).wf(),
            final(self).input() == old(self).input(),
            final(self).position() == ident_end(old(self).input(), old(self).position()),
            r is None <==> ident_at(old(self).input(), old(self).position()).len() == 0,
            r matches Some(n) ==> n@ == ident_at(old(self).input(), old(self).position()),
    {
        let identifier = self.parse_identifier();
        if identifier.as_str().is_empty() {
            None
        } else {
            Some(identifier)
        }
    }

    /// Parses one selector: optional white space, an optional tag name, then
    /// ids, classes and other tokens up to a `,`, `{` or white space. A
    /// second id makes the selector's id `None`; tokens that are not
    /// modelled are skipped; an empty compound selector is left out.
    pub fn parse_selector(&mut self) -> (r: Selector)
        requires
            old(self).wf(),
        ensures
            final(self).wf(),
            final(self).input() == old(self).input(),
            r@ == selector_at(old(self).input(), old(self).position()).0,
            final(self).position() == selector_at(old(self).input(), old(self).position()).1,
    {
        let ghost s = self.input();
        let ghost i = self.position();
        self.skip_whitespace();
        let ghost i1 = self.position();
        let tag_name = match self.peek() {
            Some(c) => {
                if is_valid_start_ident(c) {
                    Some(self.parse_identifier())
                } else {
                    None
                }
            },
            None => None,
        };
        proof {
            lemma_run_end(s, i, space_pred());
            if !(i1 < s.len() && is_ident_start(s[i1])) {
                assert(self.position() == ident_end(s, i1));
            }
        }
        let ghost i2 = self.position();
        let ghost tag = if i1 < s.len() && is_ident_start(s[i1]) {
            Some(ident_at(s, i1))
        } else {
            None
        };
        let mut slot = IdSlot::NoId;
        let mut classes: Vec<String> = Vec::new();
        let ghost st0 = SelState { tag, id: IdState::NoId, classes: Seq::empty() };
        assert(strings_view(classes@) =~= Seq::empty());
        loop
            invariant
                self.wf(),
                self.input() == s,
                i2 <= self.position(),
                opt_view(tag_name) == tag,
                sel_loop(s, self.position(), SelState { tag, id: slot.view(), classes: strings_view(classes@) })
                    == sel_loop(s, i2, st0),
            ensures
                self.wf(),
                self.input() == s,
                opt_view(tag_name) == tag,
                sel_loop(s, self.position(), SelState { tag, id: slot.view(), classes: strings_view(classes@) })
                    == sel_loop(s, i2, st0),
                self.position() >= s.len() || sel_stop(s[self.position()]),
            decreases s.len() - self.position(),
        {
            let ghost p = self.position();
            let ghost st = SelState { tag, id: slot.view(), classes: strings_view(classes@) };
            let c = match self.peek() {
                Some(c) => c,
                None => break,
            };
            if c == ',' || c == '{' || is_whitespace(c) {
                break;
            }
            proof {
                lemma_sel_step(s, p, st);
            }
            if c == '#' {
                self.advance();
                match slot {
                    IdSlot::NoId => {
                        match self.parse_id() {
                            Some(n) => {
                                slot = IdSlot::One(n);
                            },
                            None => {
                                slot = IdSlot::Nameless;
                            },
                        }
                    },
                    _ => {
                        slot = IdSlot::Conflicted;
                    },
                }
            } else if c == '.' {
                self.advance();
                let class_name = self.parse_identifier();
                if !class_name.as_str().is_empty() {
                    let ghost old_classes = classes@;
                    classes.push(class_name);
                    assert(strings_view(classes@) =~= strings_view(old_classes).push(
                        ident_at(s, p + 1),
                    ));
                }
            } else {
                self.consume_pred(
                    (|c: char| -> (r: bool)
                        ensures
                            r == (c != ',' && c != '{'),
                        { c != ',' && c != '{' }),
                    Ghost(not_comma_brace()),
                );
            }
            assert(sel_step(s, p, st) == (
                SelState { tag, id: slot.view(), classes: strings_view(classes@) },
                self.position(),
            ));
        }
        let ghost fin = SelState { tag, id: slot.view(), classes: strings_view(classes@) };
        proof {
            self.lemma_wf();
            assert(sel_loop(s, self.position(), fin) == (fin, self.position()));
        }
        let id = match slot {
            IdSlot::One(n) => Some(n),
            _ => None,
        };
        let empty = tag_name.is_none() && id.is_none() && classes.len() == 0;
        let simple = SimpleSelector::new(tag_name, id, classes);
        let mut selector = Selector::new(Vec::new(), Vec::new());
        assert(simple@ =~= fin.simple());
        if !empty {
            selector.simple.push(simple);
        }
        assert(selector@ =~= selector_at(s, i).0);
        selector
    }

    /// Parses the comma-separated selectors of a rule up to its `{`, which
    /// it consumes too. Empty selectors are left out.
    pub fn parse_selectors(&mut self) -> (r: Vec<Selector>)
        requires
            old(self).wf(),
        ensures
            final(self).wf(),
            final(self).input() == old(self).input(),
            selectors_view(r@) == selectors_at(old(self).input(), old(self).position()).0,
            final(self).position() == selectors_at(old(self).input(), old(self).position()).1,
            old(self).position() < old(self).input().len() ==> old(self).position()
                < final(self).position(),
    {
        let ghost s = self.input();
        let ghost i = self.position();
        let mut selectors: Vec<Selector> = Vec::new();
        assert(selectors_view(selectors@) =~= Seq::empty());
        loop
            invariant
                self.wf(),
                self.input() == s,
                i <= self.position(),
                selectors_loop(s, self.position(), selectors_view(selectors@)) == selectors_loop(
                    s,
                    i,
                    Seq::empty(),
                ),
            ensures
                self.wf(),
                self.input() == s,
                i <= self.position(),
                selectors_loop(s, self.position(), selectors_view(selectors@)) == selectors_loop(
                    s,
                    i,
                    Seq::empty(),
                ),
                self.position() >= s.len() || s[self.position()] == '{',
            decreases s.len() - self.position(),
        {
            let ghost p = self.position();
            let ghost acc = selectors_view(selectors@);
            match self.peek() {
                Some(c) => {
                    if c == '{' {
                        break;
                    }
                },
                None => break,
            }
            proof {
                lemma_selector_progress(s, p);
            }
            let selector = self.parse_selector();
            if selector.simple.len() != 0 {
                selectors.push(selector);
                assert(selectors_view(selectors@) =~= acc.push(selector_at(s, p).0));
            }
            self.skip_whitespace();
            match self.peek() {
                Some(c) => {
                    if c == ',' {
                        self.advance();
                    }
                },
                None => {},
            }
        }
        proof {
            self.lemma_wf();
        }
        self.advance();
        selectors
    }

    /// Parses the `property: value` pairs of a rule's body up to its `}`,
    /// which it consumes too. Names and values are taken in lower case; a
    /// pair is kept where `;` follows its value, or, for the last one, the
    /// `}`; any other is dropped.
    pub fn parse_declarations(&mut self) -> (r: Vec<Declaration>)
        requires
            old(self).wf(),
        ensures
            final(self).wf(),
            final(self).input() == old(self).input(),
            declarations_view(r@) == declarations_at(old(self).input(), old(self).position()).0,
            final(self).position() == declarations_at(old(self).input(), old(self).position()).1,
            old(self).position() <= final(self).position(),
    {
        let mut dropped: Vec<Declaration> = Vec::new();
        self.parse_declarations_into(&mut dropped)
    }

    /// `parse_declarations`, which also appends the dropped pairs to
    /// `dropped`.
    fn parse_declarations_into(&mut self, dropped: &mut Vec<Declaration>) -> (r: Vec<Declaration>)
        requires
            old(self).wf(),
        ensures
            final(self).wf(),
            final(self).input() == old(self).input(),
            declarations_view(r@) == declarations_at(old(self).input(), old(self).position()).0,
            final(self).position() == declarations_at(old(self).input(), old(self).position()).1,
            old(self).position() <= final(self).position(),
            declarations_view(final(dropped)@) == dropped_loop(
                old(self).input(),
                old(self).position(),
                declarations_view(old(dropped)@),
            ),
    {
        let ghost s = self.input();
        let ghost i = self.position();
        let ghost d0 = declarations_view(dropped@);
        let mut declarations: Vec<Declaration> = Vec::new();
        assert(declarations_view(declarations@) =~= Seq::empty());
        loop
            invariant
                self.wf(),
                self.input() == s,
                i <= self.position(),
                decls_loop(s, self.position(), declarations_view(declarations@)) == decls_loop(
                    s,
                    i,
                    Seq::empty(),
                ),
                dropped_loop(s, self.position(), declarations_view(dropped@)) == dropped_loop(
                    s,
                    i,
                    d0,
                ),
            ensures
                self.wf(),
                self.input() == s,
                i <= self.position(),
                decls_loop(s, i, Seq::empty()) == (
                    declarations_view(declarations@),
                    self.position() as int,
                ),
                dropped_loop(s, i, d0) == declarations_view(dropped@),
            decreases s.len() - self.position(),
        {
            let ghost p = self.position();
            let ghost acc = declarations_view(declarations@);
            let ghost dacc = declarations_view(dropped@);
            self.skip_whitespace();
            let ghost i0 = self.position();
            proof {
                lemma_run_end(s, p, space_pred());
            }
            match self.peek() {
                Some(c) => {
                    if c == '}' {
                        break;
                    }
                },
                None => break,
            }
            proof {
                lemma_decl_step(s, i0);
            }
            let (d, keep) = self.parse_declaration();
            if keep {
                declarations.push(d);
                assert(declarations_view(declarations@) =~= acc.push(decl_step(s, i0).0->0));
            } else {
                dropped.push(d);
                assert(declarations_view(dropped@) =~= dacc.push(decl_unit(s, i0)));
            }
        }
        proof {
            self.lemma_wf();
        }
        self.advance();
        declarations
    }

    /// One `property: value` unit of a rule's body, and whether it is kept.
    fn parse_declaration(&mut self) -> (r: (Declaration, bool))
        requires
            old(self).wf(),
        ensures
            final(self).wf(),
            final(self).input() == old(self).input(),
            final(self).position() == decl_step(old(self).input(), old(self).position()).1,
            r.0@ == decl_unit(old(self).input(), old(self).position()),
            r.1 == decl_step(old(self).input(), old(self).position()).0 is Some,
    {
        let ghost s = self.input();
        self.skip_whitespace();
        let name = self.consume_pred(
            (|c: char| -> (r: bool)
                ensures
                    r == (c != ':'),
                { c != ':' }),
            Ghost(not_colon()),
        );
        let property = lowercase(&name);
        self.advance();
        self.skip_whitespace();
        let raw = self.consume_pred(
            (|c: char| -> (r: bool)
                ensures
                    r == (c != ';' && c != '\n' && c != '}'),
                { c != ';' && c != '\n' && c != '}' }),
            Ghost(not_value_end()),
        );
        let ghost i5 = self.position();
        let value = lowercase(&raw);
        let v = value_of(&property, value);
        let declaration = Declaration::new(property, v);
        let mut keep = false;
        match self.peek() {
            Some(c) => {
                if c == ';' {
                    keep = true;
                    self.advance();
                }
            },
            None => {},
        }
        if !keep {
            self.skip_whitespace();
            keep = match self.peek() {
                Some(c) => c == '}',
                None => false,
            };
            proof {
                self.lemma_wf();
                lemma_run_end(s, i5, space_pred());
                lemma_run_end_at(s, self.position(), self.position(), space_pred());
            }
        }
        self.skip_whitespace();
        (declaration, keep)
    }

    /// Parses rules until the input is used up: each is its selectors and
    /// then its declarations.
    pub fn parse_stylesheet(&mut self) -> (r: Stylesheet)
        requires
            old(self).wf(),
        ensures
            final(self).wf(),
            final(self).input() == old(self).input(),
            final(self).position() == final(self).input().len(),
            r@ == rules_loop(old(self).input(), old(self).position(), Seq::empty()),
    {
        let mut dropped: Vec<Declaration> = Vec::new();
        self.parse_rules(&mut dropped)
    }

    /// `parse_stylesheet`, which also returns the declarations that were
    /// dropped because neither `;` nor the block's `}` followed them, in the
    /// order they were written.
    pub fn parse_stylesheet_reporting(&mut self) -> (r: (Stylesheet, Vec<Declaration>))
        requires
            old(self).wf(),
        ensures
            final(self).wf(),
            final(self).input() == old(self).input(),
            final(self).position() == final(self).input().len(),
            r.0@ == rules_loop(old(self).input(), old(self).position(), Seq::empty()),
            declarations_view(r.1@) == rules_dropped(
                old(self).input(),
                old(self).position(),
                Seq::empty(),
            ),
    {
        let mut dropped: Vec<Declaration> = Vec::new();
        assert(declarations_view(dropped@) =~= Seq::empty());
        let sheet = self.parse_rules(&mut dropped);
        (sheet, dropped)
    }

    fn parse_rules(&mut self, dropped: &mut Vec<Declaration>) -> (r: Stylesheet)
        requires
            old(self).wf(),
        ensures
            final(self).wf(),
            final(self).input() == old(self).input(),
            final(self).position() == final(self).input().len(),
            r@ == rules_loop(old(self).input(), old(self).position(), Seq::empty()),
            declarations_view(final(dropped)@) == rules_dropped(
                old(self).input(),
                old(self).position(),
                declarations_view(old(dropped)@),
            ),
    {
        let ghost s = self.input();
        let ghost i = self.position();
        let ghost d0 = declarations_view(dropped@);
        let mut stylesheet = Stylesheet::default();
        assert(stylesheet@ =~= Seq::empty());
        loop
            invariant
                self.wf(),
                self.input() == s,
                rules_loop(s, self.position(), stylesheet@) == rules_loop(s, i, Seq::empty()),
                rules_dropped(s, self.position(), declarations_view(dropped@)) == rules_dropped(
                    s,
                    i,
                    d0,
                ),
            ensures
                self.wf(),
                self.input() == s,
                rules_loop(s, i, Seq::empty()) == stylesheet@,
                rules_dropped(s, i, d0) == declarations_view(dropped@),
                self.position() >= s.len(),
            decreases s.len() - self.position(),
        {
            let ghost p = self.position();
            let ghost acc = stylesheet@;
            self.skip_whitespace();
            let ghost i0 = self.position();
            proof {
                lemma_run_end(s, p, space_pred());
            }
            if self.peek().is_none() {
                break;
            }
            let selectors = self.parse_selectors();
            let styles = self.parse_declarations_into(dropped);
            let rule = Rule::new(selectors, styles);
            stylesheet.rules.push(rule);
            proof {
                self.lemma_wf();
                assert(stylesheet@ =~= acc.push(rule_at(s, i0).0));
            }
        }
        stylesheet
    }
}

} // verus!
