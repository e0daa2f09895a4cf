//! The data model of a parsed stylesheet.
use vstd::prelude::*;

verus! {

/// The length units that a length value may carry (`Pct` is `%`).
#[derive(PartialEq, Eq, Structural, Clone, Copy, Debug)]
pub enum Unit {
    Em,
    Ex,
    Ch,
    Rem,
    Vh,
    Vw,
    Vmin,
    Vmax,
    Px,
    Mm,
    Q,
    Cm,
    In,
    Pt,
    Pc,
    Pct,
}

/// A colour as red, green, blue and alpha channels, each from 0 to 255.
#[derive(PartialEq, Eq, Structural, Clone, Copy, Debug)]
pub struct Color {
    pub r: u8,
    pub g: u8,
    pub b: u8,
    pub a: u8,
}

impl Color {
    pub fn new(r: u8, g: u8, b: u8, a: u8) -> (c: Self)
        ensures
            c == (Color { r, g, b, a }),
    {
        Color { r, g, b, a }
    }

    /// Fully transparent black.
    pub open spec fn transparent() -> Color {
        Color { r: 0, g: 0, b: 0, a: 0 }
    }
}

impl Default for Color {
    fn default() -> (c: Self)
        ensures
            c == Color::transparent(),
    {
        Color::new(0, 0, 0, 0)
    }
}

/// The value of a declaration. A length is held in thousandths of its unit:
/// `Length(1500, Unit::Em)` is `1.5em`.
#[derive(PartialEq, Clone, Debug)]
pub enum Value {
    Color(Color),
    Length(i64, Unit),
    Other(String),
}

#[verifier::ext_equal]
pub enum ValueView {
    Color(Color),
    Length(int, Unit),
    Other(Seq<char>),
}

impl View for Value {
    type V = ValueView;

    open spec fn view(&self) -> ValueView {
        match self {
            Value::Color(c) => ValueView::Color(*c),
            Value::Length(m, u) => ValueView::Length(*m as int, *u),
            Value::Other(s) => ValueView::Other(s@),
        }
    }
}

/// A `property: value` pair of a rule's body.
#[derive(PartialEq, Clone, Debug)]
pub struct Declaration {
    pub property: String,
    pub value: Value,
}

#[verifier::ext_equal]
pub struct DeclarationView {
    pub property: Seq<char>,
    pub value: ValueView,
}

impl View for Declaration {
    type V = DeclarationView;

    open spec fn view(&self) -> DeclarationView {
        DeclarationView { property: self.property@, value: self.value@ }
    }
}

impl Declaration {
    pub fn new(property: String, value: Value) -> (d: Self)
        ensures
            d.property == property,
            d.value == value,
    {
        Declaration { property, value }
    }
}

/// A compound selector: an optional tag name, an optional id and a list of
/// classes, kept in order and with repeats.
#[derive(PartialEq, Clone, Debug)]
pub struct SimpleSelector {
    pub tag_name: Option<String>,
    pub id: Option<String>,
    pub classes: Vec<String>,
}

#[verifier::ext_equal]
pub struct SimpleSelectorView {
    pub tag_name: Option<Seq<char>>,
    pub id: Option<Seq<char>>,
    pub classes: Seq<Seq<char>>,
}

pub open spec fn opt_view(o: Option<String>) -> Option<Seq<char>> {
    match o {
        Some(s) => Some(s@),
        None => None,
    }
}

pub open spec fn strings_view(v: Seq<String>) -> Seq<Seq<char>> {
    v.map_values(|s: String| s@)
}

impl View for SimpleSelector {
    type V = SimpleSelectorView;

    open spec fn view(&self) -> SimpleSelectorView {
        SimpleSelectorView {
            tag_name: opt_view(self.tag_name),
            id: opt_view(self.id),
            classes: strings_view(self.classes@),
        }
    }
}

impl SimpleSelectorView {
    /// The selector with no tag, no id and no class.
    pub open spec fn is_empty(self) -> bool {
        self.tag_name is None && self.id is None && self.classes.len() == 0
    }
}

impl SimpleSelector {
    pub fn new(tag_name: Option<String>, id: Option<String>, classes: Vec<String>) -> (s: Self)
        ensures
            s.tag_name == tag_name,
            s.id == id,
            s.classes == classes,
    {
        SimpleSelector { tag_name, id, classes }
    }
}

impl Default for SimpleSelector {
    fn default() -> (s: Self)
        ensures
            s@.is_empty(),
    {
        SimpleSelector::new(None, None, Vec::new())
    }
}

/// A selector: compound selectors and the combinators between them.
#[derive(PartialEq, Clone, Debug)]
pub struct Selector {
    pub simple: Vec<SimpleSelector>,
    pub combinators: Vec<char>,
}

#[verifier::ext_equal]
pub struct SelectorView {
    pub simple: Seq<SimpleSelectorView>,
    pub combinators: Seq<char>,
}

impl View for Selector {
    type V = SelectorView;

    open spec fn view(&self) -> SelectorView {
        SelectorView {
            simple: self.simple@.map_values(|s: SimpleSelector| s@),
            combinators: self.combinators@,
        }
    }
}

impl Selector {
    pub fn new(simple: Vec<SimpleSelector>, combinators: Vec<char>) -> (s: Self)
        ensures
            s.simple == simple,
            s.combinators == combinators,
    {
        Selector { simple, combinators }
    }
}

impl Default for Selector {
    fn default() -> (s: Self)
        ensures
            s@.simple.len() == 0,
            s@.combinators.len() == 0,
    {
        Selector::new(Vec::new(), Vec::new())
    }
}

pub open spec fn selectors_view(v: Seq<Selector>) -> Seq<SelectorView> {
    v.map_values(|x: Selector| x@)
}

pub open spec fn declarations_view(v: Seq<Declaration>) -> Seq<DeclarationView> {
    v.map_values(|x: Declaration| x@)
}

/// One rule: the selectors it applies to and its declarations.
#[derive(PartialEq, Clone, Debug)]
pub struct Rule {
    pub selectors: Vec<Selector>,
    pub declarations: Vec<Declaration>,
}

#[verifier::ext_equal]
pub struct RuleView {
    pub selectors: Seq<SelectorView>,
    pub declarations: Seq<DeclarationView>,
}

impl View for Rule {
    type V = RuleView;

    open spec fn view(&self) -> RuleView {
        RuleView {
            selectors: selectors_view(self.selectors@),
            declarations: declarations_view(self.declarations@),
        }
    }
}

impl Rule {
    pub fn new(selectors: Vec<Selector>, declarations: Vec<Declaration>) -> (r: Self)
        ensures
            r.selectors == selectors,
            r.declarations == declarations,
    {
        Rule { selectors, declarations }
    }
}

impl Default for Rule {
    fn default() -> (r: Self)
        ensures
            r.selectors@.len() == 0,
            r.declarations@.len() == 0,
    {
        Rule::new(Vec::new(), Vec::new())
    }
}

/// The rules of a stylesheet, in the order they were written.
#[derive(PartialEq, Clone, Debug)]
pub struct Stylesheet {
    pub rules: Vec<Rule>,
}

impl View for Stylesheet {
    type V = Seq<RuleView>;

    open spec fn view(&self) -> Seq<RuleView> {
        self.rules@.map_values(|r: Rule| r@)
    }
}

impl Stylesheet {
    pub fn new(rules: Vec<Rule>) -> (s: Self)
        ensures
            s.rules == rules,
    {
        Stylesheet { rules }
    }
}

impl Default for Stylesheet {
    fn default() -> (s: Self)
        ensures
            s.rules@.len() == 0,
    {
        Stylesheet::new(Vec::new())
    }
}

} // verus!
