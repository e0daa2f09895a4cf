//! Diagnostic text for the data model and for DOM nodes. The text is meant
//! for people: it is not CSS and does not parse back.
use vstd::prelude::*;
use crate::css::{
    Color, Declaration, DeclarationView, Rule, RuleView, Selector, SelectorView, SimpleSelector,
    SimpleSelectorView, Stylesheet, Unit, Value, ValueView, declarations_view, selectors_view,
};
use crate::dom::{ElementData, Node, NodeType, names_of};
use crate::text::{chars_of, push_char};

verus! {

pub open spec fn digit_char(d: int) -> char {
    if d == 0 {
        '0'
    } else if d == 1 {
        '1'
    } else if d == 2 {
        '2'
    } else if d == 3 {
        '3'
    } else if d == 4 {
        '4'
    } else if d == 5 {
        '5'
    } else if d == 6 {
        '6'
    } else if d == 7 {
        '7'
    } else if d == 8 {
        '8'
    } else {
        '9'
    }
}

/// The decimal digits of `n`.
pub open spec fn nat_text(n: nat) -> Seq<char>
    decreases n,
{
    if n < 10 {
        seq![digit_char(n as int)]
    } else {
        nat_text(n / 10) + seq![digit_char((n % 10) as int)]
    }
}

/// The parts one after another, with `sep` before each part that follows
/// non-empty text.
pub open spec fn join(parts: Seq<Seq<char>>, sep: Seq<char>) -> Seq<char>
    decreases parts.len(),
{
    if parts.len() == 0 {
        Seq::empty()
    } else {
        let a = join(parts.drop_last(), sep);
        if a.len() > 0 {
            a + sep + parts.last()
        } else {
            a + parts.last()
        }
    }
}

pub open spec fn color_text(c: Color) -> Seq<char> {
    "r: "@ + nat_text(c.r as nat) + " g: "@ + nat_text(c.g as nat) + " b: "@ + nat_text(
        c.b as nat,
    ) + " a: "@ + nat_text(c.a as nat)
}

/// A length in thousandths as a decimal with three fraction digits.
pub open spec fn thousandths_text(m: int) -> Seq<char> {
    let a = if m < 0 {
        -m
    } else {
        m
    };
    let f = a % 1000;
    (if m < 0 {
        seq!['-']
    } else {
        Seq::empty()
    }) + nat_text((a / 1000) as nat) + seq!['.'] + seq![
        digit_char(f / 100),
        digit_char((f / 10) % 10),
        digit_char(f % 10),
    ]
}

pub open spec fn value_text(v: ValueView) -> Seq<char> {
    match v {
        ValueView::Color(c) => color_text(c),
        ValueView::Length(m, _) => thousandths_text(m),
        ValueView::Other(s) => seq!['"'] + s + seq!['"'],
    }
}

pub open spec fn declaration_text(d: DeclarationView) -> Seq<char> {
    d.property + ": "@ + value_text(d.value)
}

pub open spec fn opt_text(o: Option<Seq<char>>) -> Seq<char> {
    match o {
        Some(s) => s,
        None => Seq::empty(),
    }
}

/// The tag, `#` and the id, then the class names one after another.
pub open spec fn simple_text(s: SimpleSelectorView) -> Seq<char> {
    opt_text(s.tag_name) + (match s.id {
        Some(i) => "#"@ + i,
        None => Seq::empty(),
    }) + join(s.classes, Seq::empty())
}

pub open spec fn selector_text(s: SelectorView) -> Seq<char> {
    join(s.simple.map_values(|x: SimpleSelectorView| simple_text(x)), ", "@)
}

/// The lines of the declarations, each indented by four spaces.
pub open spec fn body_lines(ds: Seq<DeclarationView>) -> Seq<char>
    decreases ds.len(),
{
    if ds.len() == 0 {
        Seq::empty()
    } else {
        body_lines(ds.drop_last()) + "    "@ + declaration_text(ds.last()) + "\n"@
    }
}

pub open spec fn rule_text(r: RuleView) -> Seq<char> {
    join(r.selectors.map_values(|x: SelectorView| selector_text(x)), ", "@) + " {\n"@
        + body_lines(r.declarations) + "}"@
}

pub open spec fn stylesheet_text(rs: Seq<RuleView>) -> Seq<char> {
    join(rs.map_values(|x: RuleView| rule_text(x)), "\n"@)
}

fn push_str(s: &mut String, t: &str)
    ensures
        final(s)@ == old(s)@ + t@,
{
    let cs = chars_of(t);
    let mut i: usize = 0;
    let ghost s0 = s@;
    while i < cs.len()
        invariant
            i <= cs@.len(),
            cs@ == t@,
            s@ == s0 + cs@.take(i as int),
        decreases cs@.len() - i,
    {
        push_char(s, cs[i]);
        i = i + 1;
        assert(s@ =~= s0 + cs@.take(i as int));
    }
    assert(cs@.take(i as int) =~= cs@);
}

fn digit(d: u64) -> (c: char)
    requires
        d < 10,
    ensures
        c == digit_char(d as int),
{
    if d == 0 {
        '0'
    } else if d == 1 {
        '1'
    } else if d == 2 {
        '2'
    } else if d == 3 {
        '3'
    } else if d == 4 {
        '4'
    } else if d == 5 {
        '5'
    } else if d == 6 {
        '6'
    } else if d == 7 {
        '7'
    } else if d == 8 {
        '8'
    } else {
        '9'
    }
}

fn push_nat(s: &mut String, n: u64)
    ensures
        final(s)@ == old(s)@ + nat_text(n as nat),
    decreases n,
{
    if n < 10 {
        push_char(s, digit(n));
    } else {
        push_nat(s, n / 10);
        push_char(s, digit(n % 10));
        assert(nat_text(n as nat) == nat_text((n / 10) as nat) + seq![digit_char((n % 10) as int)]);
    }
}

/// Appends `parts` joined as `join` says.
fn push_joined(out: &mut String, parts: &Vec<String>, sep: &str)
    ensures
        final(out)@ == old(out)@ + join(parts@.map_values(|p: String| p@), sep@),
{
    let ghost o = out@;
    let mut acc = String::new();
    let mut i: usize = 0;
    while i < parts.len()
        invariant
            i <= parts@.len(),
            acc@ == join(parts@.take(i as int).map_values(|p: String| p@), sep@),
        decreases parts@.len() - i,
    {
        let ghost before = acc@;
        assert(parts@.take(i + 1).map_values(|p: String| p@).drop_last() =~= parts@.take(
            i as int,
        ).map_values(|p: String| p@));
        if !acc.as_str().is_empty() {
            push_str(&mut acc, sep);
        }
        push_str(&mut acc, parts[i].as_str());
        i = i + 1;
    }
    assert(parts@.take(i as int) =~= parts@);
    push_str(out, acc.as_str());
}

impl Color {
    /// The four channels, as `r: 255 g: 0 b: 0 a: 255`.
    pub fn render(&self) -> (r: String)
        ensures
            r@ == color_text(*self),
    {
        let mut s = String::new();
        push_str(&mut s, "r: ");
        push_nat(&mut s, self.r as u64);
        push_str(&mut s, " g: ");
        push_nat(&mut s, self.g as u64);
        push_str(&mut s, " b: ");
        push_nat(&mut s, self.b as u64);
        push_str(&mut s, " a: ");
        push_nat(&mut s, self.a as u64);
        s
    }
}

impl Value {
    /// A colour's channels, a length as a decimal without its unit, other
    /// text between double quotes.
    pub fn render(&self) -> (r: String)
        ensures
            r@ == value_text(self@),
    {
        match self {
            Value::Color(c) => c.render(),
            Value::Length(m, _) => {
                let mut s = String::new();
                let a: u64 = if *m < 0 {
                    push_char(&mut s, '-');
                    ((-(*m + 1)) as u64) + 1
                } else {
                    *m as u64
                };
                push_nat(&mut s, a / 1000);
                push_char(&mut s, '.');
                let f = a % 1000;
                assert(a as int == if *m < 0 { -(*m as int) } else { *m as int });
                push_char(&mut s, digit(f / 100));
                push_char(&mut s, digit((f / 10) % 10));
                push_char(&mut s, digit(f % 10));
                assert(s@ =~= thousandths_text(*m as int));
                s
            },
            Value::Other(t) => {
                let mut s = String::new();
                push_char(&mut s, '"');
                push_str(&mut s, t.as_str());
                push_char(&mut s, '"');
                assert(s@ =~= value_text(self@));
                s
            },
        }
    }
}

impl Declaration {
    /// `property: value`.
    pub fn render(&self) -> (r: String)
        ensures
            r@ == declaration_text(self@),
    {
        let mut s = String::new();
        push_str(&mut s, self.property.as_str());
        push_str(&mut s, ": ");
        let v = self.value.render();
        push_str(&mut s, v.as_str());
        s
    }
}

impl SimpleSelector {
    /// The tag, `#` and the id, then the class names one after another.
    pub fn render(&self) -> (r: String)
        ensures
            r@ == simple_text(self@),
    {
        let mut s = String::new();
        match &self.tag_name {
            Some(t) => push_str(&mut s, t.as_str()),
            None => {},
        }
        match &self.id {
            Some(i) => {
                push_str(&mut s, "#");
                push_str(&mut s, i.as_str());
            },
            None => {},
        }
        push_joined(&mut s, &self.classes, "");
        proof {
            reveal_strlit("");
            assert(self.classes@.map_values(|p: String| p@) =~= self@.classes);
            assert(""@ =~= Seq::<char>::empty());
        }
        s
    }
}

impl Selector {
    /// The compound selectors, separated by `, `.
    pub fn render(&self) -> (r: String)
        ensures
            r@ == selector_text(self@),
    {
        let mut parts: Vec<String> = Vec::new();
        let mut i: usize = 0;
        while i < self.simple.len()
            invariant
                i <= self.simple@.len(),
                parts@.len() == i,
                forall|k: int| 0 <= k < i ==> #[trigger] parts@[k]@ == simple_text(self.simple@[k]@),
            decreases self.simple@.len() - i,
        {
            parts.push(self.simple[i].render());
            i = i + 1;
        }
        let mut s = String::new();
        push_joined(&mut s, &parts, ", ");
        assert(parts@.map_values(|p: String| p@) =~= self@.simple.map_values(
            |x: SimpleSelectorView| simple_text(x),
        ));
        s
    }
}

impl Rule {
    /// The selectors separated by `, `, then ` {`, one indented line per
    /// declaration, and `}`.
    pub fn render(&self) -> (r: String)
        ensures
            r@ == rule_text(self@),
    {
        let mut parts: Vec<String> = Vec::new();
        let mut i: usize = 0;
        while i < self.selectors.len()
            invariant
                i <= self.selectors@.len(),
                parts@.len() == i,
                forall|k: int|
                    0 <= k < i ==> #[trigger] parts@[k]@ == selector_text(self.selectors@[k]@),
            decreases self.selectors@.len() - i,
        {
            parts.push(self.selectors[i].render());
            i = i + 1;
        }
        let mut s = String::new();
        push_joined(&mut s, &parts, ", ");
        assert(parts@.map_values(|p: String| p@) =~= self@.selectors.map_values(
            |x: SelectorView| selector_text(x),
        ));
        push_str(&mut s, " {\n");
        let ghost head = s@;
        let mut j: usize = 0;
        assert(declarations_view(self.declarations@).take(0) =~= Seq::empty());
        while j < self.declarations.len()
            invariant
                j <= self.declarations@.len(),
                s@ == head + body_lines(declarations_view(self.declarations@).take(j as int)),
            decreases self.declarations@.len() - j,
        {
            assert(declarations_view(self.declarations@).take(j + 1).drop_last()
                =~= declarations_view(self.declarations@).take(j as int));
            push_str(&mut s, "    ");
            let d = self.declarations[j].render();
            push_str(&mut s, d.as_str());
            push_str(&mut s, "\n");
            j = j + 1;
            assert(s@ =~= head + body_lines(declarations_view(self.declarations@).take(j as int)));
        }
        assert(declarations_view(self.declarations@).take(j as int) =~= declarations_view(
            self.declarations@,
        ));
        push_str(&mut s, "}");
        s
    }
}

impl Stylesheet {
    /// The rules, one after another, separated by a newline.
    pub fn render(&self) -> (r: String)
        ensures
            r@ == stylesheet_text(self@),
    {
        let mut parts: Vec<String> = Vec::new();
        let mut i: usize = 0;
        while i < self.rules.len()
            invariant
                i <= self.rules@.len(),
                parts@.len() == i,
                forall|k: int| 0 <= k < i ==> #[trigger] parts@[k]@ == rule_text(self.rules@[k]@),
            decreases self.rules@.len() - i,
        {
            parts.push(self.rules[i].render());
            i = i + 1;
        }
        let mut s = String::new();
        push_joined(&mut s, &parts, "\n");
        assert(parts@.map_values(|p: String| p@) =~= self@.map_values(
            |x: RuleView| rule_text(x),
        ));
        s
    }
}

/// ` name="value"` for each attribute, in order.
pub open spec fn attrs_text(attrs: Seq<(String, String)>) -> Seq<char>
    decreases attrs.len(),
{
    if attrs.len() == 0 {
        Seq::empty()
    } else {
        attrs_text(attrs.drop_last()) + seq![' '] + attrs.last().0@ + seq!['=', '"']
            + attrs.last().1@ + seq!['"']
    }
}

pub open spec fn element_text(e: ElementData) -> Seq<char> {
    seq!['<'] + e.tag_name@ + seq![',', ' '] + attrs_text(e.attributes@) + seq!['>']
}

pub open spec fn node_type_text(t: NodeType) -> Seq<char> {
    match t {
        NodeType::Text(s) => s@,
        NodeType::Comment(s) => s@,
        NodeType::Element(e) => element_text(e),
    }
}

pub open spec fn spaces(n: nat) -> Seq<char> {
    Seq::new(n, |_i: int| ' ')
}

/// The line that opens a node in an indented dump of a tree.
pub open spec fn open_line_text(t: NodeType, indent: nat) -> Seq<char> {
    spaces(indent) + match t {
        NodeType::Comment(c) => seq!['<', '!', '-', '-'] + c@ + seq!['-', '-', '>'],
        _ => node_type_text(t),
    }
}

fn push_spaces(s: &mut String, n: usize)
    ensures
        final(s)@ == old(s)@ + spaces(n as nat),
{
    let ghost s0 = s@;
    let mut i: usize = 0;
    while i < n
        invariant
            i <= n,
            s@ == s0 + spaces(i as nat),
        decreases n - i,
    {
        push_char(s, ' ');
        i = i + 1;
        assert(s@ =~= s0 + spaces(i as nat));
    }
}

impl ElementData {
    /// `<tag, name="value" ...>`.
    pub fn render(&self) -> (r: String)
        ensures
            r@ == element_text(*self),
    {
        let mut s = String::new();
        push_char(&mut s, '<');
        push_str(&mut s, self.tag_name.as_str());
        push_char(&mut s, ',');
        push_char(&mut s, ' ');
        let ghost head = s@;
        let mut i: usize = 0;
        assert(self.attributes@.take(0) =~= Seq::empty());
        while i < self.attributes.len()
            invariant
                i <= self.attributes@.len(),
                s@ == head + attrs_text(self.attributes@.take(i as int)),
            decreases self.attributes@.len() - i,
        {
            assert(self.attributes@.take(i + 1).drop_last() =~= self.attributes@.take(i as int));
            push_char(&mut s, ' ');
            push_str(&mut s, self.attributes[i].0.as_str());
            push_char(&mut s, '=');
            push_char(&mut s, '"');
            push_str(&mut s, self.attributes[i].1.as_str());
            push_char(&mut s, '"');
            i = i + 1;
            assert(s@ =~= head + attrs_text(self.attributes@.take(i as int)));
        }
        assert(self.attributes@.take(i as int) =~= self.attributes@);
        push_char(&mut s, '>');
        assert(s@ =~= element_text(*self));
        s
    }
}

impl NodeType {
    /// The text of a text or comment node; an element's tag and attributes.
    pub fn render(&self) -> (r: String)
        ensures
            r@ == node_type_text(*self),
    {
        match self {
            NodeType::Text(t) => t.clone(),
            NodeType::Comment(t) => t.clone(),
            NodeType::Element(e) => e.render(),
        }
    }
}

impl Node {
    /// What the node's type renders as.
    pub fn render(&self) -> (r: String)
        ensures
            r@ == node_type_text(self.node_type),
    {
        self.node_type.render()
    }

    /// The line that opens this node in a dump indented by `indent` spaces:
    /// a comment in `<!--` and `-->`, text as it is, an element's tag and
    /// attributes.
    pub fn open_line(&self, indent: usize) -> (r: String)
        ensures
            r@ == open_line_text(self.node_type, indent as nat),
    {
        let mut s = String::new();
        push_spaces(&mut s, indent);
        match &self.node_type {
            NodeType::Comment(c) => {
                push_str(&mut s, "<!--");
                push_str(&mut s, c.as_str());
                push_str(&mut s, "-->");
                proof {
                    reveal_strlit("<!--");
                    reveal_strlit("-->");
                }
            },
            _ => {
                let t = self.node_type.render();
                push_str(&mut s, t.as_str());
            },
        }
        assert(s@ =~= open_line_text(self.node_type, indent as nat));
        s
    }

    /// The line that closes an element, `<tag/>`, indented by `indent`
    /// spaces; none for other nodes.
    pub fn close_line(&self, indent: usize) -> (r: Option<String>)
        ensures
            self.node_type matches NodeType::Element(e) ==> r is Some && r->0@ == spaces(
                indent as nat,
            ) + seq!['<'] + e.tag_name@ + seq!['/', '>'],
            !(self.node_type is Element) ==> r is None,
    {
        match &self.node_type {
            NodeType::Element(e) => {
                let mut s = String::new();
                push_spaces(&mut s, indent);
                push_char(&mut s, '<');
                push_str(&mut s, e.tag_name.as_str());
                push_char(&mut s, '/');
                push_char(&mut s, '>');
                assert(s@ =~= spaces(indent as nat) + seq!['<'] + e.tag_name@ + seq!['/', '>']);
                Some(s)
            },
            _ => None,
        }
    }
}

/// The indent of a node's children: two more than its own, kept within
/// `usize`.
pub open spec fn child_indent(indent: nat) -> nat {
    if indent + 2 > usize::MAX {
        usize::MAX as nat
    } else {
        indent + 2
    }
}

/// The line that closes an element, none for other nodes.
pub open spec fn close_lines(t: NodeType, indent: nat) -> Seq<Seq<char>> {
    match t {
        NodeType::Element(e) => seq![spaces(indent) + seq!['<'] + e.tag_name@ + seq!['/', '>']],
        _ => Seq::empty(),
    }
}

/// The indented dump of sibling nodes: for each, its opening line, the dump
/// of its children indented two spaces more, and an element's closing line.
pub open spec fn forest_lines(ns: Seq<Node>, indent: nat) -> Seq<Seq<char>>
    decreases ns,
{
    if ns.len() == 0 {
        Seq::empty()
    } else {
        let n = ns.last();
        forest_lines(ns.drop_last(), indent) + seq![open_line_text(n.node_type, indent)]
            + forest_lines(n.children@, child_indent(indent)) + close_lines(n.node_type, indent)
    }
}

fn push_forest_lines(out: &mut Vec<String>, ns: &Vec<Node>, indent: usize)
    ensures
        names_of(final(out)@) == names_of(old(out)@) + forest_lines(ns@, indent as nat),
    decreases ns@,
{
    let ghost o = names_of(out@);
    let mut i: usize = 0;
    assert(names_of(out@) =~= o + forest_lines(ns@.take(0), indent as nat));
    while i < ns.len()
        invariant
            i <= ns@.len(),
            names_of(out@) == o + forest_lines(ns@.take(i as int), indent as nat),
        decreases ns@.len() - i,
    {
        let n = &ns[i];
        let ghost before = names_of(out@);
        assert(ns@.take(i + 1).drop_last() =~= ns@.take(i as int));
        assert(ns@.take(i + 1).last() == ns@[i as int]);
        out.push(n.open_line(indent));
        assert(names_of(out@) =~= before.push(open_line_text(n.node_type, indent as nat)));
        let child: usize = if indent > usize::MAX - 2 {
            usize::MAX
        } else {
            indent + 2
        };
        proof {
            vstd::seq::axiom_seq_index_decreases(ns@, i as int);
            vstd::std_specs::vec::axiom_vec_decreases_to_view(n.children);
        }
        let ghost mid = names_of(out@);
        push_forest_lines(out, &n.children, child);
        let ghost after = names_of(out@);
        match n.close_line(indent) {
            Some(line) => {
                out.push(line);
                assert(names_of(out@) =~= after.push(line@));
            },
            None => {},
        }
        i = i + 1;
        assert(names_of(out@) =~= o + forest_lines(ns@.take(i as int), indent as nat));
    }
    assert(ns@.take(i as int) =~= ns@);
}

/// The lines of an indented dump of the tree under `node`, starting at
/// `indent` spaces: the node's opening line, its children's dumps indented
/// two spaces more, and, for an element, its closing line.
pub fn pretty_lines(node: &Node, indent: usize) -> (r: Vec<String>)
    ensures
        names_of(r@) == forest_lines(seq![*node], indent as nat),
{
    let mut out: Vec<String> = Vec::new();
    out.push(node.open_line(indent));
    let child: usize = if indent > usize::MAX - 2 {
        usize::MAX
    } else {
        indent + 2
    };
    let ghost first = names_of(out@);
    assert(first =~= seq![open_line_text(node.node_type, indent as nat)]);
    push_forest_lines(&mut out, &node.children, child);
    let ghost after = names_of(out@);
    match node.close_line(indent) {
        Some(line) => {
            out.push(line);
            assert(names_of(out@) =~= after + close_lines(node.node_type, indent as nat));
        },
        None => {
            assert(names_of(out@) =~= after + close_lines(node.node_type, indent as nat));
        },
    }
    assert(seq![*node].drop_last() =~= Seq::<Node>::empty());
    assert(seq![*node].last() == *node);
    assert(forest_lines(Seq::<Node>::empty(), indent as nat) =~= Seq::<Seq<char>>::empty());
    assert(names_of(out@) =~= forest_lines(seq![*node], indent as nat));
    out
}

} // verus!
