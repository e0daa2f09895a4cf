//! The DOM nodes that an HTML parser produces and that stylesheets are later
//! matched against.
use vstd::prelude::*;
use crate::text::{chars_are, chars_of, push_char};

verus! {

/// A node and its children.
pub struct Node {
    pub children: Vec<Node>,
    pub node_type: NodeType,
}

pub enum NodeType {
    Text(String),
    Element(ElementData),
    Comment(String),
}

/// An element's attributes as name/value pairs; where a name occurs more
/// than once, the last pair counts.
pub type AttrMap = Vec<(String, String)>;

pub struct ElementData {
    pub tag_name: String,
    pub attributes: AttrMap,
}

/// The value of attribute `key`: that of the last pair with that name.
pub open spec fn attr_lookup(attrs: Seq<(String, String)>, key: Seq<char>) -> Option<Seq<char>>
    decreases attrs.len(),
{
    if attrs.len() == 0 {
        None
    } else if attrs.last().0@ == key {
        Some(attrs.last().1@)
    } else {
        attr_lookup(attrs.drop_last(), key)
    }
}

/// The pieces of `s` between single spaces, empty pieces included, as
/// `str::split(' ')` gives them.
pub open spec fn split_spaces(s: Seq<char>) -> Seq<Seq<char>>
    decreases s.len(),
{
    if s.len() == 0 {
        seq![Seq::empty()]
    } else {
        let rest = split_spaces(s.drop_last());
        if s.last() == ' ' {
            rest.push(Seq::empty())
        } else {
            rest.update(rest.len() - 1, rest.last().push(s.last()))
        }
    }
}

pub open spec fn names_of(v: Seq<String>) -> Seq<Seq<char>> {
    v.map_values(|s: String| s@)
}

/// Where in `attrs` attribute `key` is set last.
fn find_attr(attrs: &AttrMap, key: &str) -> (r: Option<usize>)
    ensures
        r is None <==> attr_lookup(attrs@, key@) is None,
        r matches Some(k) ==> k < attrs@.len() && attr_lookup(attrs@, key@) == Some(
            attrs@[k as int].1@,
        ),
{
    let mut i: usize = attrs.len();
    assert(attrs@.subrange(0, i as int) =~= attrs@);
    while i > 0
        invariant
            i <= attrs@.len(),
            attr_lookup(attrs@.subrange(0, i as int), key@) == attr_lookup(attrs@, key@),
        decreases i,
    {
        let name = chars_of(attrs[i - 1].0.as_str());
        assert(attrs@.subrange(0, i as int).last() == attrs@[i - 1]);
        if chars_are(name.as_slice(), key) {
            return Some(i - 1);
        }
        assert(attrs@.subrange(0, i as int).drop_last() =~= attrs@.subrange(0, i - 1));
        i = i - 1;
    }
    None
}

impl ElementData {
    pub fn new(tag_name: String, attributes: AttrMap) -> (e: Self)
        ensures
            e.tag_name == tag_name,
            e.attributes == attributes,
    {
        ElementData { tag_name, attributes }
    }

    /// The value of the `id` attribute.
    pub fn get_id(&self) -> (r: Option<&String>)
        ensures
            r is None <==> attr_lookup(self.attributes@, "id"@) is None,
            r matches Some(v) ==> attr_lookup(self.attributes@, "id"@) == Some(v@),
    {
        match find_attr(&self.attributes, "id") {
            Some(k) => Some(&self.attributes[k].1),
            None => None,
        }
    }

    /// The distinct space-separated pieces of the `class` attribute, in the
    /// order they first occur; none where there is no such attribute.
    pub fn get_classes(&self) -> (r: Vec<String>)
        ensures
            names_of(r@).no_duplicates(),
            attr_lookup(self.attributes@, "class"@) matches Some(v) ==> forall|c: Seq<char>|
                #[trigger] names_of(r@).contains(c) <==> split_spaces(v).contains(c),
            attr_lookup(self.attributes@, "class"@) is None ==> r@.len() == 0,
    {
        match find_attr(&self.attributes, "class") {
            Some(k) => distinct_pieces(&self.attributes[k].1),
            None => Vec::new(),
        }
    }
}

/// The pieces of `s` between single spaces, in order.
fn split_on_space(s: &String) -> (r: Vec<String>)
    ensures
        names_of(r@) == split_spaces(s@),
{
    let cs = chars_of(s.as_str());
    let mut pieces: Vec<String> = Vec::new();
    let mut cur = String::new();
    let mut i: usize = 0;
    assert(cs@.take(0) =~= Seq::<char>::empty());
    assert(names_of(pieces@).push(cur@) =~= split_spaces(cs@.take(0)));
    while i < cs.len()
        invariant
            i <= cs@.len(),
            cs@ == s@,
            names_of(pieces@).push(cur@) == split_spaces(cs@.take(i as int)),
        decreases cs@.len() - i,
    {
        let c = cs[i];
        let ghost before = names_of(pieces@);
        let ghost cur0 = cur@;
        assert(cs@.take(i + 1).drop_last() =~= cs@.take(i as int));
        if c == ' ' {
            pieces.push(cur);
            cur = String::new();
            assert(names_of(pieces@) =~= before.push(cur0));
            assert(names_of(pieces@).push(cur@) =~= split_spaces(cs@.take(i + 1)));
        } else {
            push_char(&mut cur, c);
            assert(names_of(pieces@).push(cur@) =~= split_spaces(cs@.take(i + 1)));
        }
        i = i + 1;
    }
    pieces.push(cur);
    assert(cs@.take(i as int) =~= cs@);
    pieces
}

proof fn lemma_push_contains(s: Seq<Seq<char>>, x: Seq<char>)
    ensures
        forall|c: Seq<char>| #[trigger] s.push(x).contains(c) <==> (s.contains(c) || c == x),
{
    assert forall|c: Seq<char>| #[trigger] s.push(x).contains(c) <==> (s.contains(c) || c == x) by {
        if s.push(x).contains(c) {
            let i = choose|i: int| 0 <= i < s.len() + 1 && s.push(x)[i] == c;
            if i < s.len() {
                assert(s[i] == c);
            }
        }
        if s.contains(c) {
            let i = choose|i: int| 0 <= i < s.len() && s[i] == c;
            assert(s.push(x)[i] == c);
        }
        if c == x {
            assert(s.push(x)[s.len() as int] == x);
        }
    }
}

/// The distinct pieces of `s` between single spaces, in the order they
/// first occur.
fn distinct_pieces(s: &String) -> (r: Vec<String>)
    ensures
        names_of(r@).no_duplicates(),
        forall|c: Seq<char>| #[trigger] names_of(r@).contains(c) <==> split_spaces(s@).contains(c),
{
    let pieces = split_on_space(s);
    let mut r: Vec<String> = Vec::new();
    let mut j: usize = 0;
    while j < pieces.len()
        invariant
            j <= pieces@.len(),
            names_of(pieces@) == split_spaces(s@),
            names_of(r@).no_duplicates(),
            forall|c: Seq<char>| #[trigger] names_of(r@).contains(c) <==> names_of(pieces@).take(j as int).contains(c),
        decreases pieces@.len() - j,
    {
        let mut seen = false;
        let mut k: usize = 0;
        while k < r.len()
            invariant
                k <= r@.len(),
                j < pieces@.len(),
                seen <==> exists|m: int| 0 <= m < k && r@[m]@ == pieces@[j as int]@,
            decreases r@.len() - k,
        {
            if r[k] == pieces[j] {
                seen = true;
            }
            k = k + 1;
        }
        let ghost before = names_of(r@);
        assert(names_of(pieces@).take(j + 1) =~= names_of(pieces@).take(j as int).push(pieces@[j as int]@));
        proof {
            lemma_push_contains(before, pieces@[j as int]@);
            lemma_push_contains(names_of(pieces@).take(j as int), pieces@[j as int]@);
        }
        if !seen {
            r.push(pieces[j].clone());
            assert(names_of(r@) =~= before.push(pieces@[j as int]@));
        } else {
            let ghost m = choose|m: int| 0 <= m < r@.len() && r@[m]@ == pieces@[j as int]@;
            assert(before[m] == pieces@[j as int]@);
        }
        j = j + 1;
    }
    assert(names_of(pieces@).take(j as int) =~= names_of(pieces@));
    r
}

impl Node {
    pub fn new(node_type: NodeType, children: Vec<Self>) -> (n: Self)
        ensures
            n.node_type == node_type,
            n.children == children,
    {
        Node { node_type, children }
    }
}

} // verus!
