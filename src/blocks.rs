//! Stylesheets written as a plain sequence of blocks, and the law that each
//! such block becomes exactly one rule.
use vstd::prelude::*;
use crate::css_parser::{
    decl_step, declarations_at, decls_loop, ident_end, ident_pred, is_ident_start,
    lemma_run_end_at, lemma_sel_step, lemma_selector_progress, not_colon,
    not_comma_brace, not_value_end, rule_at, rules_loop, sel_loop, sel_step, sel_stop,
    selector_at, selectors_at, selectors_loop, skip_space, space_pred, stylesheet_of, SelState,
};
use crate::text::{is_space, lemma_run_end, run_end};

verus! {

/// One declaration as written: `name:value;`.
pub struct DeclText {
    pub name: Seq<char>,
    pub value: Seq<char>,
}

/// One block as written: selector text, then `{`, the declarations, a last
/// one that may go without its `;`, white space and `}`.
pub struct BlockText {
    pub selector: Seq<char>,
    pub decls: Seq<DeclText>,
    pub last: Option<DeclText>,
    pub tail: Seq<char>,
}

/// `name:value`, with no `;`; nothing where there is no such declaration.
pub open spec fn last_text(last: Option<DeclText>) -> Seq<char> {
    match last {
        Some(d) => d.name + seq![':'] + d.value,
        None => Seq::empty(),
    }
}

pub open spec fn decl_text(d: DeclText) -> Seq<char> {
    d.name + seq![':'] + d.value + seq![';']
}

pub open spec fn body_text(ds: Seq<DeclText>) -> Seq<char>
    decreases ds.len(),
{
    if ds.len() == 0 {
        Seq::empty()
    } else {
        decl_text(ds[0]) + body_text(ds.drop_first())
    }
}

pub open spec fn block_text(b: BlockText) -> Seq<char> {
    b.selector + seq!['{'] + (body_text(b.decls) + (last_text(b.last) + b.tail) + seq!['}'])
}

pub open spec fn sheet_text(bs: Seq<BlockText>) -> Seq<char>
    decreases bs.len(),
{
    if bs.len() == 0 {
        Seq::empty()
    } else {
        block_text(bs[0]) + sheet_text(bs.drop_first())
    }
}

pub open spec fn all_space(t: Seq<char>) -> bool {
    forall|k: int| 0 <= k < t.len() ==> is_space(#[trigger] t[k])
}

/// A declaration is well formed when its name holds no `:` or brace and its
/// value holds no `;`, newline or brace. Either may hold white space.
pub open spec fn decl_ok(d: DeclText) -> bool {
    &&& forall|k: int| 0 <= k < d.name.len() ==> #[trigger] d.name[k] != ':' && d.name[k] != '{'
        && d.name[k] != '}'
    &&& forall|k: int|
        0 <= k < d.value.len() ==> #[trigger] d.value[k] != ';' && d.value[k] != '\n' && d.value[k]
            != '{' && d.value[k] != '}'
}

/// A block is well formed when its selector text holds no `{`, each of its
/// declarations is well formed, and only white space stands between its
/// last declaration and its `}`.
pub open spec fn block_ok(b: BlockText) -> bool {
    &&& forall|k: int| 0 <= k < b.selector.len() ==> #[trigger] b.selector[k] != '{'
    &&& forall|k: int| 0 <= k < b.decls.len() ==> decl_ok(#[trigger] b.decls[k])
    &&& b.last matches Some(d) ==> decl_ok(d)
    &&& all_space(b.tail)
}

/// `t` stands in `s` from `p` on.
pub open spec fn text_at(s: Seq<char>, p: int, t: Seq<char>) -> bool {
    &&& 0 <= p
    &&& p + t.len() <= s.len()
    &&& forall|k: int| 0 <= k < t.len() ==> s[p + k] == #[trigger] t[k]
}

proof fn lemma_split(s: Seq<char>, p: int, a: Seq<char>, b: Seq<char>)
    requires
        text_at(s, p, a + b),
    ensures
        text_at(s, p, a),
        text_at(s, p + a.len(), b),
{
    assert forall|k: int| 0 <= k < a.len() implies s[p + k] == #[trigger] a[k] by {
        assert((a + b)[k] == a[k]);
    }
    assert forall|k: int| 0 <= k < b.len() implies s[p + a.len() + k] == #[trigger] b[k] by {
        assert((a + b)[a.len() + k] == b[k]);
    }
}

proof fn lemma_run_end_le(s: Seq<char>, i: int, e: int, p: spec_fn(char) -> bool)
    requires
        0 <= i <= e < s.len(),
        !p(s[e]),
    ensures
        run_end(s, i, p) <= e,
    decreases e - i,
{
    if i < e && p(s[i]) {
        lemma_run_end_le(s, i + 1, e, p);
    }
}

proof fn lemma_sel_loop_le(s: Seq<char>, i: int, st: SelState, e: int)
    requires
        0 <= i <= e < s.len(),
        s[e] == '{',
    ensures
        sel_loop(s, i, st).1 <= e,
    decreases e - i,
{
    if !sel_stop(s[i]) {
        lemma_sel_step(s, i, st);
        if i + 1 <= e && is_ident_start(s[i + 1]) {
            lemma_run_end_le(s, i + 1, e, ident_pred());
        }
        lemma_run_end_le(s, i, e, not_comma_brace());
        let (next, j) = sel_step(s, i, st);
        lemma_sel_loop_le(s, j, next, e);
    }
}

/// The selectors of a rule end at the first `{`.
proof fn lemma_selectors_to_brace(s: Seq<char>, i: int, e: int, acc: Seq<crate::css::SelectorView>)
    requires
        0 <= i <= e < s.len(),
        s[e] == '{',
        forall|k: int| i <= k < e ==> s[k] != '{',
    ensures
        selectors_loop(s, i, acc).1 == e,
    decreases e - i,
{
    if i < e {
        lemma_selector_progress(s, i);
        let i1 = skip_space(s, i);
        lemma_run_end_le(s, i, e, space_pred());
        lemma_run_end(s, i, space_pred());
        if i1 < e && is_ident_start(s[i1]) {
            lemma_run_end_le(s, i1, e, ident_pred());
        }
        let tag = if i1 < s.len() && is_ident_start(s[i1]) {
            Some(crate::css_parser::ident_at(s, i1))
        } else {
            None
        };
        let st0 = SelState { tag, id: crate::css_parser::IdState::NoId, classes: Seq::empty() };
        lemma_sel_loop_le(s, ident_end(s, i1), st0, e);
        let (sel, j) = selector_at(s, i);
        lemma_run_end_le(s, j, e, space_pred());
        let k = skip_space(s, j);
        let m = if 0 <= k < s.len() && s[k] == ',' {
            k + 1
        } else {
            k
        };
        let acc2 = if sel.simple.len() == 0 {
            acc
        } else {
            acc.push(sel)
        };
        lemma_selectors_to_brace(s, m, e, acc2);
    }
}

/// From anywhere in a run, the run ends at the same place.
proof fn lemma_skip_same(s: Seq<char>, b: int, x: int)
    requires
        0 <= b <= x <= skip_space(s, b),
        b <= s.len(),
    ensures
        skip_space(s, x) == skip_space(s, b),
{
    lemma_run_end(s, b, space_pred());
    lemma_run_end_at(s, x, skip_space(s, b), space_pred());
}

/// A last declaration without `;`, before white space and `}`, is kept and
/// ends the body.
proof fn lemma_last_to_brace(
    s: Seq<char>,
    b: int,
    x: int,
    d: DeclText,
    tail: Seq<char>,
    acc: Seq<crate::css::DeclarationView>,
)
    requires
        text_at(s, b, (d.name + seq![':'] + d.value + tail) + seq!['}']),
        b <= x <= skip_space(s, b),
        decl_ok(d),
        all_space(tail),
    ensures
        decls_loop(s, x, acc).1 == b + d.name.len() + 1 + d.value.len() + tail.len(),
{
    let c = b + d.name.len();
    let q = c + 1 + d.value.len();
    let cb = q + tail.len();
    lemma_split(s, b, d.name + seq![':'] + d.value + tail, seq!['}']);
    lemma_split(s, b, d.name + seq![':'] + d.value, tail);
    lemma_split(s, b, d.name + seq![':'], d.value);
    lemma_split(s, b, d.name, seq![':']);
    assert(s[c + 0] == seq![':'][0]);
    assert(s[cb + 0] == seq!['}'][0]);
    lemma_run_end_le(s, b, c, space_pred());
    lemma_run_end(s, b, space_pred());
    let e = skip_space(s, b);
    if e < c {
        assert(s[b + (e - b)] == d.name[e - b]);
    }
    lemma_run_end_at(s, e, e, space_pred());
    lemma_skip_same(s, b, x);
    assert(s[e] != '}');
    assert forall|k: int| e <= k < c implies #[trigger] not_colon()(s[k]) by {
        assert(s[b + (k - b)] == d.name[k - b]);
    }
    lemma_run_end_at(s, e, c, not_colon());
    assert forall|k: int| q <= k < cb implies #[trigger] space_pred()(s[k]) by {
        assert(s[q + (k - q)] == tail[k - q]);
    }
    lemma_run_end_le(s, c + 1, cb, space_pred());
    lemma_run_end(s, c + 1, space_pred());
    let i4 = skip_space(s, c + 1);
    lemma_run_end_le(s, i4, cb, not_value_end());
    lemma_run_end(s, i4, not_value_end());
    let i5 = run_end(s, i4, not_value_end());
    if i5 < q {
        assert(s[(c + 1) + (i5 - c - 1)] == d.value[i5 - c - 1]);
    }
    if i4 > q {
        assert(space_pred()(s[i4 - 1]) || i4 - 1 < c + 1);
    }
    assert(q <= i5);
    if i5 < cb {
        assert(s[q + (i5 - q)] == tail[i5 - q]);
    }
    lemma_run_end_at(s, i5, cb, space_pred());
    lemma_run_end_at(s, cb, cb, space_pred());
    assert(decl_step(s, e).1 == cb);
    let acc2 = match decl_step(s, e).0 {
        Some(y) => acc.push(y),
        None => acc,
    };
    assert(decls_loop(s, cb, acc2).1 == cb);
}

/// The declarations of a well-formed body, read from anywhere in the white
/// space it starts with, end at its `}`.
proof fn lemma_decls_to_brace(
    s: Seq<char>,
    b: int,
    x: int,
    ds: Seq<DeclText>,
    last: Option<DeclText>,
    tail: Seq<char>,
    acc: Seq<crate::css::DeclarationView>,
)
    requires
        text_at(s, b, body_text(ds) + (last_text(last) + tail) + seq!['}']),
        b <= x <= skip_space(s, b),
        forall|k: int| 0 <= k < ds.len() ==> decl_ok(#[trigger] ds[k]),
        last matches Some(d) ==> decl_ok(d),
        all_space(tail),
    ensures
        decls_loop(s, x, acc).1 == b + body_text(ds).len() + last_text(last).len() + tail.len(),
    decreases ds.len(),
{
    let lt = last_text(last);
    let cb = b + body_text(ds).len() + lt.len() + tail.len();
    lemma_split(s, b, body_text(ds) + (lt + tail), seq!['}']);
    lemma_split(s, b, body_text(ds), lt + tail);
    assert(s[cb + 0] == seq!['}'][0]);
    lemma_skip_same(s, b, x);
    if ds.len() == 0 && last is Some {
        assert(lt + tail + seq!['}'] =~= body_text(ds) + (lt + tail) + seq!['}']);
        lemma_last_to_brace(s, b, x, last->0, tail, acc);
    } else if ds.len() == 0 {
        assert(lt + tail =~= tail);
        assert forall|k: int| b <= k < cb implies #[trigger] space_pred()(s[k]) by {
            assert(s[b + (k - b)] == tail[k - b]);
        }
        lemma_run_end_at(s, b, cb, space_pred());
    } else {
        let d = ds[0];
        let rest = ds.drop_first();
        assert(decl_ok(d));
        let c = b + d.name.len();
        let q = c + 1 + d.value.len();
        let next = q + 1;
        assert(body_text(ds) + (lt + tail) + seq!['}'] =~= decl_text(d) + (body_text(rest) + (lt
            + tail) + seq!['}']));
        lemma_split(s, b, decl_text(d), body_text(rest) + (lt + tail) + seq!['}']);
        lemma_split(s, b, d.name + seq![':'] + d.value, seq![';']);
        lemma_split(s, b, d.name + seq![':'], d.value);
        lemma_split(s, b, d.name, seq![':']);
        assert(s[c + 0] == seq![':'][0]);
        assert(s[q + 0] == seq![';'][0]);
        lemma_run_end_le(s, b, c, space_pred());
        lemma_run_end(s, b, space_pred());
        let e = skip_space(s, b);
        if e < c {
            assert(s[b + (e - b)] == d.name[e - b]);
        }
        lemma_run_end_at(s, e, e, space_pred());
        assert forall|k: int| e <= k < c implies #[trigger] not_colon()(s[k]) by {
            assert(s[b + (k - b)] == d.name[k - b]);
        }
        lemma_run_end_at(s, e, c, not_colon());
        lemma_run_end_le(s, c + 1, q, space_pred());
        lemma_run_end(s, c + 1, space_pred());
        let i4 = skip_space(s, c + 1);
        assert forall|k: int| i4 <= k < q implies #[trigger] not_value_end()(s[k]) by {
            assert(s[(c + 1) + (k - c - 1)] == d.value[k - c - 1]);
        }
        lemma_run_end_at(s, i4, q, not_value_end());
        let j = skip_space(s, next);
        assert(decl_step(s, e).1 == j);
        lemma_run_end(s, next, space_pred());
        assert forall|k: int| 0 <= k < rest.len() implies decl_ok(#[trigger] rest[k]) by {
            assert(rest[k] == ds[k + 1]);
        }
        let acc2 = match decl_step(s, e).0 {
            Some(y) => acc.push(y),
            None => acc,
        };
        lemma_decls_to_brace(s, next, j, rest, last, tail, acc2);
    }
}

proof fn lemma_rules(s: Seq<char>, p: int, bs: Seq<BlockText>, trail: Seq<char>, acc: Seq<
    crate::css::RuleView,
>)
    requires
        text_at(s, p, sheet_text(bs) + trail),
        p + sheet_text(bs).len() + trail.len() == s.len(),
        forall|k: int| 0 <= k < bs.len() ==> block_ok(#[trigger] bs[k]),
        all_space(trail),
    ensures
        rules_loop(s, p, acc).len() == acc.len() + bs.len(),
    decreases bs.len(),
{
    if bs.len() == 0 {
        assert forall|k: int| p <= k < s.len() implies #[trigger] space_pred()(s[k]) by {
            assert(s[p + (k - p)] == (sheet_text(bs) + trail)[k - p]);
        }
        lemma_run_end_at(s, p, s.len() as int, space_pred());
    } else {
        let b0 = bs[0];
        let rest = bs.drop_first();
        assert(block_ok(b0));
        let e = p + b0.selector.len();
        let cb = e + 1 + body_text(b0.decls).len() + last_text(b0.last).len() + b0.tail.len();
        assert(sheet_text(bs) + trail =~= block_text(b0) + (sheet_text(rest) + trail));
        lemma_split(s, p, block_text(b0), sheet_text(rest) + trail);
        lemma_split(
            s,
            p,
            b0.selector + seq!['{'],
            body_text(b0.decls) + (last_text(b0.last) + b0.tail) + seq!['}'],
        );
        lemma_split(s, p, b0.selector, seq!['{']);
        assert(s[e + 0] == seq!['{'][0]);
        lemma_run_end_le(s, p, e, space_pred());
        lemma_run_end(s, p, space_pred());
        let i0 = skip_space(s, p);
        assert forall|k: int| i0 <= k < e implies s[k] != '{' by {
            assert(s[p + (k - p)] == b0.selector[k - p]);
        }
        lemma_selectors_to_brace(s, i0, e, Seq::empty());
        lemma_run_end(s, e + 1, space_pred());
        lemma_decls_to_brace(s, e + 1, e + 1, b0.decls, b0.last, b0.tail, Seq::empty());
        assert(rule_at(s, i0).1 == cb + 1);
        assert forall|k: int| 0 <= k < rest.len() implies block_ok(#[trigger] rest[k]) by {
            assert(rest[k] == bs[k + 1]);
        }
        lemma_rules(s, cb + 1, rest, trail, acc.push(rule_at(s, i0).0));
    }
}

/// A stylesheet written as well-formed blocks, with any white space between
/// them and after the last, parses to exactly one rule per block.
pub proof fn law_one_rule_per_block(bs: Seq<BlockText>, trail: Seq<char>)
    requires
        forall|k: int| 0 <= k < bs.len() ==> block_ok(#[trigger] bs[k]),
        all_space(trail),
    ensures
        stylesheet_of(sheet_text(bs) + trail).len() == bs.len(),
{
    let s = sheet_text(bs) + trail;
    assert forall|k: int| 0 <= k < s.len() implies s[0 + k] == #[trigger] s[k] by {}
    lemma_rules(s, 0, bs, trail, Seq::empty());
}

} // verus!
