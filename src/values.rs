//! Turning the raw text of a declaration's value into a typed value.
use vstd::prelude::*;
use crate::css::{Color, Unit, Value, ValueView};
use crate::text::{
    chars_are, chars_of, is_digit, is_whitespace, lemma_run_end, run_end, trim_end, trimmed_len,
};

verus! {

pub open spec fn digit_pred() -> spec_fn(char) -> bool {
    |c: char| is_digit(c)
}

/// The colours known by name.
pub open spec fn named_color(n: Seq<char>) -> Option<Color> {
    if n == "transparent"@ {
        Some(Color { r: 0, g: 0, b: 0, a: 0 })
    } else if n == "black"@ {
        Some(Color { r: 0, g: 0, b: 0, a: 255 })
    } else if n == "white"@ {
        Some(Color { r: 255, g: 255, b: 255, a: 255 })
    } else if n == "red"@ {
        Some(Color { r: 255, g: 0, b: 0, a: 255 })
    } else if n == "green"@ {
        Some(Color { r: 0, g: 128, b: 0, a: 255 })
    } else if n == "blue"@ {
        Some(Color { r: 0, g: 0, b: 255, a: 255 })
    } else if n == "yellow"@ {
        Some(Color { r: 255, g: 255, b: 0, a: 255 })
    } else if n == "gray"@ || n == "grey"@ {
        Some(Color { r: 128, g: 128, b: 128, a: 255 })
    } else {
        None
    }
}

pub open spec fn hex_value(c: char) -> int {
    if '0' <= c && c <= '9' {
        c as int - '0' as int
    } else if 'a' <= c && c <= 'f' {
        c as int - 'a' as int + 10
    } else if 'A' <= c && c <= 'F' {
        c as int - 'A' as int + 10
    } else {
        -1
    }
}

pub open spec fn is_hex(c: char) -> bool {
    hex_value(c) >= 0
}

pub open spec fn hex_pair(a: char, b: char) -> u8 {
    (16 * hex_value(a) + hex_value(b)) as u8
}

/// The colour that `v` names, once trailing white space is dropped: a known
/// name, `#rgb` or `#rrggbb`; anything else is transparent black.
pub open spec fn color_of(v: Seq<char>) -> Color {
    let t = trim_end(v);
    if named_color(t) is Some {
        named_color(t)->0
    } else {
        hex_color_of(t)
    }
}

/// The colour written as `#rgb` or `#rrggbb`, or transparent black.
pub open spec fn hex_color_of(t: Seq<char>) -> Color {
    if t.len() == 4 && t[0] == '#' && is_hex(t[1]) && is_hex(t[2]) && is_hex(t[3]) {
        Color { r: hex_pair(t[1], t[1]), g: hex_pair(t[2], t[2]), b: hex_pair(t[3], t[3]), a: 255 }
    } else if t.len() == 7 && t[0] == '#' && is_hex(t[1]) && is_hex(t[2]) && is_hex(t[3])
        && is_hex(t[4]) && is_hex(t[5]) && is_hex(t[6]) {
        Color { r: hex_pair(t[1], t[2]), g: hex_pair(t[3], t[4]), b: hex_pair(t[5], t[6]), a: 255 }
    } else {
        Color::transparent()
    }
}

fn hex_digit(c: char) -> (r: Option<u8>)
    ensures
        r is Some <==> is_hex(c),
        r is Some ==> r->0 as int == hex_value(c) && r->0 <= 15,
{
    if '0' <= c && c <= '9' {
        Some((c as u32 - '0' as u32) as u8)
    } else if 'a' <= c && c <= 'f' {
        Some((c as u32 - 'a' as u32 + 10) as u8)
    } else if 'A' <= c && c <= 'F' {
        Some((c as u32 - 'A' as u32 + 10) as u8)
    } else {
        None
    }
}

fn hex_color(t: &Vec<char>) -> (r: Color)
    ensures
        r == hex_color_of(t@),
{
    if !((t.len() == 4 || t.len() == 7) && t[0] == '#') {
        return Color::default();
    }
    let mut d: Vec<u8> = Vec::new();
    let mut i: usize = 1;
    while i < t.len()
        invariant
            1 <= i <= t@.len(),
            t@.len() == 4 || t@.len() == 7,
            d@.len() == i - 1,
            forall|k: int| 1 <= k < i ==> is_hex(#[trigger] t@[k]),
            forall|k: int| 1 <= k < i ==> d@[k - 1] as int == hex_value(#[trigger] t@[k]),
            forall|k: int| 0 <= k < d@.len() ==> #[trigger] d@[k] <= 15,
        decreases t@.len() - i,
    {
        match hex_digit(t[i]) {
            Some(h) => d.push(h),
            None => return Color::default(),
        }
        i = i + 1;
    }
    if t.len() == 4 {
        Color::new(d[0] * 17, d[1] * 17, d[2] * 17, 255)
    } else {
        Color::new(d[0] * 16 + d[1], d[2] * 16 + d[3], d[4] * 16 + d[5], 255)
    }
}

/// Parses a colour: a known name, `#rgb` or `#rrggbb`. Text that is none of
/// these gives transparent black.
pub fn translate_color(value: &String) -> (c: Color)
    ensures
        c == color_of(value@),
{
    let mut t = chars_of(value.as_str());
    let n = trimmed_len(&t);
    t.truncate(n);
    let s = t.as_slice();
    if chars_are(s, "transparent") {
        Color::new(0, 0, 0, 0)
    } else if chars_are(s, "black") {
        Color::new(0, 0, 0, 255)
    } else if chars_are(s, "white") {
        Color::new(255, 255, 255, 255)
    } else if chars_are(s, "red") {
        Color::new(255, 0, 0, 255)
    } else if chars_are(s, "green") {
        Color::new(0, 128, 0, 255)
    } else if chars_are(s, "blue") {
        Color::new(0, 0, 255, 255)
    } else if chars_are(s, "yellow") {
        Color::new(255, 255, 0, 255)
    } else if chars_are(s, "gray") || chars_are(s, "grey") {
        Color::new(128, 128, 128, 255)
    } else {
        hex_color(&t)
    }
}

/// Whether `u` spells `lit` when ASCII upper-case letters of `u` are read
/// as lower case (`lit` is lower case).
pub open spec fn same_letters(u: Seq<char>, lit: Seq<char>) -> bool {
    u.len() == lit.len() && forall|k: int|
        0 <= k < u.len() ==> (#[trigger] u[k] == lit[k] || ('A' <= u[k] && u[k] <= 'Z'
            && u[k] as u32 + 32 == lit[k] as u32))
}

/// The unit that `u` names, case aside.
pub open spec fn unit_of(u: Seq<char>) -> Option<Unit> {
    if same_letters(u, "em"@) {
        Some(Unit::Em)
    } else if same_letters(u, "ex"@) {
        Some(Unit::Ex)
    } else if same_letters(u, "ch"@) {
        Some(Unit::Ch)
    } else if same_letters(u, "rem"@) {
        Some(Unit::Rem)
    } else if same_letters(u, "vh"@) {
        Some(Unit::Vh)
    } else if same_letters(u, "vw"@) {
        Some(Unit::Vw)
    } else if same_letters(u, "vmin"@) {
        Some(Unit::Vmin)
    } else if same_letters(u, "vmax"@) {
        Some(Unit::Vmax)
    } else if same_letters(u, "px"@) {
        Some(Unit::Px)
    } else if same_letters(u, "mm"@) {
        Some(Unit::Mm)
    } else if same_letters(u, "q"@) {
        Some(Unit::Q)
    } else if same_letters(u, "cm"@) {
        Some(Unit::Cm)
    } else if same_letters(u, "in"@) {
        Some(Unit::In)
    } else if same_letters(u, "pt"@) {
        Some(Unit::Pt)
    } else if same_letters(u, "pc"@) {
        Some(Unit::Pc)
    } else if same_letters(u, "%"@) {
        Some(Unit::Pct)
    } else {
        None
    }
}

fn letters_are(u: &[char], lit: &str) -> (r: bool)
    ensures
        r == same_letters(u@, lit@),
{
    let l = chars_of(lit);
    if u.len() != l.len() {
        return false;
    }
    let mut i: usize = 0;
    while i < u.len()
        invariant
            i <= u@.len(),
            u@.len() == l@.len(),
            l@ == lit@,
            forall|k: int|
                0 <= k < i ==> (#[trigger] u@[k] == l@[k] || ('A' <= u@[k] && u@[k] <= 'Z'
                    && u@[k] as u32 + 32 == l@[k] as u32)),
        decreases u.len() - i,
    {
        let c = u[i];
        if !(c == l[i] || ('A' <= c && c <= 'Z' && c as u32 + 32 == l[i] as u32)) {
            return false;
        }
        i = i + 1;
    }
    true
}

fn unit_from(u: &[char]) -> (r: Option<Unit>)
    ensures
        r == unit_of(u@),
{
    if letters_are(u, "em") {
        Some(Unit::Em)
    } else if letters_are(u, "ex") {
        Some(Unit::Ex)
    } else if letters_are(u, "ch") {
        Some(Unit::Ch)
    } else if letters_are(u, "rem") {
        Some(Unit::Rem)
    } else if letters_are(u, "vh") {
        Some(Unit::Vh)
    } else if letters_are(u, "vw") {
        Some(Unit::Vw)
    } else if letters_are(u, "vmin") {
        Some(Unit::Vmin)
    } else if letters_are(u, "vmax") {
        Some(Unit::Vmax)
    } else if letters_are(u, "px") {
        Some(Unit::Px)
    } else if letters_are(u, "mm") {
        Some(Unit::Mm)
    } else if letters_are(u, "q") {
        Some(Unit::Q)
    } else if letters_are(u, "cm") {
        Some(Unit::Cm)
    } else if letters_are(u, "in") {
        Some(Unit::In)
    } else if letters_are(u, "pt") {
        Some(Unit::Pt)
    } else if letters_are(u, "pc") {
        Some(Unit::Pc)
    } else if letters_are(u, "%") {
        Some(Unit::Pct)
    } else {
        None
    }
}

/// The number that a run of decimal digits spells.
pub open spec fn digits_value(d: Seq<char>) -> int
    decreases d.len(),
{
    if d.len() == 0 {
        0
    } else {
        digits_value(d.drop_last()) * 10 + (d.last() as int - '0' as int)
    }
}

pub open spec fn pow10(n: nat) -> nat
    decreases n,
{
    if n == 0 {
        1
    } else {
        10 * pow10((n - 1) as nat)
    }
}

proof fn lemma_pow10_le(a: nat, b: nat)
    requires
        a <= b,
    ensures
        pow10(a) <= pow10(b),
    decreases b,
{
    if a < b {
        lemma_pow10_le(a, (b - 1) as nat);
    }
}

/// The length of a leading `-`.
pub open spec fn sign_len(t: Seq<char>) -> int {
    if t.len() > 0 && t[0] == '-' {
        1
    } else {
        0
    }
}

/// Where the integer digits end.
pub open spec fn int_end(t: Seq<char>) -> int {
    run_end(t, sign_len(t), digit_pred())
}

pub open spec fn has_point(t: Seq<char>) -> bool {
    int_end(t) < t.len() && t[int_end(t)] == '.'
}

/// Where the number ends: after the fraction digits if there is a point.
pub open spec fn number_end(t: Seq<char>) -> int {
    if has_point(t) {
        run_end(t, int_end(t) + 1, digit_pred())
    } else {
        int_end(t)
    }
}

pub open spec fn frac_digits(t: Seq<char>) -> int {
    if has_point(t) {
        number_end(t) - int_end(t) - 1
    } else {
        0
    }
}

/// A length is a number, optionally signed with `-`, then a unit. The
/// number is up to twelve digits, then optionally `.` and at least one
/// digit; the digits before the point may be left out.
pub open spec fn is_length(t: Seq<char>) -> bool {
    &&& int_end(t) - sign_len(t) <= 12
    &&& int_end(t) - sign_len(t) >= 1 || has_point(t)
    &&& has_point(t) ==> frac_digits(t) >= 1
    &&& unit_of(t.subrange(number_end(t), t.len() as int)) is Some
}

/// How many fraction digits count: at most three.
pub open spec fn kept_frac(t: Seq<char>) -> int {
    if frac_digits(t) > 3 {
        3
    } else {
        frac_digits(t)
    }
}

/// Whether the fraction digits after the third round the thousandths up:
/// the fourth is 5 or more.
pub open spec fn rounds_up(t: Seq<char>) -> bool {
    frac_digits(t) > 3 && t[int_end(t) + 4] >= '5'
}

/// The size of the number in thousandths, sign aside.
pub open spec fn thousandths(t: Seq<char>) -> int {
    let whole = digits_value(t.subrange(sign_len(t), int_end(t)));
    let part = if has_point(t) {
        digits_value(t.subrange(int_end(t) + 1, int_end(t) + 1 + kept_frac(t))) * pow10(
            (3 - kept_frac(t)) as nat,
        ) + if rounds_up(t) {
            1int
        } else {
            0
        }
    } else {
        0
    };
    whole * 1000 + part
}

/// The length that `v` spells once trailing white space is dropped, or
/// `Other(v)` where it spells none.
pub open spec fn length_of(v: Seq<char>) -> ValueView {
    let t = trim_end(v);
    if is_length(t) {
        ValueView::Length(
            if sign_len(t) == 1 {
                -thousandths(t)
            } else {
                thousandths(t)
            },
            unit_of(t.subrange(number_end(t), t.len() as int))->0,
        )
    } else {
        ValueView::Other(v)
    }
}

/// Reads at most `max` digits of `t` from `start`: where they end and the
/// number they spell.
fn read_digits_upto(t: &Vec<char>, start: usize, max: usize) -> (r: (usize, i64))
    requires
        start <= t@.len(),
        max <= 12,
    ensures
        r.0 == if run_end(t@, start as int, digit_pred()) - start > max {
            start + max
        } else {
            run_end(t@, start as int, digit_pred())
        },
        start <= r.0 <= t@.len(),
        r.1 == digits_value(t@.subrange(start as int, r.0 as int)),
        0 <= r.1 < pow10((r.0 - start) as nat),
{
    let mut i: usize = start;
    let mut n: i64 = 0;
    proof {
        lemma_pow10_le(max as nat, 12);
        reveal_with_fuel(pow10, 13);
        assert(t@.subrange(start as int, start as int).len() == 0);
    }
    while i < t.len() && is_digit_char(t[i]) && i - start < max
        invariant
            start <= i <= t@.len(),
            i - start <= max,
            max <= 12,
            pow10(max as nat) <= 1_000_000_000_000,
            run_end(t@, start as int, digit_pred()) == run_end(t@, i as int, digit_pred()),
            n == digits_value(t@.subrange(start as int, i as int)),
            0 <= n < pow10((i - start) as nat),
        decreases t@.len() - i,
    {
        proof {
            assert(t@.subrange(start as int, i + 1).drop_last() =~= t@.subrange(
                start as int,
                i as int,
            ));
            lemma_pow10_le((i + 1 - start) as nat, max as nat);
        }
        n = n * 10 + (t[i] as u32 - '0' as u32) as i64;
        i = i + 1;
    }
    proof {
        lemma_run_end(t@, i as int, digit_pred());
    }
    (i, n)
}

/// Reads the digits of `t` from `start`: where they end and the number they
/// spell, or `None` where there are more than `max` of them.
fn read_digits(t: &Vec<char>, start: usize, max: usize) -> (r: Option<(usize, i64)>)
    requires
        start <= t@.len(),
        max <= 12,
    ensures
        r is None <==> run_end(t@, start as int, digit_pred()) - start > max,
        r matches Some((e, n)) ==> start <= e <= t@.len() && e == run_end(
            t@,
            start as int,
            digit_pred(),
        ) && n == digits_value(t@.subrange(start as int, e as int)) && 0 <= n < pow10(
            (e - start) as nat,
        ),
{
    let (e, n) = read_digits_upto(t, start, max);
    proof {
        lemma_run_end(t@, start as int, digit_pred());
        lemma_run_end(t@, e as int, digit_pred());
    }
    if e < t.len() && is_digit_char(t[e]) {
        None
    } else {
        Some((e, n))
    }
}

/// Where the run of digits of `t` from `start` ends.
fn digits_end(t: &Vec<char>, start: usize) -> (e: usize)
    requires
        start <= t@.len(),
    ensures
        e == run_end(t@, start as int, digit_pred()),
{
    let mut i: usize = start;
    while i < t.len() && is_digit_char(t[i])
        invariant
            start <= i <= t@.len(),
            run_end(t@, start as int, digit_pred()) == run_end(t@, i as int, digit_pred()),
        decreases t@.len() - i,
    {
        i = i + 1;
    }
    i
}

fn is_digit_char(c: char) -> (r: bool)
    ensures
        r == is_digit(c),
{
    '0' <= c && c <= '9'
}

/// Where a number at the start of `t` ends and its size in thousandths, or
/// `None` where `t` does not start with a number of the length grammar.
#[verifier::rlimit(40)]
fn read_number(t: &Vec<char>) -> (r: Option<(usize, i64)>)
    ensures
        r is None <==> !(int_end(t@) - sign_len(t@) <= 12 && (int_end(t@) - sign_len(t@) >= 1
            || has_point(t@)) && (has_point(t@) ==> frac_digits(t@) >= 1)),
        r matches Some((e, m)) ==> e == number_end(t@) && e <= t@.len() && m == thousandths(
            t@,
        ) && 0 <= m <= 1_000_000_000_000_000,
{
    let sign: usize = if t.len() > 0 && t[0] == '-' {
        1
    } else {
        0
    };
    let (ie, whole) = match read_digits(t, sign, 12) {
        Some(p) => p,
        None => return None,
    };
    proof {
        lemma_pow10_le((ie - sign) as nat, 12);
        reveal_with_fuel(pow10, 13);
        assert(t@.subrange(sign as int, sign as int).len() == 0);
    }
    if ie < t.len() && t[ie] == '.' {
        let fe = digits_end(t, ie + 1);
        proof {
            lemma_run_end(t@, ie + 1, digit_pred());
        }
        if fe == ie + 1 {
            return None;
        }
        let (e3, f) = read_digits_upto(t, ie + 1, 3);
        proof {
            reveal_with_fuel(pow10, 4);
        }
        let scale: i64 = if e3 - ie == 2 {
            100
        } else if e3 - ie == 3 {
            10
        } else {
            1
        };
        let up: i64 = if fe - ie > 4 && t[ie + 4] >= '5' {
            1
        } else {
            0
        };
        Some((fe, whole * 1000 + f * scale + up))
    } else {
        if ie == sign {
            return None;
        }
        Some((ie, whole * 1000))
    }
}

/// Parses a length: a number with at most twelve integer digits, which may
/// be left out before a `.`, then a unit, compared without regard to ASCII
/// case. The size is kept in thousandths, rounded half up where more fraction
/// digits are written. Text that is no such length stays as it is, as
/// `Value::Other`.
pub fn translate_length(value: &String) -> (r: Value)
    ensures
        r@ == length_of(value@),
{
    let mut t = chars_of(value.as_str());
    let len = trimmed_len(&t);
    t.truncate(len);
    let (ne, m) = match read_number(&t) {
        Some(p) => p,
        None => return Value::Other(value.clone()),
    };
    let mut u: Vec<char> = Vec::new();
    let mut k: usize = ne;
    while k < t.len()
        invariant
            ne <= k <= t@.len(),
            u@ == t@.subrange(ne as int, k as int),
        decreases t@.len() - k,
    {
        u.push(t[k]);
        k = k + 1;
        assert(u@ =~= t@.subrange(ne as int, k as int));
    }
    match unit_from(u.as_slice()) {
        Some(unit) => Value::Length(
            if t.len() > 0 && t[0] == '-' {
                -m
            } else {
                m
            },
            unit,
        ),
        None => Value::Other(value.clone()),
    }
}

} // verus!
