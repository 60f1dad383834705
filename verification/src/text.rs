//! Text helpers: code-point order, decimal numerals, and small `String` builders.
use vstd::prelude::*;

verus! {

/// What a text says: its characters.
pub type Text = Seq<char>;

/// `String::push` appends one character.
pub assume_specification[ String::push ](s: &mut String, c: char)
    ensures
        final(s)@ == old(s)@.push(c),
;

/// Whether a character has the Unicode property `White_Space`.
pub open spec fn white_space(c: char) -> bool {
    let point = c as u32;
    ||| 0x9 <= point <= 0xD
    ||| point == 0x20
    ||| point == 0x85
    ||| point == 0xA0
    ||| point == 0x1680
    ||| 0x2000 <= point <= 0x200A
    ||| point == 0x2028
    ||| point == 0x2029
    ||| point == 0x202F
    ||| point == 0x205F
    ||| point == 0x3000
}

/// `char::is_whitespace` tells whether a character has the Unicode property
/// `White_Space`, which just the listed code points have.
pub assume_specification[ char::is_whitespace ](c: char) -> (r: bool)
    ensures
        r == white_space(c),
;

/// Lexicographic order on character sequences, by code point.
pub open spec fn precedes(a: Seq<char>, b: Seq<char>) -> bool
    decreases a.len(),
{
    if b.len() == 0 {
        false
    } else if a.len() == 0 {
        true
    } else {
        a[0] < b[0] || (a[0] == b[0] && precedes(a.drop_first(), b.drop_first()))
    }
}

/// Nothing precedes itself.
pub proof fn lemma_precedes_irreflexive(a: Seq<char>)
    ensures
        !precedes(a, a),
    decreases a.len(),
{
    if a.len() > 0 {
        lemma_precedes_irreflexive(a.drop_first());
    }
}

/// The order is transitive.
pub proof fn lemma_precedes_transitive(a: Seq<char>, b: Seq<char>, c: Seq<char>)
    requires
        precedes(a, b),
        precedes(b, c),
    ensures
        precedes(a, c),
    decreases a.len(),
{
    if a.len() > 0 && a[0] == b[0] && b[0] == c[0] {
        lemma_precedes_transitive(a.drop_first(), b.drop_first(), c.drop_first());
    }
}

/// Two different texts are ordered one way or the other.
pub proof fn lemma_precedes_total(a: Seq<char>, b: Seq<char>)
    ensures
        a == b || precedes(a, b) || precedes(b, a),
    decreases a.len(),
{
    if a.len() > 0 && b.len() > 0 && a[0] == b[0] {
        lemma_precedes_total(a.drop_first(), b.drop_first());
        if a.drop_first() == b.drop_first() {
            assert(a == seq![a[0]] + a.drop_first());
            assert(b == seq![b[0]] + b.drop_first());
        }
    } else if a.len() == 0 && b.len() == 0 {
        assert(a == b);
    }
}

/// The characters of a text.
pub fn chars_of(s: &str) -> (chars: Vec<char>)
    ensures
        chars@ == s@,
{
    let mut chars: Vec<char> = Vec::new();
    for c in it: s.chars()
        invariant
            it.seq() == s@,
            chars@ == it.seq().take(it.index()),
    {
        chars.push(c);
    }
    chars
}

/// Whether `a` comes before `b` in code-point order.
pub fn text_before(a: &str, b: &str) -> (r: bool)
    ensures
        r == precedes(a@, b@),
{
    let x = chars_of(a);
    let y = chars_of(b);
    let mut i: usize = 0;
    assert(a@.skip(0) == a@);
    assert(b@.skip(0) == b@);
    while i < x.len() && i < y.len() && x[i] == y[i]
        invariant
            x@ == a@,
            y@ == b@,
            i <= x.len(),
            i <= y.len(),
            precedes(a@, b@) == precedes(a@.skip(i as int), b@.skip(i as int)),
        decreases x.len() - i,
    {
        assert(a@.skip(i as int).drop_first() == a@.skip(i + 1));
        assert(b@.skip(i as int).drop_first() == b@.skip(i + 1));
        i += 1;
    }
    if i >= y.len() {
        false
    } else if i >= x.len() {
        true
    } else {
        x[i] < y[i]
    }
}

/// Whether two texts are equal.
pub fn same_text(a: &str, b: &str) -> (r: bool)
    ensures
        r == (a@ == b@),
{
    let x = chars_of(a);
    let y = chars_of(b);
    if x.len() != y.len() {
        return false;
    }
    let mut i: usize = 0;
    while i < x.len()
        invariant
            x@ == a@,
            y@ == b@,
            x.len() == y.len(),
            i <= x.len(),
            a@.take(i as int) == b@.take(i as int),
        decreases x.len() - i,
    {
        if x[i] != y[i] {
            assert(a@[i as int] != b@[i as int]);
            return false;
        }
        assert(a@.take(i + 1) == a@.take(i as int).push(a@[i as int]));
        assert(b@.take(i + 1) == b@.take(i as int).push(b@[i as int]));
        i += 1;
    }
    assert(a@.take(i as int) == a@);
    assert(b@.take(i as int) == b@);
    true
}

/// Whether a text holds nothing but white space.
pub open spec fn blank(text: Seq<char>) -> bool {
    forall|i: int| 0 <= i < text.len() ==> white_space(#[trigger] text[i])
}

/// Whether a text holds nothing but white space.
pub fn is_blank(text: &str) -> (r: bool)
    ensures
        r == blank(text@),
{
    let chars = chars_of(text);
    let mut i: usize = 0;
    while i < chars.len()
        invariant
            chars@ == text@,
            i <= chars.len(),
            forall|j: int| 0 <= j < i ==> white_space(#[trigger] text@[j]),
        decreases chars.len() - i,
    {
        if !chars[i].is_whitespace() {
            assert(!white_space(text@[i as int]));
            return false;
        }
        i += 1;
    }
    true
}

/// What texts say.
pub open spec fn text_models(texts: Seq<String>) -> Seq<Seq<char>> {
    texts.map_values(|text: String| text@)
}

/// What an optional text holds.
pub open spec fn optional_text(text: Option<String>) -> Option<Seq<char>> {
    match text {
        Some(text) => Some(text@),
        None => None,
    }
}

/// What an optional borrowed text holds.
pub open spec fn optional_str(text: Option<&str>) -> Option<Seq<char>> {
    match text {
        Some(text) => Some(text@),
        None => None,
    }
}

/// Whether an optional text holds just what an optional borrowed text holds.
pub fn same_optional_text(a: &Option<String>, b: Option<&str>) -> (r: bool)
    ensures
        r == (optional_text(*a) == optional_str(b)),
{
    match (a, b) {
        (Some(a), Some(b)) => same_text(a.as_str(), b),
        (None, None) => true,
        _ => false,
    }
}

/// Borrows an optional text.
pub fn borrow_optional(text: &Option<String>) -> (r: Option<&str>)
    ensures
        optional_str(r) == optional_text(*text),
{
    match text {
        Some(text) => Some(text.as_str()),
        None => None,
    }
}

/// The character of a decimal digit.
pub open spec fn digit(n: nat) -> char {
    ('0' as nat + n % 10) as char
}

/// The decimal numeral of a number, without leading zeros.
pub open spec fn decimal(n: nat) -> Seq<char>
    decreases n,
{
    if n < 10 {
        seq![digit(n)]
    } else {
        decimal(n / 10).push(digit(n))
    }
}

/// Different numbers have different numerals.
pub proof fn lemma_decimal_injective(a: nat, b: nat)
    requires
        decimal(a) == decimal(b),
    ensures
        a == b,
    decreases a,
{
    lemma_decimal_nonempty(a / 10);
    lemma_decimal_nonempty(b / 10);
    assert(decimal(a).last() == digit(a));
    assert(decimal(b).last() == digit(b));
    assert(a % 10 == b % 10);
    if a >= 10 && b >= 10 {
        assert(decimal(a).drop_last() == decimal(a / 10));
        assert(decimal(b).drop_last() == decimal(b / 10));
        lemma_decimal_injective(a / 10, b / 10);
    } else if a >= 10 {
        assert(decimal(a).len() >= 2);
    } else if b >= 10 {
        assert(decimal(b).len() >= 2);
    }
}

/// A numeral has a digit.
pub proof fn lemma_decimal_nonempty(n: nat)
    ensures
        decimal(n).len() >= 1,
{
}

/// Writes a number in decimal.
pub fn decimal_text(n: u64) -> (s: String)
    ensures
        s@ == decimal(n as nat),
    decreases n,
{
    let mut s = if n < 10 {
        String::new()
    } else {
        decimal_text(n / 10)
    };
    let low: u8 = (n % 10) as u8;
    let c: u8 = 48 + low;
    s.push(c as char);
    s
}

/// Appends to a text.
pub fn push_text(s: &mut String, tail: &str)
    ensures
        final(s)@ == old(s)@ + tail@,
{
    s.append(tail);
}

/// A numeral lists the digits of its number, the highest one first and never a leading
/// zero: another digit behind it is ten times the number and that digit.
pub proof fn numerals_are_decimal(n: nat, low: nat)
    requires
        low < 10,
    ensures
        decimal(low).len() == 1,
        decimal(low)[0] as nat == '0' as nat + low,
        n > 0 ==> decimal(10 * n + low) == decimal(n).push(decimal(low)[0]),
{
    if n > 0 {
        let m = 10 * n + low;
        assert(m / 10 == n && m % 10 == low) by (nonlinear_arith)
            requires
                m == 10 * n + low,
                low < 10,
        ;
    }
}

/// A text comes before another if it is where they first differ, or where it ends first.
pub proof fn texts_are_ordered_by_their_first_difference(
    start: Seq<char>,
    a: Seq<char>,
    b: Seq<char>,
)
    ensures
        a.len() > 0 && b.len() > 0 && a[0] != b[0] ==> precedes(start + a, start + b) == (a[0]
            < b[0]),
        b.len() > 0 ==> precedes(start, start + b),
        a.len() > 0 ==> !precedes(start + a, start),
        !precedes(start, start),
    decreases start.len(),
{
    if start.len() > 0 {
        let rest = start.drop_first();
        texts_are_ordered_by_their_first_difference(rest, a, b);
        assert((start + a).drop_first() =~= rest + a);
        assert((start + b).drop_first() =~= rest + b);
    } else {
        assert(start + a =~= a);
        assert(start + b =~= b);
    }
}

} // verus!
