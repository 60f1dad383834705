//! Identifiers with a running number.
use vstd::prelude::*;

use crate::text::{decimal, decimal_text, digit, lemma_decimal_injective, push_text};

verus! {

/// A source of identifiers whose numbers grow.
#[derive(Debug)]
pub struct IdSequence {
    next: u64,
}

/// The identifier with a prefix and a number.
pub open spec fn numbered(prefix: Seq<char>, number: nat) -> Seq<char> {
    prefix + "-"@ + decimal(number)
}

/// The number after a number, which starts over at zero past the last one.
pub open spec fn number_after(number: nat) -> nat {
    if number >= u64::MAX {
        0
    } else {
        number + 1
    }
}

impl View for IdSequence {
    type V = nat;

    /// The number of the next identifier.
    closed spec fn view(&self) -> nat {
        self.next as nat
    }
}

impl IdSequence {
    /// A source whose first identifier has a number.
    pub fn new(first: u64) -> (ids: Self)
        ensures
            ids@ == first,
    {
        IdSequence { next: first }
    }

    /// The next identifier.
    pub fn next(&mut self, prefix: &str) -> (id: String)
        ensures
            id@ == numbered(prefix@, old(self)@),
            final(self)@ == number_after(old(self)@),
    {
        let mut id = prefix.to_owned();
        push_text(&mut id, "-");
        push_text(&mut id, decimal_text(self.next).as_str());
        self.next = self.next.wrapping_add(1);
        id
    }
}

impl Default for IdSequence {
    fn default() -> (ids: Self)
        ensures
            ids@ == 1,
    {
        IdSequence::new(1)
    }
}

/// The numbers that follow a number.
pub open spec fn number_at(first: nat, n: nat) -> nat
    decreases n,
{
    if n == 0 {
        first
    } else {
        number_after(number_at(first, (n - 1) as nat))
    }
}

proof fn lemma_numeral_has_digits(n: nat)
    ensures
        forall|i: int| 0 <= i < decimal(n).len() ==> #[trigger] decimal(n)[i] != '-',
    decreases n,
{
    assert('0' <= digit(n) <= '9');
    if n >= 10 {
        lemma_numeral_has_digits(n / 10);
        assert forall|i: int| 0 <= i < decimal(n).len() implies #[trigger] decimal(n)[i] != '-' by {
            if i < decimal(n / 10).len() {
                assert(decimal(n)[i] == decimal(n / 10)[i]);
            }
        }
    }
}

proof fn lemma_shorter_numeral(p: Seq<char>, a: nat, q: Seq<char>, b: nat)
    requires
        numbered(p, a) == numbered(q, b),
    ensures
        decimal(a).len() >= decimal(b).len(),
{
    reveal_strlit("-");
    lemma_numeral_has_digits(b);
    let text = numbered(p, a);
    let i = text.len() - decimal(a).len() - 1;
    assert(text[i] == '-');
    if decimal(a).len() < decimal(b).len() {
        assert(text[i] == decimal(b)[i - (text.len() - decimal(b).len())]);
    }
}

/// Identifiers with different numbers differ, whatever their prefixes are.
pub proof fn numbers_tell_ids_apart(p: Seq<char>, a: nat, q: Seq<char>, b: nat)
    requires
        numbered(p, a) == numbered(q, b),
    ensures
        a == b,
        p == q,
{
    lemma_shorter_numeral(p, a, q, b);
    lemma_shorter_numeral(q, b, p, a);
    let text = numbered(p, a);
    let n = decimal(a).len() as int;
    reveal_strlit("-");
    assert(decimal(a) == text.skip(text.len() - n));
    assert(decimal(b) == text.skip(text.len() - n));
    lemma_decimal_injective(a, b);
    assert(p == text.take(p.len() as int));
    assert(q == text.take(q.len() as int));
}

/// As long as the numbers last, they grow by one each time, so that no two
/// identifiers of a source are the same.
pub proof fn ids_are_monotonic(first: nat, n: nat)
    requires
        first + n <= u64::MAX,
    ensures
        number_at(first, n) == first + n,
    decreases n,
{
    if n > 0 {
        ids_are_monotonic(first, (n - 1) as nat);
    }
}

/// An identifier is its prefix, a hyphen, and its number in decimal; the number after the
/// last one is zero.
pub proof fn ids_are_prefix_and_number(prefix: Seq<char>, number: nat)
    ensures
        numbered(prefix, number) == prefix + "-"@ + decimal(number),
        number < u64::MAX ==> number_after(number) == number + 1,
        number_after(u64::MAX as nat) == 0,
{
}

} // verus!
