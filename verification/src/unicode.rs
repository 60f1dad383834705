//! Unicode text as the search sees it: folded to a normal form, split into words,
//! and searched by characters.
use unicode_normalization::UnicodeNormalization;
use vstd::prelude::*;
use vstd::utf8::encode_utf8;

use crate::text::{chars_of, push_text, text_models, white_space};

verus! {

/// The compatibility decomposition (NFKD) of a text.
pub uninterp spec fn decomposition(text: Seq<char>) -> Seq<char>;

/// `UnicodeNormalization::nfkd` decomposes a text as the Unicode tables of the crate
/// say, which depends on the text alone.
#[verifier::external_body]
fn decompose(text: &str) -> (r: String)
    ensures
        r@ == decomposition(text@),
{
    text.nfkd().collect()
}

/// Whether a character belongs to the general category `Mark`.
pub uninterp spec fn combining_mark(c: char) -> bool;

/// `unicode_normalization::char::is_combining_mark` tells whether a character belongs
/// to the general category `Mark`, by a table.
pub assume_specification[ unicode_normalization::char::is_combining_mark ](c: char) -> (r: bool)
    ensures
        r == combining_mark(c),
;

/// The lowercase mapping of a character.
pub uninterp spec fn lowercase(c: char) -> Seq<char>;

/// `char::to_lowercase` maps a character to its lowercase characters, by the Unicode
/// tables of the standard library.
#[verifier::external_body]
fn to_lowercase(c: char) -> (r: String)
    ensures
        r@ == lowercase(c),
{
    c.to_lowercase().collect()
}

/// Whether a character is a letter or a number.
pub uninterp spec fn alphanumeric(c: char) -> bool;

/// `char::is_alphanumeric` tells whether a character is a letter or a number, by the
/// Unicode tables of the standard library.
pub assume_specification[ char::is_alphanumeric ](c: char) -> (r: bool)
    ensures
        r == alphanumeric(c),
;

/// The lowercase mappings of characters, one after another.
pub open spec fn lowered(text: Seq<char>) -> Seq<char>
    decreases text.len(),
{
    if text.len() == 0 {
        Seq::empty()
    } else {
        lowered(text.drop_last()) + lowercase(text.last())
    }
}

/// What is left of decomposed text: its characters without the combining marks, in
/// lowercase.
pub open spec fn folded(decomposed: Seq<char>) -> Seq<char> {
    lowered(decomposed.filter(|c: char| !combining_mark(c)))
}

/// The form in which texts are compared.
pub open spec fn normalized(text: Seq<char>) -> Seq<char> {
    folded(decomposition(text))
}

/// Drops the combining marks of decomposed text, and maps the rest to lowercase.
pub fn fold(decomposed: &str) -> (r: String)
    ensures
        r@ == folded(decomposed@),
{
    let chars = chars_of(decomposed);
    let ghost base = |c: char| !combining_mark(c);
    let mut r = String::new();
    let mut i: usize = 0;
    assert(chars@.take(0).filter(base) == Seq::<char>::empty()) by {
        reveal(Seq::filter);
    }
    while i < chars.len()
        invariant
            i <= chars.len(),
            base == (|c: char| !combining_mark(c)),
            r@ == lowered(chars@.take(i as int).filter(base)),
        decreases chars.len() - i,
    {
        let c = chars[i];
        proof {
            assert(chars@.take(i + 1) == chars@.take(i as int).push(c));
            chars@.take(i as int).lemma_filter_push(c, base);
            let before = chars@.take(i as int).filter(base);
            assert(before.push(c).drop_last() == before);
        }
        if !unicode_normalization::char::is_combining_mark(c) {
            let lower = to_lowercase(c);
            push_text(&mut r, lower.as_str());
        }
        i += 1;
    }
    assert(chars@.take(i as int) == chars@);
    r
}

/// The form in which texts are compared: decomposed, without combining marks, in
/// lowercase.
pub fn normalize(text: &str) -> (r: String)
    ensures
        r@ == normalized(text@),
{
    fold(decompose(text).as_str())
}

/// A word, unless it is empty.
pub open spec fn one_word(run: Seq<char>) -> Seq<Seq<char>> {
    if run.len() == 0 {
        Seq::empty()
    } else {
        seq![run]
    }
}

/// The words of a text whose first word goes on from a run of characters.
pub open spec fn words_from(run: Seq<char>, text: Seq<char>) -> Seq<Seq<char>>
    decreases text.len(),
{
    if text.len() == 0 {
        one_word(run)
    } else if alphanumeric(text[0]) {
        words_from(run.push(text[0]), text.drop_first())
    } else {
        one_word(run) + words_from(Seq::empty(), text.drop_first())
    }
}

/// The words of a text: the longest runs of letters and numbers, in order.
pub open spec fn words_of(text: Seq<char>) -> Seq<Seq<char>> {
    words_from(Seq::empty(), text)
}

proof fn lemma_words_bounded(run: Seq<char>, text: Seq<char>)
    requires
        forall|i: int| 0 <= i < run.len() ==> alphanumeric(#[trigger] run[i]),
    ensures
        words_from(run, text).len() <= run.len() + text.len(),
        forall|i: int|
            0 <= i < words_from(run, text).len() ==> 0 < (#[trigger] words_from(
                run,
                text,
            )[i]).len() <= run.len() + text.len(),
        forall|i: int, j: int|
            0 <= i < words_from(run, text).len() && 0 <= j < words_from(run, text)[i].len()
                ==> alphanumeric(#[trigger] words_from(run, text)[i][j]),
    decreases text.len(),
{
    if text.len() > 0 {
        if alphanumeric(text[0]) {
            lemma_words_bounded(run.push(text[0]), text.drop_first());
        } else {
            lemma_words_bounded(Seq::empty(), text.drop_first());
        }
    }
}

/// Words are not empty, hold nothing but letters and numbers, and are no more, and no
/// longer, than the text.
pub proof fn words_hold_letters_and_numbers(text: Seq<char>)
    ensures
        words_of(text).len() <= text.len(),
        forall|i: int|
            0 <= i < words_of(text).len() ==> 0 < (#[trigger] words_of(text)[i]).len()
                <= text.len(),
        forall|i: int, j: int|
            0 <= i < words_of(text).len() && 0 <= j < words_of(text)[i].len() ==> alphanumeric(
                #[trigger] words_of(text)[i][j],
            ),
{
    lemma_words_bounded(Seq::empty(), text);
}

/// The words of a text.
pub fn words(text: &str) -> (r: Vec<String>)
    ensures
        text_models(r@) == words_of(text@),
{
    let chars = chars_of(text);
    let mut r: Vec<String> = Vec::new();
    let mut run = String::new();
    let mut i: usize = 0;
    assert(chars@.skip(0) == chars@);
    assert(text_models(r@) == Seq::<Seq<char>>::empty());
    assert(run@ == Seq::<char>::empty());
    while i < chars.len()
        invariant
            i <= chars.len(),
            chars@ == text@,
            words_of(text@) == text_models(r@) + words_from(run@, chars@.skip(i as int)),
        decreases chars.len() - i,
    {
        let c = chars[i];
        let ghost before = text_models(r@);
        assert(chars@.skip(i as int)[0] == c);
        assert(chars@.skip(i as int).drop_first() == chars@.skip(i + 1));
        if c.is_alphanumeric() {
            run.push(c);
        } else {
            let ghost word = run@;
            if !run.as_str().is_empty() {
                r.push(run);
                assert(text_models(r@) == before + one_word(word));
                run = String::new();
            } else {
                assert(before + one_word(word) == before);
            }
            assert(run@ == Seq::<char>::empty());
            assert(before + (one_word(word) + words_from(Seq::empty(), chars@.skip(i + 1))) == (
            before + one_word(word)) + words_from(Seq::empty(), chars@.skip(i + 1)));
        }
        i += 1;
    }
    assert(chars@.skip(i as int) == Seq::<char>::empty());
    let ghost before = text_models(r@);
    if !run.as_str().is_empty() {
        r.push(run);
    }
    assert(text_models(r@) == before + one_word(run@));
    r
}

/// A text without the white space at its ends.
pub open spec fn trimmed(text: Seq<char>) -> Seq<char>
    decreases text.len(),
{
    if text.len() > 0 && white_space(text[0]) {
        trimmed(text.drop_first())
    } else if text.len() > 0 && white_space(text.last()) {
        trimmed(text.drop_last())
    } else {
        text
    }
}

/// A trimmed text is part of the text, has no white space at its ends, and is empty
/// just when the text is blank.
pub proof fn trimming_leaves_no_outer_space(text: Seq<char>)
    ensures
        trimmed(text).len() <= text.len(),
        exists|i: int|
            0 <= i && i + trimmed(text).len() <= text.len() && #[trigger] text.subrange(
                i,
                i + trimmed(text).len(),
            ) == trimmed(text),
        trimmed(text).len() > 0 ==> !white_space(trimmed(text)[0]) && !white_space(
            trimmed(text).last(),
        ),
        trimmed(text).len() == 0 <==> crate::text::blank(text),
    decreases text.len(),
{
    if text.len() > 0 && white_space(text[0]) {
        let rest = text.drop_first();
        trimming_leaves_no_outer_space(rest);
        let i = choose|i: int|
            0 <= i && i + trimmed(rest).len() <= rest.len() && #[trigger] rest.subrange(
                i,
                i + trimmed(rest).len(),
            ) == trimmed(rest);
        assert(text.subrange(i + 1, i + 1 + trimmed(text).len()) == rest.subrange(
            i,
            i + trimmed(rest).len(),
        ));
        assert forall|j: int| 0 <= j < text.len() && crate::text::blank(rest) implies white_space(
            #[trigger] text[j],
        ) by {
            if j > 0 {
                assert(rest[j - 1] == text[j]);
            }
        }
        assert forall|j: int| 0 <= j < rest.len() && crate::text::blank(text) implies white_space(
            #[trigger] rest[j],
        ) by {
            assert(rest[j] == text[j + 1]);
        }
    } else if text.len() > 0 && white_space(text.last()) {
        let rest = text.drop_last();
        trimming_leaves_no_outer_space(rest);
        let i = choose|i: int|
            0 <= i && i + trimmed(rest).len() <= rest.len() && #[trigger] rest.subrange(
                i,
                i + trimmed(rest).len(),
            ) == trimmed(rest);
        assert(text.subrange(i, i + trimmed(text).len()) == rest.subrange(
            i,
            i + trimmed(rest).len(),
        ));
        assert(!crate::text::blank(text));
        if rest.len() > 0 {
            assert(rest[0] == text[0]);
            assert(!crate::text::blank(rest));
        }
    } else {
        assert(text.subrange(0int, 0int + trimmed(text).len()) == trimmed(text));
    }
}

/// Drops the white space at both ends of a text.
pub fn trim(text: &str) -> (r: String)
    ensures
        r@ == trimmed(text@),
{
    let chars = chars_of(text);
    let mut start: usize = 0;
    let mut end: usize = chars.len();
    assert(chars@.subrange(0, end as int) == chars@);
    while start < end && chars[start].is_whitespace()
        invariant
            start <= end == chars.len(),
            chars@ == text@,
            trimmed(chars@.subrange(start as int, end as int)) == trimmed(text@),
        decreases end - start,
    {
        let ghost now = chars@.subrange(start as int, end as int);
        assert(now[0] == chars@[start as int]);
        assert(now.drop_first() == chars@.subrange(start + 1, end as int));
        start += 1;
    }
    while start < end && chars[end - 1].is_whitespace()
        invariant
            start <= end <= chars.len(),
            chars@ == text@,
            start < end ==> !white_space(chars@[start as int]),
            trimmed(chars@.subrange(start as int, end as int)) == trimmed(text@),
        decreases end - start,
    {
        let ghost now = chars@.subrange(start as int, end as int);
        assert(now[0] == chars@[start as int]);
        assert(now.last() == chars@[end - 1]);
        assert(now.drop_last() == chars@.subrange(start as int, end - 1));
        end -= 1;
    }
    let ghost now = chars@.subrange(start as int, end as int);
    proof {
        if start < end {
            assert(now[0] == chars@[start as int]);
            assert(now.last() == chars@[end - 1]);
        }
    }
    let mut r = String::new();
    let mut i: usize = start;
    while i < end
        invariant
            start <= i <= end <= chars.len(),
            r@ == chars@.subrange(start as int, i as int),
        decreases end - i,
    {
        assert(chars@.subrange(start as int, i + 1) == chars@.subrange(start as int, i as int).push(
            chars@[i as int],
        ));
        r.push(chars[i]);
        i += 1;
    }
    r
}

/// Whether a part stands in a text at a place.
pub open spec fn occurs_at(text: Seq<char>, part: Seq<char>, i: int) -> bool {
    0 <= i && i + part.len() <= text.len() && text.subrange(i, i + part.len()) == part
}

/// Whether a text starts with a part.
pub open spec fn starts(text: Seq<char>, part: Seq<char>) -> bool {
    occurs_at(text, part, 0)
}

/// The first place from which on a part stands in a text.
pub open spec fn found_from(text: Seq<char>, part: Seq<char>, i: nat) -> Option<nat>
    decreases text.len() + 1 - i,
{
    if i > text.len() {
        None
    } else if occurs_at(text, part, i as int) {
        Some(i)
    } else {
        found_from(text, part, i + 1)
    }
}

/// The place of a part is the first one, and it is missing just when the part occurs
/// nowhere.
pub proof fn found_is_first(text: Seq<char>, part: Seq<char>, i: nat)
    ensures
        match found_from(text, part, i) {
            Some(place) => i <= place && occurs_at(text, part, place as int) && forall|j: int|
                i <= j < place ==> !#[trigger] occurs_at(text, part, j),
            None => forall|j: int| i <= j ==> !#[trigger] occurs_at(text, part, j),
        },
    decreases text.len() + 1 - i,
{
    if i <= text.len() && !occurs_at(text, part, i as int) {
        found_is_first(text, part, i + 1);
    }
}

/// Whether a part stands among characters at a place.
pub fn has_at(text: &Vec<char>, part: &Vec<char>, i: usize) -> (r: bool)
    ensures
        r == occurs_at(text@, part@, i as int),
{
    if i > text.len() || part.len() > text.len() - i {
        return false;
    }
    let mut j: usize = 0;
    while j < part.len()
        invariant
            j <= part.len(),
            i + part.len() <= text.len(),
            forall|k: int| 0 <= k < j ==> text@[i + k] == #[trigger] part@[k],
        decreases part.len() - j,
    {
        if text[i + j] != part[j] {
            assert(text@.subrange(i as int, i + part@.len())[j as int] == text@[i + j]);
            return false;
        }
        j += 1;
    }
    assert(text@.subrange(i as int, i + part@.len()) =~= part@);
    true
}

/// Whether a text starts with a part.
pub fn starts_with(text: &str, part: &str) -> (r: bool)
    ensures
        r == starts(text@, part@),
{
    has_at(&chars_of(text), &chars_of(part), 0)
}

/// How many characters stand before the first occurrence of a part.
pub fn find_char(text: &str, part: &str) -> (r: Option<usize>)
    ensures
        match r {
            Some(i) => found_from(text@, part@, 0) == Some(i as nat),
            None => found_from(text@, part@, 0) is None,
        },
{
    let chars = chars_of(text);
    let sought = chars_of(part);
    let mut i: usize = 0;
    while i < chars.len()
        invariant
            chars@ == text@,
            sought@ == part@,
            i <= chars.len(),
            found_from(text@, part@, 0) == found_from(text@, part@, i as nat),
        decreases chars.len() - i,
    {
        if has_at(&chars, &sought, i) {
            return Some(i);
        }
        i += 1;
    }
    assert(!occurs_at(text@, part@, i as int) ==> found_from(text@, part@, i as nat)
        == found_from(text@, part@, i as nat + 1));
    if has_at(&chars, &sought, i) {
        Some(i)
    } else {
        None
    }
}

/// How many bytes of UTF-8 stand before the first occurrence of a part.
pub open spec fn byte_position(text: Seq<char>, part: Seq<char>) -> Option<nat> {
    match found_from(text, part, 0) {
        Some(i) => Some(encode_utf8(text.take(i as int)).len()),
        None => None,
    }
}

/// How many bytes of UTF-8 stand before the first occurrence of a part.
pub fn find(text: &str, part: &str) -> (r: Option<usize>)
    ensures
        match r {
            Some(i) => byte_position(text@, part@) == Some(i as nat),
            None => byte_position(text@, part@) is None,
        },
{
    match find_char(text, part) {
        Some(i) => {
            proof {
                found_is_first(text@, part@, 0);
            }
            let chars = chars_of(text);
            let mut before = String::new();
            let mut j: usize = 0;
            while j < i
                invariant
                    j <= i <= chars.len(),
                    chars@ == text@,
                    before@ == text@.take(j as int),
                decreases i - j,
            {
                assert(text@.take(j + 1) == text@.take(j as int).push(text@[j as int]));
                before.push(chars[j]);
                j += 1;
            }
            Some(before.as_str().as_bytes().len())
        },
        None => None,
    }
}

proof fn lemma_words_split(run: Seq<char>, text: Seq<char>, between: char, rest: Seq<char>)
    requires
        !alphanumeric(between),
    ensures
        words_from(run, text.push(between) + rest) == words_from(run, text) + words_of(rest),
    decreases text.len(),
{
    let whole = text.push(between) + rest;
    if text.len() == 0 {
        assert(whole.drop_first() =~= rest);
    } else {
        let tail = text.drop_first();
        assert(whole.drop_first() =~= tail.push(between) + rest);
        if alphanumeric(text[0]) {
            lemma_words_split(run.push(text[0]), tail, between, rest);
        } else {
            lemma_words_split(Seq::empty(), tail, between, rest);
            let (a, b, c) = (one_word(run), words_from(Seq::empty(), tail), words_of(rest));
            assert(a + (b + c) =~= (a + b) + c);
        }
    }
}

proof fn lemma_one_run(run: Seq<char>, text: Seq<char>)
    requires
        forall|i: int| 0 <= i < text.len() ==> alphanumeric(#[trigger] text[i]),
    ensures
        words_from(run, text) == one_word(run + text),
    decreases text.len(),
{
    if text.len() == 0 {
        assert(run + text =~= run);
    } else {
        lemma_one_run(run.push(text[0]), text.drop_first());
        assert(run.push(text[0]) + text.drop_first() =~= run + text);
    }
}

/// A character that is neither a letter nor a number parts the words before it from
/// those behind it.
pub proof fn words_are_parted(text: Seq<char>, between: char, rest: Seq<char>)
    requires
        !alphanumeric(between),
    ensures
        words_of(text.push(between) + rest) == words_of(text) + words_of(rest),
{
    lemma_words_split(Seq::empty(), text, between, rest);
}

/// Letters and numbers next to each other are a single word, and an empty text has none.
pub proof fn runs_are_single_words(text: Seq<char>)
    requires
        forall|i: int| 0 <= i < text.len() ==> alphanumeric(#[trigger] text[i]),
    ensures
        text.len() > 0 ==> words_of(text) == seq![text],
        text.len() == 0 ==> words_of(text) == Seq::<Seq<char>>::empty(),
{
    lemma_one_run(Seq::empty(), text);
    assert(Seq::empty() + text =~= text);
}

proof fn lemma_lowered_joined(a: Seq<char>, b: Seq<char>)
    ensures
        lowered(a + b) == lowered(a) + lowered(b),
    decreases b.len(),
{
    if b.len() == 0 {
        assert(a + b =~= a);
        assert(lowered(a) + lowered(b) =~= lowered(a));
    } else {
        lemma_lowered_joined(a, b.drop_last());
        assert((a + b).drop_last() =~= a + b.drop_last());
        assert((a + b).last() == b.last());
        let (x, y, z) = (lowered(a), lowered(b.drop_last()), lowercase(b.last()));
        assert((x + y) + z =~= x + (y + z));
    }
}

proof fn lemma_folded_joined(a: Seq<char>, b: Seq<char>)
    ensures
        folded(a + b) == folded(a) + folded(b),
{
    let plain = |c: char| !combining_mark(c);
    Seq::filter_distributes_over_add(a, b, plain);
    lemma_lowered_joined(a.filter(plain), b.filter(plain));
}

/// Texts are folded character by character, in their order: a combining mark leaves
/// nothing, and any other character its lowercase form.
pub proof fn characters_are_folded_one_by_one(before: Seq<char>, c: char, after: Seq<char>)
    ensures
        folded(before + seq![c] + after) == folded(before) + (if combining_mark(c) {
            Seq::empty()
        } else {
            lowercase(c)
        }) + folded(after),
        folded(Seq::empty()) == Seq::<char>::empty(),
{
    let plain = |c: char| !combining_mark(c);
    lemma_folded_joined(before + seq![c], after);
    lemma_folded_joined(before, seq![c]);
    assert(Seq::<char>::empty().filter(plain) =~= Seq::empty()) by {
        reveal(Seq::filter);
    }
    Seq::<char>::empty().lemma_filter_push(c, plain);
    assert(seq![c] =~= Seq::empty().push(c));
    if !combining_mark(c) {
        assert(lowered(seq![c]) =~= lowercase(c)) by {
            assert(seq![c].drop_last() =~= Seq::empty());
            assert(lowered(seq![c].drop_last()) =~= Seq::empty());
            assert(Seq::empty() + lowercase(c) =~= lowercase(c));
        }
    }
    assert(folded(Seq::empty()) =~= Seq::empty());
}

/// What matters of a text is its decomposition: marks that it splits off are dropped, and
/// the rest is in lowercase.
pub proof fn texts_are_compared_by_their_letters(
    text: Seq<char>,
    before: Seq<char>,
    c: char,
    after: Seq<char>,
)
    requires
        decomposition(text) == before + seq![c] + after,
    ensures
        combining_mark(c) ==> normalized(text) == folded(before) + folded(after),
        !combining_mark(c) ==> normalized(text) == folded(before) + lowercase(c) + folded(after),
{
    characters_are_folded_one_by_one(before, c, after);
    assert(folded(before) + Seq::empty() =~= folded(before));
}

/// Trimming takes away the white space around a text, all of it and nothing else.
pub proof fn outer_space_is_trimmed(before: Seq<char>, text: Seq<char>, after: Seq<char>)
    requires
        forall|i: int| 0 <= i < before.len() ==> white_space(#[trigger] before[i]),
        forall|i: int| 0 <= i < after.len() ==> white_space(#[trigger] after[i]),
        text.len() > 0 ==> !white_space(text[0]) && !white_space(text.last()),
    ensures
        trimmed(before + text + after) == text,
    decreases before.len() + after.len(),
{
    let whole = before + text + after;
    if before.len() > 0 {
        outer_space_is_trimmed(before.drop_first(), text, after);
        assert(whole[0] == before[0]);
        assert(whole.drop_first() =~= before.drop_first() + text + after);
    } else if after.len() > 0 {
        if text.len() == 0 {
            outer_space_is_trimmed(before, text, after.drop_first());
            assert(whole[0] == after[0]);
            assert(whole.drop_first() =~= before + text + after.drop_first());
        } else {
            outer_space_is_trimmed(before, text, after.drop_last());
            assert(whole[0] == text[0]);
            assert(whole.last() == after.last());
            assert(whole.drop_last() =~= before + text + after.drop_last());
        }
    } else {
        assert(whole =~= text);
    }
}

/// A text starts with a part just where its first characters are those of the part.
pub proof fn starts_are_compared(text: Seq<char>, part: Seq<char>)
    ensures
        starts(text, part) <==> part.len() <= text.len() && forall|i: int|
            0 <= i < part.len() ==> text[i] == part[i],
{
    if part.len() <= text.len() {
        let front = text.subrange(0, part.len() as int);
        if starts(text, part) {
            assert forall|i: int| 0 <= i < part.len() implies text[i] == part[i] by {
                assert(front[i] == text[i]);
            }
        } else if forall|i: int| 0 <= i < part.len() ==> text[i] == part[i] {
            assert(front =~= part);
        }
    }
}

/// A part is found where it stands first, and its place is told in bytes.
pub proof fn places_are_told_in_bytes(before: Seq<char>, part: Seq<char>, after: Seq<char>)
    requires
        forall|i: int|
            0 <= i < before.len() ==> #[trigger] (before + part + after).subrange(
                i,
                i + part.len(),
            ) != part,
    ensures
        found_from(before + part + after, part, 0) == Some(before.len()),
        byte_position(before + part + after, part) == Some(encode_utf8(before).len()),
{
    let text = before + part + after;
    found_is_first(text, part, 0);
    let n = before.len() as int;
    assert(text.subrange(n, n + part.len()) =~= part);
    assert(occurs_at(text, part, n));
    let place = found_from(text, part, 0);
    assert(place is Some);
    let at = place->0 as int;
    if at < n {
        assert(text.subrange(at, at + part.len()) != part);
    }
    assert(text.take(n) =~= before);
}

/// What stands nowhere in a text is not found in it.
pub proof fn missing_parts_are_not_found(text: Seq<char>, part: Seq<char>)
    requires
        forall|i: int|
            0 <= i <= text.len() - part.len() ==> #[trigger] text.subrange(i, i + part.len())
                != part,
    ensures
        found_from(text, part, 0) is None,
        byte_position(text, part) is None,
{
    found_is_first(text, part, 0);
}

} // verus!
