//! Fuzzy search: the score of an item against a query, and the order of the items
//! that match.
use fuzzy_matcher::FuzzyMatcher;
use vstd::prelude::*;

use crate::json::{no_members, put, Json, JsonModel};
use crate::text::{
    chars_of, lemma_precedes_irreflexive, lemma_precedes_total, lemma_precedes_transitive,
    precedes, push_text, same_text, text_before, text_models,
};
use crate::unicode::{
    byte_position, find, find_char, found_from, found_is_first, missing_parts_are_not_found,
    normalize, normalized, occurs_at, outer_space_is_trimmed, places_are_told_in_bytes, starts,
    starts_with, trim, trimmed, words, words_hold_letters_and_numbers, words_of,
};

verus! {

/// How many characters a text may have so that the tables over its characters, with
/// which it is compared, can be addressed.
pub const TEXT_LIMIT: usize = usize::MAX / 256;

/// How many characters a match may have so that its score fits.
pub const MATCH_LIMIT: usize = 0x400_0000;

/// The score of the default skim matcher for a pattern in a choice.
pub uninterp spec fn skim_score(choice: Seq<char>, pattern: Seq<char>) -> Option<i64>;

/// `SkimMatcherV2::fuzzy_match` of a default matcher scores a pattern whose characters
/// occur in order in the choice. The score depends on the two texts alone, and is a
/// widened `i32`. Scores are summed up in `i32`, at most 32 for each character of the
/// pattern, and only where the choice has as many: one of the two lengths keeps them
/// from overflowing. Two rows over the choice are kept, which its length keeps
/// addressable.
#[verifier::external_body]
fn fuzzy_match(choice: &str, pattern: &str) -> (r: Option<i64>)
    requires
        choice@.len() <= TEXT_LIMIT,
        pattern@.len() <= TEXT_LIMIT,
        choice@.len() <= MATCH_LIMIT || pattern@.len() <= MATCH_LIMIT,
    ensures
        r == skim_score(choice@, pattern@),
        r matches Some(score) ==> i32::MIN <= score <= i32::MAX,
{
    fuzzy_matcher::skim::SkimMatcherV2::default().fuzzy_match(choice, pattern)
}

/// The smaller of two distances.
pub open spec fn nearer(a: nat, b: nat) -> nat {
    if a <= b {
        a
    } else {
        b
    }
}

/// The optimal string alignment distance of two texts: the least number of insertions,
/// deletions, substitutions and transpositions of neighbours that turn one into the
/// other, where no part is edited twice.
pub open spec fn alignment_distance(a: Seq<char>, b: Seq<char>) -> nat
    decreases a.len() + b.len(),
{
    let (m, n) = (a.len() as int, b.len() as int);
    if m == 0 || n == 0 {
        a.len() + b.len()
    } else {
        let aligned = alignment_distance(a.drop_last(), b.drop_last());
        let edited = nearer(
            nearer(alignment_distance(a.drop_last(), b), alignment_distance(a, b.drop_last())) + 1,
            if a.last() == b.last() {
                aligned
            } else {
                aligned + 1
            },
        );
        if m > 1 && n > 1 && a.last() != b.last() && a.last() == b[n - 2] && b.last() == a[m - 2] {
            nearer(edited, alignment_distance(a.take(m - 2), b.take(n - 2)) + 1)
        } else {
            edited
        }
    }
}

/// `strsim::osa_distance` counts the insertions, deletions, substitutions and
/// transpositions that turn one text into the other without editing a part twice, which
/// is the optimal string alignment distance. Rows over the second text are kept, which its
/// length keeps addressable.
pub assume_specification[ strsim::osa_distance ](a: &str, b: &str) -> (r: usize)
    requires
        a@.len() <= TEXT_LIMIT,
        b@.len() <= TEXT_LIMIT,
    ensures
        r == alignment_distance(a@, b@),
;

/// What is searched.
#[derive(Debug, PartialEq, Eq)]
pub struct SearchItem {
    pub key: String,
    pub title: String,
    pub subtitle: String,
    pub keywords: Vec<String>,
    pub score: i64,
    pub provider_priority: i64,
}

/// A query and the items that it is put to.
#[derive(Debug, PartialEq, Eq)]
pub struct SearchRequest {
    pub owner: String,
    pub generation: u64,
    pub query: String,
    pub items: Vec<SearchItem>,
}

/// The keys of the items that match, best first.
#[derive(Debug, PartialEq, Eq)]
pub struct SearchResponse {
    pub owner: String,
    pub generation: u64,
    pub keys: Vec<String>,
}

/// How many typos a token of a length may have.
pub open spec fn typo_limit(length: nat) -> nat {
    if length <= 3 {
        0
    } else if length <= 6 {
        1
    } else if length <= 10 {
        2
    } else {
        3
    }
}

/// How many typos a token of a length may have.
pub fn allowed_typos(length: usize) -> (limit: usize)
    ensures
        limit == typo_limit(length as nat),
{
    if length <= 3 {
        0
    } else if length <= 6 {
        1
    } else if length <= 10 {
        2
    } else {
        3
    }
}

/// The smaller of two numbers.
pub open spec fn at_most(n: int, limit: int) -> int {
    if n <= limit {
        n
    } else {
        limit
    }
}

/// The better of two scores, if there is one.
pub open spec fn better(a: Option<int>, b: Option<int>) -> Option<int> {
    match (a, b) {
        (Some(x), Some(y)) => if x < y {
            Some(y)
        } else {
            Some(x)
        },
        (Some(_), None) => a,
        _ => b,
    }
}

/// What an optional score amounts to.
pub open spec fn score_model(score: Option<i64>) -> Option<int> {
    match score {
        Some(score) => Some(score as int),
        None => None,
    }
}

/// The better of two scores, if there is one.
pub fn better_score(a: Option<i64>, b: Option<i64>) -> (r: Option<i64>)
    ensures
        score_model(r) == better(score_model(a), score_model(b)),
{
    match (a, b) {
        (Some(x), Some(y)) => if x < y {
            Some(y)
        } else {
            Some(x)
        },
        (Some(x), None) => Some(x),
        (None, b) => b,
    }
}

/// The distance of two lengths.
pub open spec fn length_gap(a: nat, b: nat) -> int {
    if a < b {
        b - a
    } else {
        a - b
    }
}

/// The score of a word that is a typo away from a token, by the distance of the two
/// and their lengths.
pub open spec fn typo_points(distance: nat, word_length: nat, token_length: nat) -> Option<int> {
    if distance <= typo_limit(token_length) {
        Some(9_000 - distance * 900 - length_gap(word_length, token_length) * 25)
    } else {
        None
    }
}

/// The score of a word that is a typo away from a token.
pub fn typo_score(distance: usize, word_length: usize, token_length: usize) -> (r: Option<i64>)
    requires
        word_length <= TEXT_LIMIT,
        token_length <= TEXT_LIMIT,
    ensures
        score_model(r) == typo_points(distance as nat, word_length as nat, token_length as nat),
{
    if distance <= allowed_typos(token_length) {
        let gap: usize = if word_length < token_length {
            token_length - word_length
        } else {
            word_length - token_length
        };
        Some(9_000 - distance as i64 * 900 - gap as i64 * 25)
    } else {
        None
    }
}

/// The score of a fuzzy match, by the score of the matcher.
pub open spec fn fuzzy_points(matched: Option<i64>) -> Option<int> {
    match matched {
        Some(score) => Some(7_000 + score),
        None => None,
    }
}

/// The score of a fuzzy match, by the score of the matcher.
pub fn fuzzy_score(matched: Option<i64>) -> (r: Option<i64>)
    requires
        matched matches Some(score) ==> score <= i64::MAX - 7_000,
    ensures
        score_model(r) == fuzzy_points(matched),
{
    match matched {
        Some(score) => Some(7_000 + score),
        None => None,
    }
}

/// The best score of the words that are a typo away from a token.
pub open spec fn best_typo(words: Seq<Seq<char>>, token: Seq<char>) -> Option<int>
    decreases words.len(),
{
    if words.len() == 0 {
        None
    } else {
        better(
            best_typo(words.drop_last(), token),
            typo_points(
                alignment_distance(words.last(), token),
                words.last().len(),
                token.len(),
            ),
        )
    }
}

/// The first of the words, from one on, that starts with a token.
pub open spec fn first_started(words: Seq<Seq<char>>, token: Seq<char>, i: nat) -> Option<nat>
    decreases words.len() - i,
{
    if i >= words.len() {
        None
    } else if starts(words[i as int], token) {
        Some(i)
    } else {
        first_started(words, token, i + 1)
    }
}

/// The score of a token in a field: exact, as a prefix, as the prefix of a word, as a
/// part, or else as the better of a fuzzy match and a word with typos.
pub open spec fn token_points(field: Seq<char>, token: Seq<char>) -> Option<int> {
    if field == token {
        Some(14_000)
    } else if starts(field, token) {
        Some(12_500 - at_most(field.len() as int, 500))
    } else if first_started(words_of(field), token, 0) is Some {
        Some(11_500 - first_started(words_of(field), token, 0)->0 * 20)
    } else if byte_position(field, token) is Some {
        Some(10_000 - at_most(byte_position(field, token)->0 as int, 500))
    } else {
        better(fuzzy_points(skim_score(field, token)), best_typo(words_of(field), token))
    }
}

/// Whether a token can be scored in a field: where the matcher has to be asked, not both
/// may be longer than the longest match.
pub open spec fn matchable(field: Seq<char>, token: Seq<char>) -> bool {
    ||| field.len() <= MATCH_LIMIT
    ||| token.len() <= MATCH_LIMIT
    ||| field == token
    ||| starts(field, token)
    ||| first_started(words_of(field), token, 0) is Some
    ||| byte_position(field, token) is Some
}

/// Whether a score stays far from the limits of its type.
pub open spec fn moderate(score: Option<int>) -> bool {
    score matches Some(points) ==> -0x2000_0000_0000_0000 <= points <= 0x2000_0000_0000_0000
}

/// The first of the words that starts with a token.
fn find_started(words: &Vec<String>, token: &str) -> (r: Option<usize>)
    ensures
        match r {
            Some(i) => i < words.len() && first_started(text_models(words@), token@, 0) == Some(
                i as nat,
            ),
            None => first_started(text_models(words@), token@, 0) is None,
        },
{
    let ghost models = text_models(words@);
    let mut i: usize = 0;
    while i < words.len()
        invariant
            models == text_models(words@),
            i <= words.len(),
            first_started(models, token@, 0) == first_started(models, token@, i as nat),
        decreases words.len() - i,
    {
        assert(models[i as int] == words@[i as int]@);
        if starts_with(words[i].as_str(), token) {
            return Some(i);
        }
        i += 1;
    }
    None
}

/// How many characters a text has.
pub fn char_count(text: &str) -> (n: usize)
    ensures
        n == text@.len(),
{
    chars_of(text).len()
}

/// The score of a token in a field.
pub fn token_score(field: &str, token: &str) -> (r: Option<i64>)
    requires
        field@.len() <= TEXT_LIMIT,
        token@.len() <= TEXT_LIMIT,
        matchable(field@, token@),
    ensures
        score_model(r) == token_points(field@, token@),
        moderate(score_model(r)),
{
    if same_text(field, token) {
        return Some(14_000);
    }
    if starts_with(field, token) {
        let length: usize = char_count(field);
        return Some(12_500 - (if length <= 500 {
            length
        } else {
            500
        }) as i64);
    }
    let words = words(field);
    proof {
        words_hold_letters_and_numbers(field@);
        assert(text_models(words@).len() == words@.len());
    }
    if let Some(index) = find_started(&words, token) {
        return Some(11_500 - index as i64 * 20);
    }
    if let Some(index) = find(field, token) {
        return Some(10_000 - (if index <= 500 {
            index
        } else {
            500
        }) as i64);
    }
    let matched = fuzzy_score(fuzzy_match(field, token));
    let token_length: usize = char_count(token);
    let ghost models = text_models(words@);
    let mut typo: Option<i64> = None;
    let mut i: usize = 0;
    while i < words.len()
        invariant
            i <= words.len(),
            models == text_models(words@),
            models == words_of(field@),
            token_length == token@.len() <= TEXT_LIMIT,
            forall|j: int| 0 <= j < models.len() ==> (#[trigger] models[j]).len() <= TEXT_LIMIT,
            score_model(typo) == best_typo(models.take(i as int), token@),
            moderate(score_model(typo)),
        decreases words.len() - i,
    {
        let word = words[i].as_str();
        proof {
            assert(models[i as int] == word@);
            assert(models.take(i + 1).drop_last() == models.take(i as int));
            assert(models.take(i + 1).last() == word@);
        }
        let score = typo_score(strsim::osa_distance(word, token), char_count(word), token_length);
        typo = better_score(typo, score);
        i += 1;
    }
    assert(models.take(i as int) == models);
    better_score(matched, typo)
}

/// Whether a token can be scored in a field.
fn is_matchable(field: &str, token: &str) -> (r: bool)
    ensures
        r == matchable(field@, token@),
{
    char_count(token) <= MATCH_LIMIT || char_count(field) <= MATCH_LIMIT || same_text(field, token)
        || starts_with(field, token) || find_started(&words(field), token).is_some() || find(
        field,
        token,
    ).is_some()
}

/// A score with points on top.
pub open spec fn raised(score: Option<int>, points: int) -> Option<int> {
    match score {
        Some(score) => Some(score + points),
        None => None,
    }
}

/// The best score of a token in some fields.
pub open spec fn best_points(fields: Seq<Seq<char>>, token: Seq<char>) -> Option<int>
    decreases fields.len(),
{
    if fields.len() == 0 {
        None
    } else {
        better(best_points(fields.drop_last(), token), token_points(fields.last(), token))
    }
}

/// The best score of a token in the fields of an item. A title counts more than a
/// subtitle, and a subtitle more than a keyword.
pub open spec fn field_points(
    title: Seq<char>,
    subtitle: Seq<char>,
    keywords: Seq<Seq<char>>,
    token: Seq<char>,
) -> Option<int> {
    better(
        better(raised(token_points(title, token), 1_800), raised(token_points(subtitle, token), 600)),
        best_points(keywords, token),
    )
}

/// The sum of the scores of tokens, all of which have to match.
pub open spec fn tokens_points(
    title: Seq<char>,
    subtitle: Seq<char>,
    keywords: Seq<Seq<char>>,
    tokens: Seq<Seq<char>>,
) -> Option<int>
    decreases tokens.len(),
{
    if tokens.len() == 0 {
        Some(0)
    } else {
        match (
            tokens_points(title, subtitle, keywords, tokens.drop_last()),
            field_points(title, subtitle, keywords, tokens.last()),
        ) {
            (Some(sum), Some(points)) => Some(sum + points),
            _ => None,
        }
    }
}

/// What a title that holds the whole query adds.
pub open spec fn title_bonus(title: Seq<char>, query: Seq<char>) -> int {
    if title == query {
        20_000
    } else if starts(title, query) {
        12_000
    } else if found_from(title, query, 0) is Some {
        8_000
    } else {
        0
    }
}

/// The score of an item, by its normalized fields. Everything matches a query without
/// words.
pub open spec fn match_points(
    title: Seq<char>,
    subtitle: Seq<char>,
    keywords: Seq<Seq<char>>,
    query: Seq<char>,
) -> Option<int> {
    if words_of(query).len() == 0 {
        Some(0)
    } else {
        raised(
            tokens_points(title, subtitle, keywords, words_of(query)),
            title_bonus(title, query),
        )
    }
}

/// An item as the search sees it.
#[verifier::ext_equal]
pub struct ItemModel {
    pub key: Seq<char>,
    pub title: Seq<char>,
    pub subtitle: Seq<char>,
    pub keywords: Seq<Seq<char>>,
    pub score: int,
    pub provider_priority: int,
}

impl View for SearchItem {
    type V = ItemModel;

    open spec fn view(&self) -> ItemModel {
        ItemModel {
            key: self.key@,
            title: self.title@,
            subtitle: self.subtitle@,
            keywords: text_models(self.keywords@),
            score: self.score as int,
            provider_priority: self.provider_priority as int,
        }
    }
}

/// Items as the search sees them.
pub open spec fn item_models(items: Seq<SearchItem>) -> Seq<ItemModel> {
    items.map_values(|item: SearchItem| item@)
}

/// Texts in their normalized form.
pub open spec fn all_normalized(texts: Seq<Seq<char>>) -> Seq<Seq<char>> {
    texts.map_values(|text: Seq<char>| normalized(text))
}

/// The score of an item against a normalized query.
pub open spec fn item_points(item: ItemModel, query: Seq<char>) -> Option<int> {
    match_points(
        normalized(item.title),
        normalized(item.subtitle),
        all_normalized(item.keywords),
        query,
    )
}

/// Whether texts are short enough to be searched.
pub open spec fn texts_fit(texts: Seq<Seq<char>>) -> bool {
    forall|i: int| 0 <= i < texts.len() ==> (#[trigger] texts[i]).len() <= TEXT_LIMIT
}

/// Whether a token can be scored in all fields of an item.
pub open spec fn fields_matchable(
    title: Seq<char>,
    subtitle: Seq<char>,
    keywords: Seq<Seq<char>>,
    token: Seq<char>,
) -> bool {
    &&& matchable(title, token)
    &&& matchable(subtitle, token)
    &&& forall|i: int| 0 <= i < keywords.len() ==> matchable(#[trigger] keywords[i], token)
}

/// Whether the first tokens all match.
pub open spec fn all_match(
    title: Seq<char>,
    subtitle: Seq<char>,
    keywords: Seq<Seq<char>>,
    tokens: Seq<Seq<char>>,
    n: int,
) -> bool {
    forall|i: int|
        0 <= i < n ==> field_points(title, subtitle, keywords, #[trigger] tokens[i]) is Some
}

/// Whether the tokens that are scored can be: those before the first that does not
/// match, and that one.
pub open spec fn tokens_matchable(
    title: Seq<char>,
    subtitle: Seq<char>,
    keywords: Seq<Seq<char>>,
    tokens: Seq<Seq<char>>,
) -> bool {
    forall|i: int|
        0 <= i < tokens.len() && all_match(title, subtitle, keywords, tokens, i)
            ==> fields_matchable(title, subtitle, keywords, #[trigger] tokens[i])
}

/// Whether the score of an item can be told on this machine, by its normalized fields.
/// Nothing is compared with a query without words.
pub open spec fn match_fits(
    title: Seq<char>,
    subtitle: Seq<char>,
    keywords: Seq<Seq<char>>,
    query: Seq<char>,
) -> bool {
    words_of(query).len() == 0 || {
        &&& title.len() <= TEXT_LIMIT
        &&& subtitle.len() <= TEXT_LIMIT
        &&& texts_fit(keywords)
        &&& query.len() <= TEXT_LIMIT
        &&& tokens_matchable(title, subtitle, keywords, words_of(query))
    }
}

/// Whether the score of an item against a normalized query can be told on this machine.
pub open spec fn item_fits(item: ItemModel, query: Seq<char>) -> bool {
    match_fits(
        normalized(item.title),
        normalized(item.subtitle),
        all_normalized(item.keywords),
        query,
    )
}

/// Adds points to a score.
fn raise(score: Option<i64>, points: i64) -> (r: Option<i64>)
    requires
        0 <= points <= 20_000,
        score matches Some(score) ==> score <= i64::MAX - 20_000,
    ensures
        score_model(r) == raised(score_model(score), points as int),
{
    match score {
        Some(score) => Some(score + points),
        None => None,
    }
}

/// The best score of a token in the normalized fields of an item.
fn field_score(title: &str, subtitle: &str, keywords: &Vec<String>, token: &str) -> (r: Option<i64>)
    requires
        title@.len() <= TEXT_LIMIT,
        subtitle@.len() <= TEXT_LIMIT,
        texts_fit(text_models(keywords@)),
        token@.len() <= TEXT_LIMIT,
        fields_matchable(title@, subtitle@, text_models(keywords@), token@),
    ensures
        score_model(r) == field_points(title@, subtitle@, text_models(keywords@), token@),
        r matches Some(score) ==> -0x4000_0000_0000_0000 <= score <= 0x4000_0000_0000_0000,
{
    let ghost fields = text_models(keywords@);
    let mut best: Option<i64> = None;
    let mut i: usize = 0;
    while i < keywords.len()
        invariant
            i <= keywords.len(),
            fields == text_models(keywords@),
            texts_fit(fields),
            token@.len() <= TEXT_LIMIT,
            fields_matchable(title@, subtitle@, fields, token@),
            score_model(best) == best_points(fields.take(i as int), token@),
            moderate(score_model(best)),
        decreases keywords.len() - i,
    {
        let field = keywords[i].as_str();
        proof {
            assert(fields[i as int] == field@);
            assert(fields.take(i + 1).drop_last() == fields.take(i as int));
            assert(fields.take(i + 1).last() == field@);
        }
        best = better_score(best, token_score(field, token));
        i += 1;
    }
    assert(fields.take(i as int) == fields);
    let title_score = raise(token_score(title, token), 1_800);
    let subtitle_score = raise(token_score(subtitle, token), 600);
    better_score(better_score(title_score, subtitle_score), best)
}

/// What an optional sum of scores amounts to.
pub open spec fn total_model(total: Option<i128>) -> Option<int> {
    match total {
        Some(total) => Some(total as int),
        None => None,
    }
}

/// The score of an item, by its normalized fields and a normalized query. It is wide
/// enough for the scores of any number of words.
pub fn match_score(title: &str, subtitle: &str, keywords: &Vec<String>, query: &str) -> (r: Option<
    i128,
>)
    requires
        match_fits(title@, subtitle@, text_models(keywords@), query@),
    ensures
        total_model(r) == match_points(title@, subtitle@, text_models(keywords@), query@),
{
    let tokens = words(query);
    let ghost models = text_models(tokens@);
    let ghost fields = text_models(keywords@);
    proof {
        words_hold_letters_and_numbers(query@);
        assert(models.len() == tokens@.len());
    }
    if tokens.len() == 0 {
        return Some(0);
    }
    let mut total: i128 = 0;
    let mut i: usize = 0;
    while i < tokens.len()
        invariant
            i <= tokens.len() <= TEXT_LIMIT,
            models == text_models(tokens@),
            models == words_of(query@),
            fields == text_models(keywords@),
            title@.len() <= TEXT_LIMIT,
            subtitle@.len() <= TEXT_LIMIT,
            texts_fit(fields),
            texts_fit(models),
            models.len() > 0,
            tokens_matchable(title@, subtitle@, fields, models),
            tokens_points(title@, subtitle@, fields, models.take(i as int)) == Some(total as int),
            -0x4000_0000_0000_0000 * i <= total <= 0x4000_0000_0000_0000 * i,
        decreases tokens.len() - i,
    {
        let token = tokens[i].as_str();
        proof {
            assert(models[i as int] == token@);
            assert(models.take(i + 1).drop_last() == models.take(i as int));
            assert(models.take(i + 1).last() == token@);
            lemma_all_match(title@, subtitle@, fields, models, i as int);
        }
        match field_score(title, subtitle, keywords, token) {
            Some(score) => {
                total = total + score as i128;
            },
            None => {
                proof {
                    lemma_unmatched_token(title@, subtitle@, fields, models, i as int);
                }
                return None;
            },
        }
        i += 1;
    }
    assert(models.take(i as int) == models);
    let bonus: i128 = if same_text(title, query) {
        20_000
    } else if starts_with(title, query) {
        12_000
    } else if find_char(title, query).is_some() {
        8_000
    } else {
        0
    };
    Some(total + bonus)
}

proof fn lemma_all_match(
    title: Seq<char>,
    subtitle: Seq<char>,
    keywords: Seq<Seq<char>>,
    tokens: Seq<Seq<char>>,
    n: int,
)
    requires
        0 <= n <= tokens.len(),
    ensures
        tokens_points(title, subtitle, keywords, tokens.take(n)) is Some <==> all_match(
            title,
            subtitle,
            keywords,
            tokens,
            n,
        ),
{
    let front = tokens.take(n);
    all_tokens_must_match(title, subtitle, keywords, front);
    assert forall|i: int| 0 <= i < n implies #[trigger] tokens[i] == front[i] by {}
    if tokens_points(title, subtitle, keywords, front) is Some {
        assert forall|i: int| 0 <= i < n implies field_points(
            title,
            subtitle,
            keywords,
            #[trigger] tokens[i],
        ) is Some by {
            assert(field_points(title, subtitle, keywords, front[i]) is Some);
        }
    }
}

proof fn lemma_unmatched_token(
    title: Seq<char>,
    subtitle: Seq<char>,
    keywords: Seq<Seq<char>>,
    tokens: Seq<Seq<char>>,
    i: int,
)
    requires
        0 <= i < tokens.len(),
        field_points(title, subtitle, keywords, tokens[i]) is None,
    ensures
        tokens_points(title, subtitle, keywords, tokens) is None,
    decreases tokens.len(),
{
    if i < tokens.len() - 1 {
        lemma_unmatched_token(title, subtitle, keywords, tokens.drop_last(), i);
    }
}

/// Texts in their normalized form.
fn normalize_all(texts: &Vec<String>) -> (r: Vec<String>)
    ensures
        text_models(r@) == all_normalized(text_models(texts@)),
{
    let mut r: Vec<String> = Vec::new();
    let mut i: usize = 0;
    while i < texts.len()
        invariant
            i <= texts.len(),
            text_models(r@) == all_normalized(text_models(texts@)).take(i as int),
        decreases texts.len() - i,
    {
        let ghost before = text_models(r@);
        r.push(normalize(texts[i].as_str()));
        proof {
            let all = all_normalized(text_models(texts@));
            assert(text_models(r@) =~= before.push(all[i as int]));
            assert(all.take(i + 1) =~= all.take(i as int).push(all[i as int]));
        }
        i += 1;
    }
    r
}

/// The score of an item against a normalized query, with the normalized title.
pub fn item_match(item: &SearchItem, query: &str) -> (r: Option<(i128, String)>)
    requires
        item_fits(item@, query@),
    ensures
        match r {
            Some((score, title)) => item_points(item@, query@) == Some(score as int) && title@
                == normalized(item.title@),
            None => item_points(item@, query@) is None,
        },
{
    let title = normalize(item.title.as_str());
    let subtitle = normalize(item.subtitle.as_str());
    let keywords = normalize_all(&item.keywords);
    match match_score(title.as_str(), subtitle.as_str(), &keywords, query) {
        Some(score) => Some((score, title)),
        None => None,
    }
}

/// An item that matches, with what it is ordered by.
#[derive(Debug, PartialEq, Eq)]
pub struct RankedItem {
    pub item: SearchItem,
    pub normalized_title: String,
    pub match_score: i128,
}

/// What matching items are ordered by.
#[verifier::ext_equal]
pub struct Ranking {
    pub match_score: int,
    pub score: int,
    pub provider_priority: int,
    pub title: Seq<char>,
    pub key: Seq<char>,
}

impl View for RankedItem {
    type V = Ranking;

    open spec fn view(&self) -> Ranking {
        Ranking {
            match_score: self.match_score as int,
            score: self.item.score as int,
            provider_priority: self.item.provider_priority as int,
            title: self.normalized_title@,
            key: self.item.key@,
        }
    }
}

/// The rankings of matching items.
pub open spec fn rankings(items: Seq<RankedItem>) -> Seq<Ranking> {
    items.map_values(|item: RankedItem| item@)
}

/// Whether a ranking comes before another: by the higher score of the match, of the
/// item, and of the provider, and then by the title and the key.
pub open spec fn ranks_before(a: Ranking, b: Ranking) -> bool {
    if a.match_score != b.match_score {
        a.match_score > b.match_score
    } else if a.score != b.score {
        a.score > b.score
    } else if a.provider_priority != b.provider_priority {
        a.provider_priority > b.provider_priority
    } else if a.title != b.title {
        precedes(a.title, b.title)
    } else {
        precedes(a.key, b.key)
    }
}

/// Whether rankings stand in order.
pub open spec fn in_rank_order(order: Seq<Ranking>) -> bool {
    forall|i: int, j: int|
        0 <= i < j < order.len() ==> !ranks_before(#[trigger] order[j], #[trigger] order[i])
}

/// Whether an order holds just the rankings of a sequence, each as often as there, in
/// order.
pub open spec fn orders(order: Seq<Ranking>, of: Seq<Ranking>) -> bool {
    in_rank_order(order) && order.to_multiset() == of.to_multiset()
}

/// The order is strict and total.
pub proof fn lemma_ranks_before(a: Ranking, b: Ranking, c: Ranking)
    ensures
        !ranks_before(a, a),
        !(ranks_before(a, b) && ranks_before(b, a)),
        a == b || ranks_before(a, b) || ranks_before(b, a),
        ranks_before(a, b) && ranks_before(b, c) ==> ranks_before(a, c),
{
    lemma_precedes_irreflexive(a.title);
    lemma_precedes_irreflexive(a.key);
    lemma_precedes_total(a.title, b.title);
    lemma_precedes_total(a.key, b.key);
    if precedes(a.title, b.title) && precedes(b.title, a.title) {
        lemma_precedes_transitive(a.title, b.title, a.title);
    }
    if precedes(a.key, b.key) && precedes(b.key, a.key) {
        lemma_precedes_transitive(a.key, b.key, a.key);
    }
    if precedes(a.title, b.title) && precedes(b.title, c.title) {
        lemma_precedes_transitive(a.title, b.title, c.title);
        if a.title == c.title {
            lemma_precedes_irreflexive(a.title);
        }
    }
    if precedes(a.key, b.key) && precedes(b.key, c.key) {
        lemma_precedes_transitive(a.key, b.key, c.key);
    }
}

/// Rankings have one order.
pub proof fn order_is_unique(a: Seq<Ranking>, b: Seq<Ranking>)
    requires
        in_rank_order(a),
        in_rank_order(b),
        a.to_multiset() == b.to_multiset(),
    ensures
        a == b,
    decreases a.len(),
{
    broadcast use vstd::seq_lib::group_to_multiset_ensures;

    assert(a.len() == a.to_multiset().len());
    assert(b.len() == b.to_multiset().len());
    if a.len() > 0 {
        assert(a.contains(a[0]));
        assert(b.to_multiset().count(a[0]) > 0);
        assert(b.contains(a[0]));
        let j = choose|j: int| 0 <= j < b.len() && b[j] == a[0];
        assert(b.contains(b[0]));
        assert(a.to_multiset().count(b[0]) > 0);
        assert(a.contains(b[0]));
        let i = choose|i: int| 0 <= i < a.len() && a[i] == b[0];
        lemma_ranks_before(a[0], b[0], a[0]);
        assert(a[0] == b[0]);
        let x = a.remove(0);
        let y = b.remove(0);
        assert(x.to_multiset() == y.to_multiset());
        assert(in_rank_order(x)) by {
            assert forall|i: int, j: int| 0 <= i < j < x.len() implies !ranks_before(
                #[trigger] x[j],
                #[trigger] x[i],
            ) by {
                assert(x[i] == a[i + 1] && x[j] == a[j + 1]);
            }
        }
        assert(in_rank_order(y)) by {
            assert forall|i: int, j: int| 0 <= i < j < y.len() implies !ranks_before(
                #[trigger] y[j],
                #[trigger] y[i],
            ) by {
                assert(y[i] == b[i + 1] && y[j] == b[j + 1]);
            }
        }
        order_is_unique(x, y);
        assert(a =~= seq![a[0]] + x);
        assert(b =~= seq![b[0]] + y);
    } else {
        assert(a =~= b);
    }
}

/// Whether an item comes before another.
pub fn ranked_before(a: &RankedItem, b: &RankedItem) -> (r: bool)
    ensures
        r == ranks_before(a@, b@),
{
    if a.match_score != b.match_score {
        a.match_score > b.match_score
    } else if a.item.score != b.item.score {
        a.item.score > b.item.score
    } else if a.item.provider_priority != b.item.provider_priority {
        a.item.provider_priority > b.item.provider_priority
    } else if !same_text(a.normalized_title.as_str(), b.normalized_title.as_str()) {
        text_before(a.normalized_title.as_str(), b.normalized_title.as_str())
    } else {
        text_before(a.item.key.as_str(), b.item.key.as_str())
    }
}

/// Puts an item to its place among ordered ones, behind those that are ranked alike.
fn insert_ranked(ranked: &mut Vec<RankedItem>, item: RankedItem)
    requires
        in_rank_order(rankings(old(ranked)@)),
    ensures
        in_rank_order(rankings(final(ranked)@)),
        rankings(final(ranked)@).to_multiset() == rankings(old(ranked)@).to_multiset().insert(item@),
        final(ranked)@.to_multiset() == old(ranked)@.to_multiset().insert(item),
{
    let ghost before = rankings(ranked@);
    let mut low: usize = 0;
    let mut high: usize = ranked.len();
    while low < high
        invariant
            low <= high <= ranked.len(),
            before == rankings(ranked@),
            before == rankings(old(ranked)@),
            ranked@ == old(ranked)@,
            in_rank_order(before),
            forall|i: int| 0 <= i < low ==> !ranks_before(item@, #[trigger] before[i]),
            forall|i: int| high <= i < before.len() ==> ranks_before(item@, #[trigger] before[i]),
        decreases high - low,
    {
        let middle: usize = low + (high - low) / 2;
        assert(before[middle as int] == ranked@[middle as int]@);
        if ranked_before(&item, &ranked[middle]) {
            assert forall|i: int| middle <= i < before.len() implies ranks_before(
                item@,
                #[trigger] before[i],
            ) by {
                lemma_ranks_before(item@, before[middle as int], before[i]);
                lemma_ranks_before(before[i], before[middle as int], before[i]);
            }
            high = middle;
        } else {
            assert forall|i: int| 0 <= i <= middle implies !ranks_before(
                item@,
                #[trigger] before[i],
            ) by {
                lemma_ranks_before(item@, before[i], before[middle as int]);
                lemma_ranks_before(before[i], before[middle as int], before[i]);
            }
            low = middle + 1;
        }
    }
    ranked.insert(low, item);
    proof {
        let after = rankings(ranked@);
        assert(after =~= before.insert(low as int, item@));
        vstd::seq_lib::to_multiset_insert(before, low as int, item@);
        vstd::seq_lib::to_multiset_insert(old(ranked)@, low as int, item);
        assert forall|i: int, j: int| 0 <= i < j < after.len() implies !ranks_before(
            #[trigger] after[j],
            #[trigger] after[i],
        ) by {
            lemma_ranks_before(after[i], after[j], after[i]);
            if i != low && j != low {
                let x = if i < low {
                    i
                } else {
                    i - 1
                };
                let y = if j < low {
                    j
                } else {
                    j - 1
                };
                assert(after[i] == before[x] && after[j] == before[y]);
            } else if i == low {
                assert(after[j] == before[j - 1]);
            } else {
                assert(after[i] == before[i]);
            }
        }
    }
}

/// Puts matching items in order, all of them and as they are.
pub fn rank_matches(matches: Vec<RankedItem>) -> (ranked: Vec<RankedItem>)
    ensures
        orders(rankings(ranked@), rankings(matches@)),
        ranked@.to_multiset() == matches@.to_multiset(),
{
    let mut ranked: Vec<RankedItem> = Vec::new();
    let ghost all = rankings(matches@);
    assert(rankings(ranked@) =~= all.take(0));
    assert(ranked@ =~= matches@.take(0));
    for item in it: matches
        invariant
            it.seq() == matches@,
            all == rankings(matches@),
            in_rank_order(rankings(ranked@)),
            rankings(ranked@).to_multiset() == all.take(it.index()).to_multiset(),
            ranked@.to_multiset() == matches@.take(it.index()).to_multiset(),
    {
        proof {
            let i = it.index();
            assert(all[i] == item@);
            assert(all.take(i + 1) =~= all.take(i).push(item@));
            vstd::seq_lib::to_multiset_build(all.take(i), item@);
            assert(matches@.take(i + 1) =~= matches@.take(i).push(item));
            vstd::seq_lib::to_multiset_build(matches@.take(i), item);
        }
        insert_ranked(&mut ranked, item);
    }
    assert(all.take(all.len() as int) =~= all);
    assert(matches@.take(matches@.len() as int) =~= matches@);
    ranked
}

/// The ranking of an item, if it matches.
pub open spec fn item_ranking(item: ItemModel, query: Seq<char>) -> Seq<Ranking> {
    match item_points(item, query) {
        Some(match_score) => seq![
            Ranking {
                match_score,
                score: item.score,
                provider_priority: item.provider_priority,
                title: normalized(item.title),
                key: item.key,
            },
        ],
        None => Seq::empty(),
    }
}

/// The rankings of the items that match.
pub open spec fn matches_of(items: Seq<ItemModel>, query: Seq<char>) -> Seq<Ranking>
    decreases items.len(),
{
    if items.len() == 0 {
        Seq::empty()
    } else {
        matches_of(items.drop_last(), query) + item_ranking(items.last(), query)
    }
}

/// The query as it is put to the items.
pub open spec fn asked_query(query: Seq<char>) -> Seq<char> {
    trimmed(normalized(query))
}

/// Whether the scores of all items of a request can be told on this machine.
pub open spec fn request_fits(query: Seq<char>, items: Seq<ItemModel>) -> bool {
    forall|i: int| 0 <= i < items.len() ==> item_fits(#[trigger] items[i], asked_query(query))
}

/// Whether keys answer a query: they are those of the items that match, in order.
pub open spec fn answers_query(
    keys: Seq<Seq<char>>,
    query: Seq<char>,
    items: Seq<ItemModel>,
) -> bool {
    exists|order: Seq<Ranking>| #[trigger]
        orders(order, matches_of(items, asked_query(query))) && keys == keys_of(order)
}

/// The keys of rankings.
pub open spec fn keys_of(order: Seq<Ranking>) -> Seq<Seq<char>> {
    order.map_values(|ranking: Ranking| ranking.key)
}

/// Answers a search: the keys of the items that match, best first.
pub fn rank(request: SearchRequest) -> (response: SearchResponse)
    requires
        request_fits(request.query@, item_models(request.items@)),
    ensures
        response.owner == request.owner,
        response.generation == request.generation,
        answers_query(text_models(response.keys@), request.query@, item_models(request.items@)),
{
    let SearchRequest { owner, generation, query, items } = request;
    let normal = normalize(query.as_str());
    let asked = trim(normal.as_str());
    let ghost models = item_models(items@);
    let mut matches: Vec<RankedItem> = Vec::new();
    assert(rankings(matches@) =~= matches_of(models.take(0), asked@));
    for item in it: items
        invariant
            it.seq() == items@,
            models == item_models(items@),
            forall|i: int| 0 <= i < models.len() ==> item_fits(#[trigger] models[i], asked@),
            rankings(matches@) == matches_of(models.take(it.index()), asked@),
    {
        let ghost i = it.index();
        let ghost before = rankings(matches@);
        proof {
            assert(models[i] == item@);
            assert(models.take(i + 1).drop_last() =~= models.take(i));
            assert(models.take(i + 1).last() == item@);
        }
        if let Some((match_score, normalized_title)) = item_match(&item, asked.as_str()) {
            let ranked = RankedItem { item, normalized_title, match_score };
            assert(item_ranking(item@, asked@) =~= seq![ranked@]);
            matches.push(ranked);
            assert(rankings(matches@) =~= before + seq![ranked@]);
        } else {
            assert(before =~= before + Seq::<Ranking>::empty());
        }
    }
    assert(models.take(models.len() as int) =~= models);
    let ghost matched = rankings(matches@);
    assert(matched == matches_of(models, asked@));
    let ranked = rank_matches(matches);
    let ghost order = rankings(ranked@);
    assert(orders(order, matched));
    let mut keys: Vec<String> = Vec::new();
    assert(text_models(keys@) =~= keys_of(order).take(0));
    for ranked_item in it: ranked
        invariant
            it.seq() == ranked@,
            order == rankings(ranked@),
            text_models(keys@) == keys_of(order).take(it.index()),
    {
        let ghost i = it.index();
        let ghost before = text_models(keys@);
        proof {
            assert(keys_of(order)[i] == ranked_item.item.key@);
            assert(keys_of(order).take(i + 1) =~= before.push(keys_of(order)[i]));
        }
        keys.push(ranked_item.item.key);
        assert(text_models(keys@) =~= before.push(keys_of(order)[i]));
    }
    assert(text_models(keys@) =~= keys_of(order));
    assert(asked@ == asked_query(request.query@));
    assert(models == item_models(request.items@));
    assert(orders(order, matches_of(models, asked@)));
    SearchResponse { owner, generation, keys }
}

/// Whether a token can be scored in all fields of an item.
fn are_matchable(title: &str, subtitle: &str, keywords: &Vec<String>, token: &str) -> (r: bool)
    ensures
        r == fields_matchable(title@, subtitle@, text_models(keywords@), token@),
{
    if !is_matchable(title, token) || !is_matchable(subtitle, token) {
        return false;
    }
    let ghost fields = text_models(keywords@);
    let mut i: usize = 0;
    while i < keywords.len()
        invariant
            i <= keywords.len(),
            fields == text_models(keywords@),
            forall|j: int| 0 <= j < i ==> matchable(#[trigger] fields[j], token@),
        decreases keywords.len() - i,
    {
        assert(fields[i as int] == keywords@[i as int]@);
        if !is_matchable(keywords[i].as_str(), token) {
            return false;
        }
        i += 1;
    }
    true
}

/// Whether texts are short enough to be compared.
fn are_short(texts: &Vec<String>) -> (r: bool)
    ensures
        r == texts_fit(text_models(texts@)),
{
    let ghost models = text_models(texts@);
    let mut i: usize = 0;
    while i < texts.len()
        invariant
            i <= texts.len(),
            models == text_models(texts@),
            forall|j: int| 0 <= j < i ==> (#[trigger] models[j]).len() <= TEXT_LIMIT,
        decreases texts.len() - i,
    {
        assert(models[i as int] == texts@[i as int]@);
        if char_count(texts[i].as_str()) > TEXT_LIMIT {
            return false;
        }
        i += 1;
    }
    true
}

/// Whether the score of an item can be told on this machine, by its normalized fields
/// and a normalized query.
fn is_scorable(title: &str, subtitle: &str, keywords: &Vec<String>, query: &str) -> (r: bool)
    ensures
        r == match_fits(title@, subtitle@, text_models(keywords@), query@),
{
    let tokens = words(query);
    let ghost models = text_models(tokens@);
    let ghost fields = text_models(keywords@);
    assert(models.len() == tokens@.len());
    if tokens.len() == 0 {
        return true;
    }
    if char_count(title) > TEXT_LIMIT || char_count(subtitle) > TEXT_LIMIT || char_count(query)
        > TEXT_LIMIT || !are_short(keywords) {
        return false;
    }
    proof {
        words_hold_letters_and_numbers(query@);
    }
    let mut i: usize = 0;
    while i < tokens.len() && are_matchable(title, subtitle, keywords, tokens[i].as_str())
        invariant
            i <= tokens.len(),
            models == text_models(tokens@),
            fields == text_models(keywords@),
            forall|j: int|
                0 <= j < i ==> fields_matchable(title@, subtitle@, fields, #[trigger] models[j]),
        ensures
            i <= tokens.len(),
            forall|j: int|
                0 <= j < i ==> fields_matchable(title@, subtitle@, fields, #[trigger] models[j]),
            i < tokens.len() ==> !fields_matchable(title@, subtitle@, fields, models[i as int]),
        decreases tokens.len() - i,
    {
        assert(models[i as int] == tokens@[i as int]@);
        i += 1;
    }
    if i == tokens.len() {
        return true;
    }
    let mut j: usize = 0;
    while j < i
        invariant
            j <= i < tokens.len(),
            models == text_models(tokens@),
            models == words_of(query@),
            query@.len() <= TEXT_LIMIT,
            fields == text_models(keywords@),
            title@.len() <= TEXT_LIMIT,
            subtitle@.len() <= TEXT_LIMIT,
            texts_fit(fields),
            texts_fit(models),
            forall|k: int|
                0 <= k < i ==> fields_matchable(title@, subtitle@, fields, #[trigger] models[k]),
            all_match(title@, subtitle@, fields, models, j as int),
        decreases i - j,
    {
        assert(models[j as int] == tokens@[j as int]@);
        if field_score(title, subtitle, keywords, tokens[j].as_str()).is_none() {
            assert(tokens_matchable(title@, subtitle@, fields, models)) by {
                assert forall|k: int|
                    0 <= k < models.len() && all_match(
                        title@,
                        subtitle@,
                        fields,
                        models,
                        k,
                    ) implies fields_matchable(title@, subtitle@, fields, #[trigger] models[k]) by {
                    if j < k {
                        assert(field_points(title@, subtitle@, fields, models[j as int]) is Some);
                    }
                }
            }
            return true;
        }
        j += 1;
    }
    assert(!fields_matchable(title@, subtitle@, fields, models[i as int]));
    false
}

/// Whether the score of an item against a normalized query can be told on this machine.
fn is_item_scorable(item: &SearchItem, query: &str) -> (r: bool)
    ensures
        r == item_fits(item@, query@),
{
    is_scorable(
        normalize(item.title.as_str()).as_str(),
        normalize(item.subtitle.as_str()).as_str(),
        &normalize_all(&item.keywords),
        query,
    )
}

/// Answers a search whose scores can be told on this machine, and no other.
pub fn try_rank(request: SearchRequest) -> (r: Option<SearchResponse>)
    ensures
        match r {
            Some(response) => {
                &&& request_fits(request.query@, item_models(request.items@))
                &&& response.owner == request.owner
                &&& response.generation == request.generation
                &&& answers_query(
                    text_models(response.keys@),
                    request.query@,
                    item_models(request.items@),
                )
            },
            None => !request_fits(request.query@, item_models(request.items@)),
        },
{
    let normal = normalize(request.query.as_str());
    let asked = trim(normal.as_str());
    let ghost models = item_models(request.items@);
    let mut i: usize = 0;
    while i < request.items.len()
        invariant
            i <= request.items.len(),
            models == item_models(request.items@),
            asked@ == asked_query(request.query@),
            forall|j: int| 0 <= j < i ==> item_fits(#[trigger] models[j], asked@),
        decreases request.items.len() - i,
    {
        assert(models[i as int] == request.items@[i as int]@);
        if !is_item_scorable(&request.items[i], asked.as_str()) {
            return None;
        }
        i += 1;
    }
    Some(rank(request))
}

/// The answer to a search request that cannot be read.
pub open spec fn search_error_model(reason: Seq<char>) -> JsonModel {
    JsonModel::Object(map!["error"@ => JsonModel::Text("invalid search request: "@ + reason)])
}

/// The answer to a search request that cannot be read.
pub fn search_error(reason: &str) -> (r: Json)
    ensures
        r@ == search_error_model(reason@),
{
    let mut message = "invalid search request: ".to_owned();
    push_text(&mut message, reason);
    let mut members = no_members();
    put(&mut members, "error", Json::from_text(message.as_str()));
    Json::from_members(members)
}

/// A query has one answer.
pub proof fn answers_are_unique(
    a: Seq<Seq<char>>,
    b: Seq<Seq<char>>,
    query: Seq<char>,
    items: Seq<ItemModel>,
)
    requires
        answers_query(a, query, items),
        answers_query(b, query, items),
    ensures
        a == b,
{
    let matched = matches_of(items, asked_query(query));
    let x = choose|order: Seq<Ranking>| #[trigger] orders(order, matched) && a == keys_of(order);
    let y = choose|order: Seq<Ranking>| #[trigger] orders(order, matched) && b == keys_of(order);
    order_is_unique(x, y);
}

proof fn lemma_matches_remove(items: Seq<ItemModel>, query: Seq<char>, j: int)
    requires
        0 <= j < items.len(),
    ensures
        matches_of(items, query).to_multiset() == matches_of(
            items.remove(j),
            query,
        ).to_multiset().add(item_ranking(items[j], query).to_multiset()),
    decreases items.len(),
{
    let init = items.drop_last();
    let last = item_ranking(items.last(), query);
    vstd::seq_lib::lemma_multiset_commutative(matches_of(init, query), last);
    if j == items.len() - 1 {
        assert(items.remove(j) =~= init);
    } else {
        lemma_matches_remove(init, query, j);
        let rest = items.remove(j);
        assert(rest.drop_last() =~= init.remove(j));
        assert(rest.last() == items.last());
        vstd::seq_lib::lemma_multiset_commutative(matches_of(rest.drop_last(), query), last);
        let a = matches_of(init.remove(j), query).to_multiset();
        let b = item_ranking(items[j], query).to_multiset();
        let c = last.to_multiset();
        assert(a.add(b).add(c) =~= a.add(c).add(b));
    }
}

proof fn lemma_matches_permuted(a: Seq<ItemModel>, b: Seq<ItemModel>, query: Seq<char>)
    requires
        a.to_multiset() == b.to_multiset(),
    ensures
        matches_of(a, query).to_multiset() == matches_of(b, query).to_multiset(),
    decreases a.len(),
{
    broadcast use vstd::seq_lib::group_to_multiset_ensures;

    assert(a.len() == a.to_multiset().len());
    assert(b.len() == b.to_multiset().len());
    if a.len() > 0 {
        assert(a.contains(a[0]));
        assert(b.to_multiset().count(a[0]) > 0);
        assert(b.contains(a[0]));
        let j = choose|j: int| 0 <= j < b.len() && b[j] == a[0];
        assert(a.remove(0).to_multiset() == b.remove(j).to_multiset());
        lemma_matches_permuted(a.remove(0), b.remove(j), query);
        lemma_matches_remove(a, query, 0);
        lemma_matches_remove(b, query, j);
    } else {
        assert(a =~= b);
    }
}

/// The answer to a query does not depend on the order in which the items are given.
pub proof fn answers_ignore_the_order_of_items(
    keys: Seq<Seq<char>>,
    query: Seq<char>,
    a: Seq<ItemModel>,
    b: Seq<ItemModel>,
)
    requires
        a.to_multiset() == b.to_multiset(),
        answers_query(keys, query, a),
    ensures
        answers_query(keys, query, b),
{
    let asked = asked_query(query);
    lemma_matches_permuted(a, b, asked);
    let order = choose|order: Seq<Ranking>| #[trigger]
        orders(order, matches_of(a, asked)) && keys == keys_of(order);
    assert(orders(order, matches_of(b, asked)));
}

/// An item matches a query with words just when each word scores in one of its fields.
pub proof fn all_tokens_must_match(
    title: Seq<char>,
    subtitle: Seq<char>,
    keywords: Seq<Seq<char>>,
    tokens: Seq<Seq<char>>,
)
    ensures
        tokens_points(title, subtitle, keywords, tokens) is Some <==> forall|i: int|
            0 <= i < tokens.len() ==> field_points(
                title,
                subtitle,
                keywords,
                #[trigger] tokens[i],
            ) is Some,
    decreases tokens.len(),
{
    if tokens.len() > 0 {
        let init = tokens.drop_last();
        all_tokens_must_match(title, subtitle, keywords, init);
        if tokens_points(title, subtitle, keywords, tokens) is Some {
            assert forall|i: int| 0 <= i < tokens.len() implies field_points(
                title,
                subtitle,
                keywords,
                #[trigger] tokens[i],
            ) is Some by {
                if i < init.len() {
                    assert(init[i] == tokens[i]);
                }
            }
        } else if forall|i: int|
            0 <= i < tokens.len() ==> field_points(
                title,
                subtitle,
                keywords,
                #[trigger] tokens[i],
            ) is Some {
            assert forall|i: int| 0 <= i < init.len() implies field_points(
                title,
                subtitle,
                keywords,
                #[trigger] init[i],
            ) is Some by {
                assert(init[i] == tokens[i]);
            }
            assert(field_points(title, subtitle, keywords, tokens[tokens.len() - 1]) is Some);
        }
    }
}

/// A query without words keeps every item, all with the same score of the match.
pub proof fn empty_queries_keep_everything(items: Seq<ItemModel>, query: Seq<char>)
    requires
        words_of(query).len() == 0,
    ensures
        matches_of(items, query).len() == items.len(),
        forall|i: int|
            0 <= i < items.len() ==> (#[trigger] matches_of(items, query)[i]).key == items[i].key
                && matches_of(items, query)[i].match_score == 0,
    decreases items.len(),
{
    if items.len() > 0 {
        empty_queries_keep_everything(items.drop_last(), query);
    }
}

/// A token scores most where it is the whole field, then where it starts the field,
/// then where it starts a word, and then where it stands elsewhere in the field.
pub proof fn stronger_matches_score_higher(
    whole: Seq<char>,
    prefixed: Seq<char>,
    worded: Seq<char>,
    holding: Seq<char>,
    token: Seq<char>,
)
    requires
        whole == token,
        prefixed != token,
        starts(prefixed, token),
        !starts(worded, token),
        first_started(words_of(worded), token, 0) is Some,
        first_started(words_of(worded), token, 0)->0 < 75,
        !starts(holding, token),
        first_started(words_of(holding), token, 0) is None,
        found_from(holding, token, 0) is Some,
    ensures
        token_points(whole, token)->0 > token_points(prefixed, token)->0,
        token_points(prefixed, token)->0 > token_points(worded, token)->0,
        token_points(worded, token)->0 > token_points(holding, token)->0,
        token_points(holding, token)->0 >= 9_500,
{
    assert(token.subrange(0, token.len() as int) =~= token);
    assert(starts(token, token));
}

/// What is typed in place of what is meant: a character is left out, added, or replaced
/// by another, or two neighbours change places.
pub open spec fn slip(meant: Seq<char>, typed: Seq<char>) -> bool {
    ||| meant.len() == 1 && typed.len() == 0
    ||| meant.len() == 0 && typed.len() == 1
    ||| meant.len() == 1 && typed.len() == 1
    ||| meant.len() == 2 && typed == seq![meant[1], meant[0]]
}

proof fn lemma_same_ending(a: Seq<char>, b: Seq<char>, rest: Seq<char>)
    ensures
        alignment_distance(a + rest, b + rest) <= alignment_distance(a, b),
    decreases rest.len(),
{
    if rest.len() == 0 {
        assert(a + rest =~= a);
        assert(b + rest =~= b);
    } else {
        let init = rest.drop_last();
        lemma_same_ending(a, b, init);
        assert((a + rest).drop_last() =~= a + init);
        assert((b + rest).drop_last() =~= b + init);
    }
}

proof fn lemma_no_distance(text: Seq<char>)
    ensures
        alignment_distance(text, text) == 0,
{
    let none = Seq::<char>::empty();
    lemma_same_ending(none, none, text);
    assert(none + text =~= text);
}

/// A single slip makes a distance of one at most.
pub proof fn slips_are_near(
    start: Seq<char>,
    meant: Seq<char>,
    typed: Seq<char>,
    rest: Seq<char>,
)
    requires
        slip(meant, typed),
    ensures
        alignment_distance(start + meant + rest, start + typed + rest) <= 1,
{
    let a = start + meant;
    let b = start + typed;
    lemma_no_distance(start);
    if meant.len() == 2 {
        assert(a.last() == meant[1] && b.last() == meant[0]);
        if meant[0] == meant[1] {
            assert(a =~= b);
            lemma_no_distance(a);
        } else {
            assert(a.take(a.len() - 2) =~= start);
            assert(b.take(b.len() - 2) =~= start);
        }
    } else {
        if meant.len() == 1 {
            assert(a.drop_last() =~= start);
        } else {
            assert(a =~= start);
        }
        if typed.len() == 1 {
            assert(b.drop_last() =~= start);
        } else {
            assert(b =~= start);
        }
    }
    lemma_same_ending(a, b, rest);
}

proof fn lemma_best_typo(words: Seq<Seq<char>>, token: Seq<char>, i: int)
    requires
        0 <= i < words.len(),
        typo_points(alignment_distance(words[i], token), words[i].len(), token.len()) is Some,
    ensures
        best_typo(words, token) is Some,
    decreases words.len(),
{
    if i < words.len() - 1 {
        lemma_best_typo(words.drop_last(), token, i);
    }
}

/// A token of four characters or more that is a single slip away from a word of a field
/// matches the field.
pub proof fn single_slips_are_tolerated(
    field: Seq<char>,
    token: Seq<char>,
    i: int,
    start: Seq<char>,
    meant: Seq<char>,
    typed: Seq<char>,
    rest: Seq<char>,
)
    requires
        0 <= i < words_of(field).len(),
        words_of(field)[i] == start + meant + rest,
        token == start + typed + rest,
        slip(meant, typed),
        token.len() >= 4,
    ensures
        token_points(field, token) is Some,
{
    slips_are_near(start, meant, typed, rest);
    lemma_best_typo(words_of(field), token, i);
}

/// The points of the words of a query add up: words that all match score together what
/// they score apart, and a word that does not match spoils the others.
#[verifier::rlimit(40)]
pub proof fn words_add_up(
    title: Seq<char>,
    subtitle: Seq<char>,
    keywords: Seq<Seq<char>>,
    a: Seq<Seq<char>>,
    b: Seq<Seq<char>>,
)
    ensures
        match (
            tokens_points(title, subtitle, keywords, a),
            tokens_points(title, subtitle, keywords, b),
        ) {
            (Some(x), Some(y)) => tokens_points(title, subtitle, keywords, a + b) == Some(x + y),
            _ => tokens_points(title, subtitle, keywords, a + b) is None,
        },
{
    let scored = |token: Seq<char>| field_points(title, subtitle, keywords, token);
    lemma_tokens_sum(title, subtitle, keywords, a);
    lemma_tokens_sum(title, subtitle, keywords, b);
    lemma_tokens_sum(title, subtitle, keywords, a + b);
    assert((a + b).map_values(scored) == a.map_values(scored) + b.map_values(scored));
    lemma_sum_joined(a.map_values(scored), b.map_values(scored));
}

proof fn lemma_sum_joined(a: Seq<Option<int>>, b: Seq<Option<int>>)
    ensures
        match (sum_of(a), sum_of(b)) {
            (Some(x), Some(y)) => sum_of(a + b) == Some(x + y),
            _ => sum_of(a + b) is None,
        },
    decreases b.len(),
{
    if b.len() == 0 {
        assert(a + b == a);
    } else {
        lemma_sum_joined(a, b.drop_last());
        assert((a + b).drop_last() == a + b.drop_last());
        assert((a + b).last() == b.last());
    }
}

#[verifier::rlimit(40)]
proof fn lemma_last_token(
    title: Seq<char>,
    subtitle: Seq<char>,
    keywords: Seq<Seq<char>>,
    tokens: Seq<Seq<char>>,
)
    requires
        tokens.len() > 0,
    ensures
        tokens_points(title, subtitle, keywords, tokens) == match (
            tokens_points(title, subtitle, keywords, tokens.drop_last()),
            field_points(title, subtitle, keywords, tokens.last()),
        ) {
            (Some(sum), Some(points)) => Some(sum + points),
            _ => None,
        },
{
}

/// A single word scores what it scores in the best of the fields.
#[verifier::rlimit(40)]
pub proof fn single_words_score_alone(
    title: Seq<char>,
    subtitle: Seq<char>,
    keywords: Seq<Seq<char>>,
    token: Seq<char>,
)
    ensures
        tokens_points(title, subtitle, keywords, seq![token]) == field_points(
            title,
            subtitle,
            keywords,
            token,
        ),
        tokens_points(title, subtitle, keywords, Seq::empty()) == Some(0int),
{
    assert(seq![token].drop_last() =~= Seq::empty());
    assert(tokens_points(title, subtitle, keywords, seq![token].drop_last()) == Some(0int));
}

/// What points add up to, where none is missing.
spec fn sum_of(points: Seq<Option<int>>) -> Option<int>
    decreases points.len(),
{
    if points.len() == 0 {
        Some(0)
    } else {
        match (sum_of(points.drop_last()), points.last()) {
            (Some(sum), Some(more)) => Some(sum + more),
            _ => None,
        }
    }
}

proof fn lemma_sum_grows(a: Seq<Option<int>>, b: Seq<Option<int>>, i: int)
    requires
        a.len() == b.len(),
        forall|j: int|
            0 <= j < a.len() ==> match (#[trigger] a[j], b[j]) {
                (Some(x), Some(y)) => x >= y,
                _ => false,
            },
    ensures
        sum_of(a) is Some,
        sum_of(b) is Some,
        sum_of(a)->0 >= sum_of(b)->0,
        0 <= i < a.len() && a[i]->0 > b[i]->0 ==> sum_of(a)->0 > sum_of(b)->0,
    decreases a.len(),
{
    if a.len() > 0 {
        let (x, y) = (a.drop_last(), b.drop_last());
        let n = a.len() - 1;
        assert(a[n] is Some && b[n] is Some);
        assert forall|j: int| 0 <= j < x.len() implies match (#[trigger] x[j], y[j]) {
            (Some(x), Some(y)) => x >= y,
            _ => false,
        } by {
            assert(x[j] == a[j] && y[j] == b[j]);
        }
        lemma_sum_grows(x, y, i);
        if 0 <= i < n {
            assert(x[i] == a[i] && y[i] == b[i]);
        }
    }
}

#[verifier::rlimit(40)]
proof fn lemma_tokens_sum(
    title: Seq<char>,
    subtitle: Seq<char>,
    keywords: Seq<Seq<char>>,
    tokens: Seq<Seq<char>>,
)
    ensures
        tokens_points(title, subtitle, keywords, tokens) == sum_of(
            tokens.map_values(
                |token: Seq<char>| field_points(title, subtitle, keywords, token),
            ),
        ),
    decreases tokens.len(),
{
    let points = tokens.map_values(
        |token: Seq<char>| field_points(title, subtitle, keywords, token),
    );
    if tokens.len() > 0 {
        let init = tokens.drop_last();
        lemma_tokens_sum(title, subtitle, keywords, init);
        assert(points.drop_last() == init.map_values(
            |token: Seq<char>| field_points(title, subtitle, keywords, token),
        ));
        lemma_last_token(title, subtitle, keywords, tokens);
    }
}

/// An item whose fields score higher on one word of a query, and on no other lower, has
/// the higher total.
#[verifier::rlimit(40)]
pub proof fn every_word_counts(
    a: (Seq<char>, Seq<char>, Seq<Seq<char>>),
    b: (Seq<char>, Seq<char>, Seq<Seq<char>>),
    tokens: Seq<Seq<char>>,
    i: int,
)
    requires
        forall|j: int|
            0 <= j < tokens.len() ==> match (
                field_points(a.0, a.1, a.2, #[trigger] tokens[j]),
                field_points(b.0, b.1, b.2, tokens[j]),
            ) {
                (Some(x), Some(y)) => x >= y,
                _ => false,
            },
    ensures
        tokens_points(a.0, a.1, a.2, tokens) is Some,
        tokens_points(b.0, b.1, b.2, tokens) is Some,
        tokens_points(a.0, a.1, a.2, tokens)->0 >= tokens_points(b.0, b.1, b.2, tokens)->0,
        0 <= i < tokens.len() && field_points(a.0, a.1, a.2, tokens[i])->0 > field_points(
            b.0,
            b.1,
            b.2,
            tokens[i],
        )->0 ==> tokens_points(a.0, a.1, a.2, tokens)->0 > tokens_points(b.0, b.1, b.2, tokens)->0,
{
    let scored = tokens.map_values(|token: Seq<char>| field_points(a.0, a.1, a.2, token));
    let lower = tokens.map_values(|token: Seq<char>| field_points(b.0, b.1, b.2, token));
    lemma_tokens_sum(a.0, a.1, a.2, tokens);
    lemma_tokens_sum(b.0, b.1, b.2, tokens);
    assert forall|j: int| 0 <= j < scored.len() implies match (#[trigger] scored[j], lower[j]) {
        (Some(x), Some(y)) => x >= y,
        _ => false,
    } by {
        assert(scored[j] == field_points(a.0, a.1, a.2, tokens[j]));
    }
    lemma_sum_grows(scored, lower, i);
}

proof fn lemma_best_points(fields: Seq<Seq<char>>, token: Seq<char>)
    ensures
        match best_points(fields, token) {
            None => forall|i: int|
                0 <= i < fields.len() ==> token_points(#[trigger] fields[i], token) is None,
            Some(points) => {
                &&& forall|i: int|
                    0 <= i < fields.len() ==> match token_points(#[trigger] fields[i], token) {
                        Some(other) => other <= points,
                        None => true,
                    }
                &&& exists|i: int|
                    0 <= i < fields.len() && token_points(#[trigger] fields[i], token) == Some(
                        points,
                    )
            },
        },
    decreases fields.len(),
{
    if fields.len() > 0 {
        let init = fields.drop_last();
        let n = fields.len() - 1;
        lemma_best_points(init, token);
        assert forall|i: int| 0 <= i < n implies #[trigger] fields[i] == init[i] by {}
        if let Some(points) = best_points(fields, token) {
            if token_points(fields[n], token) == Some(points) {
            } else {
                let i = choose|i: int|
                    0 <= i < init.len() && token_points(#[trigger] init[i], token) == Some(points);
                assert(token_points(fields[i], token) == Some(points));
            }
            assert forall|i: int| 0 <= i < fields.len() implies match token_points(
                #[trigger] fields[i],
                token,
            ) {
                Some(other) => other <= points,
                None => true,
            } by {
                if i < n {
                    assert(fields[i] == init[i]);
                }
            }
        } else {
            assert forall|i: int| 0 <= i < fields.len() implies token_points(
                #[trigger] fields[i],
                token,
            ) is None by {
                if i < n {
                    assert(fields[i] == init[i]);
                }
            }
        }
    }
}

/// A word counts where it scores most: in the title, which is worth most, in the
/// subtitle, or in one of the keywords. It misses only where it scores in none of them.
#[verifier::rlimit(40)]
pub proof fn the_best_field_counts(
    title: Seq<char>,
    subtitle: Seq<char>,
    keywords: Seq<Seq<char>>,
    token: Seq<char>,
    i: int,
)
    requires
        0 <= i < keywords.len(),
    ensures
        match field_points(title, subtitle, keywords, token) {
            None => {
                &&& token_points(title, token) is None
                &&& token_points(subtitle, token) is None
                &&& token_points(keywords[i], token) is None
            },
            Some(points) => {
                &&& token_points(title, token) is Some ==> points >= token_points(title, token)->0
                    + 1_800
                &&& token_points(subtitle, token) is Some ==> points >= token_points(
                    subtitle,
                    token,
                )->0 + 600
                &&& token_points(keywords[i], token) is Some ==> points >= token_points(
                    keywords[i],
                    token,
                )->0
                &&& {
                    ||| token_points(title, token) == Some(points - 1_800)
                    ||| token_points(subtitle, token) == Some(points - 600)
                    ||| exists|k: int|
                        0 <= k < keywords.len() && token_points(#[trigger] keywords[k], token)
                            == Some(points)
                }
            },
        },
{
    lemma_best_points(keywords, token);
}

/// Without keywords a word counts in the title or the subtitle.
pub proof fn titles_count_more_than_subtitles(
    title: Seq<char>,
    subtitle: Seq<char>,
    token: Seq<char>,
)
    ensures
        match (token_points(title, token), token_points(subtitle, token)) {
            (Some(x), Some(y)) => field_points(title, subtitle, Seq::empty(), token) == Some(
                if x + 1_800 >= y + 600 {
                    x + 1_800
                } else {
                    y + 600
                },
            ),
            (Some(x), None) => field_points(title, subtitle, Seq::empty(), token) == Some(
                x + 1_800,
            ),
            (None, Some(y)) => field_points(title, subtitle, Seq::empty(), token) == Some(y + 600),
            (None, None) => field_points(title, subtitle, Seq::empty(), token) is None,
        },
{
}

/// A token that is the whole field scores the most.
pub proof fn whole_fields_score(field: Seq<char>)
    ensures
        token_points(field, field) == Some(14_000int),
{
}

/// A token at the start of a field scores the less the longer the field is, up to five
/// hundred characters.
pub proof fn starts_score_by_length(token: Seq<char>, rest: Seq<char>)
    requires
        rest.len() > 0,
    ensures
        token.len() + rest.len() <= 500 ==> token_points(token + rest, token) == Some(
            12_500 - token.len() - rest.len(),
        ),
        token.len() + rest.len() >= 500 ==> token_points(token + rest, token) == Some(12_000int),
{
    let field = token + rest;
    assert(field.len() != token.len());
    assert(field.subrange(0, token.len() as int) =~= token);
    assert(starts(field, token));
}

proof fn lemma_first_started(words: Seq<Seq<char>>, token: Seq<char>, from: nat)
    ensures
        match first_started(words, token, from) {
            Some(i) => from <= i < words.len() && starts(words[i as int], token) && forall|j: int|
                from <= j < i ==> !starts(#[trigger] words[j], token),
            None => forall|j: int| from <= j < words.len() ==> !starts(#[trigger] words[j], token),
        },
    decreases words.len() - from,
{
    if from < words.len() && !starts(words[from as int], token) {
        lemma_first_started(words, token, from + 1);
    }
}

/// A token at the start of a word inside a field scores by the place of the first such
/// word among the words of the field.
pub proof fn started_words_score_by_place(field: Seq<char>, token: Seq<char>, i: int)
    requires
        field.len() < token.len() || field.take(token.len() as int) != token,
        0 <= i < words_of(field).len(),
        words_of(field)[i].len() >= token.len(),
        words_of(field)[i].take(token.len() as int) == token,
        forall|j: int|
            0 <= j < i ==> (#[trigger] words_of(field)[j]).len() < token.len() || words_of(
                field,
            )[j].take(token.len() as int) != token,
    ensures
        token_points(field, token) == Some(11_500 - 20 * i),
{
    let words = words_of(field);
    let n = token.len() as int;
    lemma_first_started(words, token, 0);
    assert(words[i].subrange(0, n) =~= words[i].take(n));
    assert(starts(words[i], token));
    assert(first_started(words, token, 0) is Some);
    let first = first_started(words, token, 0)->0 as int;
    if first < i {
        assert(words[first].subrange(0, n) =~= words[first].take(n));
    }
    assert(!starts(field, token)) by {
        if starts(field, token) {
            assert(field.subrange(0, n) =~= field.take(n));
        }
    }
    assert(field != token) by {
        if field == token {
            assert(field.take(n) =~= token);
        }
    }
}

proof fn lemma_no_word_started(words: Seq<Seq<char>>, token: Seq<char>)
    requires
        forall|j: int|
            0 <= j < words.len() ==> (#[trigger] words[j]).len() < token.len() || words[j].take(
                token.len() as int,
            ) != token,
    ensures
        first_started(words, token, 0) is None,
{
    lemma_first_started(words, token, 0);
    if first_started(words, token, 0) is Some {
        let first = first_started(words, token, 0)->0 as int;
        let n = token.len() as int;
        assert(words[first].subrange(0, n) =~= words[first].take(n));
    }
}

/// A token elsewhere in a field scores by the bytes before it, up to five hundred.
pub proof fn held_tokens_score_by_place(before: Seq<char>, token: Seq<char>, after: Seq<char>)
    requires
        before.len() > 0,
        forall|i: int|
            0 <= i < before.len() ==> #[trigger] (before + token + after).subrange(
                i,
                i + token.len(),
            ) != token,
        forall|j: int|
            0 <= j < words_of(before + token + after).len() ==> (#[trigger] words_of(
                before + token + after,
            )[j]).len() < token.len() || words_of(before + token + after)[j].take(
                token.len() as int,
            ) != token,
    ensures
        ({
            let bytes = vstd::utf8::encode_utf8(before).len();
            token_points(before + token + after, token) == Some(
                if bytes <= 500 {
                    10_000 - bytes
                } else {
                    9_500
                },
            )
        }),
{
    let field = before + token + after;
    places_are_told_in_bytes(before, token, after);
    lemma_no_word_started(words_of(field), token);
    assert(field.subrange(0, 0 + token.len() as int) != token);
    assert(!starts(field, token));
    assert(field.len() != token.len());
}

/// How many typos a token may have goes by its length.
pub proof fn typos_are_allowed_by_length(length: nat)
    ensures
        length <= 3 ==> typo_limit(length) == 0,
        4 <= length <= 6 ==> typo_limit(length) == 1,
        7 <= length <= 10 ==> typo_limit(length) == 2,
        11 <= length ==> typo_limit(length) == 3,
{
}

/// Each typo costs points, and so does each character by which the lengths differ; too
/// many typos are no match.
pub proof fn typos_cost_points(distance: nat, word_length: nat, token_length: nat)
    ensures
        typo_points(distance, word_length, token_length) is Some <==> {
            ||| distance == 0
            ||| distance == 1 && token_length >= 4
            ||| distance == 2 && token_length >= 7
            ||| distance == 3 && token_length >= 11
        },
        typo_points(0, token_length, token_length) == Some(9_000int),
        typo_points(distance, token_length, token_length) is Some ==> typo_points(
            distance,
            token_length,
            token_length,
        )->0 == 9_000 - 900 * distance,
        typo_points(distance, token_length, token_length) is Some && word_length >= token_length
            ==> typo_points(distance, word_length, token_length) == Some(
            9_000 - 900 * distance - 25 * (word_length - token_length),
        ),
        typo_points(distance, token_length, token_length) is Some && word_length <= token_length
            ==> typo_points(distance, word_length, token_length) == Some(
            9_000 - 900 * distance - 25 * (token_length - word_length),
        ),
{
}

proof fn lemma_best_typo_is_best(words: Seq<Seq<char>>, token: Seq<char>)
    ensures
        match best_typo(words, token) {
            None => forall|i: int|
                0 <= i < words.len() ==> typo_points(
                    alignment_distance(#[trigger] words[i], token),
                    words[i].len(),
                    token.len(),
                ) is None,
            Some(points) => {
                &&& forall|i: int|
                    0 <= i < words.len() ==> match typo_points(
                        alignment_distance(#[trigger] words[i], token),
                        words[i].len(),
                        token.len(),
                    ) {
                        Some(other) => other <= points,
                        None => true,
                    }
                &&& exists|i: int|
                    0 <= i < words.len() && typo_points(
                        alignment_distance(#[trigger] words[i], token),
                        words[i].len(),
                        token.len(),
                    ) == Some(points)
            },
        },
    decreases words.len(),
{
    if words.len() > 0 {
        let init = words.drop_last();
        let n = words.len() - 1;
        lemma_best_typo_is_best(init, token);
        let last = typo_points(
            alignment_distance(words[n], token),
            words[n].len(),
            token.len(),
        );
        if let Some(points) = best_typo(words, token) {
            if last != Some(points) {
                let i = choose|i: int|
                    0 <= i < init.len() && typo_points(
                        alignment_distance(#[trigger] init[i], token),
                        init[i].len(),
                        token.len(),
                    ) == Some(points);
                assert(words[i] == init[i]);
            }
            assert forall|i: int| 0 <= i < words.len() implies match typo_points(
                alignment_distance(#[trigger] words[i], token),
                words[i].len(),
                token.len(),
            ) {
                Some(other) => other <= points,
                None => true,
            } by {
                if i < n {
                    assert(words[i] == init[i]);
                }
            }
        } else {
            assert forall|i: int| 0 <= i < words.len() implies typo_points(
                alignment_distance(#[trigger] words[i], token),
                words[i].len(),
                token.len(),
            ) is None by {
                if i < n {
                    assert(words[i] == init[i]);
                }
            }
        }
    }
}

/// A token that a field does not hold scores what is best of a fuzzy match and of the
/// words that it may be a misspelling of, and misses where there is neither.
pub proof fn other_tokens_are_guessed(field: Seq<char>, token: Seq<char>, i: int)
    requires
        forall|j: int|
            0 <= j <= field.len() - token.len() ==> #[trigger] field.subrange(j, j + token.len())
                != token,
        forall|j: int|
            0 <= j < words_of(field).len() ==> (#[trigger] words_of(field)[j]).len() < token.len()
                || words_of(field)[j].take(token.len() as int) != token,
    ensures
        match token_points(field, token) {
            None => {
                &&& skim_score(field, token) is None
                &&& 0 <= i < words_of(field).len() ==> typo_points(
                    alignment_distance(words_of(field)[i], token),
                    words_of(field)[i].len(),
                    token.len(),
                ) is None
            },
            Some(points) => {
                &&& skim_score(field, token) is Some ==> points >= 7_000 + skim_score(
                    field,
                    token,
                )->0
                &&& 0 <= i < words_of(field).len() ==> match typo_points(
                    alignment_distance(words_of(field)[i], token),
                    words_of(field)[i].len(),
                    token.len(),
                ) {
                    Some(other) => points >= other,
                    None => true,
                }
                &&& {
                    ||| skim_score(field, token) is Some && points == 7_000 + skim_score(
                        field,
                        token,
                    )->0
                    ||| exists|k: int|
                        0 <= k < words_of(field).len() && typo_points(
                            alignment_distance(#[trigger] words_of(field)[k], token),
                            words_of(field)[k].len(),
                            token.len(),
                        ) == Some(points)
                }
            },
        },
{
    let words = words_of(field);
    missing_parts_are_not_found(field, token);
    lemma_no_word_started(words, token);
    lemma_best_typo_is_best(words, token);
    assert(!starts(field, token)) by {
        if starts(field, token) {
            assert(field.subrange(0, 0 + token.len() as int) == token);
        }
    }
    assert(field != token) by {
        if field == token {
            assert(field.subrange(0, 0 + token.len() as int) =~= token);
        }
    }
}

/// A query that is the title, starts it, or stands in it, raises the score of the words.
pub proof fn titles_that_hold_the_query_score_more(
    before: Seq<char>,
    query: Seq<char>,
    after: Seq<char>,
)
    ensures
        title_bonus(query, query) == 20_000,
        after.len() > 0 ==> title_bonus(query + after, query) == 12_000,
        title_bonus(before + query + after, query) >= 8_000,
        before.len() > 0 && (before + query + after).subrange(0, query.len() as int) != query
            ==> title_bonus(before + query + after, query) == 8_000,
{
    let title = before + query + after;
    assert((query + after).subrange(0, query.len() as int) =~= query);
    assert(starts(query + after, query));
    let n = before.len() as int;
    found_is_first(title, query, 0);
    assert(title.subrange(n, n + query.len()) =~= query);
    assert(occurs_at(title, query, n));
    if before.len() > 0 {
        assert(title.len() != query.len());
    }
    if after.len() > 0 {
        assert((query + after).len() != query.len());
    }
}

/// A title that does not hold the query adds nothing to the score of the words.
pub proof fn other_titles_add_nothing(title: Seq<char>, query: Seq<char>)
    requires
        forall|i: int|
            0 <= i <= title.len() - query.len() ==> #[trigger] title.subrange(i, i + query.len())
                != query,
    ensures
        title_bonus(title, query) == 0,
{
    missing_parts_are_not_found(title, query);
    if starts(title, query) {
        assert(title.subrange(0, 0 + query.len() as int) == query);
    }
    if title == query {
        assert(title.subrange(0, 0 + query.len() as int) =~= query);
    }
}

/// The score of a match is that of the words of the query with that of the title.
pub proof fn matches_add_words_and_title(
    title: Seq<char>,
    subtitle: Seq<char>,
    keywords: Seq<Seq<char>>,
    query: Seq<char>,
)
    ensures
        words_of(query).len() == 0 ==> match_points(title, subtitle, keywords, query) == Some(0int),
        words_of(query).len() > 0 ==> match tokens_points(
            title,
            subtitle,
            keywords,
            words_of(query),
        ) {
            Some(points) => match_points(title, subtitle, keywords, query) == Some(
                points + title_bonus(title, query),
            ),
            None => match_points(title, subtitle, keywords, query) is None,
        },
{
}

/// Items are matched by the normalized forms of their texts, each in its role: a word
/// that is the title scores most, then one that is the subtitle, and then a keyword.
#[verifier::rlimit(40)]
pub proof fn items_match_by_normalized_texts(item: ItemModel, word: Seq<char>, i: int)
    requires
        words_of(word) == seq![word],
    ensures
        normalized(item.title) == word ==> item_points(item, word) is Some && item_points(
            item,
            word,
        )->0 >= 14_000 + 1_800 + 20_000,
        normalized(item.subtitle) == word ==> item_points(item, word) is Some && item_points(
            item,
            word,
        )->0 >= 14_000 + 600,
        0 <= i < item.keywords.len() && normalized(item.keywords[i]) == word ==> item_points(
            item,
            word,
        ) is Some && item_points(item, word)->0 >= 14_000,
{
    let title = normalized(item.title);
    let subtitle = normalized(item.subtitle);
    let keywords = all_normalized(item.keywords);
    single_words_score_alone(title, subtitle, keywords, word);
    lemma_best_points(keywords, word);
    if 0 <= i < item.keywords.len() {
        assert(keywords[i] == normalized(item.keywords[i]));
        assert(token_points(keywords[i], word) is Some <== normalized(item.keywords[i]) == word);
    }
}

/// An item is scored by its texts as they are normalized, and by nothing else of it.
pub proof fn items_score_by_their_texts(a: ItemModel, b: ItemModel, query: Seq<char>)
    requires
        normalized(a.title) == normalized(b.title),
        normalized(a.subtitle) == normalized(b.subtitle),
        a.keywords.len() == b.keywords.len(),
        forall|i: int|
            0 <= i < a.keywords.len() ==> normalized(#[trigger] a.keywords[i]) == normalized(
                b.keywords[i],
            ),
    ensures
        item_points(a, query) == item_points(b, query),
{
    assert(all_normalized(a.keywords) =~= all_normalized(b.keywords));
}

/// The better match comes first; then the higher score of the item, the higher priority
/// of its provider, the title that is first in the alphabet, and the key that is.
pub proof fn better_matches_come_first(a: Ranking, b: Ranking)
    ensures
        a.match_score > b.match_score ==> ranks_before(a, b) && !ranks_before(b, a),
        a.match_score == b.match_score && a.score > b.score ==> ranks_before(a, b)
            && !ranks_before(b, a),
        a.match_score == b.match_score && a.score == b.score && a.provider_priority
            > b.provider_priority ==> ranks_before(a, b) && !ranks_before(b, a),
        a.match_score == b.match_score && a.score == b.score && a.provider_priority
            == b.provider_priority && a.title != b.title ==> ranks_before(a, b) == precedes(
            a.title,
            b.title,
        ),
        a.match_score == b.match_score && a.score == b.score && a.provider_priority
            == b.provider_priority && a.title == b.title ==> ranks_before(a, b) == precedes(
            a.key,
            b.key,
        ),
{
}

proof fn lemma_matches_joined(a: Seq<ItemModel>, b: Seq<ItemModel>, query: Seq<char>)
    ensures
        matches_of(a + b, query) == matches_of(a, query) + matches_of(b, query),
    decreases b.len(),
{
    if b.len() == 0 {
        assert(a + b =~= a);
        assert(matches_of(a, query) + matches_of(b, query) =~= matches_of(a, query));
    } else {
        lemma_matches_joined(a, b.drop_last(), query);
        assert((a + b).drop_last() =~= a + b.drop_last());
        assert((a + b).last() == b.last());
        let x = matches_of(a, query);
        let y = matches_of(b.drop_last(), query);
        let z = item_ranking(b.last(), query);
        assert((x + y) + z =~= x + (y + z));
    }
}

/// Items are matched one by one: an item that matches is ranked by its score and its own
/// values, and an item that does not is left out.
pub proof fn items_are_matched_one_by_one(
    before: Seq<ItemModel>,
    item: ItemModel,
    after: Seq<ItemModel>,
    query: Seq<char>,
)
    ensures
        match item_points(item, query) {
            Some(points) => matches_of(before + seq![item] + after, query) == matches_of(
                before,
                query,
            ) + seq![
                Ranking {
                    match_score: points,
                    score: item.score,
                    provider_priority: item.provider_priority,
                    title: normalized(item.title),
                    key: item.key,
                },
            ] + matches_of(after, query),
            None => matches_of(before + seq![item] + after, query) == matches_of(
                before + after,
                query,
            ),
        },
        matches_of(Seq::empty(), query) == Seq::<Ranking>::empty(),
{
    lemma_matches_joined(before + seq![item], after, query);
    lemma_matches_joined(before, seq![item], query);
    lemma_matches_joined(before, after, query);
    assert(seq![item].drop_last() =~= Seq::empty());
    assert(matches_of(seq![item].drop_last(), query) =~= Seq::empty());
    assert(matches_of(seq![item], query) =~= item_ranking(item, query));
    if item_points(item, query) is None {
        assert(matches_of(before, query) + Seq::empty() =~= matches_of(before, query));
    }
}

/// Every item that matches is in the answer, and before those that rank behind it.
pub proof fn answers_hold_every_match(
    keys: Seq<Seq<char>>,
    query: Seq<char>,
    items: Seq<ItemModel>,
    i: int,
    j: int,
)
    requires
        answers_query(keys, query, items),
        0 <= i < items.len(),
        0 <= j < items.len(),
        item_points(items[i], asked_query(query)) is Some,
    ensures
        keys.contains(items[i].key),
        item_points(items[j], asked_query(query)) is Some && item_points(
            items[i],
            asked_query(query),
        )->0 > item_points(items[j], asked_query(query))->0 ==> exists|p: int, q: int|
            0 <= p < q < keys.len() && #[trigger] keys[p] == items[i].key && #[trigger] keys[q]
                == items[j].key,
{
    broadcast use vstd::seq_lib::group_to_multiset_ensures;

    let asked = asked_query(query);
    let matched = matches_of(items, asked);
    let order = choose|order: Seq<Ranking>| #[trigger]
        orders(order, matched) && keys == keys_of(order);
    lemma_match_is_listed(items, asked, i);
    let a = item_ranking(items[i], asked)[0];
    assert(order.to_multiset().count(a) > 0);
    assert(order.contains(a));
    let p = choose|p: int| 0 <= p < order.len() && order[p] == a;
    assert(keys[p] == items[i].key);
    if item_points(items[j], asked) is Some && item_points(items[i], asked)->0 > item_points(
        items[j],
        asked,
    )->0 {
        lemma_match_is_listed(items, asked, j);
        let b = item_ranking(items[j], asked)[0];
        assert(order.to_multiset().count(b) > 0);
        assert(order.contains(b));
        let q = choose|q: int| 0 <= q < order.len() && order[q] == b;
        assert(keys[q] == items[j].key);
        assert(ranks_before(order[p], order[q]));
        assert(p < q);
    }
}

proof fn lemma_match_is_listed(items: Seq<ItemModel>, query: Seq<char>, i: int)
    requires
        0 <= i < items.len(),
        item_points(items[i], query) is Some,
    ensures
        matches_of(items, query).contains(item_ranking(items[i], query)[0]),
{
    let before = items.take(i);
    let after = items.skip(i + 1);
    assert(items =~= before + seq![items[i]] + after);
    items_are_matched_one_by_one(before, items[i], after, query);
    let n = matches_of(before, query).len() as int;
    assert(matches_of(items, query)[n] == item_ranking(items[i], query)[0]);
}

/// An answer holds a key for each item that matches, and no other.
pub proof fn answers_hold_nothing_else(
    keys: Seq<Seq<char>>,
    query: Seq<char>,
    items: Seq<ItemModel>,
    p: int,
)
    requires
        answers_query(keys, query, items),
    ensures
        keys.len() == items.filter(
            |item: ItemModel| item_points(item, asked_query(query)) is Some,
        ).len(),
        0 <= p < keys.len() ==> exists|i: int|
            0 <= i < items.len() && (#[trigger] items[i]).key == keys[p] && item_points(
                items[i],
                asked_query(query),
            ) is Some,
{
    broadcast use vstd::seq_lib::group_to_multiset_ensures;

    let asked = asked_query(query);
    let matched = matches_of(items, asked);
    let order = choose|order: Seq<Ranking>| #[trigger]
        orders(order, matched) && keys == keys_of(order);
    assert(order.len() == order.to_multiset().len());
    assert(matched.len() == matched.to_multiset().len());
    lemma_match_count(items, asked);
    if 0 <= p < keys.len() {
        assert(order.contains(order[p]));
        assert(matched.to_multiset().count(order[p]) > 0);
        assert(matched.contains(order[p]));
        lemma_listed_matches(items, asked, order[p]);
    }
}

proof fn lemma_match_count(items: Seq<ItemModel>, query: Seq<char>)
    ensures
        matches_of(items, query).len() == items.filter(
            |item: ItemModel| item_points(item, query) is Some,
        ).len(),
    decreases items.len(),
{
    let matching = |item: ItemModel| item_points(item, query) is Some;
    if items.len() > 0 {
        let init = items.drop_last();
        lemma_match_count(init, query);
        init.lemma_filter_push(items.last(), matching);
        assert(items =~= init.push(items.last()));
    } else {
        items.lemma_filter_len(matching);
    }
}

proof fn lemma_listed_matches(items: Seq<ItemModel>, query: Seq<char>, ranking: Ranking)
    requires
        matches_of(items, query).contains(ranking),
    ensures
        exists|i: int|
            0 <= i < items.len() && (#[trigger] items[i]).key == ranking.key && item_points(
                items[i],
                query,
            ) is Some,
    decreases items.len(),
{
    let listed = matches_of(items, query);
    let n = choose|n: int| 0 <= n < listed.len() && listed[n] == ranking;
    let init = items.drop_last();
    let earlier = matches_of(init, query);
    if n < earlier.len() {
        assert(earlier[n] == ranking);
        assert(earlier.contains(ranking));
        lemma_listed_matches(init, query, ranking);
        let i = choose|i: int|
            0 <= i < init.len() && (#[trigger] init[i]).key == ranking.key && item_points(
                init[i],
                query,
            ) is Some;
        assert(items[i] == init[i]);
    } else {
        let last = items.len() - 1;
        assert(item_points(items[last], query) is Some);
        assert(items[last].key == ranking.key);
    }
}

/// A query is taken as it is normalized, without the white space around it.
pub proof fn queries_are_trimmed(
    query: Seq<char>,
    before: Seq<char>,
    text: Seq<char>,
    after: Seq<char>,
)
    requires
        normalized(query) == before + text + after,
        crate::text::blank(before),
        crate::text::blank(after),
        text.len() > 0 ==> !crate::text::white_space(text[0]) && !crate::text::white_space(
            text.last(),
        ),
    ensures
        asked_query(query) == text,
{
    outer_space_is_trimmed(before, text, after);
}

/// Requests of ordinary size can be answered: a query of up to some million characters,
/// and items whose texts can be addressed.
pub proof fn ordinary_requests_fit(query: Seq<char>, items: Seq<ItemModel>)
    requires
        asked_query(query).len() <= 0x400_0000,
        asked_query(query).len() <= usize::MAX / 256,
        forall|i: int|
            0 <= i < items.len() ==> {
                &&& normalized((#[trigger] items[i]).title).len() <= usize::MAX / 256
                &&& normalized(items[i].subtitle).len() <= usize::MAX / 256
                &&& forall|k: int|
                    0 <= k < items[i].keywords.len() ==> normalized(
                        #[trigger] items[i].keywords[k],
                    ).len() <= usize::MAX / 256
            },
    ensures
        request_fits(query, items),
{
    let asked = asked_query(query);
    let tokens = words_of(asked);
    words_hold_letters_and_numbers(asked);
    assert forall|i: int| 0 <= i < items.len() implies item_fits(#[trigger] items[i], asked) by {
        let item = items[i];
        let title = normalized(item.title);
        let subtitle = normalized(item.subtitle);
        let keywords = all_normalized(item.keywords);
        assert forall|k: int| 0 <= k < keywords.len() implies (#[trigger] keywords[k]).len()
            <= TEXT_LIMIT by {
            assert(keywords[k] == normalized(item.keywords[k]));
        }
        assert forall|t: int|
            0 <= t < tokens.len() && all_match(
                title,
                subtitle,
                keywords,
                tokens,
                t,
            ) implies fields_matchable(title, subtitle, keywords, #[trigger] tokens[t]) by {
            assert(tokens[t].len() <= MATCH_LIMIT);
        }
    }
}

/// A query without words fits any items.
pub proof fn blank_requests_fit(query: Seq<char>, items: Seq<ItemModel>)
    requires
        words_of(asked_query(query)).len() == 0,
    ensures
        request_fits(query, items),
{
}

/// What is known of an item is what it was given with, each text in its role, and a match
/// is ranked by what was found for it.
pub proof fn items_are_known_as_given(item: SearchItem, ranked: RankedItem, k: int)
    ensures
        item@.key == item.key@,
        item@.title == item.title@,
        item@.subtitle == item.subtitle@,
        item@.score == item.score,
        item@.provider_priority == item.provider_priority,
        item@.keywords.len() == item.keywords@.len(),
        0 <= k < item.keywords@.len() ==> item@.keywords[k] == item.keywords@[k]@,
        ranked@.match_score == ranked.match_score,
        ranked@.score == ranked.item.score,
        ranked@.provider_priority == ranked.item.provider_priority,
        ranked@.title == ranked.normalized_title@,
        ranked@.key == ranked.item.key@,
{
}

/// A request that cannot be read is answered with an error that says why.
pub proof fn unreadable_requests_are_answered(reason: Seq<char>, key: Seq<char>)
    ensures
        search_error_model(reason).field_text("error"@) == Some(
            "invalid search request: "@ + reason,
        ),
        search_error_model(reason).field(key) is Some ==> key == "error"@,
{
}

} // verus!
