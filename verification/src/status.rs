//! The status filter: which tokens name a status, and how a comma list of
//! them is read.

use vstd::prelude::*;
use crate::error::PurgeError;
use crate::text::{
    chars_of, is_white_space, join, lemma_run_before, lemma_run_before_bounds, lemma_split_join,
    pieces_view, run_before, spells, split, split_on, string_of, strings_view, trim, trim_bounds,
    trim_end, trim_start, words_view,
};

verus! {

/// The statuses of runs that are still under way.
pub open spec fn runtime_vocabulary() -> Seq<Seq<char>> {
    seq!["queued"@, "in_progress"@, "requested"@, "waiting"@, "pending"@]
}

/// The statuses that tell how a finished run ended.
pub open spec fn conclusion_vocabulary() -> Seq<Seq<char>> {
    seq![
        "success"@,
        "failure"@,
        "cancelled"@,
        "skipped"@,
        "neutral"@,
        "stale"@,
        "timed_out"@,
        "action_required"@,
    ]
}

/// The status that stands for every finished run.
pub open spec fn catch_all() -> Seq<char> {
    "completed"@
}

/// Whether `token` is a status of the vocabulary.
pub open spec fn is_status(token: Seq<char>) -> bool {
    token == catch_all() || runtime_vocabulary().contains(token) || conclusion_vocabulary().contains(
        token,
    )
}

/// `token` with an underscore in place of every dash.
pub open spec fn normalized(token: Seq<char>) -> Seq<char> {
    Seq::new(token.len(), |i: int| if token[i] == '-' { '_' } else { token[i] })
}

/// The tokens of a comma list: each piece between commas, trimmed and
/// normalized.
pub open spec fn status_tokens(input: Seq<char>) -> Seq<Seq<char>> {
    let pieces = split(input, ',');
    Seq::new(pieces.len(), |i: int| normalized(trim(pieces[i])))
}

/// The number of tokens that are statuses before the first that is none.
pub open spec fn known_prefix(tokens: Seq<Seq<char>>) -> int
    decreases tokens.len(),
{
    if tokens.len() == 0 || !is_status(tokens[0]) {
        0
    } else {
        1 + known_prefix(tokens.skip(1))
    }
}

/// What a comma list is read as: its tokens where each is a status, and
/// otherwise the first token that is none.
pub open spec fn parsed_statuses(input: Seq<char>) -> Result<Seq<Seq<char>>, Seq<char>> {
    let tokens = status_tokens(input);
    let known = known_prefix(tokens);
    if 0 <= known < tokens.len() {
        Err(tokens[known])
    } else {
        Ok(tokens)
    }
}

/// `known_prefix` is the index of the first token that is no status.
pub proof fn lemma_known_prefix(tokens: Seq<Seq<char>>, k: int)
    requires
        0 <= k <= tokens.len(),
        forall|j: int| 0 <= j < k ==> is_status(tokens[j]),
        k == tokens.len() || !is_status(tokens[k]),
    ensures
        known_prefix(tokens) == k,
    decreases k,
{
    if k > 0 {
        lemma_known_prefix(tokens.skip(1), k - 1);
    }
}

/// `known_prefix` stays within the tokens, and each token before it is a
/// status.
pub proof fn lemma_known_prefix_bounds(tokens: Seq<Seq<char>>)
    ensures
        0 <= known_prefix(tokens) <= tokens.len(),
        forall|j: int| 0 <= j < known_prefix(tokens) ==> is_status(tokens[j]),
        known_prefix(tokens) < tokens.len() ==> !is_status(tokens[known_prefix(tokens)]),
    decreases tokens.len(),
{
    if tokens.len() == 0 || !is_status(tokens[0]) {
    } else {
        let rest = tokens.skip(1);
        lemma_known_prefix_bounds(rest);
        let n = known_prefix(rest);
        assert forall|j: int| 0 <= j < n + 1 implies is_status(tokens[j]) by {
            if j > 0 {
                assert(rest[j - 1] == tokens[j]);
            }
        }
        if n + 1 < tokens.len() {
            assert(rest[n] == tokens[n + 1]);
        }
    }
}

/// Whether `token` is free of commas, dashes and white space.
pub open spec fn is_plain(token: Seq<char>) -> bool {
    forall|i: int|
        0 <= i < token.len() ==> token[i] != ',' && token[i] != '-' && !is_white_space(
            #[trigger] token[i],
        )
}

/// Whether every character of `word` is a small letter or an underscore.
spec fn is_lettered(word: Seq<char>) -> bool {
    forall|i: int| 0 <= i < word.len() ==> ('a' <= #[trigger] word[i] <= 'z' || word[i] == '_')
}

/// A word of small letters and underscores is plain.
proof fn lemma_lettered_is_plain(word: Seq<char>)
    requires
        is_lettered(word),
    ensures
        is_plain(word),
{
    assert forall|i: int| 0 <= i < word.len() implies word[i] != ',' && word[i] != '-'
        && !is_white_space(#[trigger] word[i]) by {
        let c = word[i];
        assert('a' <= c <= 'z' || c == '_');
    }
}

/// Every status is a word of small letters and underscores, and not empty.
proof fn lemma_status_is_lettered(token: Seq<char>)
    requires
        is_status(token),
    ensures
        is_lettered(token),
        token.len() > 0,
{
    reveal_strlit("completed");
    reveal_strlit("queued");
    reveal_strlit("in_progress");
    reveal_strlit("requested");
    reveal_strlit("waiting");
    reveal_strlit("pending");
    reveal_strlit("success");
    reveal_strlit("failure");
    reveal_strlit("cancelled");
    reveal_strlit("skipped");
    reveal_strlit("neutral");
    reveal_strlit("stale");
    reveal_strlit("timed_out");
    reveal_strlit("action_required");
    if token == catch_all() {
    } else if runtime_vocabulary().contains(token) {
        let i = choose|i: int| 0 <= i < runtime_vocabulary().len() && runtime_vocabulary()[i] == token;
        assert(0 <= i < 5);
    } else {
        let i = choose|i: int|
            0 <= i < conclusion_vocabulary().len() && conclusion_vocabulary()[i] == token;
        assert(0 <= i < 8);
    }
}

/// A status holds no comma, no dash and no white space, and is not empty.
pub proof fn lemma_status_is_plain(token: Seq<char>)
    requires
        is_status(token),
    ensures
        is_plain(token),
        token.len() > 0,
{
    lemma_status_is_lettered(token);
    lemma_lettered_is_plain(token);
}

/// A plain token is its own trimmed and normalized form.
pub proof fn lemma_plain_token_is_fixed(token: Seq<char>)
    requires
        is_plain(token),
    ensures
        normalized(trim(token)) == token,
{
    if token.len() > 0 {
        assert(!is_white_space(token[0]));
        assert(!is_white_space(token[token.len() - 1]));
    }
    assert(trim(token) == token);
    assert(normalized(token) =~= token);
}

/// Normalizing touches no comma, so the first comma stays where it is.
proof fn lemma_normalized_run_before(s: Seq<char>)
    ensures
        run_before(normalized(s), ',') == run_before(s, ','),
    decreases s.len(),
{
    if s.len() > 0 {
        assert(normalized(s)[0] == (if s[0] == '-' { '_' } else { s[0] }));
        assert(normalized(s).skip(1) =~= normalized(s.skip(1)));
        lemma_normalized_run_before(s.skip(1));
    }
}

/// The pieces of a normalized list are the normalized pieces of the list.
proof fn lemma_normalized_split(s: Seq<char>)
    ensures
        split(normalized(s), ',').len() == split(s, ',').len(),
        forall|i: int|
            0 <= i < split(s, ',').len() ==> #[trigger] split(normalized(s), ',')[i] == normalized(
                split(s, ',')[i],
            ),
    decreases s.len(),
{
    lemma_normalized_run_before(s);
    lemma_run_before_bounds(s, ',');
    let n = run_before(s, ',');
    if 0 <= n < s.len() {
        let rest = s.skip(n + 1);
        lemma_normalized_split(rest);
        assert(normalized(s).take(n) =~= normalized(s.take(n)));
        assert(normalized(s).skip(n + 1) =~= normalized(rest));
        assert forall|i: int| 0 <= i < split(s, ',').len() implies #[trigger] split(
            normalized(s),
            ',',
        )[i] == normalized(split(s, ',')[i]) by {
            if i > 0 {
                assert(split(s, ',')[i] == split(rest, ',')[i - 1]);
                assert(split(normalized(s), ',')[i] == split(normalized(rest), ',')[i - 1]);
            }
        }
    }
}

/// Trimming and normalizing can be done in either order.
proof fn lemma_normalized_trim(s: Seq<char>)
    ensures
        trim(normalized(s)) == normalized(trim(s)),
{
    lemma_normalized_trim_start(s);
    lemma_normalized_trim_end(trim_start(s));
}

proof fn lemma_normalized_trim_start(s: Seq<char>)
    ensures
        trim_start(normalized(s)) == normalized(trim_start(s)),
    decreases s.len(),
{
    if s.len() > 0 && is_white_space(s[0]) {
        assert(normalized(s)[0] == s[0]);
        assert(normalized(s).skip(1) =~= normalized(s.skip(1)));
        lemma_normalized_trim_start(s.skip(1));
    } else if s.len() > 0 {
        assert(!is_white_space(normalized(s)[0]));
    }
}

proof fn lemma_normalized_trim_end(s: Seq<char>)
    ensures
        trim_end(normalized(s)) == normalized(trim_end(s)),
    decreases s.len(),
{
    if s.len() > 0 && is_white_space(s.last()) {
        assert(normalized(s).last() == s.last());
        assert(normalized(s).drop_last() =~= normalized(s.drop_last()));
        lemma_normalized_trim_end(s.drop_last());
    } else if s.len() > 0 {
        assert(!is_white_space(normalized(s).last()));
    }
}

/// The tokens of a list are those of the list with every dash written as an
/// underscore.
pub proof fn lemma_tokens_of_normalized(input: Seq<char>)
    ensures
        status_tokens(normalized(input)) == status_tokens(input),
{
    lemma_normalized_split(input);
    let plain = split(input, ',');
    let under = split(normalized(input), ',');
    assert forall|i: int| 0 <= i < plain.len() implies normalized(trim(under[i])) == normalized(
        trim(plain[i]),
    ) by {
        assert(under[i] == normalized(plain[i]));
        lemma_normalized_trim(plain[i]);
        assert(normalized(normalized(trim(plain[i]))) =~= normalized(trim(plain[i])));
    }
    assert(status_tokens(normalized(input)) =~= status_tokens(input));
}

/// Dashes and underscores are interchangeable: two comma lists that differ
/// only in which of the two they use are read alike, accepted with the same
/// tokens or refused with the same token.
pub proof fn law_separator_style_is_irrelevant(a: Seq<char>, b: Seq<char>)
    requires
        normalized(a) == normalized(b),
    ensures
        parsed_statuses(a) == parsed_statuses(b),
{
    lemma_tokens_of_normalized(a);
    lemma_tokens_of_normalized(b);
}

/// Normalizing is idempotent: a normalized token is its own normalized form.
pub proof fn law_normalizing_is_idempotent(token: Seq<char>)
    ensures
        normalized(normalized(token)) == normalized(token),
{
    assert(normalized(normalized(token)) =~= normalized(token));
}

/// A comma list is read by its tokens alone: two lists whose pieces, taken
/// one by one, trim and normalize to the same tokens are read alike, however
/// the pieces are padded with white space and whichever of dash and
/// underscore they use.
pub proof fn law_tokens_decide(a: Seq<Seq<char>>, b: Seq<Seq<char>>)
    requires
        a.len() == b.len(),
        a.len() > 0,
        forall|i: int, j: int| 0 <= i < a.len() && 0 <= j < a[i].len() ==> a[i][j] != ',',
        forall|i: int, j: int| 0 <= i < b.len() && 0 <= j < b[i].len() ==> b[i][j] != ',',
        forall|i: int| 0 <= i < a.len() ==> normalized(trim(a[i])) == normalized(trim(b[i])),
    ensures
        parsed_statuses(join(a, seq![','])) == parsed_statuses(join(b, seq![','])),
{
    lemma_split_join(a, ',');
    lemma_split_join(b, ',');
    assert(status_tokens(join(a, seq![','])) =~= status_tokens(join(b, seq![','])));
}

/// Reading is idempotent: the tokens of an accepted list, written out again
/// with commas between them, are accepted as the same list.
pub proof fn law_accepted_list_is_stable(input: Seq<char>, statuses: Seq<Seq<char>>)
    requires
        parsed_statuses(input) == Ok::<Seq<Seq<char>>, Seq<char>>(statuses),
    ensures
        parsed_statuses(join(statuses, seq![','])) == Ok::<Seq<Seq<char>>, Seq<char>>(statuses),
{
    let tokens = status_tokens(input);
    lemma_known_prefix_bounds(tokens);
    assert(tokens == statuses);
    lemma_run_before_bounds(input, ',');
    assert(statuses.len() > 0);
    assert forall|i: int, j: int|
        0 <= i < statuses.len() && 0 <= j < statuses[i].len() implies statuses[i][j] != ',' by {
        lemma_status_is_plain(statuses[i]);
    }
    lemma_split_join(statuses, ',');
    let again = status_tokens(join(statuses, seq![',']));
    assert forall|i: int| 0 <= i < statuses.len() implies again[i] == statuses[i] by {
        lemma_status_is_plain(statuses[i]);
        lemma_plain_token_is_fixed(statuses[i]);
    }
    assert(again =~= statuses);
    lemma_known_prefix(again, again.len() as int);
}

/// A single status is accepted as the list of itself.
pub proof fn law_status_is_accepted(token: Seq<char>)
    requires
        is_status(token),
    ensures
        parsed_statuses(token) == Ok::<Seq<Seq<char>>, Seq<char>>(seq![token]),
        normalized(token) == token,
{
    lemma_status_is_plain(token);
    lemma_plain_token_is_fixed(token);
    lemma_run_before(token, ',', token.len() as int);
    assert(split(token, ',') =~= seq![token]);
    assert(status_tokens(token) =~= seq![token]);
    lemma_known_prefix(seq![token], 1);
    assert(normalized(token) =~= token);
}

/// An accepted list holds statuses only; a refused one is refused with a
/// token that is no status.
pub proof fn law_accepted_tokens_are_statuses(input: Seq<char>)
    ensures
        match parsed_statuses(input) {
            Ok(statuses) => forall|i: int| 0 <= i < statuses.len() ==> is_status(statuses[i]),
            Err(token) => !is_status(token),
        },
{
    lemma_known_prefix_bounds(status_tokens(input));
}

/// The statuses of runs that are still under way.
pub fn runtime_statuses() -> (words: Vec<&'static str>)
    ensures
        words_view(words@) == runtime_vocabulary(),
{
    let words = vec!["queued", "in_progress", "requested", "waiting", "pending"];
    assert(words_view(words@) =~= runtime_vocabulary());
    words
}

/// The statuses that tell how a finished run ended.
pub fn conclusion_statuses() -> (words: Vec<&'static str>)
    ensures
        words_view(words@) == conclusion_vocabulary(),
{
    let words = vec![
        "success",
        "failure",
        "cancelled",
        "skipped",
        "neutral",
        "stale",
        "timed_out",
        "action_required",
    ];
    assert(words_view(words@) =~= conclusion_vocabulary());
    words
}

/// Whether `chars` spells one of `words`.
fn spells_one_of(chars: &[char], words: &Vec<&'static str>) -> (found: bool)
    ensures
        found == words_view(words@).contains(chars@),
{
    let mut i: usize = 0;
    while i < words.len()
        invariant
            i <= words.len(),
            forall|j: int| 0 <= j < i ==> words_view(words@)[j] != chars@,
        decreases words.len() - i,
    {
        if spells(chars, words[i]) {
            assert(words_view(words@)[i as int] == chars@);
            return true;
        }
        i += 1;
    }
    false
}

/// Whether `chars` spells a status of the vocabulary.
fn spells_status(chars: &[char]) -> (valid: bool)
    ensures
        valid == is_status(chars@),
{
    spells(chars, "completed") || spells_one_of(chars, &runtime_statuses()) || spells_one_of(
        chars,
        &conclusion_statuses(),
    )
}

/// The characters of `chars` with an underscore in place of every dash.
fn normalized_chars(chars: &[char]) -> (out: Vec<char>)
    ensures
        out@ == normalized(chars@),
{
    let mut out: Vec<char> = Vec::new();
    let mut i: usize = 0;
    while i < chars.len()
        invariant
            i <= chars.len(),
            out@ == normalized(chars@).take(i as int),
        decreases chars.len() - i,
    {
        let c = chars[i];
        out.push(if c == '-' { '_' } else { c });
        assert(out@ =~= normalized(chars@).take(i + 1));
        i += 1;
    }
    assert(normalized(chars@).take(chars.len() as int) =~= normalized(chars@));
    out
}

/// The status with an underscore in place of every dash.
pub fn normalize_status(status: &str) -> (out: String)
    ensures
        out@ == normalized(status@),
{
    let chars = chars_of(status);
    let out = normalized_chars(chars.as_slice());
    string_of(out.as_slice())
}

/// Whether `status` is a status of the vocabulary, letter for letter.
pub fn is_valid_status(status: &str) -> (valid: bool)
    ensures
        valid == is_status(status@),
{
    let chars = chars_of(status);
    spells_status(chars.as_slice())
}

/// Reads a comma list of statuses. Each piece between commas is trimmed and
/// normalized; the list is accepted where every token is a status, and
/// refused with the first token that is none. Tokens are kept in order, and
/// one that occurs twice is kept twice.
pub fn parse_and_validate_statuses(input: &str) -> (parsed: Result<Vec<String>, PurgeError>)
    ensures
        match parsed {
            Ok(statuses) => parsed_statuses(input@) == Ok::<Seq<Seq<char>>, Seq<char>>(
                strings_view(statuses@),
            ),
            Err(error) => error matches PurgeError::InvalidStatus { token } && parsed_statuses(
                input@,
            ) == Err::<Seq<Seq<char>>, Seq<char>>(token@),
        },
{
    let chars = chars_of(input);
    let pieces = split_on(chars.as_slice(), ',');
    let ghost tokens = status_tokens(input@);
    let mut statuses: Vec<String> = Vec::new();
    let mut i: usize = 0;
    while i < pieces.len()
        invariant
            i <= pieces.len(),
            pieces_view(pieces@) == split(input@, ','),
            tokens == status_tokens(input@),
            statuses.len() == i,
            forall|j: int| 0 <= j < i ==> statuses@[j]@ == tokens[j] && is_status(tokens[j]),
        decreases pieces.len() - i,
    {
        let piece = pieces[i].as_slice();
        assert(piece@ == pieces_view(pieces@)[i as int]);
        let (from, to) = trim_bounds(piece);
        let token = normalized_chars(vstd::slice::slice_subrange(piece, from, to));
        assert(token@ == tokens[i as int]);
        if !spells_status(token.as_slice()) {
            proof {
                lemma_known_prefix(tokens, i as int);
            }
            return Err(PurgeError::InvalidStatus { token: string_of(token.as_slice()) });
        }
        statuses.push(string_of(token.as_slice()));
        i += 1;
    }
    proof {
        lemma_known_prefix(tokens, tokens.len() as int);
        assert(strings_view(statuses@) =~= tokens);
    }
    Ok(statuses)
}

} // verus!
