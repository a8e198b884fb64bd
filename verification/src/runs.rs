//! The run lister: reading run ids out of listings and gathering those of a
//! fetch cycle into one set.

use vstd::prelude::*;
use crate::error::PurgeError;
use crate::text::{chars_of, lemma_run_before, run_before};

verus! {

/// Whether `c` is one of the ten decimal digits.
pub open spec fn is_digit(c: char) -> bool {
    '0' <= c <= '9'
}

/// Whether `s` is made of decimal digits only.
pub open spec fn all_digits(s: Seq<char>) -> bool {
    forall|i: int| 0 <= i < s.len() ==> is_digit(#[trigger] s[i])
}

/// The number that a run of decimal digits writes.
pub open spec fn digits_value(digits: Seq<char>) -> int
    decreases digits.len(),
{
    if digits.len() == 0 {
        0
    } else {
        10 * digits_value(digits.drop_last()) + (digits.last() as int - '0' as int)
    }
}

/// The id that a line writes: an optional sign, `+` or `-`, and then one or
/// more decimal digits and nothing else, for a number within the 64-bit
/// signed range. Any other line writes none.
pub open spec fn parsed_id(line: Seq<char>) -> Option<i64> {
    let negative = line.len() > 0 && line[0] == '-';
    let signed = line.len() > 0 && (line[0] == '-' || line[0] == '+');
    let digits = if signed { line.skip(1) } else { line };
    let value = if negative { -digits_value(digits) } else { digits_value(digits) };
    if digits.len() > 0 && all_digits(digits) && i64::MIN <= value <= i64::MAX {
        Some(value as i64)
    } else {
        None
    }
}

/// `line` without the carriage return it may end with.
pub open spec fn without_return(line: Seq<char>) -> Seq<char> {
    if line.len() > 0 && line.last() == '\r' {
        line.drop_last()
    } else {
        line
    }
}

/// The lines of `text`. A line ends with a line feed, or with a carriage
/// return and a line feed, neither of which belongs to it; what follows the
/// last line feed is a line too, unless it is empty.
pub open spec fn lines(text: Seq<char>) -> Seq<Seq<char>>
    decreases text.len(),
{
    if text.len() == 0 {
        Seq::empty()
    } else {
        let n = run_before(text, '\n');
        if 0 <= n < text.len() {
            seq![without_return(text.take(n))] + lines(text.skip(n + 1))
        } else {
            seq![text]
        }
    }
}

/// The ids that the lines write, in the order of the lines. A line that
/// writes no id, a blank one among them, is passed over.
pub open spec fn ids_in(lines: Seq<Seq<char>>) -> Seq<i64>
    decreases lines.len(),
{
    if lines.len() == 0 {
        Seq::empty()
    } else {
        match parsed_id(lines[0]) {
            Some(id) => seq![id] + ids_in(lines.skip(1)),
            None => ids_in(lines.skip(1)),
        }
    }
}

/// The ids that a listing holds.
pub open spec fn listed_ids(listing: Seq<char>) -> Seq<i64> {
    ids_in(lines(listing))
}

/// Whether each id is smaller than the ones after it.
pub open spec fn strictly_increasing(ids: Seq<i64>) -> bool {
    forall|i: int, j: int| 0 <= i < j < ids.len() ==> ids[i] < ids[j]
}

/// A run of digits writes no negative number.
proof fn lemma_digits_value_bounds(digits: Seq<char>)
    requires
        all_digits(digits),
    ensures
        0 <= digits_value(digits),
    decreases digits.len(),
{
    if digits.len() > 0 {
        assert(is_digit(digits[digits.len() - 1]));
        lemma_digits_value_bounds(digits.drop_last());
    }
}

/// The number written never shrinks as digits are added at the end.
proof fn lemma_digits_value_grows(digits: Seq<char>, k: int)
    requires
        all_digits(digits),
        0 <= k <= digits.len(),
    ensures
        digits_value(digits.take(k)) <= digits_value(digits),
    decreases digits.len() - k,
{
    if k < digits.len() {
        let shorter = digits.drop_last();
        assert(is_digit(digits[digits.len() - 1]));
        lemma_digits_value_grows(shorter, k);
        lemma_digits_value_bounds(shorter);
        assert(shorter.take(k) =~= digits.take(k));
    } else {
        assert(digits.take(k) =~= digits);
    }
}

/// The ids of some lines and then some more are those of the first and then
/// those of the second.
proof fn lemma_ids_in_first(line: Seq<char>, rest: Seq<Seq<char>>)
    ensures
        ids_in(seq![line] + rest) == match parsed_id(line) {
            Some(id) => seq![id] + ids_in(rest),
            None => ids_in(rest),
        },
{
    let all = seq![line] + rest;
    assert(all[0] == line);
    assert(all.skip(1) =~= rest);
}

/// The id that `line` writes, if it writes one.
pub fn parse_id(line: &[char]) -> (id: Option<i64>)
    ensures
        id == parsed_id(line@),
{
    if line.len() == 0 {
        return None;
    }
    let negative = line[0] == '-';
    let start: usize = if negative || line[0] == '+' { 1 } else { 0 };
    if start == line.len() {
        return None;
    }
    let ghost digits = if start == 1 { line@.skip(1) } else { line@ };
    let limit: u64 = if negative { 0x8000_0000_0000_0000 } else { 0x7fff_ffff_ffff_ffff };
    let mut magnitude: u64 = 0;
    let mut i: usize = start;
    assert(digits.take(0) =~= Seq::<char>::empty());
    while i < line.len()
        invariant
            start <= i <= line.len(),
            digits == (if start == 1 { line@.skip(1) } else { line@ }),
            digits.len() == line.len() - start,
            start <= 1,
            line.len() > 0,
            negative == (line@[0] == '-'),
            (start == 1) == (line@[0] == '-' || line@[0] == '+'),
            limit == (if negative { 0x8000_0000_0000_0000u64 } else { 0x7fff_ffff_ffff_ffffu64 }),
            all_digits(digits.take(i - start)),
            magnitude == digits_value(digits.take(i - start)),
            magnitude <= limit,
        decreases line.len() - i,
    {
        let c = line[i];
        assert(c == digits[i - start]);
        if c < '0' || c > '9' {
            assert(!is_digit(digits[i - start]));
            return None;
        }
        let code: u32 = c as u32;
        let ghost longer = digits.take(i - start + 1);
        proof {
            assert(longer.drop_last() =~= digits.take(i - start));
            assert(longer.last() == c);
            assert forall|j: int| 0 <= j < longer.len() implies is_digit(#[trigger] longer[j]) by {
                if j < i - start {
                    assert(digits.take(i - start)[j] == longer[j]);
                } else {
                    assert(longer[j] == c);
                }
            }
        }
        let next: u128 = magnitude as u128 * 10 + (code - 48) as u128;
        assert(next == digits_value(longer));
        if next > limit as u128 {
            proof {
                if all_digits(digits) {
                    lemma_digits_value_grows(digits, i - start + 1);
                }
            }
            return None;
        }
        magnitude = next as u64;
        i += 1;
    }
    assert(digits.take(i - start) =~= digits);
    if negative {
        if magnitude == 0x8000_0000_0000_0000 {
            Some(i64::MIN)
        } else {
            Some(-(magnitude as i64))
        }
    } else {
        Some(magnitude as i64)
    }
}

/// Reads the ids out of a listing that holds one id to a line. Lines that
/// write no id, blank ones among them, are passed over; the ids come in the
/// order of their lines. No listing is refused.
pub fn parse_run_ids(output: &str) -> (parsed: Result<Vec<i64>, PurgeError>)
    ensures
        parsed matches Ok(ids) && ids@ == listed_ids(output@),
{
    let chars = chars_of(output);
    let text = chars.as_slice();
    let mut ids: Vec<i64> = Vec::new();
    let mut start: usize = 0;
    let mut i: usize = 0;
    proof {
        assert(text@.skip(0) =~= text@);
        assert(ids@ + listed_ids(text@) =~= listed_ids(text@));
    }
    while i < text.len()
        invariant
            start <= i <= text.len(),
            text@ == output@,
            forall|j: int| start <= j < i ==> text@[j] != '\n',
            listed_ids(output@) == ids@ + listed_ids(text@.skip(start as int)),
        decreases text.len() - i,
    {
        if text[i] == '\n' {
            let end: usize = if start < i && text[i - 1] == '\r' { i - 1 } else { i };
            let line = vstd::slice::slice_subrange(text, start, end);
            let id = parse_id(line);
            proof {
                let rest = text@.skip(start as int);
                assert forall|j: int| 0 <= j < i - start implies rest[j] != '\n' by {
                    assert(rest[j] == text@[start + j]);
                }
                assert(rest[i - start] == text@[i as int]);
                lemma_run_before(rest, '\n', i - start);
                let whole = rest.take(i - start);
                if start < i {
                    assert(whole.last() == text@[i - 1]);
                }
                assert(without_return(whole) =~= line@);
                assert(rest.skip(i - start + 1) =~= text@.skip(i + 1));
                lemma_ids_in_first(line@, lines(text@.skip(i + 1)));
            }
            let ghost before = ids@;
            match id {
                Some(id) => {
                    ids.push(id);
                    assert(ids@ + listed_ids(text@.skip(i + 1)) =~= before + (seq![id] + listed_ids(
                        text@.skip(i + 1),
                    )));
                },
                None => {},
            }
            start = i + 1;
        }
        i += 1;
    }
    if start < text.len() {
        let line = vstd::slice::slice_subrange(text, start, text.len());
        let id = parse_id(line);
        proof {
            let rest = text@.skip(start as int);
            assert forall|j: int| 0 <= j < rest.len() implies rest[j] != '\n' by {
                assert(rest[j] == text@[start + j]);
            }
            lemma_run_before(rest, '\n', rest.len() as int);
            assert(rest =~= line@);
            assert(lines(rest) =~= seq![rest] + Seq::<Seq<char>>::empty());
            lemma_ids_in_first(rest, Seq::<Seq<char>>::empty());
        }
        let ghost before = ids@;
        match id {
            Some(id) => {
                ids.push(id);
                assert(ids@ =~= before + (seq![id] + Seq::<i64>::empty()));
            },
            None => {
                assert(ids@ =~= before + Seq::<i64>::empty());
            },
        }
    } else {
        assert(ids@ + Seq::<i64>::empty() =~= ids@);
    }
    Ok(ids)
}

/// What came back when the runs with one status were asked for.
#[derive(Debug, Clone, PartialEq, Eq)]
pub enum QueryReply {
    /// The listing, one run id to a line.
    Listed { output: String },
    /// The query failed, for the cause given.
    Failed { cause: String },
}

/// A status of the filter and the reply to the query for it.
#[derive(Debug, Clone, PartialEq, Eq)]
pub struct StatusQuery {
    pub status: String,
    pub reply: QueryReply,
}

/// The number of queries that were answered with a listing before the first
/// that failed.
pub open spec fn listed_prefix(queries: Seq<StatusQuery>) -> int
    decreases queries.len(),
{
    if queries.len() == 0 || queries[0].reply is Failed {
        0
    } else {
        1 + listed_prefix(queries.skip(1))
    }
}

/// The ids that a reply holds: those of its listing, and none where the
/// query failed.
pub open spec fn reply_ids(reply: QueryReply) -> Seq<i64> {
    match reply {
        QueryReply::Listed { output } => listed_ids(output@),
        QueryReply::Failed { .. } => Seq::empty(),
    }
}

/// Whether `id` stands in the reply to query `k`.
pub open spec fn listed_by(queries: Seq<StatusQuery>, k: int, id: i64) -> bool {
    0 <= k < queries.len() && reply_ids(queries[k].reply).contains(id)
}

/// Whether `id` stands in the reply to one of the queries.
pub open spec fn is_listed(queries: Seq<StatusQuery>, id: i64) -> bool {
    exists|k: int| listed_by(queries, k, id)
}

/// `listed_prefix` is the index of the first query that failed.
proof fn lemma_listed_prefix(queries: Seq<StatusQuery>, k: int)
    requires
        0 <= k <= queries.len(),
        forall|j: int| 0 <= j < k ==> (#[trigger] queries[j]).reply is Listed,
        k == queries.len() || queries[k].reply is Failed,
    ensures
        listed_prefix(queries) == k,
    decreases k,
{
    if k > 0 {
        let rest = queries.skip(1);
        assert forall|j: int| 0 <= j < k - 1 implies (#[trigger] rest[j]).reply is Listed by {
            assert(rest[j] == queries[j + 1]);
        }
        lemma_listed_prefix(rest, k - 1);
    }
}

/// A sequence with one more id at its end holds what it held, and that id.
proof fn lemma_contains_push(ids: Seq<i64>, last: i64, id: i64)
    ensures
        ids.push(last).contains(id) <==> (ids.contains(id) || id == last),
{
    let longer = ids.push(last);
    if ids.contains(id) {
        let m = choose|m: int| 0 <= m < ids.len() && ids[m] == id;
        assert(longer[m] == id);
    }
    if id == last {
        assert(longer[ids.len() as int] == id);
    }
}

/// Puts `id` into a vector of increasing ids, at its place, unless it is
/// there already.
pub fn insert_id(ids: &mut Vec<i64>, id: i64)
    requires
        strictly_increasing(old(ids)@),
    ensures
        strictly_increasing(final(ids)@),
        forall|other: i64|
            #![trigger final(ids)@.contains(other)]
            #![trigger old(ids)@.contains(other)]
            final(ids)@.contains(other) <==> (old(ids)@.contains(other) || other == id),
{
    let mut low: usize = 0;
    let mut high: usize = ids.len();
    while low < high
        invariant
            low <= high <= ids.len(),
            *ids == *old(ids),
            strictly_increasing(ids@),
            forall|j: int| 0 <= j < low ==> ids@[j] < id,
            forall|j: int| high <= j < ids.len() ==> id <= ids@[j],
        decreases high - low,
    {
        let middle: usize = low + (high - low) / 2;
        if ids[middle] < id {
            low = middle + 1;
        } else {
            high = middle;
        }
    }
    let ghost before = ids@;
    if low < ids.len() && ids[low] == id {
        assert forall|other: i64| ids@.contains(other) <==> (before.contains(other) || other
            == id) by {
            assert(before[low as int] == id);
        }
    } else {
        ids.insert(low, id);
        assert(ids@ == before.insert(low as int, id));
        assert forall|i: int, j: int| 0 <= i < j < ids@.len() implies ids@[i] < ids@[j] by {
            let a = if i < low { i } else { i - 1 };
            let b = if j < low { j } else { j - 1 };
            if i != low && j != low {
                assert(ids@[i] == before[a]);
                assert(ids@[j] == before[b]);
            } else if i == low {
                assert(ids@[j] == before[b]);
            } else {
                assert(ids@[i] == before[a]);
            }
        }
        assert forall|other: i64| ids@.contains(other) <==> (before.contains(other) || other
            == id) by {
            if ids@.contains(other) {
                let k = choose|k: int| 0 <= k < ids@.len() && ids@[k] == other;
                if k < low {
                    assert(before[k] == other);
                } else if k > low {
                    assert(before[k - 1] == other);
                }
            }
            if before.contains(other) {
                let k = choose|k: int| 0 <= k < before.len() && before[k] == other;
                if k < low {
                    assert(ids@[k] == other);
                } else {
                    assert(ids@[k + 1] == other);
                }
            }
            if other == id {
                assert(ids@[low as int] == id);
            }
        }
    }
}

/// The query that a fetch cycle makes next, as an index into the statuses of
/// the filter: the one after those that were answered, as long as every
/// answer so far is a listing and a status is left to ask for. `None` ends
/// the asking: either a query failed, or every status has its listing.
pub open spec fn query_due(statuses: Seq<String>, replies: Seq<StatusQuery>) -> Option<usize> {
    if replies.len() < statuses.len() && listed_prefix(replies) == replies.len() {
        Some(replies.len() as usize)
    } else {
        None
    }
}

/// Tells which status of the filter a fetch cycle asks for next, given the
/// replies to the queries made so far, in the order of the filter. The cycle
/// goes through the statuses one by one and stops asking at the first query
/// that failed; with no reply yet, it starts at the first status.
pub fn next_query(statuses: &[String], replies: &[StatusQuery]) -> (next: Option<usize>)
    ensures
        next == query_due(statuses@, replies@),
{
    let mut k: usize = 0;
    while k < replies.len()
        invariant
            k <= replies.len(),
            forall|j: int| 0 <= j < k ==> (#[trigger] replies@[j]).reply is Listed,
        decreases replies.len() - k,
    {
        match &replies[k].reply {
            QueryReply::Failed { .. } => {
                proof {
                    lemma_listed_prefix(replies@, k as int);
                }
                return None;
            },
            QueryReply::Listed { .. } => {},
        }
        k += 1;
    }
    proof {
        lemma_listed_prefix(replies@, replies.len() as int);
    }
    if replies.len() < statuses.len() {
        Some(replies.len())
    } else {
        None
    }
}

/// Gathers the runs of one fetch cycle from the replies to its queries, one
/// query for each status of the filter, in the order in which they were
/// made. If a query failed, the whole cycle fails with the first that did and
/// the ids of the others are dropped. Otherwise the ids of all listings come
/// back as a set: each once, in increasing order. An empty set is a result
/// like any other: nothing is left to purge.
pub fn fetch_runs_with_statuses(queries: &[StatusQuery]) -> (fetched: Result<Vec<i64>, PurgeError>)
    ensures
        match fetched {
            Ok(ids) => {
                &&& listed_prefix(queries@) == queries.len()
                &&& strictly_increasing(ids@)
                &&& forall|id: i64|
                    #![trigger ids@.contains(id)]
                    #![trigger is_listed(queries@, id)]
                    ids@.contains(id) <==> is_listed(queries@, id)
            },
            Err(error) => {
                let failed = listed_prefix(queries@);
                &&& 0 <= failed < queries.len()
                &&& queries@[failed].reply matches QueryReply::Failed { cause: why }
                &&& error matches PurgeError::QueryFailed { status, cause }
                &&& status@ == queries@[failed].status@
                &&& cause@ == why@
            },
        },
{
    let mut ids: Vec<i64> = Vec::new();
    let mut k: usize = 0;
    while k < queries.len()
        invariant
            k <= queries.len(),
            forall|j: int| 0 <= j < k ==> (#[trigger] queries@[j]).reply is Listed,
            strictly_increasing(ids@),
            forall|id: i64| ids@.contains(id) <==> is_listed(queries@.take(k as int), id),
        decreases queries.len() - k,
    {
        let query = &queries[k];
        match &query.reply {
            QueryReply::Failed { cause } => {
                proof {
                    lemma_listed_prefix(queries@, k as int);
                }
                return Err(
                    PurgeError::QueryFailed { status: query.status.clone(), cause: cause.clone() },
                );
            },
            QueryReply::Listed { output } => {
                let listed = match parse_run_ids(output.as_str()) {
                    Ok(listed) => listed,
                    Err(_) => Vec::new(),
                };
                let ghost before = ids@;
                let ghost sooner = queries@.take(k as int);
                let ghost later = queries@.take(k + 1);
                let mut n: usize = 0;
                assert(listed@.take(0) =~= Seq::<i64>::empty());
                while n < listed.len()
                    invariant
                        n <= listed.len(),
                        strictly_increasing(ids@),
                        forall|id: i64|
                            #![trigger ids@.contains(id)]
                            ids@.contains(id) <==> (before.contains(id) || listed@.take(
                                n as int,
                            ).contains(id)),
                    decreases listed.len() - n,
                {
                    let ghost so_far = ids@;
                    let next = listed[n];
                    insert_id(&mut ids, next);
                    assert forall|id: i64|
                        ids@.contains(id) <==> (before.contains(id) || listed@.take(
                            n + 1,
                        ).contains(id)) by {
                        let shorter = listed@.take(n as int);
                        assert(listed@.take(n + 1) =~= shorter.push(next));
                        lemma_contains_push(shorter, next, id);
                        assert(ids@.contains(id) <==> (so_far.contains(id) || id == next));
                        assert(so_far.contains(id) <==> (before.contains(id) || shorter.contains(id)));
                    }
                    n += 1;
                }
                proof {
                    assert(listed@.take(listed.len() as int) =~= listed@);
                    assert(later[k as int] == queries@[k as int]);
                    assert(reply_ids(later[k as int].reply) == listed@);
                    assert forall|id: i64| ids@.contains(id) <==> is_listed(later, id) by {
                        assert(before.contains(id) <==> is_listed(sooner, id));
                        if is_listed(sooner, id) {
                            let j = choose|j: int| listed_by(sooner, j, id);
                            assert(later[j] == sooner[j]);
                            assert(listed_by(later, j, id));
                        }
                        if listed@.contains(id) {
                            assert(listed_by(later, k as int, id));
                        }
                        if is_listed(later, id) {
                            let j = choose|j: int| listed_by(later, j, id);
                            if j < k {
                                assert(sooner[j] == later[j]);
                                assert(listed_by(sooner, j, id));
                            } else {
                                assert(j == k);
                            }
                        }
                    }
                }
            },
        }
        k += 1;
    }
    proof {
        lemma_listed_prefix(queries@, queries.len() as int);
        assert(queries@.take(queries.len() as int) =~= queries@);
    }
    Ok(ids)
}

/// Gathers the runs of a fetch cycle that asks for the finished runs only:
/// `reply` answers the one query, for the status `completed`.
pub fn fetch_completed_runs(reply: QueryReply) -> (fetched: Result<Vec<i64>, PurgeError>)
    ensures
        match (reply, fetched) {
            (QueryReply::Listed { output }, Ok(ids)) => {
                &&& strictly_increasing(ids@)
                &&& forall|id: i64|
                    #![trigger ids@.contains(id)]
                    #![trigger listed_ids(output@).contains(id)]
                    ids@.contains(id) <==> listed_ids(output@).contains(id)
            },
            (QueryReply::Failed { cause: why }, Err(PurgeError::QueryFailed { status, cause })) => {
                &&& status@ == "completed"@
                &&& cause@ == why@
            },
            _ => false,
        },
{
    let mut status = String::new();
    status.append("completed");
    let mut queries: Vec<StatusQuery> = Vec::new();
    queries.push(StatusQuery { status, reply });
    let fetched = fetch_runs_with_statuses(queries.as_slice());
    proof {
        let only = queries@[0];
        if only.reply is Listed {
            lemma_listed_prefix(queries@, 1);
        } else {
            lemma_listed_prefix(queries@, 0);
        }
        if fetched is Ok {
            let ids = fetched->Ok_0;
            assert forall|id: i64| ids@.contains(id) <==> listed_ids(
                only.reply->output@,
            ).contains(id) by {
                if is_listed(queries@, id) {
                    let j = choose|j: int| listed_by(queries@, j, id);
                    assert(j == 0);
                }
                if listed_ids(only.reply->output@).contains(id) {
                    assert(listed_by(queries@, 0, id));
                }
            }
        }
    }
    fetched
}

} // verus!
