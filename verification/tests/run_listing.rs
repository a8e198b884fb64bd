use gh_jobs_purge::runs::{insert_id, parse_id};
use gh_jobs_purge::{
    fetch_completed_runs, fetch_runs_with_statuses, next_query, parse_run_ids, PurgeError,
    QueryReply, StatusQuery,
};

fn id_of(line: &str) -> Option<i64> {
    let chars: Vec<char> = line.chars().collect();
    parse_id(&chars)
}

fn listed(status: &str, output: &str) -> StatusQuery {
    StatusQuery {
        status: String::from(status),
        reply: QueryReply::Listed { output: String::from(output) },
    }
}

fn failed(status: &str, cause: &str) -> StatusQuery {
    StatusQuery {
        status: String::from(status),
        reply: QueryReply::Failed { cause: String::from(cause) },
    }
}

const LINES: [&str; 40] = [
    "",
    "0",
    "7",
    "-0",
    "+0",
    "+5",
    "-5",
    "+",
    "-",
    "+-5",
    "--5",
    "5-",
    "12345",
    "0012345",
    "000000000000000000000000000012",
    "-000000000000000000000000000012",
    "9223372036854775807",
    "9223372036854775808",
    "-9223372036854775808",
    "-9223372036854775809",
    "+9223372036854775807",
    "+9223372036854775808",
    "18446744073709551616",
    "99999999999999999999999999999999999999999",
    "-99999999999999999999999999999999999999999",
    "1a",
    "a1",
    "12 ",
    " 12",
    "1 2",
    "1_000",
    "1,000",
    "1.0",
    "1e3",
    "0x10",
    "\u{ff11}\u{ff12}",
    "\u{661}\u{662}",
    "12\r",
    "\t12",
    "922337203685477580a",
];

#[test]
fn line_is_read_as_a_signed_decimal() {
    for line in LINES {
        assert_eq!(id_of(line), line.parse::<i64>().ok(), "line {:?}", line);
    }
}

#[test]
fn line_values_are_exact() {
    assert_eq!(id_of("12345"), Some(12345));
    assert_eq!(id_of("-67890"), Some(-67890));
    assert_eq!(id_of("+42"), Some(42));
    assert_eq!(id_of("007"), Some(7));
    assert_eq!(id_of("9223372036854775807"), Some(i64::MAX));
    assert_eq!(id_of("-9223372036854775808"), Some(i64::MIN));
    assert_eq!(id_of("9223372036854775808"), None);
    assert_eq!(id_of("-9223372036854775809"), None);
    assert_eq!(id_of(""), None);
    assert_eq!(id_of("abc"), None);
}

#[test]
fn blank_and_non_numeric_lines_are_passed_over_in_order() {
    assert_eq!(parse_run_ids("12345\n\nabc\n67890\n").unwrap(), vec![12345, 67890]);
}

#[test]
fn listing_is_read_line_by_line() {
    let listings = [
        "",
        "\n",
        "\n\n\n",
        "1",
        "1\n",
        "1\n2",
        "1\n2\n",
        "1\r\n2\r\n",
        "1\r\n2",
        "1\r",
        "1\r\r\n2\n",
        "\r\n1\r\n",
        "1\n\r2\n",
        "3\n1\n2\n1\n3\n",
        "  \n 1\n1 \n44\n",
        "-5\n+6\n-\n+\n7",
        "9223372036854775807\n9223372036854775808\n-9223372036854775808\n",
        "a\nb\nc",
        "12\u{2028}13\n14\u{85}\n15\n",
    ];
    for listing in listings {
        let expected: Vec<i64> = listing
            .lines()
            .filter(|line| !line.is_empty())
            .filter_map(|line| line.parse().ok())
            .collect();
        assert_eq!(parse_run_ids(listing).unwrap(), expected, "listing {:?}", listing);
    }
}

#[test]
fn listing_values_are_exact() {
    assert_eq!(parse_run_ids("1\r\n2\r\n").unwrap(), vec![1, 2]);
    assert_eq!(parse_run_ids("1\r").unwrap(), Vec::<i64>::new());
    assert_eq!(parse_run_ids("5\n4\n5").unwrap(), vec![5, 4, 5]);
    assert_eq!(parse_run_ids("7").unwrap(), vec![7]);
    assert_eq!(parse_run_ids("\n").unwrap(), Vec::<i64>::new());
}

#[test]
fn insert_keeps_the_ids_increasing_and_each_once() {
    let mut ids: Vec<i64> = Vec::new();
    for id in [5, 1, 9, 5, -3, 1, i64::MAX, i64::MIN, 0, 9] {
        insert_id(&mut ids, id);
    }
    assert_eq!(ids, vec![i64::MIN, -3, 0, 1, 5, 9, i64::MAX]);
}

#[test]
fn fetch_gathers_the_ids_of_all_listings_as_a_set() {
    let queries = vec![
        listed("success", "30\n10\n20\n"),
        listed("failure", "20\n5\nnot a run\n\n40\n"),
        listed("cancelled", ""),
    ];
    assert_eq!(fetch_runs_with_statuses(&queries), Ok(vec![5, 10, 20, 30, 40]));
}

#[test]
fn fetch_drops_ids_that_come_twice() {
    let queries = vec![listed("success", "1\n1\n1\n"), listed("success", "1\n")];
    assert_eq!(fetch_runs_with_statuses(&queries), Ok(vec![1]));
}

#[test]
fn fetch_of_nothing_is_empty() {
    assert_eq!(fetch_runs_with_statuses(&[]), Ok(vec![]));
    assert_eq!(fetch_runs_with_statuses(&[listed("completed", "")]), Ok(vec![]));
    assert_eq!(fetch_runs_with_statuses(&[listed("completed", "none\n\n")]), Ok(vec![]));
}

#[test]
fn fetch_fails_with_the_first_failed_query_and_drops_the_rest() {
    let queries = vec![
        listed("success", "1\n2\n"),
        failed("failure", "HTTP 502"),
        listed("cancelled", "3\n"),
        failed("stale", "HTTP 503"),
    ];
    assert_eq!(
        fetch_runs_with_statuses(&queries),
        Err(PurgeError::QueryFailed {
            status: String::from("failure"),
            cause: String::from("HTTP 502"),
        })
    );
}

#[test]
fn fetch_fails_when_the_only_query_failed() {
    let error = fetch_runs_with_statuses(&[failed("queued", "timeout")]).unwrap_err();
    assert_eq!(error.message(), "gh run list failed for status 'queued': timeout");
}

#[test]
fn fetch_takes_a_full_page() {
    let mut output = String::new();
    for id in (1..=300).rev() {
        output.push_str(&format!("{}\n", id));
    }
    let ids = fetch_runs_with_statuses(&[listed("completed", &output)]).unwrap();
    assert_eq!(ids, (1..=300).collect::<Vec<i64>>());
}

#[test]
fn fetch_of_completed_runs_reads_the_one_listing() {
    let reply = QueryReply::Listed { output: String::from("9\n8\n9\nx\n") };
    assert_eq!(fetch_completed_runs(reply), Ok(vec![8, 9]));
}

#[test]
fn fetch_of_completed_runs_fails_for_that_status() {
    let reply = QueryReply::Failed { cause: String::from("boom") };
    assert_eq!(
        fetch_completed_runs(reply),
        Err(PurgeError::QueryFailed {
            status: String::from("completed"),
            cause: String::from("boom"),
        })
    );
}

fn filter(statuses: &[&str]) -> Vec<String> {
    statuses.iter().map(|status| String::from(*status)).collect()
}

#[test]
fn cycle_starts_with_the_first_status() {
    assert_eq!(next_query(&filter(&["success"]), &[]), Some(0));
    assert_eq!(next_query(&filter(&["success", "failure", "stale"]), &[]), Some(0));
}

#[test]
fn cycle_over_an_empty_filter_asks_nothing() {
    assert_eq!(next_query(&[], &[]), None);
    assert_eq!(next_query(&[], &[listed("success", "1\n")]), None);
}

#[test]
fn cycle_asks_for_the_statuses_one_by_one() {
    let statuses = filter(&["success", "failure", "stale"]);
    let mut replies = Vec::new();
    for expected in 0..3 {
        assert_eq!(next_query(&statuses, &replies), Some(expected));
        replies.push(listed(&statuses[expected], "1\n"));
    }
    assert_eq!(next_query(&statuses, &replies), None);
    replies.push(listed("success", "2\n"));
    assert_eq!(next_query(&statuses, &replies), None);
}

#[test]
fn cycle_stops_asking_at_the_first_failure() {
    let statuses = filter(&["success", "failure", "stale", "queued"]);
    assert_eq!(next_query(&statuses, &[failed("success", "HTTP 502")]), None);
    let replies = vec![listed("success", ""), failed("failure", "HTTP 502")];
    assert_eq!(next_query(&statuses, &replies), None);
    let replies =
        vec![failed("success", "HTTP 502"), listed("failure", ""), listed("stale", "")];
    assert_eq!(next_query(&statuses, &replies), None);
}

#[test]
fn cycle_driven_by_its_queries_gathers_every_status() {
    let statuses = filter(&["success", "failure", "cancelled"]);
    let outputs = ["3\n1\n", "2\n3\n", ""];
    let mut replies = Vec::new();
    while let Some(index) = next_query(&statuses, &replies) {
        replies.push(listed(&statuses[index], outputs[index]));
    }
    assert_eq!(replies.len(), 3);
    assert_eq!(fetch_runs_with_statuses(&replies), Ok(vec![1, 2, 3]));
}

#[test]
fn cycle_driven_by_its_queries_fails_at_the_failed_status() {
    let statuses = filter(&["success", "failure", "cancelled"]);
    let mut replies = Vec::new();
    while let Some(index) = next_query(&statuses, &replies) {
        if index == 1 {
            replies.push(failed(&statuses[index], "HTTP 502"));
        } else {
            replies.push(listed(&statuses[index], "7\n"));
        }
    }
    assert_eq!(replies.len(), 2);
    assert_eq!(
        fetch_runs_with_statuses(&replies),
        Err(PurgeError::QueryFailed {
            status: String::from("failure"),
            cause: String::from("HTTP 502"),
        })
    );
}
