use batcher::command::{parse_command, random_inputs, BatchCommand, CommandError, INPUT_COUNT};
use batcher::download::{download_target, file_name, finished_message, DownloadProgress, TargetError};
use batcher::number::{parse_i32, parse_usize};
use batcher::threaded_queue::Processor;
use batcher::tickets::{push_urls, tickets_from_rows, Ticket, TicketRow};

fn args(list: &[&str]) -> Vec<String> {
    list.iter().map(|s| s.to_string()).collect()
}

#[test]
fn parse_usize_cases() {
    assert_eq!(parse_usize("42"), Some(42));
    assert_eq!(parse_usize("+7"), Some(7));
    assert_eq!(parse_usize("007"), Some(7));
    assert_eq!(parse_usize(""), None);
    assert_eq!(parse_usize("+"), None);
    assert_eq!(parse_usize("-1"), None);
    assert_eq!(parse_usize("12a"), None);
    assert_eq!(parse_usize(&usize::MAX.to_string()), Some(usize::MAX));
    assert_eq!(parse_usize(&format!("{}0", usize::MAX)), None);
}

#[test]
fn parse_i32_cases() {
    assert_eq!(parse_i32("-2147483648"), Some(i32::MIN));
    assert_eq!(parse_i32("2147483647"), Some(i32::MAX));
    assert_eq!(parse_i32("2147483648"), None);
    assert_eq!(parse_i32("-2147483649"), None);
    assert_eq!(parse_i32("-"), None);
    assert_eq!(parse_i32("+12"), Some(12));
    assert_eq!(parse_i32("-0"), Some(0));
}

#[test]
fn command_prime_with_default_bound() {
    assert!(matches!(parse_command(&args(&["prime"])), Ok(BatchCommand::Prime { n: 10 })));
    assert!(matches!(parse_command(&args(&["prime", "97"])), Ok(BatchCommand::Prime { n: 97 })));
}

#[test]
fn command_primes_with_defaults() {
    assert!(matches!(
        parse_command(&args(&["primes"])),
        Ok(BatchCommand::Primes { threads: 7, lower: 1000, higher: 1000000 })
    ));
    assert!(matches!(
        parse_command(&args(&["primes", "-2", "5", "9"])),
        Ok(BatchCommand::Primes { threads: -2, lower: 5, higher: 9 })
    ));
}

#[test]
fn command_batch_and_errors() {
    assert!(matches!(parse_command(&args(&["batch"])), Ok(BatchCommand::Batch)));
    assert!(matches!(parse_command(&args(&[])), Err(CommandError::UnknownCommand)));
    assert!(matches!(parse_command(&args(&["other"])), Err(CommandError::UnknownCommand)));
    assert!(matches!(parse_command(&args(&["prime", "ten"])), Err(CommandError::InvalidNumber)));
    assert!(matches!(parse_command(&args(&["primes", "1", "x"])), Err(CommandError::InvalidNumber)));
}

#[test]
fn random_inputs_stay_in_range() {
    let values = random_inputs(5, 9);
    assert_eq!(values.len(), INPUT_COUNT);
    assert!(values.iter().all(|&v| (5..9).contains(&v)));
    let single = random_inputs(3, 4);
    assert!(single.iter().all(|&v| v == 3));
}

#[test]
fn processor_keeps_its_thread_count() {
    assert_eq!(Processor::new(4).thread_count(), 4);
    assert_eq!(Processor::new(-1).thread_count(), -1);
}

fn row(id: i64, uri: &str, auth: i64) -> TicketRow {
    TicketRow {
        id,
        date_created: "2023-01-01".to_string(),
        download_uri: uri.to_string(),
        ticket_token: "tok".to_string(),
        file_size: 10,
        requires_auth: auth,
        is_done: 0,
        file_name: "f".to_string(),
    }
}

#[test]
fn no_rows_is_error_zero() {
    assert!(matches!(tickets_from_rows(Vec::new()), Err(0)));
}

#[test]
fn rows_become_tickets() {
    let tickets: Vec<Ticket> =
        tickets_from_rows(vec![row(1, "http://a/x", 1), row(2, "http://b/y", 2)]).unwrap();
    assert_eq!(tickets.len(), 2);
    assert!(tickets[0].requires_auth);
    assert!(!tickets[1].requires_auth);
    assert_eq!(tickets[1].uri, "http://b/y");
    let mut urls = vec!["first".to_string()];
    push_urls(&mut urls, &tickets);
    assert_eq!(urls, vec!["first", "http://a/x", "http://b/y"]);
}

#[test]
fn file_names_of_paths() {
    assert_eq!(file_name("/a/b.txt").as_deref(), Some("b.txt"));
    assert_eq!(file_name("/a/b/").as_deref(), Some("b"));
    assert_eq!(file_name("/a/b/.").as_deref(), Some("b"));
    assert_eq!(file_name("/a/./b").as_deref(), Some("b"));
    assert_eq!(file_name("x").as_deref(), Some("x"));
    assert_eq!(file_name("/a/.."), None);
    assert_eq!(file_name("/"), None);
    assert_eq!(file_name(""), None);
    assert_eq!(file_name("."), None);
    for p in ["/a/b.txt", "/a/b/", "/a/b/.", "/a/./b", "x", "/a/..", "/", "", ".", "./c//"] {
        let expected = std::path::Path::new(p).file_name().map(|s| s.to_string_lossy().into_owned());
        assert_eq!(file_name(p), expected, "path {p}");
    }
}

#[test]
fn download_targets() {
    assert_eq!(
        download_target("https://example.com/files/report.pdf?x=1").ok().as_deref(),
        Some("./downloads/report.pdf")
    );
    assert!(matches!(download_target("https://example.com"), Err(TargetError::NoFileName)));
    assert!(matches!(download_target("not a url"), Err(TargetError::InvalidUrl)));
}

#[test]
fn download_progress_lines() {
    let mut progress = DownloadProgress::new();
    assert_eq!(progress.record_chunk("http://h/f", 1000), "'http://h/f' : 1000 B");
    assert_eq!(progress.record_chunk("http://h/f", 536), "'http://h/f' : 1 KiB");
    assert_eq!(progress.size(), 1536);
    assert_eq!(finished_message("http://h/f", 3), "Downloaded http://h/f in 3s");
}
