use procure::cpu::{capacity_hint, CpuTimes, MAX_RESERVED};
use procure::number::IntErrorKind;
use procure::Error;

const STAT: &str = "cpu  7969864 6735 1633028 43336958 48613 180 5043 0 0 0
cpu0 2036657 3176 538690 40502503 48123 180 4562 0 0 0
cpu1 1895483 1224 350858 947119 194 0 244 0 0 0
cpu2 2129079 1332 413982 937158 218 0 138 0 0 0
cpu3 1908644 1002 329497 950176 76 0 96 0 0 0
intr 72816520 19 2 0 0 0 0 0 0 1 0 0 0 4 0 0 0 31 0 0
ctxt 294790021
btime 1499376706
processes 158470
procs_running 2
procs_blocked 0
softirq 43478666 14 13995846 1471 617293 1281651 0 60897 13082723 0 14438771
";

fn times(fields: [u64; 10]) -> CpuTimes {
    CpuTimes {
        user: fields[0],
        nice: fields[1],
        system: fields[2],
        idle: fields[3],
        iowait: fields[4],
        irq: fields[5],
        softirq: fields[6],
        steal: fields[7],
        guest: fields[8],
        guest_nice: fields[9],
    }
}

fn parse_kind(r: Result<CpuTimes, Error>) -> IntErrorKind {
    match r {
        Err(Error::ParseError(kind)) => kind,
        other => panic!("expected a parse error, got {:?}", other),
    }
}

fn runtime_message<T: std::fmt::Debug>(r: Result<T, Error>) -> String {
    match r {
        Err(Error::RuntimeError(message)) => message,
        other => panic!("expected a runtime error, got {:?}", other),
    }
}

#[test]
fn test_total() {
    assert_eq!(
        CpuTimes::total(STAT.as_bytes()).unwrap(),
        CpuTimes {
            user: 7969864,
            nice: 6735,
            system: 1633028,
            idle: 43336958,
            iowait: 48613,
            irq: 180,
            softirq: 5043,
            steal: 0,
            guest: 0,
            guest_nice: 0,
        }
    );
}

#[test]
fn test_per_cpu() {
    assert_eq!(
        CpuTimes::per_cpu(STAT.as_bytes()).unwrap(),
        vec![
            CpuTimes {
                user: 2036657, nice: 3176, system: 538690, idle: 40502503, iowait: 48123,
                irq: 180, softirq: 4562, steal: 0, guest: 0, guest_nice: 0,
            },
            CpuTimes {
                user: 1895483, nice: 1224, system: 350858, idle: 947119, iowait: 194,
                irq: 0, softirq: 244, steal: 0, guest: 0, guest_nice: 0,
            },
            CpuTimes {
                user: 2129079, nice: 1332, system: 413982, idle: 937158, iowait: 218,
                irq: 0, softirq: 138, steal: 0, guest: 0, guest_nice: 0,
            },
            CpuTimes {
                user: 1908644, nice: 1002, system: 329497, idle: 950176, iowait: 76,
                irq: 0, softirq: 96, steal: 0, guest: 0, guest_nice: 0,
            },
        ]
    );
}

#[test]
fn line_with_seven_fields_defaults_the_rest() {
    let line = "cpu 7969864 6735 1633028 43336958 48613 180 5043";
    assert_eq!(
        CpuTimes::from_line(line).unwrap(),
        times([7969864, 6735, 1633028, 43336958, 48613, 180, 5043, 0, 0, 0])
    );
}

#[test]
fn total_of_a_single_line() {
    let line = "cpu 7969864 6735 1633028 43336958 48613 180 5043";
    let expected = times([7969864, 6735, 1633028, 43336958, 48613, 180, 5043, 0, 0, 0]);
    assert_eq!(CpuTimes::total(line.as_bytes()).unwrap(), expected);
    assert_eq!(CpuTimes::total(format!("{}\n", line).as_bytes()).unwrap(), expected);
    assert_eq!(CpuTimes::total(format!("{}\r\n", line).as_bytes()).unwrap(), expected);
}

#[test]
fn line_with_optional_fields() {
    assert_eq!(
        CpuTimes::from_line("cpu 1 2 3 4 5 6 7 8").unwrap(),
        times([1, 2, 3, 4, 5, 6, 7, 8, 0, 0])
    );
    assert_eq!(
        CpuTimes::from_line("cpu 1 2 3 4 5 6 7 8 9").unwrap(),
        times([1, 2, 3, 4, 5, 6, 7, 8, 9, 0])
    );
    assert_eq!(
        CpuTimes::from_line("cpu 1 2 3 4 5 6 7 8 9 10").unwrap(),
        times([1, 2, 3, 4, 5, 6, 7, 8, 9, 10])
    );
}

#[test]
fn line_keeps_the_first_ten_fields() {
    assert_eq!(
        CpuTimes::from_line("cpu 1 2 3 4 5 6 7 8 9 10 11 12").unwrap(),
        times([1, 2, 3, 4, 5, 6, 7, 8, 9, 10])
    );
}

#[test]
fn line_splits_on_any_run_of_white_space() {
    assert_eq!(
        CpuTimes::from_line("  cpu\t1  2\u{a0}3\u{2003}4 5\u{3000}6 7 \t ").unwrap(),
        times([1, 2, 3, 4, 5, 6, 7, 0, 0, 0])
    );
}

#[test]
fn line_label_is_not_read() {
    assert_eq!(
        CpuTimes::from_line("12 1 2 3 4 5 6 7").unwrap(),
        times([1, 2, 3, 4, 5, 6, 7, 0, 0, 0])
    );
    assert_eq!(
        CpuTimes::from_line("anything+at-all 1 2 3 4 5 6 7").unwrap(),
        times([1, 2, 3, 4, 5, 6, 7, 0, 0, 0])
    );
}

#[test]
fn line_holds_the_largest_counter() {
    assert_eq!(
        CpuTimes::from_line("cpu 18446744073709551615 +2 03 4 5 6 7").unwrap(),
        times([u64::MAX, 2, 3, 4, 5, 6, 7, 0, 0, 0])
    );
}

#[test]
fn line_with_too_few_fields_fails() {
    assert_eq!(parse_kind(CpuTimes::from_line("cpu 1 2 3 4 5 6")), IntErrorKind::Empty);
    assert_eq!(parse_kind(CpuTimes::from_line("cpu")), IntErrorKind::Empty);
    assert_eq!(parse_kind(CpuTimes::from_line("")), IntErrorKind::Empty);
    assert_eq!(parse_kind(CpuTimes::from_line("   ")), IntErrorKind::Empty);
}

#[test]
fn line_with_a_bad_field_fails() {
    assert_eq!(
        parse_kind(CpuTimes::from_line("cpu 1 2 x 4 5 6 7")),
        IntErrorKind::InvalidDigit
    );
    assert_eq!(
        parse_kind(CpuTimes::from_line("cpu 1 2 -3 4 5 6 7")),
        IntErrorKind::InvalidDigit
    );
    assert_eq!(
        parse_kind(CpuTimes::from_line("cpu 1 2 3 4 5 6 7 8 9 10 eleven")),
        IntErrorKind::InvalidDigit
    );
    assert_eq!(
        parse_kind(CpuTimes::from_line("cpu 1 2 18446744073709551616 4 5 6 7")),
        IntErrorKind::PosOverflow
    );
}

#[test]
fn line_reports_the_first_bad_field() {
    assert_eq!(
        parse_kind(CpuTimes::from_line("cpu 1 99999999999999999999 x")),
        IntErrorKind::PosOverflow
    );
    assert_eq!(
        parse_kind(CpuTimes::from_line("cpu 1 x 99999999999999999999")),
        IntErrorKind::InvalidDigit
    );
}

#[test]
fn total_of_an_empty_source_is_a_runtime_error() {
    assert_eq!(runtime_message(CpuTimes::total(b"")), "Expected cpu line but none found.");
}

#[test]
fn total_of_a_first_line_that_is_not_text_is_a_runtime_error() {
    assert_eq!(
        runtime_message(CpuTimes::total(b"cpu \xff 1 2 3 4 5 6 7\ncpu0 1 2 3 4 5 6 7\n")),
        "Expected cpu line but none found."
    );
}

#[test]
fn total_of_an_empty_first_line_is_a_parse_error() {
    assert_eq!(
        parse_kind(CpuTimes::total(b"\ncpu 1 2 3 4 5 6 7\n")),
        IntErrorKind::Empty
    );
}

#[test]
fn total_reads_only_the_first_line() {
    assert_eq!(
        CpuTimes::total(b"cpu 1 2 3 4 5 6 7\n\xff\xfe garbage").unwrap(),
        times([1, 2, 3, 4, 5, 6, 7, 0, 0, 0])
    );
}

#[test]
fn total_twice_gives_the_same() {
    let first: procure::Result<CpuTimes> = CpuTimes::total(STAT.as_bytes());
    let second: procure::Result<CpuTimes> = CpuTimes::total(STAT.as_bytes());
    let (first, second) = (first.unwrap(), second.unwrap());
    assert_eq!(first, second);
    assert_eq!(
        CpuTimes::per_cpu(STAT.as_bytes()).unwrap(),
        CpuTimes::per_cpu(STAT.as_bytes()).unwrap()
    );
}

#[test]
fn per_cpu_counts_the_matching_lines() {
    let stat = b"cpu 10 20 30 40 50 60 70\ncpu0 1 2 3 4 5 6 7\ncpu1 8 9 10 11 12 13 14 15\nintr 5\ncpu2 1 1 1 1 1 1 1\n";
    assert_eq!(
        CpuTimes::per_cpu(stat).unwrap(),
        vec![
            times([1, 2, 3, 4, 5, 6, 7, 0, 0, 0]),
            times([8, 9, 10, 11, 12, 13, 14, 15, 0, 0]),
        ]
    );
}

#[test]
fn per_cpu_of_the_aggregate_alone_is_empty() {
    assert_eq!(CpuTimes::per_cpu(b"cpu 1 2 3 4 5 6 7\n").unwrap(), vec![]);
    assert_eq!(CpuTimes::per_cpu(b"cpu 1 2 3 4 5 6 7").unwrap(), vec![]);
    assert_eq!(CpuTimes::per_cpu(b"cpu 1 2 3 4 5 6 7\nintr 1 2 3\n").unwrap(), vec![]);
    assert_eq!(CpuTimes::per_cpu(b"").unwrap(), vec![]);
}

#[test]
fn per_cpu_does_not_read_the_first_line() {
    assert_eq!(
        CpuTimes::per_cpu(b"\xff\xff\ncpu0 1 2 3 4 5 6 7\n").unwrap(),
        vec![times([1, 2, 3, 4, 5, 6, 7, 0, 0, 0])]
    );
    assert_eq!(
        CpuTimes::per_cpu(b"cpu x\ncpu0 1 2 3 4 5 6 7").unwrap(),
        vec![times([1, 2, 3, 4, 5, 6, 7, 0, 0, 0])]
    );
}

#[test]
fn per_cpu_stops_before_what_follows_the_records() {
    assert_eq!(
        CpuTimes::per_cpu(b"cpu 1 2 3 4 5 6 7\ncpu0 1 2 3 4 5 6 7\nintr\n\xff\xff\n").unwrap(),
        vec![times([1, 2, 3, 4, 5, 6, 7, 0, 0, 0])]
    );
}

#[test]
fn per_cpu_fails_on_a_line_that_is_not_text() {
    assert_eq!(
        runtime_message(CpuTimes::per_cpu(b"cpu 1 2 3 4 5 6 7\ncpu0 1 2 3 4 5 6 7\n\xff\xff\n")),
        "Failed to read line."
    );
}

#[test]
fn per_cpu_fails_on_a_bad_record() {
    let r = CpuTimes::per_cpu(b"cpu 1 2 3 4 5 6 7\ncpu0 1 2 3 4 5 6 7\ncpu1 1 2 3\n");
    assert!(matches!(r, Err(Error::ParseError(IntErrorKind::Empty))));
    let r = CpuTimes::per_cpu(b"cpu 1 2 3 4 5 6 7\ncpu0 1 2 3 4 5 6 7\ncpu1 1 2 3 4 5 6 seven\n");
    assert!(matches!(r, Err(Error::ParseError(IntErrorKind::InvalidDigit))));
}

#[test]
fn per_cpu_takes_lines_that_end_in_carriage_return() {
    assert_eq!(
        CpuTimes::per_cpu(b"cpu 1 2 3 4 5 6 7\r\ncpu0 1 2 3 4 5 6 7\r\ncpu1 7 6 5 4 3 2 1\r\n").unwrap(),
        vec![
            times([1, 2, 3, 4, 5, 6, 7, 0, 0, 0]),
            times([7, 6, 5, 4, 3, 2, 1, 0, 0, 0]),
        ]
    );
}

#[test]
fn per_cpu_result_does_not_depend_on_the_room_made() {
    let expected = CpuTimes::per_cpu(STAT.as_bytes()).unwrap();
    for capacity in [0usize, 1, 4, 64, MAX_RESERVED, usize::MAX] {
        assert_eq!(
            CpuTimes::per_cpu_with_capacity(STAT.as_bytes(), capacity).unwrap(),
            expected
        );
    }
    assert_eq!(expected.len(), 4);
}

#[test]
fn capacity_hint_is_the_reported_number_where_it_is_one() {
    assert_eq!(capacity_hint(None), 0);
    assert_eq!(capacity_hint(Some(-1)), 0);
    assert_eq!(capacity_hint(Some(-2)), 0);
    assert_eq!(capacity_hint(Some(isize::MIN)), 0);
    assert_eq!(capacity_hint(Some(0)), 0);
    assert_eq!(capacity_hint(Some(1)), 1);
    assert_eq!(capacity_hint(Some(8)), 8);
    assert_eq!(capacity_hint(Some(4097)), 4097);
    assert_eq!(capacity_hint(Some(isize::MAX)), isize::MAX as usize);
}

#[test]
fn io_error_carries_the_underlying_error() {
    let e = Error::IoError(std::io::Error::from(std::io::ErrorKind::NotFound));
    match e {
        Error::IoError(inner) => assert_eq!(inner.kind(), std::io::ErrorKind::NotFound),
        other => panic!("expected an I/O error, got {:?}", other),
    }
}

#[test]
fn reading_never_reports_an_io_error() {
    for source in [&b""[..], b"\xff", b"cpu", b"cpu 1 2 3 4 5 6 7\ncpu0 x\n", STAT.as_bytes()] {
        assert!(!matches!(CpuTimes::total(source), Err(Error::IoError(_))));
        assert!(!matches!(CpuTimes::per_cpu(source), Err(Error::IoError(_))));
    }
}
