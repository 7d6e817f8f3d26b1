use udpbench::csv::{get_writer, push_csv_row, CsvStatsWriter};
use udpbench::errors::AppError;
use udpbench::net::{get_sockaddr, Endpoint, ResolvedAddr};
use udpbench::settings::{make_stats_aggregator_from_arg, positive_usize_parser, time_value_from_millis};
use udpbench::stats::Stats;

#[test]
fn positive_counts_parse() {
    assert_eq!(positive_usize_parser("12"), Ok(12));
    assert_eq!(positive_usize_parser("+7"), Ok(7));
    assert_eq!(positive_usize_parser("0"), Err("Invalid value"));
    assert_eq!(positive_usize_parser("x"), Err("Invalid usize"));
    assert_eq!(positive_usize_parser(""), Err("Invalid usize"));
    assert_eq!(positive_usize_parser("-1"), Err("Invalid usize"));
    assert_eq!(positive_usize_parser(" 3"), Err("Invalid usize"));
    assert_eq!(positive_usize_parser("+"), Err("Invalid usize"));
    assert_eq!(positive_usize_parser("++1"), Err("Invalid usize"));
    assert_eq!(positive_usize_parser("1٣"), Err("Invalid usize"));
    assert_eq!(positive_usize_parser("99999999999999999999999"), Err("Invalid usize"));
    assert_eq!(positive_usize_parser("007"), Ok(7));
    assert_eq!(positive_usize_parser(&usize::MAX.to_string()), Ok(usize::MAX));
}

#[test]
fn aggregator_from_command_line_values() {
    let a = make_stats_aggregator_from_arg(100, 60, 10, false);
    assert_eq!(a.step_size(), 100_000);
    assert_eq!(time_value_from_millis(3), 3000);
    assert_eq!(time_value_from_millis(u64::MAX), u64::MAX);
}

#[test]
fn first_ipv4_address_is_used() {
    let r = vec![
        ResolvedAddr::V4 { ip: 0x7f000001, port: 9000 },
        ResolvedAddr::V6 { port: 9000 },
    ];
    let (e, several) = get_sockaddr("localhost:9000", &r).unwrap();
    assert_eq!(e, Endpoint { ip: 0x7f000001, port: 9000 });
    assert!(several);
    let (_, several) = get_sockaddr("x", &r[..1].to_vec()).unwrap();
    assert!(!several);
}

#[test]
fn ipv6_and_empty_resolutions_fail() {
    let r = vec![ResolvedAddr::V6 { port: 1 }];
    assert!(matches!(get_sockaddr("::1", &r), Err(AppError::NotImplemented("ipv6"))));
    match get_sockaddr("nowhere:1", &Vec::new()) {
        Err(AppError::UnableToResolveNetAddr(a, c)) => {
            assert_eq!(a, "nowhere:1");
            assert_eq!(c, "Host not found");
        }
        other => panic!("unexpected {:?}", other),
    }
}

#[test]
fn csv_rows_are_decimal() {
    let mut out = Vec::new();
    push_csv_row(
        &mut out,
        1800,
        &Stats { tx_packets: 10, rx_packets: 9, rx_packets_sent_here: 0, total_latency_sent_here: 18446744073709551615 },
    );
    assert_eq!(String::from_utf8(out).unwrap(), "1800,10,9,0,18446744073709551615\n");
}

#[test]
fn csv_writer_flushes_once_a_second() {
    let (mut w, header): (CsvStatsWriter, String) = get_writer(0);
    assert_eq!(header, "time,tx_packets,rx_packets,rx_packets_sent_here,total_latency_sent_here\n");
    let mut out = Vec::new();
    assert!(!w.write(&mut out, 0, &Stats::zero(), 500));
    assert!(!w.write(&mut out, 100, &Stats::zero(), 1000));
    assert!(w.write(&mut out, 200, &Stats::zero(), 1001));
    assert!(!w.write(&mut out, 300, &Stats::zero(), 2000));
    assert_eq!(String::from_utf8(out).unwrap(), "0,0,0,0,0\n100,0,0,0,0\n200,0,0,0,0\n300,0,0,0,0\n");
}
