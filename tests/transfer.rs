use vegam::state::{TransferDirection, TransferRegistry, TransferStatus};
use vegam::ticket_codec::TicketError;
use vegam::transfer::{
    begin_receive, begin_send, compose_enhanced_ticket, create_send_ticket, parse_enhanced_ticket, parse_received_ticket, parse_ticket,
    receive_file_name, report_progress, send_file_name, send_ticket_for, speed_bps, start_receive,
    ProgressThrottle, TransferError,
};

#[test]
fn record_round_trip() {
    let r = compose_enhanced_ticket("report.pdf", 4096, "blob|ticket");
    assert_eq!(r, "report.pdf|4096|blob|ticket");
    assert_eq!(
        parse_enhanced_ticket(&r),
        Ok(("report.pdf".to_string(), 4096, "blob|ticket".to_string()))
    );
    assert_eq!(parse_ticket(&r), Ok("blob|ticket".to_string()));
}

#[test]
fn legacy_ticket_has_no_metadata() {
    assert_eq!(
        parse_enhanced_ticket("blobticket"),
        Ok(("received_file".to_string(), 0, "blobticket".to_string()))
    );
    assert_eq!(
        parse_enhanced_ticket("only|one"),
        Ok(("received_file".to_string(), 0, "only|one".to_string()))
    );
}

#[test]
fn bad_size_is_a_format_error() {
    assert_eq!(parse_enhanced_ticket("a|big|tok"), Err(TicketError::Format));
    assert_eq!(parse_enhanced_ticket("a||tok"), Err(TicketError::Format));
}

#[test]
fn file_names() {
    assert_eq!(send_file_name("/home/u/report.pdf"), "report.pdf");
    assert_eq!(send_file_name("/"), "file");
    assert_eq!(send_file_name("dir/.."), "file");
    assert_eq!(receive_file_name("report.pdf".to_string(), "/tmp/x"), "report.pdf");
    assert_eq!(receive_file_name("received_file".to_string(), "/tmp/out.bin"), "out.bin");
    assert_eq!(receive_file_name("received_file".to_string(), "/"), "unknown");
}

#[test]
fn send_then_receive_end_to_end() {
    let info = create_send_ticket("dev-A", "/docs/report.pdf", 4096, "addr-token", "tx-1".to_string()).unwrap();
    assert!(info.ticket.starts_with("vegam://"));
    assert!(info.ticket.contains("dev-A"));
    assert_eq!(info.file_name, "report.pdf");
    assert_eq!(info.file_size, 4096);
    assert_eq!(info.transfer_id, "tx-1");

    let mut reg = TransferRegistry::new();
    let (record, token) = start_receive(&mut reg, &info.ticket, "dev-B", "/downloads/x", "rx-1".to_string()).unwrap();
    assert_eq!(record.file_name, "report.pdf");
    assert_eq!(record.file_size, 4096);
    assert_eq!(record.bytes_transferred, 0);
    assert_eq!(record.status, TransferStatus::Pending);
    assert_eq!(record.direction, TransferDirection::Receive);
    assert_eq!(token, "addr-token");
    assert_eq!(reg.get_transfer("rx-1").unwrap().file_size, 4096);
}

#[test]
fn send_ticket_for_named_file() {
    let info = send_ticket_for("dev", "a.txt".to_string(), 3, "tok", "id".to_string()).unwrap();
    assert_eq!(
        parse_received_ticket(&info.ticket, "whoever"),
        Ok(("a.txt".to_string(), 3, "tok".to_string()))
    );
}

#[test]
fn unreadable_ticket_starts_nothing() {
    let mut reg = TransferRegistry::new();
    let r = start_receive(&mut reg, "not-a-ticket", "me", "/tmp/x", "rx".to_string());
    assert_eq!(r.err(), Some(TransferError::InvalidTicket(TicketError::Format)));
    assert!(reg.get_transfer("rx").is_none());
}

#[test]
fn throughput_formula() {
    assert_eq!(speed_bps(1000, 500), 2000);
    assert_eq!(speed_bps(250, 1000), 250);
    assert_eq!(speed_bps(1, 3), 333);
    assert_eq!(speed_bps(100, 0), 0);
    assert_eq!(speed_bps(u64::MAX, 250), u64::MAX);
}

#[test]
fn throttled_stream_is_monotone_and_ends_on_last_count() {
    let samples: [(u64, u64); 5] = [(0, 0), (100, 100), (300, 250), (400, 250), (450, 500)];
    let mut throttle = ProgressThrottle::new(0);
    let mut out = Vec::new();
    for (k, (t, b)) in samples.iter().enumerate() {
        if let Some(e) = throttle.on_sample(*t, *b, k == samples.len() - 1) {
            out.push(e);
        }
    }
    let counts: Vec<u64> = out.iter().map(|e| e.bytes_transferred).collect();
    assert_eq!(counts, vec![0, 250, 500]);
    assert!(counts.windows(2).all(|w| w[0] <= w[1]));
    assert_eq!(*counts.last().unwrap(), 500);
    assert_eq!(out[1].speed_bps, 833);
    assert_eq!(out[2].speed_bps, 1666);
}

#[test]
fn progress_reports_update_the_registry() {
    let mut reg = TransferRegistry::new();
    let info = send_ticket_for("dev", "f".to_string(), 9, "tok", "s".to_string()).unwrap();
    let (_, _) = start_receive(&mut reg, &info.ticket, "me", "/tmp/f", "rx".to_string()).unwrap();
    let mut throttle = ProgressThrottle::new(1_000);
    let first = report_progress(&mut reg, &mut throttle, "rx", 1_100, 4, false).unwrap();
    assert_eq!(first.bytes_transferred, 4);
    assert_eq!(first.status, TransferStatus::InProgress);
    assert_eq!(first.speed_bps, 40);
    assert!(report_progress(&mut reg, &mut throttle, "rx", 1_200, 6, false).is_none());
    assert_eq!(reg.get_transfer("rx").unwrap().bytes_transferred, 6);
    let last = report_progress(&mut reg, &mut throttle, "rx", 1_200, 9, true).unwrap();
    assert_eq!(last.bytes_transferred, 9);
    assert_eq!(last.speed_bps, 50);
}

#[test]
fn begin_send_records_a_pending_send() {
    let mut reg = TransferRegistry::new();
    let a = begin_send(&mut reg, "/x/report.pdf");
    let b = begin_send(&mut reg, "/x/report.pdf");
    assert_eq!(a.id.len(), 36);
    assert_ne!(a.id, b.id);
    assert_eq!(a.file_name, "report.pdf");
    assert_eq!(a.status, TransferStatus::Pending);
    assert_eq!(a.direction, TransferDirection::Send);
    assert_eq!(reg.get_transfer(&a.id).unwrap().file_name, "report.pdf");
    reg.complete_transfer(&a.id, 4096);
    assert_eq!(reg.get_transfer(&a.id).unwrap().bytes_transferred, 4096);
}

#[test]
fn begin_receive_uses_a_fresh_id() {
    let info = send_ticket_for("dev-A", "report.pdf".to_string(), 4096, "tok", "s".to_string()).unwrap();
    let mut reg = TransferRegistry::new();
    let (rec, token) = begin_receive(&mut reg, &info.ticket, "dev-B", "/dl/r.pdf").unwrap();
    assert_eq!(rec.id.len(), 36);
    assert_eq!(rec.file_name, "report.pdf");
    assert_eq!(rec.file_size, 4096);
    assert_eq!(token, "tok");
    assert!(begin_receive(&mut reg, "vegam://x:!!!", "dev-B", "/dl/r.pdf").is_err());
}
