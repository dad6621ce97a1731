use serial_gateway::gateway::{
    datagram_float_text, event_source, handle_command_read, log_line, telemetry_failure, write_failure, CommandRead,
    CommandStep, EventSource, FrameStep, LogDisplay, LogStep, SerialGateway, SerialRead, SerialStep, COMMAND_UDP_TOKEN,
    SERIAL_TOKEN,
};
use serial_gateway::plots::{timeplot_data, xyplot_data};
use serial_gateway::setup::{
    command_address, command_notice, precache_notice, telemetry_address, telemetry_notice, SetupStep,
};
use serial_gateway::telemetry::{ArgValue, LogRecord};

fn record(args: Option<Vec<ArgValue>>) -> LogRecord {
    LogRecord { args }
}

fn float(v: f32) -> ArgValue {
    ArgValue::F32(format!("{:.2}", v))
}

fn full_args() -> Vec<ArgValue> {
    vec![ArgValue::U16(1200), ArgValue::U16(65535), float(0.125), float(-3.0), float(f32::NAN)]
}

/// The plot messages of a record that was decoded.
fn telemetry(gateway: &mut SerialGateway, log: LogRecord) -> Result<Vec<String>, String> {
    match gateway.handle_decoded_log(Ok(log)) {
        LogStep::Accepted(telemetry) => telemetry,
        LogStep::Dropped(m) => panic!("{}", m),
    }
}

fn datagram(bytes: &[u8]) -> CommandRead {
    CommandRead::Datagram { bytes: bytes.to_vec(), source: "10.0.0.2:99".to_string() }
}

#[test]
fn plot_messages_have_the_plotter_format() {
    assert_eq!(timeplot_data("Waveform", "ADC", 42), "{TIMEPLOT:Waveform|DATA|ADC|T|42}\n");
    assert_eq!(timeplot_data("c", "s", 42), format!("{{TIMEPLOT:{}|DATA|{}|T|{:.2}}}\n", "c", "s", 42u32));
    assert_eq!(xyplot_data("Waveform1", "position", 7, "1.50"), "{XYPLOT:Waveform1|DATA|position|7|1.50}\n");
}

#[test]
fn a_record_gives_five_plot_messages() {
    let mut gateway = SerialGateway::new(false);
    telemetry(&mut gateway, record(None)).unwrap();
    let messages = telemetry(&mut gateway, record(Some(full_args()))).unwrap();
    assert_eq!(
        messages,
        vec![
            "{XYPLOT:Waveform1|DATA|position|1|1200.00}\n",
            "{XYPLOT:Waveform2|DATA|setpoint|1|65535.00}\n",
            "{XYPLOT:Waveform3|DATA|posPID|1|0.12}\n",
            "{XYPLOT:Waveform4|DATA|speedPID|1|-3.00}\n",
            "{XYPLOT:Waveform5|DATA|speed|1|NaN}\n",
        ]
    );
    assert_eq!(gateway.msg_count(), 2);
    assert_eq!(gateway.dropped_count(), 0);
}

#[test]
fn whole_numbers_are_plotted_as_floats_are() {
    let gateway = SerialGateway::new(false);
    for v in [0u16, 9, 1000, 32768, 65535] {
        let mut args = full_args();
        args[0] = ArgValue::U16(v);
        let messages = gateway.process_telemetry_log(&record(Some(args))).unwrap();
        assert_eq!(messages[0], format!("{{XYPLOT:Waveform1|DATA|position|0|{:.2}}}\n", v as f32));
    }
}

#[test]
fn later_arguments_make_no_difference() {
    let gateway = SerialGateway::new(false);
    let mut args = full_args();
    args.push(ArgValue::Other);
    assert_eq!(
        gateway.process_telemetry_log(&record(Some(args))),
        gateway.process_telemetry_log(&record(Some(full_args())))
    );
}

#[test]
fn missing_arguments_are_named() {
    let mut gateway = SerialGateway::new(false);
    assert_eq!(telemetry(&mut gateway, record(None)), Ok(vec![]));
    assert_eq!(telemetry(&mut gateway, record(Some(vec![]))), Err("arg 0 missing".to_string()));
    for i in 0..5 {
        let mut args = full_args();
        args.truncate(i);
        assert_eq!(telemetry(&mut gateway, record(Some(args))), Err(format!("arg {} missing", i)));
        let mut args = full_args();
        args[i] = ArgValue::Other;
        assert_eq!(telemetry(&mut gateway, record(Some(args))), Err(format!("arg {} missing", i)));
    }
    let mut args = full_args();
    args[1] = float(1.0);
    assert_eq!(telemetry(&mut gateway, record(Some(args))), Err("arg 1 missing".to_string()));
    let mut args = full_args();
    args[4] = ArgValue::U16(1);
    assert_eq!(telemetry(&mut gateway, record(Some(args))), Err("arg 4 missing".to_string()));
    assert_eq!(gateway.msg_count(), 14);
    assert_eq!(telemetry_failure("arg 0 missing"), "Failed to process telemetry log: arg 0 missing");
}

#[test]
fn frames_come_from_the_line() {
    let mut gateway = SerialGateway::new(false);
    assert_eq!(gateway.make_room(), 64);
    let step = gateway.handle_serial_read(&SerialRead::Bytes(vec![5, 6, 0, 7]));
    assert!(matches!(step, SerialStep::Frames(f) if f == vec![vec![5, 6]]));
    assert_eq!(gateway.make_room(), 63);
    let step = gateway.handle_serial_read(&SerialRead::Bytes(vec![8, 0]));
    assert!(matches!(step, SerialStep::Frames(f) if f == vec![vec![7, 8]]));
    assert_eq!(gateway.make_room(), 64);
    let step = gateway.handle_serial_read(&SerialRead::Bytes(vec![9]));
    assert!(matches!(step, SerialStep::Frames(f) if f.is_empty()));
}

#[test]
fn reading_stops_where_nothing_is_waiting() {
    let mut gateway = SerialGateway::new(false);
    assert!(matches!(gateway.handle_serial_read(&SerialRead::Bytes(vec![])), SerialStep::Stop));
    assert!(matches!(gateway.handle_serial_read(&SerialRead::WouldBlock), SerialStep::Stop));
}

#[test]
fn a_failed_read_and_a_full_buffer_end_the_gateway() {
    let mut gateway = SerialGateway::new(false);
    let step = gateway.handle_serial_read(&SerialRead::Failed("gone".to_string()));
    assert!(matches!(step, SerialStep::Fail(e) if e == "Serial read error: gone"));
    let step = gateway.handle_serial_read(&SerialRead::Bytes(vec![1; 63]));
    assert!(matches!(step, SerialStep::Frames(f) if f.is_empty()));
    let step = gateway.handle_serial_read(&SerialRead::Bytes(vec![1; 1]));
    assert!(matches!(step, SerialStep::Fail(e) if e == "Buffer full without finding frame boundary"));
}

/// A frame that holds a log record, as the device encodes it.
fn frame_of(record: &[u8]) -> Vec<u8> {
    let mut decoded = (record.len() as u32).to_le_bytes().to_vec();
    decoded.extend(record);
    cobs2::cobsr::encode_vector(&decoded).unwrap()
}

#[test]
fn records_are_taken_out_of_frames() {
    let mut gateway = SerialGateway::new(false);
    for record in [&[][..], &[9], &[1, 0, 2], &[0, 0, 0, 0, 7], &[255; 30]] {
        let step = gateway.handle_frame(&frame_of(record));
        assert!(matches!(step, FrameStep::Decode(r) if r == record));
        let mut decoded = (record.len() as u32).to_le_bytes().to_vec();
        decoded.extend(record);
        let step = gateway.handle_decoded_frame(&decoded);
        assert!(matches!(step, FrameStep::Decode(r) if r == record));
    }
    assert_eq!((gateway.msg_count(), gateway.dropped_count()), (0, 0));
}

#[test]
fn faulty_frames_are_dropped() {
    let mut gateway = SerialGateway::new(false);
    let step = gateway.handle_frame(&[3, 0, 1]);
    assert!(matches!(step, FrameStep::Dropped(m) if m == "COBS decode error - skipping frame"));
    let step = gateway.handle_frame(&[]);
    assert!(matches!(step, FrameStep::Dropped(m) if m == "Frame too short"));
    let step = gateway.handle_frame(&[4, 1, 2]);
    assert!(matches!(step, FrameStep::Dropped(m) if m == "Frame too short"));
    let step = gateway.handle_frame(&[2, 9, 1, 1, 2, 7]);
    assert!(matches!(step, FrameStep::Dropped(m) if m == "Length mismatch"));
    let step = gateway.handle_decoded_frame(&[1, 0, 0]);
    assert!(matches!(step, FrameStep::Dropped(m) if m == "Frame too short"));
    let step = gateway.handle_decoded_frame(&[2, 0, 0, 0, 5]);
    assert!(matches!(step, FrameStep::Dropped(m) if m == "Length mismatch"));
    assert_eq!((gateway.msg_count(), gateway.dropped_count()), (0, 6));
}

#[test]
fn records_that_cannot_be_decoded_are_dropped() {
    let mut gateway = SerialGateway::new(false);
    let step = gateway.handle_decoded_log(Err("bad id".to_string()));
    assert!(matches!(step, LogStep::Dropped(m) if m == "Err: bad id"));
    assert_eq!((gateway.msg_count(), gateway.dropped_count()), (0, 1));
    let step = gateway.handle_decoded_log(Ok(record(None)));
    assert!(matches!(step, LogStep::Accepted(Ok(t)) if t.is_empty()));
    assert_eq!((gateway.msg_count(), gateway.dropped_count()), (1, 1));
}

#[test]
fn every_frame_is_a_message_or_dropped() {
    let mut gateway = SerialGateway::new(true);
    let mut line = frame_of(&[1]);
    line.extend([0, 0]);
    line.extend(frame_of(&[2, 0]));
    line.push(0);
    line.extend([4, 1, 2, 0]);
    let frames = match gateway.handle_serial_read(&SerialRead::Bytes(line)) {
        SerialStep::Frames(frames) => frames,
        other => panic!("{:?}", other),
    };
    assert_eq!(frames.len(), 4);
    for frame in &frames {
        if let FrameStep::Decode(r) = gateway.handle_frame(frame) {
            let decoded = if r == [1] { Ok(record(None)) } else { Err("unknown".to_string()) };
            gateway.handle_decoded_log(decoded);
        }
    }
    assert_eq!((gateway.msg_count(), gateway.dropped_count()), (1, 3));
}

#[test]
fn plots_are_numbered_by_the_records_before_them() {
    let mut gateway = SerialGateway::new(false);
    telemetry(&mut gateway, record(None)).unwrap();
    gateway.handle_decoded_log(Err("unknown".to_string()));
    gateway.handle_frame(&[]);
    telemetry(&mut gateway, record(Some(vec![]))).unwrap_err();
    let messages = telemetry(&mut gateway, record(Some(full_args()))).unwrap();
    assert_eq!(messages[0], "{XYPLOT:Waveform1|DATA|position|2|1200.00}\n");
}

#[test]
fn the_log_is_shown_line_by_line() {
    let gateway = SerialGateway::new(false);
    assert_eq!(gateway.show_log(5), LogDisplay::Line);
    assert_eq!(gateway.show_log(5), LogDisplay::Line);
    assert_eq!(log_line("Info", "hello"), "Info    > hello");
    assert_eq!(log_line("Warning!", ""), format!("{:<7} > {}", "Warning!", ""));
}

#[test]
fn status_lines_are_half_a_second_apart() {
    let mut gateway = SerialGateway::new(true);
    assert_eq!(gateway.show_log(0), LogDisplay::Nothing);
    assert_eq!(gateway.show_log(1), LogDisplay::Status);
    assert_eq!(gateway.show_log(1), LogDisplay::Status);
    assert_eq!(gateway.status_printed(1, Ok(())), Ok(()));
    assert_eq!(gateway.show_log(400_000_000), LogDisplay::Nothing);
    assert_eq!(gateway.show_log(500_000_001), LogDisplay::Nothing);
    assert_eq!(gateway.show_log(500_000_002), LogDisplay::Status);
    assert_eq!(gateway.status_printed(500_000_002, Ok(())), Ok(()));
    assert_eq!(gateway.show_log(1_000_000_002), LogDisplay::Nothing);
    assert_eq!(gateway.show_log(1_000_000_003), LogDisplay::Status);
}

#[test]
fn a_status_line_that_was_not_flushed_stays_due() {
    let mut gateway = SerialGateway::new(true);
    gateway.handle_decoded_log(Ok(record(None)));
    assert_eq!(gateway.show_log(7), LogDisplay::Status);
    assert_eq!(gateway.status_printed(7, Err("closed".to_string())), Err("closed".to_string()));
    assert_eq!((gateway.msg_count(), gateway.dropped_count()), (1, 0));
    assert_eq!(gateway.show_log(7), LogDisplay::Status);
    assert_eq!(gateway.show_log(8), LogDisplay::Status);
}

#[test]
fn the_status_line_has_fixed_columns() {
    let mut gateway = SerialGateway::new(true);
    gateway.handle_decoded_log(Ok(record(None)));
    gateway.handle_decoded_log(Err("x".to_string()));
    let head = format!("\r{:<7} > {:<40} ", "Info", "hello");
    let tail = format!("{:<7.2} msg/s (Total: {}, Dropped: {}, {:.2}%)   ", 12.5f64, 1, 1, 100.0f64);
    assert_eq!(gateway.status_line("Info", "hello", "12.50", "100.00"), head + &tail);
}

#[test]
fn events_are_told_by_their_tokens() {
    assert_eq!(event_source(SERIAL_TOKEN), Some(EventSource::Serial));
    assert_eq!(event_source(COMMAND_UDP_TOKEN), Some(EventSource::Commands));
    assert_eq!(event_source(2), None);
}

#[test]
fn commands_are_written_or_reported() {
    let step = handle_command_read(&datagram(b"!pwm_b 3\n"), None);
    assert!(matches!(step, CommandStep::Write(p) if p == [&[3, 0, 2][..], &3u16.to_ne_bytes()].concat()));
    let step = handle_command_read(&datagram(b"hi"), None);
    assert!(matches!(step, CommandStep::Report(m) if m == "\nInvalid command from 10.0.0.2:99: hi"));
    let step = handle_command_read(&CommandRead::WouldBlock, None);
    assert!(matches!(step, CommandStep::Stop));
    let step = handle_command_read(&CommandRead::Failed("down".to_string()), None);
    assert!(matches!(step, CommandStep::Report(m) if m == "\nCommand UDP receive error: down"));
    assert_eq!(write_failure("gone"), "\nFailed to write command to serial port: gone");
}

#[test]
fn datagrams_need_not_be_utf8() {
    let step = handle_command_read(&datagram(b"!PWM_A \xFF5"), None);
    assert!(matches!(step, CommandStep::Report(m) if m == "\nInvalid command from 10.0.0.2:99: !PWM_A \u{FFFD}5"));
    let step = handle_command_read(&datagram("!f_te\u{17F}t 1".as_bytes()), Some(0x3F800000));
    assert!(matches!(step, CommandStep::Write(p) if p == [&[5, 0, 3][..], &1.0f32.to_ne_bytes()].concat()));
}

#[test]
fn datagrams_have_float_text() {
    assert_eq!(datagram_float_text(b"!F_TEST 1e3"), Some("1e3".to_string()));
    assert_eq!(datagram_float_text(b"!F_TEST \xFF"), Some("\u{FFFD}".to_string()));
    assert_eq!(datagram_float_text(b"!PWM_A 1"), None);
}

#[test]
fn setup_failures_name_the_step() {
    let e = "why";
    assert_eq!(SetupStep::OpenPort("/dev/tty0".to_string()).failure(e), "Failed to open port '/dev/tty0': why");
    assert_eq!(SetupStep::BindTelemetry.failure(e), "Failed to bind telemetry UDP: why");
    assert_eq!(
        SetupStep::ConnectTelemetry(8888).failure(e),
        "Failed to connect telemetry UDP to 127.0.0.1:8888: why"
    );
    assert_eq!(SetupStep::BindCommands(8889).failure(e), "Failed to bind command UDP port 8889: why");
    assert_eq!(SetupStep::UnblockCommands.failure(e), "Failed to set command UDP to non-blocking: why");
    assert_eq!(SetupStep::CreatePoll.failure(e), "Failed to create Poll: why");
    assert_eq!(SetupStep::RegisterSerial.failure(e), "Failed to register serial port with poll: why");
    assert_eq!(
        SetupStep::RegisterCommands.failure(e),
        "Failed to register command UDP socket with poll: why"
    );
}

#[test]
fn addresses_and_notices_name_the_port() {
    assert_eq!(telemetry_address(8888), "127.0.0.1:8888");
    assert_eq!(command_address(0), "0.0.0.0:0");
    assert_eq!(
        telemetry_notice(8888),
        "Telemetry UDP socket configured to send to 127.0.0.1:8888 for plot data."
    );
    assert_eq!(precache_notice(17), "Precached 17 logs");
    assert_eq!(command_notice(8889), "Command UDP server listening on port 8889 for serial commands.");
}
