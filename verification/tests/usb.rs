use ferrite::aoa::{
    bridge_chunks, bridge_inbound, bridge_outbound, drain_stale, find_accessory,
    find_bulk_interface, is_accessory, query_aoa_version, send_strings_and_start,
    switch_to_accessory, version_request, AoaStream, Attempt, BridgeStep, BridgeWrite, BulkPair, DeviceId,
    Endpoint, Identity, PassStep, StaleDrain, StreamError, SwitchAction, SwitchEvent, SwitchPass,
    Transfer, TransferKind, UsbInterface, WriteStep, CHUNK, MANUFACTURER, MODEL,
};
use ferrite::echo::{
    after_look, after_prompt, check_echo, pattern, prompt_wait, EchoReader, LookStep, PromptStep,
};
use ferrite::frame::{read_frame, sync_preamble, FrameStep};
use ferrite::message::{HostMessage, PixelFormat};
use ferrite::transfer::{
    after_preamble, test_frame, try_read_frame, AccessoryWait, BufferProgress, BufferStep,
    HeaderStep, PreambleStep, WaitAction, WaitEvent,
};

fn id(vendor: u16, product: u16, class: u8) -> DeviceId {
    DeviceId { vendor, product, class }
}

#[test]
fn accessories_have_six_product_ids() {
    assert!(is_accessory(id(0x18D1, 0x2D00, 0)));
    assert!(is_accessory(id(0x18D1, 0x2D05, 0)));
    assert!(!is_accessory(id(0x18D1, 0x2D06, 0)));
    assert!(!is_accessory(id(0x18D1, 0x2CFF, 0)));
    assert!(!is_accessory(id(0x04E8, 0x2D00, 0)));
    let bus = [None, Some(id(1, 2, 9)), Some(id(0x18D1, 0x2D01, 0)), Some(id(0x18D1, 0x2D00, 0))];
    assert_eq!(find_accessory(&bus), Some(2));
    assert_eq!(find_accessory(&bus[..2]), None);
}

#[test]
fn handshake_sends_six_strings_and_start() {
    let requests = send_strings_and_start(&Identity::host());
    assert_eq!(requests.len(), 7);
    let strings = [
        "co.dealdrive",
        "Ferrite",
        "Ferrite host",
        "1",
        "https://github.com/marcusrognes/ferrite",
        "0000000001",
    ];
    for (i, s) in strings.iter().enumerate() {
        assert_eq!(requests[i].request_type, 0x40);
        assert_eq!(requests[i].request, 52);
        assert_eq!(requests[i].value, 0);
        assert_eq!(requests[i].index as usize, i);
        let mut payload = s.as_bytes().to_vec();
        payload.push(0);
        assert_eq!(requests[i].payload, payload);
    }
    assert_eq!(requests[6].request_type, 0x40);
    assert_eq!(requests[6].request, 53);
    assert!(requests[6].payload.is_empty());
    assert_eq!(send_strings_and_start(&Identity::echo())[1].payload, b"FerriteEcho\0");
    assert_eq!(send_strings_and_start(&Identity::proto())[5].payload, b"proto-0001\0");
    assert_eq!((MANUFACTURER, MODEL), ("co.dealdrive", "Ferrite"));
}

#[test]
fn version_is_little_endian() {
    assert_eq!(version_request(), (0xC0, 51, 0, 0));
    assert_eq!(query_aoa_version([2, 0], 2), Ok(2));
    assert_eq!(query_aoa_version([0, 1], 2), Ok(256));
    assert_eq!(query_aoa_version([2, 0], 1), Err(1));
}

#[test]
fn only_willing_devices_are_switched() {
    let step = |e| switch_to_accessory(e, false);
    assert_eq!(step(SwitchEvent::Described(None)), SwitchAction::Next);
    assert_eq!(step(SwitchEvent::Described(Some(id(0x18D1, 0x2D00, 0)))), SwitchAction::Next);
    assert_eq!(step(SwitchEvent::Described(Some(id(1, 1, 9)))), SwitchAction::Next);
    assert_eq!(step(SwitchEvent::Described(Some(id(0x04E8, 0x6860, 0)))), SwitchAction::Open);
    assert_eq!(step(SwitchEvent::Opened(false)), SwitchAction::Next);
    assert_eq!(step(SwitchEvent::Opened(true)), SwitchAction::Ask);
    assert_eq!(step(SwitchEvent::Answered(None)), SwitchAction::Next);
    assert_eq!(step(SwitchEvent::Answered(Some((1, [2, 0])))), SwitchAction::Next);
    assert_eq!(step(SwitchEvent::Answered(Some((2, [0, 0])))), SwitchAction::Next);
    assert_eq!(step(SwitchEvent::Answered(Some((2, [1, 0])))), SwitchAction::Start);
    assert_eq!(step(SwitchEvent::Started(true)), SwitchAction::Done);
    assert_eq!(step(SwitchEvent::Started(false)), SwitchAction::Next);
    assert_eq!(switch_to_accessory(SwitchEvent::Started(false), true), SwitchAction::Fail);
}

#[test]
fn first_willing_device_of_the_bus_is_switched() {
    let (mut pass, step) = SwitchPass::try_switch_one(4, false);
    assert_eq!(step, PassStep::Describe(0));
    assert_eq!(pass.on_event(SwitchEvent::Described(Some(id(1, 1, 9)))), PassStep::Describe(1));
    assert_eq!(pass.on_event(SwitchEvent::Described(Some(id(1, 2, 0)))), PassStep::Open(1));
    assert_eq!(pass.on_event(SwitchEvent::Opened(false)), PassStep::Describe(2));
    assert_eq!(pass.on_event(SwitchEvent::Described(Some(id(4, 5, 0)))), PassStep::Open(2));
    assert_eq!(pass.on_event(SwitchEvent::Opened(true)), PassStep::Ask(2));
    assert_eq!(pass.on_event(SwitchEvent::Answered(Some((2, [2, 0])))), PassStep::Start(2));
    assert_eq!(pass.on_event(SwitchEvent::Started(true)), PassStep::Switched(2));

    let (mut pass, _) = SwitchPass::try_switch_one(1, false);
    assert_eq!(pass.on_event(SwitchEvent::Described(None)), PassStep::Exhausted);
    let (mut pass, _) = SwitchPass::try_switch_one(1, true);
    assert_eq!(pass.on_event(SwitchEvent::Started(false)), PassStep::Failed(0));
    assert_eq!(SwitchPass::try_switch_one(0, true).1, PassStep::Exhausted);
}

fn ep(kind: TransferKind, inbound: bool, address: u8) -> Endpoint {
    Endpoint { kind, inbound, address }
}

#[test]
fn first_interface_with_both_bulk_endpoints_is_taken() {
    let interfaces = vec![
        UsbInterface {
            number: 0,
            endpoints: vec![
                ep(TransferKind::Bulk, true, 0x81),
                ep(TransferKind::Interrupt, false, 0x01),
            ],
        },
        UsbInterface {
            number: 3,
            endpoints: vec![
                ep(TransferKind::Bulk, true, 0x82),
                ep(TransferKind::Bulk, false, 0x02),
                ep(TransferKind::Bulk, true, 0x83),
                ep(TransferKind::Isochronous, true, 0x84),
            ],
        },
        UsbInterface {
            number: 4,
            endpoints: vec![ep(TransferKind::Bulk, true, 0x85), ep(TransferKind::Bulk, false, 0x05)],
        },
    ];
    let pair = BulkPair { iface: 3, ep_in: 0x83, ep_out: 0x02 };
    assert_eq!(find_bulk_interface(&interfaces), Some(pair));
    assert_eq!(find_bulk_interface(&interfaces[..1]), None);
    let stream = AoaStream::new(pair);
    assert_eq!((stream.iface, stream.ep_in, stream.ep_out), (3, 0x83, 0x02));
    assert_eq!(stream.read(Transfer::Done(5)), Ok(5));
    assert_eq!(stream.read(Transfer::Timeout), Ok(0));
    assert_eq!(stream.read(Transfer::Failed), Err(StreamError));
    assert_eq!(stream.write(Transfer::Done(5)), Ok(5));
    assert_eq!(stream.write(Transfer::Timeout), Err(StreamError));
    assert_eq!(stream.write(Transfer::Failed), Err(StreamError));
}

#[test]
fn waiting_ends_with_an_open_device() {
    assert!(!AoaStream::wait_for_device(Attempt::Opened));
    assert!(AoaStream::wait_for_device(Attempt::Absent));
    assert!(AoaStream::wait_for_device(Attempt::Failed));
}

#[test]
fn stale_bytes_are_drained() {
    let mut drain = StaleDrain::limited();
    assert!(drain_stale(&mut drain, Ok(100)));
    assert!(drain_stale(&mut drain, Ok(10)));
    assert!(!drain_stale(&mut drain, Ok(0)));
    assert_eq!(drain.total, 110);
    let mut drain = StaleDrain::limited();
    let mut reads = 1;
    while drain_stale(&mut drain, Ok(1)) {
        reads += 1;
    }
    assert_eq!((reads, drain.total), (50, 50));
    let mut drain = StaleDrain::unlimited();
    for _ in 0..100 {
        assert!(drain_stale(&mut drain, Ok(2)));
    }
    assert!(!drain_stale(&mut drain, Err(StreamError)));
    assert_eq!(drain.total, 200);
}

#[test]
fn bridge_steps() {
    assert_eq!(bridge_inbound(Ok(3)), BridgeStep::Forward(3));
    assert_eq!(bridge_inbound(Ok(0)), BridgeStep::Poll);
    assert_eq!(bridge_inbound(Err(StreamError)), BridgeStep::Close);
    assert_eq!(bridge_outbound(Some(3)), BridgeStep::Forward(3));
    assert_eq!(bridge_outbound(Some(0)), BridgeStep::Close);
    assert_eq!(bridge_outbound(None), BridgeStep::Close);
}

#[test]
fn writes_are_cut_into_chunks() {
    let data: Vec<u8> = (0..40000u32).map(|i| i as u8).collect();
    let chunks = bridge_chunks(&data);
    assert_eq!(chunks.iter().map(Vec::len).collect::<Vec<_>>(), vec![16383, 16383, 7234]);
    assert_eq!(chunks.concat(), data);
    assert!(chunks.iter().all(|c| c.len() % 512 != 0));
    assert!(bridge_chunks(&[]).is_empty());
    assert_eq!(bridge_chunks(&data[..CHUNK]).len(), 1);
    let full = bridge_chunks(&data[..2 * CHUNK]);
    assert_eq!(full.len(), 2);
    assert!(full.iter().all(|c| c.len() % 512 != 0));
}

fn lengths(chunks: &[Vec<u8>]) -> Vec<usize> {
    chunks.iter().map(Vec::len).collect()
}

#[test]
fn every_write_ends_in_a_short_packet() {
    let data: Vec<u8> = (0..40000u32).map(|i| i as u8).collect();
    assert_eq!(lengths(&bridge_chunks(&data[..512])), vec![511, 1]);
    assert_eq!(lengths(&bridge_chunks(&data[..1024])), vec![1023, 1]);
    assert_eq!(lengths(&bridge_chunks(&data[..513])), vec![513]);
    assert_eq!(lengths(&bridge_chunks(&data[..1])), vec![1]);
    assert_eq!(lengths(&bridge_chunks(&data[..16384])), vec![16383, 1]);
    assert_eq!(lengths(&bridge_chunks(&data[..CHUNK + 512])), vec![16383, 511, 1]);
    for len in [0, 1, 511, 512, 513, 15872, 16383, 16384, 32768, 33278, 40000] {
        let chunks = bridge_chunks(&data[..len]);
        assert_eq!(chunks.concat(), data[..len].to_vec());
        assert!(chunks.iter().all(|c| (1..=16383).contains(&c.len()) && c.len() % 512 != 0));
    }
}

#[test]
fn partial_writes_lose_nothing() {
    let data: Vec<u8> = (0..20000u32).map(|i| i as u8).collect();
    for most in [1usize, 512, 700, 1024, 16383, 20000] {
        let mut write = BridgeWrite::new(data.len());
        let mut taken: Vec<u8> = Vec::new();
        let mut step = write.step();
        while let WriteStep::Offer { from, to } = step {
            let offer = &data[from..to];
            assert!((1..=16383).contains(&offer.len()) && offer.len() % 512 != 0);
            let n = offer.len().min(most);
            taken.extend(&offer[..n]);
            step = write.on_write(Ok(n));
        }
        assert_eq!(step, WriteStep::Complete);
        assert_eq!(taken, data);
    }
}

#[test]
fn rest_of_a_partial_write_is_offered_again() {
    let mut write = BridgeWrite::new(1000);
    assert_eq!(write.step(), WriteStep::Offer { from: 0, to: 1000 });
    assert_eq!(write.on_write(Ok(0)), WriteStep::Offer { from: 0, to: 1000 });
    // What is left would fill a packet exactly.
    assert_eq!(write.on_write(Ok(488)), WriteStep::Offer { from: 488, to: 999 });
    assert_eq!(write.on_write(Ok(511)), WriteStep::Offer { from: 999, to: 1000 });
    assert_eq!(write.on_write(Ok(1)), WriteStep::Complete);
    let mut write = BridgeWrite::new(10);
    assert_eq!(write.on_write(Ok(4)), WriteStep::Offer { from: 4, to: 10 });
    assert_eq!(write.on_write(Err(StreamError)), WriteStep::Close);
    assert_eq!(write.step(), WriteStep::Offer { from: 4, to: 10 });
    assert_eq!(BridgeWrite::new(0).step(), WriteStep::Complete);
}

#[test]
fn pattern_avoids_heartbeats() {
    let p = pattern(600);
    assert_eq!(p.len(), 600);
    assert_eq!((p[0], p[254], p[255], p[256]), (0, 254, 0, 1));
    assert!(!p.contains(&0xff));
}

#[test]
fn heartbeats_are_taken_out() {
    let mut reader = EchoReader::new();
    reader.feed(&[1, 2, 0xff]);
    reader.feed(&[0xff, 3, 0xff, 0xff]);
    assert_eq!(reader.echoed, vec![1, 2, 3]);
    assert_eq!(reader.heartbeats, 2);
    assert!(reader.complete(3));
    assert!(!reader.complete(4));
    reader.feed(&[0xff, 7]);
    assert_eq!(reader.echoed, vec![1, 2, 3, 0xff, 7]);
}

#[test]
fn reads_may_be_cut_anywhere() {
    let stream = [5, 0xff, 0xff, 6, 7, 0xff, 0xff, 0xff, 0xff, 8];
    for cut in 0..stream.len() {
        let mut reader = EchoReader::new();
        reader.feed(&stream[..cut]);
        reader.feed(&stream[cut..]);
        assert_eq!(reader.echoed, vec![5, 6, 7, 8]);
        assert_eq!(reader.heartbeats, 3);
    }
}

#[test]
fn heartbeats_are_counted_up_to_the_limit() {
    let mut reader =
        EchoReader { echoed: Vec::new(), heartbeats: u32::MAX - 1, pending_ff: false };
    reader.feed(&[1, 2, 3, 0xff, 0xff, 4, 5]);
    assert_eq!(reader.heartbeats, u32::MAX);
    assert_eq!(reader.echoed, vec![1, 2, 3, 4, 5]);
}

#[test]
fn switched_device_is_looked_for() {
    assert_eq!(after_look(0, true), LookStep::Appeared(0));
    assert_eq!(after_look(7, true), LookStep::Appeared(700));
    assert_eq!(after_look(0, false), LookStep::Again(100));
    assert_eq!(after_look(48, false), LookStep::Again(100));
    assert_eq!(after_look(49, false), LookStep::Missing(100));
}

#[test]
fn echo_is_compared() {
    let sent = pattern(30);
    let ok = check_echo(&sent, &sent.clone());
    assert!(ok.same && ok.differences.is_empty() && !ok.truncated);
    let mut got = sent.clone();
    got[3] = 99;
    got[12] = 98;
    got[13] = 97;
    let bad = check_echo(&sent, &got);
    assert!(!bad.same && bad.truncated);
    let listed: Vec<(usize, u8, u8)> =
        bad.differences.iter().map(|d| (d.index, d.sent, d.got)).collect();
    assert_eq!(listed, vec![(3, 3, 99), (12, 12, 98)]);
    let short = check_echo(&sent, &sent[..10]);
    assert!(!short.same && short.differences.is_empty() && !short.truncated);
}

#[test]
fn first_write_waits_for_the_user() {
    let first = prompt_wait(true);
    assert_eq!((first.attempts, first.timeout_secs), (10, 3));
    let later = prompt_wait(false);
    assert_eq!((later.attempts, later.timeout_secs), (3, 1));
    assert_eq!(after_prompt(later, 1, Transfer::Timeout), PromptStep::Retry);
    assert_eq!(after_prompt(later, 3, Transfer::Timeout), PromptStep::Fail);
    assert_eq!(after_prompt(later, 1, Transfer::Done(9)), PromptStep::Sent(9));
    assert_eq!(after_prompt(first, 1, Transfer::Failed), PromptStep::Fail);
}

#[test]
fn preamble_goes_out_whole() {
    let wait = prompt_wait(false);
    let len = sync_preamble().len();
    assert_eq!(after_preamble(wait, 1, len, Transfer::Done(511)), PreambleStep::Written);
    assert_eq!(after_preamble(wait, 1, len, Transfer::Done(100)), PreambleStep::Short(100));
    assert_eq!(after_preamble(wait, 2, len, Transfer::Timeout), PreambleStep::Retry);
    assert_eq!(after_preamble(wait, 3, len, Transfer::Timeout), PreambleStep::Fail);
    assert_eq!(after_preamble(wait, 1, len, Transfer::Failed), PreambleStep::Fail);
}

#[test]
fn buffers_are_filled_part_by_part() {
    let mut p = BufferProgress::new(10);
    assert_eq!(p.step(), BufferStep::From(0));
    assert_eq!(p.read_exact(Transfer::Done(4)), BufferStep::From(4));
    assert_eq!(p.read_exact(Transfer::Done(0)), BufferStep::Short(4));
    assert_eq!(p.read_exact(Transfer::Timeout), BufferStep::Broken(4));
    assert_eq!(p.read_exact(Transfer::Done(6)), BufferStep::Complete);
    assert_eq!(BufferProgress::new(0).step(), BufferStep::Complete);
    let mut w = BufferProgress::new(5);
    assert_eq!(w.write_all(Transfer::Done(0)), BufferStep::From(0));
    assert_eq!(w.write_all(Transfer::Failed), BufferStep::Broken(0));
    assert_eq!(w.write_all(Transfer::Done(5)), BufferStep::Complete);
}

#[test]
fn frame_header_may_be_missing() {
    assert_eq!(try_read_frame(Transfer::Done(4)), HeaderStep::Body);
    assert_eq!(try_read_frame(Transfer::Done(0)), HeaderStep::Nothing);
    assert_eq!(try_read_frame(Transfer::Done(3)), HeaderStep::Short(3));
    assert_eq!(try_read_frame(Transfer::Timeout), HeaderStep::Nothing);
    assert_eq!(try_read_frame(Transfer::Failed), HeaderStep::Broken);
}

#[test]
fn test_frame_is_a_video_frame() {
    let frame = test_frame();
    assert_eq!(frame.len(), 4 + 24 + 1024);
    match read_frame(&frame) {
        FrameStep::Body(body) => match HostMessage::decode(&body) {
            Ok(HostMessage::VideoFrame { format, width, height, data }) => {
                assert_eq!(format, PixelFormat::H264);
                assert_eq!((width, height), (1920, 1080));
                assert_eq!(data, vec![0xAA; 1024]);
            }
            other => panic!("{other:?}"),
        },
        other => panic!("{other:?}"),
    }
}

#[test]
fn accessory_wait_switches_three_times() {
    let mut wait = AccessoryWait::ensure_accessory(true);
    let mut event = WaitEvent::Looked(false);
    let (mut looks, mut switches, mut pause) = (1, 0, 0);
    let last = loop {
        let step = wait.on_event(event);
        pause += step.pause_ms;
        event = match step.action {
            WaitAction::Look => {
                looks += 1;
                WaitEvent::Looked(false)
            }
            WaitAction::Switch => {
                switches += 1;
                // The second device refuses.
                WaitEvent::Switched(switches != 2)
            }
            end => break end,
        };
    };
    assert_eq!(last, WaitAction::GiveUp);
    assert_eq!((looks, switches, pause), (103, 3, 11_000));
}

#[test]
fn accessory_wait_ends_when_one_appears() {
    let mut wait = AccessoryWait::ensure_accessory(false);
    assert_eq!(wait.polls, 150);
    assert_eq!(wait.on_event(WaitEvent::Looked(false)).action, WaitAction::Switch);
    assert_eq!(wait.on_event(WaitEvent::Switched(true)).action, WaitAction::Look);
    let step = wait.on_event(WaitEvent::Looked(false));
    assert_eq!((step.pause_ms, step.action), (100, WaitAction::Look));
    assert_eq!(wait.on_event(WaitEvent::Looked(true)).action, WaitAction::Ready);
}
