use ferrite::capture::{capture_offer, ensure_room, is_video_format, MediaKind};
use ferrite::edid::{client_edid, edid_1080p, monitor_edid, EDID_BASE};
use ferrite::evdi::{
    after_poll, DeviceSearch, ModeChange, PollAction, SearchStep, VirtualMonitor, BUFFER_ID,
};
use ferrite::message::PixelFormat;
use ferrite::pixels::{bgra_to_rgb, capture_rgb, convert_to_rgb, jpeg_frame, Captured, VideoFormat};

#[test]
fn blue_first_pixels_are_swapped() {
    // Two rows of two pixels, each row padded by two bytes.
    let src = [
        1, 2, 3, 0, 4, 5, 6, 0, 99, 99, //
        7, 8, 9, 0, 10, 11, 12, 0, 99, 99,
    ];
    let mut dst = [0u8; 12];
    assert!(convert_to_rgb(&src, 2, 2, 10, VideoFormat::Bgrx, &mut dst));
    assert_eq!(dst, [3, 2, 1, 6, 5, 4, 9, 8, 7, 12, 11, 10]);
    let mut same = [0u8; 12];
    bgra_to_rgb(&src, 2, 2, 10, &mut same);
    assert_eq!(same, dst);
}

#[test]
fn red_first_pixels_keep_their_order() {
    let src = [1, 2, 3, 0, 4, 5, 6, 0];
    let mut dst = [0u8; 6];
    assert!(convert_to_rgb(&src, 2, 1, 8, VideoFormat::Rgba, &mut dst));
    assert_eq!(dst, [1, 2, 3, 4, 5, 6]);
}

#[test]
fn unsupported_layout_and_short_source_are_refused() {
    let src = [1, 2, 3, 0, 4, 5, 6];
    let mut dst = [0u8; 6];
    assert!(!convert_to_rgb(&src, 2, 1, 8, VideoFormat::Other, &mut dst));
    assert_eq!(dst, [0; 6]);
    assert!(!convert_to_rgb(&src, 1, 2, 4, VideoFormat::Bgra, &mut dst));
    // The first row was there.
    assert_eq!(dst, [3, 2, 1, 0, 0, 0]);
}

#[test]
fn only_rows_that_are_there_need_room() {
    let src = [1, 2, 3, 0];
    let mut dst = [0u8; 3];
    assert!(!convert_to_rgb(&src, 1, 9, 4, VideoFormat::Rgba, &mut dst));
    assert_eq!(dst, [1, 2, 3]);
    assert!(!convert_to_rgb(&src, 9, 9, 36, VideoFormat::Other, &mut []));
    assert!(!convert_to_rgb(&[], usize::MAX, usize::MAX, usize::MAX, VideoFormat::Bgra, &mut []));
    assert!(convert_to_rgb(&[], 5, 0, 20, VideoFormat::Bgra, &mut []));
}

#[test]
fn captured_buffer_is_packed() {
    let mut scratch = Vec::new();
    assert_eq!(capture_rgb(&[], 0, 5, 0, VideoFormat::Bgrx, &mut scratch), Captured::Empty);
    let src = [1, 2, 3, 0];
    assert_eq!(capture_rgb(&src, 1, 1, 4, VideoFormat::Bgrx, &mut scratch), Captured::Packed);
    assert_eq!(scratch, vec![3, 2, 1]);
    assert_eq!(capture_rgb(&src, 1, 1, 4, VideoFormat::Other, &mut scratch), Captured::Unsupported);
    assert_eq!(capture_rgb(&src, 2, 1, 8, VideoFormat::Rgbx, &mut scratch), Captured::Unsupported);
    assert_eq!(scratch, vec![0; 6]);
}

#[test]
fn jpeg_frame_holds_what_was_written() {
    let frame = jpeg_frame(4, 2, &[1, 2, 3, 4], 3);
    assert_eq!(frame.format, PixelFormat::Jpeg);
    assert_eq!((frame.width, frame.height), (4, 2));
    assert_eq!(frame.data, vec![1, 2, 3]);
}

#[test]
fn capture_is_offered_four_layouts() {
    let offer = capture_offer();
    assert_eq!(offer.preferred, VideoFormat::Bgrx);
    assert_eq!(offer.formats.len(), 4);
    assert!(!offer.formats.contains(&VideoFormat::Other));
    assert_eq!(offer.size.max, (7680, 4320));
    assert_eq!(offer.framerate.max, (120, 1));
}

#[test]
fn only_raw_video_formats_are_followed() {
    let raw = Some(MediaKind { video: true, raw: true });
    assert!(is_video_format(true, true, raw));
    assert!(!is_video_format(false, true, raw));
    assert!(!is_video_format(true, false, raw));
    assert!(!is_video_format(true, true, Some(MediaKind { video: true, raw: false })));
    assert!(!is_video_format(true, true, None));
}

#[test]
fn scratch_grows_but_does_not_shrink() {
    let mut scratch = vec![1, 2];
    ensure_room(&mut scratch, 4);
    assert_eq!(scratch, vec![1, 2, 0, 0]);
    ensure_room(&mut scratch, 1);
    assert_eq!(scratch, vec![1, 2, 0, 0]);
}

#[test]
fn edid_sums_to_zero() {
    let edid = edid_1080p();
    assert_eq!(&edid[..124], &EDID_BASE[..]);
    assert_eq!(&edid[124..127], &[0x20, 0x20, 0]);
    let sum: u32 = edid.iter().map(|b| *b as u32).sum();
    assert_eq!(sum % 256, 0);
}

#[test]
fn client_edid_announces_the_client() {
    let edid = client_edid(2800, 1720, "Galaxy Tab S9+ Ultra").unwrap();
    assert_eq!(edid.len(), 128);
    assert_eq!(edid.iter().map(|b| *b as u32).sum::<u32>() % 256, 0);
    assert_eq!(edid[56] as u32 + (edid[58] as u32 >> 4) * 256, 2800);
    assert_eq!(edid[59] as u32 + (edid[61] as u32 >> 4) * 256, 1720);
    assert_eq!(&edid[72..77], &[0, 0, 0, 0xfc, 0]);
    assert_eq!(&edid[77..90], b"Galaxy Tab S9");
    // 3080 by 1765 pixels, 60 times a second, in units of 10 kHz.
    assert_eq!(edid[54] as u32 + edid[55] as u32 * 256, 32617);
}

#[test]
fn client_edid_in_full_hd_has_the_fixed_timing() {
    let edid = client_edid(1920, 1080, "é").unwrap();
    assert_eq!(&edid[54..72], &EDID_BASE[54..72]);
    assert_eq!(&edid[77..90], b"?\n           ");
}

#[test]
fn client_edid_refuses_what_it_cannot_announce() {
    assert!(client_edid(0, 1080, "x").is_none());
    assert!(client_edid(1920, 0, "x").is_none());
    assert!(client_edid(4096, 1080, "x").is_none());
    assert!(client_edid(1920, 4096, "x").is_none());
    assert!(client_edid(4095, 4095, "x").is_none());
    assert!(client_edid(3840, 2160, "x").is_some());
}

#[test]
fn every_client_gets_a_monitor() {
    assert_eq!(monitor_edid(2800, 1720, "Tab"), client_edid(2800, 1720, "Tab").unwrap());
    assert_eq!(monitor_edid(4095, 1080, "Tab"), client_edid(4095, 1080, "Tab").unwrap());
    let fixed = edid_1080p().to_vec();
    assert_eq!(fixed[56] as u32 + (fixed[58] as u32 >> 4) * 256, 1920);
    assert_eq!(fixed[59] as u32 + (fixed[61] as u32 >> 4) * 256, 1080);
    for (width, height) in
        [(0, 0), (0, 1080), (1920, 0), (4096, 1080), (1080, 4096), (4000, 3000), (u32::MAX, u32::MAX)]
    {
        assert_eq!(monitor_edid(width, height, "Tab"), fixed, "{width}x{height}");
    }
}

#[test]
fn lowest_available_device_is_opened() {
    let mut search = DeviceSearch::new();
    assert_eq!(search.on_status(2), SearchStep::Check(1));
    assert_eq!(search.on_status(1), SearchStep::Check(2));
    assert_eq!(search.on_status(0), SearchStep::Open(2));
}

#[test]
fn device_is_added_once() {
    let mut search = DeviceSearch::new();
    let mut adds = 0;
    let mut checks = 1;
    loop {
        match search.on_status(2) {
            SearchStep::Check(_) => checks += 1,
            SearchStep::Add => {
                adds += 1;
                checks += 1;
            }
            SearchStep::Open(_) => panic!("nothing is available"),
            SearchStep::Fail => break,
        }
    }
    assert_eq!((adds, checks), (1, 32));
}

#[test]
fn poll_results() {
    assert_eq!(after_poll(-1, true, false), PollAction::Retry);
    assert_eq!(after_poll(-1, false, true), PollAction::Stop);
    assert_eq!(after_poll(1, false, true), PollAction::HandleEvents);
    assert_eq!(after_poll(1, false, false), PollAction::Idle);
    assert_eq!(after_poll(0, false, true), PollAction::Idle);
}

#[test]
fn monitor_registers_and_publishes() {
    let mut m = VirtualMonitor::new();
    assert_eq!(m.next_request(), None);
    assert!(!m.wants_pixels(BUFFER_ID));
    assert_eq!(m.on_mode_changed(0, 5), ModeChange::Ignore);
    match m.on_mode_changed(2, 1) {
        ModeChange::Register { unregister, buffer } => {
            assert_eq!(unregister, None);
            assert_eq!((buffer.id, buffer.width, buffer.height), (BUFFER_ID, 2, 1));
            assert_eq!((buffer.stride, buffer.size), (8, 8));
        }
        other => panic!("{other:?}"),
    }
    assert_eq!(m.next_request(), Some(BUFFER_ID));
    assert_eq!(m.next_request(), None);
    assert!(m.wants_pixels(BUFFER_ID));
    assert!(!m.wants_pixels(BUFFER_ID + 1));
    let frame = m.on_update_ready(&[1, 2, 3, 0, 4, 5, 6, 0]);
    assert_eq!((frame.width, frame.height), (2, 1));
    assert_eq!(frame.rgb, vec![3, 2, 1, 6, 5, 4]);
    assert_eq!(m.next_request(), Some(BUFFER_ID));
    match m.on_mode_changed(4, 4) {
        ModeChange::Register { unregister, .. } => assert_eq!(unregister, Some(BUFFER_ID)),
        other => panic!("{other:?}"),
    }
}
