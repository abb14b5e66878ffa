use silicon::clipboard::{
    dump_image_to_clipboard, on_clipboard_open, on_set_result, on_wayland_spawn, on_xclip_spawn,
    rgba_to_rgb, should_retry_open, strategy_for, unsupported_error, ClipboardOpen, Platform,
    SpawnResult, Strategy, ToolAction,
};
use silicon::config::OutputOpts;
use silicon::dispatch::{
    destination_of, format_timestamp, plan_message, select_destination, DestinationSpec,
    DispatchPlan, Timestamp,
};
use silicon::error::Error;

fn noon() -> Timestamp {
    Timestamp { year: 2024, month: 1, day: 1, hour: 12, minute: 0, second: 0 }
}

#[test]
fn default_template_formats_expected_filename() {
    let name =
        format_timestamp("silicon_[year][month][day]_[hour][minute][second].png", noon()).unwrap();
    assert_eq!(name, "silicon_20240101_120000.png");
}

#[test]
fn template_pads_components() {
    let ts = Timestamp { year: 87, month: 9, day: 3, hour: 4, minute: 5, second: 6 };
    let name = format_timestamp("[year]-[month]-[day] [hour]:[minute]:[second]", ts).unwrap();
    assert_eq!(name, "0087-09-03 04:05:06");
}

#[test]
fn template_literal_text_is_kept() {
    assert_eq!(format_timestamp("shot.png", noon()).unwrap(), "shot.png");
    assert_eq!(format_timestamp("", noon()).unwrap(), "");
}

#[test]
fn unknown_token_is_invalid() {
    match format_timestamp("x[weekday]y", noon()) {
        Err(Error::InvalidTemplate(t)) => assert_eq!(t, "x[weekday]y"),
        other => panic!("expected InvalidTemplate, got {:?}", other),
    }
    assert!(matches!(format_timestamp("open[", noon()), Err(Error::InvalidTemplate(_))));
}

#[test]
fn destination_priority_is_file_clipboard_timestamp() {
    let mut out = OutputOpts::default();
    out.file = Some(String::from("/tmp/shot.png"));
    out.clipboard = Some(true);
    assert!(matches!(destination_of(&out), DestinationSpec::ExplicitFile(p) if p == "/tmp/shot.png"));

    let mut out = OutputOpts::default();
    out.clipboard = Some(true);
    assert!(matches!(destination_of(&out), DestinationSpec::Clipboard));

    let out = OutputOpts::default();
    match destination_of(&out) {
        DestinationSpec::TimestampedPath { dir, template } => {
            assert_eq!(dir, "");
            assert_eq!(template, "silicon_[year][month][day]_[hour][minute][second].png");
        }
        other => panic!("expected TimestampedPath, got {:?}", other),
    }
}

#[test]
fn exactly_one_dispatch_branch_executes() {
    let cases = vec![
        DestinationSpec::ExplicitFile(String::from("a.png")),
        DestinationSpec::Clipboard,
        DestinationSpec::TimestampedPath {
            dir: String::from("shots"),
            template: String::from("[hour].png"),
        },
    ];
    for dest in &cases {
        let plan = select_destination(dest, noon()).unwrap();
        let branches = [
            matches!(plan, DispatchPlan::WriteFile { .. }),
            matches!(plan, DispatchPlan::CopyToClipboard),
            matches!(plan, DispatchPlan::WriteTimestamped { .. }),
        ];
        assert_eq!(branches.iter().filter(|b| **b).count(), 1);
    }
}

#[test]
fn timestamped_plan_joins_dir_and_reports_filename() {
    let dest = DestinationSpec::TimestampedPath {
        dir: String::from("shots"),
        template: String::from("s_[hour][minute].png"),
    };
    match select_destination(&dest, noon()).unwrap() {
        DispatchPlan::WriteTimestamped { path, file } => {
            assert_eq!(file, "s_1200.png");
            assert_eq!(path, "shots/s_1200.png");
        }
        other => panic!("expected WriteTimestamped, got {:?}", other),
    }
}

#[test]
fn plan_messages_name_their_target() {
    let p = DispatchPlan::WriteFile { path: String::from("/tmp/a.png") };
    assert_eq!(plan_message(&p), "Image saved to /tmp/a.png");
    assert_eq!(plan_message(&DispatchPlan::CopyToClipboard), "Image saved to clipboard");
    let p = DispatchPlan::WriteTimestamped {
        path: String::from("shots/a.png"),
        file: String::from("a.png"),
    };
    assert_eq!(plan_message(&p), "Image saved to a.png");
}

#[test]
fn strategy_selection_is_total() {
    assert_eq!(strategy_for(Platform::Linux), Strategy::ToolChain);
    assert_eq!(strategy_for(Platform::MacOs), Strategy::Pasteboard);
    assert_eq!(strategy_for(Platform::Windows), Strategy::WinClipboard);
    assert_eq!(strategy_for(Platform::Other), Strategy::Unsupported);
    assert!(matches!(unsupported_error(), Error::Clipboard(_)));
}

#[test]
fn linux_clipboard_holds_for_grace_window_detached() {
    let job = dump_image_to_clipboard(Platform::Linux);
    assert!(job.detached);
    assert_eq!(job.hold_seconds, 45);
    let job = dump_image_to_clipboard(Platform::MacOs);
    assert!(!job.detached);
    assert_eq!(job.hold_seconds, 0);
}

#[test]
fn clipboard_open_outcomes_notify_and_gate() {
    let (n, go) = on_clipboard_open(&ClipboardOpen::Ready);
    assert!(go);
    assert_eq!(n.text, "Image saved to clipboard");
    let (n, go) = on_clipboard_open(&ClipboardOpen::NotSupported);
    assert!(!go);
    assert_eq!(n.text, "Clipboard not supported");
    let (n, go) = on_clipboard_open(&ClipboardOpen::Failed);
    assert!(!go);
    assert_eq!(n.text, "Failed to copy");
}

#[test]
fn set_failure_is_reported_with_its_text() {
    assert!(on_set_result(&Ok(())).is_none());
    let n = on_set_result(&Err(String::from("denied"))).unwrap();
    assert_eq!(n.text, "Failed to copy to clipboard: denied");
}

#[test]
fn wayland_success_feeds_bytes_failure_falls_back() {
    assert!(matches!(on_wayland_spawn(&SpawnResult::Started), ToolAction::FeedPngToWayland));
    assert!(matches!(
        on_wayland_spawn(&SpawnResult::FailedToStart(String::from("no wl-copy"))),
        ToolAction::RunXclipWithPath
    ));
}

#[test]
fn both_tools_absent_gives_composite_message_naming_both() {
    let wl = String::from("No such file or directory");
    let x = String::from("command not found");
    match on_xclip_spawn(&wl, &SpawnResult::FailedToStart(x.clone())) {
        Err(Error::Clipboard(m)) => {
            assert!(m.contains("wl-copy"), "message {:?} does not name wl-copy", m);
            assert!(m.contains("xclip"), "message {:?} does not name xclip", m);
            assert!(m.contains("No such file or directory"));
            assert!(m.contains("command not found"));
        }
        other => panic!("expected composite Clipboard error, got {:?}", other),
    }
    assert!(on_xclip_spawn(&wl, &SpawnResult::Started).is_ok());
}

#[test]
fn windows_bitmap_strips_alpha() {
    let rgba = vec![10u8, 20, 30, 255, 40, 50, 60, 0, 70, 80, 90, 128];
    assert_eq!(rgba_to_rgb(&rgba), vec![10, 20, 30, 40, 50, 60, 70, 80, 90]);
    assert_eq!(rgba_to_rgb(&Vec::new()), Vec::<u8>::new());
}

#[test]
fn windows_open_retries_ten_times() {
    assert!(should_retry_open(0));
    assert!(should_retry_open(9));
    assert!(!should_retry_open(10));
}

#[test]
fn error_messages_carry_library_prefix() {
    assert_eq!(
        Error::ClipboardUnsupported.message(),
        "[silicon.nvim]: clipboard not supported"
    );
    assert_eq!(
        Error::Io(String::from("shot.png: denied")).message(),
        "[silicon.nvim]: shot.png: denied"
    );
    assert_eq!(
        Error::ThemeRegistryCorrupt.message(),
        "[silicon.nvim]: theme registry is missing the default theme"
    );
}
