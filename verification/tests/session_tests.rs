use oxygen::clip::AudioClip;
use oxygen::db::Db;
use oxygen::importer::{import_step, mono_from_interleaved, ImportAction, ImportEvent};
use oxygen::js_logger::{JsLogger, LogLevel};
use oxygen::record::RecordState;
use oxygen::ui::{RenderMode, Tab, UiState};
use oxygen::ErrorKind;

fn fresh_ui() -> UiState {
    let (db, _) = Db::in_memory().unwrap();
    UiState::new(db)
}

fn fake_packets(n: usize) -> Vec<Vec<u8>> {
    (0..n).map(|i| vec![i as u8; 2]).collect()
}

#[test]
fn test_record_flow_saves_and_selects() {
    let mut ui = fresh_ui();
    assert!(ui.get_record_tab_selected());
    assert!(ui.begin_record());
    assert!(ui.get_streaming());
    assert!(!ui.begin_record());

    let mut rec = RecordState::new(
        "take".to_string(),
        "2024-02-02 10:00:00 UTC".to_string(),
        48000,
    );
    let burst: Vec<u32> = vec![0.1f32, 0.9, 0.2, 0.8].into_iter().map(f32::to_bits).collect();
    rec.append_interleaved(&burst, 2);
    let clip = rec.stop();
    assert_eq!(clip.samples.len(), 2);
    assert_eq!(f32::from_bits(clip.samples[0]), 0.1);
    assert_eq!(f32::from_bits(clip.samples[1]), 0.2);

    let n = clip.samples.len() as u32;
    ui.stop_recording(clip, 48000, n, &fake_packets(1)).unwrap();
    assert!(!ui.get_record_tab_selected());
    let id = ui.get_current_clip_id().expect("selected clip has an id");
    assert!(id >= 1);
    assert_eq!(ui.get_clips().unwrap().len(), 1);
}

#[test]
fn test_delete_and_undelete() {
    let mut ui = fresh_ui();
    let clip = AudioClip {
        id: None,
        name: "victim".to_string(),
        date: "2024-02-02 10:00:00 UTC".to_string(),
        samples: vec![0.5f32.to_bits()],
        sample_rate: 48000,
    };
    ui.stop_recording(clip, 48000, 1, &fake_packets(1)).unwrap();
    assert_eq!(ui.get_clips().unwrap().len(), 1);

    ui.delete_current_clip().unwrap();
    assert!(ui.get_record_tab_selected());
    assert_eq!(ui.get_clips().unwrap().len(), 0);

    ui.undelete_current_clip(48000, 1, &fake_packets(1)).unwrap();
    assert_eq!(ui.get_clips().unwrap().len(), 1);
    assert!(ui.get_current_clip_id().is_some());

    // Nothing left to undo.
    assert_eq!(
        ui.undelete_current_clip(48000, 1, &fake_packets(1)).unwrap_err(),
        ErrorKind::InvalidArgument
    );
}

#[test]
fn test_delete_without_selection_rejected() {
    let mut ui = fresh_ui();
    assert_eq!(ui.delete_current_clip().unwrap_err(), ErrorKind::InvalidArgument);
}

#[test]
fn test_rename_current_clip_flow() {
    let mut ui = fresh_ui();
    let clip = AudioClip {
        id: None,
        name: "before".to_string(),
        date: "2024-02-02 10:00:00 UTC".to_string(),
        samples: vec![0.5f32.to_bits()],
        sample_rate: 48000,
    };
    ui.stop_recording(clip, 48000, 1, &fake_packets(1)).unwrap();
    ui.rename_current_clip("after".to_string()).unwrap();
    let listing = ui.get_clips().unwrap();
    assert_eq!(listing.len(), 1);
    assert_eq!(listing[0].name, "after");
    match &ui.tab {
        Tab::Clip { clip, .. } => assert_eq!(clip.name, "after"),
        Tab::Record { .. } => panic!("clip tab expected"),
    }
}

#[test]
fn test_playback_tab_flow() {
    let mut ui = fresh_ui();
    assert!(!ui.begin_play());
    let clip = AudioClip {
        id: Some(1),
        name: "p".to_string(),
        date: "2024-02-02 10:00:00 UTC".to_string(),
        samples: vec![0.5f32.to_bits()],
        sample_rate: 48000,
    };
    ui.set_current_clip(clip);
    assert!(!ui.get_streaming());
    assert!(ui.begin_play());
    assert!(ui.get_streaming());
    ui.stop_playback();
    assert!(!ui.get_streaming());
    ui.set_render_mode(RenderMode::Spectrogram);
    assert_eq!(ui.render_mode, RenderMode::Spectrogram);
    ui.set_current_tab_record();
    assert!(ui.get_record_tab_selected());
}

#[test]
fn test_import_step_decisions() {
    assert_eq!(import_step(3, &ImportEvent::Packet { track_id: 3 }), ImportAction::Decode);
    assert_eq!(import_step(3, &ImportEvent::Packet { track_id: 4 }), ImportAction::Skip);
    assert_eq!(import_step(3, &ImportEvent::EndOfStream), ImportAction::Finish);
    assert_eq!(import_step(3, &ImportEvent::ReadFailed), ImportAction::Fail);
    assert_eq!(import_step(3, &ImportEvent::DecodeFailed), ImportAction::Skip);
    assert_eq!(import_step(3, &ImportEvent::DecoderBroke), ImportAction::Finish);
}

#[test]
fn test_mono_from_interleaved_takes_channel_zero() {
    let data: Vec<u32> = vec![1.0f32, 2.0, 3.0, 4.0, 5.0, 6.0].into_iter().map(f32::to_bits).collect();
    let mono = mono_from_interleaved(&data, 3);
    assert_eq!(mono.len(), 2);
    assert_eq!(f32::from_bits(mono[0]), 1.0);
    assert_eq!(f32::from_bits(mono[1]), 4.0);
    // A trailing partial frame still contributes its first channel.
    let ragged = mono_from_interleaved(&data, 4);
    assert_eq!(ragged.len(), 2);
    assert_eq!(f32::from_bits(ragged[1]), 5.0);
}

#[test]
fn test_logger_registration_and_routing() {
    let mut logger = JsLogger::new();
    assert!(logger.route(LogLevel::Error).is_none());
    assert!(logger.set_logger(7));
    assert!(!logger.set_logger(8));
    let (cb, tag) = logger.route(LogLevel::Warn).unwrap();
    assert_eq!(cb, 8);
    assert_eq!(tag, "warn");
    assert_eq!(logger.route(LogLevel::Error).unwrap().1, "error");
    assert_eq!(logger.route(LogLevel::Trace).unwrap().1, "trace");
}

#[test]
fn test_draw_current_clip_modes() {
    let mut ui = fresh_ui();
    assert!(ui.draw_current_clip(8, 8).is_none());
    let clip = AudioClip {
        id: Some(1),
        name: "draw".to_string(),
        date: "2024-02-02 10:00:00 UTC".to_string(),
        samples: (0..4800)
            .map(|i| ((i as f32 / 4800.0).sin()).to_bits())
            .collect(),
        sample_rate: 48000,
    };
    ui.set_current_clip(clip);
    let wave = ui.draw_current_clip(8, 8).unwrap().unwrap();
    assert_eq!(wave.len(), 8 * 8 * 4);
    ui.set_render_mode(RenderMode::Spectrogram);
    let spec = ui.draw_current_clip(8, 8).unwrap().unwrap();
    assert_eq!(spec.len(), 8 * 8 * 4);
}
